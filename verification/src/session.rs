//! The session of the application: what is known of the last one, and which windows and groups of
//! window tabs are to be remembered of this one.
use crate::ids::{fresh_id, hyphenated, id_text, is_random, Id};
use crate::text::{decimal, joined, opt_text};
use vstd::prelude::*;
use vstd::string::*;

pub mod laws;
pub mod windows;

verus! {

/// The key that the identifier of the session is stored under.
pub const SESSION_ID_KEY: &'static str = "session_id";

/// The key that the window stack is stored under.
pub const SESSION_WINDOW_STACK_KEY: &'static str = "session_window_stack";

/// The key that the groups of window tabs are stored under.
pub const SESSION_WINDOW_TAB_GROUPS_KEY: &'static str = "session_window_tab_groups";

/// A window.
#[derive(Debug, Clone, Copy, PartialEq, Eq, Hash, Structural)]
pub struct WindowId {
    pub id: u64,
}

/// The windows with the numbers.
pub open spec fn window_ids(numbers: Seq<u64>) -> Seq<WindowId> {
    numbers.map_values(|id: u64| WindowId { id })
}

/// The groups of windows with the numbers.
pub open spec fn window_groups(groups: Seq<Seq<u64>>) -> Seq<Seq<WindowId>> {
    groups.map_values(|numbers: Seq<u64>| window_ids(numbers))
}

/// The numbers of each list.
pub open spec fn lists_of(groups: Seq<Vec<u64>>) -> Seq<Seq<u64>> {
    groups.map_values(|group: Vec<u64>| group@)
}

/// The windows of each list.
pub open spec fn window_lists(groups: Seq<Vec<WindowId>>) -> Seq<Seq<WindowId>> {
    groups.map_values(|group: Vec<WindowId>| group@)
}

/// A list of texts in JSON: between brackets, with commas between them.
pub open spec fn bracketed(items: Seq<Seq<char>>) -> Seq<char> {
    seq!['['] + joined(items, ',') + seq![']']
}

/// A list of numbers in JSON.
pub open spec fn numbers_text(numbers: Seq<u64>) -> Seq<char> {
    bracketed(numbers.map_values(|n: u64| decimal(n as nat)))
}

/// A list of lists of numbers in JSON.
pub open spec fn groups_text(groups: Seq<Seq<u64>>) -> Seq<char> {
    bracketed(groups.map_values(|numbers: Seq<u64>| numbers_text(numbers)))
}

/// The numbers that `serde_json::from_str` finds in a text, where the text is a list of numbers.
pub uninterp spec fn numbers_in(text: Seq<char>) -> Option<Seq<u64>>;

/// The lists of numbers that `serde_json::from_str` finds in a text, where the text is a list of
/// such lists.
pub uninterp spec fn groups_in(text: Seq<char>) -> Option<Seq<Seq<u64>>>;

/// Calls `serde_json::from_str` for a list of numbers; the result is a function of the text.
#[verifier::external_body]
fn read_numbers(text: &str) -> (r: Option<Vec<u64>>)
    ensures
        match r {
            Some(numbers) => numbers_in(text@) == Some(numbers@),
            None => numbers_in(text@) is None,
        },
{
    serde_json::from_str::<Vec<u64>>(text).ok()
}

/// Calls `serde_json::from_str` for a list of lists of numbers; the result is a function of the
/// text.
#[verifier::external_body]
fn read_groups(text: &str) -> (r: Option<Vec<Vec<u64>>>)
    ensures
        match r {
            Some(groups) => groups_in(text@) == Some(lists_of(groups@)),
            None => groups_in(text@) is None,
        },
{
    serde_json::from_str::<Vec<Vec<u64>>>(text).ok()
}

/// Calls `serde_json::to_string` on a list of numbers. It writes them in decimal, with commas
/// between them and without white space, and does not fail; what it writes is read back as the
/// list.
#[verifier::external_body]
pub(crate) fn write_numbers(numbers: &Vec<u64>) -> (r: Option<String>)
    ensures
        match r {
            Some(text) => text@ == numbers_text(numbers@) && numbers_in(text@) == Some(numbers@),
            None => false,
        },
{
    serde_json::to_string(numbers).ok()
}

/// Calls `serde_json::to_string` on a list of lists of numbers. It writes them as one list of
/// lists without white space, and does not fail; what it writes is read back as the lists.
#[verifier::external_body]
pub(crate) fn write_groups(groups: &Vec<Vec<u64>>) -> (r: Option<String>)
    ensures
        match r {
            Some(text) => text@ == groups_text(lists_of(groups@)) && groups_in(text@) == Some(
                lists_of(groups@),
            ),
            None => false,
        },
{
    serde_json::to_string(groups).ok()
}

/// What the last session left behind, as far as it could be read.
#[derive(Debug)]
pub struct StoredSession {
    pub session_id: Option<String>,
    pub window_stack: Option<String>,
    pub window_tab_groups: Option<String>,
}

/// A session.
#[derive(Debug)]
pub struct Session {
    session_id: String,
    old_session_id: Option<String>,
    old_window_ids: Option<Vec<WindowId>>,
    old_window_tab_groups: Option<Vec<Vec<WindowId>>>,
}

/// What a session knows.
#[verifier::ext_equal]
pub ghost struct SessionModel {
    pub id: Seq<char>,
    pub old_id: Option<Seq<char>>,
    pub old_window_ids: Option<Seq<WindowId>>,
    pub old_window_tab_groups: Option<Seq<Seq<WindowId>>>,
}

/// What a session that follows the stored one knows. Of a text that cannot be read, nothing.
pub open spec fn session_after(id: Seq<char>, stored: StoredSession) -> SessionModel {
    SessionModel {
        id,
        old_id: opt_text(stored.session_id),
        old_window_ids: match stored.window_stack {
            Some(text) => match numbers_in(text@) {
                Some(numbers) => Some(window_ids(numbers)),
                None => None,
            },
            None => None,
        },
        old_window_tab_groups: match stored.window_tab_groups {
            Some(text) => match groups_in(text@) {
                Some(groups) => Some(window_groups(groups)),
                None => None,
            },
            None => None,
        },
    }
}

/// The windows with the numbers.
fn to_window_ids(numbers: &Vec<u64>) -> (r: Vec<WindowId>)
    ensures
        r@ == window_ids(numbers@),
{
    let mut ids: Vec<WindowId> = Vec::new();
    for i in 0..numbers.len()
        invariant
            ids@ == window_ids(numbers@.take(i as int)),
    {
        ids.push(WindowId { id: numbers[i] });
        assert(ids@ =~= window_ids(numbers@.take(i + 1)));
    }
    assert(numbers@.take(numbers@.len() as int) =~= numbers@);
    ids
}

/// The groups of windows with the numbers.
fn to_window_groups(groups: &Vec<Vec<u64>>) -> (r: Vec<Vec<WindowId>>)
    ensures
        window_lists(r@) == window_groups(lists_of(groups@)),
{
    let mut windows: Vec<Vec<WindowId>> = Vec::new();
    for i in 0..groups.len()
        invariant
            windows@.len() == i,
            forall|j: int| 0 <= j < i ==> #[trigger] windows@[j]@ == window_ids(groups@[j]@),
    {
        windows.push(to_window_ids(&groups[i]));
    }
    assert(window_lists(windows@) =~= window_groups(lists_of(groups@)));
    windows
}

/// A copy of a list of windows.
fn copy_windows(windows: &Vec<WindowId>) -> (r: Vec<WindowId>)
    ensures
        r@ == windows@,
{
    let mut copy: Vec<WindowId> = Vec::new();
    for i in 0..windows.len()
        invariant
            copy@ == windows@.take(i as int),
    {
        copy.push(windows[i]);
        assert(copy@ =~= windows@.take(i + 1));
    }
    assert(windows@.take(windows@.len() as int) =~= windows@);
    copy
}

impl View for Session {
    type V = SessionModel;

    closed spec fn view(&self) -> SessionModel {
        SessionModel {
            id: self.session_id@,
            old_id: opt_text(self.old_session_id),
            old_window_ids: match self.old_window_ids {
                Some(windows) => Some(windows@),
                None => None,
            },
            old_window_tab_groups: match self.old_window_tab_groups {
                Some(groups) => Some(window_lists(groups@)),
                None => None,
            },
        }
    }
}

impl Session {
    /// The session with the identifier, after the one that was stored.
    pub fn new(session_id: String, stored: StoredSession) -> (r: Self)
        ensures
            r@ == session_after(session_id@, stored),
    {
        let old_window_ids = match &stored.window_stack {
            Some(text) => match read_numbers(text.as_str()) {
                Some(numbers) => Some(to_window_ids(&numbers)),
                None => None,
            },
            None => None,
        };
        let old_window_tab_groups = match &stored.window_tab_groups {
            Some(text) => match read_groups(text.as_str()) {
                Some(groups) => Some(to_window_groups(&groups)),
                None => None,
            },
            None => None,
        };
        Session {
            session_id,
            old_session_id: stored.session_id,
            old_window_ids,
            old_window_tab_groups,
        }
    }

    /// A session with a fresh identifier, the first there is.
    pub fn test() -> (r: Self)
        ensures
            exists|id: Id| #[trigger]
                is_random(id) && r@ == (SessionModel {
                    id: id_text(id),
                    old_id: None,
                    old_window_ids: None,
                    old_window_tab_groups: None,
                }),
    {
        let id = fresh_id();
        assert(is_random(id));
        Session {
            session_id: hyphenated(id),
            old_session_id: None,
            old_window_ids: None,
            old_window_tab_groups: None,
        }
    }

    /// A session with a fresh identifier, after one of which only the identifier is known.
    pub fn test_with_old_session(old_session_id: String) -> (r: Self)
        ensures
            exists|id: Id| #[trigger]
                is_random(id) && r@ == (SessionModel {
                    id: id_text(id),
                    old_id: Some(old_session_id@),
                    old_window_ids: None,
                    old_window_tab_groups: None,
                }),
    {
        let id = fresh_id();
        assert(is_random(id));
        Session {
            session_id: hyphenated(id),
            old_session_id: Some(old_session_id),
            old_window_ids: None,
            old_window_tab_groups: None,
        }
    }

    /// The identifier of the session.
    pub fn id(&self) -> (r: &str)
        ensures
            r@ == self@.id,
    {
        self.session_id.as_str()
    }
}

/// The session that the application is in.
#[derive(Debug)]
pub struct AppSession {
    session: Session,
}

impl View for AppSession {
    type V = SessionModel;

    closed spec fn view(&self) -> SessionModel {
        self.session@
    }
}

impl AppSession {
    /// The application in the session.
    pub fn new(session: Session) -> (r: Self)
        ensures
            r@ == session@,
    {
        AppSession { session }
    }

    /// The identifier of the session.
    pub fn id(&self) -> (r: &str)
        ensures
            r@ == self@.id,
    {
        self.session.id()
    }

    /// The identifier of the last session.
    pub fn last_session_id(&self) -> (r: Option<&str>)
        ensures
            match r {
                Some(id) => self@.old_id == Some(id@),
                None => self@.old_id is None,
            },
    {
        match &self.session.old_session_id {
            Some(id) => Some(id.as_str()),
            None => None,
        }
    }

    /// Puts the application into another session.
    pub fn replace_session_for_test(&mut self, session: Session)
        ensures
            final(self)@ == session@,
    {
        self.session = session;
    }

    /// The windows of the last session, the frontmost first.
    pub fn last_session_window_stack(&self) -> (r: Option<Vec<WindowId>>)
        ensures
            match r {
                Some(windows) => self@.old_window_ids == Some(windows@),
                None => self@.old_window_ids is None,
            },
    {
        match &self.session.old_window_ids {
            Some(windows) => Some(copy_windows(windows)),
            None => None,
        }
    }

    /// The groups of window tabs of the last session.
    pub fn last_session_window_tab_groups(&self) -> (r: Option<Vec<Vec<WindowId>>>)
        ensures
            match r {
                Some(groups) => self@.old_window_tab_groups == Some(window_lists(groups@)) && (
                self@.old_window_tab_groups matches Some(all) && all.len() == groups@.len()
                    && forall|i: int| 0 <= i < all.len() ==> #[trigger] all[i] == groups@[i]@),
                None => self@.old_window_tab_groups is None,
            },
    {
        match &self.session.old_window_tab_groups {
            Some(groups) => {
                let mut copy: Vec<Vec<WindowId>> = Vec::new();
                for i in 0..groups.len()
                    invariant
                        copy@.len() == i,
                        forall|j: int| 0 <= j < i ==> #[trigger] copy@[j]@ == groups@[j]@,
                {
                    copy.push(copy_windows(&groups[i]));
                }
                assert(window_lists(copy@) =~= window_lists(groups@));
                Some(copy)
            },
            None => None,
        }
    }
}

} // verus!
