//! Which windows and groups of window tabs are to be remembered, and when.
use crate::session::{
    groups_in, groups_text, lists_of, numbers_in, numbers_text, session_after, window_groups,
    window_ids, write_groups, write_numbers, StoredSession,
};
use std::collections::HashSet;
use vstd::prelude::*;

verus! {

broadcast use vstd::std_specs::hash::group_hash_axioms;

/// How many milliseconds pass between two looks at the windows.
pub const WINDOW_STATE_INTERVAL: u64 = 500;

/// A window as it stands in the window stack: its number, the numbers of the windows that it
/// shares a tab bar with where that is known, and whether it takes part in such a bar.
#[derive(Debug)]
pub struct WindowInfo {
    pub id: u64,
    pub tabs: Option<Vec<u64>>,
    pub participates: bool,
}

/// The windows and groups of window tabs that are to be remembered.
#[derive(Debug, PartialEq, Eq)]
pub struct WindowState {
    pub stack: Vec<u64>,
    pub tab_groups: Vec<Vec<u64>>,
}

/// What is to be remembered.
#[verifier::ext_equal]
pub ghost struct WindowStateModel {
    pub stack: Seq<u64>,
    pub tab_groups: Seq<Seq<u64>>,
}

impl View for WindowState {
    type V = WindowStateModel;

    open spec fn view(&self) -> WindowStateModel {
        WindowStateModel { stack: self.stack@, tab_groups: lists_of(self.tab_groups@) }
    }
}

/// The first place where the number stands in the list, or the length of the list.
pub open spec fn place(list: Seq<u64>, id: u64) -> int
    decreases list.len(),
{
    if list.len() == 0 || list[0] == id {
        0
    } else {
        1 + place(list.drop_first(), id)
    }
}

/// The list, turned so that the number comes first where it occurs.
pub open spec fn turned(list: Seq<u64>, id: u64) -> Seq<u64> {
    list.skip(place(list, id)) + list.take(place(list, id))
}

/// The group of tabs that the window stands for, its own tab first: the window takes part in a
/// tab bar, and that has more than one tab.
pub open spec fn group_of(window: WindowInfo) -> Option<Seq<u64>> {
    match window.tabs {
        Some(tabs) => if window.participates && tabs@.len() > 1 {
            Some(turned(tabs@, window.id))
        } else {
            None
        },
        None => None,
    }
}

/// The tabs of the groups that the windows stand for.
pub open spec fn seen_tabs(windows: Seq<WindowInfo>) -> Set<u64>
    decreases windows.len(),
{
    if windows.len() == 0 {
        Set::empty()
    } else {
        match group_of(windows.last()) {
            Some(group) => seen_tabs(windows.drop_last()).union(group.to_set()),
            None => seen_tabs(windows.drop_last()),
        }
    }
}

/// No number of the list is in the set.
pub open spec fn is_apart(list: Seq<u64>, set: Set<u64>) -> bool {
    forall|i: int| 0 <= i < list.len() ==> !set.contains(#[trigger] list[i])
}

/// The groups that the windows stand for, but for those that share a tab with a group of an
/// earlier window.
pub open spec fn tab_groups_of(windows: Seq<WindowInfo>) -> Seq<Seq<u64>>
    decreases windows.len(),
{
    if windows.len() == 0 {
        Seq::empty()
    } else {
        let earlier = tab_groups_of(windows.drop_last());
        match group_of(windows.last()) {
            Some(group) => if is_apart(group, seen_tabs(windows.drop_last())) {
                earlier.push(group)
            } else {
                earlier
            },
            None => earlier,
        }
    }
}

/// What is to be remembered of the windows.
pub open spec fn state_of(windows: Seq<WindowInfo>) -> WindowStateModel {
    WindowStateModel {
        stack: windows.map_values(|window: WindowInfo| window.id),
        tab_groups: tab_groups_of(windows),
    }
}

proof fn lemma_place(list: Seq<u64>, id: u64, i: int)
    requires
        0 <= i <= list.len(),
        i < list.len() ==> list[i] == id,
        forall|j: int| 0 <= j < i ==> #[trigger] list[j] != id,
    ensures
        place(list, id) == i,
    decreases list.len(),
{
    if i > 0 {
        assert forall|j: int| 0 <= j < i - 1 implies #[trigger] list.drop_first()[j] != id by {
            assert(list[j + 1] != id);
        }
        assert(list[0] != id);
        lemma_place(list.drop_first(), id, i - 1);
    }
}

proof fn lemma_place_bounds(list: Seq<u64>, id: u64)
    ensures
        0 <= place(list, id) <= list.len(),
        list.contains(id) ==> place(list, id) < list.len() && list[place(list, id)] == id,
    decreases list.len(),
{
    if list.len() > 0 && list[0] != id {
        lemma_place_bounds(list.drop_first(), id);
        if list.contains(id) {
            let i = choose|i: int| 0 <= i < list.len() && list[i] == id;
            assert(list.drop_first()[i - 1] == id);
            assert(list.drop_first().contains(id));
        }
    }
}

/// The list, turned so that the number comes first where it occurs.
fn turn(list: &Vec<u64>, id: u64) -> (r: Vec<u64>)
    ensures
        r@ == turned(list@, id),
{
    let len = list.len();
    let mut at: usize = 0;
    while at < len && list[at] != id
        invariant
            at <= len,
            len == list@.len(),
            forall|j: int| 0 <= j < at ==> #[trigger] list@[j] != id,
        decreases len - at,
    {
        at = at + 1;
    }
    proof {
        lemma_place(list@, id, at as int);
    }
    let mut r: Vec<u64> = Vec::new();
    for i in at..len
        invariant
            at <= len,
            len == list@.len(),
            r@ == list@.subrange(at as int, i as int),
    {
        r.push(list[i]);
        assert(r@ =~= list@.subrange(at as int, i + 1));
    }
    assert(r@ =~= list@.skip(at as int));
    for i in 0..at
        invariant
            at <= list@.len(),
            r@ == list@.skip(at as int) + list@.take(i as int),
    {
        r.push(list[i]);
        assert(r@ =~= list@.skip(at as int) + list@.take(i + 1));
    }
    r
}

/// Whether no number of the list is in the set.
fn apart(list: &Vec<u64>, set: &HashSet<u64>) -> (r: bool)
    ensures
        r == is_apart(list@, set@),
{
    for i in 0..list.len()
        invariant
            forall|j: int| 0 <= j < i ==> !set@.contains(#[trigger] list@[j]),
    {
        if set.contains(&list[i]) {
            return false;
        }
    }
    true
}

/// Adds the numbers of the list to the set.
fn add_all(set: &mut HashSet<u64>, list: &Vec<u64>)
    ensures
        final(set)@ == old(set)@.union(list@.to_set()),
{
    let ghost before = set@;
    for i in 0..list.len()
        invariant
            set@ == before.union(list@.take(i as int).to_set()),
    {
        set.insert(list[i]);
        proof {
            let more = list@.take(i + 1);
            assert(more =~= list@.take(i as int).push(list@[i as int]));
            assert forall|n: u64| #[trigger]
                more.to_set().contains(n) <==> list@.take(i as int).to_set().contains(n) || n
                    == list@[i as int] by {
                if more.contains(n) {
                    let k = choose|k: int| 0 <= k < more.len() && more[k] == n;
                    if k < i {
                        assert(list@.take(i as int)[k] == n);
                    }
                }
                if list@.take(i as int).contains(n) {
                    let k = choose|k: int|
                        0 <= k < list@.take(i as int).len() && list@.take(i as int)[k] == n;
                    assert(more[k] == n);
                }
                assert(more[i as int] == list@[i as int]);
            }
            assert(set@ =~= before.union(more.to_set()));
        }
    }
    assert(list@.take(list@.len() as int) =~= list@);
}

/// What is to be remembered of the windows of the window stack; nothing where the platform does
/// not know the stack.
pub fn session_window_state(windows: Option<&Vec<WindowInfo>>) -> (r: Option<WindowState>)
    ensures
        match windows {
            Some(windows) => {
                &&& r matches Some(state)
                &&& state@ == state_of(windows@)
                &&& state.stack@ == state_of(windows@).stack
                &&& state.tab_groups@.len() == state_of(windows@).tab_groups.len()
                &&& forall|k: int|
                    0 <= k < state.tab_groups@.len() ==> (#[trigger] state.tab_groups@[k])@
                        == state_of(windows@).tab_groups[k]
            },
            None => r is None,
        },
{
    let windows = match windows {
        Some(windows) => windows,
        None => {
            return None;
        },
    };
    let mut seen: HashSet<u64> = HashSet::new();
    let mut tab_groups: Vec<Vec<u64>> = Vec::new();
    let mut stack: Vec<u64> = Vec::new();
    assert(lists_of(tab_groups@) =~= tab_groups_of(windows@.take(0)));
    assert(seen@ =~= seen_tabs(windows@.take(0)));
    for i in 0..windows.len()
        invariant
            stack@ == windows@.take(i as int).map_values(|window: WindowInfo| window.id),
            seen@ == seen_tabs(windows@.take(i as int)),
            lists_of(tab_groups@) == tab_groups_of(windows@.take(i as int)),
    {
        let window = &windows[i];
        proof {
            assert(windows@.take(i + 1).drop_last() =~= windows@.take(i as int));
            assert(windows@.take(i + 1).last() == *window);
        }
        stack.push(window.id);
        assert(stack@ =~= windows@.take(i + 1).map_values(|window: WindowInfo| window.id));
        if let Some(tabs) = &window.tabs {
            if window.participates && tabs.len() > 1 {
                let group = turn(tabs, window.id);
                let new = apart(&group, &seen);
                add_all(&mut seen, &group);
                if new {
                    let ghost earlier = lists_of(tab_groups@);
                    let ghost numbers = group@;
                    tab_groups.push(group);
                    assert(lists_of(tab_groups@) =~= earlier.push(numbers));
                }
            }
        }
    }
    assert(windows@.take(windows@.len() as int) =~= windows@);
    let state = WindowState { stack, tab_groups };
    assert(state@ =~= state_of(windows@));
    Some(state)
}

/// The texts that are to be stored of the windows.
#[derive(Debug)]
pub struct WindowStateTexts {
    pub stack: String,
    pub tab_groups: String,
}

/// The texts tell the state, and are read back as what they tell.
pub open spec fn tells(texts: WindowStateTexts, state: WindowStateModel) -> bool {
    &&& texts.stack@ == numbers_text(state.stack)
    &&& texts.tab_groups@ == groups_text(state.tab_groups)
    &&& numbers_in(texts.stack@) == Some(state.stack)
    &&& groups_in(texts.tab_groups@) == Some(state.tab_groups)
}

/// The texts that are to be stored of the state.
pub fn window_state_texts(state: &WindowState) -> (r: WindowStateTexts)
    ensures
        tells(r, state@),
{
    WindowStateTexts {
        stack: write_numbers(&state.stack).unwrap(),
        tab_groups: write_groups(&state.tab_groups).unwrap(),
    }
}

/// Whether two lists of numbers are the same.
fn same_numbers(a: &Vec<u64>, b: &Vec<u64>) -> (r: bool)
    ensures
        r == (a@ == b@),
{
    if a.len() != b.len() {
        return false;
    }
    for i in 0..a.len()
        invariant
            a@.len() == b@.len(),
            forall|j: int| 0 <= j < i ==> #[trigger] a@[j] == b@[j],
    {
        if a[i] != b[i] {
            return false;
        }
    }
    assert(a@ =~= b@);
    true
}

/// Whether two states are the same.
fn same_state(a: &WindowState, b: &WindowState) -> (r: bool)
    ensures
        r == (a@ == b@),
{
    if !same_numbers(&a.stack, &b.stack) {
        return false;
    }
    if a.tab_groups.len() != b.tab_groups.len() {
        assert(a@.tab_groups.len() != b@.tab_groups.len());
        return false;
    }
    for i in 0..a.tab_groups.len()
        invariant
            a.tab_groups@.len() == b.tab_groups@.len(),
            forall|j: int| 0 <= j < i ==> #[trigger] a.tab_groups@[j]@ == b.tab_groups@[j]@,
    {
        if !same_numbers(&a.tab_groups[i], &b.tab_groups[i]) {
            assert(a@.tab_groups[i as int] != b@.tab_groups[i as int]);
            return false;
        }
    }
    assert(a@.tab_groups =~= b@.tab_groups);
    true
}

/// What was last stored of the windows.
#[derive(Debug)]
pub struct WindowStateWriter {
    current: WindowState,
}

impl View for WindowStateWriter {
    type V = WindowStateModel;

    closed spec fn view(&self) -> WindowStateModel {
        self.current@
    }
}

/// The state of no windows at all.
pub open spec fn no_windows() -> WindowStateModel {
    WindowStateModel { stack: Seq::empty(), tab_groups: Seq::empty() }
}

impl WindowStateWriter {
    /// Nothing has been stored yet, which stands for no windows.
    pub fn new() -> (r: Self)
        ensures
            r@ == no_windows(),
            r@.stack.len() == 0,
            r@.tab_groups.len() == 0,
    {
        let current = WindowState { stack: Vec::new(), tab_groups: Vec::new() };
        assert(current@ =~= no_windows());
        WindowStateWriter { current }
    }

    /// Takes a look at the windows. What is to be stored comes back where the state is known and
    /// is another than the one that was last stored.
    pub fn observe(&mut self, state: Option<WindowState>) -> (r: Option<WindowStateTexts>)
        ensures
            match state {
                Some(state) => {
                    &&& final(self)@ == state@
                    &&& r is Some <==> state@ != old(self)@
                    &&& r matches Some(texts) ==> tells(texts, state@)
                },
                None => final(self)@ == old(self)@ && r is None,
            },
    {
        match state {
            Some(state) => if same_state(&state, &self.current) {
                None
            } else {
                let texts = window_state_texts(&state);
                self.current = state;
                Some(texts)
            },
            None => None,
        }
    }
}

/// What is to be stored when the application quits: the state, where it is known.
pub fn texts_at_quit(state: Option<WindowState>) -> (r: Option<WindowStateTexts>)
    ensures
        match state {
            Some(state) => r matches Some(texts) && tells(texts, state@),
            None => r is None,
        },
{
    match state {
        Some(state) => Some(window_state_texts(&state)),
        None => None,
    }
}

/// Turning a list keeps its numbers, and puts the number first where it occurs.
pub proof fn turning_keeps_the_tabs(list: Seq<u64>, id: u64)
    ensures
        turned(list, id).len() == list.len(),
        turned(list, id).to_multiset() == list.to_multiset(),
        list.contains(id) ==> turned(list, id)[0] == id,
        !list.contains(id) ==> turned(list, id) == list,
{
    lemma_place_bounds(list, id);
    let at = place(list, id);
    vstd::seq_lib::lemma_multiset_commutative(list.take(at), list.skip(at));
    vstd::seq_lib::lemma_multiset_commutative(list.skip(at), list.take(at));
    assert(list.take(at) + list.skip(at) =~= list);
    assert(turned(list, id).to_multiset() =~= list.to_multiset());
    if !list.contains(id) {
        assert forall|j: int| 0 <= j < list.len() implies #[trigger] list[j] != id by {}
        lemma_place(list, id, list.len() as int);
        assert(turned(list, id) =~= list);
    }
}

/// Every group that is remembered stands for one of the windows, and has at least two tabs. Its
/// tabs have been seen.
pub proof fn every_group_is_of_a_window(windows: Seq<WindowInfo>, k: int)
    requires
        0 <= k < tab_groups_of(windows).len(),
    ensures
        tab_groups_of(windows)[k].len() >= 2,
        exists|i: int|
            0 <= i < windows.len() && group_of(#[trigger] windows[i]) == Some(
                tab_groups_of(windows)[k],
            ),
        forall|n: u64| #[trigger]
            tab_groups_of(windows)[k].contains(n) ==> seen_tabs(windows).contains(n),
    decreases windows.len(),
{
    if windows.len() > 0 {
        let earlier = windows.drop_last();
        let group = tab_groups_of(windows)[k];
        if k < tab_groups_of(earlier).len() {
            assert(group == tab_groups_of(earlier)[k]);
            every_group_is_of_a_window(earlier, k);
            let i = choose|i: int|
                0 <= i < earlier.len() && group_of(#[trigger] earlier[i]) == Some(group);
            assert(group_of(windows[i]) == Some(group));
        } else {
            assert(group_of(windows[windows.len() - 1]) == Some(group));
            turning_keeps_the_tabs(windows.last().tabs->Some_0@, windows.last().id);
        }
    }
}

/// No tab is in two of the groups that are remembered.
pub proof fn groups_share_no_tab(windows: Seq<WindowInfo>, a: int, b: int, n: u64)
    requires
        0 <= a < b < tab_groups_of(windows).len(),
        tab_groups_of(windows)[a].contains(n),
    ensures
        !tab_groups_of(windows)[b].contains(n),
    decreases windows.len(),
{
    if windows.len() > 0 {
        let earlier = windows.drop_last();
        assert(tab_groups_of(windows)[a] == tab_groups_of(earlier)[a]);
        if b < tab_groups_of(earlier).len() {
            groups_share_no_tab(earlier, a, b, n);
        } else {
            every_group_is_of_a_window(earlier, a);
            let group = tab_groups_of(windows)[b];
            assert(is_apart(group, seen_tabs(earlier)));
            if group.contains(n) {
                let i = choose|i: int| 0 <= i < group.len() && group[i] == n;
                assert(!seen_tabs(earlier).contains(group[i]));
            }
        }
    }
}

/// The group of a window whose tabs are in no group of an earlier window is remembered.
pub proof fn a_new_group_is_remembered(windows: Seq<WindowInfo>, i: int)
    requires
        0 <= i < windows.len(),
        group_of(windows[i]) matches Some(group) && is_apart(group, seen_tabs(windows.take(i))),
    ensures
        tab_groups_of(windows).contains(group_of(windows[i])->Some_0),
    decreases windows.len(),
{
    let group = group_of(windows[i])->Some_0;
    let earlier = windows.drop_last();
    let groups = tab_groups_of(windows);
    if i < windows.len() - 1 {
        assert(earlier.take(i) =~= windows.take(i));
        a_new_group_is_remembered(earlier, i);
        let k = choose|k: int|
            0 <= k < tab_groups_of(earlier).len() && tab_groups_of(earlier)[k] == group;
        assert(groups[k] == group);
    } else {
        assert(windows.take(i) =~= earlier);
        assert(groups[groups.len() - 1] == group);
    }
}

/// What was stored of the windows is what the next session knows of them.
pub proof fn stored_windows_are_known_to_the_next_session(
    texts: WindowStateTexts,
    state: WindowStateModel,
    old_id: Option<String>,
    id: Seq<char>,
)
    requires
        tells(texts, state),
    ensures
        ({
            let session = session_after(
                id,
                StoredSession {
                    session_id: old_id,
                    window_stack: Some(texts.stack),
                    window_tab_groups: Some(texts.tab_groups),
                },
            );
            &&& session.old_window_ids == Some(window_ids(state.stack))
            &&& session.old_window_tab_groups == Some(window_groups(state.tab_groups))
        }),
{
}

} // verus!
