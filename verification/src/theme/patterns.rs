//! The search patterns that find keys in source texts, and the outside calls that run them.
use crate::text::{opt_text, texts};
use regex::Regex;
use vstd::prelude::*;

verus! {

#[verifier::external_type_specification]
#[verifier::external_body]
pub struct ExRegex(regex::Regex);

/// The pattern that a `regex::Regex` was made from (`Regex::as_str`).
pub uninterp spec fn pattern_of(re: Regex) -> Seq<char>;

/// What the error of `Regex::new` for a pattern says, or `None` where it accepts the pattern.
pub uninterp spec fn pattern_error(pattern: Seq<char>) -> Option<Seq<char>>;

/// The pattern is well formed.
pub open spec fn pattern_is_valid(pattern: Seq<char>) -> bool {
    pattern_error(pattern) is None
}

/// Group 1 of the match that `Regex::captures` finds: `None` where nothing matches, and
/// `Some(None)` where group 1 takes no part in the match.
pub uninterp spec fn first_match(pattern: Seq<char>, text: Seq<char>) -> Option<Option<Seq<char>>>;

/// Group 1 of each match that `Regex::captures_iter` finds, in order.
pub uninterp spec fn all_matches(pattern: Seq<char>, text: Seq<char>) -> Seq<Option<Seq<char>>>;

/// A short pattern without counted repetitions. What it compiles to stays far below the limit on
/// the size of a compiled pattern, which is counted in bytes and so differs between systems.
pub open spec fn is_modest(pattern: Seq<char>) -> bool {
    pattern.len() <= 100 && !pattern.contains('{')
}

/// Calls `Regex::new`, which compiles a pattern, and takes what the error says where it fails; a
/// regex keeps the pattern that it was made from. The result depends on the pattern alone, where
/// the size of what it compiles to plays no part.
#[verifier::external_body]
pub(crate) fn new_regex(pattern: &str) -> (r: Result<Regex, String>)
    ensures
        is_modest(pattern@) ==> match r {
            Ok(_) => pattern_error(pattern@) is None,
            Err(cause) => pattern_error(pattern@) == Some(cause@),
        },
        r matches Ok(regex) ==> pattern_of(regex) == pattern@,
{
    Regex::new(pattern).map_err(|e| e.to_string())
}

/// Calls `Regex::captures` and takes group 1 of the match. The result depends on the pattern
/// and the text alone.
#[verifier::external_body]
fn captures(re: &Regex, text: &str) -> (r: Option<Option<String>>)
    ensures
        first_match(pattern_of(*re), text@) == (match r {
            Some(group) => Some(opt_text(group)),
            None => None,
        }),
{
    re.captures(text).map(|c| c.get(1).map(|m| m.as_str().to_string()))
}

/// Calls `Regex::captures_iter` and takes group 1 of each match, in order. The result depends
/// on the pattern and the text alone.
#[verifier::external_body]
fn captures_iter(re: &Regex, text: &str) -> (r: Vec<Option<String>>)
    ensures
        r@.map_values(|g: Option<String>| opt_text(g)) == all_matches(pattern_of(*re), text@),
{
    re.captures_iter(text).map(|c| c.get(1).map(|m| m.as_str().to_string())).collect()
}

/// What group 1 of the first match of a pattern caught, if it caught anything.
pub open spec fn first_catch(pattern: Seq<char>, text: Seq<char>) -> Option<Seq<char>> {
    match first_match(pattern, text) {
        Some(group) => group,
        None => None,
    }
}

/// What group 1 caught in the matches of a pattern.
pub open spec fn catches(pattern: Seq<char>, text: Seq<char>) -> Set<Seq<char>> {
    Set::new(|k: Seq<char>| all_matches(pattern, text).contains(Some(k)))
}

/// What group 1 of the first match caught, if it caught anything.
pub(crate) fn find_first(re: &Regex, text: &str) -> (r: Option<String>)
    ensures
        opt_text(r) == first_catch(pattern_of(*re), text@),
{
    match captures(re, text) {
        Some(group) => group,
        None => None,
    }
}

/// What group 1 caught in each match.
pub(crate) fn find_all(re: &Regex, text: &str) -> (r: Vec<String>)
    ensures
        texts(r@).to_set() == catches(pattern_of(*re), text@),
{
    let groups = captures_iter(re, text);
    caught(&groups)
}

/// The texts among `groups`, in order, without the groups that caught nothing.
pub open spec fn caught_texts(groups: Seq<Option<Seq<char>>>) -> Seq<Seq<char>>
    decreases groups.len(),
{
    if groups.len() == 0 {
        Seq::empty()
    } else {
        let before = caught_texts(groups.drop_last());
        match groups.last() {
            Some(k) => before.push(k),
            None => before,
        }
    }
}

proof fn lemma_caught_texts_members(groups: Seq<Option<Seq<char>>>)
    ensures
        forall|k: Seq<char>|
            #[trigger] caught_texts(groups).contains(k) <==> groups.contains(Some(k)),
    decreases groups.len(),
{
    if groups.len() > 0 {
        let rest = groups.drop_last();
        lemma_caught_texts_members(rest);
        let before = caught_texts(rest);
        let now = caught_texts(groups);
        assert forall|k: Seq<char>| #[trigger] now.contains(k) <==> groups.contains(Some(k)) by {
            if now.contains(k) {
                let i = choose|i: int| 0 <= i < now.len() && now[i] == k;
                if i < before.len() {
                    assert(before[i] == k);
                    assert(before.contains(k));
                    let j = choose|j: int| 0 <= j < rest.len() && rest[j] == Some(k);
                    assert(groups[j] == Some(k));
                } else {
                    assert(groups.last() == Some(k));
                }
            }
            if groups.contains(Some(k)) {
                let j = choose|j: int| 0 <= j < groups.len() && groups[j] == Some(k);
                if j < rest.len() {
                    assert(rest[j] == Some(k));
                    assert(before.contains(k));
                    let i = choose|i: int| 0 <= i < before.len() && before[i] == k;
                    assert(now[i] == k);
                } else {
                    assert(now.last() == k);
                }
            }
        }
    }
}

/// The texts among `groups`, in order.
pub fn caught(groups: &Vec<Option<String>>) -> (r: Vec<String>)
    ensures
        texts(r@) == caught_texts(
            groups@.map_values(|g: Option<String>| opt_text(g)),
        ),
        forall|k: Seq<char>|
            #[trigger] texts(r@).to_set().contains(k) <==> groups@.map_values(
                |g: Option<String>| opt_text(g),
            ).contains(Some(k)),
{
    let mut out: Vec<String> = Vec::new();
    let ghost all = groups@.map_values(|g: Option<String>| opt_text(g));
    let mut i: usize = 0;
    assert(texts(out@) =~= caught_texts(all.take(0)));
    while i < groups.len()
        invariant
            i <= groups@.len(),
            all == groups@.map_values(|g: Option<String>| opt_text(g)),
            texts(out@) == caught_texts(all.take(i as int)),
        decreases groups@.len() - i,
    {
        let ghost before = texts(out@);
        assert(all.take(i + 1).drop_last() =~= all.take(i as int));
        assert(all.take(i + 1).last() == opt_text(groups@[i as int]));
        match &groups[i] {
            Some(k) => {
                out.push(k.clone());
                assert(texts(out@) =~= before.push(k@));
            },
            None => {},
        }
        i = i + 1;
    }
    assert(all.take(all.len() as int) =~= all);
    proof {
        lemma_caught_texts_members(all);
    }
    out
}

} // verus!
