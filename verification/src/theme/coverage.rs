//! How a syntax style covers a capture: under the capture's own name, or under the name of
//! an ancestor.
use crate::key_set::KeySet;
use crate::text::{chars_of, joined, pieces, splitting_then_joining_is_identity, text_between};
use vstd::prelude::*;

verus! {

/// `a` is an ancestor of `capture`: what stands before one of the dots in it.
pub open spec fn is_ancestor(a: Seq<char>, capture: Seq<char>) -> bool {
    &&& a.len() < capture.len()
    &&& capture[a.len() as int] == '.'
    &&& capture.take(a.len() as int) == a
}

/// `a` is the closest ancestor of `capture` in `keys`: the longest.
pub open spec fn closest_ancestor(
    a: Seq<char>,
    capture: Seq<char>,
    keys: Set<Seq<char>>,
) -> bool {
    &&& is_ancestor(a, capture)
    &&& keys.contains(a)
    &&& forall|b: Seq<char>| #[trigger] is_ancestor(b, capture) && keys.contains(b) ==> b.len()
        <= a.len()
}

/// An ancestor of `capture` is in `keys`.
pub open spec fn has_ancestor(capture: Seq<char>, keys: Set<Seq<char>>) -> bool {
    exists|a: Seq<char>| #[trigger] is_ancestor(a, capture) && keys.contains(a)
}

/// The closest ancestor of `capture` among `syntax_keys`.
pub fn find_covering_ancestor(capture: &str, syntax_keys: &KeySet) -> (r: Option<String>)
    ensures
        match r {
            Some(a) => closest_ancestor(a@, capture@, syntax_keys@),
            None => !has_ancestor(capture@, syntax_keys@),
        },
{
    let chars = chars_of(capture);
    let mut n: usize = chars.len();
    while n > 0
        invariant
            n <= chars@.len(),
            chars@ == capture@,
            forall|b: Seq<char>| #[trigger]
                is_ancestor(b, capture@) && syntax_keys@.contains(b) ==> b.len() < n,
        decreases n,
    {
        n = n - 1;
        if chars[n] == '.' {
            let candidate = text_between(&chars, 0, n);
            assert(candidate@ =~= capture@.take(n as int));
            if syntax_keys.contains(candidate.as_str()) {
                assert(is_ancestor(candidate@, capture@));
                return Some(candidate);
            }
        }
    }
    None
}

/// A capture has at most one closest ancestor.
pub proof fn closest_ancestor_is_unique(
    a: Seq<char>,
    b: Seq<char>,
    capture: Seq<char>,
    keys: Set<Seq<char>>,
)
    requires
        closest_ancestor(a, capture, keys),
        closest_ancestor(b, capture, keys),
    ensures
        a == b,
{
    assert(is_ancestor(a, capture));
    assert(is_ancestor(b, capture));
    assert(a.len() == b.len());
}

/// The ancestors of a capture are what its leading parts come to: those that stand before one
/// of its dots are the joined first parts, for each number of parts below all.
pub proof fn ancestors_are_leading_parts(a: Seq<char>, capture: Seq<char>)
    ensures
        is_ancestor(a, capture) <==> exists|n: int|
            1 <= n < pieces(capture, '.').len() && a == joined(
                #[trigger] pieces(capture, '.').take(n),
                '.',
            ),
    decreases capture.len(),
{
    let p = pieces(capture, '.');
    if capture.len() > 0 {
        let rest = capture.drop_last();
        let q = pieces(rest, '.');
        ancestors_are_leading_parts(a, rest);
        splitting_then_joining_is_identity(rest, '.');
        if capture.last() == '.' {
            assert(p =~= q.push(Seq::empty()));
            assert(p.take(q.len() as int) =~= q);
            assert forall|n: int| 1 <= n < q.len() implies #[trigger] p.take(n) == q.take(n) by {
                assert(p.take(n) =~= q.take(n));
            }
            if is_ancestor(a, capture) {
                if a.len() == rest.len() {
                    assert(a =~= rest);
                    assert(a == joined(p.take(q.len() as int), '.'));
                } else {
                    assert(rest.take(a.len() as int) =~= capture.take(a.len() as int));
                    assert(is_ancestor(a, rest));
                    let n = choose|n: int| 1 <= n < q.len() && a == joined(#[trigger] q.take(n), '.');
                    assert(a == joined(p.take(n), '.'));
                }
            }
            if exists|n: int| 1 <= n < p.len() && a == joined(#[trigger] p.take(n), '.') {
                let n = choose|n: int| 1 <= n < p.len() && a == joined(#[trigger] p.take(n), '.');
                if n == q.len() {
                    assert(a == rest);
                    assert(capture.take(a.len() as int) =~= a);
                } else {
                    assert(a == joined(q.take(n), '.'));
                    assert(is_ancestor(a, rest));
                    assert(capture.take(a.len() as int) =~= rest.take(a.len() as int));
                }
            }
        } else {
            assert(p.len() == q.len());
            assert forall|n: int| 1 <= n < q.len() implies #[trigger] p.take(n) == q.take(n) by {
                assert(p.take(n) =~= q.take(n));
            }
            if is_ancestor(a, capture) {
                assert(a.len() < rest.len());
                assert(rest.take(a.len() as int) =~= capture.take(a.len() as int));
                assert(is_ancestor(a, rest));
                let n = choose|n: int| 1 <= n < q.len() && a == joined(#[trigger] q.take(n), '.');
                assert(a == joined(p.take(n), '.'));
            }
            if exists|n: int| 1 <= n < p.len() && a == joined(#[trigger] p.take(n), '.') {
                let n = choose|n: int| 1 <= n < p.len() && a == joined(#[trigger] p.take(n), '.');
                assert(a == joined(q.take(n), '.'));
                assert(is_ancestor(a, rest));
                assert(capture.take(a.len() as int) =~= rest.take(a.len() as int));
            }
        }
    }
}

} // verus!
