//! What splitting, trimming, searching and writing numbers do, character by character.
use crate::text::{
    ascii_lowercase, bytes_lt, contains_text, decimal, digit, first_occurrence, is_white_space,
    joined, lines, occurs_at, opt_text, pieces, splitting_then_joining_is_identity, starts_with,
    text_lt, texts, trim, trim_end, trim_start, without_carriage_return,
};
use vstd::prelude::*;
use vstd::utf8::*;

verus! {

// ---------------------------------------------------------------------------------------
// Splitting
// ---------------------------------------------------------------------------------------

proof fn lemma_single_piece(s: Seq<char>, sep: char)
    requires
        !s.contains(sep),
    ensures
        pieces(s, sep) == seq![s],
    decreases s.len(),
{
    if s.len() > 0 {
        let rest = s.drop_last();
        assert(s[s.len() - 1] == s.last());
        if rest.contains(sep) {
            let k = choose|k: int| 0 <= k < rest.len() && rest[k] == sep;
            assert(s[k] == sep);
        }
        lemma_single_piece(rest, sep);
        assert(rest.push(s.last()) =~= s);
        assert(pieces(s, sep) =~= seq![s]);
    } else {
        assert(s =~= Seq::<char>::empty());
    }
}

/// A text without the separator is its own only piece. Where such a text, the separator and some
/// rest follow each other, the text is the first piece, and the pieces of the rest come after it.
pub proof fn pieces_end_at_the_separators(s: Seq<char>, sep: char, rest: Seq<char>)
    requires
        !s.contains(sep),
    ensures
        pieces(s, sep) == seq![s],
        pieces(s.push(sep) + rest, sep) == seq![s] + pieces(rest, sep),
    decreases rest.len(),
{
    lemma_single_piece(s, sep);
    let all = s.push(sep) + rest;
    if rest.len() == 0 {
        assert(all =~= s.push(sep));
        assert(all.drop_last() =~= s);
        assert(pieces(all, sep) =~= seq![s] + pieces(rest, sep));
    } else {
        pieces_end_at_the_separators(s, sep, rest.drop_last());
        assert(all.drop_last() =~= s.push(sep) + rest.drop_last());
        splitting_then_joining_is_identity(rest.drop_last(), sep);
        assert(pieces(all, sep) =~= seq![s] + pieces(rest, sep));
    }
}

/// Texts are joined in order with the separator between each two of them: those of two lists are
/// the first ones, the separator, and the second ones.
pub proof fn joining_puts_the_separator_between(
    a: Seq<Seq<char>>,
    b: Seq<Seq<char>>,
    sep: char,
    text: Seq<char>,
)
    requires
        a.len() > 0,
        b.len() > 0,
    ensures
        joined(a + b, sep) == joined(a, sep).push(sep) + joined(b, sep),
        joined(seq![text], sep) == text,
        joined(Seq::empty(), sep) == Seq::<char>::empty(),
    decreases b.len(),
{
    assert((a + b).drop_last() =~= a + b.drop_last());
    if b.len() == 1 {
        assert(a + b.drop_last() =~= a);
    } else {
        joining_puts_the_separator_between(a, b.drop_last(), sep, text);
        assert(joined(a + b, sep) =~= joined(a, sep).push(sep) + joined(b, sep));
    }
}

/// The empty text has no lines. A text without a line feed is its own only line. Where such a
/// text, a line feed and some rest follow each other, the text is the first line, but for a
/// carriage return at its end, and the lines of the rest come after it.
pub proof fn lines_end_at_line_feeds(s: Seq<char>, rest: Seq<char>)
    requires
        !s.contains('\n'),
    ensures
        lines(s) == if s.len() == 0 {
            Seq::empty()
        } else {
            seq![s]
        },
        lines(s.push('\n') + rest) == seq![
            if s.len() > 0 && s[s.len() - 1] == '\r' {
                s.take(s.len() - 1)
            } else {
                s
            },
        ] + lines(rest),
{
    pieces_end_at_the_separators(s, '\n', rest);
    splitting_then_joining_is_identity(rest, '\n');
    assert(s.len() > 0 ==> s.drop_last() =~= s.take(s.len() - 1));
    assert(lines(s) =~= if s.len() == 0 {
        Seq::empty()
    } else {
        seq![s]
    });
    let p = pieces(rest, '\n');
    let all = pieces(s.push('\n') + rest, '\n');
    assert(all =~= seq![s] + p);
    assert(all.last() == p.last());
    assert forall|i: int| 0 <= i < p.len() implies #[trigger] all[i + 1] == p[i] by {}
    assert(lines(s.push('\n') + rest) =~= seq![without_carriage_return(s)] + lines(rest));
}

// ---------------------------------------------------------------------------------------
// White space and case
// ---------------------------------------------------------------------------------------

/// The part of `s` from `from` to `to` is what is left without the white space at its ends.
pub open spec fn is_core(s: Seq<char>, from: int, to: int) -> bool {
    &&& 0 <= from <= to <= s.len()
    &&& forall|i: int| 0 <= i < from ==> is_white_space(#[trigger] s[i])
    &&& forall|i: int| to <= i < s.len() ==> is_white_space(#[trigger] s[i])
    &&& from < to ==> !is_white_space(s[from]) && !is_white_space(s[to - 1])
}

proof fn lemma_trim_start(s: Seq<char>) -> (from: int)
    ensures
        0 <= from <= s.len(),
        trim_start(s) == s.skip(from),
        forall|i: int| 0 <= i < from ==> is_white_space(#[trigger] s[i]),
        from < s.len() ==> !is_white_space(s[from]),
    decreases s.len(),
{
    if s.len() > 0 && is_white_space(s[0]) {
        let rest = s.drop_first();
        let n = lemma_trim_start(rest);
        assert(rest.skip(n) =~= s.skip(n + 1));
        assert forall|i: int| 0 <= i < n + 1 implies is_white_space(#[trigger] s[i]) by {
            if i > 0 {
                assert(rest[i - 1] == s[i]);
            }
        }
        n + 1
    } else {
        assert(s.skip(0) =~= s);
        0
    }
}

proof fn lemma_trim_end(s: Seq<char>) -> (to: int)
    ensures
        0 <= to <= s.len(),
        trim_end(s) == s.take(to),
        forall|i: int| to <= i < s.len() ==> is_white_space(#[trigger] s[i]),
        0 < to ==> !is_white_space(s[to - 1]),
    decreases s.len(),
{
    if s.len() > 0 && is_white_space(s.last()) {
        let rest = s.drop_last();
        let n = lemma_trim_end(rest);
        assert(rest.take(n) =~= s.take(n));
        assert forall|i: int| n <= i < s.len() implies is_white_space(#[trigger] s[i]) by {
            if i < rest.len() {
                assert(rest[i] == s[i]);
            }
        }
        n
    } else {
        assert(s.take(s.len() as int) =~= s);
        s.len() as int
    }
}

/// Trimming takes away the white space at both ends of a text, all of it and nothing else.
pub proof fn trimming_takes_white_space_at_the_ends(s: Seq<char>)
    ensures
        exists|from: int, to: int| #[trigger]
            is_core(s, from, to) && trim(s) == s.subrange(from, to),
{
    let from = lemma_trim_start(s);
    let rest = s.skip(from);
    let n = lemma_trim_end(rest);
    let to = from + n;
    assert(rest.take(n) =~= s.subrange(from, to));
    assert forall|i: int| to <= i < s.len() implies is_white_space(#[trigger] s[i]) by {
        assert(rest[i - from] == s[i]);
    }
    if from < to {
        assert(rest[n - 1] == s[to - 1]);
        assert(from < s.len());
    }
    assert(is_core(s, from, to));
}

/// Lower case keeps every character at its place. It changes the capitals from A to Z alone, each
/// to the letter that stands as far behind it as `a` stands behind `A`.
pub proof fn lower_case_changes_capitals_only(s: Seq<char>, i: int)
    requires
        0 <= i < s.len(),
    ensures
        ascii_lowercase(s).len() == s.len(),
        'A' <= s[i] <= 'Z' ==> ascii_lowercase(s)[i] as int - s[i] as int == 'a' as int
            - 'A' as int,
        !('A' <= s[i] <= 'Z') ==> ascii_lowercase(s)[i] == s[i],
{
}

// ---------------------------------------------------------------------------------------
// Searching
// ---------------------------------------------------------------------------------------

/// A text stands in another exactly where the other is that text between two further ones, and it
/// starts the other exactly where nothing comes before it.
pub proof fn searching_finds_parts(s: Seq<char>, needle: Seq<char>)
    ensures
        contains_text(s, needle) <==> exists|before: Seq<char>, after: Seq<char>|
            s == #[trigger] ((before + needle) + after),
        starts_with(s, needle) <==> exists|after: Seq<char>| s == #[trigger] (needle + after),
{
    if contains_text(s, needle) {
        let at = choose|at: int| occurs_at(s, needle, at);
        let before = s.take(at);
        let after = s.skip(at + needle.len());
        assert(s =~= (before + needle) + after);
    }
    if exists|before: Seq<char>, after: Seq<char>| s == #[trigger] ((before + needle) + after) {
        let (before, after) = choose|before: Seq<char>, after: Seq<char>|
            s == #[trigger] ((before + needle) + after);
        assert(s.subrange(before.len() as int, (before.len() + needle.len()) as int) =~= needle);
        assert(occurs_at(s, needle, before.len() as int));
    }
    if starts_with(s, needle) {
        let after = s.skip(needle.len() as int);
        assert(s =~= needle + after);
    }
    if exists|after: Seq<char>| s == #[trigger] (needle + after) {
        let after = choose|after: Seq<char>| s == #[trigger] (needle + after);
        assert(s.subrange(0, needle.len() as int) =~= needle);
    }
}

// ---------------------------------------------------------------------------------------
// Order
// ---------------------------------------------------------------------------------------

/// The byte strings are the same before place `n`, and there the first of them ends before the
/// second or has the lesser byte.
pub open spec fn precedes_at(a: Seq<u8>, b: Seq<u8>, n: int) -> bool {
    &&& 0 <= n <= a.len()
    &&& n < b.len()
    &&& a.take(n) == b.take(n)
    &&& n < a.len() ==> a[n] < b[n]
}

proof fn lemma_precedes(a: Seq<u8>, b: Seq<u8>)
    ensures
        bytes_lt(a, b) <==> exists|n: int| precedes_at(a, b, n),
    decreases a.len(),
{
    let c = a.drop_first();
    let d = b.drop_first();
    if bytes_lt(a, b) {
        if a.len() == 0 || a[0] < b[0] {
            assert(a.take(0) =~= b.take(0));
            assert(precedes_at(a, b, 0));
        } else {
            lemma_precedes(c, d);
            let n = choose|n: int| precedes_at(c, d, n);
            assert forall|i: int| 0 <= i < n + 1 implies a[i] == b[i] by {
                if i > 0 {
                    assert(c.take(n)[i - 1] == d.take(n)[i - 1]);
                }
            }
            assert(a.take(n + 1) =~= b.take(n + 1));
            assert(precedes_at(a, b, n + 1));
        }
    }
    if exists|n: int| precedes_at(a, b, n) {
        let n = choose|n: int| precedes_at(a, b, n);
        if n > 0 {
            assert(a.take(n)[0] == b.take(n)[0]);
            lemma_precedes(c, d);
            assert forall|i: int| 0 <= i < n - 1 implies c[i] == d[i] by {
                assert(a.take(n)[i + 1] == b.take(n)[i + 1]);
            }
            assert(c.take(n - 1) =~= d.take(n - 1));
            assert(precedes_at(c, d, n - 1));
        }
    }
}

/// One text precedes another exactly where, at the first place where their bytes differ, the first
/// has ended already or has the lesser byte.
pub proof fn texts_are_ordered_by_the_first_difference(a: Seq<char>, b: Seq<char>)
    ensures
        text_lt(a, b) <==> exists|n: int| precedes_at(encode_utf8(a), encode_utf8(b), n),
{
    lemma_precedes(encode_utf8(a), encode_utf8(b));
}

// ---------------------------------------------------------------------------------------
// Numbers
// ---------------------------------------------------------------------------------------

/// The number that decimal digits stand for.
pub open spec fn value_of(digits: Seq<char>) -> int
    decreases digits.len(),
{
    if digits.len() == 0 {
        0
    } else {
        10 * value_of(digits.drop_last()) + (digits.last() as int - '0' as int)
    }
}

/// The decimal form of a number is made of digits alone, stands for the number, and has no zero in
/// front unless it is a single digit.
pub proof fn decimals_stand_for_their_numbers(n: nat)
    ensures
        decimal(n).len() > 0,
        forall|i: int| 0 <= i < decimal(n).len() ==> '0' <= #[trigger] decimal(n)[i] <= '9',
        value_of(decimal(n)) == n,
        decimal(n).len() > 1 ==> decimal(n)[0] != '0',
    decreases n,
{
    let last = n % 10;
    assert('0' <= digit(last) <= '9' && digit(last) as int - '0' as int == last);
    if n < 10 {
        assert(decimal(n).drop_last() =~= Seq::empty());
        reveal_with_fuel(value_of, 2);
    } else {
        decimals_stand_for_their_numbers(n / 10);
        let before = decimal(n / 10);
        assert(decimal(n).drop_last() =~= before);
        assert(value_of(before) == n / 10);
        if before.len() == 1 {
            assert(before.drop_last() =~= Seq::empty());
            reveal_with_fuel(value_of, 2);
            assert(before[0] as int - '0' as int == n / 10);
        }
    }
}

// ---------------------------------------------------------------------------------------
// Places and lists
// ---------------------------------------------------------------------------------------

/// A text stands at a place exactly where it comes after as many characters of the other. The first
/// place at or after another is the least of those places where it stands.
pub proof fn places_count_the_characters_before(
    s: Seq<char>,
    needle: Seq<char>,
    from: int,
    at: int,
    k: int,
)
    ensures
        occurs_at(s, needle, at) <==> exists|before: Seq<char>, after: Seq<char>|
            before.len() == at && s == #[trigger] ((before + needle) + after),
        first_occurrence(s, needle, from, at) ==> from <= at && occurs_at(s, needle, at) && (from
            <= k && occurs_at(s, needle, k) ==> at <= k),
{
    if occurs_at(s, needle, at) {
        let before = s.take(at);
        let after = s.skip(at + needle.len());
        assert(s =~= (before + needle) + after);
    }
    if exists|before: Seq<char>, after: Seq<char>|
        before.len() == at && s == #[trigger] ((before + needle) + after) {
        let (before, after) = choose|before: Seq<char>, after: Seq<char>|
            before.len() == at && s == #[trigger] ((before + needle) + after);
        assert(s.subrange(at, at + needle.len()) =~= needle);
    }
}

/// The texts of a list are those of its strings, each in its place.
pub proof fn texts_are_those_of_the_strings(v: Seq<String>, i: int, s: String)
    requires
        0 <= i < v.len(),
    ensures
        texts(v).len() == v.len(),
        texts(v)[i] == v[i]@,
        opt_text(Some(s)) == Some(s@),
        opt_text(None) is None,
{
}

} // verus!
