//! Identifiers: 128 bits, drawn at random and written in the hyphenated form.
use vstd::prelude::*;

verus! {

/// An identifier.
#[derive(Clone, Copy, Debug, PartialEq, Eq, Hash, Structural)]
pub struct Id {
    pub bits: u128,
}

/// The version and the variant of a random identifier are set.
pub open spec fn is_random(id: Id) -> bool {
    id.bits & 0xf000_c000_0000_0000_0000u128 == 0x4000_8000_0000_0000_0000u128
}

/// A hexadecimal digit in lower case.
pub open spec fn hex_digit(d: u128) -> char {
    seq!['0', '1', '2', '3', '4', '5', '6', '7', '8', '9', 'a', 'b', 'c', 'd', 'e', 'f'][d as int]
}

/// The digit at place `k` of the 32 hexadecimal digits of `bits`, the most significant first.
pub open spec fn nibble(bits: u128, k: int) -> u128 {
    (bits >> ((124 - 4 * k) as u128)) & 0xf
}

/// How many hyphens stand before place `i` of the hyphenated form.
pub open spec fn hyphens_before(i: int) -> int {
    if i <= 8 {
        0
    } else if i <= 13 {
        1
    } else if i <= 18 {
        2
    } else if i <= 23 {
        3
    } else {
        4
    }
}

/// The hyphenated form: groups of 8, 4, 4, 4 and 12 digits.
pub open spec fn id_text(id: Id) -> Seq<char> {
    Seq::new(
        36,
        |i: int|
            if i == 8 || i == 13 || i == 18 || i == 23 {
                '-'
            } else {
                hex_digit(nibble(id.bits, i - hyphens_before(i)))
            },
    )
}

/// Calls `uuid::Uuid::new_v4`. Nothing is claimed of the bits that come back but that they are
/// marked as those of a random identifier. The call panics on a system without a source of random
/// numbers.
#[verifier::external_body]
pub(crate) fn fresh_id() -> (r: Id)
    ensures
        is_random(r),
{
    Id { bits: uuid::Uuid::new_v4().as_u128() }
}

/// Prints a `uuid::Uuid`: the hyphenated form, in lower case.
#[verifier::external_body]
pub(crate) fn hyphenated(id: Id) -> (r: String)
    ensures
        r@ == id_text(id),
{
    uuid::Uuid::from_u128(id.bits).to_string()
}

proof fn lemma_digits_differ(a: u128, b: u128)
    requires
        a < 16,
        b < 16,
        hex_digit(a) == hex_digit(b),
    ensures
        a == b,
{
}

proof fn lemma_same_nibble(a: Id, b: Id, i: int)
    requires
        id_text(a) == id_text(b),
        0 <= i < 36,
        i != 8,
        i != 13,
        i != 18,
        i != 23,
    ensures
        nibble(a.bits, i - hyphens_before(i)) == nibble(b.bits, i - hyphens_before(i)),
{
    let k = i - hyphens_before(i);
    let s: u128 = (124 - 4 * k) as u128;
    let x: u128 = a.bits;
    let y: u128 = b.bits;
    assert(((x >> s) & 0xf) < 16) by (bit_vector);
    assert(((y >> s) & 0xf) < 16) by (bit_vector);
    assert(id_text(a)[i] == hex_digit(nibble(x, k)));
    assert(id_text(b)[i] == hex_digit(nibble(y, k)));
    lemma_digits_differ(nibble(x, k), nibble(y, k));
}

/// Different identifiers are written differently.
pub proof fn id_text_is_injective(a: Id, b: Id)
    requires
        id_text(a) == id_text(b),
    ensures
        a == b,
{
    assert forall|k: int| 0 <= k < 32 implies #[trigger] nibble(a.bits, k) == nibble(
        b.bits,
        k,
    ) by {
        let i = if k < 8 {
            k
        } else if k < 12 {
            k + 1
        } else if k < 16 {
            k + 2
        } else if k < 20 {
            k + 3
        } else {
            k + 4
        };
        assert(i - hyphens_before(i) == k);
        lemma_same_nibble(a, b, i);
    }
    let x: u128 = a.bits;
    let y: u128 = b.bits;
    assert(nibble(x, 0) == nibble(y, 0) && nibble(x, 1) == nibble(y, 1) && nibble(x, 2) == nibble(
        y,
        2,
    ) && nibble(x, 3) == nibble(y, 3) && nibble(x, 4) == nibble(y, 4) && nibble(x, 5) == nibble(
        y,
        5,
    ) && nibble(x, 6) == nibble(y, 6) && nibble(x, 7) == nibble(y, 7));
    assert(nibble(x, 8) == nibble(y, 8) && nibble(x, 9) == nibble(y, 9) && nibble(x, 10) == nibble(
        y,
        10,
    ) && nibble(x, 11) == nibble(y, 11) && nibble(x, 12) == nibble(y, 12) && nibble(x, 13)
        == nibble(y, 13) && nibble(x, 14) == nibble(y, 14) && nibble(x, 15) == nibble(y, 15));
    assert(nibble(x, 16) == nibble(y, 16) && nibble(x, 17) == nibble(y, 17) && nibble(x, 18)
        == nibble(y, 18) && nibble(x, 19) == nibble(y, 19) && nibble(x, 20) == nibble(y, 20)
        && nibble(x, 21) == nibble(y, 21) && nibble(x, 22) == nibble(y, 22) && nibble(x, 23)
        == nibble(y, 23));
    assert(nibble(x, 24) == nibble(y, 24) && nibble(x, 25) == nibble(y, 25) && nibble(x, 26)
        == nibble(y, 26) && nibble(x, 27) == nibble(y, 27) && nibble(x, 28) == nibble(y, 28)
        && nibble(x, 29) == nibble(y, 29) && nibble(x, 30) == nibble(y, 30) && nibble(x, 31)
        == nibble(y, 31));
    assert(x == y) by (bit_vector)
        requires
            (x >> 124) & 0xf == (y >> 124) & 0xf,
            (x >> 120) & 0xf == (y >> 120) & 0xf,
            (x >> 116) & 0xf == (y >> 116) & 0xf,
            (x >> 112) & 0xf == (y >> 112) & 0xf,
            (x >> 108) & 0xf == (y >> 108) & 0xf,
            (x >> 104) & 0xf == (y >> 104) & 0xf,
            (x >> 100) & 0xf == (y >> 100) & 0xf,
            (x >> 96) & 0xf == (y >> 96) & 0xf,
            (x >> 92) & 0xf == (y >> 92) & 0xf,
            (x >> 88) & 0xf == (y >> 88) & 0xf,
            (x >> 84) & 0xf == (y >> 84) & 0xf,
            (x >> 80) & 0xf == (y >> 80) & 0xf,
            (x >> 76) & 0xf == (y >> 76) & 0xf,
            (x >> 72) & 0xf == (y >> 72) & 0xf,
            (x >> 68) & 0xf == (y >> 68) & 0xf,
            (x >> 64) & 0xf == (y >> 64) & 0xf,
            (x >> 60) & 0xf == (y >> 60) & 0xf,
            (x >> 56) & 0xf == (y >> 56) & 0xf,
            (x >> 52) & 0xf == (y >> 52) & 0xf,
            (x >> 48) & 0xf == (y >> 48) & 0xf,
            (x >> 44) & 0xf == (y >> 44) & 0xf,
            (x >> 40) & 0xf == (y >> 40) & 0xf,
            (x >> 36) & 0xf == (y >> 36) & 0xf,
            (x >> 32) & 0xf == (y >> 32) & 0xf,
            (x >> 28) & 0xf == (y >> 28) & 0xf,
            (x >> 24) & 0xf == (y >> 24) & 0xf,
            (x >> 20) & 0xf == (y >> 20) & 0xf,
            (x >> 16) & 0xf == (y >> 16) & 0xf,
            (x >> 12) & 0xf == (y >> 12) & 0xf,
            (x >> 8) & 0xf == (y >> 8) & 0xf,
            (x >> 4) & 0xf == (y >> 4) & 0xf,
            (x >> 0) & 0xf == (y >> 0) & 0xf,
    ;
}

} // verus!
