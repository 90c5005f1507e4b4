//! Workout identifiers: 128-bit values that are drawn as version-7 UUIDs
//! and written in the usual hyphenated lower-case form.

use crate::label::digit_char;
use vstd::prelude::*;

verus! {

/// Whether `id` has the layout of a version-7 UUID: version nibble 7 and
/// the two variant bits `10`.
pub open spec fn is_version_7(id: u128) -> bool {
    (id >> 76u128) & 0xfu128 == 7u128 && (id >> 62u128) & 0x3u128 == 2u128
}

/// The lower-case character of the hexadecimal digit `v`.
pub open spec fn hex_char(v: int) -> char
    recommends
        0 <= v < 16,
{
    if v < 10 {
        digit_char(v)
    } else if v == 10 {
        'a'
    } else if v == 11 {
        'b'
    } else if v == 12 {
        'c'
    } else if v == 13 {
        'd'
    } else if v == 14 {
        'e'
    } else {
        'f'
    }
}

/// The hexadecimal numeral of `value` in exactly `width` digits, most
/// significant first (digits above the width are dropped).
pub open spec fn hex_digits(value: nat, width: nat) -> Seq<char>
    decreases width,
{
    if width == 0 {
        Seq::empty()
    } else {
        hex_digits(value / 16, (width - 1) as nat).push(hex_char((value % 16) as int))
    }
}

/// The text of an identifier: its 32 hexadecimal digits in the groups
/// 8-4-4-4-12, joined by hyphens.
pub open spec fn hyphenated(id: u128) -> Seq<char> {
    let digits = hex_digits(id as nat, 32);
    digits.subrange(0, 8) + seq!['-'] + digits.subrange(8, 12) + seq!['-'] + digits.subrange(
        12,
        16,
    ) + seq!['-'] + digits.subrange(16, 20) + seq!['-'] + digits.subrange(20, 32)
}

/// Sixteen to the power `width`.
pub open spec fn pow16(width: nat) -> nat
    decreases width,
{
    if width == 0 {
        1
    } else {
        16 * pow16((width - 1) as nat)
    }
}

/// A hexadecimal numeral has as many digits as its width.
pub proof fn lemma_hex_digits_len(value: nat, width: nat)
    ensures
        hex_digits(value, width).len() == width,
    decreases width,
{
    if width > 0 {
        lemma_hex_digits_len(value / 16, (width - 1) as nat);
    }
}

/// Two values below `16^width` with the same numeral of that width are
/// the same value.
pub proof fn lemma_hex_digits_injective(a: nat, b: nat, width: nat)
    requires
        a < pow16(width),
        b < pow16(width),
        hex_digits(a, width) == hex_digits(b, width),
    ensures
        a == b,
    decreases width,
{
    if width > 0 {
        let narrower = (width - 1) as nat;
        let front_a = hex_digits(a / 16, narrower);
        let front_b = hex_digits(b / 16, narrower);
        let last_a = hex_char((a % 16) as int);
        let last_b = hex_char((b % 16) as int);
        assert(front_a.push(last_a).drop_last() =~= front_a);
        assert(front_b.push(last_b).drop_last() =~= front_b);
        assert(front_a.push(last_a).last() == last_a);
        assert(front_b.push(last_b).last() == last_b);
        assert(a % 16 == b % 16);
        lemma_hex_digits_injective(a / 16, b / 16, narrower);
    }
}

/// Distinct identifiers are written differently.
pub proof fn lemma_hyphenated_injective(a: u128, b: u128)
    requires
        hyphenated(a) == hyphenated(b),
    ensures
        a == b,
{
    let digits_a = hex_digits(a as nat, 32);
    let digits_b = hex_digits(b as nat, 32);
    lemma_hex_digits_len(a as nat, 32);
    lemma_hex_digits_len(b as nat, 32);
    assert forall|i: int| 0 <= i < 32 implies digits_a[i] == digits_b[i] by {
        let at = if i < 8 {
            i
        } else if i < 12 {
            i + 1
        } else if i < 16 {
            i + 2
        } else if i < 20 {
            i + 3
        } else {
            i + 4
        };
        assert(hyphenated(a)[at] == digits_a[i]);
        assert(hyphenated(b)[at] == digits_b[i]);
    }
    assert(digits_a =~= digits_b);
    assert(pow16(32) == 0x1_0000_0000_0000_0000_0000_0000_0000_0000) by {
        reveal_with_fuel(pow16, 33);
    }
    lemma_hex_digits_injective(a as nat, b as nat, 32);
}

/// Draws a new identifier with `uuid::Uuid::now_v7` and hands it out as
/// the 128-bit number that `Uuid::as_u128` gives. Trusted: the result has
/// the version and variant bits of a version-7 UUID. Which value comes
/// back depends on the clock and on random bits, so nothing else is
/// claimed; the call panics where the system clock stands before 1970.
#[verifier::external_body]
pub(crate) fn fresh_id() -> (id: u128)
    ensures
        is_version_7(id),
{
    uuid::Uuid::now_v7().as_u128()
}

/// Writes an identifier as `uuid::Uuid` displays it (`Uuid::from_u128`,
/// then `to_string`). Trusted: the text is the hyphenated lower-case
/// hexadecimal form of the 128 bits, big end first.
#[verifier::external_body]
pub(crate) fn id_text(id: u128) -> (text: String)
    ensures
        text@ == hyphenated(id),
{
    uuid::Uuid::from_u128(id).to_string()
}

} // verus!
