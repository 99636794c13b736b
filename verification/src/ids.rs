//! Identifiers of panes, windows and sessions.

use vstd::arithmetic::power::*;
use vstd::prelude::*;

verus! {

/// A 128-bit identifier.
pub type Uuid = u128;

/// Whether `id` is marked as a random identifier: version 4, with the variant
/// bits that RFC 9562 lays down.
pub open spec fn is_random(id: Uuid) -> bool {
    &&& (id as nat / 0x1000_0000_0000_0000_0000) % 16 == 4
    &&& (id as nat / 0x4000_0000_0000_0000) % 4 == 2
}

/// A fresh identifier.
///
/// `uuid::Uuid::new_v4` draws 128 random bits and marks the result as version
/// 4. Which identifier comes is left to chance, so no more is claimed; above
/// all not that two calls give different identifiers.
#[verifier::external_body]
fn new_v4() -> (id: Uuid)
    ensures
        is_random(id),
{
    uuid::Uuid::new_v4().as_u128()
}

/// A fresh identifier, for a pane, a window or a session.
pub fn fresh_id() -> (id: Uuid)
    ensures
        is_random(id),
{
    new_v4()
}

/// The character for a hexadecimal digit.
pub open spec fn hex_digit(value: nat) -> char {
    if value < 10 {
        (48 + value) as char
    } else {
        (87 + value) as char
    }
}

/// The low `width` hexadecimal digits of `n`, the most significant first.
pub open spec fn hex(n: nat, width: nat) -> Seq<char>
    decreases width,
{
    if width == 0 {
        seq![]
    } else {
        hex(n / 16, (width - 1) as nat).push(hex_digit(n % 16))
    }
}

/// An identifier's text: 32 lower-case hexadecimal digits in groups of 8, 4, 4,
/// 4 and 12, with hyphens between them.
pub open spec fn hyphenated(id: Uuid) -> Seq<char> {
    let digits = hex(id as nat, 32);
    digits.subrange(0, 8) + seq!['-'] + digits.subrange(8, 12) + seq!['-'] + digits.subrange(12, 16)
        + seq!['-'] + digits.subrange(16, 20) + seq!['-'] + digits.subrange(20, 32)
}

/// An identifier's text.
///
/// The `Display` of `uuid::Uuid` writes the hyphenated form in lower case.
#[verifier::external_body]
pub(crate) fn uuid_text(id: Uuid) -> (text: String)
    ensures
        text@ == hyphenated(id),
{
    uuid::Uuid::from_u128(id).to_string()
}

proof fn lemma_hex_len(n: nat, width: nat)
    ensures
        hex(n, width).len() == width,
    decreases width,
{
    if width > 0 {
        lemma_hex_len(n / 16, (width - 1) as nat);
    }
}

/// An identifier's text has 36 characters, all of them ASCII.
pub proof fn lemma_text_is_ascii(id: Uuid)
    ensures
        hyphenated(id).len() == 36,
        vstd::utf8::is_ascii_chars(hyphenated(id)),
{
    lemma_hex_len(id as nat, 32);
    lemma_hex_ascii(id as nat, 32);
    let digits = hex(id as nat, 32);
    assert forall|i: int| 0 <= i < 36 implies '\0' <= #[trigger] hyphenated(id)[i] <= '\u{7f}' by {
        if i < 8 {
            assert(hyphenated(id)[i] == digits[i]);
        } else if 8 < i < 13 {
            assert(hyphenated(id)[i] == digits[i - 1]);
        } else if 13 < i < 18 {
            assert(hyphenated(id)[i] == digits[i - 2]);
        } else if 18 < i < 23 {
            assert(hyphenated(id)[i] == digits[i - 3]);
        } else if 23 < i {
            assert(hyphenated(id)[i] == digits[i - 4]);
        } else {
            assert(hyphenated(id)[i] == '-');
        }
    }
}

proof fn lemma_hex_ascii(n: nat, width: nat)
    ensures
        vstd::utf8::is_ascii_chars(hex(n, width)),
    decreases width,
{
    if width > 0 {
        lemma_hex_ascii(n / 16, (width - 1) as nat);
    }
}

proof fn lemma_hex_digit_injective(a: nat, b: nat)
    requires
        a < 16,
        b < 16,
        hex_digit(a) == hex_digit(b),
    ensures
        a == b,
{
}

proof fn lemma_hex_injective(a: nat, b: nat, width: nat)
    requires
        a < pow(16, width),
        b < pow(16, width),
        hex(a, width) == hex(b, width),
    ensures
        a == b,
    decreases width,
{
    lemma_pow0(16);
    if width > 0 {
        let less = (width - 1) as nat;
        reveal(vstd::arithmetic::power::pow);
        let p = pow(16, less);
        assert(pow(16, width) == 16 * p);
        assert(hex(a, width).drop_last() =~= hex(a / 16, less));
        assert(hex(b, width).drop_last() =~= hex(b / 16, less));
        assert(hex(a, width).last() == hex_digit(a % 16));
        assert(hex(b, width).last() == hex_digit(b % 16));
        lemma_hex_digit_injective(a % 16, b % 16);
        lemma_hex_injective(a / 16, b / 16, less);
    }
}

proof fn lemma_pow_16_doubles(k: nat, value: int)
    requires
        pow(16, k) == value,
    ensures
        pow(16, k + k) == value * value,
{
    lemma_pow_adds(16, k, k);
}

proof fn lemma_pow_16_32()
    ensures
        pow(16, 32) == 0x1_0000_0000_0000_0000_0000_0000_0000_0000,
{
    lemma_pow1(16);
    lemma_pow_16_doubles(1, 16);
    lemma_pow_16_doubles(2, 0x100);
    lemma_pow_16_doubles(4, 0x1_0000);
    lemma_pow_16_doubles(8, 0x1_0000_0000);
    lemma_pow_16_doubles(16, 0x1_0000_0000_0000_0000);
}

/// Different identifiers have different texts.
pub proof fn lemma_text_tells_ids_apart(a: Uuid, b: Uuid)
    requires
        hyphenated(a) == hyphenated(b),
    ensures
        a == b,
{
    let x = hex(a as nat, 32);
    let y = hex(b as nat, 32);
    lemma_hex_len(a as nat, 32);
    lemma_hex_len(b as nat, 32);
    assert forall|i: int| 0 <= i < 32 implies x[i] == y[i] by {
        let gap: int = if i < 8 {
            0
        } else if i < 12 {
            1
        } else if i < 16 {
            2
        } else if i < 20 {
            3
        } else {
            4
        };
        assert(hyphenated(a)[i + gap] == x[i]);
        assert(hyphenated(b)[i + gap] == y[i]);
    }
    assert(x =~= y);
    lemma_pow_16_32();
    lemma_hex_injective(a as nat, b as nat, 32);
}

} // verus!
