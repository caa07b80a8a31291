//! Resource identifiers and their hexadecimal text form.

use rpkg_rs::resource::runtime_resource_id::{RuntimeResourceID, RuntimeResourceIDError};
use vstd::arithmetic::div_mod::lemma_div_denominator;
use vstd::prelude::*;

verus! {

/// A 64-bit runtime resource identifier.
///
/// The top byte is a platform tag and the low 56 bits are the hash proper.
/// A value read from a package may hold any bit pattern; a value parsed from
/// text is always valid in the sense of [`is_valid_id`].
#[derive(Clone, Copy, Debug, PartialEq, Eq, Hash, Structural)]
pub struct ResourceId {
    pub value: u64,
}

/// Why a piece of text is not a resource identifier.
#[derive(Clone, Copy, Debug, PartialEq, Eq, Structural)]
pub enum IdError {
    /// The text is not a hexadecimal number that fits in 64 bits.
    NotHex,
    /// The number was read, but no resource can have it as its identifier.
    InvalidId(u64),
}

/// The largest platform tag in use.
pub const MAX_PLATFORM_TAG: u64 = 4;

/// The mask of the 56 hash bits of an identifier.
pub const HASH_MASK: u64 = 0x00FF_FFFF_FFFF_FFFF;

/// An identifier is valid when its platform tag is known and its hash bits are
/// not all ones (that pattern is reserved for "no resource").
pub open spec fn is_valid_id(value: u64) -> bool {
    (value >> 56u64) <= MAX_PLATFORM_TAG && (value & HASH_MASK) != HASH_MASK
}

/// The value of one hexadecimal digit, in either case.
pub open spec fn hex_digit_value(c: char) -> Option<nat> {
    if '0' <= c && c <= '9' {
        Some((c as nat - '0' as nat) as nat)
    } else if 'a' <= c && c <= 'f' {
        Some((c as nat - 'a' as nat + 10) as nat)
    } else if 'A' <= c && c <= 'F' {
        Some((c as nat - 'A' as nat + 10) as nat)
    } else {
        None
    }
}

/// Every character is a hexadecimal digit.
pub open spec fn all_hex_digits(s: Seq<char>) -> bool {
    forall|i: int| 0 <= i < s.len() ==> (#[trigger] hex_digit_value(s[i])) is Some
}

/// The number that a run of hexadecimal digits denotes, most significant first.
pub open spec fn hex_value(s: Seq<char>) -> nat
    decreases s.len(),
{
    if s.len() == 0 {
        0
    } else {
        16 * hex_value(s.drop_last()) + hex_digit_value(s.last()).unwrap()
    }
}

/// The text without a leading `0x` or `0X`.
pub open spec fn strip_hex_prefix(s: Seq<char>) -> Seq<char> {
    if s.len() >= 2 && s[0] == '0' && (s[1] == 'x' || s[1] == 'X') {
        s.subrange(2, s.len() as int)
    } else {
        s
    }
}

/// The text without a leading `+`.
pub open spec fn strip_plus_sign(s: Seq<char>) -> Seq<char> {
    if s.len() >= 1 && s[0] == '+' {
        s.subrange(1, s.len() as int)
    } else {
        s
    }
}

/// The digits of an identifier's text: what is left after an optional `0x`
/// prefix and an optional sign.
pub open spec fn id_digits(s: Seq<char>) -> Seq<char> {
    strip_plus_sign(strip_hex_prefix(s))
}

/// The text is a hexadecimal number that fits in 64 bits.
pub open spec fn is_hex_u64(s: Seq<char>) -> bool {
    &&& id_digits(s).len() > 0
    &&& all_hex_digits(id_digits(s))
    &&& hex_value(id_digits(s)) <= u64::MAX
}

/// What parsing a piece of text as an identifier gives.
pub open spec fn parse_id(s: Seq<char>) -> Result<ResourceId, IdError> {
    if !is_hex_u64(s) {
        Err(IdError::NotHex)
    } else if !is_valid_id(hex_value(id_digits(s)) as u64) {
        Err(IdError::InvalidId(hex_value(id_digits(s)) as u64))
    } else {
        Ok(ResourceId { value: hex_value(id_digits(s)) as u64 })
    }
}

/// Sixteen to the power `k`.
pub open spec fn pow16(k: nat) -> nat
    decreases k,
{
    if k == 0 {
        1
    } else {
        16 * pow16((k - 1) as nat)
    }
}

/// No power of sixteen is zero.
pub proof fn lemma_pow16_positive(k: nat)
    ensures
        pow16(k) > 0,
    decreases k,
{
    if k > 0 {
        lemma_pow16_positive((k - 1) as nat);
    }
}

/// The upper-case hexadecimal digit for a value below sixteen.
pub open spec fn upper_hex_digit(n: int) -> char {
    if 0 <= n < 10 {
        ('0' as int + n) as char
    } else {
        ('A' as int + n - 10) as char
    }
}

/// The sixteen upper-case hexadecimal digits of a 64-bit value, most
/// significant first, with leading zeros.
pub open spec fn hex16(value: u64) -> Seq<char> {
    Seq::new(16, |i: int| upper_hex_digit((value as int / pow16((15 - i) as nat) as int) % 16))
}

/// An upper-case digit has the value it was made from.
pub proof fn lemma_digit_round_trip(n: int)
    requires
        0 <= n < 16,
    ensures
        hex_digit_value(upper_hex_digit(n)) == Some(n as nat),
{
}

/// The first `k` of the sixteen digits denote the value without its last
/// `16 - k` hexadecimal places.
proof fn lemma_hex16_prefix_value(value: u64, k: nat)
    requires
        k <= 16,
    ensures
        all_hex_digits(hex16(value).take(k as int)),
        hex_value(hex16(value).take(k as int)) == value as nat / pow16((16 - k) as nat),
    decreases k,
{
    let digits = hex16(value).take(k as int);
    if k == 0 {
        reveal_with_fuel(pow16, 17);
        assert(pow16(16) == 0x1_0000_0000_0000_0000);
        assert(value as nat / 0x1_0000_0000_0000_0000 == 0);
        assert(digits =~= Seq::<char>::empty());
    } else {
        lemma_hex16_prefix_value(value, (k - 1) as nat);
        let init = hex16(value).take(k - 1);
        assert(digits.drop_last() =~= init);
        let low = pow16((16 - k) as nat);
        lemma_pow16_positive((16 - k) as nat);
        let shifted = value as int / low as int;
        assert(digits.last() == upper_hex_digit(shifted % 16));
        lemma_digit_round_trip(shifted % 16);
        assert(pow16((16 - (k - 1)) as nat) == 16 * low);
        lemma_div_denominator(value as int, low as int, 16);
        assert(low * 16 == 16 * low) by (nonlinear_arith);
        assert(value as int / ((16 * low) as int) == shifted / 16);
        assert(hex_value(init) == shifted / 16);
        assert(hex_value(digits) == 16 * hex_value(init) + (shifted % 16));
        assert(hex_value(digits) == shifted);
        assert forall|i: int| 0 <= i < digits.len() implies (#[trigger] hex_digit_value(
            digits[i],
        )) is Some by {
            if i < k - 1 {
                assert(init[i] == digits[i]);
            }
        }
    }
}

/// The text form of an identifier denotes the identifier: read as a
/// hexadecimal number, the sixteen digits give the value back.
pub proof fn law_hex_text_parses_back(value: u64)
    ensures
        hex16(value).len() == 16,
        id_digits(hex16(value)) == hex16(value),
        is_hex_u64(hex16(value)),
        hex_value(hex16(value)) == value,
        parse_id(hex16(value)) == (if is_valid_id(value) {
            Ok::<ResourceId, IdError>(ResourceId { value })
        } else {
            Err::<ResourceId, IdError>(IdError::InvalidId(value))
        }),
{
    let text = hex16(value);
    lemma_hex16_prefix_value(value, 16);
    assert(text.take(16) =~= text);
    assert(pow16(0) == 1);
    assert(value as nat / 1 == value as nat);
    assert(hex_value(text) == value as nat);
    lemma_pow16_positive(14);
    assert(text[1] == upper_hex_digit((value as int / pow16(14) as int) % 16));
    assert(text[1] != 'x' && text[1] != 'X');
    lemma_pow16_positive(15);
    assert(text[0] == upper_hex_digit((value as int / pow16(15) as int) % 16));
    assert(text[0] != '+');
    assert(strip_hex_prefix(text) == text);
    assert(strip_plus_sign(text) == text);
}

/// Two identifiers with the same text form are the same identifier.
pub proof fn law_hex_text_is_unique(a: u64, b: u64)
    requires
        hex16(a) == hex16(b),
    ensures
        a == b,
{
    law_hex_text_parses_back(a);
    law_hex_text_parses_back(b);
}

/// Calls `RuntimeResourceID::from_hex_string` of rpkg-rs.
///
/// The claim: that function drops one leading `0x` or `0X`, reads the rest
/// with `u64::from_str_radix(_, 16)` (an optional `+`, then at least one
/// hexadecimal digit, the whole fitting in 64 bits), reports a parse error
/// where that fails, and otherwise accepts the number exactly when its
/// platform tag is at most four and its 56 hash bits are not all ones.
#[verifier::external_body]
fn parse_runtime_resource_id(text: &str) -> (r: Result<ResourceId, IdError>)
    ensures
        r == parse_id(text@),
{
    match RuntimeResourceID::from_hex_string(text) {
        Ok(id) => Ok(ResourceId { value: u64::from(id) }),
        Err(RuntimeResourceIDError::InvalidID(value)) => Err(IdError::InvalidId(value)),
        Err(RuntimeResourceIDError::ParseError(_)) => Err(IdError::NotHex),
    }
}

/// The text of one upper-case hexadecimal digit.
fn upper_hex_str(n: u8) -> (s: &'static str)
    requires
        n < 16,
    ensures
        s@ == seq![upper_hex_digit(n as int)],
{
    proof {
        reveal_strlit("0");
        reveal_strlit("1");
        reveal_strlit("2");
        reveal_strlit("3");
        reveal_strlit("4");
        reveal_strlit("5");
        reveal_strlit("6");
        reveal_strlit("7");
        reveal_strlit("8");
        reveal_strlit("9");
        reveal_strlit("A");
        reveal_strlit("B");
        reveal_strlit("C");
        reveal_strlit("D");
        reveal_strlit("E");
        reveal_strlit("F");
    }
    let s = if n == 0 {
        "0"
    } else if n == 1 {
        "1"
    } else if n == 2 {
        "2"
    } else if n == 3 {
        "3"
    } else if n == 4 {
        "4"
    } else if n == 5 {
        "5"
    } else if n == 6 {
        "6"
    } else if n == 7 {
        "7"
    } else if n == 8 {
        "8"
    } else if n == 9 {
        "9"
    } else if n == 10 {
        "A"
    } else if n == 11 {
        "B"
    } else if n == 12 {
        "C"
    } else if n == 13 {
        "D"
    } else if n == 14 {
        "E"
    } else {
        "F"
    };
    assert(s@ =~= seq![upper_hex_digit(n as int)]);
    s
}

impl ResourceId {
    /// Wraps a raw 64-bit value.
    pub fn new(value: u64) -> (id: ResourceId)
        ensures
            id.value == value,
    {
        ResourceId { value }
    }

    /// Whether a resource can have this identifier.
    pub fn is_valid(&self) -> (valid: bool)
        ensures
            valid == is_valid_id(self.value),
    {
        (self.value >> 56u64) <= MAX_PLATFORM_TAG && (self.value & HASH_MASK) != HASH_MASK
    }

    /// Parses an identifier from hexadecimal text, with or without a `0x`
    /// prefix.
    pub fn from_hex_string(text: &str) -> (r: Result<ResourceId, IdError>)
        ensures
            r == parse_id(text@),
            r is Ok ==> is_valid_id(r->Ok_0.value),
    {
        parse_runtime_resource_id(text)
    }

    /// The identifier as sixteen upper-case hexadecimal digits.
    pub fn to_hex_string(&self) -> (text: String)
        ensures
            text@ == hex16(self.value),
    {
        let mut text = String::new();
        let mut divisor: u64 = 0x1000_0000_0000_0000;
        let mut i: usize = 0;
        proof {
            reveal_with_fuel(pow16, 16);
            assert(pow16(15) == 0x1000_0000_0000_0000);
        }
        while i < 16
            invariant
                i <= 16,
                text@.len() == i,
                i < 16 ==> divisor == pow16((15 - i) as nat),
                forall|j: int| 0 <= j < i ==> text@[j] == hex16(self.value)[j],
            decreases 16 - i,
        {
            proof {
                lemma_pow16_positive((15 - i) as nat);
            }
            let digit: u64 = (self.value / divisor) % 16;
            text.append(upper_hex_str(digit as u8));
            if i < 15 {
                assert(pow16((15 - i) as nat) == 16 * pow16((14 - i) as nat));
                divisor = divisor / 16;
            }
            i = i + 1;
        }
        assert(text@ =~= hex16(self.value));
        text
    }
}

} // verus!
