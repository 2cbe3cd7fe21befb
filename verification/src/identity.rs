//! Caller identities, timestamps and the text forms used in transaction
//! references.

use vstd::prelude::*;
use vstd::string::StringExecFns;

verus! {

/// A 256-bit caller identity, held as its high and low 128-bit words.
#[derive(Clone, Copy, PartialEq, Eq, Structural, Debug, Hash)]
pub struct Identity {
    pub hi: u128,
    pub lo: u128,
}

/// A point in time, in microseconds since the Unix epoch.
#[derive(Clone, Copy, PartialEq, Eq, Structural, Debug, Hash)]
pub struct Timestamp {
    pub micros_since_unix_epoch: i64,
}

/// What the host supplies with every call: who is calling, and when.
#[derive(Clone, Copy, PartialEq, Eq, Structural, Debug)]
pub struct ReducerContext {
    pub sender: Identity,
    pub timestamp: Timestamp,
}

/// The character that stands for one digit below sixteen, in lower case.
pub open spec fn digit_char(d: int) -> char {
    if d == 0 {
        '0'
    } else if d == 1 {
        '1'
    } else if d == 2 {
        '2'
    } else if d == 3 {
        '3'
    } else if d == 4 {
        '4'
    } else if d == 5 {
        '5'
    } else if d == 6 {
        '6'
    } else if d == 7 {
        '7'
    } else if d == 8 {
        '8'
    } else if d == 9 {
        '9'
    } else if d == 10 {
        'a'
    } else if d == 11 {
        'b'
    } else if d == 12 {
        'c'
    } else if d == 13 {
        'd'
    } else if d == 14 {
        'e'
    } else {
        'f'
    }
}

/// The lowest `digits` hexadecimal digits of `value`, most significant first.
pub open spec fn hex_text(value: nat, digits: nat) -> Seq<char>
    decreases digits,
{
    if digits == 0 {
        Seq::empty()
    } else {
        hex_text(value / 16, (digits - 1) as nat).push(digit_char((value % 16) as int))
    }
}

/// An identity written as 64 hexadecimal digits, most significant first.
pub open spec fn identity_text(id: Identity) -> Seq<char> {
    hex_text(id.hi as nat, 32) + hex_text(id.lo as nat, 32)
}

/// A natural number in decimal, without leading zeros.
pub open spec fn natural_text(value: nat) -> Seq<char>
    decreases value,
{
    if value < 10 {
        seq![digit_char(value as int)]
    } else {
        natural_text(value / 10).push(digit_char((value % 10) as int))
    }
}

/// An integer in decimal, with a minus sign in front of a negative one.
pub open spec fn decimal_text(value: int) -> Seq<char> {
    if value < 0 {
        seq!['-'] + natural_text((-value) as nat)
    } else {
        natural_text(value as nat)
    }
}

/// The reference under which a purchase, gift or grant is filed: the tag,
/// the microseconds of the call and the caller, joined by underscores.
pub open spec fn reference_text(tag: Seq<char>, ctx: ReducerContext) -> Seq<char> {
    tag + seq!['_'] + decimal_text(ctx.timestamp.micros_since_unix_epoch as int) + seq!['_']
        + identity_text(ctx.sender)
}

/// Formats an identity with spacetimedb's `Identity::to_hex`, after the
/// number was put together from its two words with `u256::from_words` and
/// `Identity::from_u256`. Not proved: that the text is the 32 bytes of the
/// number in big-endian order, two lower-case hexadecimal digits each.
#[verifier::external_body]
fn identity_hex(id: Identity) -> (text: String)
    ensures
        text@ == identity_text(id),
{
    let number = spacetimedb::sats::u256::from_words(id.hi, id.lo);
    spacetimedb::Identity::from_u256(number).to_hex().as_str().to_string()
}

/// Formats a number with std's `ToString::to_string` for `i64`. Not proved:
/// that the text is the decimal digits of the number without leading zeros,
/// after a minus sign where the number is negative.
#[verifier::external_body]
fn decimal(value: i64) -> (text: String)
    ensures
        text@ == decimal_text(value as int),
{
    value.to_string()
}

impl Identity {
    /// The identity as 64 lower-case hexadecimal digits.
    pub fn to_hex(&self) -> (text: String)
        ensures
            text@ == identity_text(*self),
    {
        identity_hex(*self)
    }
}

impl Timestamp {
    /// The microseconds between the Unix epoch and this point in time.
    pub fn to_micros_since_unix_epoch(self) -> (micros: i64)
        ensures
            micros == self.micros_since_unix_epoch,
    {
        self.micros_since_unix_epoch
    }
}

/// Builds the reference under which an operation of this call is filed.
pub fn transaction_reference(tag: &str, ctx: &ReducerContext) -> (text: String)
    ensures
        text@ == reference_text(tag@, *ctx),
{
    let mut text = String::from_str(tag);
    text.append("_");
    let micros = decimal(ctx.timestamp.to_micros_since_unix_epoch());
    text.append(micros.as_str());
    text.append("_");
    let sender = ctx.sender.to_hex();
    text.append(sender.as_str());
    proof {
        reveal_strlit("_");
        assert("_"@ =~= seq!['_']);
    }
    text
}

} // verus!
