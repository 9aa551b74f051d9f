//! Human-readable forms: durations as a coarse value with a unit suffix, and
//! long identifiers reduced to their ends.

use vstd::prelude::*;
use vstd::string::StringExecFns;
use vstd::utf8::{
    encode_utf8, is_ascii_chars, encode_utf8_valid_utf8, encode_utf8_decode_utf8,
    is_ascii_chars_encode_utf8,
};
use crate::codec::{dec_digits, push_dec_digits, lemma_dec_digits_are_digits, string_from_utf8};

verus! {

/// The decimal digit characters of a number.
pub open spec fn dec_chars(n: nat) -> Seq<char> {
    dec_digits(n).map_values(|b: u8| b as char)
}

/// The scale a duration in milliseconds is shown at: the largest unit that
/// keeps the value at least one.
pub open spec fn spec_format_duration(ms: u64) -> Seq<char> {
    if ms < 1000 {
        dec_chars(ms as nat) + "ms"@
    } else if ms < 60000 {
        dec_chars((ms / 1000) as nat) + "s"@
    } else if ms < 3600000 {
        dec_chars((ms / 60000) as nat) + "min"@
    } else if ms < 86400000 {
        dec_chars((ms / 3600000) as nat) + "h"@
    } else {
        dec_chars((ms / 86400000) as nat) + "d"@
    }
}

/// The digit characters of a number are ASCII and encode to its digit bytes.
proof fn lemma_dec_chars_encode(n: nat)
    ensures
        is_ascii_chars(dec_chars(n)),
        encode_utf8(dec_chars(n)) == dec_digits(n),
{
    lemma_dec_digits_are_digits(n);
    let chars = dec_chars(n);
    assert forall|i: int| 0 <= i < chars.len() implies '\0' <= #[trigger] chars[i] <= '\u{7f}' by {
        assert(chars[i] == dec_digits(n)[i] as char);
    }
    is_ascii_chars_encode_utf8(chars);
    assert(encode_utf8(chars) =~= dec_digits(n));
}

/// UTF-8 encoding distributes over concatenation.
proof fn lemma_encode_utf8_concat(a: Seq<char>, b: Seq<char>)
    ensures
        encode_utf8(a + b) == encode_utf8(a) + encode_utf8(b),
    decreases a.len(),
{
    if a.len() == 0 {
        assert(a + b =~= b);
        assert(encode_utf8(a) + encode_utf8(b) =~= encode_utf8(b));
    } else {
        assert((a + b).drop_first() =~= a.drop_first() + b);
        assert((a + b)[0] == a[0]);
        lemma_encode_utf8_concat(a.drop_first(), b);
        assert(encode_utf8(a + b) =~= encode_utf8(a) + encode_utf8(b));
    }
}

/// Builds the string for one value and unit suffix.
fn render_duration(value: u64, suffix: &str) -> (r: String)
    ensures
        r@ == dec_chars(value as nat) + suffix@,
{
    let mut bytes: Vec<u8> = Vec::new();
    push_dec_digits(&mut bytes, value);
    let sb = suffix.as_bytes_vec();
    let mut k: usize = 0;
    while k < sb.len()
        invariant
            k <= sb.len(),
            bytes@ == dec_digits(value as nat) + sb@.take(k as int),
            sb@ == encode_utf8(suffix@),
        decreases sb.len() - k,
    {
        proof {
            assert(sb@.take(k as int + 1) =~= sb@.take(k as int).push(sb@[k as int]));
        }
        bytes.push(sb[k]);
        k = k + 1;
    }
    proof {
        assert(sb@.take(sb@.len() as int) =~= sb@);
        lemma_dec_chars_encode(value as nat);
        lemma_encode_utf8_concat(dec_chars(value as nat), suffix@);
        assert(bytes@ == encode_utf8(dec_chars(value as nat) + suffix@));
        encode_utf8_valid_utf8(dec_chars(value as nat) + suffix@);
        encode_utf8_decode_utf8(dec_chars(value as nat) + suffix@);
    }
    match string_from_utf8(bytes) {
        Some(s) => s,
        None => vstd::pervasive::unreached(),
    }
}

/// A duration in whole milliseconds, shown at the largest unit that keeps
/// the value at least one: milliseconds, seconds, minutes, hours or days.
pub fn format_duration(ms: u64) -> (r: String)
    ensures
        r@ == spec_format_duration(ms),
{
    if ms < 1000 {
        render_duration(ms, "ms")
    } else if ms < 60000 {
        render_duration(ms / 1000, "s")
    } else if ms < 3600000 {
        render_duration(ms / 60000, "min")
    } else if ms < 86400000 {
        render_duration(ms / 3600000, "h")
    } else {
        render_duration(ms / 86400000, "d")
    }
}

/// A short display form for long identifiers such as peer identities.
pub trait ReducedId {
    /// The reduced form: the first and last six characters around an
    /// ellipsis, or the identifier itself when it is too short to reduce.
    fn reduced(&self) -> String;
}

impl ReducedId for String {
    fn reduced(&self) -> (r: String) {
        reduced_id(self.as_str())
    }
}

/// Reduces an identifier to its first and last six characters around an
/// ellipsis; an identifier of fewer than twelve characters stays whole.
pub fn reduced_id(s: &str) -> (r: String)
    ensures
        s@.len() >= 12 ==> r@ == s@.subrange(0, 6) + "..."@ + s@.subrange(
            s@.len() - 6,
            s@.len() as int,
        ),
        s@.len() < 12 ==> r@ == s@,
{
    let n = s.unicode_len();
    if n < 12 {
        s.to_owned()
    } else {
        s.substring_char(0, 6).to_owned().concat("...").concat(s.substring_char(n - 6, n))
    }
}

} // verus!
