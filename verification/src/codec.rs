//! The whole-document persistence format and the ticket wire body share one
//! set of framing primitives: decimal number lines, length-prefixed byte
//! fields, UTF-8 string fields, and optional variants of both. Every encoder
//! has a spec-level description, every parser agrees exactly with a spec-level
//! parser, and parsing an encoding is proved to give the encoded value back.

use vstd::prelude::*;
use vstd::utf8::{valid_utf8, decode_utf8, encode_utf8};
use vstd::utf8::{encode_utf8_valid_utf8, encode_utf8_decode_utf8};
use vstd::arithmetic::div_mod::lemma_fundamental_div_mod;

verus! {

/// The line terminator that closes every number line and byte field.
pub open spec fn nl() -> u8 {
    10
}

pub open spec fn is_digit(b: u8) -> bool {
    48 <= b <= 57
}

/// The canonical decimal digit string of a number, most significant first.
pub open spec fn dec_digits(n: nat) -> Seq<u8>
    decreases n,
{
    if n < 10 {
        seq![(48 + n) as u8]
    } else {
        dec_digits(n / 10).push((48 + n % 10) as u8)
    }
}

/// A number line: canonical decimal digits closed by a newline.
pub open spec fn enc_num(n: nat) -> Seq<u8> {
    dec_digits(n) + seq![nl()]
}

/// A byte field: the byte count as a number line, the bytes, a newline.
pub open spec fn enc_bytes(b: Seq<u8>) -> Seq<u8> {
    enc_num(b.len()) + b + seq![nl()]
}

/// A string field: the UTF-8 encoding of the string as a byte field.
pub open spec fn enc_str(s: Seq<char>) -> Seq<u8> {
    enc_bytes(encode_utf8(s))
}

/// An optional string: a presence tag line, then the field if present.
pub open spec fn enc_opt_str(o: Option<Seq<char>>) -> Seq<u8> {
    match o {
        None => enc_num(0),
        Some(s) => enc_num(1) + enc_str(s),
    }
}

/// An optional number: a presence tag line, then the number line if present.
pub open spec fn enc_opt_num(o: Option<u64>) -> Seq<u8> {
    match o {
        None => enc_num(0),
        Some(n) => enc_num(1) + enc_num(n as nat),
    }
}

pub proof fn lemma_dec_digits_are_digits(n: nat)
    ensures
        dec_digits(n).len() >= 1,
        forall|i: int| 0 <= i < dec_digits(n).len() ==> is_digit(#[trigger] dec_digits(n)[i]),
    decreases n,
{
    if n >= 10 {
        lemma_dec_digits_are_digits(n / 10);
    }
}

/// `part` stands at position `i` of `b`.
pub open spec fn at(b: Seq<u8>, i: int, part: Seq<u8>) -> bool {
    &&& 0 <= i
    &&& i + part.len() <= b.len()
    &&& b.subrange(i, i + part.len()) == part
}

/// A part made of two pieces stands at a position exactly when the pieces
/// stand there one after the other.
pub proof fn lemma_at_split(b: Seq<u8>, i: int, x: Seq<u8>, y: Seq<u8>)
    requires
        at(b, i, x + y),
    ensures
        at(b, i, x),
        at(b, i + x.len(), y),
{
    let xy = x + y;
    assert(b.subrange(i, i + x.len()) =~= x);
    assert forall|k: int| 0 <= k < y.len() implies b[i + x.len() + k] == y[k] by {
        assert(b.subrange(i, i + xy.len())[x.len() + k] == y[k]);
    }
    assert(b.subrange(i + x.len(), i + x.len() + y.len()) =~= y);
}

// ---------------------------------------------------------------------------
// Number lines
// ---------------------------------------------------------------------------

/// The spec-level scan of a number line: digits accumulate most significant
/// first until the closing newline; anything else, or overflow past `u64`,
/// fails.
pub open spec fn spec_scan_num(b: Seq<u8>, i: int, acc: u64) -> Option<(u64, int)>
    decreases b.len() - i,
{
    if i < 0 || i >= b.len() {
        None
    } else if b[i] == nl() {
        Some((acc, i + 1))
    } else if is_digit(b[i]) {
        if acc as nat * 10 + (b[i] - 48) as nat <= u64::MAX as nat {
            spec_scan_num(b, i + 1, (acc * 10 + (b[i] - 48)) as u64)
        } else {
            None
        }
    } else {
        None
    }
}

/// Parses a number line at position `i`.
pub open spec fn spec_parse_num(b: Seq<u8>, i: int) -> Option<(u64, int)> {
    spec_scan_num(b, i, 0)
}

/// A successful number scan lands strictly past its start and inside the
/// buffer.
pub proof fn lemma_scan_num_bounds(b: Seq<u8>, i: int, acc: u64)
    requires
        spec_scan_num(b, i, acc) is Some,
    ensures
        i < spec_scan_num(b, i, acc).unwrap().1 <= b.len(),
    decreases b.len() - i,
{
    if 0 <= i < b.len() && b[i] != nl() && is_digit(b[i])
        && acc as nat * 10 + (b[i] - 48) as nat <= u64::MAX as nat {
        lemma_scan_num_bounds(b, i + 1, (acc * 10 + (b[i] - 48)) as u64);
    }
}

pub open spec fn pow10(k: nat) -> nat
    decreases k,
{
    if k == 0 {
        1
    } else {
        10 * pow10((k - 1) as nat)
    }
}

proof fn lemma_pow10_unfold(k: nat)
    ensures
        pow10(k + 1) == pow10(k) * 10,
    decreases k,
{
    if k > 0 {
        lemma_pow10_unfold((k - 1) as nat);
    }
}

/// Scanning the canonical digits of `n` starting from accumulator `acc`
/// consumes them all and leaves the accumulator at `acc * 10^digits + n`.
proof fn lemma_scan_dec_digits(b: Seq<u8>, i: int, acc: u64, n: u64, hi: nat)
    requires
        at(b, i, dec_digits(n as nat)),
        i + dec_digits(n as nat).len() < b.len(),
        hi == acc as nat * pow10(dec_digits(n as nat).len()) + n,
        hi <= u64::MAX,
    ensures
        spec_scan_num(b, i, acc) == spec_scan_num(b, i + dec_digits(n as nat).len(), hi as u64),
    decreases n,
{
    lemma_dec_digits_are_digits(n as nat);
    if n < 10 {
        assert(b[i] == b.subrange(i, i + 1)[0]);
        assert(b[i] == dec_digits(n as nat)[0]);
        assert(pow10(0) == 1);
        assert(pow10(1) == 10);
        assert(acc as nat * 10 + n <= u64::MAX);
        assert(spec_scan_num(b, i, acc) == spec_scan_num(b, i + 1, (acc * 10 + n) as u64));
    } else {
        let head = dec_digits((n / 10) as nat);
        let d = (48 + n % 10) as u8;
        assert(dec_digits(n as nat) =~= head + seq![d]);
        lemma_at_split(b, i, head, seq![d]);
        assert(pow10(head.len() + 1) == pow10(head.len()) * 10) by {
            lemma_pow10_unfold(head.len());
        }
        let mid: nat = (acc as nat * pow10(head.len()) + n as nat / 10) as nat;
        assert(mid * 10 + n % 10 == hi) by (nonlinear_arith)
            requires
                mid == acc as nat * pow10(head.len()) + n / 10,
                hi == acc as nat * (pow10(head.len()) * 10) + n,
                n >= 10,
        ;
        lemma_scan_dec_digits(b, i, acc, (n / 10) as u64, mid);
        let j = i + head.len();
        assert(b[j] == b.subrange(j, j + 1)[0]);
        assert(b[j] == d);
        assert(is_digit(d));
        assert((mid as u64) as nat * 10 + (d - 48) as nat == hi);
        assert(spec_scan_num(b, j, mid as u64) == spec_scan_num(b, j + 1, hi as u64));
    }
}

/// Parsing at a position where a number line stands yields the encoded number
/// and stops right after its newline.
pub proof fn lemma_parse_num_of_enc(b: Seq<u8>, i: int, n: u64)
    requires
        at(b, i, enc_num(n as nat)),
    ensures
        spec_parse_num(b, i) == Some((n, i + enc_num(n as nat).len())),
{
    let digits = dec_digits(n as nat);
    lemma_at_split(b, i, digits, seq![nl()]);
    lemma_scan_dec_digits(b, i, 0, n, n as nat);
    let j = i + digits.len();
    assert(b[j] == b.subrange(j, j + 1)[0]);
    assert(b[j] == nl());
    assert(spec_scan_num(b, j, n) == Some((n, j + 1)));
}

/// `x <= y / 10` exactly when `10 * x <= y`, for the overflow guard below.
proof fn lemma_le_div10(x: int, y: int)
    requires
        x >= 0,
        y >= 0,
    ensures
        (x <= y / 10) <==> (10 * x <= y),
{
    lemma_fundamental_div_mod(y, 10);
    if x <= y / 10 {
        assert(10 * x <= 10 * (y / 10)) by (nonlinear_arith)
            requires
                x <= y / 10,
        ;
    }
    if 10 * x <= y && x > y / 10 {
        assert(10 * x >= 10 * (y / 10) + 10) by (nonlinear_arith)
            requires
                x >= y / 10 + 1,
        ;
    }
}

/// Appends the canonical decimal digits of `n`.
pub fn push_dec_digits(out: &mut Vec<u8>, n: u64)
    ensures
        final(out)@ == old(out)@ + dec_digits(n as nat),
{
    let mut tmp: Vec<u8> = Vec::new();
    let mut m: u64 = n;
    let mut done: bool = false;
    while !done
        invariant
            !done ==> dec_digits(n as nat) =~= dec_digits(m as nat) + tmp@.reverse(),
            done ==> dec_digits(n as nat) =~= tmp@.reverse(),
        decreases m, (if done { 0int } else { 1int }),
    {
        let d: u8 = (m % 10) as u8 + 48;
        proof {
            assert(tmp@.push(d).reverse() =~= seq![d] + tmp@.reverse());
            if m >= 10 {
                assert(dec_digits(m as nat) =~= dec_digits((m / 10) as nat) + seq![d]);
                assert(dec_digits((m / 10) as nat) + seq![d] + tmp@.reverse()
                    =~= dec_digits((m / 10) as nat) + tmp@.push(d).reverse());
            } else {
                assert(dec_digits(m as nat) =~= seq![d]);
                assert(seq![d] + tmp@.reverse() =~= tmp@.push(d).reverse());
            }
        }
        tmp.push(d);
        if m < 10 {
            done = true;
        } else {
            m = m / 10;
        }
    }
    let ghost goal = dec_digits(n as nat);
    let mut k: usize = 0;
    while k < tmp.len()
        invariant
            k <= tmp.len(),
            goal =~= tmp@.reverse(),
            out@ == old(out)@ + goal.take(k as int),
        decreases tmp.len() - k,
    {
        let d = tmp[tmp.len() - 1 - k];
        proof {
            assert(goal[k as int] == tmp@[tmp@.len() - 1 - k]);
            assert(goal.take(k as int + 1) =~= goal.take(k as int).push(goal[k as int]));
        }
        out.push(d);
        k = k + 1;
    }
    proof {
        assert(goal.take(goal.len() as int) =~= goal);
    }
}

/// Appends a number line.
pub fn encode_num_into(out: &mut Vec<u8>, n: u64)
    ensures
        final(out)@ == old(out)@ + enc_num(n as nat),
{
    push_dec_digits(out, n);
    out.push(10);
    proof {
        assert(old(out)@ + dec_digits(n as nat) + seq![nl()]
            =~= old(out)@ + enc_num(n as nat));
    }
}

/// Parses a number line; agrees exactly with [`spec_parse_num`].
pub fn parse_num(b: &Vec<u8>, i: usize) -> (r: Option<(u64, usize)>)
    ensures
        match spec_parse_num(b@, i as int) {
            Some((v, j)) => r matches Some(p) && p.0 == v && p.1 as int == j,
            None => r is None,
        },
{
    let mut j = i;
    let mut acc: u64 = 0;
    loop
        invariant
            i <= j,
            spec_parse_num(b@, i as int) == spec_scan_num(b@, j as int, acc),
        decreases b.len() - j,
    {
        if j >= b.len() {
            return None;
        }
        let c = b[j];
        if c == 10 {
            return Some((acc, j + 1));
        }
        if 48 <= c && c <= 57 {
            let d: u64 = (c - 48) as u64;
            proof {
                lemma_le_div10(acc as int, (u64::MAX - d) as int);
            }
            if acc <= (u64::MAX - d) / 10 {
                acc = acc * 10 + d;
                j = j + 1;
            } else {
                return None;
            }
        } else {
            return None;
        }
    }
}

// ---------------------------------------------------------------------------
// Byte fields
// ---------------------------------------------------------------------------

/// Parses a byte field at position `i`: a length line, that many raw bytes,
/// and a closing newline.
pub open spec fn spec_parse_bytes(b: Seq<u8>, i: int) -> Option<(Seq<u8>, int)> {
    match spec_parse_num(b, i) {
        None => None,
        Some((len, j)) => if j + len + 1 <= b.len() && b[j + len] == nl() {
            Some((b.subrange(j, j + len), j + len + 1))
        } else {
            None
        },
    }
}

/// Parsing at a position where a byte field stands yields the encoded bytes.
pub proof fn lemma_parse_bytes_of_enc(b: Seq<u8>, i: int, v: Seq<u8>)
    requires
        at(b, i, enc_bytes(v)),
        v.len() <= u64::MAX,
    ensures
        spec_parse_bytes(b, i) == Some((v, i + enc_bytes(v).len())),
{
    let n = v.len() as u64;
    assert(enc_bytes(v) =~= enc_num(v.len()) + (v + seq![nl()]));
    lemma_at_split(b, i, enc_num(v.len()), v + seq![nl()]);
    lemma_parse_num_of_enc(b, i, n);
    let j = i + enc_num(v.len()).len();
    lemma_at_split(b, j, v, seq![nl()]);
    assert(b[j + v.len()] == b.subrange(j + v.len(), j + v.len() + 1)[0]);
    assert(b[j + v.len()] == nl());
    assert(b.subrange(j, j + n as int) =~= v);
}

/// Copies `b[from..to]` into a fresh vector.
pub fn copy_range(b: &Vec<u8>, from: usize, to: usize) -> (r: Vec<u8>)
    requires
        from <= to <= b.len(),
    ensures
        r@ == b@.subrange(from as int, to as int),
{
    let mut r: Vec<u8> = Vec::new();
    let mut k = from;
    while k < to
        invariant
            from <= k <= to <= b.len(),
            r@ == b@.subrange(from as int, k as int),
        decreases to - k,
    {
        proof {
            assert(b@.subrange(from as int, k as int + 1)
                =~= b@.subrange(from as int, k as int).push(b@[k as int]));
        }
        r.push(b[k]);
        k = k + 1;
    }
    r
}

/// Parses a byte field; agrees exactly with [`spec_parse_bytes`].
pub fn parse_bytes(b: &Vec<u8>, i: usize) -> (r: Option<(Vec<u8>, usize)>)
    ensures
        match spec_parse_bytes(b@, i as int) {
            Some((v, j)) => r matches Some(p) && p.0@ == v && p.1 as int == j,
            None => r is None,
        },
{
    match parse_num(b, i) {
        None => None,
        Some((len, j)) => {
            proof {
                lemma_scan_num_bounds(b@, i as int, 0);
            }
            if len >= (b.len() - j) as u64 {
                return None;
            }
            let lenu = len as usize;
            if b[j + lenu] != 10 {
                return None;
            }
            let bytes = copy_range(b, j, j + lenu);
            Some((bytes, j + lenu + 1))
        },
    }
}

/// Appends a byte field.
pub fn encode_bytes_into(out: &mut Vec<u8>, bytes: &Vec<u8>)
    ensures
        final(out)@ == old(out)@ + enc_bytes(bytes@),
{
    encode_num_into(out, bytes.len() as u64);
    let mut k: usize = 0;
    while k < bytes.len()
        invariant
            k <= bytes.len(),
            out@ == old(out)@ + enc_num(bytes@.len()) + bytes@.take(k as int),
        decreases bytes.len() - k,
    {
        proof {
            assert(bytes@.take(k as int + 1) =~= bytes@.take(k as int).push(bytes@[k as int]));
            assert(out@.push(bytes@[k as int])
                =~= old(out)@ + enc_num(bytes@.len()) + bytes@.take(k as int + 1));
        }
        out.push(bytes[k]);
        k = k + 1;
    }
    out.push(10);
    proof {
        assert(bytes@.take(bytes@.len() as int) =~= bytes@);
        assert(old(out)@ + enc_num(bytes@.len()) + bytes@ + seq![nl()]
            =~= old(out)@ + enc_bytes(bytes@));
    }
}

// ---------------------------------------------------------------------------
// String fields
// ---------------------------------------------------------------------------

/// Relies on `String::from_utf8`: it returns `Ok` exactly on valid UTF-8
/// input and then decodes those bytes as UTF-8.
#[verifier::external_body]
pub(crate) fn string_from_utf8(v: Vec<u8>) -> (r: Option<String>)
    ensures
        r is Some <==> valid_utf8(v@),
        r matches Some(s) ==> s@ == decode_utf8(v@),
{
    String::from_utf8(v).ok()
}

/// Parses a string field at position `i`: a byte field holding valid UTF-8.
pub open spec fn spec_parse_str(b: Seq<u8>, i: int) -> Option<(Seq<char>, int)> {
    match spec_parse_bytes(b, i) {
        None => None,
        Some((bs, j)) => if valid_utf8(bs) {
            Some((decode_utf8(bs), j))
        } else {
            None
        },
    }
}

/// Parsing at a position where a string field stands yields the string back.
pub proof fn lemma_parse_str_of_enc(b: Seq<u8>, i: int, s: Seq<char>)
    requires
        at(b, i, enc_str(s)),
        encode_utf8(s).len() <= u64::MAX,
    ensures
        spec_parse_str(b, i) == Some((s, i + enc_str(s).len())),
{
    lemma_parse_bytes_of_enc(b, i, encode_utf8(s));
    encode_utf8_valid_utf8(s);
    encode_utf8_decode_utf8(s);
}

/// Parses a string field; agrees exactly with [`spec_parse_str`].
pub fn parse_str(b: &Vec<u8>, i: usize) -> (r: Option<(String, usize)>)
    ensures
        match spec_parse_str(b@, i as int) {
            Some((s, j)) => r matches Some(p) && p.0@ == s && p.1 as int == j,
            None => r is None,
        },
{
    match parse_bytes(b, i) {
        None => None,
        Some((bytes, j)) => match string_from_utf8(bytes) {
            None => None,
            Some(s) => Some((s, j)),
        },
    }
}

/// Appends a string field.
pub fn encode_str_into(out: &mut Vec<u8>, s: &String)
    ensures
        final(out)@ == old(out)@ + enc_str(s@),
{
    let bytes = s.as_str().as_bytes_vec();
    encode_bytes_into(out, &bytes);
}

// ---------------------------------------------------------------------------
// Optional fields
// ---------------------------------------------------------------------------

/// Parses an optional string field at position `i`.
pub open spec fn spec_parse_opt_str(b: Seq<u8>, i: int) -> Option<(Option<Seq<char>>, int)> {
    match spec_parse_num(b, i) {
        None => None,
        Some((tag, j)) => if tag == 0 {
            Some((None, j))
        } else if tag == 1 {
            match spec_parse_str(b, j) {
                None => None,
                Some((s, k)) => Some((Some(s), k)),
            }
        } else {
            None
        },
    }
}

/// Parsing at a position where an optional string field stands yields the
/// optional string back.
pub proof fn lemma_parse_opt_str_of_enc(b: Seq<u8>, i: int, o: Option<Seq<char>>)
    requires
        at(b, i, enc_opt_str(o)),
        o matches Some(s) ==> encode_utf8(s).len() <= u64::MAX,
    ensures
        spec_parse_opt_str(b, i) == Some((o, i + enc_opt_str(o).len())),
{
    match o {
        None => {
            lemma_parse_num_of_enc(b, i, 0);
        },
        Some(s) => {
            lemma_at_split(b, i, enc_num(1), enc_str(s));
            lemma_parse_num_of_enc(b, i, 1);
            lemma_parse_str_of_enc(b, i + enc_num(1).len(), s);
        },
    }
}

/// Parses an optional string field; agrees with [`spec_parse_opt_str`].
pub fn parse_opt_str(b: &Vec<u8>, i: usize) -> (r: Option<(Option<String>, usize)>)
    ensures
        match spec_parse_opt_str(b@, i as int) {
            Some((o, j)) => r matches Some(p) && p.1 as int == j && (match (p.0, o) {
                (Some(s), Some(sv)) => s@ == sv,
                (None, None) => true,
                _ => false,
            }),
            None => r is None,
        },
{
    match parse_num(b, i) {
        None => None,
        Some((tag, j)) => {
            if tag == 0 {
                Some((None, j))
            } else if tag == 1 {
                match parse_str(b, j) {
                    None => None,
                    Some((s, k)) => Some((Some(s), k)),
                }
            } else {
                None
            }
        },
    }
}

/// Appends an optional string field.
pub fn encode_opt_str_into(out: &mut Vec<u8>, o: &Option<String>)
    ensures
        final(out)@ == old(out)@ + enc_opt_str(match o {
            Some(s) => Some(s@),
            None => None,
        }),
{
    match o {
        None => {
            encode_num_into(out, 0);
        },
        Some(s) => {
            encode_num_into(out, 1);
            encode_str_into(out, s);
            proof {
                assert(old(out)@ + enc_num(1) + enc_str(s@)
                    =~= old(out)@ + (enc_num(1) + enc_str(s@)));
            }
        },
    }
}

/// Parses an optional number field at position `i`.
pub open spec fn spec_parse_opt_num(b: Seq<u8>, i: int) -> Option<(Option<u64>, int)> {
    match spec_parse_num(b, i) {
        None => None,
        Some((tag, j)) => if tag == 0 {
            Some((None, j))
        } else if tag == 1 {
            match spec_parse_num(b, j) {
                None => None,
                Some((n, k)) => Some((Some(n), k)),
            }
        } else {
            None
        },
    }
}

/// Parsing at a position where an optional number field stands yields the
/// optional number back.
pub proof fn lemma_parse_opt_num_of_enc(b: Seq<u8>, i: int, o: Option<u64>)
    requires
        at(b, i, enc_opt_num(o)),
    ensures
        spec_parse_opt_num(b, i) == Some((o, i + enc_opt_num(o).len())),
{
    match o {
        None => {
            lemma_parse_num_of_enc(b, i, 0);
        },
        Some(n) => {
            lemma_at_split(b, i, enc_num(1), enc_num(n as nat));
            lemma_parse_num_of_enc(b, i, 1);
            lemma_parse_num_of_enc(b, i + enc_num(1).len(), n);
        },
    }
}

/// Parses an optional number field; agrees with [`spec_parse_opt_num`].
pub fn parse_opt_num(b: &Vec<u8>, i: usize) -> (r: Option<(Option<u64>, usize)>)
    ensures
        match spec_parse_opt_num(b@, i as int) {
            Some((o, j)) => r matches Some(p) && p.0 == o && p.1 as int == j,
            None => r is None,
        },
{
    match parse_num(b, i) {
        None => None,
        Some((tag, j)) => {
            if tag == 0 {
                Some((None, j))
            } else if tag == 1 {
                match parse_num(b, j) {
                    None => None,
                    Some((n, k)) => Some((Some(n), k)),
                }
            } else {
                None
            }
        },
    }
}

/// Appends an optional number field.
pub fn encode_opt_num_into(out: &mut Vec<u8>, o: Option<u64>)
    ensures
        final(out)@ == old(out)@ + enc_opt_num(o),
{
    match o {
        None => {
            encode_num_into(out, 0);
        },
        Some(n) => {
            encode_num_into(out, 1);
            encode_num_into(out, n);
            proof {
                assert(old(out)@ + enc_num(1) + enc_num(n as nat)
                    =~= old(out)@ + (enc_num(1) + enc_num(n as nat)));
            }
        },
    }
}

} // verus!
