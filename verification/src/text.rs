//! Lossy text rendering of byte buffers: decode as UTF-8 when possible,
//! otherwise print each byte as a decimal number joined by a separator.

use vstd::prelude::*;
use vstd::utf8::{valid_utf8, decode_utf8};

verus! {

/// Decimal rendering of one byte value, without leading zeros.
pub open spec fn dec_of(b: u8) -> Seq<u8> {
    if b < 10 {
        seq![(48 + b) as u8]
    } else if b < 100 {
        seq![(48 + b / 10) as u8, (48 + b % 10) as u8]
    } else {
        seq![(48 + b / 100) as u8, (48 + (b / 10) % 10) as u8, (48 + b % 10) as u8]
    }
}

/// The bytes of `s` rendered as decimal numbers joined by `sep`.
pub open spec fn join_dec(s: Seq<u8>, sep: u8) -> Seq<u8>
    decreases s.len(),
{
    if s.len() == 0 {
        Seq::empty()
    } else if s.len() == 1 {
        dec_of(s[0])
    } else {
        join_dec(s.drop_last(), sep) + seq![sep] + dec_of(s.last())
    }
}

/// An all-ASCII byte sequence read as characters.
pub open spec fn ascii_chars(s: Seq<u8>) -> Seq<char> {
    s.map_values(|b: u8| b as char)
}

/// The lossy rendering: decoded text for valid UTF-8, else the joined
/// decimal rendering of the raw bytes.
pub open spec fn lossy_chars(s: Seq<u8>, sep: u8) -> Seq<char> {
    if valid_utf8(s) {
        decode_utf8(s)
    } else {
        ascii_chars(join_dec(s, sep))
    }
}

/// Relies on `String::from_utf8`: it succeeds exactly on valid UTF-8 input
/// and returns the decoded text.
#[verifier::external_body]
pub(crate) fn utf8_string(bytes: &Vec<u8>) -> (r: Option<String>)
    ensures
        r is Some <==> valid_utf8(bytes@),
        r matches Some(s) ==> s@ == decode_utf8(bytes@),
{
    match String::from_utf8(bytes.clone()) {
        Ok(s) => Some(s),
        Err(_) => None,
    }
}

/// The lowercased form of a text, as Unicode default case mapping gives it;
/// a function of the characters alone.
pub uninterp spec fn lower_of(s: Seq<char>) -> Seq<char>;

/// Relies on `str::to_lowercase`: the result depends on the characters
/// alone.
#[verifier::external_body]
pub(crate) fn to_lower(s: &str) -> (r: String)
    ensures
        r@ == lower_of(s@),
{
    s.to_lowercase()
}

/// The text with leading and trailing whitespace removed; a function of the
/// characters alone.
pub uninterp spec fn trim_of(s: Seq<char>) -> Seq<char>;

/// Relies on `str::trim`: the result depends on the characters alone.
#[verifier::external_body]
pub(crate) fn trim_str(s: &str) -> (r: String)
    ensures
        r@ == trim_of(s@),
{
    s.trim().to_owned()
}

/// Every byte of the decimal rendering of one byte is ASCII.
proof fn lemma_dec_of_ascii(b: u8)
    ensures
        forall|i: int| 0 <= i < dec_of(b).len() ==> (#[trigger] dec_of(b)[i]) < 0x80,
{
}

/// Every byte of the joined decimal rendering is ASCII.
proof fn lemma_join_dec_ascii(s: Seq<u8>, sep: u8)
    requires
        sep < 0x80,
    ensures
        forall|i: int| 0 <= i < join_dec(s, sep).len() ==> (#[trigger] join_dec(s, sep)[i]) < 0x80,
    decreases s.len(),
{
    if s.len() == 0 {
    } else if s.len() == 1 {
        lemma_dec_of_ascii(s[0]);
    } else {
        lemma_join_dec_ascii(s.drop_last(), sep);
        lemma_dec_of_ascii(s.last());
        let j = join_dec(s, sep);
        let a = join_dec(s.drop_last(), sep);
        let d = dec_of(s.last());
        assert(j == a + seq![sep] + d);
        assert forall|i: int| 0 <= i < j.len() implies (#[trigger] j[i]) < 0x80 by {
            if i < a.len() {
                assert(j[i] == a[i]);
            } else if i == a.len() {
                assert(j[i] == sep);
            } else {
                assert(j[i] == d[i - a.len() - 1]);
            }
        }
    }
}

/// An all-ASCII byte sequence is valid UTF-8 and decodes to its own bytes
/// read as characters.
pub proof fn lemma_ascii_decode(s: Seq<u8>)
    requires
        forall|i: int| 0 <= i < s.len() ==> (#[trigger] s[i]) < 0x80,
    ensures
        valid_utf8(s),
        decode_utf8(s) == ascii_chars(s),
    decreases s.len(),
{
    if s.len() == 0 {
        assert(decode_utf8(s) =~= ascii_chars(s));
    } else {
        let b = s[0];
        assert(vstd::utf8::is_leading_byte_width_1(b));
        assert(b & 0x7f == b) by (bit_vector)
            requires b < 0x80;
        assert(vstd::utf8::decode_first_codepoint(s) == b as u32);
        assert(vstd::utf8::length_of_first_codepoint(s) == 1);
        assert(vstd::utf8::valid_first_scalar(s));
        let rest = vstd::utf8::pop_first_scalar(s);
        assert(rest =~= s.subrange(1, s.len() as int));
        lemma_ascii_decode(rest);
        assert(decode_utf8(s) == seq![(b as u32) as char] + decode_utf8(rest));
        assert((b as u32) as char == b as char);
        assert(decode_utf8(s) =~= ascii_chars(s));
    }
}

/// Exec rendering of one byte as decimal digits.
fn byte_dec(b: u8) -> (r: Vec<u8>)
    ensures
        r@ == dec_of(b),
{
    let mut r: Vec<u8> = Vec::new();
    if b < 10 {
        r.push(48 + b);
        proof {
            assert(r@ =~= dec_of(b));
        }
    } else if b < 100 {
        r.push(48 + b / 10);
        r.push(48 + b % 10);
        proof {
            assert(r@ =~= dec_of(b));
        }
    } else {
        r.push(48 + b / 100);
        r.push(48 + (b / 10) % 10);
        r.push(48 + b % 10);
        proof {
            assert(r@ =~= dec_of(b));
        }
    }
    r
}

/// Exec rendering of a whole buffer as joined decimal numbers.
fn join_decimals(bytes: &Vec<u8>, sep: u8) -> (r: Vec<u8>)
    ensures
        r@ == join_dec(bytes@, sep),
{
    let mut r: Vec<u8> = Vec::new();
    let n = bytes.len();
    let mut i: usize = 0;
    while i < n
        invariant
            n == bytes@.len(),
            i <= n,
            r@ == join_dec(bytes@.subrange(0, i as int), sep),
        decreases n - i,
    {
        if i > 0 {
            r.push(sep);
        }
        let mut d = byte_dec(bytes[i]);
        r.append(&mut d);
        i += 1;
        proof {
            let cur = bytes@.subrange(0, i as int);
            assert(cur.drop_last() =~= bytes@.subrange(0, i - 1));
            assert(cur.last() == bytes@[i - 1]);
            if i == 1 {
                assert(r@ =~= join_dec(cur, sep));
            } else {
                assert(r@ =~= join_dec(cur.drop_last(), sep) + seq![sep] + dec_of(cur.last()));
            }
        }
    }
    proof {
        assert(bytes@.subrange(0, n as int) =~= bytes@);
    }
    r
}

/// The lossy rendering as an owned string: UTF-8 text when the bytes decode,
/// else each byte as a decimal number joined by `sep`.
pub fn lossy_string(bytes: &Vec<u8>, sep: u8) -> (r: String)
    requires
        sep < 0x80,
    ensures
        r@ == lossy_chars(bytes@, sep),
{
    match utf8_string(bytes) {
        Some(s) => s,
        None => {
            let joined = join_decimals(bytes, sep);
            proof {
                lemma_join_dec_ascii(bytes@, sep);
                lemma_ascii_decode(joined@);
            }
            let r = utf8_string(&joined);
            match r {
                Some(s) => s,
                None => {
                    proof {
                        assert(false);
                    }
                    String::new()
                }
            }
        }
    }
}

} // verus!
