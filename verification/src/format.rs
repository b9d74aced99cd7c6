//! Fixed byte templates of the printer-control dialect, pattern matching over
//! byte sequences, and the zero-padded decimal count field codec.

use vstd::prelude::*;

verus! {

// ---------------------------------------------------------------------------
// Format constants
// ---------------------------------------------------------------------------

/// The three control bytes that open every bill record and the footer.
pub open spec fn mark_seq() -> Seq<u8> {
    seq![0x1bu8, 0x45u8, 0x0du8]
}

/// The fixed 23-byte header every valid file starts with.
pub open spec fn header_seq() -> Seq<u8> {
    seq![
        0x1bu8, 0x26u8, 0x6cu8, 0x36u8, 0x44u8, 0x0du8, 0x1bu8, 0x28u8, 0x73u8,
        0x31u8, 0x50u8, 0x1bu8, 0x28u8, 0x73u8, 0x35u8, 0x54u8, 0x1bu8, 0x28u8,
        0x73u8, 0x31u8, 0x30u8, 0x56u8, 0x0du8,
    ]
}

/// The fixed 36 bytes of footer that precede the count digits.
pub open spec fn footer_pre_seq() -> Seq<u8> {
    seq![
        0x1bu8, 0x45u8, 0x0du8, 0x1bu8, 0x45u8, 0x0du8, 0x0au8, 0x2au8, 0x2au8, 0x2au8, 0x2au8,
        0x20u8, 0x54u8, 0x4fu8, 0x54u8, 0x41u8, 0x4cu8, 0x20u8, 0x42u8, 0x49u8, 0x4cu8, 0x4cu8,
        0x53u8, 0x20u8, 0x50u8, 0x52u8, 0x49u8, 0x4eu8, 0x54u8, 0x45u8, 0x44u8, 0x20u8, 0x2du8,
        0x20u8, 0x20u8, 0x20u8,
    ]
}

/// The single fixed byte that closes the footer.
pub open spec fn footer_post_seq() -> Seq<u8> {
    seq![0x0du8]
}

/// The label `"Acct No: "` that precedes a 12-byte account id in a record.
pub open spec fn acct_label_seq() -> Seq<u8> {
    seq![0x41u8, 0x63u8, 0x63u8, 0x74u8, 0x20u8, 0x4eu8, 0x6fu8, 0x3au8, 0x20u8]
}

/// The label `"BILL #:    "` plus its control-code suffix, which together
/// immediately precede the seven bill-number digits.
pub open spec fn bill_label_seq() -> Seq<u8> {
    seq![
        0x42u8, 0x49u8, 0x4cu8, 0x4cu8, 0x20u8, 0x23u8, 0x3au8, 0x20u8, 0x20u8, 0x20u8, 0x20u8,
        0x1bu8, 0x26u8, 0x61u8, 0x30u8, 0x34u8, 0x30u8, 0x35u8, 0x76u8, 0x30u8, 0x38u8, 0x32u8,
        0x35u8, 0x48u8,
    ]
}

/// Exec copy of [`mark_seq`].
pub fn record_mark_bytes() -> (r: Vec<u8>)
    ensures
        r@ == mark_seq(),
{
    let r: Vec<u8> = vec![0x1bu8, 0x45u8, 0x0du8];
    proof {
        assert(r@ =~= mark_seq());
    }
    r
}

/// Exec copy of [`header_seq`].
pub fn static_header_bytes() -> (r: Vec<u8>)
    ensures
        r@ == header_seq(),
{
    let r: Vec<u8> = vec![
        0x1bu8, 0x26u8, 0x6cu8, 0x36u8, 0x44u8, 0x0du8, 0x1bu8, 0x28u8, 0x73u8,
        0x31u8, 0x50u8, 0x1bu8, 0x28u8, 0x73u8, 0x35u8, 0x54u8, 0x1bu8, 0x28u8,
        0x73u8, 0x31u8, 0x30u8, 0x56u8, 0x0du8,
    ];
    proof {
        assert(r@ =~= header_seq());
    }
    r
}

/// Exec copy of [`footer_pre_seq`].
pub fn static_footer_pre_bytes() -> (r: Vec<u8>)
    ensures
        r@ == footer_pre_seq(),
{
    let r: Vec<u8> = vec![
        0x1bu8, 0x45u8, 0x0du8, 0x1bu8, 0x45u8, 0x0du8, 0x0au8, 0x2au8, 0x2au8, 0x2au8, 0x2au8,
        0x20u8, 0x54u8, 0x4fu8, 0x54u8, 0x41u8, 0x4cu8, 0x20u8, 0x42u8, 0x49u8, 0x4cu8, 0x4cu8,
        0x53u8, 0x20u8, 0x50u8, 0x52u8, 0x49u8, 0x4eu8, 0x54u8, 0x45u8, 0x44u8, 0x20u8, 0x2du8,
        0x20u8, 0x20u8, 0x20u8,
    ];
    proof {
        assert(r@ =~= footer_pre_seq());
    }
    r
}

/// Exec copy of [`footer_post_seq`].
pub fn static_footer_post_bytes() -> (r: Vec<u8>)
    ensures
        r@ == footer_post_seq(),
{
    let r: Vec<u8> = vec![0x0du8];
    proof {
        assert(r@ =~= footer_post_seq());
    }
    r
}

/// Exec copy of [`acct_label_seq`].
pub fn acct_label_bytes() -> (r: Vec<u8>)
    ensures
        r@ == acct_label_seq(),
{
    let r: Vec<u8> = vec![0x41u8, 0x63u8, 0x63u8, 0x74u8, 0x20u8, 0x4eu8, 0x6fu8, 0x3au8, 0x20u8];
    proof {
        assert(r@ =~= acct_label_seq());
    }
    r
}

/// Exec copy of [`bill_label_seq`].
pub fn bill_label_bytes() -> (r: Vec<u8>)
    ensures
        r@ == bill_label_seq(),
{
    let r: Vec<u8> = vec![
        0x42u8, 0x49u8, 0x4cu8, 0x4cu8, 0x20u8, 0x23u8, 0x3au8, 0x20u8, 0x20u8, 0x20u8, 0x20u8,
        0x1bu8, 0x26u8, 0x61u8, 0x30u8, 0x34u8, 0x30u8, 0x35u8, 0x76u8, 0x30u8, 0x38u8, 0x32u8,
        0x35u8, 0x48u8,
    ];
    proof {
        assert(r@ =~= bill_label_seq());
    }
    r
}

// ---------------------------------------------------------------------------
// Pattern matching over byte sequences
// ---------------------------------------------------------------------------

/// The pattern `pat` occurs in `d` starting at offset `i`.
pub open spec fn is_match_at(d: Seq<u8>, pat: Seq<u8>, i: int) -> bool {
    0 <= i && i + pat.len() <= d.len() && d.subrange(i, i + pat.len()) == pat
}

/// All offsets in `[lo, hi)` where `pat` occurs in `d`, in ascending order.
pub open spec fn hits_in(d: Seq<u8>, pat: Seq<u8>, lo: int, hi: int) -> Seq<int>
    decreases hi - lo,
{
    if hi <= lo {
        Seq::empty()
    } else if is_match_at(d, pat, hi - 1) {
        hits_in(d, pat, lo, hi - 1).push(hi - 1)
    } else {
        hits_in(d, pat, lo, hi - 1)
    }
}

/// The greatest offset in `[0, hi)` where `pat` occurs in `d`, if any.
pub open spec fn last_hit(d: Seq<u8>, pat: Seq<u8>, hi: int) -> Option<int>
    decreases hi,
{
    if hi <= 0 {
        None
    } else if is_match_at(d, pat, hi - 1) {
        Some(hi - 1)
    } else {
        last_hit(d, pat, hi - 1)
    }
}

/// Exec comparison of `d[i .. i + pat.len())` against `pat`.
pub fn match_at(d: &Vec<u8>, pat: &Vec<u8>, i: usize) -> (r: bool)
    requires
        i + pat@.len() <= d@.len(),
    ensures
        r == is_match_at(d@, pat@, i as int),
{
    let n = pat.len();
    let dlen = d.len();
    let mut j: usize = 0;
    while j < n
        invariant
            n == pat@.len(),
            dlen == d@.len(),
            i + n <= dlen,
            j <= n,
            forall|k: int| 0 <= k < j ==> d@[i + k] == pat@[k],
        decreases n - j,
    {
        if d[i + j] != pat[j] {
            proof {
                assert(d@.subrange(i as int, i + pat@.len())[j as int] != pat@[j as int]);
            }
            return false;
        }
        j += 1;
    }
    proof {
        assert(d@.subrange(i as int, i + pat@.len()) =~= pat@);
    }
    true
}

// ---------------------------------------------------------------------------
// ASCII decimal digits
// ---------------------------------------------------------------------------

/// The byte is an ASCII decimal digit.
pub open spec fn is_digit(b: u8) -> bool {
    48 <= b <= 57
}

/// Every byte of `s` is an ASCII decimal digit.
pub open spec fn all_digits(s: Seq<u8>) -> bool {
    forall|i: int| 0 <= i < s.len() ==> is_digit(#[trigger] s[i])
}

/// Numeric value of a digit string, most significant digit first.
pub open spec fn digits_value(s: Seq<u8>) -> int
    decreases s.len(),
{
    if s.len() == 0 {
        0
    } else {
        digits_value(s.drop_last()) * 10 + (s.last() - 48)
    }
}

/// `10^k`.
pub open spec fn pow10(k: nat) -> int
    decreases k,
{
    if k == 0 {
        1
    } else {
        10 * pow10((k - 1) as nat)
    }
}

/// The last `k` decimal digits of `n`, zero padded, as ASCII bytes.
pub open spec fn digits_of(n: int, k: nat) -> Seq<u8>
    decreases k,
{
    if k == 0 {
        Seq::empty()
    } else {
        digits_of(n / 10, (k - 1) as nat).push((48 + n % 10) as u8)
    }
}

pub proof fn lemma_pow10_pos(k: nat)
    ensures
        pow10(k) >= 1,
    decreases k,
{
    if k > 0 {
        lemma_pow10_pos((k - 1) as nat);
    }
}

/// Rendering `k` digits of a `k`-digit number and reading them back returns
/// the number.
pub proof fn lemma_digits_of_value(n: int, k: nat)
    requires
        0 <= n < pow10(k),
    ensures
        all_digits(digits_of(n, k)),
        digits_of(n, k).len() == k,
        digits_value(digits_of(n, k)) == n,
    decreases k,
{
    if k == 0 {
    } else {
        let q = n / 10;
        let r = n % 10;
        vstd::arithmetic::div_mod::lemma_fundamental_div_mod(n, 10);
        assert(0 <= r < 10) by {
            vstd::arithmetic::div_mod::lemma_mod_division_less_than_divisor(n, 10);
        }
        assert(q < pow10((k - 1) as nat)) by {
            lemma_pow10_pos((k - 1) as nat);
            if q >= pow10((k - 1) as nat) {
                assert(n == 10 * q + r);
                assert(10 * q >= 10 * pow10((k - 1) as nat));
                assert(n >= pow10(k));
            }
        }
        assert(q >= 0) by {
            vstd::arithmetic::div_mod::lemma_div_pos_is_pos(n, 10);
        }
        lemma_digits_of_value(q, (k - 1) as nat);
        let s = digits_of(n, k);
        assert(s.drop_last() =~= digits_of(q, (k - 1) as nat));
        assert(s.last() == (48 + r) as u8);
        assert(all_digits(s)) by {
            assert(forall|i: int| 0 <= i < s.len() - 1 ==> s[i] == digits_of(q, (k - 1) as nat)[i]);
        }
        assert(digits_value(s) == q * 10 + r);
    }
}

/// A digit string is the canonical rendering of its own value: reading
/// digits and re-rendering them reproduces the same bytes.
pub proof fn lemma_digits_canonical(s: Seq<u8>)
    requires
        all_digits(s),
    ensures
        0 <= digits_value(s) < pow10(s.len()),
        digits_of(digits_value(s), s.len()) == s,
    decreases s.len(),
{
    if s.len() == 0 {
        assert(digits_of(digits_value(s), s.len()) =~= s);
    } else {
        let t = s.drop_last();
        assert(all_digits(t)) by {
            assert(forall|i: int| 0 <= i < t.len() ==> t[i] == s[i]);
        }
        lemma_digits_canonical(t);
        let v = digits_value(s);
        let q = digits_value(t);
        let r = s.last() - 48;
        assert(v == q * 10 + r);
        assert(0 <= r < 10);
        assert(v < pow10(s.len())) by {
            assert(q <= pow10(t.len()) - 1);
            assert(q * 10 <= (pow10(t.len()) - 1) * 10);
        }
        vstd::arithmetic::div_mod::lemma_fundamental_div_mod_converse_div(v, 10, q, r);
        vstd::arithmetic::div_mod::lemma_fundamental_div_mod_converse_mod(v, 10, q, r);
        assert(v / 10 == q && v % 10 == r);
        assert(digits_of(v, s.len()) == digits_of(q, t.len()).push((48 + r) as u8));
        assert(digits_of(v, s.len()) =~= s);
    }
}

/// Renders `n` as exactly `k` zero-padded ASCII decimal digits.
pub fn render_digits(n: u32, k: usize) -> (r: Vec<u8>)
    requires
        (n as int) < pow10(k as nat),
    ensures
        r@ == digits_of(n as int, k as nat),
        r@.len() == k,
{
    let mut v: Vec<u8> = Vec::new();
    let mut m: u32 = n;
    let mut done: usize = 0;
    proof {
        assert(digits_of(n as int, k as nat) =~= digits_of(m as int, (k - done) as nat) + v@);
    }
    while done < k
        invariant
            done <= k,
            digits_of(n as int, k as nat) == digits_of(m as int, (k - done) as nat) + v@,
            v@.len() == done,
        decreases k - done,
    {
        let d: u8 = (m % 10) as u8 + 48;
        let ghost old_v = v@;
        let ghost old_m = m as int;
        v.insert(0, d);
        m = m / 10;
        done += 1;
        proof {
            assert(v@ =~= seq![d] + old_v);
            assert(digits_of(old_m, (k - done + 1) as nat)
                == digits_of(old_m / 10, (k - done) as nat).push((48 + old_m % 10) as u8));
            assert(d == (48 + old_m % 10) as u8);
            assert(digits_of(m as int, (k - done) as nat) + v@
                =~= (digits_of(m as int, (k - done) as nat).push(d)) + old_v);
            assert(digits_of(n as int, k as nat) == digits_of(m as int, (k - done) as nat) + v@);
        }
    }
    proof {
        assert(digits_of(n as int, k as nat) =~= v@);
        lemma_digits_of_value(n as int, k as nat);
    }
    v
}

/// Reads `k` ASCII digits from `d` starting at `start`; `None` when a byte
/// is not a digit.
pub fn parse_digits(d: &Vec<u8>, start: usize, k: usize) -> (r: Option<u32>)
    requires
        start + k <= d@.len(),
        k <= 9,
    ensures
        match r {
            Some(v) => all_digits(d@.subrange(start as int, start + k))
                && v as int == digits_value(d@.subrange(start as int, start + k)),
            None => !all_digits(d@.subrange(start as int, start + k)),
        },
{
    let ghost s = d@.subrange(start as int, start + k);
    let dlen = d.len();
    let mut acc: u32 = 0;
    let mut j: usize = 0;
    while j < k
        invariant
            j <= k,
            k <= 9,
            dlen == d@.len(),
            start + k <= dlen,
            s == d@.subrange(start as int, start + k),
            s.len() == k,
            all_digits(s.subrange(0, j as int)),
            acc as int == digits_value(s.subrange(0, j as int)),
            (acc as int) < pow10(j as nat),
        decreases k - j,
    {
        let b = d[start + j];
        proof {
            assert(s[j as int] == d@[start + j]);
        }
        if b < 48 || b > 57 {
            proof {
                assert(!all_digits(s)) by {
                    assert(!is_digit(s[j as int]));
                }
            }
            return None;
        }
        proof {
            lemma_pow10_pos(j as nat);
            assert(pow10((j + 1) as nat) == 10 * pow10(j as nat));
            assert(acc as int * 10 + 9 < 10 * pow10(j as nat));
            assert(pow10(9) == 1000000000) by {
                reveal_with_fuel(pow10, 11);
            }
            assert(pow10((j + 1) as nat) <= pow10(9)) by {
                lemma_pow10_increases((j + 1) as nat, 9);
            }
        }
        acc = acc * 10 + (b - 48) as u32;
        j += 1;
        proof {
            let pre = s.subrange(0, j - 1);
            let cur = s.subrange(0, j as int);
            assert(cur.drop_last() =~= pre);
            assert(cur.last() == b);
            assert(all_digits(cur)) by {
                assert(forall|i: int| 0 <= i < j - 1 ==> cur[i] == pre[i]);
            }
        }
    }
    proof {
        assert(s.subrange(0, k as int) =~= s);
    }
    Some(acc)
}

/// `pow10` is monotone in the exponent.
pub proof fn lemma_pow10_increases(a: nat, b: nat)
    requires
        a <= b,
    ensures
        pow10(a) <= pow10(b),
    decreases b,
{
    if a < b {
        lemma_pow10_increases(a, (b - 1) as nat);
        lemma_pow10_pos((b - 1) as nat);
    }
}

} // verus!
