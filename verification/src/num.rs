//! Decimal numbers: `str::parse::<usize>` and decimal rendering.
use vstd::prelude::*;

verus! {

pub open spec fn is_digit(c: char) -> bool {
    48 <= (c as u32) && (c as u32) <= 57
}

pub open spec fn digit_of(c: char) -> int {
    (c as u32) - 48
}

/// Value of a run of decimal digits.
pub open spec fn digits_value(d: Seq<char>) -> int
    decreases d.len(),
{
    if d.len() == 0 {
        0
    } else {
        digits_value(d.drop_last()) * 10 + digit_of(d.last())
    }
}

pub open spec fn all_digits(d: Seq<char>) -> bool {
    forall|i: int| 0 <= i < d.len() ==> is_digit(#[trigger] d[i])
}

/// The digits `str::parse::<usize>` reads: one leading `+` is allowed.
pub open spec fn unsigned_digits(s: Seq<char>) -> Seq<char> {
    if s.len() > 0 && s[0] == '+' {
        s.drop_first()
    } else {
        s
    }
}

/// `str::parse::<usize>`: `Some` exactly when the text is an optional `+`
/// followed by at least one ASCII digit and the value fits in `usize`.
pub open spec fn parse_usize(s: Seq<char>) -> Option<usize> {
    let d = unsigned_digits(s);
    if d.len() > 0 && all_digits(d) && digits_value(d) <= usize::MAX {
        Some(digits_value(d) as usize)
    } else {
        None
    }
}

pub proof fn lemma_digits_value_nonneg(d: Seq<char>)
    requires
        all_digits(d),
    ensures
        digits_value(d) >= 0,
    decreases d.len(),
{
    if d.len() > 0 {
        lemma_digits_value_nonneg(d.drop_last());
    }
}

/// A prefix of a digit run never has a larger value than the run.
pub proof fn lemma_digits_prefix_le(d: Seq<char>, j: int)
    requires
        all_digits(d),
        0 <= j <= d.len(),
    ensures
        digits_value(d.take(j)) <= digits_value(d),
    decreases d.len() - j,
{
    if j < d.len() {
        lemma_digits_prefix_le(d, j + 1);
        assert(d.take(j + 1).drop_last() =~= d.take(j));
        lemma_digits_value_nonneg(d.take(j));
    } else {
        assert(d.take(j) =~= d);
    }
}

/// `str::parse::<usize>` on a character sequence.
pub fn parse_usize_chars(s: &[char]) -> (r: Option<usize>)
    ensures
        r == parse_usize(s@),
{
    let start: usize = if s.len() > 0 && s[0] == '+' {
        1
    } else {
        0
    };
    let ghost d = unsigned_digits(s@);
    assert(d =~= s@.subrange(start as int, s@.len() as int));
    if start >= s.len() {
        return None;
    }
    let mut acc: usize = 0;
    let mut k: usize = start;
    while k < s.len()
        invariant
            start <= k <= s@.len(),
            start < s@.len(),
            d == s@.subrange(start as int, s@.len() as int),
            d == unsigned_digits(s@),
            all_digits(d.take(k - start)),
            acc as int == digits_value(d.take(k - start)),
        decreases s@.len() - k,
    {
        let c = s[k];
        let u = c as u32;
        if u < 48 || u > 57 {
            assert(!is_digit(d[k - start]));
            return None;
        }
        let dv = (u - 48) as usize;
        assert(d.take(k - start + 1).drop_last() =~= d.take(k - start));
        assert(d.take(k - start + 1).last() == c);
        if acc > (usize::MAX - dv) / 10 {
            proof {
                assert(all_digits(d.take(k - start + 1)));
                assert(digits_value(d.take(k - start + 1)) == acc * 10 + dv);
                assert(acc * 10 + dv > usize::MAX) by (nonlinear_arith)
                    requires
                        acc > (usize::MAX - dv) / 10,
                        dv <= 9,
                ;
                if all_digits(d) {
                    lemma_digits_prefix_le(d, k - start + 1);
                }
            }
            return None;
        }
        assert(acc * 10 + dv <= usize::MAX) by (nonlinear_arith)
            requires
                acc <= (usize::MAX - dv) / 10,
                dv <= 9,
        ;
        acc = acc * 10 + dv;
        k = k + 1;
        assert(all_digits(d.take(k - start))) by {
            assert forall|i: int| 0 <= i < d.take(k - start).len() implies is_digit(
                #[trigger] d.take(k - start)[i],
            ) by {
                if i < k - start - 1 {
                    assert(d.take(k - start)[i] == d.take(k - start - 1)[i]);
                }
            }
        }
    }
    assert(d.take(k - start) =~= d);
    Some(acc)
}

pub open spec fn digit_char(n: int) -> char {
    (48 + n) as char
}

/// Decimal rendering of `n` without leading zeros.
pub open spec fn dec(n: nat) -> Seq<char>
    decreases n,
{
    if n < 10 {
        seq![digit_char(n as int)]
    } else {
        dec(n / 10).push(digit_char((n % 10) as int))
    }
}

/// Decimal rendering of a `u64`.
pub fn dec_chars(n: u64) -> (r: Vec<char>)
    ensures
        r@ == dec(n as nat),
    decreases n,
{
    let d = ((n % 10) as u8 + 48) as char;
    if n < 10 {
        let mut v: Vec<char> = Vec::new();
        v.push(d);
        v
    } else {
        let mut v = dec_chars(n / 10);
        v.push(d);
        v
    }
}

/// Decimal rendering of an integer, with a leading '-' when negative.
pub open spec fn dec_int(n: int) -> Seq<char> {
    if n < 0 {
        seq!['-'] + dec((-n) as nat)
    } else {
        dec(n as nat)
    }
}

/// Decimal rendering of an `i64`.
pub fn dec_i64_chars(n: i64) -> (r: Vec<char>)
    ensures
        r@ == dec_int(n as int),
{
    if n < 0 {
        let m: u64 = if n == i64::MIN {
            9223372036854775808u64
        } else {
            (-n) as u64
        };
        let d = dec_chars(m);
        let mut v: Vec<char> = Vec::new();
        v.push('-');
        let ghost v0 = v@;
        let mut k: usize = 0;
        while k < d.len()
            invariant
                k <= d@.len(),
                v0 == seq!['-'],
                v@ == v0 + d@.take(k as int),
            decreases d@.len() - k,
        {
            v.push(d[k]);
            k = k + 1;
            assert(v@ =~= v0 + d@.take(k as int));
        }
        assert(d@.take(k as int) =~= d@);
        v
    } else {
        dec_chars(n as u64)
    }
}

pub open spec fn repeat_char(c: char, k: nat) -> Seq<char>
    decreases k,
{
    if k == 0 {
        seq![]
    } else {
        repeat_char(c, (k - 1) as nat).push(c)
    }
}

/// `format!("{:0w$}", n)` for an unsigned value: zeros in front up to width `w`.
pub open spec fn zero_pad(n: nat, w: nat) -> Seq<char> {
    if dec(n).len() < w {
        repeat_char('0', (w - dec(n).len()) as nat) + dec(n)
    } else {
        dec(n)
    }
}

/// `format!("{:>w$}", n)`: spaces in front up to width `w`.
pub open spec fn space_pad(n: nat, w: nat) -> Seq<char> {
    if dec(n).len() < w {
        repeat_char(' ', (w - dec(n).len()) as nat) + dec(n)
    } else {
        dec(n)
    }
}

pub fn pad_front(v: Vec<char>, c: char, w: usize) -> (r: Vec<char>)
    ensures
        v@.len() < w ==> r@ == repeat_char(c, (w - v@.len()) as nat) + v@,
        v@.len() >= w ==> r@ == v@,
{
    if v.len() >= w {
        return v;
    }
    let k = w - v.len();
    let mut r: Vec<char> = Vec::new();
    let mut i: usize = 0;
    while i < k
        invariant
            i <= k,
            r@ == repeat_char(c, i as nat),
        decreases k - i,
    {
        r.push(c);
        i = i + 1;
    }
    crate::text::push_all(&mut r, &v);
    r
}

/// Zero-padded decimal rendering.
pub fn zero_pad_chars(n: u64, w: usize) -> (r: Vec<char>)
    ensures
        r@ == zero_pad(n as nat, w as nat),
{
    pad_front(dec_chars(n), '0', w)
}

/// Space-padded (right-aligned) decimal rendering.
pub fn space_pad_chars(n: u64, w: usize) -> (r: Vec<char>)
    ensures
        r@ == space_pad(n as nat, w as nat),
{
    pad_front(dec_chars(n), ' ', w)
}

/// `format!("{:0w$}", n)` for a signed value: a '-' first when negative,
/// then zeros up to width `w` in all.
pub open spec fn zero_pad_int(n: int, w: nat) -> Seq<char> {
    if n < 0 {
        seq!['-'] + zero_pad((-n) as nat, if w >= 1 { (w - 1) as nat } else { 0 })
    } else {
        zero_pad(n as nat, w)
    }
}

/// Zero-padded decimal rendering of an `i64`.
pub fn zero_pad_i64_chars(n: i64, w: usize) -> (r: Vec<char>)
    ensures
        r@ == zero_pad_int(n as int, w as nat),
{
    if n < 0 {
        let m: u64 = if n == i64::MIN {
            9223372036854775808u64
        } else {
            (-n) as u64
        };
        let p = zero_pad_chars(m, if w >= 1 { w - 1 } else { 0 });
        let mut v: Vec<char> = Vec::new();
        v.push('-');
        crate::text::push_all(&mut v, &p);
        v
    } else {
        zero_pad_chars(n as u64, w)
    }
}

} // verus!
