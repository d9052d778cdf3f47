//! Reading the toolchain's SVG output: the image dimensions and the
//! baseline marker position.
//!
//! Dimensions are carried as integers in thousandths (milli-points and
//! milli-ems): fractions beyond the third decimal digit are dropped. The
//! caller extracts the `width`/`height` attributes and the marker path's
//! `transform` attribute from the XML; the parsing of their values is done
//! here, and a malformed value is an error, never a panic.
use vstd::prelude::*;

verus! {

pub open spec fn is_digit(b: u8) -> bool {
    48 <= b <= 57
}

pub open spec fn all_digits(s: Seq<u8>) -> bool {
    forall|i: int| 0 <= i < s.len() ==> is_digit(#[trigger] s[i])
}

/// The value of a digit string, most significant digit first.
pub open spec fn digits_val(s: Seq<u8>) -> int
    decreases s.len(),
{
    if s.len() == 0 {
        0
    } else {
        digits_val(s.drop_last()) * 10 + (s.last() - 48)
    }
}

pub open spec fn pow10(n: nat) -> int
    decreases n,
{
    if n == 0 {
        1
    } else {
        10 * pow10((n - 1) as nat)
    }
}

proof fn lemma_digits_val_bound(s: Seq<u8>)
    requires
        all_digits(s),
    ensures
        0 <= digits_val(s) < pow10(s.len()),
    decreases s.len(),
{
    if s.len() > 0 {
        assert(all_digits(s.drop_last())) by {
            assert(forall|i: int|
                0 <= i < s.len() - 1 ==> is_digit(#[trigger] s.drop_last()[i]) == is_digit(s[i]));
        }
        lemma_digits_val_bound(s.drop_last());
        assert(is_digit(s[s.len() - 1]));
        assert(digits_val(s) <= (pow10((s.len() - 1) as nat) - 1) * 10 + 9) by (nonlinear_arith)
            requires
                digits_val(s) == digits_val(s.drop_last()) * 10 + (s.last() - 48),
                digits_val(s.drop_last()) <= pow10((s.len() - 1) as nat) - 1,
                s.last() - 48 <= 9,
        ;
    }
}

proof fn lemma_pow10_mono(a: nat, b: nat)
    requires
        a <= b,
    ensures
        pow10(a) <= pow10(b),
    decreases b,
{
    if a < b {
        lemma_pow10_mono(a, (b - 1) as nat);
        lemma_pow10_pos((b - 1) as nat);
        assert(pow10((b - 1) as nat) <= 10 * pow10((b - 1) as nat)) by (nonlinear_arith)
            requires
                pow10((b - 1) as nat) >= 1,
        ;
    }
}

proof fn lemma_pow10_pos(n: nat)
    ensures
        pow10(n) >= 1,
    decreases n,
{
    if n > 0 {
        lemma_pow10_pos((n - 1) as nat);
    }
}

/// The milli value of up to three fraction digits: `5` means five tenths,
/// `123456` means `123` thousandths.
pub open spec fn frac_milli_val(s: Seq<u8>) -> int {
    if s.len() == 0 {
        0
    } else if s.len() == 1 {
        (s[0] - 48) * 100
    } else if s.len() == 2 {
        (s[0] - 48) * 100 + (s[1] - 48) * 10
    } else {
        (s[0] - 48) * 100 + (s[1] - 48) * 10 + (s[2] - 48)
    }
}

/// The index of the first `.` in `s` at or after `i`, or the length when
/// there is none.
pub open spec fn first_dot(s: Seq<u8>, i: int) -> int
    decreases s.len() - i,
{
    if i < 0 || i >= s.len() {
        s.len() as int
    } else if s[i] == 46 {
        i
    } else {
        first_dot(s, i + 1)
    }
}

/// The value, in thousandths, of a decimal number `-?D+(.D+)?`, with at
/// most twelve whole digits and fraction digits beyond the third dropped;
/// `None` when the text has another shape.
pub open spec fn spec_parse_decimal_milli(s: Seq<u8>) -> Option<int> {
    let neg = s.len() > 0 && s[0] == 45;
    let start: int = if neg {
        1
    } else {
        0
    };
    let d = first_dot(s, start);
    let ip = s.subrange(start, d);
    let fp = if d < s.len() {
        s.subrange(d + 1, s.len() as int)
    } else {
        Seq::empty()
    };
    let fp3 = if fp.len() <= 3 {
        fp
    } else {
        fp.subrange(0, 3)
    };
    if ip.len() > 0 && ip.len() <= 12 && all_digits(ip) && (d == s.len() || (fp.len() > 0
        && all_digits(fp))) {
        let v = digits_val(ip) * 1000 + frac_milli_val(fp3);
        Some(
            if neg {
                -v
            } else {
                v
            },
        )
    } else {
        None
    }
}

proof fn lemma_first_dot_at(s: Seq<u8>, i: int, target: int)
    requires
        0 <= i <= target <= s.len(),
        forall|k: int| i <= k < target ==> s[k] != 46,
        target == s.len() || s[target] == 46,
    ensures
        first_dot(s, i) == target,
    decreases s.len() - i,
{
    if i < target {
        lemma_first_dot_at(s, i + 1, target);
    }
}

/// Parses a decimal number into thousandths.
#[verifier::rlimit(20)]
pub fn parse_decimal_milli(s: &[u8]) -> (r: Option<i64>)
    ensures
        match r {
            Some(v) => spec_parse_decimal_milli(s@) == Some(v as int) && -0x4000_0000_0000_0000
                < v < 0x4000_0000_0000_0000,
            None => spec_parse_decimal_milli(s@) is None,
        },
{
    let neg = s.len() > 0 && s[0] == 45;
    let start: usize = if neg {
        1
    } else {
        0
    };
    // find the first dot
    let mut d: usize = start;
    while d < s.len() && s[d] != 46
        invariant
            start <= d <= s@.len(),
            forall|k: int| start <= k < d ==> s@[k] != 46,
        decreases s@.len() - d,
    {
        proof {
            assert(s@[d as int] != 46);
        }
        d += 1;
    }
    proof {
        lemma_first_dot_at(s@, start as int, d as int);
    }
    let ghost ip = s@.subrange(start as int, d as int);
    // whole part
    if d == start {
        return None;
    }
    if d - start > 12 {
        return None;
    }
    let mut acc: i64 = 0;
    let mut i: usize = start;
    proof {
        assert(ip.subrange(0, 0) =~= Seq::<u8>::empty());
    }
    while i < d
        invariant
            start <= i <= d <= s@.len(),
            d - start <= 12,
            neg == (s@.len() > 0 && s@[0] == 45),
            start == (if neg { 1int } else { 0int }),
            first_dot(s@, start as int) == d,
            ip == s@.subrange(start as int, d as int),
            all_digits(ip.subrange(0, i - start)),
            acc == digits_val(ip.subrange(0, i - start)),
            0 <= acc < 0x1000_0000_0000_0000,
        decreases d - i,
    {
        let b = s[i];
        proof {
            assert(ip[i - start] == s@[i as int]);
        }
        if b < 48 || b > 57 {
            proof {
                assert(!is_digit(ip[i - start]));
                assert(!all_digits(ip));
                assert(first_dot(s@, if s@.len() > 0 && s@[0] == 45 { 1int } else { 0int })
                    == d);
                assert(spec_parse_decimal_milli(s@) is None);
            }
            return None;
        }
        proof {
            let sub = ip.subrange(0, i - start + 1);
            assert(sub.drop_last() =~= ip.subrange(0, i - start));
            assert(sub.last() == s@[i as int]);
            assert(all_digits(sub));
            lemma_digits_val_bound(sub);
            lemma_pow10_mono(sub.len(), 12);
            assert(pow10(12) == 1000000000000) by {
                reveal_with_fuel(pow10, 13);
            }
        }
        acc = acc * 10 + ((b - 48) as i64);
        i += 1;
    }
    proof {
        assert(ip.subrange(0, ip.len() as int) =~= ip);
        assert(all_digits(ip));
        assert(acc == digits_val(ip));
        lemma_digits_val_bound(ip);
        lemma_pow10_mono(ip.len(), 12);
        assert(pow10(12) == 1000000000000) by {
            reveal_with_fuel(pow10, 13);
        }
    }
    // fraction part
    let mut frac: i64 = 0;
    if d < s.len() {
        if d + 1 == s.len() {
            proof {
                assert(s@.subrange(d + 1, s@.len() as int).len() == 0);
            }
            return None;
        }
        let ghost fp = s@.subrange(d + 1, s@.len() as int);
        proof {
            assert(fp.len() > 0);
        }
        let mut j: usize = d + 1;
        while j < s.len()
            invariant
                d + 1 <= j <= s@.len(),
                d < s@.len(),
                neg == (s@.len() > 0 && s@[0] == 45),
                start == (if neg { 1int } else { 0int }),
                first_dot(s@, start as int) == d,
                ip == s@.subrange(start as int, d as int),
                all_digits(ip),
                ip.len() > 0,
                ip.len() <= 12,
                fp == s@.subrange(d + 1, s@.len() as int),
                forall|k: int| 0 <= k < j - d - 1 ==> is_digit(#[trigger] fp[k]),
            decreases s@.len() - j,
        {
            let b = s[j];
            proof {
                assert(fp[j - d - 1] == s@[j as int]);
            }
            if b < 48 || b > 57 {
                proof {
                    assert(!is_digit(fp[j - d - 1]));
                    assert(!all_digits(fp));
                    assert(first_dot(s@, if s@.len() > 0 && s@[0] == 45 { 1int } else { 0int })
                        == d);
                    assert(spec_parse_decimal_milli(s@) is None);
                }
                return None;
            }
            j += 1;
        }
        proof {
            assert(all_digits(fp));
        }
        let f1 = ((s[d + 1] - 48) as i64) * 100;
        let f2 = if d + 2 < s.len() {
            ((s[d + 2] - 48) as i64) * 10
        } else {
            0
        };
        let f3 = if d + 3 < s.len() {
            (s[d + 3] - 48) as i64
        } else {
            0
        };
        frac = f1 + f2 + f3;
        proof {
            let fp3 = if fp.len() <= 3 {
                fp
            } else {
                fp.subrange(0, 3)
            };
            assert(fp[0] == s@[d + 1]);
            if fp.len() >= 2 {
                assert(fp[1] == s@[d + 2]);
            }
            if fp.len() >= 3 {
                assert(fp[2] == s@[d + 3]);
            }
            assert(frac == frac_milli_val(fp3));
            assert(0 <= frac <= 999);
        }
    }
    let v = acc * 1000 + frac;
    if neg {
        Some(-v)
    } else {
        Some(v)
    }
}

/// Truncating division by ten, rounding toward zero as the library's
/// fixed-point model does throughout.
pub open spec fn div10_trunc(x: int) -> int {
    if x >= 0 {
        x / 10
    } else {
        -((-x) / 10)
    }
}

fn div10(v: i64) -> (r: i64)
    requires
        -0x7000_0000_0000_0000 < v < 0x7000_0000_0000_0000,
    ensures
        r == div10_trunc(v as int),
        -0x4000_0000_0000_0000 < r < 0x4000_0000_0000_0000,
{
    if v >= 0 {
        (((v as u64) / 10) as i64)
    } else {
        let m = (-v) as u64;
        -((m / 10) as i64)
    }
}

/// The value of a `width`/`height` attribute `<decimal>pt`, converted from
/// milli-points to milli-ems by the fixed base font size of ten points;
/// `None` when the attribute has another shape.
pub open spec fn spec_pt_attr_milli_em(s: Seq<u8>) -> Option<int> {
    if s.len() >= 2 && s[s.len() - 2] == 112 && s[s.len() - 1] == 116 {
        match spec_parse_decimal_milli(s.subrange(0, s.len() - 2)) {
            Some(v) => Some(div10_trunc(v)),
            None => None,
        }
    } else {
        None
    }
}

/// Reads a dimension attribute `<decimal>pt` and converts it to milli-ems.
pub fn pt_attr_to_milli_em(s: &[u8]) -> (r: Option<i64>)
    ensures
        match r {
            Some(v) => spec_pt_attr_milli_em(s@) == Some(v as int) && -0x4000_0000_0000_0000 < v
                < 0x4000_0000_0000_0000,
            None => spec_pt_attr_milli_em(s@) is None,
        },
{
    if s.len() < 2 || s[s.len() - 2] != 112 || s[s.len() - 1] != 116 {
        return None;
    }
    let body = &s[0..s.len() - 2];
    proof {
        assert(body@ =~= s@.subrange(0, s@.len() - 2));
    }
    match parse_decimal_milli(body) {
        Some(v) => Some(div10(v)),
        None => None,
    }
}

/// The index after the last `,` in `s`, and the index of the last `)`: the
/// y translation of the marker path's `transform` attribute stands between
/// them. `None` when either is missing or they stand in the wrong order.
pub open spec fn last_index_of(s: Seq<u8>, b: u8) -> int
    decreases s.len(),
{
    if s.len() == 0 {
        -1
    } else if s.last() == b {
        s.len() - 1
    } else {
        last_index_of(s.drop_last(), b)
    }
}

/// The baseline position of an inline formula, in milli-ems from the top
/// edge: the marker's y translation plus half the one-point marker height,
/// converted at the ten-point base font size.
pub open spec fn spec_baseline_milli_em(attr: Seq<u8>) -> Option<int> {
    let ci = last_index_of(attr, 44);
    let pi = last_index_of(attr, 41);
    if 0 <= ci && ci + 1 <= pi {
        match spec_parse_decimal_milli(attr.subrange(ci + 1, pi)) {
            Some(y) => Some(div10_trunc(y + 500)),
            None => None,
        }
    } else {
        None
    }
}

fn rfind_byte(s: &[u8], b: u8) -> (r: Option<usize>)
    ensures
        match r {
            Some(i) => i < s@.len() && last_index_of(s@, b) == i as int,
            None => last_index_of(s@, b) == -1,
        },
{
    let mut i: usize = s.len();
    proof {
        assert(s@.subrange(0, s@.len() as int) =~= s@);
    }
    while i > 0
        invariant
            i <= s@.len(),
            last_index_of(s@, b) == last_index_of(s@.subrange(0, i as int), b),
        decreases i,
    {
        i -= 1;
        proof {
            let sub = s@.subrange(0, i + 1);
            assert(sub.drop_last() =~= s@.subrange(0, i as int));
            assert(sub.last() == s@[i as int]);
        }
        if s[i] == b {
            return Some(i);
        }
    }
    proof {
        assert(s@.subrange(0, 0).len() == 0);
    }
    None
}

/// Reads the baseline position out of the marker path's `transform`
/// attribute: the y translation is the text between the last `,` and the
/// last `)`.
#[verifier::rlimit(20)]
pub fn baseline_from_transform(attr: &[u8]) -> (r: Option<i64>)
    ensures
        match r {
            Some(v) => spec_baseline_milli_em(attr@) == Some(v as int),
            None => spec_baseline_milli_em(attr@) is None,
        },
{
    let ci = match rfind_byte(attr, 44) {
        Some(i) => i,
        None => {
            return None;
        },
    };
    let pi = match rfind_byte(attr, 41) {
        Some(i) => i,
        None => {
            return None;
        },
    };
    if ci >= pi {
        return None;
    }
    let y_str = &attr[ci + 1..pi];
    proof {
        assert(y_str@ =~= attr@.subrange(ci + 1, pi as int));
    }
    match parse_decimal_milli(y_str) {
        Some(y) => Some(div10(y + 500)),
        None => None,
    }
}

} // verus!
