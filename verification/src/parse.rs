use vstd::prelude::*;

use crate::sample::Sample;

verus! {

/// ASCII whitespace as a separator: space, tab, line feed, carriage return.
pub open spec fn is_ws(b: u8) -> bool {
    b == 32 || b == 9 || b == 10 || b == 13
}

pub open spec fn is_digit(b: u8) -> bool {
    48 <= b <= 57
}

/// The whitespace-separated tokens of `rest`, given that the partial token
/// `cur` has already been read just before it.
pub open spec fn tokens_from(cur: Seq<u8>, rest: Seq<u8>) -> Seq<Seq<u8>>
    decreases rest.len(),
{
    if rest.len() == 0 {
        if cur.len() == 0 {
            Seq::empty()
        } else {
            seq![cur]
        }
    } else if is_ws(rest[0]) {
        if cur.len() == 0 {
            tokens_from(Seq::empty(), rest.drop_first())
        } else {
            seq![cur] + tokens_from(Seq::empty(), rest.drop_first())
        }
    } else {
        tokens_from(cur.push(rest[0]), rest.drop_first())
    }
}

/// The whitespace-separated tokens of a line.
pub open spec fn spec_tokens(s: Seq<u8>) -> Seq<Seq<u8>> {
    tokens_from(Seq::empty(), s)
}

/// Splits a line into its whitespace-separated tokens.
pub fn tokenize(line: &Vec<u8>) -> (toks: Vec<Vec<u8>>)
    ensures
        toks.deep_view() == spec_tokens(line@),
{
    let n = line.len();
    let mut toks: Vec<Vec<u8>> = Vec::new();
    let mut cur: Vec<u8> = Vec::new();
    let mut i: usize = 0;
    proof {
        assert(line@.subrange(0, n as int) =~= line@);
        assert(toks.deep_view() =~= Seq::<Seq<u8>>::empty());
    }
    while i < n
        invariant
            i <= n,
            n == line@.len(),
            spec_tokens(line@) == toks.deep_view() + tokens_from(
                cur@,
                line@.subrange(i as int, n as int),
            ),
        decreases n - i,
    {
        let ghost pre_toks = toks.deep_view();
        let ghost pre_cur = cur@;
        let ghost rest = line@.subrange(i as int, n as int);
        proof {
            assert(rest.drop_first() =~= line@.subrange(i + 1, n as int));
            assert(rest[0] == line@[i as int]);
        }
        let b = line[i];
        if b == 32 || b == 9 || b == 10 || b == 13 {
            if cur.len() > 0 {
                toks.push(cur);
                cur = Vec::new();
                proof {
                    assert(toks.deep_view() =~~= pre_toks.push(pre_cur));
                    assert(pre_toks + (seq![pre_cur] + tokens_from(
                        Seq::<u8>::empty(),
                        rest.drop_first(),
                    )) =~= toks.deep_view() + tokens_from(cur@, rest.drop_first()));
                }
            } else {
                proof {
                    assert(cur@ =~= Seq::<u8>::empty());
                }
            }
        } else {
            cur.push(b);
        }
        i = i + 1;
    }
    proof {
        assert(line@.subrange(n as int, n as int) =~= Seq::<u8>::empty());
    }
    if cur.len() > 0 {
        let ghost pre_toks = toks.deep_view();
        let ghost pre_cur = cur@;
        toks.push(cur);
        proof {
            assert(toks.deep_view() =~~= pre_toks.push(pre_cur));
            assert(pre_toks + seq![pre_cur] =~= pre_toks.push(pre_cur));
        }
    }
    toks
}

/// Any counted decimal magnitude above this cannot fit an `i64` once scaled
/// to thousandths, so digit accumulation stops counting past it.
const MILLI_CAP: i128 = 20_000_000_000_000_000;

/// The number a string of decimal digits denotes, most significant first.
pub open spec fn digits_val(s: Seq<u8>) -> int
    decreases s.len(),
{
    if s.len() == 0 {
        0
    } else {
        digits_val(s.drop_last()) * 10 + (s.last() - 48)
    }
}

pub open spec fn all_digits(s: Seq<u8>) -> bool {
    forall|i: int| 0 <= i < s.len() ==> is_digit(#[trigger] s[i])
}

/// Index of the first `.` in `s`, or `s.len()` if there is none.
pub open spec fn dot_index(s: Seq<u8>) -> int
    decreases s.len(),
{
    if s.len() == 0 {
        0
    } else if s[0] == 46 {
        0
    } else {
        1 + dot_index(s.drop_first())
    }
}

/// The digit at position `i` of a fraction, taking absent digits as zero.
pub open spec fn digit_or_zero(s: Seq<u8>, i: int) -> int {
    if 0 <= i < s.len() {
        s[i] - 48
    } else {
        0
    }
}

/// The first three fractional digits read as thousandths.
pub open spec fn frac_milli(s: Seq<u8>) -> int {
    digit_or_zero(s, 0) * 100 + digit_or_zero(s, 1) * 10 + digit_or_zero(s, 2)
}

/// The thousandths denoted by an unsigned decimal literal
/// `digits [ '.' digits ]` with at least one digit, or `None` when the text
/// has another shape. Fractional digits beyond the third are dropped.
pub open spec fn spec_unsigned_milli(t: Seq<u8>) -> Option<int> {
    let d = dot_index(t);
    if d == t.len() {
        if t.len() > 0 && all_digits(t) {
            Some(digits_val(t) * 1000)
        } else {
            None
        }
    } else {
        let ip = t.subrange(0, d);
        let fp = t.subrange(d + 1, t.len() as int);
        if all_digits(ip) && all_digits(fp) && ip.len() + fp.len() > 0 {
            Some(digits_val(ip) * 1000 + frac_milli(fp))
        } else {
            None
        }
    }
}

/// The thousandths denoted by a decimal token with an optional leading sign.
pub open spec fn spec_token_milli(t: Seq<u8>) -> Option<int> {
    if t.len() > 0 && t[0] == 43 {
        spec_unsigned_milli(t.drop_first())
    } else if t.len() > 0 && t[0] == 45 {
        match spec_unsigned_milli(t.drop_first()) {
            Some(v) => Some(-v),
            None => None,
        }
    } else {
        spec_unsigned_milli(t)
    }
}

/// `spec_token_milli` narrowed to what an `i64` can hold; a token whose
/// value lies outside that range does not parse.
pub open spec fn spec_token_i64(t: Seq<u8>) -> Option<i64> {
    match spec_token_milli(t) {
        Some(v) => if i64::MIN <= v <= i64::MAX {
            Some(v as i64)
        } else {
            None
        },
        None => None,
    }
}

pub proof fn lemma_dot_index_bounds(s: Seq<u8>)
    ensures
        0 <= dot_index(s) <= s.len(),
    decreases s.len(),
{
    if s.len() != 0 && s[0] != 46 {
        lemma_dot_index_bounds(s.drop_first());
    }
}

/// When the first `m` bytes hold no dot, the first dot is at `m` or later;
/// when byte `m` is a dot, it is exactly at `m`.
pub proof fn lemma_dot_index_past(s: Seq<u8>, m: int)
    requires
        0 <= m <= s.len(),
        forall|k: int| 0 <= k < m ==> s[k] != 46,
    ensures
        dot_index(s) >= m,
        m < s.len() && s[m] == 46 ==> dot_index(s) == m,
    decreases m,
{
    lemma_dot_index_bounds(s);
    if m > 0 {
        let d = s.drop_first();
        assert forall|k: int| 0 <= k < m - 1 implies d[k] != 46 by {
            assert(d[k] == s[k + 1]);
        }
        if m - 1 < d.len() && d[m - 1] == 46 {
            assert(s[m] == 46);
        }
        lemma_dot_index_past(d, m - 1);
    }
}

pub proof fn lemma_digits_val_nonneg(s: Seq<u8>)
    requires
        all_digits(s),
    ensures
        digits_val(s) >= 0,
    decreases s.len(),
{
    if s.len() != 0 {
        assert(all_digits(s.drop_last()));
        lemma_digits_val_nonneg(s.drop_last());
        assert(is_digit(s[s.len() - 1]));
    }
}

/// Parses one token as a signed fixed-point decimal in thousandths.
#[verifier::loop_isolation(false)]
#[verifier::rlimit(60)]
pub fn parse_token(t: &Vec<u8>) -> (r: Option<i64>)
    ensures
        r == spec_token_i64(t@),
{
    let n = t.len();
    let mut start: usize = 0;
    let mut neg = false;
    if n > 0 && (t[0] == 43 || t[0] == 45) {
        neg = t[0] == 45;
        start = 1;
    }
    let ghost u = t@.subrange(start as int, n as int);
    proof {
        if start == 1 {
            assert(t@.drop_first() =~= u);
        } else {
            assert(t@ =~= u);
        }
    }
    // Find where the integer part ends: the first byte that is no digit.
    let mut ie: usize = start;
    while ie < n && 48 <= t[ie] && t[ie] <= 57
        invariant
            start <= ie <= n,
            forall|k: int| start <= k < ie ==> is_digit(#[trigger] t@[k]),
        decreases n - ie,
    {
        ie = ie + 1;
    }
    proof {
        assert forall|k: int| 0 <= k < ie - start implies is_digit(#[trigger] u[k]) && u[k] != 46 by {
            assert(u[k] == t@[start + k]);
        }
    }
    if ie < n && t[ie] != 46 {
        // A byte that can stand neither in the integer part nor start the
        // fraction: the token has no valid shape.
        proof {
            let m = ie - start;
            assert(u[m as int] == t@[ie as int]);
            lemma_dot_index_past(u, m as int + 1);
            lemma_dot_index_bounds(u);
            let d = dot_index(u);
            if d < u.len() {
                assert(u.subrange(0, d)[m as int] == u[m as int]);
                assert(!all_digits(u.subrange(0, d)));
            } else {
                assert(!all_digits(u));
            }
        }
        return None;
    }
    // Accumulate the integer part, but only up to the cap.
    let ghost ip = t@.subrange(start as int, ie as int);
    let mut acc: i128 = 0;
    let mut over = false;
    let mut i: usize = start;
    while i < ie
        invariant
            start <= i <= ie,
            !over ==> acc == digits_val(t@.subrange(start as int, i as int)) && 0 <= acc
                <= MILLI_CAP,
            over ==> digits_val(t@.subrange(start as int, i as int)) > MILLI_CAP,
        decreases ie - i,
    {
        let b = t[i];
        proof {
            assert(t@.subrange(start as int, i + 1).drop_last() =~= t@.subrange(
                start as int,
                i as int,
            ));
            assert(t@.subrange(start as int, i + 1).last() == t@[i as int]);
        }
        let d = (b - 48) as i128;
        if !over {
            let na = acc * 10 + d;
            if na > MILLI_CAP {
                over = true;
            } else {
                acc = na;
            }
        }
        i = i + 1;
    }
    proof {
        assert(ip =~= t@.subrange(start as int, ie as int));
    }
    if ie == n {
        // No fraction: the whole body is the integer part.
        proof {
            assert(u =~= ip);
            lemma_dot_index_past(u, u.len() as int);
            lemma_dot_index_bounds(u);
        }
        if ie == start {
            return None;
        }
        if over {
            proof {
                lemma_digits_val_nonneg(u);
            }
            return None;
        }
        let milli = acc * 1000;
        let v: i128 = if neg {
            -milli
        } else {
            milli
        };
        if v >= i64::MIN as i128 && v <= i64::MAX as i128 {
            Some(v as i64)
        } else {
            None
        }
    } else {
        // A dot at `ie`: the fraction runs from there to the end.
        let ghost m = ie - start;
        let ghost fp = u.subrange(m + 1, u.len() as int);
        proof {
            assert(u[m as int] == t@[ie as int]);
            lemma_dot_index_past(u, m as int);
            assert(dot_index(u) == m);
            assert(u.subrange(0, m as int) =~= ip);
            assert(fp =~= t@.subrange(ie + 1, n as int));
        }
        let mut j = ie + 1;
        while j < n && 48 <= t[j] && t[j] <= 57
            invariant
                ie + 1 <= j <= n,
                forall|k: int| ie + 1 <= k < j ==> is_digit(#[trigger] t@[k]),
            decreases n - j,
        {
            j = j + 1;
        }
        if j < n {
            // A non-digit inside the fraction.
            proof {
                assert(fp[j - (ie + 1)] == t@[j as int]);
                assert(!all_digits(fp));
            }
            return None;
        }
        proof {
            assert forall|k: int| 0 <= k < fp.len() implies is_digit(#[trigger] fp[k]) by {
                assert(fp[k] == t@[ie + 1 + k]);
            }
        }
        if ie == start && ie + 1 == n {
            // A bare dot denotes nothing.
            return None;
        }
        let frac_len = n - ie - 1;
        let mut f: i128 = 0;
        if frac_len >= 1 {
            f = f + ((t[ie + 1] - 48) as i128) * 100;
            proof {
                assert(fp[0] == t@[ie + 1]);
            }
        }
        if frac_len >= 2 {
            f = f + ((t[ie + 2] - 48) as i128) * 10;
            proof {
                assert(fp[1] == t@[ie + 2]);
            }
        }
        if frac_len >= 3 {
            f = f + ((t[ie + 3] - 48) as i128);
            proof {
                assert(fp[2] == t@[ie + 3]);
            }
        }
        proof {
            assert(f == frac_milli(fp));
            assert(0 <= f <= 999);
        }
        if over {
            proof {
                lemma_digits_val_nonneg(ip);
            }
            return None;
        }
        let milli = acc * 1000 + f;
        let v: i128 = if neg {
            -milli
        } else {
            milli
        };
        if v >= i64::MIN as i128 && v <= i64::MAX as i128 {
            Some(v as i64)
        } else {
            None
        }
    }
}

/// What one input line amounts to: a sample, a line of the wrong shape, or
/// a number that does not parse.
#[derive(Clone, Copy, PartialEq, Eq, Structural, Debug)]
pub enum LineResult {
    Value(Sample),
    Malformed,
    BadNumber,
}

/// The reading of one input line: exactly two tokens, a timestamp and a
/// value, both decimal numbers in range.
pub open spec fn spec_line(l: Seq<u8>) -> LineResult {
    let toks = spec_tokens(l);
    if toks.len() != 2 {
        LineResult::Malformed
    } else {
        match (spec_token_i64(toks[0]), spec_token_i64(toks[1])) {
            (Some(ts), Some(v)) => LineResult::Value(
                Sample { timestamp_ms: ts, value_milli: v },
            ),
            _ => LineResult::BadNumber,
        }
    }
}

/// Parses one input line.
pub fn parse_line(line: &Vec<u8>) -> (r: LineResult)
    ensures
        r == spec_line(line@),
{
    let toks = tokenize(line);
    proof {
        assert(toks.deep_view().len() == toks@.len());
    }
    if toks.len() != 2 {
        return LineResult::Malformed;
    }
    proof {
        assert(toks@[0].deep_view() == spec_tokens(line@)[0]);
        assert(toks@[1].deep_view() == spec_tokens(line@)[1]);
        assert(toks@[0].deep_view() == toks@[0]@);
        assert(toks@[1].deep_view() == toks@[1]@);
    }
    let ts = parse_token(&toks[0]);
    let v = parse_token(&toks[1]);
    match (ts, v) {
        (Some(ts), Some(v)) => LineResult::Value(Sample { timestamp_ms: ts, value_milli: v }),
        _ => LineResult::BadNumber,
    }
}

} // verus!
