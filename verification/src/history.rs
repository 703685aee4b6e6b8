//! Command history: which command lines are recorded, which transitions
//! between commands are learned, and the time stamps of history rows.
use vstd::prelude::*;
use crate::platform::Platform;
use crate::sensitive::{is_sensitive, sensitive};
use crate::text::{lower_seq, starts_with, to_chars};

verus! {

/// Where a suggestion comes from.
#[derive(Debug, Clone, Copy, PartialEq, Eq, Structural)]
pub enum HintSource {
    History,
    Catalog { platform: Platform },
    Snippet,
    /// A command usually run right after the previous one.
    Sequence,
}

/// Whether a trimmed command line is recorded in the history: it is not
/// empty and does not look like it carries a credential.
pub fn should_record(trimmed: &str) -> (b: bool)
    ensures
        b == (trimmed@.len() > 0 && !sensitive(trimmed)),
{
    to_chars(trimmed).len() > 0 && !is_sensitive(trimmed)
}

/// Whether the transition `prev` → `next` (both trimmed) on `platform` is
/// learned: not on the generic platform, both non-empty and different,
/// neither sensitive.
pub fn should_learn_transition(platform: Platform, prev: &str, next: &str) -> (b: bool)
    ensures
        b == (platform != Platform::Generic && prev@.len() > 0 && next@.len() > 0 && prev@ != next@
            && !sensitive(prev) && !sensitive(next)),
{
    platform != Platform::Generic && to_chars(prev).len() > 0 && to_chars(next).len() > 0
        && !crate::text::str_is(prev, next) && !is_sensitive(prev) && !is_sensitive(next)
}

/// Whether catalog command `cmd` completes `prefix_lower` (an already
/// lower-cased prefix), ignoring ASCII case.
pub fn catalog_matches(cmd: &str, prefix_lower: &str) -> (b: bool)
    ensures
        b == starts_with(lower_seq(cmd@), prefix_lower@),
{
    let c = to_chars(cmd);
    let l = crate::text::lower_range(&c, 0, c.len());
    assert(c@.subrange(0, c@.len() as int) =~= c@);
    crate::text::range_starts_with(&l, 0, l.len(), &to_chars(prefix_lower)) && {
        assert(l@.subrange(0, l@.len() as int) =~= l@);
        true
    }
}

// ---------------------------------------------------------------------------
// Calendar arithmetic
// ---------------------------------------------------------------------------

/// Integer division rounding toward zero, as Rust's `/`.
pub open spec fn trunc_div(a: int, b: int) -> int {
    if a >= 0 {
        a / b
    } else {
        -((-a) / b)
    }
}

/// The shifted year (March-based), era, year of era and day of year of a
/// civil date.
pub open spec fn civil_parts(y: int, m: int, d: int) -> (int, int, int, int) {
    let y2 = if m <= 2 {
        y - 1
    } else {
        y
    };
    let era = trunc_div(
        if y2 >= 0 {
            y2
        } else {
            y2 - 399
        },
        400,
    );
    let yoe = y2 - era * 400;
    let mp = if m > 2 {
        m - 3
    } else {
        m + 9
    };
    let doy = (153 * mp + 2) / 5 + d - 1;
    (y2, era, yoe, doy)
}

/// Days from 1970-01-01 to the civil date `y-m-d` (proleptic Gregorian).
pub open spec fn civil_days(y: int, m: int, d: int) -> int {
    let (y2, era, yoe, doy) = civil_parts(y, m, d);
    let doe = yoe * 365 + yoe / 4 - yoe / 100 + doy;
    era * 146097 + doe - 719468
}

/// The dates whose day count the 32-bit computation reaches without
/// overflow: the year can be shifted, the month factor and the day of year
/// stay within `u32`.
pub open spec fn civil_ok(y: i32, m: u32, d: u32) -> bool {
    let y2: int = if m <= 2 {
        y - 1
    } else {
        y as int
    };
    let mp: int = if m > 2 {
        m - 3
    } else {
        m + 9
    };
    &&& (m <= 2 ==> y > i32::MIN)
    &&& (y2 < 0 ==> y2 - 399 >= i32::MIN)
    &&& 153 * mp + 2 <= u32::MAX
    &&& 1 <= (153 * mp + 2) / 5 + d <= u32::MAX
    &&& (153 * mp + 2) / 5 + d - 1 + 146097 <= u32::MAX
}

/// Days since 1970-01-01 of the date `y-m-d`.
pub fn days_from_civil(y: i32, m: u32, d: u32) -> (r: i64)
    requires
        civil_ok(y, m, d),
    ensures
        r as int == civil_days(y as int, m as int, d as int),
{
    let y2: i32 = if m <= 2 {
        y - 1
    } else {
        y
    };
    let num: i32 = if y2 >= 0 {
        y2
    } else {
        y2 - 399
    };
    let era: i32 = num / 400;
    proof {
        assert(era as int == trunc_div(num as int, 400)) by (nonlinear_arith)
            requires
                era as int == (if num >= 0 {
                    num as int / 400
                } else {
                    -((-(num as int)) / 400)
                }),
        {
        }
    }
    let ghost yoe_i: int = y2 - era * 400;
    assert(0 <= yoe_i < 400) by (nonlinear_arith)
        requires
            yoe_i == y2 - era * 400,
            era as int == trunc_div(num as int, 400),
            num as int == (if y2 >= 0 {
                y2 as int
            } else {
                y2 - 399
            }),
    {
    }
    let yoe: u32 = (y2 - era * 400) as u32;
    let mp: u32 = if m > 2 {
        m - 3
    } else {
        m + 9
    };
    let doy: u32 = (153 * mp + 2) / 5 + d - 1;
    let doe: u32 = yoe * 365 + yoe / 4 - yoe / 100 + doy;
    era as i64 * 146_097 + doe as i64 - 719_468
}

/// Signed parse (`str::parse::<i32>`): an optional sign, then one or more
/// decimal digits, the value within `i32`.
pub open spec fn parse_i32_spec(s: Seq<char>) -> Option<int> {
    if s.len() > 0 && s[0] == '-' {
        match crate::text::parse_uint(s.drop_first(), 10, 0x8000_0000) {
            Some(n) => if s.len() > 1 && s[1] != '+' {
                Some(-(n as int))
            } else {
                None
            },
            None => None,
        }
    } else {
        match crate::text::parse_uint(s, 10, 0x7fff_ffff) {
            Some(n) => Some(n as int),
            None => None,
        }
    }
}

/// `v[lo..hi].parse::<i32>()`.
pub fn parse_i32_range(v: &Vec<char>, lo: usize, hi: usize) -> (r: Option<i32>)
    requires
        lo <= hi <= v@.len(),
    ensures
        match r {
            Some(x) => parse_i32_spec(v@.subrange(lo as int, hi as int)) == Some(x as int),
            None => parse_i32_spec(v@.subrange(lo as int, hi as int)) is None,
        },
{
    let ghost s = v@.subrange(lo as int, hi as int);
    if lo < hi && v[lo] == '-' {
        assert(s.drop_first() =~= v@.subrange(lo + 1, hi as int));
        if lo + 1 < hi && v[lo + 1] == '+' {
            return None;
        }
        match crate::text::parse_uint_range(v, lo + 1, hi, 10, 0x8000_0000) {
            Some(n) => {
                if lo + 1 == hi {
                    return None;
                }
                assert(s[1] == v@[lo + 1]);
                let x: i64 = -(n as i64);
                Some(x as i32)
            },
            None => None,
        }
    } else {
        match crate::text::parse_uint_range(v, lo, hi, 10, 0x7fff_ffff) {
            Some(n) => Some(n as i32),
            None => None,
        }
    }
}

/// The pieces of `s` split at each `c`, as ranges (exactly `k` expected).
fn split_exact(c: &Vec<char>, lo: usize, hi: usize, sep: char, k: usize) -> (r: Option<Vec<(usize, usize)>>)
    requires
        lo <= hi <= c@.len(),
    ensures
        match r {
            Some(v) => v@.len() == k && k == crate::text::split_pieces(c@.subrange(lo as int, hi as int), sep).len()
                && crate::text::range_views(c@, v@) == crate::text::split_pieces(c@.subrange(lo as int, hi as int), sep)
                && forall|j: int| 0 <= j < v@.len() ==> lo <= #[trigger] v@[j].0 <= v@[j].1 <= hi,
            None => k != crate::text::split_pieces(c@.subrange(lo as int, hi as int), sep).len(),
        },
{
    let v = crate::text::split_ranges(c, lo, hi, sep);
    if v.len() == k {
        Some(v)
    } else {
        None
    }
}

/// The fields of a history time stamp `YYYY-MM-DD HH:MM:SS` (a `T` may
/// stand for the first space; a fraction after `.` is ignored).
pub open spec fn stamp_fields(s: Seq<char>) -> Option<(int, int, int, int, int, int)> {
    let t = crate::text::find_from(s, 'T', 0);
    let norm = if t < s.len() {
        s.update(t, ' ')
    } else {
        s
    };
    let sp = crate::text::find_from(norm, ' ', 0);
    if sp >= norm.len() {
        None
    } else {
        let date = norm.take(sp);
        let rest = norm.skip(sp + 1);
        let time = rest.take(crate::text::find_from(rest, '.', 0));
        let dp = crate::text::split_pieces(date, '-');
        let tp = crate::text::split_pieces(time, ':');
        if dp.len() != 3 || tp.len() != 3 {
            None
        } else {
            match (
                parse_i32_spec(dp[0]),
                crate::text::parse_uint(dp[1], 10, 0xffff_ffff),
                crate::text::parse_uint(dp[2], 10, 0xffff_ffff),
                crate::text::parse_uint(tp[0], 10, 0xffff_ffff),
                crate::text::parse_uint(tp[1], 10, 0xffff_ffff),
                crate::text::parse_uint(tp[2], 10, 0xffff_ffff),
            ) {
                (Some(y), Some(mo), Some(d), Some(h), Some(mi), Some(sec)) => Some(
                    (y, mo as int, d as int, h as int, mi as int, sec as int),
                ),
                _ => None,
            }
        }
    }
}

/// Parses a history time stamp into `(year, month, day, hour, minute,
/// second)`.
#[verifier::rlimit(60)]
#[verifier::spinoff_prover]
pub fn timestamp_fields(s: &str) -> (r: Option<(i32, u32, u32, u32, u32, u32)>)
    ensures
        match r {
            Some((y, mo, d, h, mi, sec)) => stamp_fields(s@) == Some(
                (y as int, mo as int, d as int, h as int, mi as int, sec as int),
            ),
            None => stamp_fields(s@) is None,
        },
{
    let mut c = to_chars(s);
    let n = c.len();
    let t = crate::text::find_char(&c, 'T', 0, n);
    assert(c@.subrange(0, n as int) =~= c@);
    if t < n {
        c.set(t, ' ');
    }
    let ghost norm = c@;
    assert(norm == (if t < n {
        s@.update(t as int, ' ')
    } else {
        s@
    }));
    let sp = crate::text::find_char(&c, ' ', 0, n);
    assert(c@.subrange(0, n as int) =~= c@);
    if sp == n {
        return None;
    }
    assert(norm.take(sp as int) =~= c@.subrange(0, sp as int));
    assert(norm.skip(sp + 1) =~= c@.subrange(sp + 1, n as int));
    let dot = crate::text::find_char(&c, '.', sp + 1, n);
    let ghost rest = norm.skip(sp + 1);
    assert(rest.take(dot - sp - 1) =~= c@.subrange(sp + 1, dot as int));
    let dp = match split_exact(&c, 0, sp, '-', 3) {
        Some(v) => v,
        None => return None,
    };
    let tp = match split_exact(&c, sp + 1, dot, ':', 3) {
        Some(v) => v,
        None => return None,
    };
    let ghost dps = crate::text::range_views(c@, dp@);
    let ghost tps = crate::text::range_views(c@, tp@);
    assert(dps[0] == c@.subrange(dp@[0].0 as int, dp@[0].1 as int));
    assert(dps[1] == c@.subrange(dp@[1].0 as int, dp@[1].1 as int));
    assert(dps[2] == c@.subrange(dp@[2].0 as int, dp@[2].1 as int));
    assert(tps[0] == c@.subrange(tp@[0].0 as int, tp@[0].1 as int));
    assert(tps[1] == c@.subrange(tp@[1].0 as int, tp@[1].1 as int));
    assert(tps[2] == c@.subrange(tp@[2].0 as int, tp@[2].1 as int));
    let y = parse_i32_range(&c, dp[0].0, dp[0].1);
    let mo = crate::text::parse_u32_range(&c, dp[1].0, dp[1].1, 10);
    let d = crate::text::parse_u32_range(&c, dp[2].0, dp[2].1, 10);
    let h = crate::text::parse_u32_range(&c, tp[0].0, tp[0].1, 10);
    let mi = crate::text::parse_u32_range(&c, tp[1].0, tp[1].1, 10);
    let sec = crate::text::parse_u32_range(&c, tp[2].0, tp[2].1, 10);
    match (y, mo, d, h, mi, sec) {
        (Some(y), Some(mo), Some(d), Some(h), Some(mi), Some(sec)) => Some((y, mo, d, h, mi, sec)),
        _ => None,
    }
}

/// Whether the day count of `y-m-d` can be computed (see `civil_ok`).
pub fn civil_in_range(y: i32, m: u32, d: u32) -> (b: bool)
    ensures
        b == civil_ok(y, m, d),
{
    if m <= 2 && y == i32::MIN {
        return false;
    }
    let y2: i64 = if m <= 2 {
        y as i64 - 1
    } else {
        y as i64
    };
    if y2 < 0 && y2 - 399 < i32::MIN as i64 {
        return false;
    }
    let mp: u64 = if m > 2 {
        m as u64 - 3
    } else {
        m as u64 + 9
    };
    if 153 * mp + 2 > u32::MAX as u64 {
        return false;
    }
    let q: u64 = (153 * mp + 2) / 5 + d as u64;
    1 <= q && q <= u32::MAX as u64 && q - 1 + 146097 <= u32::MAX as u64
}

/// Seconds since the Unix epoch of a time stamp's fields.
pub fn timestamp_secs(y: i32, mo: u32, d: u32, h: u32, mi: u32, sec: u32) -> (r: i64)
    requires
        civil_ok(y, mo, d),
    ensures
        r as int == civil_days(y as int, mo as int, d as int) * 86400 + h as int * 3600 + mi as int * 60 + sec as int,
{
    let days = days_from_civil(y, mo, d);
    proof {
        let (y2, era, yoe, doy) = civil_parts(y as int, mo as int, d as int);
        assert(-0x8000_0000 <= era <= 0x8000_0000) by (nonlinear_arith)
            requires
                era == trunc_div(
                    if y2 >= 0 {
                        y2
                    } else {
                        y2 - 399
                    },
                    400,
                ),
                -0x8000_0000 <= y2 - 399,
                y2 < 0x8000_0000,
        {
        }
    }
    assert(-0x1000_0000_0000 <= days <= 0x1000_0000_0000);
    days * 86_400 + h as i64 * 3600 + mi as i64 * 60 + sec as i64
}

/// `s` with `\\`, `%` and `_` escaped by a backslash, for a SQL `LIKE`
/// pattern with `ESCAPE '\\'`.
pub open spec fn like_escaped(s: Seq<char>) -> Seq<char>
    decreases s.len(),
{
    if s.len() == 0 {
        Seq::empty()
    } else {
        let c = s.last();
        like_escaped(s.drop_last()) + if c == '\\' || c == '%' || c == '_' {
            seq!['\\', c]
        } else {
            seq![c]
        }
    }
}

/// Escapes the `LIKE` wildcards of `input`.
pub fn escape_like(input: &str) -> (r: String)
    ensures
        r@ == like_escaped(input@),
{
    let c = to_chars(input);
    let mut out = String::new();
    let mut k: usize = 0;
    while k < c.len()
        invariant
            k <= c@.len(),
            c@ == input@,
            out@ == like_escaped(c@.take(k as int)),
        decreases c.len() - k,
    {
        let ch = c[k];
        assert(c@.take(k + 1).drop_last() =~= c@.take(k as int));
        assert(c@.take(k + 1).last() == ch);
        if ch == '\\' || ch == '%' || ch == '_' {
            crate::text::push_char(&mut out, '\\');
        }
        crate::text::push_char(&mut out, ch);
        assert(out@ =~= like_escaped(c@.take(k + 1)));
        k = k + 1;
    }
    assert(c@.take(k as int) =~= c@);
    out
}

/// The platform a stored identifier names; `Generic` when absent or unknown.
pub fn platform_from_opt(s: Option<&str>) -> (p: Platform)
    ensures
        p == (match s {
            Some(raw) => match crate::platform::platform_from_id(raw@) {
                Some(q) => q,
                None => Platform::Generic,
            },
            None => Platform::Generic,
        }),
{
    match s {
        Some(raw) => match Platform::parse_id(raw) {
            Ok(q) => q,
            Err(_) => Platform::Generic,
        },
        None => Platform::Generic,
    }
}

/// The platform of a session's hints: the session's own setting when it has
/// one, else the global default.
pub fn resolve_platform(session_platform: Option<&str>, default_platform: Option<&str>) -> (p: Platform)
    ensures
        p == (if session_platform is Some {
            match crate::platform::platform_from_id(session_platform.unwrap()@) {
                Some(q) => q,
                None => Platform::Generic,
            }
        } else {
            match default_platform {
                Some(raw) => match crate::platform::platform_from_id(raw@) {
                    Some(q) => q,
                    None => Platform::Generic,
                },
                None => Platform::Generic,
            }
        }),
{
    match session_platform {
        Some(_) => platform_from_opt(session_platform),
        None => platform_from_opt(default_platform),
    }
}

} // verus!
