//! The date-range query grammar and the interval-intersection predicate.
//!
//! A query is either a single signed day offset relative to today, or a
//! `left..right` range whose sides are optional signed offsets.  The
//! intersection predicate resolves offsets to absolute days and decides
//! whether the queried window overlaps a schedule interval.

use vstd::prelude::*;
use vstd::string::StringExecFns;

use crate::agmd::{agmd_wf, Agmd};
use crate::date::Date;
use crate::num::{
    all_digits, dec_str, dec_val, lemma_dec_val_drop_zeros, lemma_dec_val_lower,
    lemma_dec_val_nonneg, lemma_pow10_19, lemma_pow10_monotone, pow10,
};
use crate::text::{digit_val, digit_val_exec, is_digit_char, is_digit_exec, push_dec, to_char_vec};

verus! {

/// A single relative date: a signed count of days from today.
#[derive(Clone, Copy, Debug, PartialEq, Eq)]
pub enum DateFormat {
    Relative(i64),
}

/// A query: one relative day, or a range of relative days with either side
/// optionally open.
#[derive(Clone, Copy, Debug, PartialEq, Eq)]
pub enum DateRangeFormat {
    Single(DateFormat),
    Range(Option<DateFormat>, Option<DateFormat>),
}

/// Why a query string was rejected.
#[derive(Clone, Copy, Debug, PartialEq, Eq)]
pub enum QueryParseError {
    /// The input is neither a single offset nor a range expression.
    NotAQuery,
    /// The input is a single offset whose magnitude cannot be represented.
    OffsetOutOfRange,
}

impl QueryParseError {
    /// A human-readable description of the failure.
    pub fn message(&self) -> (r: &'static str)
        ensures
            *self == QueryParseError::NotAQuery ==> r@ == "neither single date or range"@,
            *self == QueryParseError::OffsetOutOfRange ==> r@ == "date offset out of range"@,
    {
        match self {
            QueryParseError::NotAQuery => "neither single date or range",
            QueryParseError::OffsetOutOfRange => "date offset out of range",
        }
    }
}

impl Default for DateRangeFormat {
    /// The default query is today alone.
    fn default() -> (r: Self)
        ensures
            r == DateRangeFormat::Single(DateFormat::Relative(0)),
    {
        DateRangeFormat::Single(DateFormat::Relative(0))
    }
}

pub open spec fn is_sign_char(c: char) -> bool {
    c == '+' || c == '-'
}

/// The whole sequence is an optionally signed run of digits.
pub open spec fn int_shape(s: Seq<char>) -> bool {
    if s.len() == 0 {
        false
    } else if is_sign_char(s[0]) {
        s.len() >= 2 && all_digits(s.subrange(1, s.len() as int))
    } else {
        all_digits(s)
    }
}

pub open spec fn digits_part(s: Seq<char>) -> Seq<char> {
    if s.len() > 0 && is_sign_char(s[0]) {
        s.subrange(1, s.len() as int)
    } else {
        s
    }
}

pub open spec fn int_is_neg(s: Seq<char>) -> bool {
    s.len() > 0 && s[0] == '-'
}

/// The signed value an integer-shaped sequence denotes.
pub open spec fn int_val(s: Seq<char>) -> int {
    if int_is_neg(s) {
        -dec_val(digits_part(s))
    } else {
        dec_val(digits_part(s))
    }
}

/// The value fits a 64-bit signed day offset.
pub open spec fn int_fits(s: Seq<char>) -> bool {
    i64::MIN <= int_val(s) <= i64::MAX
}

/// Position of the first `..` at or after `p`.
pub open spec fn first_dotdot_from(s: Seq<char>, p: int) -> Option<int>
    decreases s.len() - p,
{
    if p + 2 > s.len() {
        None
    } else if s[p] == '.' && s[p + 1] == '.' {
        Some(p)
    } else {
        first_dotdot_from(s, p + 1)
    }
}

/// A range side is empty (open) or an integer.
pub open spec fn side_ok(t: Seq<char>) -> bool {
    t.len() == 0 || int_shape(t)
}

/// The bound a range side denotes; a side whose magnitude cannot be
/// represented is treated as open, as an unsupplied side is.
pub open spec fn side_val(t: Seq<char>) -> Option<DateFormat> {
    if t.len() == 0 {
        None
    } else if int_fits(t) {
        Some(DateFormat::Relative(int_val(t) as i64))
    } else {
        None
    }
}

/// What `parse_date_range` returns on a given input.
pub open spec fn parse_query_spec(s: Seq<char>) -> Result<DateRangeFormat, QueryParseError> {
    if int_shape(s) {
        if int_fits(s) {
            Ok(DateRangeFormat::Single(DateFormat::Relative(int_val(s) as i64)))
        } else {
            Err(QueryParseError::OffsetOutOfRange)
        }
    } else {
        match first_dotdot_from(s, 0) {
            None => Err(QueryParseError::NotAQuery),
            Some(q) => {
                let l = s.subrange(0, q);
                let r = s.subrange(q + 2, s.len() as int);
                if side_ok(l) && side_ok(r) {
                    Ok(DateRangeFormat::Range(side_val(l), side_val(r)))
                } else {
                    Err(QueryParseError::NotAQuery)
                }
            },
        }
    }
}

enum IntParse {
    NotInt,
    Overflow,
    Val(i64),
}

/// Reads `v[a..b]` as an optionally signed integer.
#[verifier::loop_isolation(false)]
fn int_exec(v: &Vec<char>, a: usize, b: usize) -> (r: IntParse)
    requires
        a <= b <= v@.len(),
    ensures
        (r is NotInt) == !int_shape(v@.subrange(a as int, b as int)),
        (r is Overflow) == (int_shape(v@.subrange(a as int, b as int)) && !int_fits(
            v@.subrange(a as int, b as int),
        )),
        r matches IntParse::Val(x) ==> x as int == int_val(v@.subrange(a as int, b as int)),
{
    let ghost s = v@.subrange(a as int, b as int);
    let n = v.len();
    if a == b {
        return IntParse::NotInt;
    }
    let c0 = v[a];
    let neg = c0 == '-';
    let signed = neg || c0 == '+';
    let da = if signed {
        a + 1
    } else {
        a
    };
    let ghost dp = digits_part(s);
    proof {
        assert(s[0] == v@[a as int]);
        assert(s.len() == b - a);
        assert(dp =~= v@.subrange(da as int, b as int));
    }
    if da == b {
        return IntParse::NotInt;
    }
    let mut i = da;
    while i < b
        invariant
            da <= i <= b <= v@.len(),
            forall|j: int| da <= j < i ==> is_digit_char(#[trigger] v@[j]),
        decreases b - i,
    {
        if !is_digit_exec(v[i]) {
            proof {
                assert(dp[i - da] == v@[i as int]);
                assert(!all_digits(dp));
            }
            return IntParse::NotInt;
        }
        i = i + 1;
    }
    proof {
        assert forall|k: int| 0 <= k < dp.len() implies is_digit_char(#[trigger] dp[k]) by {
            assert(dp[k] == v@[da + k]);
        }
        assert(all_digits(dp));
        assert(int_shape(s));
    }
    // skip leading zeros
    let mut z = da;
    while z < b && digit_val_exec(v[z]) == 0
        invariant
            da <= z <= b <= v@.len(),
            forall|j: int| da <= j < z ==> digit_val(#[trigger] v@[j]) == 0,
            forall|j: int| da <= j < b ==> is_digit_char(#[trigger] v@[j]),
        decreases b - z,
    {
        z = z + 1;
    }
    proof {
        assert forall|j: int| 0 <= j < z - da implies digit_val(#[trigger] dp[j]) == 0 by {
            assert(dp[j] == v@[da + j]);
        }
        lemma_dec_val_drop_zeros(dp, z - da);
        assert(dp.subrange(z - da, dp.len() as int) =~= v@.subrange(z as int, b as int));
    }
    let ghost zs = v@.subrange(z as int, b as int);
    let m = b - z;
    proof {
        assert forall|k: int| 0 <= k < zs.len() implies is_digit_char(#[trigger] zs[k]) by {
            assert(zs[k] == v@[z + k]);
        }
        lemma_dec_val_nonneg(zs);
    }
    if m > 19 {
        proof {
            assert(digit_val(zs[0]) != 0);
            assert(digit_val(zs[0]) >= 1) by {
                assert(is_digit_char(zs[0]));
            }
            lemma_dec_val_lower(zs);
            lemma_pow10_monotone(19, (m - 1) as nat);
            lemma_pow10_19();
        }
        return IntParse::Overflow;
    }
    let mut acc: u64 = 0;
    let mut i2 = z;
    while i2 < b
        invariant
            da <= z <= i2 <= b <= v@.len(),
            b - z <= 19,
            forall|j: int| da <= j < b ==> is_digit_char(#[trigger] v@[j]),
            acc == dec_val(v@.subrange(z as int, i2 as int)),
            acc < pow10((i2 - z) as nat),
        decreases b - i2,
    {
        let d = digit_val_exec(v[i2]);
        proof {
            lemma_pow10_monotone((i2 - z + 1) as nat, 19);
            lemma_pow10_19();
            assert(10 * acc + d < 10 * pow10((i2 - z) as nat));
        }
        acc = 10 * acc + (d as u64);
        i2 = i2 + 1;
        proof {
            let pre = v@.subrange(z as int, i2 - 1);
            let cur = v@.subrange(z as int, i2 as int);
            assert(cur.drop_last() =~= pre);
            assert(cur.last() == v@[i2 - 1]);
        }
    }
    proof {
        assert(v@.subrange(z as int, b as int) =~= zs);
        assert(acc == dec_val(dp));
    }
    if neg {
        if acc > 9223372036854775808u64 {
            return IntParse::Overflow;
        }
        if acc == 9223372036854775808u64 {
            IntParse::Val(i64::MIN)
        } else {
            IntParse::Val(-(acc as i64))
        }
    } else {
        if acc > 9223372036854775807u64 {
            return IntParse::Overflow;
        }
        IntParse::Val(acc as i64)
    }
}

fn scan_dotdot(v: &Vec<char>) -> (r: Option<usize>)
    ensures
        match r {
            Some(i) => first_dotdot_from(v@, 0) == Some(i as int) && i + 2 <= v@.len(),
            None => first_dotdot_from(v@, 0) is None,
        },
{
    if v.len() < 2 {
        return None;
    }
    let mut p: usize = 0;
    while p <= v.len() - 2
        invariant
            v@.len() >= 2,
            p <= v@.len() - 1,
            first_dotdot_from(v@, 0) == first_dotdot_from(v@, p as int),
        decreases v@.len() - p,
    {
        if v[p] == '.' && v[p + 1] == '.' {
            return Some(p);
        }
        p = p + 1;
    }
    None
}

/// Parses a query string: a single signed offset, or `left..right` with
/// optionally absent sides.  Anything else is rejected.
pub fn parse_date_range(input: &str) -> (r: Result<DateRangeFormat, QueryParseError>)
    ensures
        r == parse_query_spec(input@),
{
    let v = to_char_vec(input);
    proof {
        assert(v@.subrange(0, v@.len() as int) =~= v@);
    }
    match int_exec(&v, 0, v.len()) {
        IntParse::Val(x) => Ok(DateRangeFormat::Single(DateFormat::Relative(x))),
        IntParse::Overflow => Err(QueryParseError::OffsetOutOfRange),
        IntParse::NotInt => {
            match scan_dotdot(&v) {
                None => Err(QueryParseError::NotAQuery),
                Some(qq) => {
                    let left = match int_exec(&v, 0, qq) {
                        IntParse::NotInt => {
                            if qq != 0 {
                                return Err(QueryParseError::NotAQuery);
                            }
                            None
                        },
                        IntParse::Overflow => None,
                        IntParse::Val(x) => Some(DateFormat::Relative(x)),
                    };
                    let right = match int_exec(&v, qq + 2, v.len()) {
                        IntParse::NotInt => {
                            if qq + 2 != v.len() {
                                return Err(QueryParseError::NotAQuery);
                            }
                            None
                        },
                        IntParse::Overflow => None,
                        IntParse::Val(x) => Some(DateFormat::Relative(x)),
                    };
                    Ok(DateRangeFormat::Range(left, right))
                },
            }
        },
    }
}

/// The offset a `DateFormat` denotes.
pub open spec fn rel_of(df: DateFormat) -> int {
    match df {
        DateFormat::Relative(o) => o as int,
    }
}

/// The queried day, resolved to an absolute day number from today.
pub open spec fn abs_of(today: Date, df: Option<DateFormat>) -> Option<int> {
    match df {
        None => None,
        Some(f) => Some(today.day_number() + rel_of(f)),
    }
}

/// Day `x` lies inside the schedule, an absent side being unbounded.
pub open spec fn single_hits(a: Agmd, x: int) -> bool {
    &&& match a.start {
        Some(st) => st.day_number() <= x,
        None => true,
    }
    &&& match a.due {
        Some(du) => x <= du.day_number(),
        None => true,
    }
}

/// The closed query interval `[lo, hi]` overlaps the schedule: a bound pair
/// is compared only when both sides are present, an absent bound never
/// violating its comparison.
pub open spec fn range_hits(a: Agmd, lo: Option<int>, hi: Option<int>) -> bool {
    &&& match (hi, a.start) {
        (Some(h), Some(st)) => st.day_number() <= h,
        _ => true,
    }
    &&& match (lo, a.due) {
        (Some(l), Some(du)) => l <= du.day_number(),
        _ => true,
    }
}

/// The query window, resolved against `today`, overlaps the schedule.
pub open spec fn intersects_spec(q: DateRangeFormat, a: Agmd, today: Date) -> bool {
    match q {
        DateRangeFormat::Single(f) => single_hits(a, today.day_number() + rel_of(f)),
        DateRangeFormat::Range(l, r) => range_hits(a, abs_of(today, l), abs_of(today, r)),
    }
}

/// A schedule with no bounds is active on every query.
pub proof fn lemma_fully_open_schedule(q: DateRangeFormat, today: Date)
    ensures
        intersects_spec(q, Agmd { start: None, due: None }, today),
{
}

/// A query with no bounds accepts every schedule.
pub proof fn lemma_fully_open_query(a: Agmd, today: Date)
    ensures
        intersects_spec(DateRangeFormat::Range(None, None), a, today),
{
}

/// A range whose two sides are the same offset decides exactly as the
/// single-day query of that offset does.
pub proof fn lemma_range_point_reduces(o: i64, a: Agmd, today: Date)
    ensures
        intersects_spec(
            DateRangeFormat::Range(Some(DateFormat::Relative(o)), Some(DateFormat::Relative(o))),
            a,
            today,
        ) == intersects_spec(DateRangeFormat::Single(DateFormat::Relative(o)), a, today),
{
}

impl DateRangeFormat {
    /// Decides whether this query, resolved against the given day, overlaps
    /// the schedule interval.
    pub fn intersects_on(&self, agmd: &Agmd, today: &Date) -> (b: bool)
        requires
            today.wf(),
            agmd_wf(*agmd),
        ensures
            b == intersects_spec(*self, *agmd, *today),
    {
        let t: i128 = today.to_day_number() as i128;
        match self {
            DateRangeFormat::Single(DateFormat::Relative(o)) => {
                let x: i128 = t + (*o as i128);
                let ok_start = match agmd.start {
                    Some(st) => (st.to_day_number() as i128) <= x,
                    None => true,
                };
                let ok_due = match agmd.due {
                    Some(du) => x <= (du.to_day_number() as i128),
                    None => true,
                };
                ok_start && ok_due
            },
            DateRangeFormat::Range(l, r) => {
                let hi_ok = match (r, agmd.start) {
                    (Some(DateFormat::Relative(o)), Some(st)) => (st.to_day_number() as i128) <= t
                        + (*o as i128),
                    _ => true,
                };
                let lo_ok = match (l, agmd.due) {
                    (Some(DateFormat::Relative(o)), Some(du)) => t + (*o as i128) <= (
                    du.to_day_number() as i128),
                    _ => true,
                };
                hi_ok && lo_ok
            },
        }
    }

    /// Decides whether the schedule is active for this query on the current
    /// local day.  The result is either the intersection at some valid
    /// day (the machine's today), or `false` when the clock lies outside
    /// the supported calendar range.
    pub fn filter_agmd_intersection(&self, agmd: &Agmd) -> (b: bool)
        requires
            agmd_wf(*agmd),
        ensures
            b ==> exists|t: Date| t.wf() && intersects_spec(*self, *agmd, t),
    {
        match current_date() {
            Some(t) => {
                let b = self.intersects_on(agmd, &t);
                proof {
                    if b {
                        assert(t.wf() && intersects_spec(*self, *agmd, t));
                    }
                }
                b
            },
            None => false,
        }
    }
}

/// Relies on chrono's `Local::now` and the `Datelike` accessors of the
/// resulting `NaiveDate`: year, month and day of the current local date,
/// month and day being 1-based as chrono documents.
#[verifier::external_body]
fn local_today_ymd() -> (r: (i32, u32, u32))
    ensures
        1 <= r.1 <= 12,
        1 <= r.2 <= 31,
{
    let d = chrono::Local::now().date_naive();
    (chrono::Datelike::year(&d), chrono::Datelike::month(&d), chrono::Datelike::day(&d))
}

/// The current local calendar date, when it lies in the supported range.
pub fn current_date() -> (r: Option<Date>)
    ensures
        r matches Some(d) ==> d.wf(),
{
    let (y, m, d) = local_today_ymd();
    if 0 <= y && y <= 9999 {
        Date::new(y as u16, m as u8, d as u8)
    } else {
        None
    }
}

/// The numeral of a signed offset: a minus sign for negative values, then
/// the decimal digits.
pub open spec fn render_int_spec(i: int) -> Seq<char> {
    if i < 0 {
        seq!['-'] + dec_str(-i)
    } else {
        dec_str(i)
    }
}

pub open spec fn render_side_spec(df: Option<DateFormat>) -> Seq<char> {
    match df {
        None => Seq::<char>::empty(),
        Some(f) => render_int_spec(rel_of(f)),
    }
}

/// The display form of a query: the offset itself, or `left..right` with
/// absent sides left blank.
pub open spec fn render_query_spec(q: DateRangeFormat) -> Seq<char> {
    match q {
        DateRangeFormat::Single(f) => render_int_spec(rel_of(f)),
        DateRangeFormat::Range(l, r) => render_side_spec(l) + seq!['.', '.'] + render_side_spec(r),
    }
}

fn push_int(out: &mut String, i: i64)
    ensures
        final(out)@ == old(out)@ + render_int_spec(i as int),
{
    if i < 0 {
        proof {
            reveal_strlit("-");
        }
        out.append("-");
        let mag: u64 = (-(i as i128)) as u64;
        push_dec(out, mag);
        proof {
            assert(final(out)@ =~= old(out)@ + render_int_spec(i as int));
        }
    } else {
        push_dec(out, i as u64);
    }
}

impl DateFormat {
    /// The display form of this relative date.
    pub fn render(&self) -> (r: String)
        ensures
            r@ == render_int_spec(rel_of(*self)),
    {
        let mut out = String::new();
        let DateFormat::Relative(o) = self;
        push_int(&mut out, *o);
        out
    }
}

impl DateRangeFormat {
    /// The display form of this query.
    pub fn render(&self) -> (r: String)
        ensures
            r@ == render_query_spec(*self),
    {
        let mut out = String::new();
        match self {
            DateRangeFormat::Single(DateFormat::Relative(o)) => {
                push_int(&mut out, *o);
            },
            DateRangeFormat::Range(l, r) => {
                match l {
                    Some(DateFormat::Relative(o)) => push_int(&mut out, *o),
                    None => {},
                }
                proof {
                    reveal_strlit("..");
                }
                out.append("..");
                proof {
                    assert(("..")@ =~= seq!['.', '.']);
                }
                match r {
                    Some(DateFormat::Relative(o)) => push_int(&mut out, *o),
                    None => {},
                }
                proof {
                    assert(out@ =~= render_query_spec(*self));
                }
            },
        }
        out
    }
}

} // verus!
