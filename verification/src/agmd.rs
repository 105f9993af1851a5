//! The annotation grammar: the body that follows an `agmd:` marker is parsed
//! into a schedule interval (optional start and due dates).
//!
//! Two surface forms are accepted.  A body without `=` is scanned for the
//! first substring `YYYY-MM-DD` that names a real calendar day, which becomes
//! a single-day interval.  Otherwise the body is split on `;` into
//! components, each of which must be empty or `key=YYYY-MM-DD` with a valid
//! date; `start` and `due` keys set the interval's sides (a repeated key lets
//! the later occurrence win), other keys are validated and ignored, and one
//! bad component fails the whole parse.  An empty body therefore parses to
//! the fully open, always-active interval; that choice is deliberate.

use vstd::prelude::*;
use vstd::string::StringExecFns;

use crate::date::{valid_date, Date};
use crate::text::{
    digit_char_of, digit_str, digit_val, digit_val_exec, is_digit_char, is_digit_exec,
    is_word_char, is_word_exec, lemma_digit_char_of, to_char_vec,
};

verus! {

/// The time window a task is active in: inclusive sides, each optional,
/// an absent side meaning unbounded.  `start > due` is possible and simply
/// denotes an empty window; it is never an error.
#[derive(Clone, Copy, Debug, PartialEq, Eq)]
pub struct Agmd {
    /// Inclusive earliest active day.
    pub start: Option<Date>,
    /// Inclusive latest active day.
    pub due: Option<Date>,
}

/// The ten characters starting at `i` have the shape `YYYY-MM-DD`.
pub open spec fn date_shape_at(s: Seq<char>, i: int) -> bool {
    &&& 0 <= i
    &&& i + 10 <= s.len()
    &&& is_digit_char(s[i])
    &&& is_digit_char(s[i + 1])
    &&& is_digit_char(s[i + 2])
    &&& is_digit_char(s[i + 3])
    &&& s[i + 4] == '-'
    &&& is_digit_char(s[i + 5])
    &&& is_digit_char(s[i + 6])
    &&& s[i + 7] == '-'
    &&& is_digit_char(s[i + 8])
    &&& is_digit_char(s[i + 9])
}

pub open spec fn year_at(s: Seq<char>, i: int) -> int {
    1000 * digit_val(s[i]) + 100 * digit_val(s[i + 1]) + 10 * digit_val(s[i + 2]) + digit_val(
        s[i + 3],
    )
}

pub open spec fn month_at(s: Seq<char>, i: int) -> int {
    10 * digit_val(s[i + 5]) + digit_val(s[i + 6])
}

pub open spec fn day_at(s: Seq<char>, i: int) -> int {
    10 * digit_val(s[i + 8]) + digit_val(s[i + 9])
}

/// The ten characters starting at `i` name a real calendar day.
pub open spec fn valid_date_at(s: Seq<char>, i: int) -> bool {
    &&& date_shape_at(s, i)
    &&& valid_date(year_at(s, i), month_at(s, i), day_at(s, i))
}

pub open spec fn date_at(s: Seq<char>, i: int) -> Date {
    Date { year: year_at(s, i) as u16, month: month_at(s, i) as u8, day: day_at(s, i) as u8 }
}

/// Position of the first valid date substring at or after `p`.
pub open spec fn first_date_from(s: Seq<char>, p: int) -> Option<int>
    decreases s.len() - p,
{
    if p + 10 > s.len() {
        None
    } else if valid_date_at(s, p) {
        Some(p)
    } else {
        first_date_from(s, p + 1)
    }
}

pub open spec fn has_eq(s: Seq<char>) -> bool {
    exists|i: int| 0 <= i < s.len() && s[i] == '='
}

/// A non-empty component has the exact shape `key=YYYY-MM-DD` with a word
/// key and a valid date.
pub open spec fn comp_ok(c: Seq<char>) -> bool {
    &&& c.len() >= 12
    &&& (forall|j: int| 0 <= j < c.len() - 11 ==> is_word_char(#[trigger] c[j]))
    &&& c[c.len() - 11] == '='
    &&& valid_date_at(c, c.len() - 10)
}

pub open spec fn comp_date(c: Seq<char>) -> Date {
    date_at(c, c.len() - 10)
}

pub open spec fn comp_is_start(c: Seq<char>) -> bool {
    &&& c.len() == 16
    &&& c[0] == 's'
    &&& c[1] == 't'
    &&& c[2] == 'a'
    &&& c[3] == 'r'
    &&& c[4] == 't'
}

pub open spec fn comp_is_due(c: Seq<char>) -> bool {
    &&& c.len() == 14
    &&& c[0] == 'd'
    &&& c[1] == 'u'
    &&& c[2] == 'e'
}

/// Applies one `;`-delimited component to the interval built so far.
/// Empty components contribute nothing; a malformed one fails the parse.
pub open spec fn kv_apply(c: Seq<char>, st: Option<Date>, du: Option<Date>) -> Option<
    (Option<Date>, Option<Date>),
> {
    if c.len() == 0 {
        Some((st, du))
    } else if comp_ok(c) {
        if comp_is_start(c) {
            Some((Some(comp_date(c)), du))
        } else if comp_is_due(c) {
            Some((st, Some(comp_date(c))))
        } else {
            Some((st, du))
        }
    } else {
        None
    }
}

/// Walks the input from `p`, with the current component starting at `cs`,
/// applying each component as its closing `;` (or the end) is reached.
pub open spec fn kv_scan(s: Seq<char>, p: int, cs: int, st: Option<Date>, du: Option<Date>) -> Option<
    (Option<Date>, Option<Date>),
>
    decreases s.len() - p,
{
    if p >= s.len() {
        kv_apply(s.subrange(cs, s.len() as int), st, du)
    } else if s[p] == ';' {
        match kv_apply(s.subrange(cs, p), st, du) {
            None => None,
            Some(pair) => kv_scan(s, p + 1, p + 1, pair.0, pair.1),
        }
    } else {
        kv_scan(s, p + 1, cs, st, du)
    }
}

/// What `parse_agmd` returns on a given body.
pub open spec fn parse_agmd_spec(s: Seq<char>) -> Option<Agmd> {
    if !has_eq(s) && first_date_from(s, 0) is Some {
        let d = date_at(s, first_date_from(s, 0)->0);
        Some(Agmd { start: Some(d), due: Some(d) })
    } else {
        match kv_scan(s, 0, 0, None, None) {
            None => None,
            Some(pair) => Some(Agmd { start: pair.0, due: pair.1 }),
        }
    }
}

/// Every date the parser hands out is a real calendar day.
pub open spec fn agmd_wf(a: Agmd) -> bool {
    &&& (a.start matches Some(d) ==> d.wf())
    &&& (a.due matches Some(d) ==> d.wf())
}

/// Parses an annotation body into a schedule interval, or reports that the
/// body is malformed.
pub fn parse_agmd(input: &str) -> (r: Option<Agmd>)
    ensures
        r == parse_agmd_spec(input@),
        r matches Some(a) ==> agmd_wf(a),
{
    let v = to_char_vec(input);
    if !contains_eq(&v) {
        match scan_first_date(&v) {
            Some(i) => {
                let d = date_at_exec(&v, i).unwrap();
                return Some(Agmd { start: Some(d), due: Some(d) });
            },
            None => {},
        }
    }
    kv_exec(&v)
}

fn contains_eq(v: &Vec<char>) -> (b: bool)
    ensures
        b == has_eq(v@),
{
    let mut i: usize = 0;
    while i < v.len()
        invariant
            i <= v.len(),
            forall|j: int| 0 <= j < i ==> v@[j] != '=',
        decreases v.len() - i,
    {
        if v[i] == '=' {
            return true;
        }
        i = i + 1;
    }
    false
}

/// Checks for a date of shape `YYYY-MM-DD` at `p` and reads it if it names
/// a real calendar day.
fn date_at_exec(v: &Vec<char>, p: usize) -> (r: Option<Date>)
    requires
        p + 10 <= v@.len(),
    ensures
        r is Some <==> valid_date_at(v@, p as int),
        r is Some ==> r->0 == date_at(v@, p as int) && r->0.wf(),
{
    let n = v.len();
    proof {
        assert(p + 10 <= n);
    }
    let shape = is_digit_exec(v[p]) && is_digit_exec(v[p + 1]) && is_digit_exec(v[p + 2])
        && is_digit_exec(v[p + 3]) && v[p + 4] == '-' && is_digit_exec(v[p + 5]) && is_digit_exec(
        v[p + 6],
    ) && v[p + 7] == '-' && is_digit_exec(v[p + 8]) && is_digit_exec(v[p + 9]);
    if !shape {
        return None;
    }
    let year: u16 = 1000 * (digit_val_exec(v[p]) as u16) + 100 * (digit_val_exec(v[p + 1]) as u16)
        + 10 * (digit_val_exec(v[p + 2]) as u16) + (digit_val_exec(v[p + 3]) as u16);
    let month: u8 = 10 * digit_val_exec(v[p + 5]) + digit_val_exec(v[p + 6]);
    let day: u8 = 10 * digit_val_exec(v[p + 8]) + digit_val_exec(v[p + 9]);
    Date::new(year, month, day)
}

fn scan_first_date(v: &Vec<char>) -> (r: Option<usize>)
    ensures
        match r {
            Some(i) => first_date_from(v@, 0) == Some(i as int) && valid_date_at(v@, i as int),
            None => first_date_from(v@, 0) is None,
        },
{
    if v.len() < 10 {
        return None;
    }
    let mut p: usize = 0;
    while p <= v.len() - 10
        invariant
            v@.len() >= 10,
            first_date_from(v@, 0) == first_date_from(v@, p as int),
            p <= v@.len() - 9,
        decreases v.len() - p,
    {
        if date_at_exec(v, p).is_some() {
            return Some(p);
        }
        p = p + 1;
    }
    None
}

/// Applies the component `v[a..b]` to the interval built so far.
fn kv_apply_exec(v: &Vec<char>, a: usize, b: usize, st: Option<Date>, du: Option<Date>) -> (r:
    Option<(Option<Date>, Option<Date>)>)
    requires
        a <= b <= v@.len(),
        st matches Some(d) ==> d.wf(),
        du matches Some(d) ==> d.wf(),
    ensures
        r == kv_apply(v@.subrange(a as int, b as int), st, du),
        r matches Some(pair) ==> {
            &&& (pair.0 matches Some(d) ==> d.wf())
            &&& (pair.1 matches Some(d) ==> d.wf())
        },
{
    let ghost c = v@.subrange(a as int, b as int);
    let n = b - a;
    if n == 0 {
        return Some((st, du));
    }
    if n < 12 {
        return None;
    }
    if v[b - 11] != '=' {
        return None;
    }
    let mut j: usize = 0;
    while j < n - 11
        invariant
            a + n <= v@.len(),
            n == b - a,
            n >= 12,
            j <= n - 11,
            forall|k: int| 0 <= k < j ==> is_word_char(#[trigger] c[k]),
            c == v@.subrange(a as int, b as int),
        decreases n - 11 - j,
    {
        if !is_word_exec(v[a + j]) {
            assert(c[j as int] == v@[a + j]);
            return None;
        }
        assert(c[j as int] == v@[a + j]);
        j = j + 1;
    }
    let date = match date_at_exec(v, b - 10) {
        Some(d) => d,
        None => {
            proof {
                assert(!valid_date_at(c, c.len() - 10)) by {
                    assert(forall|k: int|
                        0 <= k < 10 ==> #[trigger] c[c.len() - 10 + k] == v@[b - 10 + k]);
                }
            }
            return None;
        },
    };
    proof {
        assert(valid_date_at(c, c.len() - 10) && date == date_at(c, c.len() - 10)) by {
            assert(forall|k: int| 0 <= k < 10 ==> #[trigger] c[c.len() - 10 + k] == v@[b - 10 + k]);
        }
    }
    if n == 16 && v[a] == 's' && v[a + 1] == 't' && v[a + 2] == 'a' && v[a + 3] == 'r' && v[a + 4]
        == 't' {
        Some((Some(date), du))
    } else if n == 14 && v[a] == 'd' && v[a + 1] == 'u' && v[a + 2] == 'e' {
        Some((st, Some(date)))
    } else {
        Some((st, du))
    }
}

fn kv_exec(v: &Vec<char>) -> (r: Option<Agmd>)
    ensures
        r == match kv_scan(v@, 0, 0, None, None) {
            None => None::<Agmd>,
            Some(pair) => Some(Agmd { start: pair.0, due: pair.1 }),
        },
        r matches Some(a) ==> agmd_wf(a),
{
    let mut p: usize = 0;
    let mut cs: usize = 0;
    let mut st: Option<Date> = None;
    let mut du: Option<Date> = None;
    while p < v.len()
        invariant
            cs <= p <= v@.len(),
            kv_scan(v@, 0, 0, None, None) == kv_scan(v@, p as int, cs as int, st, du),
            st matches Some(d) ==> d.wf(),
            du matches Some(d) ==> d.wf(),
        decreases v.len() - p,
    {
        if v[p] == ';' {
            match kv_apply_exec(v, cs, p, st, du) {
                None => {
                    return None;
                },
                Some(pair) => {
                    st = pair.0;
                    du = pair.1;
                },
            }
            p = p + 1;
            cs = p;
        } else {
            p = p + 1;
        }
    }
    match kv_apply_exec(v, cs, v.len(), st, du) {
        None => None,
        Some(pair) => Some(Agmd { start: pair.0, due: pair.1 }),
    }
}

/// The ten characters `YYYY-MM-DD` of a date.
pub open spec fn render_date_spec(d: Date) -> Seq<char> {
    let y = d.year as int;
    let m = d.month as int;
    let dd = d.day as int;
    seq![
        digit_char_of(y / 1000),
        digit_char_of((y / 100) % 10),
        digit_char_of((y / 10) % 10),
        digit_char_of(y % 10),
        '-',
        digit_char_of(m / 10),
        digit_char_of(m % 10),
        '-',
        digit_char_of(dd / 10),
        digit_char_of(dd % 10),
    ]
}

/// The annotation body a schedule interval displays as: a bare date for a
/// single-day interval, `key=date` components otherwise, and nothing for an
/// absent or fully open schedule.
pub open spec fn agmd_body_spec(a: Option<Agmd>) -> Seq<char> {
    match a {
        None => Seq::<char>::empty(),
        Some(ag) => match (ag.start, ag.due) {
            (None, None) => Seq::<char>::empty(),
            (None, Some(du)) => seq!['d', 'u', 'e', '='] + render_date_spec(du),
            (Some(st), None) => seq!['s', 't', 'a', 'r', 't', '='] + render_date_spec(st),
            (Some(st), Some(du)) => {
                if st == du {
                    render_date_spec(st)
                } else {
                    seq!['s', 't', 'a', 'r', 't', '='] + render_date_spec(st) + seq![';']
                        + seq!['d', 'u', 'e', '='] + render_date_spec(du)
                }
            },
        },
    }
}

/// Appends the `YYYY-MM-DD` form of a date.
pub fn push_date(out: &mut String, d: &Date)
    requires
        d.wf(),
    ensures
        final(out)@ == old(out)@ + render_date_spec(*d),
{
    let y = d.year;
    out.append(digit_str((y / 1000) as u8));
    out.append(digit_str(((y / 100) % 10) as u8));
    out.append(digit_str(((y / 10) % 10) as u8));
    out.append(digit_str((y % 10) as u8));
    proof {
        reveal_strlit("-");
    }
    out.append("-");
    let m = d.month;
    out.append(digit_str(m / 10));
    out.append(digit_str(m % 10));
    out.append("-");
    let dd = d.day;
    out.append(digit_str(dd / 10));
    out.append(digit_str(dd % 10));
    proof {
        assert(("-")@ =~= seq!['-']);
        assert(final(out)@ =~= old(out)@ + render_date_spec(*d));
    }
}

/// Appends the display body of a schedule interval.
#[verifier::rlimit(100)]
#[verifier::spinoff_prover]
pub fn push_agmd_body(out: &mut String, a: &Option<Agmd>)
    requires
        (*a) matches Some(ag) ==> agmd_wf(ag),
    ensures
        final(out)@ == old(out)@ + agmd_body_spec(*a),
{
    proof {
        reveal_strlit("start=");
        reveal_strlit("due=");
        reveal_strlit(";");
        assert(("start=")@ =~= seq!['s', 't', 'a', 'r', 't', '=']);
        assert(("due=")@ =~= seq!['d', 'u', 'e', '=']);
        assert((";")@ =~= seq![';']);
    }
    match a {
        None => {},
        Some(ag) => {
            match (ag.start, ag.due) {
                (None, None) => {},
                (None, Some(du)) => {
                    out.append("due=");
                    push_date(out, &du);
                    proof {
                        assert(final(out)@ =~= old(out)@ + agmd_body_spec(*a));
                    }
                },
                (Some(st), None) => {
                    out.append("start=");
                    push_date(out, &st);
                    proof {
                        assert(final(out)@ =~= old(out)@ + agmd_body_spec(*a));
                    }
                },
                (Some(st), Some(du)) => {
                    if st.year == du.year && st.month == du.month && st.day == du.day {
                        push_date(out, &st);
                    } else {
                        out.append("start=");
                        push_date(out, &st);
                        out.append(";");
                        out.append("due=");
                        push_date(out, &du);
                    }
                    proof {
                        assert(final(out)@ =~= old(out)@ + agmd_body_spec(*a));
                    }
                },
            }
        },
    }
}

/// A rendered date read back from position `i` gives the date itself.
#[verifier::rlimit(100)]
#[verifier::spinoff_prover]
pub proof fn lemma_date_at_render(s: Seq<char>, i: int, d: Date)
    requires
        d.wf(),
        0 <= i,
        i + 10 <= s.len(),
        s.subrange(i, i + 10) == render_date_spec(d),
    ensures
        valid_date_at(s, i),
        date_at(s, i) == d,
{
    let r = render_date_spec(d);
    assert forall|k: int| 0 <= k < 10 implies s[i + k] == r[k] by {
        assert(s.subrange(i, i + 10)[k] == s[i + k]);
    }
    let y = d.year as int;
    let m = d.month as int;
    let dd = d.day as int;
    lemma_digit_char_of(y / 1000);
    lemma_digit_char_of((y / 100) % 10);
    lemma_digit_char_of((y / 10) % 10);
    lemma_digit_char_of(y % 10);
    lemma_digit_char_of(m / 10);
    lemma_digit_char_of(m % 10);
    lemma_digit_char_of(dd / 10);
    lemma_digit_char_of(dd % 10);
    assert(year_at(s, i) == 1000 * (y / 1000) + 100 * ((y / 100) % 10) + 10 * ((y / 10) % 10) + y
        % 10);
    assert(1000 * (y / 1000) + 100 * ((y / 100) % 10) + 10 * ((y / 10) % 10) + y % 10 == y);
    assert(month_at(s, i) == 10 * (m / 10) + m % 10);
    assert(day_at(s, i) == 10 * (dd / 10) + dd % 10);
}

/// No character of a rendered date is `=`, `;` or any other non-date sign.
proof fn lemma_render_date_chars(d: Date)
    requires
        d.wf(),
    ensures
        forall|k: int|
            0 <= k < 10 ==> (is_digit_char(#[trigger] render_date_spec(d)[k])
                || render_date_spec(d)[k] == '-'),
        render_date_spec(d).len() == 10,
{
    let y = d.year as int;
    let m = d.month as int;
    let dd = d.day as int;
    lemma_digit_char_of(y / 1000);
    lemma_digit_char_of((y / 100) % 10);
    lemma_digit_char_of((y / 10) % 10);
    lemma_digit_char_of(y % 10);
    lemma_digit_char_of(m / 10);
    lemma_digit_char_of(m % 10);
    lemma_digit_char_of(dd / 10);
    lemma_digit_char_of(dd % 10);
}

/// A valid date somewhere guarantees the scan finds one, no later than it.
pub proof fn lemma_first_date_found(s: Seq<char>, p: int, i: int)
    requires
        0 <= p <= i,
        valid_date_at(s, i),
    ensures
        first_date_from(s, p) is Some,
        valid_date_at(s, first_date_from(s, p)->0),
        first_date_from(s, p)->0 <= i,
    decreases i - p,
{
    if !valid_date_at(s, p) {
        lemma_first_date_found(s, p + 1, i);
    }
}

/// The scan returns the first valid position exactly.
pub proof fn lemma_first_date_exact(s: Seq<char>, p: int, i: int)
    requires
        0 <= p <= i,
        valid_date_at(s, i),
        forall|j: int| p <= j < i ==> !valid_date_at(s, j),
    ensures
        first_date_from(s, p) == Some(i),
    decreases i - p,
{
    if p < i {
        lemma_first_date_exact(s, p + 1, i);
    }
}

/// A body without `=` that embeds a valid date anywhere parses to a
/// single-day interval, and to the day at the first valid position.
pub proof fn lemma_bare_date(s: Seq<char>, i: int)
    requires
        !has_eq(s),
        valid_date_at(s, i),
    ensures
        parse_agmd_spec(s) matches Some(a) && a.start is Some && a.start == a.due,
        (forall|j: int| 0 <= j < i ==> !valid_date_at(s, j)) ==> parse_agmd_spec(s) == Some(
            Agmd { start: Some(date_at(s, i)), due: Some(date_at(s, i)) },
        ),
{
    lemma_first_date_found(s, 0, i);
    if forall|j: int| 0 <= j < i ==> !valid_date_at(s, j) {
        lemma_first_date_exact(s, 0, i);
    }
}

/// A semicolon-free tail is one closing component.
proof fn lemma_kv_scan_skip(s: Seq<char>, p: int, cs: int, st: Option<Date>, du: Option<Date>)
    requires
        0 <= cs <= p <= s.len(),
        forall|j: int| p <= j < s.len() ==> s[j] != ';',
    ensures
        kv_scan(s, p, cs, st, du) == kv_apply(s.subrange(cs, s.len() as int), st, du),
    decreases s.len() - p,
{
    if p < s.len() {
        lemma_kv_scan_skip(s, p + 1, cs, st, du);
    }
}

/// Scanning up to the next semicolon applies exactly the component before it.
proof fn lemma_kv_scan_semi(
    s: Seq<char>,
    p: int,
    cs: int,
    st: Option<Date>,
    du: Option<Date>,
    q: int,
)
    requires
        0 <= cs <= p <= q < s.len(),
        s[q] == ';',
        forall|j: int| p <= j < q ==> s[j] != ';',
    ensures
        kv_scan(s, p, cs, st, du) == match kv_apply(s.subrange(cs, q), st, du) {
            None => None::<(Option<Date>, Option<Date>)>,
            Some(pair) => kv_scan(s, q + 1, q + 1, pair.0, pair.1),
        },
    decreases q - p,
{
    if p < q {
        lemma_kv_scan_semi(s, p + 1, cs, st, du, q);
    }
}

/// A `start=` component applies as setting the start side.
proof fn lemma_comp_start(c: Seq<char>, st: Date)
    requires
        st.wf(),
        c == seq!['s', 't', 'a', 'r', 't', '='] + render_date_spec(st),
    ensures
        forall|st0: Option<Date>, du0: Option<Date>|
            #[trigger] kv_apply(c, st0, du0) == Some((Some(st), du0)),
        forall|j: int| 0 <= j < c.len() ==> c[j] != ';',
        c[5] == '=',
        c.len() == 16,
{
    lemma_render_date_chars(st);
    assert(c.len() == 16);
    assert(c.subrange(6, 16) =~= render_date_spec(st));
    lemma_date_at_render(c, 6, st);
    assert forall|j: int| 0 <= j < c.len() - 11 implies is_word_char(#[trigger] c[j]) by {
        assert('s' as u32 == 115 && 't' as u32 == 116 && 'a' as u32 == 97 && 'r' as u32 == 114);
    }
    assert(comp_ok(c) && comp_is_start(c) && !comp_is_due(c) && comp_date(c) == st);
    assert forall|j: int| 0 <= j < c.len() implies c[j] != ';' by {
        if j < 6 {
            assert(';' as u32 == 59 && 's' as u32 == 115 && 't' as u32 == 116 && 'a' as u32 == 97
                && 'r' as u32 == 114 && '=' as u32 == 61);
        } else {
            assert(c[j] == render_date_spec(st)[j - 6]);
            assert(is_digit_char(c[j]) || c[j] == '-');
            assert(';' as u32 == 59 && '-' as u32 == 45);
        }
    }
}

/// A `due=` component applies as setting the due side.
proof fn lemma_comp_due(c: Seq<char>, du: Date)
    requires
        du.wf(),
        c == seq!['d', 'u', 'e', '='] + render_date_spec(du),
    ensures
        forall|st0: Option<Date>, du0: Option<Date>|
            #[trigger] kv_apply(c, st0, du0) == Some((st0, Some(du))),
        forall|j: int| 0 <= j < c.len() ==> c[j] != ';',
        c[3] == '=',
        c.len() == 14,
{
    lemma_render_date_chars(du);
    assert(c.len() == 14);
    assert(c.subrange(4, 14) =~= render_date_spec(du));
    lemma_date_at_render(c, 4, du);
    assert forall|j: int| 0 <= j < c.len() - 11 implies is_word_char(#[trigger] c[j]) by {
        assert('d' as u32 == 100 && 'u' as u32 == 117 && 'e' as u32 == 101);
    }
    assert(comp_ok(c) && comp_is_due(c) && !comp_is_start(c) && comp_date(c) == du);
    assert forall|j: int| 0 <= j < c.len() implies c[j] != ';' by {
        if j < 4 {
            assert(';' as u32 == 59 && 'd' as u32 == 100 && 'u' as u32 == 117 && 'e' as u32 == 101
                && '=' as u32 == 61);
        } else {
            assert(c[j] == render_date_spec(du)[j - 4]);
            assert(is_digit_char(c[j]) || c[j] == '-');
            assert(';' as u32 == 59 && '-' as u32 == 45);
        }
    }
}

/// Round trip: parsing the rendered body of a schedule interval yields the
/// interval again, for the bare-date and the key=value form alike.
#[verifier::rlimit(100)]
#[verifier::spinoff_prover]
pub proof fn lemma_body_round_trip(a: Agmd)
    requires
        agmd_wf(a),
    ensures
        parse_agmd_spec(agmd_body_spec(Some(a))) == Some(a),
{
    let body = agmd_body_spec(Some(a));
    match (a.start, a.due) {
        (None, None) => {
            assert(body.len() == 0);
            assert(!has_eq(body));
            assert(body.subrange(0, 0) =~= body);
            assert(kv_scan(body, 0, 0, None, None) == Some((None::<Date>, None::<Date>)));
        },
        (Some(st), None) => {
            let c = seq!['s', 't', 'a', 'r', 't', '='] + render_date_spec(st);
            assert(body == c);
            lemma_comp_start(c, st);
            assert(has_eq(body)) by {
                assert(body[5] == '=');
            }
            lemma_kv_scan_skip(body, 0, 0, None, None);
            assert(body.subrange(0, body.len() as int) =~= body);
            assert(kv_scan(body, 0, 0, None, None) == Some((Some(st), None::<Date>)));
        },
        (None, Some(du)) => {
            let c = seq!['d', 'u', 'e', '='] + render_date_spec(du);
            assert(body == c);
            lemma_comp_due(c, du);
            assert(has_eq(body)) by {
                assert(body[3] == '=');
            }
            lemma_kv_scan_skip(body, 0, 0, None, None);
            assert(body.subrange(0, body.len() as int) =~= body);
            assert(kv_scan(body, 0, 0, None, None) == Some((None::<Date>, Some(du))));
        },
        (Some(st), Some(du)) => {
            if st == du {
                let r = render_date_spec(st);
                assert(body == r);
                lemma_render_date_chars(st);
                assert forall|j: int| 0 <= j < body.len() implies body[j] != '=' by {
                    assert(is_digit_char(body[j]) || body[j] == '-');
                    assert('=' as u32 == 61 && '-' as u32 == 45);
                }
                assert(!has_eq(body));
                assert(body.subrange(0, 10) =~= r);
                lemma_date_at_render(body, 0, st);
                assert(first_date_from(body, 0) == Some(0int));
                assert(date_at(body, 0) == st);
            } else {
                let c1 = seq!['s', 't', 'a', 'r', 't', '='] + render_date_spec(st);
                let c2 = seq!['d', 'u', 'e', '='] + render_date_spec(du);
                assert(body =~= c1 + seq![';'] + c2);
                lemma_comp_start(c1, st);
                lemma_comp_due(c2, du);
                assert(has_eq(body)) by {
                    assert(body[5] == c1[5]);
                    assert(body[5] == '=');
                }
                assert(body.len() == 31);
                assert(body[16] == ';');
                assert forall|j: int| 0 <= j < 16 implies body[j] != ';' by {
                    assert(body[j] == c1[j]);
                }
                assert forall|j: int| 17 <= j < 31 implies body[j] != ';' by {
                    assert(body[j] == c2[j - 17]);
                }
                lemma_kv_scan_semi(body, 0, 0, None, None, 16);
                assert(body.subrange(0, 16) =~= c1);
                assert(kv_apply(body.subrange(0, 16), None, None) == Some(
                    (Some(st), None::<Date>),
                ));
                lemma_kv_scan_skip(body, 17, 17, Some(st), None);
                assert(body.subrange(17, 31) =~= c2);
                assert(kv_apply(body.subrange(17, 31), Some(st), None) == Some(
                    (Some(st), Some(du)),
                ));
                assert(kv_scan(body, 0, 0, None, None) == Some((Some(st), Some(du))));
            }
        },
    }
}

} // verus!
