//! Extraction of a `Metrics` record from the text that a wrk run prints.
//!
//! Each field has a locator: a small pattern that is searched for from the
//! start of the text, the first position where it matches winning. A field
//! whose pattern matches nowhere takes its default: zero for a latency, the
//! empty string for the others.
use vstd::prelude::*;
use crate::text::{
    chars_of,
    has_lit,
    has_lit_exec,
    lemma_skip_digits,
    push_range,
    skip_digits,
    skip_digits_exec,
    skip_spaces,
    skip_spaces_exec,
};
use crate::units::{TimeUnit, clamp_u64, ms_units, scaled_magnitude};

verus! {

/// Latencies in ten-thousandths of a millisecond (a value of 8143 is
/// 0.8143 ms). A percentile of zero means that the run reported none.
#[derive(Clone, Copy, Debug, PartialEq, Eq, Structural)]
pub struct Latency {
    pub avg: u64,
    pub stdev: u64,
    pub max: u64,
    pub p50: u64,
    pub p75: u64,
    pub p90: u64,
    pub p99: u64,
}

#[derive(Debug)]
pub struct Request {
    /// Requests served, as the run printed it.
    pub total: String,
    /// Requests per second, as the run printed it.
    pub req_per_sec: String,
}

#[derive(Debug)]
pub struct Transfer {
    /// Bytes read, with its unit and no space before it (`1.95GB`).
    pub total: String,
    /// Bytes per second, with its unit and no space before it (`66.26MB`).
    pub rate: String,
}

#[derive(Debug)]
pub struct Metrics {
    pub latency: Latency,
    pub request: Request,
    pub transfer: Transfer,
}

#[derive(Clone, Copy, Debug, PartialEq, Eq, Structural)]
pub enum MetricsError {
    ParseError,
}

/// What a `Metrics` holds, with its strings as character sequences.
pub struct MetricsView {
    pub latency: Latency,
    pub total: Seq<char>,
    pub req_per_sec: Seq<char>,
    pub data_read: Seq<char>,
    pub rate: Seq<char>,
}

impl View for Metrics {
    type V = MetricsView;

    open spec fn view(&self) -> MetricsView {
        MetricsView {
            latency: self.latency,
            total: self.request.total@,
            req_per_sec: self.request.req_per_sec@,
            data_read: self.transfer.total@,
            rate: self.transfer.rate@,
        }
    }
}

// ---- the grammar ----

/// A decimal `digits.digits` at `i`: the position of its point and its end.
pub open spec fn decimal_at(s: Seq<char>, i: int) -> Option<(int, int)> {
    let a = skip_digits(s, i);
    if 0 <= i && a > i && a < s.len() && s[a] == '.' {
        let b = skip_digits(s, a + 1);
        if b > a + 1 {
            Some((a, b))
        } else {
            None
        }
    } else {
        None
    }
}

/// A time unit suffix at `i`: `us`, `ms` or `s`, tried in that order.
pub open spec fn unit_at(s: Seq<char>, i: int) -> Option<(TimeUnit, int)> {
    if has_lit(s, i, "us"@) {
        Some((TimeUnit::Micros, i + 2))
    } else if has_lit(s, i, "ms"@) {
        Some((TimeUnit::Millis, i + 2))
    } else if has_lit(s, i, "s"@) {
        Some((TimeUnit::Secs, i + 1))
    } else {
        None
    }
}

/// A latency (decimal and time unit) at `i`: its value in ten-thousandths of
/// a millisecond, and its end.
pub open spec fn latency_at(s: Seq<char>, i: int) -> Option<(nat, int)> {
    match decimal_at(s, i) {
        Some((a, b)) => match unit_at(s, b) {
            Some((u, e)) => Some((ms_units(s.subrange(i, a), s.subrange(a + 1, b), u), e)),
            None => None,
        },
        None => None,
    }
}

/// At least one whitespace character at `i`, then a latency.
pub open spec fn spaced_latency(s: Seq<char>, i: int) -> Option<(nat, int)> {
    let j = skip_spaces(s, i);
    if j > i {
        latency_at(s, j)
    } else {
        None
    }
}

/// Whitespace, `label`, whitespace and a latency, from `i`.
pub open spec fn labeled_latency(s: Seq<char>, i: int, label: Seq<char>) -> Option<(nat, int)> {
    let j = skip_spaces(s, i);
    if j > i && has_lit(s, j, label) {
        spaced_latency(s, j + label.len())
    } else {
        None
    }
}

/// `Latency` and three spaced latencies at `i`: average, deviation, maximum.
pub open spec fn stats_at(s: Seq<char>, i: int) -> Option<(nat, nat, nat)> {
    if has_lit(s, i, "Latency"@) {
        match spaced_latency(s, i + 7) {
            Some((a, e1)) => match spaced_latency(s, e1) {
                Some((b, e2)) => match spaced_latency(s, e2) {
                    Some((c, _e3)) => Some((a, b, c)),
                    None => None,
                },
                None => None,
            },
            None => None,
        }
    } else {
        None
    }
}

/// `Latency Distribution` and the latencies labelled `50%`, `75%`, `90%` and
/// `99%` at `i`.
pub open spec fn percentiles_at(s: Seq<char>, i: int) -> Option<(nat, nat, nat, nat)> {
    if has_lit(s, i, "Latency Distribution"@) {
        match labeled_latency(s, i + 20, "50%"@) {
            Some((a, e1)) => match labeled_latency(s, e1, "75%"@) {
                Some((b, e2)) => match labeled_latency(s, e2, "90%"@) {
                    Some((c, e3)) => match labeled_latency(s, e3, "99%"@) {
                        Some((d, _e4)) => Some((a, b, c, d)),
                        None => None,
                    },
                    None => None,
                },
                None => None,
            },
            None => None,
        }
    } else {
        None
    }
}

/// Digits followed by ` requests in` at `i`: the digits.
pub open spec fn requests_at(s: Seq<char>, i: int) -> Option<Seq<char>> {
    let a = skip_digits(s, i);
    if 0 <= i && a > i && has_lit(s, a, " requests in"@) {
        Some(s.subrange(i, a))
    } else {
        None
    }
}

/// `Requests/sec:`, whitespace and a decimal at `i`: the decimal.
pub open spec fn rate_of_requests_at(s: Seq<char>, i: int) -> Option<Seq<char>> {
    let j = skip_spaces(s, i + 13);
    if has_lit(s, i, "Requests/sec:"@) && j > i + 13 {
        match decimal_at(s, j) {
            Some((_a, b)) => Some(s.subrange(j, b)),
            None => None,
        }
    } else {
        None
    }
}

pub open spec fn is_size_prefix(c: char) -> bool {
    c == 'K' || c == 'M' || c == 'G'
}

/// A size at `i`: a decimal, optional whitespace, an optional `K`, `M` or `G`
/// and `B`. Gives the size without the whitespace, and its end.
pub open spec fn size_at(s: Seq<char>, i: int) -> Option<(Seq<char>, int)> {
    match decimal_at(s, i) {
        Some((_a, b)) => {
            let c = skip_spaces(s, b);
            let p = if c < s.len() && is_size_prefix(s[c]) {
                c + 1
            } else {
                c
            };
            if p < s.len() && s[p] == 'B' {
                Some((s.subrange(i, b) + s.subrange(c, p + 1), p + 1))
            } else {
                None
            }
        },
        None => None,
    }
}

/// `,`, optional whitespace, a size, whitespace and `read` at `i`: the size.
pub open spec fn data_read_at(s: Seq<char>, i: int) -> Option<Seq<char>> {
    if 0 <= i < s.len() && s[i] == ',' {
        match size_at(s, skip_spaces(s, i + 1)) {
            Some((v, e)) => {
                let k = skip_spaces(s, e);
                if k > e && has_lit(s, k, "read"@) {
                    Some(v)
                } else {
                    None
                }
            },
            None => None,
        }
    } else {
        None
    }
}

/// `Transfer/sec:`, whitespace and a size at `i`: the size.
pub open spec fn transfer_rate_at(s: Seq<char>, i: int) -> Option<Seq<char>> {
    let j = skip_spaces(s, i + 13);
    if has_lit(s, i, "Transfer/sec:"@) && j > i + 13 {
        match size_at(s, j) {
            Some((v, _e)) => Some(v),
            None => None,
        }
    } else {
        None
    }
}

/// The fields that a locator finds.
#[derive(Clone, Copy, Debug, PartialEq, Eq, Structural)]
pub enum Field {
    Stats,
    Percentiles,
    Requests,
    RequestRate,
    DataRead,
    TransferRate,
}

/// The locator of `f` matches at `i`.
pub open spec fn found_at(s: Seq<char>, i: int, f: Field) -> bool {
    match f {
        Field::Stats => stats_at(s, i) is Some,
        Field::Percentiles => percentiles_at(s, i) is Some,
        Field::Requests => requests_at(s, i) is Some,
        Field::RequestRate => rate_of_requests_at(s, i) is Some,
        Field::DataRead => data_read_at(s, i) is Some,
        Field::TransferRate => transfer_rate_at(s, i) is Some,
    }
}

/// The first position at or after `i` where the locator of `f` matches.
pub open spec fn first_at(s: Seq<char>, i: int, f: Field) -> Option<int>
    decreases s.len() - i,
{
    if 0 <= i < s.len() {
        if found_at(s, i, f) {
            Some(i)
        } else {
            first_at(s, i + 1, f)
        }
    } else {
        None
    }
}

/// Average, deviation and maximum latency of `s`, zero where not found.
pub open spec fn stats_of(s: Seq<char>) -> (nat, nat, nat) {
    match first_at(s, 0, Field::Stats) {
        Some(p) => stats_at(s, p)->Some_0,
        None => (0, 0, 0),
    }
}

/// The four percentile latencies of `s`, zero where not found.
pub open spec fn percentiles_of(s: Seq<char>) -> (nat, nat, nat, nat) {
    match first_at(s, 0, Field::Percentiles) {
        Some(p) => percentiles_at(s, p)->Some_0,
        None => (0, 0, 0, 0),
    }
}

/// The text found by the locator of `f`, which finds text, or the empty text.
pub open spec fn text_of(s: Seq<char>, f: Field) -> Seq<char> {
    match first_at(s, 0, f) {
        Some(p) => match f {
            Field::Requests => requests_at(s, p)->Some_0,
            Field::RequestRate => rate_of_requests_at(s, p)->Some_0,
            Field::DataRead => data_read_at(s, p)->Some_0,
            _ => transfer_rate_at(s, p)->Some_0,
        },
        None => Seq::empty(),
    }
}

/// The record that the text `s` describes.
pub open spec fn metrics_of(s: Seq<char>) -> MetricsView {
    let (avg, stdev, max) = stats_of(s);
    let (p50, p75, p90, p99) = percentiles_of(s);
    MetricsView {
        latency: Latency {
            avg: clamp_u64(avg),
            stdev: clamp_u64(stdev),
            max: clamp_u64(max),
            p50: clamp_u64(p50),
            p75: clamp_u64(p75),
            p90: clamp_u64(p90),
            p99: clamp_u64(p99),
        },
        total: text_of(s, Field::Requests),
        req_per_sec: text_of(s, Field::RequestRate),
        data_read: text_of(s, Field::DataRead),
        rate: text_of(s, Field::TransferRate),
    }
}

// ---- the scanners ----

/// The literal texts that the locators look for.
pub(crate) struct Markers {
    latency: Vec<char>,
    distribution: Vec<char>,
    p50: Vec<char>,
    p75: Vec<char>,
    p90: Vec<char>,
    p99: Vec<char>,
    requests_in: Vec<char>,
    requests_sec: Vec<char>,
    read: Vec<char>,
    transfer_sec: Vec<char>,
    us: Vec<char>,
    ms: Vec<char>,
    secs: Vec<char>,
}

impl Markers {
    pub(crate) closed spec fn wf(&self) -> bool {
        &&& self.latency@ == "Latency"@
        &&& self.distribution@ == "Latency Distribution"@
        &&& self.p50@ == "50%"@
        &&& self.p75@ == "75%"@
        &&& self.p90@ == "90%"@
        &&& self.p99@ == "99%"@
        &&& self.requests_in@ == " requests in"@
        &&& self.requests_sec@ == "Requests/sec:"@
        &&& self.read@ == "read"@
        &&& self.transfer_sec@ == "Transfer/sec:"@
        &&& self.us@ == "us"@
        &&& self.ms@ == "ms"@
        &&& self.secs@ == "s"@
    }

    pub(crate) fn new() -> (r: Markers)
        ensures
            r.wf(),
    {
        Markers {
            latency: chars_of("Latency"),
            distribution: chars_of("Latency Distribution"),
            p50: chars_of("50%"),
            p75: chars_of("75%"),
            p90: chars_of("90%"),
            p99: chars_of("99%"),
            requests_in: chars_of(" requests in"),
            requests_sec: chars_of("Requests/sec:"),
            read: chars_of("read"),
            transfer_sec: chars_of("Transfer/sec:"),
            us: chars_of("us"),
            ms: chars_of("ms"),
            secs: chars_of("s"),
        }
    }
}

fn decimal_exec(s: &Vec<char>, i: usize) -> (r: Option<(usize, usize)>)
    requires
        i <= s.len(),
    ensures
        match decimal_at(s@, i as int) {
            Some((a, b)) => i < a < b <= s.len() && r == Some((a as usize, b as usize)),
            None => r is None,
        },
        r matches Some((a, b)) ==> i < a < b <= s.len(),
{
    let a = skip_digits_exec(s, i);
    if a > i && a < s.len() && s[a] == '.' {
        let b = skip_digits_exec(s, a + 1);
        if b > a + 1 {
            Some((a, b))
        } else {
            None
        }
    } else {
        None
    }
}

fn unit_exec(s: &Vec<char>, i: usize, mk: &Markers) -> (r: Option<(TimeUnit, usize)>)
    requires
        i <= s.len(),
        mk.wf(),
    ensures
        match unit_at(s@, i as int) {
            Some((u, e)) => i < e <= s.len() && r == Some((u, e as usize)),
            None => r is None,
        },
        r matches Some((_u, e)) ==> e <= s.len(),
{
    proof {
        reveal_strlit("us");
        reveal_strlit("ms");
        reveal_strlit("s");
    }
    if has_lit_exec(s, i, &mk.us) {
        Some((TimeUnit::Micros, i + 2))
    } else if has_lit_exec(s, i, &mk.ms) {
        Some((TimeUnit::Millis, i + 2))
    } else if has_lit_exec(s, i, &mk.secs) {
        Some((TimeUnit::Secs, i + 1))
    } else {
        None
    }
}

fn latency_exec(s: &Vec<char>, i: usize, mk: &Markers) -> (r: Option<(u64, usize)>)
    requires
        i <= s.len(),
        mk.wf(),
    ensures
        match latency_at(s@, i as int) {
            Some((v, e)) => i < e <= s.len() && r == Some((clamp_u64(v), e as usize)),
            None => r is None,
        },
        r matches Some((_v, e)) ==> e <= s.len(),
{
    match decimal_exec(s, i) {
        Some((a, b)) => match unit_exec(s, b, mk) {
            Some((u, e)) => {
                proof {
                    lemma_skip_digits(s@, i as int);
                    lemma_skip_digits(s@, a + 1);
                }
                let v = scaled_magnitude(s, i, a, a + 1, b, u);
                Some((v, e))
            },
            None => None,
        },
        None => None,
    }
}

fn spaced_latency_exec(s: &Vec<char>, i: usize, mk: &Markers) -> (r: Option<(u64, usize)>)
    requires
        i <= s.len(),
        mk.wf(),
    ensures
        match spaced_latency(s@, i as int) {
            Some((v, e)) => i < e <= s.len() && r == Some((clamp_u64(v), e as usize)),
            None => r is None,
        },
        r matches Some((_v, e)) ==> e <= s.len(),
{
    let j = skip_spaces_exec(s, i);
    if j > i {
        latency_exec(s, j, mk)
    } else {
        None
    }
}

fn labeled_latency_exec(s: &Vec<char>, i: usize, label: &Vec<char>, mk: &Markers) -> (r: Option<(u64, usize)>)
    requires
        i <= s.len(),
        mk.wf(),
    ensures
        match labeled_latency(s@, i as int, label@) {
            Some((v, e)) => i < e <= s.len() && r == Some((clamp_u64(v), e as usize)),
            None => r is None,
        },
        r matches Some((_v, e)) ==> e <= s.len(),
{
    let j = skip_spaces_exec(s, i);
    if j > i && has_lit_exec(s, j, label) {
        spaced_latency_exec(s, j + label.len(), mk)
    } else {
        None
    }
}

fn stats_exec(s: &Vec<char>, i: usize, mk: &Markers) -> (r: Option<(u64, u64, u64)>)
    requires
        i <= s.len(),
        mk.wf(),
    ensures
        match stats_at(s@, i as int) {
            Some((a, b, c)) => r == Some((clamp_u64(a), clamp_u64(b), clamp_u64(c))),
            None => r is None,
        },
{
    proof {
        reveal_strlit("Latency");
    }
    if has_lit_exec(s, i, &mk.latency) {
        match spaced_latency_exec(s, i + 7, mk) {
            Some((a, e1)) => match spaced_latency_exec(s, e1, mk) {
                Some((b, e2)) => match spaced_latency_exec(s, e2, mk) {
                    Some((c, _e3)) => Some((a, b, c)),
                    None => None,
                },
                None => None,
            },
            None => None,
        }
    } else {
        None
    }
}

fn percentiles_exec(s: &Vec<char>, i: usize, mk: &Markers) -> (r: Option<(u64, u64, u64, u64)>)
    requires
        i <= s.len(),
        mk.wf(),
    ensures
        match percentiles_at(s@, i as int) {
            Some((a, b, c, d)) => r == Some(
                (clamp_u64(a), clamp_u64(b), clamp_u64(c), clamp_u64(d)),
            ),
            None => r is None,
        },
{
    if has_lit_exec(s, i, &mk.distribution) {
        proof {
            reveal_strlit("Latency Distribution");
        }
        match labeled_latency_exec(s, i + 20, &mk.p50, mk) {
            Some((a, e1)) => match labeled_latency_exec(s, e1, &mk.p75, mk) {
                Some((b, e2)) => match labeled_latency_exec(s, e2, &mk.p90, mk) {
                    Some((c, e3)) => match labeled_latency_exec(s, e3, &mk.p99, mk) {
                        Some((d, _e4)) => Some((a, b, c, d)),
                        None => None,
                    },
                    None => None,
                },
                None => None,
            },
            None => None,
        }
    } else {
        None
    }
}

fn requests_exec(s: &Vec<char>, i: usize, mk: &Markers) -> (r: Option<String>)
    requires
        i <= s.len(),
        mk.wf(),
    ensures
        match requests_at(s@, i as int) {
            Some(v) => r matches Some(t) && t@ == v,
            None => r is None,
        },
{
    let a = skip_digits_exec(s, i);
    if a > i && has_lit_exec(s, a, &mk.requests_in) {
        let mut out = String::new();
        push_range(&mut out, s, i, a);
        assert(out@ =~= s@.subrange(i as int, a as int));
        Some(out)
    } else {
        None
    }
}

fn rate_of_requests_exec(s: &Vec<char>, i: usize, mk: &Markers) -> (r: Option<String>)
    requires
        i <= s.len(),
        mk.wf(),
    ensures
        match rate_of_requests_at(s@, i as int) {
            Some(v) => r matches Some(t) && t@ == v,
            None => r is None,
        },
{
    proof {
        reveal_strlit("Requests/sec:");
    }
    if !has_lit_exec(s, i, &mk.requests_sec) {
        return None;
    }
    let j = skip_spaces_exec(s, i + 13);
    if j > i + 13 {
        match decimal_exec(s, j) {
            Some((_a, b)) => {
                let mut out = String::new();
                push_range(&mut out, s, j, b);
                assert(out@ =~= s@.subrange(j as int, b as int));
                Some(out)
            },
            None => None,
        }
    } else {
        None
    }
}

fn size_exec(s: &Vec<char>, i: usize) -> (r: Option<(String, usize)>)
    requires
        i <= s.len(),
    ensures
        match size_at(s@, i as int) {
            Some((v, e)) => i < e <= s.len() && (r matches Some((t, e2)) && t@ == v && e2 == e),
            None => r is None,
        },
        r matches Some((_t, e)) ==> e <= s.len(),
{
    match decimal_exec(s, i) {
        Some((_a, b)) => {
            let c = skip_spaces_exec(s, b);
            let p = if c < s.len() && (s[c] == 'K' || s[c] == 'M' || s[c] == 'G') {
                c + 1
            } else {
                c
            };
            if p < s.len() && s[p] == 'B' {
                let mut out = String::new();
                push_range(&mut out, s, i, b);
                push_range(&mut out, s, c, p + 1);
                assert(out@ =~= s@.subrange(i as int, b as int) + s@.subrange(c as int, p + 1));
                Some((out, p + 1))
            } else {
                None
            }
        },
        None => None,
    }
}

fn data_read_exec(s: &Vec<char>, i: usize, mk: &Markers) -> (r: Option<String>)
    requires
        i <= s.len(),
        mk.wf(),
    ensures
        match data_read_at(s@, i as int) {
            Some(v) => r matches Some(t) && t@ == v,
            None => r is None,
        },
{
    if i < s.len() && s[i] == ',' {
        let j = skip_spaces_exec(s, i + 1);
        match size_exec(s, j) {
            Some((v, e)) => {
                let k = skip_spaces_exec(s, e);
                if k > e && has_lit_exec(s, k, &mk.read) {
                    Some(v)
                } else {
                    None
                }
            },
            None => None,
        }
    } else {
        None
    }
}

fn transfer_rate_exec(s: &Vec<char>, i: usize, mk: &Markers) -> (r: Option<String>)
    requires
        i <= s.len(),
        mk.wf(),
    ensures
        match transfer_rate_at(s@, i as int) {
            Some(v) => r matches Some(t) && t@ == v,
            None => r is None,
        },
{
    proof {
        reveal_strlit("Transfer/sec:");
    }
    if !has_lit_exec(s, i, &mk.transfer_sec) {
        return None;
    }
    let j = skip_spaces_exec(s, i + 13);
    if j > i + 13 {
        match size_exec(s, j) {
            Some((v, _e)) => Some(v),
            None => None,
        }
    } else {
        None
    }
}

fn found_exec(s: &Vec<char>, i: usize, f: Field, mk: &Markers) -> (r: bool)
    requires
        i <= s.len(),
        mk.wf(),
    ensures
        r == found_at(s@, i as int, f),
{
    match f {
        Field::Stats => stats_exec(s, i, mk).is_some(),
        Field::Percentiles => percentiles_exec(s, i, mk).is_some(),
        Field::Requests => requests_exec(s, i, mk).is_some(),
        Field::RequestRate => rate_of_requests_exec(s, i, mk).is_some(),
        Field::DataRead => data_read_exec(s, i, mk).is_some(),
        Field::TransferRate => transfer_rate_exec(s, i, mk).is_some(),
    }
}

/// The first position where the locator of `f` matches.
fn first_exec(s: &Vec<char>, f: Field, mk: &Markers) -> (r: Option<usize>)
    requires
        mk.wf(),
    ensures
        match first_at(s@, 0, f) {
            Some(p) => 0 <= p < s.len() && r == Some(p as usize) && found_at(s@, p, f),
            None => r is None,
        },
{
    let mut i: usize = 0;
    while i < s.len()
        invariant
            i <= s.len(),
            mk.wf(),
            first_at(s@, 0, f) == first_at(s@, i as int, f),
        decreases s.len() - i,
    {
        if found_exec(s, i, f, mk) {
            return Some(i);
        }
        i = i + 1;
    }
    None
}

impl Metrics {
    /// Reads the record out of the text of a wrk run. Every field that the
    /// text does not hold takes its default, so this never fails.
    pub fn parse(input: &str) -> (r: Result<Metrics, MetricsError>)
        ensures
            r matches Ok(m) && m@ == metrics_of(input@),
    {
        let s = chars_of(input);
        let mk = Markers::new();
        let (avg, stdev, max) = match first_exec(&s, Field::Stats, &mk) {
            Some(p) => stats_exec(&s, p, &mk).unwrap(),
            None => (0, 0, 0),
        };
        let (p50, p75, p90, p99) = match first_exec(&s, Field::Percentiles, &mk) {
            Some(p) => percentiles_exec(&s, p, &mk).unwrap(),
            None => (0, 0, 0, 0),
        };
        let total = match first_exec(&s, Field::Requests, &mk) {
            Some(p) => requests_exec(&s, p, &mk).unwrap(),
            None => String::new(),
        };
        let req_per_sec = match first_exec(&s, Field::RequestRate, &mk) {
            Some(p) => rate_of_requests_exec(&s, p, &mk).unwrap(),
            None => String::new(),
        };
        let data_read = match first_exec(&s, Field::DataRead, &mk) {
            Some(p) => data_read_exec(&s, p, &mk).unwrap(),
            None => String::new(),
        };
        let rate = match first_exec(&s, Field::TransferRate, &mk) {
            Some(p) => transfer_rate_exec(&s, p, &mk).unwrap(),
            None => String::new(),
        };
        proof {
            assert(clamp_u64(0) == 0);
        }
        Ok(
            Metrics {
                latency: Latency { avg, stdev, max, p50, p75, p90, p99 },
                request: Request { total, req_per_sec },
                transfer: Transfer { total: data_read, rate },
            },
        )
    }
}

impl PartialEq for Metrics {
    fn eq(&self, o: &Metrics) -> (r: bool) {
        self.latency == o.latency && self.request.total == o.request.total
            && self.request.req_per_sec == o.request.req_per_sec && self.transfer.total
            == o.transfer.total && self.transfer.rate == o.transfer.rate
    }
}

impl vstd::std_specs::cmp::PartialEqSpecImpl for Metrics {
    open spec fn obeys_eq_spec() -> bool {
        true
    }

    open spec fn eq_spec(&self, o: &Metrics) -> bool {
        self@ == o@
    }
}

impl std::str::FromStr for Metrics {
    type Err = MetricsError;

    fn from_str(input: &str) -> Result<Metrics, MetricsError> {
        Metrics::parse(input)
    }
}

} // verus!
