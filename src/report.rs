//! Rendering of labelled `Metrics` records as one markdown table.
//!
//! The table has a header row, a separator row and one row per report, in
//! the order given, joined by single newlines with none after the last row.
//! Each row has thirteen cells: framework name, average, deviation, the 50th,
//! 75th, 90th and 99th percentile and maximum latency, total requests,
//! requests per second, bytes read, transfer rate and peak memory.
use vstd::prelude::*;
use vstd::string::StringExecFns;
use crate::metrics::{
    Field,
    Metrics,
    data_read_at,
    decimal_at,
    first_at,
    found_at,
    metrics_of,
    rate_of_requests_at,
    requests_at,
    size_at,
    text_of,
};
use crate::text::{lemma_skip_digits, lemma_skip_spaces, skip_spaces};
use crate::text::push_char;

verus! {

/// One framework's results: its name, its peak memory as text (`13.7MB`)
/// and its metrics.
#[derive(Debug)]
pub struct Report {
    pub framework_name: String,
    pub max_memory: String,
    pub metrics: Metrics,
}

pub open spec fn digit_char(d: nat) -> char {
    if d == 0 {
        '0'
    } else if d == 1 {
        '1'
    } else if d == 2 {
        '2'
    } else if d == 3 {
        '3'
    } else if d == 4 {
        '4'
    } else if d == 5 {
        '5'
    } else if d == 6 {
        '6'
    } else if d == 7 {
        '7'
    } else if d == 8 {
        '8'
    } else {
        '9'
    }
}

/// `n` in decimal, without leading zeros.
pub open spec fn nat_text(n: nat) -> Seq<char>
    decreases n,
{
    if n < 10 {
        seq![digit_char(n)]
    } else {
        nat_text(n / 10).push(digit_char(n % 10))
    }
}

/// `v` ten-thousandths of a millisecond, written with four decimals and `ms`.
pub open spec fn ms_text(v: u64) -> Seq<char> {
    nat_text((v / 10000) as nat) + seq![
        '.',
        digit_char(((v / 1000) % 10) as nat),
        digit_char(((v / 100) % 10) as nat),
        digit_char(((v / 10) % 10) as nat),
        digit_char((v % 10) as nat),
        'm',
        's',
    ]
}

/// A percentile cell: `-` where the run reported none (zero).
pub open spec fn percentile_text(v: u64) -> Seq<char> {
    if v > 0 {
        ms_text(v)
    } else {
        seq!['-']
    }
}

/// `tenths` tenths of a megabyte, written with one decimal and `MB`.
pub open spec fn memory_text(tenths: u64) -> Seq<char> {
    nat_text((tenths / 10) as nat) + seq!['.', digit_char((tenths % 10) as nat), 'M', 'B']
}

/// The cells of the row of `r`.
pub open spec fn row_cells(r: Report) -> Seq<Seq<char>> {
    let l = r.metrics.latency;
    seq![
        r.framework_name@,
        ms_text(l.avg),
        ms_text(l.stdev),
        percentile_text(l.p50),
        percentile_text(l.p75),
        percentile_text(l.p90),
        percentile_text(l.p99),
        ms_text(l.max),
        r.metrics.request.total@,
        r.metrics.request.req_per_sec@,
        r.metrics.transfer.total@,
        r.metrics.transfer.rate@,
        r.max_memory@,
    ]
}

pub open spec fn header_cells() -> Seq<Seq<char>> {
    seq![
        " Framework Name "@,
        " Latency.Avg "@,
        " Latency.Stdev "@,
        " Latency.50P "@,
        " Latency.75P "@,
        " Latency.90P "@,
        " Latency.99P "@,
        " Latency.Max "@,
        " Request.Total "@,
        " Request.Req/Sec "@,
        " Transfer.Total "@,
        " Transfer.Rate "@,
        " Max. Memory Usage "@,
    ]
}

pub open spec fn separator_cells() -> Seq<Seq<char>> {
    Seq::new(13, |k: int| "---"@)
}

/// Each cell followed by `|`.
pub open spec fn cells_text(cells: Seq<Seq<char>>) -> Seq<char>
    decreases cells.len(),
{
    if cells.len() == 0 {
        Seq::empty()
    } else {
        cells_text(cells.drop_last()) + cells.last() + seq!['|']
    }
}

/// A table row: `|`, then each cell followed by `|`.
pub open spec fn row_text(cells: Seq<Seq<char>>) -> Seq<char> {
    seq!['|'] + cells_text(cells)
}

/// The lines of the table of `rs`: header, separator, then one row per report.
pub open spec fn table_lines(rs: Seq<Report>) -> Seq<Seq<char>> {
    seq![row_text(header_cells()), row_text(separator_cells())] + Seq::new(
        rs.len(),
        |k: int| row_text(row_cells(rs[k])),
    )
}

/// The lines joined by single newlines.
pub open spec fn join_lines(lines: Seq<Seq<char>>) -> Seq<char>
    decreases lines.len(),
{
    if lines.len() == 0 {
        Seq::empty()
    } else if lines.len() == 1 {
        lines[0]
    } else {
        join_lines(lines.drop_last()) + seq!['\n'] + lines.last()
    }
}

pub open spec fn table_text(rs: Seq<Report>) -> Seq<char> {
    join_lines(table_lines(rs))
}

fn digit_char_exec(d: u64) -> (c: char)
    requires
        d < 10,
    ensures
        c == digit_char(d as nat),
{
    if d == 0 {
        '0'
    } else if d == 1 {
        '1'
    } else if d == 2 {
        '2'
    } else if d == 3 {
        '3'
    } else if d == 4 {
        '4'
    } else if d == 5 {
        '5'
    } else if d == 6 {
        '6'
    } else if d == 7 {
        '7'
    } else if d == 8 {
        '8'
    } else {
        '9'
    }
}

fn push_decimal(out: &mut String, n: u64)
    ensures
        final(out)@ == old(out)@ + nat_text(n as nat),
    decreases n,
{
    if n >= 10 {
        push_decimal(out, n / 10);
    }
    push_char(out, digit_char_exec(n % 10));
    assert(final(out)@ =~= old(out)@ + nat_text(n as nat));
}

fn ms_string(v: u64) -> (r: String)
    ensures
        r@ == ms_text(v),
{
    let mut out = String::new();
    push_decimal(&mut out, v / 10000);
    push_char(&mut out, '.');
    push_char(&mut out, digit_char_exec((v / 1000) % 10));
    push_char(&mut out, digit_char_exec((v / 100) % 10));
    push_char(&mut out, digit_char_exec((v / 10) % 10));
    push_char(&mut out, digit_char_exec(v % 10));
    push_char(&mut out, 'm');
    push_char(&mut out, 's');
    assert(out@ =~= ms_text(v));
    out
}

fn percentile_string(v: u64) -> (r: String)
    ensures
        r@ == percentile_text(v),
{
    if v > 0 {
        ms_string(v)
    } else {
        let mut out = String::new();
        push_char(&mut out, '-');
        assert(out@ =~= seq!['-']);
        out
    }
}

/// The cells of a row, in order.
pub open spec fn view_cells(cells: Seq<String>) -> Seq<Seq<char>> {
    cells.map_values(|c: String| c@)
}

proof fn lemma_cells_text_push(cells: Seq<Seq<char>>, c: Seq<char>)
    ensures
        cells_text(cells.push(c)) == cells_text(cells) + c + seq!['|'],
{
    assert(cells.push(c).drop_last() =~= cells);
}

/// Appends the row made of `cells`.
fn push_row(out: &mut String, cells: &Vec<String>)
    ensures
        final(out)@ == old(out)@ + row_text(view_cells(cells@)),
{
    push_char(out, '|');
    let mut k: usize = 0;
    while k < cells.len()
        invariant
            k <= cells.len(),
            out@ == old(out)@ + row_text(view_cells(cells@.take(k as int))),
        decreases cells.len() - k,
    {
        out.append(cells[k].as_str());
        push_char(out, '|');
        proof {
            let vs = view_cells(cells@.take(k as int));
            assert(view_cells(cells@.take(k + 1)) =~= vs.push(cells@[k as int]@));
            lemma_cells_text_push(vs, cells@[k as int]@);
            assert(out@ =~= old(out)@ + row_text(view_cells(cells@.take(k + 1))));
        }
        k = k + 1;
    }
    assert(cells@.take(cells.len() as int) =~= cells@);
}

fn header_vec() -> (r: Vec<String>)
    ensures
        view_cells(r@) == header_cells(),
{
    let r = vec![
        " Framework Name ".to_owned(),
        " Latency.Avg ".to_owned(),
        " Latency.Stdev ".to_owned(),
        " Latency.50P ".to_owned(),
        " Latency.75P ".to_owned(),
        " Latency.90P ".to_owned(),
        " Latency.99P ".to_owned(),
        " Latency.Max ".to_owned(),
        " Request.Total ".to_owned(),
        " Request.Req/Sec ".to_owned(),
        " Transfer.Total ".to_owned(),
        " Transfer.Rate ".to_owned(),
        " Max. Memory Usage ".to_owned(),
    ];
    assert(view_cells(r@) =~= header_cells());
    r
}

fn separator_vec() -> (r: Vec<String>)
    ensures
        view_cells(r@) == separator_cells(),
{
    let mut r: Vec<String> = Vec::new();
    let mut k: usize = 0;
    while k < 13
        invariant
            k <= 13,
            r@.len() == k,
            forall|j: int| 0 <= j < k ==> (#[trigger] r@[j])@ == "---"@,
        decreases 13 - k,
    {
        r.push("---".to_owned());
        k = k + 1;
    }
    assert(view_cells(r@) =~= separator_cells());
    r
}

fn row_vec(r: &Report) -> (v: Vec<String>)
    ensures
        view_cells(v@) == row_cells(*r),
{
    let l = r.metrics.latency;
    let v = vec![
        r.framework_name.clone(),
        ms_string(l.avg),
        ms_string(l.stdev),
        percentile_string(l.p50),
        percentile_string(l.p75),
        percentile_string(l.p90),
        percentile_string(l.p99),
        ms_string(l.max),
        r.metrics.request.total.clone(),
        r.metrics.request.req_per_sec.clone(),
        r.metrics.transfer.total.clone(),
        r.metrics.transfer.rate.clone(),
        r.max_memory.clone(),
    ];
    assert(view_cells(v@) =~= row_cells(*r));
    v
}

impl Report {
    /// A report for `framework_name` whose peak memory was
    /// `max_memory_tenths` tenths of a megabyte (137 for 13.7 MB).
    pub fn new(framework_name: &str, max_memory_tenths: u64, metrics: Metrics) -> (r: Report)
        ensures
            r.framework_name@ == framework_name@,
            r.max_memory@ == memory_text(max_memory_tenths),
            r.metrics == metrics,
    {
        let mut mem = String::new();
        push_decimal(&mut mem, max_memory_tenths / 10);
        push_char(&mut mem, '.');
        push_char(&mut mem, digit_char_exec(max_memory_tenths % 10));
        push_char(&mut mem, 'M');
        push_char(&mut mem, 'B');
        assert(mem@ =~= memory_text(max_memory_tenths));
        Report { framework_name: framework_name.to_owned(), max_memory: mem, metrics }
    }

    /// The markdown table of `reports`, one row per report in the order given.
    pub fn generate_from(reports: &Vec<Report>) -> (r: String)
        ensures
            r@ == table_text(reports@),
    {
        let mut res = String::new();
        push_row(&mut res, &header_vec());
        push_char(&mut res, '\n');
        push_row(&mut res, &separator_vec());
        let ghost head = seq![row_text(header_cells()), row_text(separator_cells())];
        assert(head.drop_last() =~= seq![row_text(header_cells())]);
        assert(join_lines(seq![row_text(header_cells())]) == row_text(header_cells()));
        assert(table_lines(reports@.take(0)) =~= head);
        assert(res@ =~= join_lines(head));
        let mut k: usize = 0;
        while k < reports.len()
            invariant
                k <= reports.len(),
                res@ == table_text(reports@.take(k as int)),
            decreases reports.len() - k,
        {
            push_char(&mut res, '\n');
            push_row(&mut res, &row_vec(&reports[k]));
            proof {
                let before = table_lines(reports@.take(k as int));
                let after = table_lines(reports@.take(k + 1));
                assert(after.drop_last() =~= before);
                assert(after.last() == row_text(row_cells(reports@[k as int])));
                assert(res@ =~= table_text(reports@.take(k + 1)));
            }
            k = k + 1;
        }
        assert(reports@.take(reports.len() as int) =~= reports@);
        res
    }
}

/// How often `c` occurs in `s`.
pub open spec fn count_of(s: Seq<char>, c: char) -> nat
    decreases s.len(),
{
    if s.len() == 0 {
        0
    } else {
        count_of(s.drop_last(), c) + if s.last() == c {
            1nat
        } else {
            0nat
        }
    }
}

/// `s` holds neither a cell separator `|` nor a newline.
pub open spec fn is_plain(s: Seq<char>) -> bool {
    forall|i: int| 0 <= i < s.len() ==> #[trigger] s[i] != '|' && s[i] != '\n'
}

/// The texts of `r` that its row shows as they are hold no `|` or newline.
pub open spec fn plain_report(r: Report) -> bool {
    &&& is_plain(r.framework_name@)
    &&& is_plain(r.metrics.request.total@)
    &&& is_plain(r.metrics.request.req_per_sec@)
    &&& is_plain(r.metrics.transfer.total@)
    &&& is_plain(r.metrics.transfer.rate@)
    &&& is_plain(r.max_memory@)
}

proof fn lemma_count_concat(a: Seq<char>, b: Seq<char>, c: char)
    ensures
        count_of(a + b, c) == count_of(a, c) + count_of(b, c),
    decreases b.len(),
{
    if b.len() == 0 {
        assert(a + b =~= a);
    } else {
        assert((a + b).drop_last() =~= a + b.drop_last());
        lemma_count_concat(a, b.drop_last(), c);
    }
}

proof fn lemma_count_single(x: char, c: char)
    ensures
        count_of(seq![x], c) == if x == c {
            1nat
        } else {
            0nat
        },
        count_of(Seq::<char>::empty(), c) == 0,
{
    assert(seq![x].drop_last() =~= Seq::<char>::empty());
    assert(count_of(Seq::<char>::empty(), c) == 0);
    assert(seq![x].last() == x);
}

proof fn lemma_count_absent(s: Seq<char>, c: char)
    requires
        forall|i: int| 0 <= i < s.len() ==> s[i] != c,
    ensures
        count_of(s, c) == 0,
    decreases s.len(),
{
    if s.len() > 0 {
        lemma_count_absent(s.drop_last(), c);
    }
}

proof fn lemma_nat_text_plain(n: nat)
    ensures
        is_plain(nat_text(n)),
    decreases n,
{
    if n >= 10 {
        lemma_nat_text_plain(n / 10);
    }
}

proof fn lemma_ms_text_plain(v: u64)
    ensures
        is_plain(ms_text(v)),
        is_plain(percentile_text(v)),
{
    lemma_nat_text_plain((v / 10000) as nat);
}

proof fn lemma_cells_text_count(cells: Seq<Seq<char>>)
    requires
        forall|k: int| 0 <= k < cells.len() ==> is_plain(#[trigger] cells[k]),
    ensures
        count_of(cells_text(cells), '|') == cells.len(),
        count_of(cells_text(cells), '\n') == 0,
    decreases cells.len(),
{
    if cells.len() > 0 {
        let init = cells.drop_last();
        assert forall|k: int| 0 <= k < init.len() implies is_plain(#[trigger] init[k]) by {
            assert(init[k] == cells[k]);
        }
        lemma_cells_text_count(init);
        lemma_count_single('|', '|');
        lemma_count_single('|', '\n');
        let c = cells.last();
        assert(is_plain(c));
        lemma_count_absent(c, '|');
        lemma_count_absent(c, '\n');
        lemma_count_concat(cells_text(init) + c, seq!['|'], '|');
        lemma_count_concat(cells_text(init), c, '|');
        lemma_count_concat(cells_text(init) + c, seq!['|'], '\n');
        lemma_count_concat(cells_text(init), c, '\n');
    } else {
        lemma_count_single('|', '|');
        lemma_count_single('|', '\n');
    }
}

proof fn lemma_row_count(cells: Seq<Seq<char>>)
    requires
        forall|k: int| 0 <= k < cells.len() ==> is_plain(#[trigger] cells[k]),
    ensures
        count_of(row_text(cells), '|') == cells.len() + 1,
        count_of(row_text(cells), '\n') == 0,
{
    lemma_cells_text_count(cells);
    lemma_count_concat(seq!['|'], cells_text(cells), '|');
    lemma_count_concat(seq!['|'], cells_text(cells), '\n');
    lemma_count_single('|', '|');
    lemma_count_single('|', '\n');
}

proof fn lemma_join_count(lines: Seq<Seq<char>>)
    requires
        lines.len() >= 1,
        forall|k: int| 0 <= k < lines.len() ==> count_of(#[trigger] lines[k], '\n') == 0,
    ensures
        count_of(join_lines(lines), '\n') + 1 == lines.len(),
    decreases lines.len(),
{
    if lines.len() > 1 {
        let init = lines.drop_last();
        assert forall|k: int| 0 <= k < init.len() implies count_of(#[trigger] init[k], '\n') == 0 by {
            assert(init[k] == lines[k]);
        }
        lemma_join_count(init);
        lemma_count_single('\n', '\n');
        lemma_count_concat(join_lines(init) + seq!['\n'], lines.last(), '\n');
        lemma_count_concat(join_lines(init), seq!['\n'], '\n');
    } else {
        assert(join_lines(lines) == lines[0]);
    }
}

proof fn lemma_header_plain()
    ensures
        forall|k: int| 0 <= k < 13 ==> is_plain(#[trigger] header_cells()[k]),
        forall|k: int| 0 <= k < 13 ==> is_plain(#[trigger] separator_cells()[k]),
{
    reveal_strlit(" Framework Name ");
    reveal_strlit(" Latency.Avg ");
    reveal_strlit(" Latency.Stdev ");
    reveal_strlit(" Latency.50P ");
    reveal_strlit(" Latency.75P ");
    reveal_strlit(" Latency.90P ");
    reveal_strlit(" Latency.99P ");
    reveal_strlit(" Latency.Max ");
    reveal_strlit(" Request.Total ");
    reveal_strlit(" Request.Req/Sec ");
    reveal_strlit(" Transfer.Total ");
    reveal_strlit(" Transfer.Rate ");
    reveal_strlit(" Max. Memory Usage ");
    reveal_strlit("---");
}

/// Row and column integrity: for reports whose texts hold no `|` or newline,
/// the table of N reports is N + 2 lines (header, separator, one per report)
/// joined by N + 1 newlines, and every line holds the 14 bars that bound its
/// 13 cells, as the header does.
pub proof fn law_table_shape(rs: Seq<Report>)
    requires
        forall|k: int| 0 <= k < rs.len() ==> plain_report(#[trigger] rs[k]),
    ensures
        table_text(rs) == join_lines(table_lines(rs)),
        table_lines(rs).len() == rs.len() + 2,
        count_of(table_text(rs), '\n') == rs.len() + 1,
        forall|k: int|
            0 <= k < rs.len() + 2 ==> count_of(#[trigger] table_lines(rs)[k], '\n') == 0
                && count_of(table_lines(rs)[k], '|') == 14,
{
    let lines = table_lines(rs);
    lemma_header_plain();
    lemma_row_count(header_cells());
    lemma_row_count(separator_cells());
    assert forall|k: int|
        0 <= k < rs.len() + 2 implies count_of(#[trigger] lines[k], '\n') == 0
            && count_of(lines[k], '|') == 14 by {
        if k >= 2 {
            let r = rs[k - 2];
            let l = r.metrics.latency;
            assert(plain_report(r));
            lemma_ms_text_plain(l.avg);
            lemma_ms_text_plain(l.stdev);
            lemma_ms_text_plain(l.max);
            lemma_ms_text_plain(l.p50);
            lemma_ms_text_plain(l.p75);
            lemma_ms_text_plain(l.p90);
            lemma_ms_text_plain(l.p99);
            lemma_row_count(row_cells(r));
        }
    }
    lemma_join_count(lines);
}

/// Rows keep the order of the reports: the line after header and separator
/// for the report at `k` is that report's row, whatever the other reports.
pub proof fn law_rows_in_order(rs: Seq<Report>)
    ensures
        forall|k: int|
            0 <= k < rs.len() ==> #[trigger] table_lines(rs)[k + 2] == row_text(row_cells(rs[k])),
        table_lines(rs).len() == rs.len() + 2,
{
}

/// A percentile of zero shows as `-`; any other shows its value with four
/// decimals and `ms`.
pub proof fn law_percentile_placeholder(r: Report)
    ensures
        forall|k: int|
            3 <= k < 7 ==> {
                let v = if k == 3 {
                    r.metrics.latency.p50
                } else if k == 4 {
                    r.metrics.latency.p75
                } else if k == 5 {
                    r.metrics.latency.p90
                } else {
                    r.metrics.latency.p99
                };
                &&& v == 0 ==> #[trigger] row_cells(r)[k] == seq!['-']
                &&& v > 0 ==> row_cells(r)[k] == ms_text(v)
            },
{
}

proof fn lemma_first_at_found(s: Seq<char>, i: int, f: Field)
    requires
        0 <= i,
    ensures
        first_at(s, i, f) matches Some(p) ==> i <= p < s.len() && found_at(s, p, f),
    decreases s.len() - i,
{
    if i < s.len() && !found_at(s, i, f) {
        lemma_first_at_found(s, i + 1, f);
    }
}

proof fn lemma_decimal_plain(s: Seq<char>, i: int)
    requires
        decimal_at(s, i) is Some,
    ensures
        ({
            let (a, b) = decimal_at(s, i)->Some_0;
            i < a < b <= s.len() && is_plain(s.subrange(i, b))
        }),
{
    let (a, b) = decimal_at(s, i)->Some_0;
    lemma_skip_digits(s, i);
    lemma_skip_digits(s, a + 1);
    assert forall|k: int| 0 <= k < b - i implies #[trigger] s.subrange(i, b)[k] != '|'
        && s.subrange(i, b)[k] != '\n' by {
        if i + k < a {
            assert(s.subrange(i, a)[k] == s[i + k]);
        } else if i + k > a {
            assert(s.subrange(a + 1, b)[i + k - a - 1] == s[i + k]);
        }
    }
}

proof fn lemma_size_plain(s: Seq<char>, i: int)
    requires
        size_at(s, i) is Some,
    ensures
        is_plain(size_at(s, i)->Some_0.0),
{
    let (_a, b) = decimal_at(s, i)->Some_0;
    lemma_decimal_plain(s, i);
    lemma_skip_spaces(s, b);
    let c = skip_spaces(s, b);
    let q = if c < s.len() && crate::metrics::is_size_prefix(s[c]) {
        c + 1
    } else {
        c
    };
    let v = size_at(s, i)->Some_0.0;
    let head = s.subrange(i, b);
    let unit = s.subrange(c, q + 1);
    assert(v == head + unit);
    assert forall|k: int| 0 <= k < v.len() implies #[trigger] v[k] != '|' && v[k] != '\n' by {
        if k >= head.len() {
            assert(v[k] == unit[k - head.len()]);
            assert(unit[k - head.len()] == s[c + k - head.len()]);
        } else {
            assert(v[k] == head[k]);
        }
    }
}

proof fn lemma_text_of_plain(s: Seq<char>, f: Field)
    requires
        f != Field::Stats,
        f != Field::Percentiles,
    ensures
        is_plain(text_of(s, f)),
{
    lemma_first_at_found(s, 0, f);
    match first_at(s, 0, f) {
        Some(p) => match f {
            Field::Requests => {
                let a = crate::text::skip_digits(s, p);
                lemma_skip_digits(s, p);
                let v = requests_at(s, p)->Some_0;
                assert forall|k: int| 0 <= k < v.len() implies #[trigger] v[k] != '|' && v[k]
                    != '\n' by {
                    assert(v[k] == s.subrange(p, a)[k]);
                }
            },
            Field::RequestRate => {
                let j = skip_spaces(s, p + 13);
                lemma_decimal_plain(s, j);
            },
            Field::DataRead => {
                lemma_size_plain(s, skip_spaces(s, p + 1));
            },
            _ => {
                lemma_size_plain(s, skip_spaces(s, p + 13));
            },
        },
        None => {},
    }
}

/// A report made by `Report::new` from a name free of `|` and newlines and
/// from metrics read by `Metrics::parse`, out of any text, meets what
/// `law_table_shape` asks of its reports.
pub proof fn law_parsed_report_plain(r: Report, text: Seq<char>, tenths: u64)
    requires
        is_plain(r.framework_name@),
        r.max_memory@ == memory_text(tenths),
        r.metrics@ == metrics_of(text),
    ensures
        plain_report(r),
{
    lemma_text_of_plain(text, Field::Requests);
    lemma_text_of_plain(text, Field::RequestRate);
    lemma_text_of_plain(text, Field::DataRead);
    lemma_text_of_plain(text, Field::TransferRate);
    lemma_nat_text_plain((tenths / 10) as nat);
}

} // verus!
