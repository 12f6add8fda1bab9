use vstd::prelude::*;
use crate::err::ProfError;
use crate::extract::{
    CACHE_FIELDS, cache_row, cache_row_chars, is_cache_data_line, is_cache_data_line_chars,
};
use crate::profiler::Profiler;
use crate::rank::{identity, is_ranking, lemma_ranking_unique, rank_by, ranks_before};
use crate::table::{
    MetricTable, assemble, col_sum, column, has_width, pick, rows_view, select_rows, shown_count,
    take_rows,
};
use crate::text::{chars_of, find, find_chars, split_on, split_pieces, string_of, string_views};

verus! {

/// The metric to rank the cache report by; `NAN` keeps the order of the report.
#[derive(Clone, Copy, Debug, PartialEq, Eq, Structural)]
pub enum Metric {
    Ir,
    I1mr,
    ILmr,
    Dr,
    D1mr,
    DLmr,
    Dw,
    D1mw,
    DLmw,
    NAN,
}

impl Metric {
    /// The column that the metric ranks by.
    pub open spec fn spec_column(self) -> Option<int> {
        match self {
            Metric::Ir => Some(0),
            Metric::I1mr => Some(1),
            Metric::ILmr => Some(2),
            Metric::Dr => Some(3),
            Metric::D1mr => Some(4),
            Metric::DLmr => Some(5),
            Metric::Dw => Some(6),
            Metric::D1mw => Some(7),
            Metric::DLmw => Some(8),
            Metric::NAN => None,
        }
    }

    /// The column that the metric ranks by; `None` for `NAN`.
    pub fn column(&self) -> (r: Option<usize>)
        ensures
            match r {
                Some(j) => self.spec_column() == Some(j as int),
                None => self.spec_column() is None,
            },
    {
        match self {
            Metric::Ir => Some(0),
            Metric::I1mr => Some(1),
            Metric::ILmr => Some(2),
            Metric::Dr => Some(3),
            Metric::D1mr => Some(4),
            Metric::DLmr => Some(5),
            Metric::Dw => Some(6),
            Metric::D1mw => Some(7),
            Metric::DLmw => Some(8),
            Metric::NAN => None,
        }
    }
}

/// Sorts the rows of a table by column `col`, largest first and equal values in the
/// order of `mat`. Returns the sorted table and, for each of its rows, the row of `mat`
/// it came from.
pub fn sort_matrix(mat: &MetricTable, col: usize) -> (r: (MetricTable, Vec<usize>))
    requires
        forall|i: int| 0 <= i < mat@.len() ==> col < #[trigger] mat@[i].len(),
    ensures
        is_ranking(column(mat@, col as int), r.1@),
        r.0@ == pick(mat@, r.1@),
{
    let keys = mat.column(col);
    let idx = rank_by(&keys);
    let sorted = select_rows(mat, &idx);
    (sorted, idx)
}


/// The line that the cache simulator prints when it runs out of memory.
pub const CACHE_OOM_BANNER: &'static str = "Valgrind's memory management: out of memory";

/// Whether a line of a cache report carries data.
pub open spec fn cache_line_pred() -> spec_fn(Seq<char>) -> bool {
    |l: Seq<char>| is_cache_data_line(l)
}

/// The data lines of a cache report, in order.
pub open spec fn cache_data_lines(output: Seq<char>) -> Seq<Seq<char>> {
    split_on(output, '\n').filter(cache_line_pred())
}

/// Every data line yields its counts and its name.
pub open spec fn cache_rows_parse(lines: Seq<Seq<char>>) -> bool {
    forall|k: int| 0 <= k < lines.len() ==> #[trigger] cache_row(lines[k]) is Some
}

/// The counts of each data line.
pub open spec fn cache_values(lines: Seq<Seq<char>>) -> Seq<Seq<u64>> {
    lines.map_values(|l: Seq<char>| cache_row(l)->Some_0.0)
}

/// The function name of each data line.
pub open spec fn cache_names(lines: Seq<Seq<char>>) -> Seq<Seq<char>> {
    lines.map_values(|l: Seq<char>| cache_row(l)->Some_0.1)
}

/// `idx` is the order in which `metric` puts `rows`: the ranking by its column, or the
/// order of the report for `NAN`.
pub open spec fn sort_order(metric: Metric, rows: Seq<Seq<u64>>, idx: Seq<usize>) -> bool {
    match metric.spec_column() {
        None => idx == identity(rows.len()),
        Some(j) => is_ranking(column(rows, j), idx),
    }
}

/// `p` is the cache report of `rows` and their `names`: the totals are the column sums
/// over all rows, and the shown rows are the first `num` in the order of `metric`, each
/// with its own name.
pub open spec fn is_cache_report(
    p: Profiler,
    rows: Seq<Seq<u64>>,
    names: Seq<Seq<char>>,
    num: nat,
    metric: Metric,
) -> bool {
    match p {
        Profiler::CacheGrind { ir, i1mr, ilmr, dr, d1mr, dlmr, dw, d1mw, dlmw, data, functs } => {
            &&& ir == col_sum(rows, 0)
            &&& i1mr == col_sum(rows, 1)
            &&& ilmr == col_sum(rows, 2)
            &&& dr == col_sum(rows, 3)
            &&& d1mr == col_sum(rows, 4)
            &&& dlmr == col_sum(rows, 5)
            &&& dw == col_sum(rows, 6)
            &&& d1mw == col_sum(rows, 7)
            &&& dlmw == col_sum(rows, 8)
            &&& exists|idx: Seq<usize>|
                #[trigger] sort_order(metric, rows, idx) && data@ == pick(
                    rows,
                    idx.take(shown_count(num, rows.len()) as int),
                ) && string_views(functs@) == pick(
                    names,
                    idx.take(shown_count(num, rows.len()) as int),
                )
        },
        _ => false,
    }
}

/// What parsing the cache report `output` gives: the out-of-memory banner anywhere wins;
/// then a data line that does not parse; then an empty (or oversized) table; else the report.
pub open spec fn cache_outcome(
    output: Seq<char>,
    num: nat,
    metric: Metric,
    r: Result<Profiler, ProfError>,
) -> bool {
    let lines = cache_data_lines(output);
    if find(output, CACHE_OOM_BANNER@) is Some {
        r == Err::<Profiler, ProfError>(ProfError::OutOfMemoryError)
    } else if !cache_rows_parse(lines) {
        r == Err::<Profiler, ProfError>(ProfError::RegexError)
    } else if lines.len() == 0 || lines.len() * CACHE_FIELDS > isize::MAX {
        r == Err::<Profiler, ProfError>(ProfError::MisalignedData)
    } else {
        r is Ok && is_cache_report(r->Ok_0, cache_values(lines), cache_names(lines), num, metric)
    }
}

/// Parsing of the cache simulator's annotated report.
pub trait CacheGrindParser {
    /// Parses `output`, ranks its rows by `sort_metric` and keeps the first `num`.
    fn cachegrind_parse(&self, output: &str, num: usize, sort_metric: Metric) -> (r: Result<
        Profiler,
        ProfError,
    >)
        ensures
            cache_outcome(output@, num as nat, sort_metric, r),
    ;
}

/// The indices `0..n`.
fn identity_vec(n: usize) -> (r: Vec<usize>)
    ensures
        r@ == identity(n as nat),
{
    let mut r: Vec<usize> = Vec::new();
    let mut i: usize = 0;
    while i < n
        invariant
            i <= n,
            r@ == identity(n as nat).take(i as int),
        decreases n - i,
    {
        r.push(i);
        i = i + 1;
        assert(r@ =~= identity(n as nat).take(i as int));
    }
    assert(identity(n as nat).take(n as int) =~= identity(n as nat));
    r
}

/// The counts and names of the data lines of `output`, or `RegexError` at the first data
/// line that does not parse.
fn extract_cache_rows(text: &Vec<char>) -> (r: Result<(Vec<Vec<u64>>, Vec<String>), ProfError>)
    ensures
        match r {
            Ok((rows, names)) => {
                &&& cache_rows_parse(cache_data_lines(text@))
                &&& rows_view(rows@) == cache_values(cache_data_lines(text@))
                &&& string_views(names@) == cache_names(cache_data_lines(text@))
            },
            Err(e) => !cache_rows_parse(cache_data_lines(text@)) && e == ProfError::RegexError,
        },
{
    let lines = split_pieces(text, '\n');
    let ghost all = split_on(text@, '\n');
    let mut rows: Vec<Vec<u64>> = Vec::new();
    let mut names: Vec<String> = Vec::new();
    let mut k: usize = 0;
    assert(all.take(0) =~= Seq::<Seq<char>>::empty());
    while k < lines.len()
        invariant
            all == split_on(text@, '\n'),
            lines@.len() == all.len(),
            forall|m: int| 0 <= m < lines@.len() ==> #[trigger] lines@[m]@ == all[m],
            k <= lines@.len(),
            cache_rows_parse(all.take(k as int).filter(cache_line_pred())),
            rows_view(rows@) == cache_values(all.take(k as int).filter(cache_line_pred())),
            string_views(names@) == cache_names(all.take(k as int).filter(cache_line_pred())),
        decreases lines@.len() - k,
    {
        let ghost before = all.take(k as int).filter(cache_line_pred());
        proof {
            assert(all.take(k + 1) =~= all.take(k as int).push(all[k as int]));
            all.take(k as int).lemma_filter_push(all[k as int], cache_line_pred());
            assert(lines@[k as int]@ == all[k as int]);
        }
        if is_cache_data_line_chars(&lines[k]) {
            match cache_row_chars(&lines[k]) {
                None => {
                    proof {
                        all.lemma_filter_contains(cache_line_pred(), k as int);
                        let d = all.filter(cache_line_pred());
                        let m = choose|m: int| 0 <= m < d.len() && d[m] == all[k as int];
                        assert(cache_row(d[m]) is None);
                    }
                    return Err(ProfError::RegexError);
                },
                Some((v, name)) => {
                    let ghost after = before.push(all[k as int]);
                    let ghost old_rows = rows_view(rows@);
                    let ghost old_names = string_views(names@);
                    rows.push(v);
                    names.push(string_of(&name));
                    proof {
                        assert(rows_view(rows@) =~= old_rows.push(v@));
                        assert(cache_values(after) =~= cache_values(before).push(v@));
                        assert(string_views(names@) =~= old_names.push(name@));
                        assert(cache_names(after) =~= cache_names(before).push(name@));
                        assert forall|m: int| 0 <= m < after.len() implies #[trigger] cache_row(
                            after[m],
                        ) is Some by {
                            if m < before.len() {
                                assert(after[m] == before[m]);
                            }
                        }
                    }
                },
            }
        }
        k = k + 1;
    }
    assert(all.take(lines@.len() as int) =~= all);
    Ok((rows, names))
}

impl CacheGrindParser for Profiler {
    fn cachegrind_parse(&self, output: &str, num: usize, sort_metric: Metric) -> (r: Result<
        Profiler,
        ProfError,
    >) {
        let text = chars_of(output);
        let banner = chars_of(CACHE_OOM_BANNER);
        if find_chars(&text, &banner, 0).is_some() {
            return Err(ProfError::OutOfMemoryError);
        }
        let (rows, names) = match extract_cache_rows(&text) {
            Ok(found) => found,
            Err(e) => {
                return Err(e);
            },
        };
        let ghost lines = cache_data_lines(text@);
        let ghost values = cache_values(lines);
        let n = rows.len();
        assert(rows_view(rows@).len() == lines.len());
        if n == 0 || n > (isize::MAX as usize) / CACHE_FIELDS {
            proof {
                if n > 0 {
                    assert(n * CACHE_FIELDS > isize::MAX) by (nonlinear_arith)
                        requires
                            n > (isize::MAX as usize) / 9,
                    ;
                }
            }
            return Err(ProfError::MisalignedData);
        }
        proof {
            assert(n * CACHE_FIELDS <= isize::MAX) by (nonlinear_arith)
                requires
                    n <= (isize::MAX as usize) / 9,
            ;
            assert forall|i: int| 0 <= i < rows@.len() implies #[trigger] rows_view(rows@)[i].len()
                == 9 by {
                assert(rows_view(rows@)[i] == values[i]);
                assert(cache_row(lines[i]) is Some);
            }
            assert(rows_view(rows@)[0] == rows@[0]@);
        }
        let table = match assemble(&rows) {
            Ok(t) => t,
            Err(e) => {
                return Err(e);
            },
        };
        assert(table@ == values);
        assert(has_width(table@, 9));
        let totals = table.column_totals(CACHE_FIELDS);
        let idx = match sort_metric.column() {
            None => identity_vec(n),
            Some(j) => {
                let keys = table.column(j);
                rank_by(&keys)
            },
        };
        proof {
            assert forall|i: int| 0 <= i < idx@.len() implies #[trigger] idx@[i] < table@.len() by {
                if sort_metric.spec_column() is None {
                    assert(idx@[i] == identity(n as nat)[i]);
                }
            }
        }
        assert(string_views(names@).len() == names@.len());
        let (data, functs) = take_rows(&table, &names, &idx, num);
        let r = Profiler::CacheGrind {
            ir: totals[0],
            i1mr: totals[1],
            ilmr: totals[2],
            dr: totals[3],
            d1mr: totals[4],
            dlmr: totals[5],
            dw: totals[6],
            d1mw: totals[7],
            dlmw: totals[8],
            data,
            functs,
        };
        assert(sort_order(sort_metric, values, idx@));
        Ok(r)
    }
}


/// Each shown row keeps its own name: row `i` of the report and name `i` are the counts
/// and the name of one and the same data line, whatever the metric and the limit.
pub proof fn lemma_cache_rows_keep_names(output: Seq<char>, num: nat, metric: Metric, r: Result<
    Profiler,
    ProfError,
>)
    requires
        cache_outcome(output, num, metric, r),
        find(output, CACHE_OOM_BANNER@) is None,
        cache_rows_parse(cache_data_lines(output)),
        cache_data_lines(output).len() > 0,
        cache_data_lines(output).len() * CACHE_FIELDS <= isize::MAX,
    ensures
        r is Ok,
        r->Ok_0 matches Profiler::CacheGrind { data, functs, .. } && data@.len() == functs@.len()
            && forall|i: int|
            0 <= i < data@.len() ==> exists|j: int|
                0 <= j < cache_data_lines(output).len() && #[trigger] data@[i]
                    == cache_values(cache_data_lines(output))[j] && functs@[i]@ == cache_names(
                    cache_data_lines(output),
                )[j],
{
    let lines = cache_data_lines(output);
    let rows = cache_values(lines);
    let names = cache_names(lines);
    if let Profiler::CacheGrind { data, functs, .. } = r->Ok_0 {
        let idx = choose|idx: Seq<usize>|
            #[trigger] sort_order(metric, rows, idx) && data@ == pick(
                rows,
                idx.take(shown_count(num, rows.len()) as int),
            ) && string_views(functs@) == pick(
                names,
                idx.take(shown_count(num, rows.len()) as int),
            );
        let k = shown_count(num, rows.len()) as int;
        assert(idx.len() == rows.len()) by {
            if metric.spec_column() is None {
                assert(idx == identity(rows.len()));
            }
        }
        assert(string_views(functs@).len() == functs@.len());
        assert forall|i: int| 0 <= i < data@.len() implies exists|j: int|
            0 <= j < lines.len() && #[trigger] data@[i] == rows[j] && functs@[i]@ == names[j] by {
            let j = idx[i] as int;
            assert(string_views(functs@)[i] == functs@[i]@);
            assert(idx.take(k)[i] == idx[i]);
            if metric.spec_column() is None {
                assert(idx[i] == identity(rows.len())[i]);
            }
            assert(0 <= j < lines.len());
            assert(data@[i] == rows[j]);
        }
    }
}

/// The totals are the column sums over every data line: the row limit does not change
/// them, and two limits give the same totals. (A report without data lines has no
/// table and fails, so at least one data line is asked for.)
pub proof fn lemma_cache_totals_ignore_limit(
    output: Seq<char>,
    metric: Metric,
    num1: nat,
    r1: Result<Profiler, ProfError>,
    num2: nat,
    r2: Result<Profiler, ProfError>,
)
    requires
        cache_outcome(output, num1, metric, r1),
        cache_outcome(output, num2, metric, r2),
        find(output, CACHE_OOM_BANNER@) is None,
        cache_rows_parse(cache_data_lines(output)),
        cache_data_lines(output).len() > 0,
        cache_data_lines(output).len() * CACHE_FIELDS <= isize::MAX,
    ensures
        r1 is Ok,
        r2 is Ok,
        r1->Ok_0 matches Profiler::CacheGrind { ir, i1mr, ilmr, dr, d1mr, dlmr, dw, d1mw, dlmw, .. }
            && r2->Ok_0 matches Profiler::CacheGrind {
            ir: ir2,
            i1mr: i1mr2,
            ilmr: ilmr2,
            dr: dr2,
            d1mr: d1mr2,
            dlmr: dlmr2,
            dw: dw2,
            d1mw: d1mw2,
            dlmw: dlmw2,
            ..
        } && ir == ir2 && i1mr == i1mr2 && ilmr == ilmr2 && dr == dr2 && d1mr == d1mr2 && dlmr
            == dlmr2 && dw == dw2 && d1mw == d1mw2 && dlmw == dlmw2
            && ir == col_sum(cache_values(cache_data_lines(output)), 0)
            && i1mr == col_sum(cache_values(cache_data_lines(output)), 1)
            && ilmr == col_sum(cache_values(cache_data_lines(output)), 2)
            && dr == col_sum(cache_values(cache_data_lines(output)), 3)
            && d1mr == col_sum(cache_values(cache_data_lines(output)), 4)
            && dlmr == col_sum(cache_values(cache_data_lines(output)), 5)
            && dw == col_sum(cache_values(cache_data_lines(output)), 6)
            && d1mw == col_sum(cache_values(cache_data_lines(output)), 7)
            && dlmw == col_sum(cache_values(cache_data_lines(output)), 8),
{
}

/// When ranking by a column, the shown rows come in descending order of that column.
pub proof fn lemma_cache_rows_descend(output: Seq<char>, num: nat, metric: Metric, r: Result<
    Profiler,
    ProfError,
>)
    requires
        cache_outcome(output, num, metric, r),
        find(output, CACHE_OOM_BANNER@) is None,
        cache_rows_parse(cache_data_lines(output)),
        cache_data_lines(output).len() > 0,
        cache_data_lines(output).len() * CACHE_FIELDS <= isize::MAX,
        metric.spec_column() is Some,
    ensures
        r is Ok,
        r->Ok_0 matches Profiler::CacheGrind { data, .. } && forall|i: int, j: int|
            0 <= i < j < data@.len() ==> #[trigger] data@[i][metric.spec_column()->Some_0]
                >= #[trigger] data@[j][metric.spec_column()->Some_0],
{
    let lines = cache_data_lines(output);
    let rows = cache_values(lines);
    let names = cache_names(lines);
    let c = metric.spec_column()->Some_0;
    if let Profiler::CacheGrind { data, functs, .. } = r->Ok_0 {
        let idx = choose|idx: Seq<usize>|
            #[trigger] sort_order(metric, rows, idx) && data@ == pick(
                rows,
                idx.take(shown_count(num, rows.len()) as int),
            ) && string_views(functs@) == pick(
                names,
                idx.take(shown_count(num, rows.len()) as int),
            );
        let k = shown_count(num, rows.len()) as int;
        assert forall|i: int, j: int| 0 <= i < j < data@.len() implies #[trigger] data@[i][c]
            >= #[trigger] data@[j][c] by {
            assert(idx.take(k)[i] == idx[i] && idx.take(k)[j] == idx[j]);
            assert(ranks_before(column(rows, c), idx[i] as int, idx[j] as int));
            assert(data@[i] == rows[idx[i] as int]);
            assert(data@[j] == rows[idx[j] as int]);
        }
    }
}

/// Without a metric to rank by, the shown rows are the first data lines, in the order of
/// the report.
pub proof fn lemma_cache_order_kept(output: Seq<char>, num: nat, r: Result<Profiler, ProfError>)
    requires
        cache_outcome(output, num, Metric::NAN, r),
        find(output, CACHE_OOM_BANNER@) is None,
        cache_rows_parse(cache_data_lines(output)),
        cache_data_lines(output).len() > 0,
        cache_data_lines(output).len() * CACHE_FIELDS <= isize::MAX,
    ensures
        r is Ok,
        r->Ok_0 matches Profiler::CacheGrind { data, functs, .. } && data@ == cache_values(
            cache_data_lines(output),
        ).take(data@.len() as int) && string_views(functs@) == cache_names(
            cache_data_lines(output),
        ).take(data@.len() as int),
{
    let lines = cache_data_lines(output);
    let rows = cache_values(lines);
    let names = cache_names(lines);
    if let Profiler::CacheGrind { data, functs, .. } = r->Ok_0 {
        let idx = choose|idx: Seq<usize>|
            #[trigger] sort_order(Metric::NAN, rows, idx) && data@ == pick(
                rows,
                idx.take(shown_count(num, rows.len()) as int),
            ) && string_views(functs@) == pick(
                names,
                idx.take(shown_count(num, rows.len()) as int),
            );
        let k = shown_count(num, rows.len()) as int;
        assert(idx == identity(rows.len()));
        assert(data@ =~= rows.take(k));
        assert(string_views(functs@) =~= names.take(k));
    }
}

/// The shown rows and names are determined by the report, the limit and the metric:
/// ties between equal values are always broken the same way.
pub proof fn lemma_cache_report_determined(
    output: Seq<char>,
    num: nat,
    metric: Metric,
    r1: Result<Profiler, ProfError>,
    r2: Result<Profiler, ProfError>,
)
    requires
        cache_outcome(output, num, metric, r1),
        cache_outcome(output, num, metric, r2),
        find(output, CACHE_OOM_BANNER@) is None,
        cache_rows_parse(cache_data_lines(output)),
        cache_data_lines(output).len() > 0,
        cache_data_lines(output).len() * CACHE_FIELDS <= isize::MAX,
    ensures
        r1 is Ok,
        r2 is Ok,
        r1->Ok_0 matches Profiler::CacheGrind { data: d1, functs: f1, .. }
            && r2->Ok_0 matches Profiler::CacheGrind { data: d2, functs: f2, .. } && d1@ == d2@
            && string_views(f1@) == string_views(f2@),
{
    let lines = cache_data_lines(output);
    let rows = cache_values(lines);
    let names = cache_names(lines);
    let k = shown_count(num, rows.len()) as int;
    if let Profiler::CacheGrind { data: d1, functs: f1, .. } = r1->Ok_0 {
        if let Profiler::CacheGrind { data: d2, functs: f2, .. } = r2->Ok_0 {
            let i1 = choose|idx: Seq<usize>|
                #[trigger] sort_order(metric, rows, idx) && d1@ == pick(rows, idx.take(k))
                    && string_views(f1@) == pick(names, idx.take(k));
            let i2 = choose|idx: Seq<usize>|
                #[trigger] sort_order(metric, rows, idx) && d2@ == pick(rows, idx.take(k))
                    && string_views(f2@) == pick(names, idx.take(k));
            if let Some(c) = metric.spec_column() {
                lemma_ranking_unique(column(rows, c), i1, i2);
            }
            assert(i1 == i2);
        }
    }
}

/// The out-of-memory banner anywhere in the report decides the outcome, whatever data
/// lines the report also holds.
pub proof fn lemma_cache_out_of_memory_wins(
    output: Seq<char>,
    num: nat,
    metric: Metric,
    r: Result<Profiler, ProfError>,
)
    requires
        cache_outcome(output, num, metric, r),
        find(output, CACHE_OOM_BANNER@) is Some,
    ensures
        r == Err::<Profiler, ProfError>(ProfError::OutOfMemoryError),
{
}

} // verus!
