use vstd::prelude::*;
use crate::err::ProfError;
use crate::extract::{call_row, call_row_chars, is_call_data_line, is_call_data_line_chars};
use crate::profiler::Profiler;
use crate::table::shown_count;
use crate::text::{chars_of, find, find_chars, split_on, split_pieces, string_of, string_views};

verus! {

/// What the call-graph tool prints when it runs out of memory.
pub const CALL_OOM_BANNER: &'static str = "out of memory";

/// Whether a line of a call report carries data.
pub open spec fn call_line_pred() -> spec_fn(Seq<char>) -> bool {
    |l: Seq<char>| is_call_data_line(l)
}

/// The data lines of a call report, in order.
pub open spec fn call_data_lines(output: Seq<char>) -> Seq<Seq<char>> {
    split_on(output, '\n').filter(call_line_pred())
}

/// Every data line yields its count and its name.
pub open spec fn call_rows_parse(lines: Seq<Seq<char>>) -> bool {
    forall|k: int| 0 <= k < lines.len() ==> #[trigger] call_row(lines[k]) is Some
}

/// The instruction count of each data line.
pub open spec fn call_values(lines: Seq<Seq<char>>) -> Seq<u64> {
    lines.map_values(|l: Seq<char>| call_row(l)->Some_0.0)
}

/// The function name of each data line.
pub open spec fn call_names(lines: Seq<Seq<char>>) -> Seq<Seq<char>> {
    lines.map_values(|l: Seq<char>| call_row(l)->Some_0.1)
}

/// The sum of a sequence of counts.
pub open spec fn seq_sum(s: Seq<u64>) -> int
    decreases s.len(),
{
    if s.len() == 0 {
        0
    } else {
        seq_sum(s.drop_last()) + s.last()
    }
}

/// `p` is the call report of `values` and their `names`: the total is the sum over all
/// rows, and the shown rows are the first `num`, in the order of the report, each with
/// its own name.
pub open spec fn is_call_report(p: Profiler, values: Seq<u64>, names: Seq<Seq<char>>, num: nat) -> bool {
    match p {
        Profiler::CallGrind { total_instructions, instructions, functs } => {
            &&& total_instructions == seq_sum(values)
            &&& instructions@ == values.take(shown_count(num, values.len()) as int)
            &&& string_views(functs@) == names.take(shown_count(num, values.len()) as int)
        },
        _ => false,
    }
}

/// What parsing the call report `output` gives: the out-of-memory banner anywhere wins;
/// then a data line that does not parse; else the report.
pub open spec fn call_outcome(output: Seq<char>, num: nat, r: Result<Profiler, ProfError>) -> bool {
    let lines = call_data_lines(output);
    if find(output, CALL_OOM_BANNER@) is Some {
        r == Err::<Profiler, ProfError>(ProfError::OutOfMemoryError)
    } else if !call_rows_parse(lines) {
        r == Err::<Profiler, ProfError>(ProfError::RegexError)
    } else {
        r is Ok && is_call_report(r->Ok_0, call_values(lines), call_names(lines), num)
    }
}

/// Parsing of the call-graph tool's annotated report.
pub trait CallGrindParser {
    /// Parses `output` and keeps its first `num` rows.
    fn callgrind_parse(&self, output: &str, num: usize) -> (r: Result<Profiler, ProfError>)
        ensures
            call_outcome(output@, num as nat, r),
    ;
}

proof fn lemma_seq_sum_bound(s: Seq<u64>)
    ensures
        0 <= seq_sum(s) <= s.len() * u64::MAX,
    decreases s.len(),
{
    if s.len() > 0 {
        lemma_seq_sum_bound(s.drop_last());
        assert((s.len() - 1) * u64::MAX + u64::MAX == s.len() * u64::MAX) by (nonlinear_arith);
    }
}

/// The counts and names of the data lines of `text`, or `RegexError` at the first data
/// line that does not parse.
fn extract_call_rows(text: &Vec<char>) -> (r: Result<(Vec<u64>, Vec<String>), ProfError>)
    ensures
        match r {
            Ok((values, names)) => {
                &&& call_rows_parse(call_data_lines(text@))
                &&& values@ == call_values(call_data_lines(text@))
                &&& string_views(names@) == call_names(call_data_lines(text@))
            },
            Err(e) => !call_rows_parse(call_data_lines(text@)) && e == ProfError::RegexError,
        },
{
    let lines = split_pieces(text, '\n');
    let ghost all = split_on(text@, '\n');
    let mut values: Vec<u64> = Vec::new();
    let mut names: Vec<String> = Vec::new();
    let mut k: usize = 0;
    assert(all.take(0) =~= Seq::<Seq<char>>::empty());
    while k < lines.len()
        invariant
            all == split_on(text@, '\n'),
            lines@.len() == all.len(),
            forall|m: int| 0 <= m < lines@.len() ==> #[trigger] lines@[m]@ == all[m],
            k <= lines@.len(),
            call_rows_parse(all.take(k as int).filter(call_line_pred())),
            values@ == call_values(all.take(k as int).filter(call_line_pred())),
            string_views(names@) == call_names(all.take(k as int).filter(call_line_pred())),
        decreases lines@.len() - k,
    {
        let ghost before = all.take(k as int).filter(call_line_pred());
        proof {
            assert(all.take(k + 1) =~= all.take(k as int).push(all[k as int]));
            all.take(k as int).lemma_filter_push(all[k as int], call_line_pred());
            assert(lines@[k as int]@ == all[k as int]);
        }
        if is_call_data_line_chars(&lines[k]) {
            match call_row_chars(&lines[k]) {
                None => {
                    proof {
                        all.lemma_filter_contains(call_line_pred(), k as int);
                        let d = all.filter(call_line_pred());
                        let m = choose|m: int| 0 <= m < d.len() && d[m] == all[k as int];
                        assert(call_row(d[m]) is None);
                    }
                    return Err(ProfError::RegexError);
                },
                Some((v, name)) => {
                    let ghost after = before.push(all[k as int]);
                    let ghost old_names = string_views(names@);
                    values.push(v);
                    names.push(string_of(&name));
                    proof {
                        assert(call_values(after) =~= call_values(before).push(v));
                        assert(string_views(names@) =~= old_names.push(name@));
                        assert(call_names(after) =~= call_names(before).push(name@));
                        assert forall|m: int| 0 <= m < after.len() implies #[trigger] call_row(
                            after[m],
                        ) is Some by {
                            if m < before.len() {
                                assert(after[m] == before[m]);
                            }
                        }
                    }
                },
            }
        }
        k = k + 1;
    }
    assert(all.take(lines@.len() as int) =~= all);
    Ok((values, names))
}

/// The sum of `values`.
pub fn total_of(values: &Vec<u64>) -> (r: u128)
    ensures
        r == seq_sum(values@),
{
    let mut sum: u128 = 0;
    let mut i: usize = 0;
    while i < values.len()
        invariant
            i <= values@.len(),
            sum == seq_sum(values@.take(i as int)),
        decreases values@.len() - i,
    {
        proof {
            assert(values@.take(i + 1).drop_last() =~= values@.take(i as int));
            lemma_seq_sum_bound(values@.take(i as int));
            assert(i * u64::MAX <= usize::MAX * u64::MAX) by (nonlinear_arith)
                requires
                    i <= usize::MAX,
            ;
            assert(usize::MAX <= u64::MAX);
        }
        sum = sum + values[i] as u128;
        i = i + 1;
    }
    assert(values@.take(values@.len() as int) =~= values@);
    sum
}

/// The first `k` values.
fn prefix_values(v: &Vec<u64>, k: usize) -> (r: Vec<u64>)
    requires
        k <= v@.len(),
    ensures
        r@ == v@.take(k as int),
{
    let mut r: Vec<u64> = Vec::new();
    let mut i: usize = 0;
    while i < k
        invariant
            k <= v@.len(),
            i <= k,
            r@ == v@.take(i as int),
        decreases k - i,
    {
        r.push(v[i]);
        i = i + 1;
        assert(r@ =~= v@.take(i as int));
    }
    r
}

/// The first `k` strings.
fn prefix_strings(v: &Vec<String>, k: usize) -> (r: Vec<String>)
    requires
        k <= v@.len(),
    ensures
        string_views(r@) == string_views(v@).take(k as int),
{
    let mut r: Vec<String> = Vec::new();
    let mut i: usize = 0;
    while i < k
        invariant
            k <= v@.len(),
            i <= k,
            string_views(r@) == string_views(v@).take(i as int),
        decreases k - i,
    {
        let ghost before = string_views(r@);
        r.push(v[i].clone());
        i = i + 1;
        assert(string_views(r@) =~= before.push(v@[i - 1]@));
        assert(string_views(r@) =~= string_views(v@).take(i as int));
    }
    r
}

impl CallGrindParser for Profiler {
    fn callgrind_parse(&self, output: &str, num: usize) -> (r: Result<Profiler, ProfError>) {
        let text = chars_of(output);
        let banner = chars_of(CALL_OOM_BANNER);
        if find_chars(&text, &banner, 0).is_some() {
            return Err(ProfError::OutOfMemoryError);
        }
        let (values, names) = match extract_call_rows(&text) {
            Ok(found) => found,
            Err(e) => {
                return Err(e);
            },
        };
        let total_instructions = total_of(&values);
        assert(string_views(names@).len() == names@.len());
        let k = if num < values.len() {
            num
        } else {
            values.len()
        };
        let instructions = prefix_values(&values, k);
        let functs = prefix_strings(&names, k);
        Ok(Profiler::CallGrind { total_instructions, instructions, functs })
    }
}


/// Each shown count keeps its own name, and the shown rows are the first data lines in
/// the order of the report.
pub proof fn lemma_call_rows_keep_names(output: Seq<char>, num: nat, r: Result<Profiler, ProfError>)
    requires
        call_outcome(output, num, r),
        find(output, CALL_OOM_BANNER@) is None,
        call_rows_parse(call_data_lines(output)),
    ensures
        r is Ok,
        r->Ok_0 matches Profiler::CallGrind { instructions, functs, .. }
            && instructions@.len() == functs@.len() && forall|i: int|
            0 <= i < instructions@.len() ==> #[trigger] instructions@[i] == call_values(
                call_data_lines(output),
            )[i] && functs@[i]@ == call_names(call_data_lines(output))[i],
{
    let lines = call_data_lines(output);
    if let Profiler::CallGrind { instructions, functs, .. } = r->Ok_0 {
        assert(string_views(functs@).len() == functs@.len());
        assert forall|i: int| 0 <= i < instructions@.len() implies #[trigger] instructions@[i]
            == call_values(lines)[i] && functs@[i]@ == call_names(lines)[i] by {
            assert(string_views(functs@)[i] == functs@[i]@);
        }
    }
}

/// The total is the sum over every data line: two row limits give the same total.
pub proof fn lemma_call_total_ignores_limit(
    output: Seq<char>,
    num1: nat,
    r1: Result<Profiler, ProfError>,
    num2: nat,
    r2: Result<Profiler, ProfError>,
)
    requires
        call_outcome(output, num1, r1),
        call_outcome(output, num2, r2),
        find(output, CALL_OOM_BANNER@) is None,
        call_rows_parse(call_data_lines(output)),
    ensures
        r1 is Ok,
        r2 is Ok,
        r1->Ok_0 matches Profiler::CallGrind { total_instructions: t1, .. }
            && r2->Ok_0 matches Profiler::CallGrind { total_instructions: t2, .. } && t1 == t2
            && t1 == seq_sum(call_values(call_data_lines(output))),
{
}

/// The out-of-memory banner anywhere in the report decides the outcome, whatever data
/// lines the report also holds.
pub proof fn lemma_call_out_of_memory_wins(output: Seq<char>, num: nat, r: Result<Profiler, ProfError>)
    requires
        call_outcome(output, num, r),
        find(output, CALL_OOM_BANNER@) is Some,
    ensures
        r == Err::<Profiler, ProfError>(ProfError::OutOfMemoryError),
{
}

} // verus!
