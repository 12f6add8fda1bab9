use vstd::prelude::*;
use crate::err::ProfError;
use crate::parse::cachegrind::Metric;
use crate::profiler::Profiler;
use crate::text::{chars_of, count_of, parse_count};

verus! {

/// Whether two strings hold the same characters.
pub fn same_text(a: &str, b: &str) -> (r: bool)
    ensures
        r == (a@ == b@),
{
    let x = chars_of(a);
    let y = chars_of(b);
    if x.len() != y.len() {
        return false;
    }
    let mut i: usize = 0;
    while i < x.len()
        invariant
            x@ == a@,
            y@ == b@,
            x@.len() == y@.len(),
            i <= x@.len(),
            forall|k: int| 0 <= k < i ==> x@[k] == y@[k],
        decreases x@.len() - i,
    {
        if x[i] != y[i] {
            assert(a@[i as int] != b@[i as int]);
            return false;
        }
        i = i + 1;
    }
    assert(x@ =~= y@);
    true
}

/// The metric that a sort-key value names; `None` where there is none.
pub open spec fn metric_named(s: Seq<char>) -> Option<Metric> {
    if s == "ir"@ {
        Some(Metric::Ir)
    } else if s == "i1mr"@ {
        Some(Metric::I1mr)
    } else if s == "ilmr"@ {
        Some(Metric::ILmr)
    } else if s == "dr"@ {
        Some(Metric::Dr)
    } else if s == "d1mr"@ {
        Some(Metric::D1mr)
    } else if s == "dlmr"@ {
        Some(Metric::DLmr)
    } else if s == "dw"@ {
        Some(Metric::Dw)
    } else if s == "d1mw"@ {
        Some(Metric::D1mw)
    } else if s == "dlmw"@ {
        Some(Metric::DLmw)
    } else if s == "none"@ {
        Some(Metric::NAN)
    } else {
        None
    }
}

/// The metric to sort the cache report on: no value, or `none`, keeps the report's
/// order; one of the nine column names ranks by that column; anything else is an error.
pub fn get_sort_metric(value: Option<&str>) -> (r: Result<Metric, ProfError>)
    ensures
        value is None ==> r == Ok::<Metric, ProfError>(Metric::NAN),
        value matches Some(s) ==> match metric_named(s@) {
            Some(m) => r == Ok::<Metric, ProfError>(m),
            None => r == Err::<Metric, ProfError>(ProfError::InvalidSortMetric),
        },
{
    match value {
        None => Ok(Metric::NAN),
        Some(s) => {
            if same_text(s, "ir") {
                Ok(Metric::Ir)
            } else if same_text(s, "i1mr") {
                Ok(Metric::I1mr)
            } else if same_text(s, "ilmr") {
                Ok(Metric::ILmr)
            } else if same_text(s, "dr") {
                Ok(Metric::Dr)
            } else if same_text(s, "d1mr") {
                Ok(Metric::D1mr)
            } else if same_text(s, "dlmr") {
                Ok(Metric::DLmr)
            } else if same_text(s, "dw") {
                Ok(Metric::Dw)
            } else if same_text(s, "d1mw") {
                Ok(Metric::D1mw)
            } else if same_text(s, "dlmw") {
                Ok(Metric::DLmw)
            } else if same_text(s, "none") {
                Ok(Metric::NAN)
            } else {
                Err(ProfError::InvalidSortMetric)
            }
        },
    }
}

/// The empty report of the profiling tool that `tool` names: `callgrind` or `cachegrind`.
pub fn get_profiler(tool: Option<&str>) -> (r: Result<Profiler, ProfError>)
    ensures
        match tool {
            Some(s) if s@ == "callgrind"@ => r matches Ok(
                Profiler::CallGrind { total_instructions, instructions, functs },
            ) && total_instructions == 0 && instructions@.len() == 0 && functs@.len() == 0,
            Some(s) if s@ == "cachegrind"@ => r matches Ok(
                Profiler::CacheGrind { ir, i1mr, ilmr, dr, d1mr, dlmr, dw, d1mw, dlmw, data, functs },
            ) && ir == 0 && i1mr == 0 && ilmr == 0 && dr == 0 && d1mr == 0 && dlmr == 0 && dw == 0
                && d1mw == 0 && dlmw == 0 && data@.len() == 0 && functs@.len() == 0,
            _ => r == Err::<Profiler, ProfError>(ProfError::InvalidProfiler),
        },
{
    match tool {
        Some(s) => {
            if same_text(s, "callgrind") {
                Ok(Profiler::new_callgrind())
            } else if same_text(s, "cachegrind") {
                Ok(Profiler::new_cachegrind())
            } else {
                Err(ProfError::InvalidProfiler)
            }
        },
        None => Err(ProfError::InvalidProfiler),
    }
}

/// The row limit that a value gives: no value means every row; otherwise it must be a
/// count (thousands separators allowed) that fits in `usize`.
pub fn get_num(value: Option<&str>) -> (r: Result<usize, ProfError>)
    ensures
        value is None ==> r == Ok::<usize, ProfError>(usize::MAX),
        value matches Some(s) ==> match count_of(s@) {
            Some(n) if n <= usize::MAX => r == Ok::<usize, ProfError>(n as usize),
            _ => r == Err::<usize, ProfError>(ProfError::InvalidNum),
        },
{
    match value {
        None => Ok(usize::MAX),
        Some(s) => match parse_count(&chars_of(s)) {
            Some(n) => {
                if n <= usize::MAX as u64 {
                    Ok(n as usize)
                } else {
                    Err(ProfError::InvalidNum)
                }
            },
            None => Err(ProfError::InvalidNum),
        },
    }
}

} // verus!
