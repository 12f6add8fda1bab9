use cargo_profiler::err::ProfError;
use cargo_profiler::parse::cachegrind::{CacheGrindParser, Metric};
use cargo_profiler::parse::callgrind::CallGrindParser;
use cargo_profiler::profiler::Profiler;

const CACHE_REPORT: &str = "Ir I1mr ILmr Dr D1mr DLmr Dw D1mw DLmw  file:function\n\
100 10 5 50 5 2 20 2 1  /src/foo\n\
200 20 10 100 10 4 40 4 2  /src/bar\n";

const CALL_REPORT: &str = "--------------------------------------------------------------------------------\n\
Ir\n\
--------------------------------------------------------------------------------\n\
3,036,209  PROGRAM TOTALS\n\
\n\
Ir  file:function\n\
2,000,000  ???:_int_malloc [/usr/lib/libc-2.23.so]\n\
1,036,209  /build/src/main.rs:cargo_profiler::main [/target/debug/app]\n";

fn cache(output: &str, num: usize, metric: Metric) -> Result<Profiler, ProfError> {
    Profiler::new_cachegrind().cachegrind_parse(output, num, metric)
}

fn call(output: &str, num: usize) -> Result<Profiler, ProfError> {
    Profiler::new_callgrind().callgrind_parse(output, num)
}

#[test]
fn test_cachegrind_parse_1() {
    match cache(CACHE_REPORT, usize::MAX, Metric::Ir) {
        Ok(Profiler::CacheGrind { ir, i1mr, dlmw, data, functs, .. }) => {
            assert_eq!(ir, 300);
            assert_eq!(i1mr, 30);
            assert_eq!(dlmw, 3);
            assert_eq!(functs, vec!["bar".to_string(), "foo".to_string()]);
            assert_eq!(data.len(), 2);
            assert_eq!(data.row(0), vec![200, 20, 10, 100, 10, 4, 40, 4, 2]);
            assert_eq!(data.row(1), vec![100, 10, 5, 50, 5, 2, 20, 2, 1]);
        }
        _ => panic!("expected a cache report"),
    }
}

#[test]
fn test_cachegrind_parse_2() {
    let bad_field = "1,2x3 4 5 6 7 8 9 10 11 /a/b\n";
    assert!(matches!(cache(bad_field, 10, Metric::Ir), Err(ProfError::RegexError)));
    let too_few = "5 /a/b\n";
    assert!(matches!(cache(too_few, 10, Metric::Ir), Err(ProfError::RegexError)));
}

#[test]
fn test_cachegrind_parse_3() {
    let output = format!("{}==1== Valgrind's memory management: out of memory:\n", CACHE_REPORT);
    assert!(matches!(cache(&output, 10, Metric::Ir), Err(ProfError::OutOfMemoryError)));
}

#[test]
fn cachegrind_limit_keeps_totals() {
    match cache(CACHE_REPORT, 1, Metric::Ir) {
        Ok(Profiler::CacheGrind { ir, dr, data, functs, .. }) => {
            assert_eq!(ir, 300);
            assert_eq!(dr, 150);
            assert_eq!(functs, vec!["bar".to_string()]);
            assert_eq!(data.len(), 1);
            assert_eq!(data.row(0)[0], 200);
        }
        _ => panic!("expected a cache report"),
    }
}

#[test]
fn cachegrind_no_sort_keeps_order() {
    match cache(CACHE_REPORT, 10, Metric::NAN) {
        Ok(Profiler::CacheGrind { data, functs, .. }) => {
            assert_eq!(functs, vec!["foo".to_string(), "bar".to_string()]);
            assert_eq!(data.row(0)[0], 100);
        }
        _ => panic!("expected a cache report"),
    }
}

#[test]
fn cachegrind_sorts_by_other_column_with_stable_ties() {
    let output = "1 5 0 0 0 0 0 0 0  /x/first\n\
                  2 9 0 0 0 0 0 0 0  /x/second\n\
                  3 5 0 0 0 0 0 0 0  /x/third\n";
    match cache(output, 10, Metric::I1mr) {
        Ok(Profiler::CacheGrind { functs, .. }) => {
            assert_eq!(functs, vec!["second".to_string(), "first".to_string(), "third".to_string()]);
        }
        _ => panic!("expected a cache report"),
    }
}

#[test]
fn cachegrind_cleans_names() {
    let output = "1,000 0 0 0 0 0 0 0 0  /src/lib.rs:core$LT$u8$GT$::fmt::h1234\n";
    match cache(output, 10, Metric::Ir) {
        Ok(Profiler::CacheGrind { ir, functs, .. }) => {
            assert_eq!(ir, 1000);
            assert_eq!(functs, vec!["lib.rs:coreu8".to_string()]);
        }
        _ => panic!("expected a cache report"),
    }
}

#[test]
fn cachegrind_without_data_is_misaligned() {
    let output = "no data here\n";
    assert!(matches!(cache(output, 10, Metric::Ir), Err(ProfError::MisalignedData)));
    assert!(matches!(cache("", 10, Metric::NAN), Err(ProfError::MisalignedData)));
}

#[test]
fn test_callgrind_parse_1() {
    let output = "==6072==     Valgrind's memory management: out of memory:\n ==6072==     \
                  Whatever the reason, Valgrind cannot continue.  Sorry.";
    let num = 10;
    let profiler = Profiler::new_callgrind();
    let is_err = profiler.callgrind_parse(&output, num).is_err();
    assert!(is_err && true)
}

#[test]
fn test_callgrind_parse_2() {
    match call(CALL_REPORT, 10) {
        Ok(Profiler::CallGrind { total_instructions, instructions, functs }) => {
            assert_eq!(total_instructions, 3_036_209);
            assert_eq!(instructions, vec![2_000_000, 1_036_209]);
            assert_eq!(
                functs,
                vec!["???:_int_malloc".to_string(), "main.rs:cargo_profiler".to_string()]
            );
        }
        _ => panic!("expected a call report"),
    }
}

#[test]
fn test_callgrind_parse_3() {
    match call(CALL_REPORT, 1) {
        Ok(Profiler::CallGrind { total_instructions, instructions, functs }) => {
            assert_eq!(total_instructions, 3_036_209);
            assert_eq!(instructions, vec![2_000_000]);
            assert_eq!(functs, vec!["???:_int_malloc".to_string()]);
        }
        _ => panic!("expected a call report"),
    }
}

#[test]
fn callgrind_out_of_memory_beats_data() {
    let output = format!("{}out of memory\n", CALL_REPORT);
    assert!(matches!(call(&output, 10), Err(ProfError::OutOfMemoryError)));
}

#[test]
fn callgrind_malformed_line_is_an_error() {
    let output = "1,234 /no/double/space\n";
    assert!(matches!(call(output, 10), Err(ProfError::RegexError)));
}

#[test]
fn callgrind_empty_report() {
    match call("", 10) {
        Ok(Profiler::CallGrind { total_instructions, instructions, functs }) => {
            assert_eq!(total_instructions, 0);
            assert!(instructions.is_empty());
            assert!(functs.is_empty());
        }
        _ => panic!("expected a call report"),
    }
}

#[test]
fn callgrind_name_after_several_spaces() {
    match call("5   src/lib/foo\n", 10) {
        Ok(Profiler::CallGrind { total_instructions, instructions, functs }) => {
            assert_eq!(total_instructions, 5);
            assert_eq!(instructions, vec![5]);
            assert_eq!(functs, vec!["foo".to_string()]);
        }
        _ => panic!("expected a call report"),
    }
}
