use cargo_profiler::argparse::{get_num, get_profiler, get_sort_metric};
use cargo_profiler::err::ProfError;
use cargo_profiler::parse::cachegrind::Metric;
use cargo_profiler::profiler::Profiler;

#[test]
fn test_get_profiler() {
    assert!(matches!(get_profiler(Some("callgrind")), Ok(Profiler::CallGrind { .. })));
    assert!(matches!(get_profiler(Some("cachegrind")), Ok(Profiler::CacheGrind { .. })));
    assert!(matches!(get_profiler(Some("massif")), Err(ProfError::InvalidProfiler)));
    assert!(matches!(get_profiler(None), Err(ProfError::InvalidProfiler)));
}

#[test]
fn test_get_sort_metric() {
    assert_eq!(get_sort_metric(Some("ir")).ok(), Some(Metric::Ir));
    assert_eq!(get_sort_metric(Some("i1mr")).ok(), Some(Metric::I1mr));
    assert_eq!(get_sort_metric(Some("ilmr")).ok(), Some(Metric::ILmr));
    assert_eq!(get_sort_metric(Some("dr")).ok(), Some(Metric::Dr));
    assert_eq!(get_sort_metric(Some("d1mr")).ok(), Some(Metric::D1mr));
    assert_eq!(get_sort_metric(Some("dlmr")).ok(), Some(Metric::DLmr));
    assert_eq!(get_sort_metric(Some("dw")).ok(), Some(Metric::Dw));
    assert_eq!(get_sort_metric(Some("d1mw")).ok(), Some(Metric::D1mw));
    assert_eq!(get_sort_metric(Some("dlmw")).ok(), Some(Metric::DLmw));
    assert_eq!(get_sort_metric(Some("none")).ok(), Some(Metric::NAN));
    assert_eq!(get_sort_metric(None).ok(), Some(Metric::NAN));
    assert!(matches!(get_sort_metric(Some("IR")), Err(ProfError::InvalidSortMetric)));
}

#[test]
fn row_limit_values() {
    assert_eq!(get_num(None).ok(), Some(usize::MAX));
    assert_eq!(get_num(Some("25")).ok(), Some(25));
    assert_eq!(get_num(Some("1,000")).ok(), Some(1000));
    assert!(matches!(get_num(Some("-3")), Err(ProfError::InvalidNum)));
    assert!(matches!(get_num(Some("ten")), Err(ProfError::InvalidNum)));
}

#[test]
fn error_texts() {
    assert_eq!(ProfError::MisalignedData.description(), "Misaligned Data. File bug.");
    assert_eq!(ProfError::IOError("disk gone".to_string()).description(), "disk gone");
    assert_eq!(
        ProfError::IOError("disk gone".to_string()).message(),
        "IO error: disk gone -- please file a bug."
    );
    assert_eq!(
        ProfError::CompilationError("app".to_string(), "boom".to_string()).message(),
        "Failed to compile app.\n\nboom"
    );
    assert_eq!(
        ProfError::OutOfMemoryError.message(),
        "Valgrind's memory management: out of memory. Valgrind cannot continue. Sorry. "
    );
}
