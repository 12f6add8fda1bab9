use cargo_profiler::display::{fmt_percent, fmt_ratio, fmt_thousands_sep, percent_of, severity, Severity};
use cargo_profiler::parse::callgrind::CallGrindParser;
use cargo_profiler::parse::cachegrind::{CacheGrindParser, Metric};
use cargo_profiler::profiler::Profiler;

#[test]
fn test_fmt_thousands_sep() {
    let s = fmt_thousands_sep(1234567, ',');
    assert_eq!(s, "1,234,567");
    assert_eq!(s.matches(',').count(), 2);
    assert_eq!(fmt_thousands_sep(999, ','), "999");
    assert_eq!(fmt_thousands_sep(0, ','), "0");
    assert_eq!(fmt_thousands_sep(1000, ','), "1,000");
    assert_eq!(fmt_thousands_sep(1_000_000_000_000, '.'), "1.000.000.000.000");
}

#[test]
fn ratio_text() {
    assert_eq!(fmt_ratio(1, 3), "0.33");
    assert_eq!(fmt_ratio(2, 3), "0.67");
    assert_eq!(fmt_ratio(1, 8), "0.13");
    assert_eq!(fmt_ratio(5, 5), "1.00");
    assert_eq!(fmt_ratio(0, 0), "NaN");
    assert_eq!(fmt_ratio(4, 0), "inf");
}

#[test]
fn percent_text() {
    assert_eq!(fmt_percent(1, 3), "33.3");
    assert_eq!(fmt_percent(2, 3), "66.7");
    assert_eq!(fmt_percent(3, 3), "100.0");
    assert_eq!(fmt_percent(0, 0), "NaN");
}

#[test]
fn severity_boundaries() {
    assert_eq!(severity(50, 100), Severity::High);
    assert_eq!(severity(30, 100), Severity::Medium);
    assert_eq!(severity(29_999, 100_000), Severity::Low);
    assert_eq!(severity(49_999, 100_000), Severity::Medium);
    assert_eq!(severity(0, 0), Severity::Low);
    assert_eq!(severity(5, 0), Severity::High);
}

#[test]
fn whole_percent() {
    assert_eq!(percent_of(1, 3), 33);
    assert_eq!(percent_of(2, 3), 66);
    assert_eq!(percent_of(5, 0), 0);
    assert_eq!(percent_of(u128::MAX, 1), u128::MAX);
}

#[test]
fn call_report_lines() {
    let output = "75  /a/hot\n25  /a/cold\n";
    let report = Profiler::new_callgrind().callgrind_parse(output, 10).ok().unwrap();
    let lines = report.display_lines();
    let texts: Vec<String> = lines.iter().map(|l| l.text.clone()).collect();
    assert_eq!(texts[1], "Total Instructions...100");
    assert_eq!(texts[3], "75 (75.0%) hot");
    assert_eq!(lines[3].severity, Some(Severity::High));
    assert_eq!(texts[4].chars().filter(|&c| c == '-').count(), texts[4].len());
    assert_eq!(texts[5], "25 (25.0%) cold");
    assert_eq!(lines[5].severity, Some(Severity::Low));
    assert_eq!(lines.len(), 7);
}

#[test]
fn cache_report_lines() {
    let output = "1,000 10 0 500 5 0 500 5 0  /src/work\n";
    let report = Profiler::new_cachegrind().cachegrind_parse(output, 10, Metric::Ir).ok().unwrap();
    let texts: Vec<String> = report.display_lines().iter().map(|l| l.text.clone()).collect();
    assert_eq!(texts[1], "Total Memory Accesses...2,000");
    assert_eq!(texts[3], "Total L1 I-Cache Misses...10 (0%)");
    assert_eq!(texts[5], "Total L1 D-Cache Misses...10 (0%)");
    assert_eq!(texts[9], "1.00 1.00 NaN 1.00 1.00 NaN 1.00 1.00 NaN work");
}
