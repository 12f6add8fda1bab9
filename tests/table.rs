use cargo_profiler::err::ProfError;
use cargo_profiler::rank::rank_by;
use cargo_profiler::parse::cachegrind::sort_matrix;
use cargo_profiler::table::{assemble, take_rows, MetricTable};

#[test]
fn rank_is_descending_and_stable() {
    assert_eq!(rank_by(&vec![3, 7, 3, 9, 7]), vec![3, 1, 4, 0, 2]);
    assert_eq!(rank_by(&vec![]), Vec::<usize>::new());
    assert_eq!(rank_by(&vec![5, 5, 5]), vec![0, 1, 2]);
}

#[test]
fn misaligned_rows_are_refused() {
    let rows = vec![vec![1, 2, 3], vec![4, 5]];
    assert!(matches!(assemble(&rows), Err(ProfError::MisalignedData)));
    assert!(matches!(assemble(&vec![]), Err(ProfError::MisalignedData)));
}

#[test]
fn table_rows_and_columns() {
    let t = assemble(&vec![vec![1, 2], vec![3, 4], vec![5, 6]]).ok().unwrap();
    assert_eq!(t.len(), 3);
    assert_eq!(t.row(1), vec![3, 4]);
    assert_eq!(t.column(1), vec![2, 4, 6]);
    assert_eq!(t.column_totals(2), vec![9, 12]);
    assert_eq!(MetricTable::empty(9).len(), 0);
}

#[test]
fn sorting_a_matrix() {
    let t = assemble(&vec![vec![1, 20], vec![3, 10], vec![2, 30]]).ok().unwrap();
    let (sorted, idx) = sort_matrix(&t, 1);
    assert_eq!(idx, vec![2, 0, 1]);
    assert_eq!(sorted.row(0), vec![2, 30]);
    assert_eq!(sorted.row(2), vec![3, 10]);
}

#[test]
fn rows_keep_their_names() {
    let t = assemble(&vec![vec![1], vec![2], vec![3]]).ok().unwrap();
    let names = vec!["a".to_string(), "b".to_string(), "c".to_string()];
    let (data, kept) = take_rows(&t, &names, &vec![2, 0, 1], 2);
    assert_eq!(kept, vec!["c".to_string(), "a".to_string()]);
    assert_eq!(data.len(), 2);
    assert_eq!(data.row(0), vec![3]);
    assert_eq!(data.row(1), vec![1]);
}
