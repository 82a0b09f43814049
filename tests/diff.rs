use deet::{diff_lines, lcs, DiffLine, Grid};

fn lines(s: &str) -> Vec<String> {
    s.chars().map(|c| c.to_string()).collect()
}

#[test]
fn test_lcs() {
    let mut expected = Grid::new(5, 4);
    expected.set(1, 1, 1).unwrap();
    expected.set(1, 2, 1).unwrap();
    expected.set(1, 3, 1).unwrap();
    expected.set(2, 1, 1).unwrap();
    expected.set(2, 2, 1).unwrap();
    expected.set(2, 3, 2).unwrap();
    expected.set(3, 1, 1).unwrap();
    expected.set(3, 2, 1).unwrap();
    expected.set(3, 3, 2).unwrap();
    expected.set(4, 1, 1).unwrap();
    expected.set(4, 2, 2).unwrap();
    expected.set(4, 3, 2).unwrap();

    let result = lcs(&lines("abcd"), &lines("adb"));
    assert_eq!(result.size(), expected.size());
    for row in 0..expected.size().0 {
        for col in 0..expected.size().1 {
            assert_eq!(result.get(row, col), expected.get(row, col));
        }
    }
}

#[test]
fn lcs_of_empty_sequences_is_one_zero_cell() {
    let result = lcs(&Vec::new(), &Vec::new());
    assert_eq!(result.size(), (1, 1));
    assert_eq!(result.get(0, 0), Some(0));
}

#[test]
fn lcs_of_equal_lines_counts_all_of_them() {
    let a = vec!["first".to_string(), "second".to_string(), "third".to_string()];
    let result = lcs(&a, &a);
    assert_eq!(result.get(3, 3), Some(3));
    assert_eq!(result.get(2, 3), Some(2));
}

#[test]
fn grid_rejects_access_outside() {
    let mut g = Grid::new(2, 3);
    assert_eq!(g.get(2, 0), None);
    assert_eq!(g.get(0, 3), None);
    assert!(g.set(2, 0, 7).is_err());
    assert!(g.set(1, 2, 7).is_ok());
    assert_eq!(g.get(1, 2), Some(7));
    assert_eq!(g.get(0, 0), Some(0));
}

#[test]
fn diff_reads_the_table_back_in_order() {
    let a = lines("abcd");
    let b = lines("adb");
    let table = lcs(&a, &b);
    let d = diff_lines(&table, &a, &b, a.len(), b.len());
    assert_eq!(
        d,
        vec![
            DiffLine::Same(0, 0),
            DiffLine::Removed(1),
            DiffLine::Removed(2),
            DiffLine::Same(3, 1),
            DiffLine::Added(2),
        ]
    );
}

#[test]
fn diff_against_nothing_removes_or_adds_everything() {
    let a = lines("xy");
    let none: Vec<String> = Vec::new();
    let t1 = lcs(&a, &none);
    assert_eq!(diff_lines(&t1, &a, &none, 2, 0), vec![DiffLine::Removed(0), DiffLine::Removed(1)]);
    let t2 = lcs(&none, &a);
    assert_eq!(diff_lines(&t2, &none, &a, 0, 2), vec![DiffLine::Added(0), DiffLine::Added(1)]);
}
