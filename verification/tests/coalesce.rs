use edit0r::segment::coalesce;
use edit0r::segment::Run;

#[test]
fn empty_line_yields_one_synthetic_run() {
    let row: Vec<usize> = vec![];
    let runs = coalesce(&row);
    assert_eq!(runs.len(), 1);
    assert_eq!(runs[0], Run { face_id: 0, start: 0, len: 1 });
}

#[test]
fn uniform_row_is_one_run() {
    let row: Vec<usize> = vec![5, 5, 5, 5];
    let runs = coalesce(&row);
    assert_eq!(runs, vec![Run { face_id: 5, start: 0, len: 4 }]);
}

#[test]
fn alternating_faces_split_into_runs() {
    let row: Vec<usize> = vec![1, 2, 2, 1];
    let runs = coalesce(&row);
    assert_eq!(
        runs,
        vec![
            Run { face_id: 1, start: 0, len: 1 },
            Run { face_id: 2, start: 1, len: 2 },
            Run { face_id: 1, start: 3, len: 1 },
        ]
    );
}

#[test]
fn single_cell_row() {
    let row: Vec<usize> = vec![9];
    let runs = coalesce(&row);
    assert_eq!(runs, vec![Run { face_id: 9, start: 0, len: 1 }]);
}

#[test]
fn runs_partition_the_row() {
    let row: Vec<usize> = vec![0, 0, 7, 7, 7, 0, 3, 3, 0, 0, 0];
    let runs = coalesce(&row);
    // Contiguous and ordered: each run starts where the previous ended.
    assert_eq!(runs[0].start, 0);
    let mut expected_start: usize = 0;
    let mut total: usize = 0;
    for k in 0..runs.len() {
        assert_eq!(runs[k].start, expected_start);
        assert!(runs[k].len >= 1);
        for c in runs[k].start..runs[k].start + runs[k].len {
            assert_eq!(row[c], runs[k].face_id);
        }
        if k + 1 < runs.len() {
            assert_ne!(runs[k].face_id, runs[k + 1].face_id);
        }
        expected_start = runs[k].start + runs[k].len;
        total += runs[k].len;
    }
    // The lengths sum to the row's length: no gaps, no overlaps.
    assert_eq!(total, row.len());
    assert_eq!(expected_start, row.len());
}
