use mandelbrot::render::RowResult;
use mandelbrot::reassemble::{reassemble, to_index_row, RenderError};

fn result_of(row: u32, counts: Vec<u32>) -> RowResult {
    RowResult { row, counts }
}

#[test]
fn reassemble_restores_row_order() {
    // Three rows delivered out of order come back sorted by row index.
    let results = vec![
        result_of(2, vec![20, 21]),
        result_of(0, vec![0, 1]),
        result_of(1, vec![10, 11]),
    ];
    let out = reassemble(&results, 2, 3).unwrap();
    assert_eq!(out.len(), 3);
    assert_eq!(out[0], vec![0u8, 1]);
    assert_eq!(out[1], vec![10u8, 11]);
    assert_eq!(out[2], vec![20u8, 21]);
}

#[test]
fn reassemble_shape_matches_request() {
    // Output row count equals the height, each row length equals the width.
    let results = vec![
        result_of(1, vec![5, 6, 7, 8]),
        result_of(0, vec![1, 2, 3, 4]),
    ];
    let out = reassemble(&results, 4, 2).unwrap();
    assert_eq!(out.len(), 2);
    assert!(out.iter().all(|r| r.len() == 4));
}

#[test]
fn reassemble_reduces_counts_mod_256() {
    let results = vec![result_of(0, vec![256, 257, 511, 1000])];
    let out = reassemble(&results, 4, 1).unwrap();
    assert_eq!(out[0], vec![0u8, 1, 255, 232]);
}

#[test]
fn reassemble_rejects_missing_row() {
    let results = vec![result_of(0, vec![1])];
    assert_eq!(reassemble(&results, 1, 2), Err(RenderError::RowCountMismatch));
}

#[test]
fn reassemble_rejects_duplicate_row() {
    let results = vec![result_of(0, vec![1]), result_of(0, vec![2])];
    assert_eq!(reassemble(&results, 1, 2), Err(RenderError::DuplicateRow));
}

#[test]
fn reassemble_rejects_row_out_of_range() {
    let results = vec![result_of(0, vec![1]), result_of(5, vec![2])];
    assert_eq!(reassemble(&results, 1, 2), Err(RenderError::RowIndexOutOfRange));
}

#[test]
fn reassemble_rejects_short_row() {
    let results = vec![result_of(0, vec![1, 2]), result_of(1, vec![3])];
    assert_eq!(reassemble(&results, 2, 2), Err(RenderError::RowLengthMismatch));
}

#[test]
fn index_row_wraps_counts() {
    let bytes = to_index_row(&vec![0, 255, 256, 300]);
    assert_eq!(bytes, vec![0u8, 255, 0, 44]);
}
