use arith_core::extension::{ExtElem, FlatMatrixView, RowMajorMatrix};

fn ext(a: u64, b: u64) -> ExtElem {
    ExtElem { coeffs: vec![a, b] }
}

#[test]
fn flat_matrix() {
    let values = vec![ext(10, 11), ext(20, 21), ext(30, 31), ext(40, 41)];
    let m = RowMajorMatrix::new(values, 2, 2);
    let flat = FlatMatrixView::new(m);
    assert_eq!(flat.row_slice(0), vec![10, 11, 20, 21]);
    assert_eq!(flat.row_slice(1), vec![30, 31, 40, 41]);
}

#[test]
fn flat_matrix_dimensions() {
    let values = vec![ext(10, 11), ext(20, 21), ext(30, 31), ext(40, 41)];
    let m = RowMajorMatrix::new(values, 2, 2);
    let flat = FlatMatrixView::new(m);
    assert_eq!(flat.width(), 4);
    assert_eq!(flat.height(), 2);
}

#[test]
fn flat_iter_matches_row_slice() {
    let values = vec![ext(10, 11), ext(20, 21), ext(30, 31), ext(40, 41)];
    let m = RowMajorMatrix::new(values, 2, 2);
    let flat = FlatMatrixView::new(m);
    for r in 0..2 {
        let mut it = flat.row(r);
        let mut collected: Vec<u64> = Vec::new();
        while let Some(v) = it.next() {
            collected.push(v);
        }
        assert_eq!(collected, flat.row_slice(r));
    }
}

#[test]
fn flat_iter_exhausts() {
    let m = RowMajorMatrix::new(vec![ext(1, 2)], 1, 2);
    let flat = FlatMatrixView::new(m);
    let mut it = flat.row(0);
    assert_eq!(it.next(), Some(1));
    assert_eq!(it.next(), Some(2));
    assert_eq!(it.next(), None);
    assert_eq!(it.next(), None);
}

#[test]
fn empty_matrix() {
    let m = RowMajorMatrix::new(Vec::new(), 3, 2);
    let flat = FlatMatrixView::new(m);
    assert_eq!(flat.width(), 6);
    assert_eq!(flat.height(), 0);
}

#[test]
fn degree_three_extension() {
    let values = vec![
        ExtElem { coeffs: vec![1, 2, 3] },
        ExtElem { coeffs: vec![4, 5, 6] },
    ];
    let m = RowMajorMatrix::new(values, 1, 3);
    let flat = FlatMatrixView::new(m);
    assert_eq!(flat.width(), 3);
    assert_eq!(flat.height(), 2);
    assert_eq!(flat.row_slice(0), vec![1, 2, 3]);
    assert_eq!(flat.row_slice(1), vec![4, 5, 6]);
}
