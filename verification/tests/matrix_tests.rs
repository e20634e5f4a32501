use dense_octet_matrix::octet::Octet;
use dense_octet_matrix::octet_matrix::DenseOctetMatrix;

fn filled(height: usize, width: usize) -> DenseOctetMatrix {
    let mut m = DenseOctetMatrix::new(height, width, 0);
    for r in 0..height {
        for c in 0..width {
            m.set(r, c, Octet::new((r * width + c + 1) as u8));
        }
    }
    m
}

fn snapshot(m: &DenseOctetMatrix) -> Vec<Vec<u8>> {
    let mut rows = Vec::new();
    for r in 0..m.height() {
        let mut row = Vec::new();
        for c in 0..m.width() {
            row.push(m.get(r, c).byte());
        }
        rows.push(row);
    }
    rows
}

#[test]
fn shape_invariant_wide() {
    let mut m = DenseOctetMatrix::new(3, 5, 0);
    assert_eq!(m.height(), 3);
    assert_eq!(m.width(), 5);
    assert_eq!(m.elements.len(), 15);
    for r in 0..3 {
        for c in 0..5 {
            assert_eq!(m.get(r, c).byte(), 0);
            m.set(r, c, Octet::new(77));
            assert_eq!(m.get(r, c).byte(), 77);
        }
    }
    assert_eq!(m.elements.len(), 15);
}

#[test]
fn shape_invariant_tall() {
    let mut m = DenseOctetMatrix::new(5, 3, 9);
    assert_eq!(m.height(), 5);
    assert_eq!(m.width(), 3);
    assert_eq!(m.elements.len(), 15);
    for r in 0..5 {
        for c in 0..3 {
            assert_eq!(m.get(r, c).byte(), 0);
            m.set(r, c, Octet::new((40 + r + c) as u8));
            assert_eq!(m.get(r, c).byte(), (40 + r + c) as u8);
        }
    }
    assert_eq!(m.elements.len(), 15);
}

#[test]
fn set_leaves_other_entries() {
    let mut m = filled(4, 4);
    let before = snapshot(&m);
    m.set(2, 1, Octet::new(200));
    for r in 0..4 {
        for c in 0..4 {
            if (r, c) == (2, 1) {
                assert_eq!(m.get(r, c).byte(), 200);
            } else {
                assert_eq!(m.get(r, c).byte(), before[r][c]);
            }
        }
    }
}

#[test]
fn swap_rows_nonsquare_far_apart() {
    let mut m = filled(4, 7);
    let before = snapshot(&m);
    m.swap_rows(0, 3);
    for c in 0..7 {
        assert_eq!(m.get(0, c).byte(), before[3][c]);
        assert_eq!(m.get(3, c).byte(), before[0][c]);
    }
    for r in [1, 2] {
        for c in 0..7 {
            assert_eq!(m.get(r, c).byte(), before[r][c]);
        }
    }
}

#[test]
fn swap_rows_nonsquare_adjacent() {
    let mut m = filled(4, 7);
    let before = snapshot(&m);
    m.swap_rows(1, 2);
    for c in 0..7 {
        assert_eq!(m.get(1, c).byte(), before[2][c]);
        assert_eq!(m.get(2, c).byte(), before[1][c]);
    }
    for r in [0, 3] {
        for c in 0..7 {
            assert_eq!(m.get(r, c).byte(), before[r][c]);
        }
    }
}

#[test]
fn swap_rows_tall_matrix() {
    let mut m = filled(7, 4);
    let before = snapshot(&m);
    m.swap_rows(2, 6);
    for c in 0..4 {
        assert_eq!(m.get(2, c).byte(), before[6][c]);
        assert_eq!(m.get(6, c).byte(), before[2][c]);
    }
}

#[test]
fn swap_rows_with_itself_is_noop() {
    let mut m = filled(4, 7);
    let before = snapshot(&m);
    m.swap_rows(2, 2);
    assert_eq!(snapshot(&m), before);
}

#[test]
fn swap_rows_twice_restores() {
    let mut m = filled(4, 7);
    let before = snapshot(&m);
    m.swap_rows(0, 3);
    m.swap_rows(0, 3);
    assert_eq!(snapshot(&m), before);
}

#[test]
fn swap_columns_hint_zero() {
    let mut m = filled(4, 5);
    let before = snapshot(&m);
    m.swap_columns(1, 3, 0);
    for r in 0..4 {
        assert_eq!(m.get(r, 1).byte(), before[r][3]);
        assert_eq!(m.get(r, 3).byte(), before[r][1]);
        for c in [0, 2, 4] {
            assert_eq!(m.get(r, c).byte(), before[r][c]);
        }
    }
}

#[test]
fn swap_columns_hint_midrange() {
    let mut m = filled(4, 5);
    let before = snapshot(&m);
    m.swap_columns(0, 4, 2);
    for r in 0..2 {
        for c in 0..5 {
            assert_eq!(m.get(r, c).byte(), before[r][c]);
        }
    }
    for r in 2..4 {
        assert_eq!(m.get(r, 0).byte(), before[r][4]);
        assert_eq!(m.get(r, 4).byte(), before[r][0]);
        for c in [1, 2, 3] {
            assert_eq!(m.get(r, c).byte(), before[r][c]);
        }
    }
}

#[test]
fn swap_columns_hint_height_is_noop() {
    let mut m = filled(4, 5);
    let before = snapshot(&m);
    m.swap_columns(1, 3, 4);
    assert_eq!(snapshot(&m), before);
}

#[test]
fn swap_columns_twice_restores() {
    let mut m = filled(5, 6);
    let before = snapshot(&m);
    m.swap_columns(2, 5, 1);
    m.swap_columns(2, 5, 1);
    assert_eq!(snapshot(&m), before);
}

#[test]
fn swap_columns_with_itself_is_noop() {
    let mut m = filled(5, 6);
    let before = snapshot(&m);
    m.swap_columns(3, 3, 0);
    assert_eq!(snapshot(&m), before);
}

#[test]
fn size_in_bytes_counts_struct_and_elements() {
    let m = DenseOctetMatrix::new(6, 7, 0);
    let expected = std::mem::size_of::<DenseOctetMatrix>() + 42;
    assert_eq!(m.size_in_bytes(), expected);
}

#[test]
fn degenerate_shapes() {
    let mut wide = DenseOctetMatrix::new(0, 5, 0);
    assert_eq!(wide.height(), 0);
    assert_eq!(wide.width(), 5);
    assert_eq!(wide.elements.len(), 0);
    wide.swap_columns(1, 3, 0);
    assert_eq!(wide.elements.len(), 0);

    let mut tall = DenseOctetMatrix::new(5, 0, 0);
    assert_eq!(tall.height(), 5);
    assert_eq!(tall.width(), 0);
    assert_eq!(tall.elements.len(), 0);
    tall.swap_rows(0, 4);
    tall.mul_assign_row(2, &Octet::new(7));
    assert_eq!(tall.elements.len(), 0);
}
