use swc_jsx::position::{LineCol, LineColMapping, OffsetOutOfRange};

#[test]
fn empty_source_has_only_the_sentinel() {
    let m = LineColMapping::new("");
    assert_eq!(m.len(), 1);
    assert_eq!(m.lookup(0), Ok(LineCol { line: 1, col: 0 }));
    assert_eq!(m.lookup(1), Err(OffsetOutOfRange { offset: 1 }));
}

#[test]
fn single_line_counts_columns() {
    let m = LineColMapping::new("abc");
    assert_eq!(m.len(), 4);
    assert_eq!(m.lookup(0), Ok(LineCol { line: 1, col: 0 }));
    assert_eq!(m.lookup(1), Ok(LineCol { line: 1, col: 1 }));
    assert_eq!(m.lookup(2), Ok(LineCol { line: 1, col: 2 }));
    assert_eq!(m.lookup(3), Ok(LineCol { line: 1, col: 3 }));
    assert_eq!(m.lookup(4), Err(OffsetOutOfRange { offset: 4 }));
}

#[test]
fn newline_advances_line_and_resets_column() {
    let m = LineColMapping::new("a\nb");
    assert_eq!(m.lookup(0), Ok(LineCol { line: 1, col: 0 }));
    assert_eq!(m.lookup(1), Ok(LineCol { line: 1, col: 1 }));
    assert_eq!(m.lookup(2), Ok(LineCol { line: 2, col: 0 }));
    assert_eq!(m.lookup(3), Ok(LineCol { line: 2, col: 1 }));
}

#[test]
fn consecutive_newlines_each_advance_a_line() {
    let m = LineColMapping::new("\n\n");
    assert_eq!(m.lookup(0), Ok(LineCol { line: 1, col: 0 }));
    assert_eq!(m.lookup(1), Ok(LineCol { line: 2, col: 0 }));
    assert_eq!(m.lookup(2), Ok(LineCol { line: 3, col: 0 }));
}

#[test]
fn line_is_one_plus_newlines_before_offset() {
    let src = "ab\ncd\ne";
    let m = LineColMapping::new(src);
    for o in 0..=src.len() {
        let newlines = src[..o].chars().filter(|&c| c == '\n').count();
        assert_eq!(m.lookup(o).unwrap().line, 1 + newlines);
    }
}

#[test]
fn col_is_distance_from_last_newline() {
    let src = "ab\ncd\ne";
    let m = LineColMapping::new(src);
    for o in 0..=src.len() {
        let last_nl = src[..o].rfind('\n').map(|p| p as isize).unwrap_or(-1);
        assert_eq!(m.lookup(o).unwrap().col as isize, o as isize - last_nl - 1);
    }
}

#[test]
fn lookup_is_pure_across_tables_of_the_same_source() {
    let m1 = LineColMapping::new("x\ny z\n");
    let m2 = LineColMapping::new("x\ny z\n");
    for o in 0..=6 {
        assert_eq!(m1.lookup(o), m2.lookup(o));
        assert_eq!(m1.lookup(o), m1.lookup(o));
    }
}
