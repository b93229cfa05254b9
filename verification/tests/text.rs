use agent_doctor::text::LineIndex;

#[test]
fn line_col_is_one_based() {
    let source = "a\nbc\nd";
    let index = LineIndex::new(source);
    assert_eq!(index.line_col(0), (1, 1)); // 'a'
    assert_eq!(index.line_col(2), (2, 1)); // 'b'
    assert_eq!(index.line_col(3), (2, 2)); // 'c'
    assert_eq!(index.line_col(5), (3, 1)); // 'd'
}

#[test]
fn line_text_trims_and_bounds() {
    let source = "first  \nsecond line\n";
    let index = LineIndex::new(source);
    assert_eq!(index.line_text(source, 0), "first");
    assert_eq!(index.line_text(source, 8), "second line");
}

#[test]
fn offsets_past_the_end_fall_on_the_last_line() {
    let source = "ab\ncd";
    let index = LineIndex::new(source);
    assert_eq!(index.line_col(100), (2, 98));
    assert_eq!(index.line_text(source, 100), "cd");
}

#[test]
fn a_newline_belongs_to_the_line_it_ends() {
    let source = "ab\ncd\n";
    let index = LineIndex::new(source);
    assert_eq!(index.line_col(2), (1, 3));
    assert_eq!(index.line_col(3), (2, 1));
    assert_eq!(index.line_col(6), (3, 1));
    assert_eq!(index.line_text(source, 6), "");
}

#[test]
fn columns_count_bytes_and_trimming_is_unicode_aware() {
    // 'é' is two bytes; U+3000 is an ideographic space.
    let source = "é x\u{3000}\t\nz";
    let index = LineIndex::new(source);
    assert_eq!(index.line_col(3), (1, 4));
    assert_eq!(index.line_text(source, 0), "é x");
    assert_eq!(index.line_col(9), (2, 1));
}

#[test]
fn every_line_start_is_column_one() {
    let source = "héllo\n\nwörld  \r\nend";
    let index = LineIndex::new(source);
    let starts: Vec<usize> = std::iter::once(0)
        .chain(source.bytes().enumerate().filter(|(_, b)| *b == b'\n').map(|(i, _)| i + 1))
        .collect();
    for (i, start) in starts.iter().enumerate() {
        assert_eq!(index.line_col(*start), ((i + 1) as u32, 1));
        let _ = index.line_text(source, *start);
    }
    assert_eq!(index.line_text(source, starts[2]), "wörld");
}

#[test]
fn line_is_one_plus_newlines_before_the_offset() {
    let source = "ab\n\ncd\nef";
    let index = LineIndex::new(source);
    for offset in 0..=source.len() {
        let before = &source.as_bytes()[..offset];
        let newlines = before.iter().filter(|b| **b == b'\n').count();
        let start = before.iter().rposition(|b| *b == b'\n').map_or(0, |i| i + 1);
        assert_eq!(index.line_col(offset), ((1 + newlines) as u32, (offset - start + 1) as u32));
    }
}

#[test]
fn any_offset_gives_one_trimmed_line() {
    let source = "one  \n\ttwo\t\n\n  three x \n";
    let index = LineIndex::new(source);
    for offset in [0usize, 3, 5, 6, 9, 12, 13, 14, 20, 24, 25, 1000] {
        let text = index.line_text(source, offset);
        assert!(!text.contains('\n'));
        assert_eq!(text, text.trim_end());
    }
    assert_eq!(index.line_text(source, 9), "\ttwo");
    assert_eq!(index.line_text(source, 1000), "");
}
