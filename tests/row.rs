use vt100::{Attrs, Cell, CellWidth, Color, Row};

fn plain(text: &str) -> Cell {
    Cell::with_text(text, CellWidth::Normal, Attrs::new())
}

fn wide(text: &str) -> Cell {
    Cell::with_text(text, CellWidth::Wide, Attrs::new())
}

fn continuation() -> Cell {
    Cell::with_text("", CellWidth::WideContinuation, Attrs::new())
}

fn blank_on(bg: Color) -> Cell {
    let mut c = Cell::new();
    c.clear(bg);
    c
}

fn row_of(cells: Vec<Cell>) -> Row {
    let mut row = Row::new(cells.len() as u16);
    for (i, c) in cells.into_iter().enumerate() {
        *row.get_mut(i as u16).unwrap() = c;
    }
    row
}

#[test]
fn new_row_is_blank_and_unwrapped() {
    let row = Row::new(4);
    assert!(!row.wrapped());
    for col in 0..4 {
        assert_eq!(row.get(col), Some(&Cell::new()));
    }
    assert!(row.get(4).is_none());
}

#[test]
fn blank_row_draws_nothing() {
    let row = Row::new(80);
    assert_eq!(row.contents(0, 80), "");
    assert_eq!(row.contents(10, 5), "");
    let (bytes, attrs, cols) = row.contents_formatted(0, 80, Attrs::new());
    assert!(bytes.is_empty());
    assert_eq!(attrs, Attrs::new());
    assert_eq!(cols, 0);
    let prev = row_of(vec![plain("x"); 80]);
    let (bytes, attrs, cols) = row.contents_diff(&prev, 0, 80, Attrs::new());
    assert!(bytes.is_empty());
    assert_eq!(attrs, Attrs::new());
    assert_eq!(cols, 0);
}

#[test]
fn contents_renders_blanks_as_spaces_and_trims() {
    let row = row_of(vec![plain("a"), Cell::new(), plain("b"), Cell::new()]);
    assert_eq!(row.contents(0, 4), "a b");
    assert_eq!(row.contents(1, 3), " b");
    assert_eq!(row.contents(0, 2), "a");
    assert_eq!(row.contents(10, 3), "");
}

#[test]
fn contents_draws_wide_glyph_once() {
    let row = row_of(vec![wide("中"), continuation(), plain("x")]);
    assert_eq!(row.contents(0, 3), "中x");
    assert_eq!(row.contents(0, 2), "中");
    // The range ends on the wide glyph: its placeholder would fall outside,
    // so the glyph is left out.
    assert_eq!(row.contents(0, 1), "");
    assert_eq!(row.contents(2, 1), "x");
}

#[test]
fn wide_glyph_at_end_of_content_is_drawn() {
    // The placeholder is blank, so the content width stops at the glyph,
    // but the placeholder still lies inside the range and the row.
    let row = row_of(vec![wide("中"), continuation()]);
    assert_eq!(row.content_width(0), 1);
    assert_eq!(row.contents(0, 80), "中");
    let (bytes, _, cols) = row.contents_formatted(0, 80, Attrs::new());
    assert_eq!(bytes, "中".as_bytes().to_vec());
    assert_eq!(cols, 2);
}

#[test]
fn wide_glyph_without_room_is_left_out() {
    // In the row's last column there is no placeholder.
    let row = row_of(vec![plain("a"), wide("中")]);
    assert_eq!(row.contents(0, 80), "a");
    let (bytes, _, cols) = row.contents_formatted(0, 80, Attrs::new());
    assert_eq!(bytes, b"a".to_vec());
    assert_eq!(cols, 1);
    let prev = row_of(vec![plain("a"), plain("b")]);
    let (bytes, _, cols) = row.contents_diff(&prev, 0, 80, Attrs::new());
    assert!(bytes.is_empty());
    assert_eq!(cols, 0);
}

#[test]
fn drawings_keep_wide_glyph_at_range_end() {
    // The plain text of a range of width 1 cannot hold a wide glyph, but the
    // full drawing and the update draw it whole: its placeholder is in the row.
    let mut red = Attrs::new();
    red.fgcolor = Color::Idx(1);
    let row = row_of(vec![
        Cell::with_text("中", CellWidth::Wide, red),
        Cell::with_text("", CellWidth::WideContinuation, red),
        plain("b"),
    ]);
    assert_eq!(row.contents(0, 1), "");
    let mut glyph = b"\x1b[31m".to_vec();
    glyph.extend_from_slice("中".as_bytes());
    let (bytes, attrs, cols) = row.contents_formatted(0, 1, Attrs::new());
    assert_eq!(bytes, glyph);
    assert_eq!(attrs, red);
    assert_eq!(cols, 2);
    let prev = row_of(vec![Cell::new(), continuation(), plain("b")]);
    let (bytes, attrs, cols) = row.contents_diff(&prev, 0, 1, Attrs::new());
    assert_eq!(bytes, glyph);
    assert_eq!(attrs, red);
    assert_eq!(cols, 2);
    let (bytes, _, cols) = row.contents_diff(&prev, 0, 3, Attrs::new());
    assert_eq!(bytes, glyph);
    assert_eq!(cols, 2);
}

#[test]
fn content_width_of_blank_and_painted_rows() {
    let row = Row::new(10);
    for start in 0..12 {
        assert_eq!(row.content_width(start), 0);
    }
    let row = row_of(vec![Cell::new(), blank_on(Color::Idx(1)), Cell::new()]);
    assert_eq!(row.content_width(0), 2);
    assert_eq!(row.content_width(1), 1);
    assert_eq!(row.content_width(2), 0);
}

#[test]
fn contents_trims_painted_blank_columns() {
    let bg = Color::Idx(1);
    let row = row_of(vec![Cell::new(), blank_on(bg), Cell::new()]);
    assert_eq!(row.contents(0, 3), "");
    let (bytes, attrs, cols) = row.contents_formatted(0, 3, Attrs::new());
    assert_eq!(bytes, b"\x1b[C\x1b[41m\x1b[X\x1b[C".to_vec());
    assert_eq!(attrs.bgcolor, bg);
    assert_eq!(cols, 2);
}

#[test]
fn formatted_emits_glyphs_and_attribute_changes() {
    let mut red = Attrs::new();
    red.fgcolor = Color::Idx(1);
    let row = row_of(vec![
        Cell::with_text("a", CellWidth::Normal, red),
        wide("中"),
        continuation(),
        plain("b"),
    ]);
    let (bytes, attrs, cols) = row.contents_formatted(0, 4, Attrs::new());
    let mut expected = b"\x1b[31ma\x1b[m".to_vec();
    expected.extend_from_slice("中".as_bytes());
    expected.push(b'b');
    assert_eq!(bytes, expected);
    assert_eq!(attrs, Attrs::new());
    assert_eq!(cols, 4);
}

#[test]
fn formatted_chains_attributes_between_ranges() {
    let mut bold = Attrs::new();
    bold.bold = true;
    let row = row_of(vec![
        Cell::with_text("a", CellWidth::Normal, bold),
        Cell::with_text("b", CellWidth::Normal, bold),
    ]);
    let (first, attrs, cols) = row.contents_formatted(0, 1, Attrs::new());
    assert_eq!(first, b"\x1b[1ma".to_vec());
    assert_eq!(cols, 1);
    let (second, attrs, cols) = row.contents_formatted(1, 1, attrs);
    assert_eq!(second, b"b".to_vec());
    assert_eq!(attrs, bold);
    assert_eq!(cols, 1);
}

#[test]
fn diff_of_row_with_itself_is_empty() {
    let mut attrs = Attrs::new();
    attrs.underline = true;
    let row = row_of(vec![plain("a"), wide("中"), continuation(), blank_on(Color::Rgb(1, 2, 3))]);
    let (bytes, out, cols) = row.contents_diff(&row.clone(), 0, 4, attrs);
    assert!(bytes.is_empty());
    assert_eq!(out, attrs);
    assert_eq!(cols, 0);
}

#[test]
fn diff_skips_unchanged_prefix() {
    let row = row_of(vec![plain("A"), plain("B")]);
    let prev = row_of(vec![plain("A"), plain("C")]);
    let (bytes, attrs, cols) = row.contents_diff(&prev, 0, 2, Attrs::new());
    assert_eq!(bytes, b"\x1b[1CB".to_vec());
    assert_eq!(attrs, Attrs::new());
    assert_eq!(cols, 2);
}

#[test]
fn diff_single_change_at_start_needs_no_skip() {
    let row = row_of(vec![plain("X"), plain("A"), plain("A")]);
    let prev = row_of(vec![plain("Y"), plain("A"), plain("A")]);
    let (bytes, _, cols) = row.contents_diff(&prev, 0, 3, Attrs::new());
    assert_eq!(bytes, b"X".to_vec());
    assert_eq!(cols, 1);
}

#[test]
fn diff_counts_wide_cells_in_skip_and_change() {
    let row = row_of(vec![wide("中"), continuation(), wide("文"), continuation(), plain("z")]);
    let prev = row_of(vec![wide("中"), continuation(), plain("q"), plain("r"), plain("z")]);
    let (bytes, _, cols) = row.contents_diff(&prev, 0, 5, Attrs::new());
    let mut expected = b"\x1b[2C".to_vec();
    expected.extend_from_slice("文".as_bytes());
    assert_eq!(bytes, expected);
    assert_eq!(cols, 4);
}

#[test]
fn diff_skip_run_uses_decimal_count() {
    let mut cur = vec![plain("a"); 13];
    let prev = row_of(cur.clone());
    cur[12] = plain("b");
    let row = row_of(cur);
    let (bytes, _, cols) = row.contents_diff(&prev, 0, 13, Attrs::new());
    assert_eq!(bytes, b"\x1b[12Cb".to_vec());
    assert_eq!(cols, 13);
}

#[test]
fn diff_erases_blanks_and_switches_attributes() {
    let mut blue = Attrs::new();
    blue.bgcolor = Color::Idx(4);
    let row = row_of(vec![Cell::new(), plain("Z"), blank_on(Color::Idx(4))]);
    let prev = row_of(vec![plain("x"), plain("Z"), plain("y")]);
    let (bytes, attrs, cols) = row.contents_diff(&prev, 0, 3, Attrs::new());
    assert_eq!(bytes, b"\x1b[X\x1b[C\x1b[1C\x1b[44m\x1b[X\x1b[C".to_vec());
    assert_eq!(attrs, blue);
    assert_eq!(cols, 3);
}

#[test]
fn diff_is_clipped_to_current_content_width() {
    let row = row_of(vec![plain("A"), Cell::new()]);
    let prev = row_of(vec![plain("A"), plain("x")]);
    let (bytes, _, cols) = row.contents_diff(&prev, 0, 2, Attrs::new());
    assert!(bytes.is_empty());
    assert_eq!(cols, 0);
}

#[test]
fn escape_code_diff_encodings() {
    let d = Attrs::new();
    let mut a = Attrs::new();
    a.fgcolor = Color::Idx(9);
    assert_eq!(a.escape_code_diff(&d), b"\x1b[91m".to_vec());
    a.fgcolor = Color::Idx(200);
    assert_eq!(a.escape_code_diff(&d), b"\x1b[38;5;200m".to_vec());
    let mut b = Attrs::new();
    b.bgcolor = Color::Rgb(1, 2, 3);
    assert_eq!(b.escape_code_diff(&d), b"\x1b[48;2;1;2;3m".to_vec());
    b.bgcolor = Color::Idx(12);
    assert_eq!(b.escape_code_diff(&d), b"\x1b[104m".to_vec());
    let mut c = Attrs::new();
    c.fgcolor = Color::Idx(1);
    c.bold = true;
    c.italic = true;
    c.inverse = true;
    assert_eq!(c.escape_code_diff(&d), b"\x1b[31;1;3;7m".to_vec());
    let mut e = c;
    e.fgcolor = Color::Default;
    e.bold = false;
    e.underline = true;
    assert_eq!(e.escape_code_diff(&c), b"\x1b[39;22;4m".to_vec());
    assert_eq!(d.escape_code_diff(&c), b"\x1b[m".to_vec());
    assert!(c.escape_code_diff(&c).is_empty());
}

#[test]
fn resize_then_truncate_keeps_prefix() {
    let mut row = row_of(vec![plain("a"), plain("b")]);
    row.resize(5, plain("f"));
    let resized = row.clone();
    row.truncate(3);
    assert_eq!(row.get(0), Some(&plain("a")));
    assert_eq!(row.get(1), Some(&plain("b")));
    assert_eq!(row.get(2), resized.get(2));
    assert_eq!(row.get(2), Some(&plain("f")));
    assert!(row.get(3).is_none());
    row.resize(1, plain("g"));
    assert!(row.get(1).is_none());
    row.truncate(4);
    assert_eq!(row.get(0), Some(&plain("a")));
    assert!(row.get(1).is_none());
}

#[test]
fn insert_and_remove_shift_cells() {
    let mut row = row_of(vec![plain("a"), plain("b")]);
    row.insert(1, plain("x"));
    assert_eq!(row.contents(0, 3), "axb");
    row.remove(0);
    assert_eq!(row.contents(0, 3), "xb");
    assert!(row.get(2).is_none());
}

#[test]
fn clear_blanks_cells_and_unwraps() {
    let mut row = row_of(vec![plain("a"), wide("中"), continuation()]);
    row.wrap(true);
    assert!(row.wrapped());
    row.clear(Color::Idx(2));
    assert!(!row.wrapped());
    assert_eq!(row.get(1), Some(&blank_on(Color::Idx(2))));
    assert_eq!(row.contents(0, 3), "");
    let (bytes, _, cols) = row.contents_formatted(0, 3, Attrs::new());
    assert_eq!(bytes, b"\x1b[42m\x1b[X\x1b[C\x1b[X\x1b[C\x1b[X\x1b[C".to_vec());
    assert_eq!(cols, 3);
}

#[test]
fn cells_mut_changes_cells_in_place() {
    let mut row = Row::new(2);
    for c in row.cells_mut().iter_mut() {
        *c = plain("k");
    }
    assert_eq!(row.contents(0, 2), "kk");
}

/// A small terminal that replays printable characters and the sequences
/// `ESC [ n C`, `ESC [ n X` and `ESC [ params m`; returns each column's glyph
/// and attributes, and the cursor.
fn replay(bytes: &[u8], start_attrs: Attrs, wide: &[char]) -> (Vec<(String, Attrs)>, usize, Attrs) {
    let text = String::from_utf8(bytes.to_vec()).unwrap();
    let chars: Vec<char> = text.chars().collect();
    let mut screen: Vec<(String, Attrs)> = Vec::new();
    let mut cursor = 0usize;
    let mut attrs = start_attrs;
    let mut i = 0;
    let put = |screen: &mut Vec<(String, Attrs)>, col: usize, v: (String, Attrs)| {
        while screen.len() <= col {
            screen.push((String::new(), Attrs::new()));
        }
        screen[col] = v;
    };
    while i < chars.len() {
        if chars[i] == '\x1b' && chars.get(i + 1) == Some(&'[') {
            let mut j = i + 2;
            while chars[j].is_ascii_digit() || chars[j] == ';' {
                j += 1;
            }
            let params: Vec<u32> = chars[i + 2..j]
                .iter()
                .collect::<String>()
                .split(';')
                .map(|p| p.parse().unwrap_or(0))
                .collect();
            let n = (params[0].max(1)) as usize;
            match chars[j] {
                'C' => cursor += n,
                'X' => put(&mut screen, cursor, (String::new(), attrs)),
                'm' => {
                    let mut k = 0;
                    while k < params.len() {
                        let p = params[k];
                        match p {
                            0 => attrs = Attrs::new(),
                            1 => attrs.bold = true,
                            22 => attrs.bold = false,
                            3 => attrs.italic = true,
                            23 => attrs.italic = false,
                            4 => attrs.underline = true,
                            24 => attrs.underline = false,
                            7 => attrs.inverse = true,
                            27 => attrs.inverse = false,
                            30..=37 => attrs.fgcolor = Color::Idx((p - 30) as u8),
                            39 => attrs.fgcolor = Color::Default,
                            40..=47 => attrs.bgcolor = Color::Idx((p - 40) as u8),
                            49 => attrs.bgcolor = Color::Default,
                            90..=97 => attrs.fgcolor = Color::Idx((p - 82) as u8),
                            100..=107 => attrs.bgcolor = Color::Idx((p - 92) as u8),
                            38 | 48 => {
                                let c = if params[k + 1] == 5 {
                                    k += 2;
                                    Color::Idx(params[k] as u8)
                                } else {
                                    k += 4;
                                    Color::Rgb(
                                        params[k - 2] as u8,
                                        params[k - 1] as u8,
                                        params[k] as u8,
                                    )
                                };
                                if p == 38 {
                                    attrs.fgcolor = c;
                                } else {
                                    attrs.bgcolor = c;
                                }
                            }
                            _ => {}
                        }
                        k += 1;
                    }
                }
                _ => {}
            }
            i = j + 1;
        } else {
            put(&mut screen, cursor, (chars[i].to_string(), attrs));
            cursor += if wide.contains(&chars[i]) { 2 } else { 1 };
            i += 1;
        }
    }
    (screen, cursor, attrs)
}

#[test]
fn formatted_output_replays_to_the_row() {
    let mut red_on_blue = Attrs::new();
    red_on_blue.fgcolor = Color::Idx(1);
    red_on_blue.bgcolor = Color::Idx(4);
    let mut styled = Attrs::new();
    styled.fgcolor = Color::Rgb(10, 20, 30);
    styled.bgcolor = Color::Idx(200);
    styled.bold = true;
    styled.underline = true;
    let cells = vec![
        Cell::with_text("h", CellWidth::Normal, red_on_blue),
        Cell::new(),
        Cell::with_text("中", CellWidth::Wide, styled),
        Cell::with_text("", CellWidth::WideContinuation, styled),
        blank_on(Color::Idx(9)),
        plain("i"),
        Cell::new(),
    ];
    let row = row_of(cells.clone());
    let mut initial = Attrs::new();
    initial.italic = true;
    let (bytes, end_attrs, cols) = row.contents_formatted(0, 7, initial);
    let (screen, cursor, attrs) = replay(&bytes, initial, &['中']);
    assert_eq!(cols, 6);
    assert_eq!(cursor, 6);
    assert_eq!(attrs, end_attrs);
    assert_eq!(end_attrs, Attrs::new());
    // Drawn cells sit at columns 0, 1, 2, 4 and 5.
    for (col, idx) in [(0usize, 0usize), (1, 1), (2, 2), (4, 4), (5, 5)] {
        let shown = screen.get(col).cloned().unwrap_or((String::new(), Attrs::new()));
        let cell = &cells[idx];
        assert_eq!(shown.0, cell.contents());
        assert_eq!(shown.1.bgcolor, cell.bgcolor());
        if cell.has_contents() || cell.bgcolor() != Color::Default {
            assert_eq!(shown.1, cell.attrs());
        }
    }
}

#[test]
fn contents_trims_unicode_white_space_only() {
    let row = row_of(vec![plain("a"), plain("\u{3000}"), plain("\u{a0}"), Cell::new(), plain("\t")]);
    assert_eq!(row.contents(0, 5), "a");
    // A zero-width space has no White_Space property and stays.
    let row = row_of(vec![plain("a"), plain("\u{200b}"), Cell::new()]);
    assert_eq!(row.contents(0, 3), "a\u{200b}");
}
