use iznik_kit::vt::{row_text, screen_text, snapshot, Cell, Color, Underline, Width, SNAPSHOT_VERSION};

fn plain(grapheme: &str) -> Cell {
    Cell {
        grapheme: grapheme.to_owned(),
        foreground: Color::Default,
        background: Color::Default,
        bold: false,
        italic: false,
        underline: Underline::Plain,
        width: Width::Narrow,
    }
}

#[test]
fn vt_a_plain_cell_has_no_attributes_and_shows_its_grapheme() {
    assert!(plain("a").attributes().is_empty());
    assert_eq!(plain("a").shown(), "a");
    assert_eq!(plain("").shown(), " ");
    let continuation = Cell { width: Width::Continuation, ..plain("") };
    assert_eq!(continuation.shown(), "");
}

#[test]
fn vt_attributes_are_listed_in_a_fixed_order() {
    let cell = Cell {
        grapheme: "漢".to_owned(),
        foreground: Color::Palette(9),
        background: Color::Rgb { red: 1, green: 22, blue: 255 },
        bold: true,
        italic: true,
        underline: Underline::Curly,
        width: Width::Wide,
    };
    assert_eq!(
        cell.attributes(),
        vec!["width=wide", "bold", "italic", "underline=curly", "foreground=palette(9)", "background=rgb(1,22,255)"]
    );
    assert_eq!(Color::Default.text(), "default");
    assert_eq!(Underline::Plain.text(), "none");
    assert_eq!(Underline::Dashed.text(), "dashed");
}

#[test]
fn vt_rows_and_screens_read_as_text() {
    let wide = Cell { width: Width::Wide, ..plain("漢") };
    let tail = Cell { width: Width::Continuation, ..plain("") };
    let row = vec![plain("a"), wide, tail, plain("")];
    assert_eq!(row_text(&row), "a漢 ");
    let grid = vec![row, vec![plain("b")]];
    assert_eq!(screen_text(&grid), "a漢 \nb");
}

#[test]
fn vt_oracle_snapshots_are_versioned() {
    let bold = Cell { bold: true, ..plain("x") };
    let grid = vec![vec![plain("a"), bold], vec![plain(""), plain("")]];
    let text = snapshot((2, 2), (1, 0), "title", "file://host/tmp", 3, &grid);
    assert_eq!(text.lines().next(), Some(SNAPSHOT_VERSION));
    assert_eq!(
        text,
        "vt/1\nsize 2x2\ncursor 1,0\ntitle \"title\"\nworking_directory \"file://host/tmp\"\nscrollback 3\n0|ax|\n1|  |\nattributes\n1,0 bold\n"
    );
}

#[test]
fn vt_a_title_is_quoted_as_debug_quotes_it() {
    let text = snapshot((0, 0), (0, 0), "say \"hi\"\n", "", 0, &[]);
    assert!(text.contains("title \"say \\\"hi\\\"\\n\"\n"));
    assert!(text.contains("working_directory \"\"\n"));
}
