//! What the headless VT oracle says of a screen: the cells it reads out of
//! the emulator, how each shows in a row of text and which attributes the
//! snapshot legend lists for it, and the `vt/1` snapshot itself. Snapshots
//! are deterministic and carry no address, capacity or time, so they can be
//! committed as goldens. The emulator that fills the cells stands outside
//! this module.
use vstd::prelude::*;

use crate::claims::selection::{join, joined_with};
use crate::text::{chars_of, decimal, decimal_chars, extend, extend_str, string_of, views_of};

verus! {

/// The snapshot format's version, the first line of every snapshot.
pub const SNAPSHOT_VERSION: &'static str = "vt/1";

/// A cell's colour.
#[derive(Clone, Copy, Debug, PartialEq, Eq, Hash)]
pub enum Color {
    /// The terminal's default.
    Default,
    /// One of the 256 palette entries.
    Palette(u8),
    /// A 24-bit colour.
    Rgb {
        /// The red component.
        red: u8,
        /// The green component.
        green: u8,
        /// The blue component.
        blue: u8,
    },
}

/// How a colour reads: `default`, `palette(index)` or `rgb(red,green,blue)`.
pub open spec fn color_text(color: Color) -> Seq<char> {
    match color {
        Color::Default => "default"@,
        Color::Palette(index) => "palette("@ + decimal(index as nat) + ")"@,
        Color::Rgb { red, green, blue } => "rgb("@ + decimal(red as nat) + ","@ + decimal(green as nat) + ","@ + decimal(blue as nat) + ")"@,
    }
}

impl Color {
    /// How the colour reads.
    pub fn text(&self) -> (said: String)
        ensures
            said@ == color_text(*self),
    {
        proof {
            reveal_strlit("default");
            reveal_strlit("palette(");
            reveal_strlit(")");
            reveal_strlit("rgb(");
            reveal_strlit(",");
        }
        match self {
            Color::Default => "default".to_owned(),
            Color::Palette(index) => {
                let mut held: Vec<char> = Vec::new();
                extend_str(&mut held, "palette(");
                extend(&mut held, decimal_chars(*index as u64).as_slice());
                extend_str(&mut held, ")");
                string_of(held.as_slice())
            },
            Color::Rgb { red, green, blue } => {
                let mut held: Vec<char> = Vec::new();
                extend_str(&mut held, "rgb(");
                extend(&mut held, decimal_chars(*red as u64).as_slice());
                extend_str(&mut held, ",");
                extend(&mut held, decimal_chars(*green as u64).as_slice());
                extend_str(&mut held, ",");
                extend(&mut held, decimal_chars(*blue as u64).as_slice());
                extend_str(&mut held, ")");
                string_of(held.as_slice())
            },
        }
    }
}

/// A cell's underline.
#[derive(Clone, Copy, Debug, PartialEq, Eq, Hash)]
pub enum Underline {
    /// No underline.
    Plain,
    /// A single line.
    Single,
    /// A double line.
    Double,
    /// A curly line.
    Curly,
    /// A dotted line.
    Dotted,
    /// A dashed line.
    Dashed,
}

/// How an underline reads.
pub open spec fn underline_text(underline: Underline) -> Seq<char> {
    match underline {
        Underline::Plain => "none"@,
        Underline::Single => "single"@,
        Underline::Double => "double"@,
        Underline::Curly => "curly"@,
        Underline::Dotted => "dotted"@,
        Underline::Dashed => "dashed"@,
    }
}

impl Underline {
    /// How the underline reads.
    pub fn text(&self) -> (said: &'static str)
        ensures
            said@ == underline_text(*self),
    {
        match self {
            Underline::Plain => "none",
            Underline::Single => "single",
            Underline::Double => "double",
            Underline::Curly => "curly",
            Underline::Dotted => "dotted",
            Underline::Dashed => "dashed",
        }
    }
}

/// How many columns a cell spans.
#[derive(Clone, Copy, Debug, PartialEq, Eq, Hash)]
pub enum Width {
    /// One column.
    Narrow,
    /// Two columns: this cell and the continuation after it.
    Wide,
    /// The second column of a wide glyph; it holds no grapheme.
    Continuation,
}

/// One cell of the screen.
#[derive(Clone, Debug, PartialEq, Eq, Hash)]
pub struct Cell {
    /// The grapheme cluster in the cell; empty for an empty cell and for a
    /// continuation.
    pub grapheme: String,
    /// The foreground colour.
    pub foreground: Color,
    /// The background colour.
    pub background: Color,
    /// Whether the cell is bold.
    pub bold: bool,
    /// Whether the cell is italic.
    pub italic: bool,
    /// The underline.
    pub underline: Underline,
    /// How many columns the cell spans.
    pub width: Width,
}

/// A cell's attributes as the snapshot legend lists them, in a fixed order:
/// its width unless narrow, bold, italic, its underline unless none, its
/// colours unless the default.
pub open spec fn attributes_of(cell: Cell) -> Seq<Seq<char>> {
    let width = match cell.width {
        Width::Narrow => Seq::<Seq<char>>::empty(),
        Width::Wide => seq!["width=wide"@],
        Width::Continuation => seq!["width=continuation"@],
    };
    let bold = if cell.bold { seq!["bold"@] } else { Seq::<Seq<char>>::empty() };
    let italic = if cell.italic { seq!["italic"@] } else { Seq::<Seq<char>>::empty() };
    let underline = if cell.underline == Underline::Plain {
        Seq::<Seq<char>>::empty()
    } else {
        seq!["underline="@ + underline_text(cell.underline)]
    };
    let foreground = if cell.foreground == Color::Default {
        Seq::<Seq<char>>::empty()
    } else {
        seq!["foreground="@ + color_text(cell.foreground)]
    };
    let background = if cell.background == Color::Default {
        Seq::<Seq<char>>::empty()
    } else {
        seq!["background="@ + color_text(cell.background)]
    };
    width + bold + italic + underline + foreground + background
}

/// What a cell shows in a row of text: its grapheme, a space when it is
/// empty, nothing when it is a continuation.
pub open spec fn shown_of(cell: Cell) -> Seq<char> {
    match cell.width {
        Width::Continuation => Seq::empty(),
        _ => if cell.grapheme@.len() == 0 {
            " "@
        } else {
            cell.grapheme@
        },
    }
}

/// Adds one text to a list.
fn append(list: &mut Vec<String>, text: String)
    ensures
        views_of(final(list)@) == views_of(old(list)@).push(text@),
{
    let ghost before = list@;
    list.push(text);
    assert(views_of(list@) =~= views_of(before).push(text@));
}

impl Cell {
    /// The cell's attributes as the snapshot legend lists them; empty for a
    /// plain narrow cell.
    pub fn attributes(&self) -> (found: Vec<String>)
        ensures
            views_of(found@) == attributes_of(*self),
            self.width == Width::Wide ==> found@.len() > 0 && found@[0]@ == "width=wide"@,
            self.width == Width::Continuation ==> found@.len() > 0 && found@[0]@ == "width=continuation"@,
            found@.len() == 0 <==> plain_cell(*self),
    {
        proof {
            lemma_cell_attributes(*self);
            reveal_strlit("width=wide");
            reveal_strlit("width=continuation");
            reveal_strlit("bold");
            reveal_strlit("italic");
            reveal_strlit("underline=");
            reveal_strlit("foreground=");
            reveal_strlit("background=");
        }
        let mut found: Vec<String> = Vec::new();
        let ghost empty = views_of(found@);
        match self.width {
            Width::Narrow => {},
            Width::Wide => append(&mut found, "width=wide".to_owned()),
            Width::Continuation => append(&mut found, "width=continuation".to_owned()),
        }
        let ghost widths = views_of(found@);
        if self.bold {
            append(&mut found, "bold".to_owned());
        }
        let ghost bolds = views_of(found@);
        if self.italic {
            append(&mut found, "italic".to_owned());
        }
        let ghost italics = views_of(found@);
        match self.underline {
            Underline::Plain => {},
            _ => {
                let mut held: Vec<char> = Vec::new();
                extend_str(&mut held, "underline=");
                extend_str(&mut held, self.underline.text());
                append(&mut found, string_of(held.as_slice()));
            },
        }
        let ghost underlines = views_of(found@);
        match self.foreground {
            Color::Default => {},
            _ => {
                let mut held: Vec<char> = Vec::new();
                extend_str(&mut held, "foreground=");
                extend_str(&mut held, self.foreground.text().as_str());
                append(&mut found, string_of(held.as_slice()));
            },
        }
        let ghost foregrounds = views_of(found@);
        match self.background {
            Color::Default => {},
            _ => {
                let mut held: Vec<char> = Vec::new();
                extend_str(&mut held, "background=");
                extend_str(&mut held, self.background.text().as_str());
                append(&mut found, string_of(held.as_slice()));
            },
        }
        assert(views_of(found@) =~= attributes_of(*self));
        assert(views_of(found@).len() == found@.len());
        proof {
            if found@.len() > 0 {
                assert(views_of(found@)[0] == found@[0]@);
            }
        }
        found
    }

    /// What the cell shows in a row of text.
    pub fn shown(&self) -> (said: &str)
        ensures
            said@ == shown_of(*self),
    {
        proof {
            reveal_strlit("");
        }
        match self.width {
            Width::Continuation => {
                assert(""@ =~= Seq::<char>::empty());
                ""
            },
            _ => if chars_of(self.grapheme.as_str()).len() == 0 {
                " "
            } else {
                self.grapheme.as_str()
            },
        }
    }
}

/// One row as text: each cell as it shows.
pub open spec fn row_text_of(cells: Seq<Cell>) -> Seq<char>
    decreases cells.len(),
{
    if cells.len() == 0 {
        Seq::empty()
    } else {
        row_text_of(cells.drop_last()) + shown_of(cells.last())
    }
}

/// One row as text: each cell as [`Cell::shown`].
pub fn row_text(cells: &[Cell]) -> (text: String)
    ensures
        text@ == row_text_of(cells@),
{
    let mut held: Vec<char> = Vec::new();
    let mut index: usize = 0;
    while index < cells.len()
        invariant
            index <= cells@.len(),
            held@ == row_text_of(cells@.subrange(0, index as int)),
        decreases cells@.len() - index,
    {
        assert(cells@.subrange(0, index + 1).drop_last() =~= cells@.subrange(0, index as int));
        extend_str(&mut held, cells[index].shown());
        index = index + 1;
    }
    assert(cells@.subrange(0, cells@.len() as int) =~= cells@);
    string_of(held.as_slice())
}

/// The rows of a screen as text.
pub open spec fn rows_text_of(grid: Seq<Vec<Cell>>) -> Seq<Seq<char>> {
    grid.map_values(|row: Vec<Cell>| row_text_of(row@))
}

/// The screen as text, rows joined by newlines.
pub fn screen_text(grid: &[Vec<Cell>]) -> (text: String)
    ensures
        text@ == joined_with(rows_text_of(grid@), "\n"@),
{
    let mut rows: Vec<String> = Vec::new();
    let mut index: usize = 0;
    while index < grid.len()
        invariant
            index <= grid@.len(),
            views_of(rows@) == rows_text_of(grid@.subrange(0, index as int)),
        decreases grid@.len() - index,
    {
        let row = row_text(grid[index].as_slice());
        append(&mut rows, row);
        assert(rows_text_of(grid@.subrange(0, index + 1)) =~= rows_text_of(grid@.subrange(0, index as int)).push(row_text_of(grid@[index as int]@)));
        index = index + 1;
    }
    assert(grid@.subrange(0, grid@.len() as int) =~= grid@);
    string_of(join(rows.as_slice(), "\n").as_slice())
}

/// A name for what `{:?}` makes of a text: the text quoted, with the
/// characters `str`'s `Debug` escapes escaped.
pub uninterp spec fn debug_quoted(text: Seq<char>) -> Seq<char>;

/// Whether a text is printable ASCII with no quote or backslash, which
/// `Debug` leaves as it is.
pub open spec fn plain_text(text: Seq<char>) -> bool {
    forall|index: int| 0 <= index < text.len() ==> ' ' <= #[trigger] text[index] <= '~' && text[index] != '"' && text[index] != '\\'
}

/// A text as `{:?}` shows it. Its contract: the answer is `Debug`'s for
/// this text, and a text of printable ASCII with no quote or backslash is
/// only put between double quotes.
#[verifier::external_body]
fn quoted(text: &str) -> (shown: String)
    ensures
        shown@ == debug_quoted(text@),
        plain_text(text@) ==> shown@ == seq!['"'] + text@ + seq!['"'],
{
    format!("{text:?}")
}

/// The legend lines of the first cells of a row: each cell that is not
/// plain, as `column,row` and its attributes joined by spaces.
pub open spec fn legend_of_row(row: int, cells: Seq<Cell>, count: int) -> Seq<char>
    decreases count,
{
    if count <= 0 || count > cells.len() {
        Seq::empty()
    } else {
        let before = legend_of_row(row, cells, count - 1);
        let attributes = attributes_of(cells[count - 1]);
        if attributes.len() == 0 {
            before
        } else {
            before + decimal((count - 1) as nat) + ","@ + decimal(row as nat) + " "@ + joined_with(attributes, " "@) + "\n"@
        }
    }
}

/// The framed lines and the legend of the first rows of a screen.
pub open spec fn rows_of_snapshot(grid: Seq<Vec<Cell>>, count: int) -> (Seq<char>, Seq<char>)
    decreases count,
{
    if count <= 0 || count > grid.len() {
        (Seq::empty(), Seq::empty())
    } else {
        let before = rows_of_snapshot(grid, count - 1);
        let row = grid[count - 1]@;
        (
            before.0 + decimal((count - 1) as nat) + "|"@ + row_text_of(row) + "|\n"@,
            before.1 + legend_of_row(count - 1, row, row.len() as int),
        )
    }
}

/// The `vt/1` snapshot of a screen: the version, the size, the cursor, the
/// title and working directory quoted, the scrollback count, one framed
/// line per row, and a legend of every cell that is not plain, in
/// row-major order.
pub open spec fn snapshot_of(
    size: (u16, u16),
    cursor: (u16, u16),
    title: Seq<char>,
    working_directory: Seq<char>,
    scrollback: usize,
    grid: Seq<Vec<Cell>>,
) -> Seq<char> {
    let rows = rows_of_snapshot(grid, grid.len() as int);
    SNAPSHOT_VERSION@ + "\n"@ + "size "@ + decimal(size.0 as nat) + "x"@ + decimal(size.1 as nat) + "\n"@
        + "cursor "@ + decimal(cursor.0 as nat) + ","@ + decimal(cursor.1 as nat) + "\n"@
        + "title "@ + debug_quoted(title) + "\n"@
        + "working_directory "@ + debug_quoted(working_directory) + "\n"@
        + "scrollback "@ + decimal(scrollback as nat) + "\n"@
        + rows.0 + "attributes\n"@ + rows.1
}

/// The `vt/1` snapshot of a screen read out of the emulator: its size and
/// cursor as columns and rows, its title and working directory, how many
/// rows have scrolled off, and its cells row by row.
pub fn snapshot(
    size: (u16, u16),
    cursor: (u16, u16),
    title: &str,
    working_directory: &str,
    scrollback: usize,
    grid: &[Vec<Cell>],
) -> (text: String)
    ensures
        text@ == snapshot_of(size, cursor, title@, working_directory@, scrollback, grid@),
{
    proof {
        reveal_strlit("\n");
        reveal_strlit("size ");
        reveal_strlit("x");
        reveal_strlit("cursor ");
        reveal_strlit(",");
        reveal_strlit("title ");
        reveal_strlit("working_directory ");
        reveal_strlit("scrollback ");
        reveal_strlit("attributes\n");
    }
    let mut held: Vec<char> = Vec::new();
    extend_str(&mut held, SNAPSHOT_VERSION);
    extend_str(&mut held, "\n");
    extend_str(&mut held, "size ");
    extend(&mut held, decimal_chars(size.0 as u64).as_slice());
    extend_str(&mut held, "x");
    extend(&mut held, decimal_chars(size.1 as u64).as_slice());
    extend_str(&mut held, "\n");
    extend_str(&mut held, "cursor ");
    extend(&mut held, decimal_chars(cursor.0 as u64).as_slice());
    extend_str(&mut held, ",");
    extend(&mut held, decimal_chars(cursor.1 as u64).as_slice());
    extend_str(&mut held, "\n");
    extend_str(&mut held, "title ");
    extend_str(&mut held, quoted(title).as_str());
    extend_str(&mut held, "\n");
    extend_str(&mut held, "working_directory ");
    extend_str(&mut held, quoted(working_directory).as_str());
    extend_str(&mut held, "\n");
    extend_str(&mut held, "scrollback ");
    extend(&mut held, decimal_chars(scrollback as u64).as_slice());
    extend_str(&mut held, "\n");
    let ghost head = held@;
    let mut framed: Vec<char> = Vec::new();
    let mut legend: Vec<char> = Vec::new();
    let mut row: usize = 0;
    while row < grid.len()
        invariant
            row <= grid@.len(),
            (framed@, legend@) == rows_of_snapshot(grid@, row as int),
        decreases grid@.len() - row,
    {
        proof {
            reveal_strlit("|");
            reveal_strlit("|\n");
            reveal_strlit(",");
            reveal_strlit(" ");
            reveal_strlit("\n");
        }
        let cells = grid[row].as_slice();
        extend(&mut framed, decimal_chars(row as u64).as_slice());
        extend_str(&mut framed, "|");
        extend_str(&mut framed, row_text(cells).as_str());
        extend_str(&mut framed, "|\n");
        let ghost legend_start = legend@;
        let mut column: usize = 0;
        while column < cells.len()
            invariant
                column <= cells@.len(),
                legend@ == legend_start + legend_of_row(row as int, cells@, column as int),
            decreases cells@.len() - column,
        {
            proof {
                reveal_strlit(",");
                reveal_strlit(" ");
                reveal_strlit("\n");
            }
            let attributes = cells[column].attributes();
            if attributes.len() > 0 {
                extend(&mut legend, decimal_chars(column as u64).as_slice());
                extend_str(&mut legend, ",");
                extend(&mut legend, decimal_chars(row as u64).as_slice());
                extend_str(&mut legend, " ");
                extend(&mut legend, join(attributes.as_slice(), " ").as_slice());
                extend_str(&mut legend, "\n");
            }
            column = column + 1;
        }
        row = row + 1;
    }
    extend(&mut held, framed.as_slice());
    extend_str(&mut held, "attributes\n");
    extend(&mut held, legend.as_slice());
    string_of(held.as_slice())
}

/// Whether a cell shows as a plain narrow cell: no width beyond one column,
/// no weight, slant or underline, and the default colours.
pub open spec fn plain_cell(cell: Cell) -> bool {
    &&& cell.width == Width::Narrow
    &&& !cell.bold
    &&& !cell.italic
    &&& cell.underline == Underline::Plain
    &&& cell.foreground == Color::Default
    &&& cell.background == Color::Default
}

/// One for a condition that holds, none for one that does not.
pub open spec fn one_if(condition: bool) -> int {
    if condition {
        1
    } else {
        0
    }
}

/// A cell's legend: one entry for each way it differs from a plain narrow
/// cell and none for anything else; its width first when it is wide or a
/// wide glyph's continuation; `bold` and `italic` exactly when the cell is;
/// and nothing at all exactly for a plain narrow cell.
#[verifier::spinoff_prover]
#[verifier::rlimit(30)]
pub proof fn lemma_cell_attributes(cell: Cell)
    ensures
        attributes_of(cell).len() == one_if(cell.width != Width::Narrow) + one_if(cell.bold) + one_if(cell.italic)
            + one_if(cell.underline != Underline::Plain) + one_if(cell.foreground != Color::Default) + one_if(
            cell.background != Color::Default,
        ),
        cell.width == Width::Wide ==> attributes_of(cell).len() > 0 && attributes_of(cell)[0] == "width=wide"@,
        cell.width == Width::Continuation ==> attributes_of(cell).len() > 0 && attributes_of(cell)[0]
            == "width=continuation"@,
        attributes_of(cell).len() == 0 <==> plain_cell(cell),
        cell.bold <==> attributes_of(cell).contains("bold"@),
        cell.italic <==> attributes_of(cell).contains("italic"@),
{
    reveal_strlit("width=wide");
    reveal_strlit("width=continuation");
    reveal_strlit("bold");
    reveal_strlit("italic");
    reveal_strlit("underline=");
    reveal_strlit("foreground=");
    reveal_strlit("background=");
    let all = attributes_of(cell);
    assert forall|index: int| 0 <= index < all.len() && all[index].len() <= 6 implies (all[index] == "bold"@ && cell.bold)
        || (all[index] == "italic"@ && cell.italic) by {
        let width = match cell.width {
            Width::Narrow => Seq::<Seq<char>>::empty(),
            Width::Wide => seq!["width=wide"@],
            Width::Continuation => seq!["width=continuation"@],
        };
        let bold = if cell.bold { seq!["bold"@] } else { Seq::<Seq<char>>::empty() };
        let italic = if cell.italic { seq!["italic"@] } else { Seq::<Seq<char>>::empty() };
        let front = width + bold + italic;
        if index < width.len() {
            assert(all[index] == width[index]);
        } else if index < width.len() + bold.len() {
            assert(all[index] == bold[index - width.len()]);
        } else if index < front.len() {
            assert(all[index] == italic[index - width.len() - bold.len()]);
        } else {
            assert(all[index].len() >= 10);
        }
    }
    if cell.bold {
        let width = match cell.width {
            Width::Narrow => Seq::<Seq<char>>::empty(),
            Width::Wide => seq!["width=wide"@],
            Width::Continuation => seq!["width=continuation"@],
        };
        assert(all[width.len() as int] == "bold"@);
    }
    if cell.italic {
        let width = match cell.width {
            Width::Narrow => Seq::<Seq<char>>::empty(),
            Width::Wide => seq!["width=wide"@],
            Width::Continuation => seq!["width=continuation"@],
        };
        assert(all[width.len() + one_if(cell.bold)] == "italic"@);
    }
    if all.contains("bold"@) {
        let index = choose|index: int| 0 <= index < all.len() && all[index] == "bold"@;
        assert(all[index].len() == 4);
    }
    if all.contains("italic"@) {
        let index = choose|index: int| 0 <= index < all.len() && all[index] == "italic"@;
        assert(all[index].len() == 6);
    }
}

} // verus!
