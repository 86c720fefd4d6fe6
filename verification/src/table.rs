//! The table that shows a language's keys beside their translations. The
//! table itself is a `comfy_table::Table`; what is known of it here is the
//! header, the width and the rows that were put into it, and that its text
//! is the drawing of what it holds.

use vstd::prelude::*;
use comfy_table::{Cell, CellAlignment, Color, ContentArrangement, Table};

verus! {

/// The colour in which a key is shown.
#[derive(Clone, Copy, Debug, PartialEq, Eq, Structural)]
pub enum KeyColor {
    DarkYellow,
    DarkCyan,
    DarkBlue,
}

/// One row of the table: a key in its colour, and its translation.
#[derive(Debug, PartialEq, Eq)]
pub struct TableRow {
    pub key: String,
    pub translation: String,
    pub color: KeyColor,
}

impl View for TableRow {
    type V = (Seq<char>, Seq<char>, KeyColor);

    open spec fn view(&self) -> (Seq<char>, Seq<char>, KeyColor) {
        (self.key@, self.translation@, self.color)
    }
}

#[verifier::external_type_specification]
#[verifier::external_body]
pub struct ExTable(Table);

/// The rows that a table holds below its header, first to last.
pub uninterp spec fn table_rows(table: Table) -> Seq<(Seq<char>, Seq<char>, KeyColor)>;

/// The titles of the two columns, where the table was given a header.
pub uninterp spec fn table_header(table: Table) -> Option<(Seq<char>, Seq<char>)>;

/// The width that the table was told to keep to, where it was told one.
pub uninterp spec fn table_width(table: Table) -> Option<u16>;

/// The text that drawing the table gives, with its cells styled for a
/// terminal or left plain.
pub uninterp spec fn table_drawing(table: Table, styled: bool) -> Seq<char>;

/// `Table::new`: a table without rows, header or width.
#[verifier::external_body]
pub(crate) fn new_table() -> (table: Table)
    ensures
        table_rows(table) == Seq::<(Seq<char>, Seq<char>, KeyColor)>::empty(),
        table_header(table) is None,
        table_width(table) is None,
{
    Table::new()
}

/// `Table::set_header` with two centred titles: they become the header; the
/// rows and the width stay.
#[verifier::external_body]
pub(crate) fn set_header(table: &mut Table, left: &str, right: &str)
    ensures
        table_header(*final(table)) == Some((left@, right@)),
        table_rows(*final(table)) == table_rows(*old(table)),
        table_width(*final(table)) == table_width(*old(table)),
{
    table.set_header(
        [
            Cell::new(left).set_alignment(CellAlignment::Center),
            Cell::new(right).set_alignment(CellAlignment::Center),
        ],
    );
}

/// `Table::load_preset`: sets the characters of the frame; the rows, the
/// header and the width stay.
#[verifier::external_body]
pub(crate) fn load_preset(table: &mut Table, preset: &str)
    ensures
        table_rows(*final(table)) == table_rows(*old(table)),
        table_header(*final(table)) == table_header(*old(table)),
        table_width(*final(table)) == table_width(*old(table)),
{
    table.load_preset(preset);
}

/// `Table::set_width`: tells the table the width to keep to; the rows and
/// the header stay.
#[verifier::external_body]
pub(crate) fn set_width(table: &mut Table, width: u16)
    ensures
        table_width(*final(table)) == Some(width),
        table_rows(*final(table)) == table_rows(*old(table)),
        table_header(*final(table)) == table_header(*old(table)),
{
    table.set_width(width);
}

/// `Table::set_content_arrangement` with the arrangement that fills the
/// whole width; the rows, the header and the width stay.
#[verifier::external_body]
pub(crate) fn fill_width(table: &mut Table)
    ensures
        table_rows(*final(table)) == table_rows(*old(table)),
        table_header(*final(table)) == table_header(*old(table)),
        table_width(*final(table)) == table_width(*old(table)),
{
    table.set_content_arrangement(ContentArrangement::DynamicFullWidth);
}

/// `Table::add_row` with two centred cells, the first in the row's colour:
/// the row is put behind the rows that the table holds; the header and the
/// width stay.
#[verifier::external_body]
pub(crate) fn add_row(table: &mut Table, row: &TableRow)
    ensures
        table_rows(*final(table)) == table_rows(*old(table)).push(row@),
        table_header(*final(table)) == table_header(*old(table)),
        table_width(*final(table)) == table_width(*old(table)),
{
    let color = match row.color {
        KeyColor::DarkYellow => Color::DarkYellow,
        KeyColor::DarkCyan => Color::DarkCyan,
        KeyColor::DarkBlue => Color::DarkBlue,
    };
    table.add_row(
        [
            Cell::new(&row.key).fg(color).set_alignment(CellAlignment::Center),
            Cell::new(&row.translation).set_alignment(CellAlignment::Center),
        ],
    );
}

/// The text of the table as its `Display` draws it. Drawing reads from the
/// machine whether the output is a terminal, and styles the cells if it is;
/// of a table without a width it would also read the terminal's width, so
/// such a table is left out. The contract claims that the text depends on
/// nothing else.
#[verifier::external_body]
pub(crate) fn table_text(table: &Table) -> (text: String)
    requires
        table_width(*table) is Some,
    ensures
        exists|styled: bool| text@ == #[trigger] table_drawing(*table, styled),
{
    table.to_string()
}

} // verus!
