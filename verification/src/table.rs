use comfy_table::{ColumnConstraint, Table, Width};
use vstd::prelude::*;
use crate::text::texts;

verus! {

/// The texts of the cells of a table.
pub open spec fn cell_texts(rows: Seq<Vec<String>>) -> Seq<Seq<Seq<char>>> {
    Seq::new(rows.len(), |i: int| texts(rows[i]@))
}

/// The table that `Table` of `comfy_table` draws from a head row and further rows, for a width in
/// characters and a share of it, in percent, that every column takes.
pub uninterp spec fn table_text(
    headers: Seq<Seq<char>>,
    rows: Seq<Seq<Seq<char>>>,
    width: u16,
    share: u16,
) -> Seq<char>;

/// Draws a table with `Table` of `comfy_table`.
///
/// Claimed of it: the text depends on nothing but the head row, the rows, the width and the share
/// of each column. The width is set, so the terminal is not asked for one, and no cell has a style
/// of its own, so it makes no difference whether there is a terminal.
#[verifier::external_body]
pub(crate) fn draw_table(headers: &Vec<String>, rows: &Vec<Vec<String>>, width: u16, share: u16) -> (s:
    String)
    requires
        headers@.len() == 5,
        forall|i: int| 0 <= i < rows@.len() ==> (#[trigger] rows@[i])@.len() == 5,
        width >= 80,
        20 <= share <= 100,
    ensures
        s@ == table_text(texts(headers@), cell_texts(rows@), width, share),
{
    let mut table = Table::new();
    let constraint = ColumnConstraint::Absolute(Width::Percentage(share));
    table.set_header(headers.clone()).add_rows(rows.clone()).set_width(width);
    table.set_constraints(std::iter::repeat(constraint));
    table.to_string()
}

} // verus!
