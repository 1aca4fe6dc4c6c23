//! Importing a datamine: each table arrives as a list of JSON arrays, one per row, and
//! every array long enough for the table becomes the row of column values to insert,
//! with text taken from strings and integers from integral numbers (a default where the
//! cell holds something else).
use vstd::prelude::*;
use crate::db::owned;

verus! {

/// A cell of a datamine row as the import reads it: a string, a number that fits an
/// `i64`, or anything else.
#[derive(Debug, Clone)]
pub enum Cell {
    Text(String),
    Int(i64),
    Other,
}

/// A column of a table: text (empty where the cell holds no string), or an integer with
/// the value used where the cell holds no integer.
#[derive(Debug, Clone, Copy)]
pub enum Column {
    Text,
    Int(i64),
}

/// A value inserted into a table.
#[derive(Debug, Clone)]
pub enum SqlValue {
    Text(String),
    Int(i64),
}

/// The view of an inserted value.
pub enum SqlView {
    Text(Seq<char>),
    Int(int),
}

pub open spec fn sql_view(v: SqlValue) -> SqlView {
    match v {
        SqlValue::Text(s) => SqlView::Text(s@),
        SqlValue::Int(i) => SqlView::Int(i as int),
    }
}

/// Views of a row of inserted values.
pub open spec fn row_view(r: Seq<SqlValue>) -> Seq<SqlView> {
    r.map_values(|v: SqlValue| sql_view(v))
}

/// Views of rows of inserted values.
pub open spec fn rows_view(r: Seq<Vec<SqlValue>>) -> Seq<Seq<SqlView>> {
    r.map_values(|v: Vec<SqlValue>| row_view(v@))
}

/// The value a cell gives in a column.
pub open spec fn cell_value(c: Cell, col: Column) -> SqlView {
    match col {
        Column::Text => match c {
            Cell::Text(s) => SqlView::Text(s@),
            _ => SqlView::Text(Seq::empty()),
        },
        Column::Int(d) => match c {
            Cell::Int(i) => SqlView::Int(i as int),
            _ => SqlView::Int(d as int),
        },
    }
}

/// The row that a JSON array gives for a table's columns: its first cells, one per
/// column; `None` when the array has fewer cells than the table has columns.
pub open spec fn row_of(cells: Seq<Cell>, layout: Seq<Column>) -> Option<Seq<SqlView>> {
    if cells.len() < layout.len() {
        None
    } else {
        Some(Seq::new(layout.len(), |k: int| cell_value(cells[k], layout[k])))
    }
}

fn value_of(c: &Cell, col: Column) -> (r: SqlValue)
    ensures
        sql_view(r) == cell_value(*c, col),
{
    match col {
        Column::Text => match c {
            Cell::Text(s) => SqlValue::Text(owned(s.as_str())),
            _ => SqlValue::Text(String::new()),
        },
        Column::Int(d) => match c {
            Cell::Int(i) => SqlValue::Int(*i),
            _ => SqlValue::Int(d),
        },
    }
}

/// The row to insert for one JSON array (see `row_of`).
pub fn row_values(cells: &Vec<Cell>, layout: &Vec<Column>) -> (r: Option<Vec<SqlValue>>)
    ensures
        match r {
            Some(v) => row_of(cells@, layout@) == Some(row_view(v@)),
            None => row_of(cells@, layout@) is None,
        },
{
    if cells.len() < layout.len() {
        return None;
    }
    let mut out: Vec<SqlValue> = Vec::new();
    let mut k: usize = 0;
    while k < layout.len()
        invariant
            k <= layout@.len() <= cells@.len(),
            row_view(out@) =~= Seq::new(k as nat, |q: int| cell_value(cells@[q], layout@[q])),
        decreases layout@.len() - k,
    {
        let ghost before = out@;
        let v = value_of(&cells[k], layout[k]);
        let ghost vv = v;
        out.push(v);
        assert(row_view(out@) =~= row_view(before).push(sql_view(vv)));
        k = k + 1;
    }
    Some(out)
}

/// The rows a table's list gives, in list order: an element that is not an array
/// (`None`) or is too short gives no row.
pub open spec fn table_rows_of(rows: Seq<Option<Vec<Cell>>>, layout: Seq<Column>, n: nat) -> Seq<
    Seq<SqlView>,
>
    decreases n,
{
    if n == 0 {
        Seq::empty()
    } else {
        let k = (n - 1) as nat;
        let rest = table_rows_of(rows, layout, k);
        match rows[k as int] {
            Some(cells) => match row_of(cells@, layout) {
                Some(r) => rest.push(r),
                None => rest,
            },
            None => rest,
        }
    }
}

/// The rows to insert for a table's list (see `table_rows_of`).
pub fn table_rows(rows: &Vec<Option<Vec<Cell>>>, layout: &Vec<Column>) -> (r: Vec<Vec<SqlValue>>)
    ensures
        rows_view(r@) == table_rows_of(rows@, layout@, rows@.len()),
{
    let mut out: Vec<Vec<SqlValue>> = Vec::new();
    let mut k: usize = 0;
    assert(rows_view(out@) =~= table_rows_of(rows@, layout@, 0));
    while k < rows.len()
        invariant
            k <= rows@.len(),
            rows_view(out@) == table_rows_of(rows@, layout@, k as nat),
        decreases rows@.len() - k,
    {
        let ghost before = out@;
        match &rows[k] {
            Some(cells) => match row_values(cells, layout) {
                Some(v) => {
                    let ghost vv = v;
                    out.push(v);
                    assert(rows_view(out@) =~= rows_view(before).push(row_view(vv@)));
                },
                None => {},
            },
            None => {},
        }
        k = k + 1;
    }
    out
}

/// The tables of a datamine.
#[derive(Debug, Clone, Copy)]
pub enum DataTable {
    Pals,
    Passives,
    Items,
    BreedingExceptions,
    ActiveSkills,
    Recipes,
    PalDrops,
}

/// The columns of each table. Pals: id, English and Spanish name, breeding power
/// (default 1500), then twelve integers (rarity, price and the work levels, default 0).
/// Passive skills: five texts. Items and breeding exceptions: three texts. Active skills:
/// id, two names, power and cooldown, element. Recipes: product, material, count. Drops:
/// pal, item, rate and the two quantity bounds.
pub open spec fn layout_of(t: DataTable) -> Seq<Column> {
    match t {
        DataTable::Pals => seq![Column::Text, Column::Text, Column::Text, Column::Int(1500)]
            + Seq::new(12, |k: int| Column::Int(0)),
        DataTable::Passives => seq![Column::Text, Column::Text, Column::Text, Column::Text, Column::Text],
        DataTable::Items => seq![Column::Text, Column::Text, Column::Text],
        DataTable::BreedingExceptions => seq![Column::Text, Column::Text, Column::Text],
        DataTable::ActiveSkills => seq![
            Column::Text,
            Column::Text,
            Column::Text,
            Column::Int(0),
            Column::Int(0),
            Column::Text,
        ],
        DataTable::Recipes => seq![Column::Text, Column::Text, Column::Int(0)],
        DataTable::PalDrops => seq![
            Column::Text,
            Column::Text,
            Column::Int(0),
            Column::Int(0),
            Column::Int(0),
        ],
    }
}

/// The columns of a table (see `layout_of`).
pub fn table_layout(t: DataTable) -> (r: Vec<Column>)
    ensures
        r@ == layout_of(t),
{
    let mut v: Vec<Column> = Vec::new();
    match t {
        DataTable::Pals => {
            v.push(Column::Text);
            v.push(Column::Text);
            v.push(Column::Text);
            v.push(Column::Int(1500));
            let mut k: usize = 0;
            while k < 12
                invariant
                    k <= 12,
                    v@ =~= seq![Column::Text, Column::Text, Column::Text, Column::Int(1500)]
                        + Seq::new(k as nat, |q: int| Column::Int(0)),
                decreases 12 - k,
            {
                v.push(Column::Int(0));
                k = k + 1;
            }
        },
        DataTable::Passives => {
            v.push(Column::Text);
            v.push(Column::Text);
            v.push(Column::Text);
            v.push(Column::Text);
            v.push(Column::Text);
        },
        DataTable::Items | DataTable::BreedingExceptions => {
            v.push(Column::Text);
            v.push(Column::Text);
            v.push(Column::Text);
        },
        DataTable::ActiveSkills => {
            v.push(Column::Text);
            v.push(Column::Text);
            v.push(Column::Text);
            v.push(Column::Int(0));
            v.push(Column::Int(0));
            v.push(Column::Text);
        },
        DataTable::Recipes => {
            v.push(Column::Text);
            v.push(Column::Text);
            v.push(Column::Int(0));
        },
        DataTable::PalDrops => {
            v.push(Column::Text);
            v.push(Column::Text);
            v.push(Column::Int(0));
            v.push(Column::Int(0));
            v.push(Column::Int(0));
        },
    }
    assert(v@ =~= layout_of(t));
    v
}

} // verus!
