//! The positions in a database: statements, rows and queries.
//!
//! A row is the whole life of a position. The same position is written again
//! and again as it changes; what was fixed when it opened is written once.
use crate::model::{Position, PositionView};
use crate::scalar::Scalar;
use crate::text::{decimal, decimal_text, join, joined, same_text, texts};
use vstd::prelude::*;
use vstd::string::*;

verus! {

/// Makes the table and its indexes, where they are missing.
pub const SCHEMA: &'static str = "
PRAGMA journal_mode=WAL;
PRAGMA synchronous=NORMAL;
CREATE TABLE IF NOT EXISTS positions (
  id TEXT PRIMARY KEY,
  kind TEXT NOT NULL,
  status TEXT NOT NULL,
  expiry TEXT NOT NULL,
  expiry_ms INTEGER NOT NULL,
  strike REAL NOT NULL,
  call_symbol TEXT NOT NULL,
  put_symbol TEXT NOT NULL,
  open_ts INTEGER NOT NULL,
  open_spot REAL NOT NULL,
  open_call REAL NOT NULL,
  open_put REAL NOT NULL,
  open_gross REAL NOT NULL,
  open_fee REAL NOT NULL,
  open_net REAL NOT NULL,
  open_rate REAL NOT NULL,
  open_annual_rate REAL NOT NULL,
  target_close_rate REAL NOT NULL,
  close_ts INTEGER NOT NULL,
  close_spot REAL NOT NULL,
  close_call REAL NOT NULL,
  close_put REAL NOT NULL,
  close_gross REAL NOT NULL,
  close_fee REAL NOT NULL,
  exec_qty REAL NOT NULL,
  net_profit_per_btc REAL NOT NULL,
  net_profit_rate REAL NOT NULL,
  hold_annual_rate REAL NOT NULL,
  est_profit REAL NOT NULL
);
CREATE INDEX IF NOT EXISTS idx_pos_status ON positions(status);
CREATE INDEX IF NOT EXISTS idx_pos_open_ts ON positions(open_ts);
CREATE INDEX IF NOT EXISTS idx_pos_expiry_strike ON positions(expiry, strike);
";

/// How many positions there are.
pub const COUNT_ALL: &'static str = "SELECT COUNT(*) FROM positions";

/// How many positions there are in a state.
pub const COUNT_STATUS: &'static str = "SELECT COUNT(*) FROM positions WHERE status=?";

/// What the positions that have ended brought.
pub const REALIZED_PROFIT: &'static str =
    "SELECT COALESCE(SUM(est_profit),0) FROM positions WHERE status IN ('closed','settled')";

/// When the latest position opened.
pub const LATEST_OPENING: &'static str = "SELECT COALESCE(MAX(open_ts),0) FROM positions";

/// How many positions are written in one transaction at most.
pub const BATCH_LIMIT: usize = 500;

/// How many columns a row has.
pub const COLUMN_COUNT: usize = 29;

/// What a column holds.
#[derive(Clone, Copy, Debug, PartialEq, Eq, Structural)]
pub enum ColumnKind {
    Text,
    Integer,
    Real,
}

/// The name of a column.
pub open spec fn column_spec(i: int) -> Seq<char> {
    if i == 0 {
        "id"@
    } else if i == 1 {
        "kind"@
    } else if i == 2 {
        "status"@
    } else if i == 3 {
        "expiry"@
    } else if i == 4 {
        "expiry_ms"@
    } else if i == 5 {
        "strike"@
    } else if i == 6 {
        "call_symbol"@
    } else if i == 7 {
        "put_symbol"@
    } else if i == 8 {
        "open_ts"@
    } else if i == 9 {
        "open_spot"@
    } else if i == 10 {
        "open_call"@
    } else if i == 11 {
        "open_put"@
    } else if i == 12 {
        "open_gross"@
    } else if i == 13 {
        "open_fee"@
    } else if i == 14 {
        "open_net"@
    } else if i == 15 {
        "open_rate"@
    } else if i == 16 {
        "open_annual_rate"@
    } else if i == 17 {
        "target_close_rate"@
    } else if i == 18 {
        "close_ts"@
    } else if i == 19 {
        "close_spot"@
    } else if i == 20 {
        "close_call"@
    } else if i == 21 {
        "close_put"@
    } else if i == 22 {
        "close_gross"@
    } else if i == 23 {
        "close_fee"@
    } else if i == 24 {
        "exec_qty"@
    } else if i == 25 {
        "net_profit_per_btc"@
    } else if i == 26 {
        "net_profit_rate"@
    } else if i == 27 {
        "hold_annual_rate"@
    } else {
        "est_profit"@
    }
}

/// What a column holds.
pub open spec fn kind_spec(i: int) -> ColumnKind {
    if i <= 3 || i == 6 || i == 7 {
        ColumnKind::Text
    } else if i == 4 || i == 8 || i == 18 {
        ColumnKind::Integer
    } else {
        ColumnKind::Real
    }
}

/// Whether a column is written again when a position changes: its state, and
/// all that is known only after it opened.
pub open spec fn is_updated(i: int) -> bool {
    i == 2 || 18 <= i < COLUMN_COUNT
}

/// The name of a column.
pub fn column_name(i: usize) -> (r: &'static str)
    requires
        i < COLUMN_COUNT,
    ensures
        r@ == column_spec(i as int),
{
    match i {
        0 => "id",
        1 => "kind",
        2 => "status",
        3 => "expiry",
        4 => "expiry_ms",
        5 => "strike",
        6 => "call_symbol",
        7 => "put_symbol",
        8 => "open_ts",
        9 => "open_spot",
        10 => "open_call",
        11 => "open_put",
        12 => "open_gross",
        13 => "open_fee",
        14 => "open_net",
        15 => "open_rate",
        16 => "open_annual_rate",
        17 => "target_close_rate",
        18 => "close_ts",
        19 => "close_spot",
        20 => "close_call",
        21 => "close_put",
        22 => "close_gross",
        23 => "close_fee",
        24 => "exec_qty",
        25 => "net_profit_per_btc",
        26 => "net_profit_rate",
        27 => "hold_annual_rate",
        _ => "est_profit",
    }
}

/// What a column holds.
pub fn column_kind(i: usize) -> (r: ColumnKind)
    ensures
        r == kind_spec(i as int),
{
    if i <= 3 || i == 6 || i == 7 {
        ColumnKind::Text
    } else if i == 4 || i == 8 || i == 18 {
        ColumnKind::Integer
    } else {
        ColumnKind::Real
    }
}

// ---------------------------------------------------------------------------
// States and kinds
// ---------------------------------------------------------------------------
/// The kind that a text stands for.
pub open spec fn kind_of(s: Seq<char>) -> Seq<char> {
    if s == "conversion"@ {
        "conversion"@
    } else {
        "reversal"@
    }
}

/// The state that a text stands for.
pub open spec fn status_of(s: Seq<char>) -> Seq<char> {
    if s == "closed"@ {
        "closed"@
    } else if s == "settled"@ {
        "settled"@
    } else {
        "open"@
    }
}

/// The kind that a text stands for.
pub fn intern_kind(s: &str) -> (r: &'static str)
    ensures
        r@ == kind_of(s@),
{
    if same_text(s, "conversion") {
        "conversion"
    } else {
        "reversal"
    }
}

/// The state that a text stands for.
pub fn intern_status(s: &str) -> (r: &'static str)
    ensures
        r@ == status_of(s@),
{
    if same_text(s, "closed") {
        "closed"
    } else if same_text(s, "settled") {
        "settled"
    } else {
        "open"
    }
}

// ---------------------------------------------------------------------------
// Rows
// ---------------------------------------------------------------------------
/// A value in a row.
#[derive(Debug)]
pub enum Cell<N> {
    Text(String),
    Integer(i64),
    Real(N),
    /// Nothing, or bytes.
    Other,
}

/// A value in a row, in contracts.
pub enum CellView<N> {
    Text(Seq<char>),
    Integer(i64),
    Real(N),
    Other,
}

impl<N> View for Cell<N> {
    type V = CellView<N>;

    open spec fn view(&self) -> CellView<N> {
        match *self {
            Cell::Text(s) => CellView::Text(s@),
            Cell::Integer(n) => CellView::Integer(n),
            Cell::Real(x) => CellView::Real(x),
            Cell::Other => CellView::Other,
        }
    }
}

/// The values of a row.
pub open spec fn cell_views<N>(cells: Seq<Cell<N>>) -> Seq<CellView<N>> {
    cells.map_values(|c: Cell<N>| c@)
}

/// The row of a position.
pub open spec fn row_spec<N>(p: PositionView<N>) -> Seq<CellView<N>> {
    seq![
        CellView::Text(p.id),
        CellView::Text(p.kind),
        CellView::Text(p.status),
        CellView::Text(p.expiry),
        CellView::Integer(p.expiry_ms),
        CellView::Real(p.strike),
        CellView::Text(p.call_symbol),
        CellView::Text(p.put_symbol),
        CellView::Integer(p.open_ts),
        CellView::Real(p.open_spot),
        CellView::Real(p.open_call),
        CellView::Real(p.open_put),
        CellView::Real(p.open_gross),
        CellView::Real(p.open_fee),
        CellView::Real(p.open_net),
        CellView::Real(p.open_rate),
        CellView::Real(p.open_annual_rate),
        CellView::Real(p.target_close_rate),
        CellView::Integer(p.close_ts),
        CellView::Real(p.close_spot),
        CellView::Real(p.close_call),
        CellView::Real(p.close_put),
        CellView::Real(p.close_gross),
        CellView::Real(p.close_fee),
        CellView::Real(p.exec_qty),
        CellView::Real(p.net_profit_per_btc),
        CellView::Real(p.net_profit_rate),
        CellView::Real(p.hold_annual_rate),
        CellView::Real(p.est_profit),
    ]
}

/// The row of a position, in the order of the columns.
pub fn position_row<N: Scalar>(p: &Position<N>) -> (r: Vec<Cell<N>>)
    ensures
        cell_views(r@) == row_spec(p@),
{
    let mut row: Vec<Cell<N>> = Vec::new();
    row.push(Cell::Text(p.id.clone()));
    row.push(Cell::Text(p.kind.to_owned()));
    row.push(Cell::Text(p.status.to_owned()));
    row.push(Cell::Text(p.expiry.clone()));
    row.push(Cell::Integer(p.expiry_ms));
    row.push(Cell::Real(p.strike));
    row.push(Cell::Text(p.call_symbol.clone()));
    row.push(Cell::Text(p.put_symbol.clone()));
    row.push(Cell::Integer(p.open_ts));
    row.push(Cell::Real(p.open_spot));
    row.push(Cell::Real(p.open_call));
    row.push(Cell::Real(p.open_put));
    row.push(Cell::Real(p.open_gross));
    row.push(Cell::Real(p.open_fee));
    row.push(Cell::Real(p.open_net));
    row.push(Cell::Real(p.open_rate));
    row.push(Cell::Real(p.open_annual_rate));
    row.push(Cell::Real(p.target_close_rate));
    row.push(Cell::Integer(p.close_ts));
    row.push(Cell::Real(p.close_spot));
    row.push(Cell::Real(p.close_call));
    row.push(Cell::Real(p.close_put));
    row.push(Cell::Real(p.close_gross));
    row.push(Cell::Real(p.close_fee));
    row.push(Cell::Real(p.exec_qty));
    row.push(Cell::Real(p.net_profit_per_btc));
    row.push(Cell::Real(p.net_profit_rate));
    row.push(Cell::Real(p.hold_annual_rate));
    row.push(Cell::Real(p.est_profit));
    proof {
        assert(cell_views(row@) =~= row_spec(p@));
    }
    row
}

/// A value has what a column holds. An integer stands for a real number too.
pub open spec fn fits<N>(kind: ColumnKind, cell: CellView<N>) -> bool {
    match kind {
        ColumnKind::Text => cell is Text,
        ColumnKind::Integer => cell is Integer,
        ColumnKind::Real => cell is Real || cell is Integer,
    }
}

/// A row has a column, and it holds what it should.
pub open spec fn column_fits<N>(row: Seq<CellView<N>>, i: int) -> bool {
    i < row.len() && fits(kind_spec(i), row[i])
}

/// All columns of a row hold what they should.
pub open spec fn row_fits<N>(row: Seq<CellView<N>>) -> bool {
    forall|i: int| 0 <= i < COLUMN_COUNT ==> #[trigger] column_fits(row, i)
}

/// Column `i` is the first that a row lacks or that holds something else.
pub open spec fn is_first_misfit<N>(row: Seq<CellView<N>>, i: int) -> bool {
    0 <= i < COLUMN_COUNT && !column_fits(row, i) && forall|j: int| 0 <= j < i ==> #[trigger] column_fits(row, j)
}

/// The real number that a value stands for.
pub open spec fn real_of<N: Scalar>(cell: CellView<N>) -> N {
    match cell {
        CellView::Real(x) => x,
        CellView::Integer(n) => N::of_int_spec(n as i128),
        _ => N::of_int_spec(0),
    }
}

/// The position that a row holds.
pub open spec fn position_of<N: Scalar>(row: Seq<CellView<N>>) -> PositionView<N> {
    PositionView {
        id: row[0]->Text_0,
        kind: kind_of(row[1]->Text_0),
        status: status_of(row[2]->Text_0),
        expiry: row[3]->Text_0,
        expiry_ms: row[4]->Integer_0,
        strike: real_of(row[5]),
        call_symbol: row[6]->Text_0,
        put_symbol: row[7]->Text_0,
        open_ts: row[8]->Integer_0,
        open_spot: real_of(row[9]),
        open_call: real_of(row[10]),
        open_put: real_of(row[11]),
        open_gross: real_of(row[12]),
        open_fee: real_of(row[13]),
        open_net: real_of(row[14]),
        open_rate: real_of(row[15]),
        open_annual_rate: real_of(row[16]),
        target_close_rate: real_of(row[17]),
        close_ts: row[18]->Integer_0,
        close_spot: real_of(row[19]),
        close_call: real_of(row[20]),
        close_put: real_of(row[21]),
        close_gross: real_of(row[22]),
        close_fee: real_of(row[23]),
        exec_qty: real_of(row[24]),
        net_profit_per_btc: real_of(row[25]),
        net_profit_rate: real_of(row[26]),
        hold_annual_rate: real_of(row[27]),
        est_profit: real_of(row[28]),
    }
}

fn cell_fits<N: Scalar>(row: &Vec<Cell<N>>, i: usize) -> (r: bool)
    ensures
        r == column_fits(cell_views(row@), i as int),
{
    if i >= row.len() {
        return false;
    }
    proof {
        assert(cell_views(row@)[i as int] == row@[i as int]@);
    }
    match (column_kind(i), &row[i]) {
        (ColumnKind::Text, Cell::Text(_)) => true,
        (ColumnKind::Integer, Cell::Integer(_)) => true,
        (ColumnKind::Real, Cell::Real(_)) => true,
        (ColumnKind::Real, Cell::Integer(_)) => true,
        _ => false,
    }
}

fn first_misfit<N: Scalar>(row: &Vec<Cell<N>>) -> (r: Option<usize>)
    ensures
        match r {
            Some(i) => is_first_misfit(cell_views(row@), i as int),
            None => row_fits(cell_views(row@)),
        },
{
    let mut i: usize = 0;
    while i < COLUMN_COUNT
        invariant
            i <= COLUMN_COUNT,
            forall|j: int| 0 <= j < i ==> #[trigger] column_fits(cell_views(row@), j),
        decreases COLUMN_COUNT - i,
    {
        if !cell_fits(row, i) {
            return Some(i);
        }
        i = i + 1;
    }
    None
}

fn text_at<N: Scalar>(row: &Vec<Cell<N>>, i: usize) -> (r: String)
    requires
        column_fits(cell_views(row@), i as int),
        kind_spec(i as int) == ColumnKind::Text,
    ensures
        r@ == cell_views(row@)[i as int]->Text_0,
{
    proof {
        assert(cell_views(row@)[i as int] == row@[i as int]@);
    }
    match &row[i] {
        Cell::Text(s) => s.clone(),
        _ => String::new(),
    }
}

fn integer_at<N: Scalar>(row: &Vec<Cell<N>>, i: usize) -> (r: i64)
    requires
        column_fits(cell_views(row@), i as int),
        kind_spec(i as int) == ColumnKind::Integer,
    ensures
        r == cell_views(row@)[i as int]->Integer_0,
{
    proof {
        assert(cell_views(row@)[i as int] == row@[i as int]@);
    }
    match &row[i] {
        Cell::Integer(n) => *n,
        _ => 0,
    }
}

fn real_at<N: Scalar>(row: &Vec<Cell<N>>, i: usize) -> (r: N)
    requires
        column_fits(cell_views(row@), i as int),
        kind_spec(i as int) == ColumnKind::Real,
    ensures
        r == real_of(cell_views(row@)[i as int]),
{
    proof {
        assert(cell_views(row@)[i as int] == row@[i as int]@);
    }
    match &row[i] {
        Cell::Real(x) => *x,
        Cell::Integer(n) => N::of_int(*n as i128),
        _ => N::of_int(0),
    }
}

/// Reads a position from a row, or says which column is the first that is
/// missing or holds something else.
pub fn row_to_position<N: Scalar>(row: &Vec<Cell<N>>) -> (r: Result<Position<N>, usize>)
    ensures
        match r {
            Ok(p) => row_fits(cell_views(row@)) && p@ == position_of(cell_views(row@)),
            Err(i) => is_first_misfit(cell_views(row@), i as int),
        },
{
    match first_misfit(row) {
        Some(i) => {
            return Err(i);
        },
        None => {},
    }
    proof {
        assert(forall|i: int| 0 <= i < COLUMN_COUNT ==> #[trigger] column_fits(cell_views(row@), i));
    }
    let kind: String = text_at(row, 1);
    let status: String = text_at(row, 2);
    Ok(
        Position {
            id: text_at(row, 0),
            kind: intern_kind(kind.as_str()),
            status: intern_status(status.as_str()),
            expiry: text_at(row, 3),
            expiry_ms: integer_at(row, 4),
            strike: real_at(row, 5),
            call_symbol: text_at(row, 6),
            put_symbol: text_at(row, 7),
            open_ts: integer_at(row, 8),
            open_spot: real_at(row, 9),
            open_call: real_at(row, 10),
            open_put: real_at(row, 11),
            open_gross: real_at(row, 12),
            open_fee: real_at(row, 13),
            open_net: real_at(row, 14),
            open_rate: real_at(row, 15),
            open_annual_rate: real_at(row, 16),
            target_close_rate: real_at(row, 17),
            close_ts: integer_at(row, 18),
            close_spot: real_at(row, 19),
            close_call: real_at(row, 20),
            close_put: real_at(row, 21),
            close_gross: real_at(row, 22),
            close_fee: real_at(row, 23),
            exec_qty: real_at(row, 24),
            net_profit_per_btc: real_at(row, 25),
            net_profit_rate: real_at(row, 26),
            hold_annual_rate: real_at(row, 27),
            est_profit: real_at(row, 28),
        },
    )
}

/// The values of several rows.
pub open spec fn row_views<N>(rows: Seq<Vec<Cell<N>>>) -> Seq<Seq<CellView<N>>> {
    rows.map_values(|row: Vec<Cell<N>>| cell_views(row@))
}

/// Reads positions from rows, in order. Where a row does not hold one, the first
/// such row is said, with its first column that is missing or holds something
/// else.
pub fn load_open_positions<N: Scalar>(rows: &Vec<Vec<Cell<N>>>) -> (r: Result<Vec<Position<N>>, (usize, usize)>)
    ensures
        match r {
            Ok(v) => {
                &&& v@.len() == rows@.len()
                &&& forall|i: int|
                    0 <= i < v@.len() ==> row_fits(row_views(rows@)[i]) && (#[trigger] v@[i])@ == position_of(
                        row_views(rows@)[i],
                    )
            },
            Err((row, column)) => {
                &&& row < rows@.len()
                &&& is_first_misfit(row_views(rows@)[row as int], column as int)
                &&& forall|i: int| 0 <= i < row ==> row_fits(#[trigger] row_views(rows@)[i])
            },
        },
{
    let mut out: Vec<Position<N>> = Vec::new();
    let n: usize = rows.len();
    let mut i: usize = 0;
    while i < n
        invariant
            i <= n,
            n == rows@.len(),
            out@.len() == i,
            forall|k: int| 0 <= k < i ==> row_fits(#[trigger] row_views(rows@)[k]),
            forall|k: int| 0 <= k < i ==> (#[trigger] out@[k])@ == position_of(row_views(rows@)[k]),
        decreases n - i,
    {
        proof {
            assert(row_views(rows@)[i as int] == cell_views(rows@[i as int]@));
        }
        match row_to_position(&rows[i]) {
            Ok(p) => {
                out.push(p);
            },
            Err(column) => {
                return Err((i, column));
            },
        }
        i = i + 1;
    }
    Ok(out)
}

/// The value of a column as it is shown: an integer under a column of real
/// numbers is shown as a real number.
pub open spec fn shown_cell<N: Scalar>(i: int, cell: CellView<N>) -> CellView<N> {
    match kind_spec(i) {
        ColumnKind::Real => CellView::Real(real_of(cell)),
        _ => cell,
    }
}

/// A row as it is shown: every column under its name, in order. Where a column
/// is missing or holds something else, the first such column is said.
pub fn row_fields<N: Scalar>(row: &Vec<Cell<N>>) -> (r: Result<Vec<(&'static str, Cell<N>)>, usize>)
    ensures
        match r {
            Ok(fields) => row_fits(cell_views(row@)) && fields@.len() == COLUMN_COUNT && forall|i: int|
                0 <= i < COLUMN_COUNT ==> {
                    &&& (#[trigger] fields@[i]).0@ == column_spec(i)
                    &&& fields@[i].1@ == shown_cell(i, cell_views(row@)[i])
                },
            Err(i) => is_first_misfit(cell_views(row@), i as int),
        },
{
    match first_misfit(row) {
        Some(i) => {
            return Err(i);
        },
        None => {},
    }
    let mut fields: Vec<(&'static str, Cell<N>)> = Vec::new();
    let mut i: usize = 0;
    while i < COLUMN_COUNT
        invariant
            i <= COLUMN_COUNT,
            row_fits(cell_views(row@)),
            fields@.len() == i,
            forall|k: int|
                0 <= k < i ==> {
                    &&& (#[trigger] fields@[k]).0@ == column_spec(k)
                    &&& fields@[k].1@ == shown_cell(k, cell_views(row@)[k])
                },
        decreases COLUMN_COUNT - i,
    {
        proof {
            assert(column_fits(cell_views(row@), i as int));
        }
        let cell: Cell<N> = match column_kind(i) {
            ColumnKind::Text => Cell::Text(text_at(row, i)),
            ColumnKind::Integer => Cell::Integer(integer_at(row, i)),
            ColumnKind::Real => Cell::Real(real_at(row, i)),
        };
        fields.push((column_name(i), cell));
        i = i + 1;
    }
    Ok(fields)
}

/// Whether a transaction takes no more positions.
pub fn batch_is_full(positions: usize) -> (r: bool)
    ensures
        r == (positions >= BATCH_LIMIT),
{
    positions >= BATCH_LIMIT
}

// ---------------------------------------------------------------------------
// Statements
// ---------------------------------------------------------------------------
/// The names of the columns, in order.
pub open spec fn columns() -> Seq<Seq<char>> {
    Seq::new(COLUMN_COUNT as nat, |i: int| column_spec(i))
}

/// The names of the columns from `from` on, in order.
pub open spec fn columns_from(from: int) -> Seq<Seq<char>> {
    Seq::new((COLUMN_COUNT - from) as nat, |i: int| column_spec(from + i))
}

/// The columns that are written again when a position changes.
pub open spec fn updated_columns() -> Seq<Seq<char>> {
    seq![column_spec(2)] + columns_from(18)
}

/// The places of the values in a statement: `?1` and so on.
pub open spec fn places() -> Seq<Seq<char>> {
    Seq::new(COLUMN_COUNT as nat, |i: int| "?"@ + decimal(i + 1))
}

/// A column takes its value from the row that was to be written.
pub open spec fn assignment(name: Seq<char>) -> Seq<char> {
    name + "=excluded."@ + name
}

/// Writes a position. Where it is there already, only what changes after the
/// opening is written.
pub open spec fn upsert_spec() -> Seq<char> {
    "INSERT INTO positions ("@ + joined(columns(), ","@) + ") VALUES ("@ + joined(places(), ","@)
        + ") ON CONFLICT(id) DO UPDATE SET "@ + joined(updated_columns().map_values(|c: Seq<char>| assignment(c)), ","@)
}

fn column_list() -> (r: String)
    ensures
        r@ == joined(columns(), ","@),
{
    let mut names: Vec<String> = Vec::new();
    let mut i: usize = 0;
    while i < COLUMN_COUNT
        invariant
            i <= COLUMN_COUNT,
            texts(names@) == columns().take(i as int),
        decreases COLUMN_COUNT - i,
    {
        let ghost before = names@;
        names.push(column_name(i).to_owned());
        proof {
            assert(texts(names@) =~= texts(before).push(column_spec(i as int)));
            assert(columns().take(i + 1) =~= columns().take(i as int).push(column_spec(i as int)));
        }
        i = i + 1;
    }
    proof {
        assert(columns().take(COLUMN_COUNT as int) =~= columns());
    }
    join(&names, ",")
}

fn place_list() -> (r: String)
    ensures
        r@ == joined(places(), ","@),
{
    let mut names: Vec<String> = Vec::new();
    let mut i: usize = 0;
    while i < COLUMN_COUNT
        invariant
            i <= COLUMN_COUNT,
            texts(names@) == places().take(i as int),
        decreases COLUMN_COUNT - i,
    {
        let ghost before = names@;
        let mut place = "?".to_owned();
        let number: String = decimal_text(i as i128 + 1);
        place.append(number.as_str());
        names.push(place);
        proof {
            assert(texts(names@) =~= texts(before).push("?"@ + decimal(i + 1)));
            assert(places().take(i + 1) =~= places().take(i as int).push("?"@ + decimal(i + 1)));
        }
        i = i + 1;
    }
    proof {
        assert(places().take(COLUMN_COUNT as int) =~= places());
    }
    join(&names, ",")
}

fn push_assignment(names: &mut Vec<String>, i: usize)
    requires
        i < COLUMN_COUNT,
    ensures
        texts(final(names)@) == texts(old(names)@).push(assignment(column_spec(i as int))),
{
    let ghost before = names@;
    let mut s = column_name(i).to_owned();
    s.append("=excluded.");
    s.append(column_name(i));
    names.push(s);
    proof {
        assert(texts(names@) =~= texts(before).push(s@));
    }
}

fn assignment_list() -> (r: String)
    ensures
        r@ == joined(updated_columns().map_values(|c: Seq<char>| assignment(c)), ","@),
{
    let ghost all = updated_columns().map_values(|c: Seq<char>| assignment(c));
    let mut names: Vec<String> = Vec::new();
    push_assignment(&mut names, 2);
    let mut i: usize = 18;
    proof {
        assert(texts(names@) =~= all.take(1));
    }
    while i < COLUMN_COUNT
        invariant
            18 <= i <= COLUMN_COUNT,
            all == updated_columns().map_values(|c: Seq<char>| assignment(c)),
            texts(names@) == all.take(i - 17),
        decreases COLUMN_COUNT - i,
    {
        push_assignment(&mut names, i);
        proof {
            assert(updated_columns()[i - 17] == column_spec(i as int));
            assert(all.take(i - 16) =~= all.take(i - 17).push(all[i - 17]));
        }
        i = i + 1;
    }
    proof {
        assert(all.take(12) =~= all);
    }
    join(&names, ",")
}

/// The statement that writes a position.
pub fn upsert_sql() -> (r: String)
    ensures
        r@ == upsert_spec(),
{
    let mut s = "INSERT INTO positions (".to_owned();
    let names: String = column_list();
    s.append(names.as_str());
    s.append(") VALUES (");
    let values: String = place_list();
    s.append(values.as_str());
    s.append(") ON CONFLICT(id) DO UPDATE SET ");
    let assignments: String = assignment_list();
    s.append(assignments.as_str());
    s
}

/// The query for the positions that are open.
pub fn open_positions_sql() -> (r: String)
    ensures
        r@ == "SELECT "@ + joined(columns(), ","@) + " FROM positions WHERE status='open'"@,
{
    let mut s = "SELECT ".to_owned();
    let names: String = column_list();
    s.append(names.as_str());
    s.append(" FROM positions WHERE status='open'");
    s
}

// ---------------------------------------------------------------------------
// Queries
// ---------------------------------------------------------------------------
/// Which positions to show.
#[derive(Debug)]
pub struct Filters<N> {
    /// Opened at this time or later.
    pub from: Option<i64>,
    /// Opened at this time or earlier.
    pub to: Option<i64>,
    pub kind: Option<String>,
    pub status: Option<String>,
    pub expiry: Option<String>,
    /// With this rate locked in, or a larger one.
    pub min_rate: Option<N>,
    /// How many.
    pub limit: i64,
}

impl<N> Default for Filters<N> {
    fn default() -> (r: Self)
        ensures
            r == (Filters::<N> {
                from: None,
                to: None,
                kind: None,
                status: None,
                expiry: None,
                min_rate: None,
                limit: 0,
            }),
    {
        Filters { from: None, to: None, kind: None, status: None, expiry: None, min_rate: None, limit: 0 }
    }
}

/// A condition with its value, where there is one.
pub open spec fn condition<N>(clause: Seq<char>, value: Option<CellView<N>>) -> Seq<(Seq<char>, CellView<N>)> {
    match value {
        Some(v) => seq![(clause, v)],
        None => Seq::empty(),
    }
}

/// An integer in a condition.
pub open spec fn integer_value<N>(value: Option<i64>) -> Option<CellView<N>> {
    match value {
        Some(n) => Some(CellView::Integer(n)),
        None => None,
    }
}

/// A text in a condition.
pub open spec fn text_value<N>(value: Option<String>) -> Option<CellView<N>> {
    match value {
        Some(s) => Some(CellView::Text(s@)),
        None => None,
    }
}

/// A real number in a condition.
pub open spec fn real_value<N>(value: Option<N>) -> Option<CellView<N>> {
    match value {
        Some(x) => Some(CellView::Real(x)),
        None => None,
    }
}

/// The conditions of filters, each with its value.
pub open spec fn conditions<N>(f: Filters<N>) -> Seq<(Seq<char>, CellView<N>)> {
    condition("open_ts>=?"@, integer_value(f.from)) + condition("open_ts<=?"@, integer_value(f.to)) + condition(
        "kind=?"@,
        text_value(f.kind),
    ) + condition("status=?"@, text_value(f.status)) + condition("expiry=?"@, text_value(f.expiry)) + condition(
        "open_rate>=?"@,
        real_value(f.min_rate),
    )
}

/// The texts of conditions.
pub open spec fn clauses_of<N>(all: Seq<(Seq<char>, CellView<N>)>) -> Seq<Seq<char>> {
    all.map_values(|c: (Seq<char>, CellView<N>)| c.0)
}

/// The values of conditions.
pub open spec fn values_of<N>(all: Seq<(Seq<char>, CellView<N>)>) -> Seq<CellView<N>> {
    all.map_values(|c: (Seq<char>, CellView<N>)| c.1)
}

/// How many rows are asked for: 500 where no positive number is given, and 5000
/// at most.
pub open spec fn limit_spec(limit: i64) -> i64 {
    if limit <= 0 {
        500
    } else if limit < 5000 {
        limit
    } else {
        5000
    }
}

/// The part of a query that says which rows.
pub open spec fn where_spec(clauses: Seq<Seq<char>>) -> Seq<char> {
    if clauses.len() == 0 {
        Seq::empty()
    } else {
        "WHERE "@ + joined(clauses, " AND "@)
    }
}

/// The query for the positions that pass filters, the latest first.
pub open spec fn query_spec<N>(f: Filters<N>) -> Seq<char> {
    "SELECT "@ + joined(columns(), ","@) + " FROM positions "@ + where_spec(clauses_of(conditions(f))) + " ORDER BY open_ts DESC LIMIT "@ + decimal(limit_spec(f.limit) as int)
}

/// A query: its text and the values of its conditions.
#[derive(Debug)]
pub struct QueryPlan<N> {
    pub sql: String,
    pub args: Vec<Cell<N>>,
}

/// The conditions with their values, in the making.
struct Conditions<N> {
    clauses: Vec<String>,
    args: Vec<Cell<N>>,
}

impl<N> Conditions<N> {
    spec fn is(&self, all: Seq<(Seq<char>, CellView<N>)>) -> bool {
        &&& texts(self.clauses@) == clauses_of(all)
        &&& cell_views(self.args@) == values_of(all)
    }

    fn push(&mut self, clause: &str, value: Option<Cell<N>>, Ghost(all): Ghost<Seq<(Seq<char>, CellView<N>)>>)
        requires
            old(self).is(all),
        ensures
            final(self).is(
                all + condition(
                    clause@,
                    (match value {
                        Some(v) => Some(v@),
                        None => None,
                    }),
                ),
            ),
    {
        match value {
            Some(v) => {
                let ghost clauses0 = self.clauses@;
                let ghost args0 = self.args@;
                self.clauses.push(clause.to_owned());
                self.args.push(v);
                proof {
                    let more = all + seq![(clause@, v@)];
                    assert(texts(self.clauses@) =~= texts(clauses0).push(clause@));
                    assert(cell_views(self.args@) =~= cell_views(args0).push(v@));
                    assert(clauses_of(more) =~= clauses_of(all).push(clause@));
                    assert(values_of(more) =~= values_of(all).push(v@));
                }
            },
            None => {
                proof {
                    assert(all + Seq::<(Seq<char>, CellView<N>)>::empty() =~= all);
                }
            },
        }
    }
}

fn text_cell<N>(value: &Option<String>) -> (r: Option<Cell<N>>)
    ensures
        (match r {
            Some(v) => Some(v@),
            None => None,
        }) == text_value::<N>(*value),
{
    match value {
        Some(s) => Some(Cell::Text(s.clone())),
        None => None,
    }
}

fn integer_cell<N>(value: Option<i64>) -> (r: Option<Cell<N>>)
    ensures
        (match r {
            Some(v) => Some(v@),
            None => None,
        }) == integer_value::<N>(value),
{
    match value {
        Some(n) => Some(Cell::Integer(n)),
        None => None,
    }
}

/// The query for the positions that pass filters: their rows by falling opening
/// time.
pub fn query<N: Scalar>(f: &Filters<N>) -> (r: QueryPlan<N>)
    ensures
        r.sql@ == query_spec(*f),
        cell_views(r.args@) == values_of(conditions(*f)),
{
    let mut c: Conditions<N> = Conditions { clauses: Vec::new(), args: Vec::new() };
    let ghost s0 = Seq::<(Seq<char>, CellView<N>)>::empty();
    proof {
        assert(texts(c.clauses@) =~= clauses_of(s0));
        assert(cell_views(c.args@) =~= values_of(s0));
    }
    let ghost s1 = condition("open_ts>=?"@, integer_value::<N>(f.from));
    c.push("open_ts>=?", integer_cell(f.from), Ghost(s0));
    proof {
        assert(s0 + s1 =~= s1);
    }
    let ghost s2 = s1 + condition("open_ts<=?"@, integer_value::<N>(f.to));
    c.push("open_ts<=?", integer_cell(f.to), Ghost(s1));
    let ghost s3 = s2 + condition("kind=?"@, text_value::<N>(f.kind));
    c.push("kind=?", text_cell(&f.kind), Ghost(s2));
    let ghost s4 = s3 + condition("status=?"@, text_value::<N>(f.status));
    c.push("status=?", text_cell(&f.status), Ghost(s3));
    let ghost s5 = s4 + condition("expiry=?"@, text_value::<N>(f.expiry));
    c.push("expiry=?", text_cell(&f.expiry), Ghost(s4));
    let rate: Option<Cell<N>> = match f.min_rate {
        Some(x) => Some(Cell::Real(x)),
        None => None,
    };
    c.push("open_rate>=?", rate, Ghost(s5));
    let mut sql = "SELECT ".to_owned();
    let names: String = column_list();
    sql.append(names.as_str());
    sql.append(" FROM positions ");
    if c.clauses.len() > 0 {
        let mut filter = "WHERE ".to_owned();
        let clauses: String = join(&c.clauses, " AND ");
        filter.append(clauses.as_str());
        sql.append(filter.as_str());
    } else {
        sql.append("");
        proof {
            reveal_strlit("");
            assert(""@ =~= Seq::<char>::empty());
        }
    }
    sql.append(" ORDER BY open_ts DESC LIMIT ");
    let limit: i64 = if f.limit <= 0 {
        500
    } else if f.limit < 5000 {
        f.limit
    } else {
        5000
    };
    let number: String = decimal_text(limit as i128);
    sql.append(number.as_str());
    QueryPlan { sql, args: c.args }
}

// ---------------------------------------------------------------------------
// Laws
// ---------------------------------------------------------------------------
/// A position that is written and read back is the same position.
pub proof fn row_gives_position_back<N: Scalar>(p: PositionView<N>)
    requires
        p.kind == "reversal"@ || p.kind == "conversion"@,
        p.status == "open"@ || p.status == "closed"@ || p.status == "settled"@,
    ensures
        row_fits(row_spec(p)),
        position_of(row_spec(p)) == p,
{
    let row = row_spec(p);
    assert(row.len() == COLUMN_COUNT);
    assert forall|i: int| 0 <= i < COLUMN_COUNT implies #[trigger] column_fits(row, i) by {}
    reveal_strlit("reversal");
    reveal_strlit("conversion");
    reveal_strlit("open");
    reveal_strlit("closed");
    reveal_strlit("settled");
    assert("reversal"@.len() != "conversion"@.len());
    assert("open"@.len() != "closed"@.len());
    assert("settled"@.len() != "closed"@.len());
    assert("open"@.len() != "settled"@.len());
}

/// A row after a position was written again: the columns that are updated come
/// from the new row, the others stay.
pub open spec fn rewritten<N>(stored: Seq<CellView<N>>, fresh: Seq<CellView<N>>) -> Seq<CellView<N>> {
    Seq::new(
        COLUMN_COUNT as nat,
        |i: int|
            if is_updated(i) {
                fresh[i]
            } else {
                stored[i]
            },
    )
}

/// What was fixed when a position opened is not among the columns that are
/// written again; everything else is. So writing a later record of a position
/// over an earlier one with the same opening leaves exactly the later record.
pub proof fn rewriting_keeps_opening<N: Scalar>(stored: PositionView<N>, fresh: PositionView<N>)
    ensures
        ({
            let row = rewritten(row_spec(stored), row_spec(fresh));
            let p = PositionView {
                status: fresh.status,
                close_ts: fresh.close_ts,
                close_spot: fresh.close_spot,
                close_call: fresh.close_call,
                close_put: fresh.close_put,
                close_gross: fresh.close_gross,
                close_fee: fresh.close_fee,
                exec_qty: fresh.exec_qty,
                net_profit_per_btc: fresh.net_profit_per_btc,
                net_profit_rate: fresh.net_profit_rate,
                hold_annual_rate: fresh.hold_annual_rate,
                est_profit: fresh.est_profit,
                ..stored
            };
            row == row_spec(p) && (crate::scanner::same_opening(stored, fresh) ==> row == row_spec(fresh))
        }),
{
    let row = rewritten(row_spec(stored), row_spec(fresh));
    let p = PositionView {
        status: fresh.status,
        close_ts: fresh.close_ts,
        close_spot: fresh.close_spot,
        close_call: fresh.close_call,
        close_put: fresh.close_put,
        close_gross: fresh.close_gross,
        close_fee: fresh.close_fee,
        exec_qty: fresh.exec_qty,
        net_profit_per_btc: fresh.net_profit_per_btc,
        net_profit_rate: fresh.net_profit_rate,
        hold_annual_rate: fresh.hold_annual_rate,
        est_profit: fresh.est_profit,
        ..stored
    };
    assert(row =~= row_spec(p));
    if crate::scanner::same_opening(stored, fresh) {
        assert(row =~= row_spec(fresh));
    }
}

/// The statement updates the columns that change after the opening, and no other.
pub proof fn updated_columns_change_later(i: int)
    requires
        0 <= i < COLUMN_COUNT,
    ensures
        updated_columns().contains(column_spec(i)) <==> is_updated(i),
{
    reveal_strlit("id");
    reveal_strlit("kind");
    reveal_strlit("status");
    reveal_strlit("expiry");
    reveal_strlit("expiry_ms");
    reveal_strlit("strike");
    reveal_strlit("call_symbol");
    reveal_strlit("put_symbol");
    reveal_strlit("open_ts");
    reveal_strlit("open_spot");
    reveal_strlit("open_call");
    reveal_strlit("open_put");
    reveal_strlit("open_gross");
    reveal_strlit("open_fee");
    reveal_strlit("open_net");
    reveal_strlit("open_rate");
    reveal_strlit("open_annual_rate");
    reveal_strlit("target_close_rate");
    reveal_strlit("close_ts");
    reveal_strlit("close_spot");
    reveal_strlit("close_call");
    reveal_strlit("close_put");
    reveal_strlit("close_gross");
    reveal_strlit("close_fee");
    reveal_strlit("exec_qty");
    reveal_strlit("net_profit_per_btc");
    reveal_strlit("net_profit_rate");
    reveal_strlit("hold_annual_rate");
    reveal_strlit("est_profit");
    assert("id"@[0] == 'i');
    assert("kind"@[0] == 'k');
    assert("kind"@[2] == 'n');
    assert("status"@[0] == 's');
    assert("status"@[2] == 'a');
    assert("expiry"@[0] == 'e');
    assert("expiry"@[2] == 'p');
    assert("expiry_ms"@[0] == 'e');
    assert("expiry_ms"@[2] == 'p');
    assert("strike"@[0] == 's');
    assert("strike"@[2] == 'r');
    assert("call_symbol"@[0] == 'c');
    assert("call_symbol"@[2] == 'l');
    assert("put_symbol"@[0] == 'p');
    assert("put_symbol"@[2] == 't');
    assert("open_ts"@[0] == 'o');
    assert("open_ts"@[2] == 'e');
    assert("open_spot"@[0] == 'o');
    assert("open_spot"@[2] == 'e');
    assert("open_call"@[0] == 'o');
    assert("open_call"@[2] == 'e');
    assert("open_put"@[0] == 'o');
    assert("open_put"@[2] == 'e');
    assert("open_gross"@[0] == 'o');
    assert("open_gross"@[2] == 'e');
    assert("open_fee"@[0] == 'o');
    assert("open_fee"@[2] == 'e');
    assert("open_net"@[0] == 'o');
    assert("open_net"@[2] == 'e');
    assert("open_rate"@[0] == 'o');
    assert("open_rate"@[2] == 'e');
    assert("open_annual_rate"@[0] == 'o');
    assert("open_annual_rate"@[2] == 'e');
    assert("target_close_rate"@[0] == 't');
    assert("target_close_rate"@[2] == 'r');
    assert("close_ts"@[0] == 'c');
    assert("close_ts"@[2] == 'o');
    assert("close_spot"@[0] == 'c');
    assert("close_spot"@[2] == 'o');
    assert("close_call"@[0] == 'c');
    assert("close_call"@[2] == 'o');
    assert("close_put"@[0] == 'c');
    assert("close_put"@[2] == 'o');
    assert("close_gross"@[0] == 'c');
    assert("close_gross"@[2] == 'o');
    assert("close_fee"@[0] == 'c');
    assert("close_fee"@[2] == 'o');
    assert("exec_qty"@[0] == 'e');
    assert("exec_qty"@[2] == 'e');
    assert("net_profit_per_btc"@[0] == 'n');
    assert("net_profit_per_btc"@[2] == 't');
    assert("net_profit_rate"@[0] == 'n');
    assert("net_profit_rate"@[2] == 't');
    assert("hold_annual_rate"@[0] == 'h');
    assert("hold_annual_rate"@[2] == 'l');
    assert("est_profit"@[0] == 'e');
    assert("est_profit"@[2] == 't');
    let all = updated_columns();
    assert(all[0] == column_spec(2));
    if i == 2 {
    } else if is_updated(i) {
        assert(all[i - 17] == column_spec(i));
    } else {
        assert forall|k: int| 0 <= k < all.len() implies all[k] != column_spec(i) by {
            if k > 0 {
                assert(all[k] == column_spec(17 + k));
            }
        }
    }
}

/// A query never asks for less than one row or more than 5000.
pub proof fn limit_is_bounded(limit: i64)
    ensures
        1 <= limit_spec(limit) <= 5000,
        1 <= limit <= 5000 ==> limit_spec(limit) == limit,
{
}

} // verus!
