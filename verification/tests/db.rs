//! Rows, statements and filters on floating-point numbers.
use option_arb::db::{
    batch_is_full, column_name, intern_kind, intern_status, load_open_positions, open_positions_sql, position_row, query, row_fields,
    row_to_position, upsert_sql, Cell, Filters, COLUMN_COUNT, COUNT_ALL, COUNT_STATUS, LATEST_OPENING,
    REALIZED_PROFIT, SCHEMA,
};
use option_arb::model::Position;
use option_arb::scalar::{Chars, Scalar};
use option_arb::web::parse_filters;
use rusqlite::types::Value;
use rusqlite::{params_from_iter, Connection, Row};

/// A floating-point number.
#[derive(Clone, Copy, Debug, PartialEq)]
struct F(f64);

impl Scalar for F {
    fn plus(self, rhs: F) -> F {
        F(self.0 + rhs.0)
    }

    fn minus(self, rhs: F) -> F {
        F(self.0 - rhs.0)
    }

    fn times(self, rhs: F) -> F {
        F(self.0 * rhs.0)
    }

    fn over(self, rhs: F) -> F {
        F(self.0 / rhs.0)
    }

    fn less(self, rhs: F) -> bool {
        self.0 < rhs.0
    }

    fn at_most(self, rhs: F) -> bool {
        self.0 <= rhs.0
    }

    fn least(self, rhs: F) -> F {
        F(self.0.min(rhs.0))
    }

    fn finite(self) -> bool {
        self.0.is_finite()
    }

    fn of_int(n: i128) -> F {
        F(n as f64)
    }

    fn round(self) -> i64 {
        self.0.round() as i64
    }

    fn parse(text: &str) -> Option<F> {
        text.parse().ok().map(F)
    }

    fn fixed4(self) -> String {
        format!("{:.4}", self.0)
    }

    fn plus_spec(self, rhs: F) -> F {
        self.plus(rhs)
    }

    fn minus_spec(self, rhs: F) -> F {
        self.minus(rhs)
    }

    fn times_spec(self, rhs: F) -> F {
        self.times(rhs)
    }

    fn over_spec(self, rhs: F) -> F {
        self.over(rhs)
    }

    fn less_spec(self, rhs: F) -> bool {
        self.less(rhs)
    }

    fn at_most_spec(self, rhs: F) -> bool {
        self.at_most(rhs)
    }

    fn least_spec(self, rhs: F) -> F {
        self.least(rhs)
    }

    fn finite_spec(self) -> bool {
        self.finite()
    }

    fn of_int_spec(n: i128) -> F {
        F::of_int(n)
    }

    fn round_spec(self) -> i64 {
        self.round()
    }

    fn parse_spec(_text: Chars) -> Option<F> {
        unreachable!("only contracts speak of it")
    }

    fn fixed4_spec(self) -> Chars {
        unreachable!("only contracts speak of it")
    }

    fn less_is_strict(_a: F, _b: F) {}

    fn at_most_is_ordered(_a: F, _b: F) {}

    fn at_most_is_transitive(_a: F, _b: F, _c: F) {}

    fn at_most_is_total(_a: F, _b: F) {}

    fn least_is_lower_bound(_a: F, _b: F) {}
}

fn sample_open(id: &str, kind: &'static str, open_rate: f64) -> Position<F> {
    Position {
        id: id.to_string(),
        kind,
        status: "open",
        expiry: "260925".to_string(),
        expiry_ms: 1_790_000_000_000,
        strike: F(60000.0),
        call_symbol: "BTC-260925-60000-C".to_string(),
        put_symbol: "BTC-260925-60000-P".to_string(),
        open_ts: 1_700_000_000_000,
        open_spot: F(60000.0),
        open_call: F(1000.0),
        open_put: F(1200.0),
        open_gross: F(200.0),
        open_fee: F(6.22),
        open_net: F(193.78),
        open_rate: F(open_rate),
        open_annual_rate: F(open_rate * 12.0),
        target_close_rate: F(open_rate * 0.8),
        close_ts: 0,
        close_spot: F(0.0),
        close_call: F(0.0),
        close_put: F(0.0),
        close_gross: F(0.0),
        close_fee: F(0.0),
        exec_qty: F(1.5),
        net_profit_per_btc: F(193.78),
        net_profit_rate: F(open_rate),
        hold_annual_rate: F(open_rate * 12.0),
        est_profit: F(290.67),
    }
}

fn value(cell: Cell<F>) -> Value {
    match cell {
        Cell::Text(s) => Value::Text(s),
        Cell::Integer(n) => Value::Integer(n),
        Cell::Real(x) => Value::Real(x.0),
        Cell::Other => Value::Null,
    }
}

fn write_batch(conn: &Connection, batch: &[Position<F>]) {
    for p in batch {
        let row: Vec<Value> = position_row(p).into_iter().map(value).collect();
        conn.execute(&upsert_sql(), params_from_iter(row)).unwrap();
    }
}

fn cells(row: &Row) -> Vec<Cell<F>> {
    (0..COLUMN_COUNT)
        .map(|i| match row.get::<_, Value>(i).unwrap() {
            Value::Text(s) => Cell::Text(s),
            Value::Integer(n) => Cell::Integer(n),
            Value::Real(x) => Cell::Real(F(x)),
            _ => Cell::Other,
        })
        .collect()
}

fn select(conn: &Connection, sql: &str, args: Vec<Cell<F>>) -> Vec<Vec<Cell<F>>> {
    let args: Vec<Value> = args.into_iter().map(value).collect();
    let mut stmt = conn.prepare(sql).unwrap();
    let rows = stmt.query_map(params_from_iter(args), |row| Ok(cells(row))).unwrap();
    rows.map(|r| r.unwrap()).collect()
}

fn open_positions(conn: &Connection) -> Vec<Position<F>> {
    load_open_positions(&select(conn, &open_positions_sql(), Vec::new())).unwrap()
}

fn field(row: &Vec<Cell<F>>, name: &str) -> String {
    let fields = row_fields(row).unwrap();
    let (_, cell) = fields.iter().find(|(n, _)| *n == name).unwrap();
    match cell {
        Cell::Text(s) => s.clone(),
        Cell::Integer(n) => n.to_string(),
        Cell::Real(x) => x.0.to_string(),
        Cell::Other => String::new(),
    }
}

fn count(conn: &Connection, status: &str) -> i64 {
    conn.query_row(COUNT_STATUS, [status], |r| r.get(0)).unwrap()
}

#[test]
fn open_then_close_upsert_roundtrip() {
    let conn = Connection::open_in_memory().unwrap();
    conn.execute_batch(SCHEMA).unwrap();

    let p1 = sample_open("id-rev", "reversal", 0.003);
    let p2 = sample_open("id-conv", "conversion", 0.001);
    write_batch(&conn, &[p1.clone(), p2]);

    assert_eq!(open_positions(&conn).len(), 2);

    let mut closed = p1;
    closed.status = "closed";
    closed.close_ts = 1_700_000_100_000;
    closed.close_gross = F(-10.0);
    closed.close_fee = F(6.2);
    closed.net_profit_per_btc = F(177.58);
    closed.net_profit_rate = F(0.00296);
    closed.est_profit = F(266.37);
    write_batch(&conn, &[closed]);

    let plan = query(&Filters::<F> { limit: 100, ..Default::default() });
    let all = select(&conn, &plan.sql, plan.args);
    assert_eq!(all.len(), 2);

    let plan = query(&Filters::<F> {
        status: Some("closed".to_string()),
        limit: 100,
        ..Default::default()
    });
    let only_closed = select(&conn, &plan.sql, plan.args);
    assert_eq!(only_closed.len(), 1);
    assert_eq!(field(&only_closed[0], "id"), "id-rev");
    assert_eq!(field(&only_closed[0], "net_profit_per_btc"), "177.58");
    assert_eq!(field(&only_closed[0], "open_gross"), "200");

    let open_left = open_positions(&conn);
    assert_eq!(open_left.len(), 1);
    assert_eq!(open_left[0].id, "id-conv");

    let total: i64 = conn.query_row(COUNT_ALL, [], |r| r.get(0)).unwrap();
    assert_eq!(total, 2);
    assert_eq!(count(&conn, "open"), 1);
    assert_eq!(count(&conn, "closed"), 1);
    assert_eq!(count(&conn, "settled"), 0);
    let realized: f64 = conn.query_row(REALIZED_PROFIT, [], |r| r.get(0)).unwrap();
    assert_eq!(realized, 266.37);
    let latest: i64 = conn.query_row(LATEST_OPENING, [], |r| r.get(0)).unwrap();
    assert_eq!(latest, 1_700_000_000_000);
}

#[test]
fn rewriting_leaves_the_opening_alone() {
    let conn = Connection::open_in_memory().unwrap();
    conn.execute_batch(SCHEMA).unwrap();
    conn.execute_batch(SCHEMA).unwrap();
    let first = sample_open("a", "reversal", 0.003);
    write_batch(&conn, &[first.clone()]);

    let mut other = sample_open("a", "conversion", 0.009);
    other.status = "settled";
    other.open_gross = F(999.0);
    other.close_spot = F(61000.0);
    other.exec_qty = F(0.5);
    write_batch(&conn, &[other.clone()]);

    let plan = query(&Filters::<F>::default());
    let rows = select(&conn, &plan.sql, plan.args);
    assert_eq!(rows.len(), 1);
    let stored = row_to_position(&rows[0]).unwrap();
    assert_eq!((stored.kind, stored.open_gross, stored.open_rate), ("reversal", F(200.0), F(0.003)));
    assert_eq!((stored.status, stored.close_spot, stored.exec_qty), ("settled", F(61000.0), F(0.5)));

    // a later record with the same opening is stored as it is
    let mut later = first;
    later.status = "closed";
    later.close_fee = F(6.2);
    write_batch(&conn, &[later.clone()]);
    let plan = query(&Filters::<F>::default());
    let rows = select(&conn, &plan.sql, plan.args);
    assert_eq!(format!("{:?}", row_to_position(&rows[0]).unwrap()), format!("{later:?}"));
}

#[test]
fn rows_give_positions_back() {
    let mut p = sample_open("a", "conversion", 0.002);
    p.status = "settled";
    let row = position_row(&p);
    assert_eq!(row.len(), COLUMN_COUNT);
    let back = row_to_position(&row).unwrap();
    assert_eq!(format!("{back:?}"), format!("{p:?}"));
    let fields = row_fields(&row).unwrap();
    assert_eq!(fields[0].0, "id");
    assert_eq!(fields[28].0, "est_profit");
}

#[test]
fn rows_say_which_column_is_wrong() {
    let p = sample_open("a", "conversion", 0.002);
    let mut row = position_row(&p);
    row[5] = Cell::Integer(60000);
    assert_eq!(row_to_position(&row).unwrap().strike, F(60000.0));
    assert!(matches!(row_fields(&row).unwrap()[5].1, Cell::Real(F(x)) if x == 60000.0));
    row[20] = Cell::Other;
    row[8] = Cell::Real(F(1.0));
    assert_eq!(row_to_position(&row).unwrap_err(), 8);
    assert_eq!(row_fields(&row).unwrap_err(), 8);
    row.truncate(3);
    assert_eq!(row_to_position(&row).unwrap_err(), 3);
    assert_eq!(load_open_positions(&vec![position_row(&p), row]).unwrap_err(), (1, 3));
}

#[test]
fn kinds_and_states_have_a_default() {
    assert_eq!(intern_kind("conversion"), "conversion");
    assert_eq!(intern_kind("other"), "reversal");
    assert_eq!(intern_status("closed"), "closed");
    assert_eq!(intern_status("settled"), "settled");
    assert_eq!(intern_status("other"), "open");
}

#[test]
fn statements_are_spelled_out() {
    let columns: Vec<&str> = (0..COLUMN_COUNT).map(column_name).collect();
    let columns = columns.join(",");
    assert!(columns.starts_with("id,kind,status,expiry,expiry_ms,strike,call_symbol,put_symbol,open_ts,open_spot"));
    assert_eq!(
        open_positions_sql(),
        format!("SELECT {columns} FROM positions WHERE status='open'")
    );
    let upsert = upsert_sql();
    assert!(upsert.starts_with(&format!("INSERT INTO positions ({columns}) VALUES (?1,?2,?3,")));
    assert!(upsert.ends_with(
        ",?28,?29) ON CONFLICT(id) DO UPDATE SET status=excluded.status,close_ts=excluded.close_ts,\
close_spot=excluded.close_spot,close_call=excluded.close_call,close_put=excluded.close_put,\
close_gross=excluded.close_gross,close_fee=excluded.close_fee,exec_qty=excluded.exec_qty,\
net_profit_per_btc=excluded.net_profit_per_btc,net_profit_rate=excluded.net_profit_rate,\
hold_annual_rate=excluded.hold_annual_rate,est_profit=excluded.est_profit"
    ));
    let plan = query(&Filters::<F> {
        from: Some(1),
        to: Some(2),
        kind: Some("reversal".to_string()),
        status: Some("open".to_string()),
        expiry: Some("260925".to_string()),
        min_rate: Some(F(0.5)),
        limit: 6_000,
    });
    assert_eq!(
        plan.sql,
        format!(
            "SELECT {columns} FROM positions WHERE open_ts>=? AND open_ts<=? AND kind=? AND status=? AND expiry=? \
AND open_rate>=? ORDER BY open_ts DESC LIMIT 5000"
        )
    );
    assert_eq!(plan.args.len(), 6);
    assert!(matches!(plan.args[1], Cell::Integer(2)));
    assert!(matches!(plan.args[5], Cell::Real(F(x)) if x == 0.5));
    let none = query(&Filters::<F>::default());
    assert_eq!(none.sql, format!("SELECT {columns} FROM positions  ORDER BY open_ts DESC LIMIT 500"));
    assert!(none.args.is_empty());
}

#[test]
fn batches_hold_five_hundred() {
    assert!(!batch_is_full(499));
    assert!(batch_is_full(500));
}

#[test]
fn filters_are_read_from_parameters() {
    let q: Vec<(String, String)> = [
        ("from", "-5"),
        ("to", "x"),
        ("kind", ""),
        ("status", "open"),
        ("min_rate", "0.25"),
        ("limit", "10"),
    ]
    .iter()
    .map(|(k, v)| (k.to_string(), v.to_string()))
    .collect();
    let f: Filters<F> = parse_filters(&q);
    assert_eq!(f.from, Some(-5));
    assert_eq!(f.to, None);
    assert_eq!(f.kind, None);
    assert_eq!(f.status.as_deref(), Some("open"));
    assert_eq!(f.expiry, None);
    assert_eq!(f.min_rate, Some(F(0.25)));
    assert_eq!(f.limit, 10);
    let g: Filters<F> = parse_filters(&Vec::new());
    assert_eq!(g.limit, 500);
}
