//! Laws of rows and queries: every column holds what its name says, and a query
//! asks for exactly the positions that pass its filters.
use crate::db::{clauses_of, column_spec, condition, conditions, limit_spec, row_spec, values_of, CellView, Filters};
use crate::model::PositionView;
use crate::scalar::Scalar;
use vstd::prelude::*;
use vstd::string::*;

verus! {

/// A position meets a condition of a query.
pub open spec fn meets<N: Scalar>(c: (Seq<char>, CellView<N>), p: PositionView<N>) -> bool {
    if c.0 == "open_ts>=?"@ {
        c.1 matches CellView::Integer(n) && p.open_ts >= n
    } else if c.0 == "open_ts<=?"@ {
        c.1 matches CellView::Integer(n) && p.open_ts <= n
    } else if c.0 == "kind=?"@ {
        c.1 == CellView::<N>::Text(p.kind)
    } else if c.0 == "status=?"@ {
        c.1 == CellView::<N>::Text(p.status)
    } else if c.0 == "expiry=?"@ {
        c.1 == CellView::<N>::Text(p.expiry)
    } else {
        c.0 == "open_rate>=?"@ && (c.1 matches CellView::Real(x) && x.at_most_spec(p.open_rate))
    }
}

/// A position meets all conditions of a query.
pub open spec fn meets_all<N: Scalar>(all: Seq<(Seq<char>, CellView<N>)>, p: PositionView<N>) -> bool {
    forall|i: int| 0 <= i < all.len() ==> meets(#[trigger] all[i], p)
}

/// A position passes filters: it was opened between the two times, both counted
/// in, is of the kind, in the state and of the expiry, and locked in at least the
/// rate, as far as each is given.
pub open spec fn passes<N: Scalar>(f: Filters<N>, p: PositionView<N>) -> bool {
    &&& f.from matches Some(t) ==> t <= p.open_ts
    &&& f.to matches Some(t) ==> p.open_ts <= t
    &&& f.kind matches Some(s) ==> s@ == p.kind
    &&& f.status matches Some(s) ==> s@ == p.status
    &&& f.expiry matches Some(s) ==> s@ == p.expiry
    &&& f.min_rate matches Some(x) ==> x.at_most_spec(p.open_rate)
}

proof fn lemma_meets_both<N: Scalar>(
    a: Seq<(Seq<char>, CellView<N>)>,
    b: Seq<(Seq<char>, CellView<N>)>,
    p: PositionView<N>,
)
    ensures
        meets_all(a + b, p) <==> meets_all(a, p) && meets_all(b, p),
{
    if meets_all(a + b, p) {
        assert forall|i: int| 0 <= i < a.len() implies meets(#[trigger] a[i], p) by {
            assert((a + b)[i] == a[i]);
        }
        assert forall|i: int| 0 <= i < b.len() implies meets(#[trigger] b[i], p) by {
            assert((a + b)[a.len() + i] == b[i]);
        }
    }
}

proof fn lemma_meets_one<N: Scalar>(clause: Seq<char>, value: Option<CellView<N>>, p: PositionView<N>)
    ensures
        meets_all(condition(clause, value), p) <==> (value matches Some(v) ==> meets((clause, v), p)),
{
    if let Some(v) = value {
        assert(condition(clause, value)[0] == (clause, v));
    }
}

/// The conditions of a query hold of exactly the positions that pass its filters,
/// and there is one value for each of them.
pub proof fn conditions_hold_of_what_passes<N: Scalar>(f: Filters<N>, p: PositionView<N>)
    ensures
        meets_all(conditions(f), p) <==> passes(f, p),
        clauses_of(conditions(f)).len() == values_of(conditions(f)).len(),
{
    reveal_strlit("open_ts>=?");
    reveal_strlit("open_ts<=?");
    reveal_strlit("kind=?");
    reveal_strlit("status=?");
    reveal_strlit("expiry=?");
    reveal_strlit("open_rate>=?");
    assert("open_ts>=?"@[7] == '>' && "open_ts<=?"@[7] == '<');
    assert("kind=?"@.len() == 6);
    assert("status=?"@[0] == 's' && "expiry=?"@[0] == 'e');
    assert("status=?"@.len() == 8 && "expiry=?"@.len() == 8);
    assert("open_ts>=?"@.len() == 10 && "open_ts<=?"@.len() == 10);
    assert("open_rate>=?"@.len() == 12);
    let a = condition("open_ts>=?"@, crate::db::integer_value::<N>(f.from));
    let b = condition("open_ts<=?"@, crate::db::integer_value::<N>(f.to));
    let c = condition("kind=?"@, crate::db::text_value::<N>(f.kind));
    let d = condition("status=?"@, crate::db::text_value::<N>(f.status));
    let e = condition("expiry=?"@, crate::db::text_value::<N>(f.expiry));
    let g = condition("open_rate>=?"@, crate::db::real_value::<N>(f.min_rate));
    lemma_meets_one("open_ts>=?"@, crate::db::integer_value::<N>(f.from), p);
    lemma_meets_one("open_ts<=?"@, crate::db::integer_value::<N>(f.to), p);
    lemma_meets_one("kind=?"@, crate::db::text_value::<N>(f.kind), p);
    lemma_meets_one("status=?"@, crate::db::text_value::<N>(f.status), p);
    lemma_meets_one("expiry=?"@, crate::db::text_value::<N>(f.expiry), p);
    lemma_meets_one("open_rate>=?"@, crate::db::real_value::<N>(f.min_rate), p);
    lemma_meets_both(a, b, p);
    lemma_meets_both(a + b, c, p);
    lemma_meets_both(a + b + c, d, p);
    lemma_meets_both(a + b + c + d, e, p);
    lemma_meets_both(a + b + c + d + e, g, p);
}

/// As many rows are asked for as the filters say, 5000 at most, and 500 where they
/// say nothing sensible. Who asks for more never gets less.
pub proof fn limits_are_followed(limit: i64, other: i64)
    ensures
        limit <= 0 ==> limit_spec(limit) == 500,
        0 < limit <= 5000 ==> limit_spec(limit) == limit,
        limit > 5000 ==> limit_spec(limit) == 5000,
        0 < limit <= other ==> limit_spec(limit) <= limit_spec(other),
{
}

/// Every column holds the field of a position that its name says.
pub proof fn columns_hold_what_they_are_named_for<N>(p: PositionView<N>)
    ensures
        ({
            let row = row_spec(p);
            &&& row.len() == 29
            &&& column_spec(0) == "id"@ && row[0] == CellView::<N>::Text(p.id)
            &&& column_spec(1) == "kind"@ && row[1] == CellView::<N>::Text(p.kind)
            &&& column_spec(2) == "status"@ && row[2] == CellView::<N>::Text(p.status)
            &&& column_spec(3) == "expiry"@ && row[3] == CellView::<N>::Text(p.expiry)
            &&& column_spec(4) == "expiry_ms"@ && row[4] == CellView::<N>::Integer(p.expiry_ms)
            &&& column_spec(5) == "strike"@ && row[5] == CellView::Real(p.strike)
            &&& column_spec(6) == "call_symbol"@ && row[6] == CellView::<N>::Text(p.call_symbol)
            &&& column_spec(7) == "put_symbol"@ && row[7] == CellView::<N>::Text(p.put_symbol)
            &&& column_spec(8) == "open_ts"@ && row[8] == CellView::<N>::Integer(p.open_ts)
            &&& column_spec(9) == "open_spot"@ && row[9] == CellView::Real(p.open_spot)
            &&& column_spec(10) == "open_call"@ && row[10] == CellView::Real(p.open_call)
            &&& column_spec(11) == "open_put"@ && row[11] == CellView::Real(p.open_put)
            &&& column_spec(12) == "open_gross"@ && row[12] == CellView::Real(p.open_gross)
            &&& column_spec(13) == "open_fee"@ && row[13] == CellView::Real(p.open_fee)
            &&& column_spec(14) == "open_net"@ && row[14] == CellView::Real(p.open_net)
            &&& column_spec(15) == "open_rate"@ && row[15] == CellView::Real(p.open_rate)
            &&& column_spec(16) == "open_annual_rate"@ && row[16] == CellView::Real(p.open_annual_rate)
            &&& column_spec(17) == "target_close_rate"@ && row[17] == CellView::Real(p.target_close_rate)
            &&& column_spec(18) == "close_ts"@ && row[18] == CellView::<N>::Integer(p.close_ts)
            &&& column_spec(19) == "close_spot"@ && row[19] == CellView::Real(p.close_spot)
            &&& column_spec(20) == "close_call"@ && row[20] == CellView::Real(p.close_call)
            &&& column_spec(21) == "close_put"@ && row[21] == CellView::Real(p.close_put)
            &&& column_spec(22) == "close_gross"@ && row[22] == CellView::Real(p.close_gross)
            &&& column_spec(23) == "close_fee"@ && row[23] == CellView::Real(p.close_fee)
            &&& column_spec(24) == "exec_qty"@ && row[24] == CellView::Real(p.exec_qty)
            &&& column_spec(25) == "net_profit_per_btc"@ && row[25] == CellView::Real(p.net_profit_per_btc)
            &&& column_spec(26) == "net_profit_rate"@ && row[26] == CellView::Real(p.net_profit_rate)
            &&& column_spec(27) == "hold_annual_rate"@ && row[27] == CellView::Real(p.hold_annual_rate)
            &&& column_spec(28) == "est_profit"@ && row[28] == CellView::Real(p.est_profit)
        }),
{
}

} // verus!
