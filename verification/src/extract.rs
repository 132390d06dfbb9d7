//! Order extraction from the spreadsheet grid.
//!
//! Data rows follow the header rows. Each row names a grower item in its
//! first five columns — seller, produce name, variant, unit and unit price —
//! and carries one ordered quantity per buyer column. A row whose produce
//! cell is empty is skipped; a non-positive or blank quantity produces no
//! line; a non-numeric price or quantity aborts the run, since totals would
//! otherwise be silently wrong.

use vstd::prelude::*;

verus! {

use crate::buyers::Buyer;
use crate::buyers::BuyerV;
use crate::errors::InputError;
use crate::grid::Cell;
use crate::grid::CellV;
use crate::grid::cell_number;
use crate::grid::cell_string;
use crate::grid::cell_to_number;
use crate::grid::cell_to_string;
use crate::grid::cell_wf;
use crate::grid::grid_wf;
use crate::grid::headers;
use crate::grid::row_strings;
use crate::grid::row_wf;
use crate::grid::HEADER_ROW;
use crate::buyers::buyers_from;
use crate::buyers::get_buyers;
use crate::buyers::marker_index;
use crate::groups::group_lines;
use crate::groups::key_is;
use crate::groups::keys_of;
use crate::groups::lemma_filter_none;
use crate::groups::lemma_filter_push;
use crate::groups::lemma_keys_of_contains;
use crate::groups::lemma_keys_of_distinct;
use crate::orders::OrderLine;
use crate::orders::OrderLineV;

/// The fixed column layout of a data row.
pub const SELLER_COL: usize = 0;

/// Column of the produce name, whose emptiness ends a row.
pub const PRODUCE_COL: usize = 1;

/// Column of the variant description.
pub const VARIANT_COL: usize = 2;

/// Column of the unit of sale.
pub const UNIT_COL: usize = 3;

/// Column of the unit price in decimal currency units.
pub const PRICE_COL: usize = 4;

/// The first data row: the rows before it are header matter.
pub const DATA_START_ROW: usize = 3;

/// A grower's produce item: one per data row, with its unit price in minor
/// currency units.
pub struct GrowerItem {
    pub grower: String,
    pub produce_name: String,
    pub variant: String,
    pub unit: String,
    pub price: u32,
}

/// The mathematical value of a grower item.
pub ghost struct GrowerItemV {
    pub grower: Seq<char>,
    pub produce_name: Seq<char>,
    pub variant: Seq<char>,
    pub unit: Seq<char>,
    pub price: u32,
}

impl View for GrowerItem {
    type V = GrowerItemV;

    open spec fn view(&self) -> GrowerItemV {
        GrowerItemV {
            grower: self.grower@,
            produce_name: self.produce_name@,
            variant: self.variant@,
            unit: self.unit@,
            price: self.price,
        }
    }
}

impl DeepView for GrowerItem {
    type V = GrowerItemV;

    open spec fn deep_view(&self) -> GrowerItemV {
        self.view()
    }
}

/// One extracted order line: a buyer, the item ordered, and a positive
/// quantity in hundredths of a unit.
pub struct ExtractedLine {
    pub buyer: String,
    pub seller: String,
    pub produce: String,
    pub variant: String,
    pub unit: String,
    pub price: u32,
    pub qty: u32,
}

/// The mathematical value of an extracted line.
pub ghost struct ExtractedLineV {
    pub buyer: Seq<char>,
    pub seller: Seq<char>,
    pub produce: Seq<char>,
    pub variant: Seq<char>,
    pub unit: Seq<char>,
    pub price: u32,
    pub qty: u32,
}

impl View for ExtractedLine {
    type V = ExtractedLineV;

    open spec fn view(&self) -> ExtractedLineV {
        ExtractedLineV {
            buyer: self.buyer@,
            seller: self.seller@,
            produce: self.produce@,
            variant: self.variant@,
            unit: self.unit@,
            price: self.price,
            qty: self.qty,
        }
    }
}

impl DeepView for ExtractedLine {
    type V = ExtractedLineV;

    open spec fn deep_view(&self) -> ExtractedLineV {
        self.view()
    }
}

/// The cell at column `j` of a row; columns beyond the row's end are empty.
pub open spec fn cell_at(row: Seq<Cell>, j: int) -> CellV {
    if 0 <= j < row.len() {
        row[j]@
    } else {
        CellV::Empty
    }
}

/// The unit price a row states, in minor currency units: its price cell's
/// numeric value, when that is present and representable.
pub open spec fn row_price(row: Seq<Cell>) -> Option<u32> {
    match cell_number(cell_at(row, PRICE_COL as int)) {
        Some(h) => if 0 <= h <= u32::MAX {
            Some(h as u32)
        } else {
            None
        },
        None => None,
    }
}

/// The grower item a row describes, given its validated price.
pub open spec fn row_item(row: Seq<Cell>, price: u32) -> GrowerItemV {
    GrowerItemV {
        grower: cell_string(cell_at(row, SELLER_COL as int)),
        produce_name: cell_string(cell_at(row, PRODUCE_COL as int)),
        variant: cell_string(cell_at(row, VARIANT_COL as int)),
        unit: cell_string(cell_at(row, UNIT_COL as int)),
        price,
    }
}

/// The line tying buyer `b` to `item` with quantity `qty`.
pub open spec fn line_of(item: GrowerItemV, b: BuyerV, qty: u32) -> ExtractedLineV {
    ExtractedLineV {
        buyer: b.name,
        seller: item.grower,
        produce: item.produce_name,
        variant: item.variant,
        unit: item.unit,
        price: item.price,
        qty,
    }
}

/// The lines one row yields for the buyers from position `bi` on. A blank
/// quantity cell or one that is zero or negative yields no line; a
/// non-numeric or unrepresentable quantity is an error carrying the buyer's
/// column.
pub open spec fn row_lines(
    row: Seq<Cell>,
    bs: Seq<BuyerV>,
    bi: int,
    item: GrowerItemV,
) -> Result<Seq<ExtractedLineV>, int>
    decreases bs.len() - bi,
{
    if bi >= bs.len() {
        Ok(Seq::<ExtractedLineV>::empty())
    } else {
        let b = bs[bi];
        let c = cell_at(row, b.index);
        let rest = row_lines(row, bs, bi + 1, item);
        match c {
            CellV::Empty => rest,
            _ => match cell_number(c) {
                None => Err(b.index),
                Some(h) => if h <= 0 {
                    rest
                } else if h > u32::MAX {
                    Err(b.index)
                } else {
                    match rest {
                        Ok(ls) => Ok(seq![line_of(item, b, h as u32)] + ls),
                        Err(e) => Err(e),
                    }
                },
            },
        }
    }
}

/// The lines the grid yields from row `r` on: rows with an empty produce
/// cell are skipped; the first invalid cell, in row-major order and buyer
/// order within a row, aborts extraction.
pub open spec fn extract_from(g: Seq<Vec<Cell>>, bs: Seq<BuyerV>, r: int) -> Result<
    Seq<ExtractedLineV>,
    InputError,
>
    decreases g.len() - r,
{
    if r >= g.len() {
        Ok(Seq::<ExtractedLineV>::empty())
    } else {
        let row = g[r]@;
        if cell_string(cell_at(row, PRODUCE_COL as int)).len() == 0 {
            extract_from(g, bs, r + 1)
        } else {
            match row_price(row) {
                None => Err(InputError::InvalidCell { row: r as usize, col: PRICE_COL }),
                Some(p) => {
                    let item = row_item(row, p);
                    match row_lines(row, bs, 0, item) {
                        Err(col) => Err(
                            InputError::InvalidCell { row: r as usize, col: col as usize },
                        ),
                        Ok(ls) => match extract_from(g, bs, r + 1) {
                            Ok(tail) => Ok(ls + tail),
                            Err(e) => Err(e),
                        },
                    }
                },
            }
        }
    }
}

/// All the order lines the grid yields for the given buyers.
pub open spec fn extract_spec(g: Seq<Vec<Cell>>, bs: Seq<BuyerV>) -> Result<
    Seq<ExtractedLineV>,
    InputError,
> {
    extract_from(g, bs, DATA_START_ROW as int)
}


/// Law: extraction is a function of the grid and the buyers alone — no
/// hidden state takes part — so re-running it on an unchanged grid yields
/// identical lines, and every total grouped from them is identical too.
pub proof fn lemma_extraction_deterministic(
    g1: Seq<Vec<Cell>>,
    g2: Seq<Vec<Cell>>,
    bs1: Seq<BuyerV>,
    bs2: Seq<BuyerV>,
)
    requires
        g1 == g2,
        bs1 == bs2,
    ensures
        extract_spec(g1, bs1) == extract_spec(g2, bs2),
{
}

/// Every line a row yields has a positive quantity.
proof fn lemma_row_lines_positive(row: Seq<Cell>, bs: Seq<BuyerV>, bi: int, item: GrowerItemV)
    ensures
        row_lines(row, bs, bi, item) matches Ok(ls) ==> forall|k: int|
            0 <= k < ls.len() ==> (#[trigger] ls[k]).qty > 0,
    decreases bs.len() - bi,
{
    if bi < bs.len() {
        lemma_row_lines_positive(row, bs, bi + 1, item);
    }
}

/// Every extracted line has a positive quantity: no non-positive order ever
/// appears downstream.
pub proof fn lemma_extract_positive(g: Seq<Vec<Cell>>, bs: Seq<BuyerV>, r: int)
    ensures
        extract_from(g, bs, r) matches Ok(ls) ==> forall|k: int|
            0 <= k < ls.len() ==> (#[trigger] ls[k]).qty > 0,
    decreases g.len() - r,
{
    if r < g.len() {
        lemma_extract_positive(g, bs, r + 1);
        let row = g[r]@;
        if cell_string(cell_at(row, PRODUCE_COL as int)).len() != 0 {
            match row_price(row) {
                Some(p) => {
                    lemma_row_lines_positive(row, bs, 0, row_item(row, p));
                },
                None => {},
            }
        }
    }
}

/// Reads the quantity cell for buyer `b` in `row`: `Ok(None)` for a blank
/// or non-positive quantity, `Ok(Some(q))` for a positive one, `Err(())`
/// for a non-numeric or unrepresentable one.
fn read_quantity(row: &Vec<Cell>, b: &Buyer) -> (r: Result<Option<u32>, ()>)
    ensures
        ({
            let c = cell_at(row@, b@.index);
            match c {
                CellV::Empty => r == Ok::<Option<u32>, ()>(None),
                _ => match cell_number(c) {
                    None => r == Err::<Option<u32>, ()>(()),
                    Some(h) => if h <= 0 {
                        r == Ok::<Option<u32>, ()>(None)
                    } else if h > u32::MAX {
                        r == Err::<Option<u32>, ()>(())
                    } else {
                        r == Ok::<Option<u32>, ()>(Some(h as u32))
                    },
                },
            }
        }),
{
    if b.index >= row.len() {
        return Ok(None);
    }
    let c = &row[b.index];
    if let Cell::Empty = c {
        return Ok(None);
    }
    match cell_to_number(c) {
        None => Err(()),
        Some(h) => {
            if h <= 0 {
                Ok(None)
            } else if h > 0xffff_ffffi64 {
                Err(())
            } else {
                Ok(Some(h as u32))
            }
        },
    }
}

/// Renders the cell at column `j` of `row`; columns beyond the row's end
/// render empty.
fn string_at(row: &Vec<Cell>, j: usize) -> (r: String)
    requires
        row_wf(row@),
    ensures
        r@ == cell_string(cell_at(row@, j as int)),
{
    if j < row.len() {
        cell_to_string(&row[j])
    } else {
        String::new()
    }
}

/// Walks the data rows of the grid and extracts one order line per buyer
/// and item with a positive ordered quantity, in row-major order and buyer
/// order within a row. Returns the first invalid cell as an error.
#[verifier::loop_isolation(false)]
pub fn extract_orders(grid: &Vec<Vec<Cell>>, buyers: &Vec<Buyer>) -> (r: Result<
    Vec<ExtractedLine>,
    InputError,
>)
    requires
        grid_wf(grid@),
    ensures
        match r {
            Ok(ls) => extract_spec(grid@, buyers.deep_view()) == Ok::<_, InputError>(
                ls.deep_view(),
            ),
            Err(e) => extract_spec(grid@, buyers.deep_view()) == Err::<Seq<ExtractedLineV>, _>(e),
        },
{
    let ghost g = grid@;
    let ghost bs = buyers.deep_view();
    let mut out: Vec<ExtractedLine> = Vec::new();
    let mut ri: usize = DATA_START_ROW;
    proof {
        assert(bs.len() == buyers@.len());
        assert(forall|k: int| 0 <= k < bs.len() ==> bs[k] == #[trigger] buyers@[k]@);
        if (DATA_START_ROW as int) >= g.len() {
            assert(extract_from(g, bs, DATA_START_ROW as int) == Ok::<_, InputError>(
                Seq::<ExtractedLineV>::empty(),
            ));
        }
        assert(out.deep_view() =~= Seq::<ExtractedLineV>::empty());
    }
    while ri < grid.len()
        invariant
            DATA_START_ROW <= ri,
            ri <= g.len() || ri == DATA_START_ROW,
            match extract_from(g, bs, ri as int) {
                Ok(tail) => extract_spec(g, bs) == Ok::<_, InputError>(out.deep_view() + tail),
                Err(e) => extract_spec(g, bs) == Err::<Seq<ExtractedLineV>, _>(e),
            },
        decreases g.len() - ri,
    {
        let row = &grid[ri];
        let ghost rv = row@;
        let produce = string_at(row, PRODUCE_COL);
        if produce.as_str().unicode_len() == 0 {
            ri = ri + 1;
            continue ;
        }
        // price, validated
        let price: u32 = match if PRICE_COL < row.len() {
            cell_to_number(&row[PRICE_COL])
        } else {
            None
        } {
            None => {
                return Err(InputError::InvalidCell { row: ri, col: PRICE_COL });
            },
            Some(h) => {
                if h < 0 || h > 0xffff_ffffi64 {
                    return Err(InputError::InvalidCell { row: ri, col: PRICE_COL });
                }
                h as u32
            },
        };
        proof {
            assert(row_price(rv) == Some(price));
        }
        let item = GrowerItem {
            grower: string_at(row, SELLER_COL),
            produce_name: produce,
            variant: string_at(row, VARIANT_COL),
            unit: string_at(row, UNIT_COL),
            price,
        };
        let ghost iv = item@;
        proof {
            assert(iv == row_item(rv, price));
        }
        // one pass over the buyers, collecting this row's lines
        let mut rls: Vec<ExtractedLine> = Vec::new();
        let mut bi: usize = 0;
        proof {
            assert(rls.deep_view() =~= Seq::<ExtractedLineV>::empty());
        }
        while bi < buyers.len()
            invariant
                bi <= bs.len(),
                row_wf(rv),
                iv == row_item(rv, price),
                rv == grid@[ri as int]@,
                DATA_START_ROW <= ri < g.len(),
                cell_string(cell_at(rv, PRODUCE_COL as int)).len() != 0,
                row_price(rv) == Some(price),
                match extract_from(g, bs, ri as int) {
                    Ok(tail) => extract_spec(g, bs) == Ok::<_, InputError>(out.deep_view() + tail),
                    Err(e) => extract_spec(g, bs) == Err::<Seq<ExtractedLineV>, _>(e),
                },
                match row_lines(rv, bs, bi as int, iv) {
                    Ok(t) => row_lines(rv, bs, 0, iv) == Ok::<_, int>(rls.deep_view() + t),
                    Err(c) => row_lines(rv, bs, 0, iv) == Err::<Seq<ExtractedLineV>, _>(c),
                },
            decreases bs.len() - bi,
        {
            let b = &buyers[bi];
            let ghost pre = rls.deep_view();
            match read_quantity(row, b) {
                Err(()) => {
                    proof {
                        assert(row_lines(rv, bs, bi as int, iv) == Err::<Seq<ExtractedLineV>, _>(
                            b@.index,
                        ));
                    }
                    return Err(InputError::InvalidCell { row: ri, col: b.index });
                },
                Ok(None) => {
                    proof {
                        assert(row_lines(rv, bs, bi as int, iv) == row_lines(
                            rv,
                            bs,
                            bi + 1,
                            iv,
                        ));
                    }
                },
                Ok(Some(q)) => {
                    rls.push(
                        ExtractedLine {
                            buyer: b.name.clone(),
                            seller: item.grower.clone(),
                            produce: item.produce_name.clone(),
                            variant: item.variant.clone(),
                            unit: item.unit.clone(),
                            price: item.price,
                            qty: q,
                        },
                    );
                    proof {
                        assert(rls.deep_view() =~= pre + seq![line_of(iv, bs[bi as int], q)]);
                        match row_lines(rv, bs, bi + 1, iv) {
                            Ok(t) => {
                                assert(row_lines(rv, bs, bi as int, iv) == Ok::<_, int>(
                                    seq![line_of(iv, bs[bi as int], q)] + t,
                                ));
                                assert(pre + (seq![line_of(iv, bs[bi as int], q)] + t) =~= (pre
                                    + seq![line_of(iv, bs[bi as int], q)]) + t);
                            },
                            Err(_) => {},
                        }
                    }
                },
            }
            bi = bi + 1;
        }
        proof {
            assert(row_lines(rv, bs, bs.len() as int, iv) == Ok::<_, int>(
                Seq::<ExtractedLineV>::empty(),
            ));
            assert(rls.deep_view() + Seq::<ExtractedLineV>::empty() =~= rls.deep_view());
            assert(row_lines(rv, bs, 0, iv) == Ok::<_, int>(rls.deep_view()));
        }
        let ghost pre_out = out.deep_view();
        let ghost row_out = rls.deep_view();
        let mut rls_moved = rls;
        out.append(&mut rls_moved);
        proof {
            assert(out.deep_view() =~= pre_out + row_out);
            match extract_from(g, bs, ri + 1) {
                Ok(tail) => {
                    assert(extract_from(g, bs, ri as int) == Ok::<_, InputError>(row_out + tail));
                    assert(pre_out + (row_out + tail) =~= (pre_out + row_out) + tail);
                },
                Err(_) => {},
            }
        }
        ri = ri + 1;
    }
    proof {
        assert(extract_from(g, bs, ri as int) == Ok::<_, InputError>(
            Seq::<ExtractedLineV>::empty(),
        ));
        assert(out.deep_view() + Seq::<ExtractedLineV>::empty() =~= out.deep_view());
    }
    Ok(out)
}


/// The grouping key of an extracted line: its buyer.
pub open spec fn by_line_buyer() -> spec_fn(ExtractedLineV) -> Seq<char> {
    |l: ExtractedLineV| l.buyer
}

/// The order line an extracted line becomes on a buyer's document: the
/// buyer moves to the document head and the line keeps everything else.
pub open spec fn to_order_line_v(l: ExtractedLineV) -> OrderLineV {
    OrderLineV {
        produce: l.produce,
        variant: l.variant,
        unit: l.unit,
        price: l.price,
        qty: l.qty,
        seller: l.seller,
    }
}

/// The order-line views of a sequence of extracted lines.
pub open spec fn order_views_of(s: Seq<ExtractedLineV>) -> Seq<OrderLineV> {
    s.map_values(|l: ExtractedLineV| to_order_line_v(l))
}

/// Converts one extracted line to an order line.
pub fn to_order_line(l: &ExtractedLine) -> (r: OrderLine)
    ensures
        r@ == to_order_line_v(l@),
{
    OrderLine {
        produce: l.produce.clone(),
        variant: l.variant.clone(),
        unit: l.unit.clone(),
        price: l.price,
        qty: l.qty,
        seller: l.seller.clone(),
    }
}

/// Converts a sequence of extracted lines to order lines.
#[verifier::loop_isolation(false)]
pub fn order_lines_of(lines: &Vec<ExtractedLine>) -> (r: Vec<OrderLine>)
    ensures
        r.deep_view() == order_views_of(lines.deep_view()),
{
    let ghost lv = lines.deep_view();
    let mut out: Vec<OrderLine> = Vec::new();
    let mut i: usize = 0;
    proof {
        assert(forall|k: int| 0 <= k < lv.len() ==> lv[k] == #[trigger] lines@[k].deep_view());
    }
    while i < lines.len()
        invariant
            i <= lv.len(),
            out@.len() == i,
            forall|k: int| 0 <= k < i ==> #[trigger] out@[k].deep_view() == to_order_line_v(lv[k]),
        decreases lv.len() - i,
    {
        out.push(to_order_line(&lines[i]));
        i = i + 1;
    }
    proof {
        assert(out.deep_view() =~= order_views_of(lv));
    }
    out
}

/// One buyer's order, extracted from the grid: the buyer's name and the
/// order lines for that buyer, already in document form.
pub struct BuyerOrder {
    pub buyer: String,
    pub lines: Vec<OrderLine>,
}

/// The mathematical value of an extracted buyer order.
pub ghost struct BuyerOrderV {
    pub buyer: Seq<char>,
    pub lines: Seq<OrderLineV>,
}

impl View for BuyerOrder {
    type V = BuyerOrderV;

    open spec fn view(&self) -> BuyerOrderV {
        BuyerOrderV { buyer: self.buyer@, lines: self.lines.deep_view() }
    }
}

impl DeepView for BuyerOrder {
    type V = BuyerOrderV;

    open spec fn deep_view(&self) -> BuyerOrderV {
        self.view()
    }
}

/// True when `gs` is exactly the grouping of the extracted lines by buyer
/// in first-seen order, with each group's lines converted to order lines.
/// A buyer with no positive quantity has no group: they receive no
/// document.
pub open spec fn buyer_orders_of(gs: Seq<BuyerOrderV>, lv: Seq<ExtractedLineV>) -> bool {
    &&& gs.len() == keys_of(lv, by_line_buyer()).len()
    &&& forall|gi: int|
        0 <= gi < gs.len() ==> {
            &&& (#[trigger] gs[gi]).buyer == keys_of(lv, by_line_buyer())[gi]
            &&& gs[gi].lines == order_views_of(group_lines(lv, by_line_buyer(), gs[gi].buyer))
        }
}

/// Gathers the extracted lines into one order per buyer, in the order the
/// buyers first ordered something; a buyer with no line gets no order.
#[verifier::loop_isolation(false)]
#[verifier::rlimit(30)]
pub fn group_orders_by_buyer(lines: &Vec<ExtractedLine>) -> (r: Vec<BuyerOrder>)
    ensures
        buyer_orders_of(r.deep_view(), lines.deep_view()),
{
    let ghost lv = lines.deep_view();
    let ghost key = by_line_buyer();
    let mut groups: Vec<BuyerOrder> = Vec::new();
    let mut i: usize = 0;
    proof {
        assert(lv.take(0) =~= Seq::<ExtractedLineV>::empty());
        assert(lv.len() == lines@.len());
        assert(forall|k: int| 0 <= k < lv.len() ==> lv[k] == #[trigger] lines@[k].deep_view());
    }
    while i < lines.len()
        invariant
            i <= lv.len(),
            buyer_orders_of(groups.deep_view(), lv.take(i as int)),
        decreases lv.len() - i,
    {
        let l = &lines[i];
        let ghost p = lv.take(i as int);
        let ghost p1 = lv.take(i + 1);
        let ghost dv = groups.deep_view();
        proof {
            assert(p1.drop_last() =~= p);
            assert(p1.last() == lv[i as int]);
            assert(p1 =~= p.push(lv[i as int]));
            assert(l.deep_view() == lv[i as int]);
            lemma_keys_of_distinct(p, key);
        }
        let n_g = groups.len();
        let mut j: usize = 0;
        while j < n_g && !groups[j].buyer.eq(&l.buyer)
            invariant
                j <= n_g,
                n_g == dv.len(),
                dv == groups.deep_view(),
                forall|k: int| 0 <= k < j ==> (#[trigger] dv[k]).buyer != lv[i as int].buyer,
            decreases n_g - j,
        {
            j = j + 1;
        }
        if j < n_g {
            // the buyer already has an order: the line joins it
            proof {
                assert(dv[j as int].buyer == lv[i as int].buyer);
                assert(keys_of(p, key)[j as int] == lv[i as int].buyer);
                assert(keys_of(p, key).contains(lv[i as int].buyer));
                assert(keys_of(p1, key) == keys_of(p, key));
            }
            groups[j].lines.push(to_order_line(l));
            proof {
                let dv1 = groups.deep_view();
                assert(dv1.len() == dv.len());
                assert(forall|k: int|
                    0 <= k < dv.len() && k != j ==> #[trigger] dv1[k] == dv[k]);
                assert(dv1[j as int].buyer == dv[j as int].buyer);
                assert(dv1[j as int].lines =~= dv[j as int].lines.push(
                    to_order_line_v(lv[i as int]),
                ));
                assert forall|gi: int| 0 <= gi < dv1.len() implies {
                    &&& (#[trigger] dv1[gi]).buyer == keys_of(p1, key)[gi]
                    &&& dv1[gi].lines == order_views_of(group_lines(p1, key, dv1[gi].buyer))
                } by {
                    lemma_filter_push(p, key_is(key, dv1[gi].buyer), lv[i as int]);
                    if gi == j {
                        assert(key_is(key, dv1[gi].buyer)(lv[i as int]));
                        let g = group_lines(p, key, dv1[gi].buyer);
                        assert(group_lines(p1, key, dv1[gi].buyer) == g.push(lv[i as int]));
                        assert(order_views_of(g.push(lv[i as int])) =~= order_views_of(g).push(
                            to_order_line_v(lv[i as int]),
                        ));
                    } else {
                        assert(dv[gi].buyer != dv[j as int].buyer) by {
                            assert(keys_of(p, key)[gi] != keys_of(p, key)[j as int]);
                        }
                        assert(!key_is(key, dv1[gi].buyer)(lv[i as int]));
                    }
                }
            }
        } else {
            // a buyer's first line: their order opens with it
            proof {
                assert forall|k: int|
                    0 <= k < keys_of(p, key).len() implies #[trigger] keys_of(p, key)[k] != lv[
                    i as int
                ].buyer by {
                    assert(dv[k].buyer == keys_of(p, key)[k]);
                    assert(dv[k].buyer != lv[i as int].buyer);
                }
                assert(!keys_of(p, key).contains(lv[i as int].buyer));
                assert(keys_of(p1, key) == keys_of(p, key).push(lv[i as int].buyer));
                lemma_keys_of_contains(p, key, lv[i as int].buyer);
                lemma_filter_none(p, key_is(key, lv[i as int].buyer));
            }
            let mut nl: Vec<OrderLine> = Vec::new();
            nl.push(to_order_line(l));
            groups.push(BuyerOrder { buyer: l.buyer.clone(), lines: nl });
            proof {
                let dv1 = groups.deep_view();
                assert(dv1.len() == dv.len() + 1);
                assert(forall|k: int| 0 <= k < dv.len() ==> #[trigger] dv1[k] == dv[k]);
                assert(dv1[dv.len() as int].buyer == lv[i as int].buyer);
                assert(dv1[dv.len() as int].lines =~= Seq::<OrderLineV>::empty().push(
                    to_order_line_v(lv[i as int]),
                ));
                assert forall|gi: int| 0 <= gi < dv1.len() implies {
                    &&& (#[trigger] dv1[gi]).buyer == keys_of(p1, key)[gi]
                    &&& dv1[gi].lines == order_views_of(group_lines(p1, key, dv1[gi].buyer))
                } by {
                    lemma_filter_push(p, key_is(key, dv1[gi].buyer), lv[i as int]);
                    if gi == dv.len() {
                        assert(key_is(key, dv1[gi].buyer)(lv[i as int]));
                        assert(group_lines(p, key, dv1[gi].buyer)
                            =~= Seq::<ExtractedLineV>::empty());
                        let single = Seq::<ExtractedLineV>::empty().push(lv[i as int]);
                        assert(group_lines(p1, key, dv1[gi].buyer) == single);
                        assert(order_views_of(single) =~= Seq::<OrderLineV>::empty().push(
                            to_order_line_v(lv[i as int]),
                        ));
                    } else {
                        assert(dv1[gi].buyer == keys_of(p, key)[gi]);
                        assert(!key_is(key, dv1[gi].buyer)(lv[i as int]));
                        assert(keys_of(p1, key)[gi] == keys_of(p, key)[gi]);
                    }
                }
            }
        }
        i = i + 1;
    }
    proof {
        assert(lv.take(lv.len() as int) =~= lv);
    }
    groups
}

/// The buyers the grid's header row names.
pub open spec fn grid_buyers(g: Seq<Vec<Cell>>) -> Seq<crate::buyers::BuyerV> {
    let hs = row_strings(g[HEADER_ROW as int]@);
    buyers_from(hs, marker_index(hs) + 1)
}

/// What the whole grid yields: its extracted lines, or the first error —
/// a grid too small for the header row, a missing buyer marker, or an
/// invalid cell.
pub open spec fn grid_outcome(g: Seq<Vec<Cell>>) -> Result<Seq<ExtractedLineV>, InputError> {
    if g.len() <= HEADER_ROW {
        Err(InputError::MalformedInput)
    } else if marker_index(row_strings(g[HEADER_ROW as int]@)) < 0 {
        Err(InputError::MissingMarker)
    } else {
        extract_spec(g, grid_buyers(g))
    }
}

/// Runs the whole grid pipeline: reads the header row, resolves the buyer
/// columns, extracts the order lines, and gathers them into one order per
/// buyer in first-seen order. Buyers without a single positive quantity
/// receive no order.
pub fn orders_from_grid(grid: &Vec<Vec<Cell>>) -> (r: Result<Vec<BuyerOrder>, InputError>)
    requires
        grid_wf(grid@),
    ensures
        match r {
            Ok(gs) => grid_outcome(grid@) matches Ok(lv) && buyer_orders_of(gs.deep_view(), lv),
            Err(e) => grid_outcome(grid@) == Err::<Seq<ExtractedLineV>, _>(e),
        },
{
    let hs = match headers(grid) {
        Ok(hs) => hs,
        Err(e) => {
            return Err(e);
        },
    };
    let (buyers, _start) = match get_buyers(&hs) {
        Ok(bs) => bs,
        Err(e) => {
            return Err(e);
        },
    };
    proof {
        assert(buyers.deep_view() == grid_buyers(grid@));
    }
    let lines = match extract_orders(grid, &buyers) {
        Ok(ls) => ls,
        Err(e) => {
            return Err(e);
        },
    };
    Ok(group_orders_by_buyer(&lines))
}

/// The total a grower is owed across all the extracted lines: the sum of
/// that grower's line totals.
pub open spec fn extracted_line_total() -> spec_fn(ExtractedLineV) -> int {
    |l: ExtractedLineV| crate::money::line_total_spec(l.price, l.qty) as int
}

/// Summarises what each grower is owed: one `(grower, total)` pair per
/// distinct seller of the extracted lines, in first-seen order.
pub fn summarise_grower_item_orders(lines: &Vec<ExtractedLine>) -> (r: Vec<(String, u128)>)
    ensures
        ({
            let ov = order_views_of(lines.deep_view());
            let keys = keys_of(ov, crate::orders::by_seller());
            &&& r@.len() == keys.len()
            &&& forall|k: int|
                0 <= k < r@.len() ==> {
                    &&& (#[trigger] r@[k]).0@ == keys[k]
                    &&& r@[k].1 == crate::groups::sum_by(
                        group_lines(ov, crate::orders::by_seller(), keys[k]),
                        crate::orders::order_line_total(),
                    )
                }
        }),
{
    let ols = order_lines_of(lines);
    let groups = crate::orders::group_by_seller(&ols);
    let ghost ov = order_views_of(lines.deep_view());
    let ghost keys = keys_of(ov, crate::orders::by_seller());
    let mut out: Vec<(String, u128)> = Vec::new();
    let mut gi: usize = 0;
    while gi < groups.len()
        invariant
            gi <= groups@.len(),
            groups.deep_view().len() == keys.len(),
            forall|k: int|
                0 <= k < groups.deep_view().len() ==> {
                    &&& (#[trigger] groups.deep_view()[k]).seller == keys[k]
                    &&& groups.deep_view()[k].lines == group_lines(
                        ov,
                        crate::orders::by_seller(),
                        keys[k],
                    )
                },
            out@.len() == gi,
            forall|k: int|
                0 <= k < gi ==> {
                    &&& (#[trigger] out@[k]).0@ == keys[k]
                    &&& out@[k].1 == crate::groups::sum_by(
                        group_lines(ov, crate::orders::by_seller(), keys[k]),
                        crate::orders::order_line_total(),
                    )
                },
        decreases groups@.len() - gi,
    {
        let total = crate::orders::total_per_grower(&groups[gi].lines);
        proof {
            let gdv = groups.deep_view();
            assert(gdv[gi as int] == groups@[gi as int].deep_view());
            assert(gdv[gi as int].seller == keys[gi as int]);
            assert(gdv[gi as int].lines == group_lines(
                ov,
                crate::orders::by_seller(),
                keys[gi as int],
            ));
            assert(groups@[gi as int].lines.deep_view() == gdv[gi as int].lines);
        }
        out.push((groups[gi].seller.clone(), total));
        proof {
            assert(out@[gi as int].0@ == keys[gi as int]);
        }
        gi = gi + 1;
    }
    out
}

} // verus!
