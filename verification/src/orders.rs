//! Buyer orders: one document per buyer, lines grouped by seller.
//!
//! An order's lines are grouped by their seller in first-seen order, each
//! group carries its subtotal, and the document total is the sum of the
//! line totals — which the partition law at the bottom equates with the
//! sum of the groups' subtotals.

use vstd::prelude::*;

verus! {

use vstd::string::StringExecFns;
use crate::groups::group_lines;
use crate::groups::groups_sum;
use crate::groups::key_is;
use crate::groups::keys_of;
use crate::groups::lemma_filter_none;
use crate::groups::lemma_filter_push;
use crate::groups::lemma_keys_of_contains;
use crate::groups::lemma_keys_of_distinct;
use crate::groups::lemma_partition;
use crate::groups::sum_by;
use crate::layout::LayoutConfig;
use crate::layout::LayoutOp;
use crate::layout::paginate;
use crate::layout::spec_layout;
use crate::money::LINE_TOTAL_BOUND;
use crate::money::line_total;
use crate::money::line_total_spec;
use crate::utils::BuyerDetails;

/// One order line: an item, its unit price in minor currency units, the
/// quantity in hundredths of a unit, and the seller it comes from.
pub struct OrderLine {
    pub produce: String,
    pub variant: String,
    pub unit: String,
    pub price: u32,
    pub qty: u32,
    pub seller: String,
}

/// The mathematical value of an order line.
pub ghost struct OrderLineV {
    pub produce: Seq<char>,
    pub variant: Seq<char>,
    pub unit: Seq<char>,
    pub price: u32,
    pub qty: u32,
    pub seller: Seq<char>,
}

impl View for OrderLine {
    type V = OrderLineV;

    open spec fn view(&self) -> OrderLineV {
        OrderLineV {
            produce: self.produce@,
            variant: self.variant@,
            unit: self.unit@,
            price: self.price,
            qty: self.qty,
            seller: self.seller@,
        }
    }
}

impl DeepView for OrderLine {
    type V = OrderLineV;

    open spec fn deep_view(&self) -> OrderLineV {
        self.view()
    }
}

impl Clone for OrderLine {
    /// Clones the line, field for field.
    fn clone(&self) -> (r: Self)
        ensures
            r == *self,
    {
        OrderLine {
            produce: self.produce.clone(),
            variant: self.variant.clone(),
            unit: self.unit.clone(),
            price: self.price,
            qty: self.qty,
            seller: self.seller.clone(),
        }
    }
}

/// An order for a buyer: the buyer's details, the delivery date as
/// `YYYY-MM-DD`, and the order lines.
pub struct Order {
    pub buyer: BuyerDetails,
    pub date: String,
    pub lines: Vec<OrderLine>,
}

/// The grouping key of an order line: its seller.
pub open spec fn by_seller() -> spec_fn(OrderLineV) -> Seq<char> {
    |l: OrderLineV| l.seller
}

/// The value an order line contributes to totals: its line total.
pub open spec fn order_line_total() -> spec_fn(OrderLineV) -> int {
    |l: OrderLineV| line_total_spec(l.price, l.qty) as int
}

/// One seller's group within an order: the seller and, in their original
/// order, the order's lines from that seller.
pub struct SellerGroup {
    pub seller: String,
    pub lines: Vec<OrderLine>,
}

/// The mathematical value of a seller group.
pub ghost struct SellerGroupV {
    pub seller: Seq<char>,
    pub lines: Seq<OrderLineV>,
}

impl View for SellerGroup {
    type V = SellerGroupV;

    open spec fn view(&self) -> SellerGroupV {
        SellerGroupV { seller: self.seller@, lines: self.lines.deep_view() }
    }
}

impl DeepView for SellerGroup {
    type V = SellerGroupV;

    open spec fn deep_view(&self) -> SellerGroupV {
        self.view()
    }
}

/// True when `gs` is exactly the grouping of `lv` by seller: one group per
/// distinct seller in first-seen order, each holding that seller's lines.
pub open spec fn grouped_by_seller(gs: Seq<SellerGroupV>, lv: Seq<OrderLineV>) -> bool {
    &&& gs.len() == keys_of(lv, by_seller()).len()
    &&& forall|gi: int|
        0 <= gi < gs.len() ==> {
            &&& (#[trigger] gs[gi]).seller == keys_of(lv, by_seller())[gi]
            &&& gs[gi].lines == group_lines(lv, by_seller(), gs[gi].seller)
        }
}

/// Groups an order's lines by seller, in first-seen order.
#[verifier::loop_isolation(false)]
#[verifier::rlimit(30)]
pub fn group_by_seller(lines: &Vec<OrderLine>) -> (r: Vec<SellerGroup>)
    ensures
        grouped_by_seller(r.deep_view(), lines.deep_view()),
{
    let ghost lv = lines.deep_view();
    let ghost key = by_seller();
    let mut groups: Vec<SellerGroup> = Vec::new();
    let mut i: usize = 0;
    proof {
        assert(lv.take(0) =~= Seq::<OrderLineV>::empty());
        assert(lv.len() == lines@.len());
        assert(forall|k: int| 0 <= k < lv.len() ==> lv[k] == #[trigger] lines@[k].deep_view());
    }
    while i < lines.len()
        invariant
            i <= lv.len(),
            grouped_by_seller(groups.deep_view(), lv.take(i as int)),
        decreases lv.len() - i,
    {
        let l = &lines[i];
        let ghost p = lv.take(i as int);
        let ghost p1 = lv.take(i + 1);
        let ghost dv = groups.deep_view();
        proof {
            assert(p1.drop_last() =~= p);
            assert(p1.last() == lv[i as int]);
            assert(p1 =~= p.push(lv[i as int]));
            assert(l.deep_view() == lv[i as int]);
            lemma_keys_of_distinct(p, key);
        }
        let n_g = groups.len();
        let mut j: usize = 0;
        while j < n_g && !groups[j].seller.eq(&l.seller)
            invariant
                j <= n_g,
                n_g == dv.len(),
                dv == groups.deep_view(),
                forall|k: int| 0 <= k < j ==> (#[trigger] dv[k]).seller != lv[i as int].seller,
            decreases n_g - j,
        {
            j = j + 1;
        }
        if j < n_g {
            // the seller already heads a group: the line joins it
            proof {
                assert(dv[j as int].seller == lv[i as int].seller);
                assert(keys_of(p, key)[j as int] == lv[i as int].seller);
                assert(keys_of(p, key).contains(lv[i as int].seller));
                assert(keys_of(p1, key) == keys_of(p, key));
            }
            groups[j].lines.push(l.clone());
            proof {
                let dv1 = groups.deep_view();
                assert(dv1.len() == dv.len());
                assert(forall|k: int|
                    0 <= k < dv.len() && k != j ==> #[trigger] dv1[k] == dv[k]);
                assert(dv1[j as int].seller == dv[j as int].seller);
                assert(dv1[j as int].lines =~= dv[j as int].lines.push(lv[i as int]));
                assert forall|gi: int| 0 <= gi < dv1.len() implies {
                    &&& (#[trigger] dv1[gi]).seller == keys_of(p1, key)[gi]
                    &&& dv1[gi].lines == group_lines(p1, key, dv1[gi].seller)
                } by {
                    lemma_filter_push(p, key_is(key, dv1[gi].seller), lv[i as int]);
                    if gi == j {
                        assert(key_is(key, dv1[gi].seller)(lv[i as int]));
                    } else {
                        // distinct keys: only group `j` carries this seller
                        assert(dv[gi].seller != dv[j as int].seller) by {
                            assert(keys_of(p, key)[gi] != keys_of(p, key)[j as int]);
                        }
                        assert(!key_is(key, dv1[gi].seller)(lv[i as int]));
                    }
                }
            }
        } else {
            // a new seller: a new group opens with this line
            proof {
                assert forall|k: int|
                    0 <= k < keys_of(p, key).len() implies #[trigger] keys_of(p, key)[k] != lv[
                    i as int
                ].seller by {
                    assert(dv[k].seller == keys_of(p, key)[k]);
                    assert(dv[k].seller != lv[i as int].seller);
                }
                assert(!keys_of(p, key).contains(lv[i as int].seller));
                assert(keys_of(p1, key) == keys_of(p, key).push(lv[i as int].seller));
                lemma_keys_of_contains(p, key, lv[i as int].seller);
                lemma_filter_none(p, key_is(key, lv[i as int].seller));
            }
            let mut nl: Vec<OrderLine> = Vec::new();
            nl.push(l.clone());
            groups.push(SellerGroup { seller: l.seller.clone(), lines: nl });
            proof {
                let dv1 = groups.deep_view();
                assert(dv1.len() == dv.len() + 1);
                assert(forall|k: int| 0 <= k < dv.len() ==> #[trigger] dv1[k] == dv[k]);
                assert(dv1[dv.len() as int].seller == lv[i as int].seller);
                assert(dv1[dv.len() as int].lines =~= Seq::<OrderLineV>::empty().push(
                    lv[i as int],
                ));
                assert forall|gi: int| 0 <= gi < dv1.len() implies {
                    &&& (#[trigger] dv1[gi]).seller == keys_of(p1, key)[gi]
                    &&& dv1[gi].lines == group_lines(p1, key, dv1[gi].seller)
                } by {
                    lemma_filter_push(p, key_is(key, dv1[gi].seller), lv[i as int]);
                    if gi == dv.len() {
                        assert(key_is(key, dv1[gi].seller)(lv[i as int]));
                        assert(group_lines(p, key, dv1[gi].seller)
                            =~= Seq::<OrderLineV>::empty());
                    } else {
                        assert(dv1[gi].seller == keys_of(p, key)[gi]);
                        assert(!key_is(key, dv1[gi].seller)(lv[i as int]));
                        assert(keys_of(p1, key)[gi] == keys_of(p, key)[gi]);
                    }
                }
            }
        }
        i = i + 1;
    }
    proof {
        assert(lv.take(lv.len() as int) =~= lv);
    }
    groups
}

/// Sums the line totals of one group's lines.
#[verifier::loop_isolation(false)]
pub fn total_per_grower(lines: &Vec<OrderLine>) -> (t: u128)
    ensures
        t == sum_by(lines.deep_view(), order_line_total()),
{
    let ghost lv = lines.deep_view();
    let ghost f = order_line_total();
    let mut acc: u128 = 0;
    let mut i: usize = 0;
    proof {
        assert(lv.take(0) =~= Seq::<OrderLineV>::empty());
        assert(forall|k: int| 0 <= k < lv.len() ==> lv[k] == #[trigger] lines@[k].deep_view());
    }
    while i < lines.len()
        invariant
            i <= lv.len(),
            acc == sum_by(lv.take(i as int), f),
            acc <= (i as int) * (LINE_TOTAL_BOUND as int),
        decreases lv.len() - i,
    {
        let lt = line_total(lines[i].price, lines[i].qty);
        proof {
            assert(lv.take(i + 1).drop_last() =~= lv.take(i as int));
            assert(lv.take(i + 1).last() == lv[i as int]);
            assert(f(lv[i as int]) == line_total_spec(lv[i as int].price, lv[i as int].qty));
            assert((i as int) * (LINE_TOTAL_BOUND as int) + (LINE_TOTAL_BOUND as int) == (i + 1)
                * (LINE_TOTAL_BOUND as int)) by (nonlinear_arith);
            assert((i + 1) * (LINE_TOTAL_BOUND as int) <= 0x10000000000000000 * (
            LINE_TOTAL_BOUND as int)) by (nonlinear_arith)
                requires
                    i + 1 <= 0x10000000000000000,
            ;
        }
        acc = acc + lt as u128;
        i = i + 1;
    }
    proof {
        assert(lv.take(lv.len() as int) =~= lv);
    }
    acc
}

/// Sums the line totals of a whole order.
pub fn total_per_order(order: &Order) -> (t: u128)
    ensures
        t == sum_by(order.lines.deep_view(), order_line_total()),
{
    total_per_grower(&order.lines)
}

/// Law: an order's grand total equals the sum of its seller groups'
/// subtotals — grouping loses no line and counts none twice.
pub proof fn lemma_order_total_is_group_total(lv: Seq<OrderLineV>)
    ensures
        groups_sum(lv, keys_of(lv, by_seller()), by_seller(), order_line_total()) == sum_by(
            lv,
            order_line_total(),
        ),
{
    lemma_partition(lv, by_seller(), order_line_total());
}

/// The per-group row counts handed to the pagination engine.
pub open spec fn group_counts(gs: Seq<SellerGroupV>) -> Seq<usize> {
    Seq::new(gs.len(), |i: int| gs[i].lines.len() as usize)
}

/// The page heights and offsets of a buyer order document.
pub open spec fn order_layout_spec() -> LayoutConfig {
    LayoutConfig {
        first_start: 203,
        page_top: 277,
        bottom_threshold: 30,
        header_gap: 7,
        group_gap: 3,
        label_gap: 7,
        row_height: 6,
        totals_height: 20,
    }
}

/// Builds the buyer order layout configuration.
pub fn order_layout() -> (c: LayoutConfig)
    ensures
        c == order_layout_spec(),
        c.wf(),
{
    LayoutConfig {
        first_start: 203,
        page_top: 277,
        bottom_threshold: 30,
        header_gap: 7,
        group_gap: 3,
        label_gap: 7,
        row_height: 6,
        totals_height: 20,
    }
}

/// A fully laid-out buyer order: its seller groups, the draw instructions
/// that place them on pages, the cursor after the totals block, and the
/// grand total in minor currency units.
pub struct OrderPlan {
    pub groups: Vec<SellerGroup>,
    pub ops: Vec<LayoutOp>,
    pub end_y: u32,
    pub total: u128,
}

/// Builds the buyer's order document plan: groups the lines by seller,
/// lays the grouped table out across pages, and computes the grand total.
pub fn plan_buyer_order(order: &Order) -> (p: OrderPlan)
    ensures
        grouped_by_seller(p.groups.deep_view(), order.lines.deep_view()),
        p.ops@ == spec_layout(group_counts(p.groups.deep_view()), order_layout_spec()).0,
        p.end_y == spec_layout(group_counts(p.groups.deep_view()), order_layout_spec()).1,
        p.total == sum_by(order.lines.deep_view(), order_line_total()),
{
    let groups = group_by_seller(&order.lines);
    let mut counts: Vec<usize> = Vec::new();
    let mut gi: usize = 0;
    while gi < groups.len()
        invariant
            gi <= groups@.len(),
            counts@.len() == gi,
            forall|k: int|
                0 <= k < gi ==> counts@[k] == (#[trigger] groups.deep_view()[k]).lines.len(),
        decreases groups@.len() - gi,
    {
        counts.push(groups[gi].lines.len());
        gi = gi + 1;
    }
    proof {
        assert(counts@ =~= group_counts(groups.deep_view()));
    }
    let cfg = order_layout();
    let (ops, end_y) = paginate(&counts, &cfg);
    let total = total_per_order(order);
    OrderPlan { groups, ops, end_y, total }
}


/// The object key a buyer order is stored under: the buyer's name with the
/// document extension.
pub fn order_object_key(order: &Order) -> (r: String)
    ensures
        r@ == order.buyer.name@ + ".pdf"@,
{
    let mut s = order.buyer.name.clone();
    s.append(".pdf");
    s
}

} // verus!
