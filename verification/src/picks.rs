//! Pick lists: one document per seller, lines grouped by buyer.
//!
//! A pick list tells a seller what to pick for each buyer. Its lines are
//! grouped by their buyer in first-seen order, each group carries its
//! subtotal, and the document total is the sum of the line totals — which
//! the partition law at the bottom equates with the sum of the groups'
//! subtotals.

use vstd::prelude::*;

verus! {

use vstd::string::StringExecFns;
use crate::groups::group_lines;
use crate::groups::groups_sum;
use crate::groups::key_is;
use crate::groups::keys_of;
use crate::groups::lemma_filter_none;
use crate::groups::lemma_filter_push;
use crate::groups::lemma_keys_of_contains;
use crate::groups::lemma_keys_of_distinct;
use crate::groups::lemma_partition;
use crate::groups::sum_by;
use crate::layout::LayoutConfig;
use crate::layout::LayoutOp;
use crate::layout::paginate;
use crate::layout::spec_layout;
use crate::money::LINE_TOTAL_BOUND;
use crate::money::line_total;
use crate::money::line_total_spec;

/// The seller a pick list is for.
pub struct Seller {
    pub name: String,
}

/// One pick line: an item, its unit price in minor currency units, the
/// quantity in hundredths of a unit, and the buyer it goes to.
pub struct PickLine {
    pub produce: String,
    pub variant: String,
    pub unit: String,
    pub price: u32,
    pub qty: u32,
    pub buyer: String,
}

/// The mathematical value of a pick line.
pub ghost struct PickLineV {
    pub produce: Seq<char>,
    pub variant: Seq<char>,
    pub unit: Seq<char>,
    pub price: u32,
    pub qty: u32,
    pub buyer: Seq<char>,
}

impl View for PickLine {
    type V = PickLineV;

    open spec fn view(&self) -> PickLineV {
        PickLineV {
            produce: self.produce@,
            variant: self.variant@,
            unit: self.unit@,
            price: self.price,
            qty: self.qty,
            buyer: self.buyer@,
        }
    }
}

impl DeepView for PickLine {
    type V = PickLineV;

    open spec fn deep_view(&self) -> PickLineV {
        self.view()
    }
}

impl Clone for PickLine {
    /// Clones the line, field for field.
    fn clone(&self) -> (r: Self)
        ensures
            r == *self,
    {
        PickLine {
            produce: self.produce.clone(),
            variant: self.variant.clone(),
            unit: self.unit.clone(),
            price: self.price,
            qty: self.qty,
            buyer: self.buyer.clone(),
        }
    }
}

/// A pick list for a seller: the seller, the order-week date as
/// `YYYY-MM-DD`, the pick lines, and the document reference.
pub struct Pick {
    pub seller: Seller,
    pub date: String,
    pub lines: Vec<PickLine>,
    pub reference: String,
}

/// The grouping key of a pick line: its buyer.
pub open spec fn by_buyer() -> spec_fn(PickLineV) -> Seq<char> {
    |l: PickLineV| l.buyer
}

/// The value a pick line contributes to totals: its line total.
pub open spec fn pick_line_total() -> spec_fn(PickLineV) -> int {
    |l: PickLineV| line_total_spec(l.price, l.qty) as int
}

/// One buyer's group within a pick list: the buyer and, in their original
/// order, the pick's lines for that buyer.
pub struct BuyerGroup {
    pub buyer: String,
    pub lines: Vec<PickLine>,
}

/// The mathematical value of a buyer group.
pub ghost struct BuyerGroupV {
    pub buyer: Seq<char>,
    pub lines: Seq<PickLineV>,
}

impl View for BuyerGroup {
    type V = BuyerGroupV;

    open spec fn view(&self) -> BuyerGroupV {
        BuyerGroupV { buyer: self.buyer@, lines: self.lines.deep_view() }
    }
}

impl DeepView for BuyerGroup {
    type V = BuyerGroupV;

    open spec fn deep_view(&self) -> BuyerGroupV {
        self.view()
    }
}

/// True when `gs` is exactly the grouping of `lv` by buyer: one group per
/// distinct buyer in first-seen order, each holding that buyer's lines.
pub open spec fn grouped_by_buyer(gs: Seq<BuyerGroupV>, lv: Seq<PickLineV>) -> bool {
    &&& gs.len() == keys_of(lv, by_buyer()).len()
    &&& forall|gi: int|
        0 <= gi < gs.len() ==> {
            &&& (#[trigger] gs[gi]).buyer == keys_of(lv, by_buyer())[gi]
            &&& gs[gi].lines == group_lines(lv, by_buyer(), gs[gi].buyer)
        }
}

/// Groups a pick list's lines per buyer, in first-seen order. (The grouping
/// counterpart of the order document's, keyed on the line's buyer.)
#[verifier::loop_isolation(false)]
#[verifier::rlimit(30)]
pub fn group_by_seller(lines: &Vec<PickLine>) -> (r: Vec<BuyerGroup>)
    ensures
        grouped_by_buyer(r.deep_view(), lines.deep_view()),
{
    let ghost lv = lines.deep_view();
    let ghost key = by_buyer();
    let mut groups: Vec<BuyerGroup> = Vec::new();
    let mut i: usize = 0;
    proof {
        assert(lv.take(0) =~= Seq::<PickLineV>::empty());
        assert(lv.len() == lines@.len());
        assert(forall|k: int| 0 <= k < lv.len() ==> lv[k] == #[trigger] lines@[k].deep_view());
    }
    while i < lines.len()
        invariant
            i <= lv.len(),
            grouped_by_buyer(groups.deep_view(), lv.take(i as int)),
        decreases lv.len() - i,
    {
        let l = &lines[i];
        let ghost p = lv.take(i as int);
        let ghost p1 = lv.take(i + 1);
        let ghost dv = groups.deep_view();
        proof {
            assert(p1.drop_last() =~= p);
            assert(p1.last() == lv[i as int]);
            assert(p1 =~= p.push(lv[i as int]));
            assert(l.deep_view() == lv[i as int]);
            lemma_keys_of_distinct(p, key);
        }
        let n_g = groups.len();
        let mut j: usize = 0;
        while j < n_g && !groups[j].buyer.eq(&l.buyer)
            invariant
                j <= n_g,
                n_g == dv.len(),
                dv == groups.deep_view(),
                forall|k: int| 0 <= k < j ==> (#[trigger] dv[k]).buyer != lv[i as int].buyer,
            decreases n_g - j,
        {
            j = j + 1;
        }
        if j < n_g {
            // the buyer already heads a group: the line joins it
            proof {
                assert(dv[j as int].buyer == lv[i as int].buyer);
                assert(keys_of(p, key)[j as int] == lv[i as int].buyer);
                assert(keys_of(p, key).contains(lv[i as int].buyer));
                assert(keys_of(p1, key) == keys_of(p, key));
            }
            groups[j].lines.push(l.clone());
            proof {
                let dv1 = groups.deep_view();
                assert(dv1.len() == dv.len());
                assert(forall|k: int|
                    0 <= k < dv.len() && k != j ==> #[trigger] dv1[k] == dv[k]);
                assert(dv1[j as int].buyer == dv[j as int].buyer);
                assert(dv1[j as int].lines =~= dv[j as int].lines.push(lv[i as int]));
                assert forall|gi: int| 0 <= gi < dv1.len() implies {
                    &&& (#[trigger] dv1[gi]).buyer == keys_of(p1, key)[gi]
                    &&& dv1[gi].lines == group_lines(p1, key, dv1[gi].buyer)
                } by {
                    lemma_filter_push(p, key_is(key, dv1[gi].buyer), lv[i as int]);
                    if gi == j {
                        assert(key_is(key, dv1[gi].buyer)(lv[i as int]));
                    } else {
                        // distinct keys: only group `j` carries this buyer
                        assert(dv[gi].buyer != dv[j as int].buyer) by {
                            assert(keys_of(p, key)[gi] != keys_of(p, key)[j as int]);
                        }
                        assert(!key_is(key, dv1[gi].buyer)(lv[i as int]));
                    }
                }
            }
        } else {
            // a new buyer: a new group opens with this line
            proof {
                assert forall|k: int|
                    0 <= k < keys_of(p, key).len() implies #[trigger] keys_of(p, key)[k] != lv[
                    i as int
                ].buyer by {
                    assert(dv[k].buyer == keys_of(p, key)[k]);
                    assert(dv[k].buyer != lv[i as int].buyer);
                }
                assert(!keys_of(p, key).contains(lv[i as int].buyer));
                assert(keys_of(p1, key) == keys_of(p, key).push(lv[i as int].buyer));
                lemma_keys_of_contains(p, key, lv[i as int].buyer);
                lemma_filter_none(p, key_is(key, lv[i as int].buyer));
            }
            let mut nl: Vec<PickLine> = Vec::new();
            nl.push(l.clone());
            groups.push(BuyerGroup { buyer: l.buyer.clone(), lines: nl });
            proof {
                let dv1 = groups.deep_view();
                assert(dv1.len() == dv.len() + 1);
                assert(forall|k: int| 0 <= k < dv.len() ==> #[trigger] dv1[k] == dv[k]);
                assert(dv1[dv.len() as int].buyer == lv[i as int].buyer);
                assert(dv1[dv.len() as int].lines =~= Seq::<PickLineV>::empty().push(
                    lv[i as int],
                ));
                assert forall|gi: int| 0 <= gi < dv1.len() implies {
                    &&& (#[trigger] dv1[gi]).buyer == keys_of(p1, key)[gi]
                    &&& dv1[gi].lines == group_lines(p1, key, dv1[gi].buyer)
                } by {
                    lemma_filter_push(p, key_is(key, dv1[gi].buyer), lv[i as int]);
                    if gi == dv.len() {
                        assert(key_is(key, dv1[gi].buyer)(lv[i as int]));
                        assert(group_lines(p, key, dv1[gi].buyer)
                            =~= Seq::<PickLineV>::empty());
                    } else {
                        assert(dv1[gi].buyer == keys_of(p, key)[gi]);
                        assert(!key_is(key, dv1[gi].buyer)(lv[i as int]));
                        assert(keys_of(p1, key)[gi] == keys_of(p, key)[gi]);
                    }
                }
            }
        }
        i = i + 1;
    }
    proof {
        assert(lv.take(lv.len() as int) =~= lv);
    }
    groups
}

/// Sums the line totals of a pick list's lines.
#[verifier::loop_isolation(false)]
pub fn total_per_order(lines: &Vec<PickLine>) -> (t: u128)
    ensures
        t == sum_by(lines.deep_view(), pick_line_total()),
{
    let ghost lv = lines.deep_view();
    let ghost f = pick_line_total();
    let mut acc: u128 = 0;
    let mut i: usize = 0;
    proof {
        assert(lv.take(0) =~= Seq::<PickLineV>::empty());
        assert(forall|k: int| 0 <= k < lv.len() ==> lv[k] == #[trigger] lines@[k].deep_view());
    }
    while i < lines.len()
        invariant
            i <= lv.len(),
            acc == sum_by(lv.take(i as int), f),
            acc <= (i as int) * (LINE_TOTAL_BOUND as int),
        decreases lv.len() - i,
    {
        let lt = line_total(lines[i].price, lines[i].qty);
        proof {
            assert(lv.take(i + 1).drop_last() =~= lv.take(i as int));
            assert(lv.take(i + 1).last() == lv[i as int]);
            assert(f(lv[i as int]) == line_total_spec(lv[i as int].price, lv[i as int].qty));
            assert((i as int) * (LINE_TOTAL_BOUND as int) + (LINE_TOTAL_BOUND as int) == (i + 1)
                * (LINE_TOTAL_BOUND as int)) by (nonlinear_arith);
            assert((i + 1) * (LINE_TOTAL_BOUND as int) <= 0x10000000000000000 * (
            LINE_TOTAL_BOUND as int)) by (nonlinear_arith)
                requires
                    i + 1 <= 0x10000000000000000,
            ;
        }
        acc = acc + lt as u128;
        i = i + 1;
    }
    proof {
        assert(lv.take(lv.len() as int) =~= lv);
    }
    acc
}

/// Law: a pick list's grand total equals the sum of its buyer groups'
/// subtotals — grouping loses no line and counts none twice.
pub proof fn lemma_pick_total_is_group_total(lv: Seq<PickLineV>)
    ensures
        groups_sum(lv, keys_of(lv, by_buyer()), by_buyer(), pick_line_total()) == sum_by(
            lv,
            pick_line_total(),
        ),
{
    lemma_partition(lv, by_buyer(), pick_line_total());
}

/// The per-group row counts handed to the pagination engine.
pub open spec fn pick_group_counts(gs: Seq<BuyerGroupV>) -> Seq<usize> {
    Seq::new(gs.len(), |i: int| gs[i].lines.len() as usize)
}

/// The page heights and offsets of a pick list document.
pub open spec fn pick_layout_spec() -> LayoutConfig {
    LayoutConfig {
        first_start: 217,
        page_top: 277,
        bottom_threshold: 30,
        header_gap: 7,
        group_gap: 3,
        label_gap: 7,
        row_height: 6,
        totals_height: 20,
    }
}

/// Builds the pick list layout configuration.
pub fn pick_layout() -> (c: LayoutConfig)
    ensures
        c == pick_layout_spec(),
        c.wf(),
{
    LayoutConfig {
        first_start: 217,
        page_top: 277,
        bottom_threshold: 30,
        header_gap: 7,
        group_gap: 3,
        label_gap: 7,
        row_height: 6,
        totals_height: 20,
    }
}

/// A fully laid-out pick list: its buyer groups, the draw instructions
/// that place them on pages, the cursor after the totals block, and the
/// grand total in minor currency units.
pub struct PickPlan {
    pub groups: Vec<BuyerGroup>,
    pub ops: Vec<LayoutOp>,
    pub end_y: u32,
    pub total: u128,
}

/// Builds the seller's pick list plan: groups the lines per buyer, lays
/// the grouped table out across pages, and computes the grand total.
pub fn plan_pick(pick: &Pick) -> (p: PickPlan)
    ensures
        grouped_by_buyer(p.groups.deep_view(), pick.lines.deep_view()),
        p.ops@ == spec_layout(pick_group_counts(p.groups.deep_view()), pick_layout_spec()).0,
        p.end_y == spec_layout(pick_group_counts(p.groups.deep_view()), pick_layout_spec()).1,
        p.total == sum_by(pick.lines.deep_view(), pick_line_total()),
{
    let groups = group_by_seller(&pick.lines);
    let mut counts: Vec<usize> = Vec::new();
    let mut gi: usize = 0;
    while gi < groups.len()
        invariant
            gi <= groups@.len(),
            counts@.len() == gi,
            forall|k: int|
                0 <= k < gi ==> counts@[k] == (#[trigger] groups.deep_view()[k]).lines.len(),
        decreases groups@.len() - gi,
    {
        counts.push(groups[gi].lines.len());
        gi = gi + 1;
    }
    proof {
        assert(counts@ =~= pick_group_counts(groups.deep_view()));
    }
    let cfg = pick_layout();
    let (ops, end_y) = paginate(&counts, &cfg);
    let total = total_per_order(&pick.lines);
    PickPlan { groups, ops, end_y, total }
}


/// The object key a pick list is stored under: the seller's name, the
/// document kind, and the order-week date.
pub fn pick_object_key(pick: &Pick) -> (r: String)
    ensures
        r@ == pick.seller.name@ + " Pick List "@ + pick.date@ + ".pdf"@,
{
    let mut s = pick.seller.name.clone();
    s.append(" Pick List ");
    s.append(pick.date.as_str());
    s.append(".pdf");
    proof {
        assert(s@ =~= pick.seller.name@ + " Pick List "@ + pick.date@ + ".pdf"@);
    }
    s
}

} // verus!
