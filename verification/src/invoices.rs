//! VAT invoices: lines grouped by seller and ordered by date within each
//! group.
//!
//! An invoice's lines are grouped by their seller in first-seen order;
//! within each group the lines are sorted by their date, a stable
//! chronological order that makes document output reproducible. The
//! summary block carries the subtotal, the VAT — computed per line and
//! summed — and their sum as the total.

use vstd::prelude::*;

verus! {

use vstd::string::StringExecFns;
use crate::dates::date_as_value;
use crate::dates::parse_date_spec;
use crate::groups::group_lines;
use crate::groups::groups_sum;
use crate::groups::key_is;
use crate::groups::keys_of;
use crate::groups::lemma_filter_elem;
use crate::groups::lemma_filter_none;
use crate::groups::lemma_filter_push;
use crate::groups::lemma_keys_of_contains;
use crate::groups::lemma_keys_of_distinct;
use crate::groups::lemma_partition;
use crate::groups::sum_by;
use crate::layout::LayoutConfig;
use crate::layout::LayoutOp;
use crate::layout::paginate;
use crate::layout::spec_layout;
use crate::money::LINE_TOTAL_BOUND;
use crate::money::line_total;
use crate::money::line_total_spec;
use crate::money::vat_amount;
use crate::money::vat_spec;
use crate::utils::BuyerDetails;

/// One invoice line: the item billed, its unit price in minor currency
/// units, the quantity in hundredths of a unit, the VAT rate in basis
/// points, the line's date as `YYYY-MM-DD`, and the seller it came from.
pub struct InvoiceLine {
    pub item: String,
    pub price: u32,
    pub qty: u32,
    pub vat_rate: u16,
    pub date: String,
    pub seller: String,
}

/// The mathematical value of an invoice line.
pub ghost struct InvoiceLineV {
    pub item: Seq<char>,
    pub price: u32,
    pub qty: u32,
    pub vat_rate: u16,
    pub date: Seq<char>,
    pub seller: Seq<char>,
}

impl View for InvoiceLine {
    type V = InvoiceLineV;

    open spec fn view(&self) -> InvoiceLineV {
        InvoiceLineV {
            item: self.item@,
            price: self.price,
            qty: self.qty,
            vat_rate: self.vat_rate,
            date: self.date@,
            seller: self.seller@,
        }
    }
}

impl DeepView for InvoiceLine {
    type V = InvoiceLineV;

    open spec fn deep_view(&self) -> InvoiceLineV {
        self.view()
    }
}

impl Clone for InvoiceLine {
    /// Clones the line, field for field.
    fn clone(&self) -> (r: Self)
        ensures
            r == *self,
    {
        InvoiceLine {
            item: self.item.clone(),
            price: self.price,
            qty: self.qty,
            vat_rate: self.vat_rate,
            date: self.date.clone(),
            seller: self.seller.clone(),
        }
    }
}

/// An invoice for a buyer: the buyer's details, the invoice and due dates
/// as `YYYY-MM-DD`, the reference, and the invoice lines.
pub struct Invoice {
    pub buyer: BuyerDetails,
    pub date: String,
    pub due_date: String,
    pub reference: String,
    pub lines: Vec<InvoiceLine>,
}

/// The grouping key of an invoice line: its seller.
pub open spec fn inv_by_seller() -> spec_fn(InvoiceLineV) -> Seq<char> {
    |l: InvoiceLineV| l.seller
}

/// The value an invoice line contributes to the subtotal: its line total.
pub open spec fn inv_line_total() -> spec_fn(InvoiceLineV) -> int {
    |l: InvoiceLineV| line_total_spec(l.price, l.qty) as int
}

/// The VAT an invoice line contributes: its line total taxed at its rate.
pub open spec fn inv_line_vat() -> spec_fn(InvoiceLineV) -> int {
    |l: InvoiceLineV| vat_spec(line_total_spec(l.price, l.qty), l.vat_rate) as int
}

/// The chronological sort key of a line's date; lines are required to
/// carry valid dates before they are sorted.
pub open spec fn line_date_key(l: InvoiceLineV) -> int {
    match parse_date_spec(l.date) {
        Some(d) => d.key_spec(),
        None => 0,
    }
}

/// Every line's date parses as a valid `YYYY-MM-DD` date.
pub open spec fn dates_valid(ls: Seq<InvoiceLineV>) -> bool {
    forall|i: int| 0 <= i < ls.len() ==> parse_date_spec((#[trigger] ls[i]).date) is Some
}

/// `l` inserted into `s` after every line whose date is not later: the
/// insertion step of a stable chronological sort.
pub open spec fn insert_sorted(s: Seq<InvoiceLineV>, l: InvoiceLineV) -> Seq<InvoiceLineV>
    decreases s.len(),
{
    if s.len() == 0 {
        seq![l]
    } else if line_date_key(s.last()) <= line_date_key(l) {
        s.push(l)
    } else {
        insert_sorted(s.drop_last(), l).push(s.last())
    }
}

/// `s` sorted by date, stably: lines with equal dates keep their original
/// order, so the output is a deterministic function of the input.
pub open spec fn sort_by_date(s: Seq<InvoiceLineV>) -> Seq<InvoiceLineV>
    decreases s.len(),
{
    if s.len() == 0 {
        Seq::<InvoiceLineV>::empty()
    } else {
        insert_sorted(sort_by_date(s.drop_last()), s.last())
    }
}

/// Chronologically ordered by date key.
pub open spec fn sorted_by_date(s: Seq<InvoiceLineV>) -> bool {
    forall|i: int, j: int|
        0 <= i < j < s.len() ==> line_date_key(#[trigger] s[i]) <= line_date_key(#[trigger] s[j])
}

proof fn lemma_insert_sorted_sorted(s: Seq<InvoiceLineV>, l: InvoiceLineV)
    requires
        sorted_by_date(s),
    ensures
        sorted_by_date(insert_sorted(s, l)),
        insert_sorted(s, l).len() == s.len() + 1,
        insert_sorted(s, l).to_multiset() == s.to_multiset().insert(l),
    decreases s.len(),
{
    broadcast use vstd::seq_lib::group_to_multiset_ensures;

    if s.len() == 0 {
        assert(insert_sorted(s, l) =~= Seq::<InvoiceLineV>::empty().push(l));
        assert(Seq::<InvoiceLineV>::empty().push(l).to_multiset() =~= s.to_multiset().insert(l));
    } else if line_date_key(s.last()) <= line_date_key(l) {
        let r = s.push(l);
        assert(s[s.len() - 1] == s.last());
        assert forall|i: int, j: int|
            0 <= i < j < r.len() implies line_date_key(#[trigger] r[i]) <= line_date_key(
            #[trigger] r[j],
        ) by {
            if j < s.len() {
                assert(r[i] == s[i] && r[j] == s[j]);
            } else {
                assert(r[j] == l);
                if i < s.len() - 1 {
                    assert(line_date_key(s[i]) <= line_date_key(s[s.len() - 1]));
                }
            }
        }
    } else {
        let s0 = s.drop_last();
        assert(sorted_by_date(s0)) by {
            assert(forall|i: int, j: int|
                0 <= i < j < s0.len() ==> line_date_key(#[trigger] s0[i]) <= line_date_key(
                    #[trigger] s0[j],
                ));
        }
        lemma_insert_sorted_sorted(s0, l);
        let r0 = insert_sorted(s0, l);
        let r = r0.push(s.last());
        // the shifted last element still tops everything before it
        assert forall|i: int, j: int|
            0 <= i < j < r.len() implies line_date_key(#[trigger] r[i]) <= line_date_key(
            #[trigger] r[j],
        ) by {
            if j < r0.len() {
                assert(r[i] == r0[i] && r[j] == r0[j]);
            } else {
                assert(r[j] == s.last());
                assert(r[i] == r0[i]);
                // every element of r0 is an old element of s0 or l, and both
                // are bounded by the removed last element
                assert(r0.to_multiset().contains(r0[i]));
                assert(s0.to_multiset().insert(l).contains(r0[i]));
                if s0.to_multiset().contains(r0[i]) {
                    assert(s0.contains(r0[i]));
                    let k = choose|k: int| 0 <= k < s0.len() && s0[k] == r0[i];
                    assert(s[k] == s0[k]);
                    assert(s[s.len() - 1] == s.last());
                    assert(line_date_key(s[k]) <= line_date_key(s.last()));
                } else {
                    assert(r0[i] == l);
                }
            }
        }
        assert(r.to_multiset() =~= s.to_multiset().insert(l)) by {
            assert(s0.push(s.last()) =~= s);
            assert(s.to_multiset() == s0.to_multiset().insert(s.last()));
            assert(r.to_multiset() == r0.to_multiset().insert(s.last()));
            assert(r0.to_multiset() == s0.to_multiset().insert(l));
            assert(s0.to_multiset().insert(l).insert(s.last()) =~= s0.to_multiset().insert(
                s.last(),
            ).insert(l));
        }
    }
}

/// Law: sorting by date leaves the lines themselves untouched — the result
/// is chronologically ordered, has the same length, and holds exactly the
/// same lines.
pub proof fn lemma_sort_by_date_permutes(s: Seq<InvoiceLineV>)
    ensures
        sorted_by_date(sort_by_date(s)),
        sort_by_date(s).len() == s.len(),
        sort_by_date(s).to_multiset() == s.to_multiset(),
    decreases s.len(),
{
    broadcast use vstd::seq_lib::group_to_multiset_ensures;

    if s.len() > 0 {
        let s0 = s.drop_last();
        lemma_sort_by_date_permutes(s0);
        lemma_insert_sorted_sorted(sort_by_date(s0), s.last());
        assert(s0.push(s.last()) =~= s);
        assert(s.to_multiset() == s0.to_multiset().insert(s.last()));
    }
}

/// Where a line belongs among already-placed lines: after every line with
/// an earlier-or-equal date and before every strictly later one.
proof fn lemma_insert_at(s: Seq<InvoiceLineV>, l: InvoiceLineV, j: int)
    requires
        0 <= j <= s.len(),
        forall|k: int| j <= k < s.len() ==> line_date_key(#[trigger] s[k]) > line_date_key(l),
        j > 0 ==> line_date_key(s[j - 1]) <= line_date_key(l),
    ensures
        insert_sorted(s, l) == s.take(j) + seq![l] + s.skip(j),
    decreases s.len(),
{
    if j == s.len() {
        if s.len() == 0 {
            assert(insert_sorted(s, l) =~= s.take(j) + seq![l] + s.skip(j));
        } else {
            assert(s[j - 1] == s.last());
            assert(insert_sorted(s, l) == s.push(l));
            assert(s.push(l) =~= s.take(j) + seq![l] + s.skip(j));
        }
    } else {
        assert(s[s.len() - 1] == s.last());
        assert(line_date_key(s.last()) > line_date_key(l));
        let s0 = s.drop_last();
        assert(forall|k: int|
            j <= k < s0.len() ==> line_date_key(#[trigger] s0[k]) > line_date_key(l)) by {
            assert(forall|k: int| 0 <= k < s0.len() ==> #[trigger] s0[k] == s[k]);
        }
        if j > 0 {
            assert(s0[j - 1] == s[j - 1]);
        }
        lemma_insert_at(s0, l, j);
        assert(insert_sorted(s, l) == insert_sorted(s0, l).push(s.last()));
        assert((s0.take(j) + seq![l] + s0.skip(j)).push(s.last()) =~= s.take(j) + seq![l] + s.skip(
            j,
        ));
    }
}

/// Computes a line's chronological sort key.
fn line_date_key_exec(l: &InvoiceLine) -> (k: u32)
    requires
        parse_date_spec(l.date@) is Some,
    ensures
        k == line_date_key(l@),
{
    let d = date_as_value(l.date.as_str());
    d.key()
}

/// Sorts an invoice's lines into chronological order, stably: lines with
/// equal dates keep their original order.
#[verifier::loop_isolation(false)]
#[verifier::rlimit(30)]
pub fn order_invoice_lines_by_date(lines: &mut Vec<InvoiceLine>)
    requires
        dates_valid(old(lines).deep_view()),
    ensures
        final(lines).deep_view() == sort_by_date(old(lines).deep_view()),
{
    let ghost lv = old(lines).deep_view();
    let mut out: Vec<InvoiceLine> = Vec::new();
    let mut i: usize = 0;
    proof {
        assert(lv.take(0) =~= Seq::<InvoiceLineV>::empty());
        assert(forall|k: int| 0 <= k < lv.len() ==> lv[k] == #[trigger] lines@[k].deep_view());
    }
    while i < lines.len()
        invariant
            i <= lv.len(),
            out.deep_view() == sort_by_date(lv.take(i as int)),
            dates_valid(out.deep_view()),
        decreases lv.len() - i,
    {
        let l = lines[i].clone();
        proof {
            assert(l.deep_view() == lv[i as int]);
            assert(parse_date_spec(lv[i as int].date) is Some);
        }
        let kl = line_date_key_exec(&l);
        let ghost dv = out.deep_view();
        proof {
            assert forall|k: int|
                0 <= k < out@.len() implies parse_date_spec(
                (#[trigger] out@[k]).deep_view().date,
            ) is Some by {
                assert(dv[k] == out@[k].deep_view());
                assert(parse_date_spec(dv[k].date) is Some);
            }
        }
        let mut j: usize = out.len();
        while j > 0 && line_date_key_exec(&out[j - 1]) > kl
            invariant
                j <= dv.len(),
                dv == out.deep_view(),
                dates_valid(dv),
                forall|k: int|
                    0 <= k < out@.len() ==> parse_date_spec(
                        (#[trigger] out@[k]).deep_view().date,
                    ) is Some,
                forall|k: int|
                    j <= k < dv.len() ==> line_date_key(#[trigger] dv[k]) > line_date_key(
                        lv[i as int],
                    ),
            decreases j,
        {
            j = j - 1;
        }
        let ghost prev = out@;
        out.insert(j, l);
        proof {
            prev.insert_ensures(j as int, l);
            let dv1 = out.deep_view();
            assert(dv1.len() == dv.len() + 1);
            assert forall|k: int|
                0 <= k < dv1.len() implies dv1[k] == (dv.take(j as int) + seq![lv[i as int]]
                + dv.skip(j as int))[k] by {
                if k < j {
                    assert(out@[k] == prev[k]);
                    assert(dv[k] == prev[k].deep_view());
                } else if k == j {
                    assert(out@[k] == l);
                } else {
                    assert(out@[k] == prev[k - 1]);
                    assert(dv[k - 1] == prev[k - 1].deep_view());
                }
            }
            assert(dv1 =~= dv.take(j as int) + seq![lv[i as int]] + dv.skip(j as int));
            lemma_insert_at(dv, lv[i as int], j as int);
            assert(lv.take(i + 1).drop_last() =~= lv.take(i as int));
            assert(lv.take(i + 1).last() == lv[i as int]);
            assert(dv1 == sort_by_date(lv.take(i + 1)));
            assert forall|k: int|
                0 <= k < dv1.len() implies parse_date_spec((#[trigger] dv1[k]).date) is Some by {
                if k < j {
                    assert(dv1[k] == dv[k]);
                } else if k == j {
                    assert(dv1[k] == lv[i as int]);
                } else {
                    assert(dv1[k] == dv[k - 1]);
                }
            }
        }
        i = i + 1;
    }
    proof {
        assert(lv.take(lv.len() as int) =~= lv);
    }
    *lines = out;
}


/// Removing one element takes exactly its value out of the sum.
proof fn lemma_sum_by_remove<L>(s: Seq<L>, j: int, f: spec_fn(L) -> int)
    requires
        0 <= j < s.len(),
    ensures
        sum_by(s, f) == sum_by(s.remove(j), f) + f(s[j]),
    decreases s.len(),
{
    if j == s.len() - 1 {
        assert(s.remove(j) =~= s.drop_last());
        assert(s[j] == s.last());
    } else {
        let s0 = s.drop_last();
        lemma_sum_by_remove(s0, j, f);
        assert(s0[j] == s[j]);
        assert(s.remove(j) =~= s0.remove(j).push(s.last()));
        assert(sum_by(s.remove(j), f) == sum_by(s0.remove(j), f) + f(s.last())) by {
            assert(s0.remove(j).push(s.last()).drop_last() =~= s0.remove(j));
            assert(s0.remove(j).push(s.last()).last() == s.last());
        }
    }
}

/// Sequences holding the same lines have the same sum, whatever their
/// order.
proof fn lemma_sum_by_multiset<L>(a: Seq<L>, b: Seq<L>, f: spec_fn(L) -> int)
    requires
        a.to_multiset() == b.to_multiset(),
    ensures
        sum_by(a, f) == sum_by(b, f),
    decreases a.len(),
{
    broadcast use vstd::seq_lib::group_to_multiset_ensures;

    if a.len() == 0 {
        assert(a.to_multiset().len() == a.len());
        assert(b.to_multiset().len() == b.len());
        assert(b.len() == 0);
    } else {
        let x = a.last();
        assert(a[a.len() - 1] == x);
        assert(a.to_multiset().contains(x));
        assert(b.to_multiset().contains(x));
        assert(b.contains(x));
        let j = choose|j: int| 0 <= j < b.len() && b[j] == x;
        let a0 = a.drop_last();
        let b2 = b.remove(j);
        assert(a0.push(x) =~= a);
        assert(a.to_multiset() == a0.to_multiset().insert(x));
        assert(b2.to_multiset() == b.to_multiset().remove(x));
        assert(a0.to_multiset() =~= b2.to_multiset()) by {
            assert(a0.to_multiset().insert(x).remove(x) =~= a0.to_multiset());
        }
        lemma_sum_by_multiset(a0, b2, f);
        lemma_sum_by_remove(b, j, f);
    }
}

/// Law: sorting by date does not change a sum over the lines.
pub proof fn lemma_sort_preserves_sum(s: Seq<InvoiceLineV>, f: spec_fn(InvoiceLineV) -> int)
    ensures
        sum_by(sort_by_date(s), f) == sum_by(s, f),
{
    lemma_sort_by_date_permutes(s);
    lemma_sum_by_multiset(sort_by_date(s), s, f);
}

/// Every line of one key's group carries a valid date when all lines do.
proof fn lemma_group_dates_valid(lv: Seq<InvoiceLineV>, k: Seq<char>)
    requires
        dates_valid(lv),
    ensures
        dates_valid(group_lines(lv, inv_by_seller(), k)),
{
    let g = group_lines(lv, inv_by_seller(), k);
    assert forall|i: int|
        0 <= i < g.len() implies parse_date_spec((#[trigger] g[i]).date) is Some by {
        lemma_filter_elem(lv, key_is(inv_by_seller(), k), i);
        assert(lv.contains(g[i]));
        let j = choose|j: int| 0 <= j < lv.len() && lv[j] == g[i];
        assert(parse_date_spec(lv[j].date) is Some);
    }
}

/// One seller's group within an invoice: the seller and that seller's
/// lines in chronological order.
pub struct InvoiceGroup {
    pub seller: String,
    pub lines: Vec<InvoiceLine>,
}

/// The mathematical value of an invoice group.
pub ghost struct InvoiceGroupV {
    pub seller: Seq<char>,
    pub lines: Seq<InvoiceLineV>,
}

impl View for InvoiceGroup {
    type V = InvoiceGroupV;

    open spec fn view(&self) -> InvoiceGroupV {
        InvoiceGroupV { seller: self.seller@, lines: self.lines.deep_view() }
    }
}

impl DeepView for InvoiceGroup {
    type V = InvoiceGroupV;

    open spec fn deep_view(&self) -> InvoiceGroupV {
        self.view()
    }
}

/// True when `gs` is exactly the grouping of `lv` by seller, in first-seen
/// order, each group's lines sorted chronologically.
pub open spec fn grouped_by_seller_sorted(gs: Seq<InvoiceGroupV>, lv: Seq<InvoiceLineV>) -> bool {
    &&& gs.len() == keys_of(lv, inv_by_seller()).len()
    &&& forall|gi: int|
        0 <= gi < gs.len() ==> {
            &&& (#[trigger] gs[gi]).seller == keys_of(lv, inv_by_seller())[gi]
            &&& gs[gi].lines == sort_by_date(group_lines(lv, inv_by_seller(), gs[gi].seller))
        }
}

/// Groups an invoice's lines by seller in first-seen order and sorts each
/// group's lines chronologically.
#[verifier::loop_isolation(false)]
#[verifier::rlimit(30)]
pub fn group_by_seller(lines: &Vec<InvoiceLine>) -> (r: Vec<InvoiceGroup>)
    requires
        dates_valid(lines.deep_view()),
    ensures
        grouped_by_seller_sorted(r.deep_view(), lines.deep_view()),
{
    let ghost lv = lines.deep_view();
    let ghost key = inv_by_seller();
    let mut groups: Vec<InvoiceGroup> = Vec::new();
    let mut i: usize = 0;
    proof {
        assert(lv.take(0) =~= Seq::<InvoiceLineV>::empty());
        assert(lv.len() == lines@.len());
        assert(forall|k: int| 0 <= k < lv.len() ==> lv[k] == #[trigger] lines@[k].deep_view());
    }
    while i < lines.len()
        invariant
            i <= lv.len(),
            groups.deep_view().len() == keys_of(lv.take(i as int), key).len(),
            forall|gi: int|
                0 <= gi < groups.deep_view().len() ==> {
                    &&& (#[trigger] groups.deep_view()[gi]).seller == keys_of(
                        lv.take(i as int),
                        key,
                    )[gi]
                    &&& groups.deep_view()[gi].lines == group_lines(
                        lv.take(i as int),
                        key,
                        groups.deep_view()[gi].seller,
                    )
                },
        decreases lv.len() - i,
    {
        let l = &lines[i];
        let ghost p = lv.take(i as int);
        let ghost p1 = lv.take(i + 1);
        let ghost dv = groups.deep_view();
        proof {
            assert(p1.drop_last() =~= p);
            assert(p1.last() == lv[i as int]);
            assert(p1 =~= p.push(lv[i as int]));
            assert(l.deep_view() == lv[i as int]);
            lemma_keys_of_distinct(p, key);
        }
        let n_g = groups.len();
        let mut j: usize = 0;
        while j < n_g && !groups[j].seller.eq(&l.seller)
            invariant
                j <= n_g,
                n_g == dv.len(),
                dv == groups.deep_view(),
                forall|k: int| 0 <= k < j ==> (#[trigger] dv[k]).seller != lv[i as int].seller,
            decreases n_g - j,
        {
            j = j + 1;
        }
        if j < n_g {
            // the seller already heads a group: the line joins it
            proof {
                assert(dv[j as int].seller == lv[i as int].seller);
                assert(keys_of(p, key)[j as int] == lv[i as int].seller);
                assert(keys_of(p, key).contains(lv[i as int].seller));
                assert(keys_of(p1, key) == keys_of(p, key));
            }
            groups[j].lines.push(l.clone());
            proof {
                let dv1 = groups.deep_view();
                assert(dv1.len() == dv.len());
                assert(forall|k: int|
                    0 <= k < dv.len() && k != j ==> #[trigger] dv1[k] == dv[k]);
                assert(dv1[j as int].seller == dv[j as int].seller);
                assert(dv1[j as int].lines =~= dv[j as int].lines.push(lv[i as int]));
                assert forall|gi: int| 0 <= gi < dv1.len() implies {
                    &&& (#[trigger] dv1[gi]).seller == keys_of(p1, key)[gi]
                    &&& dv1[gi].lines == group_lines(p1, key, dv1[gi].seller)
                } by {
                    lemma_filter_push(p, key_is(key, dv1[gi].seller), lv[i as int]);
                    if gi == j {
                        assert(key_is(key, dv1[gi].seller)(lv[i as int]));
                    } else {
                        assert(dv[gi].seller != dv[j as int].seller) by {
                            assert(keys_of(p, key)[gi] != keys_of(p, key)[j as int]);
                        }
                        assert(!key_is(key, dv1[gi].seller)(lv[i as int]));
                    }
                }
            }
        } else {
            // a new seller: a new group opens with this line
            proof {
                assert forall|k: int|
                    0 <= k < keys_of(p, key).len() implies #[trigger] keys_of(p, key)[k] != lv[
                    i as int
                ].seller by {
                    assert(dv[k].seller == keys_of(p, key)[k]);
                    assert(dv[k].seller != lv[i as int].seller);
                }
                assert(!keys_of(p, key).contains(lv[i as int].seller));
                assert(keys_of(p1, key) == keys_of(p, key).push(lv[i as int].seller));
                lemma_keys_of_contains(p, key, lv[i as int].seller);
                lemma_filter_none(p, key_is(key, lv[i as int].seller));
            }
            let mut nl: Vec<InvoiceLine> = Vec::new();
            nl.push(l.clone());
            groups.push(InvoiceGroup { seller: l.seller.clone(), lines: nl });
            proof {
                let dv1 = groups.deep_view();
                assert(dv1.len() == dv.len() + 1);
                assert(forall|k: int| 0 <= k < dv.len() ==> #[trigger] dv1[k] == dv[k]);
                assert(dv1[dv.len() as int].seller == lv[i as int].seller);
                assert(dv1[dv.len() as int].lines =~= Seq::<InvoiceLineV>::empty().push(
                    lv[i as int],
                ));
                assert forall|gi: int| 0 <= gi < dv1.len() implies {
                    &&& (#[trigger] dv1[gi]).seller == keys_of(p1, key)[gi]
                    &&& dv1[gi].lines == group_lines(p1, key, dv1[gi].seller)
                } by {
                    lemma_filter_push(p, key_is(key, dv1[gi].seller), lv[i as int]);
                    if gi == dv.len() {
                        assert(key_is(key, dv1[gi].seller)(lv[i as int]));
                        assert(group_lines(p, key, dv1[gi].seller)
                            =~= Seq::<InvoiceLineV>::empty());
                    } else {
                        assert(dv1[gi].seller == keys_of(p, key)[gi]);
                        assert(!key_is(key, dv1[gi].seller)(lv[i as int]));
                        assert(keys_of(p1, key)[gi] == keys_of(p, key)[gi]);
                    }
                }
            }
        }
        i = i + 1;
    }
    proof {
        assert(lv.take(lv.len() as int) =~= lv);
    }
    // sort each group chronologically
    let ghost dv0 = groups.deep_view();
    let n_g = groups.len();
    let mut gi: usize = 0;
    while gi < n_g
        invariant
            gi <= n_g,
            n_g == groups.deep_view().len(),
            groups.deep_view().len() == dv0.len(),
            forall|k: int|
                gi <= k < dv0.len() ==> #[trigger] groups.deep_view()[k] == dv0[k],
            forall|k: int|
                0 <= k < gi ==> {
                    &&& (#[trigger] groups.deep_view()[k]).seller == dv0[k].seller
                    &&& groups.deep_view()[k].lines == sort_by_date(dv0[k].lines)
                },
        decreases n_g - gi,
    {
        proof {
            assert(groups.deep_view()[gi as int] == dv0[gi as int]);
            assert(dv0[gi as int].lines == group_lines(lv, key, dv0[gi as int].seller));
            lemma_group_dates_valid(lv, dv0[gi as int].seller);
        }
        let ghost pre = groups@;
        let ghost predv = groups.deep_view();
        order_invoice_lines_by_date(&mut groups[gi].lines);
        proof {
            let dvn = groups.deep_view();
            assert(groups@.len() == pre.len());
            assert(forall|k: int| 0 <= k < pre.len() && k != gi ==> groups@[k] == pre[k]);
            assert(forall|k: int|
                0 <= k < pre.len() && k != gi ==> #[trigger] dvn[k] == predv[k]);
            assert(groups@[gi as int].seller == pre[gi as int].seller);
            assert(dvn[gi as int].seller == predv[gi as int].seller);
            assert(dvn[gi as int].lines == sort_by_date(predv[gi as int].lines));
        }
        gi = gi + 1;
    }
    groups
}

/// Sums the line totals of one seller's lines within an invoice.
#[verifier::loop_isolation(false)]
pub fn total_per_seller_in_invoice(lines: &Vec<InvoiceLine>) -> (t: u128)
    ensures
        t == sum_by(lines.deep_view(), inv_line_total()),
{
    let ghost lv = lines.deep_view();
    let ghost f = inv_line_total();
    let mut acc: u128 = 0;
    let mut i: usize = 0;
    proof {
        assert(lv.take(0) =~= Seq::<InvoiceLineV>::empty());
        assert(forall|k: int| 0 <= k < lv.len() ==> lv[k] == #[trigger] lines@[k].deep_view());
    }
    while i < lines.len()
        invariant
            i <= lv.len(),
            acc == sum_by(lv.take(i as int), f),
            acc <= (i as int) * (LINE_TOTAL_BOUND as int),
        decreases lv.len() - i,
    {
        let lt = line_total(lines[i].price, lines[i].qty);
        proof {
            assert(lv.take(i + 1).drop_last() =~= lv.take(i as int));
            assert(lv.take(i + 1).last() == lv[i as int]);
            assert(f(lv[i as int]) == line_total_spec(lv[i as int].price, lv[i as int].qty));
            assert((i as int) * (LINE_TOTAL_BOUND as int) + (LINE_TOTAL_BOUND as int) == (i + 1)
                * (LINE_TOTAL_BOUND as int)) by (nonlinear_arith);
            assert((i + 1) * (LINE_TOTAL_BOUND as int) <= 0x10000000000000000 * (
            LINE_TOTAL_BOUND as int)) by (nonlinear_arith)
                requires
                    i + 1 <= 0x10000000000000000,
            ;
        }
        acc = acc + lt as u128;
        i = i + 1;
    }
    proof {
        assert(lv.take(lv.len() as int) =~= lv);
    }
    acc
}

/// The summary block of an invoice: the subtotal of all lines, the VAT
/// computed per line and summed, and their sum as the total.
pub struct InvoiceSummary {
    pub total: u128,
    pub vat: u128,
    pub subtotal: u128,
}

impl InvoiceSummary {
    /// Computes an invoice's summary: `subtotal` is the sum of the line
    /// totals, `vat` the sum of the per-line VAT amounts, and `total`
    /// their sum.
    #[verifier::loop_isolation(false)]
    pub fn from_invoice(invoice: &Invoice) -> (s: InvoiceSummary)
        ensures
            s.subtotal == sum_by(invoice.lines.deep_view(), inv_line_total()),
            s.vat == sum_by(invoice.lines.deep_view(), inv_line_vat()),
            s.total == s.subtotal + s.vat,
    {
        let ghost lv = invoice.lines.deep_view();
        let ghost ft = inv_line_total();
        let ghost fv = inv_line_vat();
        let mut subtotal: u128 = 0;
        let mut vat: u128 = 0;
        let mut i: usize = 0;
        proof {
            assert(lv.take(0) =~= Seq::<InvoiceLineV>::empty());
            assert(forall|k: int|
                0 <= k < lv.len() ==> lv[k] == #[trigger] invoice.lines@[k].deep_view());
        }
        while i < invoice.lines.len()
            invariant
                i <= lv.len(),
                subtotal == sum_by(lv.take(i as int), ft),
                vat == sum_by(lv.take(i as int), fv),
                subtotal <= (i as int) * (LINE_TOTAL_BOUND as int),
                vat <= (i as int) * (7 * LINE_TOTAL_BOUND as int),
            decreases lv.len() - i,
        {
            let line = &invoice.lines[i];
            let lt = line_total(line.price, line.qty);
            let lv_amount = vat_amount(lt, line.vat_rate);
            proof {
                assert(lv.take(i + 1).drop_last() =~= lv.take(i as int));
                assert(lv.take(i + 1).last() == lv[i as int]);
                assert(ft(lv[i as int]) == line_total_spec(lv[i as int].price, lv[i as int].qty));
                assert(fv(lv[i as int]) == vat_spec(
                    line_total_spec(lv[i as int].price, lv[i as int].qty),
                    lv[i as int].vat_rate,
                ));
                assert((i as int) * (LINE_TOTAL_BOUND as int) + (LINE_TOTAL_BOUND as int) == (i
                    + 1) * (LINE_TOTAL_BOUND as int)) by (nonlinear_arith);
                assert((i as int) * (7 * LINE_TOTAL_BOUND as int) + (7 * LINE_TOTAL_BOUND as int)
                    == (i + 1) * (7 * LINE_TOTAL_BOUND as int)) by (nonlinear_arith);
                assert((i + 1) * (LINE_TOTAL_BOUND as int) <= 0x10000000000000000 * (
                LINE_TOTAL_BOUND as int)) by (nonlinear_arith)
                    requires
                        i + 1 <= 0x10000000000000000,
                ;
                assert((i + 1) * (7 * LINE_TOTAL_BOUND as int) <= 0x10000000000000000 * (7
                    * LINE_TOTAL_BOUND as int)) by (nonlinear_arith)
                    requires
                        i + 1 <= 0x10000000000000000,
                ;
            }
            subtotal = subtotal + lt as u128;
            vat = vat + lv_amount as u128;
            i = i + 1;
        }
        proof {
            assert(lv.take(lv.len() as int) =~= lv);
        }
        proof {
            assert(subtotal + vat < 0x100000000000000000000000000000000) by (nonlinear_arith)
                requires
                    subtotal <= (i as int) * (LINE_TOTAL_BOUND as int),
                    vat <= (i as int) * (7 * LINE_TOTAL_BOUND as int),
                    i <= 0xffffffffffffffffu64,
                    LINE_TOTAL_BOUND == 0x400000000000000u64,
            ;
        }
        let total = subtotal + vat;
        InvoiceSummary { total, vat, subtotal }
    }
}

/// Law: an invoice's subtotal equals the sum of its seller groups'
/// subtotals — grouping loses no line and counts none twice.
pub proof fn lemma_invoice_total_is_group_total(lv: Seq<InvoiceLineV>)
    ensures
        groups_sum(lv, keys_of(lv, inv_by_seller()), inv_by_seller(), inv_line_total()) == sum_by(
            lv,
            inv_line_total(),
        ),
{
    lemma_partition(lv, inv_by_seller(), inv_line_total());
}

/// The per-group row counts handed to the pagination engine.
pub open spec fn invoice_group_counts(gs: Seq<InvoiceGroupV>) -> Seq<usize> {
    Seq::new(gs.len(), |i: int| gs[i].lines.len() as usize)
}

/// The page heights and offsets of a VAT invoice document.
pub open spec fn invoice_layout_spec() -> LayoutConfig {
    LayoutConfig {
        first_start: 203,
        page_top: 277,
        bottom_threshold: 30,
        header_gap: 7,
        group_gap: 3,
        label_gap: 7,
        row_height: 6,
        totals_height: 20,
    }
}

/// Builds the invoice layout configuration.
pub fn invoice_layout() -> (c: LayoutConfig)
    ensures
        c == invoice_layout_spec(),
        c.wf(),
{
    LayoutConfig {
        first_start: 203,
        page_top: 277,
        bottom_threshold: 30,
        header_gap: 7,
        group_gap: 3,
        label_gap: 7,
        row_height: 6,
        totals_height: 20,
    }
}

/// A fully laid-out invoice: its seller groups in chronological order, the
/// draw instructions that place them on pages, the cursor after the
/// summary block, and the summary itself.
pub struct InvoicePlan {
    pub groups: Vec<InvoiceGroup>,
    pub ops: Vec<LayoutOp>,
    pub end_y: u32,
    pub summary: InvoiceSummary,
}

/// Builds the invoice document plan: groups the lines by seller with each
/// group in date order, lays the grouped table out across pages, and
/// computes the summary.
pub fn plan_invoice(invoice: &Invoice) -> (p: InvoicePlan)
    requires
        dates_valid(invoice.lines.deep_view()),
    ensures
        grouped_by_seller_sorted(p.groups.deep_view(), invoice.lines.deep_view()),
        p.ops@ == spec_layout(invoice_group_counts(p.groups.deep_view()), invoice_layout_spec()).0,
        p.end_y == spec_layout(
            invoice_group_counts(p.groups.deep_view()),
            invoice_layout_spec(),
        ).1,
        p.summary.subtotal == sum_by(invoice.lines.deep_view(), inv_line_total()),
        p.summary.vat == sum_by(invoice.lines.deep_view(), inv_line_vat()),
        p.summary.total == p.summary.subtotal + p.summary.vat,
{
    let groups = group_by_seller(&invoice.lines);
    let mut counts: Vec<usize> = Vec::new();
    let mut gi: usize = 0;
    while gi < groups.len()
        invariant
            gi <= groups@.len(),
            counts@.len() == gi,
            forall|k: int|
                0 <= k < gi ==> counts@[k] == (#[trigger] groups.deep_view()[k]).lines.len(),
        decreases groups@.len() - gi,
    {
        counts.push(groups[gi].lines.len());
        gi = gi + 1;
    }
    proof {
        assert(counts@ =~= invoice_group_counts(groups.deep_view()));
    }
    let cfg = invoice_layout();
    let (ops, end_y) = paginate(&counts, &cfg);
    let summary = InvoiceSummary::from_invoice(invoice);
    InvoicePlan { groups, ops, end_y, summary }
}


/// The object key an invoice is stored under: the document kind, the
/// buyer's account number and name, and the invoice date.
pub fn invoice_object_key(invoice: &Invoice) -> (r: String)
    ensures
        r@ == "Invoice "@ + invoice.buyer.number@ + " "@ + invoice.buyer.name@ + " "@
            + invoice.date@ + ".pdf"@,
{
    let mut s = String::from_str("Invoice ");
    s.append(invoice.buyer.number.as_str());
    s.append(" ");
    s.append(invoice.buyer.name.as_str());
    s.append(" ");
    s.append(invoice.date.as_str());
    s.append(".pdf");
    proof {
        assert(s@ =~= "Invoice "@ + invoice.buyer.number@ + " "@ + invoice.buyer.name@ + " "@
            + invoice.date@ + ".pdf"@);
    }
    s
}

} // verus!
