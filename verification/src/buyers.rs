//! Buyer column resolution.
//!
//! The header row carries a marker cell (`"BUYERS:"`); every non-empty
//! header cell after it names a buyer, whose column offset is that cell's
//! position in the row.

use vstd::prelude::*;

verus! {

use vstd::string::StringExecFns;
use crate::errors::InputError;

/// A buyer column: the buyer's name and the column offset its quantities
/// stand in.
pub struct Buyer {
    pub name: String,
    pub index: usize,
}

/// The mathematical value of a buyer column.
pub ghost struct BuyerV {
    pub name: Seq<char>,
    pub index: int,
}

impl View for Buyer {
    type V = BuyerV;

    open spec fn view(&self) -> BuyerV {
        BuyerV { name: self.name@, index: self.index as int }
    }
}

impl DeepView for Buyer {
    type V = BuyerV;

    open spec fn deep_view(&self) -> BuyerV {
        self.view()
    }
}

/// The index of the first header cell that is the buyer marker, or `-1`
/// when there is none.
pub open spec fn marker_index(hs: Seq<Seq<char>>) -> int
    decreases hs.len(),
{
    if hs.len() == 0 {
        -1
    } else if hs[0] == "BUYERS:"@ {
        0
    } else {
        let r = marker_index(hs.drop_first());
        if r < 0 {
            -1
        } else {
            r + 1
        }
    }
}

proof fn lemma_marker_at(hs: Seq<Seq<char>>, p: int)
    requires
        0 <= p < hs.len(),
        hs[p] == "BUYERS:"@,
        forall|k: int| 0 <= k < p ==> hs[k] != "BUYERS:"@,
    ensures
        marker_index(hs) == p,
    decreases p,
{
    if p > 0 {
        lemma_marker_at(hs.drop_first(), p - 1);
    }
}

proof fn lemma_marker_none(hs: Seq<Seq<char>>)
    requires
        forall|k: int| 0 <= k < hs.len() ==> hs[k] != "BUYERS:"@,
    ensures
        marker_index(hs) == -1,
    decreases hs.len(),
{
    if hs.len() > 0 {
        lemma_marker_none(hs.drop_first());
    }
}

/// The buyers standing at or after position `j`: one per non-empty header
/// cell, keeping the row's order, each with its column offset.
pub open spec fn buyers_from(hs: Seq<Seq<char>>, j: int) -> Seq<BuyerV>
    decreases hs.len() - j,
{
    if j >= hs.len() {
        Seq::<BuyerV>::empty()
    } else {
        let rest = buyers_from(hs, j + 1);
        if hs[j].len() > 0 {
            seq![BuyerV { name: hs[j], index: j }] + rest
        } else {
            rest
        }
    }
}

/// Scans the header row for the buyer marker and enumerates the buyers
/// after it. Returns the ordered buyers and the marker's column, or
/// [`InputError::MissingMarker`] when no header cell is the marker — fatal,
/// since no buyer column can be located then.
#[verifier::loop_isolation(false)]
pub fn get_buyers(headers: &Vec<String>) -> (r: Result<(Vec<Buyer>, usize), InputError>)
    ensures
        match r {
            Ok(bs) => {
                &&& marker_index(headers.deep_view()) == bs.1
                &&& headers.deep_view()[bs.1 as int] == "BUYERS:"@
                &&& bs.0.deep_view() == buyers_from(headers.deep_view(), bs.1 + 1)
            },
            Err(e) => marker_index(headers.deep_view()) == -1 && e == InputError::MissingMarker,
        },
{
    let ghost hs = headers.deep_view();
    proof {
        assert(hs.len() == headers@.len());
        assert(forall|k: int| 0 <= k < hs.len() ==> hs[k] == #[trigger] headers@[k]@);
    }
    let marker = String::from_str("BUYERS:");
    let n = headers.len();
    let mut start: usize = 0;
    let mut found = false;
    while start < n && !found
        invariant
            start <= n,
            !found ==> forall|k: int| 0 <= k < start ==> hs[k] != "BUYERS:"@,
            found ==> start < n && hs[start as int] == "BUYERS:"@ && forall|k: int|
                0 <= k < start ==> hs[k] != "BUYERS:"@,
        decreases n - start, if found { 0int } else { 1int },
    {
        if headers[start].eq(&marker) {
            found = true;
        } else {
            start = start + 1;
        }
    }
    if !found {
        proof {
            lemma_marker_none(hs);
        }
        return Err(InputError::MissingMarker);
    }
    proof {
        lemma_marker_at(hs, start as int);
    }
    let mut out: Vec<Buyer> = Vec::new();
    let mut j: usize = start + 1;
    proof {
        assert(buyers_from(hs, start + 1) =~= out.deep_view() + buyers_from(hs, start + 1));
    }
    while j < n
        invariant
            start + 1 <= j <= n,
            buyers_from(hs, start + 1) == out.deep_view() + buyers_from(hs, j as int),
        decreases n - j,
    {
        let ghost pre = out.deep_view();
        if headers[j].as_str().unicode_len() > 0 {
            out.push(Buyer { name: headers[j].clone(), index: j });
            proof {
                assert(out.deep_view() =~= pre + seq![BuyerV { name: hs[j as int], index: j as int }]);
                assert(buyers_from(hs, j as int) == seq![BuyerV { name: hs[j as int], index: j as int }]
                    + buyers_from(hs, j + 1));
                assert(out.deep_view() + buyers_from(hs, j + 1) =~= pre + buyers_from(hs, j as int));
            }
        } else {
            proof {
                assert(hs[j as int].len() == 0);
                assert(buyers_from(hs, j as int) == buyers_from(hs, j + 1));
            }
        }
        j = j + 1;
    }
    proof {
        assert(buyers_from(hs, n as int) =~= Seq::<BuyerV>::empty());
        assert(out.deep_view() + Seq::<BuyerV>::empty() =~= out.deep_view());
    }
    Ok((out, start))
}

} // verus!
