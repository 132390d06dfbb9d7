//! The generic pagination engine.
//!
//! A grouped table is laid out across fixed-height pages by a single
//! vertical cursor that starts at a document-specific offset and decreases
//! as units are placed. Before each unit the remaining space is checked
//! against the page-bottom threshold; when it does not suffice, the engine
//! emits a page break, resets the cursor to the page top, and re-emits the
//! table column-header block, so every page after the first begins with a
//! legible header rather than an orphaned row.
//!
//! The engine consumes only the number of line rows per group and emits
//! draw instructions ([`LayoutOp`]) that name groups and rows by position;
//! the caller pairs them back with its group contents and renders them. The
//! final cursor position is returned so the caller can place a closing
//! block beneath the table.

use vstd::prelude::*;

verus! {

/// The fixed heights and offsets of one document kind, in millimetres.
#[derive(Clone, Copy, Debug, PartialEq, Eq, Structural)]
pub struct LayoutConfig {
    /// Cursor position of the table header on the first page.
    pub first_start: u32,
    /// Cursor position of the table header on every fresh page.
    pub page_top: u32,
    /// Minimum cursor position at which a unit may still be placed.
    pub bottom_threshold: u32,
    /// Height of the table column-header block.
    pub header_gap: u32,
    /// Space above a group header.
    pub group_gap: u32,
    /// Height of a group header with its separator rule.
    pub label_gap: u32,
    /// Height of one line row.
    pub row_height: u32,
    /// Height of the totals block.
    pub totals_height: u32,
}

impl LayoutConfig {
    /// A usable configuration: each unit fits above the threshold, and a
    /// fresh page has room for the header block and at least one unit.
    pub open spec fn wf(self) -> bool {
        &&& self.label_gap <= self.bottom_threshold
        &&& self.row_height <= self.bottom_threshold
        &&& self.totals_height <= self.bottom_threshold
        &&& self.header_gap + self.bottom_threshold + self.group_gap <= self.page_top
        &&& self.header_gap <= self.first_start
    }

    /// Checks that the configuration is usable.
    pub fn check(&self) -> (r: bool)
        ensures
            r == self.wf(),
    {
        self.label_gap <= self.bottom_threshold && self.row_height <= self.bottom_threshold
            && self.totals_height <= self.bottom_threshold && (self.header_gap as u64
            + self.bottom_threshold as u64 + self.group_gap as u64) <= self.page_top as u64
            && self.header_gap <= self.first_start
    }
}

/// One draw instruction for the renderer.
#[derive(Clone, Copy, Debug, PartialEq, Eq, Structural)]
pub enum LayoutOp {
    /// Start a new page.
    NewPage,
    /// Draw the table column-header block with its top at `y`.
    TableHeader { y: u32 },
    /// Draw the header of group `group` — its name and subtotal, with the
    /// separator rule beneath — at `y`.
    GroupHeader { group: usize, y: u32 },
    /// Draw row `index` of group `group` at `y`.
    LineRow { group: usize, index: usize, y: u32 },
    /// Draw the totals block with its top at `y`.
    TotalsBlock { y: u32 },
}

/// The instructions for rows `i..n` of group `g`, starting with the cursor
/// at `y`, and the cursor after them.
pub open spec fn spec_rows(g: int, i: int, n: int, y: int, cfg: LayoutConfig) -> (
    Seq<LayoutOp>,
    int,
)
    decreases n - i,
{
    if i >= n {
        (Seq::<LayoutOp>::empty(), y)
    } else if y < cfg.bottom_threshold {
        let yh = cfg.page_top - cfg.header_gap;
        let rest = spec_rows(g, i + 1, n, yh - cfg.row_height, cfg);
        (
            seq![
                LayoutOp::NewPage,
                LayoutOp::TableHeader { y: cfg.page_top },
                LayoutOp::LineRow { group: g as usize, index: i as usize, y: yh as u32 },
            ] + rest.0,
            rest.1,
        )
    } else {
        let rest = spec_rows(g, i + 1, n, y - cfg.row_height, cfg);
        (
            seq![LayoutOp::LineRow { group: g as usize, index: i as usize, y: y as u32 }] + rest.0,
            rest.1,
        )
    }
}

/// The instructions for groups `g..` with the given row counts, starting
/// with the cursor at `y`, and the cursor after them.
pub open spec fn spec_groups(counts: Seq<usize>, g: int, y: int, cfg: LayoutConfig) -> (
    Seq<LayoutOp>,
    int,
)
    decreases counts.len() - g,
{
    if g >= counts.len() {
        (Seq::<LayoutOp>::empty(), y)
    } else {
        let yg = y - cfg.group_gap;
        if yg < cfg.bottom_threshold {
            let yh = cfg.page_top - cfg.header_gap;
            let rows = spec_rows(g, 0, counts[g] as int, yh - cfg.label_gap, cfg);
            let rest = spec_groups(counts, g + 1, rows.1, cfg);
            (
                seq![
                    LayoutOp::NewPage,
                    LayoutOp::TableHeader { y: cfg.page_top },
                    LayoutOp::GroupHeader { group: g as usize, y: yh as u32 },
                ] + rows.0 + rest.0,
                rest.1,
            )
        } else {
            let rows = spec_rows(g, 0, counts[g] as int, yg - cfg.label_gap, cfg);
            let rest = spec_groups(counts, g + 1, rows.1, cfg);
            (
                seq![LayoutOp::GroupHeader { group: g as usize, y: yg as u32 }] + rows.0 + rest.0,
                rest.1,
            )
        }
    }
}

/// The whole table's instructions: the first page's table header, every
/// group with its rows, and the totals block, broken onto a fresh page when
/// the remaining space does not hold it. Also the final cursor position.
pub open spec fn spec_layout(counts: Seq<usize>, cfg: LayoutConfig) -> (Seq<LayoutOp>, int) {
    let y0 = cfg.first_start - cfg.header_gap;
    let body = spec_groups(counts, 0, y0, cfg);
    let yt = body.1;
    if yt - cfg.totals_height < cfg.bottom_threshold {
        let yh = cfg.page_top - cfg.header_gap;
        (
            seq![LayoutOp::TableHeader { y: cfg.first_start }] + body.0 + seq![
                LayoutOp::NewPage,
                LayoutOp::TableHeader { y: cfg.page_top },
                LayoutOp::TotalsBlock { y: yh as u32 },
            ],
            yh - cfg.totals_height,
        )
    } else {
        (
            seq![LayoutOp::TableHeader { y: cfg.first_start }] + body.0 + seq![
                LayoutOp::TotalsBlock { y: yt as u32 },
            ],
            yt - cfg.totals_height,
        )
    }
}

/// Lays out a grouped table with `counts[g]` rows in group `g` and returns
/// the draw instructions with the final cursor position.
#[verifier::loop_isolation(false)]
pub fn paginate(counts: &Vec<usize>, cfg: &LayoutConfig) -> (r: (Vec<LayoutOp>, u32))
    requires
        cfg.wf(),
    ensures
        r.0@ == spec_layout(counts@, *cfg).0,
        r.1 == spec_layout(counts@, *cfg).1,
{
    let mut ops: Vec<LayoutOp> = Vec::new();
    ops.push(LayoutOp::TableHeader { y: cfg.first_start });
    let mut y: u32 = cfg.first_start - cfg.header_gap;
    let ghost y0 = y as int;
    let mut gi: usize = 0;
    proof {
        assert(ops@.skip(1) =~= Seq::<LayoutOp>::empty());
        assert(ops@.skip(1) + spec_groups(counts@, 0, y0, *cfg).0 =~= spec_groups(
            counts@,
            0,
            y0,
            *cfg,
        ).0);
    }
    while gi < counts.len()
        invariant
            gi <= counts@.len(),
            1 <= ops@.len(),
            ops@[0] == (LayoutOp::TableHeader { y: cfg.first_start }),
            spec_groups(counts@, 0, y0, *cfg).0 == ops@.skip(1) + spec_groups(
                counts@,
                gi as int,
                y as int,
                *cfg,
            ).0,
            spec_groups(counts@, 0, y0, *cfg).1 == spec_groups(
                counts@,
                gi as int,
                y as int,
                *cfg,
            ).1,
        decreases counts@.len() - gi,
    {
        let count = counts[gi];
        let ghost y_in = y as int;
        let ghost emitted = ops@.skip(1);
        // place the group header, breaking the page first when the gap above
        // it would cross the threshold
        if (y as u64) < cfg.bottom_threshold as u64 + cfg.group_gap as u64 {
            ops.push(LayoutOp::NewPage);
            ops.push(LayoutOp::TableHeader { y: cfg.page_top });
            y = cfg.page_top - cfg.header_gap;
            ops.push(LayoutOp::GroupHeader { group: gi, y });
        } else {
            y = y - cfg.group_gap;
            ops.push(LayoutOp::GroupHeader { group: gi, y });
        }
        let ghost y_label = y as int;
        y = y - cfg.label_gap;
        let ghost rows_spec = spec_rows(gi as int, 0, count as int, y as int, *cfg);
        proof {
            let gsp = spec_groups(counts@, gi as int, y_in, *cfg);
            let rest = spec_groups(counts@, gi + 1, rows_spec.1, *cfg);
            if y_in - cfg.group_gap < cfg.bottom_threshold {
                assert(ops@.skip(1) =~= emitted + seq![
                    LayoutOp::NewPage,
                    LayoutOp::TableHeader { y: cfg.page_top },
                    LayoutOp::GroupHeader { group: gi, y: y_label as u32 },
                ]);
                assert(gsp.0 =~= seq![
                    LayoutOp::NewPage,
                    LayoutOp::TableHeader { y: cfg.page_top },
                    LayoutOp::GroupHeader { group: gi, y: y_label as u32 },
                ] + rows_spec.0 + rest.0);
                assert(emitted + gsp.0 =~= ops@.skip(1) + (rows_spec.0 + rest.0));
            } else {
                assert(ops@.skip(1) =~= emitted + seq![
                    LayoutOp::GroupHeader { group: gi, y: y_label as u32 },
                ]);
                assert(gsp.0 =~= seq![LayoutOp::GroupHeader { group: gi, y: y_label as u32 }]
                    + rows_spec.0 + rest.0);
                assert(emitted + gsp.0 =~= ops@.skip(1) + (rows_spec.0 + rest.0));
            }
        }
        // place this group's rows
        let mut i: usize = 0;
        while i < count
            invariant
                i <= count,
                1 <= ops@.len(),
                ops@[0] == (LayoutOp::TableHeader { y: cfg.first_start }),
                rows_spec == spec_rows(gi as int, 0, count as int, y_label - cfg.label_gap, *cfg),
                spec_rows(gi as int, 0, count as int, y_label - cfg.label_gap, *cfg).1 == spec_rows(
                    gi as int,
                    i as int,
                    count as int,
                    y as int,
                    *cfg,
                ).1,
                spec_groups(counts@, 0, y0, *cfg).0 == ops@.skip(1) + spec_rows(
                    gi as int,
                    i as int,
                    count as int,
                    y as int,
                    *cfg,
                ).0 + spec_groups(counts@, gi + 1, rows_spec.1, *cfg).0,
                spec_groups(counts@, 0, y0, *cfg).1 == spec_groups(
                    counts@,
                    gi + 1,
                    rows_spec.1,
                    *cfg,
                ).1,
            decreases count - i,
        {
            let ghost pre = ops@.skip(1);
            let ghost y_row_in = y as int;
            if y < cfg.bottom_threshold {
                ops.push(LayoutOp::NewPage);
                ops.push(LayoutOp::TableHeader { y: cfg.page_top });
                y = cfg.page_top - cfg.header_gap;
                ops.push(LayoutOp::LineRow { group: gi, index: i, y });
                proof {
                    assert(ops@.skip(1) =~= pre + seq![
                        LayoutOp::NewPage,
                        LayoutOp::TableHeader { y: cfg.page_top },
                        LayoutOp::LineRow { group: gi, index: i, y: y as u32 },
                    ]);
                }
            } else {
                ops.push(LayoutOp::LineRow { group: gi, index: i, y });
                proof {
                    assert(ops@.skip(1) =~= pre + seq![
                        LayoutOp::LineRow { group: gi, index: i, y: y as u32 },
                    ]);
                }
            }
            proof {
                let cur = spec_rows(gi as int, i as int, count as int, y_row_in, *cfg);
                let nxt = spec_rows(gi as int, i + 1, count as int, y as int - cfg.row_height, *cfg);
                if y_row_in < cfg.bottom_threshold {
                    assert(cur.0 =~= seq![
                        LayoutOp::NewPage,
                        LayoutOp::TableHeader { y: cfg.page_top },
                        LayoutOp::LineRow { group: gi, index: i, y: y as u32 },
                    ] + nxt.0);
                } else {
                    assert(cur.0 =~= seq![LayoutOp::LineRow { group: gi, index: i, y: y as u32 }]
                        + nxt.0);
                }
                assert(pre + cur.0 + spec_groups(counts@, gi + 1, rows_spec.1, *cfg).0 =~= ops@.skip(
                    1,
                ) + nxt.0 + spec_groups(counts@, gi + 1, rows_spec.1, *cfg).0);
            }
            y = y - cfg.row_height;
            i = i + 1;
        }
        proof {
            assert(spec_rows(gi as int, count as int, count as int, y as int, *cfg).0
                =~= Seq::<LayoutOp>::empty());
            assert(rows_spec.1 == y as int);
            assert(ops@.skip(1) + Seq::<LayoutOp>::empty() + spec_groups(
                counts@,
                gi + 1,
                y as int,
                *cfg,
            ).0 =~= ops@.skip(1) + spec_groups(counts@, gi + 1, y as int, *cfg).0);
        }
        gi = gi + 1;
    }
    // place the totals block, on a fresh page when the space left above the
    // threshold cannot hold it
    let ghost emitted = ops@.skip(1);
    let ghost y_body = y as int;
    proof {
        assert(spec_groups(counts@, counts@.len() as int, y as int, *cfg).0
            =~= Seq::<LayoutOp>::empty());
        assert(emitted + Seq::<LayoutOp>::empty() =~= emitted);
        assert(spec_groups(counts@, 0, y0, *cfg).0 =~= emitted);
        assert(spec_groups(counts@, 0, y0, *cfg).1 == y as int);
    }
    if (y as u64) < cfg.bottom_threshold as u64 + cfg.totals_height as u64 {
        ops.push(LayoutOp::NewPage);
        ops.push(LayoutOp::TableHeader { y: cfg.page_top });
        y = cfg.page_top - cfg.header_gap;
        ops.push(LayoutOp::TotalsBlock { y });
        proof {
            assert(ops@ =~= seq![LayoutOp::TableHeader { y: cfg.first_start }] + emitted + seq![
                LayoutOp::NewPage,
                LayoutOp::TableHeader { y: cfg.page_top },
                LayoutOp::TotalsBlock { y: y as u32 },
            ]);
            assert(ops@ =~= spec_layout(counts@, *cfg).0);
        }
        y = y - cfg.totals_height;
    } else {
        ops.push(LayoutOp::TotalsBlock { y });
        proof {
            assert(ops@ =~= seq![LayoutOp::TableHeader { y: cfg.first_start }] + emitted + seq![
                LayoutOp::TotalsBlock { y: y as u32 },
            ]);
            assert(ops@ =~= spec_layout(counts@, *cfg).0);
        }
        y = y - cfg.totals_height;
    }
    (ops, y)
}


/// True when a draw instruction respects the page-bottom threshold `t`: a
/// positioned unit stands at or above it. A page break carries no position,
/// and the table header block's own position is the page top or the
/// caller's document start.
pub open spec fn op_within(op: LayoutOp, t: int) -> bool {
    match op {
        LayoutOp::NewPage => true,
        LayoutOp::TableHeader { y } => true,
        LayoutOp::GroupHeader { group, y } => y >= t,
        LayoutOp::LineRow { group, index, y } => y >= t,
        LayoutOp::TotalsBlock { y } => y >= t,
    }
}

proof fn lemma_rows_within(g: int, i: int, n: int, y: int, cfg: LayoutConfig)
    requires
        cfg.wf(),
        y <= u32::MAX,
    ensures
        forall|k: int|
            0 <= k < spec_rows(g, i, n, y, cfg).0.len() ==> op_within(
                #[trigger] spec_rows(g, i, n, y, cfg).0[k],
                cfg.bottom_threshold as int,
            ),
        spec_rows(g, i, n, y, cfg).1 <= u32::MAX,
    decreases n - i,
{
    if i < n {
        if y < cfg.bottom_threshold {
            lemma_rows_within(g, i + 1, n, cfg.page_top - cfg.header_gap - cfg.row_height, cfg);
        } else {
            lemma_rows_within(g, i + 1, n, y - cfg.row_height, cfg);
        }
    }
}

proof fn lemma_groups_within(counts: Seq<usize>, g: int, y: int, cfg: LayoutConfig)
    requires
        cfg.wf(),
        y <= u32::MAX,
    ensures
        forall|k: int|
            0 <= k < spec_groups(counts, g, y, cfg).0.len() ==> op_within(
                #[trigger] spec_groups(counts, g, y, cfg).0[k],
                cfg.bottom_threshold as int,
            ),
        spec_groups(counts, g, y, cfg).1 <= u32::MAX,
    decreases counts.len() - g,
{
    if g < counts.len() {
        let yg = y - cfg.group_gap;
        if yg < cfg.bottom_threshold {
            let yr = cfg.page_top - cfg.header_gap - cfg.label_gap;
            lemma_rows_within(g, 0, counts[g] as int, yr, cfg);
            lemma_groups_within(counts, g + 1, spec_rows(g, 0, counts[g] as int, yr, cfg).1, cfg);
        } else {
            let yr = yg - cfg.label_gap;
            lemma_rows_within(g, 0, counts[g] as int, yr, cfg);
            lemma_groups_within(counts, g + 1, spec_rows(g, 0, counts[g] as int, yr, cfg).1, cfg);
        }
    }
}

/// Pagination never lets the cursor cross the page-bottom threshold: every
/// group header, line row and totals block the engine emits stands at or
/// above it.
pub proof fn lemma_layout_within(counts: Seq<usize>, cfg: LayoutConfig)
    requires
        cfg.wf(),
    ensures
        forall|k: int|
            0 <= k < spec_layout(counts, cfg).0.len() ==> op_within(
                #[trigger] spec_layout(counts, cfg).0[k],
                cfg.bottom_threshold as int,
            ),
{
    let y0 = cfg.first_start - cfg.header_gap;
    lemma_groups_within(counts, 0, y0, cfg);
}

/// Every page break is immediately followed by the table column-header
/// block: every page after the first begins with a header.
pub open spec fn breaks_followed_by_header(ops: Seq<LayoutOp>) -> bool {
    forall|k: int|
        0 <= k < ops.len() && (#[trigger] ops[k]) is NewPage ==> k + 1 < ops.len() && ops[k + 1]
            is TableHeader
}

/// Helper invariant for concatenation: the property holds and the sequence
/// does not end in a dangling page break.
spec fn np_ok(ops: Seq<LayoutOp>) -> bool {
    breaks_followed_by_header(ops) && (ops.len() > 0 ==> !(ops.last() is NewPage))
}

proof fn lemma_np_concat(a: Seq<LayoutOp>, b: Seq<LayoutOp>)
    requires
        np_ok(a),
        np_ok(b),
    ensures
        np_ok(a + b),
{
    let c = a + b;
    assert forall|k: int| 0 <= k < c.len() && (#[trigger] c[k]) is NewPage implies k + 1 < c.len()
        && c[k + 1] is TableHeader by {
        if k < a.len() {
            assert(c[k] == a[k]);
            assert(k + 1 < a.len());
            assert(c[k + 1] == a[k + 1]);
        } else {
            assert(c[k] == b[k - a.len()]);
            assert(c[k + 1] == b[k + 1 - a.len()]);
        }
    }
    if c.len() > 0 {
        if b.len() > 0 {
            assert(c.last() == b.last());
        } else {
            assert(c.last() == a.last());
        }
    }
}

proof fn lemma_rows_np(g: int, i: int, n: int, y: int, cfg: LayoutConfig)
    ensures
        np_ok(spec_rows(g, i, n, y, cfg).0),
    decreases n - i,
{
    if i >= n {
        assert(np_ok(spec_rows(g, i, n, y, cfg).0));
    } else if y < cfg.bottom_threshold {
        let yh = cfg.page_top - cfg.header_gap;
        lemma_rows_np(g, i + 1, n, yh - cfg.row_height, cfg);
        let head = seq![
            LayoutOp::NewPage,
            LayoutOp::TableHeader { y: cfg.page_top },
            LayoutOp::LineRow { group: g as usize, index: i as usize, y: yh as u32 },
        ];
        assert(np_ok(head)) by {
            assert(head[1] is TableHeader);
            assert(head.last() == head[2]);
        }
        lemma_np_concat(head, spec_rows(g, i + 1, n, yh - cfg.row_height, cfg).0);
    } else {
        lemma_rows_np(g, i + 1, n, y - cfg.row_height, cfg);
        let head = seq![LayoutOp::LineRow { group: g as usize, index: i as usize, y: y as u32 }];
        assert(np_ok(head)) by {
            assert(head.last() == head[0]);
        }
        lemma_np_concat(head, spec_rows(g, i + 1, n, y - cfg.row_height, cfg).0);
    }
}

proof fn lemma_groups_np(counts: Seq<usize>, g: int, y: int, cfg: LayoutConfig)
    ensures
        np_ok(spec_groups(counts, g, y, cfg).0),
    decreases counts.len() - g,
{
    if g < counts.len() {
        let yg = y - cfg.group_gap;
        if yg < cfg.bottom_threshold {
            let yh = cfg.page_top - cfg.header_gap;
            let rows = spec_rows(g, 0, counts[g] as int, yh - cfg.label_gap, cfg);
            let rest = spec_groups(counts, g + 1, rows.1, cfg);
            lemma_rows_np(g, 0, counts[g] as int, yh - cfg.label_gap, cfg);
            lemma_groups_np(counts, g + 1, rows.1, cfg);
            let head = seq![
                LayoutOp::NewPage,
                LayoutOp::TableHeader { y: cfg.page_top },
                LayoutOp::GroupHeader { group: g as usize, y: yh as u32 },
            ];
            assert(np_ok(head)) by {
                assert(head[1] is TableHeader);
                assert(head.last() == head[2]);
            }
            lemma_np_concat(head, rows.0);
            lemma_np_concat(head + rows.0, rest.0);
        } else {
            let rows = spec_rows(g, 0, counts[g] as int, yg - cfg.label_gap, cfg);
            let rest = spec_groups(counts, g + 1, rows.1, cfg);
            lemma_rows_np(g, 0, counts[g] as int, yg - cfg.label_gap, cfg);
            lemma_groups_np(counts, g + 1, rows.1, cfg);
            let head = seq![LayoutOp::GroupHeader { group: g as usize, y: yg as u32 }];
            assert(np_ok(head)) by {
                assert(head.last() == head[0]);
            }
            lemma_np_concat(head, rows.0);
            lemma_np_concat(head + rows.0, rest.0);
        }
    }
}

/// Every page after the first begins with the table column-header block:
/// the engine never emits a page break without re-emitting the header
/// directly after it.
pub proof fn lemma_layout_header_after_break(counts: Seq<usize>, cfg: LayoutConfig)
    ensures
        breaks_followed_by_header(spec_layout(counts, cfg).0),
{
    let y0 = cfg.first_start - cfg.header_gap;
    let body = spec_groups(counts, 0, y0, cfg);
    lemma_groups_np(counts, 0, y0, cfg);
    let first = seq![LayoutOp::TableHeader { y: cfg.first_start }];
    assert(np_ok(first)) by {
        assert(first.last() == first[0]);
    }
    lemma_np_concat(first, body.0);
    let yt = body.1;
    if yt - cfg.totals_height < cfg.bottom_threshold {
        let yh = cfg.page_top - cfg.header_gap;
        let tail = seq![
            LayoutOp::NewPage,
            LayoutOp::TableHeader { y: cfg.page_top },
            LayoutOp::TotalsBlock { y: yh as u32 },
        ];
        assert(np_ok(tail)) by {
            assert(tail[1] is TableHeader);
            assert(tail.last() == tail[2]);
        }
        lemma_np_concat(first + body.0, tail);
    } else {
        let tail = seq![LayoutOp::TotalsBlock { y: yt as u32 }];
        assert(np_ok(tail)) by {
            assert(tail.last() == tail[0]);
        }
        lemma_np_concat(first + body.0, tail);
    }
}


/// The group and row of each emitted line row, in emission order.
pub open spec fn row_ids(ops: Seq<LayoutOp>) -> Seq<(usize, usize)> {
    ops.filter_map(
        |op: LayoutOp|
            match op {
                LayoutOp::LineRow { group, index, y } => Some((group, index)),
                _ => None,
            },
    )
}

/// The rows of group `g` from `i` to `n`, in order.
pub open spec fn group_row_ids(g: int, i: int, n: int) -> Seq<(usize, usize)>
    decreases n - i,
{
    if i >= n {
        Seq::<(usize, usize)>::empty()
    } else {
        seq![(g as usize, i as usize)] + group_row_ids(g, i + 1, n)
    }
}

/// Every row of every group from `g` on, in group order.
pub open spec fn all_row_ids(counts: Seq<usize>, g: int) -> Seq<(usize, usize)>
    decreases counts.len() - g,
{
    if g >= counts.len() {
        Seq::<(usize, usize)>::empty()
    } else {
        group_row_ids(g, 0, counts[g] as int) + all_row_ids(counts, g + 1)
    }
}

proof fn lemma_row_ids_one(op: LayoutOp)
    ensures
        row_ids(seq![op]) == match op {
            LayoutOp::LineRow { group, index, y } => seq![(group, index)],
            _ => Seq::<(usize, usize)>::empty(),
        },
{
    assert(seq![op].drop_last() =~= Seq::<LayoutOp>::empty());
    assert(seq![op].last() == op);
    assert(row_ids(Seq::<LayoutOp>::empty()) =~= Seq::<(usize, usize)>::empty());
}

proof fn lemma_row_ids_concat(a: Seq<LayoutOp>, b: Seq<LayoutOp>)
    ensures
        row_ids(a + b) == row_ids(a) + row_ids(b),
    decreases b.len(),
{
    if b.len() == 0 {
        assert(a + b =~= a);
        assert(row_ids(b) =~= Seq::<(usize, usize)>::empty());
        assert(row_ids(a) + row_ids(b) =~= row_ids(a));
    } else {
        lemma_row_ids_concat(a, b.drop_last());
        assert((a + b).drop_last() =~= a + b.drop_last());
        assert((a + b).last() == b.last());
        match b.last() {
            LayoutOp::LineRow { group, index, y } => {
                assert(row_ids(b) == row_ids(b.drop_last()) + seq![(group, index)]);
                assert(row_ids(a + b) == (row_ids(a) + row_ids(b.drop_last())) + seq![
                    (group, index),
                ]);
                assert((row_ids(a) + row_ids(b.drop_last())) + seq![(group, index)] =~= row_ids(a)
                    + (row_ids(b.drop_last()) + seq![(group, index)]));
            },
            _ => {
                assert(row_ids(b) == row_ids(b.drop_last()));
            },
        }
    }
}

proof fn lemma_rows_row_ids(g: int, i: int, n: int, y: int, cfg: LayoutConfig)
    ensures
        row_ids(spec_rows(g, i, n, y, cfg).0) == group_row_ids(g, i, n),
    decreases n - i,
{
    if i >= n {
        assert(row_ids(Seq::<LayoutOp>::empty()) =~= Seq::<(usize, usize)>::empty());
    } else {
        let row_op = if y < cfg.bottom_threshold {
            LayoutOp::LineRow {
                group: g as usize,
                index: i as usize,
                y: (cfg.page_top - cfg.header_gap) as u32,
            }
        } else {
            LayoutOp::LineRow { group: g as usize, index: i as usize, y: y as u32 }
        };
        let head = if y < cfg.bottom_threshold {
            seq![LayoutOp::NewPage, LayoutOp::TableHeader { y: cfg.page_top }, row_op]
        } else {
            seq![row_op]
        };
        let rest = if y < cfg.bottom_threshold {
            spec_rows(g, i + 1, n, cfg.page_top - cfg.header_gap - cfg.row_height, cfg)
        } else {
            spec_rows(g, i + 1, n, y - cfg.row_height, cfg)
        };
        if y < cfg.bottom_threshold {
            lemma_rows_row_ids(g, i + 1, n, cfg.page_top - cfg.header_gap - cfg.row_height, cfg);
            assert(head =~= seq![LayoutOp::NewPage] + seq![
                LayoutOp::TableHeader { y: cfg.page_top },
            ] + seq![row_op]);
            lemma_row_ids_one(LayoutOp::NewPage);
            lemma_row_ids_one(LayoutOp::TableHeader { y: cfg.page_top });
            lemma_row_ids_one(row_op);
            lemma_row_ids_concat(
                seq![LayoutOp::NewPage],
                seq![LayoutOp::TableHeader { y: cfg.page_top }],
            );
            lemma_row_ids_concat(
                seq![LayoutOp::NewPage] + seq![LayoutOp::TableHeader { y: cfg.page_top }],
                seq![row_op],
            );
            assert(row_ids(head) =~= seq![(g as usize, i as usize)]);
        } else {
            lemma_rows_row_ids(g, i + 1, n, y - cfg.row_height, cfg);
            lemma_row_ids_one(row_op);
            assert(row_ids(head) =~= seq![(g as usize, i as usize)]);
        }
        lemma_row_ids_concat(head, rest.0);
        assert(spec_rows(g, i, n, y, cfg).0 == head + rest.0);
    }
}

proof fn lemma_groups_row_ids(counts: Seq<usize>, g: int, y: int, cfg: LayoutConfig)
    ensures
        row_ids(spec_groups(counts, g, y, cfg).0) == all_row_ids(counts, g),
    decreases counts.len() - g,
{
    if g >= counts.len() {
        assert(row_ids(Seq::<LayoutOp>::empty()) =~= Seq::<(usize, usize)>::empty());
    } else {
        let yg = y - cfg.group_gap;
        let brk = yg < cfg.bottom_threshold;
        let head = if brk {
            seq![
                LayoutOp::NewPage,
                LayoutOp::TableHeader { y: cfg.page_top },
                LayoutOp::GroupHeader {
                    group: g as usize,
                    y: (cfg.page_top - cfg.header_gap) as u32,
                },
            ]
        } else {
            seq![LayoutOp::GroupHeader { group: g as usize, y: yg as u32 }]
        };
        let yr = if brk {
            cfg.page_top - cfg.header_gap - cfg.label_gap
        } else {
            yg - cfg.label_gap
        };
        let rows = spec_rows(g, 0, counts[g] as int, yr, cfg);
        let rest = spec_groups(counts, g + 1, rows.1, cfg);
        assert(spec_groups(counts, g, y, cfg).0 == head + rows.0 + rest.0);
        if brk {
            lemma_row_ids_one(LayoutOp::NewPage);
            lemma_row_ids_one(LayoutOp::TableHeader { y: cfg.page_top });
            lemma_row_ids_one(
                LayoutOp::GroupHeader {
                    group: g as usize,
                    y: (cfg.page_top - cfg.header_gap) as u32,
                },
            );
            lemma_row_ids_concat(
                seq![LayoutOp::NewPage],
                seq![LayoutOp::TableHeader { y: cfg.page_top }],
            );
            lemma_row_ids_concat(
                seq![LayoutOp::NewPage] + seq![LayoutOp::TableHeader { y: cfg.page_top }],
                seq![
                    LayoutOp::GroupHeader {
                        group: g as usize,
                        y: (cfg.page_top - cfg.header_gap) as u32,
                    },
                ],
            );
            assert(head =~= (seq![LayoutOp::NewPage] + seq![
                LayoutOp::TableHeader { y: cfg.page_top },
            ]) + seq![
                LayoutOp::GroupHeader {
                    group: g as usize,
                    y: (cfg.page_top - cfg.header_gap) as u32,
                },
            ]);
            assert(row_ids(head) =~= Seq::<(usize, usize)>::empty());
        } else {
            lemma_row_ids_one(LayoutOp::GroupHeader { group: g as usize, y: yg as u32 });
            assert(row_ids(head) =~= Seq::<(usize, usize)>::empty());
        }
        lemma_rows_row_ids(g, 0, counts[g] as int, yr, cfg);
        lemma_groups_row_ids(counts, g + 1, rows.1, cfg);
        lemma_row_ids_concat(head, rows.0);
        lemma_row_ids_concat(head + rows.0, rest.0);
        assert(row_ids(head + rows.0 + rest.0) =~= group_row_ids(g, 0, counts[g] as int)
            + all_row_ids(counts, g + 1));
    }
}

/// The engine emits every row of every group exactly once, in group order
/// and row order within each group — no row is lost or duplicated by page
/// breaks.
pub proof fn lemma_layout_rows_complete(counts: Seq<usize>, cfg: LayoutConfig)
    ensures
        row_ids(spec_layout(counts, cfg).0) == all_row_ids(counts, 0),
{
    let y0 = cfg.first_start - cfg.header_gap;
    let body = spec_groups(counts, 0, y0, cfg);
    lemma_groups_row_ids(counts, 0, y0, cfg);
    let first = seq![LayoutOp::TableHeader { y: cfg.first_start }];
    lemma_row_ids_one(LayoutOp::TableHeader { y: cfg.first_start });
    let yt = body.1;
    if yt - cfg.totals_height < cfg.bottom_threshold {
        let yh = cfg.page_top - cfg.header_gap;
        let tail = seq![
            LayoutOp::NewPage,
            LayoutOp::TableHeader { y: cfg.page_top },
            LayoutOp::TotalsBlock { y: yh as u32 },
        ];
        lemma_row_ids_one(LayoutOp::NewPage);
        lemma_row_ids_one(LayoutOp::TableHeader { y: cfg.page_top });
        lemma_row_ids_one(LayoutOp::TotalsBlock { y: yh as u32 });
        lemma_row_ids_concat(
            seq![LayoutOp::NewPage],
            seq![LayoutOp::TableHeader { y: cfg.page_top }],
        );
        lemma_row_ids_concat(
            seq![LayoutOp::NewPage] + seq![LayoutOp::TableHeader { y: cfg.page_top }],
            seq![LayoutOp::TotalsBlock { y: yh as u32 }],
        );
        assert(tail =~= (seq![LayoutOp::NewPage] + seq![
            LayoutOp::TableHeader { y: cfg.page_top },
        ]) + seq![LayoutOp::TotalsBlock { y: yh as u32 }]);
        assert(row_ids(tail) =~= Seq::<(usize, usize)>::empty());
        lemma_row_ids_concat(first, body.0);
        lemma_row_ids_concat(first + body.0, tail);
        assert(row_ids(first) =~= Seq::<(usize, usize)>::empty());
        assert(row_ids(spec_layout(counts, cfg).0) =~= all_row_ids(counts, 0));
    } else {
        let tail = seq![LayoutOp::TotalsBlock { y: yt as u32 }];
        lemma_row_ids_one(LayoutOp::TotalsBlock { y: yt as u32 });
        lemma_row_ids_concat(first, body.0);
        lemma_row_ids_concat(first + body.0, tail);
        assert(row_ids(first) =~= Seq::<(usize, usize)>::empty());
        assert(row_ids(tail) =~= Seq::<(usize, usize)>::empty());
        assert(row_ids(spec_layout(counts, cfg).0) =~= all_row_ids(counts, 0));
    }
}

} // verus!
