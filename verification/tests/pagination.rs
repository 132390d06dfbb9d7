//! The pagination engine: page breaks, header repetition, thresholds.

use ftf_docs::layout::{paginate, LayoutConfig, LayoutOp};

fn config(first_start: u32) -> LayoutConfig {
    LayoutConfig {
        first_start,
        page_top: 277,
        bottom_threshold: 30,
        header_gap: 7,
        group_gap: 3,
        label_gap: 7,
        row_height: 6,
        totals_height: 20,
    }
}

fn breaks(ops: &[LayoutOp]) -> usize {
    ops.iter().filter(|op| matches!(op, LayoutOp::NewPage)).count()
}

#[test]
fn forty_five_rows_break_exactly_once() {
    // 45 line items for a single seller, 6mm rows, page start 277mm,
    // bottom threshold 30mm: exactly one page break, with the table
    // header repeated immediately after it
    let cfg = config(277);
    assert!(cfg.check());
    let (ops, _end) = paginate(&vec![45], &cfg);
    assert_eq!(breaks(&ops), 1);
    let idx = ops
        .iter()
        .position(|op| matches!(op, LayoutOp::NewPage))
        .unwrap();
    assert!(matches!(ops[idx + 1], LayoutOp::TableHeader { .. }));
}

#[test]
fn rows_never_cross_the_threshold() {
    let cfg = config(277);
    let (ops, _end) = paginate(&vec![45, 12, 3], &cfg);
    for op in &ops {
        match op {
            LayoutOp::GroupHeader { y, .. }
            | LayoutOp::LineRow { y, .. }
            | LayoutOp::TotalsBlock { y } => assert!(*y >= cfg.bottom_threshold),
            _ => {}
        }
    }
}

#[test]
fn every_break_is_followed_by_a_header() {
    let cfg = config(203);
    let (ops, _end) = paginate(&vec![10, 10, 10, 10, 10, 10], &cfg);
    for (k, op) in ops.iter().enumerate() {
        if matches!(op, LayoutOp::NewPage) {
            assert!(matches!(ops[k + 1], LayoutOp::TableHeader { .. }));
        }
    }
}

#[test]
fn small_table_fits_one_page() {
    let cfg = config(203);
    let (ops, end) = paginate(&vec![3], &cfg);
    assert_eq!(breaks(&ops), 0);
    // header at 203, label at 193, rows at 186, 180, 174, totals at 168
    assert!(matches!(ops[0], LayoutOp::TableHeader { y: 203 }));
    assert!(matches!(ops[1], LayoutOp::GroupHeader { group: 0, y: 193 }));
    assert!(matches!(ops[2], LayoutOp::LineRow { group: 0, index: 0, y: 186 }));
    assert!(matches!(ops[3], LayoutOp::LineRow { group: 0, index: 1, y: 180 }));
    assert!(matches!(ops[4], LayoutOp::LineRow { group: 0, index: 2, y: 174 }));
    assert!(matches!(ops[5], LayoutOp::TotalsBlock { y: 168 }));
    assert_eq!(ops.len(), 6);
    assert_eq!(end, 148);
}

#[test]
fn rows_come_out_complete_and_in_order() {
    let cfg = config(203);
    let counts = vec![5usize, 0, 7];
    let (ops, _end) = paginate(&counts, &cfg);
    let rows: Vec<(usize, usize)> = ops
        .iter()
        .filter_map(|op| match op {
            LayoutOp::LineRow { group, index, .. } => Some((*group, *index)),
            _ => None,
        })
        .collect();
    let mut expected = Vec::new();
    for (g, &c) in counts.iter().enumerate() {
        for i in 0..c {
            expected.push((g, i));
        }
    }
    assert_eq!(rows, expected);
}

#[test]
fn totals_break_to_a_fresh_page_when_space_runs_out() {
    let cfg = config(203);
    // enough rows that the totals cannot fit above the threshold
    let (ops, _end) = paginate(&vec![25], &cfg);
    let last = ops.last().unwrap();
    assert!(matches!(last, LayoutOp::TotalsBlock { .. }));
    if let LayoutOp::TotalsBlock { y } = last {
        assert!(*y >= cfg.bottom_threshold);
    }
}
