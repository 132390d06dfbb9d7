//! Grid reading, buyer resolution and order extraction.

use ftf_docs::buyers::get_buyers;
use ftf_docs::errors::InputError;
use ftf_docs::extract::{extract_orders, orders_from_grid, summarise_grower_item_orders};
use ftf_docs::grid::{headers, Cell};
use ftf_docs::money::line_total;

fn text(s: &str) -> Cell {
    Cell::Text(String::from(s))
}

/// The worked example: one data row, two buyers, one real order.
fn example_grid() -> Vec<Vec<Cell>> {
    let header = vec![
        text("SELLER"),
        text("PRODUCE"),
        text("VARIANT"),
        text("UNIT"),
        text("PRICE"),
        text("BUYERS:"),
        text("Alice"),
        text("Bob"),
    ];
    let data = vec![
        text("Farm A"),
        text("Carrot"),
        text("Standard"),
        text("kg"),
        Cell::Number(150), // 1.50 in currency units
        text(""),
        text("2"),
        text("0"),
    ];
    vec![Vec::new(), Vec::new(), header, data]
}

#[test]
fn headers_returns_third_row() {
    let grid = example_grid();
    let hs = headers(&grid).unwrap();
    assert_eq!(hs.len(), 8);
    assert_eq!(hs[0].as_str(), "SELLER");
    assert_eq!(hs[5].as_str(), "BUYERS:");
    assert_eq!(hs[7].as_str(), "Bob");
}

#[test]
fn headers_rejects_short_grid() {
    let grid: Vec<Vec<Cell>> = vec![Vec::new(), Vec::new()];
    assert_eq!(headers(&grid), Err(InputError::MalformedInput));
}

#[test]
fn buyers_found_after_marker() {
    let grid = example_grid();
    let hs = headers(&grid).unwrap();
    let (buyers, start) = get_buyers(&hs).unwrap();
    assert_eq!(start, 5);
    assert_eq!(buyers.len(), 2);
    assert_eq!(buyers[0].name.as_str(), "Alice");
    assert_eq!(buyers[0].index, 6);
    assert_eq!(buyers[1].name.as_str(), "Bob");
    assert_eq!(buyers[1].index, 7);
}

#[test]
fn missing_marker_is_fatal() {
    let hs = vec![String::from("SELLER"), String::from("Alice")];
    assert!(matches!(get_buyers(&hs), Err(InputError::MissingMarker)));
}

#[test]
fn alice_gets_one_line_bob_gets_none() {
    let grid = example_grid();
    let orders = orders_from_grid(&grid).unwrap();
    // Bob ordered nothing, so only Alice receives a document
    assert_eq!(orders.len(), 1);
    let alice = &orders[0];
    assert_eq!(alice.buyer.as_str(), "Alice");
    assert_eq!(alice.lines.len(), 1);
    let line = &alice.lines[0];
    assert_eq!(line.produce.as_str(), "Carrot");
    assert_eq!(line.seller.as_str(), "Farm A");
    assert_eq!(line.price, 150);
    assert_eq!(line.qty, 200); // two whole units, in hundredths
    assert_eq!(line_total(line.price, line.qty), 300);
}

#[test]
fn extracted_quantities_are_positive() {
    let grid = example_grid();
    let hs = headers(&grid).unwrap();
    let (buyers, _) = get_buyers(&hs).unwrap();
    let lines = extract_orders(&grid, &buyers).unwrap();
    assert_eq!(lines.len(), 1);
    for line in &lines {
        assert!(line.qty > 0);
    }
}

#[test]
fn non_numeric_price_is_invalid_cell() {
    let mut grid = example_grid();
    grid[3][4] = text("a bunch");
    match orders_from_grid(&grid) {
        Err(e) => assert_eq!(e, InputError::InvalidCell { row: 3, col: 4 }),
        Ok(_) => panic!("a non-numeric price must be rejected"),
    }
}

#[test]
fn non_numeric_quantity_is_invalid_cell() {
    let mut grid = example_grid();
    grid[3][6] = text("lots");
    match orders_from_grid(&grid) {
        Err(e) => assert_eq!(e, InputError::InvalidCell { row: 3, col: 6 }),
        Ok(_) => panic!("a non-numeric quantity must be rejected"),
    }
}

#[test]
fn empty_produce_row_is_skipped() {
    let mut grid = example_grid();
    grid[3][1] = text("");
    let orders = orders_from_grid(&grid).unwrap();
    assert_eq!(orders.len(), 0);
}

#[test]
fn blank_quantity_means_no_order() {
    let mut grid = example_grid();
    grid[3][6] = Cell::Empty;
    let orders = orders_from_grid(&grid).unwrap();
    assert_eq!(orders.len(), 0);
}

#[test]
fn negative_quantity_is_filtered() {
    let mut grid = example_grid();
    grid[3][6] = Cell::Number(-200);
    let orders = orders_from_grid(&grid).unwrap();
    assert_eq!(orders.len(), 0);
}

#[test]
fn extraction_is_idempotent() {
    // re-running extraction on an unchanged grid yields byte-identical
    // grouped totals
    let grid = example_grid();
    let first = orders_from_grid(&grid).unwrap();
    let second = orders_from_grid(&grid).unwrap();
    assert_eq!(first.len(), second.len());
    for (a, b) in first.iter().zip(second.iter()) {
        assert_eq!(a.buyer, b.buyer);
        assert_eq!(a.lines.len(), b.lines.len());
        let ta = ftf_docs::orders::total_per_grower(&a.lines);
        let tb = ftf_docs::orders::total_per_grower(&b.lines);
        assert_eq!(ta, tb);
        assert_eq!(
            ftf_docs::money::format_currency(ta as u32),
            ftf_docs::money::format_currency(tb as u32)
        );
    }
    let sa = summarise_grower_item_orders(&extract_of(&grid));
    let sb = summarise_grower_item_orders(&extract_of(&grid));
    assert_eq!(sa.len(), sb.len());
    for ((na, ta), (nb, tb)) in sa.iter().zip(sb.iter()) {
        assert_eq!(na, nb);
        assert_eq!(ta, tb);
    }
}

fn extract_of(grid: &Vec<Vec<Cell>>) -> Vec<ftf_docs::extract::ExtractedLine> {
    let hs = headers(grid).unwrap();
    let (buyers, _) = get_buyers(&hs).unwrap();
    extract_orders(grid, &buyers).unwrap()
}

#[test]
fn grower_summary_totals() {
    let grid = example_grid();
    let summary = summarise_grower_item_orders(&extract_of(&grid));
    assert_eq!(summary.len(), 1);
    assert_eq!(summary[0].0.as_str(), "Farm A");
    assert_eq!(summary[0].1, 300);
}
