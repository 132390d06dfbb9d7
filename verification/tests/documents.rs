//! Document assembly: grouping, subtotals, plans and naming.

use ftf_docs::invoices::{
    group_by_seller as invoice_group_by_seller, invoice_object_key, plan_invoice,
    total_per_seller_in_invoice, Invoice, InvoiceLine, InvoiceSummary,
};
use ftf_docs::layout::LayoutOp;
use ftf_docs::orders::{
    group_by_seller, order_object_key, plan_buyer_order, total_per_grower, total_per_order, Order,
    OrderLine,
};
use ftf_docs::picks::{pick_object_key, plan_pick, Pick, PickLine, Seller};
use ftf_docs::utils::BuyerDetails;

fn buyer(name: &str) -> BuyerDetails {
    BuyerDetails {
        name: String::from(name),
        address1: String::from("Turl Street"),
        address2: None,
        city: String::from("Oxford"),
        postcode: String::from("OX1 3DP"),
        country: String::from("United Kingdom"),
        number: String::from("F2F0601"),
    }
}

fn order_line(produce: &str, seller: &str, price: u32, qty: u32) -> OrderLine {
    OrderLine {
        produce: String::from(produce),
        variant: String::from("Standard"),
        unit: String::from("kg"),
        price,
        qty,
        seller: String::from(seller),
    }
}

#[test]
fn order_groups_keep_first_seen_seller_order() {
    let lines = vec![
        order_line("Carrot", "Farm B", 150, 200),
        order_line("Kale", "Farm A", 250, 100),
        order_line("Beetroot", "Farm B", 120, 300),
    ];
    let groups = group_by_seller(&lines);
    assert_eq!(groups.len(), 2);
    assert_eq!(groups[0].seller.as_str(), "Farm B");
    assert_eq!(groups[0].lines.len(), 2);
    assert_eq!(groups[0].lines[0].produce.as_str(), "Carrot");
    assert_eq!(groups[0].lines[1].produce.as_str(), "Beetroot");
    assert_eq!(groups[1].seller.as_str(), "Farm A");
    assert_eq!(groups[1].lines.len(), 1);
}

#[test]
fn order_total_is_sum_of_group_subtotals() {
    let lines = vec![
        order_line("Carrot", "Farm B", 150, 200), // 3.00
        order_line("Kale", "Farm A", 250, 100),   // 2.50
        order_line("Beetroot", "Farm B", 120, 300), // 3.60
    ];
    let order = Order { buyer: buyer("Alice"), date: String::from("2024-02-20"), lines };
    let total = total_per_order(&order);
    let groups = group_by_seller(&order.lines);
    let group_sum: u128 = groups.iter().map(|g| total_per_grower(&g.lines)).sum();
    assert_eq!(total, group_sum);
    assert_eq!(total, 300 + 250 + 360);
}

#[test]
fn buyer_order_plan_lays_out_every_line() {
    let lines = vec![
        order_line("Carrot", "Farm B", 150, 200),
        order_line("Kale", "Farm A", 250, 100),
    ];
    let order = Order { buyer: buyer("Alice"), date: String::from("2024-02-20"), lines };
    let plan = plan_buyer_order(&order);
    assert_eq!(plan.total, 550);
    let rows = plan
        .ops
        .iter()
        .filter(|op| matches!(op, LayoutOp::LineRow { .. }))
        .count();
    assert_eq!(rows, 2);
    assert_eq!(plan.groups.len(), 2);
}

#[test]
fn order_key_is_buyer_name() {
    let order = Order {
        buyer: buyer("Alice"),
        date: String::from("2024-02-20"),
        lines: Vec::new(),
    };
    assert_eq!(order_object_key(&order).as_str(), "Alice.pdf");
}

fn pick_line(produce: &str, to_buyer: &str, price: u32, qty: u32) -> PickLine {
    PickLine {
        produce: String::from(produce),
        variant: String::from("Standard"),
        unit: String::from("kg"),
        price,
        qty,
        buyer: String::from(to_buyer),
    }
}

#[test]
fn pick_plan_groups_by_buyer() {
    let pick = Pick {
        seller: Seller { name: String::from("Farm A") },
        date: String::from("2024-02-19"),
        lines: vec![
            pick_line("Carrot", "Alice", 150, 200),
            pick_line("Kale", "Bob", 250, 100),
            pick_line("Chard", "Alice", 200, 100),
        ],
        reference: String::from("P-7"),
    };
    let plan = plan_pick(&pick);
    assert_eq!(plan.groups.len(), 2);
    assert_eq!(plan.groups[0].buyer.as_str(), "Alice");
    assert_eq!(plan.groups[0].lines.len(), 2);
    assert_eq!(plan.groups[1].buyer.as_str(), "Bob");
    assert_eq!(plan.total, 300 + 250 + 200);
}

#[test]
fn pick_key_names_seller_and_date() {
    let pick = Pick {
        seller: Seller { name: String::from("Farm A") },
        date: String::from("2024-02-19"),
        lines: Vec::new(),
        reference: String::from("P-7"),
    };
    assert_eq!(
        pick_object_key(&pick).as_str(),
        "Farm A Pick List 2024-02-19.pdf"
    );
}

fn invoice_line(item: &str, seller: &str, date: &str, price: u32, qty: u32, vat: u16) -> InvoiceLine {
    InvoiceLine {
        item: String::from(item),
        price,
        qty,
        vat_rate: vat,
        date: String::from(date),
        seller: String::from(seller),
    }
}

#[test]
fn invoice_line_vat_worked_example() {
    // price 10.00, quantity 2, rate 20%: line total 20.00, VAT 4.00
    let inv = Invoice {
        buyer: buyer("Alice"),
        date: String::from("2024-02-29"),
        due_date: String::from("2024-03-14"),
        reference: String::from("REF-1"),
        lines: vec![invoice_line("Delivery", "Farm A", "2024-02-20", 1000, 200, 2000)],
    };
    let summary = InvoiceSummary::from_invoice(&inv);
    assert_eq!(summary.subtotal, 2000);
    assert_eq!(summary.vat, 400);
    assert_eq!(summary.total, 2400);
}

#[test]
fn invoice_groups_sort_lines_by_date() {
    let lines = vec![
        invoice_line("Third", "Farm A", "2024-02-22", 100, 100, 0),
        invoice_line("First", "Farm A", "2024-02-20", 100, 100, 0),
        invoice_line("Second", "Farm A", "2024-02-21", 100, 100, 0),
    ];
    let groups = invoice_group_by_seller(&lines);
    assert_eq!(groups.len(), 1);
    let dates: Vec<&str> = groups[0].lines.iter().map(|l| l.date.as_str()).collect();
    assert_eq!(dates, vec!["2024-02-20", "2024-02-21", "2024-02-22"]);
}

#[test]
fn invoice_sort_is_stable_for_equal_dates() {
    let lines = vec![
        invoice_line("A", "Farm A", "2024-02-20", 100, 100, 0),
        invoice_line("B", "Farm A", "2024-02-20", 100, 100, 0),
        invoice_line("C", "Farm A", "2024-02-19", 100, 100, 0),
    ];
    let groups = invoice_group_by_seller(&lines);
    let items: Vec<&str> = groups[0].lines.iter().map(|l| l.item.as_str()).collect();
    assert_eq!(items, vec!["C", "A", "B"]);
}

#[test]
fn invoice_subtotal_is_sum_of_seller_subtotals() {
    let lines = vec![
        invoice_line("A", "Farm A", "2024-02-20", 150, 200, 2000), // 3.00
        invoice_line("B", "Farm B", "2024-02-20", 250, 100, 0),    // 2.50
        invoice_line("C", "Farm A", "2024-02-21", 100, 100, 2000), // 1.00
    ];
    let inv = Invoice {
        buyer: buyer("Alice"),
        date: String::from("2024-02-29"),
        due_date: String::from("2024-03-14"),
        reference: String::from("REF-1"),
        lines,
    };
    let summary = InvoiceSummary::from_invoice(&inv);
    let groups = invoice_group_by_seller(&inv.lines);
    let group_sum: u128 = groups
        .iter()
        .map(|g| total_per_seller_in_invoice(&g.lines))
        .sum();
    assert_eq!(summary.subtotal, group_sum);
    assert_eq!(summary.subtotal, 650);
    assert_eq!(summary.vat, 60 + 20);
    assert_eq!(summary.total, 730);
}

#[test]
fn invoice_plan_carries_summary_and_rows() {
    let lines = vec![
        invoice_line("A", "Farm A", "2024-02-20", 150, 200, 2000),
        invoice_line("B", "Farm B", "2024-02-20", 250, 100, 0),
    ];
    let inv = Invoice {
        buyer: buyer("Alice"),
        date: String::from("2024-02-29"),
        due_date: String::from("2024-03-14"),
        reference: String::from("REF-1"),
        lines,
    };
    let plan = plan_invoice(&inv);
    assert_eq!(plan.summary.subtotal, 550);
    let rows = plan
        .ops
        .iter()
        .filter(|op| matches!(op, LayoutOp::LineRow { .. }))
        .count();
    assert_eq!(rows, 2);
}

#[test]
fn invoice_key_names_number_name_and_date() {
    let inv = Invoice {
        buyer: buyer("Alice"),
        date: String::from("2024-02-29"),
        due_date: String::from("2024-03-14"),
        reference: String::from("REF-1"),
        lines: Vec::new(),
    };
    assert_eq!(
        invoice_object_key(&inv).as_str(),
        "Invoice F2F0601 Alice 2024-02-29.pdf"
    );
}
