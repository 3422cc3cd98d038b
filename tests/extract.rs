use sap_watch::cohv::{parse_cohv_xl, CohvHeader};
use sap_watch::table::{extract, Cell, ExtractError, RowError};
use sap_watch::{Order, OrderData, Plant, Wbs};

fn text(s: &str) -> Cell {
    Cell::Text(s.to_string())
}

fn row(cells: &[&str]) -> Vec<Cell> {
    cells.iter().map(|s| text(s)).collect()
}

const HEADER: [&str; 6] = ["WBS Element", "Order", "Plant", "Target qty", "Material", "Order Type"];

fn expected_production() -> Order {
    Order::ProductionOrder(OrderData {
        id: 900100,
        mark: "BRKT-100".to_string(),
        qty: 12,
        wbs: Wbs::Hd { job: "1234567".to_string(), id: 42 },
        plant: Plant::Lancaster,
    })
}

#[test]
fn example_production_order() {
    let rows = vec![
        row(&HEADER),
        row(&["D-1234567-00042", "900100", "HS01", "12", "BRKT-100", "PP01"]),
    ];
    let out = extract(&CohvHeader, &rows).unwrap();
    assert_eq!(out, vec![Ok(expected_production())]);
}

#[test]
fn permuted_header_same_records() {
    let a = vec![
        row(&HEADER),
        row(&["D-1234567-00042", "900100", "HS01", "12", "BRKT-100", "PP01"]),
        row(&["S-7654321-2-05", "900101", "HS02", "3", "PL-7", "PR"]),
    ];
    let perm = [5usize, 3, 0, 4, 1, 2];
    let b: Vec<Vec<Cell>> = a.iter().map(|r| perm.iter().map(|&i| r[i].clone()).collect()).collect();
    let ra = extract(&CohvHeader, &a).unwrap();
    let rb = extract(&CohvHeader, &b).unwrap();
    assert_eq!(ra, rb);
    assert_eq!(ra.len(), 2);
    assert!(ra.iter().all(|r| r.is_ok()));
}

#[test]
fn missing_column_named() {
    let rows = vec![
        row(&["WBS Element", "Order", "Target qty", "Material", "Order Type"]),
        row(&["D-1234567-00042", "900100", "12", "BRKT-100", "PP01"]),
    ];
    assert_eq!(
        extract(&CohvHeader, &rows),
        Err(ExtractError::IncompleteHeader { missing: vec!["Plant".to_string()] })
    );
    assert_eq!(
        parse_cohv_xl(&rows),
        Err(ExtractError::IncompleteHeader { missing: vec!["Plant".to_string()] })
    );
}

#[test]
fn all_missing_columns_named_in_order() {
    let rows = vec![row(&["Order", "Plant"])];
    assert_eq!(
        extract(&CohvHeader, &rows),
        Err(ExtractError::IncompleteHeader {
            missing: vec![
                "Material".to_string(),
                "Qty".to_string(),
                "WBS Element".to_string(),
                "Order Type".to_string(),
            ]
        })
    );
}

#[test]
fn bad_row_isolated() {
    let rows = vec![
        row(&HEADER),
        row(&["D-1234567-00042", "900100", "HS01", "12", "BRKT-100", "PP01"]),
        row(&["garbage", "900101", "HS01", "12", "BRKT-101", "PP01"]),
        row(&["S-7654321-2-05", "900102", "HS02", "3", "PL-7", "PR"]),
    ];
    let out = extract(&CohvHeader, &rows).unwrap();
    assert_eq!(out.len(), 3);
    assert_eq!(out[0], Ok(expected_production()));
    assert_eq!(
        out[1],
        Err(RowError::MalformedIdentifier { column: 3, text: "garbage".to_string() })
    );
    assert!(matches!(out[2], Ok(Order::PlannedOrder(_))));
    let kept = parse_cohv_xl(&rows).unwrap();
    assert_eq!(kept.len(), 2);
    assert_eq!(kept[0], expected_production());
}

#[test]
fn header_only_gives_no_rows() {
    assert_eq!(extract(&CohvHeader, &vec![row(&HEADER)]), Ok(vec![]));
}

#[test]
fn no_rows_no_header() {
    assert_eq!(extract(&CohvHeader, &vec![]), Err(ExtractError::NoHeader));
}

#[test]
fn short_row() {
    let rows = vec![row(&HEADER), row(&["D-1234567-00042", "900100", "HS01"])];
    assert_eq!(extract(&CohvHeader, &rows), Ok(vec![Err(RowError::RowTooShort)]));
}

#[test]
fn row_level_errors() {
    let rows = vec![
        row(&HEADER),
        row(&["D-1234567-00042", "9001x0", "HS01", "12", "BRKT-100", "PP01"]),
        row(&["D-1234567-00042", "900100", "HS09", "12", "BRKT-100", "PP01"]),
        row(&["D-1234567-00042", "900100", "HS01", "12", "BRKT-100", "ZZ"]),
        row(&["D-1234567-00042", "900100", "HS01", "-1", "BRKT-100", "PP01"]),
    ];
    let out = extract(&CohvHeader, &rows).unwrap();
    assert_eq!(
        out,
        vec![
            Err(RowError::CellTypeMismatch { column: 0 }),
            Err(RowError::UnknownCode { column: 5 }),
            Err(RowError::UnknownCode { column: 4 }),
            Err(RowError::CellTypeMismatch { column: 2 }),
        ]
    );
}

#[test]
fn typed_cells() {
    let rows = vec![
        row(&["Order", "Material Number", "Order quantity (GMEIN)", "WBS Element", "Order Type", "Plant"]),
        vec![Cell::Int(900100), text("BRKT-100"), Cell::Decimal(12), text(""), text("PR"), text("HS02")],
        vec![Cell::Decimal(5), text("BRKT-100"), Cell::Int(1), Cell::Empty, text("PR"), text("HS02")],
        vec![Cell::Int(1), text("BRKT-100"), Cell::Decimal(-3), Cell::Empty, text("PR"), text("HS02")],
    ];
    let out = extract(&CohvHeader, &rows).unwrap();
    assert_eq!(
        out[0],
        Ok(Order::PlannedOrder(OrderData {
            id: 900100,
            mark: "BRKT-100".to_string(),
            qty: 12,
            wbs: Wbs::NoWbs,
            plant: Plant::Williamsport,
        }))
    );
    assert_eq!(out[1], Err(RowError::CellTypeMismatch { column: 0 }));
    assert_eq!(out[2], Err(RowError::CellTypeMismatch { column: 2 }));
}

#[test]
fn first_duplicate_header_wins() {
    let rows = vec![
        row(&["Order", "Material", "Target qty", "WBS Element", "Order Type", "Plant", "Order"]),
        row(&["1", "M", "2", "", "PR", "HS01", "999"]),
    ];
    let out = extract(&CohvHeader, &rows).unwrap();
    match &out[0] {
        Ok(Order::PlannedOrder(d)) => assert_eq!(d.id, 1),
        other => panic!("unexpected {:?}", other),
    }
}

#[test]
fn empty_cells_are_type_mismatches() {
    let good = ["D-1234567-00042", "900100", "HS01", "12", "BRKT-100", "PP01"];
    let mut rows = vec![row(&HEADER)];
    for i in 0..6 {
        let mut r = row(&good);
        r[i] = Cell::Empty;
        rows.push(r);
    }
    let out = extract(&CohvHeader, &rows).unwrap();
    // physical order: WBS Element, Order, Plant, Target qty, Material, Order Type
    let columns = [3usize, 0, 5, 2, 1, 4];
    for i in 0..6 {
        assert_eq!(out[i], Err(RowError::CellTypeMismatch { column: columns[i] }));
    }
}

#[test]
fn order_number_with_plus_sign() {
    let rows = vec![
        row(&HEADER),
        row(&["D-1234567-00042", "+900100", "HS01", "+12", "BRKT-100", "PP01"]),
        row(&["D-1234567-00042", "+", "HS01", "12", "BRKT-100", "PP01"]),
        row(&["D-1234567-00042", "++1", "HS01", "12", "BRKT-100", "PP01"]),
    ];
    let out = extract(&CohvHeader, &rows).unwrap();
    assert_eq!(out[0], Ok(expected_production()));
    assert_eq!(out[1], Err(RowError::CellTypeMismatch { column: 0 }));
    assert_eq!(out[2], Err(RowError::CellTypeMismatch { column: 0 }));
}
