use sap_watch::digits::{decimal_string, parse_decimal_range};
use sap_watch::order::QuantityUnderflow;
use sap_watch::plant::UnknownCode;
use sap_watch::{Order, OrderData, Plant, Wbs};

fn data(qty: u32) -> OrderData {
    OrderData {
        id: 900100,
        mark: "BRKT-100".to_string(),
        qty,
        wbs: Wbs::NoWbs,
        plant: Plant::Lancaster,
    }
}

#[test]
fn plant_codes() {
    assert_eq!(Plant::from_code("HS01"), Ok(Plant::Lancaster));
    assert_eq!(Plant::from_code("HS02"), Ok(Plant::Williamsport));
    assert_eq!(Plant::Lancaster.code(), "HS01");
    assert_eq!(Plant::Williamsport.code(), "HS02");
}

#[test]
fn plant_unknown_code() {
    assert_eq!(Plant::from_code("HS03"), Err(UnknownCode { code: "HS03".to_string() }));
    assert_eq!(Plant::from_code(""), Err(UnknownCode { code: String::new() }));
}

#[test]
fn order_types() {
    assert_eq!(Order::new("PR", data(1)), Ok(Order::PlannedOrder(data(1))));
    assert_eq!(Order::new("PP01", data(1)), Ok(Order::ProductionOrder(data(1))));
    assert_eq!(Order::new("ZP01", data(1)), Err(UnknownCode { code: "ZP01".to_string() }));
    assert_eq!(Order::new("PP01", data(3)).unwrap().data().qty, 3);
}

#[test]
fn apply_qty_reduces() {
    let mut d = data(10);
    assert_eq!(d.apply_qty(4), Ok(()));
    assert_eq!(d.qty, 6);
    assert_eq!(d.apply_qty(6), Ok(()));
    assert_eq!(d.qty, 0);
}

#[test]
fn apply_qty_underflow() {
    let mut d = data(3);
    assert_eq!(d.apply_qty(4), Err(QuantityUnderflow { requested: 4, available: 3 }));
    assert_eq!(d, data(3));
}

#[test]
fn decimal_text() {
    assert_eq!(decimal_string(0), "0");
    assert_eq!(decimal_string(10), "10");
    assert_eq!(decimal_string(4294967295), "4294967295");
    assert_eq!(parse_decimal_range("x0042y", 1, 5), Some(42));
    assert_eq!(parse_decimal_range("4294967295", 0, 10), Some(u32::MAX));
    assert_eq!(parse_decimal_range("4294967296", 0, 10), None);
    assert_eq!(parse_decimal_range("12", 1, 1), None);
    assert_eq!(parse_decimal_range("1+2", 0, 3), None);
}
