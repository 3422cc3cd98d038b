use sap_watch::wbs::{Wbs, WbsError, WbsKind};

fn hd(job: &str, id: u32) -> Wbs {
    Wbs::Hd { job: job.to_string(), id }
}

fn legacy(job: &str, shipment: u32) -> Wbs {
    Wbs::Legacy { job: job.to_string(), shipment }
}

#[test]
fn parse_legacy_two_digit_group() {
    assert_eq!(Wbs::parse("S-1234567-2-03"), Ok(legacy("1234567", 3)));
}

#[test]
fn parse_cost_center_four_digit_group() {
    assert_eq!(Wbs::parse("S-1234567-2-2027"), Ok(Wbs::CostCenter { cc: 2027 }));
}

#[test]
fn parse_cost_center_any_middle_text() {
    assert_eq!(Wbs::parse("S-ABC-XY-2-2999"), Ok(Wbs::CostCenter { cc: 2999 }));
    assert_eq!(Wbs::parse("S--2-2000"), Ok(Wbs::CostCenter { cc: 2000 }));
}

#[test]
fn parse_hard_dollar() {
    assert_eq!(Wbs::parse("D-1234567-00042"), Ok(hd("1234567", 42)));
}

#[test]
fn parse_empty_is_no_wbs() {
    assert_eq!(Wbs::parse(""), Ok(Wbs::NoWbs));
    assert_eq!(Wbs::NoWbs.format(), "");
}

#[test]
fn parse_malformed() {
    for s in [
        "X",
        "S-1234567-2-3",
        "D-123456-00042",
        "D-1234567-0042",
        "S-1234567-3-03",
        "S-12345a7-2-03",
        " D-1234567-00042",
        "D-1234567-00042 ",
        "S-1234567-2-3027",
        "S-\n-2-2000",
        "S-ab\ncd-2-2000",
    ] {
        assert_eq!(Wbs::parse(s), Err(WbsError::MalformedIdentifier(s.to_string())), "{}", s);
    }
}

#[test]
fn encodings_select_one_variant_each() {
    assert_eq!(Wbs::parse("S-7654321-2-2100").unwrap().kind(), WbsKind::CostCenter);
    assert_eq!(Wbs::parse("D-7654321-10000").unwrap().kind(), WbsKind::Hd);
    assert_eq!(Wbs::parse("S-7654321-2-21").unwrap().kind(), WbsKind::Legacy);
}

#[test]
fn format_canonical_forms() {
    assert_eq!(Wbs::CostCenter { cc: 2027 }.format(), "2027");
    assert_eq!(hd("1234567", 42).format(), "D-1234567-00042");
    assert_eq!(hd("1234567", 123456).format(), "D-1234567-123456");
    assert_eq!(legacy("1234567", 3).format(), "S-1234567-2-03");
    assert_eq!(legacy("1234567", 345).format(), "S-1234567-2-345");
    assert_eq!(Wbs::CostCenter { cc: 0 }.format(), "0");
    assert_eq!(Wbs::CostCenter { cc: u32::MAX }.format(), "4294967295");
}

#[test]
fn format_after_parse() {
    for s in ["D-1234567-12345", "D-1234567-00042", "D-0000000-00000", "S-1234567-2-03", "S-1234567-2-45"] {
        assert_eq!(Wbs::parse(s).unwrap().format(), s);
    }
    assert_eq!(Wbs::parse("S-1234567-2-2027").unwrap().format(), "2027");
}

#[test]
fn promote_legacy_takes_new_id() {
    assert_eq!(legacy("1234567", 3).into_hd_wbs(77), Ok(hd("1234567", 77)));
}

#[test]
fn promote_hard_dollar_unchanged() {
    assert_eq!(hd("1234567", 42).into_hd_wbs(77), Ok(hd("1234567", 42)));
}

#[test]
fn promote_refused() {
    assert_eq!(
        Wbs::CostCenter { cc: 2027 }.into_hd_wbs(1),
        Err(WbsError::InvalidPromotion(WbsKind::CostCenter))
    );
    assert_eq!(Wbs::NoWbs.into_hd_wbs(1), Err(WbsError::InvalidPromotion(WbsKind::NoWbs)));
}

#[test]
fn set_id_on_hard_dollar() {
    assert_eq!(hd("1234567", 42).set_id(9), Ok(hd("1234567", 9)));
}

#[test]
fn set_id_refused() {
    assert_eq!(legacy("1234567", 3).set_id(9), Err(WbsError::NotHardDollar(WbsKind::Legacy)));
    assert_eq!(
        Wbs::CostCenter { cc: 2001 }.set_id(9),
        Err(WbsError::NotHardDollar(WbsKind::CostCenter))
    );
    assert_eq!(Wbs::NoWbs.set_id(9), Err(WbsError::NotHardDollar(WbsKind::NoWbs)));
}
