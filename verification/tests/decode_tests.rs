use transaction_engine::{
    decode_row, find_columns, parse_operation, parse_u16, parse_u32, trim, Amount, Engine,
    Operation,
};

const UNIT: i128 = 1_000_000_000_000;

fn fields(row: &[&str]) -> Vec<Vec<u8>> {
    row.iter().map(|s| s.as_bytes().to_vec()).collect()
}

#[test]
fn operation_names_parse_case_insensitively() {
    assert_eq!(parse_operation(b"deposit"), Some(Operation::Deposit));
    assert_eq!(parse_operation(b"Deposit"), Some(Operation::Deposit));
    assert_eq!(parse_operation(b"WITHDRAWAL"), Some(Operation::Withdrawal));
    assert_eq!(parse_operation(b"dispute"), Some(Operation::Dispute));
    assert_eq!(parse_operation(b"Resolve"), Some(Operation::Resolve));
    assert_eq!(parse_operation(b"chargeBack"), Some(Operation::Chargeback));
    assert_eq!(parse_operation(b"transfer"), None);
    assert_eq!(parse_operation(b""), None);
    assert_eq!(parse_operation(b"deposits"), None);
}

#[test]
fn integer_fields_parse_like_the_standard_parsers() {
    assert_eq!(parse_u16(b"0"), Some(0));
    assert_eq!(parse_u16(b"+7"), Some(7));
    assert_eq!(parse_u16(b"65535"), Some(65535));
    assert_eq!(parse_u16(b"65536"), None);
    assert_eq!(parse_u16(b"-1"), None);
    assert_eq!(parse_u16(b""), None);
    assert_eq!(parse_u16(b"1a"), None);
    assert_eq!(parse_u32(b"4294967295"), Some(4294967295));
    assert_eq!(parse_u32(b"4294967296"), None);
    assert_eq!(parse_u32(b"0012"), Some(12));
}

#[test]
fn amounts_parse_exactly_on_the_grid() {
    assert_eq!(Amount::parse(b"1.5").unwrap().to_units(), 15 * UNIT / 10);
    assert_eq!(Amount::parse(b"10").unwrap().to_units(), 10 * UNIT);
    assert_eq!(Amount::parse(b"0.0001").unwrap().to_units(), UNIT / 10_000);
    assert_eq!(
        Amount::parse(b"1.23456").unwrap().to_units(),
        1_234_560_000_000
    );
    assert_eq!(Amount::parse(b"-3").unwrap().to_units(), -3 * UNIT);
    assert_eq!(Amount::parse(b"+2.").unwrap().to_units(), 2 * UNIT);
    assert_eq!(Amount::parse(b".5").unwrap().to_units(), UNIT / 2);
    assert_eq!(
        Amount::parse(b"0.000000000001").unwrap().to_units(),
        1
    );
    assert!(Amount::parse(b"").is_none());
    assert!(Amount::parse(b".").is_none());
    assert!(Amount::parse(b"1.2.3").is_none());
    assert!(Amount::parse(b"1,5").is_none());
    assert!(Amount::parse(b"0.0000000000001").is_none());
    assert!(Amount::parse(b"100000000000000000000000000").is_none());
}

#[test]
fn rounding_to_four_digits_half_away_from_zero() {
    let a = Amount::parse(b"1.23456").unwrap();
    assert_eq!(a.round_dp4(), Amount::parse(b"1.2346").unwrap());
    let b = Amount::parse(b"1.23455").unwrap();
    assert_eq!(b.round_dp4(), Amount::parse(b"1.2346").unwrap());
    let c = Amount::parse(b"1.23454").unwrap();
    assert_eq!(c.round_dp4(), Amount::parse(b"1.2345").unwrap());
    let d = Amount::parse(b"-1.23456").unwrap();
    assert_eq!(d.round_dp4(), Amount::parse(b"-1.2346").unwrap());
    let e = Amount::parse(b"2").unwrap();
    assert_eq!(e.round_dp4(), e);
}

#[test]
fn trim_drops_surrounding_whitespace_only() {
    assert_eq!(trim(b"  1.5\t"), b"1.5".to_vec());
    assert_eq!(trim(b"deposit"), b"deposit".to_vec());
    assert_eq!(trim(b" \t "), Vec::<u8>::new());
    assert_eq!(trim(b"a b"), b"a b".to_vec());
}

#[test]
fn header_columns_found_in_any_order_and_case() {
    let header = fields(&[" Amount", "TX", "client", "type"]);
    let cols = find_columns(&header).unwrap();
    assert_eq!(cols.type_idx, 3);
    assert_eq!(cols.client_idx, 2);
    assert_eq!(cols.tx_idx, 1);
    assert_eq!(cols.amount_idx, 0);
    let missing = fields(&["type", "client", "amount"]);
    assert!(find_columns(&missing).is_none());
}

#[test]
fn rows_decode_with_trimming_and_optional_amount() {
    let header = fields(&["type", "client", "tx", "amount"]);
    let cols = find_columns(&header).unwrap();
    let row = fields(&[" deposit", " 1", "7 ", " 2.5 "]);
    let input = decode_row(&cols, &row).unwrap();
    assert_eq!(input.operation, Operation::Deposit);
    assert_eq!(input.client_id, 1);
    assert_eq!(input.transaction_id, 7);
    assert_eq!(input.amount.unwrap().to_units(), 25 * UNIT / 10);
    // a short row without the amount field still decodes
    let row2 = fields(&["dispute", "1", "7"]);
    let input2 = decode_row(&cols, &row2).unwrap();
    assert_eq!(input2.operation, Operation::Dispute);
    assert!(input2.amount.is_none());
    // an unparseable amount leaves the record without one
    let row3 = fields(&["deposit", "1", "8", "abc"]);
    let input3 = decode_row(&cols, &row3).unwrap();
    assert!(input3.amount.is_none());
}

#[test]
fn malformed_rows_are_rejected() {
    let header = fields(&["type", "client", "tx", "amount"]);
    let cols = find_columns(&header).unwrap();
    assert!(decode_row(&cols, &fields(&["deposit", "abc", "1", "5"])).is_none());
    assert!(decode_row(&cols, &fields(&["transfer", "1", "1", "5"])).is_none());
    assert!(decode_row(&cols, &fields(&["deposit", "1"])).is_none());
    assert!(decode_row(&cols, &fields(&["deposit", "70000", "1", "5"])).is_none());
}

#[test]
fn malformed_row_is_skipped_and_the_rest_still_processed() {
    let header = fields(&["type", "client", "tx", "amount"]);
    let cols = find_columns(&header).unwrap();
    let rows = [
        fields(&["deposit", "1", "1", "10"]),
        fields(&["deposit", "x", "2", "99"]),
        fields(&["withdrawal", "1", "3", "4"]),
    ];
    let mut engine = Engine::new();
    for row in rows.iter() {
        if let Some(input) = decode_row(&cols, row) {
            engine.process(input);
        }
    }
    let out = engine.into_account_statuses();
    assert_eq!(out.len(), 1);
    assert_eq!(out[0].client_id, 1);
    assert_eq!(out[0].available.to_units(), 6 * UNIT);
    assert_eq!(out[0].total.to_units(), 6 * UNIT);
}
