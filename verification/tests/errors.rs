use bwdta::identifiers::{AddressIdentifier, ProductIdentifier};
use bwdta::serde_support::{nested_struct_error, unsupported};
use bwdta::{
    parse_dta_rows, parse_dta_string, parse_dta_string_with_identifier, DtaError, DtaRow,
    DtaRowBuilder,
};

fn parse_message(e: DtaError) -> String {
    match e {
        DtaError::ParseError(m) => m,
        other => panic!("expected a parse error, got {:?}", other),
    }
}

#[test]
fn parse_error_when_not_starting_with_thorn() {
    let e = parse_dta_string("VARTþ0þSKZþADR\n").unwrap_err();
    assert_eq!(parse_message(e), "DTA string must start with 'þ'");
    let e = parse_dta_string("").unwrap_err();
    assert_eq!(parse_message(e), "DTA string must start with 'þ'");
}

#[test]
fn parse_error_for_key_without_value() {
    let e = parse_dta_string("þVARTþ0þSKZ\n").unwrap_err();
    assert_eq!(parse_message(e), "Missing value for key: SKZ");
}

#[test]
fn parse_error_when_skz_is_missing() {
    let e = parse_dta_string("þVARTþ0þUEBERþN\n").unwrap_err();
    assert_eq!(parse_message(e), "Missing SKZ parameter");
    let e = parse_dta_string("þ\n").unwrap_err();
    assert_eq!(parse_message(e), "Missing value for key: ");
}

#[test]
fn parse_error_on_skz_mismatch() {
    let e = parse_dta_string_with_identifier::<AddressIdentifier>("þSKZþPOSþaaþ1 \n").unwrap_err();
    assert_eq!(parse_message(e), "SKZ mismatch: expected 'ADR', got 'POS'");
    let e = parse_dta_string_with_identifier::<ProductIdentifier>("þSKZþartþaaþ1 \n").unwrap_err();
    assert_eq!(parse_message(e), "SKZ mismatch: expected 'ART', got 'art'");
}

#[test]
fn parse_rows_reports_first_bad_line() {
    let e = parse_dta_rows("þSKZþADR\nbad line\nþSKZ\n").unwrap_err();
    assert_eq!(parse_message(e), "DTA string must start with 'þ'");
}

#[test]
fn invalid_param_is_refused_by_checked_types() {
    let mut row = DtaRow::new(ProductIdentifier);
    match row.with_param("MYPARAM", "J") {
        Err(DtaError::InvalidParam(k)) => assert_eq!(k, "MYPARAM"),
        other => panic!("unexpected {:?}", other),
    }
    assert!(row.params.is_empty());
    assert!(row.with_param("UEBER", "J").is_ok());
    assert_eq!(row.params.get("UEBER"), Some(&"J".to_string()));
}

#[test]
fn builder_param_error_is_invalid_param() {
    match DtaRowBuilder::new(AddressIdentifier).param("NOPE", "1") {
        Err(DtaError::InvalidParam(k)) => assert_eq!(k, "NOPE"),
        Err(other) => panic!("unexpected {:?}", other),
        Ok(_) => panic!("accepted an unknown parameter"),
    }
}

#[test]
fn serde_error_messages() {
    match unsupported("bytes") {
        DtaError::Serde(m) => assert_eq!(m, "DTA format doesn't support bytes"),
        other => panic!("unexpected {:?}", other),
    }
    match nested_struct_error() {
        DtaError::Serde(m) => assert_eq!(m, "Nested structs are not supported in DTA format"),
        other => panic!("unexpected {:?}", other),
    }
}
