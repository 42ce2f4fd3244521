use bwdta::identifiers::{AddressIdentifier, OrderNoteIdentifier, OrderPositionIdentifier};
use bwdta::{
    parse_dta_rows, parse_dta_string, parse_dta_string_with_identifier, DtaRow, DtaRowBuilder, DynamicRecordIdentifier,
    RecordIdentifier, DEFAULT_PARAM_ORDER,
};

#[test]
fn written_row_reads_back() {
    let row = DtaRowBuilder::new(DynamicRecordIdentifier::new("ADR"))
        .param("VART", "2")
        .unwrap()
        .param("ZZZ", "last")
        .unwrap()
        .param("STAMMKALK", "J")
        .unwrap()
        .data("ad", "Elke")
        .data("aa", "809460")
        .build()
        .unwrap();
    let text = row.to_dta_string().unwrap();
    assert_eq!(text, "þVARTþ2þSKZþADRþUEBERþNþSTAMMKALKþJþZZZþlastþaaþ809460 þadþElke \n");

    let back = parse_dta_string(&text).unwrap();
    assert_eq!(back.identifier.skz(), "ADR");
    assert_eq!(back.params.get("VART"), Some(&"2".to_string()));
    assert_eq!(back.params.get("UEBER"), Some(&"N".to_string()));
    assert_eq!(back.params.get("STAMMKALK"), Some(&"J".to_string()));
    assert_eq!(back.params.get("ZZZ"), Some(&"last".to_string()));
    assert_eq!(
        back.data_fields,
        vec![
            ("aa".to_string(), "809460".to_string()),
            ("ad".to_string(), "Elke".to_string())
        ]
    );
}

#[test]
fn read_row_writes_back_the_same_text() {
    let text = "þVARTþ1þSKZþADRþUEBERþJþSTAMMKALKþJþLANDKUNDAþNþaaþ12345 þabþTest \n";
    let row = parse_dta_string(text).unwrap();
    assert_eq!(row.to_dta_string().unwrap(), text);
    let again = parse_dta_string(&row.to_dta_string().unwrap()).unwrap();
    assert_eq!(again.to_dta_string().unwrap(), text);
}

#[test]
fn header_defaults_when_absent() {
    let row = parse_dta_string("þSKZþPOSþaaþ1 \n").unwrap();
    assert_eq!(row.params.get("VART"), Some(&"0".to_string()));
    assert_eq!(row.params.get("UEBER"), Some(&"N".to_string()));
    assert_eq!(row.to_dta_string().unwrap(), "þVARTþ0þSKZþPOSþUEBERþNþaaþ1 \n");
}

#[test]
fn data_values_are_trimmed_at_the_end_only() {
    let row = parse_dta_string("þSKZþADRþaaþ  x y  þabþz\t\n").unwrap();
    assert_eq!(
        row.data_fields,
        vec![
            ("aa".to_string(), "  x y".to_string()),
            ("ab".to_string(), "z".to_string())
        ]
    );
}

#[test]
fn odd_data_key_without_value_is_dropped() {
    let row = parse_dta_string("þSKZþADRþaaþ1 þab\n").unwrap();
    assert_eq!(row.data_fields, vec![("aa".to_string(), "1".to_string())]);
}

#[test]
fn parameters_after_data_fields_are_data() {
    let row = parse_dta_string("þSKZþADRþaaþ1 þSTAMMKALKþJ\n").unwrap();
    assert!(row.params.get("STAMMKALK").is_none());
    assert_eq!(
        row.data_fields,
        vec![
            ("aa".to_string(), "1".to_string()),
            ("STAMMKALK".to_string(), "J".to_string())
        ]
    );
}

#[test]
fn rows_skip_blank_lines() {
    let rows = parse_dta_rows("\n  \nþSKZþADRþaaþ1 \n\n   þSKZþPOS  \n").unwrap();
    assert_eq!(rows.len(), 2);
    assert_eq!(rows[0].identifier.skz(), "ADR");
    assert_eq!(rows[1].identifier.skz(), "POS");
    assert!(parse_dta_rows("").unwrap().is_empty());
}

#[test]
fn built_in_types_name_their_parameters() {
    assert_eq!(AddressIdentifier.skz(), "ADR");
    assert_eq!(OrderPositionIdentifier.skz(), "POS");
    assert_eq!(OrderNoteIdentifier::BNOTV.skz(), "BNOTV");
    assert!(AddressIdentifier::check_params());
    assert!(!DynamicRecordIdentifier::check_params());
    assert!(AddressIdentifier::required_params().is_empty());
    let optional = AddressIdentifier::optional_params();
    assert!(optional.contains(&"LANDKUNDA".to_string()));
    assert!(optional.contains(&"UEBER".to_string()));
    let order = OrderNoteIdentifier::param_order();
    assert_eq!(order.len(), DEFAULT_PARAM_ORDER.len() + 1);
    assert_eq!(order[0], "UEBER");
    assert_eq!(order[order.len() - 1], "NOTIZART");
}

#[test]
fn validate_accepts_rows_of_built_in_types() {
    let row: DtaRow<AddressIdentifier> = DtaRow::new(AddressIdentifier);
    assert!(row.validate().is_ok());
    assert_eq!(row.to_dta_string().unwrap(), "þVARTþ0þSKZþADRþUEBERþN\n");
}

#[test]
fn typed_row_rewrites_to_the_same_text() {
    let row = DtaRowBuilder::new(AddressIdentifier)
        .param("LANDKUNDA", "J")
        .unwrap()
        .param("STAMMKALK", "N")
        .unwrap()
        .param("PROT", "1")
        .unwrap()
        .data("ab", "x")
        .data("aa", "1")
        .build()
        .unwrap();
    let text = row.to_dta_string().unwrap();
    assert_eq!(
        text,
        "þVARTþ0þSKZþADRþUEBERþNþPROTþ1þSTAMMKALKþNþLANDKUNDAþJþaaþ1 þabþx \n"
    );
    let again = parse_dta_string_with_identifier::<AddressIdentifier>(&text).unwrap();
    assert_eq!(again.to_dta_string().unwrap(), text);
}

#[test]
fn data_field_codes_may_hold_digits() {
    let row = parse_dta_string("þVARTþ0þSKZþARTþUEBERþNþn12þ5 \n").unwrap();
    assert_eq!(row.data_fields, vec![("n12".to_string(), "5".to_string())]);
    assert!(!row.params.contains_key("n12"));

    let row = parse_dta_string("þSKZþARTþa01þx þb2þy \n").unwrap();
    assert_eq!(
        row.data_fields,
        vec![("a01".to_string(), "x".to_string()), ("b2".to_string(), "y".to_string())]
    );

    let row = parse_dta_string("þSKZþARTþ1abþx\n").unwrap();
    assert_eq!(row.params.get("1ab"), Some(&"x".to_string()));
    assert!(row.data_fields.is_empty());
}

#[test]
fn written_digit_codes_read_back_as_data() {
    let row = DtaRowBuilder::new(DynamicRecordIdentifier::new("ART"))
        .data("n12", "5")
        .data("a01", "x")
        .build()
        .unwrap();
    let text = row.to_dta_string().unwrap();
    assert_eq!(text, "þVARTþ0þSKZþARTþUEBERþNþa01þx þn12þ5 \n");
    let back = parse_dta_string(&text).unwrap();
    assert_eq!(
        back.data_fields,
        vec![("a01".to_string(), "x".to_string()), ("n12".to_string(), "5".to_string())]
    );
    assert_eq!(back.to_dta_string().unwrap(), text);
}

#[test]
fn row_setters_chain() {
    let mut row = DtaRow::new(DynamicRecordIdentifier::new("ADR"));
    row.with_param("STAMMKALK", "J")
        .unwrap()
        .with_param("ZZ", "1")
        .unwrap()
        .with_data_field("ab", "y")
        .with_data_field("aa", "x");
    assert_eq!(
        row.to_dta_string().unwrap(),
        "þVARTþ0þSKZþADRþUEBERþNþSTAMMKALKþJþZZþ1þaaþx þabþy \n"
    );
}
