use bwdta::identifiers::AddressIdentifier;
use bwdta::{parse_dta_rows, parse_dta_string, parse_dta_string_with_identifier, RecordIdentifier};

#[test]
fn test_parse_simple_dta_string() {
    let dta_string =
        "þVARTþ0þSKZþADRþUEBERþNþSTAMMKALKþJþLANDKUNDAþJþaaþ809460 þacþClaas þadþElke \n";
    let row = parse_dta_string(dta_string).unwrap();

    assert_eq!(row.params.get("VART"), Some(&"0".to_string()));
    assert_eq!(row.params.get("UEBER"), Some(&"N".to_string()));
    assert_eq!(row.params.get("STAMMKALK"), Some(&"J".to_string()));
    assert_eq!(row.params.get("LANDKUNDA"), Some(&"J".to_string()));
    assert_eq!(row.data_fields.len(), 3);

    let mut sorted_fields = row.data_fields.clone();
    sorted_fields.sort_by(|a, b| a.0.cmp(&b.0));
    assert_eq!(sorted_fields[0], ("aa".to_string(), "809460".to_string()));
    assert_eq!(sorted_fields[1], ("ac".to_string(), "Claas".to_string()));
    assert_eq!(sorted_fields[2], ("ad".to_string(), "Elke".to_string()));
}

#[test]
fn test_parse_dta_string_with_identifier() {
    let dta_string =
        "þVARTþ0þSKZþADRþUEBERþNþSTAMMKALKþJþLANDKUNDAþJþaaþ809460 þacþClaas þadþElke \n";
    let row = parse_dta_string_with_identifier::<AddressIdentifier>(dta_string).unwrap();

    assert_eq!(row.params.get("STAMMKALK"), Some(&"J".to_string()));
    assert_eq!(row.params.get("LANDKUNDA"), Some(&"J".to_string()));
    assert_eq!(row.data_fields.len(), 3);
}

#[test]
fn test_parse_multiple_rows() {
    let dta_content = "þVARTþ0þSKZþADRþUEBERþNþSTAMMKALKþJþaaþ809460 \n\
                       þVARTþ0þSKZþPOSþUEBERþNþaaþ1 þabþART001 \n\
                       þVARTþ0þSKZþPOSþUEBERþNþaaþ2 þabþART002 \n";

    let rows = parse_dta_rows(dta_content).unwrap();
    assert_eq!(rows.len(), 3);

    assert_eq!(rows[0].identifier.skz(), "ADR");
    assert_eq!(rows[1].identifier.skz(), "POS");
    assert_eq!(rows[2].identifier.skz(), "POS");
}

#[test]
fn test_parse_invalid_string() {
    let invalid_string = "VARTþ0þSKZþADR";
    assert!(parse_dta_string(invalid_string).is_err());
}

#[test]
fn test_parse_minimal_dta_string() {
    let dta_string = "þVARTþ0þSKZþADRþUEBERþN\n";
    let row = parse_dta_string(dta_string).unwrap();

    assert_eq!(row.params.get("VART"), Some(&"0".to_string()));
    assert_eq!(row.params.get("UEBER"), Some(&"N".to_string()));
    assert_eq!(row.data_fields.len(), 0);
}

#[test]
fn test_round_trip() {
    let original =
        "þVARTþ0þSKZþADRþUEBERþNþSTAMMKALKþJþLANDKUNDAþJþaaþ809460 þacþClaas þadþElke \n";
    let parsed = parse_dta_string(original).unwrap();
    let serialized = parsed.to_dta_string().unwrap();

    assert_eq!(original, serialized);
}

#[test]
fn test_arbitrary_parameter_order() {
    let dta_string = "þVARTþ1þSKZþADRþUEBERþJþLANDKUNDAþNþSTAMMKALKþJþaaþ12345 þabþTest \n";
    let row = parse_dta_string(dta_string).unwrap();

    assert_eq!(row.params.get("VART"), Some(&"1".to_string()));
    assert_eq!(row.params.get("UEBER"), Some(&"J".to_string()));
    assert_eq!(row.params.get("LANDKUNDA"), Some(&"N".to_string()));
    assert_eq!(row.params.get("STAMMKALK"), Some(&"J".to_string()));
    assert_eq!(row.data_fields.len(), 2);

    let mut sorted_fields = row.data_fields.clone();
    sorted_fields.sort_by(|a, b| a.0.cmp(&b.0));
    assert_eq!(sorted_fields[0], ("aa".to_string(), "12345".to_string()));
    assert_eq!(sorted_fields[1], ("ab".to_string(), "Test".to_string()));
}

#[test]
fn test_vart_not_first_parameter() {
    let dta_string1 = "þSKZþADRþVARTþ1þUEBERþJþSTAMMKALKþJþaaþ12345 \n";
    let row1 = parse_dta_string(dta_string1).unwrap();
    assert_eq!(row1.params.get("VART"), Some(&"1".to_string()));
    assert_eq!(row1.identifier().skz(), "ADR");
    assert_eq!(row1.params.get("UEBER"), Some(&"J".to_string()));
    assert_eq!(row1.data_fields.len(), 1);

    let dta_string2 = "þUEBERþNþSKZþADRþSTAMMKALKþJþVARTþ0þaaþ54321 \n";
    let row2 = parse_dta_string(dta_string2).unwrap();
    assert_eq!(row2.params.get("VART"), Some(&"0".to_string()));
    assert_eq!(row2.identifier().skz(), "ADR");
    assert_eq!(row2.params.get("UEBER"), Some(&"N".to_string()));
    assert_eq!(row2.data_fields.len(), 1);

    let dta_string3 = "þSTAMMKALKþJþVARTþ2þSKZþADRþUEBERþYþaaþ11111 \n";
    let row3 = parse_dta_string(dta_string3).unwrap();
    assert_eq!(row3.params.get("VART"), Some(&"2".to_string()));
    assert_eq!(row3.identifier().skz(), "ADR");
    assert_eq!(row3.params.get("UEBER"), Some(&"Y".to_string()));
    assert_eq!(row3.data_fields.len(), 1);
}
