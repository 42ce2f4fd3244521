use bwdta::identifiers::AddressIdentifier;
use bwdta::{
    parse_dta_string, parse_dta_string_with_identifier, DtaFieldResult, DtaFieldSerializer, DtaRow,
    DtaRowBuilder, DtaSerializer, DynamicRecordIdentifier, RecordIdentifier,
};

#[test]
fn test_basic_row_creation() {
    let identifier = DynamicRecordIdentifier::new("ADR");
    let row = DtaRowBuilder::new(identifier)
        .param("STAMMKALK", "J")
        .unwrap()
        .param("LANDKUNDA", "J")
        .unwrap()
        .data("aa", "809460")
        .data("ac", "Claas")
        .data("ad", "Elke")
        .build()
        .unwrap();

    let output = row.to_dta_string().unwrap();
    assert_eq!(
        output,
        "þVARTþ0þSKZþADRþUEBERþNþSTAMMKALKþJþLANDKUNDAþJþaaþ809460 þacþClaas þadþElke \n"
    );
}

#[test]
#[should_panic]
fn test_basic_row_creation_unknown_param() {
    let identifier = AddressIdentifier;
    DtaRowBuilder::new(identifier)
        .param("LANDKUNDA", "J")
        .unwrap()
        .param("MYPARAM", "J")
        .unwrap()
        .data("aa", "809460")
        .data("ac", "Claas")
        .data("ad", "Elke")
        .build()
        .unwrap();
}

fn value(s: &str) -> DtaFieldResult {
    DtaFieldResult::Value(s.to_string())
}

#[test]
fn test_serde_serialization() {
    let identifier = DynamicRecordIdentifier::new("ADR");
    let mut fields = DtaSerializer::new(identifier).struct_serializer().unwrap();
    fields.add_field("STAMMKALK", value("J")).unwrap();
    fields.add_field("$LANDKUNDA$", value("J")).unwrap();
    fields.add_field("aa", value("809460")).unwrap();
    fields.add_field("ac", value("Claas")).unwrap();
    fields.add_field("ad", value("Elke")).unwrap();

    let serialized = fields.end().unwrap();
    assert_eq!(
        serialized,
        "þVARTþ0þSKZþADRþUEBERþNþSTAMMKALKþJþLANDKUNDAþJþaaþ809460 þacþClaas þadþElke \n"
    );
}

fn position_rows(positions: &[(&str, &str, &str)]) -> DtaFieldResult {
    let mut seq = DtaFieldSerializer::new("POS").sequence_serializer();
    for (nr, code, qty) in positions {
        let mut fields = DtaSerializer::new(seq.element_identifier())
            .struct_serializer()
            .unwrap();
        fields.add_field("aa", value(nr)).unwrap();
        fields.add_field("ab", value(code)).unwrap();
        fields.add_field("ac", value(qty)).unwrap();
        seq.push_row(fields.end().unwrap());
    }
    seq.end()
}

#[test]
fn test_sequence_serialization() {
    let identifier = DynamicRecordIdentifier::new("BEL");
    let mut fields = DtaSerializer::new(identifier).struct_serializer().unwrap();
    fields.add_field("STAMMKALK", value("J")).unwrap();
    fields.add_field("aa", value("809460")).unwrap();
    fields.add_field("ac", value("Claas")).unwrap();
    fields
        .add_field("POS", position_rows(&[("1", "ART001", "5"), ("2", "ART002", "3")]))
        .unwrap();

    let serialized = fields.end().unwrap();
    assert_eq!(
        serialized,
        r#"þVARTþ0þSKZþBELþUEBERþNþSTAMMKALKþJþaaþ809460 þacþClaas 
þVARTþ0þSKZþPOSþUEBERþNþaaþ1 þabþART001 þacþ5 
þVARTþ0þSKZþPOSþUEBERþNþaaþ2 þabþART002 þacþ3 
"#
    );
}

#[test]
fn test_parsing_integration() {
    let dta_string =
        "þVARTþ0þSKZþADRþUEBERþNþSTAMMKALKþJþLANDKUNDAþJþaaþ809460 þacþClaas þadþElke \n";

    let dynamic_row = parse_dta_string(dta_string).unwrap();
    assert_eq!(dynamic_row.identifier.skz(), "ADR");
    assert_eq!(dynamic_row.params.get("STAMMKALK"), Some(&"J".to_string()));

    let typed_row = parse_dta_string_with_identifier::<AddressIdentifier>(dta_string).unwrap();
    assert_eq!(typed_row.params.get("STAMMKALK"), Some(&"J".to_string()));

    let row_from_method = DtaRow::<AddressIdentifier>::from_dta_string(dta_string).unwrap();
    assert_eq!(row_from_method.params.get("STAMMKALK"), Some(&"J".to_string()));
}

#[test]
fn test_round_trip_parsing() {
    let identifier = DynamicRecordIdentifier::new("ADR");
    let original_row = DtaRowBuilder::new(identifier)
        .param("STAMMKALK", "J")
        .unwrap()
        .param("LANDKUNDA", "J")
        .unwrap()
        .data("aa", "809460")
        .data("ac", "Claas")
        .data("ad", "Elke")
        .build()
        .unwrap();

    let dta_string = original_row.to_dta_string().unwrap();
    let parsed_row = parse_dta_string(&dta_string).unwrap();

    assert_eq!(dta_string, parsed_row.to_dta_string().unwrap());
}
