use bwdta::identifiers::AddressIdentifier;
use bwdta::serde_support::concat_rows;
use bwdta::{
    DtaError, DtaFieldResult, DtaFieldSequenceSerializer, DtaFieldSerializer,
    DtaSequenceSerializer, DtaSerializer, DtaStructSerializer, DynamicRecordIdentifier,
    RecordIdentifier,
};

fn value(s: &str) -> DtaFieldResult {
    DtaFieldResult::Value(s.to_string())
}

#[test]
fn sequence_rows_take_upper_case_field_name_as_skz() {
    let seq = DtaFieldSerializer::new("positions").sequence_serializer();
    assert_eq!(seq.element_identifier().skz(), "POSITIONS");
    let seq = DtaFieldSequenceSerializer::new("straße");
    assert_eq!(seq.element_identifier().skz(), "STRASSE");
}

#[test]
fn empty_values_are_skipped() {
    let mut s = DtaStructSerializer::new(DynamicRecordIdentifier::new("ADR"));
    s.add_field("aa", value("")).unwrap();
    s.add_field("STAMMKALK", value("")).unwrap();
    assert_eq!(s.end().unwrap(), "þVARTþ0þSKZþADRþUEBERþN\n");
}

#[test]
fn dollar_names_and_vart_become_parameters() {
    let mut s = DtaStructSerializer::new(DynamicRecordIdentifier::new("ADR"));
    s.add_field("$MY$PARAM$", value("x")).unwrap();
    s.add_field("VART", value("3")).unwrap();
    s.add_field("ab", value("y")).unwrap();
    s.add_field("$", value("z")).unwrap();
    assert_eq!(
        s.end().unwrap(),
        "þVARTþ3þSKZþADRþUEBERþNþMYPARAMþxþþzþabþy \n"
    );
}

#[test]
fn unknown_dollar_parameter_is_refused_by_checked_types() {
    let mut s = DtaStructSerializer::new(AddressIdentifier);
    match s.add_field("$NOPE$", value("1")) {
        Err(DtaError::InvalidParam(k)) => assert_eq!(k, "NOPE"),
        other => panic!("unexpected {:?}", other),
    }
    s.add_field("$LANDKUNDA$", value("J")).unwrap();
    s.add_field("NOPE", value("1")).unwrap();
    assert_eq!(s.end().unwrap(), "þVARTþ0þSKZþADRþUEBERþNþLANDKUNDAþJþNOPEþ1 \n");
}

#[test]
fn nested_sequence_rows_follow_the_struct_row() {
    let mut s = DtaStructSerializer::new(DynamicRecordIdentifier::new("BEL"));
    s.add_field("aa", value("1")).unwrap();
    s.add_field(
        "pos",
        DtaFieldResult::Sequence(vec!["þSKZþPOS\n".to_string(), "þSKZþPOS2\n".to_string()]),
    )
    .unwrap();
    assert_eq!(
        s.end().unwrap(),
        "þVARTþ0þSKZþBELþUEBERþNþaaþ1 \nþSKZþPOS\nþSKZþPOS2\n"
    );
}

#[test]
fn top_level_sequence_joins_element_rows() {
    let mut seq = DtaSerializer::new(DynamicRecordIdentifier::new("ADR")).sequence_serializer();
    for nr in ["1", "2"] {
        let mut fields = seq.element_serializer().struct_serializer().unwrap();
        fields.add_field("aa", value(nr)).unwrap();
        seq.push_row(fields.end().unwrap());
    }
    assert_eq!(
        seq.end(),
        "þVARTþ0þSKZþADRþUEBERþNþaaþ1 \nþVARTþ0þSKZþADRþUEBERþNþaaþ2 \n"
    );
    let empty = DtaSequenceSerializer::new(DynamicRecordIdentifier::new("ADR"));
    assert_eq!(empty.end(), "");
}

#[test]
fn field_sequence_collects_rows() {
    let mut seq = DtaFieldSequenceSerializer::new("pos");
    seq.push_row("a".to_string());
    seq.push_row("b".to_string());
    match seq.end() {
        DtaFieldResult::Sequence(rows) => assert_eq!(rows, vec!["a", "b"]),
        other => panic!("unexpected {:?}", other),
    }
    assert_eq!(concat_rows(&vec!["x".to_string(), "".to_string(), "yz".to_string()]), "xyz");
}
