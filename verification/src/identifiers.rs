//! Record identifiers: the record type (SKZ) of a row and the parameters
//! that the record type accepts, requires and orders.

use vstd::prelude::*;
use crate::orders::{
    lemma_differ_early,
    lemma_address_optional_list_distinct,
    lemma_address_output_order_distinct,
    lemma_address_product_optional_list_distinct,
    lemma_address_product_output_order_distinct,
    lemma_delivery_address_optional_list_distinct,
    lemma_delivery_address_output_order_distinct,
    lemma_dynamic_optional_list_distinct,
    lemma_dynamic_output_order_distinct,
    lemma_order_note_optional_list_distinct,
    lemma_order_note_output_order_distinct,
    lemma_order_optional_list_distinct,
    lemma_order_output_order_distinct,
    lemma_order_position_optional_list_distinct,
    lemma_order_position_output_order_distinct,
    lemma_product_optional_list_distinct,
    lemma_product_output_order_distinct,
};

verus! {

/// Default required parameters (none by default).
pub const DEFAULT_REQUIRED_PARAMS: [&'static str; 0] = [];

/// Default optional parameters available for all record types.
pub const DEFAULT_OPTIONAL_PARAMS: [&'static str; 9] = [
    "PROT",
    "STAMMKALK",
    "AENDERV",
    "ALLEALPHA",
    "READONLY",
    "ANSIASCII",
    "UTF8_ANSI",
    "HTTPREQUEST",
    "UEBER",
];

/// Default parameter ordering for output.
pub const DEFAULT_PARAM_ORDER: [&'static str; 9] = [
    "UEBER",
    "PROT",
    "STAMMKALK",
    "AENDERV",
    "ALLEALPHA",
    "READONLY",
    "ANSIASCII",
    "UTF8_ANSI",
    "HTTPREQUEST",
];

/// Parameters specific to address records (ADR).
pub const ADDRESS_PARAMS: [&'static str; 11] = [
    "LANDKUNDA",
    "LOADEMAIL",
    "NURNEUANLAGE",
    "CODEPRF",
    "NEUE_ADR",
    "ADD_ADRSELPOOL",
    "ADD_ANP",
    "WFLSCRIPT_NACHIMPORT_STARTEN",
    "SCRIPT_NR_NACH",
    "SCRIPT_UEBERGABE",
    "ADRKREIS",
];

/// Parameters specific to address-product records (ADA).
pub const ADDRESS_PRODUCT_PARAMS: [&'static str; 5] = [
    "EANCODE",
    "BESTELLNR_UMSETZEN",
    "ADD_ADASELPOOL",
    "MP_PROTOKOLLIERUNG",
    "PRUEFE_ARTNR",
];

/// Parameters specific to product records (ART).
pub const PRODUCT_PARAMS: [&'static str; 15] = [
    "EANCODE",
    "BESTELLNR_UMSETZEN",
    "ARTTEXT",
    "MP_PRODID",
    "MP_ID",
    "MP_PROTOKOLLIERUNG",
    "MP_UPLOADDATUMSETZEN",
    "EKUPDATE",
    "STK_A01_PREIS",
    "STK_SUBARTIKEL",
    "ADD_ARTSELPOOL",
    "POSLTXTUEBER",
    "WFLSCRIPT_NACHIMPORT_STARTEN",
    "SCRIPT_NR_NACH",
    "SCRIPT_UEBERGABE",
];

/// Parameters specific to delivery address records (LFA).
pub const DELIVERY_ADDRESS_PARAMS: [&'static str; 1] = ["LETZTE_ADR_SETZEN"];

/// Parameters specific to order records (BEL).
pub const ORDER_PARAMS: [&'static str; 15] = [
    "BELDATERG",
    "BELGESNULL",
    "BELGESSUM",
    "BELSUMMENBER",
    "VERSANDBER",
    "ST_KALK",
    "DEL_BELSELPOOL",
    "ADD_BELSELPOOL",
    "NUR_WFLSCRIPT_STARTEN",
    "SCRIPT_NR",
    "WFLSCRIPT_NACHIMPORT_STARTEN",
    "SCRIPT_NR_NACH",
    "SCRIPT_UEBERGABE",
    "ZKO_BERECHNEN",
    "NEUERBELEG",
];

/// Parameters specific to order note records (BNOT, BNOTN, BNOTV).
pub const ORDER_NOTE_PARAMS: [&'static str; 1] = ["NOTIZART"];

/// Parameters specific to order position records (POS).
pub const ORDER_POSITION_PARAMS: [&'static str; 24] = [
    "FOSTAND",
    "FOMENGE",
    "FOEAN",
    "PREISBER",
    "POSDATERG",
    "EAN",
    "POSITIONSVERBUCHUNG",
    "POSNR",
    "BELPOSTITEL",
    "POSLTXTUEBER",
    "CHAAUTO",
    "SERAUTO",
    "IMMERUEBER",
    "ZUEBER",
    "FORMEL_1029",
    "FOLGE_ARTIKEL",
    "POSDATEN_SICHERN",
    "POSDATEN_LADEN",
    "SCRIPT_NR",
    "ARTKIT_AUFLOESEN",
    "HSTKL_AUFLOESUNG",
    "AUF_HST_PRUEFEN",
    "ZWISCHENSUMMEN",
    "ALTERNATIVARTIKEL",
];

/// The character sequences of a list of names.
pub open spec fn names(a: Seq<&str>) -> Seq<Seq<char>> {
    a.map_values(|s: &str| s@)
}

/// Owned copies of `a`, in order.
pub fn strings_from(a: &[&str]) -> (r: Vec<String>)
    ensures
        r.deep_view() == names(a@),
{
    let mut r: Vec<String> = Vec::new();
    let mut i: usize = 0;
    while i < a.len()
        invariant
            i <= a@.len(),
            r.deep_view() == names(a@.take(i as int)),
        decreases a@.len() - i,
    {
        let ghost before = r.deep_view();
        r.push(a[i].to_owned());
        proof {
            assert(a@.take(i + 1) == a@.take(i as int).push(a@[i as int]));
            assert(r.deep_view() =~= before.push(a@[i as int]@));
            assert(names(a@.take(i + 1)) =~= names(a@.take(i as int)).push(a@[i as int]@));
        }
        i = i + 1;
    }
    proof {
        assert(a@.take(a@.len() as int) == a@);
    }
    r
}

/// Owned copies of `a` followed by owned copies of `b`.
pub fn strings_from_both(a: &[&str], b: &[&str]) -> (r: Vec<String>)
    ensures
        r.deep_view() == names(a@) + names(b@),
{
    let mut r = strings_from(a);
    let mut rest = strings_from(b);
    let ghost ra = r.deep_view();
    let ghost rb = rest.deep_view();
    r.append(&mut rest);
    proof {
        assert(r.deep_view() =~= ra + rb);
    }
    r
}

/// The names that every record type accepts as optional parameters.
pub open spec fn default_optional_names() -> Seq<Seq<char>> {
    names(DEFAULT_OPTIONAL_PARAMS@)
}

/// The default output order of parameters.
pub open spec fn default_order_names() -> Seq<Seq<char>> {
    names(DEFAULT_PARAM_ORDER@)
}

/// A record type: its SKZ (Satzkennzeichen, record identifier) and the
/// parameters it requires, accepts and orders.
pub trait RecordIdentifier: Sized + Clone {
    /// Whether parameters are checked against the accepted lists.
    spec fn spec_check_params() -> bool;

    /// The parameters a row of this type must have.
    spec fn spec_required_params() -> Seq<Seq<char>>;

    /// The parameters a row of this type may have besides the required ones.
    spec fn spec_optional_params() -> Seq<Seq<char>>;

    /// The parameters that are written first, in this order.
    spec fn spec_param_order() -> Seq<Seq<char>>;

    /// The SKZ of this identifier.
    spec fn spec_skz(&self) -> Seq<char>;

    /// Each list of this record type names each parameter once.
    proof fn lemma_lists_distinct()
        ensures
            Self::spec_required_params().no_duplicates(),
            Self::spec_optional_params().no_duplicates(),
            Self::spec_param_order().no_duplicates(),
    ;

    /// Returns whether parameter validation should be performed.
    fn check_params() -> (r: bool)
        ensures
            r == Self::spec_check_params(),
    ;

    /// Returns the required parameters for this record type.
    fn required_params() -> (r: Vec<String>)
        ensures
            r.deep_view() == Self::spec_required_params(),
            r.deep_view().no_duplicates(),
    ;

    /// Returns the optional parameters for this record type.
    fn optional_params() -> (r: Vec<String>)
        ensures
            r.deep_view() == Self::spec_optional_params(),
            r.deep_view().no_duplicates(),
    ;

    /// Returns the parameters that have a defined ordering, in that order.
    fn param_order() -> (r: Vec<String>)
        ensures
            r.deep_view() == Self::spec_param_order(),
            r.deep_view().no_duplicates(),
    ;

    /// Returns the SKZ (Satzkennzeichen/Record Identifier) for this record type.
    fn skz(&self) -> (r: String)
        ensures
            r@ == self.spec_skz(),
    ;
}

/// A dynamic record identifier that accepts any SKZ without parameter validation.
#[derive(Debug)]
pub struct DynamicRecordIdentifier {
    skz: String,
}

impl Clone for DynamicRecordIdentifier {
    fn clone(&self) -> (r: Self)
        ensures
            r == *self,
    {
        DynamicRecordIdentifier { skz: self.skz.clone() }
    }
}

impl DynamicRecordIdentifier {
    /// Creates a new dynamic record identifier with the given SKZ.
    pub fn new(skz: &str) -> (r: Self)
        ensures
            r.spec_skz() == skz@,
    {
        DynamicRecordIdentifier { skz: skz.to_owned() }
    }
}

impl RecordIdentifier for DynamicRecordIdentifier {
    open spec fn spec_check_params() -> bool {
        false
    }

    open spec fn spec_required_params() -> Seq<Seq<char>> {
        names(DEFAULT_REQUIRED_PARAMS@)
    }

    open spec fn spec_optional_params() -> Seq<Seq<char>> {
        default_optional_names()
    }

    open spec fn spec_param_order() -> Seq<Seq<char>> {
        default_order_names()
    }

    closed spec fn spec_skz(&self) -> Seq<char> {
        self.skz@
    }

    proof fn lemma_lists_distinct() {
        assert(Self::spec_required_params() =~= Seq::<Seq<char>>::empty());
        lemma_dynamic_optional_list_distinct();
        lemma_dynamic_output_order_distinct();
    }

    fn check_params() -> (r: bool) {
        false
    }

    fn required_params() -> (r: Vec<String>) {
        proof {
            Self::lemma_lists_distinct();
        }
        strings_from(&DEFAULT_REQUIRED_PARAMS)
    }

    fn optional_params() -> (r: Vec<String>) {
        proof {
            Self::lemma_lists_distinct();
        }
        strings_from(&DEFAULT_OPTIONAL_PARAMS)
    }

    fn param_order() -> (r: Vec<String>) {
        proof {
            Self::lemma_lists_distinct();
        }
        strings_from(&DEFAULT_PARAM_ORDER)
    }

    fn skz(&self) -> (r: String) {
        self.skz.clone()
    }
}

/// Record identifier for address records (ADR).
///
/// Used for customer and address data imports.
#[derive(Clone, Copy, Debug)]
pub struct AddressIdentifier;

impl RecordIdentifier for AddressIdentifier {
    open spec fn spec_check_params() -> bool {
        true
    }

    open spec fn spec_required_params() -> Seq<Seq<char>> {
        names(DEFAULT_REQUIRED_PARAMS@)
    }

    open spec fn spec_optional_params() -> Seq<Seq<char>> {
        names(ADDRESS_PARAMS@) + default_optional_names()
    }

    open spec fn spec_param_order() -> Seq<Seq<char>> {
        default_order_names() + names(ADDRESS_PARAMS@)
    }

    open spec fn spec_skz(&self) -> Seq<char> {
        "ADR"@
    }

    proof fn lemma_lists_distinct() {
        assert(Self::spec_required_params() =~= Seq::<Seq<char>>::empty());
        lemma_address_optional_list_distinct();
        lemma_address_output_order_distinct();
    }

    fn check_params() -> (r: bool) {
        true
    }

    fn required_params() -> (r: Vec<String>) {
        proof {
            Self::lemma_lists_distinct();
        }
        strings_from(&DEFAULT_REQUIRED_PARAMS)
    }

    fn optional_params() -> (r: Vec<String>) {
        proof {
            Self::lemma_lists_distinct();
        }
        strings_from_both(&ADDRESS_PARAMS, &DEFAULT_OPTIONAL_PARAMS)
    }

    fn param_order() -> (r: Vec<String>) {
        proof {
            Self::lemma_lists_distinct();
        }
        strings_from_both(&DEFAULT_PARAM_ORDER, &ADDRESS_PARAMS)
    }

    fn skz(&self) -> (r: String)
        ensures
            r@ == "ADR"@,
    {
        "ADR".to_owned()
    }
}

impl Default for AddressIdentifier {
    fn default() -> (r: Self)
        ensures
            r == AddressIdentifier,
    {
        AddressIdentifier
    }
}

/// Record identifier for address-product relationship records (ADA).
///
/// Used for linking products to specific addresses.
#[derive(Clone, Copy, Debug)]
pub struct AddressProductIdentifier;

impl RecordIdentifier for AddressProductIdentifier {
    open spec fn spec_check_params() -> bool {
        true
    }

    open spec fn spec_required_params() -> Seq<Seq<char>> {
        names(DEFAULT_REQUIRED_PARAMS@)
    }

    open spec fn spec_optional_params() -> Seq<Seq<char>> {
        names(ADDRESS_PRODUCT_PARAMS@) + default_optional_names()
    }

    open spec fn spec_param_order() -> Seq<Seq<char>> {
        default_order_names() + names(ADDRESS_PRODUCT_PARAMS@)
    }

    open spec fn spec_skz(&self) -> Seq<char> {
        "ADA"@
    }

    proof fn lemma_lists_distinct() {
        assert(Self::spec_required_params() =~= Seq::<Seq<char>>::empty());
        lemma_address_product_optional_list_distinct();
        lemma_address_product_output_order_distinct();
    }

    fn check_params() -> (r: bool) {
        true
    }

    fn required_params() -> (r: Vec<String>) {
        proof {
            Self::lemma_lists_distinct();
        }
        strings_from(&DEFAULT_REQUIRED_PARAMS)
    }

    fn optional_params() -> (r: Vec<String>) {
        proof {
            Self::lemma_lists_distinct();
        }
        strings_from_both(&ADDRESS_PRODUCT_PARAMS, &DEFAULT_OPTIONAL_PARAMS)
    }

    fn param_order() -> (r: Vec<String>) {
        proof {
            Self::lemma_lists_distinct();
        }
        strings_from_both(&DEFAULT_PARAM_ORDER, &ADDRESS_PRODUCT_PARAMS)
    }

    fn skz(&self) -> (r: String)
        ensures
            r@ == "ADA"@,
    {
        "ADA".to_owned()
    }
}

impl Default for AddressProductIdentifier {
    fn default() -> (r: Self)
        ensures
            r == AddressProductIdentifier,
    {
        AddressProductIdentifier
    }
}

/// Record identifier for product/article records (ART).
///
/// Used for product master data imports.
#[derive(Clone, Copy, Debug)]
pub struct ProductIdentifier;

impl RecordIdentifier for ProductIdentifier {
    open spec fn spec_check_params() -> bool {
        true
    }

    open spec fn spec_required_params() -> Seq<Seq<char>> {
        names(DEFAULT_REQUIRED_PARAMS@)
    }

    open spec fn spec_optional_params() -> Seq<Seq<char>> {
        names(PRODUCT_PARAMS@) + default_optional_names()
    }

    open spec fn spec_param_order() -> Seq<Seq<char>> {
        default_order_names() + names(PRODUCT_PARAMS@)
    }

    open spec fn spec_skz(&self) -> Seq<char> {
        "ART"@
    }

    proof fn lemma_lists_distinct() {
        assert(Self::spec_required_params() =~= Seq::<Seq<char>>::empty());
        lemma_product_optional_list_distinct();
        lemma_product_output_order_distinct();
    }

    fn check_params() -> (r: bool) {
        true
    }

    fn required_params() -> (r: Vec<String>) {
        proof {
            Self::lemma_lists_distinct();
        }
        strings_from(&DEFAULT_REQUIRED_PARAMS)
    }

    fn optional_params() -> (r: Vec<String>) {
        proof {
            Self::lemma_lists_distinct();
        }
        strings_from_both(&PRODUCT_PARAMS, &DEFAULT_OPTIONAL_PARAMS)
    }

    fn param_order() -> (r: Vec<String>) {
        proof {
            Self::lemma_lists_distinct();
        }
        strings_from_both(&DEFAULT_PARAM_ORDER, &PRODUCT_PARAMS)
    }

    fn skz(&self) -> (r: String)
        ensures
            r@ == "ART"@,
    {
        "ART".to_owned()
    }
}

impl Default for ProductIdentifier {
    fn default() -> (r: Self)
        ensures
            r == ProductIdentifier,
    {
        ProductIdentifier
    }
}

/// Record identifier for delivery address records (LFA).
///
/// Used for supplier/delivery address data.
#[derive(Clone, Copy, Debug)]
pub struct DeliveryAddressIdentifier;

impl RecordIdentifier for DeliveryAddressIdentifier {
    open spec fn spec_check_params() -> bool {
        true
    }

    open spec fn spec_required_params() -> Seq<Seq<char>> {
        names(DEFAULT_REQUIRED_PARAMS@)
    }

    open spec fn spec_optional_params() -> Seq<Seq<char>> {
        names(DELIVERY_ADDRESS_PARAMS@) + default_optional_names()
    }

    open spec fn spec_param_order() -> Seq<Seq<char>> {
        default_order_names() + names(DELIVERY_ADDRESS_PARAMS@)
    }

    open spec fn spec_skz(&self) -> Seq<char> {
        "LFA"@
    }

    proof fn lemma_lists_distinct() {
        assert(Self::spec_required_params() =~= Seq::<Seq<char>>::empty());
        lemma_delivery_address_optional_list_distinct();
        lemma_delivery_address_output_order_distinct();
    }

    fn check_params() -> (r: bool) {
        true
    }

    fn required_params() -> (r: Vec<String>) {
        proof {
            Self::lemma_lists_distinct();
        }
        strings_from(&DEFAULT_REQUIRED_PARAMS)
    }

    fn optional_params() -> (r: Vec<String>) {
        proof {
            Self::lemma_lists_distinct();
        }
        strings_from_both(&DELIVERY_ADDRESS_PARAMS, &DEFAULT_OPTIONAL_PARAMS)
    }

    fn param_order() -> (r: Vec<String>) {
        proof {
            Self::lemma_lists_distinct();
        }
        strings_from_both(&DEFAULT_PARAM_ORDER, &DELIVERY_ADDRESS_PARAMS)
    }

    fn skz(&self) -> (r: String)
        ensures
            r@ == "LFA"@,
    {
        "LFA".to_owned()
    }
}

impl Default for DeliveryAddressIdentifier {
    fn default() -> (r: Self)
        ensures
            r == DeliveryAddressIdentifier,
    {
        DeliveryAddressIdentifier
    }
}

/// Record identifier for order/document records (BEL).
///
/// Used for order headers and document imports.
#[derive(Clone, Copy, Debug)]
pub struct OrderIdentifier;

impl RecordIdentifier for OrderIdentifier {
    open spec fn spec_check_params() -> bool {
        true
    }

    open spec fn spec_required_params() -> Seq<Seq<char>> {
        names(DEFAULT_REQUIRED_PARAMS@)
    }

    open spec fn spec_optional_params() -> Seq<Seq<char>> {
        names(ORDER_PARAMS@) + default_optional_names()
    }

    open spec fn spec_param_order() -> Seq<Seq<char>> {
        default_order_names() + names(ORDER_PARAMS@)
    }

    open spec fn spec_skz(&self) -> Seq<char> {
        "BEL"@
    }

    proof fn lemma_lists_distinct() {
        assert(Self::spec_required_params() =~= Seq::<Seq<char>>::empty());
        lemma_order_optional_list_distinct();
        lemma_order_output_order_distinct();
    }

    fn check_params() -> (r: bool) {
        true
    }

    fn required_params() -> (r: Vec<String>) {
        proof {
            Self::lemma_lists_distinct();
        }
        strings_from(&DEFAULT_REQUIRED_PARAMS)
    }

    fn optional_params() -> (r: Vec<String>) {
        proof {
            Self::lemma_lists_distinct();
        }
        strings_from_both(&ORDER_PARAMS, &DEFAULT_OPTIONAL_PARAMS)
    }

    fn param_order() -> (r: Vec<String>) {
        proof {
            Self::lemma_lists_distinct();
        }
        strings_from_both(&DEFAULT_PARAM_ORDER, &ORDER_PARAMS)
    }

    fn skz(&self) -> (r: String)
        ensures
            r@ == "BEL"@,
    {
        "BEL".to_owned()
    }
}

impl Default for OrderIdentifier {
    fn default() -> (r: Self)
        ensures
            r == OrderIdentifier,
    {
        OrderIdentifier
    }
}

/// Record identifier for order position/line item records (POS).
///
/// Used for order line items within an order.
#[derive(Clone, Copy, Debug)]
pub struct OrderPositionIdentifier;

impl RecordIdentifier for OrderPositionIdentifier {
    open spec fn spec_check_params() -> bool {
        true
    }

    open spec fn spec_required_params() -> Seq<Seq<char>> {
        names(DEFAULT_REQUIRED_PARAMS@)
    }

    open spec fn spec_optional_params() -> Seq<Seq<char>> {
        names(ORDER_POSITION_PARAMS@) + default_optional_names()
    }

    open spec fn spec_param_order() -> Seq<Seq<char>> {
        default_order_names() + names(ORDER_POSITION_PARAMS@)
    }

    open spec fn spec_skz(&self) -> Seq<char> {
        "POS"@
    }

    proof fn lemma_lists_distinct() {
        assert(Self::spec_required_params() =~= Seq::<Seq<char>>::empty());
        lemma_order_position_optional_list_distinct();
        lemma_order_position_output_order_distinct();
    }

    fn check_params() -> (r: bool) {
        true
    }

    fn required_params() -> (r: Vec<String>) {
        proof {
            Self::lemma_lists_distinct();
        }
        strings_from(&DEFAULT_REQUIRED_PARAMS)
    }

    fn optional_params() -> (r: Vec<String>) {
        proof {
            Self::lemma_lists_distinct();
        }
        strings_from_both(&ORDER_POSITION_PARAMS, &DEFAULT_OPTIONAL_PARAMS)
    }

    fn param_order() -> (r: Vec<String>) {
        proof {
            Self::lemma_lists_distinct();
        }
        strings_from_both(&DEFAULT_PARAM_ORDER, &ORDER_POSITION_PARAMS)
    }

    fn skz(&self) -> (r: String)
        ensures
            r@ == "POS"@,
    {
        "POS".to_owned()
    }
}

impl Default for OrderPositionIdentifier {
    fn default() -> (r: Self)
        ensures
            r == OrderPositionIdentifier,
    {
        OrderPositionIdentifier
    }
}

/// Record identifier for order note records.
///
/// Supports different note types: BNOT, BNOTN, and BNOTV.
#[derive(Clone, Copy, Debug)]
pub enum OrderNoteIdentifier {
    BNOT,
    BNOTN,
    BNOTV,
}

impl RecordIdentifier for OrderNoteIdentifier {
    open spec fn spec_check_params() -> bool {
        true
    }

    open spec fn spec_required_params() -> Seq<Seq<char>> {
        names(DEFAULT_REQUIRED_PARAMS@)
    }

    open spec fn spec_optional_params() -> Seq<Seq<char>> {
        names(ORDER_NOTE_PARAMS@) + default_optional_names()
    }

    open spec fn spec_param_order() -> Seq<Seq<char>> {
        default_order_names() + names(ORDER_NOTE_PARAMS@)
    }

    open spec fn spec_skz(&self) -> Seq<char> {
        match self {
            OrderNoteIdentifier::BNOT => "BNOT"@,
            OrderNoteIdentifier::BNOTN => "BNOTN"@,
            OrderNoteIdentifier::BNOTV => "BNOTV"@,
        }
    }

    proof fn lemma_lists_distinct() {
        assert(Self::spec_required_params() =~= Seq::<Seq<char>>::empty());
        lemma_order_note_optional_list_distinct();
        lemma_order_note_output_order_distinct();
    }

    fn check_params() -> (r: bool) {
        true
    }

    fn required_params() -> (r: Vec<String>) {
        proof {
            Self::lemma_lists_distinct();
        }
        strings_from(&DEFAULT_REQUIRED_PARAMS)
    }

    fn optional_params() -> (r: Vec<String>) {
        proof {
            Self::lemma_lists_distinct();
        }
        strings_from_both(&ORDER_NOTE_PARAMS, &DEFAULT_OPTIONAL_PARAMS)
    }

    fn param_order() -> (r: Vec<String>) {
        proof {
            Self::lemma_lists_distinct();
        }
        strings_from_both(&DEFAULT_PARAM_ORDER, &ORDER_NOTE_PARAMS)
    }

    fn skz(&self) -> (r: String)
        ensures
            r@ == match self {
                OrderNoteIdentifier::BNOT => "BNOT"@,
                OrderNoteIdentifier::BNOTN => "BNOTN"@,
                OrderNoteIdentifier::BNOTV => "BNOTV"@,
            },
    {
        match self {
            OrderNoteIdentifier::BNOT => "BNOT".to_owned(),
            OrderNoteIdentifier::BNOTN => "BNOTN".to_owned(),
            OrderNoteIdentifier::BNOTV => "BNOTV".to_owned(),
        }
    }
}

/// Each predefined record type has the fixed SKZ of its record kind:
/// addresses ADR, address products ADA, products ART, delivery addresses
/// LFA, orders BEL, order positions POS and order notes BNOT, BNOTN or
/// BNOTV; no two of them share an SKZ.
pub proof fn law_builtin_skz()
    ensures
        AddressIdentifier.spec_skz() == "ADR"@,
        AddressProductIdentifier.spec_skz() == "ADA"@,
        ProductIdentifier.spec_skz() == "ART"@,
        DeliveryAddressIdentifier.spec_skz() == "LFA"@,
        OrderIdentifier.spec_skz() == "BEL"@,
        OrderPositionIdentifier.spec_skz() == "POS"@,
        OrderNoteIdentifier::BNOT.spec_skz() == "BNOT"@,
        OrderNoteIdentifier::BNOTN.spec_skz() == "BNOTN"@,
        OrderNoteIdentifier::BNOTV.spec_skz() == "BNOTV"@,
        seq![
            AddressIdentifier.spec_skz(),
            AddressProductIdentifier.spec_skz(),
            ProductIdentifier.spec_skz(),
            DeliveryAddressIdentifier.spec_skz(),
            OrderIdentifier.spec_skz(),
            OrderPositionIdentifier.spec_skz(),
            OrderNoteIdentifier::BNOT.spec_skz(),
            OrderNoteIdentifier::BNOTN.spec_skz(),
            OrderNoteIdentifier::BNOTV.spec_skz(),
        ].no_duplicates(),
{
    reveal_strlit("ADR");
    reveal_strlit("ADA");
    reveal_strlit("ART");
    reveal_strlit("LFA");
    reveal_strlit("BEL");
    reveal_strlit("POS");
    reveal_strlit("BNOT");
    reveal_strlit("BNOTN");
    reveal_strlit("BNOTV");
    let d = seq![
        AddressIdentifier.spec_skz(),
        AddressProductIdentifier.spec_skz(),
        ProductIdentifier.spec_skz(),
        DeliveryAddressIdentifier.spec_skz(),
        OrderIdentifier.spec_skz(),
        OrderPositionIdentifier.spec_skz(),
        OrderNoteIdentifier::BNOT.spec_skz(),
        OrderNoteIdentifier::BNOTN.spec_skz(),
        OrderNoteIdentifier::BNOTV.spec_skz(),
    ];
    assert(d =~= seq![
        "ADR"@,
        "ADA"@,
        "ART"@,
        "LFA"@,
        "BEL"@,
        "POS"@,
        "BNOT"@,
        "BNOTN"@,
        "BNOTV"@,
    ]);
    lemma_differ_early(d);
}

} // verus!
