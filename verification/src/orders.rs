//! The parameter lists of the record types of this library name each
//! parameter once.

use vstd::prelude::*;
use crate::identifiers::{
    RecordIdentifier, DynamicRecordIdentifier, AddressIdentifier, AddressProductIdentifier,
    ProductIdentifier, DeliveryAddressIdentifier, OrderIdentifier, OrderNoteIdentifier,
    OrderPositionIdentifier,
};

verus! {

/// Two names that differ in length or in one of their first five characters.
pub open spec fn differ_early(a: Seq<char>, b: Seq<char>) -> bool {
    ||| a.len() != b.len()
    ||| (a.len() > 0 && a[0] != b[0])
    ||| (a.len() > 1 && a[1] != b[1])
    ||| (a.len() > 2 && a[2] != b[2])
    ||| (a.len() > 3 && a[3] != b[3])
    ||| (a.len() > 4 && a[4] != b[4])
}

/// Names that pairwise differ early are distinct.
pub(crate) proof fn lemma_differ_early(d: Seq<Seq<char>>)
    requires
        forall|i: int, j: int|
            0 <= i < d.len() && 0 <= j < d.len() && i != j ==> differ_early(d[i], d[j]),
    ensures
        d.no_duplicates(),
{
    assert forall|i: int, j: int| 0 <= i < d.len() && 0 <= j < d.len() && i != j implies d[i]
        != d[j] by {
        assert(differ_early(d[i], d[j]));
    }
}

/// The output order of `DynamicRecordIdentifier` names each parameter once.
pub(crate) proof fn lemma_dynamic_output_order_distinct()
    ensures
        DynamicRecordIdentifier::spec_param_order().no_duplicates(),
{
    reveal_strlit("UEBER");
    reveal_strlit("PROT");
    reveal_strlit("STAMMKALK");
    reveal_strlit("AENDERV");
    reveal_strlit("ALLEALPHA");
    reveal_strlit("READONLY");
    reveal_strlit("ANSIASCII");
    reveal_strlit("UTF8_ANSI");
    reveal_strlit("HTTPREQUEST");
    let d = DynamicRecordIdentifier::spec_param_order();
    assert(d =~= seq![
        "UEBER"@,
        "PROT"@,
        "STAMMKALK"@,
        "AENDERV"@,
        "ALLEALPHA"@,
        "READONLY"@,
        "ANSIASCII"@,
        "UTF8_ANSI"@,
        "HTTPREQUEST"@,
    ]);
    lemma_differ_early(d);
}

/// The optional list of `DynamicRecordIdentifier` names each parameter once.
pub(crate) proof fn lemma_dynamic_optional_list_distinct()
    ensures
        DynamicRecordIdentifier::spec_optional_params().no_duplicates(),
{
    reveal_strlit("PROT");
    reveal_strlit("STAMMKALK");
    reveal_strlit("AENDERV");
    reveal_strlit("ALLEALPHA");
    reveal_strlit("READONLY");
    reveal_strlit("ANSIASCII");
    reveal_strlit("UTF8_ANSI");
    reveal_strlit("HTTPREQUEST");
    reveal_strlit("UEBER");
    let d = DynamicRecordIdentifier::spec_optional_params();
    assert(d =~= seq![
        "PROT"@,
        "STAMMKALK"@,
        "AENDERV"@,
        "ALLEALPHA"@,
        "READONLY"@,
        "ANSIASCII"@,
        "UTF8_ANSI"@,
        "HTTPREQUEST"@,
        "UEBER"@,
    ]);
    lemma_differ_early(d);
}

/// The output order of `AddressIdentifier` names each parameter once.
pub(crate) proof fn lemma_address_output_order_distinct()
    ensures
        AddressIdentifier::spec_param_order().no_duplicates(),
{
    reveal_strlit("UEBER");
    reveal_strlit("PROT");
    reveal_strlit("STAMMKALK");
    reveal_strlit("AENDERV");
    reveal_strlit("ALLEALPHA");
    reveal_strlit("READONLY");
    reveal_strlit("ANSIASCII");
    reveal_strlit("UTF8_ANSI");
    reveal_strlit("HTTPREQUEST");
    reveal_strlit("LANDKUNDA");
    reveal_strlit("LOADEMAIL");
    reveal_strlit("NURNEUANLAGE");
    reveal_strlit("CODEPRF");
    reveal_strlit("NEUE_ADR");
    reveal_strlit("ADD_ADRSELPOOL");
    reveal_strlit("ADD_ANP");
    reveal_strlit("WFLSCRIPT_NACHIMPORT_STARTEN");
    reveal_strlit("SCRIPT_NR_NACH");
    reveal_strlit("SCRIPT_UEBERGABE");
    reveal_strlit("ADRKREIS");
    let d = AddressIdentifier::spec_param_order();
    assert(d =~= seq![
        "UEBER"@,
        "PROT"@,
        "STAMMKALK"@,
        "AENDERV"@,
        "ALLEALPHA"@,
        "READONLY"@,
        "ANSIASCII"@,
        "UTF8_ANSI"@,
        "HTTPREQUEST"@,
        "LANDKUNDA"@,
        "LOADEMAIL"@,
        "NURNEUANLAGE"@,
        "CODEPRF"@,
        "NEUE_ADR"@,
        "ADD_ADRSELPOOL"@,
        "ADD_ANP"@,
        "WFLSCRIPT_NACHIMPORT_STARTEN"@,
        "SCRIPT_NR_NACH"@,
        "SCRIPT_UEBERGABE"@,
        "ADRKREIS"@,
    ]);
    lemma_differ_early(d);
}

/// The optional list of `AddressIdentifier` names each parameter once.
pub(crate) proof fn lemma_address_optional_list_distinct()
    ensures
        AddressIdentifier::spec_optional_params().no_duplicates(),
{
    reveal_strlit("LANDKUNDA");
    reveal_strlit("LOADEMAIL");
    reveal_strlit("NURNEUANLAGE");
    reveal_strlit("CODEPRF");
    reveal_strlit("NEUE_ADR");
    reveal_strlit("ADD_ADRSELPOOL");
    reveal_strlit("ADD_ANP");
    reveal_strlit("WFLSCRIPT_NACHIMPORT_STARTEN");
    reveal_strlit("SCRIPT_NR_NACH");
    reveal_strlit("SCRIPT_UEBERGABE");
    reveal_strlit("ADRKREIS");
    reveal_strlit("PROT");
    reveal_strlit("STAMMKALK");
    reveal_strlit("AENDERV");
    reveal_strlit("ALLEALPHA");
    reveal_strlit("READONLY");
    reveal_strlit("ANSIASCII");
    reveal_strlit("UTF8_ANSI");
    reveal_strlit("HTTPREQUEST");
    reveal_strlit("UEBER");
    let d = AddressIdentifier::spec_optional_params();
    assert(d =~= seq![
        "LANDKUNDA"@,
        "LOADEMAIL"@,
        "NURNEUANLAGE"@,
        "CODEPRF"@,
        "NEUE_ADR"@,
        "ADD_ADRSELPOOL"@,
        "ADD_ANP"@,
        "WFLSCRIPT_NACHIMPORT_STARTEN"@,
        "SCRIPT_NR_NACH"@,
        "SCRIPT_UEBERGABE"@,
        "ADRKREIS"@,
        "PROT"@,
        "STAMMKALK"@,
        "AENDERV"@,
        "ALLEALPHA"@,
        "READONLY"@,
        "ANSIASCII"@,
        "UTF8_ANSI"@,
        "HTTPREQUEST"@,
        "UEBER"@,
    ]);
    lemma_differ_early(d);
}

/// The output order of `AddressProductIdentifier` names each parameter once.
pub(crate) proof fn lemma_address_product_output_order_distinct()
    ensures
        AddressProductIdentifier::spec_param_order().no_duplicates(),
{
    reveal_strlit("UEBER");
    reveal_strlit("PROT");
    reveal_strlit("STAMMKALK");
    reveal_strlit("AENDERV");
    reveal_strlit("ALLEALPHA");
    reveal_strlit("READONLY");
    reveal_strlit("ANSIASCII");
    reveal_strlit("UTF8_ANSI");
    reveal_strlit("HTTPREQUEST");
    reveal_strlit("EANCODE");
    reveal_strlit("BESTELLNR_UMSETZEN");
    reveal_strlit("ADD_ADASELPOOL");
    reveal_strlit("MP_PROTOKOLLIERUNG");
    reveal_strlit("PRUEFE_ARTNR");
    let d = AddressProductIdentifier::spec_param_order();
    assert(d =~= seq![
        "UEBER"@,
        "PROT"@,
        "STAMMKALK"@,
        "AENDERV"@,
        "ALLEALPHA"@,
        "READONLY"@,
        "ANSIASCII"@,
        "UTF8_ANSI"@,
        "HTTPREQUEST"@,
        "EANCODE"@,
        "BESTELLNR_UMSETZEN"@,
        "ADD_ADASELPOOL"@,
        "MP_PROTOKOLLIERUNG"@,
        "PRUEFE_ARTNR"@,
    ]);
    lemma_differ_early(d);
}

/// The optional list of `AddressProductIdentifier` names each parameter once.
pub(crate) proof fn lemma_address_product_optional_list_distinct()
    ensures
        AddressProductIdentifier::spec_optional_params().no_duplicates(),
{
    reveal_strlit("EANCODE");
    reveal_strlit("BESTELLNR_UMSETZEN");
    reveal_strlit("ADD_ADASELPOOL");
    reveal_strlit("MP_PROTOKOLLIERUNG");
    reveal_strlit("PRUEFE_ARTNR");
    reveal_strlit("PROT");
    reveal_strlit("STAMMKALK");
    reveal_strlit("AENDERV");
    reveal_strlit("ALLEALPHA");
    reveal_strlit("READONLY");
    reveal_strlit("ANSIASCII");
    reveal_strlit("UTF8_ANSI");
    reveal_strlit("HTTPREQUEST");
    reveal_strlit("UEBER");
    let d = AddressProductIdentifier::spec_optional_params();
    assert(d =~= seq![
        "EANCODE"@,
        "BESTELLNR_UMSETZEN"@,
        "ADD_ADASELPOOL"@,
        "MP_PROTOKOLLIERUNG"@,
        "PRUEFE_ARTNR"@,
        "PROT"@,
        "STAMMKALK"@,
        "AENDERV"@,
        "ALLEALPHA"@,
        "READONLY"@,
        "ANSIASCII"@,
        "UTF8_ANSI"@,
        "HTTPREQUEST"@,
        "UEBER"@,
    ]);
    lemma_differ_early(d);
}

/// The output order of `ProductIdentifier` names each parameter once.
pub(crate) proof fn lemma_product_output_order_distinct()
    ensures
        ProductIdentifier::spec_param_order().no_duplicates(),
{
    reveal_strlit("UEBER");
    reveal_strlit("PROT");
    reveal_strlit("STAMMKALK");
    reveal_strlit("AENDERV");
    reveal_strlit("ALLEALPHA");
    reveal_strlit("READONLY");
    reveal_strlit("ANSIASCII");
    reveal_strlit("UTF8_ANSI");
    reveal_strlit("HTTPREQUEST");
    reveal_strlit("EANCODE");
    reveal_strlit("BESTELLNR_UMSETZEN");
    reveal_strlit("ARTTEXT");
    reveal_strlit("MP_PRODID");
    reveal_strlit("MP_ID");
    reveal_strlit("MP_PROTOKOLLIERUNG");
    reveal_strlit("MP_UPLOADDATUMSETZEN");
    reveal_strlit("EKUPDATE");
    reveal_strlit("STK_A01_PREIS");
    reveal_strlit("STK_SUBARTIKEL");
    reveal_strlit("ADD_ARTSELPOOL");
    reveal_strlit("POSLTXTUEBER");
    reveal_strlit("WFLSCRIPT_NACHIMPORT_STARTEN");
    reveal_strlit("SCRIPT_NR_NACH");
    reveal_strlit("SCRIPT_UEBERGABE");
    let d = ProductIdentifier::spec_param_order();
    assert(d =~= seq![
        "UEBER"@,
        "PROT"@,
        "STAMMKALK"@,
        "AENDERV"@,
        "ALLEALPHA"@,
        "READONLY"@,
        "ANSIASCII"@,
        "UTF8_ANSI"@,
        "HTTPREQUEST"@,
        "EANCODE"@,
        "BESTELLNR_UMSETZEN"@,
        "ARTTEXT"@,
        "MP_PRODID"@,
        "MP_ID"@,
        "MP_PROTOKOLLIERUNG"@,
        "MP_UPLOADDATUMSETZEN"@,
        "EKUPDATE"@,
        "STK_A01_PREIS"@,
        "STK_SUBARTIKEL"@,
        "ADD_ARTSELPOOL"@,
        "POSLTXTUEBER"@,
        "WFLSCRIPT_NACHIMPORT_STARTEN"@,
        "SCRIPT_NR_NACH"@,
        "SCRIPT_UEBERGABE"@,
    ]);
    lemma_differ_early(d);
}

/// The optional list of `ProductIdentifier` names each parameter once.
pub(crate) proof fn lemma_product_optional_list_distinct()
    ensures
        ProductIdentifier::spec_optional_params().no_duplicates(),
{
    reveal_strlit("EANCODE");
    reveal_strlit("BESTELLNR_UMSETZEN");
    reveal_strlit("ARTTEXT");
    reveal_strlit("MP_PRODID");
    reveal_strlit("MP_ID");
    reveal_strlit("MP_PROTOKOLLIERUNG");
    reveal_strlit("MP_UPLOADDATUMSETZEN");
    reveal_strlit("EKUPDATE");
    reveal_strlit("STK_A01_PREIS");
    reveal_strlit("STK_SUBARTIKEL");
    reveal_strlit("ADD_ARTSELPOOL");
    reveal_strlit("POSLTXTUEBER");
    reveal_strlit("WFLSCRIPT_NACHIMPORT_STARTEN");
    reveal_strlit("SCRIPT_NR_NACH");
    reveal_strlit("SCRIPT_UEBERGABE");
    reveal_strlit("PROT");
    reveal_strlit("STAMMKALK");
    reveal_strlit("AENDERV");
    reveal_strlit("ALLEALPHA");
    reveal_strlit("READONLY");
    reveal_strlit("ANSIASCII");
    reveal_strlit("UTF8_ANSI");
    reveal_strlit("HTTPREQUEST");
    reveal_strlit("UEBER");
    let d = ProductIdentifier::spec_optional_params();
    assert(d =~= seq![
        "EANCODE"@,
        "BESTELLNR_UMSETZEN"@,
        "ARTTEXT"@,
        "MP_PRODID"@,
        "MP_ID"@,
        "MP_PROTOKOLLIERUNG"@,
        "MP_UPLOADDATUMSETZEN"@,
        "EKUPDATE"@,
        "STK_A01_PREIS"@,
        "STK_SUBARTIKEL"@,
        "ADD_ARTSELPOOL"@,
        "POSLTXTUEBER"@,
        "WFLSCRIPT_NACHIMPORT_STARTEN"@,
        "SCRIPT_NR_NACH"@,
        "SCRIPT_UEBERGABE"@,
        "PROT"@,
        "STAMMKALK"@,
        "AENDERV"@,
        "ALLEALPHA"@,
        "READONLY"@,
        "ANSIASCII"@,
        "UTF8_ANSI"@,
        "HTTPREQUEST"@,
        "UEBER"@,
    ]);
    lemma_differ_early(d);
}

/// The output order of `DeliveryAddressIdentifier` names each parameter once.
pub(crate) proof fn lemma_delivery_address_output_order_distinct()
    ensures
        DeliveryAddressIdentifier::spec_param_order().no_duplicates(),
{
    reveal_strlit("UEBER");
    reveal_strlit("PROT");
    reveal_strlit("STAMMKALK");
    reveal_strlit("AENDERV");
    reveal_strlit("ALLEALPHA");
    reveal_strlit("READONLY");
    reveal_strlit("ANSIASCII");
    reveal_strlit("UTF8_ANSI");
    reveal_strlit("HTTPREQUEST");
    reveal_strlit("LETZTE_ADR_SETZEN");
    let d = DeliveryAddressIdentifier::spec_param_order();
    assert(d =~= seq![
        "UEBER"@,
        "PROT"@,
        "STAMMKALK"@,
        "AENDERV"@,
        "ALLEALPHA"@,
        "READONLY"@,
        "ANSIASCII"@,
        "UTF8_ANSI"@,
        "HTTPREQUEST"@,
        "LETZTE_ADR_SETZEN"@,
    ]);
    lemma_differ_early(d);
}

/// The optional list of `DeliveryAddressIdentifier` names each parameter once.
pub(crate) proof fn lemma_delivery_address_optional_list_distinct()
    ensures
        DeliveryAddressIdentifier::spec_optional_params().no_duplicates(),
{
    reveal_strlit("LETZTE_ADR_SETZEN");
    reveal_strlit("PROT");
    reveal_strlit("STAMMKALK");
    reveal_strlit("AENDERV");
    reveal_strlit("ALLEALPHA");
    reveal_strlit("READONLY");
    reveal_strlit("ANSIASCII");
    reveal_strlit("UTF8_ANSI");
    reveal_strlit("HTTPREQUEST");
    reveal_strlit("UEBER");
    let d = DeliveryAddressIdentifier::spec_optional_params();
    assert(d =~= seq![
        "LETZTE_ADR_SETZEN"@,
        "PROT"@,
        "STAMMKALK"@,
        "AENDERV"@,
        "ALLEALPHA"@,
        "READONLY"@,
        "ANSIASCII"@,
        "UTF8_ANSI"@,
        "HTTPREQUEST"@,
        "UEBER"@,
    ]);
    lemma_differ_early(d);
}

/// The output order of `OrderIdentifier` names each parameter once.
pub(crate) proof fn lemma_order_output_order_distinct()
    ensures
        OrderIdentifier::spec_param_order().no_duplicates(),
{
    reveal_strlit("UEBER");
    reveal_strlit("PROT");
    reveal_strlit("STAMMKALK");
    reveal_strlit("AENDERV");
    reveal_strlit("ALLEALPHA");
    reveal_strlit("READONLY");
    reveal_strlit("ANSIASCII");
    reveal_strlit("UTF8_ANSI");
    reveal_strlit("HTTPREQUEST");
    reveal_strlit("BELDATERG");
    reveal_strlit("BELGESNULL");
    reveal_strlit("BELGESSUM");
    reveal_strlit("BELSUMMENBER");
    reveal_strlit("VERSANDBER");
    reveal_strlit("ST_KALK");
    reveal_strlit("DEL_BELSELPOOL");
    reveal_strlit("ADD_BELSELPOOL");
    reveal_strlit("NUR_WFLSCRIPT_STARTEN");
    reveal_strlit("SCRIPT_NR");
    reveal_strlit("WFLSCRIPT_NACHIMPORT_STARTEN");
    reveal_strlit("SCRIPT_NR_NACH");
    reveal_strlit("SCRIPT_UEBERGABE");
    reveal_strlit("ZKO_BERECHNEN");
    reveal_strlit("NEUERBELEG");
    let d = OrderIdentifier::spec_param_order();
    assert(d =~= seq![
        "UEBER"@,
        "PROT"@,
        "STAMMKALK"@,
        "AENDERV"@,
        "ALLEALPHA"@,
        "READONLY"@,
        "ANSIASCII"@,
        "UTF8_ANSI"@,
        "HTTPREQUEST"@,
        "BELDATERG"@,
        "BELGESNULL"@,
        "BELGESSUM"@,
        "BELSUMMENBER"@,
        "VERSANDBER"@,
        "ST_KALK"@,
        "DEL_BELSELPOOL"@,
        "ADD_BELSELPOOL"@,
        "NUR_WFLSCRIPT_STARTEN"@,
        "SCRIPT_NR"@,
        "WFLSCRIPT_NACHIMPORT_STARTEN"@,
        "SCRIPT_NR_NACH"@,
        "SCRIPT_UEBERGABE"@,
        "ZKO_BERECHNEN"@,
        "NEUERBELEG"@,
    ]);
    lemma_differ_early(d);
}

/// The optional list of `OrderIdentifier` names each parameter once.
pub(crate) proof fn lemma_order_optional_list_distinct()
    ensures
        OrderIdentifier::spec_optional_params().no_duplicates(),
{
    reveal_strlit("BELDATERG");
    reveal_strlit("BELGESNULL");
    reveal_strlit("BELGESSUM");
    reveal_strlit("BELSUMMENBER");
    reveal_strlit("VERSANDBER");
    reveal_strlit("ST_KALK");
    reveal_strlit("DEL_BELSELPOOL");
    reveal_strlit("ADD_BELSELPOOL");
    reveal_strlit("NUR_WFLSCRIPT_STARTEN");
    reveal_strlit("SCRIPT_NR");
    reveal_strlit("WFLSCRIPT_NACHIMPORT_STARTEN");
    reveal_strlit("SCRIPT_NR_NACH");
    reveal_strlit("SCRIPT_UEBERGABE");
    reveal_strlit("ZKO_BERECHNEN");
    reveal_strlit("NEUERBELEG");
    reveal_strlit("PROT");
    reveal_strlit("STAMMKALK");
    reveal_strlit("AENDERV");
    reveal_strlit("ALLEALPHA");
    reveal_strlit("READONLY");
    reveal_strlit("ANSIASCII");
    reveal_strlit("UTF8_ANSI");
    reveal_strlit("HTTPREQUEST");
    reveal_strlit("UEBER");
    let d = OrderIdentifier::spec_optional_params();
    assert(d =~= seq![
        "BELDATERG"@,
        "BELGESNULL"@,
        "BELGESSUM"@,
        "BELSUMMENBER"@,
        "VERSANDBER"@,
        "ST_KALK"@,
        "DEL_BELSELPOOL"@,
        "ADD_BELSELPOOL"@,
        "NUR_WFLSCRIPT_STARTEN"@,
        "SCRIPT_NR"@,
        "WFLSCRIPT_NACHIMPORT_STARTEN"@,
        "SCRIPT_NR_NACH"@,
        "SCRIPT_UEBERGABE"@,
        "ZKO_BERECHNEN"@,
        "NEUERBELEG"@,
        "PROT"@,
        "STAMMKALK"@,
        "AENDERV"@,
        "ALLEALPHA"@,
        "READONLY"@,
        "ANSIASCII"@,
        "UTF8_ANSI"@,
        "HTTPREQUEST"@,
        "UEBER"@,
    ]);
    lemma_differ_early(d);
}

/// The output order of `OrderNoteIdentifier` names each parameter once.
pub(crate) proof fn lemma_order_note_output_order_distinct()
    ensures
        OrderNoteIdentifier::spec_param_order().no_duplicates(),
{
    reveal_strlit("UEBER");
    reveal_strlit("PROT");
    reveal_strlit("STAMMKALK");
    reveal_strlit("AENDERV");
    reveal_strlit("ALLEALPHA");
    reveal_strlit("READONLY");
    reveal_strlit("ANSIASCII");
    reveal_strlit("UTF8_ANSI");
    reveal_strlit("HTTPREQUEST");
    reveal_strlit("NOTIZART");
    let d = OrderNoteIdentifier::spec_param_order();
    assert(d =~= seq![
        "UEBER"@,
        "PROT"@,
        "STAMMKALK"@,
        "AENDERV"@,
        "ALLEALPHA"@,
        "READONLY"@,
        "ANSIASCII"@,
        "UTF8_ANSI"@,
        "HTTPREQUEST"@,
        "NOTIZART"@,
    ]);
    lemma_differ_early(d);
}

/// The optional list of `OrderNoteIdentifier` names each parameter once.
pub(crate) proof fn lemma_order_note_optional_list_distinct()
    ensures
        OrderNoteIdentifier::spec_optional_params().no_duplicates(),
{
    reveal_strlit("NOTIZART");
    reveal_strlit("PROT");
    reveal_strlit("STAMMKALK");
    reveal_strlit("AENDERV");
    reveal_strlit("ALLEALPHA");
    reveal_strlit("READONLY");
    reveal_strlit("ANSIASCII");
    reveal_strlit("UTF8_ANSI");
    reveal_strlit("HTTPREQUEST");
    reveal_strlit("UEBER");
    let d = OrderNoteIdentifier::spec_optional_params();
    assert(d =~= seq![
        "NOTIZART"@,
        "PROT"@,
        "STAMMKALK"@,
        "AENDERV"@,
        "ALLEALPHA"@,
        "READONLY"@,
        "ANSIASCII"@,
        "UTF8_ANSI"@,
        "HTTPREQUEST"@,
        "UEBER"@,
    ]);
    lemma_differ_early(d);
}

/// The output order of `OrderPositionIdentifier` names each parameter once.
pub(crate) proof fn lemma_order_position_output_order_distinct()
    ensures
        OrderPositionIdentifier::spec_param_order().no_duplicates(),
{
    reveal_strlit("UEBER");
    reveal_strlit("PROT");
    reveal_strlit("STAMMKALK");
    reveal_strlit("AENDERV");
    reveal_strlit("ALLEALPHA");
    reveal_strlit("READONLY");
    reveal_strlit("ANSIASCII");
    reveal_strlit("UTF8_ANSI");
    reveal_strlit("HTTPREQUEST");
    reveal_strlit("FOSTAND");
    reveal_strlit("FOMENGE");
    reveal_strlit("FOEAN");
    reveal_strlit("PREISBER");
    reveal_strlit("POSDATERG");
    reveal_strlit("EAN");
    reveal_strlit("POSITIONSVERBUCHUNG");
    reveal_strlit("POSNR");
    reveal_strlit("BELPOSTITEL");
    reveal_strlit("POSLTXTUEBER");
    reveal_strlit("CHAAUTO");
    reveal_strlit("SERAUTO");
    reveal_strlit("IMMERUEBER");
    reveal_strlit("ZUEBER");
    reveal_strlit("FORMEL_1029");
    reveal_strlit("FOLGE_ARTIKEL");
    reveal_strlit("POSDATEN_SICHERN");
    reveal_strlit("POSDATEN_LADEN");
    reveal_strlit("SCRIPT_NR");
    reveal_strlit("ARTKIT_AUFLOESEN");
    reveal_strlit("HSTKL_AUFLOESUNG");
    reveal_strlit("AUF_HST_PRUEFEN");
    reveal_strlit("ZWISCHENSUMMEN");
    reveal_strlit("ALTERNATIVARTIKEL");
    let d = OrderPositionIdentifier::spec_param_order();
    assert(d =~= seq![
        "UEBER"@,
        "PROT"@,
        "STAMMKALK"@,
        "AENDERV"@,
        "ALLEALPHA"@,
        "READONLY"@,
        "ANSIASCII"@,
        "UTF8_ANSI"@,
        "HTTPREQUEST"@,
        "FOSTAND"@,
        "FOMENGE"@,
        "FOEAN"@,
        "PREISBER"@,
        "POSDATERG"@,
        "EAN"@,
        "POSITIONSVERBUCHUNG"@,
        "POSNR"@,
        "BELPOSTITEL"@,
        "POSLTXTUEBER"@,
        "CHAAUTO"@,
        "SERAUTO"@,
        "IMMERUEBER"@,
        "ZUEBER"@,
        "FORMEL_1029"@,
        "FOLGE_ARTIKEL"@,
        "POSDATEN_SICHERN"@,
        "POSDATEN_LADEN"@,
        "SCRIPT_NR"@,
        "ARTKIT_AUFLOESEN"@,
        "HSTKL_AUFLOESUNG"@,
        "AUF_HST_PRUEFEN"@,
        "ZWISCHENSUMMEN"@,
        "ALTERNATIVARTIKEL"@,
    ]);
    lemma_differ_early(d);
}

/// The optional list of `OrderPositionIdentifier` names each parameter once.
pub(crate) proof fn lemma_order_position_optional_list_distinct()
    ensures
        OrderPositionIdentifier::spec_optional_params().no_duplicates(),
{
    reveal_strlit("FOSTAND");
    reveal_strlit("FOMENGE");
    reveal_strlit("FOEAN");
    reveal_strlit("PREISBER");
    reveal_strlit("POSDATERG");
    reveal_strlit("EAN");
    reveal_strlit("POSITIONSVERBUCHUNG");
    reveal_strlit("POSNR");
    reveal_strlit("BELPOSTITEL");
    reveal_strlit("POSLTXTUEBER");
    reveal_strlit("CHAAUTO");
    reveal_strlit("SERAUTO");
    reveal_strlit("IMMERUEBER");
    reveal_strlit("ZUEBER");
    reveal_strlit("FORMEL_1029");
    reveal_strlit("FOLGE_ARTIKEL");
    reveal_strlit("POSDATEN_SICHERN");
    reveal_strlit("POSDATEN_LADEN");
    reveal_strlit("SCRIPT_NR");
    reveal_strlit("ARTKIT_AUFLOESEN");
    reveal_strlit("HSTKL_AUFLOESUNG");
    reveal_strlit("AUF_HST_PRUEFEN");
    reveal_strlit("ZWISCHENSUMMEN");
    reveal_strlit("ALTERNATIVARTIKEL");
    reveal_strlit("PROT");
    reveal_strlit("STAMMKALK");
    reveal_strlit("AENDERV");
    reveal_strlit("ALLEALPHA");
    reveal_strlit("READONLY");
    reveal_strlit("ANSIASCII");
    reveal_strlit("UTF8_ANSI");
    reveal_strlit("HTTPREQUEST");
    reveal_strlit("UEBER");
    let d = OrderPositionIdentifier::spec_optional_params();
    assert(d =~= seq![
        "FOSTAND"@,
        "FOMENGE"@,
        "FOEAN"@,
        "PREISBER"@,
        "POSDATERG"@,
        "EAN"@,
        "POSITIONSVERBUCHUNG"@,
        "POSNR"@,
        "BELPOSTITEL"@,
        "POSLTXTUEBER"@,
        "CHAAUTO"@,
        "SERAUTO"@,
        "IMMERUEBER"@,
        "ZUEBER"@,
        "FORMEL_1029"@,
        "FOLGE_ARTIKEL"@,
        "POSDATEN_SICHERN"@,
        "POSDATEN_LADEN"@,
        "SCRIPT_NR"@,
        "ARTKIT_AUFLOESEN"@,
        "HSTKL_AUFLOESUNG"@,
        "AUF_HST_PRUEFEN"@,
        "ZWISCHENSUMMEN"@,
        "ALTERNATIVARTIKEL"@,
        "PROT"@,
        "STAMMKALK"@,
        "AENDERV"@,
        "ALLEALPHA"@,
        "READONLY"@,
        "ANSIASCII"@,
        "UTF8_ANSI"@,
        "HTTPREQUEST"@,
        "UEBER"@,
    ]);
    lemma_differ_early(d);
}

} // verus!
