//! The decisions behind turning values into DTA text: which struct fields
//! become parameters and which data fields, how nested sequences become rows
//! of their own, and how scalar values are written.
//!
//! The `serde::Serializer` implementations that walk a value and call these
//! functions live beside the library, since they implement an outside trait.

use vstd::prelude::*;
use crate::error::{DtaError, ErrorModel};
use crate::identifiers::{DynamicRecordIdentifier, RecordIdentifier};
use crate::params::insert;
use crate::row::{DtaRow, accepts, missing_required};
use crate::text::push_char;

verus! {

/// `s` without any occurrence of `c`.
pub open spec fn remove_char(s: Seq<char>, c: char) -> Seq<char>
    decreases s.len(),
{
    if s.len() == 0 {
        s
    } else if s.last() == c {
        remove_char(s.drop_last(), c)
    } else {
        remove_char(s.drop_last(), c).push(s.last())
    }
}

/// The rows of `rows` one after the other.
pub open spec fn concat_all(rows: Seq<Seq<char>>) -> Seq<char>
    decreases rows.len(),
{
    if rows.len() == 0 {
        Seq::empty()
    } else {
        concat_all(rows.drop_last()) + rows.last()
    }
}

/// Whether a struct field named `key` is written as a parameter of a row of
/// type `T`: the type names it as a parameter, or the name is enclosed in
/// `$`, or it is `VART`.
pub open spec fn is_param_field<T: RecordIdentifier>(key: Seq<char>) -> bool {
    ||| (T::spec_required_params() + T::spec_optional_params()).contains(key)
    ||| (key.len() > 0 && key[0] == '$' && key.last() == '$')
    ||| key == "VART"@
}

/// The message for a kind of value that DTA text cannot hold.
pub open spec fn unsupported_message(what: Seq<char>) -> Seq<char> {
    "DTA format doesn't support "@ + what
}

/// The message for a struct inside a struct.
pub open spec fn nested_struct_message() -> Seq<char> {
    "Nested structs are not supported in DTA format"@
}

/// Upper-case form of a string, as `str::to_uppercase` gives it.
pub uninterp spec fn to_upper(s: Seq<char>) -> Seq<char>;

/// Calls `str::to_uppercase`; the result is the upper-case mapping that
/// Unicode defines for each character of `s`, which this library does not
/// state character by character and names [`to_upper`].
#[verifier::external_body]
fn uppercase(s: &str) -> (r: String)
    ensures
        r@ == to_upper(s@),
{
    s.to_uppercase()
}

/// `s` without `$` characters.
fn without_dollars(s: &str) -> (r: String)
    ensures
        r@ == remove_char(s@, '$'),
{
    let mut r = String::new();
    for c in it: s.chars()
        invariant
            it.seq() == s@,
            r@ == remove_char(s@.take(it.index() as int), '$'),
    {
        let ghost i = it.index();
        proof {
            assert(s@.take(i + 1).drop_last() =~= s@.take(i as int));
            assert(s@.take(i + 1).last() == c);
        }
        if c != '$' {
            push_char(&mut r, c);
        }
    }
    proof {
        assert(s@.take(s@.len() as int) =~= s@);
    }
    r
}

/// Whether `s` starts and ends with `$`.
fn is_dollar_enclosed(s: &str) -> (b: bool)
    ensures
        b == (s@.len() > 0 && s@[0] == '$' && s@.last() == '$'),
{
    let n = s.unicode_len();
    n > 0 && s.get_char(0) == '$' && s.get_char(n - 1) == '$'
}

/// The error for a kind of value that DTA text cannot hold, such as
/// `bytes`, `tuples` or `maps`.
pub fn unsupported(what: &str) -> (e: DtaError)
    ensures
        e@ == ErrorModel::Serde(unsupported_message(what@)),
{
    let mut msg = "DTA format doesn't support ".to_owned();
    msg.append(what);
    DtaError::Serde(msg)
}

/// The error for a struct inside a struct.
pub fn nested_struct_error() -> (e: DtaError)
    ensures
        e@ == ErrorModel::Serde(nested_struct_message()),
{
    DtaError::Serde("Nested structs are not supported in DTA format".to_owned())
}

/// The rows of `rows` one after the other.
pub fn concat_rows(rows: &Vec<String>) -> (s: String)
    ensures
        s@ == concat_all(rows.deep_view()),
{
    let mut s = String::new();
    let mut i: usize = 0;
    proof {
        assert(rows.deep_view().take(0) =~= Seq::<Seq<char>>::empty());
    }
    while i < rows.len()
        invariant
            i <= rows@.len(),
            s@ == concat_all(rows.deep_view().take(i as int)),
        decreases rows@.len() - i,
    {
        proof {
            assert(rows.deep_view().take(i + 1).drop_last() =~= rows.deep_view().take(i as int));
        }
        s.append(rows[i].as_str());
        i = i + 1;
    }
    proof {
        assert(rows.deep_view().take(rows@.len() as int) =~= rows.deep_view());
    }
    s
}

/// Serializes a value into the rows of one record type.
pub struct DtaSerializer<T: RecordIdentifier> {
    identifier: T,
    is_nested: bool,
}

impl<T: RecordIdentifier> DtaSerializer<T> {
    /// The record identifier of the rows written.
    pub closed spec fn spec_identifier(&self) -> T {
        self.identifier
    }

    /// Whether this serializer writes a value inside another.
    pub closed spec fn spec_is_nested(&self) -> bool {
        self.is_nested
    }

    /// A serializer for top-level values of record type `identifier`.
    pub fn new(identifier: T) -> (r: Self)
        ensures
            r.spec_identifier() == identifier,
            !r.spec_is_nested(),
    {
        DtaSerializer { identifier, is_nested: false }
    }

    /// Starts a struct, which becomes a row; a nested struct is refused.
    pub fn struct_serializer(self) -> (r: Result<DtaStructSerializer<T>, DtaError>)
        ensures
            self.spec_is_nested() ==> (r matches Err(e) && e@ == ErrorModel::Serde(
                nested_struct_message(),
            )),
            !self.spec_is_nested() ==> (r matches Ok(s) && s.spec_row().identifier
                == self.spec_identifier() && s.spec_row().params@.len() == 0
                && s.spec_row().data_view().len() == 0 && s.spec_sequence_rows().len() == 0),
    {
        if self.is_nested {
            return Err(nested_struct_error());
        }
        Ok(DtaStructSerializer::new(self.identifier))
    }

    /// Starts a sequence, each element of which becomes rows of this record type.
    pub fn sequence_serializer(self) -> (r: DtaSequenceSerializer<T>)
        ensures
            r.spec_identifier() == self.spec_identifier(),
            r.spec_rows().len() == 0,
    {
        DtaSequenceSerializer::new(self.identifier)
    }
}

/// The text that one struct field turns into: a single value, or the rows
/// of a nested sequence.
#[derive(Debug)]
pub enum DtaFieldResult {
    Value(String),
    Sequence(Vec<String>),
}

/// Serializes the value of one struct field.
pub struct DtaFieldSerializer {
    field_name: &'static str,
}

impl DtaFieldSerializer {
    /// The name of the field.
    pub closed spec fn spec_field_name(&self) -> Seq<char> {
        self.field_name@
    }

    /// A serializer for the field named `field_name`.
    pub fn new(field_name: &'static str) -> (r: Self)
        ensures
            r.spec_field_name() == field_name@,
    {
        DtaFieldSerializer { field_name }
    }

    /// Starts a sequence held by this field; its elements become rows whose
    /// SKZ is the field name in upper case.
    pub fn sequence_serializer(self) -> (r: DtaFieldSequenceSerializer)
        ensures
            r.spec_field_name() == self.spec_field_name(),
            r.spec_rows().len() == 0,
    {
        DtaFieldSequenceSerializer::new(self.field_name)
    }
}

/// Collects the rows of a sequence held by a struct field.
pub struct DtaFieldSequenceSerializer {
    field_name: &'static str,
    rows: Vec<String>,
}

impl DtaFieldSequenceSerializer {
    /// The name of the field.
    pub closed spec fn spec_field_name(&self) -> Seq<char> {
        self.field_name@
    }

    /// The rows collected so far.
    pub closed spec fn spec_rows(&self) -> Seq<Seq<char>> {
        self.rows.deep_view()
    }

    /// A collector for the sequence held by the field named `field_name`.
    pub fn new(field_name: &'static str) -> (r: Self)
        ensures
            r.spec_field_name() == field_name@,
            r.spec_rows().len() == 0,
    {
        DtaFieldSequenceSerializer { field_name, rows: Vec::new() }
    }

    /// The identifier of the rows of the elements: the field name in upper case.
    pub fn element_identifier(&self) -> (r: DynamicRecordIdentifier)
        ensures
            r.spec_skz() == to_upper(self.spec_field_name()),
    {
        let skz = uppercase(self.field_name);
        DynamicRecordIdentifier::new(skz.as_str())
    }

    /// Adds the rows of one element.
    pub fn push_row(&mut self, row: String)
        ensures
            final(self).spec_field_name() == old(self).spec_field_name(),
            final(self).spec_rows() == old(self).spec_rows().push(row@),
    {
        let ghost before = self.rows.deep_view();
        self.rows.push(row);
        proof {
            assert(self.rows.deep_view() =~= before.push(row@));
        }
    }

    /// The rows collected.
    pub fn end(self) -> (r: DtaFieldResult)
        ensures
            r matches DtaFieldResult::Sequence(rows) && rows.deep_view() == self.spec_rows(),
    {
        DtaFieldResult::Sequence(self.rows)
    }
}

/// Collects the rows of a top-level sequence.
pub struct DtaSequenceSerializer<T: RecordIdentifier> {
    identifier: T,
    rows: Vec<String>,
}

impl<T: RecordIdentifier> DtaSequenceSerializer<T> {
    /// The record identifier of the elements' rows.
    pub closed spec fn spec_identifier(&self) -> T {
        self.identifier
    }

    /// The rows collected so far.
    pub closed spec fn spec_rows(&self) -> Seq<Seq<char>> {
        self.rows.deep_view()
    }

    /// A collector for a sequence whose elements are rows of `identifier`'s type.
    pub fn new(identifier: T) -> (r: Self)
        ensures
            r.spec_identifier() == identifier,
            r.spec_rows().len() == 0,
    {
        DtaSequenceSerializer { identifier, rows: Vec::new() }
    }

    /// A serializer for one element, with a copy of the identifier.
    pub fn element_serializer(&self) -> (r: DtaSerializer<T>)
        ensures
            cloned::<T>(self.spec_identifier(), r.spec_identifier()),
            !r.spec_is_nested(),
    {
        DtaSerializer::new(self.identifier.clone())
    }

    /// Adds the rows of one element.
    pub fn push_row(&mut self, row: String)
        ensures
            final(self).spec_identifier() == old(self).spec_identifier(),
            final(self).spec_rows() == old(self).spec_rows().push(row@),
    {
        let ghost before = self.rows.deep_view();
        self.rows.push(row);
        proof {
            assert(self.rows.deep_view() =~= before.push(row@));
        }
    }

    /// The rows of all elements, one after the other.
    pub fn end(self) -> (r: String)
        ensures
            r@ == concat_all(self.spec_rows()),
    {
        concat_rows(&self.rows)
    }
}

/// Builds the row of a struct from its fields.
pub struct DtaStructSerializer<T: RecordIdentifier> {
    dta_row: DtaRow<T>,
    sequence_rows: Vec<String>,
}

impl<T: RecordIdentifier> DtaStructSerializer<T> {
    /// The row built so far.
    pub closed spec fn spec_row(&self) -> DtaRow<T> {
        self.dta_row
    }

    /// The rows of nested sequences collected so far.
    pub closed spec fn spec_sequence_rows(&self) -> Seq<Seq<char>> {
        self.sequence_rows.deep_view()
    }

    /// A builder of an empty row of `identifier`'s type.
    pub fn new(identifier: T) -> (r: Self)
        ensures
            r.spec_row().identifier == identifier,
            r.spec_row().params@.len() == 0,
            r.spec_row().data_view().len() == 0,
            r.spec_sequence_rows().len() == 0,
    {
        let r = DtaStructSerializer { dta_row: DtaRow::new(identifier), sequence_rows: Vec::new() };
        proof {
            assert(r.sequence_rows.deep_view().len() == 0);
        }
        r
    }

    /// Adds the field named `key` whose value turned into `value`.
    ///
    /// An empty value is skipped. A value of a parameter field (see
    /// [`is_param_field`]) sets the parameter named `key` without `$`
    /// characters, which fails where the record type does not accept it; any
    /// other value becomes a data field. The rows of a sequence are kept to
    /// follow the row of the struct.
    pub fn add_field(&mut self, key: &str, value: DtaFieldResult) -> (r: Result<(), DtaError>)
        ensures
            final(self).spec_row().identifier == old(self).spec_row().identifier,
            match value {
                DtaFieldResult::Value(v) => {
                    &&& final(self).spec_sequence_rows() == old(self).spec_sequence_rows()
                    &&& if v@.len() == 0 {
                        r is Ok && final(self).spec_row().params@ == old(self).spec_row().params@
                            && final(self).spec_row().data_view() == old(
                            self,
                        ).spec_row().data_view()
                    } else if is_param_field::<T>(key@) {
                        let k = remove_char(key@, '$');
                        &&& final(self).spec_row().data_view() == old(self).spec_row().data_view()
                        &&& accepts::<T>(k) ==> (r is Ok && final(self).spec_row().params@
                            == insert(old(self).spec_row().params@, k, v@))
                        &&& !accepts::<T>(k) ==> (r matches Err(e) && e@
                            == ErrorModel::InvalidParam(k) && final(self).spec_row().params@ == old(
                            self,
                        ).spec_row().params@)
                    } else {
                        r is Ok && final(self).spec_row().params@ == old(self).spec_row().params@
                            && final(self).spec_row().data_view() == old(
                            self,
                        ).spec_row().data_view().push((key@, v@))
                    }
                },
                DtaFieldResult::Sequence(rows) => {
                    &&& r is Ok
                    &&& final(self).spec_row().params@ == old(self).spec_row().params@
                    &&& final(self).spec_row().data_view() == old(self).spec_row().data_view()
                    &&& final(self).spec_sequence_rows() == old(self).spec_sequence_rows()
                        + rows.deep_view()
                },
            },
    {
        match value {
            DtaFieldResult::Value(value_str) => {
                if value_str.as_str().is_empty() {
                    return Ok(());
                }
                let key_string = key.to_owned();
                let mut all_params = T::required_params();
                let mut optional = T::optional_params();
                let ghost req = all_params.deep_view();
                let ghost opt = optional.deep_view();
                all_params.append(&mut optional);
                proof {
                    assert(all_params.deep_view() =~= req + opt);
                }
                let vart = "VART".to_owned();
                if crate::row::contains_name(&all_params, &key_string) || is_dollar_enclosed(key)
                    || key_string == vart {
                    let name = without_dollars(key);
                    match self.dta_row.with_param(name.as_str(), value_str.as_str()) {
                        Ok(_) => Ok(()),
                        Err(e) => Err(e),
                    }
                } else {
                    self.dta_row.with_data_field(key, value_str.as_str());
                    Ok(())
                }
            },
            DtaFieldResult::Sequence(rows) => {
                let ghost before = self.sequence_rows.deep_view();
                let ghost added = rows.deep_view();
                let mut rows = rows;
                self.sequence_rows.append(&mut rows);
                proof {
                    assert(self.sequence_rows.deep_view() =~= before + added);
                }
                Ok(())
            },
        }
    }

    /// The row of the struct followed by the rows of its nested sequences;
    /// fails where the row lacks a required parameter.
    pub fn end(self) -> (r: Result<String, DtaError>)
        ensures
            match missing_required::<T>(self.spec_row().params@) {
                Some(m) => r matches Err(e) && e@ == ErrorModel::MissingRequiredParameter(m),
                None => r matches Ok(s) && s@ == self.spec_row().spec_line() + concat_all(
                    self.spec_sequence_rows(),
                ),
            },
    {
        let main_row = match self.dta_row.to_dta_string() {
            Err(e) => {
                return Err(e);
            },
            Ok(s) => s,
        };
        if self.sequence_rows.len() == 0 {
            proof {
                assert(self.sequence_rows.deep_view().len() == 0);
                assert(main_row@ + concat_all(self.spec_sequence_rows()) =~= main_row@);
            }
            Ok(main_row)
        } else {
            let rest = concat_rows(&self.sequence_rows);
            let mut all = main_row;
            all.append(rest.as_str());
            Ok(all)
        }
    }
}

} // verus!
