//! DTA rows and their builder, and the text form of a row.
//!
//! A row is written as `þVARTþ<vart>þSKZþ<skz>þUEBERþ<ueber>þ<params>þ<data>\n`:
//! the header, then the parameters that the record type orders, in that
//! order, then the other parameters in the order in which they were first
//! set, then the data fields sorted by name, each value followed by a space.

use vstd::prelude::*;
use crate::error::{DtaError, ErrorModel};
use crate::identifiers::{
    RecordIdentifier, DynamicRecordIdentifier, AddressIdentifier, AddressProductIdentifier,
    ProductIdentifier, DeliveryAddressIdentifier, OrderIdentifier, OrderNoteIdentifier,
    OrderPositionIdentifier, names, DEFAULT_REQUIRED_PARAMS,
};
use crate::params::{Assoc, ParamMap, lookup, insert, copy_pairs};
use crate::sorting::{sort_by_name, sorted_by_name_copy};
use crate::text::{THORN, join, push_char};
use crate::parser::parse_line;
use crate::roundtrip::{writable_content, reads_back, lemma_parse_written};

verus! {

/// Parameters that the header carries and that are not repeated after it.
pub open spec fn is_header_param(k: Seq<char>) -> bool {
    k == "VART"@ || k == "UEBER"@
}

/// The value `o` holds, or `d` where it holds none.
pub open spec fn value_or(o: Option<Seq<char>>, d: Seq<char>) -> Seq<char> {
    match o {
        Some(v) => v,
        None => d,
    }
}

/// Name and value of each parameter named in `order` that `params` holds,
/// in the order of `order`.
pub open spec fn ordered_parts(order: Seq<Seq<char>>, params: Assoc) -> Seq<Seq<char>>
    decreases order.len(),
{
    if order.len() == 0 {
        Seq::<Seq<char>>::empty()
    } else {
        let rest = ordered_parts(order.drop_last(), params);
        let p = order.last();
        if !is_header_param(p) && lookup(params, p) is Some {
            rest + seq![p, lookup(params, p)->0]
        } else {
            rest
        }
    }
}

/// Name and value of each parameter of `params` that `order` does not name,
/// in the order of `params`.
pub open spec fn remaining_parts(params: Assoc, order: Seq<Seq<char>>) -> Seq<Seq<char>>
    decreases params.len(),
{
    if params.len() == 0 {
        Seq::<Seq<char>>::empty()
    } else {
        let rest = remaining_parts(params.drop_last(), order);
        let e = params.last();
        if !is_header_param(e.0) && !order.contains(e.0) {
            rest + seq![e.0, e.1]
        } else {
            rest
        }
    }
}

/// Name and value of each data field, each value followed by a space.
pub open spec fn data_parts(data: Assoc) -> Seq<Seq<char>>
    decreases data.len(),
{
    if data.len() == 0 {
        Seq::<Seq<char>>::empty()
    } else {
        data_parts(data.drop_last()) + seq![data.last().0, data.last().1.push(' ')]
    }
}

/// All fields of a row in written order.
pub open spec fn dta_parts(skz: Seq<char>, order: Seq<Seq<char>>, params: Assoc, data: Assoc) -> Seq<
    Seq<char>,
> {
    seq![
        "VART"@,
        value_or(lookup(params, "VART"@), "0"@),
        "SKZ"@,
        skz,
        "UEBER"@,
        value_or(lookup(params, "UEBER"@), "N"@),
    ] + ordered_parts(order, params) + remaining_parts(params, order) + data_parts(
        sort_by_name(data),
    )
}

/// A line of DTA text holding `parts`.
pub open spec fn dta_line(parts: Seq<Seq<char>>) -> Seq<char> {
    seq![THORN] + join(parts, THORN) + seq!['\n']
}

/// The first name of `required` that `params` lacks.
pub open spec fn first_missing(required: Seq<Seq<char>>, params: Assoc) -> Option<Seq<char>>
    decreases required.len(),
{
    if required.len() == 0 {
        None
    } else if lookup(params, required[0]) is None {
        Some(required[0])
    } else {
        first_missing(required.drop_first(), params)
    }
}

/// The required parameter of `T` that `params` lacks first, where `T`
/// checks its parameters.
pub open spec fn missing_required<T: RecordIdentifier>(params: Assoc) -> Option<Seq<char>> {
    if T::spec_check_params() {
        first_missing(T::spec_required_params(), params)
    } else {
        None
    }
}

/// Whether a row of type `T` accepts a parameter named `key`.
pub open spec fn accepts<T: RecordIdentifier>(key: Seq<char>) -> bool {
    !T::spec_check_params() || (T::spec_required_params() + T::spec_optional_params()).contains(key)
}

/// Whether `v` holds `name`.
pub fn contains_name(v: &Vec<String>, name: &String) -> (b: bool)
    ensures
        b == v.deep_view().contains(name@),
{
    let mut i: usize = 0;
    while i < v.len()
        invariant
            i <= v@.len(),
            forall|j: int| 0 <= j < i ==> v.deep_view()[j] != name@,
        decreases v@.len() - i,
    {
        if v[i] == *name {
            proof {
                assert(v.deep_view()[i as int] == name@);
            }
            return true;
        }
        i = i + 1;
    }
    false
}

/// The line holding `parts`, separated and introduced by the thorn and ended
/// by a newline.
pub fn join_line(parts: &Vec<String>) -> (s: String)
    ensures
        s@ == dta_line(parts.deep_view()),
{
    let mut s = String::new();
    push_char(&mut s, THORN);
    let mut i: usize = 0;
    proof {
        assert(parts.deep_view().take(0) =~= Seq::<Seq<char>>::empty());
        assert(s@ =~= seq![THORN] + join(parts.deep_view().take(0), THORN));
    }
    while i < parts.len()
        invariant
            i <= parts@.len(),
            s@ == seq![THORN] + join(parts.deep_view().take(i as int), THORN),
        decreases parts@.len() - i,
    {
        let ghost before = s@;
        let ghost p = parts.deep_view();
        proof {
            assert(p.take(i + 1).drop_last() =~= p.take(i as int));
            assert(p.take(i + 1).last() == parts@[i as int]@);
        }
        if i > 0 {
            push_char(&mut s, THORN);
        }
        s.append(parts[i].as_str());
        proof {
            if i == 0 {
                assert(p.take(1).len() == 1);
                assert(join(p.take(1), THORN) == p.take(1)[0]);
                assert(s@ =~= seq![THORN] + join(p.take(i + 1), THORN));
            } else {
                assert(s@ =~= seq![THORN] + join(p.take(i + 1), THORN));
            }
        }
        i = i + 1;
    }
    proof {
        assert(parts.deep_view().take(parts@.len() as int) =~= parts.deep_view());
    }
    push_char(&mut s, '\n');
    proof {
        assert(s@ =~= dta_line(parts.deep_view()));
    }
    s
}

/// A single DTA record: its record identifier, its parameters and its data
/// fields.
#[derive(Debug)]
pub struct DtaRow<T: RecordIdentifier> {
    /// Parameters for this record (e.g., STAMMKALK, LANDKUNDA).
    pub params: ParamMap,
    /// Data fields as key-value pairs (e.g., "aa" -> "809460").
    pub data_fields: Vec<(String, String)>,
    /// The record identifier (SKZ) of this record.
    pub identifier: T,
}

impl<T: RecordIdentifier> Clone for DtaRow<T> {
    fn clone(&self) -> (r: Self)
        ensures
            r.params@ == self.params@,
            r.data_view() == self.data_view(),
            cloned::<T>(self.identifier, r.identifier),
    {
        DtaRow {
            params: self.params.clone(),
            data_fields: copy_pairs(&self.data_fields),
            identifier: self.identifier.clone(),
        }
    }
}

impl<T: RecordIdentifier> DtaRow<T> {
    /// The data fields as (name, value) pairs.
    pub open spec fn data_view(&self) -> Assoc {
        self.data_fields.deep_view()
    }

    /// The text of this row, where it is valid.
    pub open spec fn spec_line(&self) -> Seq<char> {
        dta_line(
            dta_parts(
                self.identifier.spec_skz(),
                T::spec_param_order(),
                self.params@,
                self.data_view(),
            ),
        )
    }

    /// Creates a new empty DTA row with the given identifier.
    pub fn new(identifier: T) -> (r: Self)
        ensures
            r.params@ == Seq::<(Seq<char>, Seq<char>)>::empty(),
            r.data_view() == Seq::<(Seq<char>, Seq<char>)>::empty(),
            r.identifier == identifier,
    {
        let r = DtaRow { params: ParamMap::new(), data_fields: Vec::new(), identifier };
        proof {
            assert(r.data_view() =~= Seq::<(Seq<char>, Seq<char>)>::empty());
        }
        r
    }

    /// The record identifier of this row.
    pub fn identifier(&self) -> (r: &T)
        ensures
            *r == self.identifier,
    {
        &self.identifier
    }

    /// Adds a parameter to this row, and returns the row for further calls.
    ///
    /// Returns [`DtaError::InvalidParam`] if the record type checks its
    /// parameters and names neither a required nor an optional parameter
    /// `key`; the row is then unchanged.
    pub fn with_param(&mut self, key: &str, value: &str) -> (r: Result<&mut Self, DtaError>)
        ensures
            accepts::<T>(key@) ==> (r matches Ok(m) && m.params@ == insert(
                old(self).params@,
                key@,
                value@,
            ) && m.data_fields == old(self).data_fields && m.identifier == old(self).identifier
                && *final(self) == *final(m)),
            !accepts::<T>(key@) ==> (r matches Err(e) && e@ == ErrorModel::InvalidParam(key@)
                && *final(self) == *old(self)),
    {
        let key_str = key.to_owned();
        let mut all_params = T::required_params();
        let mut optional = T::optional_params();
        let ghost req = all_params.deep_view();
        let ghost opt = optional.deep_view();
        all_params.append(&mut optional);
        proof {
            assert(all_params.deep_view() =~= req + opt);
        }
        if T::check_params() && !contains_name(&all_params, &key_str) {
            return Err(DtaError::InvalidParam(key_str));
        }
        self.params.insert(key_str, value.to_owned());
        Ok(self)
    }

    /// Adds a data field to this row, and returns the row for further calls;
    /// data fields are always accepted.
    pub fn with_data_field(&mut self, key: &str, value: &str) -> (r: &mut Self)
        ensures
            r.params == old(self).params,
            r.identifier == old(self).identifier,
            r.data_view() == old(self).data_view().push((key@, value@)),
            *final(self) == *final(r),
    {
        let ghost before = self.data_view();
        self.data_fields.push((key.to_owned(), value.to_owned()));
        proof {
            assert(self.data_view() =~= before.push((key@, value@)));
        }
        self
    }

    /// Validates that all required parameters are present.
    ///
    /// Returns [`DtaError::MissingRequiredParameter`] with the first required
    /// parameter that is missing, where the record type checks parameters.
    pub fn validate(&self) -> (r: Result<(), DtaError>)
        ensures
            match missing_required::<T>(self.params@) {
                Some(m) => r matches Err(e) && e@ == ErrorModel::MissingRequiredParameter(m),
                None => r is Ok,
            },
    {
        if !T::check_params() {
            return Ok(());
        }
        let required = T::required_params();
        let mut i: usize = 0;
        proof {
            assert(required.deep_view().skip(0) =~= required.deep_view());
        }
        while i < required.len()
            invariant
                i <= required@.len(),
                T::spec_check_params(),
                required.deep_view() == T::spec_required_params(),
                first_missing(T::spec_required_params(), self.params@) == first_missing(
                    required.deep_view().skip(i as int),
                    self.params@,
                ),
            decreases required@.len() - i,
        {
            let ghost rest = required.deep_view().skip(i as int);
            proof {
                assert(rest[0] == required@[i as int]@);
                assert(rest.drop_first() =~= required.deep_view().skip(i + 1));
            }
            if !self.params.contains_key(required[i].as_str()) {
                return Err(DtaError::MissingRequiredParameter(required[i].clone()));
            }
            i = i + 1;
        }
        Ok(())
    }

    /// Converts this row to a line of DTA text.
    ///
    /// Returns the error of [`DtaRow::validate`] where validation fails.
    /// Where the row's names and values survive the text form, the line
    /// reads back to the row's SKZ, parameters and sorted data fields.
    pub fn to_dta_string(&self) -> (r: Result<String, DtaError>)
        ensures
            match missing_required::<T>(self.params@) {
                Some(m) => r matches Err(e) && e@ == ErrorModel::MissingRequiredParameter(m),
                None => r matches Ok(s) && s@ == self.spec_line(),
            },
            r matches Ok(s) ==> (writable_content(
                self.identifier.spec_skz(),
                self.params@,
                self.data_view(),
            ) ==> parse_line(s@) is Ok && reads_back(
                parse_line(s@)->Ok_0,
                self.identifier.spec_skz(),
                self.params@,
                self.data_view(),
            )),
    {
        proof {
            use_type_invariant(&self.params);
            if writable_content(self.identifier.spec_skz(), self.params@, self.data_view()) {
                lemma_parse_written(
                    self.identifier.spec_skz(),
                    T::spec_param_order(),
                    self.params@,
                    self.data_view(),
                );
            }
        }
        match self.validate() {
            Err(e) => {
                return Err(e);
            },
            Ok(()) => {},
        }
        let ghost params = self.params@;
        let mut parts: Vec<String> = Vec::new();
        parts.push("VART".to_owned());
        match self.params.get("VART") {
            Some(v) => parts.push(v.clone()),
            None => parts.push("0".to_owned()),
        }
        parts.push("SKZ".to_owned());
        parts.push(self.identifier.skz());
        parts.push("UEBER".to_owned());
        match self.params.get("UEBER") {
            Some(v) => parts.push(v.clone()),
            None => parts.push("N".to_owned()),
        }
        let ghost head = parts.deep_view();
        proof {
            assert(head =~= seq![
                "VART"@,
                value_or(lookup(params, "VART"@), "0"@),
                "SKZ"@,
                self.identifier.spec_skz(),
                "UEBER"@,
                value_or(lookup(params, "UEBER"@), "N"@),
            ]);
        }

        let order = T::param_order();
        let vart = "VART".to_owned();
        let ueber = "UEBER".to_owned();
        let mut i: usize = 0;
        proof {
            assert(order.deep_view().take(0) =~= Seq::<Seq<char>>::empty());
            assert(parts.deep_view() =~= head + ordered_parts(order.deep_view().take(0), params));
        }
        while i < order.len()
            invariant
                i <= order@.len(),
                params == self.params@,
                vart@ == "VART"@,
                ueber@ == "UEBER"@,
                parts.deep_view() == head + ordered_parts(order.deep_view().take(i as int), params),
            decreases order@.len() - i,
        {
            let ghost before = parts.deep_view();
            let ghost o = order.deep_view();
            let p = &order[i];
            proof {
                assert(o.take(i + 1).drop_last() =~= o.take(i as int));
                assert(o.take(i + 1).last() == p@);
            }
            if !(*p == vart || *p == ueber) {
                match self.params.get(p.as_str()) {
                    Some(v) => {
                        parts.push(p.clone());
                        parts.push(v.clone());
                        proof {
                            assert(parts.deep_view() =~= before + seq![p@, v@]);
                        }
                    },
                    None => {},
                }
            }
            i = i + 1;
        }
        proof {
            assert(order.deep_view().take(order@.len() as int) =~= order.deep_view());
        }
        let ghost after_ordered = parts.deep_view();

        let entries = self.params.entries();
        let mut j: usize = 0;
        proof {
            assert(params.take(0) =~= Seq::<(Seq<char>, Seq<char>)>::empty());
        }
        while j < entries.len()
            invariant
                j <= entries@.len(),
                params == entries.deep_view(),
                vart@ == "VART"@,
                ueber@ == "UEBER"@,
                parts.deep_view() == after_ordered + remaining_parts(
                    params.take(j as int),
                    order.deep_view(),
                ),
            decreases entries@.len() - j,
        {
            let ghost before = parts.deep_view();
            let e = &entries[j];
            proof {
                assert(params.take(j + 1).drop_last() =~= params.take(j as int));
                assert(params.take(j + 1).last() == (e.0@, e.1@));
            }
            if !(e.0 == vart || e.0 == ueber) && !contains_name(&order, &e.0) {
                parts.push(e.0.clone());
                parts.push(e.1.clone());
                proof {
                    assert(parts.deep_view() =~= before + seq![e.0@, e.1@]);
                }
            }
            j = j + 1;
        }
        proof {
            assert(params.take(params.len() as int) =~= params);
        }
        let ghost after_remaining = parts.deep_view();

        let sorted = sorted_by_name_copy(&self.data_fields);
        let mut k: usize = 0;
        proof {
            assert(sorted.deep_view().take(0) =~= Seq::<(Seq<char>, Seq<char>)>::empty());
        }
        while k < sorted.len()
            invariant
                k <= sorted@.len(),
                parts.deep_view() == after_remaining + data_parts(sorted.deep_view().take(k as int)),
            decreases sorted@.len() - k,
        {
            let ghost before = parts.deep_view();
            let ghost sv = sorted.deep_view();
            proof {
                assert(sv.take(k + 1).drop_last() =~= sv.take(k as int));
                assert(sv.take(k + 1).last() == (sorted@[k as int].0@, sorted@[k as int].1@));
            }
            let name = sorted[k].0.clone();
            let mut value = sorted[k].1.clone();
            push_char(&mut value, ' ');
            parts.push(name);
            parts.push(value);
            proof {
                assert(parts.deep_view() =~= before + seq![
                    sorted@[k as int].0@,
                    sorted@[k as int].1@.push(' '),
                ]);
            }
            k = k + 1;
        }
        proof {
            assert(sorted.deep_view().take(sorted@.len() as int) =~= sorted.deep_view());
            assert(parts.deep_view() =~= dta_parts(
                self.identifier.spec_skz(),
                T::spec_param_order(),
                self.params@,
                self.data_view(),
            ));
        }
        Ok(join_line(&parts))
    }
}

/// Builder for constructing [`DtaRow`] instances with a fluent API.
pub struct DtaRowBuilder<T: RecordIdentifier> {
    row: DtaRow<T>,
}

impl<T: RecordIdentifier> DtaRowBuilder<T> {
    /// The row being built.
    pub closed spec fn spec_row(&self) -> DtaRow<T> {
        self.row
    }

    /// Creates a new builder with the given record identifier.
    pub fn new(identifier: T) -> (r: Self)
        ensures
            r.spec_row().params@ == Seq::<(Seq<char>, Seq<char>)>::empty(),
            r.spec_row().data_view() == Seq::<(Seq<char>, Seq<char>)>::empty(),
            r.spec_row().identifier == identifier,
    {
        DtaRowBuilder { row: DtaRow::new(identifier) }
    }

    /// Adds a parameter to the row being built.
    ///
    /// Returns [`DtaError::InvalidParam`] if the parameter is not valid for
    /// this record type.
    pub fn param(self, key: &str, value: &str) -> (r: Result<Self, DtaError>)
        ensures
            accepts::<T>(key@) ==> (r matches Ok(b) && b.spec_row().params@ == insert(
                self.spec_row().params@,
                key@,
                value@,
            ) && b.spec_row().data_fields == self.spec_row().data_fields
                && b.spec_row().identifier == self.spec_row().identifier),
            !accepts::<T>(key@) ==> (r matches Err(e) && e@ == ErrorModel::InvalidParam(key@)),
    {
        let mut b = self;
        match b.row.with_param(key, value) {
            Ok(_) => Ok(b),
            Err(e) => Err(e),
        }
    }

    /// Adds a data field to the row being built.
    pub fn data(self, key: &str, value: &str) -> (r: Self)
        ensures
            r.spec_row().params == self.spec_row().params,
            r.spec_row().identifier == self.spec_row().identifier,
            r.spec_row().data_view() == self.spec_row().data_view().push((key@, value@)),
    {
        let mut b = self;
        b.row.with_data_field(key, value);
        b
    }

    /// Builds the final [`DtaRow`], validating all required parameters are present.
    ///
    /// Returns [`DtaError::MissingRequiredParameter`] if a required parameter is missing.
    pub fn build(self) -> (r: Result<DtaRow<T>, DtaError>)
        ensures
            match missing_required::<T>(self.spec_row().params@) {
                Some(m) => r matches Err(e) && e@ == ErrorModel::MissingRequiredParameter(m),
                None => r == Ok::<DtaRow<T>, DtaError>(self.spec_row()),
            },
    {
        match self.row.validate() {
            Ok(()) => Ok(self.row),
            Err(e) => Err(e),
        }
    }
}

/// A dynamic identifier accepts every parameter name.
pub proof fn law_dynamic_accepts_any(key: Seq<char>)
    ensures
        accepts::<DynamicRecordIdentifier>(key),
{
}

/// `first_missing` finds nothing exactly where every name has a value, and
/// otherwise a name of `required` without a value, every earlier name of
/// which has one.
proof fn lemma_first_missing(required: Seq<Seq<char>>, params: Assoc)
    ensures
        first_missing(required, params) is None <==> forall|i: int|
            0 <= i < required.len() ==> #[trigger] lookup(params, required[i]) is Some,
        first_missing(required, params) matches Some(m) ==> exists|i: int|
            0 <= i < required.len() && required[i] == m && lookup(params, m) is None && forall|j: int|
                0 <= j < i ==> #[trigger] lookup(params, required[j]) is Some,
    decreases required.len(),
{
    if required.len() > 0 {
        let rest = required.drop_first();
        lemma_first_missing(rest, params);
        if lookup(params, required[0]) is Some {
            assert forall|i: int| 0 <= i < rest.len() implies (#[trigger] lookup(params, rest[i])
                is Some) == (lookup(params, required[i + 1]) is Some) by {
                assert(rest[i] == required[i + 1]);
            }
            if forall|i: int| 0 <= i < rest.len() ==> #[trigger] lookup(params, rest[i]) is Some {
                assert forall|i: int| 0 <= i < required.len() implies #[trigger] lookup(
                    params,
                    required[i],
                ) is Some by {
                    if i > 0 {
                        assert(required[i] == rest[i - 1]);
                    }
                }
            } else {
                let k = choose|k: int| 0 <= k < rest.len() && !(lookup(params, rest[k]) is Some);
                assert(required[k + 1] == rest[k]);
            }
            if first_missing(required, params) is Some {
                let m = first_missing(required, params)->0;
                let i = choose|i: int|
                    0 <= i < rest.len() && rest[i] == m && lookup(params, m) is None && forall|j: int|
                        0 <= j < i ==> #[trigger] lookup(params, rest[j]) is Some;
                assert(required[i + 1] == m);
                assert forall|j: int| 0 <= j < i + 1 implies #[trigger] lookup(params, required[j])
                    is Some by {
                    if j > 0 {
                        assert(required[j] == rest[j - 1]);
                    }
                }
            }
        } else {
            assert(!(lookup(params, required[0]) is Some));
        }
    }
}

/// Validation of a row of type `T` fails exactly where `T` checks its
/// parameters and some required parameter has no value; the parameter it
/// names is a required one without a value, and every required parameter
/// listed before it has one.
pub proof fn law_missing_required<T: RecordIdentifier>(params: Assoc)
    ensures
        missing_required::<T>(params) is None <==> (!T::spec_check_params() || forall|i: int|
            0 <= i < T::spec_required_params().len() ==> #[trigger] lookup(
                params,
                T::spec_required_params()[i],
            ) is Some),
        missing_required::<T>(params) matches Some(m) ==> T::spec_check_params() && exists|i: int|
            0 <= i < T::spec_required_params().len() && T::spec_required_params()[i] == m && lookup(
                params,
                m,
            ) is None && forall|j: int|
                0 <= j < i ==> #[trigger] lookup(params, T::spec_required_params()[j]) is Some,
{
    lemma_first_missing(T::spec_required_params(), params);
}

/// A row of type `T` accepts a parameter name exactly where `T` does not
/// check parameters, or lists the name as required or as optional; in
/// particular every required parameter is accepted.
pub proof fn law_accepted_params<T: RecordIdentifier>(key: Seq<char>)
    ensures
        accepts::<T>(key) <==> (!T::spec_check_params() || T::spec_required_params().contains(key)
            || T::spec_optional_params().contains(key)),
        T::spec_required_params().contains(key) ==> accepts::<T>(key),
{
    let req = T::spec_required_params();
    let opt = T::spec_optional_params();
    let all = req + opt;
    if req.contains(key) {
        let i = choose|i: int| 0 <= i < req.len() && req[i] == key;
        assert(all[i] == key);
    }
    if opt.contains(key) {
        let i = choose|i: int| 0 <= i < opt.len() && opt[i] == key;
        assert(all[req.len() + i] == key);
    }
    if all.contains(key) {
        let i = choose|i: int| 0 <= i < all.len() && all[i] == key;
        if i < req.len() {
            assert(req[i] == key);
        } else {
            assert(opt[i - req.len()] == key);
        }
    }
}

/// The record types of this library require no parameter, so validation
/// never fails for them.
pub proof fn law_builtin_types_require_nothing(params: Assoc)
    ensures
        missing_required::<DynamicRecordIdentifier>(params) is None,
        missing_required::<AddressIdentifier>(params) is None,
        missing_required::<AddressProductIdentifier>(params) is None,
        missing_required::<ProductIdentifier>(params) is None,
        missing_required::<DeliveryAddressIdentifier>(params) is None,
        missing_required::<OrderIdentifier>(params) is None,
        missing_required::<OrderNoteIdentifier>(params) is None,
        missing_required::<OrderPositionIdentifier>(params) is None,
{
    assert(names(DEFAULT_REQUIRED_PARAMS@) =~= Seq::<Seq<char>>::empty());
}

} // verus!
