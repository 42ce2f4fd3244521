//! Reading DTA text back into rows.
//!
//! A line is `þ<key>þ<value>þ<key>þ<value>...`: parameters (VART, SKZ, UEBER
//! and others) in any order, then data fields, which begin at the first key
//! of a data-field code such as `aa`, `n12` or `a01`.

use vstd::prelude::*;
use crate::error::{DtaError, ErrorModel};
use crate::identifiers::{DynamicRecordIdentifier, RecordIdentifier};
use crate::params::{Assoc, ParamMap, insert, insert_all};
use crate::row::{DtaRow, missing_required};
use crate::text::{
    THORN,
    split,
    strip_end,
    trim,
    trim_end,
    chars_of,
    split_chars,
    string_from_chars,
    string_from_range,
    trim_end_range,
    trim_start_range,
    lemma_split_nonempty,
    lemma_char_vec_deep_view,
    law_white_space,
};

verus! {

/// A character of a data-field code: a lowercase ASCII letter or a digit.
pub open spec fn is_code_char(c: char) -> bool {
    ('a' <= c && c <= 'z') || ('0' <= c && c <= '9')
}

/// Whether `k` names a data field: a short code such as `aa`, `n12` or
/// `a01`, that is at most three lowercase ASCII letters and digits, the
/// first of them a letter.
pub open spec fn is_data_key(k: Seq<char>) -> bool {
    &&& k.len() <= 3
    &&& forall|i: int| 0 <= i < k.len() ==> is_code_char(#[trigger] k[i])
    &&& k.len() > 0 ==> ('a' <= k[0] && k[0] <= 'z')
}

/// What has been read of a line so far.
pub struct ScanState {
    pub vart: Option<Seq<char>>,
    pub skz: Option<Seq<char>>,
    pub ueber: Option<Seq<char>>,
    pub params: Assoc,
    pub data: Assoc,
}

/// Nothing read yet.
pub open spec fn scan_start() -> ScanState {
    ScanState {
        vart: None,
        skz: None,
        ueber: None,
        params: Seq::empty(),
        data: Seq::empty(),
    }
}

/// The data fields of `parts`, read as (name, value) pairs; a last name
/// without a value is dropped, and trailing white space of a value is
/// removed.
pub open spec fn data_pairs(parts: Seq<Seq<char>>) -> Assoc
    decreases parts.len(),
{
    if parts.len() < 2 {
        Seq::empty()
    } else {
        seq![(parts[0], trim_end(parts[1]))] + data_pairs(parts.skip(2))
    }
}

/// Reads the key-value pairs of `parts` into `st`; fails with the key that
/// lacks a value.
pub open spec fn scan(parts: Seq<Seq<char>>, st: ScanState) -> Result<ScanState, Seq<char>>
    decreases parts.len(),
{
    if parts.len() == 0 {
        Ok(st)
    } else if parts.len() == 1 {
        Err(parts[0])
    } else {
        let key = parts[0];
        let value = parts[1];
        if is_data_key(key) {
            Ok(ScanState { data: data_pairs(parts), ..st })
        } else if key == "VART"@ {
            scan(parts.skip(2), ScanState { vart: Some(value), ..st })
        } else if key == "SKZ"@ {
            scan(parts.skip(2), ScanState { skz: Some(value), ..st })
        } else if key == "UEBER"@ {
            scan(parts.skip(2), ScanState { ueber: Some(value), ..st })
        } else {
            scan(parts.skip(2), ScanState { params: insert(st.params, key, trim_end(value)), ..st })
        }
    }
}

/// The content of a parsed line.
pub struct ParsedRow {
    pub skz: Seq<char>,
    pub params: Assoc,
    pub data: Assoc,
}

/// The row that `st` describes, or the message where it lacks an SKZ.
pub open spec fn finish_scan(st: ScanState) -> Result<ParsedRow, Seq<char>> {
    match st.skz {
        None => Err("Missing SKZ parameter"@),
        Some(skz) => {
            let vart = match st.vart {
                Some(v) => v,
                None => "0"@,
            };
            let ueber = match st.ueber {
                Some(v) => v,
                None => "N"@,
            };
            let base = insert(
                insert(Seq::<(Seq<char>, Seq<char>)>::empty(), "VART"@, vart),
                "UEBER"@,
                ueber,
            );
            Ok(ParsedRow { skz, params: insert_all(base, st.params), data: st.data })
        },
    }
}

/// The message for a key without a value.
pub open spec fn missing_value_message(key: Seq<char>) -> Seq<char> {
    "Missing value for key: "@ + key
}

/// The row that a line of DTA text holds, or the message of the parse error.
pub open spec fn parse_line(input: Seq<char>) -> Result<ParsedRow, Seq<char>> {
    let trimmed = strip_end(input, '\n');
    if !(trimmed.len() > 0 && trimmed[0] == THORN) {
        Err("DTA string must start with 'þ'"@)
    } else {
        let parts = split(trimmed, THORN);
        if parts.len() < 2 {
            Err("Insufficient parts in DTA string"@)
        } else {
            match scan(parts.drop_first(), scan_start()) {
                Err(key) => Err(missing_value_message(key)),
                Ok(st) => finish_scan(st),
            }
        }
    }
}

/// Whether `row` holds the content `p`.
pub open spec fn row_matches(row: DtaRow<DynamicRecordIdentifier>, p: ParsedRow) -> bool {
    &&& row.identifier.spec_skz() == p.skz
    &&& row.params@ == p.params
    &&& row.data_view() == p.data
}

/// The view of an optional string.
pub open spec fn opt_view(o: Option<String>) -> Option<Seq<char>> {
    match o {
        Some(s) => Some(s@),
        None => None,
    }
}

/// Whether `v` names a data field.
fn is_data_key_chars(v: &Vec<char>) -> (b: bool)
    ensures
        b == is_data_key(v@),
{
    if v.len() > 3 {
        return false;
    }
    if v.len() > 0 && !('a' <= v[0] && v[0] <= 'z') {
        return false;
    }
    let mut i: usize = 0;
    while i < v.len()
        invariant
            i <= v@.len() <= 3,
            v@.len() > 0 ==> ('a' <= v@[0] && v@[0] <= 'z'),
            forall|j: int| 0 <= j < i ==> is_code_char(#[trigger] v@[j]),
        decreases v@.len() - i,
    {
        let c = v[i];
        if !(('a' <= c && c <= 'z') || ('0' <= c && c <= '9')) {
            return false;
        }
        i = i + 1;
    }
    true
}

/// `v` without trailing white space, as a string.
fn trimmed_end_string(v: &Vec<char>) -> (s: String)
    ensures
        s@ == trim_end(v@),
{
    let end = trim_end_range(v, 0, v.len());
    proof {
        assert(v@.subrange(0, v@.len() as int) == v@);
    }
    string_from_range(v, 0, end)
}

/// The data fields of `parts[from..]`.
fn data_pairs_from(parts: &Vec<Vec<char>>, from: usize) -> (r: Vec<(String, String)>)
    requires
        from <= parts@.len(),
    ensures
        r.deep_view() == data_pairs(parts.deep_view().skip(from as int)),
{
    let ghost pv = parts.deep_view();
    let mut out: Vec<(String, String)> = Vec::new();
    let mut j = from;
    proof {
        assert(out.deep_view() =~= Seq::<(Seq<char>, Seq<char>)>::empty());
    }
    while parts.len() - j > 1
        invariant
            from <= j <= parts@.len(),
            pv == parts.deep_view(),
            data_pairs(pv.skip(from as int)) == out.deep_view() + data_pairs(pv.skip(j as int)),
        decreases parts@.len() - j,
    {
        let ghost before = out.deep_view();
        proof {
            lemma_char_vec_deep_view(parts@[j as int]);
            lemma_char_vec_deep_view(parts@[j + 1]);
            assert(pv.skip(j as int)[0] == parts@[j as int]@);
            assert(pv.skip(j as int)[1] == parts@[j + 1]@);
            assert(pv.skip(j as int).skip(2) =~= pv.skip(j + 2));
        }
        let name = string_from_chars(&parts[j]);
        let value = trimmed_end_string(&parts[j + 1]);
        out.push((name, value));
        proof {
            assert(out.deep_view() =~= before + seq![(parts@[j as int]@, trim_end(parts@[j + 1]@))]);
        }
        j = j + 2;
    }
    proof {
        assert(data_pairs(pv.skip(j as int)) =~= Seq::<(Seq<char>, Seq<char>)>::empty());
    }
    out
}

/// What [`scan_parts`] has read: the header values, the other parameters
/// and the data fields.
struct Scanned {
    vart: Option<String>,
    skz: Option<String>,
    ueber: Option<String>,
    params: ParamMap,
    data: Vec<(String, String)>,
}

impl Scanned {
    spec fn model(&self) -> ScanState {
        ScanState {
            vart: opt_view(self.vart),
            skz: opt_view(self.skz),
            ueber: opt_view(self.ueber),
            params: self.params@,
            data: self.data.deep_view(),
        }
    }
}

/// Reads the key-value pairs of `parts[1..]`.
fn scan_parts(parts: &Vec<Vec<char>>) -> (r: Result<Scanned, DtaError>)
    requires
        parts@.len() >= 1,
    ensures
        match scan(parts.deep_view().drop_first(), scan_start()) {
            Err(key) => r matches Err(e) && e@ == ErrorModel::ParseError(missing_value_message(key)),
            Ok(st) => r matches Ok(s) && s.model() == st,
        },
{
    let ghost pv = parts.deep_view();
    let mut cur = Scanned {
        vart: None,
        skz: None,
        ueber: None,
        params: ParamMap::new(),
        data: Vec::new(),
    };
    let vart_key = "VART".to_owned();
    let skz_key = "SKZ".to_owned();
    let ueber_key = "UEBER".to_owned();
    let mut i: usize = 1;
    proof {
        assert(pv.skip(1) =~= pv.drop_first());
        assert(cur.data.deep_view() =~= Seq::<(Seq<char>, Seq<char>)>::empty());
        assert(cur.model() == scan_start());
    }
    while i < parts.len()
        invariant
            1 <= i <= parts@.len(),
            pv == parts.deep_view(),
            vart_key@ == "VART"@,
            skz_key@ == "SKZ"@,
            ueber_key@ == "UEBER"@,
            scan(pv.drop_first(), scan_start()) == scan(pv.skip(i as int), cur.model()),
        decreases parts@.len() - i,
    {
        let ghost rest = pv.skip(i as int);
        proof {
            lemma_char_vec_deep_view(parts@[i as int]);
            assert(rest[0] == parts@[i as int]@);
        }
        let key = string_from_chars(&parts[i]);
        if i + 1 >= parts.len() {
            proof {
                assert(rest.len() == 1);
            }
            let mut msg = "Missing value for key: ".to_owned();
            msg.append(key.as_str());
            return Err(DtaError::ParseError(msg));
        }
        proof {
            lemma_char_vec_deep_view(parts@[i + 1]);
            assert(rest[1] == parts@[i + 1]@);
            assert(rest.skip(2) =~= pv.skip(i + 2));
        }
        if is_data_key_chars(&parts[i]) {
            let data = data_pairs_from(parts, i);
            cur.data = data;
            return Ok(cur);
        }
        let value = string_from_chars(&parts[i + 1]);
        if key == vart_key {
            cur.vart = Some(value);
        } else if key == skz_key {
            cur.skz = Some(value);
        } else if key == ueber_key {
            cur.ueber = Some(value);
        } else {
            let trimmed = trimmed_end_string(&parts[i + 1]);
            cur.params.insert(key, trimmed);
        }
        i = i + 2;
    }
    proof {
        assert(pv.skip(i as int).len() == 0);
    }
    Ok(cur)
}

/// The row that `s` describes.
fn finish_scanned(s: Scanned) -> (r: Result<DtaRow<DynamicRecordIdentifier>, DtaError>)
    ensures
        match finish_scan(s.model()) {
            Err(msg) => r matches Err(e) && e@ == ErrorModel::ParseError(msg),
            Ok(p) => r matches Ok(row) && row_matches(row, p),
        },
{
    let skz = match s.skz {
        Some(v) => v,
        None => {
            return Err(DtaError::ParseError("Missing SKZ parameter".to_owned()));
        },
    };
    let vart = match s.vart {
        Some(v) => v,
        None => "0".to_owned(),
    };
    let ueber = match s.ueber {
        Some(v) => v,
        None => "N".to_owned(),
    };
    let mut params = ParamMap::new();
    params.insert("VART".to_owned(), vart);
    params.insert("UEBER".to_owned(), ueber);
    let ghost base = params@;
    let entries = s.params.entries();
    let ghost extra = s.params@;
    let mut i: usize = 0;
    proof {
        assert(extra.take(0) =~= Seq::<(Seq<char>, Seq<char>)>::empty());
    }
    while i < entries.len()
        invariant
            i <= entries@.len(),
            extra == entries.deep_view(),
            params@ == insert_all(base, extra.take(i as int)),
        decreases entries@.len() - i,
    {
        proof {
            assert(extra.take(i + 1).drop_last() =~= extra.take(i as int));
            assert(extra.take(i + 1).last() == (entries@[i as int].0@, entries@[i as int].1@));
        }
        params.insert(entries[i].0.clone(), entries[i].1.clone());
        i = i + 1;
    }
    proof {
        assert(extra.take(extra.len() as int) =~= extra);
    }
    let identifier = DynamicRecordIdentifier::new(skz.as_str());
    Ok(DtaRow { params, data_fields: s.data, identifier })
}

/// Parses the characters of one line.
fn parse_chars(chars: Vec<char>) -> (r: Result<DtaRow<DynamicRecordIdentifier>, DtaError>)
    ensures
        match parse_line(chars@) {
            Err(msg) => r matches Err(e) && e@ == ErrorModel::ParseError(msg),
            Ok(p) => r matches Ok(row) && row_matches(row, p),
        },
{
    let ghost input = chars@;
    let mut t = chars;
    while t.len() > 0 && t[t.len() - 1] == '\n'
        invariant
            strip_end(input, '\n') == strip_end(t@, '\n'),
        decreases t@.len(),
    {
        let ghost before = t@;
        t.pop();
        proof {
            assert(t@ == before.drop_last());
        }
    }
    proof {
        assert(strip_end(t@, '\n') == t@);
    }
    if !(t.len() > 0 && t[0] == THORN) {
        return Err(DtaError::ParseError("DTA string must start with 'þ'".to_owned()));
    }
    let parts = split_chars(&t, THORN);
    if parts.len() < 2 {
        return Err(DtaError::ParseError("Insufficient parts in DTA string".to_owned()));
    }
    match scan_parts(&parts) {
        Err(e) => Err(e),
        Ok(s) => finish_scanned(s),
    }
}

/// Parses a DTA format string into a [`DtaRow`] with dynamic identifier.
///
/// Returns [`DtaError::ParseError`] if the input does not start with the
/// separator, if a key lacks its value or if SKZ is missing.
pub fn parse_dta_string(input: &str) -> (r: Result<DtaRow<DynamicRecordIdentifier>, DtaError>)
    ensures
        match parse_line(input@) {
            Err(msg) => r matches Err(e) && e@ == ErrorModel::ParseError(msg),
            Ok(p) => r matches Ok(row) && row_matches(row, p),
        },
{
    parse_chars(chars_of(input))
}

/// The message for an SKZ that differs from the expected one.
pub open spec fn mismatch_message(expected: Seq<char>, actual: Seq<char>) -> Seq<char> {
    "SKZ mismatch: expected '"@ + expected + "', got '"@ + actual + "'"@
}

/// The error of giving a row with SKZ `skz` and parameters `params` the
/// identifier `id`, if any.
pub open spec fn retype_error<T: RecordIdentifier>(skz: Seq<char>, params: Assoc, id: T) -> Option<
    ErrorModel,
> {
    if id.spec_skz() != skz {
        Some(ErrorModel::ParseError(mismatch_message(id.spec_skz(), skz)))
    } else {
        match missing_required::<T>(params) {
            Some(m) => Some(ErrorModel::MissingRequiredParameter(m)),
            None => None,
        }
    }
}

/// Gives `row` the identifier `identifier`, which must have the row's SKZ;
/// the result is then validated against the identifier's requirements.
pub fn retype_row<T: RecordIdentifier>(row: DtaRow<DynamicRecordIdentifier>, identifier: T) -> (r:
    Result<DtaRow<T>, DtaError>)
    ensures
        match retype_error(row.identifier.spec_skz(), row.params@, identifier) {
            Some(em) => r matches Err(e) && e@ == em,
            None => r matches Ok(t) && t.identifier == identifier && t.params == row.params
                && t.data_fields == row.data_fields,
        },
{
    let expected_skz = identifier.skz();
    let actual_skz = row.identifier.skz();
    if expected_skz != actual_skz {
        let mut msg = "SKZ mismatch: expected '".to_owned();
        msg.append(expected_skz.as_str());
        msg.append("', got '");
        msg.append(actual_skz.as_str());
        msg.append("'");
        return Err(DtaError::ParseError(msg));
    }
    let typed = DtaRow { params: row.params, data_fields: row.data_fields, identifier };
    match typed.validate() {
        Err(e) => Err(e),
        Ok(()) => Ok(typed),
    }
}

/// Parses a DTA format string into a [`DtaRow`] with a specific identifier type.
///
/// The identifier is `T::default()`; its SKZ must match the SKZ of the line,
/// and the row must have the parameters that the identifier requires.
pub fn parse_dta_string_with_identifier<T: RecordIdentifier + Default>(input: &str) -> (r: Result<
    DtaRow<T>,
    DtaError,
>)
    ensures
        match parse_line(input@) {
            Err(msg) => r matches Err(e) && e@ == ErrorModel::ParseError(msg),
            Ok(p) => exists|id: T|
                #![trigger call_ensures(T::default, (), id)]
                call_ensures(T::default, (), id) && match retype_error(p.skz, p.params, id) {
                    Some(em) => r matches Err(e) && e@ == em,
                    None => r matches Ok(t) && t.identifier == id && t.params@ == p.params
                        && t.data_view() == p.data,
                },
        },
{
    let dynamic_row = match parse_dta_string(input) {
        Err(e) => {
            return Err(e);
        },
        Ok(row) => row,
    };
    let identifier = T::default();
    retype_row(dynamic_row, identifier)
}

impl<T: RecordIdentifier + Default> DtaRow<T> {
    /// Parses a line of DTA text into a row of identifier type `T`, as
    /// [`parse_dta_string_with_identifier`] does.
    pub fn from_dta_string(input: &str) -> (r: Result<Self, DtaError>)
        ensures
            match parse_line(input@) {
                Err(msg) => r matches Err(e) && e@ == ErrorModel::ParseError(msg),
                Ok(p) => exists|id: T|
                    #![trigger call_ensures(T::default, (), id)]
                    call_ensures(T::default, (), id) && match retype_error(p.skz, p.params, id) {
                        Some(em) => r matches Err(e) && e@ == em,
                        None => r matches Ok(t) && t.identifier == id && t.params@ == p.params
                            && t.data_view() == p.data,
                    },
            },
    {
        parse_dta_string_with_identifier(input)
    }
}

/// The rows of the lines `lines`, skipping lines that are blank once trimmed,
/// or the message of the first line that fails to parse.
pub open spec fn parse_lines(lines: Seq<Seq<char>>) -> Result<Seq<ParsedRow>, Seq<char>>
    decreases lines.len(),
{
    if lines.len() == 0 {
        Ok(Seq::empty())
    } else {
        let line = trim(lines[0]);
        if line.len() == 0 {
            parse_lines(lines.drop_first())
        } else {
            match parse_line(line) {
                Err(msg) => Err(msg),
                Ok(p) => match parse_lines(lines.drop_first()) {
                    Err(msg) => Err(msg),
                    Ok(ps) => Ok(seq![p] + ps),
                },
            }
        }
    }
}

/// The lines of `lines` that are not blank once trimmed, each trimmed.
pub open spec fn nonblank_lines(lines: Seq<Seq<char>>) -> Seq<Seq<char>>
    decreases lines.len(),
{
    if lines.len() == 0 {
        Seq::empty()
    } else if trim(lines[0]).len() == 0 {
        nonblank_lines(lines.drop_first())
    } else {
        seq![trim(lines[0])] + nonblank_lines(lines.drop_first())
    }
}

proof fn lemma_rows_all_ok(lines: Seq<Seq<char>>)
    requires
        forall|i: int|
            0 <= i < nonblank_lines(lines).len() ==> #[trigger] parse_line(nonblank_lines(lines)[i]) is Ok,
    ensures
        parse_lines(lines) == Ok::<Seq<ParsedRow>, Seq<char>>(
            Seq::new(nonblank_lines(lines).len(), |i: int| parse_line(nonblank_lines(lines)[i])->Ok_0),
        ),
    decreases lines.len(),
{
    let l = nonblank_lines(lines);
    if lines.len() == 0 {
        assert(Seq::new(l.len(), |i: int| parse_line(l[i])->Ok_0) =~= Seq::<ParsedRow>::empty());
    } else {
        let rest = lines.drop_first();
        let lr = nonblank_lines(rest);
        if trim(lines[0]).len() == 0 {
            lemma_rows_all_ok(rest);
        } else {
            assert forall|i: int| 0 <= i < lr.len() implies #[trigger] parse_line(lr[i]) is Ok by {
                assert(l[i + 1] == lr[i]);
                assert(parse_line(l[i + 1]) is Ok);
            }
            lemma_rows_all_ok(rest);
            assert(l[0] == trim(lines[0]));
            assert(parse_line(l[0]) is Ok);
            assert(seq![parse_line(l[0])->Ok_0] + Seq::new(lr.len(), |i: int| parse_line(lr[i])->Ok_0)
                =~= Seq::new(l.len(), |i: int| parse_line(l[i])->Ok_0));
        }
    }
}

proof fn lemma_rows_first_error(lines: Seq<Seq<char>>, j: int)
    requires
        0 <= j < nonblank_lines(lines).len(),
        parse_line(nonblank_lines(lines)[j]) is Err,
        forall|i: int| 0 <= i < j ==> #[trigger] parse_line(nonblank_lines(lines)[i]) is Ok,
    ensures
        parse_lines(lines) == Err::<Seq<ParsedRow>, Seq<char>>(
            parse_line(nonblank_lines(lines)[j])->Err_0,
        ),
    decreases lines.len(),
{
    let l = nonblank_lines(lines);
    let rest = lines.drop_first();
    let lr = nonblank_lines(rest);
    if trim(lines[0]).len() == 0 {
        lemma_rows_first_error(rest, j);
    } else {
        assert(l[0] == trim(lines[0]));
        if j > 0 {
            assert(parse_line(l[0]) is Ok);
            assert(l[j] == lr[j - 1]);
            assert forall|i: int| 0 <= i < j - 1 implies #[trigger] parse_line(lr[i]) is Ok by {
                assert(l[i + 1] == lr[i]);
                assert(parse_line(l[i + 1]) is Ok);
            }
            lemma_rows_first_error(rest, j - 1);
        }
    }
}

/// Reading several lines gives one row per line that is not blank once
/// trimmed, in line order, where each such line parses; otherwise the error
/// of the first such line that does not parse.
pub proof fn law_rows_per_line(lines: Seq<Seq<char>>)
    ensures
        (forall|i: int|
            0 <= i < nonblank_lines(lines).len() ==> #[trigger] parse_line(nonblank_lines(lines)[i]) is Ok)
            ==> parse_lines(lines) == Ok::<Seq<ParsedRow>, Seq<char>>(
            Seq::new(nonblank_lines(lines).len(), |i: int| parse_line(nonblank_lines(lines)[i])->Ok_0),
        ),
        forall|j: int|
            0 <= j < nonblank_lines(lines).len() && #[trigger] parse_line(nonblank_lines(lines)[j]) is Err
                && (forall|i: int| 0 <= i < j ==> parse_line(nonblank_lines(lines)[i]) is Ok)
                ==> parse_lines(lines) == Err::<Seq<ParsedRow>, Seq<char>>(
                parse_line(nonblank_lines(lines)[j])->Err_0,
            ),
{
    let l = nonblank_lines(lines);
    if forall|i: int| 0 <= i < l.len() ==> #[trigger] parse_line(l[i]) is Ok {
        lemma_rows_all_ok(lines);
    }
    assert forall|j: int|
        0 <= j < l.len() && #[trigger] parse_line(l[j]) is Err && (forall|i: int|
            0 <= i < j ==> parse_line(l[i]) is Ok) implies parse_lines(lines) == Err::<
        Seq<ParsedRow>,
        Seq<char>,
    >(parse_line(l[j])->Err_0) by {
        lemma_rows_first_error(lines, j);
    }
}

/// Lines that end in a carriage return, as the lines of a file with CRLF
/// line ends do, read as the same rows, or the same error, as without it.
pub proof fn law_crlf_lines(lines: Seq<Seq<char>>)
    ensures
        parse_lines(lines.map_values(|l: Seq<char>| l.push('\r'))) == parse_lines(lines),
        nonblank_lines(lines.map_values(|l: Seq<char>| l.push('\r'))) == nonblank_lines(lines),
    decreases lines.len(),
{
    let cr = lines.map_values(|l: Seq<char>| l.push('\r'));
    if lines.len() > 0 {
        let rest = lines.drop_first();
        assert(cr.drop_first() =~= rest.map_values(|l: Seq<char>| l.push('\r')));
        law_crlf_lines(rest);
        law_white_space(lines[0], ' ');
        assert(cr[0] == lines[0].push('\r'));
    } else {
        assert(cr =~= lines);
    }
}

/// `ps` followed by the rows of `r`, or the error of `r`.
pub open spec fn prepend_rows(ps: Seq<ParsedRow>, r: Result<Seq<ParsedRow>, Seq<char>>) -> Result<
    Seq<ParsedRow>,
    Seq<char>,
> {
    match r {
        Err(msg) => Err(msg),
        Ok(qs) => Ok(ps + qs),
    }
}

/// Whether each row of `rows` holds the corresponding content of `ps`.
pub open spec fn rows_match(rows: Seq<DtaRow<DynamicRecordIdentifier>>, ps: Seq<ParsedRow>) -> bool {
    rows.len() == ps.len() && forall|i: int| 0 <= i < rows.len() ==> row_matches(#[trigger] rows[i], ps[i])
}

/// Parses multiple DTA rows from a string containing multiple lines.
///
/// Lines that are blank once trimmed are skipped; each other line, trimmed,
/// must be a DTA record, and the first that is not gives the error.
pub fn parse_dta_rows(input: &str) -> (r: Result<Vec<DtaRow<DynamicRecordIdentifier>>, DtaError>)
    ensures
        match parse_lines(split(input@, '\n')) {
            Err(msg) => r matches Err(e) && e@ == ErrorModel::ParseError(msg),
            Ok(ps) => r matches Ok(rows) && rows_match(rows@, ps),
        },
{
    let chars = chars_of(input);
    let lines = split_chars(&chars, '\n');
    let ghost lv = lines.deep_view();
    let mut rows: Vec<DtaRow<DynamicRecordIdentifier>> = Vec::new();
    let ghost done: Seq<ParsedRow> = Seq::empty();
    let mut i: usize = 0;
    proof {
        assert(lv.skip(0) =~= lv);
        assert(prepend_rows(done, parse_lines(lv)) =~= parse_lines(lv)) by {
            match parse_lines(lv) {
                Err(msg) => {},
                Ok(qs) => {
                    assert(done + qs =~= qs);
                },
            }
        }
    }
    while i < lines.len()
        invariant
            i <= lines@.len(),
            lv == lines.deep_view(),
            lv == split(input@, '\n'),
            rows_match(rows@, done),
            parse_lines(lv) == prepend_rows(done, parse_lines(lv.skip(i as int))),
        decreases lines@.len() - i,
    {
        let ghost rest = lv.skip(i as int);
        proof {
            lemma_char_vec_deep_view(lines@[i as int]);
            assert(rest[0] == lines@[i as int]@);
            assert(rest.drop_first() =~= lv.skip(i + 1));
        }
        let line = &lines[i];
        let end = trim_end_range(line, 0, line.len());
        let start = trim_start_range(line, 0, end);
        proof {
            assert(line@.subrange(0, line@.len() as int) =~= line@);
            assert(line@.subrange(start as int, end as int) == trim(line@));
        }
        if start < end {
            let mut piece: Vec<char> = Vec::new();
            let mut k = start;
            while k < end
                invariant
                    start <= k <= end <= line@.len(),
                    piece@ == line@.subrange(start as int, k as int),
                decreases end - k,
            {
                piece.push(line[k]);
                proof {
                    assert(line@.subrange(start as int, k + 1) =~= line@.subrange(start as int, k as int).push(line@[k as int]));
                }
                k = k + 1;
            }
            proof {
                assert(piece@ == trim(rest[0]));
            }
            match parse_chars(piece) {
                Err(e) => {
                    proof {
                        assert(parse_lines(rest) == Err::<Seq<ParsedRow>, Seq<char>>(
                            parse_line(trim(rest[0]))->Err_0,
                        ));
                    }
                    return Err(e);
                },
                Ok(row) => {
                    let ghost p = parse_line(trim(line@))->Ok_0;
                    proof {
                        match parse_lines(rest.drop_first()) {
                            Err(msg) => {},
                            Ok(qs) => {
                                assert(done + (seq![p] + qs) =~= done.push(p) + qs);
                            },
                        }
                        done = done.push(p);
                    }
                    let ghost prev = rows@;
                    rows.push(row);
                    proof {
                        assert(rows_match(rows@, done)) by {
                            assert forall|j: int| 0 <= j < rows@.len() implies row_matches(#[trigger] rows@[j], done[j]) by {
                                if j < rows@.len() - 1 {
                                    assert(rows@[j] == prev[j]);
                                }
                            }
                        }
                    }
                },
            }
        }
        i = i + 1;
    }
    proof {
        assert(lv.skip(i as int) =~= Seq::<Seq<char>>::empty());
        assert(done + Seq::<ParsedRow>::empty() =~= done);
    }
    Ok(rows)
}

} // verus!
