//! Reading back what was written: the text of a row parses to the row's
//! record type, parameters and (sorted) data fields, and writing the parsed
//! row again gives the same text.

use vstd::prelude::*;
use crate::identifiers::RecordIdentifier;
use crate::params::{
    Assoc, lookup, lookup_last, insert, insert_all, keys_unique, has_key,
    lemma_lookup_insert, lemma_lookup_insert_all, lemma_lookup_last_unique,
    lemma_lookup_last_absent, lemma_insert_keeps_unique, lemma_insert_all_prepend,
    lemma_insert_all_fresh, lemma_insert_all_unique, lemma_insert_absent,
};
use crate::parser::{
    ScanState, scan, scan_start, data_pairs, finish_scan, parse_line, is_data_key, ParsedRow,
};
use crate::row::{
    DtaRow, is_header_param, value_or, ordered_parts, remaining_parts, data_parts, dta_parts,
    dta_line,
};
use crate::sorting::{
    sort_by_name, sorted_by_name, lemma_sort_contains, lemma_sort_idempotent, lemma_sort_sorted,
    lemma_sort_multiset,
};
use crate::text::{
    THORN, has_char, join, split, strip_end, trim_end, is_white, lemma_split_join,
    lemma_join_prepend_empty, lemma_join_last, lemma_trimmed_last, lemma_trim_end_space,
    lemma_strip_end_once,
};

verus! {

/// Pairs laid out as name, value, name, value, ...
pub open spec fn flatten(pairs: Assoc) -> Seq<Seq<char>>
    decreases pairs.len(),
{
    if pairs.len() == 0 {
        Seq::empty()
    } else {
        seq![pairs[0].0, pairs[0].1] + flatten(pairs.drop_first())
    }
}

/// The parameters that `ordered_parts` writes, as pairs.
pub open spec fn ordered_pairs(order: Seq<Seq<char>>, params: Assoc) -> Assoc
    decreases order.len(),
{
    if order.len() == 0 {
        Seq::empty()
    } else {
        let rest = ordered_pairs(order.drop_last(), params);
        let p = order.last();
        if !is_header_param(p) && lookup(params, p) is Some {
            rest.push((p, lookup(params, p)->0))
        } else {
            rest
        }
    }
}

/// The parameters that `remaining_parts` writes, as pairs.
pub open spec fn remaining_pairs(params: Assoc, order: Seq<Seq<char>>) -> Assoc
    decreases params.len(),
{
    if params.len() == 0 {
        Seq::empty()
    } else {
        let rest = remaining_pairs(params.drop_last(), order);
        let e = params.last();
        if !is_header_param(e.0) && !order.contains(e.0) {
            rest.push(e)
        } else {
            rest
        }
    }
}

/// The data fields as written: each value followed by a space.
pub open spec fn spaced(data: Assoc) -> Assoc {
    data.map_values(|e: (Seq<char>, Seq<char>)| (e.0, e.1.push(' ')))
}

/// The pairs with trailing white space removed from each value.
pub open spec fn trim_values(pairs: Assoc) -> Assoc {
    pairs.map_values(|e: (Seq<char>, Seq<char>)| (e.0, trim_end(e.1)))
}

pub proof fn lemma_flatten_push(a: Assoc, e: (Seq<char>, Seq<char>))
    ensures
        flatten(a.push(e)) == flatten(a) + seq![e.0, e.1],
    decreases a.len(),
{
    if a.len() == 0 {
        assert(a.push(e).drop_first() =~= Seq::<(Seq<char>, Seq<char>)>::empty());
        assert(a.push(e)[0] == e);
        assert(flatten(a.push(e).drop_first()) == Seq::<Seq<char>>::empty());
        assert(flatten(a) == Seq::<Seq<char>>::empty());
        assert(flatten(a.push(e)) =~= flatten(a) + seq![e.0, e.1]);
    } else {
        lemma_flatten_push(a.drop_first(), e);
        assert(a.push(e).drop_first() =~= a.drop_first().push(e));
        assert(a.push(e)[0] == a[0]);
        assert(flatten(a.push(e)) =~= flatten(a) + seq![e.0, e.1]);
    }
}

pub proof fn lemma_flatten_append(a: Assoc, b: Assoc)
    ensures
        flatten(a + b) == flatten(a) + flatten(b),
    decreases a.len(),
{
    if a.len() == 0 {
        assert(a + b =~= b);
        assert(flatten(a) + flatten(b) =~= flatten(b));
    } else {
        lemma_flatten_append(a.drop_first(), b);
        assert((a + b).drop_first() =~= a.drop_first() + b);
        assert((a + b)[0] == a[0]);
        assert(flatten(a + b) =~= flatten(a) + flatten(b));
    }
}

pub proof fn lemma_flatten_last(a: Assoc)
    requires
        a.len() > 0,
    ensures
        flatten(a).len() > 0,
        flatten(a).last() == a.last().1,
{
    lemma_flatten_push(a.drop_last(), a.last());
    assert(a.drop_last().push(a.last()) =~= a);
}

/// Every piece of the flattened pairs is a name or a value of a pair.
pub proof fn lemma_flatten_no_char(a: Assoc, c: char)
    requires
        forall|i: int| 0 <= i < a.len() ==> !has_char(#[trigger] a[i].0, c) && !has_char(a[i].1, c),
    ensures
        forall|j: int| 0 <= j < flatten(a).len() ==> !has_char(#[trigger] flatten(a)[j], c),
    decreases a.len(),
{
    if a.len() > 0 {
        let t = a.drop_first();
        assert forall|i: int| 0 <= i < t.len() implies !has_char(#[trigger] t[i].0, c) && !has_char(
            t[i].1,
            c,
        ) by {
            assert(t[i] == a[i + 1]);
            assert(!has_char(a[i + 1].0, c) && !has_char(a[i + 1].1, c));
        }
        lemma_flatten_no_char(t, c);
        assert(!has_char(a[0].0, c) && !has_char(a[0].1, c));
        assert forall|j: int| 0 <= j < flatten(a).len() implies !has_char(#[trigger] flatten(a)[j], c) by {
            if j >= 2 {
                assert(flatten(a)[j] == flatten(t)[j - 2]);
            }
        }
    }
}

pub proof fn lemma_ordered_parts_flat(order: Seq<Seq<char>>, params: Assoc)
    ensures
        ordered_parts(order, params) == flatten(ordered_pairs(order, params)),
    decreases order.len(),
{
    if order.len() > 0 {
        lemma_ordered_parts_flat(order.drop_last(), params);
        let p = order.last();
        if !is_header_param(p) && lookup(params, p) is Some {
            lemma_flatten_push(ordered_pairs(order.drop_last(), params), (p, lookup(params, p)->0));
        }
    }
}

pub proof fn lemma_remaining_parts_flat(params: Assoc, order: Seq<Seq<char>>)
    ensures
        remaining_parts(params, order) == flatten(remaining_pairs(params, order)),
    decreases params.len(),
{
    if params.len() > 0 {
        lemma_remaining_parts_flat(params.drop_last(), order);
        let e = params.last();
        if !is_header_param(e.0) && !order.contains(e.0) {
            lemma_flatten_push(remaining_pairs(params.drop_last(), order), e);
        }
    }
}

pub proof fn lemma_data_parts_flat(data: Assoc)
    ensures
        data_parts(data) == flatten(spaced(data)),
    decreases data.len(),
{
    if data.len() > 0 {
        lemma_data_parts_flat(data.drop_last());
        let e = data.last();
        lemma_flatten_push(spaced(data.drop_last()), (e.0, e.1.push(' ')));
        assert(spaced(data.drop_last()).push((e.0, e.1.push(' '))) =~= spaced(data));
    }
}

/// A name with a value in `params` is the name of one of its pairs, with
/// that pair's value.
pub proof fn lemma_lookup_some(params: Assoc, k: Seq<char>)
    requires
        lookup(params, k) is Some,
    ensures
        exists|i: int| 0 <= i < params.len() && params[i] == (k, lookup(params, k)->0),
    decreases params.len(),
{
    if params[0].0 != k {
        lemma_lookup_some(params.drop_first(), k);
        let i = choose|i: int|
            0 <= i < params.drop_first().len() && params.drop_first()[i] == (
                k,
                lookup(params.drop_first(), k)->0,
            );
        assert(params[i + 1] == params.drop_first()[i]);
    } else {
        assert(params[0] == (k, lookup(params, k)->0));
    }
}

/// Each ordered pair is a pair of `params` whose name `order` holds.
pub proof fn lemma_ordered_pairs_shape(order: Seq<Seq<char>>, params: Assoc)
    ensures
        forall|i: int|
            0 <= i < ordered_pairs(order, params).len() ==> {
                let e = #[trigger] ordered_pairs(order, params)[i];
                &&& !is_header_param(e.0)
                &&& order.contains(e.0)
                &&& lookup(params, e.0) == Some(e.1)
            },
    decreases order.len(),
{
    if order.len() > 0 {
        let o = order.drop_last();
        lemma_ordered_pairs_shape(o, params);
        assert forall|i: int| 0 <= i < ordered_pairs(order, params).len() implies {
            let e = #[trigger] ordered_pairs(order, params)[i];
            &&& !is_header_param(e.0)
            &&& order.contains(e.0)
            &&& lookup(params, e.0) == Some(e.1)
        } by {
            let e = ordered_pairs(order, params)[i];
            if i < ordered_pairs(o, params).len() {
                assert(e == ordered_pairs(o, params)[i]);
                let j = choose|j: int| 0 <= j < o.len() && o[j] == e.0;
                assert(order[j] == e.0);
            } else {
                assert(order[order.len() - 1] == e.0);
            }
        }
    }
}

/// Each remaining pair is a pair of `params` whose name `order` does not hold.
pub proof fn lemma_remaining_pairs_shape(params: Assoc, order: Seq<Seq<char>>)
    ensures
        forall|i: int|
            0 <= i < remaining_pairs(params, order).len() ==> {
                let e = #[trigger] remaining_pairs(params, order)[i];
                &&& !is_header_param(e.0)
                &&& !order.contains(e.0)
                &&& params.contains(e)
            },
    decreases params.len(),
{
    if params.len() > 0 {
        let p = params.drop_last();
        lemma_remaining_pairs_shape(p, order);
        assert forall|i: int| 0 <= i < remaining_pairs(params, order).len() implies {
            let e = #[trigger] remaining_pairs(params, order)[i];
            &&& !is_header_param(e.0)
            &&& !order.contains(e.0)
            &&& params.contains(e)
        } by {
            let e = remaining_pairs(params, order)[i];
            if i < remaining_pairs(p, order).len() {
                assert(e == remaining_pairs(p, order)[i]);
                let j = choose|j: int| 0 <= j < p.len() && p[j] == e;
                assert(params[j] == e);
            } else {
                assert(params[params.len() - 1] == e);
            }
        }
    }
}

pub proof fn lemma_lookup_last_append(a: Assoc, b: Assoc, k: Seq<char>)
    ensures
        lookup_last(a + b, k) == match lookup_last(b, k) {
            Some(v) => Some(v),
            None => lookup_last(a, k),
        },
    decreases b.len(),
{
    if b.len() == 0 {
        assert(a + b =~= a);
    } else {
        lemma_lookup_last_append(a, b.drop_last(), k);
        assert((a + b).drop_last() =~= a + b.drop_last());
        assert((a + b).last() == b.last());
    }
}

/// Where a name that is not a header parameter has a value among the
/// ordered pairs, it is the value in `params`, and it has one exactly where
/// `order` names it.
pub proof fn lemma_lookup_last_ordered(order: Seq<Seq<char>>, params: Assoc, k: Seq<char>)
    requires
        !is_header_param(k),
    ensures
        lookup_last(ordered_pairs(order, params), k) == (if order.contains(k) {
            lookup(params, k)
        } else {
            None
        }),
    decreases order.len(),
{
    if order.len() > 0 {
        let o = order.drop_last();
        lemma_lookup_last_ordered(o, params, k);
        let p = order.last();
        assert(order.contains(k) <==> (o.contains(k) || p == k)) by {
            if order.contains(k) && p != k {
                let j = choose|j: int| 0 <= j < order.len() && order[j] == k;
                assert(o[j] == k);
            }
            if o.contains(k) {
                let j = choose|j: int| 0 <= j < o.len() && o[j] == k;
                assert(order[j] == k);
            }
            if p == k {
                assert(order[order.len() - 1] == k);
            }
        }
        let r = ordered_pairs(o, params);
        if !is_header_param(p) && lookup(params, p) is Some {
            let x = (p, lookup(params, p)->0);
            assert(r.push(x).drop_last() =~= r);
            assert(r.push(x).last() == x);
            assert(lookup_last(r.push(x), k) == (if x.0 == k {
                Some(x.1)
            } else {
                lookup_last(r, k)
            }));
        }
    }
}

/// Where a name that is not a header parameter has a value among the
/// remaining pairs, it is its last value in `params`, and it has one exactly
/// where `order` does not name it.
pub proof fn lemma_lookup_last_remaining(params: Assoc, order: Seq<Seq<char>>, k: Seq<char>)
    requires
        !is_header_param(k),
    ensures
        lookup_last(remaining_pairs(params, order), k) == (if order.contains(k) {
            None
        } else {
            lookup_last(params, k)
        }),
    decreases params.len(),
{
    if params.len() > 0 {
        lemma_lookup_last_remaining(params.drop_last(), order, k);
        let r = remaining_pairs(params.drop_last(), order);
        let e = params.last();
        if !is_header_param(e.0) && !order.contains(e.0) {
            assert(r.push(e).drop_last() =~= r);
            assert(r.push(e).last() == e);
            assert(lookup_last(r.push(e), k) == (if e.0 == k {
                Some(e.1)
            } else {
                lookup_last(r, k)
            }));
        }
    }
}

/// Neither ordered nor remaining pairs name a header parameter.
pub proof fn lemma_no_header_in_written(order: Seq<Seq<char>>, params: Assoc, k: Seq<char>)
    requires
        is_header_param(k),
    ensures
        lookup_last(ordered_pairs(order, params) + remaining_pairs(params, order), k) == None::<
            Seq<char>,
        >,
{
    let w = ordered_pairs(order, params) + remaining_pairs(params, order);
    lemma_ordered_pairs_shape(order, params);
    lemma_remaining_pairs_shape(params, order);
    assert forall|j: int| 0 <= j < w.len() implies w[j].0 != k by {
        if j < ordered_pairs(order, params).len() {
            assert(w[j] == ordered_pairs(order, params)[j]);
        } else {
            assert(w[j] == remaining_pairs(params, order)[j - ordered_pairs(order, params).len()]);
        }
    }
    lemma_lookup_last_absent(w, k);
}

/// Reading data fields back removes the trailing white space of each value.
pub proof fn lemma_data_pairs_flatten(pairs: Assoc)
    ensures
        data_pairs(flatten(pairs)) == trim_values(pairs),
    decreases pairs.len(),
{
    if pairs.len() == 0 {
        assert(trim_values(pairs) =~= Seq::<(Seq<char>, Seq<char>)>::empty());
    } else {
        let t = pairs.drop_first();
        lemma_data_pairs_flatten(t);
        let f = flatten(pairs);
        assert(f[0] == pairs[0].0);
        assert(f[1] == pairs[0].1);
        assert(f.skip(2) =~= flatten(t));
        assert(trim_values(pairs) =~= seq![(pairs[0].0, trim_end(pairs[0].1))] + trim_values(t));
    }
}

/// Values without trailing white space are their own trimmed form, also
/// once a space is appended.
pub proof fn lemma_trim_spaced(data: Assoc)
    requires
        forall|i: int| 0 <= i < data.len() ==> trim_end(#[trigger] data[i].1) == data[i].1,
    ensures
        trim_values(spaced(data)) == data,
        trim_values(data) == data,
{
    assert forall|i: int| 0 <= i < data.len() implies trim_values(spaced(data))[i] == data[i] by {
        lemma_trim_end_space(data[i].1);
    }
    assert(trim_values(spaced(data)) =~= data);
    assert(trim_values(data) =~= data);
}

/// The literal names and defaults of the header.
pub proof fn lemma_header_literals()
    ensures
        "VART"@ == seq!['V', 'A', 'R', 'T'],
        "SKZ"@ == seq!['S', 'K', 'Z'],
        "UEBER"@ == seq!['U', 'E', 'B', 'E', 'R'],
        "0"@ == seq!['0'],
        "N"@ == seq!['N'],
{
    reveal_strlit("VART");
    reveal_strlit("SKZ");
    reveal_strlit("UEBER");
    reveal_strlit("0");
    reveal_strlit("N");
}

/// Scanning parameter pairs stores them, their values trimmed, as
/// parameters.
pub proof fn lemma_scan_params(pairs: Assoc, rest: Seq<Seq<char>>, st: ScanState)
    requires
        forall|i: int|
            0 <= i < pairs.len() ==> {
                let k = #[trigger] pairs[i].0;
                &&& !is_data_key(k)
                &&& k != "VART"@
                &&& k != "SKZ"@
                &&& k != "UEBER"@
            },
    ensures
        scan(flatten(pairs) + rest, st) == scan(
            rest,
            ScanState { params: insert_all(st.params, trim_values(pairs)), ..st },
        ),
    decreases pairs.len(),
{
    if pairs.len() == 0 {
        assert(flatten(pairs) + rest =~= rest);
        assert(trim_values(pairs) =~= Seq::<(Seq<char>, Seq<char>)>::empty());
        assert(ScanState { params: insert_all(st.params, trim_values(pairs)), ..st } == st);
    } else {
        let t = pairs.drop_first();
        let x = flatten(pairs) + rest;
        let e = pairs[0];
        assert(!is_data_key(e.0) && e.0 != "VART"@ && e.0 != "SKZ"@ && e.0 != "UEBER"@);
        assert(x[0] == e.0);
        assert(x[1] == e.1);
        assert(x.skip(2) =~= flatten(t) + rest);
        let st1 = ScanState { params: insert(st.params, e.0, trim_end(e.1)), ..st };
        assert(scan(x, st) == scan(x.skip(2), st1));
        assert forall|i: int| 0 <= i < t.len() implies {
            let k = #[trigger] t[i].0;
            &&& !is_data_key(k)
            &&& k != "VART"@
            &&& k != "SKZ"@
            &&& k != "UEBER"@
        } by {
            assert(t[i] == pairs[i + 1]);
        }
        lemma_scan_params(t, rest, st1);
        lemma_insert_all_prepend(st.params, (e.0, trim_end(e.1)), trim_values(t));
        assert(seq![(e.0, trim_end(e.1))] + trim_values(t) =~= trim_values(pairs));
    }
}

/// Scanning data pairs, of which the first has a data field name, stores
/// them all as data fields, their values trimmed.
pub proof fn lemma_scan_data(pairs: Assoc, st: ScanState)
    requires
        pairs.len() > 0 ==> is_data_key(pairs[0].0),
        st.data.len() == 0,
    ensures
        scan(flatten(pairs), st) == Ok::<ScanState, Seq<char>>(
            ScanState { data: trim_values(pairs), ..st },
        ),
{
    lemma_data_pairs_flatten(pairs);
    if pairs.len() == 0 {
        assert(trim_values(pairs) =~= st.data);
        assert(ScanState { data: trim_values(pairs), ..st } == st);
    } else {
        let f = flatten(pairs);
        assert(f[0] == pairs[0].0);
    }
}

/// Scanning the header stores its three values.
pub proof fn lemma_scan_header(
    vart: Seq<char>,
    skz: Seq<char>,
    ueber: Seq<char>,
    rest: Seq<Seq<char>>,
    st: ScanState,
)
    ensures
        scan(seq!["VART"@, vart, "SKZ"@, skz, "UEBER"@, ueber] + rest, st) == scan(
            rest,
            ScanState { vart: Some(vart), skz: Some(skz), ueber: Some(ueber), ..st },
        ),
{
    lemma_header_literals();
    let x = seq!["VART"@, vart, "SKZ"@, skz, "UEBER"@, ueber] + rest;
    assert(!is_data_key("VART"@)) by {
        assert("VART"@[0] == 'V');
    }
    assert(!is_data_key("SKZ"@)) by {
        assert("SKZ"@[0] == 'S');
    }
    assert(!is_data_key("UEBER"@)) by {
        assert("UEBER"@.len() > 3);
    }
    assert("SKZ"@ != "VART"@) by {
        assert("SKZ"@.len() != "VART"@.len());
    }
    assert("UEBER"@ != "VART"@) by {
        assert("UEBER"@.len() != "VART"@.len());
    }
    assert("UEBER"@ != "SKZ"@) by {
        assert("UEBER"@.len() != "SKZ"@.len());
    }
    let st1 = ScanState { vart: Some(vart), ..st };
    let st2 = ScanState { skz: Some(skz), ..st1 };
    let st3 = ScanState { ueber: Some(ueber), ..st2 };
    assert(x.skip(2) =~= seq!["SKZ"@, skz, "UEBER"@, ueber] + rest);
    assert(x.skip(2).skip(2) =~= seq!["UEBER"@, ueber] + rest);
    assert(x.skip(2).skip(2).skip(2) =~= rest);
    assert(scan(x, st) == scan(x.skip(2), st1));
    assert(scan(x.skip(2), st1) == scan(x.skip(2).skip(2), st2));
    assert(scan(x.skip(2).skip(2), st2) == scan(x.skip(2).skip(2).skip(2), st3));
}

/// A value that reads back unchanged: no separator, no trailing white space.
pub open spec fn plain_value(v: Seq<char>) -> bool {
    !has_char(v, THORN) && trim_end(v) == v
}

/// A parameter that reads back as written: no separator in its name, a
/// plain value, and, besides the header parameters, a name that neither
/// starts the data fields nor is `SKZ`.
pub open spec fn writable_param(k: Seq<char>, v: Seq<char>) -> bool {
    &&& !has_char(k, THORN)
    &&& plain_value(v)
    &&& !is_header_param(k) ==> (!is_data_key(k) && k != "SKZ"@)
}

/// Names and values that survive the text form: an SKZ without separator,
/// parameters that read back, and data fields with data-field names and
/// plain values.
pub open spec fn writable_content(skz: Seq<char>, params: Assoc, data: Assoc) -> bool {
    &&& !has_char(skz, THORN)
    &&& forall|i: int| 0 <= i < params.len() ==> writable_param(#[trigger] params[i].0, params[i].1)
    &&& forall|i: int| 0 <= i < data.len() ==> is_data_key(#[trigger] data[i].0) && plain_value(data[i].1)
}

/// A row whose text reads back as the row: content that survives the text
/// form, and distinct parameter names, which every [`crate::params::ParamMap`]
/// has by its type invariant.
pub open spec fn writable_row(skz: Seq<char>, params: Assoc, data: Assoc) -> bool {
    keys_unique(params) && writable_content(skz, params, data)
}

/// What reading the text of a row gives back: its SKZ, its data fields in
/// written (sorted) order, the value of each parameter, and the header
/// values with their defaults.
pub open spec fn reads_back(p: ParsedRow, skz: Seq<char>, params: Assoc, data: Assoc) -> bool {
    &&& p.skz == skz
    &&& p.data == sort_by_name(data)
    &&& forall|k: Seq<char>| !is_header_param(k) ==> #[trigger] lookup(p.params, k) == lookup(params, k)
    &&& lookup(p.params, "VART"@) == Some(value_or(lookup(params, "VART"@), "0"@))
    &&& lookup(p.params, "UEBER"@) == Some(value_or(lookup(params, "UEBER"@), "N"@))
}

proof fn lemma_concat_no_char(a: Seq<Seq<char>>, b: Seq<Seq<char>>, c: char)
    requires
        forall|i: int| 0 <= i < a.len() ==> !has_char(#[trigger] a[i], c),
        forall|i: int| 0 <= i < b.len() ==> !has_char(#[trigger] b[i], c),
    ensures
        forall|i: int| 0 <= i < (a + b).len() ==> !has_char(#[trigger] (a + b)[i], c),
{
    assert forall|i: int| 0 <= i < (a + b).len() implies !has_char(#[trigger] (a + b)[i], c) by {
        if i < a.len() {
            assert((a + b)[i] == a[i]);
        } else {
            assert((a + b)[i] == b[i - a.len()]);
        }
    }
}

/// The value written for a header parameter reads back.
proof fn lemma_header_value_plain(params: Assoc, name: Seq<char>, default: Seq<char>)
    requires
        forall|i: int| 0 <= i < params.len() ==> writable_param(#[trigger] params[i].0, params[i].1),
        plain_value(default),
    ensures
        plain_value(value_or(lookup(params, name), default)),
{
    if lookup(params, name) is Some {
        lemma_lookup_some(params, name);
        let i = choose|i: int| 0 <= i < params.len() && params[i] == (name, lookup(params, name)->0);
        assert(writable_param(params[i].0, params[i].1));
    }
}

/// The header parameters as read back, with their defaults.
pub open spec fn header_base(params: Assoc) -> Assoc {
    insert(
        insert(Seq::<(Seq<char>, Seq<char>)>::empty(), "VART"@, value_or(lookup(params, "VART"@), "0"@)),
        "UEBER"@,
        value_or(lookup(params, "UEBER"@), "N"@),
    )
}

/// The pieces between the separators of a line, without its newline.
pub open spec fn line_pieces(line: Seq<char>) -> Seq<Seq<char>> {
    split(strip_end(line, '\n'), THORN).drop_first()
}

/// The parameters written after the header: those that `order` names, in
/// its order, then the others, in the order of `params`.
pub open spec fn written_params(order: Seq<Seq<char>>, params: Assoc) -> Assoc {
    ordered_pairs(order, params) + remaining_pairs(params, order)
}

/// The text of a row that [`writable_row`] admits parses back to the row.
pub proof fn lemma_parse_written(skz: Seq<char>, order: Seq<Seq<char>>, params: Assoc, data: Assoc)
    requires
        writable_row(skz, params, data),
    ensures
        line_pieces(dta_line(dta_parts(skz, order, params, data))) == dta_parts(skz, order, params, data),
        parse_line(dta_line(dta_parts(skz, order, params, data))) is Ok,
        reads_back(parse_line(dta_line(dta_parts(skz, order, params, data)))->Ok_0, skz, params, data),
        parse_line(dta_line(dta_parts(skz, order, params, data)))->Ok_0.params == insert_all(
            header_base(params),
            insert_all(
                Seq::<(Seq<char>, Seq<char>)>::empty(),
                ordered_pairs(order, params) + remaining_pairs(params, order),
            ),
        ),
{
    lemma_header_literals();
    let v = value_or(lookup(params, "VART"@), "0"@);
    let u = value_or(lookup(params, "UEBER"@), "N"@);
    assert(plain_value("0"@)) by {
        assert(trim_end("0"@) == "0"@);
    }
    assert(plain_value("N"@)) by {
        assert(trim_end("N"@) == "N"@);
    }
    lemma_header_value_plain(params, "VART"@, "0"@);
    lemma_header_value_plain(params, "UEBER"@, "N"@);
    let h = seq!["VART"@, v, "SKZ"@, skz, "UEBER"@, u];
    let op = ordered_pairs(order, params);
    let rp = remaining_pairs(params, order);
    let w = op + rp;
    let sd = sort_by_name(data);
    let ds = spaced(sd);
    lemma_ordered_parts_flat(order, params);
    lemma_remaining_parts_flat(params, order);
    lemma_data_parts_flat(sd);
    lemma_flatten_append(op, rp);
    let f = flatten(w) + flatten(ds);
    let parts = dta_parts(skz, order, params, data);
    assert(parts =~= h + f);

    // What is written of the parameters reads back.
    lemma_ordered_pairs_shape(order, params);
    lemma_remaining_pairs_shape(params, order);
    assert forall|i: int| 0 <= i < w.len() implies {
        let e = #[trigger] w[i];
        &&& writable_param(e.0, e.1)
        &&& !is_header_param(e.0)
    } by {
        let e = w[i];
        if i < op.len() {
            assert(e == op[i]);
            lemma_lookup_some(params, e.0);
        } else {
            assert(e == rp[i - op.len()]);
            let j = choose|j: int| 0 <= j < params.len() && params[j] == e;
        }
    }
    // What is written of the data fields reads back.
    assert forall|i: int| 0 <= i < sd.len() implies is_data_key(#[trigger] sd[i].0) && plain_value(
        sd[i].1,
    ) by {
        lemma_sort_contains(data, sd[i]);
        assert(sd.contains(sd[i]));
        let j = choose|j: int| 0 <= j < data.len() && data[j] == sd[i];
    }

    // No piece holds the separator.
    assert forall|i: int| 0 <= i < h.len() implies !has_char(#[trigger] h[i], THORN) by {
        if i == 0 || i == 2 || i == 4 {
            assert(!has_char(h[i], THORN));
        }
    }
    assert forall|i: int| 0 <= i < w.len() implies !has_char(#[trigger] w[i].0, THORN) && !has_char(
        w[i].1,
        THORN,
    ) by {}
    lemma_flatten_no_char(w, THORN);
    assert forall|i: int| 0 <= i < ds.len() implies !has_char(#[trigger] ds[i].0, THORN) && !has_char(
        ds[i].1,
        THORN,
    ) by {
        assert(ds[i] == (sd[i].0, sd[i].1.push(' ')));
        assert(is_data_key(sd[i].0));
        if has_char(sd[i].0, THORN) {
            let j = choose|j: int| 0 <= j < sd[i].0.len() && sd[i].0[j] == THORN;
            assert('a' <= sd[i].0[j] <= 'z');
        }
        if has_char(ds[i].1, THORN) {
            let j = choose|j: int| 0 <= j < ds[i].1.len() && ds[i].1[j] == THORN;
            if j < sd[i].1.len() {
                assert(sd[i].1[j] == THORN);
            }
        }
    }
    lemma_flatten_no_char(ds, THORN);
    lemma_concat_no_char(flatten(w), flatten(ds), THORN);
    lemma_concat_no_char(h, f, THORN);
    let all = seq![Seq::<char>::empty()] + parts;
    assert(!has_char(Seq::<char>::empty(), THORN));
    lemma_concat_no_char(seq![Seq::<char>::empty()], parts, THORN);

    // The line is the separator, the joined pieces and a newline.
    let x = seq![THORN] + join(parts, THORN);
    lemma_join_prepend_empty(parts, THORN);
    lemma_split_join(all, THORN);
    assert(dta_line(parts) =~= x.push('\n'));
    assert(is_white('\n'));
    assert(parts.last().len() == 0 || parts.last().last() != '\n') by {
        if ds.len() > 0 {
            lemma_flatten_last(ds);
            assert(parts.last() == flatten(ds).last());
            assert(ds.last() == (sd.last().0, sd.last().1.push(' ')));
        } else if w.len() > 0 {
            lemma_flatten_last(w);
            assert(flatten(ds) =~= Seq::<Seq<char>>::empty());
            assert(parts.last() == flatten(w).last());
            lemma_trimmed_last(w.last().1);
        } else {
            assert(flatten(ds) =~= Seq::<Seq<char>>::empty());
            assert(flatten(w) =~= Seq::<Seq<char>>::empty());
            assert(parts.last() == u);
            lemma_trimmed_last(u);
        }
    }
    lemma_join_last(parts, THORN);
    assert(x.last() != '\n');
    lemma_strip_end_once(x, '\n');
    assert(x.len() > 0 && x[0] == THORN);
    assert(split(x, THORN).drop_first() =~= parts);

    // Scanning the pieces.
    let st_h = ScanState { vart: Some(v), skz: Some(skz), ueber: Some(u), ..scan_start() };
    lemma_scan_header(v, skz, u, f, scan_start());
    assert forall|i: int| 0 <= i < w.len() implies {
        let k = #[trigger] w[i].0;
        &&& !is_data_key(k)
        &&& k != "VART"@
        &&& k != "SKZ"@
        &&& k != "UEBER"@
    } by {}
    lemma_scan_params(w, flatten(ds), st_h);
    assert forall|i: int| 0 <= i < w.len() implies trim_end(#[trigger] w[i].1) == w[i].1 by {}
    lemma_trim_spaced(w);
    let stp = insert_all(Seq::<(Seq<char>, Seq<char>)>::empty(), w);
    let st_p = ScanState { params: stp, ..st_h };
    assert forall|i: int| 0 <= i < sd.len() implies trim_end(#[trigger] sd[i].1) == sd[i].1 by {
        assert(is_data_key(sd[i].0));
    }
    lemma_trim_spaced(sd);
    lemma_scan_data(ds, st_p);
    assert(scan(parts, scan_start()) == Ok::<ScanState, Seq<char>>(ScanState { data: sd, ..st_p }));

    // The parameters read back.
    let base = insert(
        insert(Seq::<(Seq<char>, Seq<char>)>::empty(), "VART"@, v),
        "UEBER"@,
        u,
    );
    let pp = insert_all(base, stp);
    let p = parse_line(dta_line(parts))->Ok_0;
    assert(p.params == pp);
    assert(p.skz == skz);
    assert(p.data == sd);
    assert(keys_unique(Seq::<(Seq<char>, Seq<char>)>::empty()));
    lemma_insert_all_unique(Seq::<(Seq<char>, Seq<char>)>::empty(), w);
    assert(lookup(Seq::<(Seq<char>, Seq<char>)>::empty(), "VART"@) == None::<Seq<char>>);
    assert forall|k: Seq<char>| !is_header_param(k) implies #[trigger] lookup(p.params, k) == lookup(
        params,
        k,
    ) by {
        lemma_lookup_insert_all(base, stp, k);
        lemma_lookup_last_unique(stp, k);
        lemma_lookup_insert_all(Seq::<(Seq<char>, Seq<char>)>::empty(), w, k);
        assert(lookup(Seq::<(Seq<char>, Seq<char>)>::empty(), k) == None::<Seq<char>>);
        lemma_lookup_last_append(op, rp, k);
        lemma_lookup_last_ordered(order, params, k);
        lemma_lookup_last_remaining(params, order, k);
        lemma_lookup_last_unique(params, k);
        lemma_lookup_insert(insert(Seq::<(Seq<char>, Seq<char>)>::empty(), "VART"@, v), "UEBER"@, u, k);
        lemma_lookup_insert(Seq::<(Seq<char>, Seq<char>)>::empty(), "VART"@, v, k);
    }
    assert("VART"@ != "UEBER"@);
    lemma_no_header_in_written(order, params, "VART"@);
    lemma_no_header_in_written(order, params, "UEBER"@);
    lemma_lookup_insert_all(base, stp, "VART"@);
    lemma_lookup_last_unique(stp, "VART"@);
    lemma_lookup_insert_all(Seq::<(Seq<char>, Seq<char>)>::empty(), w, "VART"@);
    lemma_lookup_insert(insert(Seq::<(Seq<char>, Seq<char>)>::empty(), "VART"@, v), "UEBER"@, u, "VART"@);
    lemma_lookup_insert(Seq::<(Seq<char>, Seq<char>)>::empty(), "VART"@, v, "VART"@);
    lemma_lookup_insert_all(base, stp, "UEBER"@);
    lemma_lookup_last_unique(stp, "UEBER"@);
    lemma_lookup_insert_all(Seq::<(Seq<char>, Seq<char>)>::empty(), w, "UEBER"@);
    assert(lookup(Seq::<(Seq<char>, Seq<char>)>::empty(), "UEBER"@) == None::<Seq<char>>);
    lemma_lookup_insert(insert(Seq::<(Seq<char>, Seq<char>)>::empty(), "VART"@, v), "UEBER"@, u, "UEBER"@);
}

/// Ordered parameters depend only on the values of names other than the
/// header parameters.
pub proof fn lemma_ordered_parts_congruent(order: Seq<Seq<char>>, a: Assoc, b: Assoc)
    requires
        forall|k: Seq<char>| !is_header_param(k) ==> #[trigger] lookup(a, k) == lookup(b, k),
    ensures
        ordered_parts(order, a) == ordered_parts(order, b),
    decreases order.len(),
{
    if order.len() > 0 {
        lemma_ordered_parts_congruent(order.drop_last(), a, b);
        let p = order.last();
        if !is_header_param(p) {
            assert(lookup(a, p) == lookup(b, p));
        }
    }
}

pub proof fn lemma_remaining_parts_append(x: Assoc, y: Assoc, order: Seq<Seq<char>>)
    ensures
        remaining_parts(x + y, order) == remaining_parts(x, order) + remaining_parts(y, order),
    decreases y.len(),
{
    if y.len() == 0 {
        assert(x + y =~= x);
        assert(remaining_parts(x, order) + remaining_parts(y, order) =~= remaining_parts(x, order));
    } else {
        lemma_remaining_parts_append(x, y.drop_last(), order);
        assert((x + y).drop_last() =~= x + y.drop_last());
        assert((x + y).last() == y.last());
        let e = y.last();
        if !is_header_param(e.0) && !order.contains(e.0) {
            assert(remaining_parts(x, order) + remaining_parts(y.drop_last(), order) + seq![e.0, e.1]
                =~= remaining_parts(x, order) + (remaining_parts(y.drop_last(), order) + seq![e.0, e.1]));
        }
    }
}

/// Pairs that are all left out of the remaining parameters give none.
pub proof fn lemma_remaining_parts_none(x: Assoc, order: Seq<Seq<char>>)
    requires
        forall|i: int| 0 <= i < x.len() ==> is_header_param(#[trigger] x[i].0) || order.contains(x[i].0),
    ensures
        remaining_parts(x, order) == Seq::<Seq<char>>::empty(),
    decreases x.len(),
{
    if x.len() > 0 {
        assert forall|i: int| 0 <= i < x.drop_last().len() implies is_header_param(
            #[trigger] x.drop_last()[i].0,
        ) || order.contains(x.drop_last()[i].0) by {
            assert(x.drop_last()[i] == x[i]);
        }
        lemma_remaining_parts_none(x.drop_last(), order);
        assert(is_header_param(x[x.len() - 1].0) || order.contains(x[x.len() - 1].0));
    }
}

/// Pairs that are all kept in the remaining parameters are written as they are.
pub proof fn lemma_remaining_parts_all(x: Assoc, order: Seq<Seq<char>>)
    requires
        forall|i: int| 0 <= i < x.len() ==> !is_header_param(#[trigger] x[i].0) && !order.contains(x[i].0),
    ensures
        remaining_parts(x, order) == flatten(x),
    decreases x.len(),
{
    if x.len() > 0 {
        assert forall|i: int| 0 <= i < x.drop_last().len() implies !is_header_param(
            #[trigger] x.drop_last()[i].0,
        ) && !order.contains(x.drop_last()[i].0) by {
            assert(x.drop_last()[i] == x[i]);
        }
        lemma_remaining_parts_all(x.drop_last(), order);
        assert(!is_header_param(x[x.len() - 1].0) && !order.contains(x[x.len() - 1].0));
        lemma_flatten_push(x.drop_last(), x.last());
        assert(x.drop_last().push(x.last()) =~= x);
    }
}

/// Where `order` names no parameter twice, neither do the ordered pairs.
pub proof fn lemma_ordered_pairs_unique(order: Seq<Seq<char>>, params: Assoc)
    requires
        order.no_duplicates(),
    ensures
        keys_unique(ordered_pairs(order, params)),
    decreases order.len(),
{
    if order.len() > 0 {
        let o = order.drop_last();
        assert(o.no_duplicates());
        lemma_ordered_pairs_unique(o, params);
        lemma_ordered_pairs_shape(o, params);
        let r = ordered_pairs(o, params);
        let p = order.last();
        assert forall|i: int| 0 <= i < r.len() implies r[i].0 != p by {
            let e = r[i];
            assert(o.contains(e.0));
            let j = choose|j: int| 0 <= j < o.len() && o[j] == e.0;
            assert(order[j] == o[j]);
        }
    }
}

/// The remaining pairs of parameters with distinct names have distinct names.
pub proof fn lemma_remaining_pairs_unique(params: Assoc, order: Seq<Seq<char>>)
    requires
        keys_unique(params),
    ensures
        keys_unique(remaining_pairs(params, order)),
    decreases params.len(),
{
    if params.len() > 0 {
        let p = params.drop_last();
        assert(keys_unique(p));
        lemma_remaining_pairs_unique(p, order);
        lemma_remaining_pairs_shape(p, order);
        let r = remaining_pairs(p, order);
        let e = params.last();
        assert forall|i: int| 0 <= i < r.len() implies r[i].0 != e.0 by {
            let j = choose|j: int| 0 <= j < p.len() && p[j] == r[i];
            assert(params[j] == p[j]);
        }
    }
}

/// Writing, reading and writing again gives the text written first, where
/// the record type orders no parameter twice.
pub proof fn lemma_rewrite_written(skz: Seq<char>, order: Seq<Seq<char>>, params: Assoc, data: Assoc)
    requires
        writable_row(skz, params, data),
        order.no_duplicates(),
    ensures
        ({
            let p = parse_line(dta_line(dta_parts(skz, order, params, data)))->Ok_0;
            dta_parts(p.skz, order, p.params, p.data) == dta_parts(skz, order, params, data)
        }),
{
    lemma_parse_written(skz, order, params, data);
    lemma_header_literals();
    let p = parse_line(dta_line(dta_parts(skz, order, params, data)))->Ok_0;
    let v = value_or(lookup(params, "VART"@), "0"@);
    let u = value_or(lookup(params, "UEBER"@), "N"@);
    let op = ordered_pairs(order, params);
    let rp = remaining_pairs(params, order);
    let w = op + rp;
    lemma_ordered_parts_congruent(order, p.params, params);
    lemma_sort_idempotent(data);

    // The parsed parameters are the header, then the written parameters.
    let empty = Seq::<(Seq<char>, Seq<char>)>::empty();
    let base = insert(insert(empty, "VART"@, v), "UEBER"@, u);
    lemma_insert_absent(empty, "VART"@, v);
    assert("VART"@ != "UEBER"@);
    lemma_insert_absent(seq![("VART"@, v)], "UEBER"@, u);
    assert(base =~= seq![("VART"@, v), ("UEBER"@, u)]);
    lemma_ordered_pairs_unique(order, params);
    lemma_remaining_pairs_unique(params, order);
    lemma_ordered_pairs_shape(order, params);
    lemma_remaining_pairs_shape(params, order);
    assert(keys_unique(w)) by {
        assert forall|i: int, j: int| 0 <= i < j < w.len() implies w[i].0 != w[j].0 by {
            if j < op.len() {
                assert(w[i] == op[i] && w[j] == op[j]);
            } else if i >= op.len() {
                assert(w[i] == rp[i - op.len()] && w[j] == rp[j - op.len()]);
            } else {
                assert(w[i] == op[i] && w[j] == rp[j - op.len()]);
            }
        }
    }
    assert(empty + w =~= w);
    lemma_insert_all_fresh(empty, w);
    assert(keys_unique(base + w)) by {
        assert forall|i: int, j: int| 0 <= i < j < (base + w).len() implies (base + w)[i].0 != (base
            + w)[j].0 by {
            if j >= 2 && i >= 2 {
                assert((base + w)[i] == w[i - 2] && (base + w)[j] == w[j - 2]);
            } else if j >= 2 {
                assert((base + w)[j] == w[j - 2]);
                if j - 2 < op.len() {
                    assert(w[j - 2] == op[j - 2]);
                } else {
                    assert(w[j - 2] == rp[j - 2 - op.len()]);
                }
            }
        }
    }
    lemma_insert_all_fresh(base, w);
    assert(p.params == base + w);

    // Of these, only the remaining pairs are written after the ordered ones.
    lemma_remaining_parts_append(base, w, order);
    lemma_remaining_parts_append(op, rp, order);
    assert(base + w =~= base + op + rp);
    lemma_remaining_parts_none(base, order);
    lemma_remaining_parts_none(op, order);
    lemma_remaining_parts_all(rp, order);
    lemma_remaining_parts_flat(params, order);
    lemma_remaining_parts_append(base + op, rp, order);
    lemma_remaining_parts_append(base, op, order);
    assert(remaining_parts(p.params, order) == remaining_parts(params, order));
}

/// Reading the text of a row gives the row back: its SKZ, the value of
/// each of its parameters, its header values (with their defaults) and its
/// data fields in the order in which they are written (sorted by name).
/// This holds for every row whose names and values survive the text form
/// (see [`writable_row`]).
pub proof fn law_read_back_written<T: RecordIdentifier>(row: DtaRow<T>)
    requires
        writable_row(row.identifier.spec_skz(), row.params@, row.data_view()),
    ensures
        parse_line(row.spec_line()) is Ok,
        reads_back(
            parse_line(row.spec_line())->Ok_0,
            row.identifier.spec_skz(),
            row.params@,
            row.data_view(),
        ),
{
    lemma_parse_written(row.identifier.spec_skz(), T::spec_param_order(), row.params@, row.data_view());
}

/// Writing a row, reading the text back into a row of the same record
/// type and writing that row gives the text written first.
pub proof fn law_rewrite_read_row<T: RecordIdentifier>(row: DtaRow<T>, again: DtaRow<T>)
    requires
        writable_row(row.identifier.spec_skz(), row.params@, row.data_view()),
        again.identifier.spec_skz() == parse_line(row.spec_line())->Ok_0.skz,
        again.params@ == parse_line(row.spec_line())->Ok_0.params,
        again.data_view() == parse_line(row.spec_line())->Ok_0.data,
    ensures
        again.spec_line() == row.spec_line(),
{
    T::lemma_lists_distinct();
    lemma_rewrite_written(
        row.identifier.spec_skz(),
        T::spec_param_order(),
        row.params@,
        row.data_view(),
    );
}

/// The pieces of a row's line are the header (VART, SKZ, UEBER with their
/// values), the parameters as [`written_params`] lays them out, and then
/// the data fields sorted by name, each value followed by one space; the
/// sorted fields are the row's fields, in order of their names.
pub proof fn law_line_layout<T: RecordIdentifier>(row: DtaRow<T>)
    requires
        writable_row(row.identifier.spec_skz(), row.params@, row.data_view()),
    ensures
        line_pieces(row.spec_line()) == seq![
            "VART"@,
            value_or(lookup(row.params@, "VART"@), "0"@),
            "SKZ"@,
            row.identifier.spec_skz(),
            "UEBER"@,
            value_or(lookup(row.params@, "UEBER"@), "N"@),
        ] + flatten(written_params(T::spec_param_order(), row.params@)) + flatten(
            spaced(sort_by_name(row.data_view())),
        ),
        sorted_by_name(sort_by_name(row.data_view())),
        sort_by_name(row.data_view()).to_multiset() == row.data_view().to_multiset(),
{
    let order = T::spec_param_order();
    let params = row.params@;
    lemma_parse_written(row.identifier.spec_skz(), order, params, row.data_view());
    lemma_ordered_parts_flat(order, params);
    lemma_remaining_parts_flat(params, order);
    lemma_data_parts_flat(sort_by_name(row.data_view()));
    lemma_flatten_append(ordered_pairs(order, params), remaining_pairs(params, order));
    lemma_sort_sorted(row.data_view());
    lemma_sort_multiset(row.data_view());
    assert(line_pieces(row.spec_line()) =~= seq![
        "VART"@,
        value_or(lookup(params, "VART"@), "0"@),
        "SKZ"@,
        row.identifier.spec_skz(),
        "UEBER"@,
        value_or(lookup(params, "UEBER"@), "N"@),
    ] + flatten(written_params(order, params)) + flatten(spaced(sort_by_name(row.data_view()))));
}

/// The parameters that the record type orders are written before all
/// others: each ordered pair has a name of the order, no remaining pair has.
pub proof fn law_ordered_params_first<T: RecordIdentifier>(params: Assoc)
    ensures
        forall|i: int|
            0 <= i < ordered_pairs(T::spec_param_order(), params).len()
                ==> T::spec_param_order().contains(
                #[trigger] ordered_pairs(T::spec_param_order(), params)[i].0,
            ),
        forall|i: int|
            0 <= i < remaining_pairs(params, T::spec_param_order()).len()
                ==> !T::spec_param_order().contains(
                #[trigger] remaining_pairs(params, T::spec_param_order())[i].0,
            ),
{
    lemma_ordered_pairs_shape(T::spec_param_order(), params);
    lemma_remaining_pairs_shape(params, T::spec_param_order());
}

/// Each parameter of a row is written once after the header, with its
/// value, VART and UEBER only in the header, and nothing else.
pub proof fn law_params_written_once<T: RecordIdentifier>(params: Assoc)
    requires
        keys_unique(params),
    ensures
        keys_unique(written_params(T::spec_param_order(), params)),
        forall|k: Seq<char>|
            !is_header_param(k) ==> #[trigger] lookup(written_params(T::spec_param_order(), params), k)
                == lookup(params, k),
        forall|k: Seq<char>|
            is_header_param(k) ==> #[trigger] lookup(written_params(T::spec_param_order(), params), k)
                is None,
{
    let order = T::spec_param_order();
    T::lemma_lists_distinct();
    let op = ordered_pairs(order, params);
    let rp = remaining_pairs(params, order);
    let w = op + rp;
    lemma_ordered_pairs_unique(order, params);
    lemma_remaining_pairs_unique(params, order);
    lemma_ordered_pairs_shape(order, params);
    lemma_remaining_pairs_shape(params, order);
    assert(keys_unique(w)) by {
        assert forall|i: int, j: int| 0 <= i < j < w.len() implies w[i].0 != w[j].0 by {
            if j < op.len() {
                assert(w[i] == op[i] && w[j] == op[j]);
            } else if i >= op.len() {
                assert(w[i] == rp[i - op.len()] && w[j] == rp[j - op.len()]);
            } else {
                assert(w[i] == op[i] && w[j] == rp[j - op.len()]);
            }
        }
    }
    assert forall|k: Seq<char>| !is_header_param(k) implies #[trigger] lookup(w, k) == lookup(
        params,
        k,
    ) by {
        lemma_lookup_last_unique(w, k);
        lemma_lookup_last_unique(params, k);
        lemma_lookup_last_append(op, rp, k);
        lemma_lookup_last_ordered(order, params, k);
        lemma_lookup_last_remaining(params, order, k);
    }
    assert forall|k: Seq<char>| is_header_param(k) implies #[trigger] lookup(w, k) is None by {
        lemma_lookup_last_unique(w, k);
        lemma_no_header_in_written(order, params, k);
    }
}

} // verus!
