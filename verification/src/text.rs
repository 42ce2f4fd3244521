//! Character-level model of the text the library reads and writes:
//! trimming, splitting on a separator and joining with one.

use vstd::prelude::*;

verus! {

broadcast use vstd::string::group_string_axioms;

/// The field separator of the DTA format, the thorn character (U+00FE).
pub const THORN: char = '\u{fe}';

/// Whether `c` has the Unicode `White_Space` property, which is what
/// `char::is_whitespace` and the `trim` family of `str` test.
pub open spec fn is_white(c: char) -> bool {
    ||| ('\u{9}' <= c && c <= '\u{d}')
    ||| c == ' '
    ||| c == '\u{85}'
    ||| c == '\u{a0}'
    ||| c == '\u{1680}'
    ||| ('\u{2000}' <= c && c <= '\u{200a}')
    ||| c == '\u{2028}'
    ||| c == '\u{2029}'
    ||| c == '\u{202f}'
    ||| c == '\u{205f}'
    ||| c == '\u{3000}'
}

/// `s` without its trailing white space.
pub open spec fn trim_end(s: Seq<char>) -> Seq<char>
    decreases s.len(),
{
    if s.len() > 0 && is_white(s.last()) {
        trim_end(s.drop_last())
    } else {
        s
    }
}

/// `s` without its leading white space.
pub open spec fn trim_start(s: Seq<char>) -> Seq<char>
    decreases s.len(),
{
    if s.len() > 0 && is_white(s[0]) {
        trim_start(s.drop_first())
    } else {
        s
    }
}

/// `s` without leading and trailing white space.
pub open spec fn trim(s: Seq<char>) -> Seq<char> {
    trim_start(trim_end(s))
}

/// `s` without any run of `c` at its end.
pub open spec fn strip_end(s: Seq<char>, c: char) -> Seq<char>
    decreases s.len(),
{
    if s.len() > 0 && s.last() == c {
        strip_end(s.drop_last(), c)
    } else {
        s
    }
}

/// The pieces of `s` between occurrences of `sep`; there is always at least
/// one piece, and `sep` occurs in none of them.
pub open spec fn split(s: Seq<char>, sep: char) -> Seq<Seq<char>>
    decreases s.len(),
{
    if s.len() == 0 {
        seq![Seq::<char>::empty()]
    } else {
        let p = split(s.drop_last(), sep);
        if s.last() == sep {
            p.push(Seq::<char>::empty())
        } else {
            p.update(p.len() - 1, p.last().push(s.last()))
        }
    }
}

/// The pieces of `parts` with `sep` between each two neighbours.
pub open spec fn join(parts: Seq<Seq<char>>, sep: char) -> Seq<char>
    decreases parts.len(),
{
    if parts.len() == 0 {
        Seq::<char>::empty()
    } else if parts.len() == 1 {
        parts[0]
    } else {
        join(parts.drop_last(), sep).push(sep) + parts.last()
    }
}

/// Whether `c` occurs in `s`.
pub open spec fn has_char(s: Seq<char>, c: char) -> bool {
    exists|i: int| 0 <= i < s.len() && s[i] == c
}

pub proof fn lemma_split_nonempty(s: Seq<char>, sep: char)
    ensures
        split(s, sep).len() >= 1,
    decreases s.len(),
{
    if s.len() > 0 {
        lemma_split_nonempty(s.drop_last(), sep);
    }
}

pub proof fn lemma_split_append(a: Seq<char>, b: Seq<char>, sep: char)
    requires
        !has_char(b, sep),
    ensures
        split(a + b, sep) == split(a, sep).update(
            split(a, sep).len() - 1,
            split(a, sep).last() + b,
        ),
    decreases b.len(),
{
    lemma_split_nonempty(a, sep);
    if b.len() == 0 {
        assert(a + b =~= a);
        assert(split(a, sep).last() + b =~= split(a, sep).last());
        assert(split(a, sep).update(split(a, sep).len() - 1, split(a, sep).last()) =~= split(a, sep));
    } else {
        let b0 = b.drop_last();
        assert(!has_char(b0, sep)) by {
            if has_char(b0, sep) {
                let i = choose|i: int| 0 <= i < b0.len() && b0[i] == sep;
                assert(b[i] == sep);
            }
        }
        lemma_split_append(a, b0, sep);
        assert(b[b.len() - 1] != sep);
        assert((a + b).drop_last() =~= a + b0);
        assert((a + b).last() == b.last());
        let p = split(a, sep);
        assert((p.last() + b0).push(b.last()) =~= p.last() + b);
        assert(p.update(p.len() - 1, p.last() + b0).update(p.len() - 1, (p.last() + b0).push(b.last()))
            =~= p.update(p.len() - 1, p.last() + b));
    }
}

/// Splitting text joined with a separator that no piece contains gives the
/// pieces back.
pub proof fn lemma_split_join(parts: Seq<Seq<char>>, sep: char)
    requires
        parts.len() >= 1,
        forall|i: int| 0 <= i < parts.len() ==> !has_char(#[trigger] parts[i], sep),
    ensures
        split(join(parts, sep), sep) == parts,
    decreases parts.len(),
{
    if parts.len() == 1 {
        lemma_split_append(Seq::<char>::empty(), parts[0], sep);
        assert(Seq::<char>::empty() + parts[0] =~= parts[0]);
        assert(seq![Seq::<char>::empty()].update(0, Seq::<char>::empty() + parts[0]) =~= parts);
    } else {
        let init = parts.drop_last();
        assert forall|i: int| 0 <= i < init.len() implies !has_char(#[trigger] init[i], sep) by {
            assert(init[i] == parts[i]);
        }
        lemma_split_join(init, sep);
        let j = join(init, sep);
        assert(j.push(sep).drop_last() =~= j);
        assert(split(j.push(sep), sep) == init.push(Seq::<char>::empty()));
        assert(!has_char(parts[parts.len() - 1], sep));
        lemma_split_append(j.push(sep), parts.last(), sep);
        assert(init.push(Seq::<char>::empty()).update(init.len() as int, Seq::<char>::empty() + parts.last())
            =~= parts);
    }
}

/// A leading separator is joining with an empty first piece.
pub proof fn lemma_join_prepend_empty(parts: Seq<Seq<char>>, sep: char)
    requires
        parts.len() >= 1,
    ensures
        seq![sep] + join(parts, sep) == join(seq![Seq::<char>::empty()] + parts, sep),
    decreases parts.len(),
{
    let q = seq![Seq::<char>::empty()] + parts;
    if parts.len() == 1 {
        assert(q.drop_last() =~= seq![Seq::<char>::empty()]);
        assert(join(q.drop_last(), sep) == Seq::<char>::empty());
        assert(q.last() == parts[0]);
        assert(join(q, sep) == join(q.drop_last(), sep).push(sep) + q.last());
        assert(seq![sep] + parts[0] =~= Seq::<char>::empty().push(sep) + parts[0]);
    } else {
        lemma_join_prepend_empty(parts.drop_last(), sep);
        assert(q.drop_last() =~= seq![Seq::<char>::empty()] + parts.drop_last());
        assert(q.last() == parts.last());
        assert(join(q, sep) == join(q.drop_last(), sep).push(sep) + q.last());
        assert(seq![sep] + (join(parts.drop_last(), sep).push(sep) + parts.last()) =~= (seq![sep]
            + join(parts.drop_last(), sep)).push(sep) + parts.last());
    }
}

/// The last character of joined text.
pub proof fn lemma_join_last(parts: Seq<Seq<char>>, sep: char)
    requires
        parts.len() >= 1,
    ensures
        parts.last().len() > 0 ==> join(parts, sep).len() > 0 && join(parts, sep).last()
            == parts.last().last(),
        parts.last().len() == 0 && parts.len() >= 2 ==> join(parts, sep).len() > 0 && join(
            parts,
            sep,
        ).last() == sep,
        parts.last().len() == 0 && parts.len() == 1 ==> join(parts, sep).len() == 0,
{
    if parts.len() >= 2 {
        let j = join(parts.drop_last(), sep).push(sep);
        if parts.last().len() == 0 {
            assert(j + parts.last() =~= j);
        }
    }
}

pub proof fn lemma_trim_end_len(s: Seq<char>)
    ensures
        trim_end(s).len() <= s.len(),
    decreases s.len(),
{
    if s.len() > 0 && is_white(s.last()) {
        lemma_trim_end_len(s.drop_last());
    }
}

/// Text that trimming leaves unchanged is empty or ends with a character
/// that is not white space.
pub proof fn lemma_trimmed_last(s: Seq<char>)
    requires
        trim_end(s) == s,
    ensures
        s.len() == 0 || !is_white(s.last()),
{
    if s.len() > 0 && is_white(s.last()) {
        lemma_trim_end_len(s.drop_last());
    }
}

/// A trailing space is trimmed away.
pub proof fn lemma_trim_end_space(s: Seq<char>)
    ensures
        trim_end(s.push(' ')) == trim_end(s),
{
    assert(s.push(' ').drop_last() =~= s);
}

/// Trimming treats the ASCII white space characters (tab, line feed,
/// vertical tab, form feed, carriage return, space) and the other Unicode
/// white space characters as white space, and no letter, digit or
/// separator: a line ending in a carriage return, as lines of files with
/// CRLF line ends do, trims to the same text as without it.
pub proof fn law_white_space(s: Seq<char>, c: char)
    ensures
        (c == '\t' || c == '\n' || c == '\u{b}' || c == '\u{c}' || c == '\r' || c == ' '
            || c == '\u{85}' || c == '\u{a0}' || c == '\u{1680}' || ('\u{2000}' <= c
            && c <= '\u{200a}') || c == '\u{2028}' || c == '\u{2029}' || c == '\u{202f}'
            || c == '\u{205f}' || c == '\u{3000}') ==> is_white(c),
        (('a' <= c && c <= 'z') || ('A' <= c && c <= 'Z') || ('0' <= c && c <= '9') || c == THORN)
            ==> !is_white(c),
        trim_end(s.push('\r')) == trim_end(s),
        trim(s.push('\r')) == trim(s),
        trim_end(s.push(' ').push('\r')) == trim_end(s),
{
    assert(s.push('\r').drop_last() =~= s);
    assert(s.push(' ').push('\r').drop_last() =~= s.push(' '));
    assert(s.push(' ').drop_last() =~= s);
    assert(trim_end(s.push(' ').push('\r')) == trim_end(s.push(' ')));
    assert(trim_end(s.push(' ')) == trim_end(s));
}

/// Stripping a final character that was appended once gives the text back.
pub proof fn lemma_strip_end_once(s: Seq<char>, c: char)
    requires
        s.len() == 0 || s.last() != c,
    ensures
        strip_end(s.push(c), c) == s,
{
    assert(s.push(c).drop_last() =~= s);
    assert(strip_end(s, c) == s);
}

/// Exec form of [`is_white`].
pub fn is_white_char(c: char) -> (b: bool)
    ensures
        b == is_white(c),
{
    ('\u{9}' <= c && c <= '\u{d}') || c == ' ' || c == '\u{85}' || c == '\u{a0}' || c == '\u{1680}'
        || ('\u{2000}' <= c && c <= '\u{200a}') || c == '\u{2028}' || c == '\u{2029}' || c
        == '\u{202f}' || c == '\u{205f}' || c == '\u{3000}'
}

/// The characters of `s`, in order.
pub fn chars_of(s: &str) -> (v: Vec<char>)
    ensures
        v@ == s@,
{
    let mut v: Vec<char> = Vec::new();
    for c in it: s.chars()
        invariant
            v@ == it.seq().take(it.index() as int),
            it.seq() == s@,
    {
        v.push(c);
    }
    v
}

/// Appends `c` to `s` by calling `String::push`, which vstd leaves without a
/// specification; trusted to leave `s` holding its former characters
/// followed by `c`, as the standard library documents.
#[verifier::external_body]
pub(crate) fn push_char(s: &mut String, c: char)
    ensures
        final(s)@ == old(s)@.push(c),
{
    s.push(c);
}

/// A string holding `v[lo..hi]`.
pub fn string_from_range(v: &Vec<char>, lo: usize, hi: usize) -> (s: String)
    requires
        lo <= hi <= v@.len(),
    ensures
        s@ == v@.subrange(lo as int, hi as int),
{
    let mut s = String::new();
    let mut i = lo;
    while i < hi
        invariant
            lo <= i <= hi <= v@.len(),
            s@ == v@.subrange(lo as int, i as int),
        decreases hi - i,
    {
        push_char(&mut s, v[i]);
        proof {
            assert(v@.subrange(lo as int, i + 1) == v@.subrange(lo as int, i as int).push(v@[i as int]));
        }
        i = i + 1;
    }
    s
}

/// A string holding the characters of `v`.
pub fn string_from_chars(v: &Vec<char>) -> (s: String)
    ensures
        s@ == v@,
{
    let s = string_from_range(v, 0, v.len());
    proof {
        assert(v@.subrange(0, v@.len() as int) == v@);
    }
    s
}

/// The end of `v[lo..hi]` once trailing white space is removed.
pub fn trim_end_range(v: &Vec<char>, lo: usize, hi: usize) -> (r: usize)
    requires
        lo <= hi <= v@.len(),
    ensures
        lo <= r <= hi,
        v@.subrange(lo as int, r as int) == trim_end(v@.subrange(lo as int, hi as int)),
{
    let mut h = hi;
    while h > lo && is_white_char(v[h - 1])
        invariant
            lo <= h <= hi <= v@.len(),
            trim_end(v@.subrange(lo as int, h as int)) == trim_end(v@.subrange(lo as int, hi as int)),
        decreases h,
    {
        proof {
            assert(v@.subrange(lo as int, h as int).drop_last() == v@.subrange(lo as int, h - 1));
        }
        h = h - 1;
    }
    h
}

/// The start of `v[lo..hi]` once leading white space is removed.
pub fn trim_start_range(v: &Vec<char>, lo: usize, hi: usize) -> (r: usize)
    requires
        lo <= hi <= v@.len(),
    ensures
        lo <= r <= hi,
        v@.subrange(r as int, hi as int) == trim_start(v@.subrange(lo as int, hi as int)),
{
    let mut l = lo;
    while l < hi && is_white_char(v[l])
        invariant
            lo <= l <= hi <= v@.len(),
            trim_start(v@.subrange(l as int, hi as int)) == trim_start(v@.subrange(lo as int, hi as int)),
        decreases hi - l,
    {
        proof {
            assert(v@.subrange(l as int, hi as int).drop_first() == v@.subrange(l + 1, hi as int));
        }
        l = l + 1;
    }
    proof {
        assert(trim_start(v@.subrange(l as int, hi as int)) == v@.subrange(l as int, hi as int));
    }
    l
}

/// A vector of characters deep-views as its plain view.
pub proof fn lemma_char_vec_deep_view(v: Vec<char>)
    ensures
        v.deep_view() == v@,
{
    assert(v.deep_view() =~= v@);
}

/// The pieces of `v` between occurrences of `sep`.
pub fn split_chars(v: &Vec<char>, sep: char) -> (pieces: Vec<Vec<char>>)
    ensures
        pieces.deep_view() == split(v@, sep),
{
    let mut pieces: Vec<Vec<char>> = Vec::new();
    let mut cur: Vec<char> = Vec::new();
    let mut i: usize = 0;
    proof {
        assert(v@.take(0) == Seq::<char>::empty());
        assert(pieces.deep_view().push(cur@) == split(v@.take(0), sep));
    }
    while i < v.len()
        invariant
            i <= v@.len(),
            pieces.deep_view().push(cur@) == split(v@.take(i as int), sep),
        decreases v@.len() - i,
    {
        let c = v[i];
        let ghost before = pieces.deep_view().push(cur@);
        let ghost old_pieces = pieces.deep_view();
        proof {
            assert(v@.take(i + 1).drop_last() == v@.take(i as int));
            assert(v@.take(i + 1).last() == c);
        }
        if c == sep {
            proof {
                lemma_char_vec_deep_view(cur);
            }
            pieces.push(cur);
            cur = Vec::new();
            proof {
                assert(pieces.deep_view() =~= old_pieces.push(before.last()));
                assert(pieces.deep_view().push(cur@) =~= before.push(Seq::<char>::empty()));
            }
        } else {
            cur.push(c);
            proof {
                assert(pieces.deep_view().push(cur@) =~= before.update(
                    before.len() - 1,
                    before.last().push(c),
                ));
            }
        }
        i = i + 1;
    }
    let ghost before = pieces.deep_view().push(cur@);
    let ghost old_pieces = pieces.deep_view();
    proof {
        assert(v@.take(v@.len() as int) == v@);
        lemma_char_vec_deep_view(cur);
    }
    pieces.push(cur);
    proof {
        assert(pieces.deep_view() =~= before);
    }
    pieces
}

} // verus!
