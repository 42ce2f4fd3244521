//! The parameters of a row: an association list from names to values in
//! which each name occurs at most once and the first insertion fixes the
//! position of a name.

use vstd::prelude::*;

verus! {

/// A list of (name, value) pairs.
pub type Assoc = Seq<(Seq<char>, Seq<char>)>;

/// The value of the first pair named `k`, if any.
pub open spec fn lookup(s: Assoc, k: Seq<char>) -> Option<Seq<char>>
    decreases s.len(),
{
    if s.len() == 0 {
        None
    } else if s[0].0 == k {
        Some(s[0].1)
    } else {
        lookup(s.drop_first(), k)
    }
}

/// Whether some pair of `s` is named `k`.
pub open spec fn has_key(s: Assoc, k: Seq<char>) -> bool {
    exists|i: int| 0 <= i < s.len() && s[i].0 == k
}

/// `s` with the value of the first pair named `k` replaced by `v`, or with
/// `(k, v)` appended where no pair is named `k`.
pub open spec fn insert(s: Assoc, k: Seq<char>, v: Seq<char>) -> Assoc
    decreases s.len(),
{
    if s.len() == 0 {
        seq![(k, v)]
    } else if s[0].0 == k {
        s.update(0, (k, v))
    } else {
        seq![s[0]] + insert(s.drop_first(), k, v)
    }
}

/// No name occurs twice in `s`.
pub open spec fn keys_unique(s: Assoc) -> bool {
    forall|i: int, j: int| 0 <= i < j < s.len() ==> s[i].0 != s[j].0
}

pub proof fn lemma_lookup_at(s: Assoc, k: Seq<char>, i: int)
    requires
        0 <= i < s.len(),
        s[i].0 == k,
        forall|j: int| 0 <= j < i ==> s[j].0 != k,
    ensures
        lookup(s, k) == Some(s[i].1),
    decreases i,
{
    if i > 0 {
        lemma_lookup_at(s.drop_first(), k, i - 1);
    }
}

pub proof fn lemma_lookup_absent(s: Assoc, k: Seq<char>)
    requires
        forall|j: int| 0 <= j < s.len() ==> s[j].0 != k,
    ensures
        lookup(s, k) == None::<Seq<char>>,
    decreases s.len(),
{
    if s.len() > 0 {
        lemma_lookup_absent(s.drop_first(), k);
    }
}

/// `lookup` finds a value exactly for the names that occur.
pub proof fn lemma_lookup_some_iff(s: Assoc, k: Seq<char>)
    ensures
        lookup(s, k) is Some <==> has_key(s, k),
    decreases s.len(),
{
    if s.len() > 0 {
        lemma_lookup_some_iff(s.drop_first(), k);
        if has_key(s.drop_first(), k) {
            let i = choose|i: int| 0 <= i < s.len() - 1 && s.drop_first()[i].0 == k;
            assert(s[i + 1].0 == k);
        }
        if has_key(s, k) && s[0].0 != k {
            let i = choose|i: int| 0 <= i < s.len() && s[i].0 == k;
            assert(s.drop_first()[i - 1].0 == k);
        }
    }
}

pub proof fn lemma_insert_at(s: Assoc, k: Seq<char>, v: Seq<char>, i: int)
    requires
        0 <= i < s.len(),
        s[i].0 == k,
        forall|j: int| 0 <= j < i ==> s[j].0 != k,
    ensures
        insert(s, k, v) == s.update(i, (k, v)),
    decreases i,
{
    if i > 0 {
        lemma_insert_at(s.drop_first(), k, v, i - 1);
        assert(seq![s[0]] + s.drop_first().update(i - 1, (k, v)) =~= s.update(i, (k, v)));
    }
}

pub proof fn lemma_insert_absent(s: Assoc, k: Seq<char>, v: Seq<char>)
    requires
        forall|j: int| 0 <= j < s.len() ==> s[j].0 != k,
    ensures
        insert(s, k, v) == s.push((k, v)),
    decreases s.len(),
{
    if s.len() > 0 {
        lemma_insert_absent(s.drop_first(), k, v);
        assert(seq![s[0]] + s.drop_first().push((k, v)) =~= s.push((k, v)));
    }
}

/// `base` with each pair of `extra` inserted in turn.
pub open spec fn insert_all(base: Assoc, extra: Assoc) -> Assoc
    decreases extra.len(),
{
    if extra.len() == 0 {
        base
    } else {
        insert(insert_all(base, extra.drop_last()), extra.last().0, extra.last().1)
    }
}

/// The value of the last pair named `k`, if any.
pub open spec fn lookup_last(s: Assoc, k: Seq<char>) -> Option<Seq<char>>
    decreases s.len(),
{
    if s.len() == 0 {
        None
    } else if s.last().0 == k {
        Some(s.last().1)
    } else {
        lookup_last(s.drop_last(), k)
    }
}

/// Reading a name after an insertion gives the inserted value for that name
/// and the earlier value for every other name.
pub proof fn lemma_lookup_insert(s: Assoc, k: Seq<char>, v: Seq<char>, x: Seq<char>)
    ensures
        lookup(insert(s, k, v), x) == (if x == k {
            Some(v)
        } else {
            lookup(s, x)
        }),
    decreases s.len(),
{
    if s.len() == 0 {
        let r = seq![(k, v)];
        assert(r.drop_first() =~= Seq::<(Seq<char>, Seq<char>)>::empty());
        assert(r[0] == (k, v));
        assert(lookup(r.drop_first(), x) == None::<Seq<char>>);
        assert(lookup(s, x) == None::<Seq<char>>);
    } else if s[0].0 == k {
        let r = s.update(0, (k, v));
        assert(r.drop_first() =~= s.drop_first());
        assert(r[0] == (k, v));
        if x != k {
            assert(lookup(r, x) == lookup(r.drop_first(), x));
            assert(lookup(s, x) == lookup(s.drop_first(), x));
        }
    } else {
        lemma_lookup_insert(s.drop_first(), k, v, x);
        assert((seq![s[0]] + insert(s.drop_first(), k, v)).drop_first() =~= insert(s.drop_first(), k, v));
        assert((seq![s[0]] + insert(s.drop_first(), k, v))[0] == s[0]);
    }
}

/// Inserting keeps each name at most once.
pub proof fn lemma_insert_keeps_unique(s: Assoc, k: Seq<char>, v: Seq<char>)
    requires
        keys_unique(s),
    ensures
        keys_unique(insert(s, k, v)),
{
    if has_key(s, k) {
        let i = choose|i: int| 0 <= i < s.len() && s[i].0 == k;
        lemma_insert_at(s, k, v, i);
    } else {
        lemma_insert_absent(s, k, v);
    }
}

pub proof fn lemma_lookup_insert_all(b: Assoc, extra: Assoc, x: Seq<char>)
    ensures
        lookup(insert_all(b, extra), x) == match lookup_last(extra, x) {
            Some(v) => Some(v),
            None => lookup(b, x),
        },
    decreases extra.len(),
{
    if extra.len() > 0 {
        lemma_lookup_insert_all(b, extra.drop_last(), x);
        lemma_lookup_insert(insert_all(b, extra.drop_last()), extra.last().0, extra.last().1, x);
    }
}

pub proof fn lemma_insert_all_prepend(b: Assoc, e: (Seq<char>, Seq<char>), extra: Assoc)
    ensures
        insert_all(insert(b, e.0, e.1), extra) == insert_all(b, seq![e] + extra),
    decreases extra.len(),
{
    let full = seq![e] + extra;
    if extra.len() == 0 {
        assert(full.drop_last() =~= Seq::<(Seq<char>, Seq<char>)>::empty());
        assert(full.last() == e);
        assert(insert_all(b, full) == insert(insert_all(b, full.drop_last()), e.0, e.1));
    } else {
        lemma_insert_all_prepend(b, e, extra.drop_last());
        assert(full.drop_last() =~= seq![e] + extra.drop_last());
        assert(full.last() == extra.last());
    }
}

/// Inserting pairs whose names are new and distinct appends them.
pub proof fn lemma_insert_all_fresh(b: Assoc, extra: Assoc)
    requires
        keys_unique(b + extra),
    ensures
        insert_all(b, extra) == b + extra,
    decreases extra.len(),
{
    if extra.len() > 0 {
        let init = extra.drop_last();
        assert(b + init =~= (b + extra).drop_last());
        lemma_insert_all_fresh(b, init);
        let e = extra.last();
        assert forall|j: int| 0 <= j < (b + init).len() implies (b + init)[j].0 != e.0 by {
            assert((b + init)[j] == (b + extra)[j]);
            assert((b + extra)[(b + extra).len() - 1] == e);
        }
        lemma_insert_absent(b + init, e.0, e.1);
        assert((b + init).push(e) =~= b + extra);
    }
}

pub proof fn lemma_lookup_last_at(s: Assoc, k: Seq<char>, i: int)
    requires
        0 <= i < s.len(),
        s[i].0 == k,
        forall|j: int| i < j < s.len() ==> s[j].0 != k,
    ensures
        lookup_last(s, k) == Some(s[i].1),
    decreases s.len(),
{
    if i < s.len() - 1 {
        lemma_lookup_last_at(s.drop_last(), k, i);
    }
}

pub proof fn lemma_lookup_last_absent(s: Assoc, k: Seq<char>)
    requires
        forall|j: int| 0 <= j < s.len() ==> s[j].0 != k,
    ensures
        lookup_last(s, k) == None::<Seq<char>>,
    decreases s.len(),
{
    if s.len() > 0 {
        lemma_lookup_last_absent(s.drop_last(), k);
    }
}

/// Where names are unique, the first and the last pair named `k` agree.
pub proof fn lemma_lookup_last_unique(s: Assoc, k: Seq<char>)
    requires
        keys_unique(s),
    ensures
        lookup_last(s, k) == lookup(s, k),
{
    if has_key(s, k) {
        let i = choose|i: int| 0 <= i < s.len() && s[i].0 == k;
        lemma_lookup_at(s, k, i);
        lemma_lookup_last_at(s, k, i);
    } else {
        lemma_lookup_absent(s, k);
        lemma_lookup_last_absent(s, k);
    }
}

/// Inserting pairs keeps each name at most once.
pub proof fn lemma_insert_all_unique(b: Assoc, extra: Assoc)
    requires
        keys_unique(b),
    ensures
        keys_unique(insert_all(b, extra)),
    decreases extra.len(),
{
    if extra.len() > 0 {
        lemma_insert_all_unique(b, extra.drop_last());
        lemma_insert_keeps_unique(insert_all(b, extra.drop_last()), extra.last().0, extra.last().1);
    }
}

/// A copy of a (name, value) pair.
pub fn copy_pair(p: &(String, String)) -> (r: (String, String))
    ensures
        r.0@ == p.0@,
        r.1@ == p.1@,
{
    (p.0.clone(), p.1.clone())
}

/// A copy of a list of (name, value) pairs.
pub fn copy_pairs(v: &Vec<(String, String)>) -> (r: Vec<(String, String)>)
    ensures
        r.deep_view() == v.deep_view(),
{
    let mut r: Vec<(String, String)> = Vec::new();
    let mut i: usize = 0;
    while i < v.len()
        invariant
            i <= v@.len(),
            r.deep_view() == v.deep_view().take(i as int),
        decreases v@.len() - i,
    {
        let ghost before = r.deep_view();
        let e = copy_pair(&v[i]);
        let ghost ev = (e.0@, e.1@);
        r.push(e);
        proof {
            assert(ev == v.deep_view()[i as int]);
            assert(r.deep_view() =~= before.push(ev));
            assert(v.deep_view().take(i + 1) =~= v.deep_view().take(i as int).push(ev));
        }
        i = i + 1;
    }
    proof {
        assert(v.deep_view().take(v@.len() as int) =~= v.deep_view());
    }
    r
}

/// The parameters of a row, by name, in the order in which each name was
/// first inserted; no name occurs twice.
#[derive(Debug)]
pub struct ParamMap {
    entries: Vec<(String, String)>,
}

impl View for ParamMap {
    type V = Assoc;

    closed spec fn view(&self) -> Assoc {
        self.entries.deep_view()
    }
}

impl ParamMap {
    /// No parameter name occurs twice; every map holds this, and callers
    /// learn it of a map by `use_type_invariant`.
    #[verifier::type_invariant]
    pub open spec fn names_distinct(self) -> bool {
        keys_unique(self@)
    }
}

impl Clone for ParamMap {
    fn clone(&self) -> (r: Self)
        ensures
            r@ == self@,
    {
        proof {
            use_type_invariant(self);
        }
        ParamMap { entries: copy_pairs(&self.entries) }
    }
}

impl ParamMap {
    /// An empty parameter map.
    pub fn new() -> (r: Self)
        ensures
            r@ == Seq::<(Seq<char>, Seq<char>)>::empty(),
            keys_unique(r@),
    {
        let r = ParamMap { entries: Vec::new() };
        assert(r@ =~= Seq::<(Seq<char>, Seq<char>)>::empty());
        r
    }

    /// The number of parameters.
    pub fn len(&self) -> (n: usize)
        ensures
            n == self@.len(),
    {
        self.entries.len()
    }

    /// Whether there are no parameters.
    pub fn is_empty(&self) -> (b: bool)
        ensures
            b == (self@.len() == 0),
    {
        self.entries.len() == 0
    }

    /// The (name, value) pairs in order.
    pub fn entries(&self) -> (r: &Vec<(String, String)>)
        ensures
            r.deep_view() == self@,
    {
        &self.entries
    }

    /// The position of the parameter named `key`, if there is one.
    fn position(&self, key: &String) -> (r: Option<usize>)
        ensures
            match r {
                Some(i) => i < self@.len() && self@[i as int].0 == key@ && forall|j: int|
                    0 <= j < i ==> self@[j].0 != key@,
                None => forall|j: int| 0 <= j < self@.len() ==> self@[j].0 != key@,
            },
    {
        let mut i: usize = 0;
        while i < self.entries.len()
            invariant
                i <= self@.len(),
                self@.len() == self.entries@.len(),
                forall|j: int| 0 <= j < i ==> self@[j].0 != key@,
            decreases self@.len() - i,
        {
            if self.entries[i].0 == *key {
                return Some(i);
            }
            i = i + 1;
        }
        None
    }

    /// The value of the parameter named `key`, if there is one.
    pub fn get(&self, key: &str) -> (r: Option<&String>)
        ensures
            match r {
                Some(v) => lookup(self@, key@) == Some(v@),
                None => lookup(self@, key@) == None::<Seq<char>>,
            },
    {
        let k = key.to_owned();
        match self.position(&k) {
            Some(i) => {
                proof {
                    lemma_lookup_at(self@, key@, i as int);
                }
                Some(&self.entries[i].1)
            },
            None => {
                proof {
                    lemma_lookup_absent(self@, key@);
                }
                None
            },
        }
    }

    /// Whether there is a parameter named `key`.
    pub fn contains_key(&self, key: &str) -> (b: bool)
        ensures
            b == lookup(self@, key@) is Some,
    {
        self.get(key).is_some()
    }

    /// Sets the parameter `key` to `value`, keeping its position if it is
    /// already present and appending it otherwise.
    pub fn insert(&mut self, key: String, value: String)
        ensures
            final(self)@ == insert(old(self)@, key@, value@),
            keys_unique(final(self)@),
    {
        proof {
            use_type_invariant(&*self);
            lemma_insert_keeps_unique(self@, key@, value@);
        }
        let ghost before = self@;
        let pos = self.position(&key);
        let mut entries: Vec<(String, String)> = Vec::new();
        std::mem::swap(&mut entries, &mut self.entries);
        proof {
            assert(entries.deep_view() == before);
        }
        match pos {
            Some(i) => {
                proof {
                    lemma_insert_at(before, key@, value@, i as int);
                }
                entries.set(i, (key, value));
                proof {
                    assert(entries.deep_view() =~= before.update(i as int, (key@, value@)));
                }
            },
            None => {
                proof {
                    lemma_insert_absent(before, key@, value@);
                }
                entries.push((key, value));
                proof {
                    assert(entries.deep_view() =~= before.push((key@, value@)));
                }
            },
        }
        self.entries = entries;
    }
}

} // verus!
