//! The YAML document value: scalars, sequences, insertion-ordered mappings, aliases and
//! tagged values.
use vstd::prelude::*;
use vstd::std_specs::cmp::PartialEqSpecImpl;
use crate::linked_hash_map::{LinkedHashMap, MapKey};

verus! {

/// A YAML node.
#[derive(Debug)]
pub enum Yaml {
    /// A floating-point number, kept as text
    Real(String),
    Integer(i64),
    String(String),
    Boolean(bool),
    Array(Vec<Yaml>),
    Hash(LinkedHashMap<Yaml, Yaml>),
    Alias(usize),
    Null,
    /// A value that could not be built
    BadValue,
    /// A value with a tag that is not one of the core schema's
    Tagged(String, Box<Yaml>),
}

/// Equality of YAML values: texts by their characters, sequences and mappings entry by
/// entry, in order.
pub open spec fn yaml_eq(a: Yaml, b: Yaml) -> bool
    decreases a
    via yaml_eq_decreases
{
    match (a, b) {
        (Yaml::Real(x), Yaml::Real(y)) => x@ == y@,
        (Yaml::Integer(x), Yaml::Integer(y)) => x == y,
        (Yaml::String(x), Yaml::String(y)) => x@ == y@,
        (Yaml::Boolean(x), Yaml::Boolean(y)) => x == y,
        (Yaml::Array(xs), Yaml::Array(ys)) => seq_eq(xs@, ys@),
        (Yaml::Hash(m1), Yaml::Hash(m2)) => pairs_eq(m1.entries(), m2.entries()),
        (Yaml::Alias(x), Yaml::Alias(y)) => x == y,
        (Yaml::Null, Yaml::Null) => true,
        (Yaml::BadValue, Yaml::BadValue) => true,
        (Yaml::Tagged(t1, b1), Yaml::Tagged(t2, b2)) => t1@ == t2@ && yaml_eq(*b1, *b2),
        _ => false,
    }
}

/// Sequences of YAML values, equal item by item.
pub open spec fn seq_eq(xs: Seq<Yaml>, ys: Seq<Yaml>) -> bool
    decreases xs,
{
    if xs.len() == 0 {
        ys.len() == 0
    } else {
        ys.len() == xs.len() && yaml_eq(xs.last(), ys.last()) && seq_eq(xs.drop_last(), ys.drop_last())
    }
}

/// Entry sequences of mappings, equal key by key and value by value.
pub open spec fn pairs_eq(ps: Seq<(Yaml, Yaml)>, qs: Seq<(Yaml, Yaml)>) -> bool
    decreases ps,
{
    if ps.len() == 0 {
        qs.len() == 0
    } else {
        qs.len() == ps.len() && yaml_eq(ps.last().0, qs.last().0) && yaml_eq(ps.last().1, qs.last().1)
            && pairs_eq(ps.drop_last(), qs.drop_last())
    }
}

#[via_fn]
proof fn yaml_eq_decreases(a: Yaml, b: Yaml) {
    match a {
        Yaml::Array(xs) => {
            assert(decreases_to!(a => a->Array_0));
        },
        Yaml::Hash(m) => {
            assert(decreases_to!(a => a->Hash_0));
            crate::linked_hash_map::lemma_entries_seq_decreases(m);
        },
        _ => {},
    }
}

/// Sequence equality, item by item.
pub proof fn lemma_seq_eq(xs: Seq<Yaml>, ys: Seq<Yaml>)
    ensures
        seq_eq(xs, ys) == (xs.len() == ys.len() && forall|i: int| 0 <= i < xs.len() ==> #[trigger] yaml_eq(xs[i], ys[i])),
    decreases xs.len(),
{
    if xs.len() > 0 && ys.len() == xs.len() {
        lemma_seq_eq(xs.drop_last(), ys.drop_last());
        if seq_eq(xs, ys) {
            assert forall|i: int| 0 <= i < xs.len() implies #[trigger] yaml_eq(xs[i], ys[i]) by {
                if i < xs.len() - 1 {
                    assert(xs.drop_last()[i] == xs[i] && ys.drop_last()[i] == ys[i]);
                }
            }
        }
        if forall|i: int| 0 <= i < xs.len() ==> #[trigger] yaml_eq(xs[i], ys[i]) {
            assert(yaml_eq(xs[xs.len() - 1], ys[xs.len() - 1]));
            assert forall|i: int| 0 <= i < xs.drop_last().len() implies #[trigger] yaml_eq(xs.drop_last()[i], ys.drop_last()[i]) by {
                assert(yaml_eq(xs[i], ys[i]));
            }
        }
    }
}

/// Two entries are equal when their keys and their values are.
pub open spec fn entry_eq(p: (Yaml, Yaml), q: (Yaml, Yaml)) -> bool {
    yaml_eq(p.0, q.0) && yaml_eq(p.1, q.1)
}

/// Entry sequence equality, entry by entry.
pub proof fn lemma_pairs_eq(ps: Seq<(Yaml, Yaml)>, qs: Seq<(Yaml, Yaml)>)
    ensures
        pairs_eq(ps, qs) == (ps.len() == qs.len() && forall|i: int| 0 <= i < ps.len() ==> #[trigger] entry_eq(ps[i], qs[i])),
    decreases ps.len(),
{
    if ps.len() > 0 && qs.len() == ps.len() {
        let dp = ps.drop_last();
        let dq = qs.drop_last();
        lemma_pairs_eq(dp, dq);
        assert(ps.last() == ps[ps.len() - 1] && qs.last() == qs[ps.len() - 1]);
        if pairs_eq(ps, qs) {
            assert forall|i: int| 0 <= i < ps.len() implies #[trigger] entry_eq(ps[i], qs[i]) by {
                if i < ps.len() - 1 {
                    assert(dp[i] == ps[i] && dq[i] == qs[i]);
                    assert(entry_eq(dp[i], dq[i]));
                }
            }
        }
        if forall|i: int| 0 <= i < ps.len() ==> #[trigger] entry_eq(ps[i], qs[i]) {
            assert(entry_eq(ps[ps.len() - 1], qs[ps.len() - 1]));
            assert forall|i: int| 0 <= i < dp.len() implies #[trigger] entry_eq(dp[i], dq[i]) by {
                assert(dp[i] == ps[i] && dq[i] == qs[i]);
                assert(entry_eq(ps[i], qs[i]));
            }
        }
    }
}

/// The index of the first entry whose key equals `k` as YAML values, if any.
pub open spec fn yaml_find(s: Seq<(Yaml, Yaml)>, k: Yaml) -> Option<int> {
    if exists|i: int| 0 <= i < s.len() && yaml_eq((#[trigger] s[i]).0, k) {
        Some(choose|i: int| 0 <= i < s.len() && yaml_eq((#[trigger] s[i]).0, k)
            && forall|j: int| 0 <= j < i ==> !yaml_eq((#[trigger] s[j]).0, k))
    } else {
        None
    }
}

/// Mapping entries after inserting `k` with `v`: an entry with an equal key gets the new
/// value in place, otherwise the pair is appended.
pub open spec fn yaml_insert(s: Seq<(Yaml, Yaml)>, k: Yaml, v: Yaml) -> Seq<(Yaml, Yaml)> {
    match yaml_find(s, k) {
        Some(i) => s.update(i, (s[i].0, v)),
        None => s.push((k, v)),
    }
}

impl PartialEq for Yaml {
    fn eq(&self, other: &Self) -> (r: bool) {
        yaml_equal(self, other)
    }
}

impl Eq for Yaml {}

impl Clone for Yaml {
    fn clone(&self) -> (r: Self)
        ensures
            yaml_eq(r, *self),
    {
        deep_copy(self)
    }
}

/// A copy of a YAML value, equal to it.
pub fn deep_copy(y: &Yaml) -> (r: Yaml)
    ensures
        yaml_eq(r, *y),
    decreases *y,
{
    match y {
        Yaml::Real(x) => {
            Yaml::Real(x.clone())
        },
        Yaml::Integer(x) => Yaml::Integer(*x),
        Yaml::String(x) => Yaml::String(x.clone()),
        Yaml::Boolean(x) => Yaml::Boolean(*x),
        Yaml::Array(xs) => {
            let mut out: Vec<Yaml> = Vec::new();
            let mut i: usize = 0;
            while i < xs.len()
                invariant
                    *y == Yaml::Array(*xs),
                    i <= xs@.len(),
                    out@.len() == i,
                    forall|j: int| 0 <= j < i ==> #[trigger] yaml_eq(out@[j], xs@[j]),
                decreases xs@.len() - i,
            {
                proof {
                    assert(decreases_to!(*y => (*y)->Array_0));
                    assert((*y)->Array_0 == *xs);
                    assert(decreases_to!(*xs => xs@));
                    assert(decreases_to!(xs@ => xs@[i as int]));
                }
                out.push(deep_copy(&xs[i]));
                i = i + 1;
            }
            proof { lemma_seq_eq(out@, xs@); }
            assert(yaml_eq(Yaml::Array(out), Yaml::Array(*xs)));
            Yaml::Array(out)
        },
        Yaml::Hash(m) => {
            let es = m.iter();
            let mut out: Vec<(Yaml, Yaml)> = Vec::new();
            let mut i: usize = 0;
            while i < es.len()
                invariant
                    *y == Yaml::Hash(*m),
                    es@.len() == m.entries().len(),
                    forall|j: int| 0 <= j < es@.len() ==> (#[trigger] es@[j]).0 == &m.entries()[j].0 && es@[j].1 == &m.entries()[j].1,
                    i <= es@.len(),
                    out@.len() == i,
                    forall|j: int| 0 <= j < i ==> #[trigger] entry_eq(out@[j], m.entries()[j]),
                decreases es@.len() - i,
            {
                let (k, v) = es[i];
                proof { lemma_hash_entry_decreases(*y, *m, i as int); }
                let kc = deep_copy(k);
                let vc = deep_copy(v);
                assert(*k == m.entries()[i as int].0 && *v == m.entries()[i as int].1);
                out.push((kc, vc));
                assert(out@[i as int] == (kc, vc));
                assert(entry_eq(out@[i as int], m.entries()[i as int]));
                i = i + 1;
            }
            let r = LinkedHashMap::from_entries(out);
            proof { lemma_pairs_eq(r.entries(), m.entries()); }
            assert(yaml_eq(Yaml::Hash(r), Yaml::Hash(*m)));
            Yaml::Hash(r)
        },
        Yaml::Alias(x) => Yaml::Alias(*x),
        Yaml::Null => Yaml::Null,
        Yaml::BadValue => Yaml::BadValue,
        Yaml::Tagged(t, b) => Yaml::Tagged(t.clone(), Box::new(deep_copy(&**b))),
    }
}

impl Yaml {
    /// Whether this is the placeholder for a value that could not be built.
    pub fn is_badvalue(&self) -> (b: bool)
        ensures
            b == (*self is BadValue),
    {
        match self {
            Yaml::BadValue => true,
            _ => false,
        }
    }

    /// The text of a string.
    pub fn as_str(&self) -> (r: Option<&str>)
        ensures
            match *self {
                Yaml::String(x) => r matches Some(t) && t@ == x@,
                _ => r is None,
            },
    {
        match self {
            Yaml::String(x) => Some(x.as_str()),
            _ => None,
        }
    }

    /// The value of a boolean.
    pub fn as_bool(&self) -> (r: Option<bool>)
        ensures
            r == match *self { Yaml::Boolean(b) => Some(b), _ => None::<bool> },
    {
        match self {
            Yaml::Boolean(b) => Some(*b),
            _ => None,
        }
    }

    /// The value of an integer.
    pub fn as_i64(&self) -> (r: Option<i64>)
        ensures
            r == match *self { Yaml::Integer(i) => Some(i), _ => None::<i64> },
    {
        match self {
            Yaml::Integer(i) => Some(*i),
            _ => None,
        }
    }

    /// The items of a sequence.
    pub fn as_vec(&self) -> (r: Option<&Vec<Yaml>>)
        ensures
            match *self {
                Yaml::Array(v) => r == Some(&v),
                _ => r is None,
            },
    {
        match self {
            Yaml::Array(v) => Some(v),
            _ => None,
        }
    }

    /// The entries of a mapping.
    pub fn as_hash(&self) -> (r: Option<&LinkedHashMap<Yaml, Yaml>>)
        ensures
            match *self {
                Yaml::Hash(h) => r == Some(&h),
                _ => r is None,
            },
    {
        match self {
            Yaml::Hash(h) => Some(h),
            _ => None,
        }
    }

    /// Whether this is null.
    pub fn is_null(&self) -> (b: bool)
        ensures
            b == (*self is Null),
    {
        match self {
            Yaml::Null => true,
            _ => false,
        }
    }
}

impl PartialEqSpecImpl for Yaml {
    open spec fn obeys_eq_spec() -> bool {
        true
    }

    open spec fn eq_spec(&self, other: &Yaml) -> bool {
        yaml_eq(*self, *other)
    }
}

impl MapKey for Yaml {
    open spec fn key_eq_spec(&self, other: &Self) -> bool {
        yaml_eq(*self, *other)
    }

    fn key_eq(&self, other: &Self) -> (b: bool) {
        yaml_equal(self, other)
    }
}

/// Whether two YAML values are equal.
pub fn yaml_equal(a: &Yaml, b: &Yaml) -> (r: bool)
    ensures
        r == yaml_eq(*a, *b),
    decreases *a,
{
    match (a, b) {
        (Yaml::Real(x), Yaml::Real(y)) => x.eq(y),
        (Yaml::Integer(x), Yaml::Integer(y)) => *x == *y,
        (Yaml::String(x), Yaml::String(y)) => x.eq(y),
        (Yaml::Boolean(x), Yaml::Boolean(y)) => *x == *y,
        (Yaml::Array(xs), Yaml::Array(ys)) => {
            if xs.len() != ys.len() {
                proof { lemma_seq_eq(xs@, ys@); }
                assert(!yaml_eq(Yaml::Array(*xs), Yaml::Array(*ys)));
                return false;
            }
            let mut i: usize = 0;
            while i < xs.len()
                invariant
                    *a == Yaml::Array(*xs),
                    *b == Yaml::Array(*ys),
                    xs@.len() == ys@.len(),
                    i <= xs@.len(),
                    forall|j: int| 0 <= j < i ==> #[trigger] yaml_eq(xs@[j], ys@[j]),
                decreases xs@.len() - i,
            {
                proof {
                    assert(decreases_to!(*a => (*a)->Array_0));
                    assert((*a)->Array_0 == *xs);
                    assert(decreases_to!(*xs => xs@));
                    assert(decreases_to!(xs@ => xs@[i as int]));
                }
                if !yaml_equal(&xs[i], &ys[i]) {
                    assert(!yaml_eq(xs@[i as int], ys@[i as int]));
                    proof { lemma_seq_eq(xs@, ys@); }
                    assert(!yaml_eq(Yaml::Array(*xs), Yaml::Array(*ys)));
                    assert(!yaml_eq(*a, *b));
                    return false;
                }
                i = i + 1;
            }
            proof { lemma_seq_eq(xs@, ys@); }
            assert(yaml_eq(Yaml::Array(*xs), Yaml::Array(*ys)));
            true
        },
        (Yaml::Hash(m1), Yaml::Hash(m2)) => {
            let e1 = m1.iter();
            let e2 = m2.iter();
            if e1.len() != e2.len() {
                proof { lemma_pairs_eq(m1.entries(), m2.entries()); }
                assert(!yaml_eq(Yaml::Hash(*m1), Yaml::Hash(*m2)));
                return false;
            }
            let mut i: usize = 0;
            while i < e1.len()
                invariant
                    *a == Yaml::Hash(*m1),
                    *b == Yaml::Hash(*m2),
                    e1@.len() == m1.entries().len(),
                    e2@.len() == m2.entries().len(),
                    e1@.len() == e2@.len(),
                    forall|j: int| 0 <= j < e1@.len() ==> (#[trigger] e1@[j]).0 == &m1.entries()[j].0 && e1@[j].1 == &m1.entries()[j].1,
                    forall|j: int| 0 <= j < e2@.len() ==> (#[trigger] e2@[j]).0 == &m2.entries()[j].0 && e2@[j].1 == &m2.entries()[j].1,
                    i <= e1@.len(),
                    forall|j: int| 0 <= j < i ==> #[trigger] entry_eq(m1.entries()[j], m2.entries()[j]),
                decreases e1@.len() - i,
            {
                let (k1, v1) = e1[i];
                let (k2, v2) = e2[i];
                proof { lemma_hash_entry_decreases(*a, *m1, i as int); }
                assert(*k1 == m1.entries()[i as int].0 && *k2 == m2.entries()[i as int].0);
                assert(*v1 == m1.entries()[i as int].1 && *v2 == m2.entries()[i as int].1);
                if !yaml_equal(k1, k2) {
                    assert(!entry_eq(m1.entries()[i as int], m2.entries()[i as int]));
                    proof { lemma_pairs_eq(m1.entries(), m2.entries()); }
                    assert(!yaml_eq(Yaml::Hash(*m1), Yaml::Hash(*m2)));
                    return false;
                }
                if !yaml_equal(v1, v2) {
                    assert(!entry_eq(m1.entries()[i as int], m2.entries()[i as int]));
                    proof { lemma_pairs_eq(m1.entries(), m2.entries()); }
                    assert(!yaml_eq(Yaml::Hash(*m1), Yaml::Hash(*m2)));
                    return false;
                }
                assert(entry_eq(m1.entries()[i as int], m2.entries()[i as int]));
                i = i + 1;
            }
            proof { lemma_pairs_eq(m1.entries(), m2.entries()); }
            assert(yaml_eq(Yaml::Hash(*m1), Yaml::Hash(*m2)));
            true
        },
        (Yaml::Alias(x), Yaml::Alias(y)) => *x == *y,
        (Yaml::Null, Yaml::Null) => true,
        (Yaml::BadValue, Yaml::BadValue) => true,
        (Yaml::Tagged(t1, b1), Yaml::Tagged(t2, b2)) => {
            if !t1.eq(t2) {
                return false;
            }
            yaml_equal(&**b1, &**b2)
        },
        _ => false,
    }
}

/// Equality of YAML values is transitive.
pub proof fn lemma_yaml_eq_transitive(a: Yaml, b: Yaml, c: Yaml)
    requires
        yaml_eq(a, b),
        yaml_eq(b, c),
    ensures
        yaml_eq(a, c),
    decreases a,
{
    match (a, b, c) {
        (Yaml::Array(xs), Yaml::Array(ys), Yaml::Array(zs)) => {
            lemma_seq_eq(xs@, ys@);
            lemma_seq_eq(ys@, zs@);
            lemma_seq_eq(xs@, zs@);
            assert forall|i: int| 0 <= i < xs@.len() implies #[trigger] yaml_eq(xs@[i], zs@[i]) by {
                assert(yaml_eq(xs@[i], ys@[i]));
                assert(yaml_eq(ys@[i], zs@[i]));
                assert(decreases_to!(a => a->Array_0));
                assert(decreases_to!(xs => xs@));
                assert(decreases_to!(xs@ => xs@[i]));
                lemma_yaml_eq_transitive(xs@[i], ys@[i], zs@[i]);
            }
        },
        (Yaml::Hash(m1), Yaml::Hash(m2), Yaml::Hash(m3)) => {
            let (p, q, r) = (m1.entries(), m2.entries(), m3.entries());
            lemma_pairs_eq(p, q);
            lemma_pairs_eq(q, r);
            lemma_pairs_eq(p, r);
            assert forall|i: int| 0 <= i < p.len() implies #[trigger] entry_eq(p[i], r[i]) by {
                assert(entry_eq(p[i], q[i]));
                assert(entry_eq(q[i], r[i]));
                lemma_hash_entry_decreases(a, m1, i);
                lemma_yaml_eq_transitive(p[i].0, q[i].0, r[i].0);
                lemma_yaml_eq_transitive(p[i].1, q[i].1, r[i].1);
            }
        },
        (Yaml::Tagged(_, x), Yaml::Tagged(_, y), Yaml::Tagged(_, z)) => {
            lemma_yaml_eq_transitive(*x, *y, *z);
        },
        _ => {},
    }
}

/// The keys and values of a mapping come before the mapping in the order recursion
/// descends.
pub proof fn lemma_hash_entry_decreases(a: Yaml, m: LinkedHashMap<Yaml, Yaml>, i: int)
    requires
        a == Yaml::Hash(m),
        0 <= i < m.entries().len(),
    ensures
        decreases_to!(a => m.entries()[i].0),
        decreases_to!(a => m.entries()[i].1),
{
    assert(decreases_to!(a => a->Hash_0));
    crate::linked_hash_map::lemma_entries_decrease(m, i);
}

} // verus!
