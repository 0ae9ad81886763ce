//! A map from names to texts kept in name order, as the editors hold an
//! element's attributes and a part's pending texts.
use vstd::prelude::*;
use crate::text::{str_chars, to_string};

verus! {

/// Strict lexicographic order of texts by code point (the order of `String`).
pub open spec fn text_less(a: Seq<char>, b: Seq<char>) -> bool
    decreases a.len(),
{
    if a.len() == 0 {
        b.len() > 0
    } else if b.len() == 0 {
        false
    } else if a[0] != b[0] {
        (a[0] as u32) < (b[0] as u32)
    } else {
        text_less(a.drop_first(), b.drop_first())
    }
}

pub proof fn lemma_text_less_irreflexive(a: Seq<char>)
    ensures
        !text_less(a, a),
    decreases a.len(),
{
    if a.len() > 0 {
        lemma_text_less_irreflexive(a.drop_first());
    }
}

pub proof fn lemma_text_less_transitive(a: Seq<char>, b: Seq<char>, c: Seq<char>)
    requires
        text_less(a, b),
        text_less(b, c),
    ensures
        text_less(a, c),
    decreases a.len(),
{
    if a.len() > 0 && b.len() > 0 && c.len() > 0 && a[0] == b[0] && b[0] == c[0] {
        lemma_text_less_transitive(a.drop_first(), b.drop_first(), c.drop_first());
    }
}

pub proof fn lemma_text_less_total(a: Seq<char>, b: Seq<char>)
    ensures
        a == b || text_less(a, b) || text_less(b, a),
    decreases a.len(),
{
    if a.len() > 0 && b.len() > 0 && a[0] == b[0] {
        lemma_text_less_total(a.drop_first(), b.drop_first());
        if a.drop_first() == b.drop_first() {
            assert(a =~= seq![a[0]] + a.drop_first());
            assert(b =~= seq![b[0]] + b.drop_first());
        }
    } else if a.len() > 0 && b.len() > 0 {
        vstd::utf8::char_u32_cast(a[0], a[0] as u32);
        vstd::utf8::char_u32_cast(b[0], b[0] as u32);
    } else if a.len() == 0 && b.len() == 0 {
        assert(a =~= b);
    }
}

pub proof fn lemma_text_less_asymmetric(a: Seq<char>, b: Seq<char>)
    requires
        text_less(a, b),
    ensures
        !text_less(b, a),
{
    if text_less(b, a) {
        lemma_text_less_transitive(a, b, a);
        lemma_text_less_irreflexive(a);
    }
}

/// Whether `a` orders before `b`.
pub fn chars_less(a: &Vec<char>, b: &Vec<char>) -> (r: bool)
    ensures
        r == text_less(a@, b@),
{
    let mut i: usize = 0;
    proof {
        assert(a@.subrange(0, a@.len() as int) =~= a@);
        assert(b@.subrange(0, b@.len() as int) =~= b@);
    }
    while i < a.len() && i < b.len() && a[i] == b[i]
        invariant
            0 <= i <= a.len(),
            i <= b.len(),
            text_less(a@, b@) == text_less(a@.subrange(i as int, a@.len() as int), b@.subrange(i as int, b@.len() as int)),
        decreases a.len() - i,
    {
        proof {
            let sa = a@.subrange(i as int, a@.len() as int);
            let sb = b@.subrange(i as int, b@.len() as int);
            assert(sa.drop_first() =~= a@.subrange(i + 1, a@.len() as int));
            assert(sb.drop_first() =~= b@.subrange(i + 1, b@.len() as int));
        }
        i = i + 1;
    }
    if i == a.len() {
        i < b.len()
    } else if i == b.len() {
        false
    } else {
        (a[i] as u32) < (b[i] as u32)
    }
}

pub type Entries = Seq<(Seq<char>, Seq<char>)>;

/// Names strictly increasing: a map in name order.
pub open spec fn sorted_keys(s: Entries) -> bool {
    forall|i: int, j: int| 0 <= i < j < s.len() ==> text_less(#[trigger] s[i].0, #[trigger] s[j].0)
}

/// `s` with `k` mapped to `v`: the entry replaced where the name is present,
/// else inserted before the first greater name.
pub open spec fn sorted_insert(s: Entries, k: Seq<char>, v: Seq<char>) -> Entries
    decreases s.len(),
{
    if s.len() == 0 {
        seq![(k, v)]
    } else if s[0].0 == k {
        seq![(k, v)] + s.drop_first()
    } else if text_less(k, s[0].0) {
        seq![(k, v)] + s
    } else {
        seq![s[0]] + sorted_insert(s.drop_first(), k, v)
    }
}

/// `s` without the entry named `k`.
pub open spec fn remove_key(s: Entries, k: Seq<char>) -> Entries
    decreases s.len(),
{
    if s.len() == 0 {
        s
    } else if s[0].0 == k {
        s.drop_first()
    } else {
        seq![s[0]] + remove_key(s.drop_first(), k)
    }
}

/// The value mapped to `k`.
pub open spec fn map_get(s: Entries, k: Seq<char>) -> Option<Seq<char>>
    decreases s.len(),
{
    if s.len() == 0 {
        None
    } else if s[0].0 == k {
        Some(s[0].1)
    } else {
        map_get(s.drop_first(), k)
    }
}

/// The map that inserting every pair in order builds.
pub open spec fn map_from_pairs(pairs: Entries) -> Entries
    decreases pairs.len(),
{
    if pairs.len() == 0 {
        Seq::empty()
    } else {
        sorted_insert(map_from_pairs(pairs.drop_last()), pairs.last().0, pairs.last().1)
    }
}

/// Inserting keeps the names in order.
pub proof fn lemma_sorted_insert_sorted(s: Entries, k: Seq<char>, v: Seq<char>)
    requires
        sorted_keys(s),
    ensures
        sorted_keys(sorted_insert(s, k, v)),
        forall|i: int| 0 <= i < sorted_insert(s, k, v).len() ==> (#[trigger] sorted_insert(s, k, v)[i]).0 == k
            || exists|j: int| 0 <= j < s.len() && s[j].0 == sorted_insert(s, k, v)[i].0,
    decreases s.len(),
{
    let r = sorted_insert(s, k, v);
    if s.len() == 0 {
    } else if s[0].0 == k {
        assert forall|i: int, j: int| 0 <= i < j < r.len() implies text_less(#[trigger] r[i].0, #[trigger] r[j].0) by {
            if i == 0 {
                assert(r[j] == s[j]);
                assert(text_less(s[0].0, s[j].0));
            } else {
                assert(r[i] == s[i] && r[j] == s[j]);
            }
        }
        assert forall|i: int| 0 <= i < r.len() implies (#[trigger] r[i]).0 == k || exists|j: int| 0 <= j < s.len() && s[j].0 == r[i].0 by {
            if i > 0 {
                assert(r[i] == s[i]);
            }
        }
    } else if text_less(k, s[0].0) {
        assert forall|i: int, j: int| 0 <= i < j < r.len() implies text_less(#[trigger] r[i].0, #[trigger] r[j].0) by {
            if i == 0 {
                assert(r[j] == s[j - 1]);
                if j - 1 > 0 {
                    assert(text_less(s[0].0, s[j - 1].0));
                    lemma_text_less_transitive(k, s[0].0, s[j - 1].0);
                }
            } else {
                assert(r[i] == s[i - 1] && r[j] == s[j - 1]);
            }
        }
        assert forall|i: int| 0 <= i < r.len() implies (#[trigger] r[i]).0 == k || exists|j: int| 0 <= j < s.len() && s[j].0 == r[i].0 by {
            if i > 0 {
                assert(r[i] == s[i - 1]);
            }
        }
    } else {
        let t = s.drop_first();
        assert(sorted_keys(t)) by {
            assert forall|i: int, j: int| 0 <= i < j < t.len() implies text_less(#[trigger] t[i].0, #[trigger] t[j].0) by {
                assert(t[i] == s[i + 1] && t[j] == s[j + 1]);
            }
        }
        lemma_sorted_insert_sorted(t, k, v);
        let rt = sorted_insert(t, k, v);
        lemma_text_less_total(k, s[0].0);
        assert forall|i: int| 0 <= i < rt.len() implies text_less(s[0].0, (#[trigger] rt[i]).0) by {
            if rt[i].0 == k {
            } else {
                let j = choose|j: int| 0 <= j < t.len() && t[j].0 == rt[i].0;
                assert(t[j] == s[j + 1]);
            }
        }
        assert forall|i: int, j: int| 0 <= i < j < r.len() implies text_less(#[trigger] r[i].0, #[trigger] r[j].0) by {
            if i == 0 {
                assert(r[j] == rt[j - 1]);
            } else {
                assert(r[i] == rt[i - 1] && r[j] == rt[j - 1]);
            }
        }
        assert forall|i: int| 0 <= i < r.len() implies (#[trigger] r[i]).0 == k || exists|j: int| 0 <= j < s.len() && s[j].0 == r[i].0 by {
            if i == 0 {
                assert(s[0].0 == r[0].0);
            } else {
                assert(r[i] == rt[i - 1]);
                if rt[i - 1].0 != k {
                    let j = choose|j: int| 0 <= j < t.len() && t[j].0 == rt[i - 1].0;
                    assert(t[j] == s[j + 1]);
                }
            }
        }
    }
}

/// Removing an entry keeps the names in order.
pub proof fn lemma_remove_key_sorted(s: Entries, k: Seq<char>)
    requires
        sorted_keys(s),
    ensures
        sorted_keys(remove_key(s, k)),
        forall|i: int| 0 <= i < remove_key(s, k).len() ==> exists|j: int| 0 <= j < s.len() && s[j] == #[trigger] remove_key(s, k)[i],
    decreases s.len(),
{
    let r = remove_key(s, k);
    if s.len() == 0 {
    } else if s[0].0 == k {
        assert forall|i: int, j: int| 0 <= i < j < r.len() implies text_less(#[trigger] r[i].0, #[trigger] r[j].0) by {
            assert(r[i] == s[i + 1] && r[j] == s[j + 1]);
        }
        assert forall|i: int| 0 <= i < r.len() implies exists|j: int| 0 <= j < s.len() && s[j] == #[trigger] r[i] by {
            assert(r[i] == s[i + 1]);
        }
    } else {
        let t = s.drop_first();
        assert(sorted_keys(t)) by {
            assert forall|i: int, j: int| 0 <= i < j < t.len() implies text_less(#[trigger] t[i].0, #[trigger] t[j].0) by {
                assert(t[i] == s[i + 1] && t[j] == s[j + 1]);
            }
        }
        lemma_remove_key_sorted(t, k);
        let rt = remove_key(t, k);
        assert forall|i: int, j: int| 0 <= i < j < r.len() implies text_less(#[trigger] r[i].0, #[trigger] r[j].0) by {
            if i == 0 {
                assert(r[j] == rt[j - 1]);
                let m = choose|m: int| 0 <= m < t.len() && t[m] == rt[j - 1];
                assert(t[m] == s[m + 1]);
            } else {
                assert(r[i] == rt[i - 1] && r[j] == rt[j - 1]);
            }
        }
        assert forall|i: int| 0 <= i < r.len() implies exists|j: int| 0 <= j < s.len() && s[j] == #[trigger] r[i] by {
            if i == 0 {
                assert(s[0] == r[0]);
            } else {
                assert(r[i] == rt[i - 1]);
                let m = choose|m: int| 0 <= m < t.len() && t[m] == rt[i - 1];
                assert(t[m] == s[m + 1]);
            }
        }
    }
}

proof fn lemma_map_get_cons(e: (Seq<char>, Seq<char>), t: Entries, q: Seq<char>)
    ensures
        map_get(seq![e] + t, q) == if e.0 == q {
            Some(e.1)
        } else {
            map_get(t, q)
        },
{
    let x = seq![e] + t;
    assert(x[0] == e);
    assert(x.drop_first() =~= t);
}

/// Reading a name after inserting it gives the inserted value; inserting does
/// not change the other names' values.
pub proof fn lemma_get_after_insert(s: Entries, k: Seq<char>, v: Seq<char>, q: Seq<char>)
    ensures
        map_get(sorted_insert(s, k, v), q) == if q == k {
            Some(v)
        } else {
            map_get(s, q)
        },
    decreases s.len(),
{
    if s.len() == 0 {
        lemma_map_get_cons((k, v), Seq::empty(), q);
        assert(seq![(k, v)] + Seq::<(Seq<char>, Seq<char>)>::empty() =~= seq![(k, v)]);
    } else {
        lemma_map_get_cons(s[0], s.drop_first(), q);
        assert(seq![s[0]] + s.drop_first() =~= s);
        if s[0].0 == k {
            lemma_map_get_cons((k, v), s.drop_first(), q);
        } else if text_less(k, s[0].0) {
            lemma_map_get_cons((k, v), s, q);
        } else {
            lemma_get_after_insert(s.drop_first(), k, v, q);
            lemma_map_get_cons(s[0], sorted_insert(s.drop_first(), k, v), q);
        }
    }
}

/// A map from names to texts, kept in name order.
#[derive(Debug)]
pub struct AttrMap {
    pub entries: Vec<(String, String)>,
}

impl AttrMap {
    pub open spec fn view(&self) -> Entries {
        self.entries.deep_view()
    }

    /// An empty map.
    pub fn new() -> (r: AttrMap)
        ensures
            r.view() == Seq::<(Seq<char>, Seq<char>)>::empty(),
    {
        let r = AttrMap { entries: Vec::new() };
        proof {
            assert(r.view() =~= Seq::<(Seq<char>, Seq<char>)>::empty());
        }
        r
    }

    /// Where `key` goes: the first index whose name does not order before
    /// it, and whether the name there is `key`.
    fn insert_position(&self, key: &str) -> (r: (usize, bool))
        ensures
            r.0 <= self.view().len(),
            forall|j: int| 0 <= j < r.0 ==> (#[trigger] self.view()[j]).0 != key@ && !text_less(key@, self.view()[j].0),
            r.1 ==> r.0 < self.view().len() && self.view()[r.0 as int].0 == key@,
            !r.1 ==> r.0 == self.view().len() || (self.view()[r.0 as int].0 != key@ && text_less(key@, self.view()[r.0 as int].0)),
    {
        let k = str_chars(key);
        let ghost s = self.view();
        let mut i: usize = 0;
        while i < self.entries.len()
            invariant
                0 <= i <= self.entries.len(),
                s == self.view(),
                k@ == key@,
                forall|j: int| 0 <= j < i ==> (#[trigger] s[j]).0 != key@ && !text_less(key@, s[j].0),
            decreases self.entries.len() - i,
        {
            let e = str_chars(self.entries[i].0.as_str());
            proof {
                assert(s[i as int].0 == self.entries@[i as int].0@);
            }
            if crate::text::vec_eq(&e, &k) {
                return (i, true);
            }
            if chars_less(&k, &e) {
                return (i, false);
            }
            i = i + 1;
        }
        (i, false)
    }

    /// The first index whose name is `key`, or the length.
    fn key_position(&self, key: &str) -> (r: usize)
        ensures
            r <= self.view().len(),
            forall|j: int| 0 <= j < r ==> (#[trigger] self.view()[j]).0 != key@,
            r < self.view().len() ==> self.view()[r as int].0 == key@,
    {
        let k = str_chars(key);
        let ghost s = self.view();
        let mut i: usize = 0;
        while i < self.entries.len()
            invariant
                0 <= i <= self.entries.len(),
                s == self.view(),
                k@ == key@,
                forall|j: int| 0 <= j < i ==> (#[trigger] s[j]).0 != key@,
            decreases self.entries.len() - i,
        {
            let e = str_chars(self.entries[i].0.as_str());
            proof {
                assert(s[i as int].0 == self.entries@[i as int].0@);
            }
            if crate::text::vec_eq(&e, &k) {
                return i;
            }
            i = i + 1;
        }
        i
    }

    /// Sets `key` to `value`, in key order, replacing an earlier value.
    pub fn insert(&mut self, key: String, value: String)
        ensures
            final(self).view() == sorted_insert(old(self).view(), key@, value@),
    {
        let ghost s = self.view();
        let (i, found) = self.insert_position(key.as_str());
        proof {
            lemma_insert_prefix(s, key@, value@, i as int);
        }
        let ghost rest = s.subrange(i as int, s.len() as int);
        if found {
            proof {
                assert(rest[0] == s[i as int]);
                assert(sorted_insert(rest, key@, value@) == seq![(key@, value@)] + rest.drop_first());
            }
            self.entries.set(i, (key, value));
            proof {
                assert(self.view() =~= s.subrange(0, i as int) + (seq![(key@, value@)] + rest.drop_first()));
            }
        } else {
            proof {
                if i < s.len() {
                    assert(rest[0] == s[i as int]);
                    assert(sorted_insert(rest, key@, value@) == seq![(key@, value@)] + rest);
                } else {
                    assert(rest =~= Seq::<(Seq<char>, Seq<char>)>::empty());
                }
            }
            self.entries.insert(i, (key, value));
            proof {
                assert(self.view() =~= s.subrange(0, i as int) + (seq![(key@, value@)] + rest));
            }
        }
    }

    /// Drops the entry named `key`.
    pub fn remove(&mut self, key: &str)
        ensures
            final(self).view() == remove_key(old(self).view(), key@),
    {
        let ghost s = self.view();
        let i = self.key_position(key);
        proof {
            lemma_remove_prefix(s, key@, i as int);
        }
        let ghost rest = s.subrange(i as int, s.len() as int);
        if i < self.entries.len() {
            proof {
                assert(rest[0] == s[i as int]);
                assert(remove_key(rest, key@) == rest.drop_first());
            }
            let _ = self.entries.remove(i);
            proof {
                assert(self.view() =~= s.subrange(0, i as int) + rest.drop_first());
            }
        } else {
            proof {
                assert(rest =~= Seq::<(Seq<char>, Seq<char>)>::empty());
                assert(s.subrange(0, i as int) =~= s);
            }
        }
    }

    /// The value stored under `key`.
    pub fn get(&self, key: &str) -> (r: Option<String>)
        ensures
            r is Some <==> map_get(self.view(), key@) is Some,
            r is Some ==> r.unwrap()@ == map_get(self.view(), key@).unwrap(),
    {
        let k = str_chars(key);
        let ghost s = self.view();
        let mut i: usize = 0;
        proof {
            assert(s.subrange(0, s.len() as int) =~= s);
        }
        while i < self.entries.len()
            invariant
                0 <= i <= self.entries.len(),
                s == self.view(),
                k@ == key@,
                map_get(s, key@) == map_get(s.subrange(i as int, s.len() as int), key@),
            decreases self.entries.len() - i,
        {
            let e = str_chars(self.entries[i].0.as_str());
            let ghost rest = s.subrange(i as int, s.len() as int);
            proof {
                assert(rest[0] == s[i as int]);
                assert(rest[0] == (self.entries@[i as int].0@, self.entries@[i as int].1@));
            }
            if crate::text::vec_eq(&e, &k) {
                return Some(self.entries[i].1.clone());
            }
            proof {
                assert(rest.drop_first() =~= s.subrange(i + 1, s.len() as int));
            }
            i = i + 1;
        }
        None
    }

    /// The map built by inserting every pair in order.
    pub fn from_pairs(pairs: &Vec<(String, String)>) -> (r: AttrMap)
        ensures
            r.view() == map_from_pairs(pairs.deep_view()),
    {
        let mut m = AttrMap::new();
        let mut i: usize = 0;
        while i < pairs.len()
            invariant
                0 <= i <= pairs.len(),
                m.view() == map_from_pairs(pairs.deep_view().subrange(0, i as int)),
            decreases pairs.len() - i,
        {
            let ghost pre = pairs.deep_view().subrange(0, i + 1);
            proof {
                assert(pre.drop_last() =~= pairs.deep_view().subrange(0, i as int));
                assert(pre.last() == pairs.deep_view()[i as int]);
            }
            m.insert(pairs[i].0.clone(), pairs[i].1.clone());
            i = i + 1;
        }
        proof {
            assert(pairs.deep_view().subrange(0, pairs.deep_view().len() as int) =~= pairs.deep_view());
        }
        m
    }

    pub fn len(&self) -> (r: usize)
        ensures
            r == self.view().len(),
    {
        self.entries.len()
    }

    /// A copy with the same entries.
    pub fn clone_map(&self) -> (r: AttrMap)
        ensures
            r.view() == self.view(),
    {
        let mut out: Vec<(String, String)> = Vec::new();
        let mut i: usize = 0;
        while i < self.entries.len()
            invariant
                0 <= i <= self.entries.len(),
                out.deep_view() =~= self.view().subrange(0, i as int),
                self.view().len() == self.entries.len(),
            decreases self.entries.len() - i,
        {
            let a = self.entries[i].0.clone();
            let b = self.entries[i].1.clone();
            let ghost before = out.deep_view();
            out.push((a, b));
            proof {
                assert(self.view()[i as int] == (a@, b@));
                assert(out.deep_view() =~= before.push((a@, b@)));
                assert(self.view().subrange(0, i + 1) =~= self.view().subrange(0, i as int).push(self.view()[i as int]));
            }
            i = i + 1;
        }
        proof {
            assert(self.view().subrange(0, self.view().len() as int) =~= self.view());
        }
        AttrMap { entries: out }
    }
}

/// A map built by inserting pairs keeps its names in order.
pub proof fn lemma_map_from_pairs_sorted(pairs: Entries)
    ensures
        sorted_keys(map_from_pairs(pairs)),
    decreases pairs.len(),
{
    if pairs.len() > 0 {
        lemma_map_from_pairs_sorted(pairs.drop_last());
        lemma_sorted_insert_sorted(map_from_pairs(pairs.drop_last()), pairs.last().0, pairs.last().1);
    }
}


pub proof fn lemma_insert_prefix(s: Entries, k: Seq<char>, v: Seq<char>, i: int)
    requires
        0 <= i <= s.len(),
        forall|j: int| 0 <= j < i ==> (#[trigger] s[j]).0 != k && !text_less(k, s[j].0),
    ensures
        sorted_insert(s, k, v) == s.subrange(0, i) + sorted_insert(s.subrange(i, s.len() as int), k, v),
    decreases i,
{
    if i == 0 {
        assert(s.subrange(0, s.len() as int) =~= s);
        assert(s.subrange(0, 0) + sorted_insert(s, k, v) =~= sorted_insert(s, k, v));
    } else {
        let t = s.drop_first();
        assert forall|j: int| 0 <= j < i - 1 implies (#[trigger] t[j]).0 != k && !text_less(k, t[j].0) by {
            assert(t[j] == s[j + 1]);
        }
        lemma_insert_prefix(t, k, v, i - 1);
        assert(t.subrange(i - 1, t.len() as int) =~= s.subrange(i, s.len() as int));
        assert(s.subrange(0, i) =~= seq![s[0]] + t.subrange(0, i - 1));
    }
}

pub proof fn lemma_remove_prefix(s: Entries, k: Seq<char>, i: int)
    requires
        0 <= i <= s.len(),
        forall|j: int| 0 <= j < i ==> (#[trigger] s[j]).0 != k,
    ensures
        remove_key(s, k) == s.subrange(0, i) + remove_key(s.subrange(i, s.len() as int), k),
    decreases i,
{
    if i == 0 {
        assert(s.subrange(0, s.len() as int) =~= s);
        assert(s.subrange(0, 0) + remove_key(s, k) =~= remove_key(s, k));
    } else {
        let t = s.drop_first();
        assert forall|j: int| 0 <= j < i - 1 implies (#[trigger] t[j]).0 != k by {
            assert(t[j] == s[j + 1]);
        }
        lemma_remove_prefix(t, k, i - 1);
        assert(t.subrange(i - 1, t.len() as int) =~= s.subrange(i, s.len() as int));
        assert(s.subrange(0, i) =~= seq![s[0]] + t.subrange(0, i - 1));
    }
}

} // verus!
