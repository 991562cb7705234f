//! A map from strings to values that keeps its keys in ascending order, the
//! order in which `String`s compare (UTF-8 bytes, which is code point order).
use vstd::prelude::*;
use crate::text::{chars_eq, chars_of};

verus! {

/// Whether `a` sorts strictly before `b`, char by char, a proper prefix first.
pub open spec fn str_lt(a: Seq<char>, b: Seq<char>) -> bool
    decreases a.len(),
{
    if a.len() == 0 {
        b.len() > 0
    } else if b.len() == 0 {
        false
    } else if a[0] != b[0] {
        a[0] < b[0]
    } else {
        str_lt(a.drop_first(), b.drop_first())
    }
}

/// The keys ascend strictly: no key occurs twice.
pub open spec fn keys_ascending<V>(s: Seq<(Seq<char>, V)>) -> bool {
    forall|i: int, j: int| 0 <= i < j < s.len() ==> str_lt(#[trigger] s[i].0, #[trigger] s[j].0)
}

/// The value stored under `k`.
pub open spec fn lookup<V>(s: Seq<(Seq<char>, V)>, k: Seq<char>) -> Option<V>
    decreases s.len(),
{
    if s.len() == 0 {
        None
    } else if s[0].0 == k {
        Some(s[0].1)
    } else {
        lookup(s.drop_first(), k)
    }
}

/// `s` with `k` bound to `v`: an existing binding of `k` is replaced in place,
/// otherwise the pair goes where its key keeps the keys ascending.
pub open spec fn insert_sorted<V>(s: Seq<(Seq<char>, V)>, k: Seq<char>, v: V) -> Seq<(Seq<char>, V)>
    decreases s.len(),
{
    if s.len() == 0 {
        seq![(k, v)]
    } else if s[0].0 == k {
        seq![(k, v)] + s.drop_first()
    } else if str_lt(k, s[0].0) {
        seq![(k, v)] + s
    } else {
        seq![s[0]] + insert_sorted(s.drop_first(), k, v)
    }
}

/// The keys, in order.
pub open spec fn keys_of<V>(s: Seq<(Seq<char>, V)>) -> Seq<Seq<char>> {
    s.map_values(|e: (Seq<char>, V)| e.0)
}

/// No text comes before itself.
pub proof fn lemma_str_lt_irreflexive(a: Seq<char>)
    ensures
        !str_lt(a, a),
    decreases a.len(),
{
    if a.len() > 0 {
        lemma_str_lt_irreflexive(a.drop_first());
    }
}

/// The order of texts is transitive.
pub proof fn lemma_str_lt_transitive(a: Seq<char>, b: Seq<char>, c: Seq<char>)
    requires
        str_lt(a, b),
        str_lt(b, c),
    ensures
        str_lt(a, c),
    decreases a.len(),
{
    if a.len() > 0 && b.len() > 0 && c.len() > 0 {
        if a[0] == b[0] && b[0] == c[0] {
            lemma_str_lt_transitive(a.drop_first(), b.drop_first(), c.drop_first());
        }
    }
}

/// Of two different texts, one comes before the other.
pub proof fn lemma_str_lt_total(a: Seq<char>, b: Seq<char>)
    requires
        a != b,
    ensures
        str_lt(a, b) || str_lt(b, a),
    decreases a.len(),
{
    if a.len() > 0 && b.len() > 0 && a[0] == b[0] {
        if a.drop_first() == b.drop_first() {
            assert(a =~= seq![a[0]] + a.drop_first());
            assert(b =~= seq![b[0]] + b.drop_first());
        }
        lemma_str_lt_total(a.drop_first(), b.drop_first());
    } else if a.len() > 0 && b.len() > 0 {
    } else if a.len() == 0 && b.len() == 0 {
        assert(a =~= b);
    }
}

/// Of two texts, at most one comes before the other.
pub proof fn lemma_str_lt_asymmetric(a: Seq<char>, b: Seq<char>)
    requires
        str_lt(a, b),
    ensures
        !str_lt(b, a),
{
    if str_lt(b, a) {
        lemma_str_lt_transitive(a, b, a);
        lemma_str_lt_irreflexive(a);
    }
}

/// In a map whose keys ascend, each key is found with its own value.
pub proof fn lemma_lookup_index<V>(s: Seq<(Seq<char>, V)>, i: int)
    requires
        keys_ascending(s),
        0 <= i < s.len(),
    ensures
        lookup(s, s[i].0) == Some(s[i].1),
    decreases i,
{
    if i > 0 {
        assert(str_lt(s[0].0, s[i].0));
        lemma_str_lt_irreflexive(s[0].0);
        lemma_lookup_index(s.drop_first(), i - 1);
    }
}

/// A key that no binding has is not found.
pub proof fn lemma_lookup_absent<V>(s: Seq<(Seq<char>, V)>, k: Seq<char>)
    requires
        forall|i: int| 0 <= i < s.len() ==> s[i].0 != k,
    ensures
        lookup(s, k) is None,
    decreases s.len(),
{
    if s.len() > 0 {
        lemma_lookup_absent(s.drop_first(), k);
    }
}

/// A key that is found has a binding with the value found.
pub proof fn lemma_lookup_some<V>(s: Seq<(Seq<char>, V)>, k: Seq<char>)
    requires
        lookup(s, k) is Some,
    ensures
        exists|i: int| 0 <= i < s.len() && s[i].0 == k && s[i].1 == lookup(s, k)->0,
    decreases s.len(),
{
    if s[0].0 != k {
        lemma_lookup_some(s.drop_first(), k);
        let i = choose|i: int| 0 <= i < s.drop_first().len() && s.drop_first()[i].0 == k
            && s.drop_first()[i].1 == lookup(s, k)->0;
        assert(s[i + 1] == s.drop_first()[i]);
    }
}

/// Inserting at the position that a scan finds: every key before it sorts
/// below `k`, and the key there, if any, is `k` or sorts above it.
pub proof fn lemma_insert_at<V>(s: Seq<(Seq<char>, V)>, k: Seq<char>, v: V, i: int)
    requires
        0 <= i <= s.len(),
        forall|j: int| 0 <= j < i ==> str_lt(#[trigger] s[j].0, k),
        i < s.len() ==> (s[i].0 == k || str_lt(k, s[i].0)),
    ensures
        i < s.len() && s[i].0 == k ==> insert_sorted(s, k, v) == s.update(i, (k, v)),
        !(i < s.len() && s[i].0 == k) ==> insert_sorted(s, k, v) == s.insert(i, (k, v)),
    decreases i,
{
    if i == 0 {
        if s.len() > 0 && s[0].0 == k {
            assert(seq![(k, v)] + s.drop_first() =~= s.update(0, (k, v)));
        } else {
            assert(seq![(k, v)] + s =~= s.insert(0, (k, v)));
        }
    } else {
        lemma_str_lt_irreflexive(k);
        assert(s[0].0 != k);
        lemma_str_lt_asymmetric(s[0].0, k);
        assert forall|j: int| 0 <= j < i - 1 implies str_lt(#[trigger] s.drop_first()[j].0, k) by {
            assert(s.drop_first()[j] == s[j + 1]);
        }
        lemma_insert_at(s.drop_first(), k, v, i - 1);
        if i < s.len() && s[i].0 == k {
            assert(seq![s[0]] + s.drop_first().update(i - 1, (k, v)) =~= s.update(i, (k, v)));
        } else {
            assert(seq![s[0]] + s.drop_first().insert(i - 1, (k, v)) =~= s.insert(i, (k, v)));
        }
    }
}

/// Inserting at the position that a scan finds keeps the keys ascending.
pub proof fn lemma_insert_keeps_ascending<V>(s: Seq<(Seq<char>, V)>, k: Seq<char>, v: V, i: int)
    requires
        keys_ascending(s),
        0 <= i <= s.len(),
        forall|j: int| 0 <= j < i ==> str_lt(#[trigger] s[j].0, k),
        i < s.len() ==> (s[i].0 == k || str_lt(k, s[i].0)),
    ensures
        keys_ascending(insert_sorted(s, k, v)),
{
    lemma_insert_at(s, k, v, i);
    let r = insert_sorted(s, k, v);
    if i < s.len() && s[i].0 == k {
        assert forall|a: int, b: int| 0 <= a < b < r.len() implies str_lt(#[trigger] r[a].0, #[trigger] r[b].0) by {
            assert(r[a].0 == s[a].0);
            assert(r[b].0 == s[b].0);
        }
    } else {
        assert forall|a: int, b: int| 0 <= a < b < r.len() implies str_lt(#[trigger] r[a].0, #[trigger] r[b].0) by {
            if b < i {
                assert(r[a] == s[a] && r[b] == s[b]);
            } else if b == i {
                assert(r[a] == s[a]);
            } else if a == i {
                assert(r[b] == s[b - 1]);
                if b - 1 > i {
                    lemma_str_lt_transitive(k, s[i].0, s[b - 1].0);
                }
            } else if a < i {
                assert(r[a] == s[a] && r[b] == s[b - 1]);
            } else {
                assert(r[a] == s[a - 1] && r[b] == s[b - 1]);
            }
        }
    }
}

/// After binding `k` to `v`, looking up `k` gives `v` and every other key is as before.
pub proof fn lemma_lookup_insert<V>(s: Seq<(Seq<char>, V)>, k: Seq<char>, v: V, q: Seq<char>)
    ensures
        lookup(insert_sorted(s, k, v), q) == if q == k {
            Some(v)
        } else {
            lookup(s, q)
        },
    decreases s.len(),
{
    if s.len() == 0 {
        let r = insert_sorted(s, k, v);
        assert(r[0] == (k, v));
        assert(r.drop_first() =~= s);
    } else if s[0].0 == k {
        let r = insert_sorted(s, k, v);
        assert(r[0] == (k, v));
        assert(r.drop_first() =~= s.drop_first());
    } else if str_lt(k, s[0].0) {
        let r = insert_sorted(s, k, v);
        assert(r[0] == (k, v));
        assert(r.drop_first() =~= s);
    } else {
        let r = insert_sorted(s, k, v);
        assert(r[0] == s[0]);
        assert(r.drop_first() =~= insert_sorted(s.drop_first(), k, v));
        lemma_lookup_insert(s.drop_first(), k, v, q);
    }
}

/// Whether `a` sorts strictly before `b`.
pub fn str_less(a: &Vec<char>, b: &Vec<char>) -> (r: bool)
    ensures
        r == str_lt(a@, b@),
{
    let mut i: usize = 0;
    assert(a@.skip(0) =~= a@ && b@.skip(0) =~= b@);
    while i < a.len() && i < b.len()
        invariant
            i <= a@.len(),
            i <= b@.len(),
            str_lt(a@, b@) == str_lt(a@.skip(i as int), b@.skip(i as int)),
        decreases a@.len() - i,
    {
        if a[i] != b[i] {
            assert(a@.skip(i as int)[0] == a@[i as int]);
            assert(b@.skip(i as int)[0] == b@[i as int]);
            return a[i] < b[i];
        }
        assert(a@.skip(i as int).drop_first() =~= a@.skip(i + 1));
        assert(b@.skip(i as int).drop_first() =~= b@.skip(i + 1));
        i += 1;
    }
    i == a.len() && i < b.len()
}

/// An ordered map from strings to values.
#[derive(Debug)]
pub struct StrMap<V> {
    entries: Vec<(String, V)>,
}

impl<V> View for StrMap<V> {
    type V = Seq<(Seq<char>, V)>;

    /// The bindings, keys ascending.
    closed spec fn view(&self) -> Seq<(Seq<char>, V)> {
        self.entries@.map_values(|e: (String, V)| (e.0@, e.1))
    }
}

impl<V> StrMap<V> {
    #[verifier::type_invariant]
    spec fn keys_ascend(self) -> bool {
        keys_ascending(self@)
    }

    /// The empty map.
    pub fn new() -> (m: Self)
        ensures
            m@ == Seq::<(Seq<char>, V)>::empty(),
    {
        let m = StrMap { entries: Vec::new() };
        assert(m@ =~= Seq::<(Seq<char>, V)>::empty());
        m
    }

    /// The number of bindings.
    pub fn len(&self) -> (n: usize)
        ensures
            n == self@.len(),
            keys_ascending(self@),
    {
        proof {
            use_type_invariant(self);
        }
        self.entries.len()
    }

    /// The key of binding `i`.
    pub fn key_at(&self, i: usize) -> (k: &String)
        requires
            i < self@.len(),
        ensures
            k@ == self@[i as int].0,
    {
        &self.entries[i].0
    }

    /// The value of binding `i`.
    pub fn value_at(&self, i: usize) -> (v: &V)
        requires
            i < self@.len(),
        ensures
            *v == self@[i as int].1,
    {
        &self.entries[i].1
    }

    /// The value bound to `key`.
    pub fn get(&self, key: &str) -> (r: Option<&V>)
        ensures
            match r {
                Some(v) => lookup(self@, key@) == Some(*v),
                None => lookup(self@, key@) is None,
            },
    {
        proof {
            use_type_invariant(self);
        }
        let k = chars_of(key);
        let mut i: usize = 0;
        while i < self.entries.len()
            invariant
                i <= self@.len(),
                self@.len() == self.entries@.len(),
                k@ == key@,
                keys_ascending(self@),
                forall|j: int| 0 <= j < i ==> self@[j].0 != key@,
            decreases self@.len() - i,
        {
            let ek = chars_of(self.entries[i].0.as_str());
            if chars_eq(&ek, &k) {
                proof {
                    lemma_lookup_index(self@, i as int);
                }
                return Some(&self.entries[i].1);
            }
            i += 1;
        }
        proof {
            lemma_lookup_absent(self@, key@);
        }
        None
    }

    /// The position where `k` belongs, and whether it is bound there already.
    fn slot_for(&self, k: &Vec<char>) -> (r: (usize, bool))
        ensures
            r.0 <= self@.len(),
            forall|j: int| 0 <= j < r.0 ==> str_lt(#[trigger] self@[j].0, k@),
            r.0 < self@.len() ==> (self@[r.0 as int].0 == k@ || str_lt(k@, self@[r.0 as int].0)),
            r.1 == (r.0 < self@.len() && self@[r.0 as int].0 == k@),
    {
        let mut i: usize = 0;
        while i < self.entries.len()
            invariant
                i <= self@.len(),
                self@.len() == self.entries@.len(),
                forall|j: int| 0 <= j < i ==> str_lt(#[trigger] self@[j].0, k@),
            decreases self@.len() - i,
        {
            let ek = chars_of(self.entries[i].0.as_str());
            if chars_eq(&ek, k) {
                return (i, true);
            }
            if str_less(k, &ek) {
                proof {
                    lemma_str_lt_irreflexive(k@);
                }
                return (i, false);
            }
            proof {
                lemma_str_lt_total(self@[i as int].0, k@);
            }
            i += 1;
        }
        (i, false)
    }

    /// Binds `key` to `value`, replacing an earlier binding of the key.
    pub fn insert(&mut self, key: String, value: V)
        ensures
            final(self)@ == insert_sorted(old(self)@, key@, value),
            keys_ascending(final(self)@),
    {
        proof {
            use_type_invariant(&*self);
        }
        let k = chars_of(key.as_str());
        let (i, found) = self.slot_for(&k);
        let ghost s = self@;
        proof {
            lemma_insert_keeps_ascending(s, key@, value, i as int);
            lemma_insert_at(s, key@, value, i as int);
        }
        let mut entries: Vec<(String, V)> = Vec::new();
        std::mem::swap(&mut entries, &mut self.entries);
        if found {
            entries.remove(i);
        }
        entries.insert(i, (key, value));
        let ghost ev = entries@.map_values(|e: (String, V)| (e.0@, e.1));
        if found {
            assert(ev =~= s.update(i as int, (key@, value)));
        } else {
            assert(ev =~= s.insert(i as int, (key@, value)));
        }
        self.entries = entries;
    }
}


/// The count after one more occurrence of a key whose count was `old`.
pub open spec fn bumped_u64(old: Option<u64>) -> u64 {
    match old {
        Some(n) => (n + 1) as u64,
        None => 1,
    }
}

/// The count after one more occurrence of a key whose count was `old`.
pub open spec fn bumped_usize(old: Option<usize>) -> usize {
    match old {
        Some(n) => (n + 1) as usize,
        None => 1,
    }
}

impl<V: Copy> StrMap<V> {
    /// A map with the same bindings.
    fn copied(&self) -> (r: Self)
        ensures
            r@ == self@,
    {
        proof {
            use_type_invariant(self);
        }
        let mut entries: Vec<(String, V)> = Vec::new();
        let mut i: usize = 0;
        while i < self.entries.len()
            invariant
                i <= self.entries@.len(),
                entries@.map_values(|e: (String, V)| (e.0@, e.1)) =~= self@.take(i as int),
                self@.len() == self.entries@.len(),
            decreases self.entries@.len() - i,
        {
            let k = self.entries[i].0.clone();
            let v = self.entries[i].1;
            let ghost before = entries@;
            entries.push((k, v));
            assert(self@[i as int] == (self.entries@[i as int].0@, self.entries@[i as int].1));
            assert(entries@ == before.push((k, v)));
            i += 1;
            assert(self@.take(i as int) =~= self@.take(i - 1).push(self@[i - 1]));
            assert(entries@.map_values(|e: (String, V)| (e.0@, e.1)) =~= before.map_values(|e: (String, V)| (e.0@, e.1)).push((k@, v)));
        }
        assert(self@.take(self@.len() as int) =~= self@);
        StrMap { entries }
    }
}

impl StrMap<String> {
    /// A map with the same bindings.
    pub fn duplicate(&self) -> (r: Self)
        ensures
            r@ == self@,
    {
        proof {
            use_type_invariant(self);
        }
        let mut entries: Vec<(String, String)> = Vec::new();
        let mut i: usize = 0;
        while i < self.entries.len()
            invariant
                i <= self.entries@.len(),
                entries@.map_values(|e: (String, String)| (e.0@, e.1)) =~= self@.take(i as int),
                self@.len() == self.entries@.len(),
            decreases self.entries@.len() - i,
        {
            let k = self.entries[i].0.clone();
            let v = self.entries[i].1.clone();
            let ghost before = entries@;
            entries.push((k, v));
            assert(self@[i as int] == (self.entries@[i as int].0@, self.entries@[i as int].1));
            assert(entries@ == before.push((k, v)));
            i += 1;
            assert(self@.take(i as int) =~= self@.take(i - 1).push(self@[i - 1]));
            assert(entries@.map_values(|e: (String, String)| (e.0@, e.1)) =~= before.map_values(|e: (String, String)| (e.0@, e.1)).push((k@, v)));
        }
        assert(self@.take(self@.len() as int) =~= self@);
        StrMap { entries }
    }
}

impl StrMap<u64> {
    /// A map with the same bindings.
    pub fn duplicate(&self) -> (r: Self)
        ensures
            r@ == self@,
    {
        self.copied()
    }

    /// Counts one more occurrence of `key`.
    pub fn increment(&mut self, key: &str)
        requires
            lookup(old(self)@, key@) matches Some(n) ==> n < u64::MAX,
        ensures
            final(self)@ == insert_sorted(
                old(self)@,
                key@,
                bumped_u64(lookup(old(self)@, key@)),
            ),
    {
        let next: u64 = match self.get(key) {
            Some(n) => *n + 1,
            None => 1,
        };
        self.insert(key.to_owned(), next);
    }
}

impl StrMap<usize> {
    /// A map with the same bindings.
    pub fn duplicate(&self) -> (r: Self)
        ensures
            r@ == self@,
    {
        self.copied()
    }

    /// Counts one more occurrence of `key`.
    pub fn increment(&mut self, key: &str)
        requires
            lookup(old(self)@, key@) matches Some(n) ==> n < usize::MAX,
        ensures
            final(self)@ == insert_sorted(
                old(self)@,
                key@,
                bumped_usize(lookup(old(self)@, key@)),
            ),
    {
        let next: usize = match self.get(key) {
            Some(n) => *n + 1,
            None => 1,
        };
        self.insert(key.to_owned(), next);
    }
}


/// The bindings of a map of strings, values taken as text.
pub open spec fn text_bindings(s: Seq<(Seq<char>, String)>) -> Seq<(Seq<char>, Seq<char>)> {
    s.map_values(|e: (Seq<char>, String)| (e.0, e.1@))
}

/// Taking values as text commutes with inserting a binding.
pub proof fn lemma_text_bindings_insert(s: Seq<(Seq<char>, String)>, k: Seq<char>, v: String)
    ensures
        text_bindings(insert_sorted(s, k, v)) == insert_sorted(text_bindings(s), k, v@),
    decreases s.len(),
{
    let r = insert_sorted(s, k, v);
    let t = text_bindings(s);
    if s.len() == 0 {
        assert(text_bindings(r) =~= seq![(k, v@)]);
    } else if s[0].0 == k {
        assert(text_bindings(r) =~= seq![(k, v@)] + t.drop_first());
    } else if str_lt(k, s[0].0) {
        assert(text_bindings(r) =~= seq![(k, v@)] + t);
    } else {
        lemma_text_bindings_insert(s.drop_first(), k, v);
        assert(t.drop_first() =~= text_bindings(s.drop_first()));
        assert(text_bindings(r) =~= seq![t[0]] + text_bindings(insert_sorted(s.drop_first(), k, v)));
    }
}

/// Looking a key up among bindings taken as text gives the text of the value.
pub proof fn lemma_text_bindings_lookup(s: Seq<(Seq<char>, String)>, k: Seq<char>)
    ensures
        lookup(text_bindings(s), k) == match lookup(s, k) {
            Some(v) => Some(v@),
            None => None::<Seq<char>>,
        },
    decreases s.len(),
{
    if s.len() > 0 {
        assert(text_bindings(s).drop_first() =~= text_bindings(s.drop_first()));
        lemma_text_bindings_lookup(s.drop_first(), k);
    }
}

/// The bindings with each value replaced by its image under `f`.
pub open spec fn map_bindings<V, W>(s: Seq<(Seq<char>, V)>, f: spec_fn(V) -> W) -> Seq<(Seq<char>, W)> {
    s.map_values(|e: (Seq<char>, V)| (e.0, f(e.1)))
}

/// Mapping the values commutes with inserting a binding.
pub proof fn lemma_map_bindings_insert<V, W>(s: Seq<(Seq<char>, V)>, k: Seq<char>, v: V, f: spec_fn(V) -> W)
    ensures
        map_bindings(insert_sorted(s, k, v), f) == insert_sorted(map_bindings(s, f), k, f(v)),
    decreases s.len(),
{
    let r = insert_sorted(s, k, v);
    let t = map_bindings(s, f);
    if s.len() == 0 {
        assert(map_bindings(r, f) =~= seq![(k, f(v))]);
    } else if s[0].0 == k {
        assert(map_bindings(r, f) =~= seq![(k, f(v))] + t.drop_first());
    } else if str_lt(k, s[0].0) {
        assert(map_bindings(r, f) =~= seq![(k, f(v))] + t);
    } else {
        lemma_map_bindings_insert(s.drop_first(), k, v, f);
        assert(t.drop_first() =~= map_bindings(s.drop_first(), f));
        assert(map_bindings(r, f) =~= seq![t[0]] + map_bindings(insert_sorted(s.drop_first(), k, v), f));
    }
}

/// Looking a key up among mapped bindings gives the image of the value.
pub proof fn lemma_map_bindings_lookup<V, W>(s: Seq<(Seq<char>, V)>, k: Seq<char>, f: spec_fn(V) -> W)
    ensures
        lookup(map_bindings(s, f), k) == match lookup(s, k) {
            Some(v) => Some(f(v)),
            None => None::<W>,
        },
    decreases s.len(),
{
    if s.len() > 0 {
        assert(map_bindings(s, f).drop_first() =~= map_bindings(s.drop_first(), f));
        lemma_map_bindings_lookup(s.drop_first(), k, f);
    }
}

impl<V: Clone> Clone for StrMap<V> {
    /// A map with the same keys, each value cloned.
    fn clone(&self) -> (r: Self)
        ensures
            keys_of(r@) == keys_of(self@),
    {
        proof {
            use_type_invariant(self);
        }
        let mut entries: Vec<(String, V)> = Vec::new();
        let mut i: usize = 0;
        while i < self.entries.len()
            invariant
                i <= self.entries@.len(),
                self@.len() == self.entries@.len(),
                keys_ascending(self@),
                entries@.len() == i,
                forall|j: int| 0 <= j < i ==> (#[trigger] entries@[j]).0@ == self@[j].0,
            decreases self.entries@.len() - i,
        {
            let k = self.entries[i].0.clone();
            let v = self.entries[i].1.clone();
            entries.push((k, v));
            i += 1;
        }
        let r = StrMap { entries };
        assert(keys_of(r@) =~= keys_of(self@));
        assert forall|a: int, b: int| 0 <= a < b < r@.len() implies str_lt(#[trigger] r@[a].0, #[trigger] r@[b].0) by {
            assert(r@[a].0 == self@[a].0);
            assert(r@[b].0 == self@[b].0);
        }
        r
    }
}

} // verus!
