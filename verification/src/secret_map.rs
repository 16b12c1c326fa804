//! An ordered map from secret names to values, iterated in ascending key
//! order (the order of `str`'s `Ord`, which is lexicographic by code point).
use crate::text::chars_of;
use vstd::prelude::*;

verus! {

/// `a < b` in the lexicographic order of code points.
pub open spec fn lex_lt(a: Seq<char>, b: Seq<char>) -> bool
    decreases a.len(),
{
    if a.len() == 0 {
        b.len() > 0
    } else if b.len() == 0 {
        false
    } else if a[0] != b[0] {
        a[0] < b[0]
    } else {
        lex_lt(a.drop_first(), b.drop_first())
    }
}

pub proof fn lemma_lex_irreflexive(a: Seq<char>)
    ensures
        !lex_lt(a, a),
    decreases a.len(),
{
    if a.len() > 0 {
        lemma_lex_irreflexive(a.drop_first());
    }
}

pub proof fn lemma_lex_trichotomy(a: Seq<char>, b: Seq<char>)
    ensures
        a == b || lex_lt(a, b) || lex_lt(b, a),
        !(lex_lt(a, b) && lex_lt(b, a)),
    decreases a.len(),
{
    if a.len() > 0 && b.len() > 0 {
        if a[0] == b[0] {
            lemma_lex_trichotomy(a.drop_first(), b.drop_first());
            if a.drop_first() == b.drop_first() {
                assert(a =~= seq![a[0]] + a.drop_first());
                assert(b =~= seq![b[0]] + b.drop_first());
            }
        }
    } else if a.len() == 0 && b.len() == 0 {
        assert(a =~= b);
    }
}

pub proof fn lemma_lex_transitive(a: Seq<char>, b: Seq<char>, c: Seq<char>)
    requires
        lex_lt(a, b),
        lex_lt(b, c),
    ensures
        lex_lt(a, c),
    decreases a.len(),
{
    if a.len() > 0 && b.len() > 0 && c.len() > 0 {
        if a[0] == b[0] && b[0] == c[0] {
            lemma_lex_transitive(a.drop_first(), b.drop_first(), c.drop_first());
        }
    }
}

pub type EntryView = (Seq<char>, Seq<char>);

/// Keys strictly ascending.
pub open spec fn sorted_keys(s: Seq<EntryView>) -> bool {
    forall|i: int, j: int| 0 <= i < j < s.len() ==> lex_lt(#[trigger] s[i].0, #[trigger] s[j].0)
}

/// The entries after setting `k` to `v`: an entry with key `k` is replaced,
/// otherwise a new entry goes where the order puts it.
pub open spec fn spec_insert(s: Seq<EntryView>, k: Seq<char>, v: Seq<char>) -> Seq<EntryView>
    decreases s.len(),
{
    if s.len() == 0 {
        seq![(k, v)]
    } else if s[0].0 == k {
        seq![(k, v)] + s.drop_first()
    } else if lex_lt(k, s[0].0) {
        seq![(k, v)] + s
    } else {
        seq![s[0]] + spec_insert(s.drop_first(), k, v)
    }
}

/// The value stored for `k`, if any.
pub open spec fn spec_get(s: Seq<EntryView>, k: Seq<char>) -> Option<Seq<char>>
    decreases s.len(),
{
    if s.len() == 0 {
        None
    } else if s[0].0 == k {
        Some(s[0].1)
    } else {
        spec_get(s.drop_first(), k)
    }
}

proof fn lemma_insert_keys(s: Seq<EntryView>, k: Seq<char>, v: Seq<char>)
    ensures
        forall|i: int|
            0 <= i < spec_insert(s, k, v).len() ==> #[trigger] spec_insert(s, k, v)[i].0 == k
                || exists|j: int| 0 <= j < s.len() && s[j].0 == spec_insert(s, k, v)[i].0,
    decreases s.len(),
{
    if s.len() > 0 && s[0].0 != k && !lex_lt(k, s[0].0) {
        lemma_insert_keys(s.drop_first(), k, v);
        let r = spec_insert(s, k, v);
        let t = spec_insert(s.drop_first(), k, v);
        assert forall|i: int| 0 <= i < r.len() implies #[trigger] r[i].0 == k || exists|j: int|
            0 <= j < s.len() && s[j].0 == r[i].0 by {
            if i == 0 {
                assert(s[0].0 == r[0].0);
            } else {
                assert(r[i] == t[i - 1]);
                if t[i - 1].0 != k {
                    let j = choose|j: int|
                        0 <= j < s.drop_first().len() && s.drop_first()[j].0 == t[i - 1].0;
                    assert(s[j + 1].0 == r[i].0);
                }
            }
        }
    } else if s.len() > 0 {
        let r = spec_insert(s, k, v);
        assert forall|i: int| 0 <= i < r.len() implies #[trigger] r[i].0 == k || exists|j: int|
            0 <= j < s.len() && s[j].0 == r[i].0 by {
            if i > 0 {
                if s[0].0 == k {
                    assert(r[i] == s[i]);
                } else {
                    assert(r[i] == s[i - 1]);
                }
            }
        }
    }
}

pub proof fn lemma_insert_sorted(s: Seq<EntryView>, k: Seq<char>, v: Seq<char>)
    requires
        sorted_keys(s),
    ensures
        sorted_keys(spec_insert(s, k, v)),
    decreases s.len(),
{
    let r = spec_insert(s, k, v);
    if s.len() == 0 {
    } else if s[0].0 == k {
        assert forall|i: int, j: int| 0 <= i < j < r.len() implies lex_lt(
            #[trigger] r[i].0,
            #[trigger] r[j].0,
        ) by {
            if i == 0 {
                assert(r[j] == s[j]);
            } else {
                assert(r[i] == s[i]);
                assert(r[j] == s[j]);
            }
        }
    } else if lex_lt(k, s[0].0) {
        assert forall|i: int, j: int| 0 <= i < j < r.len() implies lex_lt(
            #[trigger] r[i].0,
            #[trigger] r[j].0,
        ) by {
            if i == 0 {
                assert(r[j] == s[j - 1]);
                if j > 1 {
                    lemma_lex_transitive(k, s[0].0, s[j - 1].0);
                }
            } else {
                assert(r[i] == s[i - 1]);
                assert(r[j] == s[j - 1]);
            }
        }
    } else {
        let t = spec_insert(s.drop_first(), k, v);
        assert(sorted_keys(s.drop_first())) by {
            assert forall|i: int, j: int| 0 <= i < j < s.drop_first().len() implies lex_lt(
                #[trigger] s.drop_first()[i].0,
                #[trigger] s.drop_first()[j].0,
            ) by {
                assert(s.drop_first()[i] == s[i + 1]);
                assert(s.drop_first()[j] == s[j + 1]);
            }
        }
        lemma_insert_sorted(s.drop_first(), k, v);
        lemma_insert_keys(s.drop_first(), k, v);
        lemma_lex_trichotomy(k, s[0].0);
        assert forall|i: int, j: int| 0 <= i < j < r.len() implies lex_lt(
            #[trigger] r[i].0,
            #[trigger] r[j].0,
        ) by {
            assert(r[j] == t[j - 1]);
            if i == 0 {
                assert(r[0] == s[0]);
                if t[j - 1].0 != k {
                    let m = choose|m: int|
                        0 <= m < s.drop_first().len() && s.drop_first()[m].0 == t[j - 1].0;
                    assert(s[m + 1].0 == t[j - 1].0);
                }
            } else {
                assert(r[i] == t[i - 1]);
            }
        }
    }
}

/// Secret values by name, in ascending name order.
#[derive(Debug)]
pub struct SecretMap {
    entries: Vec<(String, String)>,
}

impl View for SecretMap {
    type V = Seq<EntryView>;

    closed spec fn view(&self) -> Seq<EntryView> {
        self.entries@.map_values(|e: (String, String)| (e.0@, e.1@))
    }
}

impl SecretMap {
    #[verifier::type_invariant]
    pub open spec fn wf(self) -> bool {
        sorted_keys(self@)
    }

    /// An empty map.
    pub fn new() -> (r: Self)
        ensures
            r@ == Seq::<EntryView>::empty(),
            sorted_keys(r@),
    {
        let r = SecretMap { entries: Vec::new() };
        assert(r@ =~= Seq::<EntryView>::empty());
        r
    }

    /// Number of entries.
    pub fn len(&self) -> (r: usize)
        ensures
            r == self@.len(),
            sorted_keys(self@),
    {
        proof {
            use_type_invariant(self);
        }
        self.entries.len()
    }

    /// The entry at position `i` in key order.
    pub fn entry(&self, i: usize) -> (r: (&String, &String))
        requires
            i < self@.len(),
        ensures
            r.0@ == self@[i as int].0,
            r.1@ == self@[i as int].1,
            sorted_keys(self@),
    {
        proof {
            use_type_invariant(self);
        }
        let e = &self.entries[i];
        (&e.0, &e.1)
    }

    /// Sets `key` to `value`, replacing any value it had.
    pub fn insert(&mut self, key: String, value: String)
        ensures
            final(self)@ == spec_insert(old(self)@, key@, value@),
            sorted_keys(old(self)@),
            sorted_keys(final(self)@),
    {
        proof {
            use_type_invariant(&*self);
        }
        let ghost s = self@;
        let n = self.entries.len();
        let kc = chars_of(key.as_str());
        let mut p: usize = 0;
        while p < n && chars_lt(&chars_of(self.entries[p].0.as_str()), &kc)
            invariant
                n == self.entries.len(),
                s == self@,
                p <= n,
                kc@ == key@,
                sorted_keys(s),
                forall|j: int| 0 <= j < p ==> lex_lt(#[trigger] s[j].0, key@),
            decreases n - p,
        {
            assert(s[p as int].0 == self.entries@[p as int].0@);
            p = p + 1;
        }
        proof {
            if p < n {
                assert(s[p as int].0 == self.entries@[p as int].0@);
            }
            lemma_insert_at(s, key@, value@, p as int);
            lemma_insert_sorted(s, key@, value@);
        }
        let mut entries = Vec::new();
        std::mem::swap(&mut entries, &mut self.entries);
        if p < n && entries[p].0 == key {
            let ghost key_view = key@;
            let ghost value_view = value@;
            entries.set(p, (key, value));
            proof {
                assert(entries@.map_values(|e: (String, String)| (e.0@, e.1@)) =~= s.take(p as int)
                    + seq![(key_view, value_view)] + s.skip(p + 1));
            }
            *self = SecretMap { entries };
        } else {
            let ghost key_view = key@;
            let ghost value_view = value@;
            entries.insert(p, (key, value));
            proof {
                assert(entries@.map_values(|e: (String, String)| (e.0@, e.1@)) =~= s.take(p as int)
                    + seq![(key_view, value_view)] + s.skip(p as int));
            }
            *self = SecretMap { entries };
        }
    }

    /// The value stored for `key`, if any.
    pub fn get(&self, key: &str) -> (r: Option<&String>)
        ensures
            match r {
                Some(v) => spec_get(self@, key@) == Some(v@),
                None => spec_get(self@, key@) is None,
            },
    {
        let kc = chars_of(key);
        let mut i: usize = 0;
        let ghost s = self@;
        assert(s.skip(0) =~= s);
        while i < self.entries.len()
            invariant
                s == self@,
                i <= self.entries.len(),
                kc@ == key@,
                spec_get(s, key@) == spec_get(s.skip(i as int), key@),
            decreases self.entries.len() - i,
        {
            assert(s.skip(i as int)[0] == s[i as int]);
            assert(s.skip(i as int).drop_first() =~= s.skip(i + 1));
            if chars_eq(&chars_of(self.entries[i].0.as_str()), &kc) {
                return Some(&self.entries[i].1);
            }
            i = i + 1;
        }
        None
    }
}

/// Where `spec_insert` puts an entry, given the first position whose key is
/// not below `k`.
proof fn lemma_insert_at(s: Seq<EntryView>, k: Seq<char>, v: Seq<char>, p: int)
    requires
        sorted_keys(s),
        0 <= p <= s.len(),
        forall|j: int| 0 <= j < p ==> lex_lt(#[trigger] s[j].0, k),
        p < s.len() ==> !lex_lt(s[p].0, k),
    ensures
        p < s.len() && s[p].0 == k ==> spec_insert(s, k, v) == s.take(p) + seq![(k, v)] + s.skip(
            p + 1,
        ),
        !(p < s.len() && s[p].0 == k) ==> spec_insert(s, k, v) == s.take(p) + seq![(k, v)]
            + s.skip(p),
    decreases p,
{
    if p == 0 {
        if s.len() > 0 {
            lemma_lex_trichotomy(k, s[0].0);
        }
        assert(s.take(0) + seq![(k, v)] + s.skip(1) =~= seq![(k, v)] + s.drop_first());
        assert(s.take(0) + seq![(k, v)] + s.skip(0) =~= seq![(k, v)] + s);
    } else {
        let t = s.drop_first();
        assert(sorted_keys(t)) by {
            assert forall|i: int, j: int| 0 <= i < j < t.len() implies lex_lt(
                #[trigger] t[i].0,
                #[trigger] t[j].0,
            ) by {
                assert(t[i] == s[i + 1]);
                assert(t[j] == s[j + 1]);
            }
        }
        assert forall|j: int| 0 <= j < p - 1 implies lex_lt(#[trigger] t[j].0, k) by {
            assert(t[j] == s[j + 1]);
        }
        lemma_insert_at(t, k, v, p - 1);
        assert(lex_lt(s[0].0, k));
        lemma_lex_trichotomy(k, s[0].0);
        assert(s[0].0 != k) by {
            lemma_lex_irreflexive(k);
        }
        if p < s.len() && s[p].0 == k {
            assert(s.take(p) + seq![(k, v)] + s.skip(p + 1) =~= seq![s[0]] + (t.take(p - 1)
                + seq![(k, v)] + t.skip(p)));
        } else {
            assert(s.take(p) + seq![(k, v)] + s.skip(p) =~= seq![s[0]] + (t.take(p - 1) + seq![
                (k, v),
            ] + t.skip(p - 1)));
        }
    }
}

/// `a < b` in code point order.
pub fn chars_lt(a: &Vec<char>, b: &Vec<char>) -> (r: bool)
    ensures
        r == lex_lt(a@, b@),
{
    let mut i: usize = 0;
    assert(a@.skip(0) =~= a@);
    assert(b@.skip(0) =~= b@);
    loop
        invariant
            i <= a.len(),
            i <= b.len(),
            lex_lt(a@, b@) == lex_lt(a@.skip(i as int), b@.skip(i as int)),
        decreases a.len() - i,
    {
        if i == a.len() {
            return i < b.len();
        }
        if i == b.len() {
            return false;
        }
        assert(a@.skip(i as int)[0] == a@[i as int]);
        assert(b@.skip(i as int)[0] == b@[i as int]);
        if a[i] != b[i] {
            return a[i] < b[i];
        }
        assert(a@.skip(i as int).drop_first() =~= a@.skip(i + 1));
        assert(b@.skip(i as int).drop_first() =~= b@.skip(i + 1));
        i = i + 1;
    }
}

/// `a == b` as character sequences.
pub fn chars_eq(a: &Vec<char>, b: &Vec<char>) -> (r: bool)
    ensures
        r == (a@ == b@),
{
    if a.len() != b.len() {
        return false;
    }
    let mut i: usize = 0;
    while i < a.len()
        invariant
            a.len() == b.len(),
            i <= a.len(),
            forall|j: int| 0 <= j < i ==> a@[j] == b@[j],
        decreases a.len() - i,
    {
        if a[i] != b[i] {
            return false;
        }
        i = i + 1;
    }
    assert(a@ =~= b@);
    true
}

/// Read after write: after setting `k` to `v`, `k` reads `v` and every other
/// key reads what it read before.
pub proof fn law_get_after_insert(s: Seq<EntryView>, k: Seq<char>, v: Seq<char>, other: Seq<char>)
    ensures
        spec_get(spec_insert(s, k, v), k) == Some(v),
        other != k ==> spec_get(spec_insert(s, k, v), other) == spec_get(s, other),
    decreases s.len(),
{
    if s.len() > 0 && s[0].0 != k && !lex_lt(k, s[0].0) {
        law_get_after_insert(s.drop_first(), k, v, other);
        let r = spec_insert(s, k, v);
        assert(r.drop_first() =~= spec_insert(s.drop_first(), k, v));
    } else if s.len() > 0 && s[0].0 == k {
        let r = spec_insert(s, k, v);
        assert(r.drop_first() =~= s.drop_first());
    } else if s.len() > 0 {
        let r = spec_insert(s, k, v);
        assert(r.drop_first() =~= s);
    } else {
        let r = spec_insert(s, k, v);
        assert(r.drop_first() =~= s);
    }
}

} // verus!
