//! An ordered map from strings to values, kept as two parallel vectors whose
//! keys are strictly increasing in the byte order of their UTF-8 encoding
//! (the order in which Rust compares `String` values).

use vstd::prelude::*;
use vstd::utf8::*;

verus! {

broadcast use vstd::utf8::encode_utf8_decode_utf8;

/// Result of comparing two keys.
#[derive(Debug, Clone, Copy, PartialEq, Eq, Structural)]
pub enum KeyOrder {
    Less,
    Equal,
    Greater,
}

/// Strict lexicographic order on byte sequences.
pub open spec fn bytes_lt(a: Seq<u8>, b: Seq<u8>) -> bool
    decreases a.len(),
{
    if a.len() == 0 {
        b.len() > 0
    } else if b.len() == 0 {
        false
    } else if a[0] != b[0] {
        a[0] < b[0]
    } else {
        bytes_lt(a.drop_first(), b.drop_first())
    }
}

/// Strict order on keys: the byte order of their UTF-8 encodings.
pub open spec fn key_lt(a: Seq<char>, b: Seq<char>) -> bool {
    bytes_lt(encode_utf8(a), encode_utf8(b))
}

/// Keys in strictly increasing order (and therefore pairwise distinct).
pub open spec fn strictly_sorted(ks: Seq<Seq<char>>) -> bool {
    forall|i: int, j: int| 0 <= i < j < ks.len() ==> key_lt(#[trigger] ks[i], #[trigger] ks[j])
}

/// The position of a key in a key sequence (meaningful when it occurs).
pub open spec fn index_of_key(ks: Seq<Seq<char>>, k: Seq<char>) -> int {
    choose|i: int| 0 <= i < ks.len() && ks[i] == k
}

/// The map described by parallel key and value sequences.
pub open spec fn map_of<V>(ks: Seq<Seq<char>>, vs: Seq<V>) -> Map<Seq<char>, V> {
    Map::new(
        |k: Seq<char>| exists|i: int| 0 <= i < ks.len() && ks[i] == k,
        |k: Seq<char>| vs[index_of_key(ks, k)],
    )
}

/// Parallel key and value sequences that describe the map `m`, keys in order.
pub open spec fn laid_out<V>(ks: Seq<Seq<char>>, vs: Seq<V>, m: Map<Seq<char>, V>) -> bool {
    &&& ks.len() == vs.len()
    &&& strictly_sorted(ks)
    &&& forall|i: int| 0 <= i < ks.len() ==> #[trigger] m.contains_key(ks[i]) && m[ks[i]] == vs[i]
    &&& forall|k: Seq<char>| #[trigger] m.contains_key(k) ==> exists|i: int| 0 <= i < ks.len() && ks[i] == k
}

pub proof fn lemma_bytes_lt_irreflexive(a: Seq<u8>)
    ensures
        !bytes_lt(a, a),
    decreases a.len(),
{
    if a.len() > 0 {
        lemma_bytes_lt_irreflexive(a.drop_first());
    }
}

pub proof fn lemma_bytes_lt_transitive(a: Seq<u8>, b: Seq<u8>, c: Seq<u8>)
    requires
        bytes_lt(a, b),
        bytes_lt(b, c),
    ensures
        bytes_lt(a, c),
    decreases a.len(),
{
    if a.len() > 0 && b.len() > 0 && c.len() > 0 && a[0] == b[0] && b[0] == c[0] {
        lemma_bytes_lt_transitive(a.drop_first(), b.drop_first(), c.drop_first());
    }
}

pub proof fn lemma_bytes_lt_total(a: Seq<u8>, b: Seq<u8>)
    ensures
        bytes_lt(a, b) || a == b || bytes_lt(b, a),
    decreases a.len(),
{
    if a.len() == 0 {
        if b.len() == 0 {
            assert(a =~= b);
        }
    } else if b.len() > 0 && a[0] == b[0] {
        lemma_bytes_lt_total(a.drop_first(), b.drop_first());
        if a.drop_first() == b.drop_first() {
            assert(a =~= seq![a[0]] + a.drop_first());
            assert(b =~= seq![b[0]] + b.drop_first());
        }
    }
}

pub proof fn lemma_key_lt_irreflexive(a: Seq<char>)
    ensures
        !key_lt(a, a),
{
    lemma_bytes_lt_irreflexive(encode_utf8(a));
}

pub proof fn lemma_key_lt_transitive(a: Seq<char>, b: Seq<char>, c: Seq<char>)
    requires
        key_lt(a, b),
        key_lt(b, c),
    ensures
        key_lt(a, c),
{
    lemma_bytes_lt_transitive(encode_utf8(a), encode_utf8(b), encode_utf8(c));
}

pub proof fn lemma_key_lt_total(a: Seq<char>, b: Seq<char>)
    ensures
        key_lt(a, b) || a == b || key_lt(b, a),
{
    lemma_bytes_lt_total(encode_utf8(a), encode_utf8(b));
    assert(decode_utf8(encode_utf8(a)) == a);
    assert(decode_utf8(encode_utf8(b)) == b);
}

/// In a strictly sorted key sequence, each key is found at its own position.
pub proof fn lemma_sorted_index(ks: Seq<Seq<char>>, i: int)
    requires
        strictly_sorted(ks),
        0 <= i < ks.len(),
    ensures
        index_of_key(ks, ks[i]) == i,
{
    let j = index_of_key(ks, ks[i]);
    assert(0 <= j < ks.len() && ks[j] == ks[i]);
    if j < i {
        lemma_key_lt_irreflexive(ks[i]);
    } else if i < j {
        lemma_key_lt_irreflexive(ks[i]);
    }
}

/// Strictly sorted parallel sequences lay out the map that they describe.
pub proof fn lemma_map_of_laid_out<V>(ks: Seq<Seq<char>>, vs: Seq<V>)
    requires
        ks.len() == vs.len(),
        strictly_sorted(ks),
    ensures
        laid_out(ks, vs, map_of(ks, vs)),
{
    let m = map_of(ks, vs);
    assert forall|i: int| 0 <= i < ks.len() implies #[trigger] m.contains_key(ks[i]) && m[ks[i]]
        == vs[i] by {
        lemma_sorted_index(ks, i);
    }
}

/// Two maps laid out by the same sequences are equal.
pub proof fn lemma_laid_out_unique<V>(ks: Seq<Seq<char>>, vs: Seq<V>, m1: Map<Seq<char>, V>, m2: Map<Seq<char>, V>)
    requires
        laid_out(ks, vs, m1),
        laid_out(ks, vs, m2),
    ensures
        m1 == m2,
{
    assert forall|k: Seq<char>| m1.contains_key(k) implies m2.contains_key(k) && m1[k] == m2[k] by {
        let i = choose|i: int| 0 <= i < ks.len() && ks[i] == k;
        assert(m2.contains_key(ks[i]));
    }
    assert forall|k: Seq<char>| m2.contains_key(k) implies m1.contains_key(k) by {
        let i = choose|i: int| 0 <= i < ks.len() && ks[i] == k;
        assert(m1.contains_key(ks[i]));
    }
    assert(m1 =~= m2);
}

/// Compares two byte sequences from position `i` on, both sharing the bytes before it.
fn compare_bytes_from(a: &[u8], b: &[u8], i: usize) -> (r: KeyOrder)
    requires
        i <= a@.len(),
        i <= b@.len(),
    ensures
        r == KeyOrder::Less <==> bytes_lt(a@.skip(i as int), b@.skip(i as int)),
        r == KeyOrder::Equal <==> a@.skip(i as int) == b@.skip(i as int),
        r == KeyOrder::Greater <==> bytes_lt(b@.skip(i as int), a@.skip(i as int)),
    decreases a@.len() - i,
{
    let ghost sa = a@.skip(i as int);
    let ghost sb = b@.skip(i as int);
    proof {
        lemma_bytes_lt_irreflexive(sa);
        lemma_bytes_lt_irreflexive(sb);
    }
    if i == a.len() {
        if i == b.len() {
            assert(sa =~= sb);
            KeyOrder::Equal
        } else {
            assert(sb.len() > 0);
            KeyOrder::Less
        }
    } else if i == b.len() {
        assert(sa.len() > 0);
        KeyOrder::Greater
    } else if a[i] < b[i] {
        assert(sa[0] == a@[i as int] && sb[0] == b@[i as int]);
        KeyOrder::Less
    } else if a[i] > b[i] {
        assert(sa[0] == a@[i as int] && sb[0] == b@[i as int]);
        KeyOrder::Greater
    } else {
        let r = compare_bytes_from(a, b, i + 1);
        proof {
            assert(sa.drop_first() =~= a@.skip(i + 1));
            assert(sb.drop_first() =~= b@.skip(i + 1));
            assert(sa[0] == sb[0]);
            assert(sa =~= seq![sa[0]] + sa.drop_first());
            assert(sb =~= seq![sb[0]] + sb.drop_first());
            if sa == sb {
                assert(a@.skip(i + 1) =~= b@.skip(i + 1));
            }
        }
        r
    }
}

/// Compares two keys in the order of their UTF-8 bytes.
pub fn compare_keys(a: &str, b: &str) -> (r: KeyOrder)
    ensures
        r == KeyOrder::Less <==> key_lt(a@, b@),
        r == KeyOrder::Equal <==> a@ == b@,
        r == KeyOrder::Greater <==> key_lt(b@, a@),
{
    let x = a.as_bytes();
    let y = b.as_bytes();
    let r = compare_bytes_from(x, y, 0);
    proof {
        assert(x@.skip(0) =~= x@);
        assert(y@.skip(0) =~= y@);
        assert(decode_utf8(encode_utf8(a@)) == a@);
        assert(decode_utf8(encode_utf8(b@)) == b@);
    }
    r
}

/// A map from strings to values, iterated in increasing key order.
#[derive(Debug)]
pub struct StrMap<V> {
    keys: Vec<String>,
    vals: Vec<V>,
}

impl<V> StrMap<V> {
    /// Where `key` stands or would stand in the key order.
    fn locate(&self, key: &str) -> (r: (usize, bool))
        ensures
            r.0 <= self.key_seq().len(),
            forall|j: int| 0 <= j < r.0 ==> key_lt(#[trigger] self.key_seq()[j], key@),
            r.1 ==> r.0 < self.key_seq().len() && self.key_seq()[r.0 as int] == key@,
            !r.1 ==> r.0 == self.key_seq().len() || key_lt(key@, self.key_seq()[r.0 as int]),
    {
        let mut i: usize = 0;
        while i < self.keys.len()
            invariant
                i <= self.keys@.len(),
                forall|j: int| 0 <= j < i ==> key_lt(#[trigger] self.key_seq()[j], key@),
            decreases self.keys@.len() - i,
        {
            match compare_keys(self.keys[i].as_str(), key) {
                KeyOrder::Less => {
                    i = i + 1;
                },
                KeyOrder::Equal => {
                    return (i, true);
                },
                KeyOrder::Greater => {
                    return (i, false);
                },
            }
        }
        (i, false)
    }

    /// Stores `value` under `key`, giving back the value it replaces.
    pub fn insert(&mut self, key: String, value: V) -> (r: Option<V>)
        ensures
            final(self)@ == old(self)@.insert(key@, value),
            match r {
                Some(v) => old(self)@.contains_key(key@) && v == old(self)@[key@],
                None => !old(self)@.contains_key(key@),
            },
    {
        proof {
            use_type_invariant(&*self);
            lemma_map_of_laid_out(self.key_seq(), self.value_seq());
        }
        let ghost m0 = self@;
        let ghost ks = self.key_seq();
        let ghost vs = self.value_seq();
        let (p, found) = self.locate(key.as_str());
        let mut tmp = StrMap::new();
        std::mem::swap(&mut tmp, self);
        let StrMap { mut keys, mut vals } = tmp;
        assert(keys@.map_values(|k: String| k@) == ks);
        if found {
            let old_value = vals.remove(p);
            vals.insert(p, value);
            proof {
                let vs2 = vals@;
                assert(vs2 =~= vs.update(p as int, value));
                assert(m0.contains_key(ks[p as int]));
                assert forall|i: int| 0 <= i < ks.len() implies #[trigger] m0.insert(key@, value).contains_key(ks[i])
                    && m0.insert(key@, value)[ks[i]] == vs2[i] by {
                    if i != p {
                        if i < p { assert(key_lt(ks[i], ks[p as int])); } else { assert(key_lt(ks[p as int], ks[i])); }
                        lemma_key_lt_irreflexive(ks[i]);
                        assert(m0.contains_key(ks[i]));
                    }
                }
                assert forall|k: Seq<char>| #[trigger] m0.insert(key@, value).contains_key(k)
                    implies exists|i: int| 0 <= i < ks.len() && ks[i] == k by {
                    if k != key@ {
                        assert(m0.contains_key(k));
                    } else {
                        assert(ks[p as int] == k);
                    }
                }
                lemma_map_of_laid_out(ks, vs2);
                lemma_laid_out_unique(ks, vs2, map_of(ks, vs2), m0.insert(key@, value));
            }
            *self = StrMap { keys, vals };
            Some(old_value)
        } else {
            let ghost kv = key@;
            keys.insert(p, key);
            vals.insert(p, value);
            proof {
                let ks2 = keys@.map_values(|k: String| k@);
                let vs2 = vals@;
                assert(ks2 =~= ks.insert(p as int, kv));
                assert(vs2 =~= vs.insert(p as int, value));
                assert forall|i: int, j: int| 0 <= i < j < ks2.len() implies key_lt(#[trigger] ks2[i], #[trigger] ks2[j]) by {
                    if j < p {
                    } else if j == p {
                    } else if i < p {
                        assert(ks2[j] == ks[j - 1]);
                        if p < ks.len() {
                            if j - 1 > p { assert(key_lt(ks[p as int], ks[j - 1])); lemma_key_lt_transitive(kv, ks[p as int], ks[j - 1]); }
                            lemma_key_lt_transitive(ks[i], kv, ks[j - 1]);
                        }
                    } else if i == p {
                        if j - 1 > p { assert(key_lt(ks[p as int], ks[j - 1])); lemma_key_lt_transitive(kv, ks[p as int], ks[j - 1]); }
                    } else {
                        assert(ks2[i] == ks[i - 1]);
                        assert(ks2[j] == ks[j - 1]);
                    }
                }
                assert forall|k: Seq<char>| m0.contains_key(k) implies k != kv by {
                    let i = choose|i: int| 0 <= i < ks.len() && ks[i] == k;
                    lemma_key_lt_irreflexive(kv);
                    if i < p {
                        assert(key_lt(ks[i], kv));
                    } else if i > p {
                        assert(key_lt(ks[p as int], ks[i]));
                        lemma_key_lt_transitive(kv, ks[p as int], ks[i]);
                    }
                }
                assert forall|i: int| 0 <= i < ks2.len() implies #[trigger] m0.insert(kv, value).contains_key(ks2[i])
                    && m0.insert(kv, value)[ks2[i]] == vs2[i] by {
                    if i < p {
                        assert(m0.contains_key(ks[i]));
                        lemma_key_lt_irreflexive(kv);
                    } else if i > p {
                        assert(ks2[i] == ks[i - 1]);
                        assert(m0.contains_key(ks[i - 1]));
                    }
                }
                assert forall|k: Seq<char>| #[trigger] m0.insert(kv, value).contains_key(k)
                    implies exists|i: int| 0 <= i < ks2.len() && ks2[i] == k by {
                    if k != kv {
                        assert(m0.contains_key(k));
                        let i = choose|i: int| 0 <= i < ks.len() && ks[i] == k;
                        if i < p { assert(ks2[i] == k); } else { assert(ks2[i + 1] == k); }
                    } else {
                        assert(ks2[p as int] == k);
                    }
                }
                lemma_map_of_laid_out(ks2, vs2);
                lemma_laid_out_unique(ks2, vs2, map_of(ks2, vs2), m0.insert(kv, value));
            }
            *self = StrMap { keys, vals };
            None
        }
    }

    /// Removes the entry of `key`, giving back its value.
    pub fn remove(&mut self, key: &str) -> (r: Option<V>)
        ensures
            final(self)@ == old(self)@.remove(key@),
            match r {
                Some(v) => old(self)@.contains_key(key@) && v == old(self)@[key@],
                None => !old(self)@.contains_key(key@),
            },
    {
        proof {
            use_type_invariant(&*self);
            lemma_map_of_laid_out(self.key_seq(), self.value_seq());
        }
        let ghost m0 = self@;
        let ghost ks = self.key_seq();
        let ghost vs = self.value_seq();
        match self.find(key) {
            None => {
                assert(m0.remove(key@) =~= m0);
                None
            },
            Some(p) => {
                let mut tmp = StrMap::new();
                std::mem::swap(&mut tmp, self);
                let StrMap { mut keys, mut vals } = tmp;
                assert(keys@.map_values(|k: String| k@) == ks);
                let _k = keys.remove(p);
                let v = vals.remove(p);
                proof {
                    let ks2 = keys@.map_values(|k: String| k@);
                    let vs2 = vals@;
                    assert(ks2 =~= ks.remove(p as int));
                    assert(vs2 =~= vs.remove(p as int));
                    assert(m0.contains_key(ks[p as int]));
                    assert forall|i: int, j: int| 0 <= i < j < ks2.len() implies key_lt(#[trigger] ks2[i], #[trigger] ks2[j]) by {
                        if i < p && j >= p { assert(ks2[j] == ks[j + 1]); }
                        else if i >= p { assert(ks2[i] == ks[i + 1]); assert(ks2[j] == ks[j + 1]); }
                    }
                    assert forall|i: int| 0 <= i < ks2.len() implies #[trigger] m0.remove(key@).contains_key(ks2[i])
                        && m0.remove(key@)[ks2[i]] == vs2[i] by {
                        if i < p {
                            assert(key_lt(ks[i], ks[p as int]));
                            lemma_key_lt_irreflexive(ks[i]);
                            assert(m0.contains_key(ks[i]));
                        } else {
                            assert(ks2[i] == ks[i + 1]);
                            assert(key_lt(ks[p as int], ks[i + 1]));
                            lemma_key_lt_irreflexive(ks[i + 1]);
                            assert(m0.contains_key(ks[i + 1]));
                        }
                    }
                    assert forall|k: Seq<char>| #[trigger] m0.remove(key@).contains_key(k)
                        implies exists|i: int| 0 <= i < ks2.len() && ks2[i] == k by {
                        assert(m0.contains_key(k));
                        let i = choose|i: int| 0 <= i < ks.len() && ks[i] == k;
                        if i < p { assert(ks2[i] == k); } else { assert(i != p); assert(ks2[i - 1] == k); }
                    }
                    lemma_map_of_laid_out(ks2, vs2);
                    lemma_laid_out_unique(ks2, vs2, map_of(ks2, vs2), m0.remove(key@));
                }
                *self = StrMap { keys, vals };
                Some(v)
            },
        }
    }

    /// The keys, in increasing order.
    pub closed spec fn key_seq(&self) -> Seq<Seq<char>> {
        self.keys@.map_values(|k: String| k@)
    }

    /// The values, in the order of their keys.
    pub closed spec fn value_seq(&self) -> Seq<V> {
        self.vals@
    }

    #[verifier::type_invariant]
    closed spec fn well_formed(self) -> bool {
        &&& self.keys@.len() == self.vals@.len()
        &&& strictly_sorted(self.keys@.map_values(|k: String| k@))
    }
}

impl<V: Clone> Clone for StrMap<V> {
    /// A copy with the same keys; each value is copied by its own `clone`.
    fn clone(&self) -> (r: Self)
        ensures
            r.key_seq() == self.key_seq(),
            r.value_seq().len() == self.value_seq().len(),
    {
        proof {
            use_type_invariant(self);
        }
        let mut keys: Vec<String> = Vec::new();
        let mut i: usize = 0;
        while i < self.keys.len()
            invariant
                i <= self.keys@.len(),
                keys@.len() == i,
                forall|j: int| 0 <= j < i ==> #[trigger] keys@[j]@ == self.keys@[j]@,
            decreases self.keys@.len() - i,
        {
            keys.push(self.keys[i].clone());
            i = i + 1;
        }
        let vals = self.vals.clone();
        assert(keys@.map_values(|k: String| k@) =~= self.key_seq());
        StrMap { keys, vals }
    }
}

impl<V> View for StrMap<V> {
    type V = Map<Seq<char>, V>;

    closed spec fn view(&self) -> Map<Seq<char>, V> {
        map_of(self.key_seq(), self.value_seq())
    }
}

impl<V> StrMap<V> {
    /// An empty map.
    pub fn new() -> (m: Self)
        ensures
            m@ == Map::<Seq<char>, V>::empty(),
            m.key_seq().len() == 0,
            m.value_seq().len() == 0,
    {
        let m = StrMap { keys: Vec::new(), vals: Vec::new() };
        assert(m@ =~= Map::<Seq<char>, V>::empty());
        m
    }

    /// Number of entries.
    pub fn len(&self) -> (n: usize)
        ensures
            n == self.key_seq().len(),
            self@.dom().finite(),
            self@.dom().len() == n,
    {
        proof {
            use_type_invariant(self);
            let ks = self.key_seq();
            assert(self@.dom() =~= ks.to_set());
            assert(ks.no_duplicates()) by {
                assert forall|i: int, j: int| 0 <= i < ks.len() && 0 <= j < ks.len() && i != j
                    implies ks[i] != ks[j] by {
                    lemma_key_lt_irreflexive(ks[i]);
                }
            }
            ks.unique_seq_to_set();
        }
        self.keys.len()
    }

    /// Whether there are no entries.
    pub fn is_empty(&self) -> (b: bool)
        ensures
            b == (self@.dom().len() == 0),
            b == (self.key_seq().len() == 0),
    {
        self.len() == 0
    }

    /// Position of `key`, if present.
    fn find(&self, key: &str) -> (r: Option<usize>)
        ensures
            match r {
                Some(i) => i < self.key_seq().len() && self.key_seq()[i as int] == key@,
                None => forall|i: int| 0 <= i < self.key_seq().len() ==> self.key_seq()[i] != key@,
            },
    {
        let mut i: usize = 0;
        while i < self.keys.len()
            invariant
                i <= self.keys@.len(),
                forall|j: int| 0 <= j < i ==> self.key_seq()[j] != key@,
            decreases self.keys@.len() - i,
        {
            if crate::text::str_eq(self.keys[i].as_str(), key) {
                return Some(i);
            }
            i = i + 1;
        }
        None
    }

    /// The value stored under `key`.
    pub fn get(&self, key: &str) -> (r: Option<&V>)
        ensures
            match r {
                Some(v) => self@.contains_key(key@) && *v == self@[key@],
                None => !self@.contains_key(key@),
            },
    {
        proof {
            use_type_invariant(self);
            lemma_map_of_laid_out(self.key_seq(), self.value_seq());
        }
        match self.find(key) {
            Some(i) => {
                assert(self@.contains_key(self.key_seq()[i as int]));
                Some(&self.vals[i])
            },
            None => None,
        }
    }

    /// Whether `key` has an entry.
    pub fn contains_key(&self, key: &str) -> (b: bool)
        ensures
            b == self@.contains_key(key@),
    {
        proof {
            use_type_invariant(self);
            lemma_map_of_laid_out(self.key_seq(), self.value_seq());
        }
        self.find(key).is_some()
    }

    /// The keys, in increasing order.
    pub fn keys(&self) -> (r: &[String])
        ensures
            r@.map_values(|k: String| k@) == self.key_seq(),
            laid_out(self.key_seq(), self.value_seq(), self@),
    {
        proof {
            use_type_invariant(self);
            lemma_map_of_laid_out(self.key_seq(), self.value_seq());
        }
        self.keys.as_slice()
    }

    /// The values, in the order of their keys.
    pub fn values(&self) -> (r: &[V])
        ensures
            r@ == self.value_seq(),
            laid_out(self.key_seq(), self.value_seq(), self@),
    {
        proof {
            use_type_invariant(self);
            lemma_map_of_laid_out(self.key_seq(), self.value_seq());
        }
        self.vals.as_slice()
    }

    /// Consumes the map, giving its values in the order of their keys.
    pub fn into_values(self) -> (r: Vec<V>)
        ensures
            r@ == self.value_seq(),
            laid_out(self.key_seq(), self.value_seq(), self@),
    {
        proof {
            use_type_invariant(&self);
            lemma_map_of_laid_out(self.key_seq(), self.value_seq());
        }
        let StrMap { keys, vals } = self;
        vals
    }
}

} // verus!
