//! An ordered map keyed by text, kept sorted by the byte order of its keys,
//! which is the order in which Rust orders `str` and `String`.

use vstd::prelude::*;
use vstd::string::StringSliceAdditionalSpecFns;
use vstd::utf8::*;

verus! {

/// Strict lexicographic order on byte sequences.
pub open spec fn bytes_lt(a: Seq<u8>, b: Seq<u8>) -> bool
    decreases a.len(),
{
    if b.len() == 0 {
        false
    } else if a.len() == 0 {
        true
    } else if a[0] != b[0] {
        a[0] < b[0]
    } else {
        bytes_lt(a.drop_first(), b.drop_first())
    }
}

/// Strict order on text: the byte order of the UTF-8 encodings.
pub open spec fn text_lt(a: Seq<char>, b: Seq<char>) -> bool {
    bytes_lt(encode_utf8(a), encode_utf8(b))
}

/// No byte sequence comes before itself.
pub proof fn lemma_bytes_lt_irreflexive(a: Seq<u8>)
    ensures
        !bytes_lt(a, a),
    decreases a.len(),
{
    if a.len() > 0 {
        lemma_bytes_lt_irreflexive(a.drop_first());
    }
}

/// Of two different byte sequences, exactly one comes first.
pub proof fn lemma_bytes_lt_total(a: Seq<u8>, b: Seq<u8>)
    ensures
        a =~= b || bytes_lt(a, b) || bytes_lt(b, a),
        !(bytes_lt(a, b) && bytes_lt(b, a)),
    decreases a.len(),
{
    if a.len() > 0 && b.len() > 0 && a[0] == b[0] {
        lemma_bytes_lt_total(a.drop_first(), b.drop_first());
        if a.drop_first() =~= b.drop_first() {
            assert(a =~= seq![a[0]] + a.drop_first());
            assert(b =~= seq![b[0]] + b.drop_first());
        }
    }
}

/// The byte order is transitive.
pub proof fn lemma_bytes_lt_transitive(a: Seq<u8>, b: Seq<u8>, c: Seq<u8>)
    requires
        bytes_lt(a, b),
        bytes_lt(b, c),
    ensures
        bytes_lt(a, c),
    decreases a.len(),
{
    if a.len() > 0 && a[0] == b[0] && b[0] == c[0] {
        lemma_bytes_lt_transitive(a.drop_first(), b.drop_first(), c.drop_first());
    }
}

/// Facts about the text order: it is a strict total order.
pub proof fn lemma_text_order(a: Seq<char>, b: Seq<char>)
    ensures
        !text_lt(a, a),
        a == b || text_lt(a, b) || text_lt(b, a),
        !(text_lt(a, b) && text_lt(b, a)),
{
    lemma_bytes_lt_irreflexive(encode_utf8(a));
    lemma_bytes_lt_total(encode_utf8(a), encode_utf8(b));
    encode_utf8_decode_utf8(a);
    encode_utf8_decode_utf8(b);
}

/// The text order is transitive.
pub proof fn lemma_text_lt_transitive(a: Seq<char>, b: Seq<char>, c: Seq<char>)
    requires
        text_lt(a, b),
        text_lt(b, c),
    ensures
        text_lt(a, c),
{
    lemma_bytes_lt_transitive(encode_utf8(a), encode_utf8(b), encode_utf8(c));
}

/// The outcome of comparing two keys.
#[derive(Clone, Copy, Debug, PartialEq, Eq, Structural)]
pub enum KeyOrder {
    Less,
    Equal,
    Greater,
}

/// Compare two strings by the byte order of their encodings.
pub fn compare_text(a: &str, b: &str) -> (res: KeyOrder)
    ensures
        res == KeyOrder::Less <==> text_lt(a@, b@),
        res == KeyOrder::Equal <==> a@ == b@,
        res == KeyOrder::Greater <==> text_lt(b@, a@),
{
    let x = a.as_bytes();
    let y = b.as_bytes();
    proof {
        lemma_text_order(a@, b@);
    }
    let mut i: usize = 0;
    assert(x@.skip(0) =~= x@);
    assert(y@.skip(0) =~= y@);
    while i < x.len() && i < y.len()
        invariant
            x@ == a.spec_bytes(),
            y@ == b.spec_bytes(),
            i <= x@.len(),
            i <= y@.len(),
            bytes_lt(x@, y@) == bytes_lt(x@.skip(i as int), y@.skip(i as int)),
            bytes_lt(y@, x@) == bytes_lt(y@.skip(i as int), x@.skip(i as int)),
            x@.take(i as int) == y@.take(i as int),
        decreases x@.len() - i,
    {
        assert(x@.skip(i as int).drop_first() =~= x@.skip(i + 1));
        assert(y@.skip(i as int).drop_first() =~= y@.skip(i + 1));
        if x[i] < y[i] {
            return KeyOrder::Less;
        }
        if x[i] > y[i] {
            return KeyOrder::Greater;
        }
        assert(x@.take(i + 1) =~= x@.take(i as int).push(x@[i as int]));
        assert(y@.take(i + 1) =~= y@.take(i as int).push(y@[i as int]));
        i = i + 1;
    }
    if x.len() == y.len() {
        assert(x@ =~= x@.take(i as int));
        assert(y@ =~= y@.take(i as int));
        KeyOrder::Equal
    } else if x.len() < y.len() {
        assert(x@.skip(i as int).len() == 0);
        assert(x@ != y@);
        KeyOrder::Less
    } else {
        assert(y@.skip(i as int).len() == 0);
        assert(x@ != y@);
        KeyOrder::Greater
    }
}

/// A key that can be read as text.
pub trait TextKey: View<V = Seq<char>> {
    fn text(&self) -> (res: &str)
        ensures
            res@ == self@,
    ;
}

impl TextKey for String {
    fn text(&self) -> (res: &str) {
        self.as_str()
    }
}

impl TextKey for &'static str {
    fn text(&self) -> (res: &str) {
        *self
    }
}

/// True if the keys of `s` are strictly increasing.
pub open spec fn sorted_keys<V>(s: Seq<(Seq<char>, V)>) -> bool {
    forall|i: int, j: int| 0 <= i < j < s.len() ==> text_lt(#[trigger] s[i].0, #[trigger] s[j].0)
}

/// True if `i` is the first position of key `k` in `s`.
pub open spec fn first_key_at<V>(s: Seq<(Seq<char>, V)>, k: Seq<char>, i: int) -> bool {
    &&& 0 <= i < s.len()
    &&& s[i].0 == k
    &&& forall|j: int| 0 <= j < i ==> #[trigger] s[j].0 != k
}

/// The first position of key `k` in `s`, if present.
pub open spec fn find_key<V>(s: Seq<(Seq<char>, V)>, k: Seq<char>) -> Option<int> {
    if exists|i: int| first_key_at(s, k, i) {
        Some(choose|i: int| first_key_at(s, k, i))
    } else {
        None
    }
}

/// True if some entry of `s` has key `k`.
pub open spec fn has_key<V>(s: Seq<(Seq<char>, V)>, k: Seq<char>) -> bool {
    exists|i: int| 0 <= i < s.len() && #[trigger] s[i].0 == k
}

/// The value stored under `k` in `s`, if any: that of its first occurrence.
pub open spec fn lookup<V>(s: Seq<(Seq<char>, V)>, k: Seq<char>) -> Option<V> {
    match find_key(s, k) {
        Some(i) => Some(s[i].1),
        None => None,
    }
}

/// The number of leading entries of `s` whose keys come before `k`.
pub open spec fn count_below<V>(s: Seq<(Seq<char>, V)>, k: Seq<char>) -> nat
    decreases s.len(),
{
    if s.len() == 0 || !text_lt(s[0].0, k) {
        0
    } else {
        1 + count_below(s.drop_first(), k)
    }
}

/// `s` with `k` bound to `v`: the entry for `k` replaced, or a new entry
/// placed before the first key that does not come before `k`.
pub open spec fn insert_entry<V>(s: Seq<(Seq<char>, V)>, k: Seq<char>, v: V) -> Seq<(Seq<char>, V)> {
    match find_key(s, k) {
        Some(i) => s.update(i, (k, v)),
        None => s.insert(count_below(s, k) as int, (k, v)),
    }
}

/// The first position of a key is what a search finds.
pub proof fn lemma_find_key<V>(s: Seq<(Seq<char>, V)>, k: Seq<char>, i: int)
    requires
        first_key_at(s, k, i),
    ensures
        find_key(s, k) == Some(i),
{
    let j = choose|j: int| first_key_at(s, k, j);
    assert(first_key_at(s, k, j));
    if j < i {
        assert(s[j].0 != k);
    }
    if i < j {
        assert(s[i].0 != k);
    }
}


/// A key is present exactly when a search finds it.
pub proof fn lemma_has_key_find<V>(s: Seq<(Seq<char>, V)>, k: Seq<char>)
    ensures
        has_key(s, k) <==> find_key(s, k) is Some,
        find_key(s, k) matches Some(i) ==> first_key_at(s, k, i),
    decreases s.len(),
{
    if has_key(s, k) {
        let i = choose|i: int| 0 <= i < s.len() && #[trigger] s[i].0 == k;
        lemma_first_exists(s, k, i);
    }
}

proof fn lemma_first_exists<V>(s: Seq<(Seq<char>, V)>, k: Seq<char>, i: int)
    requires
        0 <= i < s.len(),
        s[i].0 == k,
    ensures
        exists|j: int| first_key_at(s, k, j),
    decreases i,
{
    if forall|j: int| 0 <= j < i ==> #[trigger] s[j].0 != k {
        assert(first_key_at(s, k, i));
    } else {
        let j = choose|j: int| 0 <= j < i && #[trigger] s[j].0 != k == false;
        lemma_first_exists(s, k, j);
    }
}

/// In sorted entries, each entry is what a lookup of its key finds.
pub proof fn lemma_sorted_lookup<V>(s: Seq<(Seq<char>, V)>, a: int)
    requires
        sorted_keys(s),
        0 <= a < s.len(),
    ensures
        lookup(s, s[a].0) == Some(s[a].1),
        find_key(s, s[a].0) == Some(a),
{
    assert forall|j: int| 0 <= j < a implies #[trigger] s[j].0 != s[a].0 by {
        assert(text_lt(s[j].0, s[a].0));
        lemma_text_order(s[j].0, s[a].0);
    }
    assert(first_key_at(s, s[a].0, a));
    lemma_find_key(s, s[a].0, a);
}

/// A lookup finds something exactly when the key is present.
pub proof fn lemma_lookup_has<V>(s: Seq<(Seq<char>, V)>, k: Seq<char>)
    ensures
        lookup(s, k) is Some <==> has_key(s, k),
{
    lemma_has_key_find(s, k);
}

/// In sorted entries, a present key is found at some position.
pub proof fn lemma_lookup_position<V>(s: Seq<(Seq<char>, V)>, k: Seq<char>)
    requires
        has_key(s, k),
    ensures
        exists|a: int| 0 <= a < s.len() && s[a].0 == k && lookup(s, k) == Some(s[a].1),
{
    lemma_has_key_find(s, k);
    let a = find_key(s, k)->0;
    assert(first_key_at(s, k, a));
}

/// Looking up in entries extended by one.
pub proof fn lemma_lookup_push<V>(t: Seq<(Seq<char>, V)>, e: (Seq<char>, V), k: Seq<char>)
    ensures
        lookup(t.push(e), k) == if has_key(t, k) {
            lookup(t, k)
        } else if e.0 == k {
            Some(e.1)
        } else {
            None
        },
{
    let u = t.push(e);
    lemma_has_key_find(t, k);
    lemma_has_key_find(u, k);
    if has_key(t, k) {
        let i = find_key(t, k)->0;
        assert(first_key_at(u, k, i));
        lemma_find_key(u, k, i);
    } else if e.0 == k {
        assert forall|j: int| 0 <= j < t.len() implies #[trigger] u[j].0 != k by {
            assert(u[j] == t[j]);
        }
        assert(first_key_at(u, k, t.len() as int));
        lemma_find_key(u, k, t.len() as int);
    } else {
        assert forall|j: int| 0 <= j < u.len() implies #[trigger] u[j].0 != k by {
            if j < t.len() {
                assert(u[j] == t[j]);
            }
        }
    }
}


/// In sorted entries, the key at position `n` is not among the keys before it.
pub proof fn lemma_sorted_fresh<V>(s: Seq<(Seq<char>, V)>, n: int)
    requires
        sorted_keys(s),
        0 <= n < s.len(),
    ensures
        !has_key(s.take(n), s[n].0),
        s.take(n + 1) == s.take(n).push(s[n]),
{
    if has_key(s.take(n), s[n].0) {
        let j = choose|j: int| 0 <= j < s.take(n).len() && #[trigger] s.take(n)[j].0 == s[n].0;
        assert(s.take(n)[j] == s[j]);
        assert(text_lt(s[j].0, s[n].0));
        lemma_text_order(s[j].0, s[n].0);
    }
    assert(s.take(n + 1) =~= s.take(n).push(s[n]));
}

/// Replacing a value keeps the keys, and so their order.
pub proof fn lemma_update_value<V>(s: Seq<(Seq<char>, V)>, i: int, v: V)
    requires
        sorted_keys(s),
        0 <= i < s.len(),
    ensures
        sorted_keys(s.update(i, (s[i].0, v))),
{
    let t = s.update(i, (s[i].0, v));
    assert forall|a: int, b: int| 0 <= a < b < t.len() implies text_lt(#[trigger] t[a].0, #[trigger] t[b].0) by {
        assert(t[a].0 == s[a].0 && t[b].0 == s[b].0);
    }
}

/// In sorted entries, a key is found at the place where it would be inserted.
proof fn lemma_count_below<V>(s: Seq<(Seq<char>, V)>, k: Seq<char>)
    requires
        sorted_keys(s),
    ensures
        count_below(s, k) <= s.len(),
        forall|j: int| 0 <= j < count_below(s, k) ==> text_lt(#[trigger] s[j].0, k),
        forall|j: int| count_below(s, k) <= j < s.len() ==> !text_lt(#[trigger] s[j].0, k),
    decreases s.len(),
{
    if s.len() > 0 {
        let t = s.drop_first();
        assert(sorted_keys(t)) by {
            assert forall|i: int, j: int| 0 <= i < j < t.len() implies text_lt(
                #[trigger] t[i].0,
                #[trigger] t[j].0,
            ) by {
                assert(t[i] == s[i + 1]);
                assert(t[j] == s[j + 1]);
            }
        }
        lemma_count_below(t, k);
        if text_lt(s[0].0, k) {
            assert forall|j: int| 0 <= j < count_below(s, k) implies text_lt(#[trigger] s[j].0, k) by {
                if j > 0 {
                    assert(s[j] == t[j - 1]);
                }
            }
            assert forall|j: int| count_below(s, k) <= j < s.len() implies !text_lt(
                #[trigger] s[j].0,
                k,
            ) by {
                assert(s[j] == t[j - 1]);
            }
        } else {
            assert forall|j: int| 0 <= j < s.len() implies !text_lt(#[trigger] s[j].0, k) by {
                if j > 0 {
                    assert(text_lt(s[0].0, s[j].0));
                    lemma_text_order(s[0].0, k);
                    lemma_text_order(s[j].0, k);
                    if text_lt(s[j].0, k) {
                        lemma_text_lt_transitive(s[0].0, s[j].0, k);
                    }
                }
            }
        }
    }
}

/// Inserting keeps the keys sorted.
pub proof fn lemma_insert_entry<V>(s: Seq<(Seq<char>, V)>, k: Seq<char>, v: V)
    requires
        sorted_keys(s),
    ensures
        sorted_keys(insert_entry(s, k, v)),
        lookup(insert_entry(s, k, v), k) == Some(v),
        forall|k2: Seq<char>| k2 != k ==> lookup(insert_entry(s, k, v), k2) == lookup(s, k2),
        has_key(s, k) ==> insert_entry(s, k, v).len() == s.len(),
        !has_key(s, k) ==> insert_entry(s, k, v).len() == s.len() + 1,
{
    let r = insert_entry(s, k, v);
    lemma_has_key_find(s, k);
    match find_key(s, k) {
        Some(i) => {
            assert(sorted_keys(r));
            assert(first_key_at(r, k, i));
            lemma_find_key(r, k, i);
            assert forall|k2: Seq<char>| k2 != k implies lookup(r, k2) == lookup(s, k2) by {
                lemma_has_key_find(s, k2);
                lemma_has_key_find(r, k2);
                if let Some(j) = find_key(s, k2) {
                    assert(first_key_at(r, k2, j));
                    lemma_find_key(r, k2, j);
                } else {
                    assert forall|j: int| 0 <= j < r.len() implies #[trigger] r[j].0 != k2 by {
                        if j != i {
                            assert(r[j] == s[j]);
                        }
                    }
                }
            }
        },
        None => {
            lemma_count_below(s, k);
            let p = count_below(s, k) as int;
            assert forall|a: int, b: int| 0 <= a < b < r.len() implies text_lt(
                #[trigger] r[a].0,
                #[trigger] r[b].0,
            ) by {
                if b < p {
                    assert(r[a] == s[a] && r[b] == s[b]);
                } else if b == p {
                    assert(r[a] == s[a]);
                } else if a == p {
                    assert(r[b] == s[b - 1]);
                    lemma_text_order(s[b - 1].0, k);
                } else if a < p {
                    assert(r[a] == s[a] && r[b] == s[b - 1]);
                } else {
                    assert(r[a] == s[a - 1] && r[b] == s[b - 1]);
                }
            }
            assert forall|j: int| 0 <= j < p implies #[trigger] r[j].0 != k by {
                assert(r[j] == s[j]);
            }
            assert(first_key_at(r, k, p));
            lemma_find_key(r, k, p);
            assert forall|k2: Seq<char>| k2 != k implies lookup(r, k2) == lookup(s, k2) by {
                lemma_has_key_find(s, k2);
                lemma_has_key_find(r, k2);
                if let Some(j) = find_key(s, k2) {
                    if j < p {
                        assert(first_key_at(r, k2, j));
                        lemma_find_key(r, k2, j);
                    } else {
                        assert(r[j + 1] == s[j]);
                        assert forall|m: int| 0 <= m < j + 1 implies #[trigger] r[m].0 != k2 by {
                            if m < p {
                                assert(r[m] == s[m]);
                            } else if m > p {
                                assert(r[m] == s[m - 1]);
                            }
                        }
                        assert(first_key_at(r, k2, j + 1));
                        lemma_find_key(r, k2, j + 1);
                    }
                } else {
                    assert forall|m: int| 0 <= m < r.len() implies #[trigger] r[m].0 != k2 by {
                        if m < p {
                            assert(r[m] == s[m]);
                        } else if m > p {
                            assert(r[m] == s[m - 1]);
                        }
                    }
                }
            }
        },
    }
}

/// `s` with `f` applied to every value.
pub open spec fn map_entries<V, W>(s: Seq<(Seq<char>, V)>, f: spec_fn(V) -> W) -> Seq<(Seq<char>, W)> {
    s.map_values(|e: (Seq<char>, V)| (e.0, f(e.1)))
}

/// Mapping the values keeps the keys, so what a lookup finds is mapped too.
pub proof fn lemma_map_entries<V, W>(s: Seq<(Seq<char>, V)>, f: spec_fn(V) -> W, k: Seq<char>)
    ensures
        lookup(map_entries(s, f), k) == match lookup(s, k) {
            Some(v) => Some(f(v)),
            None => None,
        },
        has_key(map_entries(s, f), k) == has_key(s, k),
        sorted_keys(map_entries(s, f)) == sorted_keys(s),
        find_key(map_entries(s, f), k) == find_key(s, k),
{
    let m = map_entries(s, f);
    assert forall|i: int| 0 <= i < s.len() implies #[trigger] m[i].0 == s[i].0 by {}
    assert forall|i: int| first_key_at(m, k, i) <==> first_key_at(s, k, i) by {
        if 0 <= i < s.len() {
            assert(m[i].0 == s[i].0);
            assert((forall|j: int| 0 <= j < i ==> #[trigger] m[j].0 != k) <==> (forall|j: int| 0 <= j < i ==> #[trigger] s[j].0 != k)) by {
                assert forall|j: int| 0 <= j < i implies m[j].0 == s[j].0 by {}
            }
        }
    }
    lemma_has_key_find(s, k);
    lemma_has_key_find(m, k);
    if let Some(i) = find_key(s, k) {
        lemma_find_key(m, k, i);
    }
    if has_key(m, k) {
        let i = choose|i: int| 0 <= i < m.len() && #[trigger] m[i].0 == k;
        assert(s[i].0 == k);
    }
    if has_key(s, k) {
        let i = choose|i: int| 0 <= i < s.len() && #[trigger] s[i].0 == k;
        assert(m[i].0 == k);
    }
    if sorted_keys(s) {
        assert forall|a: int, b: int| 0 <= a < b < m.len() implies text_lt(#[trigger] m[a].0, #[trigger] m[b].0) by {
            assert(m[a].0 == s[a].0 && m[b].0 == s[b].0);
        }
    }
    if sorted_keys(m) {
        assert forall|a: int, b: int| 0 <= a < b < s.len() implies text_lt(#[trigger] s[a].0, #[trigger] s[b].0) by {
            assert(m[a].0 == s[a].0 && m[b].0 == s[b].0);
        }
    }
}

proof fn lemma_count_below_map<V, W>(s: Seq<(Seq<char>, V)>, f: spec_fn(V) -> W, k: Seq<char>)
    ensures
        count_below(map_entries(s, f), k) == count_below(s, k),
    decreases s.len(),
{
    if s.len() > 0 {
        assert(map_entries(s, f).drop_first() =~= map_entries(s.drop_first(), f));
        lemma_count_below_map(s.drop_first(), f, k);
    }
}

proof fn lemma_count_below_le<V>(s: Seq<(Seq<char>, V)>, k: Seq<char>)
    ensures
        count_below(s, k) <= s.len(),
    decreases s.len(),
{
    if s.len() > 0 {
        lemma_count_below_le(s.drop_first(), k);
    }
}

/// Mapping the values commutes with binding a key.
pub proof fn lemma_insert_entry_map<V, W>(s: Seq<(Seq<char>, V)>, k: Seq<char>, v: V, f: spec_fn(V) -> W)
    ensures
        map_entries(insert_entry(s, k, v), f) == insert_entry(map_entries(s, f), k, f(v)),
{
    lemma_map_entries(s, f, k);
    lemma_count_below_map(s, f, k);
    let m = map_entries(s, f);
    match find_key(s, k) {
        Some(i) => {
            assert(map_entries(s.update(i, (k, v)), f) =~= m.update(i, (k, f(v))));
        },
        None => {
            let c = count_below(s, k) as int;
            assert(0 <= c <= s.len()) by {
                lemma_count_below_le(s, k);
            }
            assert(map_entries(s.insert(c, (k, v)), f) =~= m.insert(c, (k, f(v))));
        },
    }
}

/// Every entry of `insert_entry(s, k, v)` is the new binding or an entry of `s`.
pub proof fn lemma_insert_entry_from<V>(s: Seq<(Seq<char>, V)>, k: Seq<char>, v: V, a: int)
    requires
        sorted_keys(s),
        0 <= a < insert_entry(s, k, v).len(),
    ensures
        insert_entry(s, k, v)[a] == (k, v) || exists|b: int| 0 <= b < s.len() && s[b] == insert_entry(s, k, v)[a],
{
    let t = insert_entry(s, k, v);
    lemma_insert_entry(s, k, v);
    lemma_sorted_lookup(t, a);
    if t[a].0 != k {
        lemma_lookup_has(t, t[a].0);
        lemma_lookup_has(s, t[a].0);
        lemma_lookup_position(s, t[a].0);
        let b = choose|b: int| 0 <= b < s.len() && s[b].0 == t[a].0 && lookup(s, t[a].0) == Some(s[b].1);
        assert(s[b] == t[a]);
    }
}

/// An ordered map from text keys to values.
#[derive(Clone, Debug, PartialEq, Eq)]
pub struct TextMap<K, V> {
    entries: Vec<(K, V)>,
}

impl<K: TextKey, V> View for TextMap<K, V> {
    type V = Seq<(Seq<char>, V)>;

    closed spec fn view(&self) -> Seq<(Seq<char>, V)> {
        self.entries@.map_values(|e: (K, V)| (e.0@, e.1))
    }
}

impl<K: TextKey, V> Default for TextMap<K, V> {
    /// An empty map.
    fn default() -> (res: Self)
        ensures
            res@ == Seq::<(Seq<char>, V)>::empty(),
    {
        Self::new()
    }
}

impl<K: TextKey, V> TextMap<K, V> {
    /// An empty map.
    pub fn new() -> (res: Self)
        ensures
            res@ == Seq::<(Seq<char>, V)>::empty(),
            sorted_keys(res@),
    {
        let res = TextMap { entries: Vec::new() };
        assert(res@ =~= Seq::<(Seq<char>, V)>::empty());
        res
    }

    /// The number of entries.
    pub fn len(&self) -> (res: usize)
        ensures
            res == self@.len(),
    {
        self.entries.len()
    }

    /// True if there are no entries.
    pub fn is_empty(&self) -> (res: bool)
        ensures
            res == (self@.len() == 0),
    {
        self.entries.len() == 0
    }

    /// The key of the entry at position `i`.
    pub fn key_at(&self, i: usize) -> (res: &K)
        requires
            i < self@.len(),
        ensures
            res@ == self@[i as int].0,
    {
        &self.entries[i].0
    }

    /// The value of the entry at position `i`.
    pub fn value_at(&self, i: usize) -> (res: &V)
        requires
            i < self@.len(),
        ensures
            *res == self@[i as int].1,
    {
        &self.entries[i].1
    }

    /// Mutable access to the value of the entry at position `i`.
    pub fn value_mut(&mut self, i: usize) -> (res: &mut V)
        requires
            i < old(self)@.len(),
        ensures
            *res == old(self)@[i as int].1,
            final(self)@ == old(self)@.update(i as int, (old(self)@[i as int].0, *final(res))),
    {
        &mut self.entries[i].1
    }

    /// The position of `key`, if present.
    pub fn position(&self, key: &str) -> (res: Option<usize>)
        ensures
            res matches Some(i) ==> first_key_at(self@, key@, i as int),
            res is None ==> !has_key(self@, key@),
            res matches Some(i) ==> find_key(self@, key@) == Some(i as int),
            res is None ==> find_key(self@, key@) is None,
    {
        let mut i: usize = 0;
        while i < self.entries.len()
            invariant
                i <= self@.len(),
                forall|j: int| 0 <= j < i ==> #[trigger] self@[j].0 != key@,
            decreases self@.len() - i,
        {
            let k = self.entries[i].0.text();
            assert(self@[i as int].0 == k@);
            if crate::text::str_eq(k, key) {
                proof {
                    lemma_find_key(self@, key@, i as int);
                }
                return Some(i);
            }
            i = i + 1;
        }
        None
    }

    /// The value stored under `key`, if any.
    pub fn get(&self, key: &str) -> (res: Option<&V>)
        ensures
            res matches Some(v) ==> lookup(self@, key@) == Some(*v),
            res is None ==> lookup(self@, key@) is None,
            res is Some == has_key(self@, key@),
    {
        proof {
            lemma_has_key_find(self@, key@);
        }
        match self.position(key) {
            Some(i) => Some(&self.entries[i].1),
            None => None,
        }
    }

    /// True if `key` is present.
    pub fn contains_key(&self, key: &str) -> (res: bool)
        ensures
            res == has_key(self@, key@),
    {
        self.position(key).is_some()
    }

    /// Bind `key` to `value`, replacing any earlier value.
    pub fn insert(&mut self, key: K, value: V)
        requires
            sorted_keys(old(self)@),
        ensures
            final(self)@ == insert_entry(old(self)@, key@, value),
            sorted_keys(final(self)@),
            lookup(final(self)@, key@) == Some(value),
    {
        let ghost s = self@;
        proof {
            lemma_insert_entry(s, key@, value);
        }
        let ghost kv = key@;
        proof {
            lemma_has_key_find(s, kv);
        }
        match self.position(key.text()) {
            Some(i) => {
                self.entries.set(i, (key, value));
                assert(self@ =~= s.update(i as int, (kv, value)));
            },
            None => {
                proof {
                    lemma_count_below(s, kv);
                }
                let mut p: usize = 0;
                while p < self.entries.len()
                    invariant
                        self@ == s,
                        key@ == kv,
                        p <= s.len(),
                        forall|j: int| 0 <= j < p ==> text_lt(#[trigger] s[j].0, kv),
                        p <= count_below(s, kv),
                        count_below(s, kv) <= s.len(),
                        forall|j: int| 0 <= j < count_below(s, kv) ==> text_lt(#[trigger] s[j].0, kv),
                        forall|j: int|
                            count_below(s, kv) <= j < s.len() ==> !text_lt(#[trigger] s[j].0, kv),
                    ensures
                        self@ == s,
                        p == count_below(s, kv),
                    decreases s.len() - p,
                {
                    assert(s[p as int].0 == self.entries@[p as int].0@);
                    let order = compare_text(self.entries[p].0.text(), key.text());
                    if order != KeyOrder::Less {
                        break;
                    }
                    p = p + 1;
                }
                assert(p == count_below(s, kv));
                self.entries.insert(p, (key, value));
                assert(self@ =~= s.insert(p as int, (kv, value)));
            },
        }
    }
}

} // verus!
