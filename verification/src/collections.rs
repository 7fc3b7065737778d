//! String-keyed collections of the stores: the order of `String`, sorted
//! string sets, and association lists viewed as maps.
use vstd::prelude::*;

use crate::text::chars_of;

verus! {

/// The order of `String`: lexicographic on the characters' code points, which
/// is the byte order of their UTF-8 encoding.
pub open spec fn seq_lt(a: Seq<char>, b: Seq<char>) -> bool
    decreases a.len(),
{
    if a.len() == 0 {
        b.len() > 0
    } else if b.len() == 0 {
        false
    } else if (a[0] as u32) < (b[0] as u32) {
        true
    } else if a[0] == b[0] {
        seq_lt(a.drop_first(), b.drop_first())
    } else {
        false
    }
}

/// Two characters with the same code point are equal.
pub proof fn lemma_char_u32_injective(a: char, b: char)
    ensures
        (a as u32) == (b as u32) ==> a == b,
{
    broadcast use vstd::utf8::char_u32_cast;

    if (a as u32) == (b as u32) {
        assert(((a as u32) as char) == a);
        assert(((b as u32) as char) == b);
    }
}

/// `seq_lt` is irreflexive.
pub proof fn lemma_seq_lt_irrefl(a: Seq<char>)
    ensures
        !seq_lt(a, a),
    decreases a.len(),
{
    if a.len() > 0 {
        lemma_seq_lt_irrefl(a.drop_first());
    }
}

/// `seq_lt` is asymmetric and total on distinct sequences.
pub proof fn lemma_seq_lt_asym_total(a: Seq<char>, b: Seq<char>)
    ensures
        seq_lt(a, b) ==> !seq_lt(b, a),
        a != b ==> seq_lt(a, b) || seq_lt(b, a),
    decreases a.len(),
{
    if a.len() == 0 && b.len() == 0 {
        assert(a =~= b);
    }
    if a.len() > 0 && b.len() > 0 {
        lemma_char_u32_injective(a[0], b[0]);
        if a[0] == b[0] {
            lemma_seq_lt_asym_total(a.drop_first(), b.drop_first());
            if a != b {
                assert(a.drop_first() != b.drop_first()) by {
                    if a.drop_first() == b.drop_first() {
                        assert(a =~= seq![a[0]] + a.drop_first());
                        assert(b =~= seq![b[0]] + b.drop_first());
                    }
                }
            }
        }
    }
}

/// `seq_lt` is transitive.
pub proof fn lemma_seq_lt_trans(a: Seq<char>, b: Seq<char>, c: Seq<char>)
    ensures
        seq_lt(a, b) && seq_lt(b, c) ==> seq_lt(a, c),
    decreases a.len(),
{
    if a.len() > 0 && b.len() > 0 && c.len() > 0 {
        lemma_char_u32_injective(a[0], b[0]);
        lemma_char_u32_injective(b[0], c[0]);
        lemma_seq_lt_trans(a.drop_first(), b.drop_first(), c.drop_first());
    }
}

/// `seq_lt` is a strict total order.
pub proof fn lemma_seq_lt_order(a: Seq<char>, b: Seq<char>, c: Seq<char>)
    ensures
        !seq_lt(a, a),
        seq_lt(a, b) ==> !seq_lt(b, a),
        a != b ==> seq_lt(a, b) || seq_lt(b, a),
        seq_lt(a, b) && seq_lt(b, c) ==> seq_lt(a, c),
{
    lemma_seq_lt_irrefl(a);
    lemma_seq_lt_asym_total(a, b);
    lemma_seq_lt_trans(a, b, c);
}

/// Whether `a` comes before `b` in the order of `String`.
pub fn str_lt(a: &str, b: &str) -> (r: bool)
    ensures
        r == seq_lt(a@, b@),
{
    let x = chars_of(a);
    let y = chars_of(b);
    let mut i: usize = 0;
    assert(x@.subrange(0, x@.len() as int) =~= x@);
    assert(y@.subrange(0, y@.len() as int) =~= y@);
    while i < x.len() && i < y.len()
        invariant
            x@ == a@,
            y@ == b@,
            i <= x@.len(),
            i <= y@.len(),
            seq_lt(x@, y@) == seq_lt(x@.subrange(i as int, x@.len() as int), y@.subrange(
                i as int,
                y@.len() as int,
            )),
        decreases x@.len() - i,
    {
        let c = x[i];
        let d = y[i];
        proof {
            lemma_char_u32_injective(c, d);
            assert(x@.subrange(i as int, x@.len() as int).drop_first() =~= x@.subrange(
                i + 1,
                x@.len() as int,
            ));
            assert(y@.subrange(i as int, y@.len() as int).drop_first() =~= y@.subrange(
                i + 1,
                y@.len() as int,
            ));
        }
        if (c as u32) < (d as u32) {
            return true;
        }
        if c != d {
            return false;
        }
        i = i + 1;
    }
    i == x.len() && i < y.len()
}

/// Whether the strings of `s` are in strictly increasing order.
pub open spec fn sorted(s: Seq<Seq<char>>) -> bool {
    forall|i: int, j: int| 0 <= i < j < s.len() ==> seq_lt(#[trigger] s[i], #[trigger] s[j])
}

/// A strictly sorted sequence holds no element twice.
pub proof fn lemma_sorted_no_dup(s: Seq<Seq<char>>)
    requires
        sorted(s),
    ensures
        s.no_duplicates(),
{
    assert forall|i: int, j: int| 0 <= i < s.len() && 0 <= j < s.len() && i != j implies s[i]
        != s[j] by {
        lemma_seq_lt_order(s[i], s[j], s[j]);
        if i < j {
            assert(seq_lt(s[i], s[j]));
        } else {
            assert(seq_lt(s[j], s[i]));
        }
    }
}

/// Two sequences strictly sorted by the same irreflexive, transitive
/// relation and holding the same elements are equal.
pub proof fn lemma_sorted_unique<T>(a: Seq<T>, b: Seq<T>, lt: spec_fn(T, T) -> bool)
    requires
        forall|i: int, j: int| 0 <= i < j < a.len() ==> #[trigger] lt(a[i], a[j]),
        forall|i: int, j: int| 0 <= i < j < b.len() ==> #[trigger] lt(b[i], b[j]),
        forall|x: T| a.contains(x) <==> b.contains(x),
        forall|x: T| !(#[trigger] lt(x, x)),
        forall|x: T, y: T, z: T| #[trigger] lt(x, y) && #[trigger] lt(y, z) ==> lt(x, z),
    ensures
        a == b,
    decreases a.len() + b.len(),
{
    if a.len() == 0 || b.len() == 0 {
        if a.len() > 0 {
            assert(a.contains(a[0]));
        }
        if b.len() > 0 {
            assert(b.contains(b[0]));
        }
        assert(a =~= b);
    } else {
        assert(a.contains(a[0]));
        assert(b.contains(b[0]));
        let j = choose|j: int| 0 <= j < b.len() && b[j] == a[0];
        let i = choose|i: int| 0 <= i < a.len() && a[i] == b[0];
        if a[0] != b[0] {
            assert(j > 0 && i > 0);
            assert(lt(b[0], b[j]));
            assert(lt(a[0], a[i]));
            assert(lt(a[0], a[0]));
        }
        let ta = a.drop_first();
        let tb = b.drop_first();
        assert forall|x: T| ta.contains(x) <==> tb.contains(x) by {
            if ta.contains(x) {
                let k = choose|k: int| 0 <= k < ta.len() && ta[k] == x;
                assert(a[k + 1] == x);
                assert(lt(a[0], a[k + 1]));
                assert(a.contains(x));
                let m = choose|m: int| 0 <= m < b.len() && b[m] == x;
                if m == 0 {
                    assert(lt(x, x));
                }
                assert(tb[m - 1] == x);
            }
            if tb.contains(x) {
                let k = choose|k: int| 0 <= k < tb.len() && tb[k] == x;
                assert(b[k + 1] == x);
                assert(lt(b[0], b[k + 1]));
                assert(b.contains(x));
                let m = choose|m: int| 0 <= m < a.len() && a[m] == x;
                if m == 0 {
                    assert(lt(x, x));
                }
                assert(ta[m - 1] == x);
            }
        }
        assert forall|p: int, q: int| 0 <= p < q < ta.len() implies #[trigger] lt(ta[p], ta[q]) by {
            assert(lt(a[p + 1], a[q + 1]));
        }
        assert forall|p: int, q: int| 0 <= p < q < tb.len() implies #[trigger] lt(tb[p], tb[q]) by {
            assert(lt(b[p + 1], b[q + 1]));
        }
        lemma_sorted_unique(ta, tb, lt);
        assert(a =~= seq![a[0]] + ta);
        assert(b =~= seq![b[0]] + tb);
    }
}

/// The strictly sorted sequence of the elements of a finite set of strings.
pub open spec fn sorted_listing(s: Set<Seq<char>>) -> Seq<Seq<char>> {
    choose|l: Seq<Seq<char>>| sorted(l) && l.to_set() == s
}

/// A strictly sorted sequence is the sorted listing of its elements.
pub proof fn lemma_sorted_listing(l: Seq<Seq<char>>)
    requires
        sorted(l),
    ensures
        sorted_listing(l.to_set()) == l,
{
    let m = sorted_listing(l.to_set());
    assert(sorted(l) && l.to_set() == l.to_set());
    assert(sorted(m) && m.to_set() == l.to_set());
    let lt = |x: Seq<char>, y: Seq<char>| seq_lt(x, y);
    assert forall|x: Seq<char>| m.contains(x) <==> l.contains(x) by {
        assert(m.to_set().contains(x) == m.contains(x));
        assert(l.to_set().contains(x) == l.contains(x));
    }
    assert forall|x: Seq<char>| !(#[trigger] lt(x, x)) by {
        lemma_seq_lt_irrefl(x);
    }
    assert forall|x: Seq<char>, y: Seq<char>, z: Seq<char>| #[trigger] lt(x, y) && #[trigger] lt(
        y,
        z,
    ) implies lt(x, z) by {
        lemma_seq_lt_trans(x, y, z);
    }
    assert forall|i: int, j: int| 0 <= i < j < m.len() implies #[trigger] lt(m[i], m[j]) by {}
    assert forall|i: int, j: int| 0 <= i < j < l.len() implies #[trigger] lt(l[i], l[j]) by {}
    lemma_sorted_unique(m, l, lt);
}

/// A set of strings kept as a strictly sorted vector.
pub struct StringSet {
    items: Vec<String>,
}

impl View for StringSet {
    type V = Set<Seq<char>>;

    closed spec fn view(&self) -> Set<Seq<char>> {
        self.items.deep_view().to_set()
    }
}

impl StringSet {
    /// The set's representation invariant: its vector is strictly sorted.
    pub closed spec fn wf(&self) -> bool {
        sorted(self.items.deep_view())
    }

    /// The empty set.
    pub fn new() -> (r: StringSet)
        ensures
            r.wf(),
            r@ == Set::<Seq<char>>::empty(),
    {
        let r = StringSet { items: Vec::new() };
        assert(r.items.deep_view() =~= Seq::<Seq<char>>::empty());
        assert(r@ =~= Set::<Seq<char>>::empty());
        r
    }

    /// Position of the first element not below `x`.
    fn lower_bound(&self, x: &str) -> (r: usize)
        requires
            self.wf(),
        ensures
            r <= self.items@.len(),
            forall|i: int| 0 <= i < r ==> seq_lt(#[trigger] self.items.deep_view()[i], x@),
            r < self.items@.len() ==> !seq_lt(self.items.deep_view()[r as int], x@),
    {
        let mut i: usize = 0;
        while i < self.items.len()
            invariant
                i <= self.items@.len(),
                forall|k: int| 0 <= k < i ==> seq_lt(#[trigger] self.items.deep_view()[k], x@),
            decreases self.items@.len() - i,
        {
            if !str_lt(self.items[i].as_str(), x) {
                return i;
            }
            i = i + 1;
        }
        i
    }

    /// Whether `x` belongs to the set.
    pub fn contains(&self, x: &str) -> (r: bool)
        requires
            self.wf(),
        ensures
            r == self@.contains(x@),
    {
        let k = self.lower_bound(x);
        let ghost s = self.items.deep_view();
        let found = k < self.items.len() && crate::text::str_eq(self.items[k].as_str(), x);
        proof {
            if !found {
                assert(!s.contains(x@)) by {
                    if s.contains(x@) {
                        let j = choose|j: int| 0 <= j < s.len() && s[j] == x@;
                        lemma_seq_lt_order(x@, x@, x@);
                        if j >= k {
                            lemma_seq_lt_order(s[k as int], x@, x@);
                            if j > k {
                                assert(seq_lt(s[k as int], s[j]));
                            }
                        }
                    }
                }
            } else {
                assert(s[k as int] == x@);
            }
        }
        found
    }

    /// Adds `x` to the set.
    pub fn insert(&mut self, x: String)
        requires
            old(self).wf(),
        ensures
            final(self).wf(),
            final(self)@ == old(self)@.insert(x@),
    {
        let k = self.lower_bound(x.as_str());
        let ghost s = self.items.deep_view();
        if k < self.items.len() && crate::text::str_eq(self.items[k].as_str(), x.as_str()) {
            assert(s[k as int] == x@);
            assert(self@ =~= old(self)@.insert(x@));
            return;
        }
        proof {
            if k < s.len() {
                lemma_seq_lt_order(s[k as int], x@, x@);
                assert(seq_lt(x@, s[k as int]));
            }
        }
        let ghost xv = x@;
        self.items.insert(k, x);
        let ghost t = self.items.deep_view();
        assert(t =~= s.insert(k as int, xv));
        assert forall|i: int, j: int| 0 <= i < j < t.len() implies seq_lt(
            #[trigger] t[i],
            #[trigger] t[j],
        ) by {
            if j < k {
                assert(t[i] == s[i] && t[j] == s[j]);
            } else if j == k {
                assert(t[i] == s[i]);
            } else if i < k {
                assert(t[i] == s[i] && t[j] == s[j - 1]);
                lemma_seq_lt_order(s[i], xv, s[k as int]);
                if j - 1 > k {
                    assert(seq_lt(s[k as int], s[j - 1]));
                    lemma_seq_lt_order(s[i], s[k as int], s[j - 1]);
                }
            } else if i == k {
                assert(t[j] == s[j - 1]);
                if j - 1 > k {
                    assert(seq_lt(s[k as int], s[j - 1]));
                    lemma_seq_lt_order(xv, s[k as int], s[j - 1]);
                }
            } else {
                assert(t[i] == s[i - 1] && t[j] == s[j - 1]);
            }
        }
        assert(self@ =~= old(self)@.insert(xv)) by {
            assert forall|y: Seq<char>| self@.contains(y) <==> old(self)@.insert(xv).contains(
                y,
            ) by {
                if old(self)@.contains(y) {
                    let j = choose|j: int| 0 <= j < s.len() && s[j] == y;
                    if j < k {
                        assert(t[j] == y);
                    } else {
                        assert(t[j + 1] == y);
                    }
                }
                if self@.contains(y) {
                    let j = choose|j: int| 0 <= j < t.len() && t[j] == y;
                    if j < k {
                        assert(s[j] == y);
                    } else if j > k {
                        assert(s[j - 1] == y);
                    }
                }
                if y == xv {
                    assert(t[k as int] == xv);
                }
            }
        }
    }

    /// Removes `x` from the set.
    pub fn remove(&mut self, x: &str)
        requires
            old(self).wf(),
        ensures
            final(self).wf(),
            final(self)@ == old(self)@.remove(x@),
    {
        let k = self.lower_bound(x);
        let ghost s = self.items.deep_view();
        if k < self.items.len() && crate::text::str_eq(self.items[k].as_str(), x) {
            self.items.remove(k);
            let ghost t = self.items.deep_view();
            assert(t =~= s.remove(k as int));
            assert forall|i: int, j: int| 0 <= i < j < t.len() implies seq_lt(
                #[trigger] t[i],
                #[trigger] t[j],
            ) by {
                if j < k {
                    assert(t[i] == s[i] && t[j] == s[j]);
                } else if i < k {
                    assert(t[i] == s[i] && t[j] == s[j + 1]);
                } else {
                    assert(t[i] == s[i + 1] && t[j] == s[j + 1]);
                }
            }
            proof {
                lemma_sorted_no_dup(s);
            }
            assert(self@ =~= old(self)@.remove(x@)) by {
                assert forall|y: Seq<char>| self@.contains(y) <==> old(self)@.remove(x@).contains(
                    y,
                ) by {
                    if self@.contains(y) {
                        let j = choose|j: int| 0 <= j < t.len() && t[j] == y;
                        if j < k {
                            assert(s[j] == y);
                        } else {
                            assert(s[j + 1] == y);
                        }
                    }
                    if old(self)@.contains(y) && y != x@ {
                        let j = choose|j: int| 0 <= j < s.len() && s[j] == y;
                        if j < k {
                            assert(t[j] == y);
                        } else {
                            assert(j != k);
                            assert(t[j - 1] == y);
                        }
                    }
                }
            }
        } else {
            proof {
                if s.contains(x@) {
                    let j = choose|j: int| 0 <= j < s.len() && s[j] == x@;
                    lemma_seq_lt_order(x@, x@, x@);
                    if j >= k {
                        lemma_seq_lt_order(s[k as int], x@, x@);
                        if j > k {
                            assert(seq_lt(s[k as int], s[j]));
                        }
                    }
                }
            }
            assert(self@ =~= old(self)@.remove(x@));
        }
    }

    /// Whether the set is empty.
    pub fn is_empty(&self) -> (r: bool)
        ensures
            r == (self@ == Set::<Seq<char>>::empty()),
    {
        proof {
            if self.items@.len() > 0 {
                assert(self@.contains(self.items.deep_view()[0]));
            } else {
                assert(self@ =~= Set::<Seq<char>>::empty());
            }
        }
        self.items.len() == 0
    }

    /// The elements in increasing order.
    pub fn to_sorted_vec(&self) -> (r: Vec<String>)
        requires
            self.wf(),
        ensures
            sorted(r.deep_view()),
            r.deep_view().to_set() == self@,
    {
        let mut out: Vec<String> = Vec::new();
        let mut i: usize = 0;
        while i < self.items.len()
            invariant
                i <= self.items@.len(),
                out.deep_view() == self.items.deep_view().subrange(0, i as int),
            decreases self.items@.len() - i,
        {
            let ghost before = out.deep_view();
            let t = self.items[i].clone();
            out.push(t);
            assert(out.deep_view() =~= before.push(t@));
            i = i + 1;
            assert(out.deep_view() =~= self.items.deep_view().subrange(0, i as int));
        }
        assert(out.deep_view() =~= self.items.deep_view());
        out
    }
}

/// Whether no two entries of `e` share a key.
pub open spec fn keys_unique<V>(e: Seq<(String, V)>) -> bool {
    forall|i: int, j: int| 0 <= i < e.len() && 0 <= j < e.len() && i != j ==> (#[trigger] e[i]).0@
        != (#[trigger] e[j]).0@
}

/// Whether some entry of `e` has key `k`.
pub open spec fn has_key<V>(e: Seq<(String, V)>, k: Seq<char>) -> bool {
    exists|i: int| 0 <= i < e.len() && (#[trigger] e[i]).0@ == k
}

/// The map an association list stands for.
pub open spec fn assoc_view<V>(e: Seq<(String, V)>) -> Map<Seq<char>, V> {
    Map::new(
        |k: Seq<char>| has_key(e, k),
        |k: Seq<char>| e[choose|i: int| 0 <= i < e.len() && (#[trigger] e[i]).0@ == k].1,
    )
}

/// With unique keys, the map sends the key of entry `i` to its value.
pub proof fn lemma_assoc_at<V>(e: Seq<(String, V)>, i: int)
    requires
        keys_unique(e),
        0 <= i < e.len(),
    ensures
        assoc_view(e).contains_key(e[i].0@),
        assoc_view(e)[e[i].0@] == e[i].1,
{
    let k = e[i].0@;
    assert(has_key(e, k));
    let j = choose|j: int| 0 <= j < e.len() && (#[trigger] e[j]).0@ == k;
    assert(j == i);
}

/// A map from strings, kept as a vector of entries with distinct keys.
pub struct AssocList<V> {
    entries: Vec<(String, V)>,
}

impl<V> View for AssocList<V> {
    type V = Map<Seq<char>, V>;

    closed spec fn view(&self) -> Map<Seq<char>, V> {
        assoc_view(self.entries@)
    }
}

impl<V> AssocList<V> {
    /// The list's representation invariant: keys are distinct.
    pub closed spec fn wf(&self) -> bool {
        keys_unique(self.entries@)
    }

    /// The empty map.
    pub fn new() -> (r: AssocList<V>)
        ensures
            r.wf(),
            r@ == Map::<Seq<char>, V>::empty(),
    {
        let r = AssocList { entries: Vec::new() };
        assert(r@ =~= Map::<Seq<char>, V>::empty());
        r
    }

    /// Position of the entry with key `k`.
    fn find(&self, k: &str) -> (r: Option<usize>)
        requires
            self.wf(),
        ensures
            r matches Some(i) ==> i < self.entries@.len() && self.entries@[i as int].0@ == k@,
            r is None ==> !has_key(self.entries@, k@),
    {
        let mut i: usize = 0;
        while i < self.entries.len()
            invariant
                i <= self.entries@.len(),
                forall|j: int| 0 <= j < i ==> (#[trigger] self.entries@[j]).0@ != k@,
            decreases self.entries@.len() - i,
        {
            if crate::text::str_eq(self.entries[i].0.as_str(), k) {
                return Some(i);
            }
            i = i + 1;
        }
        None
    }

    /// The value under `k`.
    pub fn get(&self, k: &str) -> (r: Option<&V>)
        requires
            self.wf(),
        ensures
            r matches Some(v) ==> self@.contains_key(k@) && *v == self@[k@],
            r is None ==> !self@.contains_key(k@),
    {
        match self.find(k) {
            Some(i) => {
                proof {
                    lemma_assoc_at(self.entries@, i as int);
                }
                Some(&self.entries[i].1)
            },
            None => None,
        }
    }

    /// Whether `k` has a value.
    pub fn contains_key(&self, k: &str) -> (r: bool)
        requires
            self.wf(),
        ensures
            r == self@.contains_key(k@),
    {
        self.find(k).is_some()
    }

    /// Sets the value under `k`.
    pub fn insert(&mut self, k: String, v: V)
        requires
            old(self).wf(),
        ensures
            final(self).wf(),
            final(self)@ == old(self)@.insert(k@, v),
    {
        let ghost e = self.entries@;
        let ghost kv = k@;
        match self.find(k.as_str()) {
            Some(i) => {
                self.entries.set(i, (k, v));
                let ghost t = self.entries@;
                assert(keys_unique(t)) by {
                    assert forall|a: int, b: int|
                        0 <= a < t.len() && 0 <= b < t.len() && a != b implies (#[trigger] t[a]).0@
                        != (#[trigger] t[b]).0@ by {
                        assert(e[a].0@ != e[b].0@);
                    }
                }
                assert(self@ =~= old(self)@.insert(kv, v)) by {
                    assert forall|key: Seq<char>| #[trigger]
                        self@.contains_key(key) == old(self)@.insert(kv, v).contains_key(key) by {
                        if has_key(t, key) {
                            let j = choose|j: int| 0 <= j < t.len() && (#[trigger] t[j]).0@ == key;
                            if j != i {
                                assert(e[j].0@ == key);
                            }
                        }
                        if has_key(e, key) {
                            let j = choose|j: int| 0 <= j < e.len() && (#[trigger] e[j]).0@ == key;
                            assert(t[j].0@ == key);
                        }
                    }
                    assert forall|key: Seq<char>| #[trigger]
                        self@.contains_key(key) implies self@[key] == old(self)@.insert(
                        kv,
                        v,
                    )[key] by {
                        let j = choose|j: int| 0 <= j < t.len() && (#[trigger] t[j]).0@ == key;
                        lemma_assoc_at(t, j);
                        if j != i {
                            lemma_assoc_at(e, j);
                        }
                    }
                }
            },
            None => {
                self.entries.push((k, v));
                let ghost t = self.entries@;
                assert(keys_unique(t)) by {
                    assert forall|a: int, b: int|
                        0 <= a < t.len() && 0 <= b < t.len() && a != b implies (#[trigger] t[a]).0@
                        != (#[trigger] t[b]).0@ by {
                        if a < e.len() && b < e.len() {
                            assert(e[a].0@ != e[b].0@);
                        } else if a < e.len() {
                            assert(e[a] == t[a]);
                        } else {
                            assert(e[b] == t[b]);
                        }
                    }
                }
                assert(self@ =~= old(self)@.insert(kv, v)) by {
                    assert forall|key: Seq<char>| #[trigger]
                        self@.contains_key(key) == old(self)@.insert(kv, v).contains_key(key) by {
                        if has_key(t, key) {
                            let j = choose|j: int| 0 <= j < t.len() && (#[trigger] t[j]).0@ == key;
                            if j < e.len() {
                                assert(e[j].0@ == key);
                            }
                        }
                        if has_key(e, key) {
                            let j = choose|j: int| 0 <= j < e.len() && (#[trigger] e[j]).0@ == key;
                            assert(t[j].0@ == key);
                        }
                        if key == kv {
                            assert(t[e.len() as int].0@ == key);
                        }
                    }
                    assert forall|key: Seq<char>| #[trigger]
                        self@.contains_key(key) implies self@[key] == old(self)@.insert(
                        kv,
                        v,
                    )[key] by {
                        let j = choose|j: int| 0 <= j < t.len() && (#[trigger] t[j]).0@ == key;
                        lemma_assoc_at(t, j);
                        if j < e.len() {
                            lemma_assoc_at(e, j);
                        }
                    }
                }
            },
        }
    }

    /// Removes the entry under `k` and returns its value.
    pub fn remove(&mut self, k: &str) -> (r: Option<V>)
        requires
            old(self).wf(),
        ensures
            final(self).wf(),
            final(self)@ == old(self)@.remove(k@),
            r matches Some(v) ==> old(self)@.contains_key(k@) && v == old(self)@[k@],
            r is None ==> !old(self)@.contains_key(k@),
    {
        let ghost e = self.entries@;
        match self.find(k) {
            Some(i) => {
                proof {
                    lemma_assoc_at(e, i as int);
                }
                let (_, v) = self.entries.remove(i);
                let ghost t = self.entries@;
                assert(t =~= e.remove(i as int));
                assert(keys_unique(t)) by {
                    assert forall|a: int, b: int|
                        0 <= a < t.len() && 0 <= b < t.len() && a != b implies (#[trigger] t[a]).0@
                        != (#[trigger] t[b]).0@ by {
                        let a2 = if a < i {
                            a
                        } else {
                            a + 1
                        };
                        let b2 = if b < i {
                            b
                        } else {
                            b + 1
                        };
                        assert(t[a] == e[a2] && t[b] == e[b2]);
                    }
                }
                assert(self@ =~= old(self)@.remove(k@)) by {
                    assert forall|key: Seq<char>| #[trigger]
                        self@.contains_key(key) == old(self)@.remove(k@).contains_key(key) by {
                        if has_key(t, key) {
                            let j = choose|j: int| 0 <= j < t.len() && (#[trigger] t[j]).0@ == key;
                            let j2 = if j < i {
                                j
                            } else {
                                j + 1
                            };
                            assert(t[j] == e[j2]);
                            assert(j2 != i);
                        }
                        if has_key(e, key) && key != k@ {
                            let j = choose|j: int| 0 <= j < e.len() && (#[trigger] e[j]).0@ == key;
                            if j < i {
                                assert(t[j] == e[j]);
                            } else {
                                assert(j != i);
                                assert(t[j - 1] == e[j]);
                            }
                        }
                    }
                    assert forall|key: Seq<char>| #[trigger]
                        self@.contains_key(key) implies self@[key] == old(self)@.remove(k@)[key] by {
                        let j = choose|j: int| 0 <= j < t.len() && (#[trigger] t[j]).0@ == key;
                        let j2 = if j < i {
                            j
                        } else {
                            j + 1
                        };
                        assert(t[j] == e[j2]);
                        lemma_assoc_at(t, j);
                        lemma_assoc_at(e, j2);
                    }
                }
                Some(v)
            },
            None => {
                assert(self@ =~= old(self)@.remove(k@));
                None
            },
        }
    }

    /// The keys, in no particular order, each once.
    pub fn keys(&self) -> (r: Vec<String>)
        requires
            self.wf(),
        ensures
            r.deep_view().no_duplicates(),
            r.deep_view().to_set() == self@.dom(),
            r@.len() == self@.dom().len(),
    {
        let mut out: Vec<String> = Vec::new();
        let mut i: usize = 0;
        while i < self.entries.len()
            invariant
                i <= self.entries@.len(),
                out@.len() == i,
                forall|j: int| 0 <= j < i ==> (#[trigger] out.deep_view()[j]) == self.entries@[j].0@,
            decreases self.entries@.len() - i,
        {
            let t = self.entries[i].0.clone();
            let ghost before = out.deep_view();
            out.push(t);
            assert(out.deep_view() =~= before.push(t@));
            i = i + 1;
        }
        let ghost e = self.entries@;
        let ghost o = out.deep_view();
        assert(o.no_duplicates()) by {
            assert forall|a: int, b: int|
                0 <= a < o.len() && 0 <= b < o.len() && a != b implies o[a] != o[b] by {
                assert(o[a] == e[a].0@);
                assert(o[b] == e[b].0@);
            }
        }
        assert(o.to_set() =~= self@.dom()) by {
            assert forall|key: Seq<char>| o.to_set().contains(key) <==> self@.dom().contains(key) by {
                if o.to_set().contains(key) {
                    let j = choose|j: int| 0 <= j < o.len() && o[j] == key;
                    assert(e[j].0@ == key);
                }
                if has_key(e, key) {
                    let j = choose|j: int| 0 <= j < e.len() && (#[trigger] e[j]).0@ == key;
                    assert(o[j] == key);
                }
            }
        }
        proof {
            o.unique_seq_to_set();
        }
        out
    }
}

} // verus!
