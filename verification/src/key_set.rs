//! Sets of text keys that are walked in ascending order.
use crate::text::{
    same_text, text_before, text_lt, text_order_is_strict_and_total, texts,
};
use vstd::prelude::*;

verus! {

/// Each text precedes those after it.
pub open spec fn ascending(s: Seq<Seq<char>>) -> bool {
    forall|i: int, j: int| 0 <= i < j < s.len() ==> text_lt(s[i], s[j])
}

/// `s` lists the texts of `set` in ascending order, each once.
pub open spec fn lists(s: Seq<Seq<char>>, set: Set<Seq<char>>) -> bool {
    &&& ascending(s)
    &&& s.to_set() == set
}

/// A set has one ascending listing: two listings of the same set are the same list.
pub proof fn listing_is_unique(a: Seq<Seq<char>>, b: Seq<Seq<char>>, set: Set<Seq<char>>)
    requires
        lists(a, set),
        lists(b, set),
    ensures
        a == b,
    decreases a.len(),
{
    text_order_is_strict_and_total();
    if a.len() == 0 {
        if b.len() > 0 {
            assert(b.to_set().contains(b[0]));
        }
        assert(a =~= b);
    } else {
        assert(a.to_set().contains(a.last()));
        if b.len() == 0 {
            assert(b.to_set().contains(a.last()));
        }
        assert(b.to_set().contains(b.last()));
        let i = choose|i: int| 0 <= i < b.len() && b[i] == a.last();
        let j = choose|j: int| 0 <= j < a.len() && a[j] == b.last();
        assert(a.last() == b.last()) by {
            if i < b.len() - 1 {
                assert(text_lt(b[i], b.last()));
                if j < a.len() - 1 {
                    assert(text_lt(a[j], a.last()));
                }
            }
        }
        let rest = set.remove(a.last());
        assert(lists(a.drop_last(), rest)) by {
            lemma_listing_without_last(a, set);
        }
        assert(lists(b.drop_last(), rest)) by {
            lemma_listing_without_last(b, set);
        }
        listing_is_unique(a.drop_last(), b.drop_last(), rest);
        assert(a =~= a.drop_last().push(a.last()));
        assert(b =~= b.drop_last().push(b.last()));
    }
}

proof fn lemma_listing_without_last(s: Seq<Seq<char>>, set: Set<Seq<char>>)
    requires
        lists(s, set),
        s.len() > 0,
    ensures
        lists(s.drop_last(), set.remove(s.last())),
{
    text_order_is_strict_and_total();
    let t = s.drop_last();
    assert forall|k: Seq<char>| t.to_set().contains(k) <==> set.remove(s.last()).contains(k) by {
        if t.to_set().contains(k) {
            let i = choose|i: int| 0 <= i < t.len() && t[i] == k;
            assert(s[i] == k);
            assert(s.to_set().contains(k));
            assert(text_lt(s[i], s[s.len() - 1]));
        }
        if set.remove(s.last()).contains(k) {
            assert(s.to_set().contains(k));
            let i = choose|i: int| 0 <= i < s.len() && s[i] == k;
            assert(t[i] == k);
        }
    }
    assert(t.to_set() =~= set.remove(s.last()));
}

/// A finite set of text keys, kept in ascending order.
#[derive(Debug)]
pub struct KeySet {
    keys: Vec<String>,
}

impl View for KeySet {
    type V = Set<Seq<char>>;

    closed spec fn view(&self) -> Set<Seq<char>> {
        texts(self.keys@).to_set()
    }
}

impl KeySet {
    #[verifier::type_invariant]
    spec fn in_order(self) -> bool {
        ascending(texts(self.keys@))
    }

    /// The set with no key.
    pub fn new() -> (r: KeySet)
        ensures
            r@ == Set::<Seq<char>>::empty(),
    {
        let r = KeySet { keys: Vec::new() };
        assert(r@ =~= Set::<Seq<char>>::empty());
        r
    }

    /// The keys in ascending order.
    pub fn keys(&self) -> (r: &Vec<String>)
        ensures
            lists(texts(r@), self@),
    {
        proof {
            use_type_invariant(self);
        }
        &self.keys
    }

    /// The place of `key`: the number of keys that precede it.
    fn place(&self, key: &str) -> (r: usize)
        ensures
            r <= self.keys@.len(),
            forall|i: int| 0 <= i < r ==> text_lt(#[trigger] texts(self.keys@)[i], key@),
            forall|i: int|
                r <= i < self.keys@.len() ==> !text_lt(#[trigger] texts(self.keys@)[i], key@),
    {
        proof {
            use_type_invariant(self);
            text_order_is_strict_and_total();
        }
        let mut i: usize = 0;
        while i < self.keys.len()
            invariant
                i <= self.keys@.len(),
                ascending(texts(self.keys@)),
                forall|j: int| 0 <= j < i ==> text_lt(#[trigger] texts(self.keys@)[j], key@),
            decreases self.keys@.len() - i,
        {
            if !text_before(self.keys[i].as_str(), key) {
                proof {
                    text_order_is_strict_and_total();
                    let s = texts(self.keys@);
                    assert forall|j: int| i <= j < s.len() implies !text_lt(
                        #[trigger] s[j],
                        key@,
                    ) by {
                        if i < j {
                            assert(text_lt(s[i as int], s[j]));
                        }
                    }
                }
                return i;
            }
            assert(texts(self.keys@)[i as int] == self.keys@[i as int]@);
            i = i + 1;
        }
        i
    }

    /// Whether `key` is in the set.
    pub fn contains(&self, key: &str) -> (r: bool)
        ensures
            r == self@.contains(key@),
    {
        let i = self.place(key);
        proof {
            use_type_invariant(self);
            text_order_is_strict_and_total();
        }
        let ghost s = texts(self.keys@);
        let r = i < self.keys.len() && same_text(self.keys[i].as_str(), key);
        proof {
            if r {
                assert(s[i as int] == key@);
                assert(s.contains(key@));
            }
            if s.contains(key@) {
                let j = choose|j: int| 0 <= j < s.len() && s[j] == key@;
                assert(!text_lt(s[j], key@));
                assert(i <= j);
                if i < j {
                    assert(text_lt(s[i as int], s[j]));
                }
            }
        }
        r
    }

    /// Adds `key`.
    pub fn insert(&mut self, key: String)
        ensures
            final(self)@ == old(self)@.insert(key@),
    {
        if self.contains(key.as_str()) {
            assert(self@ =~= self@.insert(key@));
            return;
        }
        let at = self.place(key.as_str());
        proof {
            use_type_invariant(&*self);
            text_order_is_strict_and_total();
        }
        let mut keys: Vec<String> = Vec::new();
        std::mem::swap(&mut keys, &mut self.keys);
        let ghost before = texts(keys@);
        let ghost k = key@;
        keys.insert(at, key);
        let ghost after = texts(keys@);
        proof {
            assert(after =~= before.insert(at as int, k));
            lemma_insert_ascending(before, k, at as int);
            assert(after.to_set() =~= before.to_set().insert(k)) by {
                lemma_insert_to_set(before, k, at as int);
            }
        }
        self.keys = keys;
    }

    /// Adds each of `keys`.
    pub fn extend(&mut self, keys: &Vec<String>)
        ensures
            final(self)@ == old(self)@.union(texts(keys@).to_set()),
    {
        let mut i: usize = 0;
        let ghost before = self@;
        assert(texts(keys@).take(0).to_set() =~= Set::empty());
        assert(self@ =~= before.union(texts(keys@).take(0).to_set()));
        while i < keys.len()
            invariant
                i <= keys@.len(),
                self@ == before.union(texts(keys@).take(i as int).to_set()),
            decreases keys@.len() - i,
        {
            self.insert(keys[i].clone());
            proof {
                lemma_take_to_set(texts(keys@), i as int);
                assert(texts(keys@)[i as int] == keys@[i as int]@);
            }
            i = i + 1;
            assert(self@ =~= before.union(texts(keys@).take(i as int).to_set()));
        }
        assert(texts(keys@).take(keys@.len() as int) =~= texts(keys@));
    }

    /// The keys of both sets.
    pub fn union(&self, other: &KeySet) -> (r: KeySet)
        ensures
            r@ == self@.union(other@),
    {
        let mut r = KeySet::new();
        r.extend(self.keys());
        r.extend(other.keys());
        assert(r@ =~= self@.union(other@));
        r
    }

    /// A set with the same keys.
    pub fn copy(&self) -> (r: KeySet)
        ensures
            r@ == self@,
    {
        let mut r = KeySet::new();
        r.extend(self.keys());
        assert(r@ =~= self@);
        r
    }

    /// The keys that are not in `other`, in ascending order.
    pub fn difference(&self, other: &KeySet) -> (r: Vec<String>)
        ensures
            lists(texts(r@), self@.difference(other@)),
    {
        self.select(other, false)
    }

    /// The keys that are in `other` too, in ascending order.
    pub fn intersection(&self, other: &KeySet) -> (r: Vec<String>)
        ensures
            lists(texts(r@), self@.intersect(other@)),
    {
        self.select(other, true)
    }

    /// The keys whose membership in `other` is `present`, in ascending order.
    fn select(&self, other: &KeySet, present: bool) -> (r: Vec<String>)
        ensures
            lists(
                texts(r@),
                if present {
                    self@.intersect(other@)
                } else {
                    self@.difference(other@)
                },
            ),
    {
        proof {
            use_type_invariant(self);
        }
        let mut out: Vec<String> = Vec::new();
        let mut i: usize = 0;
        let ghost s = texts(self.keys@);
        while i < self.keys.len()
            invariant
                i <= self.keys@.len(),
                s == texts(self.keys@),
                ascending(s),
                ascending(texts(out@)),
                forall|k: int| 0 <= k < out@.len() ==> s.take(i as int).contains(#[trigger] texts(out@)[k])
                    && other@.contains(texts(out@)[k]) == present,
                forall|j: int|
                    0 <= j < i && other@.contains(#[trigger] s[j]) == present ==> texts(
                        out@,
                    ).contains(s[j]),
            decreases self.keys@.len() - i,
        {
            assert(s[i as int] == self.keys@[i as int]@);
            let ghost before = texts(out@);
            let inside = other.contains(self.keys[i].as_str());
            assert(s.take(i + 1) =~= s.take(i as int).push(s[i as int]));
            proof {
                lemma_contains_after_push(s.take(i as int), s[i as int]);
                lemma_contains_after_push(before, s[i as int]);
            }
            if inside == present {
                proof {
                    assert forall|k: int| 0 <= k < before.len() implies text_lt(
                        #[trigger] before[k],
                        s[i as int],
                    ) by {
                        let j = choose|j: int|
                            0 <= j < s.take(i as int).len() && s.take(i as int)[j] == before[k];
                        assert(s[j] == before[k]);
                    }
                }
                out.push(self.keys[i].clone());
                assert(texts(out@) =~= before.push(s[i as int]));
                assert(texts(out@).last() == s[i as int]);
                assert(texts(out@).contains(s[i as int]));
                assert forall|k: int| 0 <= k < out@.len() implies s.take(i + 1).contains(#[trigger] texts(out@)[k])
                    && other@.contains(texts(out@)[k]) == present by {
                    if k < before.len() {
                        assert(texts(out@)[k] == before[k]);
                    }
                }
            }
            i = i + 1;
        }
        proof {
            let t = texts(out@);
            let want = if present {
                self@.intersect(other@)
            } else {
                self@.difference(other@)
            };
            assert forall|k: Seq<char>| t.to_set().contains(k) <==> want.contains(k) by {
                if t.contains(k) {
                    let n = choose|n: int| 0 <= n < t.len() && t[n] == k;
                    assert(s.take(i as int).contains(t[n]));
                    let j = choose|j: int| 0 <= j < s.take(i as int).len() && s.take(i as int)[j] == k;
                    assert(s[j] == k);
                    assert(s.contains(k));
                }
                if want.contains(k) {
                    assert(s.contains(k));
                    let j = choose|j: int| 0 <= j < s.len() && s[j] == k;
                    assert(other@.contains(s[j]) == present);
                }
            }
            assert(t.to_set() =~= want);
        }
        out
    }
}

proof fn lemma_contains_after_push(s: Seq<Seq<char>>, k: Seq<char>)
    ensures
        s.push(k).contains(k),
        forall|x: Seq<char>| s.contains(x) ==> #[trigger] s.push(k).contains(x),
{
    assert(s.push(k).last() == k);
    assert forall|x: Seq<char>| s.contains(x) implies #[trigger] s.push(k).contains(x) by {
        let i = choose|i: int| 0 <= i < s.len() && s[i] == x;
        assert(s.push(k)[i] == x);
    }
}

proof fn lemma_take_to_set(s: Seq<Seq<char>>, n: int)
    requires
        0 <= n < s.len(),
    ensures
        s.take(n + 1).to_set() == s.take(n).to_set().insert(s[n]),
{
    let a = s.take(n);
    assert(s.take(n + 1) =~= a.push(s[n]));
    lemma_insert_to_set(a, s[n], n);
    assert(a.insert(n, s[n]) =~= a.push(s[n]));
}

proof fn lemma_insert_to_set(s: Seq<Seq<char>>, k: Seq<char>, at: int)
    requires
        0 <= at <= s.len(),
    ensures
        s.insert(at, k).to_set() == s.to_set().insert(k),
{
    let t = s.insert(at, k);
    assert forall|x: Seq<char>| t.to_set().contains(x) <==> s.to_set().insert(k).contains(x) by {
        if t.contains(x) {
            let i = choose|i: int| 0 <= i < t.len() && t[i] == x;
            if i < at {
                assert(s[i] == x);
            } else if i > at {
                assert(s[i - 1] == x);
            }
        }
        if x == k {
            assert(t[at] == x);
        }
        if s.contains(x) {
            let i = choose|i: int| 0 <= i < s.len() && s[i] == x;
            assert(t[if i < at {
                i
            } else {
                i + 1
            }] == x);
        }
    }
    assert(t.to_set() =~= s.to_set().insert(k));
}

proof fn lemma_insert_ascending(s: Seq<Seq<char>>, k: Seq<char>, at: int)
    requires
        ascending(s),
        0 <= at <= s.len(),
        forall|i: int| 0 <= i < at ==> text_lt(#[trigger] s[i], k),
        forall|i: int| at <= i < s.len() ==> !text_lt(#[trigger] s[i], k),
        !s.contains(k),
    ensures
        ascending(s.insert(at, k)),
{
    text_order_is_strict_and_total();
    let t = s.insert(at, k);
    assert forall|i: int, j: int| 0 <= i < j < t.len() implies text_lt(t[i], t[j]) by {
        let a = if i < at {
            i
        } else {
            i - 1
        };
        let b = if j < at {
            j
        } else {
            j - 1
        };
        if i == at {
            assert(t[j] == s[b]);
            assert(s[b] != k);
        } else if j == at {
            assert(t[i] == s[a]);
        } else {
            assert(t[i] == s[a]);
            assert(t[j] == s[b]);
        }
    }
}

/// A listing holds the keys of the set and no others, and each comes before those after it.
pub proof fn listings_hold_the_keys_in_order(s: Seq<Seq<char>>, set: Set<Seq<char>>)
    ensures
        lists(s, set) <==> (forall|i: int, j: int|
            0 <= i < j < s.len() ==> text_lt(#[trigger] s[i], #[trigger] s[j])) && (forall|
            k: Seq<char>,
        | #[trigger] set.contains(k) <==> s.contains(k)),
{
    if lists(s, set) {
        assert forall|k: Seq<char>| #[trigger] set.contains(k) <==> s.contains(k) by {
            assert(s.to_set().contains(k) <==> s.contains(k));
        }
    }
    if (forall|i: int, j: int|
        0 <= i < j < s.len() ==> text_lt(#[trigger] s[i], #[trigger] s[j])) && (forall|
        k: Seq<char>,
    | #[trigger] set.contains(k) <==> s.contains(k)) {
        assert(s.to_set() =~= set);
    }
}

} // verus!
