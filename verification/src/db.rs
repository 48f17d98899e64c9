//! Message store: a map from identifier to payload with insert (overwriting),
//! lookup, idempotent delete, and a snapshot of the values for iteration
//! outside any lock. Backed by an association list with unique keys, kept in
//! insertion order so snapshots are deterministic.

use vstd::prelude::*;

verus! {

/// A store key: equality is testable and agrees with the key's abstract
/// value.
pub trait DbKey: View + Sized {
    fn key_eq(&self, other: &Self) -> (r: bool)
        ensures
            r <==> (self@ == other@),
    ;
}

impl DbKey for u64 {
    fn key_eq(&self, other: &Self) -> (r: bool) {
        *self == *other
    }
}

impl DbKey for String {
    fn key_eq(&self, other: &Self) -> (r: bool) {
        self.eq(other)
    }
}

/// A store value: a copy with the same abstract value can be taken.
pub trait DbValue: View + Sized {
    fn clone_value(&self) -> (r: Self)
        ensures
            r@ == self@,
    ;
}

impl DbValue for String {
    fn clone_value(&self) -> (r: Self) {
        self.clone()
    }
}

impl DbValue for crate::value::Val {
    fn clone_value(&self) -> (r: Self) {
        self.dup()
    }
}

/// The value under the first occurrence of key `k`, if any.
pub open spec fn assoc_get<A, B>(s: Seq<(A, B)>, k: A) -> Option<B>
    decreases s.len(),
{
    if s.len() == 0 {
        None
    } else if s[0].0 == k {
        Some(s[0].1)
    } else {
        assoc_get(s.drop_first(), k)
    }
}

pub open spec fn assoc_contains<A, B>(s: Seq<(A, B)>, k: A) -> bool {
    assoc_get(s, k) is Some
}

/// `s` with `v` stored under `k`: the first occurrence of `k` is overwritten
/// in place, or the pair is appended when `k` is absent.
pub open spec fn assoc_put<A, B>(s: Seq<(A, B)>, k: A, v: B) -> Seq<(A, B)>
    decreases s.len(),
{
    if s.len() == 0 {
        seq![(k, v)]
    } else if s[0].0 == k {
        seq![(k, v)] + s.drop_first()
    } else {
        seq![s[0]] + assoc_put(s.drop_first(), k, v)
    }
}

/// `s` with the first occurrence of `k` removed.
pub open spec fn assoc_remove<A, B>(s: Seq<(A, B)>, k: A) -> Seq<(A, B)>
    decreases s.len(),
{
    if s.len() == 0 {
        s
    } else if s[0].0 == k {
        s.drop_first()
    } else {
        seq![s[0]] + assoc_remove(s.drop_first(), k)
    }
}

/// No key occurs twice.
pub open spec fn assoc_unique<A, B>(s: Seq<(A, B)>) -> bool {
    forall|i: int, j: int| 0 <= i < j < s.len() ==> (#[trigger] s[i]).0 != (#[trigger] s[j]).0
}

/// What `assoc_put` leaves under each key.
pub proof fn lemma_assoc_put_get<A, B>(s: Seq<(A, B)>, k: A, v: B, k2: A)
    ensures
        assoc_get(assoc_put(s, k, v), k2) == (if k2 == k {
            Some(v)
        } else {
            assoc_get(s, k2)
        }),
    decreases s.len(),
{
    let t = assoc_put(s, k, v);
    reveal_with_fuel(assoc_get, 3);
    if s.len() == 0 {
        assert(t[0] == (k, v));
        assert(t.drop_first() =~= Seq::<(A, B)>::empty());
    } else if s[0].0 == k {
        assert(t[0] == (k, v));
        assert(t.drop_first() =~= s.drop_first());
    } else {
        lemma_assoc_put_get(s.drop_first(), k, v, k2);
        assert(t[0] == s[0]);
        assert(t.drop_first() =~= assoc_put(s.drop_first(), k, v));
    }
}

/// `assoc_put` keeps keys unique.
pub proof fn lemma_assoc_put_unique<A, B>(s: Seq<(A, B)>, k: A, v: B)
    requires
        assoc_unique(s),
    ensures
        assoc_unique(assoc_put(s, k, v)),
        assoc_put(s, k, v).len() == (if assoc_contains(s, k) {
            s.len()
        } else {
            s.len() + 1
        }),
        forall|i: int|
            0 <= i < assoc_put(s, k, v).len() ==> ((#[trigger] assoc_put(s, k, v)[i]).0 == k || (
            exists|j: int|
                0 <= j < s.len() && assoc_put(s, k, v)[i] == #[trigger] s[j])),
    decreases s.len(),
{
    let t = assoc_put(s, k, v);
    if s.len() == 0 {
    } else if s[0].0 == k {
        assert(forall|i: int| 0 <= i < s.drop_first().len() ==> #[trigger] s.drop_first()[i] == s[
            i + 1
        ]);
        assert forall|i: int, j: int| 0 <= i < j < t.len() implies (#[trigger] t[i]).0 != (
        #[trigger] t[j]).0 by {
            assert(t[j] == s[j]);
            if i > 0 {
                assert(t[i] == s[i]);
            }
        }
    } else {
        assert(forall|i: int| 0 <= i < s.drop_first().len() ==> #[trigger] s.drop_first()[i] == s[
            i + 1
        ]);
        lemma_assoc_put_unique(s.drop_first(), k, v);
        let t2 = assoc_put(s.drop_first(), k, v);
        assert forall|i: int, j: int| 0 <= i < j < t.len() implies (#[trigger] t[i]).0 != (
        #[trigger] t[j]).0 by {
            assert(t[0] == s[0]);
            assert(t[j] == t2[j - 1]);
            if i > 0 {
                assert(t[i] == t2[i - 1]);
            } else {
                if t2[j - 1].0 == k {
                } else {
                    let w = choose|w: int|
                        0 <= w < s.drop_first().len() && t2[j - 1] == #[trigger] s.drop_first()[w];
                    assert(s.drop_first()[w] == s[w + 1]);
                }
            }
        }
    }
}

/// When `k` is absent, `assoc_put` appends.
pub proof fn lemma_assoc_put_absent<A, B>(s: Seq<(A, B)>, k: A, v: B)
    requires
        !assoc_contains(s, k),
    ensures
        assoc_put(s, k, v) == s.push((k, v)),
    decreases s.len(),
{
    if s.len() == 0 {
        assert(assoc_put(s, k, v) =~= s.push((k, v)));
    } else {
        assert(s[0].0 != k);
        lemma_assoc_put_absent(s.drop_first(), k, v);
        assert(assoc_put(s, k, v) =~= s.push((k, v)));
    }
}

/// What `assoc_remove` leaves under each key (with unique keys, removing the
/// first occurrence removes the only one).
pub proof fn lemma_assoc_remove_get<A, B>(s: Seq<(A, B)>, k: A, k2: A)
    requires
        assoc_unique(s),
    ensures
        assoc_get(assoc_remove(s, k), k2) == (if k2 == k {
            None
        } else {
            assoc_get(s, k2)
        }),
        assoc_unique(assoc_remove(s, k)),
        assoc_remove(s, k).len() == (if assoc_contains(s, k) {
            s.len() as int - 1
        } else {
            s.len() as int
        }),
    decreases s.len(),
{
    let t = assoc_remove(s, k);
    if s.len() == 0 {
    } else if s[0].0 == k {
        assert(forall|i: int| 0 <= i < s.drop_first().len() ==> #[trigger] s.drop_first()[i] == s[i
            + 1]);
        lemma_assoc_absent_get(s.drop_first(), k);
    } else {
        assert(forall|i: int| 0 <= i < s.drop_first().len() ==> #[trigger] s.drop_first()[i] == s[i
            + 1]);
        lemma_assoc_remove_get(s.drop_first(), k, k2);
        let t2 = assoc_remove(s.drop_first(), k);
        assert(t[0] == s[0]);
        assert(t.drop_first() =~= t2);
        assert forall|i: int, j: int| 0 <= i < j < t.len() implies (#[trigger] t[i]).0 != (
        #[trigger] t[j]).0 by {
            lemma_assoc_remove_membership(s.drop_first(), k);
            if i > 0 {
            } else {
                let w = choose|w: int|
                    0 <= w < s.drop_first().len() && t2[j - 1] == #[trigger] s.drop_first()[w];
            }
        }
    }
}

/// Every pair `assoc_remove` keeps was already in the list.
proof fn lemma_assoc_remove_membership<A, B>(s: Seq<(A, B)>, k: A)
    ensures
        forall|i: int|
            0 <= i < assoc_remove(s, k).len() ==> (exists|j: int|
                0 <= j < s.len() && #[trigger] assoc_remove(s, k)[i] == #[trigger] s[j]),
    decreases s.len(),
{
    let t = assoc_remove(s, k);
    if s.len() == 0 {
    } else if s[0].0 == k {
        assert(forall|i: int| 0 <= i < s.drop_first().len() ==> #[trigger] s.drop_first()[i] == s[i
            + 1]);
        assert forall|i: int| 0 <= i < t.len() implies (exists|j: int|
            0 <= j < s.len() && #[trigger] t[i] == #[trigger] s[j]) by {
            assert(t[i] == s[i + 1]);
        }
    } else {
        assert(forall|i: int| 0 <= i < s.drop_first().len() ==> #[trigger] s.drop_first()[i] == s[i
            + 1]);
        lemma_assoc_remove_membership(s.drop_first(), k);
        let t2 = assoc_remove(s.drop_first(), k);
        assert forall|i: int| 0 <= i < t.len() implies (exists|j: int|
            0 <= j < s.len() && #[trigger] t[i] == #[trigger] s[j]) by {
            if i == 0 {
                assert(t[0] == s[0]);
            } else {
                assert(t[i] == t2[i - 1]);
                let w = choose|w: int|
                    0 <= w < s.drop_first().len() && t2[i - 1] == #[trigger] s.drop_first()[w];
                assert(t[i] == s[w + 1]);
            }
        }
    }
}

/// A key that occurs nowhere is not found.
pub proof fn lemma_assoc_absent_get<A, B>(s: Seq<(A, B)>, k: A)
    requires
        forall|i: int| 0 <= i < s.len() ==> (#[trigger] s[i]).0 != k,
    ensures
        assoc_get(s, k) is None,
    decreases s.len(),
{
    if s.len() > 0 {
        assert(forall|i: int| 0 <= i < s.drop_first().len() ==> #[trigger] s.drop_first()[i] == s[i
            + 1]);
        lemma_assoc_absent_get(s.drop_first(), k);
    }
}

/// The generic store.
pub struct DB<K, V> {
    messages: Vec<(K, V)>,
}

impl<K: DbKey, V: DbValue> DB<K, V> {
    /// The stored pairs, keys and values abstracted, in insertion order.
    pub closed spec fn entries(&self) -> Seq<(K::V, V::V)> {
        self.messages@.map(|i: int, p: (K, V)| (p.0@, p.1@))
    }

    /// Keys are unique.
    pub open spec fn wf(&self) -> bool {
        assoc_unique(self.entries())
    }

    /// The value stored under `k`, if any.
    pub open spec fn spec_get(&self, k: K::V) -> Option<V::V> {
        assoc_get(self.entries(), k)
    }

    pub fn new() -> (r: DB<K, V>)
        ensures
            r.entries() == Seq::<(K::V, V::V)>::empty(),
            r.wf(),
    {
        let r = DB { messages: Vec::new() };
        proof {
            assert(r.entries() =~= Seq::<(K::V, V::V)>::empty());
        }
        r
    }

    /// Stores `message` under `id`, overwriting what was there.
    pub fn add_message(&mut self, id: K, message: V)
        requires
            old(self).wf(),
        ensures
            final(self).wf(),
            final(self).entries() == assoc_put(old(self).entries(), id@, message@),
    {
        let ghost s = self.entries();
        let ghost kv = id@;
        let mut i: usize = 0;
        #[verifier::loop_isolation(false)]
        while i < self.messages.len()
            invariant
                i <= self.messages.len(),
                self == old(self),
                forall|j: int| 0 <= j < i ==> (#[trigger] s[j]).0 != kv,
            decreases self.messages.len() - i,
        {
            if self.messages[i].0.key_eq(&id) {
                proof {
                    lemma_assoc_put_found(s, kv, message@, i as int);
                }
                let slot = &mut self.messages[i];
                *slot = (id, message);
                proof {
                    assert(self.entries() =~= s.update(i as int, (kv, message@)));
                    lemma_assoc_put_unique(s, kv, message@);
                }
                return ;
            }
            i = i + 1;
        }
        proof {
            lemma_assoc_absent_get(s, kv);
            lemma_assoc_put_absent(s, kv, message@);
        }
        self.messages.push((id, message));
        proof {
            assert(self.entries() =~= s.push((kv, message@)));
            lemma_assoc_put_unique(s, kv, message@);
        }
    }

    /// A copy of the value stored under `id`, if any.
    pub fn get_message(&mut self, id: &K) -> (r: Option<V>)
        ensures
            *final(self) == *old(self),
            match r {
                Some(v) => old(self).spec_get(id@) == Some(v@),
                None => old(self).spec_get(id@) is None,
            },
    {
        let ghost s = self.entries();
        proof {
            assert(s.skip(0) =~= s);
        }
        let mut i: usize = 0;
        #[verifier::loop_isolation(false)]
        while i < self.messages.len()
            invariant
                i <= self.messages.len(),
                self == old(self),
                assoc_get(s, id@) == assoc_get(s.skip(i as int), id@),
            decreases self.messages.len() - i,
        {
            proof {
                assert(s.skip(i as int)[0] == s[i as int]);
                assert(s.skip(i as int).drop_first() =~= s.skip(i as int + 1));
            }
            if self.messages[i].0.key_eq(id) {
                return Some(self.messages[i].1.clone_value());
            }
            i = i + 1;
        }
        proof {
            assert(s.skip(i as int) =~= Seq::<(K::V, V::V)>::empty());
        }
        None
    }

    /// Removes what is stored under `id`; does nothing when nothing is.
    pub fn delete_message(&mut self, id: &K)
        requires
            old(self).wf(),
        ensures
            final(self).wf(),
            final(self).entries() == assoc_remove(old(self).entries(), id@),
    {
        let ghost s = self.entries();
        let mut i: usize = 0;
        #[verifier::loop_isolation(false)]
        while i < self.messages.len()
            invariant
                i <= self.messages.len(),
                self == old(self),
                forall|j: int| 0 <= j < i ==> (#[trigger] s[j]).0 != id@,
            decreases self.messages.len() - i,
        {
            if self.messages[i].0.key_eq(id) {
                proof {
                    lemma_assoc_remove_found(s, id@, i as int);
                }
                self.messages.remove(i);
                proof {
                    assert(self.entries() =~= s.remove(i as int));
                    lemma_assoc_remove_get(s, id@, id@);
                }
                return ;
            }
            i = i + 1;
        }
        proof {
            lemma_assoc_absent_remove(s, id@);
        }
    }

    /// A copy of every stored value, in insertion order.
    pub fn get_messages_as_value(&self) -> (r: Vec<V>)
        ensures
            r@.len() == self.entries().len(),
            forall|i: int| 0 <= i < r@.len() ==> (#[trigger] r@[i])@ == self.entries()[i].1,
    {
        let mut out: Vec<V> = Vec::new();
        let mut i: usize = 0;
        #[verifier::loop_isolation(false)]
        while i < self.messages.len()
            invariant
                i <= self.messages.len(),
                out@.len() == i,
                forall|j: int| 0 <= j < i ==> (#[trigger] out@[j])@ == self.entries()[j].1,
            decreases self.messages.len() - i,
        {
            out.push(self.messages[i].1.clone_value());
            i = i + 1;
        }
        out
    }
}

/// When the first occurrence of `k` stands at `i`, it is what `assoc_get`
/// finds.
pub proof fn lemma_assoc_get_found<A, B>(s: Seq<(A, B)>, k: A, i: int)
    requires
        0 <= i < s.len(),
        s[i].0 == k,
        forall|j: int| 0 <= j < i ==> (#[trigger] s[j]).0 != k,
    ensures
        assoc_get(s, k) == Some(s[i].1),
    decreases i,
{
    assert(forall|j: int| 0 <= j < s.drop_first().len() ==> #[trigger] s.drop_first()[j] == s[j
        + 1]);
    if i > 0 {
        lemma_assoc_get_found(s.drop_first(), k, i - 1);
    }
}

/// When the first occurrence of `k` stands at `i`, `assoc_put` overwrites
/// exactly there.
pub proof fn lemma_assoc_put_found<A, B>(s: Seq<(A, B)>, k: A, v: B, i: int)
    requires
        0 <= i < s.len(),
        s[i].0 == k,
        forall|j: int| 0 <= j < i ==> (#[trigger] s[j]).0 != k,
    ensures
        assoc_put(s, k, v) == s.update(i, (k, v)),
    decreases i,
{
    assert(forall|j: int| 0 <= j < s.drop_first().len() ==> #[trigger] s.drop_first()[j] == s[j
        + 1]);
    if i == 0 {
        assert(assoc_put(s, k, v) =~= s.update(0, (k, v)));
    } else {
        lemma_assoc_put_found(s.drop_first(), k, v, i - 1);
        assert(assoc_put(s, k, v) =~= s.update(i, (k, v)));
    }
}

/// When the first occurrence of `k` stands at `i`, `assoc_remove` removes
/// exactly it.
pub proof fn lemma_assoc_remove_found<A, B>(s: Seq<(A, B)>, k: A, i: int)
    requires
        0 <= i < s.len(),
        s[i].0 == k,
        forall|j: int| 0 <= j < i ==> (#[trigger] s[j]).0 != k,
    ensures
        assoc_remove(s, k) == s.remove(i),
    decreases i,
{
    assert(forall|j: int| 0 <= j < s.drop_first().len() ==> #[trigger] s.drop_first()[j] == s[j
        + 1]);
    if i == 0 {
        assert(assoc_remove(s, k) =~= s.remove(0));
    } else {
        lemma_assoc_remove_found(s.drop_first(), k, i - 1);
        assert(assoc_remove(s, k) =~= s.remove(i));
    }
}

/// Removing an absent key changes nothing.
pub proof fn lemma_assoc_absent_remove<A, B>(s: Seq<(A, B)>, k: A)
    requires
        forall|i: int| 0 <= i < s.len() ==> (#[trigger] s[i]).0 != k,
    ensures
        assoc_remove(s, k) == s,
    decreases s.len(),
{
    if s.len() > 0 {
        assert(forall|i: int| 0 <= i < s.drop_first().len() ==> #[trigger] s.drop_first()[i] == s[i
            + 1]);
        lemma_assoc_absent_remove(s.drop_first(), k);
        assert(assoc_remove(s, k) =~= s);
    } else {
        assert(assoc_remove(s, k) =~= s);
    }
}

} // verus!
