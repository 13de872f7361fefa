//! Keys in order: strings compared character by character, and sequences
//! of keyed entries kept strictly increasing, each key once.
use vstd::prelude::*;

verus! {

/// Whether `a` comes strictly before `b`: at the first place where they
/// differ `a` has the smaller character, or `a` ends there and `b` goes
/// on.
pub open spec fn key_less(a: Seq<char>, b: Seq<char>) -> bool
    decreases a.len(),
{
    if b.len() == 0 {
        false
    } else if a.len() == 0 {
        true
    } else if a[0] != b[0] {
        a[0] < b[0]
    } else {
        key_less(a.skip(1), b.skip(1))
    }
}

/// Of two different keys one comes before the other.
pub proof fn lemma_key_less_total(a: Seq<char>, b: Seq<char>)
    ensures
        a == b || key_less(a, b) || key_less(b, a),
    decreases a.len(),
{
    if a.len() == 0 || b.len() == 0 {
        if a.len() == 0 && b.len() == 0 {
            assert(a =~= b);
        }
    } else if a[0] == b[0] {
        lemma_key_less_total(a.skip(1), b.skip(1));
        if a.skip(1) == b.skip(1) {
            assert(a =~= seq![a[0]] + a.skip(1));
            assert(b =~= seq![b[0]] + b.skip(1));
        }
    }
}

/// No key comes before itself, and no two keys come before each other.
pub proof fn lemma_key_less_asymmetric(a: Seq<char>, b: Seq<char>)
    ensures
        !(key_less(a, b) && key_less(b, a)),
        !key_less(a, a),
    decreases a.len(),
{
    if a.len() > 0 && b.len() > 0 && a[0] == b[0] {
        lemma_key_less_asymmetric(a.skip(1), b.skip(1));
    }
    if a.len() > 0 {
        lemma_key_less_asymmetric(a.skip(1), a.skip(1));
    }
}

/// Coming before is transitive.
pub proof fn lemma_key_less_transitive(a: Seq<char>, b: Seq<char>, c: Seq<char>)
    requires
        key_less(a, b),
        key_less(b, c),
    ensures
        key_less(a, c),
    decreases a.len(),
{
    if a.len() > 0 && a[0] == b[0] && b[0] == c[0] {
        lemma_key_less_transitive(a.skip(1), b.skip(1), c.skip(1));
    }
}

/// Whether the keys of `s` strictly increase, so that each occurs once.
pub open spec fn strictly_ordered<V>(s: Seq<(Seq<char>, V)>) -> bool {
    forall|i: int, j: int| 0 <= i < j < s.len() ==> key_less(#[trigger] s[i].0, #[trigger] s[j].0)
}

/// `s` with `value` recorded under `key`: in place of the entry that has
/// this key, if there is one, else before the entries whose keys come
/// after it.
pub open spec fn put<V>(s: Seq<(Seq<char>, V)>, key: Seq<char>, value: V) -> Seq<(Seq<char>, V)>
    decreases s.len(),
{
    if s.len() == 0 {
        seq![(key, value)]
    } else if key_less(key, s.last().0) {
        put(s.drop_last(), key, value).push(s.last())
    } else if s.last().0 == key {
        s.drop_last().push((key, value))
    } else {
        s.push((key, value))
    }
}

/// The entries recorded one after the other, starting from nothing: in
/// key order, each key once, with the value that was recorded last.
pub open spec fn ordered<V>(entries: Seq<(Seq<char>, V)>) -> Seq<(Seq<char>, V)>
    decreases entries.len(),
{
    if entries.len() == 0 {
        Seq::empty()
    } else {
        put(ordered(entries.drop_last()), entries.last().0, entries.last().1)
    }
}

/// Where `put` places an entry, told by the index at which the keys that
/// come after `key` begin.
pub proof fn lemma_put_at<V>(s: Seq<(Seq<char>, V)>, key: Seq<char>, value: V, slot: int)
    requires
        0 <= slot <= s.len(),
        forall|j: int| slot <= j < s.len() ==> key_less(key, (#[trigger] s[j]).0),
        slot > 0 ==> !key_less(key, s[slot - 1].0),
    ensures
        slot > 0 && s[slot - 1].0 == key ==> put(s, key, value) == s.update(
            slot - 1,
            (key, value),
        ),
        !(slot > 0 && s[slot - 1].0 == key) ==> put(s, key, value) == s.insert(
            slot,
            (key, value),
        ),
    decreases s.len(),
{
    if s.len() == 0 {
        assert(s.insert(0, (key, value)) =~= seq![(key, value)]);
    } else if slot < s.len() {
        let front = s.drop_last();
        assert(key_less(key, s[s.len() - 1].0));
        assert forall|j: int| slot <= j < front.len() implies key_less(
            key,
            (#[trigger] front[j]).0,
        ) by {
            assert(front[j] == s[j]);
        }
        lemma_put_at(front, key, value, slot);
        if slot > 0 && s[slot - 1].0 == key {
            assert(front.update(slot - 1, (key, value)).push(s.last()) =~= s.update(
                slot - 1,
                (key, value),
            ));
        } else {
            assert(front.insert(slot, (key, value)).push(s.last()) =~= s.insert(
                slot,
                (key, value),
            ));
        }
    } else {
        if s.last().0 == key {
            assert(s.drop_last().push((key, value)) =~= s.update(slot - 1, (key, value)));
        } else {
            assert(s.push((key, value)) =~= s.insert(slot, (key, value)));
        }
    }
}

/// Recording an entry keeps the keys strictly increasing.
pub proof fn lemma_put_ordered<V>(s: Seq<(Seq<char>, V)>, key: Seq<char>, value: V)
    requires
        strictly_ordered(s),
    ensures
        strictly_ordered(put(s, key, value)),
        forall|i: int|
            0 <= i < put(s, key, value).len() ==> (#[trigger] put(s, key, value)[i]).0 == key || (
            exists|j: int| 0 <= j < s.len() && s[j].0 == put(s, key, value)[i].0),
    decreases s.len(),
{
    let out = put(s, key, value);
    if s.len() == 0 {
    } else if key_less(key, s.last().0) {
        let front = s.drop_last();
        assert forall|i: int, j: int| 0 <= i < j < front.len() implies key_less(
            #[trigger] front[i].0,
            #[trigger] front[j].0,
        ) by {
            assert(front[i] == s[i] && front[j] == s[j]);
        }
        lemma_put_ordered(front, key, value);
        let inner = put(front, key, value);
        assert forall|i: int, j: int| 0 <= i < j < out.len() implies key_less(
            #[trigger] out[i].0,
            #[trigger] out[j].0,
        ) by {
            if j < inner.len() {
                assert(out[i] == inner[i] && out[j] == inner[j]);
            } else {
                assert(out[j] == s.last());
                assert(out[i] == inner[i]);
                if inner[i].0 != key {
                    let k = choose|k: int| 0 <= k < front.len() && front[k].0 == inner[i].0;
                    assert(front[k] == s[k]);
                    assert(key_less(s[k].0, s[s.len() - 1].0));
                }
            }
        }
        assert forall|i: int| 0 <= i < out.len() implies (#[trigger] out[i]).0 == key || (exists|
            j: int,
        |
            0 <= j < s.len() && s[j].0 == out[i].0) by {
            if i < inner.len() {
                assert(out[i] == inner[i]);
                if inner[i].0 != key {
                    let k = choose|k: int| 0 <= k < front.len() && front[k].0 == inner[i].0;
                    assert(front[k] == s[k]);
                }
            } else {
                assert(out[i] == s[s.len() - 1]);
            }
        }
    } else if s.last().0 == key {
        assert forall|i: int, j: int| 0 <= i < j < out.len() implies key_less(
            #[trigger] out[i].0,
            #[trigger] out[j].0,
        ) by {
            assert(out[i] == s[i]);
            assert(out[j].0 == s[j].0);
        }
        assert forall|i: int| 0 <= i < out.len() implies (#[trigger] out[i]).0 == key || (exists|
            j: int,
        |
            0 <= j < s.len() && s[j].0 == out[i].0) by {
            assert(out[i].0 == s[i].0);
        }
    } else {
        lemma_key_less_total(key, s.last().0);
        assert forall|i: int, j: int| 0 <= i < j < out.len() implies key_less(
            #[trigger] out[i].0,
            #[trigger] out[j].0,
        ) by {
            if j < s.len() {
                assert(out[i] == s[i] && out[j] == s[j]);
            } else {
                assert(out[i] == s[i]);
                if i < s.len() - 1 {
                    assert(key_less(s[i].0, s[s.len() - 1].0));
                    lemma_key_less_transitive(s[i].0, s.last().0, key);
                }
            }
        }
        assert forall|i: int| 0 <= i < out.len() implies (#[trigger] out[i]).0 == key || (exists|
            j: int,
        |
            0 <= j < s.len() && s[j].0 == out[i].0) by {
            if i < s.len() {
                assert(out[i] == s[i]);
            }
        }
    }
}

/// What `ordered` gives has strictly increasing keys.
pub proof fn lemma_ordered<V>(entries: Seq<(Seq<char>, V)>)
    ensures
        strictly_ordered(ordered(entries)),
    decreases entries.len(),
{
    if entries.len() > 0 {
        lemma_ordered(entries.drop_last());
        lemma_put_ordered(ordered(entries.drop_last()), entries.last().0, entries.last().1);
    }
}

/// Whether `a` comes strictly before `b`.
pub fn chars_less(a: &Vec<char>, b: &Vec<char>) -> (r: bool)
    ensures
        r == key_less(a@, b@),
{
    let mut i: usize = 0;
    assert(a@.skip(0) =~= a@ && b@.skip(0) =~= b@);
    while i < a.len() && i < b.len()
        invariant
            i <= a.len(),
            i <= b.len(),
            key_less(a@, b@) == key_less(a@.skip(i as int), b@.skip(i as int)),
        decreases a.len() - i,
    {
        proof {
            assert(a@.skip(i as int)[0] == a@[i as int]);
            assert(b@.skip(i as int)[0] == b@[i as int]);
            assert(a@.skip(i as int).skip(1) =~= a@.skip(i + 1));
            assert(b@.skip(i as int).skip(1) =~= b@.skip(i + 1));
        }
        if a[i] != b[i] {
            return a[i] < b[i];
        }
        i += 1;
    }
    i < b.len()
}

/// The value that was recorded last under `key`, if any was.
pub open spec fn lookup<V>(s: Seq<(Seq<char>, V)>, key: Seq<char>) -> Option<V>
    decreases s.len(),
{
    if s.len() == 0 {
        None
    } else if s.last().0 == key {
        Some(s.last().1)
    } else {
        lookup(s.drop_last(), key)
    }
}

/// After `put`, the key that was put has the new value and every other
/// key has the value it had.
pub proof fn lemma_put_lookup<V>(s: Seq<(Seq<char>, V)>, key: Seq<char>, value: V, other: Seq<char>)
    ensures
        lookup(put(s, key, value), key) == Some(value),
        other != key ==> lookup(put(s, key, value), other) == lookup(s, other),
    decreases s.len(),
{
    let out = put(s, key, value);
    if s.len() == 0 {
        assert(out.last() == (key, value));
        assert(out.drop_last() =~= s);
    } else if key_less(key, s.last().0) {
        lemma_key_less_asymmetric(key, s.last().0);
        lemma_put_lookup(s.drop_last(), key, value, other);
        let inner = put(s.drop_last(), key, value);
        assert(out.last() == s.last());
        assert(out.drop_last() =~= inner);
    } else if s.last().0 == key {
        assert(out.last() == (key, value));
        assert(out.drop_last() =~= s.drop_last());
    } else {
        assert(out.last() == (key, value));
        assert(out.drop_last() =~= s);
    }
}

/// Putting entries in order keeps, for every key, the value recorded
/// last.
pub proof fn lemma_ordered_lookup<V>(entries: Seq<(Seq<char>, V)>, key: Seq<char>)
    ensures
        lookup(ordered(entries), key) == lookup(entries, key),
    decreases entries.len(),
{
    if entries.len() > 0 {
        lemma_ordered_lookup(entries.drop_last(), key);
        lemma_put_lookup(
            ordered(entries.drop_last()),
            entries.last().0,
            entries.last().1,
            key,
        );
    }
}

/// Whether no two entries share a key.
pub open spec fn keys_distinct<V>(entries: Seq<(Seq<char>, V)>) -> bool {
    forall|i: int, j: int|
        0 <= i < j < entries.len() ==> (#[trigger] entries[i]).0 != (#[trigger] entries[j]).0
}

/// A key that no entry has is not found.
pub proof fn lemma_lookup_absent<V>(entries: Seq<(Seq<char>, V)>, key: Seq<char>)
    requires
        forall|i: int| 0 <= i < entries.len() ==> (#[trigger] entries[i]).0 != key,
    ensures
        lookup(entries, key) is None,
    decreases entries.len(),
{
    if entries.len() > 0 {
        assert(entries.last() == entries[entries.len() - 1]);
        assert forall|i: int| 0 <= i < entries.drop_last().len() implies (
        #[trigger] entries.drop_last()[i]).0 != key by {
            assert(entries.drop_last()[i] == entries[i]);
        }
        lemma_lookup_absent(entries.drop_last(), key);
    }
}

/// A sequence in key order grows by one under `put` exactly where the key
/// is new to it.
pub proof fn lemma_put_len<V>(s: Seq<(Seq<char>, V)>, key: Seq<char>, value: V)
    requires
        strictly_ordered(s),
    ensures
        put(s, key, value).len() == (if lookup(s, key) is Some {
            s.len()
        } else {
            s.len() + 1
        }),
    decreases s.len(),
{
    if s.len() == 0 {
    } else if key_less(key, s.last().0) {
        lemma_key_less_asymmetric(key, s.last().0);
        let front = s.drop_last();
        assert forall|i: int, j: int| 0 <= i < j < front.len() implies key_less(
            #[trigger] front[i].0,
            #[trigger] front[j].0,
        ) by {
            assert(front[i] == s[i] && front[j] == s[j]);
        }
        lemma_put_len(front, key, value);
    } else if s.last().0 == key {
    } else {
        lemma_key_less_total(key, s.last().0);
        assert forall|i: int| 0 <= i < s.len() implies (#[trigger] s[i]).0 != key by {
            lemma_key_less_asymmetric(key, key);
            if i < s.len() - 1 {
                assert(key_less(s[i].0, s[s.len() - 1].0));
                lemma_key_less_transitive(s[i].0, s.last().0, key);
            }
        }
        lemma_lookup_absent(s, key);
    }
}

/// Where no two entries share a key, putting them in order loses none.
pub proof fn lemma_ordered_len<V>(entries: Seq<(Seq<char>, V)>)
    requires
        keys_distinct(entries),
    ensures
        ordered(entries).len() == entries.len(),
    decreases entries.len(),
{
    if entries.len() > 0 {
        let front = entries.drop_last();
        assert forall|i: int, j: int| 0 <= i < j < front.len() implies (#[trigger] front[i]).0 != (
        #[trigger] front[j]).0 by {
            assert(front[i] == entries[i] && front[j] == entries[j]);
        }
        lemma_ordered_len(front);
        assert forall|i: int| 0 <= i < front.len() implies (#[trigger] front[i]).0
            != entries.last().0 by {
            assert(front[i] == entries[i]);
            assert(entries.last() == entries[entries.len() - 1]);
        }
        lemma_lookup_absent(front, entries.last().0);
        lemma_ordered_lookup(front, entries.last().0);
        lemma_ordered(front);
        lemma_put_len(ordered(front), entries.last().0, entries.last().1);
    }
}

/// Every entry of what `ordered` gives is one of the entries it was given.
pub proof fn lemma_ordered_members<V>(entries: Seq<(Seq<char>, V)>, k: int)
    requires
        0 <= k < ordered(entries).len(),
    ensures
        exists|i: int| 0 <= i < entries.len() && entries[i] == ordered(entries)[k],
    decreases entries.len(),
{
    if entries.len() > 0 {
        let front = entries.drop_last();
        let last = entries.last();
        let before = ordered(front);
        lemma_put_members(before, last.0, last.1, k);
        if ordered(entries)[k] == last {
            assert(entries[entries.len() - 1] == last);
        } else {
            let j = choose|j: int| 0 <= j < before.len() && before[j] == ordered(entries)[k];
            lemma_ordered_members(front, j);
            let i = choose|i: int| 0 <= i < front.len() && front[i] == before[j];
            assert(entries[i] == front[i]);
        }
    }
}

/// Every entry after `put` is the one that was put or one that was there.
pub proof fn lemma_put_members<V>(s: Seq<(Seq<char>, V)>, key: Seq<char>, value: V, k: int)
    requires
        0 <= k < put(s, key, value).len(),
    ensures
        put(s, key, value)[k] == (key, value) || exists|j: int|
            0 <= j < s.len() && s[j] == put(s, key, value)[k],
    decreases s.len(),
{
    let out = put(s, key, value);
    if s.len() == 0 {
    } else if key_less(key, s.last().0) {
        let inner = put(s.drop_last(), key, value);
        if k < inner.len() {
            lemma_put_members(s.drop_last(), key, value, k);
            assert(out[k] == inner[k]);
            if inner[k] != (key, value) {
                let j = choose|j: int| 0 <= j < s.drop_last().len() && s.drop_last()[j] == inner[k];
                assert(s[j] == s.drop_last()[j]);
            }
        } else {
            assert(out[k] == s[s.len() - 1]);
        }
    } else if s.last().0 == key {
        if k < s.len() - 1 {
            assert(out[k] == s[k]);
        }
    } else {
        if k < s.len() {
            assert(out[k] == s[k]);
        }
    }
}

/// Among entries with distinct keys, looking up the key of an entry finds
/// that entry's value.
pub proof fn lemma_lookup_unique<V>(entries: Seq<(Seq<char>, V)>, i: int)
    requires
        keys_distinct(entries),
        0 <= i < entries.len(),
    ensures
        lookup(entries, entries[i].0) == Some(entries[i].1),
    decreases entries.len(),
{
    if i < entries.len() - 1 {
        let front = entries.drop_last();
        assert(entries.last() == entries[entries.len() - 1]);
        assert(entries[i].0 != entries[entries.len() - 1].0);
        assert forall|a: int, b: int| 0 <= a < b < front.len() implies (#[trigger] front[a]).0 != (
        #[trigger] front[b]).0 by {
            assert(front[a] == entries[a] && front[b] == entries[b]);
        }
        assert(front[i] == entries[i]);
        lemma_lookup_unique(front, i);
    }
}

} // verus!
