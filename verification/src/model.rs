//! What a key file is, as mathematics: locale tags, keys, and the mapping
//! that an ordered list of assignments collapses to.

use vstd::prelude::*;

verus! {

/// A locale tag: a language, and optionally a country and a modifier.
pub struct LocaleTag {
    pub lang: Seq<char>,
    pub country: Option<Seq<char>>,
    pub modifier: Option<Seq<char>>,
}

/// What a value is stored under: a key name, alone or with a locale tag.
/// A name without a tag and the same name with one are different keys.
pub struct KeyId {
    pub name: Seq<char>,
    pub locale: Option<LocaleTag>,
}

/// The values of one group, by key.
pub type Body = Map<KeyId, Seq<char>>;

/// The groups of a key file, by name.
pub type Groups = Map<Seq<char>, Body>;

/// The mapping that an ordered list of pairs collapses to: each pair is
/// written into it in turn, so a later pair replaces an earlier one that
/// has the same key.
pub open spec fn collapse<K, V>(pairs: Seq<(K, V)>) -> Map<K, V>
    decreases pairs.len(),
{
    if pairs.len() == 0 {
        Map::empty()
    } else {
        collapse(pairs.drop_last()).insert(pairs.last().0, pairs.last().1)
    }
}

/// No two pairs of the list have the same key.
pub open spec fn distinct_keys<K, V>(pairs: Seq<(K, V)>) -> bool {
    forall|i: int, j: int|
        0 <= i < j < pairs.len() ==> (#[trigger] pairs[i]).0 != (#[trigger] pairs[j]).0
}

/// The keys of the collapsed mapping are the keys that occur in the list.
pub proof fn lemma_collapse_keys<K, V>(pairs: Seq<(K, V)>, key: K)
    ensures
        collapse(pairs).contains_key(key) <==> exists|i: int|
            0 <= i < pairs.len() && (#[trigger] pairs[i]).0 == key,
    decreases pairs.len(),
{
    if pairs.len() > 0 {
        let front = pairs.drop_last();
        lemma_collapse_keys(front, key);
        if collapse(pairs).contains_key(key) {
            if pairs.last().0 == key {
                assert(pairs[pairs.len() - 1].0 == key);
            } else {
                let i = choose|i: int| 0 <= i < front.len() && (#[trigger] front[i]).0 == key;
                assert(pairs[i].0 == key);
            }
        }
        if exists|i: int| 0 <= i < pairs.len() && (#[trigger] pairs[i]).0 == key {
            let i = choose|i: int| 0 <= i < pairs.len() && (#[trigger] pairs[i]).0 == key;
            if i < front.len() {
                assert(front[i].0 == key);
            }
        }
    }
}

/// Last write wins: a key that occurs in the list, however often, has
/// exactly one value in the collapsed mapping, that of its last occurrence.
pub proof fn lemma_last_write_wins<K, V>(pairs: Seq<(K, V)>, last: int)
    requires
        0 <= last < pairs.len(),
        forall|j: int| last < j < pairs.len() ==> (#[trigger] pairs[j]).0 != pairs[last].0,
    ensures
        collapse(pairs).contains_key(pairs[last].0),
        collapse(pairs)[pairs[last].0] == pairs[last].1,
    decreases pairs.len(),
{
    if last < pairs.len() - 1 {
        let front = pairs.drop_last();
        assert(pairs[pairs.len() - 1].0 != pairs[last].0);
        assert(front[last] == pairs[last]);
        assert forall|j: int| last < j < front.len() implies (#[trigger] front[j]).0
            != front[last].0 by {
            assert(front[j] == pairs[j]);
        }
        lemma_last_write_wins(front, last);
    }
}

/// Writing one more pair at the end writes it into the mapping.
pub proof fn lemma_collapse_push<K, V>(pairs: Seq<(K, V)>, key: K, value: V)
    ensures
        collapse(pairs.push((key, value))) == collapse(pairs).insert(key, value),
{
    assert(pairs.push((key, value)).drop_last() =~= pairs);
}

/// In a list without repeated keys, replacing the value where the key
/// stands has the effect of writing the pair at the end.
pub proof fn lemma_collapse_update<K, V>(pairs: Seq<(K, V)>, at: int, value: V)
    requires
        0 <= at < pairs.len(),
        distinct_keys(pairs),
    ensures
        collapse(pairs.update(at, (pairs[at].0, value))) == collapse(pairs).insert(
            pairs[at].0,
            value,
        ),
        distinct_keys(pairs.update(at, (pairs[at].0, value))),
    decreases pairs.len(),
{
    let key = pairs[at].0;
    let changed = pairs.update(at, (key, value));
    let front = pairs.drop_last();
    assert forall|i: int, j: int| 0 <= i < j < changed.len() implies (#[trigger] changed[i]).0 != (
    #[trigger] changed[j]).0 by {
        assert(changed[i].0 == pairs[i].0);
        assert(changed[j].0 == pairs[j].0);
    }
    if at == pairs.len() - 1 {
        assert(changed.drop_last() =~= front);
        assert(collapse(changed) =~= collapse(pairs).insert(key, value));
    } else {
        assert(front[at] == pairs[at]);
        assert forall|i: int, j: int| 0 <= i < j < front.len() implies (#[trigger] front[i]).0 != (
        #[trigger] front[j]).0 by {
            assert(front[i] == pairs[i]);
            assert(front[j] == pairs[j]);
        }
        lemma_collapse_update(front, at, value);
        assert(changed.drop_last() =~= front.update(at, (key, value)));
        assert(changed.last() == pairs.last());
        assert(pairs[pairs.len() - 1].0 != pairs[at].0);
        assert(collapse(changed) =~= collapse(pairs).insert(key, value));
    }
}

} // verus!
