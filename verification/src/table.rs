//! Spec-level model of a domain table: an ordered sequence of
//! (identity, payload) pairs, read as a map from identity to latest payload.

use vstd::prelude::*;

verus! {

/// The map that the pairs denote; a later pair with the same identity wins.
pub open spec fn pairs_map<P>(s: Seq<(Seq<char>, P)>) -> Map<Seq<char>, P>
    decreases s.len(),
{
    if s.len() == 0 {
        Map::empty()
    } else {
        pairs_map(s.drop_last()).insert(s.last().0, s.last().1)
    }
}

/// No two pairs share an identity.
pub open spec fn pairs_unique<P>(s: Seq<(Seq<char>, P)>) -> bool {
    forall|i: int, j: int| 0 <= i < j < s.len() ==> s[i].0 != s[j].0
}

pub proof fn lemma_pairs_map_contains<P>(s: Seq<(Seq<char>, P)>, name: Seq<char>)
    ensures
        pairs_map(s).contains_key(name) <==> exists|i: int| 0 <= i < s.len() && s[i].0 == name,
    decreases s.len(),
{
    if s.len() > 0 {
        lemma_pairs_map_contains(s.drop_last(), name);
        if pairs_map(s).contains_key(name) {
            if s.last().0 != name {
                let i = choose|i: int| 0 <= i < s.drop_last().len() && s.drop_last()[i].0 == name;
                assert(s[i].0 == name);
            }
        } else {
            assert(s.last().0 != name);
            assert forall|i: int| 0 <= i < s.len() implies s[i].0 != name by {
                if i < s.len() - 1 {
                    assert(s.drop_last()[i].0 == s[i].0);
                }
            }
        }
    }
}

/// Under uniqueness, each pair's payload is what the map holds for its identity.
pub proof fn lemma_pairs_map_index<P>(s: Seq<(Seq<char>, P)>, i: int)
    requires
        pairs_unique(s),
        0 <= i < s.len(),
    ensures
        pairs_map(s).contains_key(s[i].0),
        pairs_map(s)[s[i].0] == s[i].1,
    decreases s.len(),
{
    if i == s.len() - 1 {
    } else {
        assert(pairs_unique(s.drop_last())) by {
            assert(forall|a: int, b: int|
                0 <= a < b < s.drop_last().len() ==> s.drop_last()[a].0 == s[a].0
                    && s.drop_last()[b].0 == s[b].0);
        }
        lemma_pairs_map_index(s.drop_last(), i);
        assert(s.drop_last()[i] == s[i]);
        assert(s[i].0 != s.last().0);
    }
}

/// Looking past a run of pairs whose identities all differ from `name`
/// does not change what the map says about `name`.
pub proof fn lemma_pairs_map_take<P>(s: Seq<(Seq<char>, P)>, name: Seq<char>, i: int)
    requires
        0 <= i <= s.len(),
        forall|j: int| i <= j < s.len() ==> s[j].0 != name,
    ensures
        pairs_map(s).contains_key(name) <==> pairs_map(s.take(i)).contains_key(name),
        pairs_map(s).contains_key(name) ==> pairs_map(s)[name] == pairs_map(s.take(i))[name],
    decreases s.len() - i,
{
    if i < s.len() {
        lemma_pairs_map_take(s.drop_last(), name, i);
        assert(s.drop_last().take(i) =~= s.take(i));
        assert(s.last().0 != name);
        assert forall|j: int| i <= j < s.drop_last().len() implies s.drop_last()[j].0 != name by {
            assert(s.drop_last()[j].0 == s[j].0);
        }
    } else {
        assert(s.take(i) =~= s);
    }
}

/// Appending a pair with a fresh identity keeps the pairs unique.
pub proof fn lemma_pairs_unique_push<P>(s: Seq<(Seq<char>, P)>, p: (Seq<char>, P))
    requires
        pairs_unique(s),
        !pairs_map(s).contains_key(p.0),
    ensures
        pairs_unique(s.push(p)),
{
    lemma_pairs_map_contains(s, p.0);
    assert forall|i: int, j: int| 0 <= i < j < s.push(p).len() implies s.push(p)[i].0 != s.push(
        p,
    )[j].0 by {
        if j < s.len() {
            assert(s.push(p)[i] == s[i] && s.push(p)[j] == s[j]);
        } else {
            assert(s.push(p)[j] == p);
            assert(s.push(p)[i] == s[i]);
        }
    }
}

/// Appending a pair inserts it into the map the pairs denote.
pub proof fn lemma_pairs_map_push<P>(s: Seq<(Seq<char>, P)>, p: (Seq<char>, P))
    ensures
        pairs_map(s.push(p)) == pairs_map(s).insert(p.0, p.1),
{
    assert(s.push(p).drop_last() =~= s);
    assert(s.push(p).last() == p);
}

} // verus!
