//! The mathematical model of a transition table: the map that a list of
//! `(source, event, target)` definitions describes.
use vstd::prelude::*;

verus! {

/// The lookup table that registering `definitions` in order produces: each
/// definition maps its `(source, event)` pair to its target, a later
/// definition replacing an earlier one for the same pair.
pub open spec fn transition_table<S, E>(definitions: Seq<(S, E, S)>) -> Map<(S, E), S>
    decreases definitions.len(),
{
    if definitions.len() == 0 {
        Map::empty()
    } else {
        let last = definitions.last();
        transition_table(definitions.drop_last()).insert((last.0, last.1), last.2)
    }
}

/// The `(source, event)` pair of a definition.
pub open spec fn definition_key<S, E>(definition: (S, E, S)) -> (S, E) {
    (definition.0, definition.1)
}

/// The table of a prefix grows by the next definition.
pub proof fn lemma_transition_table_take_succ<S, E>(definitions: Seq<(S, E, S)>, i: int)
    requires
        0 <= i < definitions.len(),
    ensures
        transition_table(definitions.take(i + 1)) == transition_table(definitions.take(i)).insert(
            definition_key(definitions[i]),
            definitions[i].2,
        ),
{
    assert(definitions.take(i + 1).drop_last() =~= definitions.take(i));
}

/// The table holds exactly the pairs of the definitions, and is finite.
pub proof fn lemma_transition_table_domain<S, E>(definitions: Seq<(S, E, S)>)
    ensures
        transition_table(definitions).dom().finite(),
        forall|key: (S, E)|
            #[trigger] transition_table(definitions).contains_key(key) <==> exists|i: int|
                0 <= i < definitions.len() && definition_key(definitions[i]) == key,
    decreases definitions.len(),
{
    if definitions.len() > 0 {
        let prefix = definitions.drop_last();
        lemma_transition_table_domain(prefix);
        let last = definitions.last();
        assert forall|key: (S, E)|
            #[trigger] transition_table(definitions).contains_key(key) <==> exists|i: int|
                0 <= i < definitions.len() && definition_key(definitions[i]) == key by {
            if transition_table(definitions).contains_key(key) && key != definition_key(last) {
                let i = choose|i: int| 0 <= i < prefix.len() && definition_key(prefix[i]) == key;
                assert(definition_key(definitions[i]) == key);
            }
            if exists|i: int| 0 <= i < definitions.len() && definition_key(definitions[i]) == key {
                let i = choose|i: int| 0 <= i < definitions.len() && definition_key(definitions[i]) == key;
                if i < definitions.len() - 1 {
                    assert(definition_key(prefix[i]) == key);
                }
            }
        }
    }
}

/// No two definitions share their `(source, event)` pair.
pub open spec fn keys_distinct<S, E>(definitions: Seq<(S, E, S)>) -> bool {
    forall|i: int, j: int|
        0 <= i < j < definitions.len() ==> definition_key(#[trigger] definitions[i]) != definition_key(
            #[trigger] definitions[j],
        )
}

/// With distinct pairs, the table maps each definition's pair to its own
/// target and has one entry per definition.
pub proof fn lemma_distinct_keys_table<S, E>(definitions: Seq<(S, E, S)>)
    requires
        keys_distinct(definitions),
    ensures
        transition_table(definitions).dom().len() == definitions.len(),
        forall|j: int|
            0 <= j < definitions.len() ==> #[trigger] transition_table(definitions)[definition_key(definitions[j])]
                == definitions[j].2,
    decreases definitions.len(),
{
    lemma_transition_table_domain(definitions);
    if definitions.len() > 0 {
        let prefix = definitions.drop_last();
        let last = definitions.last();
        assert(keys_distinct(prefix)) by {
            assert forall|i: int, j: int| 0 <= i < j < prefix.len() implies definition_key(#[trigger] prefix[i])
                != definition_key(#[trigger] prefix[j]) by {
                assert(prefix[i] == definitions[i] && prefix[j] == definitions[j]);
            }
        }
        lemma_distinct_keys_table(prefix);
        lemma_transition_table_domain(prefix);
        assert(!transition_table(prefix).contains_key(definition_key(last))) by {
            if transition_table(prefix).contains_key(definition_key(last)) {
                let i = choose|i: int| 0 <= i < prefix.len() && definition_key(prefix[i]) == definition_key(last);
                assert(prefix[i] == definitions[i]);
                assert(definition_key(definitions[i]) != definition_key(definitions[definitions.len() - 1]));
            }
        }
        assert forall|j: int| 0 <= j < definitions.len() implies #[trigger] transition_table(definitions)[definition_key(
            definitions[j],
        )] == definitions[j].2 by {
            if j < definitions.len() - 1 {
                assert(prefix[j] == definitions[j]);
                assert(definition_key(definitions[j]) != definition_key(definitions[definitions.len() - 1]));
                assert(transition_table(prefix)[definition_key(prefix[j])] == prefix[j].2);
            }
        }
    }
}

} // verus!
