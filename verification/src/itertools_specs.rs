//! What this library relies on from the `itertools` crate.

use crate::concept::{key_le, type_key, Type};
use crate::links_executor::{before_by_player_then_relation, compare_by_player_then_relation};
use crate::thing::{ConceptReadError, LinkResult, Relation};
use crate::variable::Variable;
use itertools::{Itertools, MinMaxResult};
use vstd::prelude::*;

verus! {

/// The items of `items` in the order of their first occurrence, each once.
pub open spec fn first_occurrences<T>(items: Seq<T>) -> Seq<T>
    decreases items.len(),
{
    if items.len() == 0 {
        Seq::empty()
    } else {
        let front = first_occurrences(items.drop_last());
        if front.contains(items.last()) {
            front
        } else {
            front.push(items.last())
        }
    }
}

/// The first occurrences of a sequence hold its items, and none twice.
pub proof fn lemma_first_occurrences<T>(items: Seq<T>)
    ensures
        first_occurrences(items).no_duplicates(),
        first_occurrences(items).to_set() == items.to_set(),
        first_occurrences(items).len() <= items.len(),
    decreases items.len(),
{
    if items.len() == 0 {
        assert(first_occurrences(items).to_set() =~= items.to_set());
    } else {
        let front = first_occurrences(items.drop_last());
        lemma_first_occurrences(items.drop_last());
        let all = first_occurrences(items);
        assert forall|item: T| all.to_set().contains(item) <==> items.to_set().contains(
            item,
        ) by {
            if all.contains(item) {
                let at = all.index_of(item);
                if at < front.len() {
                    assert(front[at] == item);
                    assert(front.to_set().contains(item));
                    assert(items.drop_last().contains(item));
                    let from = items.drop_last().index_of(item);
                    assert(items[from] == item);
                } else {
                    assert(item == items.last());
                    assert(items[items.len() - 1] == item);
                }
            }
            if items.contains(item) {
                let from = items.index_of(item);
                if from < items.len() - 1 {
                    assert(items.drop_last()[from] == item);
                    assert(items.drop_last().to_set().contains(item));
                    assert(front.contains(item));
                    let at = front.index_of(item);
                    assert(all[at] == item);
                } else {
                    if front.contains(item) {
                        let at = front.index_of(item);
                        assert(all[at] == item);
                    } else {
                        assert(all[all.len() - 1] == item);
                    }
                }
            }
        }
        assert(all.to_set() =~= items.to_set());
    }
}

/// `Itertools::unique` on a list of variables: the variables in the order of
/// their first occurrence, each once. The crate documents the adaptor as
/// stable and as keeping the first of equal items.
#[verifier::external_body]
pub(crate) fn unique_variables(variables: Vec<Variable>) -> (unique: Vec<Variable>)
    ensures
        unique@ == first_occurrences(variables@),
{
    variables.into_iter().unique().collect()
}


/// The least and the greatest of some keys.
#[derive(Debug, Clone, Copy)]
pub enum MinMaxKeys {
    NoElements,
    OneElement((u8, u16)),
    MinMax((u8, u16), (u8, u16)),
}

/// `Itertools::minmax` on the keys of a list of types. For no type it
/// answers `NoElements`; for one, `OneElement` with its key; for more, the
/// keys of a least and of a greatest type. The crate documents these three
/// cases; the keys are tuples of integers, which std orders by their first
/// and then by their second part.
#[verifier::external_body]
pub(crate) fn minmax_type_keys(types: &Vec<Type>) -> (found: MinMaxKeys)
    ensures
        match found {
            MinMaxKeys::NoElements => types@.len() == 0,
            MinMaxKeys::OneElement(key) => types@.len() == 1 && key == type_key(types@[0]),
            MinMaxKeys::MinMax(min, max) => {
                &&& types@.len() >= 2
                &&& exists|i: int| 0 <= i < types@.len() && type_key(#[trigger] types@[i]) == min
                &&& exists|i: int| 0 <= i < types@.len() && type_key(#[trigger] types@[i]) == max
                &&& forall|i: int|
                    0 <= i < types@.len() ==> key_le(min, type_key(#[trigger] types@[i]))
                        && key_le(type_key(types@[i]), max)
            },
        },
{
    match types.iter().map(|type_| type_.order_key()).minmax() {
        MinMaxResult::NoElements => MinMaxKeys::NoElements,
        MinMaxResult::OneElement(key) => MinMaxKeys::OneElement(key),
        MinMaxResult::MinMax(min, max) => MinMaxKeys::MinMax(min, max),
    }
}

/// What collecting results comes to: the values of all of them, in order,
/// or the first failure.
pub open spec fn collected<T, E>(items: Seq<Result<T, E>>) -> Result<Seq<T>, E>
    decreases items.len(),
{
    if items.len() == 0 {
        Ok(Seq::empty())
    } else {
        match collected(items.drop_last()) {
            Err(error) => Err(error),
            Ok(values) => match items.last() {
                Ok(value) => Ok(values.push(value)),
                Err(error) => Err(error),
            },
        }
    }
}

/// `Itertools::try_collect` on the results of reading relations: the
/// relations in order, or the first failure. The crate documents it as
/// collecting into a `Result`, which std documents as stopping at the first
/// `Err`.
#[verifier::external_body]
pub(crate) fn try_collect_relations(items: Vec<Result<Relation, ConceptReadError>>) -> (result:
    Result<Vec<Relation>, ConceptReadError>)
    ensures
        match result {
            Ok(relations) => collected(items@) == Ok::<_, ConceptReadError>(relations@),
            Err(error) => collected(items@) == Err::<Seq<Relation>, _>(error),
        },
{
    items.into_iter().try_collect()
}

/// The streams as sequences.
pub open spec fn stream_views(streams: Seq<Vec<LinkResult>>) -> Seq<Seq<LinkResult>> {
    streams.map_values(|stream: Vec<LinkResult>| stream@)
}

/// What `Itertools::kmerge_by` makes of streams of links when it merges them
/// by player and then by relation.
pub uninterp spec fn kmerge_by_player_then_relation(streams: Seq<Seq<LinkResult>>) -> Seq<
    LinkResult,
>;

/// Whether no item of the stream comes before an earlier one in the order
/// by player and then by relation.
pub open spec fn sorted_by_player_then_relation(stream: Seq<LinkResult>) -> bool {
    forall|i: int, j: int|
        0 <= i < j < stream.len() ==> !before_by_player_then_relation(stream[j], stream[i])
}

/// Whether every item of the stream is a link that was read.
pub open spec fn all_read(stream: Seq<LinkResult>) -> bool {
    forall|i: int| 0 <= i < stream.len() ==> (#[trigger] stream[i]) is Ok
}

/// `Itertools::kmerge_by` on streams of links, with the order "by player,
/// then by relation" as the test of which item comes first. The merged
/// stream is what the crate makes of these streams. Every item of it is an
/// item of one of the streams, as the adaptor only hands on what the
/// streams yield; and the crate documents that it is sorted if all the
/// streams are, which is claimed here of streams of links that were read.
#[verifier::external_body]
pub(crate) fn kmerge_links(iterators: Vec<Vec<LinkResult>>) -> (merged: Vec<LinkResult>)
    ensures
        merged@ == kmerge_by_player_then_relation(stream_views(iterators@)),
        forall|i: int|
            0 <= i < merged@.len() ==> exists|k: int|
                0 <= k < iterators@.len() && (#[trigger] iterators@[k])@.contains(
                    #[trigger] merged@[i],
                ),
        (forall|k: int|
            0 <= k < iterators@.len() ==> all_read((#[trigger] iterators@[k])@)
                && sorted_by_player_then_relation(iterators@[k]@))
            ==> sorted_by_player_then_relation(merged@),
{
    iterators.into_iter().kmerge_by(|left, right| compare_by_player_then_relation(left, right)).collect()
}

} // verus!
