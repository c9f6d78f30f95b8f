//! Routing of the items of one stream into several.
use vstd::prelude::*;
use crate::messages::Message;

verus! {

/// Which substream a message goes to, when the stream is split by file:
/// a chunk of file `i < num_files` goes to substream `i`, everything else to
/// the remainder (`None`).
pub fn route_by_file(msg: &Message, num_files: usize) -> (r: Option<usize>)
    ensures
        r == (match *msg {
            Message::FileChunk(c) => if (c.idx as nat) < num_files {
                Some(c.idx as usize)
            } else {
                None
            },
            _ => None::<usize>,
        }),
{
    match msg {
        Message::FileChunk(c) => {
            if (c.idx as usize) < num_files {
                Some(c.idx as usize)
            } else {
                None
            }
        },
        _ => None,
    }
}

/// Where an item goes when a stream is branched on a predicate: to the
/// matching side when it matches, to the remainder when it does not, and to
/// both when it matches and `also_to_other` is set. Every item goes
/// somewhere.
pub fn branch_route(matches: bool, also_to_other: bool) -> (r: (bool, bool))
    ensures
        r == branch_sides(matches, also_to_other),
        r.0 || r.1,
{
    (matches, !matches || also_to_other)
}

/// The sides an item goes to: (matching stream, remainder).
pub open spec fn branch_sides(matches: bool, also_to_other: bool) -> (bool, bool) {
    (matches, !matches || also_to_other)
}

/// The two streams that branching `items` gives, where `matched` tells for
/// each item whether it matches the predicate: the matching stream, then
/// the remainder.
pub open spec fn branched<T>(items: Seq<T>, matched: Seq<bool>, also_to_other: bool) -> (Seq<T>, Seq<T>)
    decreases items.len(),
{
    if items.len() == 0 || matched.len() != items.len() {
        (Seq::empty(), Seq::empty())
    } else {
        let (l, r) = branched(items.drop_last(), matched.drop_last(), also_to_other);
        let (to_matching, to_rest) = branch_sides(matched.last(), also_to_other);
        let x = items.last();
        (
            if to_matching {
                l.push(x)
            } else {
                l
            },
            if to_rest {
                r.push(x)
            } else {
                r
            },
        )
    }
}

/// Branching loses and invents no item: without `also_to_other` the two
/// streams together hold each item once; with it, the remainder holds every
/// item and the matching stream the same items as without.
pub proof fn lemma_branch_conservative<T>(items: Seq<T>, matched: Seq<bool>)
    requires
        matched.len() == items.len(),
    ensures
        branched(items, matched, false).0.to_multiset().add(
            branched(items, matched, false).1.to_multiset(),
        ) == items.to_multiset(),
        branched(items, matched, true).1 == items,
        branched(items, matched, true).0 == branched(items, matched, false).0,
    decreases items.len(),
{
    broadcast use vstd::seq_lib::group_to_multiset_ensures;

    if items.len() == 0 {
        assert(items =~= Seq::<T>::empty());
    } else {
        lemma_branch_conservative(items.drop_last(), matched.drop_last());
        assert(items.drop_last().push(items.last()) =~= items);
        let (l, r) = branched(items.drop_last(), matched.drop_last(), false);
        let x = items.last();
        if matched.last() {
            assert(l.push(x).to_multiset() == l.to_multiset().insert(x));
        } else {
            assert(r.push(x).to_multiset() == r.to_multiset().insert(x));
        }
        assert(items.to_multiset() == items.drop_last().to_multiset().insert(x));
        assert(branched(items, matched, false).0.to_multiset().add(
            branched(items, matched, false).1.to_multiset(),
        ) =~= items.to_multiset());
    }
}

} // verus!
