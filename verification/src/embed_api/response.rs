//! Putting the vectors of responses in the order of the inputs.

use crate::chunk;
use crate::error::Error;
use crate::float::F32;
use crate::sort;
use crate::text;
use vstd::prelude::*;

verus! {

broadcast use vstd::seq::group_seq_axioms;

/// The first position from `from` on whose item has another index.
pub open spec fn misplaced_from<V>(items: Seq<(usize, V)>, from: int) -> Option<int>
    decreases items.len() - from,
{
    if 0 <= from < items.len() {
        if items[from].0 != from {
            Some(from)
        } else {
            misplaced_from(items, from + 1)
        }
    } else {
        None
    }
}

/// The vectors of a response in the order of its inputs: in the order of their indices, which
/// must be those of the inputs, each once.
pub open spec fn ordered(items: Seq<(usize, Vec<F32>)>, expected: usize) -> Result<
    Seq<Seq<F32>>,
    Seq<char>,
> {
    let list = sort::sorted(items);
    match misplaced_from(list, 0) {
        Some(p) => Err(
            "embeddings response index "@ + text::digits(list[p].0 as nat)
                + " out of order at position "@ + text::digits(p as nat),
        ),
        None => if list.len() != expected {
            Err(
                "embeddings response has "@ + text::digits(list.len()) + " items, expected "@
                    + text::digits(expected as nat),
            )
        } else {
            Ok(list.map_values(|item: (usize, Vec<F32>)| item.1@))
        },
    }
}

/// What a list of vectors comes to.
pub open spec fn vectors_outcome(r: Result<Vec<Vec<F32>>, Error>) -> Result<
    Seq<Seq<F32>>,
    Seq<char>,
> {
    match r {
        Ok(list) => Ok(chunk::vectors(list@)),
        Err(e) => Err(e@),
    }
}

fn second_of(items: Vec<(usize, Vec<F32>)>) -> (r: Vec<Vec<F32>>)
    ensures
        chunk::vectors(r@) == items@.map_values(|item: (usize, Vec<F32>)| item.1@),
{
    let ghost all = items@.map_values(|item: (usize, Vec<F32>)| item.1@);
    let mut items = items;
    let mut out: Vec<Vec<F32>> = Vec::new();
    let ghost start = items@;
    while items.len() > 0
        invariant
            all == start.map_values(|item: (usize, Vec<F32>)| item.1@),
            items@.len() + out@.len() == start.len(),
            items@ == start.skip(out@.len() as int),
            chunk::vectors(out@) == all.take(out@.len() as int),
        decreases items@.len(),
    {
        let ghost before = out@;
        let item = items.remove(0);
        proof {
            assert(item == start[before.len() as int]);
            assert(items@ =~= start.skip(before.len() as int + 1));
        }
        out.push(item.1);
        proof {
            let k = before.len() as int;
            assert(chunk::vectors(out@) =~= chunk::vectors(before).push(item.1@));
            assert(all.take(k + 1) =~= all.take(k).push(all[k]));
        }
    }
    assert(all.take(out@.len() as int) =~= all);
    out
}

/// Order the vectors of a response by their indices and validate the batch's shape.
pub fn order_response(items: Vec<(usize, Vec<F32>)>, expected: usize) -> (r: Result<
    Vec<Vec<F32>>,
    Error,
>)
    ensures
        vectors_outcome(r) == ordered(items@, expected),
{
    let list = sort::sort_by_key(items);
    let mut p: usize = 0;
    while p < list.len()
        invariant
            list@ == sort::sorted(items@),
            0 <= p <= list@.len(),
            misplaced_from(list@, 0) == misplaced_from(list@, p as int),
        decreases list@.len() - p,
    {
        if list[p].0 != p {
            return Err(
                Error::new(
                    "embeddings response index ".to_owned().concat(
                        text::decimal(list[p].0 as u64).as_str(),
                    ).concat(" out of order at position ").concat(
                        text::decimal(p as u64).as_str(),
                    ),
                ),
            );
        }
        p += 1;
    }
    if list.len() != expected {
        return Err(
            Error::new(
                "embeddings response has ".to_owned().concat(
                    text::decimal(list.len() as u64).as_str(),
                ).concat(" items, expected ").concat(text::decimal(expected as u64).as_str()),
            ),
        );
    }
    Ok(second_of(list))
}

/// The vectors of the batches, one batch after the other.
pub open spec fn concatenated(batches: Seq<(usize, Vec<Vec<F32>>)>) -> Seq<Seq<F32>>
    decreases batches.len(),
{
    if batches.len() == 0 {
        Seq::empty()
    } else {
        concatenated(batches.drop_last()) + chunk::vectors(batches.last().1@)
    }
}

/// Put the vectors of batches that ended in any order back in the order of the inputs.
pub fn order_batches(batches: Vec<(usize, Vec<Vec<F32>>)>) -> (r: Vec<Vec<F32>>)
    ensures
        chunk::vectors(r@) == concatenated(sort::sorted(batches@)),
{
    let mut list = sort::sort_by_key(batches);
    let ghost all = list@;
    let mut out: Vec<Vec<F32>> = Vec::new();
    let ghost mut done: int = 0;
    proof {
        assert(all.take(0) =~= Seq::empty());
        assert(chunk::vectors(out@) =~= Seq::empty());
    }
    while list.len() > 0
        invariant
            0 <= done <= all.len(),
            list@ == all.skip(done),
            chunk::vectors(out@) == concatenated(all.take(done)),
        decreases list@.len(),
    {
        let batch = list.remove(0);
        let mut vectors = batch.1;
        proof {
            assert(batch == all[done]);
            assert(list@ =~= all.skip(done + 1));
            assert(all.take(done + 1).drop_last() =~= all.take(done));
        }
        append_vectors(&mut out, &mut vectors);
        proof {
            done = done + 1;
        }
    }
    assert(all.take(done) =~= all);
    out
}

fn append_vectors(out: &mut Vec<Vec<F32>>, vectors: &mut Vec<Vec<F32>>)
    ensures
        chunk::vectors(final(out)@) == chunk::vectors(old(out)@) + chunk::vectors(old(vectors)@),
{
    let ghost before = out@;
    let ghost more = vectors@;
    out.append(vectors);
    assert(chunk::vectors(out@) =~= chunk::vectors(before) + chunk::vectors(more));
}

} // verus!
