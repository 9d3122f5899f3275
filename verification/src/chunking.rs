//! Splitting a list of identifiers into groups of bounded size.
//!
//! Some remote calls take several identifiers at once, up to a maximum. The
//! identifiers of a listing are cut into groups of that size, in order: every
//! group but the last is full, and the groups together are the listing.

use crate::identifiers::identifier_views;
use vstd::arithmetic::div_mod::{lemma_basic_div, lemma_fundamental_div_mod, lemma_mod_bound};
use vstd::prelude::*;

verus! {

/// The number of groups that `len` items fill, `size` to a group: `len`
/// divided by `size`, rounded up.
pub open spec fn chunk_count(len: nat, size: nat) -> nat {
    ((len + size - 1) / (size as int)) as nat
}

/// The groups that the items fall into, `size` to a group: group `i` holds
/// the items from place `i * size` up to place `(i + 1) * size`, or up to the
/// end of the items where that comes first.
pub open spec fn chunks_of<A>(items: Seq<A>, size: nat) -> Seq<Seq<A>> {
    Seq::new(
        chunk_count(items.len(), size),
        |i: int|
            items.subrange(
                i * size,
                if (i + 1) * size <= items.len() {
                    (i + 1) * size
                } else {
                    items.len() as int
                },
            ),
    )
}

/// What the groups stand for, in order.
pub open spec fn chunk_views(chunks: Seq<Vec<String>>) -> Seq<Seq<Seq<char>>> {
    chunks.map_values(|chunk: Vec<String>| identifier_views(chunk@))
}

/// The groups are just enough to hold the items.
proof fn lemma_chunk_count_bounds(len: nat, size: nat)
    requires
        size >= 1,
    ensures
        chunk_count(len, size) * size >= len,
        len > 0 ==> (chunk_count(len, size) - 1) * size < len,
        len > 0 ==> chunk_count(len, size) >= 1,
        len == 0 ==> chunk_count(len, size) == 0,
{
    let x = (len + size - 1) as int;
    let d = size as int;
    let c = x / d;
    lemma_fundamental_div_mod(x, d);
    lemma_mod_bound(x, d);
    assert(c * d == d * c) by (nonlinear_arith);
    assert((c - 1) * d == c * d - d) by (nonlinear_arith);
    if len == 0 {
        lemma_basic_div(x, d);
    } else {
        if c <= 0 {
            assert(c * d <= 0) by (nonlinear_arith)
                requires
                    c <= 0,
                    d >= 1,
            ;
        }
    }
}

/// Group `k` exists exactly when the items reach its first place.
proof fn lemma_chunk_exists(len: nat, size: nat, k: int)
    requires
        size >= 1,
        k >= 0,
    ensures
        k < chunk_count(len, size) <==> k * size < len,
{
    lemma_chunk_count_bounds(len, size);
    let c = chunk_count(len, size) as int;
    let d = size as int;
    if k < c {
        assert(k * d <= (c - 1) * d) by (nonlinear_arith)
            requires
                k <= c - 1,
                d >= 0,
        ;
    } else {
        assert(k * d >= c * d) by (nonlinear_arith)
            requires
                k >= c,
                d >= 0,
        ;
    }
}

/// The first `k` groups together are the items before the place where group
/// `k` begins.
proof fn lemma_chunks_prefix<A>(items: Seq<A>, size: nat, k: int)
    requires
        size >= 1,
        0 <= k <= chunk_count(items.len(), size),
    ensures
        chunks_of(items, size).take(k).flatten() == items.take(
            if k * size <= items.len() {
                k * size
            } else {
                items.len() as int
            },
        ),
    decreases k,
{
    let chunks = chunks_of(items, size);
    let d = size as int;
    if k == 0 {
        assert(chunks.take(0) =~= Seq::<Seq<A>>::empty());
        assert(0 * d == 0) by (nonlinear_arith);
        assert(items.take(0) =~= Seq::<A>::empty());
    } else {
        lemma_chunks_prefix(items, size, k - 1);
        lemma_chunk_exists(items.len(), size, k - 1);
        assert(k * d == (k - 1) * d + d) by (nonlinear_arith);
        assert(((k - 1) + 1) * d == k * d);
        let from = (k - 1) * d;
        let to = if k * d <= items.len() {
            k * d
        } else {
            items.len() as int
        };
        assert(chunks[k - 1] == items.subrange(from, to));
        assert(chunks.take(k) =~= chunks.take(k - 1).push(chunks[k - 1]));
        chunks.take(k - 1).lemma_flatten_push(chunks[k - 1]);
        assert(items.take(from) + items.subrange(from, to) =~= items.take(to));
    }
}

/// The groups cover the items exactly, in order, and none is over size.
///
/// `N` items in groups of `size` make `N / size` groups, rounded up: none for
/// no items. Each group holds at least one item and at most `size`, and each
/// but the last holds `size`. The groups put one after another are the items:
/// nothing is left out, nothing comes twice and nothing changes place.
pub proof fn lemma_chunks_cover<A>(items: Seq<A>, size: nat)
    requires
        size >= 1,
    ensures
        chunks_of(items, size).len() == chunk_count(items.len(), size),
        chunks_of(items, size).len() * size >= items.len(),
        items.len() > 0 ==> (chunks_of(items, size).len() - 1) * size < items.len(),
        items.len() == 0 ==> chunks_of(items, size).len() == 0,
        forall|i: int|
            0 <= i < chunks_of(items, size).len() ==> 1 <= (#[trigger] chunks_of(
                items,
                size,
            )[i]).len() <= size,
        forall|i: int|
            0 <= i < chunks_of(items, size).len() - 1 ==> (#[trigger] chunks_of(
                items,
                size,
            )[i]).len() == size,
        chunks_of(items, size).flatten() == items,
{
    let chunks = chunks_of(items, size);
    let count = chunk_count(items.len(), size) as int;
    let d = size as int;
    lemma_chunk_count_bounds(items.len(), size);
    assert forall|i: int| 0 <= i < chunks.len() implies 1 <= (#[trigger] chunks[i]).len()
        <= size by {
        lemma_chunk_exists(items.len(), size, i);
        assert((i + 1) * d == i * d + d) by (nonlinear_arith);
    }
    assert forall|i: int| 0 <= i < chunks.len() - 1 implies (#[trigger] chunks[i]).len()
        == size by {
        lemma_chunk_exists(items.len(), size, i);
        lemma_chunk_exists(items.len(), size, i + 1);
        assert((i + 1) * d == i * d + d) by (nonlinear_arith);
    }
    lemma_chunks_prefix(items, size, count);
    assert(chunks.take(count) =~= chunks);
    assert(items.take(items.len() as int) =~= items);
}

/// Cuts the identifiers into groups of `size`, in order.
pub fn chunk_identifiers(identifiers: &Vec<String>, size: usize) -> (chunks: Vec<Vec<String>>)
    requires
        size >= 1,
    ensures
        chunk_views(chunks@) == chunks_of(identifier_views(identifiers@), size as nat),
{
    let ghost items = identifier_views(identifiers@);
    let ghost wanted = chunks_of(items, size as nat);
    let total = identifiers.len();
    let mut chunks: Vec<Vec<String>> = Vec::new();
    let mut start: usize = 0;
    proof {
        assert(0 * (size as int) == 0) by (nonlinear_arith);
        assert(chunk_views(chunks@) =~= wanted.take(0));
        lemma_chunk_exists(items.len(), size as nat, 0);
    }
    while start < total
        invariant
            size >= 1,
            total == identifiers.len(),
            items == identifier_views(identifiers@),
            wanted == chunks_of(items, size as nat),
            start <= total,
            chunks.len() <= wanted.len(),
            start < total ==> start == chunks.len() * size,
            start == total ==> chunks.len() == wanted.len(),
            chunk_views(chunks@) == wanted.take(chunks.len() as int),
        decreases total - start,
    {
        let end = if total - start <= size {
            total
        } else {
            start + size
        };
        let ghost k = chunks.len() as int;
        proof {
            lemma_chunk_exists(items.len(), size as nat, k);
            lemma_chunk_exists(items.len(), size as nat, k + 1);
            assert((k + 1) * (size as int) == k * (size as int) + size) by (nonlinear_arith);
            assert(wanted[k] == items.subrange(start as int, end as int));
        }
        let mut chunk: Vec<String> = Vec::new();
        let mut at = start;
        proof {
            assert(identifier_views(chunk@) =~= items.subrange(start as int, at as int));
        }
        while at < end
            invariant
                start <= at <= end <= total,
                total == identifiers.len(),
                items == identifier_views(identifiers@),
                identifier_views(chunk@) == items.subrange(start as int, at as int),
            decreases end - at,
        {
            let ghost before = chunk@;
            chunk.push(identifiers[at].clone());
            proof {
                assert(identifier_views(chunk@) =~= identifier_views(before).push(
                    items[at as int],
                ));
                assert(items.subrange(start as int, at as int + 1) =~= items.subrange(
                    start as int,
                    at as int,
                ).push(items[at as int]));
            }
            at += 1;
        }
        let ghost before = chunks@;
        chunks.push(chunk);
        proof {
            assert(chunk_views(chunks@) =~= chunk_views(before).push(wanted[k]));
            assert(wanted.take(k + 1) =~= wanted.take(k).push(wanted[k]));
        }
        start = end;
    }
    proof {
        assert(wanted.take(wanted.len() as int) =~= wanted);
    }
    chunks
}

} // verus!
