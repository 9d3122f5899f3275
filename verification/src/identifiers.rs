//! Identifiers of remote resources and of regions.
//!
//! An identifier is a string that the library carries from a listing to the
//! calls that act on it, and never looks into.

use vstd::prelude::*;

verus! {

/// What the identifiers stand for, in order.
pub open spec fn identifier_views(identifiers: Seq<String>) -> Seq<Seq<char>> {
    identifiers.map_values(|identifier: String| identifier@)
}

/// Appending an identifier appends what it stands for.
pub proof fn lemma_identifier_views_push(identifiers: Seq<String>, identifier: String)
    ensures
        identifier_views(identifiers.push(identifier)) == identifier_views(identifiers).push(
            identifier@,
        ),
{
    assert(identifier_views(identifiers.push(identifier)) =~= identifier_views(identifiers).push(
        identifier@,
    ));
}

/// A copy of the identifiers.
pub fn copy_identifiers(identifiers: &Vec<String>) -> (copy: Vec<String>)
    ensures
        identifier_views(copy@) == identifier_views(identifiers@),
{
    let mut copy: Vec<String> = Vec::new();
    let mut at: usize = 0;
    while at < identifiers.len()
        invariant
            at <= identifiers.len(),
            identifier_views(copy@) == identifier_views(identifiers@).take(at as int),
        decreases identifiers.len() - at,
    {
        proof {
            lemma_identifier_views_push(copy@, identifiers@[at as int]);
            assert(identifier_views(identifiers@).take(at as int + 1) =~= identifier_views(
                identifiers@,
            ).take(at as int).push(identifiers@[at as int]@));
        }
        copy.push(identifiers[at].clone());
        at += 1;
    }
    proof {
        assert(identifier_views(identifiers@).take(at as int) =~= identifier_views(
            identifiers@,
        ));
    }
    copy
}

} // verus!
