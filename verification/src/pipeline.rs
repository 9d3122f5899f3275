//! The pipeline of one region: what to list, and what to do with the listing.
//!
//! Each action lists the resources it acts on and turns the listing into a
//! batch of operations that fail or succeed independently of each other.
//! Clusters are described first, since a cluster is torn down by its name;
//! task definitions are deregistered one by one; inactive task definitions are
//! deleted in groups, since the remote call takes several at once, up to a
//! maximum. An empty listing makes an empty batch and no further call.

use crate::chunking::{chunk_identifiers, chunk_views, chunks_of, lemma_chunks_cover};
use crate::executor::{new_batch, BatchExecutor};
use crate::identifiers::{copy_identifiers, identifier_views};
use crate::teardown::{ClusterDescriptor, ClusterView};
use vstd::prelude::*;

verus! {

/// The most operations of a batch that are in flight at once.
pub const PROCESS_AMOUNT_AT_ONCE: usize = 5;

/// The most task definitions that one delete call takes.
pub const DELETE_GROUP_SIZE: usize = 10;

/// What a run does to the resources of a region.
#[derive(Clone, Copy, Debug, PartialEq, Eq, Structural)]
pub enum Action {
    /// Tear down every cluster, its services first.
    DeleteClusters,
    /// Deregister every task definition, which makes it inactive.
    DeregisterTaskDefinitions,
    /// Delete every inactive task definition.
    DeleteTaskDefinitions,
}

/// Which task definitions a listing gives.
#[derive(Clone, Copy, Debug, PartialEq, Eq, Structural)]
pub enum StatusFilter {
    /// Those the remote service lists when no status is asked for.
    Unfiltered,
    /// The inactive ones alone.
    Inactive,
}

/// The listing that opens a pipeline.
#[derive(Clone, Copy, Debug, PartialEq, Eq, Structural)]
pub enum Listing {
    Clusters,
    TaskDefinitions(StatusFilter),
}

/// One operation of a batch.
#[derive(Clone, Debug, PartialEq, Eq)]
pub enum Operation {
    /// Tear the cluster down.
    TeardownCluster(ClusterDescriptor),
    /// Deregister the task definition.
    DeregisterTaskDefinition(String),
    /// Delete the task definitions with one call.
    DeleteTaskDefinitions(Vec<String>),
}

/// What an [`Operation`] stands for.
pub enum OperationView {
    TeardownCluster(ClusterView),
    DeregisterTaskDefinition(Seq<char>),
    DeleteTaskDefinitions(Seq<Seq<char>>),
}

impl View for Operation {
    type V = OperationView;

    open spec fn view(&self) -> OperationView {
        match *self {
            Operation::TeardownCluster(cluster) => OperationView::TeardownCluster(cluster@),
            Operation::DeregisterTaskDefinition(identifier) => {
                OperationView::DeregisterTaskDefinition(identifier@)
            },
            Operation::DeleteTaskDefinitions(identifiers) => OperationView::DeleteTaskDefinitions(
                identifier_views(identifiers@),
            ),
        }
    }
}

/// What follows the listing.
#[derive(Clone, Debug, PartialEq, Eq)]
pub enum Stage {
    /// Describe the clusters with these identifiers, and make a batch of the
    /// descriptions.
    DescribeClusters(Vec<String>),
    /// Run the batch.
    RunBatch(Vec<Operation>),
}

/// What a [`Stage`] stands for.
pub enum StageView {
    DescribeClusters(Seq<Seq<char>>),
    RunBatch(Seq<OperationView>),
}

impl View for Stage {
    type V = StageView;

    open spec fn view(&self) -> StageView {
        match *self {
            Stage::DescribeClusters(identifiers) => StageView::DescribeClusters(
                identifier_views(identifiers@),
            ),
            Stage::RunBatch(operations) => StageView::RunBatch(operation_views(operations@)),
        }
    }
}

/// What the operations stand for, in order.
pub open spec fn operation_views(operations: Seq<Operation>) -> Seq<OperationView> {
    operations.map_values(|operation: Operation| operation@)
}

/// What the descriptions stand for, in order.
pub open spec fn cluster_views(clusters: Seq<ClusterDescriptor>) -> Seq<ClusterView> {
    clusters.map_values(|cluster: ClusterDescriptor| cluster@)
}

/// The listing that opens the pipeline of the action.
pub open spec fn listing_of(action: Action) -> Listing {
    match action {
        Action::DeleteClusters => Listing::Clusters,
        Action::DeregisterTaskDefinitions => Listing::TaskDefinitions(StatusFilter::Unfiltered),
        Action::DeleteTaskDefinitions => Listing::TaskDefinitions(StatusFilter::Inactive),
    }
}

/// One deregistration for each identifier, in order.
pub open spec fn deregistrations(identifiers: Seq<Seq<char>>) -> Seq<OperationView> {
    identifiers.map_values(|identifier: Seq<char>| OperationView::DeregisterTaskDefinition(identifier))
}

/// One deletion for each group of identifiers, in order.
pub open spec fn deletions(identifiers: Seq<Seq<char>>) -> Seq<OperationView> {
    chunks_of(identifiers, DELETE_GROUP_SIZE as nat).map_values(
        |group: Seq<Seq<char>>| OperationView::DeleteTaskDefinitions(group),
    )
}

/// One teardown for each cluster, in order.
pub open spec fn teardowns(clusters: Seq<ClusterView>) -> Seq<OperationView> {
    clusters.map_values(|cluster: ClusterView| OperationView::TeardownCluster(cluster))
}

/// What follows a listing that gave the identifiers: listed clusters are
/// described, unless there are none; listed task definitions make the batch.
pub open spec fn stage_after_listing(action: Action, identifiers: Seq<Seq<char>>) -> StageView {
    match action {
        Action::DeleteClusters => if identifiers.len() == 0 {
            StageView::RunBatch(Seq::empty())
        } else {
            StageView::DescribeClusters(identifiers)
        },
        Action::DeregisterTaskDefinitions => StageView::RunBatch(deregistrations(identifiers)),
        Action::DeleteTaskDefinitions => StageView::RunBatch(deletions(identifiers)),
    }
}

/// An empty listing leaves nothing to do.
///
/// Whatever the action, a listing without identifiers is followed by an empty
/// batch: no description is asked for and no operation is made.
pub proof fn lemma_empty_listing_short_circuits(action: Action)
    ensures
        stage_after_listing(action, Seq::empty()) == StageView::RunBatch(Seq::empty()),
{
    let none = Seq::<Seq<char>>::empty();
    lemma_chunks_cover(none, DELETE_GROUP_SIZE as nat);
    assert(deregistrations(none) =~= Seq::<OperationView>::empty());
    assert(deletions(none) =~= Seq::<OperationView>::empty());
}

/// The identifiers that the operation deletes, none for another operation.
pub open spec fn deleted_by(operation: OperationView) -> Seq<Seq<char>> {
    match operation {
        OperationView::DeleteTaskDefinitions(group) => group,
        _ => Seq::empty(),
    }
}

/// Every listed task definition is deleted by exactly one call, and no call
/// takes more than the maximum.
///
/// The deletions are as many as the listing needs groups, each deletes at
/// least one task definition and at most the maximum, and what they delete,
/// one deletion after another, is the listing.
pub proof fn lemma_deletions_cover_listing(identifiers: Seq<Seq<char>>)
    ensures
        deletions(identifiers).len() == chunks_of(identifiers, DELETE_GROUP_SIZE as nat).len(),
        forall|i: int|
            0 <= i < deletions(identifiers).len() ==> {
                &&& #[trigger] deletions(identifiers)[i] is DeleteTaskDefinitions
                &&& 1 <= deleted_by(deletions(identifiers)[i]).len() <= DELETE_GROUP_SIZE
            },
        deletions(identifiers).map_values(|operation: OperationView| deleted_by(operation)).flatten()
            == identifiers,
{
    let groups = chunks_of(identifiers, DELETE_GROUP_SIZE as nat);
    lemma_chunks_cover(identifiers, DELETE_GROUP_SIZE as nat);
    assert forall|i: int| 0 <= i < deletions(identifiers).len() implies {
        &&& #[trigger] deletions(identifiers)[i] is DeleteTaskDefinitions
        &&& 1 <= deleted_by(deletions(identifiers)[i]).len() <= DELETE_GROUP_SIZE
    } by {
        assert(deleted_by(deletions(identifiers)[i]) == groups[i]);
    }
    assert(deletions(identifiers).map_values(|operation: OperationView| deleted_by(operation))
        =~= groups);
}

impl Action {
    /// The listing that opens the pipeline of the action.
    pub fn listing(&self) -> (listing: Listing)
        ensures
            listing == listing_of(*self),
    {
        match self {
            Action::DeleteClusters => Listing::Clusters,
            Action::DeregisterTaskDefinitions => Listing::TaskDefinitions(StatusFilter::Unfiltered),
            Action::DeleteTaskDefinitions => Listing::TaskDefinitions(StatusFilter::Inactive),
        }
    }
}

/// Says what follows a listing that gave the identifiers.
pub fn plan_after_listing(action: Action, identifiers: &Vec<String>) -> (stage: Stage)
    ensures
        stage@ == stage_after_listing(action, identifier_views(identifiers@)),
{
    match action {
        Action::DeleteClusters => {
            if identifiers.len() == 0 {
                let operations: Vec<Operation> = Vec::new();
                proof {
                    assert(operation_views(operations@) =~= Seq::<OperationView>::empty());
                }
                Stage::RunBatch(operations)
            } else {
                Stage::DescribeClusters(copy_identifiers(identifiers))
            }
        },
        Action::DeregisterTaskDefinitions => {
            let ghost wanted = deregistrations(identifier_views(identifiers@));
            let mut operations: Vec<Operation> = Vec::new();
            let mut at: usize = 0;
            while at < identifiers.len()
                invariant
                    at <= identifiers.len(),
                    wanted == deregistrations(identifier_views(identifiers@)),
                    operation_views(operations@) == wanted.take(at as int),
                decreases identifiers.len() - at,
            {
                let ghost before = operations@;
                operations.push(Operation::DeregisterTaskDefinition(identifiers[at].clone()));
                proof {
                    assert(operation_views(operations@) =~= operation_views(before).push(
                        wanted[at as int],
                    ));
                    assert(wanted.take(at as int + 1) =~= wanted.take(at as int).push(
                        wanted[at as int],
                    ));
                }
                at += 1;
            }
            proof {
                assert(wanted.take(at as int) =~= wanted);
            }
            Stage::RunBatch(operations)
        },
        Action::DeleteTaskDefinitions => {
            let ghost wanted = deletions(identifier_views(identifiers@));
            let groups = chunk_identifiers(identifiers, DELETE_GROUP_SIZE);
            let mut operations: Vec<Operation> = Vec::new();
            let mut at: usize = 0;
            while at < groups.len()
                invariant
                    at <= groups.len(),
                    chunk_views(groups@) == chunks_of(
                        identifier_views(identifiers@),
                        DELETE_GROUP_SIZE as nat,
                    ),
                    wanted == deletions(identifier_views(identifiers@)),
                    operation_views(operations@) == wanted.take(at as int),
                decreases groups.len() - at,
            {
                let ghost before = operations@;
                let group = copy_identifiers(&groups[at]);
                proof {
                    assert(identifier_views(group@) == chunk_views(groups@)[at as int]);
                }
                operations.push(Operation::DeleteTaskDefinitions(group));
                proof {
                    assert(operation_views(operations@) =~= operation_views(before).push(
                        wanted[at as int],
                    ));
                    assert(wanted.take(at as int + 1) =~= wanted.take(at as int).push(
                        wanted[at as int],
                    ));
                }
                at += 1;
            }
            proof {
                assert(chunk_views(groups@).len() == groups@.len());
                assert(wanted.take(at as int) =~= wanted);
            }
            Stage::RunBatch(operations)
        },
    }
}

/// Makes the batch that tears down the described clusters.
pub fn plan_cluster_batch(clusters: &Vec<ClusterDescriptor>) -> (operations: Vec<Operation>)
    ensures
        operation_views(operations@) == teardowns(cluster_views(clusters@)),
{
    let ghost wanted = teardowns(cluster_views(clusters@));
    let mut operations: Vec<Operation> = Vec::new();
    let mut at: usize = 0;
    while at < clusters.len()
        invariant
            at <= clusters.len(),
            wanted == teardowns(cluster_views(clusters@)),
            operation_views(operations@) == wanted.take(at as int),
        decreases clusters.len() - at,
    {
        let ghost before = operations@;
        operations.push(Operation::TeardownCluster(clusters[at].duplicate()));
        proof {
            assert(operation_views(operations@) =~= operation_views(before).push(
                wanted[at as int],
            ));
            assert(wanted.take(at as int + 1) =~= wanted.take(at as int).push(wanted[at as int]));
        }
        at += 1;
    }
    proof {
        assert(wanted.take(at as int) =~= wanted);
    }
    operations
}

/// Opens the books for a batch of `operations` operations, of which at most
/// [`PROCESS_AMOUNT_AT_ONCE`] run at once.
pub fn start_batch(operations: usize) -> (batch: BatchExecutor)
    ensures
        batch.wf(),
        batch@ == new_batch(operations as nat, PROCESS_AMOUNT_AT_ONCE as nat),
{
    BatchExecutor::new(operations, PROCESS_AMOUNT_AT_ONCE).unwrap()
}

} // verus!
