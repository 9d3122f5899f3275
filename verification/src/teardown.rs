//! Tearing one cluster down in dependency order.
//!
//! A cluster cannot be deleted while it has services, and a service cannot be
//! deleted while its desired task count is not zero. So a teardown lists the
//! cluster's services, drains and deletes each in turn, and deletes the
//! cluster last. It stops at the first call that fails and leaves the rest
//! undone: the cluster then stays, drained as far as the teardown came.
//!
//! Nothing here talks to the remote service. A teardown names the call to
//! make; the driver makes it and hands the reply back.

use crate::chunking::{chunk_identifiers, chunk_views, chunks_of};
use crate::identifiers::identifier_views;
use vstd::prelude::*;

verus! {

/// The most services that one describe call takes.
pub const DESCRIBE_GROUP_SIZE: usize = 10;

/// A cluster as the describe call reports it.
#[derive(Clone, Debug, PartialEq, Eq)]
pub struct ClusterDescriptor {
    /// The identifier the listing gave.
    pub identifier: String,
    /// The cluster's name, which the calls of a teardown address it by.
    pub name: Option<String>,
}

/// What a [`ClusterDescriptor`] stands for.
pub struct ClusterView {
    pub identifier: Seq<char>,
    pub name: Option<Seq<char>>,
}

impl View for ClusterDescriptor {
    type V = ClusterView;

    open spec fn view(&self) -> ClusterView {
        ClusterView {
            identifier: self.identifier@,
            name: match self.name {
                Some(name) => Some(name@),
                None => None,
            },
        }
    }
}

impl ClusterDescriptor {
    /// A copy of the description.
    pub fn duplicate(&self) -> (copy: ClusterDescriptor)
        ensures
            copy@ == self@,
    {
        ClusterDescriptor {
            identifier: self.identifier.clone(),
            name: match &self.name {
                Some(name) => Some(name.clone()),
                None => None,
            },
        }
    }
}

/// A service of a cluster as the remote service reports it.
#[derive(Clone, Debug, PartialEq, Eq)]
pub struct ServiceDescriptor {
    /// The identifier the listing gave.
    pub identifier: String,
    /// The number of tasks the service is asked to keep running.
    pub desired_count: i32,
}

/// What a [`ServiceDescriptor`] stands for.
pub struct ServiceView {
    pub identifier: Seq<char>,
    pub desired_count: int,
}

impl View for ServiceDescriptor {
    type V = ServiceView;

    open spec fn view(&self) -> ServiceView {
        ServiceView { identifier: self.identifier@, desired_count: self.desired_count as int }
    }
}

/// A call to the remote service that a teardown asks its driver to make.
#[derive(Clone, Debug, PartialEq, Eq)]
pub enum RemoteCall {
    /// List the services of the cluster.
    ListServices { cluster: String },
    /// Set the desired task count of the service to zero.
    ScaleServiceToZero { cluster: String, service: String },
    /// Delete the service.
    DeleteService { cluster: String, service: String },
    /// Delete the cluster.
    DeleteCluster { cluster: String },
}

/// What a [`RemoteCall`] stands for.
pub enum CallView {
    ListServices { cluster: Seq<char> },
    ScaleServiceToZero { cluster: Seq<char>, service: Seq<char> },
    DeleteService { cluster: Seq<char>, service: Seq<char> },
    DeleteCluster { cluster: Seq<char> },
}

impl View for RemoteCall {
    type V = CallView;

    open spec fn view(&self) -> CallView {
        match *self {
            RemoteCall::ListServices { cluster } => CallView::ListServices { cluster: cluster@ },
            RemoteCall::ScaleServiceToZero { cluster, service } => CallView::ScaleServiceToZero {
                cluster: cluster@,
                service: service@,
            },
            RemoteCall::DeleteService { cluster, service } => CallView::DeleteService {
                cluster: cluster@,
                service: service@,
            },
            RemoteCall::DeleteCluster { cluster } => CallView::DeleteCluster { cluster: cluster@ },
        }
    }
}

impl RemoteCall {
    /// A copy of the call.
    pub fn duplicate(&self) -> (copy: RemoteCall)
        ensures
            copy@ == self@,
    {
        match self {
            RemoteCall::ListServices { cluster } => RemoteCall::ListServices {
                cluster: cluster.clone(),
            },
            RemoteCall::ScaleServiceToZero { cluster, service } => RemoteCall::ScaleServiceToZero {
                cluster: cluster.clone(),
                service: service.clone(),
            },
            RemoteCall::DeleteService { cluster, service } => RemoteCall::DeleteService {
                cluster: cluster.clone(),
                service: service.clone(),
            },
            RemoteCall::DeleteCluster { cluster } => RemoteCall::DeleteCluster {
                cluster: cluster.clone(),
            },
        }
    }
}

/// Why a call counts as failed.
#[derive(Clone, Copy, Debug, PartialEq, Eq, Structural)]
pub enum FailureKind {
    /// The remote service reported a failure.
    Rejected,
    /// The remote service reported success, but its response lacked a field
    /// that a successful response holds.
    Malformed,
}

/// How a call other than the listing went.
#[derive(Clone, Copy, Debug, PartialEq, Eq, Structural)]
pub enum CallReply {
    Succeeded,
    Rejected,
    Malformed,
}

/// How the listing of a cluster's services went.
#[derive(Clone, Debug, PartialEq, Eq)]
pub enum ListingReply {
    /// The services of the cluster, in the order the listing gave them.
    Listed(Vec<ServiceDescriptor>),
    Rejected,
    Malformed,
}

/// Why a teardown left its cluster in place.
#[derive(Clone, Debug, PartialEq, Eq)]
pub enum TeardownFailure {
    /// The description of the cluster held no name, so no call could address it.
    MissingClusterName,
    /// The call failed. The calls before it succeeded; none was made after it.
    Call { call: RemoteCall, kind: FailureKind },
}

/// What a [`TeardownFailure`] stands for.
pub enum FailureView {
    MissingClusterName,
    Call { call: CallView, kind: FailureKind },
}

impl View for TeardownFailure {
    type V = FailureView;

    open spec fn view(&self) -> FailureView {
        match *self {
            TeardownFailure::MissingClusterName => FailureView::MissingClusterName,
            TeardownFailure::Call { call, kind } => FailureView::Call { call: call@, kind },
        }
    }
}

/// How the teardown of one cluster ended.
#[derive(Clone, Debug, PartialEq, Eq)]
pub enum TeardownOutcome {
    /// Every call succeeded; the cluster is gone.
    Deleted,
    /// The cluster is still there.
    Failed(TeardownFailure),
}

/// What a [`TeardownOutcome`] stands for.
pub enum OutcomeView {
    Deleted,
    Failed(FailureView),
}

impl View for TeardownOutcome {
    type V = OutcomeView;

    open spec fn view(&self) -> OutcomeView {
        match *self {
            TeardownOutcome::Deleted => OutcomeView::Deleted,
            TeardownOutcome::Failed(failure) => OutcomeView::Failed(failure@),
        }
    }
}

impl TeardownOutcome {
    /// True when the cluster was deleted.
    pub fn is_deleted(&self) -> (deleted: bool)
        ensures
            deleted == (self@ == OutcomeView::Deleted),
    {
        match self {
            TeardownOutcome::Deleted => true,
            TeardownOutcome::Failed(_) => false,
        }
    }
}

/// The views of the services, in order.
pub open spec fn service_views(services: Seq<ServiceDescriptor>) -> Seq<ServiceView> {
    services.map_values(|service: ServiceDescriptor| service@)
}

/// The views of the calls, in order.
pub open spec fn call_views(calls: Seq<RemoteCall>) -> Seq<CallView> {
    calls.map_values(|call: RemoteCall| call@)
}

/// The calls that remove one service: the service is drained first unless its
/// desired task count is zero already, then deleted.
pub open spec fn service_calls(cluster: Seq<char>, service: ServiceView) -> Seq<CallView> {
    if service.desired_count != 0 {
        seq![
            CallView::ScaleServiceToZero { cluster, service: service.identifier },
            CallView::DeleteService { cluster, service: service.identifier },
        ]
    } else {
        seq![CallView::DeleteService { cluster, service: service.identifier }]
    }
}

/// The calls that remove the services, service by service in the order given.
pub open spec fn services_calls(cluster: Seq<char>, services: Seq<ServiceView>) -> Seq<CallView> {
    services.map_values(|service: ServiceView| service_calls(cluster, service)).flatten()
}

/// The calls that remove a cluster with the given services: those that remove
/// the services, then the deletion of the cluster.
pub open spec fn teardown_calls(cluster: Seq<char>, services: Seq<ServiceView>) -> Seq<CallView> {
    services_calls(cluster, services).push(CallView::DeleteCluster { cluster })
}

/// Where the calls of service `index` begin among [`services_calls`].
pub open spec fn service_offset(services: Seq<ServiceView>, index: int) -> int
    decreases index,
{
    if index <= 0 {
        0
    } else {
        service_offset(services, index - 1) + (if services[index - 1].desired_count != 0 {
            2int
        } else {
            1int
        })
    }
}

/// Removing one more service appends its calls to those of the services before it.
pub proof fn lemma_services_calls_push(
    cluster: Seq<char>,
    services: Seq<ServiceView>,
    service: ServiceView,
)
    ensures
        services_calls(cluster, services.push(service)) == services_calls(cluster, services)
            + service_calls(cluster, service),
{
    let each = |s: ServiceView| service_calls(cluster, s);
    assert(services.push(service).map_values(each) =~= services.map_values(each).push(
        each(service),
    ));
    services.map_values(each).lemma_flatten_push(each(service));
}

/// The calls of a teardown keep the dependency order.
///
/// The calls of each service stand together, those of an earlier service
/// before those of a later one: a service whose desired task count is not zero
/// is drained by the call just before the one that deletes it, and a service
/// whose count is zero is deleted without being drained. The deletion of the
/// cluster is the last call and occurs nowhere else, so it follows the
/// deletion of every service.
pub proof fn lemma_teardown_calls_ordered(cluster: Seq<char>, services: Seq<ServiceView>)
    ensures
        teardown_calls(cluster, services).len() == service_offset(
            services,
            services.len() as int,
        ) + 1,
        teardown_calls(cluster, services).last() == (CallView::DeleteCluster { cluster }),
        forall|j: int|
            0 <= j < teardown_calls(cluster, services).len() - 1 ==> !(#[trigger] teardown_calls(
                cluster,
                services,
            )[j] is DeleteCluster) && !(teardown_calls(cluster, services)[j] is ListServices),
        forall|i: int|
            #![trigger service_offset(services, i)]
            0 <= i < services.len() ==> {
                let at = service_offset(services, i);
                &&& 0 <= at < service_offset(services, i + 1) <= service_offset(
                    services,
                    services.len() as int,
                )
                &&& teardown_calls(cluster, services).subrange(at, service_offset(services, i + 1))
                    == service_calls(cluster, services[i])
            },
    decreases services.len(),
{
    let plan = teardown_calls(cluster, services);
    if services.len() == 0 {
        assert(services.map_values(|s: ServiceView| service_calls(cluster, s)) =~= Seq::<
            Seq<CallView>,
        >::empty());
        assert(services_calls(cluster, services) =~= Seq::<CallView>::empty());
    } else {
        let front = services.drop_last();
        let last = services.last();
        let n = services.len() as int;
        assert(front.push(last) =~= services);
        lemma_services_calls_push(cluster, front, last);
        lemma_teardown_calls_ordered(cluster, front);
        lemma_service_offset_prefix(services, front, n - 1);
        let before = services_calls(cluster, front);
        let own = service_calls(cluster, last);
        assert(services_calls(cluster, services) == before + own);
        assert(before.len() == service_offset(services, n - 1));
        assert(plan.len() == service_offset(services, n) + 1);
        assert forall|j: int| 0 <= j < plan.len() - 1 implies !(#[trigger] plan[j]
            is DeleteCluster) && !(plan[j] is ListServices) by {
            if j < before.len() {
                assert(plan[j] == teardown_calls(cluster, front)[j]);
            } else {
                assert(plan[j] == own[j - before.len()]);
            }
        }
        assert forall|i: int| #![trigger service_offset(services, i)] 0 <= i < n implies {
            let at = service_offset(services, i);
            &&& 0 <= at < service_offset(services, i + 1) <= service_offset(services, n)
            &&& plan.subrange(at, service_offset(services, i + 1)) == service_calls(
                cluster,
                services[i],
            )
        } by {
            let at = service_offset(services, i);
            let end = service_offset(services, i + 1);
            if i < n - 1 {
                lemma_service_offset_prefix(services, front, i);
                lemma_service_offset_prefix(services, front, i + 1);
                assert(front[i] == services[i]);
                assert(end <= service_offset(front, n - 1));
                assert(plan.subrange(at, end) =~= teardown_calls(cluster, front).subrange(
                    at,
                    end,
                ));
            } else {
                assert(plan.subrange(at, end) =~= own);
            }
        }
    }
}

/// The offsets of the services of a prefix are those within the whole list.
proof fn lemma_service_offset_prefix(
    services: Seq<ServiceView>,
    front: Seq<ServiceView>,
    index: int,
)
    requires
        front.len() <= services.len(),
        forall|k: int| 0 <= k < front.len() ==> front[k] == services[k],
        0 <= index <= front.len(),
    ensures
        service_offset(front, index) == service_offset(services, index),
        0 <= service_offset(services, index),
    decreases index,
{
    if index > 0 {
        lemma_service_offset_prefix(services, front, index - 1);
    }
}

/// Builds the calls that remove the cluster named `cluster` with the given
/// services.
pub fn plan_teardown(cluster: &String, services: &Vec<ServiceDescriptor>) -> (calls: Vec<
    RemoteCall,
>)
    ensures
        call_views(calls@) == teardown_calls(cluster@, service_views(services@)),
{
    let mut calls: Vec<RemoteCall> = Vec::new();
    let mut index: usize = 0;
    proof {
        assert(service_views(services@).take(0) =~= Seq::<ServiceView>::empty());
        assert(service_views(services@).take(0).map_values(
            |s: ServiceView| service_calls(cluster@, s),
        ) =~= Seq::<Seq<CallView>>::empty());
        assert(call_views(calls@) =~= services_calls(cluster@, service_views(services@).take(0)));
    }
    while index < services.len()
        invariant
            index <= services.len(),
            call_views(calls@) == services_calls(
                cluster@,
                service_views(services@).take(index as int),
            ),
        decreases services.len() - index,
    {
        let service = &services[index];
        let ghost before = calls@;
        let ghost done = service_views(services@).take(index as int);
        if service.desired_count != 0 {
            calls.push(
                RemoteCall::ScaleServiceToZero {
                    cluster: cluster.clone(),
                    service: service.identifier.clone(),
                },
            );
        }
        calls.push(
            RemoteCall::DeleteService {
                cluster: cluster.clone(),
                service: service.identifier.clone(),
            },
        );
        proof {
            lemma_services_calls_push(cluster@, done, service@);
            assert(service_views(services@).take(index as int + 1) =~= done.push(service@));
            assert(call_views(calls@) =~= call_views(before) + service_calls(
                cluster@,
                service@,
            ));
        }
        index += 1;
    }
    proof {
        assert(service_views(services@).take(index as int) =~= service_views(services@));
    }
    let ghost before = calls@;
    calls.push(RemoteCall::DeleteCluster { cluster: cluster.clone() });
    proof {
        assert(call_views(calls@) =~= call_views(before).push(
            CallView::DeleteCluster { cluster: cluster@ },
        ));
    }
    calls
}

/// What a [`ListingReply`] stands for.
pub enum ListingReplyView {
    Listed(Seq<ServiceView>),
    Rejected,
    Malformed,
}

impl View for ListingReply {
    type V = ListingReplyView;

    open spec fn view(&self) -> ListingReplyView {
        match *self {
            ListingReply::Listed(services) => ListingReplyView::Listed(service_views(services@)),
            ListingReply::Rejected => ListingReplyView::Rejected,
            ListingReply::Malformed => ListingReplyView::Malformed,
        }
    }
}

/// A teardown that awaits the list of its cluster's services.
#[derive(Clone, Debug, PartialEq, Eq)]
pub struct ServiceListing {
    cluster: String,
}

/// A teardown that awaits the reply to one of the calls that remove its
/// cluster.
#[derive(Debug, PartialEq, Eq)]
pub struct ClusterTeardown {
    calls: Vec<RemoteCall>,
    cursor: usize,
}

/// What a [`ClusterTeardown`] stands for: the calls that remove the cluster,
/// and which of them is awaited.
pub struct TeardownView {
    pub calls: Seq<CallView>,
    pub cursor: int,
}

impl TeardownView {
    /// The awaited call is one of the calls.
    pub open spec fn wf(self) -> bool {
        0 <= self.cursor < self.calls.len()
    }

    /// The call whose reply is awaited.
    pub open spec fn awaited(self) -> CallView {
        self.calls[self.cursor]
    }
}

/// What a teardown does next.
#[derive(Debug, PartialEq, Eq)]
pub enum TeardownStep {
    /// Make the call that the teardown inside asks for, and resolve it.
    Continue(ClusterTeardown),
    /// Nothing is left to do.
    Done(TeardownOutcome),
}

/// What a [`TeardownStep`] stands for.
pub enum StepView {
    Continue(TeardownView),
    Done(OutcomeView),
}

impl View for TeardownStep {
    type V = StepView;

    open spec fn view(&self) -> StepView {
        match *self {
            TeardownStep::Continue(teardown) => StepView::Continue(teardown@),
            TeardownStep::Done(outcome) => StepView::Done(outcome@),
        }
    }
}

/// The kind of failure that a reply other than a success reports.
pub open spec fn failure_kind(reply: CallReply) -> FailureKind {
    if reply == CallReply::Malformed {
        FailureKind::Malformed
    } else {
        FailureKind::Rejected
    }
}

/// What the teardown of the cluster named `cluster` does once the listing of
/// its services is answered: with the services listed it asks for the first
/// of the calls that remove them and the cluster; a listing that failed ends
/// the teardown.
pub open spec fn resolve_listing(cluster: Seq<char>, reply: ListingReplyView) -> StepView {
    match reply {
        ListingReplyView::Listed(services) => StepView::Continue(
            TeardownView { calls: teardown_calls(cluster, services), cursor: 0 },
        ),
        ListingReplyView::Rejected => StepView::Done(
            OutcomeView::Failed(
                FailureView::Call {
                    call: CallView::ListServices { cluster },
                    kind: FailureKind::Rejected,
                },
            ),
        ),
        ListingReplyView::Malformed => StepView::Done(
            OutcomeView::Failed(
                FailureView::Call {
                    call: CallView::ListServices { cluster },
                    kind: FailureKind::Malformed,
                },
            ),
        ),
    }
}

/// What a teardown does once the awaited call is answered: after a success it
/// asks for the next call, or is done when that was the last; after anything
/// else it ends, naming the call that failed.
pub open spec fn resolve_call(teardown: TeardownView, reply: CallReply) -> StepView {
    if reply == CallReply::Succeeded {
        if teardown.cursor + 1 < teardown.calls.len() {
            StepView::Continue(
                TeardownView { calls: teardown.calls, cursor: teardown.cursor + 1 },
            )
        } else {
            StepView::Done(OutcomeView::Deleted)
        }
    } else {
        StepView::Done(
            OutcomeView::Failed(
                FailureView::Call { call: teardown.awaited(), kind: failure_kind(reply) },
            ),
        )
    }
}

/// Starts the teardown of a cluster.
///
/// The teardown begins by listing the cluster's services. A description
/// without a name addresses no cluster, so it ends the teardown at once.
pub fn begin_teardown(cluster: &ClusterDescriptor) -> (start: Result<
    ServiceListing,
    TeardownFailure,
>)
    ensures
        match cluster@.name {
            Some(name) => start is Ok && start->Ok_0@ == name,
            None => start is Err && start->Err_0@ == FailureView::MissingClusterName,
        },
{
    match &cluster.name {
        Some(name) => Ok(ServiceListing { cluster: name.clone() }),
        None => Err(TeardownFailure::MissingClusterName),
    }
}

impl View for ServiceListing {
    type V = Seq<char>;

    /// The name of the cluster.
    closed spec fn view(&self) -> Seq<char> {
        self.cluster@
    }
}

impl ServiceListing {
    /// The call whose reply is awaited: the listing of the cluster's services.
    pub fn request(&self) -> (call: RemoteCall)
        ensures
            call@ == (CallView::ListServices { cluster: self@ }),
    {
        RemoteCall::ListServices { cluster: self.cluster.clone() }
    }

    /// Takes the reply to the listing and says what to do next.
    pub fn resolve(self, reply: ListingReply) -> (step: TeardownStep)
        ensures
            step@ == resolve_listing(self@, reply@),
            step@ matches StepView::Continue(next) ==> next.wf(),
    {
        match reply {
            ListingReply::Listed(services) => {
                let calls = plan_teardown(&self.cluster, &services);
                proof {
                    assert(call_views(calls@).len() == calls@.len());
                }
                TeardownStep::Continue(ClusterTeardown { calls, cursor: 0 })
            },
            ListingReply::Rejected => TeardownStep::Done(
                TeardownOutcome::Failed(
                    TeardownFailure::Call {
                        call: RemoteCall::ListServices { cluster: self.cluster },
                        kind: FailureKind::Rejected,
                    },
                ),
            ),
            ListingReply::Malformed => TeardownStep::Done(
                TeardownOutcome::Failed(
                    TeardownFailure::Call {
                        call: RemoteCall::ListServices { cluster: self.cluster },
                        kind: FailureKind::Malformed,
                    },
                ),
            ),
        }
    }
}

impl View for ClusterTeardown {
    type V = TeardownView;

    closed spec fn view(&self) -> TeardownView {
        TeardownView { calls: call_views(self.calls@), cursor: self.cursor as int }
    }
}

impl ClusterTeardown {
    #[verifier::type_invariant]
    spec fn awaits_one_of_its_calls(self) -> bool {
        self.cursor < self.calls.len()
    }

    /// The call whose reply is awaited.
    pub fn request(&self) -> (call: RemoteCall)
        ensures
            self@.wf(),
            call@ == self@.awaited(),
    {
        proof {
            use_type_invariant(self);
        }
        self.calls[self.cursor].duplicate()
    }

    /// How many calls the teardown has seen succeed.
    pub fn completed_calls(&self) -> (completed: usize)
        ensures
            self@.wf(),
            completed == self@.cursor,
    {
        proof {
            use_type_invariant(self);
        }
        self.cursor
    }

    /// How many calls are left, the awaited one included.
    pub fn remaining_calls(&self) -> (remaining: usize)
        ensures
            self@.wf(),
            remaining == self@.calls.len() - self@.cursor,
    {
        proof {
            use_type_invariant(self);
        }
        self.calls.len() - self.cursor
    }

    /// Takes the reply to the awaited call and says what to do next.
    pub fn resolve(self, reply: CallReply) -> (step: TeardownStep)
        ensures
            self@.wf(),
            step@ == resolve_call(self@, reply),
            step@ matches StepView::Continue(next) ==> next.wf(),
    {
        proof {
            use_type_invariant(&self);
        }
        match reply {
            CallReply::Succeeded => {
                if self.cursor + 1 < self.calls.len() {
                    TeardownStep::Continue(
                        ClusterTeardown { calls: self.calls, cursor: self.cursor + 1 },
                    )
                } else {
                    TeardownStep::Done(TeardownOutcome::Deleted)
                }
            },
            CallReply::Rejected => TeardownStep::Done(
                TeardownOutcome::Failed(
                    TeardownFailure::Call {
                        call: self.calls[self.cursor].duplicate(),
                        kind: FailureKind::Rejected,
                    },
                ),
            ),
            CallReply::Malformed => TeardownStep::Done(
                TeardownOutcome::Failed(
                    TeardownFailure::Call {
                        call: self.calls[self.cursor].duplicate(),
                        kind: FailureKind::Malformed,
                    },
                ),
            ),
        }
    }
}

/// How many replies succeed before the first that does not.
pub open spec fn leading_successes(replies: Seq<CallReply>) -> nat
    decreases replies.len(),
{
    if replies.len() == 0 || replies[0] != CallReply::Succeeded {
        0
    } else {
        1 + leading_successes(replies.drop_first())
    }
}

/// Where a teardown stands after the replies, each given in answer to the call
/// awaited when it came. Replies that come after the teardown is done change
/// nothing.
pub open spec fn after_replies(teardown: TeardownView, replies: Seq<CallReply>) -> StepView
    decreases replies.len(),
{
    if replies.len() == 0 {
        StepView::Continue(teardown)
    } else {
        match resolve_call(teardown, replies[0]) {
            StepView::Continue(next) => after_replies(next, replies.drop_first()),
            StepView::Done(outcome) => StepView::Done(outcome),
        }
    }
}

/// A teardown stops at the first call that fails.
///
/// With `k` replies that succeed before the first that does not: the cluster
/// is deleted when those `k` answer every call that was left; else the
/// teardown has failed with the call that the first failing reply answered,
/// the `k`-th after the one awaited at the start; else, with no failing reply
/// yet, it awaits that call. In no case has it asked for a call beyond that
/// one.
pub proof fn lemma_teardown_stops_at_first_failure(
    teardown: TeardownView,
    replies: Seq<CallReply>,
)
    requires
        teardown.wf(),
    ensures
        ({
            let k = leading_successes(replies) as int;
            after_replies(teardown, replies) == if k >= teardown.calls.len() - teardown.cursor {
                StepView::Done(OutcomeView::Deleted)
            } else if k < replies.len() {
                StepView::Done(
                    OutcomeView::Failed(
                        FailureView::Call {
                            call: teardown.calls[teardown.cursor + k],
                            kind: failure_kind(replies[k]),
                        },
                    ),
                )
            } else {
                StepView::Continue(
                    TeardownView { calls: teardown.calls, cursor: teardown.cursor + k },
                )
            }
        }),
        leading_successes(replies) <= replies.len(),
        leading_successes(replies) < replies.len() ==> replies[leading_successes(replies) as int]
            != CallReply::Succeeded,
    decreases replies.len(),
{
    if replies.len() > 0 && replies[0] == CallReply::Succeeded {
        let rest = replies.drop_first();
        if teardown.cursor + 1 < teardown.calls.len() {
            let next = TeardownView { calls: teardown.calls, cursor: teardown.cursor + 1 };
            lemma_teardown_stops_at_first_failure(next, rest);
        } else {
            lemma_teardown_stops_at_first_failure(teardown, rest);
        }
    }
}

/// A cluster is deleted only after its services are gone.
///
/// A teardown that starts with the calls that remove a cluster and its
/// services asks for the deletion of the cluster only when every reply so far
/// was a success and every other call has been answered.
pub proof fn lemma_cluster_deleted_last(
    cluster: Seq<char>,
    services: Seq<ServiceView>,
    replies: Seq<CallReply>,
)
    ensures
        ({
            let start = TeardownView { calls: teardown_calls(cluster, services), cursor: 0 };
            after_replies(start, replies) matches StepView::Continue(now) ==> {
                &&& now.wf()
                &&& now.calls == start.calls
                &&& now.cursor == replies.len()
                &&& forall|i: int| 0 <= i < replies.len() ==> replies[i] == CallReply::Succeeded
                &&& (now.awaited() is DeleteCluster <==> replies.len() == start.calls.len() - 1)
            }
        }),
{
    let start = TeardownView { calls: teardown_calls(cluster, services), cursor: 0 };
    lemma_teardown_calls_ordered(cluster, services);
    lemma_teardown_stops_at_first_failure(start, replies);
    lemma_leading_successes_all(replies);
}

/// When no reply fails, every reply is a success.
proof fn lemma_leading_successes_all(replies: Seq<CallReply>)
    ensures
        leading_successes(replies) <= replies.len(),
        leading_successes(replies) == replies.len() ==> forall|i: int|
            0 <= i < replies.len() ==> replies[i] == CallReply::Succeeded,
    decreases replies.len(),
{
    if replies.len() > 0 && replies[0] == CallReply::Succeeded {
        let rest = replies.drop_first();
        lemma_leading_successes_all(rest);
        if leading_successes(replies) == replies.len() {
            assert forall|i: int| 0 <= i < replies.len() implies replies[i]
                == CallReply::Succeeded by {
                if i > 0 {
                    assert(replies[i] == rest[i - 1]);
                }
            }
        }
    }
}

/// Cuts the identifiers of the listed services into the groups that one
/// describe call each reports on.
pub fn description_groups(services: &Vec<String>) -> (groups: Vec<Vec<String>>)
    ensures
        chunk_views(groups@) == chunks_of(
            identifier_views(services@),
            DESCRIBE_GROUP_SIZE as nat,
        ),
{
    chunk_identifiers(services, DESCRIBE_GROUP_SIZE)
}

} // verus!
