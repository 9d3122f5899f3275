use delete_ecs_clusters_rs::teardown::{
    begin_teardown, plan_teardown, CallReply, ClusterDescriptor, FailureKind, ListingReply,
    RemoteCall, ServiceDescriptor, TeardownFailure, TeardownOutcome, TeardownStep,
};

fn cluster(name: &str) -> ClusterDescriptor {
    ClusterDescriptor { identifier: format!("arn:cluster/{}", name), name: Some(name.to_string()) }
}

fn service(identifier: &str, desired_count: i32) -> ServiceDescriptor {
    ServiceDescriptor { identifier: identifier.to_string(), desired_count }
}

fn scale(cluster: &str, service: &str) -> RemoteCall {
    RemoteCall::ScaleServiceToZero { cluster: cluster.to_string(), service: service.to_string() }
}

fn delete_service(cluster: &str, service: &str) -> RemoteCall {
    RemoteCall::DeleteService { cluster: cluster.to_string(), service: service.to_string() }
}

fn delete_cluster(cluster: &str) -> RemoteCall {
    RemoteCall::DeleteCluster { cluster: cluster.to_string() }
}

/// Runs the teardown of the cluster with the services; the call at place
/// `failing` of those that follow the listing is answered with `reply`.
/// Returns the calls made, the listing included, and the outcome.
fn run(
    cluster: &ClusterDescriptor,
    services: Vec<ServiceDescriptor>,
    failing: Option<(usize, CallReply)>,
) -> (Vec<RemoteCall>, TeardownOutcome) {
    let listing = begin_teardown(cluster).unwrap();
    let mut calls = vec![listing.request()];
    let mut step = listing.resolve(ListingReply::Listed(services));
    let mut made = 0;
    loop {
        match step {
            TeardownStep::Done(outcome) => return (calls, outcome),
            TeardownStep::Continue(teardown) => {
                assert_eq!(teardown.completed_calls(), made);
                calls.push(teardown.request());
                let reply = match failing {
                    Some((at, reply)) if at == made => reply,
                    _ => CallReply::Succeeded,
                };
                made += 1;
                step = teardown.resolve(reply);
            }
        }
    }
}

#[test]
fn demo_cluster_is_torn_down_in_four_calls() {
    let services = vec![service("svc1", 3), service("svc2", 0)];
    let (calls, outcome) = run(&cluster("demo"), services, None);
    assert_eq!(
        calls,
        vec![
            RemoteCall::ListServices { cluster: "demo".to_string() },
            scale("demo", "svc1"),
            delete_service("demo", "svc1"),
            delete_service("demo", "svc2"),
            delete_cluster("demo"),
        ]
    );
    assert_eq!(outcome, TeardownOutcome::Deleted);
    assert!(outcome.is_deleted());
}

#[test]
fn plan_drains_a_service_before_deleting_it() {
    let services = vec![service("a", 1), service("b", 0), service("c", -2)];
    let calls = plan_teardown(&"demo".to_string(), &services);
    assert_eq!(
        calls,
        vec![
            scale("demo", "a"),
            delete_service("demo", "a"),
            delete_service("demo", "b"),
            scale("demo", "c"),
            delete_service("demo", "c"),
            delete_cluster("demo"),
        ]
    );
}

#[test]
fn cluster_without_services_is_deleted_directly() {
    let (calls, outcome) = run(&cluster("bare"), Vec::new(), None);
    assert_eq!(
        calls,
        vec![RemoteCall::ListServices { cluster: "bare".to_string() }, delete_cluster("bare")]
    );
    assert_eq!(outcome, TeardownOutcome::Deleted);
    assert_eq!(plan_teardown(&"bare".to_string(), &Vec::new()), vec![delete_cluster("bare")]);
}

#[test]
fn service_delete_failure_leaves_the_cluster_scaled_down() {
    let services = vec![service("svc1", 3), service("svc2", 2)];
    let (calls, outcome) = run(&cluster("demo"), services, Some((1, CallReply::Rejected)));
    assert_eq!(
        calls,
        vec![
            RemoteCall::ListServices { cluster: "demo".to_string() },
            scale("demo", "svc1"),
            delete_service("demo", "svc1"),
        ]
    );
    assert_eq!(
        outcome,
        TeardownOutcome::Failed(TeardownFailure::Call {
            call: delete_service("demo", "svc1"),
            kind: FailureKind::Rejected,
        })
    );
    assert!(!outcome.is_deleted());
}

#[test]
fn scale_down_failure_stops_the_teardown() {
    let services = vec![service("svc1", 3)];
    let (calls, outcome) = run(&cluster("demo"), services, Some((0, CallReply::Rejected)));
    assert_eq!(calls.len(), 2);
    assert_eq!(
        outcome,
        TeardownOutcome::Failed(TeardownFailure::Call {
            call: scale("demo", "svc1"),
            kind: FailureKind::Rejected,
        })
    );
}

#[test]
fn cluster_delete_failure_is_reported() {
    let services = vec![service("svc1", 0)];
    let (calls, outcome) = run(&cluster("demo"), services, Some((1, CallReply::Rejected)));
    assert_eq!(calls.last(), Some(&delete_cluster("demo")));
    assert_eq!(
        outcome,
        TeardownOutcome::Failed(TeardownFailure::Call {
            call: delete_cluster("demo"),
            kind: FailureKind::Rejected,
        })
    );
}

#[test]
fn malformed_response_is_a_failure_of_its_own_kind() {
    let services = vec![service("svc1", 3)];
    let (calls, outcome) = run(&cluster("demo"), services, Some((0, CallReply::Malformed)));
    assert_eq!(calls.len(), 2);
    assert_eq!(
        outcome,
        TeardownOutcome::Failed(TeardownFailure::Call {
            call: scale("demo", "svc1"),
            kind: FailureKind::Malformed,
        })
    );
}

#[test]
fn cluster_without_a_name_is_not_torn_down() {
    let nameless = ClusterDescriptor { identifier: "arn:cluster/x".to_string(), name: None };
    assert_eq!(begin_teardown(&nameless), Err(TeardownFailure::MissingClusterName));
}

#[test]
fn failed_listing_ends_the_teardown() {
    let listing = begin_teardown(&cluster("demo")).unwrap();
    assert_eq!(listing.request(), RemoteCall::ListServices { cluster: "demo".to_string() });
    assert_eq!(
        listing.clone().resolve(ListingReply::Rejected),
        TeardownStep::Done(TeardownOutcome::Failed(TeardownFailure::Call {
            call: RemoteCall::ListServices { cluster: "demo".to_string() },
            kind: FailureKind::Rejected,
        }))
    );
    assert_eq!(
        listing.resolve(ListingReply::Malformed),
        TeardownStep::Done(TeardownOutcome::Failed(TeardownFailure::Call {
            call: RemoteCall::ListServices { cluster: "demo".to_string() },
            kind: FailureKind::Malformed,
        }))
    );
}

#[test]
fn teardown_counts_its_calls() {
    let listing = begin_teardown(&cluster("demo")).unwrap();
    let step = listing.resolve(ListingReply::Listed(vec![service("svc1", 3)]));
    let teardown = match step {
        TeardownStep::Continue(teardown) => teardown,
        TeardownStep::Done(outcome) => panic!("ended early: {:?}", outcome),
    };
    assert_eq!(teardown.completed_calls(), 0);
    assert_eq!(teardown.remaining_calls(), 3);
    assert_eq!(teardown.request(), scale("demo", "svc1"));
    let teardown = match teardown.resolve(CallReply::Succeeded) {
        TeardownStep::Continue(teardown) => teardown,
        TeardownStep::Done(outcome) => panic!("ended early: {:?}", outcome),
    };
    assert_eq!(teardown.completed_calls(), 1);
    assert_eq!(teardown.remaining_calls(), 2);
    assert_eq!(teardown.request(), delete_service("demo", "svc1"));
    assert_eq!(teardown.request().duplicate(), delete_service("demo", "svc1"));
}

#[test]
fn descriptor_copy_is_equal() {
    let named = cluster("demo");
    assert_eq!(named.duplicate(), named);
    let nameless = ClusterDescriptor { identifier: "arn".to_string(), name: None };
    assert_eq!(nameless.duplicate(), nameless);
}
