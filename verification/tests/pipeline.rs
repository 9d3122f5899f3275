use delete_ecs_clusters_rs::executor::{BatchAction, OperationOutcome};
use delete_ecs_clusters_rs::pipeline::{
    plan_after_listing, plan_cluster_batch, start_batch, Action, Listing, Operation, Stage,
    StatusFilter, DELETE_GROUP_SIZE, PROCESS_AMOUNT_AT_ONCE,
};
use delete_ecs_clusters_rs::teardown::ClusterDescriptor;

fn identifiers(count: usize) -> Vec<String> {
    (0..count).map(|i| format!("arn:task-definition/{}", i)).collect()
}

#[test]
fn twenty_three_inactive_task_definitions_take_three_delete_calls() {
    let ids = identifiers(23);
    let operations = match plan_after_listing(Action::DeleteTaskDefinitions, &ids) {
        Stage::RunBatch(operations) => operations,
        stage => panic!("unexpected stage {:?}", stage),
    };
    assert_eq!(
        operations,
        vec![
            Operation::DeleteTaskDefinitions(ids[0..10].to_vec()),
            Operation::DeleteTaskDefinitions(ids[10..20].to_vec()),
            Operation::DeleteTaskDefinitions(ids[20..23].to_vec()),
        ]
    );
    let mut batch = start_batch(operations.len());
    assert_eq!(batch.poll(), BatchAction::Start(0));
    assert_eq!(batch.poll(), BatchAction::Start(1));
    assert_eq!(batch.poll(), BatchAction::Start(2));
    assert_eq!(batch.poll(), BatchAction::Wait);
    assert_eq!(batch.in_flight(), 3);
    for index in 0..3 {
        assert_eq!(batch.resolve(index, OperationOutcome::Succeeded), Ok(()));
    }
    assert_eq!(batch.poll(), BatchAction::Finished);
}

#[test]
fn constants_are_five_and_ten() {
    assert_eq!(PROCESS_AMOUNT_AT_ONCE, 5);
    assert_eq!(DELETE_GROUP_SIZE, 10);
    let batch = start_batch(7);
    assert_eq!(batch.limit(), 5);
    assert_eq!(batch.operations(), 7);
}

#[test]
fn each_action_has_its_listing() {
    assert_eq!(Action::DeleteClusters.listing(), Listing::Clusters);
    assert_eq!(
        Action::DeregisterTaskDefinitions.listing(),
        Listing::TaskDefinitions(StatusFilter::Unfiltered)
    );
    assert_eq!(
        Action::DeleteTaskDefinitions.listing(),
        Listing::TaskDefinitions(StatusFilter::Inactive)
    );
}

#[test]
fn empty_listing_leaves_nothing_to_do() {
    for action in
        [Action::DeleteClusters, Action::DeregisterTaskDefinitions, Action::DeleteTaskDefinitions]
    {
        assert_eq!(plan_after_listing(action, &Vec::new()), Stage::RunBatch(Vec::new()));
    }
    let mut batch = start_batch(0);
    assert_eq!(batch.poll(), BatchAction::Finished);
}

#[test]
fn task_definitions_are_deregistered_one_by_one() {
    let ids = identifiers(3);
    assert_eq!(
        plan_after_listing(Action::DeregisterTaskDefinitions, &ids),
        Stage::RunBatch(vec![
            Operation::DeregisterTaskDefinition(ids[0].clone()),
            Operation::DeregisterTaskDefinition(ids[1].clone()),
            Operation::DeregisterTaskDefinition(ids[2].clone()),
        ])
    );
}

#[test]
fn listed_clusters_are_described() {
    let ids = vec!["arn:cluster/a".to_string(), "arn:cluster/b".to_string()];
    assert_eq!(plan_after_listing(Action::DeleteClusters, &ids), Stage::DescribeClusters(ids));
}

#[test]
fn described_clusters_make_one_teardown_each() {
    let clusters = vec![
        ClusterDescriptor { identifier: "arn:cluster/a".to_string(), name: Some("a".to_string()) },
        ClusterDescriptor { identifier: "arn:cluster/b".to_string(), name: None },
    ];
    assert_eq!(
        plan_cluster_batch(&clusters),
        vec![
            Operation::TeardownCluster(clusters[0].clone()),
            Operation::TeardownCluster(clusters[1].clone()),
        ]
    );
    assert!(plan_cluster_batch(&Vec::new()).is_empty());
}

#[test]
fn delete_groups_cover_the_listing() {
    for count in 0..35usize {
        let ids = identifiers(count);
        let operations = match plan_after_listing(Action::DeleteTaskDefinitions, &ids) {
            Stage::RunBatch(operations) => operations,
            stage => panic!("unexpected stage {:?}", stage),
        };
        assert_eq!(operations.len(), (count + 9) / 10);
        let mut deleted = Vec::new();
        for operation in operations {
            match operation {
                Operation::DeleteTaskDefinitions(group) => {
                    assert!(!group.is_empty() && group.len() <= 10);
                    deleted.extend(group);
                }
                other => panic!("unexpected operation {:?}", other),
            }
        }
        assert_eq!(deleted, ids);
    }
}
