//! Choosing the run: which action, over which regions.
//!
//! A run is an action together with a scope. The command surface names each
//! of the six combinations by one word, a [`RunType`].

use crate::executor::OperationOutcome;
use crate::pipeline::Action;
use crate::scope::MultiRegionOption;
use vstd::prelude::*;

verus! {

/// The six runs that the command surface offers.
#[derive(Clone, Copy, Debug, PartialEq, Eq, Structural)]
pub enum RunType {
    DeleteClusterSingle,
    DeleteClusterMultiple,
    DeregisterTaskDefinitionSingle,
    DeregisterTaskDefinitionMultiple,
    DeleteTaskDefinitionSingle,
    DeleteTaskDefinitionMultiple,
}

/// A run: what to do, and over which regions.
#[derive(Clone, Copy, Debug, PartialEq, Eq, Structural)]
pub struct Pipeline {
    pub action: Action,
    pub scope: MultiRegionOption,
}

/// The run that the word names.
pub open spec fn pipeline_of(run_type: RunType) -> Pipeline {
    match run_type {
        RunType::DeleteClusterSingle => Pipeline {
            action: Action::DeleteClusters,
            scope: MultiRegionOption::Single,
        },
        RunType::DeleteClusterMultiple => Pipeline {
            action: Action::DeleteClusters,
            scope: MultiRegionOption::Multiple,
        },
        RunType::DeregisterTaskDefinitionSingle => Pipeline {
            action: Action::DeregisterTaskDefinitions,
            scope: MultiRegionOption::Single,
        },
        RunType::DeregisterTaskDefinitionMultiple => Pipeline {
            action: Action::DeregisterTaskDefinitions,
            scope: MultiRegionOption::Multiple,
        },
        RunType::DeleteTaskDefinitionSingle => Pipeline {
            action: Action::DeleteTaskDefinitions,
            scope: MultiRegionOption::Single,
        },
        RunType::DeleteTaskDefinitionMultiple => Pipeline {
            action: Action::DeleteTaskDefinitions,
            scope: MultiRegionOption::Multiple,
        },
    }
}

/// The word that names the run.
pub open spec fn run_type_of(pipeline: Pipeline) -> RunType {
    match (pipeline.action, pipeline.scope) {
        (Action::DeleteClusters, MultiRegionOption::Single) => RunType::DeleteClusterSingle,
        (Action::DeleteClusters, MultiRegionOption::Multiple) => RunType::DeleteClusterMultiple,
        (Action::DeregisterTaskDefinitions, MultiRegionOption::Single) => {
            RunType::DeregisterTaskDefinitionSingle
        },
        (Action::DeregisterTaskDefinitions, MultiRegionOption::Multiple) => {
            RunType::DeregisterTaskDefinitionMultiple
        },
        (Action::DeleteTaskDefinitions, MultiRegionOption::Single) => {
            RunType::DeleteTaskDefinitionSingle
        },
        (Action::DeleteTaskDefinitions, MultiRegionOption::Multiple) => {
            RunType::DeleteTaskDefinitionMultiple
        },
    }
}

/// How a run ended, given how its regions went: a run over a single region
/// fails when that region's pipeline failed; a run over the region list goes
/// on past a region that failed, and does not fail on its account.
pub open spec fn run_outcome(
    scope: MultiRegionOption,
    regions: Seq<OperationOutcome>,
) -> OperationOutcome {
    if scope == MultiRegionOption::Single && exists|i: int|
        0 <= i < regions.len() && regions[i] == OperationOutcome::Failed {
        OperationOutcome::Failed
    } else {
        OperationOutcome::Succeeded
    }
}

/// Each of the six words names one run, and each run has one word.
///
/// Every combination of an action and a scope is the run of exactly one
/// [`RunType`]: the three actions over the two scopes are the six words.
pub proof fn lemma_run_types_name_every_run()
    ensures
        forall|run_type: RunType| #[trigger] run_type_of(pipeline_of(run_type)) == run_type,
        forall|pipeline: Pipeline| #[trigger] pipeline_of(run_type_of(pipeline)) == pipeline,
{
}

/// The run that tears down the clusters of the scope.
pub fn run_delete_clusters(region_option: MultiRegionOption) -> (pipeline: Pipeline)
    ensures
        pipeline == (Pipeline { action: Action::DeleteClusters, scope: region_option }),
{
    Pipeline { action: Action::DeleteClusters, scope: region_option }
}

/// The run that deregisters the task definitions of the scope.
pub fn run_deregister_task_definitions(region_option: MultiRegionOption) -> (pipeline: Pipeline)
    ensures
        pipeline == (Pipeline { action: Action::DeregisterTaskDefinitions, scope: region_option }),
{
    Pipeline { action: Action::DeregisterTaskDefinitions, scope: region_option }
}

/// The run that deletes the inactive task definitions of the scope.
pub fn run_delete_task_definitions(region_option: MultiRegionOption) -> (pipeline: Pipeline)
    ensures
        pipeline == (Pipeline { action: Action::DeleteTaskDefinitions, scope: region_option }),
{
    Pipeline { action: Action::DeleteTaskDefinitions, scope: region_option }
}

impl RunType {
    /// The run that the word names.
    pub fn pipeline(&self) -> (pipeline: Pipeline)
        ensures
            pipeline == pipeline_of(*self),
    {
        match self {
            RunType::DeleteClusterSingle => run_delete_clusters(MultiRegionOption::Single),
            RunType::DeleteClusterMultiple => run_delete_clusters(MultiRegionOption::Multiple),
            RunType::DeregisterTaskDefinitionSingle => run_deregister_task_definitions(
                MultiRegionOption::Single,
            ),
            RunType::DeregisterTaskDefinitionMultiple => run_deregister_task_definitions(
                MultiRegionOption::Multiple,
            ),
            RunType::DeleteTaskDefinitionSingle => run_delete_task_definitions(
                MultiRegionOption::Single,
            ),
            RunType::DeleteTaskDefinitionMultiple => run_delete_task_definitions(
                MultiRegionOption::Multiple,
            ),
        }
    }
}

impl Default for RunType {
    /// The run of a command that names none: the clusters of a single region.
    fn default() -> (run_type: RunType)
        ensures
            run_type == RunType::DeleteClusterSingle,
    {
        RunType::DeleteClusterSingle
    }
}

impl Pipeline {
    /// The word that names the run.
    pub fn run_type(&self) -> (run_type: RunType)
        ensures
            run_type == run_type_of(*self),
    {
        match (self.action, self.scope) {
            (Action::DeleteClusters, MultiRegionOption::Single) => RunType::DeleteClusterSingle,
            (Action::DeleteClusters, MultiRegionOption::Multiple) => RunType::DeleteClusterMultiple,
            (Action::DeregisterTaskDefinitions, MultiRegionOption::Single) => {
                RunType::DeregisterTaskDefinitionSingle
            },
            (Action::DeregisterTaskDefinitions, MultiRegionOption::Multiple) => {
                RunType::DeregisterTaskDefinitionMultiple
            },
            (Action::DeleteTaskDefinitions, MultiRegionOption::Single) => {
                RunType::DeleteTaskDefinitionSingle
            },
            (Action::DeleteTaskDefinitions, MultiRegionOption::Multiple) => {
                RunType::DeleteTaskDefinitionMultiple
            },
        }
    }

    /// Says how the run ended, given how its regions went.
    pub fn outcome(&self, regions: &Vec<OperationOutcome>) -> (outcome: OperationOutcome)
        ensures
            outcome == run_outcome(self.scope, regions@),
    {
        match self.scope {
            MultiRegionOption::Multiple => OperationOutcome::Succeeded,
            MultiRegionOption::Single => {
                let mut at: usize = 0;
                while at < regions.len()
                    invariant
                        at <= regions.len(),
                        self.scope == MultiRegionOption::Single,
                        forall|i: int| 0 <= i < at ==> regions[i] != OperationOutcome::Failed,
                    decreases regions.len() - at,
                {
                    if regions[at] == OperationOutcome::Failed {
                        return OperationOutcome::Failed;
                    }
                    at += 1;
                }
                OperationOutcome::Succeeded
            },
        }
    }
}

} // verus!
