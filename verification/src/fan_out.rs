//! Going through the regions of a list, one after another.
//!
//! A [`RegionFanOut`] hands the regions out in the order of the list and one
//! at a time: the next region is handed out when the outcome of the one before
//! it is recorded. A region whose run failed is recorded as failed, and the
//! regions after it are handed out all the same.

use crate::executor::OperationOutcome;
use crate::identifiers::identifier_views;
use vstd::prelude::*;

verus! {

/// What the driver of a fan-out does next.
#[derive(Clone, Debug, PartialEq, Eq)]
pub enum FanOutStep {
    /// Run the region at this place of the list, and record how it went.
    Run { index: usize, region: String },
    /// A region is running: record how it went.
    Wait,
    /// Every region has run.
    Finished,
}

/// What a [`FanOutStep`] stands for.
pub enum FanOutStepView {
    Run { index: int, region: Seq<char> },
    Wait,
    Finished,
}

impl View for FanOutStep {
    type V = FanOutStepView;

    open spec fn view(&self) -> FanOutStepView {
        match *self {
            FanOutStep::Run { index, region } => FanOutStepView::Run {
                index: index as int,
                region: region@,
            },
            FanOutStep::Wait => FanOutStepView::Wait,
            FanOutStep::Finished => FanOutStepView::Finished,
        }
    }
}

/// The fan-out refused to record an outcome, because no region is running.
#[derive(Clone, Copy, Debug, PartialEq, Eq, Structural)]
pub struct NoRegionRunning;

/// What happens to a fan-out: its driver polls it, or records how the running
/// region went.
pub enum FanOutEvent {
    Poll,
    Record(OperationOutcome),
}

/// A fan-out: the regions, the outcomes of those that have run, in the order
/// of the list, and whether the next one is running.
pub struct FanOutView {
    pub regions: Seq<Seq<char>>,
    pub outcomes: Seq<OperationOutcome>,
    pub running: bool,
}

/// The fan-out over the regions before any of them has run.
pub open spec fn new_fan_out(regions: Seq<Seq<char>>) -> FanOutView {
    FanOutView { regions, outcomes: Seq::empty(), running: false }
}

impl FanOutView {
    /// How many regions have been handed out.
    pub open spec fn started(self) -> nat {
        if self.running {
            self.outcomes.len() + 1
        } else {
            self.outcomes.len()
        }
    }

    /// The regions handed out are regions of the list.
    pub open spec fn wf(self) -> bool {
        self.started() <= self.regions.len()
    }

    /// What the driver does next: it waits while a region is running; else it
    /// runs the first region without an outcome; with none left it is done.
    pub open spec fn next_step(self) -> FanOutStepView {
        if self.running {
            FanOutStepView::Wait
        } else if self.outcomes.len() < self.regions.len() {
            FanOutStepView::Run {
                index: self.outcomes.len() as int,
                region: self.regions[self.outcomes.len() as int],
            }
        } else {
            FanOutStepView::Finished
        }
    }

    /// The fan-out after the event. A poll that hands a region out makes it
    /// the running one. An outcome is recorded for the running region, which
    /// then runs no more. Nothing else changes the fan-out.
    pub open spec fn apply(self, event: FanOutEvent) -> FanOutView {
        match event {
            FanOutEvent::Poll => if self.next_step() is Run {
                FanOutView { regions: self.regions, outcomes: self.outcomes, running: true }
            } else {
                self
            },
            FanOutEvent::Record(outcome) => if self.running {
                FanOutView {
                    regions: self.regions,
                    outcomes: self.outcomes.push(outcome),
                    running: false,
                }
            } else {
                self
            },
        }
    }

    /// The fan-out after the events, in order.
    pub open spec fn after(self, events: Seq<FanOutEvent>) -> FanOutView
        decreases events.len(),
    {
        if events.len() == 0 {
            self
        } else {
            self.after(events.drop_last()).apply(events.last())
        }
    }
}

/// The regions run in the order of the list, one at a time.
///
/// Whatever the driver of a fan-out does and however the regions go: the
/// regions handed out so far are the first of the list, each has an outcome
/// but the one that is running, and at most one is running. When a region is
/// handed out, none is running and every region before it has an outcome. The
/// fan-out is finished exactly when every region has an outcome.
pub proof fn lemma_regions_run_in_order(regions: Seq<Seq<char>>, events: Seq<FanOutEvent>)
    ensures
        ({
            let now = new_fan_out(regions).after(events);
            &&& now.wf()
            &&& now.regions == regions
            &&& now.next_step() matches FanOutStepView::Run { index, region } ==> {
                &&& !now.running
                &&& index == now.outcomes.len()
                &&& index < regions.len()
                &&& region == regions[index]
            }
            &&& now.next_step() is Finished <==> now.outcomes.len() == regions.len()
        }),
    decreases events.len(),
{
    if events.len() > 0 {
        lemma_regions_run_in_order(regions, events.drop_last());
    }
}

/// A region that fails does not keep the regions after it from running.
///
/// Let the running region fail in one run and succeed in another, and let the
/// same events follow in both. Then the two runs differ in the outcome of
/// that one region and in nothing else: the same regions have run, with the
/// same outcomes, and the driver is told the same thing to do next.
pub proof fn lemma_failed_region_is_passed_over(fan_out: FanOutView, events: Seq<FanOutEvent>)
    requires
        fan_out.wf(),
        fan_out.running,
    ensures
        ({
            let failed = fan_out.apply(FanOutEvent::Record(OperationOutcome::Failed)).after(events);
            let succeeded = fan_out.apply(FanOutEvent::Record(OperationOutcome::Succeeded)).after(
                events,
            );
            let index = fan_out.outcomes.len() as int;
            &&& failed.wf()
            &&& index < succeeded.outcomes.len()
            &&& failed.outcomes == succeeded.outcomes.update(index, OperationOutcome::Failed)
            &&& succeeded.outcomes[index] == OperationOutcome::Succeeded
            &&& failed.regions == succeeded.regions
            &&& failed.running == succeeded.running
            &&& failed.next_step() == succeeded.next_step()
        }),
    decreases events.len(),
{
    let index = fan_out.outcomes.len() as int;
    let failed_start = fan_out.apply(FanOutEvent::Record(OperationOutcome::Failed));
    let succeeded_start = fan_out.apply(FanOutEvent::Record(OperationOutcome::Succeeded));
    if events.len() == 0 {
        assert(failed_start.outcomes =~= succeeded_start.outcomes.update(
            index,
            OperationOutcome::Failed,
        ));
    } else {
        lemma_failed_region_is_passed_over(fan_out, events.drop_last());
        let failed = failed_start.after(events.drop_last());
        let succeeded = succeeded_start.after(events.drop_last());
        let event = events.last();
        assert(failed.apply(event).outcomes =~= succeeded.apply(event).outcomes.update(
            index,
            OperationOutcome::Failed,
        ));
    }
}

/// The books of a run over a list of regions.
#[derive(Debug, PartialEq, Eq)]
pub struct RegionFanOut {
    regions: Vec<String>,
    outcomes: Vec<OperationOutcome>,
    running: bool,
}

impl View for RegionFanOut {
    type V = FanOutView;

    closed spec fn view(&self) -> FanOutView {
        FanOutView {
            regions: identifier_views(self.regions@),
            outcomes: self.outcomes@,
            running: self.running,
        }
    }
}

impl RegionFanOut {
    /// The books are in order.
    pub open spec fn wf(&self) -> bool {
        self@.wf()
    }

    /// A fan-out over the regions, none of which has run.
    pub fn new(regions: Vec<String>) -> (fan_out: RegionFanOut)
        ensures
            fan_out.wf(),
            fan_out@ == new_fan_out(identifier_views(regions@)),
    {
        RegionFanOut { regions, outcomes: Vec::new(), running: false }
    }

    /// Says what the driver does next. When that is to run a region, the
    /// region is the running one from now on.
    pub fn poll(&mut self) -> (step: FanOutStep)
        requires
            old(self).wf(),
        ensures
            final(self).wf(),
            step@ == old(self)@.next_step(),
            final(self)@ == old(self)@.apply(FanOutEvent::Poll),
    {
        if self.running {
            FanOutStep::Wait
        } else if self.outcomes.len() < self.regions.len() {
            let index = self.outcomes.len();
            let region = self.regions[index].clone();
            self.running = true;
            FanOutStep::Run { index, region }
        } else {
            FanOutStep::Finished
        }
    }

    /// Records how the running region went. With no region running the
    /// outcome is refused, and the fan-out stays as it was.
    pub fn record(&mut self, outcome: OperationOutcome) -> (result: Result<(), NoRegionRunning>)
        requires
            old(self).wf(),
        ensures
            final(self).wf(),
            final(self)@ == old(self)@.apply(FanOutEvent::Record(outcome)),
            result is Ok <==> old(self)@.running,
    {
        if self.running {
            self.outcomes.push(outcome);
            self.running = false;
            Ok(())
        } else {
            Err(NoRegionRunning)
        }
    }

    /// The outcomes of the regions that have run, in the order of the list.
    pub fn outcomes(&self) -> (outcomes: &Vec<OperationOutcome>)
        ensures
            outcomes@ == self@.outcomes,
    {
        &self.outcomes
    }

    /// The regions of the list.
    pub fn regions(&self) -> (regions: &Vec<String>)
        ensures
            identifier_views(regions@) == self@.regions,
    {
        &self.regions
    }
}

} // verus!
