//! The steps of one run, in their fixed order, and the rule that the first
//! failure ends the run.

use vstd::prelude::*;
use crate::crateinfo::Opt;
use crate::session::DeployError;

verus! {

/// One step of a run.
#[derive(Debug, Clone, Copy, PartialEq, Eq, Structural)]
pub enum Step {
    /// Build the front end and the back end locally.
    Build,
    /// Install the unit and create the service's directories.
    Preinstall,
    /// Bootstrap the isolated environment.
    PrepareChroot,
    /// Upload the resource files.
    PushResources,
    /// Stop the service.
    StopService,
    /// Rename the current executable to its backup.
    BackupExecutable,
    /// Upload the new executable.
    PushExecutable,
    /// Run the command that follows the upload.
    PostCommand,
    /// Start the service.
    StartService,
}

/// `step` where it is `wanted`, else nothing.
pub open spec fn optional(wanted: bool, step: Step) -> Seq<Step> {
    if wanted {
        seq![step]
    } else {
        Seq::empty()
    }
}

/// The steps of a run, in order: the optional ones are there exactly where
/// their flag asks for them.
pub open spec fn plan_of(build: bool, preinstall: bool, isolated: bool, post_command: bool) -> Seq<
    Step,
> {
    optional(build, Step::Build) + optional(preinstall, Step::Preinstall) + optional(
        isolated,
        Step::PrepareChroot,
    ) + seq![
        Step::PushResources,
        Step::StopService,
        Step::BackupExecutable,
        Step::PushExecutable,
    ] + optional(post_command, Step::PostCommand) + seq![Step::StartService]
}

/// The plan of the run that `opt` asks for.
pub fn deployment_plan(opt: &Opt) -> (r: Vec<Step>)
    ensures
        r@ == plan_of(!opt.no_build, opt.preinstall, opt.fakechroot, opt.post_command is Some),
{
    let mut plan: Vec<Step> = Vec::new();
    if !opt.no_build {
        plan.push(Step::Build);
    }
    if opt.preinstall {
        plan.push(Step::Preinstall);
    }
    if opt.fakechroot {
        plan.push(Step::PrepareChroot);
    }
    plan.push(Step::PushResources);
    plan.push(Step::StopService);
    plan.push(Step::BackupExecutable);
    plan.push(Step::PushExecutable);
    if opt.post_command.is_some() {
        plan.push(Step::PostCommand);
    }
    plan.push(Step::StartService);
    proof {
        assert(plan@ =~= plan_of(
            !opt.no_build,
            opt.preinstall,
            opt.fakechroot,
            opt.post_command is Some,
        ));
    }
    plan
}

/// What is reported of a step that failed.
pub open spec fn failure_text(step: Step) -> Seq<char> {
    match step {
        Step::Build => "Failed to build"@,
        Step::Preinstall => "Failed to preinstall service"@,
        Step::PrepareChroot => "Failed to prepare chroot"@,
        Step::PushResources => "Failed to upload resource"@,
        Step::StopService => "Failed to stop service"@,
        Step::BackupExecutable => "Failed to backup executable"@,
        Step::PushExecutable => "Failed to upload executable file"@,
        Step::PostCommand => "Failed to execute post command"@,
        Step::StartService => "Failed to start service"@,
    }
}

/// The report of a failure of `step`; each step has its own.
pub fn failure_message(step: Step) -> (r: String)
    ensures
        r@ == failure_text(step),
{
    match step {
        Step::Build => String::from_str("Failed to build"),
        Step::Preinstall => String::from_str("Failed to preinstall service"),
        Step::PrepareChroot => String::from_str("Failed to prepare chroot"),
        Step::PushResources => String::from_str("Failed to upload resource"),
        Step::StopService => String::from_str("Failed to stop service"),
        Step::BackupExecutable => String::from_str("Failed to backup executable"),
        Step::PushExecutable => String::from_str("Failed to upload executable file"),
        Step::PostCommand => String::from_str("Failed to execute post command"),
        Step::StartService => String::from_str("Failed to start service"),
    }
}

/// The kind of failure that a failing step stands for: a local build fails
/// as a build, every remote step as a transfer.
pub fn failure_kind(step: Step) -> (r: DeployError)
    ensures
        r == if step == Step::Build {
            DeployError::Build
        } else {
            DeployError::Transfer
        },
{
    match step {
        Step::Build => DeployError::Build,
        _ => DeployError::Transfer,
    }
}

/// A run under way over a plan of steps of any kind, the steps of a
/// deployment or the requests of one of them: the plan, how many of its steps
/// succeeded, and whether the step after them failed.
#[derive(Debug)]
pub struct Sequencer<T> {
    pub plan: Vec<T>,
    pub done: usize,
    pub failed: bool,
}

impl<T> Sequencer<T> {
    /// The steps that succeeded are steps of the plan, and a step that
    /// failed is one too.
    pub open spec fn wf(&self) -> bool {
        &&& self.done <= self.plan@.len()
        &&& self.failed ==> self.done < self.plan@.len()
    }

    /// The steps that ran so far, in the order in which they ran.
    pub open spec fn ran(&self) -> Seq<T> {
        if self.failed {
            self.plan@.take(self.done + 1)
        } else {
            self.plan@.take(self.done as int)
        }
    }

    /// The step that runs next, if the run goes on.
    pub open spec fn upcoming(&self) -> Option<T> {
        if !self.failed && self.done < self.plan@.len() {
            Some(self.plan@[self.done as int])
        } else {
            None
        }
    }

    /// The run once the step that is due, if one is, went as `succeeded`
    /// says.
    pub open spec fn after(self, succeeded: bool) -> Sequencer<T> {
        if self.upcoming() is Some {
            if succeeded {
                Sequencer { plan: self.plan, done: (self.done + 1) as usize, failed: false }
            } else {
                Sequencer { plan: self.plan, done: self.done, failed: true }
            }
        } else {
            self
        }
    }

    /// The run after one report for each of `outcomes`, in their order.
    pub open spec fn after_all(self, outcomes: Seq<bool>) -> Sequencer<T>
        decreases outcomes.len(),
    {
        if outcomes.len() == 0 {
            self
        } else {
            self.after_all(outcomes.drop_last()).after(outcomes.last())
        }
    }

    /// A run of `plan` of which nothing has run yet.
    pub fn new(plan: Vec<T>) -> (r: Sequencer<T>)
        ensures
            r.wf(),
            r.plan@ == plan@,
            r.done == 0,
            !r.failed,
            r.ran() == Seq::<T>::empty(),
    {
        let r = Sequencer { plan, done: 0, failed: false };
        proof {
            assert(r.ran() =~= Seq::<T>::empty());
        }
        r
    }

    /// The step to run now: the first of the plan that has not run, unless a
    /// step failed or the plan is through.
    pub fn next(&self) -> (r: Option<&T>)
        ensures
            match r {
                Some(step) => self.upcoming() == Some(*step),
                None => self.upcoming() is None,
            },
    {
        if !self.failed && self.done < self.plan.len() {
            Some(&self.plan[self.done])
        } else {
            None
        }
    }

    /// Takes note of how the step that `next` gave went. A success moves on
    /// to the step behind it; a failure ends the run, and so does nothing
    /// run after it. Where no step is due, nothing changes.
    pub fn report(&mut self, succeeded: bool)
        ensures
            old(self).wf() ==> final(self).wf(),
            *final(self) == old(self).after(succeeded),
            final(self).plan@ == old(self).plan@,
            match old(self).upcoming() {
                Some(step) => {
                    &&& final(self).ran() == old(self).ran().push(step)
                    &&& final(self).failed == !succeeded
                    &&& final(self).done == if succeeded {
                        old(self).done + 1
                    } else {
                        old(self).done as int
                    }
                },
                None => {
                    &&& final(self).done == old(self).done
                    &&& final(self).failed == old(self).failed
                },
            },
            final(self).failed ==> final(self).upcoming() is None,
    {
        if !self.failed && self.done < self.plan.len() {
            proof {
                assert(self.plan@.take(self.done + 1) =~= self.plan@.take(self.done as int).push(
                    self.plan@[self.done as int],
                ));
            }
            if succeeded {
                self.done = self.done + 1;
            } else {
                self.failed = true;
            }
        }
    }

    /// The step that failed, if one did.
    pub fn failure(&self) -> (r: Option<&T>)
        ensures
            match r {
                Some(step) => self.failed && self.done < self.plan@.len() && *step
                    == self.plan@[self.done as int],
                None => !(self.failed && self.done < self.plan@.len()),
            },
    {
        if self.failed && self.done < self.plan.len() {
            Some(&self.plan[self.done])
        } else {
            None
        }
    }

    /// Whether every step of the plan ran and succeeded.
    pub fn is_complete(&self) -> (r: bool)
        ensures
            r == (!self.failed && self.done == self.plan@.len()),
    {
        !self.failed && self.done == self.plan.len()
    }
}

/// Where the first failure lies among `outcomes`, if one of them is a
/// failure.
pub open spec fn first_failure(outcomes: Seq<bool>) -> Option<int>
    decreases outcomes.len(),
{
    if outcomes.len() == 0 {
        None
    } else {
        match first_failure(outcomes.drop_last()) {
            Some(k) => Some(k),
            None => if outcomes.last() {
                None
            } else {
                Some(outcomes.len() - 1)
            },
        }
    }
}

/// The first `n` steps of `plan`, or all of them where it has fewer.
pub open spec fn first_steps<T>(plan: Seq<T>, n: int) -> Seq<T> {
    if n < plan.len() {
        plan.take(n)
    } else {
        plan
    }
}

/// A run is fail-fast. Whatever outcomes are reported to a fresh run, one
/// for each step that was handed out: the steps that ran are the first steps
/// of the plan, in its order, one for each outcome up to the first failure
/// and none behind it.
pub proof fn run_is_fail_fast<T>(run: Sequencer<T>, outcomes: Seq<bool>)
    requires
        run.wf(),
        run.done == 0,
        !run.failed,
    ensures
        run.after_all(outcomes).wf(),
        run.after_all(outcomes).plan == run.plan,
        run.after_all(outcomes).ran() == first_steps(
            run.plan@,
            match first_failure(outcomes) {
                Some(k) => k + 1,
                None => outcomes.len() as int,
            },
        ),
        run.after_all(outcomes).failed == (first_failure(outcomes) is Some && first_failure(
            outcomes,
        )->Some_0 < run.plan@.len()),
        first_failure(outcomes) is Some ==> 0 <= first_failure(outcomes)->Some_0 < outcomes.len(),
    decreases outcomes.len(),
{
    let plan = run.plan@;
    if outcomes.len() == 0 {
        assert(plan.take(0) =~= first_steps(plan, 0));
    } else {
        let shorter = outcomes.drop_last();
        run_is_fail_fast(run, shorter);
        let before = run.after_all(shorter);
        let end = before.after(outcomes.last());
        match first_failure(shorter) {
            Some(k) => {
                if k < plan.len() {
                    assert(before.failed);
                } else {
                    assert(before.ran() == plan);
                    assert(before.done == plan.len()) by {
                        assert(before.ran().len() == before.done);
                    }
                }
                assert(end == before);
            },
            None => {
                assert(!before.failed);
                assert(before.ran().len() == before.done);
                if shorter.len() < plan.len() {
                    assert(before.done == shorter.len());
                    assert(before.plan.len() == plan.len());
                    assert(before.upcoming() is Some);
                    assert(end.done == if outcomes.last() {
                        before.done + 1
                    } else {
                        before.done as int
                    });
                    assert(end.ran() =~= plan.take(shorter.len() as int + 1));
                    if shorter.len() + 1 == plan.len() {
                        assert(plan.take(shorter.len() as int + 1) =~= plan);
                    }
                } else {
                    assert(before.done == plan.len());
                    assert(end == before);
                }
            },
        }
    }
}

/// A failure in the first part of a plan keeps all of its second part from
/// running: where the plan is `first` and then `second`, and the first
/// failure falls on a step of `first`, the steps that ran are those of
/// `first` up to the failing one, and the run has failed. So a failed upload
/// of a unit keeps it from being enabled, a failed install keeps the
/// directories from being created, and a failed resource ends the list.
pub proof fn failure_spares_the_rest<T>(
    run: Sequencer<T>,
    first: Seq<T>,
    second: Seq<T>,
    outcomes: Seq<bool>,
)
    requires
        run.wf(),
        run.done == 0,
        !run.failed,
        run.plan@ == first + second,
        first_failure(outcomes) is Some,
        first_failure(outcomes)->Some_0 < first.len(),
    ensures
        run.after_all(outcomes).failed,
        run.after_all(outcomes).ran() == first.take(first_failure(outcomes)->Some_0 + 1),
{
    run_is_fail_fast(run, outcomes);
    let k = first_failure(outcomes)->Some_0;
    assert((first + second).take(k + 1) =~= first.take(k + 1));
    if k + 1 == run.plan@.len() {
        assert(run.plan@ =~= first.take(k + 1));
    }
}

/// Once a step failed, no report changes the run any more: nothing runs
/// behind a failure.
pub proof fn failure_is_final<T>(run: Sequencer<T>, outcomes: Seq<bool>)
    requires
        run.wf(),
        run.failed,
    ensures
        run.after_all(outcomes) == run,
        run.upcoming() is None,
    decreases outcomes.len(),
{
    if outcomes.len() > 0 {
        failure_is_final(run, outcomes.drop_last());
    }
}

} // verus!
