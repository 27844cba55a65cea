use deploy_rs::crateinfo::Opt;
use deploy_rs::sequence::deployment_plan;
use deploy_rs::sequence::failure_kind;
use deploy_rs::sequence::failure_message;
use deploy_rs::session::DeployError;
use deploy_rs::sequence::Sequencer;
use deploy_rs::sequence::Step;

fn flags(no_build: bool, preinstall: bool, fakechroot: bool, post_command: Option<&str>) -> Opt {
    Opt {
        features: None,
        npm_package: "./frontend".to_string(),
        post_command: post_command.map(|c| c.to_string()),
        resource_files: None,
        preinstall,
        musl: false,
        fakechroot,
        no_build,
        login: "root".to_string(),
        keyfile: None,
        address: "example.org:22".to_string(),
    }
}

struct RecordingSession {
    calls: Vec<Step>,
    fail_on: Option<Step>,
}

impl RecordingSession {
    fn perform(&mut self, step: Step) -> bool {
        self.calls.push(step);
        self.fail_on != Some(step)
    }
}

fn drive(plan: Vec<Step>, fail_on: Option<Step>) -> (RecordingSession, Sequencer<Step>) {
    let mut session = RecordingSession { calls: Vec::new(), fail_on };
    let mut run = Sequencer::new(plan);
    while let Some(step) = run.next() {
        let succeeded = session.perform(*step);
        run.report(succeeded);
    }
    (session, run)
}

fn full_plan() -> Vec<Step> {
    vec![
        Step::Build,
        Step::Preinstall,
        Step::PrepareChroot,
        Step::PushResources,
        Step::StopService,
        Step::BackupExecutable,
        Step::PushExecutable,
        Step::PostCommand,
        Step::StartService,
    ]
}

#[test]
fn plan_with_every_optional_step() {
    assert_eq!(deployment_plan(&flags(false, true, true, Some("./migrate"))), full_plan());
}

#[test]
fn plan_without_optional_steps() {
    assert_eq!(
        deployment_plan(&flags(true, false, false, None)),
        vec![
            Step::PushResources,
            Step::StopService,
            Step::BackupExecutable,
            Step::PushExecutable,
            Step::StartService,
        ]
    );
}

#[test]
fn plan_with_single_optional_steps() {
    assert_eq!(deployment_plan(&flags(false, false, false, None))[0], Step::Build);
    assert_eq!(deployment_plan(&flags(true, true, false, None))[0], Step::Preinstall);
    assert_eq!(deployment_plan(&flags(true, false, true, None))[0], Step::PrepareChroot);
    let with_post = deployment_plan(&flags(true, false, false, Some("true")));
    assert_eq!(with_post.len(), 6);
    assert_eq!(with_post[4], Step::PostCommand);
    assert_eq!(with_post[5], Step::StartService);
}

#[test]
fn sequencer_runs_steps_in_declared_order() {
    let (session, run) = drive(full_plan(), None);
    assert_eq!(session.calls, full_plan());
    assert!(run.is_complete());
    assert_eq!(run.failure(), None);
    assert_eq!(run.next(), None);
}

#[test]
fn sequencer_halts_at_first_failing_step() {
    for k in 0..full_plan().len() {
        let failing = full_plan()[k];
        let (session, mut run) = drive(full_plan(), Some(failing));
        assert_eq!(session.calls, full_plan()[..k + 1].to_vec());
        assert_eq!(run.failure(), Some(&failing));
        assert!(!run.is_complete());
        assert_eq!(run.next(), None);
        run.report(true);
        assert_eq!(run.next(), None);
        assert_eq!(run.failure(), Some(&failing));
    }
}

#[test]
fn sequencer_backup_failure_prevents_upload_and_start() {
    let plan = deployment_plan(&flags(true, false, false, None));
    let (session, run) = drive(plan, Some(Step::BackupExecutable));
    assert_eq!(
        session.calls,
        vec![Step::PushResources, Step::StopService, Step::BackupExecutable]
    );
    assert_eq!(failure_message(*run.failure().unwrap()), "Failed to backup executable");
}

#[test]
fn sequencer_of_empty_plan_is_complete() {
    let mut run: Sequencer<Step> = Sequencer::new(Vec::new());
    assert_eq!(run.next(), None);
    assert!(run.is_complete());
    run.report(false);
    assert!(run.is_complete());
    assert_eq!(run.failure(), None);
}

#[test]
fn failure_message_names_the_step() {
    assert_eq!(failure_message(Step::Build), "Failed to build");
    assert_eq!(failure_message(Step::Preinstall), "Failed to preinstall service");
    assert_eq!(failure_message(Step::PrepareChroot), "Failed to prepare chroot");
    assert_eq!(failure_message(Step::PushResources), "Failed to upload resource");
    assert_eq!(failure_message(Step::StopService), "Failed to stop service");
    assert_eq!(failure_message(Step::BackupExecutable), "Failed to backup executable");
    assert_eq!(failure_message(Step::PushExecutable), "Failed to upload executable file");
    assert_eq!(failure_message(Step::PostCommand), "Failed to execute post command");
    assert_eq!(failure_message(Step::StartService), "Failed to start service");
}

#[test]
fn failure_kind_tells_build_from_remote_steps() {
    assert_eq!(failure_kind(Step::Build), DeployError::Build);
    assert_eq!(failure_kind(Step::StopService), DeployError::Transfer);
    assert_eq!(failure_kind(Step::BackupExecutable), DeployError::Transfer);
    assert_eq!(failure_kind(Step::PushExecutable), DeployError::Transfer);
}
