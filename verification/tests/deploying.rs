use fleen::deploy::{DeployAction, DeployEvent, DeployJob, ScriptRun};
use fleen::fleen_app::{FleenApp, FleenError};
use fleen::renderer::{EntryKind, RenderError};
use fleen::site_path::SitePath;

fn path(text: &str) -> SitePath {
    SitePath::parse(text)
}

fn job() -> DeployJob {
    FleenApp::open(path("/site"), EntryKind::Dir).unwrap().build_and_deploy()
}

fn is_build(action: &DeployAction, dir: &str) -> bool {
    matches!(action, DeployAction::Build(d) if *d == path(dir))
}

fn is_removal(action: &DeployAction, dir: &str) -> bool {
    matches!(action, DeployAction::RemoveScratch(d) if *d == path(dir))
}

fn result(action: DeployAction) -> Result<String, FleenError> {
    match action {
        DeployAction::Finish(result) => result,
        other => panic!("{:?}", other),
    }
}

/// Runs a job up to the start of the script.
fn started() -> DeployJob {
    let mut job = job();
    assert!(matches!(job.pending(), DeployAction::CreateScratch));
    assert!(is_build(&job.step(DeployEvent::ScratchCreated(Ok(path("/tmp/s")))), "/tmp/s"));
    assert!(matches!(
        job.step(DeployEvent::Built(Ok(()))),
        DeployAction::FindScript(p) if p == path("/site/_scripts/deploy.sh")
    ));
    assert!(matches!(
        job.step(DeployEvent::ScriptFound(true)),
        DeployAction::RunScript(script, dir)
            if script == path("/site/_scripts/deploy.sh") && dir == path("/tmp/s")
    ));
    job
}

#[test]
fn a_deploy_that_succeeds_reports_what_the_script_printed() {
    let mut job = started();
    let action = job.step(DeployEvent::ScriptRan(ScriptRun::Exited(Some("done\n".to_string()), true)));
    assert!(is_removal(&action, "/tmp/s"));
    assert!(!job.is_done());
    let action = job.step(DeployEvent::ScratchRemoved(Ok(())));
    assert!(job.is_done());
    assert_eq!(result(action), Ok("done\n".to_string()));
    // a finished job stays finished
    assert_eq!(result(job.step(DeployEvent::ScriptFound(true))), Ok("done\n".to_string()));
    assert_eq!(result(job.pending()), Ok("done\n".to_string()));
}

#[test]
fn no_scratch_directory_is_a_target_error() {
    let mut job = job();
    let action = job.step(DeployEvent::ScratchCreated(Err("no space".to_string())));
    assert_eq!(result(action), Err(FleenError::TargetDir));
    assert!(job.is_done());
}

#[test]
fn a_failed_build_removes_the_scratch_directory() {
    let mut job = job();
    job.step(DeployEvent::ScratchCreated(Ok(path("/tmp/s"))));
    let error = FleenError::RenderError(RenderError::FileRead("gone".to_string(), path("a.md")));
    let action = job.step(DeployEvent::Built(Err(error.duplicate())));
    assert!(is_removal(&action, "/tmp/s"));
    assert_eq!(result(job.step(DeployEvent::ScratchRemoved(Ok(())))), Err(error));
}

#[test]
fn a_missing_script_removes_the_scratch_directory() {
    let mut job = job();
    job.step(DeployEvent::ScratchCreated(Ok(path("/tmp/s"))));
    job.step(DeployEvent::Built(Ok(())));
    let action = job.step(DeployEvent::ScriptFound(false));
    assert!(is_removal(&action, "/tmp/s"));
    assert_eq!(
        result(job.step(DeployEvent::ScratchRemoved(Ok(())))),
        Err(FleenError::ScriptMissing)
    );
}

#[test]
fn a_script_that_fails_is_a_deploy_error_with_its_output() {
    let mut job = started();
    let action = job.step(DeployEvent::ScriptRan(ScriptRun::Exited(Some("oops".to_string()), false)));
    assert!(is_removal(&action, "/tmp/s"));
    assert_eq!(
        result(job.step(DeployEvent::ScratchRemoved(Ok(())))),
        Err(FleenError::DeployError("oops".to_string()))
    );
}

#[test]
fn a_script_that_cannot_start_is_a_deploy_error() {
    let mut job = started();
    let action = job.step(DeployEvent::ScriptRan(ScriptRun::NotStarted("not executable".to_string())));
    assert!(is_removal(&action, "/tmp/s"));
    assert_eq!(
        result(job.step(DeployEvent::ScratchRemoved(Ok(())))),
        Err(FleenError::DeployError("not executable".to_string()))
    );
}

#[test]
fn output_that_is_no_text_is_replaced() {
    let mut job = started();
    job.step(DeployEvent::ScriptRan(ScriptRun::Exited(None, true)));
    assert_eq!(
        result(job.step(DeployEvent::ScratchRemoved(Ok(())))),
        Ok("Error reading deploy script output".to_string())
    );
    let mut job = started();
    job.step(DeployEvent::ScriptRan(ScriptRun::Exited(None, false)));
    assert_eq!(
        result(job.step(DeployEvent::ScratchRemoved(Ok(())))),
        Err(FleenError::DeployError("Error reading deploy script output".to_string()))
    );
}

#[test]
fn a_failed_removal_is_reported_but_hides_no_earlier_error() {
    let mut job = started();
    job.step(DeployEvent::ScriptRan(ScriptRun::Exited(Some("fine".to_string()), true)));
    assert_eq!(
        result(job.step(DeployEvent::ScratchRemoved(Err("busy".to_string())))),
        Err(FleenError::Io("busy".to_string()))
    );
    let mut job = started();
    job.step(DeployEvent::ScriptRan(ScriptRun::Exited(Some("oops".to_string()), false)));
    assert_eq!(
        result(job.step(DeployEvent::ScratchRemoved(Err("busy".to_string())))),
        Err(FleenError::DeployError("oops".to_string()))
    );
}

#[test]
fn a_report_that_is_not_awaited_changes_nothing() {
    let mut job = job();
    assert!(matches!(job.step(DeployEvent::Built(Ok(()))), DeployAction::CreateScratch));
    assert!(matches!(job.step(DeployEvent::ScratchRemoved(Ok(()))), DeployAction::CreateScratch));
    job.step(DeployEvent::ScratchCreated(Ok(path("/tmp/s"))));
    assert!(is_build(&job.step(DeployEvent::ScriptFound(true)), "/tmp/s"));
    assert!(is_build(&job.step(DeployEvent::ScratchCreated(Ok(path("/tmp/t")))), "/tmp/s"));
    assert!(!job.is_done());
    let fresh = DeployJob::new(path("/site"));
    assert!(matches!(fresh.pending(), DeployAction::CreateScratch));
}
