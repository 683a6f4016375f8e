use crusader::cache::{crate_dir, crate_file, download_url, override_directive, plan_fetch};
use crusader::collect::RunCollector;
use crusader::error::Error;
use crusader::protocol::{classify, BuildPass, CompileResult, RevDep, TestAction, TestEvent, TestResult, TestResultData, TestState, Verdict};
use crusader::version::Version;

fn outcome(success: bool) -> CompileResult {
    CompileResult { stdout: String::new(), stderr: if success { String::new() } else { "error[E0425]".to_string() }, success }
}

fn metadata(nums: &[&str]) -> Vec<u8> {
    let items: Vec<String> = nums.iter().map(|n| format!(r#"{{"num":"{}"}}"#, n)).collect();
    format!(r#"{{"versions":[{}]}}"#, items.join(",")).into_bytes()
}

fn rev_dep(name: &str, num: &str, major: u64, minor: u64, patch: u64) -> RevDep {
    RevDep { name: name.to_string(), vers: Version { major, minor, patch, pre: vec![] }, num: num.to_string() }
}

#[test]
fn classification_table() {
    assert_eq!(classify(true, true), Verdict::Pass);
    assert_eq!(classify(false, true), Verdict::Broken);
    assert_eq!(classify(false, false), Verdict::Broken);
    assert_eq!(classify(true, false), Verdict::Regressed);
}

#[test]
fn failed_flag() {
    assert!(outcome(false).failed());
    assert!(!outcome(true).failed());
}

#[test]
fn quick_words() {
    let rd = || rev_dep("a", "1.0.0", 1, 0, 0);
    assert_eq!(TestResult::broken(rd(), outcome(false)).quick_str(), "broken");
    assert_eq!(TestResult::regressed(rd(), outcome(true), outcome(false)).quick_str(), "regressed");
    assert_eq!(TestResult::pass(rd(), outcome(true), outcome(true)).quick_str(), "pass");
    assert_eq!(TestResult::error(rd(), Error::NoCrateVersions).quick_str(), "error");
    assert_eq!(TestResult::error(rd(), Error::NoCrateVersions).verdict(), Verdict::Error);
}

fn finish(action: TestAction) -> TestResult {
    match action {
        TestAction::Finish(t) => t,
        TestAction::Build(p) => panic!("expected a result, got a build {:?}", p),
    }
}

#[test]
fn resolution_to_baseline_build() {
    let (state, action) = TestState::start("foo".to_string()).step(TestEvent::Metadata(Ok(metadata(&["0.2.0", "0.3.0"]))));
    assert!(matches!(action, TestAction::Build(BuildPass::Baseline)));
    match state {
        TestState::Baseline(rd) => {
            assert_eq!(rd.name, "foo");
            assert_eq!(rd.num, "0.3.0");
        }
        other => panic!("unexpected {:?}", other),
    }
}

#[test]
fn metadata_failure_is_an_error_verdict() {
    let (state, action) = TestState::start("foo".to_string()).step(TestEvent::Metadata(Err(Error::HttpError(404))));
    assert!(matches!(state, TestState::Finished));
    let t = finish(action);
    assert_eq!(t.rev_dep.name, "foo");
    assert_eq!(t.rev_dep.num, "0.0.0");
    assert!(matches!(t.data, TestResultData::Error(Error::HttpError(404))));
}

#[test]
fn unresolvable_versions_are_an_error_verdict() {
    let (_, action) = TestState::start("foo".to_string()).step(TestEvent::Metadata(Ok(metadata(&["x", "y.z"]))));
    assert!(matches!(finish(action).data, TestResultData::Error(Error::NoCrateVersions)));
    let (_, action) = TestState::start("foo".to_string()).step(TestEvent::Metadata(Ok(b"<html>".to_vec())));
    assert!(matches!(finish(action).data, TestResultData::Error(Error::JsonDecode)));
    let (_, action) = TestState::start("foo".to_string()).step(TestEvent::Metadata(Ok(vec![0xff])));
    assert!(matches!(finish(action).data, TestResultData::Error(Error::FromUtf8Error)));
}

#[test]
fn baseline_failure_is_broken_without_second_build() {
    let state = TestState::Baseline(rev_dep("bar", "1.0.0", 1, 0, 0));
    let (state, action) = state.step(TestEvent::Built(Ok(outcome(false))));
    assert!(matches!(state, TestState::Finished));
    let t = finish(action);
    assert!(matches!(t.data, TestResultData::Broken(ref c) if !c.success));
}

#[test]
fn wip_failure_is_regressed() {
    let state = TestState::Baseline(rev_dep("baz", "2.0.0", 2, 0, 0));
    let (state, action) = state.step(TestEvent::Built(Ok(outcome(true))));
    assert!(matches!(action, TestAction::Build(BuildPass::WorkInProgress)));
    let (_, action) = state.step(TestEvent::Built(Ok(outcome(false))));
    assert_eq!(finish(action).verdict(), Verdict::Regressed);
}

#[test]
fn build_error_is_an_error_verdict() {
    let state = TestState::Baseline(rev_dep("baz", "2.0.0", 2, 0, 0));
    let (_, action) = state.step(TestEvent::Built(Err(Error::ProcessError("tar: bad".to_string()))));
    let t = finish(action);
    assert_eq!(t.rev_dep.num, "2.0.0");
    assert!(matches!(t.data, TestResultData::Error(Error::ProcessError(ref s)) if s == "tar: bad"));
}

#[test]
fn accepts_only_matching_events() {
    let s = TestState::start("foo".to_string());
    assert!(s.accepts(&TestEvent::Metadata(Err(Error::JsonDecode))));
    assert!(!s.accepts(&TestEvent::Built(Ok(outcome(true)))));
    let w = TestState::WorkInProgress(rev_dep("a", "1.0.0", 1, 0, 0), outcome(false));
    assert!(!w.accepts(&TestEvent::Built(Ok(outcome(true)))));
    assert!(!TestState::Finished.accepts(&TestEvent::Built(Ok(outcome(true)))));
}

fn run_unit(name: &str, nums: &[&str], base_ok: bool, next_ok: bool, builds: &mut Vec<(String, BuildPass)>) -> TestResult {
    let (mut state, mut action) = TestState::start(name.to_string()).step(TestEvent::Metadata(Ok(metadata(nums))));
    loop {
        match action {
            TestAction::Finish(t) => return t,
            TestAction::Build(pass) => {
                builds.push((name.to_string(), pass));
                let ok = if pass == BuildPass::Baseline { base_ok } else { next_ok };
                let (s, a) = state.step(TestEvent::Built(Ok(outcome(ok))));
                state = s;
                action = a;
            }
        }
    }
}

#[test]
fn end_to_end_foo_passes_bar_broken() {
    let discovered = vec!["foo".to_string(), "bar".to_string()];
    let mut builds = Vec::new();
    let mut collector = RunCollector::new(discovered);
    assert_eq!(collector.total(), 2);
    // bar's unit finishes first.
    let bar = run_unit("bar", &["1.0.0", "0.9.0"], false, true, &mut builds);
    assert_eq!(collector.record(1, bar), 1);
    let foo = run_unit("foo", &["0.3.0", "0.1.0"], true, true, &mut builds);
    assert_eq!(collector.record(0, foo), 2);
    assert!(!builds.contains(&("bar".to_string(), BuildPass::WorkInProgress)));
    assert!(builds.contains(&("foo".to_string(), BuildPass::WorkInProgress)));
    let results = collector.finish();
    assert_eq!(results.len(), 2);
    assert_eq!((results[0].rev_dep.name.as_str(), results[0].rev_dep.num.as_str(), results[0].verdict()), ("foo", "0.3.0", Verdict::Pass));
    assert_eq!((results[1].rev_dep.name.as_str(), results[1].rev_dep.num.as_str(), results[1].verdict()), ("bar", "1.0.0", Verdict::Broken));
}

#[test]
fn results_keep_discovery_order() {
    let names: Vec<String> = (0..5).map(|i| format!("p{}", i)).collect();
    let mut c = RunCollector::new(names);
    for (n, i) in [3usize, 0, 4, 1, 2].iter().enumerate() {
        let t = TestResult::broken(rev_dep(&format!("p{}", i), "1.0.0", 1, 0, 0), outcome(false));
        assert_eq!(c.record(*i, t), n + 1);
    }
    let r = c.finish();
    let names: Vec<&str> = r.iter().map(|t| t.rev_dep.name.as_str()).collect();
    assert_eq!(names, vec!["p0", "p1", "p2", "p3", "p4"]);
}

#[test]
fn lost_worker_becomes_error() {
    let mut c = RunCollector::new(vec!["a".to_string(), "b".to_string()]);
    assert_eq!(c.completed, 0);
    c.record(1, TestResult::pass(rev_dep("b", "1.0.0", 1, 0, 0), outcome(true), outcome(true)));
    let r = c.finish();
    assert_eq!(r[0].rev_dep.name, "a");
    assert_eq!(r[0].rev_dep.num, "0.0.0");
    assert!(matches!(r[0].data, TestResultData::Error(Error::RecvError)));
    assert_eq!(r[1].verdict(), Verdict::Pass);
}

#[test]
fn empty_run() {
    let c = RunCollector::new(vec![]);
    assert_eq!(c.total(), 0);
    assert!(c.finish().is_empty());
}

#[test]
fn cache_paths() {
    let rd = rev_dep("foo", "0.3.0", 0, 3, 0);
    assert_eq!(crate_dir("foo"), "./.crusader/crate-cache/foo");
    assert_eq!(crate_file(&rd), "./.crusader/crate-cache/foo/foo-0.3.0.crate");
    assert_eq!(download_url(&rd), "https://crates.io/api/v1/crates/foo/0.3.0/download");
}

#[test]
fn second_fetch_uses_cache() {
    let rd = rev_dep("foo", "0.3.0", 0, 3, 0);
    let mut on_disk: Vec<String> = Vec::new();
    let mut downloads = 0;
    for _ in 0..2 {
        let cached = on_disk.contains(&crate_file(&rd));
        if let Some(url) = plan_fetch(&rd, cached) {
            assert_eq!(url, "https://crates.io/api/v1/crates/foo/0.3.0/download");
            downloads += 1;
            on_disk.push(crate_file(&rd));
        }
    }
    assert_eq!(downloads, 1);
}

#[test]
fn override_text() {
    assert_eq!(override_directive("/home/me/lib"), r#"paths = ["/home/me/lib"]"#);
}
