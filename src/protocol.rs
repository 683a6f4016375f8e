//! The test of one downstream package: resolve its latest version, build it
//! against the published library, then against the work in progress, and
//! classify the two outcomes. The outside work (HTTP, builds) is done by the
//! caller; `step` takes each outcome and says what to do next.
use vstd::prelude::*;
use vstd::string::*;
use crate::error::Error;
use crate::registry::{http_get_to_string, parse_crate, utf8_text, versions_of};
use crate::version::{
    lemma_version_lt_irrefl, lemma_version_neg_trans, parse_version, pick_latest, semver_parse,
    semver_text, version_lt, Version,
};

verus! {

/// What one run of the build tool produced.
#[derive(Debug, Clone)]
pub struct CompileResult {
    pub stdout: String,
    pub stderr: String,
    pub success: bool,
}

impl CompileResult {
    pub fn failed(&self) -> (r: bool)
        ensures
            r == !self.success,
    {
        !self.success
    }
}

/// A downstream package with the version chosen for it; `num` is that
/// version as semver writes it.
#[derive(Debug, Clone)]
pub struct RevDep {
    pub name: String,
    pub vers: Version,
    pub num: String,
}

/// The stand-in for a package whose version could not be resolved: version
/// 0.0.0.
pub open spec fn is_unresolved(rd: RevDep, name: Seq<char>) -> bool {
    &&& rd.name@ == name
    &&& rd.vers.major == 0
    &&& rd.vers.minor == 0
    &&& rd.vers.patch == 0
    &&& rd.vers.pre@.len() == 0
    &&& rd.num@ == "0.0.0"@
}

impl RevDep {
    pub fn unresolved(name: String) -> (r: RevDep)
        ensures
            is_unresolved(r, name@),
    {
        RevDep {
            name,
            vers: Version { major: 0, minor: 0, patch: 0, pre: Vec::new() },
            num: String::from_str("0.0.0"),
        }
    }
}

/// Text `j` of `nums` parses to `v`, and every text before it that parses
/// ranks below `v`.
pub open spec fn first_with(nums: Seq<Seq<char>>, j: int, v: Version) -> bool {
    &&& 0 <= j < nums.len()
    &&& semver_parse(nums[j]) == Some(v)
    &&& forall|k: int|
        0 <= k < j && (#[trigger] semver_parse(nums[k])) is Some ==> version_lt(
            semver_parse(nums[k])->0,
            v,
        )
}

/// `rd` is `name` at the highest version that parses among `nums`, taken
/// from the first text that gives that precedence.
pub open spec fn resolves_to(rd: RevDep, name: Seq<char>, nums: Seq<Seq<char>>) -> bool {
    &&& rd.name@ == name
    &&& exists|j: int| first_with(nums, j, rd.vers) && rd.num@ == semver_text(nums[j])
    &&& forall|k: int|
        0 <= k < nums.len() && (#[trigger] semver_parse(nums[k])) is Some ==> !version_lt(
            rd.vers,
            semver_parse(nums[k])->0,
        )
}

/// A resolution is unique: two results for the same texts agree on the
/// version and on the text it came from.
pub proof fn lemma_resolution_unique(rd1: RevDep, rd2: RevDep, name: Seq<char>, nums: Seq<Seq<char>>)
    requires
        resolves_to(rd1, name, nums),
        resolves_to(rd2, name, nums),
    ensures
        rd1.vers == rd2.vers,
        rd1.num@ == rd2.num@,
{
    let j1 = choose|j: int| first_with(nums, j, rd1.vers) && rd1.num@ == semver_text(nums[j]);
    let j2 = choose|j: int| first_with(nums, j, rd2.vers) && rd2.num@ == semver_text(nums[j]);
    if j1 < j2 {
        assert(semver_parse(nums[j1]) is Some);
        assert(!version_lt(rd2.vers, semver_parse(nums[j1])->0));
        assert(version_lt(semver_parse(nums[j1])->0, rd2.vers));
        lemma_version_lt_irrefl(rd2.vers);
        lemma_version_neg_trans(rd1.vers, rd2.vers, rd2.vers);
        assert(false);
    } else if j2 < j1 {
        assert(semver_parse(nums[j2]) is Some);
        assert(!version_lt(rd1.vers, semver_parse(nums[j2])->0));
        assert(version_lt(semver_parse(nums[j2])->0, rd1.vers));
        lemma_version_lt_irrefl(rd1.vers);
        lemma_version_neg_trans(rd2.vers, rd1.vers, rd1.vers);
        assert(false);
    }
}

/// Texts that do not parse are never chosen and change nothing: inserting
/// one anywhere in the list keeps every resolution a resolution, and adds
/// none.
pub proof fn lemma_unparsable_ignored(
    rd: RevDep,
    name: Seq<char>,
    nums: Seq<Seq<char>>,
    p: int,
    junk: Seq<char>,
)
    requires
        0 <= p <= nums.len(),
        semver_parse(junk) is None,
    ensures
        resolves_to(rd, name, nums) <==> resolves_to(rd, name, nums.insert(p, junk)),
{
    let more = nums.insert(p, junk);
    assert forall|k: int| 0 <= k < more.len() implies #[trigger] more[k] == if k < p {
        nums[k]
    } else if k == p {
        junk
    } else {
        nums[k - 1]
    } by {}
    if resolves_to(rd, name, nums) {
        let j = choose|j: int| first_with(nums, j, rd.vers) && rd.num@ == semver_text(nums[j]);
        let j2 = if j < p { j } else { j + 1 };
        assert forall|k: int| 0 <= k < j2 && (#[trigger] semver_parse(more[k])) is Some implies version_lt(
            semver_parse(more[k])->0,
            rd.vers,
        ) by {
            if k < p {
                assert(semver_parse(nums[k]) is Some);
            } else if k > p {
                assert(semver_parse(nums[k - 1]) is Some);
            }
        }
        assert(first_with(more, j2, rd.vers) && rd.num@ == semver_text(more[j2]));
        assert forall|k: int| 0 <= k < more.len() && (#[trigger] semver_parse(more[k])) is Some implies !version_lt(
            rd.vers,
            semver_parse(more[k])->0,
        ) by {
            if k < p {
                assert(semver_parse(nums[k]) is Some);
            } else if k > p {
                assert(semver_parse(nums[k - 1]) is Some);
            }
        }
    }
    if resolves_to(rd, name, more) {
        let j = choose|j: int| first_with(more, j, rd.vers) && rd.num@ == semver_text(more[j]);
        assert(j != p);
        let j1 = if j < p { j } else { j - 1 };
        assert forall|k: int| 0 <= k < j1 && (#[trigger] semver_parse(nums[k])) is Some implies version_lt(
            semver_parse(nums[k])->0,
            rd.vers,
        ) by {
            if k < p {
                assert(semver_parse(more[k]) is Some);
            } else {
                assert(more[k + 1] == nums[k]);
                assert(semver_parse(more[k + 1]) is Some);
            }
        }
        assert(first_with(nums, j1, rd.vers) && rd.num@ == semver_text(nums[j1]));
        assert forall|k: int| 0 <= k < nums.len() && (#[trigger] semver_parse(nums[k])) is Some implies !version_lt(
            rd.vers,
            semver_parse(nums[k])->0,
        ) by {
            if k < p {
                assert(semver_parse(more[k]) is Some);
            } else {
                assert(more[k + 1] == nums[k]);
                assert(semver_parse(more[k + 1]) is Some);
            }
        }
    }
}

pub open spec fn any_parses(nums: Seq<Seq<char>>) -> bool {
    exists|k: int| 0 <= k < nums.len() && (#[trigger] semver_parse(nums[k])) is Some
}

/// Picks the highest version among the texts that parse, failing with
/// `NoCrateVersions` when none does.
pub fn resolve_rev_dep_version(name: String, nums: &Vec<String>) -> (r: Result<RevDep, Error>)
    ensures
        match r {
            Ok(rd) => resolves_to(rd, name@, nums@.map_values(|s: String| s@)),
            Err(e) => !any_parses(nums@.map_values(|s: String| s@)) && e == Error::NoCrateVersions,
        },
{
    let ghost texts = nums@.map_values(|s: String| s@);
    let mut parsed: Vec<Option<Version>> = Vec::new();
    let mut written: Vec<String> = Vec::new();
    let mut i: usize = 0;
    while i < nums.len()
        invariant
            i <= nums@.len(),
            texts == nums@.map_values(|s: String| s@),
            parsed@.len() == i,
            written@.len() == i,
            forall|k: int| 0 <= k < i ==> parsed@[k] == semver_parse(texts[k]),
            forall|k: int| 0 <= k < i && parsed@[k] is Some ==> written@[k]@ == semver_text(texts[k]),
        decreases nums.len() - i,
    {
        match parse_version(nums[i].as_str()) {
            Some((v, t)) => {
                parsed.push(Some(v));
                written.push(t);
            },
            None => {
                parsed.push(None);
                written.push(String::new());
            },
        }
        i += 1;
    }
    match pick_latest(&parsed) {
        None => {
            proof {
                assert forall|k: int| 0 <= k < texts.len() implies semver_parse(texts[k]) is None by {
                    assert(parsed@[k] is None);
                }
            }
            Err(Error::NoCrateVersions)
        },
        Some(j) => {
            let ghost all = parsed@;
            let ghost all_written = written@;
            let picked = parsed.swap_remove(j);
            let v = picked.unwrap();
            let num = written.swap_remove(j);
            proof {
                assert(semver_parse(texts[j as int]) == Some(v));
                assert(num@ == semver_text(texts[j as int]));
                assert forall|k: int| 0 <= k < j && (#[trigger] semver_parse(texts[k])) is Some implies version_lt(
                    semver_parse(texts[k])->0,
                    v,
                ) by {
                    assert(all[k] == semver_parse(texts[k]));
                }
                assert forall|k: int|
                    0 <= k < texts.len() && (#[trigger] semver_parse(texts[k])) is Some implies !version_lt(
                        v,
                        semver_parse(texts[k])->0,
                    ) by {
                    assert(all[k] == semver_parse(texts[k]));
                }
            }
            let ghost nm = name@;
            let rd = RevDep { name, vers: v, num };
            proof {
                assert(first_with(texts, j as int, rd.vers));
                assert(rd.num@ == semver_text(texts[j as int]));
                assert(resolves_to(rd, nm, texts));
            }
            Ok(rd)
        },
    }
}

/// The four verdicts, without their details.
#[derive(Debug, Clone, Copy, PartialEq, Eq, Structural)]
pub enum Verdict {
    Broken,
    Regressed,
    Pass,
    Error,
}

/// The verdict for two build outcomes taken in order: a failed baseline is
/// `Broken` whatever the work in progress would do.
pub open spec fn classification(base_success: bool, next_success: bool) -> Verdict {
    if !base_success {
        Verdict::Broken
    } else if !next_success {
        Verdict::Regressed
    } else {
        Verdict::Pass
    }
}

pub fn classify(base_success: bool, next_success: bool) -> (r: Verdict)
    ensures
        r == classification(base_success, next_success),
{
    if !base_success {
        Verdict::Broken
    } else if !next_success {
        Verdict::Regressed
    } else {
        Verdict::Pass
    }
}

/// A verdict with the outcomes or the failure behind it.
#[derive(Debug)]
pub enum TestResultData {
    Broken(CompileResult),
    Regressed(CompileResult, CompileResult),
    Pass(CompileResult, CompileResult),
    Error(Error),
}

#[derive(Debug)]
pub struct TestResult {
    pub rev_dep: RevDep,
    pub data: TestResultData,
}

pub open spec fn verdict_of(data: TestResultData) -> Verdict {
    match data {
        TestResultData::Broken(_) => Verdict::Broken,
        TestResultData::Regressed(..) => Verdict::Regressed,
        TestResultData::Pass(..) => Verdict::Pass,
        TestResultData::Error(_) => Verdict::Error,
    }
}

impl TestResult {
    pub fn broken(rev_dep: RevDep, r: CompileResult) -> (t: TestResult)
        ensures
            t == (TestResult { rev_dep, data: TestResultData::Broken(r) }),
    {
        TestResult { rev_dep, data: TestResultData::Broken(r) }
    }

    pub fn regressed(rev_dep: RevDep, r1: CompileResult, r2: CompileResult) -> (t: TestResult)
        ensures
            t == (TestResult { rev_dep, data: TestResultData::Regressed(r1, r2) }),
    {
        TestResult { rev_dep, data: TestResultData::Regressed(r1, r2) }
    }

    pub fn pass(rev_dep: RevDep, r1: CompileResult, r2: CompileResult) -> (t: TestResult)
        ensures
            t == (TestResult { rev_dep, data: TestResultData::Pass(r1, r2) }),
    {
        TestResult { rev_dep, data: TestResultData::Pass(r1, r2) }
    }

    pub fn error(rev_dep: RevDep, e: Error) -> (t: TestResult)
        ensures
            t == (TestResult { rev_dep, data: TestResultData::Error(e) }),
    {
        TestResult { rev_dep, data: TestResultData::Error(e) }
    }

    pub fn verdict(&self) -> (r: Verdict)
        ensures
            r == verdict_of(self.data),
    {
        match self.data {
            TestResultData::Broken(_) => Verdict::Broken,
            TestResultData::Regressed(..) => Verdict::Regressed,
            TestResultData::Pass(..) => Verdict::Pass,
            TestResultData::Error(_) => Verdict::Error,
        }
    }

    /// The one-word summary of the verdict.
    pub fn quick_str(&self) -> (r: &'static str)
        ensures
            r@ == match verdict_of(self.data) {
                Verdict::Broken => "broken"@,
                Verdict::Regressed => "regressed"@,
                Verdict::Pass => "pass"@,
                Verdict::Error => "error"@,
            },
    {
        match self.data {
            TestResultData::Broken(_) => "broken",
            TestResultData::Regressed(..) => "regressed",
            TestResultData::Pass(..) => "pass",
            TestResultData::Error(_) => "error",
        }
    }
}

/// Which of the two builds of a package to run.
#[derive(Debug, Clone, Copy, PartialEq, Eq, Structural)]
pub enum BuildPass {
    /// Against the library's published release.
    Baseline,
    /// Against the local work in progress.
    WorkInProgress,
}

/// Where one package's test stands.
#[derive(Debug)]
pub enum TestState {
    /// Waiting for the crate's registry metadata.
    Resolving(String),
    /// Waiting for the baseline build.
    Baseline(RevDep),
    /// Waiting for the build against the work in progress; holds the
    /// baseline's successful outcome.
    WorkInProgress(RevDep, CompileResult),
    Finished,
}

/// The outcome of the outside work that the last action asked for.
#[derive(Debug)]
pub enum TestEvent {
    /// The body of the crate's metadata answer, or why it could not be had.
    Metadata(Result<Vec<u8>, Error>),
    /// A build's outcome, or why it could not be run.
    Built(Result<CompileResult, Error>),
}

/// What the caller is to do next.
#[derive(Debug)]
pub enum TestAction {
    /// Run this build of the package that the new state holds.
    Build(BuildPass),
    /// The test is over with this result.
    Finish(TestResult),
}

/// The package that a test state is about.
pub open spec fn package_of(state: TestState) -> Seq<char> {
    match state {
        TestState::Resolving(name) => name@,
        TestState::Baseline(rd) => rd.name@,
        TestState::WorkInProgress(rd, _) => rd.name@,
        TestState::Finished => Seq::empty(),
    }
}

pub open spec fn accepts(state: TestState, event: TestEvent) -> bool {
    match state {
        TestState::Resolving(_) => event is Metadata,
        TestState::Baseline(_) => event is Built,
        TestState::WorkInProgress(_, b) => event is Built && b.success,
        TestState::Finished => false,
    }
}

/// The error that a metadata body leads to, if any.
pub open spec fn metadata_error(body: Seq<u8>) -> Option<Error> {
    match utf8_text(body) {
        None => Some(Error::FromUtf8Error),
        Some(t) => match versions_of(t) {
            None => Some(Error::JsonDecode),
            Some(nums) => if any_parses(nums) {
                None
            } else {
                Some(Error::NoCrateVersions)
            },
        },
    }
}

/// Resolves the version of package `name` from the body of its metadata
/// answer.
pub fn resolve_from_body(name: String, body: Vec<u8>) -> (r: Result<RevDep, Error>)
    ensures
        match r {
            Ok(rd) => metadata_error(body@) is None && exists|t: Seq<char>|
                utf8_text(body@) == Some(t) && resolves_to(rd, name@, versions_of(t)->0),
            Err(e) => metadata_error(body@) == Some(e),
        },
{
    let text = http_get_to_string(body)?;
    let nums = parse_crate(text.as_str())?;
    resolve_rev_dep_version(name, &nums)
}

impl TestState {
    /// The state of a test of `name` that has just begun; the caller first
    /// fetches the address `crate_url(name, None)`.
    pub fn start(name: String) -> (r: TestState)
        ensures
            r == TestState::Resolving(name),
    {
        TestState::Resolving(name)
    }

    pub fn accepts(&self, event: &TestEvent) -> (r: bool)
        ensures
            r == accepts(*self, *event),
    {
        match (self, event) {
            (TestState::Resolving(_), TestEvent::Metadata(_)) => true,
            (TestState::Baseline(_), TestEvent::Built(_)) => true,
            (TestState::WorkInProgress(_, b), TestEvent::Built(_)) => b.success,
            _ => false,
        }
    }

    /// Takes the outcome of the last outside step and gives the next state
    /// and action. A failure becomes an `Error` verdict; a failed baseline
    /// ends the test as `Broken` without a second build.
    pub fn step(self, event: TestEvent) -> (r: (TestState, TestAction))
        requires
            accepts(self, event),
        ensures
            match r.1 {
                TestAction::Finish(t) => t.rev_dep.name@ == package_of(self),
                TestAction::Build(_) => package_of(r.0) == package_of(self),
            },
            match (self, event) {
                (TestState::Resolving(name), TestEvent::Metadata(Err(e))) => {
                    &&& r.0 is Finished
                    &&& r.1 matches TestAction::Finish(t)
                    &&& is_unresolved(t.rev_dep, name@)
                    &&& t.data == TestResultData::Error(e)
                },
                (TestState::Resolving(name), TestEvent::Metadata(Ok(body))) => match metadata_error(body@) {
                    Some(e) => {
                        &&& r.0 is Finished
                        &&& r.1 matches TestAction::Finish(t)
                        &&& is_unresolved(t.rev_dep, name@)
                        &&& t.data == TestResultData::Error(e)
                    },
                    None => {
                        &&& r.1 == TestAction::Build(BuildPass::Baseline)
                        &&& r.0 matches TestState::Baseline(rd)
                        &&& exists|t: Seq<char>|
                            utf8_text(body@) == Some(t) && resolves_to(rd, name@, versions_of(t)->0)
                    },
                },
                (TestState::Baseline(rd), TestEvent::Built(Err(e))) => r == (
                TestState::Finished,
                TestAction::Finish(TestResult { rev_dep: rd, data: TestResultData::Error(e) }),
                ),
                (TestState::Baseline(rd), TestEvent::Built(Ok(c))) => if c.success {
                    r == (
                    TestState::WorkInProgress(rd, c),
                    TestAction::Build(BuildPass::WorkInProgress),
                    )
                } else {
                    r == (
                    TestState::Finished,
                    TestAction::Finish(TestResult { rev_dep: rd, data: TestResultData::Broken(c) }),
                    )
                },
                (TestState::WorkInProgress(rd, _), TestEvent::Built(Err(e))) => r == (
                TestState::Finished,
                TestAction::Finish(TestResult { rev_dep: rd, data: TestResultData::Error(e) }),
                ),
                (TestState::WorkInProgress(rd, b), TestEvent::Built(Ok(n))) => {
                    &&& r.0 is Finished
                    &&& r.1 matches TestAction::Finish(t)
                    &&& t.rev_dep == rd
                    &&& verdict_of(t.data) == classification(b.success, n.success)
                    &&& t.data == if n.success {
                        TestResultData::Pass(b, n)
                    } else {
                        TestResultData::Regressed(b, n)
                    }
                },
                _ => false,
            },
    {
        match self {
            TestState::Resolving(name) => {
                let body = match event {
                    TestEvent::Metadata(m) => m,
                    TestEvent::Built(_) => {
                        proof {
                            assert(false);
                        }
                        Err(Error::RecvError)
                    },
                };
                match body {
                    Err(e) => (TestState::Finished, TestAction::Finish(TestResult::error(RevDep::unresolved(name), e))),
                    Ok(b) => {
                        let kept = name.clone();
                        match resolve_from_body(kept, b) {
                            Ok(rd) => (TestState::Baseline(rd), TestAction::Build(BuildPass::Baseline)),
                            Err(e) => (TestState::Finished, TestAction::Finish(TestResult::error(RevDep::unresolved(name), e))),
                        }
                    },
                }
            },
            TestState::Baseline(rd) => {
                let outcome = match event {
                    TestEvent::Built(o) => o,
                    TestEvent::Metadata(_) => {
                        proof {
                            assert(false);
                        }
                        Err(Error::RecvError)
                    },
                };
                match outcome {
                    Err(e) => (TestState::Finished, TestAction::Finish(TestResult::error(rd, e))),
                    Ok(c) => {
                        if c.failed() {
                            (TestState::Finished, TestAction::Finish(TestResult::broken(rd, c)))
                        } else {
                            (TestState::WorkInProgress(rd, c), TestAction::Build(BuildPass::WorkInProgress))
                        }
                    },
                }
            },
            TestState::WorkInProgress(rd, base) => {
                let outcome = match event {
                    TestEvent::Built(o) => o,
                    TestEvent::Metadata(_) => {
                        proof {
                            assert(false);
                        }
                        Err(Error::RecvError)
                    },
                };
                match outcome {
                    Err(e) => (TestState::Finished, TestAction::Finish(TestResult::error(rd, e))),
                    Ok(next) => {
                        match classify(base.success, next.success) {
                            Verdict::Pass => (TestState::Finished, TestAction::Finish(TestResult::pass(rd, base, next))),
                            _ => (TestState::Finished, TestAction::Finish(TestResult::regressed(rd, base, next))),
                        }
                    },
                }
            },
            TestState::Finished => {
                proof {
                    assert(false);
                }
                (TestState::Finished, TestAction::Finish(TestResult::error(RevDep::unresolved(String::new()), Error::RecvError)))
            },
        }
    }
}

} // verus!
