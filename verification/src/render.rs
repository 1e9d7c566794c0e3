//! What the `modeled_test` and `unmodeled_test` attributes generate.
//!
//! A test function is generated once per build: natively, under loom and under shuttle. Each
//! copy carries a `cfg` guard for its build, `#[test]` unless `notest` was given, the annotated
//! attributes, visibility and signature, and a body that runs the annotated block directly or
//! through the model checker's entry point.

use crate::args::{ModeledTestArgs, Scheduler};
use vstd::prelude::*;

verus! {

/// Default number of iterations of every scheduler that counts them, and default PCT depth
pub const DEFAULT_SHUTTLE_COUNT: usize = 100;

/// The build a generated test is compiled in
#[derive(Clone, Copy, Debug, PartialEq, Eq)]
pub enum Backend {
    /// Neither loom nor shuttle: `#[cfg(not(any(loom, shuttle)))]`
    Native,
    /// `#[cfg(loom)]`
    Loom,
    /// `#[cfg(shuttle)]`
    Shuttle,
}

/// A test function, its parts held as source text
#[derive(Debug, PartialEq)]
pub struct TestFn {
    pub attrs: Vec<String>,
    pub vis: String,
    pub sig: String,
    pub block: String,
}

impl View for TestFn {
    type V = (Seq<String>, String, String, String);

    open spec fn view(&self) -> (Seq<String>, String, String, String) {
        (self.attrs@, self.vis, self.sig, self.block)
    }
}

/// How a generated test runs the annotated block
#[derive(Debug, PartialEq)]
pub enum Body {
    /// The block itself
    Plain,
    /// `::gronly_atomics::model(|| block)`
    LoomModel,
    /// `::gronly_atomics::check_random(|| block, iters)`
    CheckRandom(usize),
    /// `::gronly_atomics::check_dfs(|| block, iters)`
    CheckDfs(usize),
    /// `::gronly_atomics::check_pct(|| block, iters, depth)`
    CheckPct(usize, usize),
    /// `::gronly_atomics::replay(|| block, "schedule")`
    Replay(String),
}

/// One generated test function
#[derive(Debug, PartialEq)]
pub struct RenderedTest {
    pub backend: Backend,
    /// Whether `#[test]` is added in front of the annotated function's attributes
    pub test_attr: bool,
    pub testfn: TestFn,
    pub body: Body,
}

/// A count given as an option, or the default count
pub open spec fn count_or_default(n: Option<usize>) -> usize {
    match n {
        Some(v) => v,
        None => DEFAULT_SHUTTLE_COUNT,
    }
}

/// The shuttle entry point and counts that `args` select
pub open spec fn shuttle_body(args: ModeledTestArgs) -> Body {
    match args.shuttle.scheduler {
        Scheduler::Random => Body::CheckRandom(count_or_default(args.shuttle.iters)),
        Scheduler::Dfs => Body::CheckDfs(count_or_default(args.shuttle.iters)),
        Scheduler::Pct => Body::CheckPct(count_or_default(args.shuttle.iters), count_or_default(args.shuttle.depth)),
        Scheduler::Replay(name) => Body::Replay(name),
    }
}

/// `r` is the test generated for `backend` from `testfn`, with `#[test]` unless `notest`
pub open spec fn rendered(r: RenderedTest, backend: Backend, notest: bool, testfn: TestFn, body: Body) -> bool {
    &&& r.backend == backend
    &&& r.test_attr == !notest
    &&& r.testfn@ == testfn@
    &&& r.body == body
}

/// The shuttle test runs the scheduler that was chosen, with its counts in their places: the
/// random scheduler runs `iters` iterations, PCT runs `iters` iterations at depth `depth`, each
/// count being 100 when it was not given; DFS runs the `iters` iterations given; and a replay
/// replays the named schedule
pub proof fn law_shuttle_counts(args: ModeledTestArgs)
    ensures
        args.shuttle.scheduler is Random ==> shuttle_body(args) == Body::CheckRandom(
            if args.shuttle.iters is Some { args.shuttle.iters->Some_0 } else { 100usize },
        ),
        args.shuttle.iters is Some && args.shuttle.scheduler is Dfs ==> shuttle_body(args) == Body::CheckDfs(
            args.shuttle.iters->Some_0,
        ),
        args.shuttle.scheduler is Pct ==> shuttle_body(args) == Body::CheckPct(
            if args.shuttle.iters is Some { args.shuttle.iters->Some_0 } else { 100usize },
            if args.shuttle.depth is Some { args.shuttle.depth->Some_0 } else { 100usize },
        ),
        args.shuttle.scheduler is Replay ==> shuttle_body(args) == Body::Replay(
            args.shuttle.scheduler->Replay_0,
        ),
{
}

/// A generated test is for the build it was made for, carries `#[test]` exactly when `notest`
/// was not given, keeps the annotated function's parts and runs the body chosen for its build
pub proof fn law_rendered_fields(r: RenderedTest, backend: Backend, notest: bool, testfn: TestFn, body: Body)
    requires
        rendered(r, backend, notest, testfn, body),
    ensures
        r.backend == backend,
        notest ==> !r.test_attr,
        !notest ==> r.test_attr,
        r.testfn.attrs@ == testfn.attrs@,
        r.testfn.vis == testfn.vis,
        r.testfn.sig == testfn.sig,
        r.testfn.block == testfn.block,
        r.body == body,
{
}

impl TestFn {
    /// A copy of the test function's parts
    pub fn duplicate(&self) -> (r: TestFn)
        ensures
            r@ == self@,
    {
        let mut attrs: Vec<String> = Vec::new();
        let mut i: usize = 0;
        while i < self.attrs.len()
            invariant
                0 <= i <= self.attrs@.len(),
                attrs@ == self.attrs@.subrange(0, i as int),
            decreases self.attrs@.len() - i,
        {
            attrs.push(self.attrs[i].clone());
            proof {
                assert(attrs@ =~= self.attrs@.subrange(0, i + 1));
            }
            i = i + 1;
        }
        proof {
            assert(attrs@ =~= self.attrs@);
        }
        TestFn { attrs, vis: self.vis.clone(), sig: self.sig.clone(), block: self.block.clone() }
    }
}

/// The test generated for the native build, running the block itself
pub fn render_native(notest: bool, testfn: &TestFn) -> (r: RenderedTest)
    ensures
        rendered(r, Backend::Native, notest, *testfn, Body::Plain),
{
    RenderedTest { backend: Backend::Native, test_attr: !notest, testfn: testfn.duplicate(), body: Body::Plain }
}

/// The test generated for loom, running the block under `model`
pub fn render_loom(args: &ModeledTestArgs, testfn: &TestFn) -> (r: RenderedTest)
    ensures
        rendered(r, Backend::Loom, args.notest, *testfn, Body::LoomModel),
{
    RenderedTest { backend: Backend::Loom, test_attr: !args.notest, testfn: testfn.duplicate(), body: Body::LoomModel }
}

/// The test generated for shuttle, running the block under the selected scheduler
pub fn render_shuttle(args: &ModeledTestArgs, testfn: &TestFn) -> (r: RenderedTest)
    ensures
        rendered(r, Backend::Shuttle, args.notest, *testfn, shuttle_body(*args)),
{
    let body = match &args.shuttle.scheduler {
        Scheduler::Random => Body::CheckRandom(args.shuttle.iters.unwrap_or(DEFAULT_SHUTTLE_COUNT)),
        Scheduler::Dfs => Body::CheckDfs(args.shuttle.iters.unwrap_or(DEFAULT_SHUTTLE_COUNT)),
        Scheduler::Pct => Body::CheckPct(
            args.shuttle.iters.unwrap_or(DEFAULT_SHUTTLE_COUNT),
            args.shuttle.depth.unwrap_or(DEFAULT_SHUTTLE_COUNT),
        ),
        Scheduler::Replay(name) => Body::Replay(name.clone()),
    };
    RenderedTest { backend: Backend::Shuttle, test_attr: !args.notest, testfn: testfn.duplicate(), body }
}

/// The tests generated by `modeled_test`: native, loom and shuttle, in that order
pub fn render_modeled_test(args: &ModeledTestArgs, testfn: &TestFn) -> (r: Vec<RenderedTest>)
    ensures
        r@.len() == 3,
        rendered(r@[0], Backend::Native, args.notest, *testfn, Body::Plain),
        rendered(r@[1], Backend::Loom, args.notest, *testfn, Body::LoomModel),
        rendered(r@[2], Backend::Shuttle, args.notest, *testfn, shuttle_body(*args)),
{
    let mut r = Vec::new();
    r.push(render_native(args.notest, testfn));
    r.push(render_loom(args, testfn));
    r.push(render_shuttle(args, testfn));
    r
}

} // verus!
