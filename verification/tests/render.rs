use gronly::args::{ModeledTestArgs, Scheduler, ShuttleArgs};
use gronly::render::{
    render_loom, render_modeled_test, render_native, render_shuttle, Backend, Body, RenderedTest, TestFn,
};

fn do_thing() -> TestFn {
    TestFn {
        attrs: vec!["#[hello]".to_string(), "#[world]".to_string()],
        vis: String::new(),
        sig: "fn do_thing()".to_string(),
        block: "{ assert!(true); }".to_string(),
    }
}

fn expected(backend: Backend, test_attr: bool, body: Body) -> RenderedTest {
    RenderedTest { backend, test_attr, testfn: do_thing(), body }
}

fn shuttle(scheduler: Scheduler, iters: Option<usize>, depth: Option<usize>) -> ModeledTestArgs {
    ModeledTestArgs { notest: false, shuttle: ShuttleArgs { scheduler, iters, depth } }
}

#[test]
fn render_native_works() {
    let args = ModeledTestArgs::default();
    let rendered = render_native(args.notest, &do_thing());
    assert_eq!(rendered, expected(Backend::Native, true, Body::Plain));
}

#[test]
fn render_native_omits_test() {
    let mut args = ModeledTestArgs::default();
    args.notest = true;
    let rendered = render_native(args.notest, &do_thing());
    assert_eq!(rendered, expected(Backend::Native, false, Body::Plain));
}

#[test]
fn render_loom_works() {
    let args = ModeledTestArgs::default();
    let rendered = render_loom(&args, &do_thing());
    assert_eq!(rendered, expected(Backend::Loom, true, Body::LoomModel));
}

#[test]
fn render_shuttle_random() {
    let args = shuttle(Scheduler::Random, Some(10), None);
    let rendered = render_shuttle(&args, &do_thing());
    assert_eq!(rendered, expected(Backend::Shuttle, true, Body::CheckRandom(10)));
}

#[test]
fn render_shuttle_pct() {
    let args = shuttle(Scheduler::Pct, Some(10), Some(10));
    let rendered = render_shuttle(&args, &do_thing());
    assert_eq!(rendered, expected(Backend::Shuttle, true, Body::CheckPct(10, 10)));
}

#[test]
fn render_shuttle_dfs() {
    let args = shuttle(Scheduler::Dfs, Some(10), None);
    let rendered = render_shuttle(&args, &do_thing());
    assert_eq!(rendered, expected(Backend::Shuttle, true, Body::CheckDfs(10)));
}

#[test]
fn render_shuttle_replay() {
    let args = shuttle(Scheduler::Replay("myreplay".into()), None, None);
    let rendered = render_shuttle(&args, &do_thing());
    assert_eq!(rendered, expected(Backend::Shuttle, true, Body::Replay("myreplay".into())));
}

#[test]
fn render_modeled_test_works() {
    let args = ModeledTestArgs::default();
    let rendered = render_modeled_test(&args, &do_thing());
    assert_eq!(
        rendered,
        vec![
            expected(Backend::Native, true, Body::Plain),
            expected(Backend::Loom, true, Body::LoomModel),
            expected(Backend::Shuttle, true, Body::CheckRandom(100)),
        ]
    );
}

#[test]
fn render_shuttle_defaults_counts() {
    let pct = render_shuttle(&shuttle(Scheduler::Pct, None, None), &do_thing());
    assert_eq!(pct.body, Body::CheckPct(100, 100));
    let dfs = render_shuttle(&shuttle(Scheduler::Dfs, None, None), &do_thing());
    assert_eq!(dfs.body, Body::CheckDfs(100));
}

#[test]
fn render_keeps_notest_in_every_build() {
    let mut args = ModeledTestArgs::default();
    args.notest = true;
    for r in render_modeled_test(&args, &do_thing()) {
        assert!(!r.test_attr);
        assert_eq!(r.testfn, do_thing());
    }
}
