use dsh_desktop::launch::{
    display_path, dsh_argv, dsh_port, global_dsh_dir, home_dir, install_goes_on, is_responsive,
    npm_install_argv, plain_address, resolve_dsh_bin, Asked, DshSource, GlobalPrefix,
    InstallAction, Launch, LaunchAction, LaunchEvent, NpmInstall, Phase, Readiness, ReadyAction,
    ReadyEvent,
};
use dsh_desktop::watchdog::{ProcessEvent, Watchdog};

fn s(t: &str) -> Option<String> {
    Some(t.to_string())
}

#[test]
fn long_path_prefix_is_dropped() {
    assert_eq!(display_path(r"\\?\C:\a"), r"C:\a");
    assert_eq!(display_path(r"C:\a"), r"C:\a");
    assert_eq!(display_path("/usr/x"), "/usr/x");
    assert_eq!(display_path(r"\\?\"), "");
}

#[test]
fn port_comes_from_the_variable() {
    assert_eq!(dsh_port(None), 5399);
    assert_eq!(dsh_port(Some(" 8080\n")), 8080);
    assert_eq!(dsh_port(Some("65536")), 5399);
    assert_eq!(dsh_port(Some("x")), 5399);
    assert_eq!(dsh_port(Some("+0")), 0);
}

#[test]
fn places_of_dsh() {
    assert_eq!(home_dir(s("a"), s("b")), s("a"));
    assert_eq!(home_dir(None, s("b")), s("b"));
    assert_eq!(home_dir(None, None), None);
    assert!(matches!(resolve_dsh_bin(s("x"), true, true), DshSource::Given(p) if p == "x"));
    assert!(matches!(resolve_dsh_bin(s("x"), false, true), DshSource::Bundled));
    assert!(matches!(resolve_dsh_bin(None, true, false), DshSource::Online));
    assert!(matches!(global_dsh_dir(s("d"), s("u")), GlobalPrefix::Given(p) if p == "d"));
    assert!(matches!(global_dsh_dir(None, s("u")), GlobalPrefix::UnderUser(p) if p == "u"));
    assert!(matches!(global_dsh_dir(None, None), GlobalPrefix::Unknown));
}

#[test]
fn command_lines() {
    assert_eq!(dsh_argv(r"\\?\C:\bin.js", 5399), [r"C:\bin.js", "web", "--port", "5399"]);
    assert_eq!(
        npm_install_argv("npm-cli.js", r"\\?\C:\npm", "1.2.3"),
        [
            "npm-cli.js",
            "install",
            "-g",
            "--prefix",
            r"C:\npm",
            "--json",
            "--loglevel=http",
            "@deepseek-ai/dsh@1.2.3",
            "--ignore-scripts",
            "--no-audit",
            "--no-fund",
        ]
    );
}

#[test]
fn statuses_that_answer() {
    for code in [200, 303, 401] {
        assert!(is_responsive(Some(code)));
    }
    for code in [201, 302, 404, 500] {
        assert!(!is_responsive(Some(code)));
    }
    assert!(!is_responsive(None));
    assert_eq!(plain_address(5399), "http://127.0.0.1:5399/");
}

#[test]
fn printed_address_is_asked_first() {
    let mut wait = Readiness::new(5399, 1000);
    assert!(matches!(wait.wait_ready(ReadyEvent::Round { elapsed: 999 }), ReadyAction::Connect));
    let down = ReadyEvent::Connected { ok: false, web_url: s("http://h/?token=t") };
    assert!(matches!(wait.wait_ready(down), ReadyAction::Sleep));
    wait.wait_ready(ReadyEvent::Round { elapsed: 0 });
    let up = ReadyEvent::Connected { ok: true, web_url: s("http://h/?token=t") };
    assert!(matches!(wait.wait_ready(up), ReadyAction::Ask(u) if u == "http://h/?token=t"));
    assert!(matches!(
        wait.wait_ready(ReadyEvent::Status(Some(500))),
        ReadyAction::Ask(u) if u == "http://127.0.0.1:5399/"
    ));
    assert!(matches!(wait.wait_ready(ReadyEvent::Status(None)), ReadyAction::Sleep));
    let up = ReadyEvent::Connected { ok: true, web_url: s("http://h/?token=t") };
    wait.wait_ready(up);
    assert!(matches!(
        wait.wait_ready(ReadyEvent::Status(Some(303))),
        ReadyAction::Ready(u) if u == "http://h/?token=t"
    ));
    assert!(matches!(wait.asked, Asked::Nothing));
}

#[test]
fn plain_address_is_asked_without_a_token() {
    let mut wait = Readiness::new(80, 1000);
    let up = ReadyEvent::Connected { ok: true, web_url: None };
    assert!(matches!(wait.wait_ready(up), ReadyAction::Ask(u) if u == "http://127.0.0.1:80/"));
    assert!(matches!(
        wait.wait_ready(ReadyEvent::Status(Some(401))),
        ReadyAction::Ready(u) if u == "http://127.0.0.1:80/"
    ));
    assert!(matches!(wait.wait_ready(ReadyEvent::Round { elapsed: 1000 }), ReadyAction::TimedOut));
}

#[test]
fn installation_counts_packages() {
    let mut dog = Watchdog::new();
    let mut run = NpmInstall::new();
    let fetch = b"npm http fetch GET 200 https://registry.npmjs.org/x 12ms (cache miss)\n";
    assert_eq!(
        run.run_npm_install(&mut dog, Some(ProcessEvent::Stderr(fetch.to_vec()))),
        InstallAction::Progress { downloaded: 1 }
    );
    assert_eq!(
        run.run_npm_install(&mut dog, Some(ProcessEvent::Stdout(fetch.to_vec()))),
        InstallAction::Progress { downloaded: 2 }
    );
    assert_eq!(
        run.run_npm_install(&mut dog, Some(ProcessEvent::Stdout(b"added 3 packages".to_vec()))),
        InstallAction::Wait
    );
    assert_eq!(
        run.run_npm_install(&mut dog, Some(ProcessEvent::Stdout(b" \n".to_vec()))),
        InstallAction::Wait
    );
    assert_eq!(dog.log.len(), 3);
    assert_eq!(
        run.run_npm_install(&mut dog, Some(ProcessEvent::Failed("e".to_string()))),
        InstallAction::Wait
    );
    assert_eq!(
        run.run_npm_install(&mut dog, Some(ProcessEvent::Terminated(Some(0)))),
        InstallAction::Finished(true)
    );
    assert_eq!(
        run.run_npm_install(&mut dog, Some(ProcessEvent::Terminated(Some(1)))),
        InstallAction::Finished(false)
    );
    assert_eq!(
        run.run_npm_install(&mut dog, Some(ProcessEvent::Terminated(None))),
        InstallAction::Finished(false)
    );
    assert_eq!(run.run_npm_install(&mut dog, None), InstallAction::Finished(false));
    assert!(install_goes_on(599_999));
    assert!(!install_goes_on(600_000));
}

#[test]
fn running_service_is_reused() {
    let mut dog = Watchdog::new();
    let (mut launch, first) = Launch::begin(5399);
    assert!(matches!(first, LaunchAction::AwaitService { port: 5399, timeout: 1000 }));
    let event = LaunchEvent::Service(s("http://127.0.0.1:5399/"));
    match launch.start_dsh(&mut dog, event, 9, true) {
        LaunchAction::Show { url } => assert_eq!(url, s("http://127.0.0.1:5399/")),
        _ => panic!("not shown"),
    }
    assert_eq!(launch.phase, Phase::Over);
    assert_eq!(dog.generation, 0);
    assert_eq!(dog.ready_at, None);
}

#[test]
fn bundled_dsh_is_run() {
    let mut dog = Watchdog::new();
    let (mut launch, _) = Launch::begin(5399);
    assert!(matches!(
        launch.start_dsh(&mut dog, LaunchEvent::Service(None), 0, true),
        LaunchAction::Sweep
    ));
    assert!(matches!(
        launch.start_dsh(&mut dog, LaunchEvent::Swept { fixed_free: false }, 0, true),
        LaunchAction::FindPort
    ));
    assert!(matches!(
        launch.start_dsh(&mut dog, LaunchEvent::FreePort(Some(4000)), 0, true),
        LaunchAction::FindResources
    ));
    assert!(matches!(
        launch.start_dsh(&mut dog, LaunchEvent::Resources { found: true }, 0, true),
        LaunchAction::FindEntry
    ));
    match launch.start_dsh(&mut dog, LaunchEvent::Entry(s("/r/bin.js")), 0, true) {
        LaunchAction::Run(argv) => assert_eq!(argv, ["/r/bin.js", "web", "--port", "4000"]),
        _ => panic!("not run"),
    }
    assert!(matches!(
        launch.start_dsh(&mut dog, LaunchEvent::Process { started: true }, 0, true),
        LaunchAction::AwaitService { port: 4000, timeout: 300_000 }
    ));
    assert_eq!(dog.generation, 1);
    match launch.start_dsh(&mut dog, LaunchEvent::Service(s("http://127.0.0.1:4000/")), 8, true) {
        LaunchAction::Show { url } => assert_eq!(url, s("http://127.0.0.1:4000/")),
        _ => panic!("not shown"),
    }
    assert_eq!(dog.ready_at, Some(8));
}

#[test]
fn first_run_installs_dsh() {
    let mut dog = Watchdog::new();
    let mut launch = Launch { phase: Phase::Entry, fixed_port: 5399, port: 5399 };
    assert!(matches!(
        launch.start_dsh(&mut dog, LaunchEvent::Entry(None), 0, true),
        LaunchAction::FindGlobal
    ));
    let none = LaunchEvent::Global { bin: None, prefix_known: true };
    assert!(matches!(launch.start_dsh(&mut dog, none, 0, true), LaunchAction::QueryLatest));
    let latest = LaunchEvent::Latest(Ok("1.0.0".to_string()));
    assert!(matches!(
        launch.start_dsh(&mut dog, latest, 0, true),
        LaunchAction::Install(v) if v == "1.0.0"
    ));
    assert!(matches!(
        launch.start_dsh(&mut dog, LaunchEvent::Installed(true), 0, true),
        LaunchAction::FindGlobal
    ));
    let found = LaunchEvent::Global { bin: s("/g/bin.js"), prefix_known: true };
    assert!(matches!(launch.start_dsh(&mut dog, found, 0, true), LaunchAction::Run(_)));
    assert_eq!(launch.phase, Phase::Process);
}

#[test]
fn failed_starts_tell_why() {
    let failing = [
        (Phase::AnyPort, LaunchEvent::FreePort(None)),
        (Phase::Resources, LaunchEvent::Resources { found: false }),
        (Phase::Global, LaunchEvent::Global { bin: None, prefix_known: false }),
        (Phase::Latest, LaunchEvent::Latest(Err("offline".to_string()))),
        (Phase::Install, LaunchEvent::Installed(false)),
        (Phase::Check, LaunchEvent::Global { bin: None, prefix_known: true }),
        (Phase::Process, LaunchEvent::Process { started: false }),
    ];
    for (phase, event) in failing {
        let mut dog = Watchdog::new();
        let mut launch = Launch { phase, fixed_port: 1, port: 1 };
        assert!(matches!(
            launch.start_dsh(&mut dog, event, 0, true),
            LaunchAction::Fail { kill: false, page: None }
        ));
        assert_eq!(launch.phase, Phase::Over);
        assert!(dog.error.unwrap().starts_with("Failed to start dsh"));
    }
}

#[test]
fn slow_start_is_given_up() {
    let mut dog = Watchdog::new();
    dog.keep_loader("http://loader/".to_string());
    let mut launch = Launch { phase: Phase::Service, fixed_port: 1, port: 2 };
    match launch.start_dsh(&mut dog, LaunchEvent::Service(None), 0, true) {
        LaunchAction::Fail { kill, page } => {
            assert!(kill);
            assert_eq!(page, s("http://loader/"));
        }
        _ => panic!("not given up"),
    }
    assert_eq!(dog.generation, 1);
    assert_eq!(
        dog.error.unwrap(),
        "dsh start timed out (>300s, port 2). Possible causes: corrupted plugin install or Node runtime error.\n\nRecent logs:\n"
    );
}
