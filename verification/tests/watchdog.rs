use std::collections::VecDeque;

use dsh_desktop::watchdog::{
    backoff, find_url, navigation_target, push_log_tail, read_output, take_log_tail, Exit,
    ProcessEvent, Recovery, Watchdog, LOG_TAIL_LINES, STABLE_UPTIME,
};

fn started() -> Watchdog {
    let mut dog = Watchdog::new();
    dog.keep_loader("tauri://localhost/index.html".to_string());
    dog.dsh_started();
    dog
}

fn print_err(dog: &mut Watchdog, line: &str) {
    let generation = dog.generation;
    assert!(dog.observe(generation, ProcessEvent::Stderr(line.as_bytes().to_vec())).is_none());
}

fn pause_of(r: &Recovery) -> Option<(bool, u64)> {
    match r {
        Recovery::Respawn { kill, pause } => Some((*kill, *pause)),
        Recovery::ShowError { .. } => None,
    }
}

#[test]
fn log_keeps_the_last_lines() {
    let mut tail: VecDeque<String> = VecDeque::new();
    assert_eq!(take_log_tail(&tail, 5), "");
    for i in 0..70 {
        push_log_tail(&mut tail, &i.to_string());
    }
    assert_eq!(tail.len(), LOG_TAIL_LINES);
    assert_eq!(tail[0], "10");
    assert_eq!(take_log_tail(&tail, 3), "67\n68\n69");
    assert_eq!(take_log_tail(&tail, 0), "");
    assert_eq!(take_log_tail(&tail, 1000).lines().count(), 60);
}

#[test]
fn output_is_read_line_by_line() {
    assert_eq!(read_output(b"  hello \r\n".to_vec()), Some("hello".to_string()));
    assert_eq!(read_output(b" \t\n".to_vec()), None);
    assert_eq!(read_output(vec![0xff, 0x41]), None);
    assert_eq!(read_output("端口".as_bytes().to_vec()), Some("端口".to_string()));
}

#[test]
fn address_is_found_in_the_output() {
    assert_eq!(
        find_url("dsh web: http://127.0.0.1:5399/?token=abc ready"),
        Some("http://127.0.0.1:5399/?token=abc".to_string())
    );
    assert_eq!(find_url("see http://a/b"), Some("http://a/b".to_string()));
    assert_eq!(find_url("https://a/b"), None);
}

#[test]
fn only_standard_output_announces_the_address() {
    let mut dog = started();
    print_err(&mut dog, "http://127.0.0.1:1/");
    assert_eq!(dog.web_url, None);
    let generation = dog.generation;
    dog.observe(generation, ProcessEvent::Stdout(b"dsh web: http://127.0.0.1:5399/?token=t\n".to_vec()));
    assert_eq!(dog.web_url, Some("http://127.0.0.1:5399/?token=t".to_string()));
    dog.observe(generation, ProcessEvent::Stdout(b"another line".to_vec()));
    assert_eq!(dog.web_url, Some("http://127.0.0.1:5399/?token=t".to_string()));
    assert_eq!(dog.log.len(), 3);
    assert_eq!(dog.dsh_started(), 2);
    assert_eq!(dog.web_url, None);
    assert!(dog.log.is_empty());
}

#[test]
fn exits_of_earlier_processes_are_stale() {
    let mut dog = started();
    let generation = dog.generation;
    assert!(matches!(
        dog.observe(generation, ProcessEvent::Terminated(Some(1))),
        Some(Exit::Crash)
    ));
    dog.kill_dsh_intentionally();
    assert!(matches!(
        dog.observe(generation, ProcessEvent::Terminated(Some(1))),
        Some(Exit::Stale)
    ));
    dog.generation = u64::MAX;
    dog.kill_dsh_intentionally();
    assert_eq!(dog.generation, 0);
}

#[test]
fn crash_names_the_broken_plugins() {
    let mut dog = started();
    print_err(&mut dog, "Error: dsh: cannot resolve profile bundle \"a\" from");
    match dog.examine_exit(dog.generation) {
        Exit::BrokenPlugins(plugins) => assert_eq!(plugins, ["a"]),
        _ => panic!("nothing to repair"),
    }
    dog.crashes = 2;
    dog.ready_at = Some(3);
    let generation = dog.generation;
    let r = dog.handle_dsh_crash(Some(1), Some(Ok(1)), 5, true);
    assert_eq!(pause_of(&r), Some((true, 500)));
    assert_eq!(dog.crashes, 0);
    assert_eq!(dog.ready_at, None);
    assert_eq!(dog.generation, generation + 1);
}

#[test]
fn third_crash_in_a_row_gives_up() {
    let mut dog = started();
    print_err(&mut dog, "fatal load failure");
    assert_eq!(pause_of(&dog.handle_dsh_crash(Some(1), None, 0, true)), Some((false, 1_000)));
    let failed = Some(Err("no".to_string()));
    assert_eq!(pause_of(&dog.handle_dsh_crash(Some(1), failed, 0, true)), Some((false, 5_000)));
    assert_eq!(dog.get_boot_state().status, "starting");
    match dog.handle_dsh_crash(Some(-1), None, 0, true) {
        Recovery::ShowError { page } => {
            assert_eq!(page, Some("tauri://localhost/index.html".to_string()));
        }
        Recovery::Respawn { .. } => panic!("respawned"),
    }
    let state = dog.get_boot_state();
    assert_eq!(state.status, "error");
    assert_eq!(
        state.error.unwrap(),
        "dsh crashed 3 times in a row; automatic restart stopped (exit code Some(-1)). Usually a plugin fails to load or activate (dsh is zero-tolerance for plugins). Fix or remove the problematic plugin, then click Retry.\n\nRecent logs:\nfatal load failure"
    );
    dog.retry_dsh_start();
    assert_eq!(dog.get_boot_state().status, "starting");
    assert_eq!(dog.get_boot_state().error, None);
    assert_eq!(dog.crashes, 0);
}

#[test]
fn crash_text_in_chinese() {
    let mut dog = started();
    dog.crashes = 2;
    dog.handle_dsh_crash(None, None, 0, false);
    assert_eq!(
        dog.error.unwrap(),
        "dsh 连续崩溃 3 次，已停止自动重启（退出码 None）。多为某个插件加载/激活失败（dsh 对插件零容错）。修复或移除问题插件后点「重试」。\n\n最近日志：\n"
    );
}

#[test]
fn stable_run_starts_the_count_anew() {
    let mut dog = started();
    dog.crashes = 2;
    dog.dsh_ready(7);
    let r = dog.handle_dsh_crash(Some(1), None, 7 + STABLE_UPTIME, true);
    assert_eq!(pause_of(&r), Some((false, 1_000)));
    assert_eq!(dog.crashes, 1);
    dog.crashes = 2;
    dog.dsh_ready(7);
    assert!(pause_of(&dog.handle_dsh_crash(Some(1), None, 6 + STABLE_UPTIME, true)).is_none());
}

#[test]
fn client_errors_count_like_crashes() {
    let mut dog = started();
    let generation = dog.generation;
    assert_eq!(pause_of(&dog.report_client_error("m", 0, true)), Some((true, 1_000)));
    assert_eq!(dog.generation, generation + 1);
    assert_eq!(pause_of(&dog.report_client_error("m", 0, true)), Some((true, 5_000)));
    assert!(pause_of(&dog.report_client_error("Loading chunk 3 failed", 0, true)).is_none());
    assert_eq!(dog.generation, generation + 2);
    assert_eq!(
        dog.error.clone().unwrap(),
        "Failed to load dsh plugin module (client side, 3 consecutive failures):\nLoading chunk 3 failed\n\nFix or remove the problematic plugin, then click Retry."
    );
    dog.report_client_error("x", 0, false);
    assert_eq!(
        dog.error.unwrap(),
        "dsh 插件模块加载失败（客户端侧，连续 4 次）：\nx\n\n修复或移除问题插件后点「重试」。"
    );
}

#[test]
fn client_error_after_a_stable_run_is_the_first() {
    let mut dog = started();
    dog.crashes = 5;
    dog.dsh_ready(0);
    assert_eq!(pause_of(&dog.report_client_error("m", STABLE_UPTIME, true)), Some((true, 1_000)));
    assert_eq!(dog.crashes, 1);
}

#[test]
fn timeouts_and_failed_starts_are_shown() {
    let mut dog = started();
    print_err(&mut dog, "slow");
    let generation = dog.generation;
    assert_eq!(
        dog.dsh_timed_out(5399, false),
        Some("tauri://localhost/index.html".to_string())
    );
    assert_eq!(dog.generation, generation + 1);
    assert_eq!(
        dog.error.clone().unwrap(),
        "dsh 启动超时（>300s，端口 5399）。可能原因：插件安装损坏、Node 运行时异常。\n\n最近日志：\nslow"
    );
    assert_eq!(dog.dsh_not_started(true), None);
    assert!(dog.error.clone().unwrap().starts_with("dsh 启动超时"));
    dog.retry_dsh_start();
    dog.dsh_not_started(true);
    assert_eq!(
        dog.error.unwrap(),
        "Failed to start dsh (service did not come up). Possible causes: corrupted global dsh install, plugin resolution failure, or Node runtime error.\n\nRecent logs:\nslow"
    );
}

#[test]
fn only_addresses_are_shown() {
    assert_eq!(navigation_target(&Some("no address".to_string())), None);
    assert_eq!(navigation_target(&None), None);
    assert_eq!(
        navigation_target(&Some("http://127.0.0.1:5399/".to_string())),
        Some("http://127.0.0.1:5399/".to_string())
    );
    let mut dog = Watchdog::new();
    assert_eq!(dog.enter_error_state("r".to_string()), None);
    assert_eq!(dog.get_boot_state().error, Some("r".to_string()));
}

#[test]
fn removing_plugins_by_hand_restarts_dsh() {
    let mut dog = started();
    dog.crashes = 2;
    let generation = dog.generation;
    assert!(dog.remove_plugin_bundles(Err("no".to_string())).is_err());
    assert_eq!(dog.generation, generation);
    let r = dog.remove_plugin_bundles(Ok(1)).unwrap();
    assert_eq!(pause_of(&r), Some((true, 500)));
    assert_eq!(dog.generation, generation + 1);
    assert_eq!(dog.crashes, 0);
}

#[test]
fn pauses_grow() {
    assert_eq!(backoff(1), 1_000);
    assert_eq!(backoff(2), 5_000);
    assert_eq!(backoff(3), 30_000);
    assert_eq!(backoff(9), 30_000);
}

#[test]
fn error_stays_until_retry() {
    let mut dog = started();
    dog.enter_error_state("why".to_string());
    dog.kill_dsh_intentionally();
    dog.dsh_started();
    print_err(&mut dog, "line");
    dog.handle_dsh_crash(Some(1), Some(Ok(1)), 0, true);
    dog.dsh_ready(0);
    assert_eq!(dog.get_boot_state().error, Some("why".to_string()));
    dog.retry_dsh_start();
    assert_eq!(dog.get_boot_state().error, None);
}
