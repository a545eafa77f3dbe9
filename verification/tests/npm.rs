use dsh_desktop::npm::{
    background_check_dsh_version, check_dsh_update, fetch_latest_dsh_version,
    fetch_npm_version_snapshot, needs_second_query, DshUpdate, DshUpdateAction, DshUpdateEvent,
    NpmReply, NpmVersionSnapshot, ReplaceAction, Replacement, UpdatePhase,
};
use dsh_desktop::shell::UpdateLock;
use dsh_desktop::watchdog::Watchdog;

fn snap(stable: Option<&str>, prerelease: Option<&str>, versions: &[&str]) -> NpmVersionSnapshot {
    NpmVersionSnapshot {
        stable: stable.map(|v| v.to_string()),
        prerelease: prerelease.map(|v| v.to_string()),
        versions: versions.iter().map(|v| v.to_string()).collect(),
    }
}

fn body(text: &str) -> NpmReply {
    NpmReply::Body(text.as_bytes().to_vec())
}

#[test]
fn snapshot_is_read_from_the_registry_document() {
    let got = fetch_npm_version_snapshot(body(
        r#"{"dist-tags":{"latest":"0.1.1","alpha":"0.2.0-alpha.1"},"versions":{"0.1.1":{},"0.1.0":{}}}"#,
    ))
    .unwrap();
    assert_eq!(got.stable, Some("0.1.1".to_string()));
    assert_eq!(got.prerelease, Some("0.2.0-alpha.1".to_string()));
    assert_eq!(got.versions, ["0.1.0", "0.1.1"]);
    let only = fetch_npm_version_snapshot(body(r#"{"versions":{"1.0.0":{}}}"#)).unwrap();
    assert_eq!(only.stable, None);
    assert_eq!(only.versions, ["1.0.0"]);
}

#[test]
fn snapshot_errors_have_their_messages() {
    assert_eq!(
        fetch_npm_version_snapshot(body("{}")).err().unwrap(),
        "npm 返回缺少 dist-tags / versions"
    );
    assert_eq!(
        fetch_npm_version_snapshot(body(r#"{"dist-tags":{"latest":1},"versions":[]}"#)).err().unwrap(),
        "npm 返回缺少 dist-tags / versions"
    );
    assert_eq!(
        fetch_npm_version_snapshot(body("{")).err().unwrap(),
        "解析 npm 返回失败: Failed to read JSON: EOF while parsing an object at line 1 column 1"
    );
    assert_eq!(
        fetch_npm_version_snapshot(NpmReply::Unreachable("dns".to_string())).err().unwrap(),
        "请求 npm registry 失败: dns"
    );
    assert_eq!(
        fetch_npm_version_snapshot(NpmReply::Broken("cut".to_string())).err().unwrap(),
        "解析 npm 返回失败: cut"
    );
}

#[test]
fn latest_version_falls_back_to_the_prerelease() {
    let first = Ok(snap(Some("1.0.0"), None, &[]));
    assert!(!needs_second_query(&first));
    assert_eq!(fetch_latest_dsh_version(first, None), Ok("1.0.0".to_string()));
    let first = Ok(snap(None, Some("9.9.9"), &[]));
    assert!(needs_second_query(&first));
    let second = Some(Ok(snap(None, Some("1.1.0-alpha"), &[])));
    assert_eq!(fetch_latest_dsh_version(first, second), Ok("1.1.0-alpha".to_string()));
    let missing = Err("npm latest tag 缺失".to_string());
    assert_eq!(
        fetch_latest_dsh_version(
            Ok(snap(None, Some("1"), &[])),
            Some(Ok(snap(Some("1"), None, &[])))
        ),
        missing
    );
    assert_eq!(
        fetch_latest_dsh_version(Ok(snap(None, None, &["1"])), Some(Err("x".to_string()))),
        missing
    );
    assert!(!needs_second_query(&Err("x".to_string())));
    assert_eq!(
        fetch_latest_dsh_version(Err("x".to_string()), None),
        Err("x".to_string())
    );
}

#[test]
fn update_info_lists_versions() {
    let query = Ok(snap(Some("0.1.1"), Some("0.2.0-alpha.1"), &["0.1.1", "0.2.0-alpha.1", "0.1.0"]));
    let info = check_dsh_update("0.1.0".to_string(), query, false).ok().unwrap();
    assert!(info.has_update);
    assert_eq!(info.current_version, "0.1.0");
    assert_eq!(info.latest_version, "0.1.1");
    assert_eq!(info.prerelease_version, Some("0.2.0-alpha.1".to_string()));
    assert_eq!(info.prerelease_kind, Some("alpha".to_string()));
    assert!(info.online);
    let names: Vec<&str> = info.versions.iter().map(|e| e.version.as_str()).collect();
    assert_eq!(names, ["0.2.0-alpha.1", "0.1.1", "0.1.0"]);
    assert!(info.versions[2].is_current);
    let bundled =
        check_dsh_update("0.1.1".to_string(), Ok(snap(Some("0.1.1"), Some("0.1.1"), &["0.1.1"])), true)
            .ok()
            .unwrap();
    assert!(!bundled.has_update);
    assert_eq!(bundled.prerelease_version, None);
    assert_eq!(bundled.prerelease_kind, None);
    assert!(!bundled.online);
    assert!(bundled.versions.is_empty());
    assert_eq!(check_dsh_update("1".to_string(), Err("x".to_string()), false).err().unwrap(), "x");
}

#[test]
fn updates_are_newer_versions() {
    let has = |current: &str, stable: Option<&str>, pre: Option<&str>| {
        check_dsh_update(current.to_string(), Ok(snap(stable, pre, &[])), false)
            .ok()
            .unwrap()
            .has_update
    };
    assert!(!has("1.0.0", Some("1.0.0"), None));
    assert!(has("1.0.0", Some("1.0.1"), None));
    assert!(!has("1.0.1", Some("1.0.0"), None));
    assert!(has("1.0.0", Some("1.0.0"), Some("1.1.0-alpha.1")));
    assert!(!has("1.1.0-alpha.1", Some("1.0.0"), Some("1.1.0-alpha.1")));
    assert!(has("未知", Some("0.0.0-rc.1"), None));
    assert!(!has("未知", None, Some("")));
}

#[test]
fn background_check_tells_of_newer_versions_only() {
    let query = || Ok(snap(Some("1.0.1"), None, &[]));
    let info = background_check_dsh_version(false, "1.0.0".to_string(), query()).unwrap();
    assert_eq!(info.current_version, "1.0.0");
    assert_eq!(info.latest_version, "1.0.1");
    assert_eq!(info.prerelease_version, None);
    assert!(background_check_dsh_version(true, "1.0.0".to_string(), query()).is_none());
    assert!(background_check_dsh_version(false, "1.0.1".to_string(), query()).is_none());
    assert!(background_check_dsh_version(false, "1".to_string(), Err("x".to_string())).is_none());
}

fn place(bundled: bool, prefix_known: bool) -> DshUpdateEvent {
    DshUpdateEvent::Place { resources: Ok(()), bundled, prefix_known }
}

fn finish(action: DshUpdateAction) -> (bool, Result<String, String>) {
    match action {
        DshUpdateAction::Finish { respawn, result } => (respawn, result),
        _ => panic!("not finished"),
    }
}

#[test]
fn update_to_an_explicit_version() {
    let mut lock = UpdateLock { updating: false };
    let mut dog = Watchdog::new();
    let (mut update, action) =
        DshUpdate::begin(&mut lock, Some("alpha"), Some("0.1.5".to_string()));
    assert!(lock.updating);
    assert!(matches!(action, DshUpdateAction::FindPlace));
    assert!(matches!(
        update.update_online_dsh(&mut lock, &mut dog, place(false, true)),
        DshUpdateAction::Install(v) if v == "0.1.5"
    ));
    assert_eq!(dog.generation, 0);
    assert!(matches!(
        update.update_online_dsh(&mut lock, &mut dog, DshUpdateEvent::Installed(Ok(true))),
        DshUpdateAction::Check
    ));
    assert!(lock.updating);
    let checked = DshUpdateEvent::Checked { found: true, version: Some("0.1.5".to_string()) };
    assert!(matches!(
        update.update_online_dsh(&mut lock, &mut dog, checked),
        DshUpdateAction::KillAndReplace
    ));
    assert_eq!(dog.generation, 1);
    assert!(lock.updating);
    let replaced = DshUpdateEvent::Replaced(Ok(()));
    let end = finish(update.update_online_dsh(&mut lock, &mut dog, replaced));
    assert_eq!(end, (true, Ok("0.1.5".to_string())));
    assert_eq!(dog.generation, 1);
    assert!(!lock.updating);
}

#[test]
fn update_along_a_channel() {
    let mut lock = UpdateLock { updating: false };
    let mut dog = Watchdog::new();
    for (channel, stable, pre, want) in [
        (None, Some("1"), Some("2"), Ok("1")),
        (Some("stable"), None, Some("2"), Ok("2")),
        (Some("prerelease"), Some("1"), Some("2"), Ok("2")),
        (Some("alpha"), Some("1"), None, Ok("1")),
        (Some("alpha"), None, None, Err("npm alpha tag 缺失")),
        (None, None, None, Err("npm latest tag 缺失")),
    ] {
        let (mut update, action) =
            DshUpdate::begin(&mut lock, channel, Some("  ".to_string()));
        assert!(matches!(action, DshUpdateAction::Query));
        let event = DshUpdateEvent::Queried(Ok(snap(stable, pre, &[])));
        let next = update.update_online_dsh(&mut lock, &mut dog, event);
        match want {
            Ok(v) => {
                assert!(matches!(next, DshUpdateAction::FindPlace));
                assert_eq!(update.version, v);
            }
            Err(e) => {
                assert_eq!(finish(next), (false, Err(e.to_string())));
                assert!(!lock.updating);
            }
        }
    }
}

#[test]
fn failed_update_leaves_dsh_alone() {
    let mut dog = Watchdog::new();
    let cases = [
        (UpdatePhase::Query, DshUpdateEvent::Queried(Err("q".to_string())), false, "q"),
        (
            UpdatePhase::Place,
            DshUpdateEvent::Place { resources: Err("r".to_string()), bundled: false, prefix_known: true },
            false,
            "无法定位资源目录: r",
        ),
        (
            UpdatePhase::Place,
            place(true, true),
            false,
            "当前为离线版（内置 dsh），更新需 just update 后重新打包",
        ),
        (UpdatePhase::Place, place(false, false), false, "无法定位全局 dsh 目录"),
        (
            UpdatePhase::Install,
            DshUpdateEvent::Installed(Err("j".to_string())),
            false,
            "安装 dsh 失败: j",
        ),
        (
            UpdatePhase::Install,
            DshUpdateEvent::Installed(Ok(false)),
            false,
            "安装 dsh 失败：现沿用当前版本",
        ),
        (
            UpdatePhase::Check,
            DshUpdateEvent::Checked { found: false, version: None },
            false,
            "安装完成但找不到全局 dsh 入口",
        ),
        (
            UpdatePhase::Check,
            DshUpdateEvent::Checked { found: true, version: Some("0.9".to_string()) },
            false,
            "安装完成但版本校验失败：沿用当前版本",
        ),
        (
            UpdatePhase::Check,
            DshUpdateEvent::Checked { found: true, version: None },
            false,
            "安装完成但版本校验失败：沿用当前版本",
        ),
        (
            UpdatePhase::Replace,
            DshUpdateEvent::Replaced(Err("busy".to_string())),
            true,
            "安装 dsh 失败: busy",
        ),
    ];
    for (phase, event, respawn, message) in cases {
        let mut lock = UpdateLock { updating: true };
        let mut update = DshUpdate { phase, prerelease: false, version: "1.0".to_string() };
        let end = finish(update.update_online_dsh(&mut lock, &mut dog, event));
        assert_eq!(end, (respawn, Err(message.to_string())));
        assert!(!lock.updating);
        assert_eq!(dog.generation, 0);
    }
}

fn done(action: ReplaceAction) -> Result<(), String> {
    match action {
        ReplaceAction::Done(result) => result,
        _ => panic!("not done"),
    }
}

#[test]
fn old_installation_is_put_back() {
    let mut replacement = Replacement::begin();
    assert!(matches!(replacement.replace_installation(Ok(())), ReplaceAction::PutInPlace));
    assert_eq!(done(replacement.replace_installation(Ok(()))), Ok(()));
    let mut replacement = Replacement::begin();
    assert_eq!(
        done(replacement.replace_installation(Err("busy".to_string()))),
        Err("busy".to_string())
    );
    for back in [Ok(()), Err("gone".to_string())] {
        let mut replacement = Replacement::begin();
        assert!(matches!(replacement.replace_installation(Ok(())), ReplaceAction::PutInPlace));
        let failed = replacement.replace_installation(Err("full".to_string()));
        assert!(matches!(failed, ReplaceAction::PutBack));
        assert_eq!(done(replacement.replace_installation(back)), Err("full".to_string()));
    }
}
