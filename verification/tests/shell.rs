use dsh_desktop::prefs::{
    default_true, load_prefs, set_auto_check, set_update_prompt_pref, startup_check_app_update,
    UpdatePrefs,
};
use dsh_desktop::shell::{
    app_update_installed, check_app_update, close_requested, exit_allowed, install_app_update,
    is_updating, tray_choice, update_blocked, update_progress, Closing, FoundUpdate, TrayChoice,
    UpdateLock, UpdateSearch, UpdatingGuard,
};

fn found(version: &str, body: Option<&str>) -> UpdateSearch {
    UpdateSearch::Found(FoundUpdate {
        version: version.to_string(),
        body: body.map(|b| b.to_string()),
    })
}

#[test]
fn guard_holds_the_lock() {
    let mut lock = UpdateLock { updating: false };
    let guard = UpdatingGuard::enter(&mut lock);
    assert!(is_updating(&lock));
    guard.disarm(&mut lock);
    assert!(!is_updating(&lock));
    let mut guard = UpdatingGuard::enter(&mut lock);
    guard.release(&mut lock);
    assert!(!is_updating(&lock));
    assert!(!guard.active);
    let _other = UpdatingGuard::enter(&mut lock);
    guard.release(&mut lock);
    assert!(is_updating(&lock));
}

#[test]
fn update_blocks_closing_and_quitting() {
    let busy = UpdateLock { updating: true };
    let idle = UpdateLock { updating: false };
    assert_eq!(close_requested(&busy, "main"), Closing::Blocked);
    assert_eq!(close_requested(&busy, "settings"), Closing::Blocked);
    assert_eq!(close_requested(&idle, "main"), Closing::Hidden);
    assert_eq!(close_requested(&idle, "settings"), Closing::Closed);
    assert!(!exit_allowed(&busy));
    assert!(exit_allowed(&idle));
    assert_eq!(tray_choice(&busy, "quit"), TrayChoice::Blocked);
    assert_eq!(tray_choice(&idle, "quit"), TrayChoice::Quit);
    assert_eq!(tray_choice(&busy, "show"), TrayChoice::ShowMain);
    assert_eq!(tray_choice(&idle, "open_settings"), TrayChoice::OpenSettings);
    assert_eq!(tray_choice(&idle, "check_update"), TrayChoice::OpenSettings);
    assert_eq!(tray_choice(&idle, "other"), TrayChoice::Nothing);
    assert_eq!(update_blocked(true), "An update is in progress. Please wait for it to finish.");
    assert_eq!(update_blocked(false), "升级进行中，请等待完成");
}

#[test]
fn app_update_is_reported() {
    let info = check_app_update("0.6.0".to_string(), found("0.6.1", Some("notes"))).ok().unwrap();
    assert!(info.has_update);
    assert_eq!(info.current_version, "0.6.0");
    assert_eq!(info.latest_version, "0.6.1");
    assert_eq!(info.body, "notes");
    assert_eq!(check_app_update("1".to_string(), found("2", None)).ok().unwrap().body, "");
    let info = check_app_update("0.6.1".to_string(), UpdateSearch::Current).ok().unwrap();
    assert!(!info.has_update);
    assert_eq!(info.latest_version, "0.6.1");
    assert_eq!(
        check_app_update("1".to_string(), UpdateSearch::NoUpdater("x".to_string())).err().unwrap(),
        "初始化更新器失败: x"
    );
    assert_eq!(
        check_app_update("1".to_string(), UpdateSearch::Failed("x".to_string())).err().unwrap(),
        "检查更新失败: x"
    );
}

#[test]
fn app_update_holds_the_lock_while_it_installs() {
    let mut lock = UpdateLock { updating: false };
    assert_eq!(
        install_app_update(&mut lock, UpdateSearch::Current).err().unwrap(),
        "当前已是最新版本"
    );
    assert!(!lock.updating);
    assert_eq!(
        install_app_update(&mut lock, UpdateSearch::Failed("x".to_string())).err().unwrap(),
        "检查更新失败: x"
    );
    assert_eq!(
        install_app_update(&mut lock, UpdateSearch::NoUpdater("x".to_string())).err().unwrap(),
        "初始化更新器失败: x"
    );
    assert_eq!(install_app_update(&mut lock, found("2", None)).ok().unwrap().version, "2");
    assert!(lock.updating);
    assert_eq!(app_update_installed(&mut lock, Ok(())), Ok(()));
    assert!(lock.updating);
    assert_eq!(
        app_update_installed(&mut lock, Err("disk".to_string())),
        Err("下载/安装更新失败: disk".to_string())
    );
    assert!(!lock.updating);
}

#[test]
fn progress_of_unknown_size() {
    assert_eq!(update_progress(5, Some(10)).total, 10);
    assert_eq!(update_progress(5, None).total, 0);
    assert_eq!(update_progress(5, None).downloaded, 5);
}

#[test]
fn preferences_have_usual_values() {
    assert!(default_true());
    let prefs = load_prefs(None);
    assert!(prefs.auto_check);
    assert_eq!(prefs.skip_update_version, "");
    assert!(UpdatePrefs::default().auto_check);
    let kept = load_prefs(Some(UpdatePrefs {
        auto_check: false,
        skip_update_version: "1".to_string(),
    }));
    assert!(!kept.auto_check);
    assert_eq!(kept.skip_update_version, "1");
}

#[test]
fn skipped_version_is_not_prompted() {
    let prefs = set_update_prompt_pref(load_prefs(None), "0.6.1".to_string());
    assert!(!startup_check_app_update(&prefs, Some("0.6.1")));
    assert!(startup_check_app_update(&prefs, Some("0.6.2")));
    assert!(!startup_check_app_update(&prefs, None));
    let quiet = set_auto_check(prefs, false);
    assert_eq!(quiet.skip_update_version, "0.6.1");
    assert!(!startup_check_app_update(&quiet, Some("0.6.2")));
}
