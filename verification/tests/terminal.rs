use dsh_desktop::terminal::{
    auto_unify_dsh_cli, classify, elevated_npm_uninstall, ensure_user_path_contains_prefix,
    kind_name, mark_after, normalize_dir, run_ps, scan_terminal_dsh, shared_terminal_dsh,
    shim_name, unify_terminal_dsh, where_hits, AutoUnify, CliKind, DshCliStatus, FailureMark, Hit,
    Removal, RemovalAction, Shim, Unify, UnifyAction, UnifyEvent, UnifyPhase, COOLDOWN,
};

fn hit(path: &str, parent: Option<&str>) -> Hit {
    Hit { path: path.to_string(), parent: parent.map(|p| p.to_string()) }
}

fn status(kind: CliKind, foreign: &[&str]) -> DshCliStatus {
    DshCliStatus {
        unified: kind == CliKind::Unified,
        kind,
        app_prefix: String::new(),
        terminal_path: None,
        foreign_paths: foreign.iter().map(|f| f.to_string()).collect(),
    }
}

fn scanned(kind: CliKind, winner: Option<&str>) -> UnifyEvent {
    UnifyEvent::Scanned {
        status: status(kind, &["C:\\x\\dsh", "C:\\y\\dsh"]),
        winner: winner.map(|w| w.to_string()),
    }
}

fn at(phase: UnifyPhase) -> Unify {
    Unify { phase, winner: r"\\?\C:\nodejs".to_string() }
}

fn end(phase: UnifyPhase, event: UnifyEvent, is_en: bool) -> Result<String, String> {
    let mut repair = at(phase);
    match unify_terminal_dsh(&mut repair, event, is_en) {
        UnifyAction::Finish(r) => {
            assert_eq!(repair.phase, UnifyPhase::Over);
            r
        }
        _ => panic!("not finished"),
    }
}

#[test]
fn directories_are_normalized() {
    assert_eq!(normalize_dir(r"\\?\C:\Users\Me/AppData\npm\\"), r"c:\users\me\appdata\npm");
    assert_eq!(normalize_dir("ÄÖ/x/"), r"äö\x");
    assert_eq!(normalize_dir(""), "");
    assert_eq!(normalize_dir("///"), "");
}

#[test]
fn places_of_the_command() {
    assert_eq!(
        where_hits(&b"C:\\a\\dsh\r\n\r\n  C:\\b\\dsh.cmd \n".to_vec()),
        [r"C:\a\dsh", r"C:\b\dsh.cmd"]
    );
    assert_eq!(where_hits(&vec![0xff]), ["\u{fffd}"]);
    assert!(where_hits(&Vec::new()).is_empty());
}

#[test]
fn first_place_decides() {
    let own = hit(r"C:\npm\dsh", Some(r"C:\npm"));
    let other = hit(r"D:\nodejs\dsh", Some(r"D:\nodejs"));
    let st = scan_terminal_dsh("c:/NPM/", &vec![own, other], true);
    assert!(st.unified);
    assert_eq!(st.kind, CliKind::Unified);
    assert_eq!(st.app_prefix, "c:/NPM/");
    assert_eq!(st.terminal_path, Some(r"C:\npm\dsh".to_string()));
    assert_eq!(st.foreign_paths, [r"D:\nodejs\dsh"]);
    let taken = vec![hit(r"D:\nodejs\dsh", Some(r"D:\nodejs")), hit(r"C:\npm\dsh", Some(r"C:\npm"))];
    assert_eq!(scan_terminal_dsh(r"C:\npm", &taken, true).kind, CliKind::NpmGlobal);
    assert_eq!(scan_terminal_dsh(r"C:\npm", &taken, false).kind, CliKind::OtherPath);
    assert!(!scan_terminal_dsh(r"C:\npm", &taken, false).unified);
    let none = scan_terminal_dsh(r"C:\npm", &Vec::new(), false);
    assert_eq!(none.kind, CliKind::Missing);
    assert_eq!(none.terminal_path, None);
    let bare = scan_terminal_dsh(r"C:\npm", &vec![hit("dsh", None)], true);
    assert_eq!(bare.kind, CliKind::OtherPath);
    assert_eq!(bare.foreign_paths, ["dsh"]);
    assert_eq!(classify(Some(None), "", true), CliKind::Unified);
}

#[test]
fn kinds_have_names() {
    assert_eq!(kind_name(CliKind::Unified), "ok");
    assert_eq!(kind_name(CliKind::NpmGlobal), "npm-global");
    assert_eq!(kind_name(CliKind::OtherPath), "other-path");
    assert_eq!(kind_name(CliKind::Missing), "missing");
}

#[test]
fn shared_prefix_is_in_sync() {
    let st = shared_terminal_dsh(Some(r"\\?\x"));
    assert!(st.unified);
    assert_eq!(st.app_prefix, "x");
    assert_eq!(shared_terminal_dsh(None).app_prefix, "");
}

#[test]
fn scripts_report_their_output() {
    assert_eq!(
        run_ps(Ok((false, b"out".to_vec(), b"err".to_vec()))),
        (false, "outerr".to_string())
    );
    assert_eq!(run_ps(Ok((true, vec![0x80], Vec::new()))), (true, "\u{fffd}".to_string()));
    assert_eq!(run_ps(Err("no shell".to_string())), (false, "no shell".to_string()));
}

#[test]
fn path_and_uninstall_messages() {
    assert_eq!(
        ensure_user_path_contains_prefix(true, None),
        Err("Cannot locate the global npm prefix".to_string())
    );
    assert_eq!(ensure_user_path_contains_prefix(true, Some((true, "ADDED".to_string()))), Ok(()));
    assert_eq!(
        ensure_user_path_contains_prefix(false, Some((false, "x".to_string()))),
        Err("写入用户 PATH 失败: x".to_string())
    );
    assert_eq!(elevated_npm_uninstall(true, (true, String::new())), Ok(()));
    assert_eq!(
        elevated_npm_uninstall(true, (false, "ERR".to_string())),
        Err("Elevated uninstall failed (user cancelled or npm error): ERR".to_string())
    );
}

#[test]
fn removal_stops_at_the_first_failure() {
    let mut removal = Removal::new();
    assert_eq!(removal.try_remove_foreign_direct(false), RemovalAction::Done(false));
    let mut removal = Removal::new();
    for shim in [Shim::Plain, Shim::Cmd, Shim::Ps1] {
        assert_eq!(removal.try_remove_foreign_direct(true), RemovalAction::File(shim));
    }
    assert_eq!(removal.try_remove_foreign_direct(true), RemovalAction::Package);
    assert_eq!(removal.try_remove_foreign_direct(true), RemovalAction::Done(true));
    assert_eq!(shim_name(Shim::Plain), "dsh");
    assert_eq!(shim_name(Shim::Cmd), "dsh.cmd");
    assert_eq!(shim_name(Shim::Ps1), "dsh.ps1");
}

#[test]
fn repair_of_a_missing_command() {
    let (mut repair, action) = Unify::begin(true);
    assert!(matches!(action, UnifyAction::Scan));
    assert!(matches!(
        unify_terminal_dsh(&mut repair, scanned(CliKind::Missing, None), true),
        UnifyAction::EnsurePath
    ));
    assert!(matches!(
        unify_terminal_dsh(&mut repair, UnifyEvent::PathEnsured(Ok(())), true),
        UnifyAction::Scan
    ));
    assert_eq!(
        end(UnifyPhase::AfterPath, scanned(CliKind::Unified, None), true),
        Ok("Added the global prefix to the user PATH; takes effect in new terminals".to_string())
    );
    assert_eq!(
        end(UnifyPhase::AfterPath, scanned(CliKind::Missing, None), true),
        Err("PATH was written but dsh still does not resolve; check your environment variables".to_string())
    );
    assert_eq!(
        end(UnifyPhase::MissingPath, UnifyEvent::PathEnsured(Err("e".to_string())), true),
        Err("e".to_string())
    );
}

#[test]
fn repair_of_a_hijacked_command() {
    let mut repair = at(UnifyPhase::First);
    assert!(matches!(
        unify_terminal_dsh(&mut repair, scanned(CliKind::NpmGlobal, Some("C:\\nodejs")), true),
        UnifyAction::RemoveDirect(d) if d == "C:\\nodejs"
    ));
    assert!(matches!(
        unify_terminal_dsh(&mut repair, UnifyEvent::Removed(false), true),
        UnifyAction::Uninstall(d) if d == "C:\\nodejs"
    ));
    assert!(matches!(
        unify_terminal_dsh(&mut repair, UnifyEvent::Uninstalled(Ok(())), true),
        UnifyAction::Scan
    ));
    assert!(matches!(
        unify_terminal_dsh(&mut repair, scanned(CliKind::Missing, None), true),
        UnifyAction::EnsurePath
    ));
    assert!(matches!(
        unify_terminal_dsh(&mut repair, UnifyEvent::PathEnsured(Err("ignored".to_string())), true),
        UnifyAction::Scan
    ));
    match unify_terminal_dsh(&mut repair, scanned(CliKind::Unified, None), true) {
        UnifyAction::Finish(r) => assert_eq!(
            r,
            Ok("Removed the hijacking copy (C:\\nodejs); terminal dsh is now in sync with the desktop shell".to_string())
        ),
        _ => panic!("not finished"),
    }
    let mut repair = at(UnifyPhase::Removal);
    unify_terminal_dsh(&mut repair, UnifyEvent::Removed(true), true);
    assert_eq!(repair.phase, UnifyPhase::AfterRemoval);
    unify_terminal_dsh(&mut repair, scanned(CliKind::OtherPath, None), true);
    assert_eq!(repair.phase, UnifyPhase::Last);
}

#[test]
fn repair_ends_with_a_message() {
    assert!(matches!(
        Unify::begin(false).1,
        UnifyAction::Finish(Ok(m)) if m == "此平台暂无需统一"
    ));
    assert_eq!(
        end(UnifyPhase::First, scanned(CliKind::Unified, None), false),
        Ok("终端 dsh 已与桌面壳同源".to_string())
    );
    assert_eq!(
        end(UnifyPhase::First, scanned(CliKind::NpmGlobal, None), true),
        Err("Cannot locate the hijacking source directory".to_string())
    );
    assert_eq!(
        end(UnifyPhase::First, scanned(CliKind::OtherPath, None), true),
        Err("Detected a non-npm dsh taking over PATH (C:\\x\\dsh, C:\\y\\dsh); handle it manually in Settings".to_string())
    );
    assert_eq!(
        end(UnifyPhase::Uninstall, UnifyEvent::Uninstalled(Err("no".to_string())), true),
        Err("no".to_string())
    );
    assert_eq!(
        end(UnifyPhase::Last, scanned(CliKind::Unified, None), false),
        Ok("已移除抢占副本（C:\\nodejs），终端 dsh 现与桌面壳同源".to_string())
    );
    assert_eq!(
        end(UnifyPhase::Last, scanned(CliKind::Missing, None), false),
        Err("卸载完成但终端解析仍异常，请重启终端后重试".to_string())
    );
}

#[test]
fn automatic_repair_cools_down_for_a_week() {
    assert_eq!(COOLDOWN, 7 * 86400);
    assert_eq!(auto_unify_dsh_cli(true, None), AutoUnify::InSync);
    assert_eq!(auto_unify_dsh_cli(false, Some(COOLDOWN - 1)), AutoUnify::CoolingDown);
    assert_eq!(auto_unify_dsh_cli(false, Some(COOLDOWN)), AutoUnify::Repair);
    assert_eq!(auto_unify_dsh_cli(false, None), AutoUnify::Repair);
    assert_eq!(mark_after(&Ok(String::new())), FailureMark::Remove);
    assert_eq!(mark_after(&Err(String::new())), FailureMark::Write);
}
