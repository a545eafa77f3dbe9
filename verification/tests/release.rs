use base64::Engine;
use dsh_desktop::release::{
    git_remote_url, github_releases, github_repo, installer_file, list_app_versions,
    needs_second_place, regex_lite_url_parse, release_file_url, signature_file, AppInstall,
    AppInstallAction, AppInstallEvent, InstallPhase, Place, GITEE_TAGS,
};
use dsh_desktop::shell::UpdateLock;
use dsh_desktop::watchdog::Watchdog;

fn pair(owner: &str, name: &str) -> Option<(String, String)> {
    Some((owner.to_string(), name.to_string()))
}

fn ok(s: &str) -> Result<String, String> {
    Ok(s.to_string())
}

fn err(s: &str) -> Result<String, String> {
    Err(s.to_string())
}

#[test]
fn repository_addresses() {
    assert_eq!(regex_lite_url_parse("git@github.com:o/r.git"), pair("o", "r"));
    assert_eq!(regex_lite_url_parse("https://github.com/o/r.git"), pair("o", "r"));
    assert_eq!(regex_lite_url_parse("https://github.com/o/r/"), pair("o", "r"));
    assert_eq!(regex_lite_url_parse("ssh://git@host:22/a/o/r"), pair("o", "r"));
    assert_eq!(regex_lite_url_parse("https://github.com//r"), pair("github.com", "r"));
    assert_eq!(regex_lite_url_parse("r"), None);
    assert_eq!(regex_lite_url_parse(""), None);
    assert_eq!(regex_lite_url_parse(".git"), None);
    assert_eq!(regex_lite_url_parse("a://b://o/r"), pair("o", "r"));
}

#[test]
fn remotes_of_git() {
    assert_eq!(git_remote_url("github", Ok((true, b" url\n".to_vec()))), ok("url"));
    assert_eq!(git_remote_url("github", Ok((true, vec![0x61, 0xff]))), ok("a\u{fffd}"));
    assert_eq!(git_remote_url("github", Ok((false, Vec::new()))), err("无 remote `github`"));
    assert_eq!(
        git_remote_url("github", Err("no git".to_string())),
        err("git 不可用: no git")
    );
}

#[test]
fn repository_of_the_shell() {
    let gh = "https://github.com/o/r.git";
    let gitee = "https://gitee.com/p/q.git";
    assert_eq!(github_repo(ok(gh), err("x")).ok(), pair("o", "r"));
    assert_eq!(github_repo(ok(gitee), err("x")).ok(), pair("p", "q"));
    assert_eq!(github_repo(err("x"), ok(gh)).ok(), pair("o", "r"));
    assert_eq!(github_repo(err("x"), ok(gitee)).ok(), pair("p", "q"));
    assert_eq!(github_repo(err("x"), err("y")).err().unwrap(), "y");
    assert_eq!(github_repo(ok("r"), err("y")).err().unwrap(), "无法解析 remote: r");
}

#[test]
fn lists_of_releases_have_their_addresses() {
    assert_eq!(
        GITEE_TAGS,
        "https://gitee.com/api/v5/repos/eternalnight996/dsh-desktop/tags?per_page=60"
    );
    assert_eq!(
        github_releases(Ok(("o".to_string(), "r".to_string()))),
        "https://api.github.com/repos/o/r/releases?per_page=60"
    );
    assert_eq!(
        github_releases(Err("x".to_string())),
        "https://api.github.com/repos/EternalNight996/dsh-desktop/releases?per_page=60"
    );
}

#[test]
fn app_versions_are_listed() {
    let tags = r#"[{"name":"v0.5.0"},{"name":"nightly"},{"tag_name":"v0.6.1"},{"name":"0.6.0-rc.1"},{"name":"v"},{"name":7,"tag_name":"v9.0.0"},{},3]"#;
    let list = list_app_versions("0.6.1", Some(tags.to_string()), None).ok().unwrap();
    let names: Vec<&str> = list.iter().map(|e| e.version.as_str()).collect();
    assert_eq!(names, ["9.0.0", "0.6.1", "0.6.0-rc.1", "0.5.0"]);
    assert!(list[1].is_current);
    assert!(list[2].prerelease);
    assert!(list[3].tags.is_empty());
}

#[test]
fn tag_of_a_release_goes_before_its_title() {
    let releases = r#"[{"name":"Spring release","tag_name":"v1.0.0"},{"name":"v3.0.0","tag_name":"v2.0.0"},{"name":"v4.0.0","tag_name":7}]"#;
    let list = list_app_versions("0", None, Some(releases.to_string())).ok().unwrap();
    let names: Vec<&str> = list.iter().map(|e| e.version.as_str()).collect();
    assert_eq!(names, ["2.0.0", "1.0.0"]);
}

#[test]
fn only_version_tags_are_listed() {
    let tags = r#"[{"name":"v0.6.1"},{"name":"2024-notes"},{"name":"v0.10.0"},{"name":"nightly"},{"name":"1.2"},{"name":"1.2.3.4"},{"name":"1..3"},{"name":"1.2.x"},{"name":"vv1.2.3"},{"name":"1.2.3+b"}]"#;
    let list = list_app_versions("0", Some(tags.to_string()), None).ok().unwrap();
    let names: Vec<&str> = list.iter().map(|e| e.version.as_str()).collect();
    assert_eq!(names, ["1.2.3+b", "0.10.0", "0.6.1"]);
}

#[test]
fn second_place_is_asked_when_the_first_gives_no_list() {
    let second = || Some(r#"[{"tag_name":"v1.0.0"}]"#.to_string());
    for first in [None, Some("{}".to_string()), Some("<html>".to_string())] {
        assert!(needs_second_place(&first));
        let list = list_app_versions("0", first, second()).ok().unwrap();
        assert_eq!(list.len(), 1);
    }
    let empty = Some("[]".to_string());
    assert!(!needs_second_place(&empty));
    assert!(list_app_versions("0", empty, second()).ok().unwrap().is_empty());
    assert_eq!(
        list_app_versions("0", None, Some("1".to_string())).err().unwrap(),
        "无法获取发布版本列表（GitHub/Gitee 均不可达）"
    );
}

#[test]
fn files_of_a_release() {
    assert_eq!(installer_file("0.6.1"), "dsh-desktop_0.6.1_x64-setup.exe");
    assert_eq!(signature_file("0.6.1"), "dsh-desktop_0.6.1_x64-setup.exe.sig");
    assert_eq!(
        release_file_url(Place::Gitee, "0.6.1", "f"),
        "https://gitee.com/eternalnight996/dsh-desktop/releases/download/v0.6.1/f"
    );
    assert_eq!(
        release_file_url(Place::GitHub, "v0.6.1", "f"),
        "https://github.com/EternalNight996/dsh-desktop/releases/download/v0.6.1/f"
    );
}

struct Run {
    install: AppInstall,
    lock: UpdateLock,
    dog: Watchdog,
}

impl Run {
    fn at(phase: InstallPhase) -> Run {
        Run {
            install: AppInstall { phase, version: "0.6.1".to_string() },
            lock: UpdateLock { updating: true },
            dog: Watchdog::new(),
        }
    }

    fn step(&mut self, event: AppInstallEvent) -> AppInstallAction {
        self.install.install_app_version(&mut self.lock, &mut self.dog, event)
    }

    fn refused(&mut self, event: AppInstallEvent) -> String {
        let unsound = matches!(event, AppInstallEvent::Files { .. });
        let action = self.step(event);
        assert!(!self.lock.updating);
        assert_eq!(self.dog.generation, 0);
        match action {
            AppInstallAction::Finish { discard, result: Err(e) } => {
                assert_eq!(discard, unsound);
                e
            }
            _ => panic!("not refused"),
        }
    }
}

fn url_of(action: AppInstallAction) -> String {
    match action {
        AppInstallAction::Fetch { url, .. } => url,
        _ => panic!("nothing fetched"),
    }
}

fn files(data: &[u8]) -> AppInstallEvent {
    let key = "untrusted comment: minisign public key\nRWQf6LRCGA9i53mlYecO4IzT51TGPpvWucNSCh1CBM0QTaLn73Y7GFO3\n";
    let signature = "untrusted comment: signature from minisign secret key
RUQf6LRCGA9i559r3g7V1qNyJDApGip8MfqcadIgT9CuhV3EMhHoN1mGTkUidF/z7SrlQgXdy8ofjb7bNJJylDOocrCo8KLzZwo=
trusted comment: timestamp:1633700835\tfile:test\tprehashed
wLMDjy9FLAuxZ3q4NlEvkgtyhrr0gtTu6KC4KBJdITbbOeAi1zBIYo0v4iTgt8jJpIidRJnp94ABQkJAgAooBQ==
";
    let pack = |s: &str| base64::engine::general_purpose::STANDARD.encode(s);
    AppInstallEvent::Files {
        configs: vec![Some(format!(
            r#"{{"plugins":{{"updater":{{"pubkey":"{}"}}}}}}"#,
            pack(key)
        ))],
        signature: Ok(pack(signature)),
        installer: Ok(data.to_vec()),
    }
}

#[test]
fn signed_release_is_installed() {
    let mut lock = UpdateLock { updating: false };
    let (install, action) = AppInstall::begin(&mut lock, "0.6.1".to_string());
    assert!(lock.updating);
    assert!(matches!(action, AppInstallAction::MakeFolder));
    let mut run = Run { install, lock, dog: Watchdog::new() };
    assert_eq!(
        url_of(run.step(AppInstallEvent::Folder(Ok(())))),
        "https://gitee.com/eternalnight996/dsh-desktop/releases/download/v0.6.1/dsh-desktop_0.6.1_x64-setup.exe.sig"
    );
    assert_eq!(
        url_of(run.step(AppInstallEvent::Fetched(false))),
        "https://github.com/EternalNight996/dsh-desktop/releases/download/v0.6.1/dsh-desktop_0.6.1_x64-setup.exe.sig"
    );
    assert_eq!(
        url_of(run.step(AppInstallEvent::Fetched(true))),
        "https://github.com/EternalNight996/dsh-desktop/releases/download/v0.6.1/dsh-desktop_0.6.1_x64-setup.exe"
    );
    assert_eq!(
        url_of(run.step(AppInstallEvent::Fetched(false))),
        "https://gitee.com/eternalnight996/dsh-desktop/releases/download/v0.6.1/dsh-desktop_0.6.1_x64-setup.exe"
    );
    assert!(matches!(run.step(AppInstallEvent::Fetched(true)), AppInstallAction::ReadFiles));
    assert!(matches!(
        run.step(files(b"test")),
        AppInstallAction::KillAndRun { file } if file == "dsh-desktop_0.6.1_x64-setup.exe"
    ));
    assert_eq!(run.dog.generation, 1);
    assert!(run.lock.updating);
    assert!(matches!(
        run.step(AppInstallEvent::Started(Ok(()))),
        AppInstallAction::Finish { discard: false, result: Ok(()) }
    ));
    assert!(!run.lock.updating);
}

#[test]
fn unsigned_release_is_not_run() {
    assert_eq!(
        Run::at(InstallPhase::Files).refused(files(b"evil")),
        "签名校验失败: The signature verification failed"
    );
    let bare = AppInstallEvent::Files {
        configs: Vec::new(),
        signature: Err("gone".to_string()),
        installer: Ok(Vec::new()),
    };
    assert_eq!(Run::at(InstallPhase::Files).refused(bare), "读取签名文件失败: gone");
}

#[test]
fn failed_installations_tell_why() {
    assert_eq!(
        Run::at(InstallPhase::Folder).refused(AppInstallEvent::Folder(Err("ro".to_string()))),
        "创建临时目录失败: ro"
    );
    assert_eq!(
        Run::at(InstallPhase::Signature(Place::GitHub)).refused(AppInstallEvent::Fetched(false)),
        "下载签名文件失败（GitHub/Gitee 均不可达）"
    );
    for place in [Place::Gitee, Place::GitHub] {
        assert_eq!(
            Run::at(InstallPhase::Installer { place, last: true })
                .refused(AppInstallEvent::Fetched(false)),
            "下载安装包失败（GitHub/Gitee 均不可达）"
        );
    }
    let mut run = Run::at(InstallPhase::Signature(Place::Gitee));
    assert!(url_of(run.step(AppInstallEvent::Fetched(true))).starts_with("https://gitee.com/"));
    assert!(url_of(run.step(AppInstallEvent::Fetched(false))).starts_with("https://github.com/"));
    assert_eq!(
        Run::at(InstallPhase::Run).refused(AppInstallEvent::Started(Err("denied".to_string()))),
        "启动安装器失败: denied"
    );
}
