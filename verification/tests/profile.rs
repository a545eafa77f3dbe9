use dsh_desktop::plugin::{
    current_dsh_version, ensure_shell_plugin, installed_dsh_version, plan_plugin,
    read_pkg_version, register_shell_plugin, PluginPlan, Registration,
};
use dsh_desktop::profile::{
    bundle_entries_written, extract_bad_bundle_plugins, remove_bundle_entries,
    remove_bundle_entries_from, ProfileFile,
};

const SAMPLE_PKG: &str = r#"{
  "name": "dsh-profile-web",
  "private": true,
  "dependencies": {
    "@eternalnight/dsh-theme": "git+https://github.com/EternalNight996/dsh-theme.git",
    "dsh-ui-three-body": "^0.2.10",
    "memory-eternal": "^0.1.0"
  },
  "dsh": {
    "profile": {
      "bundles": [
        "@deepseek-ai/dsh-base",
        "@deepseek-ai/dsh-web-app",
        "dshmarket",
        "memory-eternal",
        "agent-teams-pixel"
      ]
    }
  }
}"#;

#[test]
fn removes_exact_bundle_entry_only() {
    let plugins = vec!["agent-teams-pixel".to_string()];
    let (out, removed) = remove_bundle_entries_from(SAMPLE_PKG, &plugins).unwrap();
    assert_eq!(removed, 1);
    assert!(!out.contains("agent-teams-pixel"));
    for keep in ["@deepseek-ai/dsh-base", "dshmarket", "memory-eternal"] {
        assert!(out.contains(keep), "不应误删 {keep}");
    }
    let parsed: serde_json::Value = serde_json::from_str(&out).unwrap();
    assert!(parsed.pointer("/dependencies/memory-eternal").is_some());
}

#[test]
fn errors_when_target_absent() {
    let plugins = vec!["no-such-plugin".to_string()];
    assert!(remove_bundle_entries_from(SAMPLE_PKG, &plugins).is_err());
}

#[test]
fn errors_when_bundles_missing() {
    let plugins = vec!["agent-teams-pixel".to_string()];
    assert!(remove_bundle_entries_from(r#"{"name":"x"}"#, &plugins).is_err());
    assert!(remove_bundle_entries_from("not json", &plugins).is_err());
}

#[test]
fn extracts_single_bundle_name_from_crash_log() {
    let tail = r#"file:///.../dsh-app-boot/lib/index.js:831
Error: dsh: cannot resolve profile bundle "agent-teams-pixel" from the dsh installation or C:\Users\...\.dsh\profiles\web; run 'dsh plugin --profile web install' if its dependency is not installed
    at resolveBundleDir (file:///.../lib/index.js:831:8)"#;
    assert_eq!(extract_bad_bundle_plugins(tail), vec!["agent-teams-pixel"]);
}

#[test]
fn extracts_scoped_name_and_dedupes() {
    let tail = r#"
Error: dsh: cannot resolve profile bundle "@scope/foo" from ...
Error: dsh: cannot resolve profile bundle "@scope/foo" from ...
Error: dsh: cannot resolve profile bundle "plain" from ..."#;
    assert_eq!(extract_bad_bundle_plugins(tail), vec!["@scope/foo", "plain"]);
}

#[test]
fn returns_empty_when_no_bundle_error() {
    assert!(extract_bad_bundle_plugins("fatal load failure\nplugin did not activate: x").is_empty());
    assert!(extract_bad_bundle_plugins("").is_empty());
}

#[test]
fn repair_writes_the_document_indented() {
    let (out, removed) = remove_bundle_entries_from(
        r#"{"b":1,"a":[true,null,-2],"dsh":{"profile":{"bundles":["x",3,"y","x"]}}}"#,
        &vec!["x".to_string()],
    )
    .unwrap();
    assert_eq!(removed, 2);
    assert_eq!(
        out,
        "{\n  \"a\": [\n    true,\n    null,\n    -2\n  ],\n  \"b\": 1,\n  \"dsh\": {\n    \"profile\": {\n      \"bundles\": [\n        3,\n        \"y\"\n      ]\n    }\n  }\n}\n"
    );
    let again = remove_bundle_entries_from(&out, &vec!["x".to_string()]);
    assert_eq!(again.err().unwrap(), "未在 bundles 中找到指定插件");
}

#[test]
fn repair_errors_have_their_messages() {
    let x = vec!["x".to_string()];
    assert_eq!(
        remove_bundle_entries_from("{}", &x).err().unwrap(),
        "profile package.json 缺少 dsh.profile.bundles"
    );
    assert_eq!(
        remove_bundle_entries_from(r#"{"dsh":{"profile":{"bundles":"x"}}}"#, &x).err().unwrap(),
        "profile package.json 缺少 dsh.profile.bundles"
    );
    assert_eq!(
        remove_bundle_entries_from("not json", &x).err().unwrap(),
        "解析 package.json 失败: expected ident at line 1 column 2"
    );
}

#[test]
fn repair_keeps_fractions() {
    let (out, _) = remove_bundle_entries_from(
        r#"{"dsh":{"profile":{"bundles":["x"]}},"n":1.5}"#,
        &vec!["x".to_string()],
    )
    .unwrap();
    assert!(out.contains("\"n\": 1.5"));
    for n in ["1e300", "1.7976931348623157e308", "-0", "5e-324", "0.1", "18446744073709551616"] {
        let text = format!(r#"{{"dsh":{{"profile":{{"bundles":["x",{n}]}}}},"n":[{n}]}}"#);
        let (out, removed) = remove_bundle_entries_from(&text, &vec!["x".to_string()]).unwrap();
        assert_eq!(removed, 1);
        assert!(remove_bundle_entries_from(&out, &vec!["x".to_string()]).is_err());
        let listed = match register_shell_plugin(&text) {
            Registration::Write(out) => out,
            _ => panic!("not written"),
        };
        assert!(!matches!(register_shell_plugin(&listed), Registration::Write(_)));
    }
}

#[test]
fn repair_of_a_file() {
    let x = vec!["x".to_string()];
    assert_eq!(remove_bundle_entries(ProfileFile::NoHome, &x).err().unwrap(), "无法定位用户目录");
    assert_eq!(
        remove_bundle_entries(ProfileFile::Missing, &x).err().unwrap(),
        "profile package.json 不存在"
    );
    assert_eq!(
        remove_bundle_entries(ProfileFile::Unreadable("denied".to_string()), &x).err().unwrap(),
        "读取 package.json 失败: denied"
    );
    let file = ProfileFile::Read(SAMPLE_PKG.to_string());
    assert_eq!(remove_bundle_entries(file, &vec!["dshmarket".to_string()]).unwrap().1, 1);
    assert_eq!(bundle_entries_written(2, Ok(())), Ok(2));
    assert_eq!(
        bundle_entries_written(2, Err("full".to_string())),
        Err("写入 package.json 失败: full".to_string())
    );
}

#[test]
fn complaints_without_a_closing_quote() {
    assert_eq!(
        extract_bad_bundle_plugins("cannot resolve profile bundle   \"abc"),
        vec!["abc"]
    );
    assert!(extract_bad_bundle_plugins("cannot resolve profile bundle abc").is_empty());
    assert!(extract_bad_bundle_plugins("cannot resolve profile bundle \"\"").is_empty());
    assert_eq!(
        extract_bad_bundle_plugins(r#"cannot resolve profile bundle "a\"b" from"#),
        vec![r#"a\"b"#]
    );
    assert_eq!(
        extract_bad_bundle_plugins(r#"cannot resolve profile bundle "a\\" from"#),
        vec![r"a\\"]
    );
    assert_eq!(
        extract_bad_bundle_plugins(
            "cannot resolve profile bundle x\ncannot resolve profile bundle \"y\""
        ),
        vec!["y"]
    );
    assert_eq!(
        extract_bad_bundle_plugins(
            "cannot resolve profile bundle cannot resolve profile bundle \"y\" cannot resolve profile bundle z cannot resolve profile bundle \"w\""
        ),
        vec!["y", "w"]
    );
}

#[test]
fn versions_of_packages() {
    assert_eq!(read_pkg_version(r#"{"version":"1.2.3"}"#), Some("1.2.3".to_string()));
    assert_eq!(read_pkg_version(r#"{"version":3}"#), None);
    assert_eq!(read_pkg_version(r#"{"name":"x"}"#), None);
    assert_eq!(read_pkg_version("nope"), None);
    assert_eq!(installed_dsh_version(None), None);
    assert_eq!(installed_dsh_version(Some(r#"{"version":"2"}"#)), Some("2".to_string()));
    assert_eq!(current_dsh_version(None, None), "未知");
    assert_eq!(current_dsh_version(Some(r#"{"version":"1"}"#), Some(r#"{"version":"2"}"#)), "1");
    assert_eq!(current_dsh_version(Some("{}"), Some(r#"{"version":"2"}"#)), "2");
}

#[test]
fn plugin_is_left_alone_when_up_to_date() {
    let pkg = Some(r#"{"version":"1.0.0"}"#);
    let listed = Some(r#"{"dsh":{"profile":{"bundles":["a","dsh-desktop-shell"]}}}"#);
    let unlisted = Some(r#"{"dsh":{"profile":{"bundles":["a"]}}}"#);
    assert_eq!(ensure_shell_plugin(pkg, pkg, listed, true), PluginPlan::UpToDate);
    assert_eq!(
        ensure_shell_plugin(pkg, pkg, unlisted, true),
        PluginPlan::Install { copy: false }
    );
    assert_eq!(
        ensure_shell_plugin(pkg, Some(r#"{"version":"0.9.0"}"#), listed, true),
        PluginPlan::Install { copy: true }
    );
    assert_eq!(ensure_shell_plugin(pkg, None, None, false), PluginPlan::NoProfile);
    assert_eq!(plan_plugin(&None, &None, true, true), PluginPlan::Install { copy: false });
}

#[test]
fn plugin_is_listed_once() {
    let text = r#"{"dsh":{"profile":{"bundles":["a"]}},"z":{}}"#;
    let out = match register_shell_plugin(text) {
        Registration::Write(out) => out,
        _ => panic!("not written"),
    };
    assert_eq!(
        out,
        "{\n  \"dsh\": {\n    \"profile\": {\n      \"bundles\": [\n        \"a\",\n        \"dsh-desktop-shell\"\n      ]\n    }\n  },\n  \"z\": {}\n}\n"
    );
    assert!(matches!(register_shell_plugin(&out), Registration::Listed));
    let pkg = Some(r#"{"version":"1.0.0"}"#);
    assert_eq!(ensure_shell_plugin(pkg, pkg, Some(&out), true), PluginPlan::UpToDate);
    assert!(matches!(register_shell_plugin("{}"), Registration::NoBundles));
    match register_shell_plugin("[") {
        Registration::NoJson(e) => {
            assert_eq!(e, "EOF while parsing a list at line 1 column 1");
        }
        _ => panic!("read"),
    }
}

#[test]
fn repair_undoes_listing() {
    let text = "{\n  \"a\": 1,\n  \"dsh\": {\n    \"profile\": {\n      \"bundles\": [\n        \"x\",\n        7\n      ]\n    }\n  }\n}\n";
    let listed = match register_shell_plugin(text) {
        Registration::Write(out) => out,
        _ => panic!("not written"),
    };
    let plugins = vec!["dsh-desktop-shell".to_string()];
    let (out, removed) = remove_bundle_entries_from(&listed, &plugins).unwrap();
    assert_eq!(removed, 1);
    assert_eq!(out, text);
}

#[test]
fn repairs_shorten_the_list() {
    let count = |text: &str| {
        let v: serde_json::Value = serde_json::from_str(text).unwrap();
        v.pointer("/dsh/profile/bundles").and_then(|b| b.as_array()).map(|a| a.len()).unwrap()
    };
    let plugins = vec!["dshmarket".to_string(), "memory-eternal".to_string()];
    let (out, removed) = remove_bundle_entries_from(SAMPLE_PKG, &plugins).unwrap();
    assert_eq!(removed, 2);
    assert_eq!(count(&out) + removed, count(SAMPLE_PKG));
}
