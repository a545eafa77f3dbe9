use base64::Engine;
use dsh_desktop::signature::{
    accept, unpack, updater_public_key, verify_installer_signature, PUBLISHER_KEY,
};

const KEY: &str = "untrusted comment: minisign public key\nRWQf6LRCGA9i53mlYecO4IzT51TGPpvWucNSCh1CBM0QTaLn73Y7GFO3\n";

const SIGNATURE: &str = "untrusted comment: signature from minisign secret key
RUQf6LRCGA9i559r3g7V1qNyJDApGip8MfqcadIgT9CuhV3EMhHoN1mGTkUidF/z7SrlQgXdy8ofjb7bNJJylDOocrCo8KLzZwo=
trusted comment: timestamp:1633700835\tfile:test\tprehashed
wLMDjy9FLAuxZ3q4NlEvkgtyhrr0gtTu6KC4KBJdITbbOeAi1zBIYo0v4iTgt8jJpIidRJnp94ABQkJAgAooBQ==
";

fn envelope(text: &str) -> String {
    base64::engine::general_purpose::STANDARD.encode(text)
}

fn verify(key: &str, signature: &str, data: &[u8]) -> Result<(), String> {
    verify_installer_signature(key, &Ok(signature.to_string()), &Ok(data.to_vec()))
}

#[test]
fn verify_real_sig() {
    match verify(&envelope(KEY), &envelope(SIGNATURE), b"test") {
        Ok(_) => println!("VERIFY_OK"),
        Err(e) => panic!("VERIFY_FAIL: {e}"),
    }
}

#[test]
fn signed_installer_is_sound() {
    let key = format!("  {}\n", envelope(KEY));
    let sig = format!("{}\r\n", envelope(SIGNATURE));
    assert_eq!(verify(&key, &sig, b"test"), Ok(()));
}

#[test]
fn changed_installer_is_not_sound() {
    let (key, sig) = (envelope(KEY), envelope(SIGNATURE));
    let message = Err("签名校验失败: The signature verification failed".to_string());
    assert_eq!(verify(&key, &sig, b"Test"), message);
    assert_eq!(verify(&key, &sig, b""), message);
    let other_comment = SIGNATURE.replace("file:test", "file:tess");
    assert_eq!(verify(&key, &envelope(&other_comment), b"test"), message);
}

#[test]
fn signature_of_another_key_is_not_sound() {
    let sig = envelope(SIGNATURE);
    let r = verify(PUBLISHER_KEY, &sig, b"test");
    assert!(r.unwrap_err().starts_with("签名校验失败: "));
}

#[test]
fn faults_are_found_in_order() {
    let (key, sig) = (envelope(KEY), envelope(SIGNATURE));
    let no_sig = Err("gone".to_string());
    let no_data = Err("gone".to_string());
    assert_eq!(
        verify("*", &sig, b"test"),
        Err("公钥 base64 解码失败: Invalid symbol 42, offset 0.".to_string())
    );
    assert_eq!(
        verify("//4=", &sig, b"test"),
        Err("公钥文本非法 UTF-8: invalid utf-8 sequence of 1 bytes from index 0".to_string())
    );
    assert_eq!(
        verify(&envelope("nothing"), &sig, b"test"),
        Err("公钥解析失败: Invalid encoding in minisign data".to_string())
    );
    assert_eq!(
        verify_installer_signature(&key, &no_sig, &no_data),
        Err("读取签名文件失败: gone".to_string())
    );
    assert!(verify(&key, "a", b"test").unwrap_err().starts_with("签名 base64 解码失败: "));
    assert!(verify(&key, "//4=", b"test").unwrap_err().starts_with("签名文本非法 UTF-8: "));
    assert!(verify(&key, &envelope("x"), b"test").unwrap_err().starts_with("签名解析失败: "));
    assert_eq!(
        verify_installer_signature(&key, &Ok(sig), &no_data),
        Err("读取安装包失败: gone".to_string())
    );
}

#[test]
fn key_comes_from_the_nearest_configuration() {
    let config = |key: &str| Some(format!(r#"{{"plugins":{{"updater":{{"pubkey":"{key}"}}}}}}"#));
    assert_eq!(updater_public_key(&Vec::new()), PUBLISHER_KEY);
    assert_eq!(updater_public_key(&vec![None, config("a"), config("b")]), "a");
    let odd = vec![
        Some("no json".to_string()),
        Some("{}".to_string()),
        Some(r#"{"plugins":{"updater":{"pubkey":3}}}"#.to_string()),
        config("c"),
    ];
    assert_eq!(updater_public_key(&odd), "c");
    let far = vec![None, None, None, None, None, None, config("d")];
    assert_eq!(updater_public_key(&far), PUBLISHER_KEY);
    let near = vec![None, None, None, None, None, config("d")];
    assert_eq!(updater_public_key(&near), "d");
}

#[test]
fn usual_key_is_a_key() {
    let r = verify(PUBLISHER_KEY, "", b"");
    assert!(r.unwrap_err().starts_with("签名解析失败: "));
}

#[test]
fn envelopes_and_faults() {
    assert_eq!(unpack(Ok(b"abc".to_vec()), "b: ", "u: "), Ok("abc".to_string()));
    assert_eq!(unpack(Err("e".to_string()), "b: ", "u: "), Err("b: e".to_string()));
    assert!(unpack(Ok(vec![0xc3]), "b: ", "u: ").unwrap_err().starts_with("u: incomplete"));
    assert_eq!(accept("t".to_string(), None, "h: "), Ok("t".to_string()));
    assert_eq!(
        accept("t".to_string(), Some("e".to_string()), "h: "),
        Err("h: e".to_string())
    );
}
