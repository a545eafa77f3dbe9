//! The signatures of installers.
use base64::Engine;
use vstd::prelude::*;
use vstd::utf8;

use crate::encoding;
use crate::json::{self, Json, JsonTree};
use crate::text;

verus! {

/// The public key of the publisher, for the case that no configuration states
/// it.
pub const PUBLISHER_KEY: &'static str =
    "dW50cnVzdGVkIGNvbW1lbnQ6IG1pbmlzaWduIHB1YmxpYyBrZXk6IEI1QzQwRTcwRDdFN0RBRUIKUldUcjJ1ZlhjQTdFdFJVVk1wOW9MK0pXMnY1Mkx5TmJ5MGZ4Nk1ZZlBBNkxvNlNlTU5QR2FaMk0K";

/// How many directories are searched for a configuration.
pub const CONFIG_DEPTH: usize = 6;

// The key.

/// The names under which the key stands in a configuration.
pub open spec fn key_path() -> Seq<Seq<char>> {
    seq!["plugins"@, "updater"@, "pubkey"@]
}

/// The key that a configuration states.
pub open spec fn key_in(t: JsonTree) -> Option<Seq<char>> {
    match json::at_path(t, key_path()) {
        Some(v) => json::text_of(v),
        None => None,
    }
}

/// Reads the key out of a configuration.
pub fn read_config_key(doc: &Json) -> (r: Option<String>)
    ensures
        text::maybe_owned(r) == key_in(doc@),
{
    let mut names: Vec<String> = Vec::new();
    names.push("plugins".to_owned());
    names.push("updater".to_owned());
    names.push("pubkey".to_owned());
    assert(text::texts(names@).skip(0) =~= key_path());
    match json::find_path(doc, &names, 0) {
        Some(v) => match v.as_text() {
            Some(key) => Some(key.to_owned()),
            None => None,
        },
        None => None,
    }
}

/// The key that the text of a configuration states.
pub open spec fn configured_key(config: Option<Seq<char>>) -> Option<Seq<char>> {
    match config {
        Some(text) => match json::json_text(text) {
            Ok(t) => key_in(t),
            Err(_) => None,
        },
        None => None,
    }
}

/// The key that the first of the configurations states that states one.
pub open spec fn first_key(configs: Seq<Option<Seq<char>>>) -> Option<Seq<char>>
    decreases configs.len(),
{
    if configs.len() == 0 {
        None
    } else {
        match configured_key(configs[0]) {
            Some(key) => Some(key),
            None => first_key(configs.skip(1)),
        }
    }
}

/// What the texts hold.
pub open spec fn maybe_texts(v: Seq<Option<String>>) -> Seq<Option<Seq<char>>> {
    v.map_values(|x: Option<String>| text::maybe_owned(x))
}

/// The configurations that count.
pub open spec fn nearest(configs: Seq<Option<Seq<char>>>) -> Seq<Option<Seq<char>>> {
    if configs.len() <= CONFIG_DEPTH {
        configs
    } else {
        configs.take(CONFIG_DEPTH as int)
    }
}

/// The public key of the publisher. The arguments are the texts of the
/// configurations in this directory and those above it, each where it can be
/// read; only the nearest ones count.
pub fn updater_public_key(configs: &Vec<Option<String>>) -> (r: String)
    ensures
        r@ == match first_key(nearest(maybe_texts(configs@))) {
            Some(key) => key,
            None => PUBLISHER_KEY@,
        },
{
    let n: usize = if configs.len() <= CONFIG_DEPTH {
        configs.len()
    } else {
        CONFIG_DEPTH
    };
    let ghost near = nearest(maybe_texts(configs@));
    let mut i: usize = 0;
    assert(near.skip(0) =~= near);
    while i < n
        invariant
            i <= n <= configs@.len(),
            near == nearest(maybe_texts(configs@)),
            near.len() == n,
            first_key(near) == first_key(near.skip(i as int)),
        ensures
            first_key(near) is None,
        decreases n - i,
    {
        let ghost here = near.skip(i as int);
        assert(here[0] == text::maybe_owned(configs@[i as int]));
        assert(here.skip(1) =~= near.skip(i as int + 1));
        if let Some(config) = &configs[i] {
            if let Ok(doc) = json::parse_json(config.as_str()) {
                if let Some(key) = read_config_key(&doc) {
                    return key;
                }
            }
        }
        i = i + 1;
    }
    PUBLISHER_KEY.to_owned()
}

// The outside functions.

/// The bytes that the standard engine of `base64` decodes from a text, or the
/// message of its error.
pub uninterp spec fn base64_bytes(text: Seq<char>) -> Result<Seq<u8>, Seq<char>>;

/// `decode` of `base64::engine::general_purpose::STANDARD`. The result is
/// named.
#[verifier::external_body]
fn decode_base64(text: &str) -> (r: Result<Vec<u8>, String>)
    ensures
        match r {
            Ok(bytes) => base64_bytes(text@) == Ok::<Seq<u8>, Seq<char>>(bytes@),
            Err(e) => base64_bytes(text@) == Err::<Seq<u8>, Seq<char>>(e@),
        },
{
    base64::engine::general_purpose::STANDARD.decode(text).map_err(
        |e: base64::DecodeError| e.to_string(),
    )
}

/// The message of the error of `minisign_verify::PublicKey::decode`; none where
/// the text is a public key.
pub uninterp spec fn key_error(text: Seq<char>) -> Option<Seq<char>>;

/// `minisign_verify::PublicKey::decode`. Whether it fails, and how, is named.
#[verifier::external_body]
fn check_key(text: &str) -> (r: Option<String>)
    ensures
        text::maybe_owned(r) == key_error(text@),
{
    minisign_verify::PublicKey::decode(text).err().map(|e: minisign_verify::Error| e.to_string())
}

/// The message of the error of `minisign_verify::Signature::decode`; none where
/// the text is a signature.
pub uninterp spec fn signature_error(text: Seq<char>) -> Option<Seq<char>>;

/// `minisign_verify::Signature::decode`. Whether it fails, and how, is named.
#[verifier::external_body]
fn check_signature(text: &str) -> (r: Option<String>)
    ensures
        text::maybe_owned(r) == signature_error(text@),
{
    minisign_verify::Signature::decode(text).err().map(|e: minisign_verify::Error| e.to_string())
}

/// The message of the error of `minisign_verify::PublicKey::verify`, for the key
/// and the signature that the texts are, without the old kind of signatures;
/// none where it is a signature of the data under the key.
pub uninterp spec fn verify_error(
    key: Seq<char>,
    signature: Seq<char>,
    data: Seq<u8>,
) -> Option<Seq<char>>;

/// `minisign_verify::PublicKey::verify` with `allow_legacy` off, on the key and
/// the signature that the texts are. Whether it fails, and how, is named.
#[verifier::external_body]
fn check_data(key: &str, signature: &str, data: &Vec<u8>) -> (r: Option<String>)
    requires
        key_error(key@) is None,
        signature_error(signature@) is None,
    ensures
        text::maybe_owned(r) == verify_error(key@, signature@, data@),
{
    match (minisign_verify::PublicKey::decode(key), minisign_verify::Signature::decode(signature)) {
        (Ok(k), Ok(s)) => k.verify(data, &s, false).err().map(|e: minisign_verify::Error| e.to_string()),
        (Err(e), _) => Some(e.to_string()),
        (_, Err(e)) => Some(e.to_string()),
    }
}

// The verification.

/// The text in a base64 envelope, given the bytes in it, or a message that
/// starts with one of the heads.
pub open spec fn unpacked(
    decoded: Result<Seq<u8>, Seq<char>>,
    base64_head: Seq<char>,
    utf8_head: Seq<char>,
) -> Result<Seq<char>, Seq<char>> {
    match decoded {
        Err(e) => Err(base64_head + e),
        Ok(bytes) => if utf8::valid_utf8(bytes) {
            Ok(utf8::decode_utf8(bytes))
        } else {
            Err(utf8_head + encoding::utf8_error(bytes))
        },
    }
}

/// Reads the text in a base64 envelope, given the bytes in it.
pub fn unpack(decoded: Result<Vec<u8>, String>, base64_head: &str, utf8_head: &str) -> (r: Result<
    String,
    String,
>)
    ensures
        text_read(r) == unpacked(bytes_read(decoded), base64_head@, utf8_head@),
{
    match decoded {
        Ok(bytes) => match encoding::utf8_text(bytes) {
            Ok(s) => Ok(s),
            Err(e) => Err(text::glue(utf8_head, e.as_str())),
        },
        Err(e) => Err(text::glue(base64_head, e.as_str())),
    }
}

/// The text in a base64 envelope, or a message that starts with one of the
/// heads.
pub open spec fn opened(
    envelope: Seq<char>,
    base64_head: Seq<char>,
    utf8_head: Seq<char>,
) -> Result<Seq<char>, Seq<char>> {
    unpacked(base64_bytes(text::trimmed(envelope)), base64_head, utf8_head)
}

/// A text that was looked at: itself, or a message where it has a fault.
pub open spec fn accepted(
    text: Seq<char>,
    fault: Option<Seq<char>>,
    head: Seq<char>,
) -> Result<Seq<char>, Seq<char>> {
    match fault {
        Some(e) => Err(head + e),
        None => Ok(text),
    }
}

/// Gives a text that was looked at back, or a message where it has a fault.
pub fn accept(text: String, fault: Option<String>, head: &str) -> (r: Result<String, String>)
    ensures
        text_read(r) == accepted(text@, text::maybe_owned(fault), head@),
{
    match fault {
        Some(e) => Err(text::glue(head, e.as_str())),
        None => Ok(text),
    }
}

/// Takes the text out of a base64 envelope.
fn open_envelope(envelope: &str, base64_head: &str, utf8_head: &str) -> (r: Result<String, String>)
    ensures
        text_read(r) == opened(envelope@, base64_head@, utf8_head@),
{
    let trimmed = text::from_chars(&text::trim(&text::to_chars(envelope)));
    unpack(decode_base64(trimmed.as_str()), base64_head, utf8_head)
}

/// What is wrong with the public key, or its text.
pub open spec fn opened_key(pubkey: Seq<char>) -> Result<Seq<char>, Seq<char>> {
    match opened(pubkey, "公钥 base64 解码失败: "@, "公钥文本非法 UTF-8: "@) {
        Err(e) => Err(e),
        Ok(s) => accepted(s, key_error(s), "公钥解析失败: "@),
    }
}

/// What is wrong with the signature file, or its text.
pub open spec fn opened_signature(file: Result<Seq<char>, Seq<char>>) -> Result<
    Seq<char>,
    Seq<char>,
> {
    match file {
        Err(e) => Err("读取签名文件失败: "@ + e),
        Ok(raw) => match opened(raw, "签名 base64 解码失败: "@, "签名文本非法 UTF-8: "@) {
            Err(e) => Err(e),
            Ok(s) => accepted(s, signature_error(s), "签名解析失败: "@),
        },
    }
}

/// What is wrong with an installer: none where its signature file holds a
/// signature of it under the public key.
pub open spec fn installer_fault(
    pubkey: Seq<char>,
    signature: Result<Seq<char>, Seq<char>>,
    installer: Result<Seq<u8>, Seq<char>>,
) -> Option<Seq<char>> {
    match opened_key(pubkey) {
        Err(e) => Some(e),
        Ok(key) => match opened_signature(signature) {
            Err(e) => Some(e),
            Ok(sig) => match installer {
                Err(e) => Some("读取安装包失败: "@ + e),
                Ok(data) => match verify_error(key, sig, data) {
                    Some(e) => Some("签名校验失败: "@ + e),
                    None => None,
                },
            },
        },
    }
}

/// What a file holds, or why it cannot be read.
pub open spec fn text_read(file: Result<String, String>) -> Result<Seq<char>, Seq<char>> {
    match file {
        Ok(s) => Ok(s@),
        Err(e) => Err(e@),
    }
}

/// What a file holds, or why it cannot be read.
pub open spec fn bytes_read(file: Result<Vec<u8>, String>) -> Result<Seq<u8>, Seq<char>> {
    match file {
        Ok(b) => Ok(b@),
        Err(e) => Err(e@),
    }
}

/// Reads the public key.
fn read_key(pubkey: &str) -> (r: Result<String, String>)
    ensures
        text_read(r) == opened_key(pubkey@),
        r is Ok ==> key_error(r->Ok_0@) is None,
{
    let key = match open_envelope(pubkey, "公钥 base64 解码失败: ", "公钥文本非法 UTF-8: ") {
        Ok(s) => s,
        Err(e) => {
            return Err(e);
        },
    };
    let fault = check_key(key.as_str());
    accept(key, fault, "公钥解析失败: ")
}

/// Reads the signature.
fn read_signature(file: &Result<String, String>) -> (r: Result<String, String>)
    ensures
        text_read(r) == opened_signature(text_read(*file)),
        r is Ok ==> signature_error(r->Ok_0@) is None,
{
    let raw = match file {
        Ok(raw) => raw,
        Err(e) => {
            return Err(text::glue("读取签名文件失败: ", e.as_str()));
        },
    };
    let sig = match open_envelope(
        raw.as_str(),
        "签名 base64 解码失败: ",
        "签名文本非法 UTF-8: ",
    ) {
        Ok(s) => s,
        Err(e) => {
            return Err(e);
        },
    };
    let fault = check_signature(sig.as_str());
    accept(sig, fault, "签名解析失败: ")
}

/// Verifies an installer: it is sound exactly when its signature file holds a
/// signature of it under the public key of the publisher. An installer that is
/// not sound must not be run.
pub fn verify_installer_signature(
    pubkey: &str,
    signature: &Result<String, String>,
    installer: &Result<Vec<u8>, String>,
) -> (r: Result<(), String>)
    ensures
        match installer_fault(pubkey@, text_read(*signature), bytes_read(*installer)) {
            None => r is Ok,
            Some(e) => r is Err && r->Err_0@ == e,
        },
{
    let key = match read_key(pubkey) {
        Ok(key) => key,
        Err(e) => {
            return Err(e);
        },
    };
    let sig = match read_signature(signature) {
        Ok(sig) => sig,
        Err(e) => {
            return Err(e);
        },
    };
    let data = match installer {
        Ok(data) => data,
        Err(e) => {
            return Err(text::glue("读取安装包失败: ", e.as_str()));
        },
    };
    match check_data(key.as_str(), sig.as_str(), data) {
        Some(e) => Err(text::glue("签名校验失败: ", e.as_str())),
        None => Ok(()),
    }
}

// Laws.

/// An installer is sound exactly where all of this holds: the public key and the
/// signature file, without the white space round them, are base64 of UTF-8, the one
/// of a public key and the other of a signature, the installer can be read, and the
/// signature is one of the installer under that key.
pub proof fn lemma_sound_installers(
    pubkey: &str,
    signature: &Result<String, String>,
    installer: &Result<Vec<u8>, String>,
    r: Result<(), String>,
)
    requires
        call_ensures(verify_installer_signature, (pubkey, signature, installer), r),
    ensures
        r is Ok <==> {
            &&& base64_bytes(text::trimmed(pubkey@)) is Ok
            &&& utf8::valid_utf8(base64_bytes(text::trimmed(pubkey@))->Ok_0)
            &&& key_error(utf8::decode_utf8(base64_bytes(text::trimmed(pubkey@))->Ok_0)) is None
            &&& *signature is Ok
            &&& base64_bytes(text::trimmed((*signature)->Ok_0@)) is Ok
            &&& utf8::valid_utf8(base64_bytes(text::trimmed((*signature)->Ok_0@))->Ok_0)
            &&& signature_error(
                utf8::decode_utf8(base64_bytes(text::trimmed((*signature)->Ok_0@))->Ok_0),
            ) is None
            &&& *installer is Ok
            &&& verify_error(
                utf8::decode_utf8(base64_bytes(text::trimmed(pubkey@))->Ok_0),
                utf8::decode_utf8(base64_bytes(text::trimmed((*signature)->Ok_0@))->Ok_0),
                (*installer)->Ok_0@,
            ) is None
        },
{
}

/// Which fault of an installer is told: the first one, of the key, the signature
/// file, the installer itself and the signature of it, in this order.
pub proof fn lemma_faults_in_their_order(
    pubkey: Seq<char>,
    signature: Result<Seq<char>, Seq<char>>,
    installer: Result<Seq<u8>, Seq<char>>,
)
    ensures
        opened_key(pubkey) matches Err(e) ==> installer_fault(pubkey, signature, installer)
            == Some(e),
        opened_key(pubkey) is Ok && signature is Err ==> installer_fault(
            pubkey,
            signature,
            installer,
        ) == Some("读取签名文件失败: "@ + signature->Err_0),
        opened_key(pubkey) is Ok && opened_signature(signature) is Ok && installer is Err
            ==> installer_fault(pubkey, signature, installer) == Some(
            "读取安装包失败: "@ + installer->Err_0,
        ),
        opened_key(pubkey) is Ok && opened_signature(signature) is Ok && installer is Ok
            && verify_error(
            opened_key(pubkey)->Ok_0,
            opened_signature(signature)->Ok_0,
            installer->Ok_0,
        ) is Some ==> installer_fault(pubkey, signature, installer) is Some,
{
}

/// The public key is the one that the nearest configuration states that states one,
/// of the first six; only where none of them does is it the one that is brought
/// along.
pub proof fn lemma_nearest_key_counts(configs: &Vec<Option<String>>, r: String, k: int)
    requires
        call_ensures(updater_public_key, (configs,), r),
        0 <= k <= configs@.len(),
        k <= 6,
        forall|i: int|
            0 <= i < k ==> configured_key(text::maybe_owned(#[trigger] configs@[i])) is None,
    ensures
        k < configs@.len() && k < 6 && configured_key(text::maybe_owned(configs@[k])) is Some
            ==> r@ == configured_key(text::maybe_owned(configs@[k]))->0,
        k == configs@.len() || k == 6 ==> r@ == PUBLISHER_KEY@,
{
    let near = nearest(maybe_texts(configs@));
    assert forall|i: int| 0 <= i < k implies configured_key(#[trigger] near[i]) is None by {
        assert(near[i] == text::maybe_owned(configs@[i]));
    }
    assert(near.skip(0) =~= near);
    lemma_keyless_are_passed_over(near, 0, k);
    if k < near.len() {
        assert(near.skip(k)[0] == text::maybe_owned(configs@[k]));
    }
}

proof fn lemma_keyless_are_passed_over(configs: Seq<Option<Seq<char>>>, from: int, k: int)
    requires
        0 <= from <= k <= configs.len(),
        forall|i: int| from <= i < k ==> configured_key(#[trigger] configs[i]) is None,
    ensures
        first_key(configs.skip(from)) == first_key(configs.skip(k)),
    decreases k - from,
{
    if from < k {
        assert(configs.skip(from)[0] == configs[from]);
        assert(configs.skip(from).skip(1) =~= configs.skip(from + 1));
        lemma_keyless_are_passed_over(configs, from + 1, k);
    }
}

/// A configuration states the key that stands in it as a text under
/// `plugins.updater.pubkey`.
pub proof fn lemma_configured_key(text: Seq<char>, key: Seq<char>)
    ensures
        configured_key(None) is None,
        configured_key(Some(text)) == Some(key) <==> (json::json_text(text) matches Ok(t)
            && json::at_path(t, seq!["plugins"@, "updater"@, "pubkey"@]) == Some(
            JsonTree::Text(key),
        )),
{
}

/// What is wrong with a base64 envelope is told with the reason behind it.
pub proof fn lemma_faults_of_envelopes(pubkey: Seq<char>, raw: Seq<char>)
    ensures
        base64_bytes(text::trimmed(pubkey)) matches Err(e) ==> opened_key(pubkey) == Err::<
            Seq<char>,
            Seq<char>,
        >("公钥 base64 解码失败: "@ + e),
        base64_bytes(text::trimmed(raw)) matches Err(e) ==> opened_signature(Ok(raw)) == Err::<
            Seq<char>,
            Seq<char>,
        >("签名 base64 解码失败: "@ + e),
        base64_bytes(text::trimmed(pubkey)) matches Ok(b) ==> (utf8::valid_utf8(b) && key_error(
            utf8::decode_utf8(b),
        ) is Some ==> opened_key(pubkey) == Err::<Seq<char>, Seq<char>>(
            "公钥解析失败: "@ + key_error(utf8::decode_utf8(b))->0,
        )),
        base64_bytes(text::trimmed(raw)) matches Ok(b) ==> (utf8::valid_utf8(b)
            && signature_error(utf8::decode_utf8(b)) is Some ==> opened_signature(Ok(raw))
            == Err::<Seq<char>, Seq<char>>(
            "签名解析失败: "@ + signature_error(utf8::decode_utf8(b))->0,
        )),
{
}

} // verus!
