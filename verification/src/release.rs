//! The releases of the shell: where they are, which there are, and how one of
//! them is installed.
use vstd::prelude::*;
use vstd::utf8;

use crate::catalog::{self, VersionEntry};
use crate::encoding;
use crate::json::{self, Json, JsonTree};
use crate::shell::{UpdateLock, UpdatingGuard};
use crate::signature;
use crate::text;
use crate::version;
use crate::watchdog::{Watchdog, WatchdogState};

verus! {

// Repositories.

/// What stands in `s` behind the last occurrence of `needle`; all of `s` where
/// it does not occur.
pub open spec fn behind_last(s: Seq<char>, needle: Seq<char>) -> Seq<char>
    decreases s.len(),
    when needle.len() > 0
{
    match text::find(s, needle) {
        Some(at) => if 0 <= at && at + needle.len() <= s.len() {
            behind_last(s.skip(at + needle.len()), needle)
        } else {
            s
        },
        None => s,
    }
}

/// The pieces that are not empty.
pub open spec fn filled(pieces: Seq<Seq<char>>) -> Seq<Seq<char>>
    decreases pieces.len(),
{
    if pieces.len() == 0 {
        seq![]
    } else if pieces.last().len() == 0 {
        filled(pieces.drop_last())
    } else {
        filled(pieces.drop_last()).push(pieces.last())
    }
}

/// The steps of the path in the address of a repository: without the protocol,
/// the host where a colon follows it, and the suffix `.git`.
pub open spec fn repository_path(url: Seq<char>) -> Seq<Seq<char>> {
    let bare = text::without_suffix(behind_last(url, "://"@), ".git"@);
    filled(text::split(behind_last(bare, ":"@), '/'))
}

/// The owner and the name of a repository: the last two steps of its path.
pub open spec fn repository(url: Seq<char>) -> Option<(Seq<char>, Seq<char>)> {
    let steps = repository_path(url);
    if steps.len() >= 2 {
        Some((steps[steps.len() - 2], steps[steps.len() - 1]))
    } else {
        None
    }
}

/// What stands behind the only occurrence of a needle.
proof fn lemma_behind_only(before: Seq<char>, needle: Seq<char>, behind: Seq<char>)
    requires
        needle.len() > 0,
        forall|j: int|
            0 <= j < before.len() ==> !#[trigger] text::stands_at(
                before + needle + behind,
                needle,
                j,
            ),
        !behind.contains(needle[0]),
    ensures
        behind_last(before + needle + behind, needle) == behind,
{
    let s = before + needle + behind;
    let at = before.len() as int;
    assert(s.subrange(at, at + needle.len()) =~= needle);
    assert(text::stands_at(s, needle, at));
    text::lemma_find_is_first(s, needle);
    assert(text::find(s, needle)->0 == at);
    assert(s.skip(at + needle.len()) =~= behind);
    text::lemma_not_found(behind, needle);
    reveal_with_fuel(behind_last, 2);
}

/// The last two pieces of a path are the owner and the name.
proof fn lemma_last_steps(first: Option<Seq<char>>, owner: Seq<char>, name: Seq<char>)
    requires
        owner.len() > 0,
        name.len() > 0,
        !owner.contains('/'),
        !name.contains('/'),
        first is Some ==> first->0.len() > 0 && !first->0.contains('/'),
    ensures
        ({
            let path = owner + seq!['/'] + name;
            let whole = if first is Some {
                first->0 + seq!['/'] + path
            } else {
                path
            };
            let steps = filled(text::split(whole, '/'));
            steps.len() >= 2 && steps[steps.len() - 2] == owner && steps[steps.len() - 1] == name
        }),
{
    let path = owner + seq!['/'] + name;
    text::lemma_split_first(name, '/', seq![]);
    text::lemma_split_first(owner, '/', name);
    let pair = seq![owner, name];
    assert(text::split(path, '/') =~= pair);
    assert(pair.drop_last() =~= seq![owner]);
    assert(seq![owner].drop_last() =~= Seq::<Seq<char>>::empty());
    assert(filled(Seq::<Seq<char>>::empty()) =~= seq![]);
    assert(filled(seq![owner]) =~= seq![owner]);
    assert(filled(pair) =~= pair);
    if first is Some {
        let host = first->0;
        text::lemma_split_first(host, '/', path);
        let three = seq![host, owner, name];
        assert(seq![host] + pair =~= three);
        assert(three.drop_last() =~= seq![host, owner]);
        assert(seq![host, owner].drop_last() =~= seq![host]);
        assert(seq![host].drop_last() =~= Seq::<Seq<char>>::empty());
        assert(filled(seq![host]) =~= seq![host]);
        assert(filled(seq![host, owner]) =~= seq![host, owner]);
        assert(filled(three) =~= three);
    }
}

/// Both forms of the address of a repository on GitHub give its owner and its
/// name.
pub proof fn lemma_both_forms_of_address(owner: Seq<char>, name: Seq<char>)
    requires
        owner.len() > 0,
        name.len() > 0,
        !owner.contains('/') && !owner.contains(':'),
        !name.contains('/') && !name.contains(':'),
    ensures
        repository("git@github.com:"@ + owner + "/"@ + name + ".git"@) == Some((owner, name)),
        repository("https://github.com/"@ + owner + "/"@ + name + ".git"@) == Some((owner, name)),
{
    reveal_strlit("git@github.com:");
    reveal_strlit("https://github.com/");
    reveal_strlit("/");
    reveal_strlit(".git");
    reveal_strlit("://");
    reveal_strlit(":");
    let path = owner + seq!['/'] + name;
    let host = seq!['g', 'i', 't', 'h', 'u', 'b', '.', 'c', 'o', 'm'];
    assert(!path.contains(':')) by {
        if path.contains(':') {
            let k = choose|k: int| 0 <= k < path.len() && path[k] == ':';
            if k < owner.len() {
                assert(owner.contains(owner[k]));
            } else if k > owner.len() {
                assert(name.contains(name[k - owner.len() - 1]));
            }
        }
    }
    // The form with a colon.
    let ssh = "git@github.com:"@ + owner + "/"@ + name + ".git"@;
    let user = "git@github.com"@;
    reveal_strlit("git@github.com");
    text::lemma_find_is_first(ssh, "://"@);
    assert(ssh =~= user + seq![':'] + path + ".git"@);
    assert(text::find(ssh, "://"@) is None) by {
        if text::find(ssh, "://"@) is Some {
            let at = text::find(ssh, "://"@)->0;
            let cut = ssh.subrange(at, at + 3);
            assert(cut[0] == ':' && cut[1] == '/');
            assert(ssh[at] == ':' && ssh[at + 1] == '/');
            if at < 14 {
                assert(ssh[at] == user[at]);
            } else if at == 14 {
                assert(ssh[15] == owner[0]);
                assert(owner.contains(owner[0]));
            } else if at < 15 + path.len() {
                assert(ssh[at] == path[at - 15]);
                assert(path.contains(path[at - 15]));
            } else {
                assert(ssh[at] == ".git"@[at - 15 - path.len()]);
            }
        }
    }
    let bare = user + ":"@ + path;
    assert(ssh.subrange(ssh.len() - 4, ssh.len() as int) =~= ".git"@);
    assert(ssh.take(ssh.len() - 4) =~= bare);
    assert forall|j: int| 0 <= j < user.len() implies !#[trigger] text::stands_at(
        bare,
        ":"@,
        j,
    ) by {
        if text::stands_at(bare, ":"@, j) {
            assert(bare.subrange(j, j + 1)[0] == bare[j]);
            assert(bare[j] == user[j]);
        }
    }
    lemma_behind_only(user, ":"@, path);
    lemma_last_steps(None, owner, name);
    // The form with a protocol.
    let https = "https://github.com/"@ + owner + "/"@ + name + ".git"@;
    let scheme = seq!['h', 't', 't', 'p', 's'];
    let long = host + seq!['/'] + path;
    assert(https =~= scheme + "://"@ + (long + ".git"@));
    assert(!long.contains(':')) by {
        if long.contains(':') {
            let k = choose|k: int| 0 <= k < long.len() && long[k] == ':';
            if k > 10 {
                assert(path.contains(path[k - 11]));
            }
        }
    }
    assert(!(long + ".git"@).contains(':')) by {
        if (long + ".git"@).contains(':') {
            let k = choose|k: int| 0 <= k < (long + ".git"@).len() && (long + ".git"@)[k] == ':';
            if k < long.len() {
                assert(long.contains(long[k]));
            }
        }
    }
    let whole = scheme + "://"@ + (long + ".git"@);
    assert forall|j: int| 0 <= j < scheme.len() implies !#[trigger] text::stands_at(
        whole,
        "://"@,
        j,
    ) by {
        if text::stands_at(whole, "://"@, j) {
            assert(whole.subrange(j, j + 3)[0] == whole[j]);
            assert(whole[j] == scheme[j]);
        }
    }
    lemma_behind_only(scheme, "://"@, long + ".git"@);
    let tail = long + ".git"@;
    assert(tail.subrange(tail.len() - 4, tail.len() as int) =~= ".git"@);
    assert(tail.take(tail.len() - 4) =~= long);
    text::lemma_not_found(long, ":"@);
    assert(!host.contains('/'));
    lemma_last_steps(Some(host), owner, name);
}

/// What stands behind the last occurrence of `needle`.
fn cut_behind_last(s: &Vec<char>, needle: &str) -> (r: Vec<char>)
    requires
        needle@.len() > 0,
    ensures
        r@ == behind_last(s@, needle@),
{
    let pattern = text::to_chars(needle);
    let mut from: usize = 0;
    assert(s@.skip(0) =~= s@);
    loop
        invariant
            pattern@ == needle@,
            needle@.len() > 0,
            from <= s@.len(),
            behind_last(s@, needle@) == behind_last(s@.skip(from as int), needle@),
        decreases s@.len() - from,
    {
        let ghost rest = s@.skip(from as int);
        let total: usize = s.len();
        proof {
            assert(total == s@.len());
            text::lemma_find_is_first(rest, needle@);
        }
        match text::find_from(s, &pattern, from) {
            Some(at) => {
                proof {
                    assert(rest.skip(at - from + needle@.len()) =~= s@.skip(
                        at + needle@.len() as int,
                    ));
                }
                from = at + pattern.len();
            },
            None => {
                let r = text::slice_chars(s, from, s.len());
                assert(r@ =~= rest);
                return r;
            },
        }
    }
}

/// The owner and the name of the repository at an address such as
/// `git@host:owner/name.git` or `https://host/owner/name`.
pub fn regex_lite_url_parse(url: &str) -> (r: Option<(String, String)>)
    ensures
        match r {
            Some((owner, name)) => repository(url@) == Some((owner@, name@)),
            None => repository(url@) is None,
        },
{
    proof {
        reveal_strlit("://");
        reveal_strlit(":");
    }
    let bare = text::strip_suffix(&cut_behind_last(&text::to_chars(url), "://"), ".git");
    let body = cut_behind_last(&bare, ":");
    let pieces = text::split_char(&body, '/');
    let ghost all = text::views(pieces@);
    let mut steps: Vec<String> = Vec::new();
    assert(text::texts(steps@) =~= filled(all.take(0)));
    for i in 0..pieces.len()
        invariant
            all == text::views(pieces@),
            text::texts(steps@) == filled(all.take(i as int)),
    {
        let ghost before = steps@;
        proof {
            assert(all.take(i as int + 1).drop_last() =~= all.take(i as int));
            assert(all.take(i as int + 1).last() == pieces@[i as int]@);
        }
        if pieces[i].len() > 0 {
            steps.push(text::from_chars(&pieces[i]));
            assert(text::texts(steps@) =~= text::texts(before).push(pieces@[i as int]@));
        }
    }
    assert(all.take(all.len() as int) =~= all);
    let n = steps.len();
    assert(text::texts(steps@).len() == n);
    if n >= 2 {
        Some((steps[n - 2].clone(), steps[n - 1].clone()))
    } else {
        None
    }
}

/// What asking git for the address of a remote gives, given its output as text.
pub open spec fn address_in(
    name: Seq<char>,
    out: Result<(bool, Seq<char>), Seq<char>>,
) -> Result<Seq<char>, Seq<char>> {
    match out {
        Err(e) => Err("git 不可用: "@ + e),
        Ok((success, stdout)) => if success {
            Ok(text::trimmed(stdout))
        } else {
            Err("无 remote `"@ + name + "`"@)
        },
    }
}

/// Reads the address of a remote out of what git gave, its output as text.
pub fn read_address(name: &str, out: Result<(bool, String), String>) -> (r: Result<String, String>)
    ensures
        signature::text_read(r) == address_in(
            name@,
            match out {
                Ok((success, stdout)) => Ok((success, stdout@)),
                Err(e) => Err(e@),
            },
        ),
{
    match out {
        Err(e) => Err(text::glue("git 不可用: ", e.as_str())),
        Ok((success, stdout)) => if success {
            Ok(text::from_chars(&text::trim(&text::to_chars(stdout.as_str()))))
        } else {
            let mut message = "无 remote `".to_owned();
            message.append(name);
            message.append("`");
            Err(message)
        },
    }
}

/// What asking git for the address of a remote gives.
pub open spec fn remote_address(
    name: Seq<char>,
    out: Result<(bool, Vec<u8>), String>,
) -> Result<Seq<char>, Seq<char>> {
    address_in(
        name,
        match out {
            Ok((success, stdout)) => Ok((success, encoding::lossy(stdout@))),
            Err(e) => Err(e@),
        },
    )
}

/// Reads the address of a remote out of what git gave: whether it succeeded,
/// and its output.
pub fn git_remote_url(name: &str, out: Result<(bool, Vec<u8>), String>) -> (r: Result<
    String,
    String,
>)
    ensures
        signature::text_read(r) == remote_address(name@, out),
{
    match out {
        Err(e) => read_address(name, Err(e)),
        Ok((success, stdout)) => read_address(name, Ok((success, encoding::lossy_text(&stdout)))),
    }
}

/// The repository that the remotes name: that of the remote for GitHub, else
/// that of the remote for Gitee.
pub open spec fn repository_of(
    github: Result<Seq<char>, Seq<char>>,
    gitee: Result<Seq<char>, Seq<char>>,
) -> Result<(Seq<char>, Seq<char>), Seq<char>> {
    match github {
        Ok(url) => named_repository(url),
        Err(_) => match gitee {
            Ok(url) => named_repository(url),
            Err(e) => Err(e),
        },
    }
}

/// The repository at an address, or a message.
pub open spec fn named_repository(url: Seq<char>) -> Result<(Seq<char>, Seq<char>), Seq<char>> {
    match repository(url) {
        Some(pair) => Ok(pair),
        None => Err("无法解析 remote: "@ + url),
    }
}

/// What a repository is, or why there is none.
pub open spec fn repository_read(r: Result<(String, String), String>) -> Result<
    (Seq<char>, Seq<char>),
    Seq<char>,
> {
    match r {
        Ok((owner, name)) => Ok((owner@, name@)),
        Err(e) => Err(e@),
    }
}

/// The owner and the name of the repository of the shell, given the addresses of
/// the remote for GitHub and of that for Gitee, which is fallen back to.
pub fn github_repo(github: Result<String, String>, gitee: Result<String, String>) -> (r: Result<
    (String, String),
    String,
>)
    ensures
        repository_read(r) == repository_of(
            signature::text_read(github),
            signature::text_read(gitee),
        ),
{
    let url = match github {
        Ok(url) => url,
        Err(_) => match gitee {
            Ok(url) => url,
            Err(e) => {
                return Err(e);
            },
        },
    };
    match regex_lite_url_parse(url.as_str()) {
        Some(pair) => Ok(pair),
        None => Err(text::glue("无法解析 remote: ", url.as_str())),
    }
}

// The list of releases.

/// Where the tags of the shell are listed first.
pub const GITEE_TAGS: &'static str =
    "https://gitee.com/api/v5/repos/eternalnight996/dsh-desktop/tags?per_page=60";

/// Where the releases of a repository are listed on GitHub.
pub open spec fn releases_url(owner: Seq<char>, name: Seq<char>) -> Seq<char> {
    "https://api.github.com/repos/"@ + owner + "/"@ + name + "/releases?per_page=60"@
}

/// Where the releases of the shell are listed on GitHub: in the repository, or
/// in the usual one where that is not known.
pub fn github_releases(repo: Result<(String, String), String>) -> (r: String)
    ensures
        r@ == match repo {
            Ok((owner, name)) => releases_url(owner@, name@),
            Err(_) => releases_url("EternalNight996"@, "dsh-desktop"@),
        },
{
    let (owner, name) = match repo {
        Ok(pair) => pair,
        Err(_) => ("EternalNight996".to_owned(), "dsh-desktop".to_owned()),
    };
    let mut url = "https://api.github.com/repos/".to_owned();
    url.append(owner.as_str());
    url.append("/");
    url.append(name.as_str());
    url.append("/releases?per_page=60");
    url
}

/// The releases in the body of an answer, where it is a list.
pub open spec fn releases_in(body: Option<Seq<char>>) -> Option<Seq<JsonTree>> {
    match body {
        Some(text) => match json::json_text(text) {
            Ok(JsonTree::Array(items)) => Some(items),
            _ => None,
        },
        None => None,
    }
}

/// Reads the releases out of the body of an answer.
fn read_releases(body: &Option<String>) -> (r: Option<Vec<Json>>)
    ensures
        match r {
            Some(items) => releases_in(text::maybe_owned(*body)) == Some(json::trees(items@)),
            None => releases_in(text::maybe_owned(*body)) is None,
        },
{
    match body {
        Some(text) => match json::parse_json(text.as_str()) {
            Ok(Json::Array(items)) => {
                proof {
                    json::lemma_view_array(items);
                }
                Some(items)
            },
            _ => None,
        },
        None => None,
    }
}

/// Whether the second place has to be asked: the first one gave no list.
pub fn needs_second_place(body: &Option<String>) -> (r: bool)
    ensures
        r == (releases_in(text::maybe_owned(*body)) is None),
{
    read_releases(body).is_none()
}

/// The tag of a release, which is its `tag_name`, or of a tag, which is its
/// `name`.
pub open spec fn release_tag(t: JsonTree) -> Seq<char> {
    let field = match json::member(t, "tag_name"@) {
        Some(v) => Some(v),
        None => json::member(t, "name"@),
    };
    match field {
        Some(v) => match json::text_of(v) {
            Some(s) => s,
            None => seq![],
        },
        None => seq![],
    }
}

/// Whether `s` is a release number: three runs of digits, parted by full stops.
pub open spec fn is_release_number(s: Seq<char>) -> bool {
    let parts = text::split(s, '.');
    parts.len() == 3 && text::all_digits(parts[0]) && text::all_digits(parts[1])
        && text::all_digits(parts[2])
}

/// Whether `v` is a version: a release number, behind it a pre-release part after
/// a hyphen, where there is one, and build metadata after a plus sign, where there
/// is any.
pub open spec fn is_version(v: Seq<char>) -> bool {
    is_release_number(version::release_part(version::ranked_part(v)))
}

/// The version of a release, where its tag is one, without a leading `v`.
pub open spec fn release_version(t: JsonTree) -> Option<Seq<char>> {
    let tag = release_tag(t);
    let v = match text::without_prefix(tag, "v"@) {
        Some(rest) => rest,
        None => tag,
    };
    if is_version(v) {
        Some(v)
    } else {
        None
    }
}

/// The versions of the releases, in their order.
pub open spec fn release_versions(items: Seq<JsonTree>) -> Seq<Seq<char>>
    decreases items.len(),
{
    if items.len() == 0 {
        seq![]
    } else {
        match release_version(items.last()) {
            Some(v) => release_versions(items.drop_last()).push(v),
            None => release_versions(items.drop_last()),
        }
    }
}

/// Only tags that are versions are listed.
pub proof fn lemma_only_versions_are_listed(items: Seq<JsonTree>, i: int)
    requires
        0 <= i < release_versions(items).len(),
    ensures
        is_version(release_versions(items)[i]),
    decreases items.len(),
{
    let short = release_versions(items.drop_last());
    if i < short.len() {
        lemma_only_versions_are_listed(items.drop_last(), i);
    }
}

/// Whether `s` holds digits, at least one, and nothing else.
fn is_number(s: &Vec<char>) -> (r: bool)
    ensures
        r == text::all_digits(s@),
{
    for i in 0..s.len()
        invariant
            forall|k: int| 0 <= k < i ==> text::is_digit(#[trigger] s@[k]),
    {
        if s[i] < '0' || s[i] > '9' {
            assert(!text::is_digit(s@[i as int]));
            return false;
        }
    }
    s.len() > 0
}

/// Whether `v` is a version.
fn names_version(v: &Vec<char>) -> (r: bool)
    ensures
        r == is_version(v@),
{
    let ranked = version::read_ranked(v);
    assert(ranked@.skip(0) =~= ranked@);
    let end = text::position_from(&ranked, '-', 0);
    let release = text::slice_chars(&ranked, 0, end);
    assert(release@ =~= version::release_part(ranked@));
    let parts = text::split_char(&release, '.');
    let ghost model = text::split(version::release_part(ranked@), '.');
    assert(parts@.len() == text::views(parts@).len());
    if parts.len() != 3 {
        return false;
    }
    assert(model[0] == parts@[0]@ && model[1] == parts@[1]@ && model[2] == parts@[2]@);
    is_number(&parts[0]) && is_number(&parts[1]) && is_number(&parts[2])
}

/// The version of a release.
fn read_version(item: &Json) -> (r: Option<String>)
    ensures
        text::maybe_owned(r) == release_version(item@),
{
    let field = match item.get("tag_name") {
        Some(v) => Some(v),
        None => item.get("name"),
    };
    let tag: Vec<char> = match field {
        Some(v) => match v.as_text() {
            Some(s) => text::to_chars(s),
            None => Vec::new(),
        },
        None => Vec::new(),
    };
    assert(tag@ =~= release_tag(item@));
    let v = match text::strip_prefix(&tag, "v") {
        Some(rest) => rest,
        None => tag,
    };
    if names_version(&v) {
        Some(text::from_chars(&v))
    } else {
        None
    }
}

/// Reads the versions out of releases, in their order.
pub fn read_versions(items: &Vec<Json>) -> (r: Vec<String>)
    ensures
        text::texts(r@) == release_versions(json::trees(items@)),
{
    let ghost all = json::trees(items@);
    let mut versions: Vec<String> = Vec::new();
    assert(text::texts(versions@) =~= release_versions(all.take(0)));
    for i in 0..items.len()
        invariant
            all == json::trees(items@),
            text::texts(versions@) == release_versions(all.take(i as int)),
    {
        let ghost before = versions@;
        proof {
            assert(all.take(i as int + 1).drop_last() =~= all.take(i as int));
            assert(all.take(i as int + 1).last() == items@[i as int]@);
        }
        if let Some(v) = read_version(&items[i]) {
            versions.push(v);
            assert(text::texts(versions@) =~= text::texts(before).push(v@));
        }
    }
    assert(all.take(all.len() as int) =~= all);
    versions
}

/// What the list of the versions of the shell is: that of the first place that
/// gave a list of releases.
pub open spec fn app_listing(
    current: Seq<char>,
    first: Option<Seq<char>>,
    second: Option<Seq<char>>,
) -> Option<Seq<catalog::Entry>> {
    let items = match releases_in(first) {
        Some(items) => Some(items),
        None => releases_in(second),
    };
    match items {
        Some(items) => Some(catalog::listing(release_versions(items), current, None, None)),
        None => None,
    }
}

/// Lists the versions of the shell, the highest first, given the installed one
/// and the bodies of the answers of the two places.
pub fn list_app_versions(current: &str, first: Option<String>, second: Option<String>) -> (r:
    Result<Vec<VersionEntry>, String>)
    ensures
        match app_listing(current@, text::maybe_owned(first), text::maybe_owned(second)) {
            Some(list) => r matches Ok(v) && catalog::entries(v@) == list,
            None => r is Err && r->Err_0@
                == "无法获取发布版本列表（GitHub/Gitee 均不可达）"@,
        },
{
    let found = match read_releases(&first) {
        Some(items) => Some(items),
        None => read_releases(&second),
    };
    let items = match found {
        Some(items) => items,
        None => {
            return Err("无法获取发布版本列表（GitHub/Gitee 均不可达）".to_owned());
        },
    };
    let versions = read_versions(&items);
    Ok(catalog::make_listing(&versions, current, &None, &None))
}

// Installing a release.

/// The tag of a version: with a leading `v`.
pub open spec fn tag_of(version: Seq<char>) -> Seq<char> {
    if text::has_prefix(version, "v"@) {
        version
    } else {
        "v"@ + version
    }
}

/// The name of the installer of a version.
pub open spec fn installer_name(version: Seq<char>) -> Seq<char> {
    "dsh-desktop_"@ + version + "_x64-setup.exe"@
}

/// The name of the signature file of a version.
pub open spec fn signature_name(version: Seq<char>) -> Seq<char> {
    installer_name(version) + ".sig"@
}

/// The places from which a release is fetched, in the order in which they are
/// tried.
#[derive(Clone, Copy, PartialEq, Eq, Structural, Debug)]
pub enum Place {
    Gitee,
    GitHub,
}

/// The place that is not the given one.
pub open spec fn other_place(place: Place) -> Place {
    match place {
        Place::Gitee => Place::GitHub,
        Place::GitHub => Place::Gitee,
    }
}

/// The address of a file of a release.
pub open spec fn file_url(place: Place, version: Seq<char>, file: Seq<char>) -> Seq<char> {
    (match place {
        Place::Gitee => "https://gitee.com/eternalnight996/dsh-desktop/releases/download/"@,
        Place::GitHub => "https://github.com/EternalNight996/dsh-desktop/releases/download/"@,
    }) + tag_of(version) + "/"@ + file
}

/// Makes the name of the installer of a version.
pub fn installer_file(version: &str) -> (r: String)
    ensures
        r@ == installer_name(version@),
{
    let mut s = "dsh-desktop_".to_owned();
    s.append(version);
    s.append("_x64-setup.exe");
    s
}

/// Makes the name of the signature file of a version.
pub fn signature_file(version: &str) -> (r: String)
    ensures
        r@ == signature_name(version@),
{
    let mut s = installer_file(version);
    s.append(".sig");
    s
}

/// Makes the address of a file of a release.
pub fn release_file_url(place: Place, version: &str, file: &str) -> (r: String)
    ensures
        r@ == file_url(place, version@, file@),
{
    let mut s = match place {
        Place::Gitee => "https://gitee.com/eternalnight996/dsh-desktop/releases/download/",
        Place::GitHub => "https://github.com/EternalNight996/dsh-desktop/releases/download/",
    }.to_owned();
    let tag = if text::starts_with(&text::to_chars(version), "v") {
        version.to_owned()
    } else {
        text::glue("v", version)
    };
    s.append(tag.as_str());
    s.append("/");
    s.append(file);
    s
}

/// What an installation of a release waits for.
#[derive(Clone, Copy, PartialEq, Eq, Structural, Debug)]
pub enum InstallPhase {
    /// The directory for the files.
    Folder,
    /// The signature file, from a place.
    Signature(Place),
    /// The installer, from a place; `last` where no other place is left.
    Installer { place: Place, last: bool },
    /// The contents of the files.
    Files,
    /// The start of the installer.
    Run,
    /// Nothing any more.
    Over,
}

/// An installation of a release of the shell.
pub struct AppInstall {
    pub phase: InstallPhase,
    pub version: String,
}

/// What an installation of a release is told.
pub enum AppInstallEvent {
    /// Whether there is a directory for the files, or why not.
    Folder(Result<(), String>),
    /// Whether the file was fetched and stored.
    Fetched(bool),
    /// The contents of the files, each where it can be read, and the texts of
    /// the configurations that may state the public key.
    Files {
        configs: Vec<Option<String>>,
        signature: Result<String, String>,
        installer: Result<Vec<u8>, String>,
    },
    /// Whether the installer was started, or why not.
    Started(Result<(), String>),
}

/// What an installation of a release asks for.
pub enum AppInstallAction {
    /// Make a directory for the files.
    MakeFolder,
    /// Fetch a file from an address, and store it.
    Fetch { url: String, file: String },
    /// Read the files.
    ReadFiles,
    /// Kill dsh, which would keep its files open, then run the installer.
    KillAndRun { file: String },
    /// The installation is over, or goes on in the installer. The files are
    /// removed where `discard` says so.
    Finish { discard: bool, result: Result<(), String> },
}

/// Whether the action asks for a file of the version.
pub open spec fn fetches(
    action: AppInstallAction,
    place: Place,
    version: Seq<char>,
    name: Seq<char>,
) -> bool {
    action matches AppInstallAction::Fetch { url, file } && url@ == file_url(place, version, name)
        && file@ == name
}

/// Whether the action ends the installation with the given message.
pub open spec fn refuses(action: AppInstallAction, discard: bool, message: Seq<char>) -> bool {
    action matches AppInstallAction::Finish { discard: d, result: Err(e) } && d == discard && e@
        == message
}

/// What is wrong with the files: none where the installer is signed by the
/// publisher.
pub open spec fn files_fault(
    configs: Vec<Option<String>>,
    signature: Result<String, String>,
    installer: Result<Vec<u8>, String>,
) -> Option<Seq<char>> {
    signature::installer_fault(
        match signature::first_key(signature::nearest(signature::maybe_texts(configs@))) {
            Some(key) => key,
            None => signature::PUBLISHER_KEY@,
        },
        signature::text_read(signature),
        signature::bytes_read(installer),
    )
}

impl AppInstall {
    /// Begins the installation of a version under the lock.
    pub fn begin(lock: &mut UpdateLock, version: String) -> (r: (Self, AppInstallAction))
        ensures
            final(lock).updating,
            r.0 == (AppInstall { phase: InstallPhase::Folder, version }),
            r.1 is MakeFolder,
    {
        let _guard = UpdatingGuard::enter(lock);
        (AppInstall { phase: InstallPhase::Folder, version }, AppInstallAction::MakeFolder)
    }

    /// Whether the installation waits for the event.
    pub open spec fn expects(self, event: AppInstallEvent) -> bool {
        match event {
            AppInstallEvent::Folder(_) => self.phase is Folder,
            AppInstallEvent::Fetched(_) => self.phase is Signature || self.phase is Installer,
            AppInstallEvent::Files { .. } => self.phase is Files,
            AppInstallEvent::Started(_) => self.phase is Run,
        }
    }

    /// What the installation does when a file was fetched, or was not.
    pub open spec fn fetched(
        self,
        ok: bool,
        after: InstallPhase,
        action: AppInstallAction,
    ) -> bool {
        let version = self.version@;
        match self.phase {
            InstallPhase::Signature(place) => if ok {
                after == (InstallPhase::Installer { place, last: false }) && fetches(
                    action,
                    place,
                    version,
                    installer_name(version),
                )
            } else if place == Place::Gitee {
                after == InstallPhase::Signature(Place::GitHub) && fetches(
                    action,
                    Place::GitHub,
                    version,
                    signature_name(version),
                )
            } else {
                after is Over && refuses(
                    action,
                    false,
                    "下载签名文件失败（GitHub/Gitee 均不可达）"@,
                )
            },
            InstallPhase::Installer { place, last } => if ok {
                after is Files && action is ReadFiles
            } else if !last {
                after == (InstallPhase::Installer {
                    place: other_place(place),
                    last: true,
                }) && fetches(
                    action,
                    other_place(place),
                    version,
                    installer_name(version),
                )
            } else {
                after is Over && refuses(
                    action,
                    false,
                    "下载安装包失败（GitHub/Gitee 均不可达）"@,
                )
            },
            _ => false,
        }
    }

    /// What the installation does on an event.
    pub open spec fn moves(
        self,
        dog: WatchdogState,
        event: AppInstallEvent,
        after: AppInstall,
        dog_after: WatchdogState,
        action: AppInstallAction,
    ) -> bool {
        &&& after.version == self.version
        &&& match event {
            AppInstallEvent::Folder(Ok(_)) => dog_after == dog && after.phase
                == InstallPhase::Signature(Place::Gitee) && fetches(
                action,
                Place::Gitee,
                self.version@,
                signature_name(self.version@),
            ),
            AppInstallEvent::Folder(Err(e)) => dog_after == dog && after.phase is Over && refuses(
                action,
                false,
                "创建临时目录失败: "@ + e@,
            ),
            AppInstallEvent::Fetched(ok) => dog_after == dog && self.fetched(
                ok,
                after.phase,
                action,
            ),
            AppInstallEvent::Files { configs, signature, installer } => match files_fault(
                configs,
                signature,
                installer,
            ) {
                Some(fault) => dog_after == dog && after.phase is Over && refuses(
                    action,
                    true,
                    fault,
                ),
                None => dog_after == dog.advanced() && after.phase is Run && (
                action matches AppInstallAction::KillAndRun { file } && file@ == installer_name(
                    self.version@,
                )),
            },
            AppInstallEvent::Started(Ok(_)) => dog_after == dog && after.phase is Over && (
            action matches AppInstallAction::Finish { discard, result } && !discard
                && result is Ok),
            AppInstallEvent::Started(Err(e)) => dog_after == dog && after.phase is Over && refuses(
                action,
                false,
                "启动安装器失败: "@ + e@,
            ),
        }
    }

    /// Ends the installation with a message.
    fn refuse(&mut self, discard: bool, message: String) -> (r: AppInstallAction)
        ensures
            final(self).phase is Over,
            final(self).version == old(self).version,
            refuses(r, discard, message@),
    {
        self.phase = InstallPhase::Over;
        AppInstallAction::Finish { discard, result: Err(message) }
    }

    /// Asks for the signature file.
    fn fetch_signature(&mut self, place: Place) -> (r: AppInstallAction)
        ensures
            final(self).phase == InstallPhase::Signature(place),
            final(self).version == old(self).version,
            fetches(r, place, old(self).version@, signature_name(old(self).version@)),
    {
        self.phase = InstallPhase::Signature(place);
        let file = signature_file(self.version.as_str());
        AppInstallAction::Fetch {
            url: release_file_url(place, self.version.as_str(), file.as_str()),
            file,
        }
    }

    /// Asks for the installer.
    fn fetch_installer(&mut self, place: Place, last: bool) -> (r: AppInstallAction)
        ensures
            final(self).phase == (InstallPhase::Installer { place, last }),
            final(self).version == old(self).version,
            fetches(r, place, old(self).version@, installer_name(old(self).version@)),
    {
        self.phase = InstallPhase::Installer { place, last };
        let file = installer_file(self.version.as_str());
        AppInstallAction::Fetch {
            url: release_file_url(place, self.version.as_str(), file.as_str()),
            file,
        }
    }

    /// Goes on after a file was fetched, or was not.
    fn take_fetched(&mut self, ok: bool) -> (r: AppInstallAction)
        requires
            old(self).phase is Signature || old(self).phase is Installer,
        ensures
            final(self).version == old(self).version,
            old(self).fetched(ok, final(self).phase, r),
    {
        match self.phase {
            InstallPhase::Signature(place) => if ok {
                self.fetch_installer(place, false)
            } else {
                match place {
                    Place::Gitee => self.fetch_signature(Place::GitHub),
                    Place::GitHub => self.refuse(
                        false,
                        "下载签名文件失败（GitHub/Gitee 均不可达）".to_owned(),
                    ),
                }
            },
            InstallPhase::Installer { place, last } => if ok {
                self.phase = InstallPhase::Files;
                AppInstallAction::ReadFiles
            } else if !last {
                let other = match place {
                    Place::Gitee => Place::GitHub,
                    Place::GitHub => Place::Gitee,
                };
                self.fetch_installer(other, true)
            } else {
                self.refuse(
                    false,
                    "下载安装包失败（GitHub/Gitee 均不可达）".to_owned(),
                )
            },
            _ => AppInstallAction::ReadFiles,
        }
    }

    /// Takes the next step, apart from the lock.
    fn next(&mut self, dog: &mut Watchdog, event: AppInstallEvent) -> (r: AppInstallAction)
        requires
            old(self).expects(event),
        ensures
            old(self).moves(old(dog)@, event, *final(self), final(dog)@, r),
            old(dog)@.well_formed() ==> final(dog)@.well_formed(),
    {
        match event {
            AppInstallEvent::Folder(made) => match made {
                Ok(_) => self.fetch_signature(Place::Gitee),
                Err(e) => self.refuse(false, text::glue("创建临时目录失败: ", e.as_str())),
            },
            AppInstallEvent::Fetched(ok) => self.take_fetched(ok),
            AppInstallEvent::Files { configs, signature, installer } => {
                let key = signature::updater_public_key(&configs);
                match signature::verify_installer_signature(key.as_str(), &signature, &installer) {
                    Ok(_) => {
                        dog.kill_dsh_intentionally();
                        self.phase = InstallPhase::Run;
                        AppInstallAction::KillAndRun { file: installer_file(self.version.as_str()) }
                    },
                    Err(e) => self.refuse(true, e),
                }
            },
            AppInstallEvent::Started(started) => match started {
                Ok(_) => {
                    self.phase = InstallPhase::Over;
                    AppInstallAction::Finish { discard: false, result: Ok(()) }
                },
                Err(e) => self.refuse(false, text::glue("启动安装器失败: ", e.as_str())),
            },
        }
    }

    /// Takes the next step of an installation: the signature file is fetched from
    /// the first place that has it, and the installer from the same place, or
    /// from the other one where that has none; the installer is run only when its signature is that of the publisher, and
    /// the files are removed where it is not. The lock is given back at the end.
    pub fn install_app_version(
        &mut self,
        lock: &mut UpdateLock,
        dog: &mut Watchdog,
        event: AppInstallEvent,
    ) -> (r: AppInstallAction)
        requires
            old(self).expects(event),
        ensures
            old(self).moves(old(dog)@, event, *final(self), final(dog)@, r),
            final(lock).updating == (old(lock).updating && !(r is Finish)),
            old(dog)@.well_formed() ==> final(dog)@.well_formed(),
    {
        let r = self.next(dog, event);
        if let AppInstallAction::Finish { .. } = r {
            lock.updating = false;
        }
        r
    }
}

/// How far an installation has come.
pub open spec fn install_progress(phase: InstallPhase) -> nat {
    match phase {
        InstallPhase::Folder => 0,
        InstallPhase::Signature(Place::Gitee) => 1,
        InstallPhase::Signature(Place::GitHub) => 2,
        InstallPhase::Installer { last: false, .. } => 3,
        InstallPhase::Installer { last: true, .. } => 4,
        InstallPhase::Files => 5,
        InstallPhase::Run => 6,
        InstallPhase::Over => 7,
    }
}

/// No installer is run, and dsh is not killed, unless the installer that was
/// read bears a signature of the publisher.
pub proof fn lemma_only_signed_installers_run(
    before: AppInstall,
    dog: WatchdogState,
    event: AppInstallEvent,
    after: AppInstall,
    dog_after: WatchdogState,
    action: AppInstallAction,
)
    requires
        before.expects(event),
        before.moves(dog, event, after, dog_after, action),
        action is KillAndRun || after.phase is Run || dog_after != dog,
    ensures
        before.phase is Files,
        event matches AppInstallEvent::Files { configs, signature, installer } && files_fault(
            configs,
            signature,
            installer,
        ) is None,
{
}

/// Every step of an installation brings it nearer to its end, so that it ends
/// after seven steps at most.
pub proof fn lemma_install_ends(
    before: AppInstall,
    dog: WatchdogState,
    event: AppInstallEvent,
    after: AppInstall,
    dog_after: WatchdogState,
    action: AppInstallAction,
)
    requires
        before.expects(event),
        before.moves(dog, event, after, dog_after, action),
    ensures
        install_progress(before.phase) < install_progress(after.phase) <= 7,
        action is Finish <==> after.phase is Over,
{
}

// Laws on repositories.

/// What stands behind the last occurrence: the text itself where there is none;
/// otherwise the needle stands right before it, and in it no longer.
pub proof fn lemma_behind_the_last(s: Seq<char>, needle: Seq<char>)
    requires
        needle.len() > 0,
    ensures
        text::find(behind_last(s, needle), needle) is None,
        text::find(s, needle) is None ==> behind_last(s, needle) == s,
        behind_last(s, needle).len() <= s.len(),
        s.skip(s.len() - behind_last(s, needle).len()) == behind_last(s, needle),
        text::find(s, needle) is Some ==> text::stands_at(
            s,
            needle,
            s.len() - behind_last(s, needle).len() - needle.len(),
        ),
    decreases s.len(),
{
    text::lemma_find_is_first(s, needle);
    if let Some(at) = text::find(s, needle) {
        let rest = s.skip(at + needle.len());
        lemma_behind_the_last(rest, needle);
        let r = behind_last(s, needle);
        assert(rest.skip(rest.len() - r.len()) =~= s.skip(s.len() - r.len()));
        if text::find(rest, needle) is Some {
            let k = rest.len() - r.len() - needle.len();
            assert(rest.subrange(k, k + needle.len()) =~= s.subrange(
                k + at + needle.len(),
                k + at + needle.len() + needle.len(),
            ));
        }
    } else {
        assert(s.skip(0) =~= s);
    }
}

proof fn lemma_filled_parts(a: Seq<Seq<char>>, x: Seq<char>, y: Seq<char>)
    requires
        x.len() > 0 && y.len() > 0,
    ensures
        filled(a + seq![x, y]) == filled(a) + seq![x, y],
{
    let all = a + seq![x, y];
    reveal_with_fuel(filled, 3);
    assert(all.drop_last().drop_last() =~= a);
    assert(filled(all) =~= filled(a) + seq![x, y]);
}

/// The last two steps of a path are found, whatever stands before them.
proof fn lemma_steps_of_a_path(before: Seq<char>, owner: Seq<char>, name: Seq<char>)
    requires
        owner.len() > 0 && name.len() > 0,
        !owner.contains('/') && !name.contains('/'),
    ensures
        ({
            let steps = filled(
                text::split(before + seq!['/'] + owner + seq!['/'] + name, '/'),
            );
            steps.len() >= 2 && steps[steps.len() - 2] == owner && steps[steps.len() - 1] == name
        }),
{
    let a = text::split(before, '/');
    text::lemma_join_undoes_split(before, '/');
    let all = a + seq![owner, name];
    let sep = seq!['/'];
    assert forall|i: int| 0 <= i < all.len() implies !(#[trigger] all[i]).contains('/') by {
        if i < a.len() {
            assert(all[i] == a[i]);
        }
    }
    text::lemma_split_undoes_join(all, '/');
    assert(all.drop_last() =~= a.push(owner));
    assert(a.push(owner).drop_last() =~= a);
    assert(text::joined(a.push(owner), sep) == before + sep + owner);
    assert(text::joined(all, sep) == before + sep + owner + sep + name);
    lemma_filled_parts(a, owner, name);
}

/// The address of a repository with a protocol gives the last two steps of its
/// path as owner and name, whatever host and steps stand before them, and with the
/// suffix `.git` as without it.
pub proof fn lemma_address_with_a_protocol(
    scheme: Seq<char>,
    before: Seq<char>,
    owner: Seq<char>,
    name: Seq<char>,
)
    requires
        !scheme.contains(':') && !before.contains(':'),
        owner.len() > 0 && !owner.contains('/') && !owner.contains(':'),
        name.len() > 0 && !name.contains('/') && !name.contains(':'),
        name.len() >= 4 ==> name.skip(name.len() - 4) != ".git"@,
    ensures
        repository(scheme + "://"@ + (before + seq!['/'] + owner + seq!['/'] + name)) == Some(
            (owner, name),
        ),
        repository(
            scheme + "://"@ + (before + seq!['/'] + owner + seq!['/'] + name + ".git"@),
        ) == Some((owner, name)),
{
    reveal_strlit("://");
    reveal_strlit(":");
    reveal_strlit(".git");
    let path = before + seq!['/'] + owner + seq!['/'] + name;
    lemma_path_has_no_colon(before, owner, name);
    let long = path + ".git"@;
    assert(!long.contains(':')) by {
        if long.contains(':') {
            let k = choose|k: int| 0 <= k < long.len() && long[k] == ':';
            if k < path.len() {
                assert(path.contains(path[k]));
            } else {
                assert(long[k] == ".git"@[k - path.len()]);
            }
        }
    }
    lemma_behind_the_protocol(scheme, path);
    lemma_behind_the_protocol(scheme, long);
    lemma_suffix_of_a_path(before, owner, name);
    text::lemma_not_found(path, ":"@);
    lemma_steps_of_a_path(before, owner, name);
}

proof fn lemma_path_has_no_colon(before: Seq<char>, owner: Seq<char>, name: Seq<char>)
    requires
        !before.contains(':') && !owner.contains(':') && !name.contains(':'),
    ensures
        !(before + seq!['/'] + owner + seq!['/'] + name).contains(':'),
{
    let path = before + seq!['/'] + owner + seq!['/'] + name;
    if path.contains(':') {
        let k = choose|k: int| 0 <= k < path.len() && path[k] == ':';
        let b = before.len() as int;
        if k < b {
            assert(before.contains(before[k]));
        } else if b < k < b + 1 + owner.len() {
            assert(owner.contains(owner[k - b - 1]));
        } else if k > b + 1 + owner.len() {
            assert(name.contains(name[k - b - 2 - owner.len()]));
        }
    }
}

proof fn lemma_behind_the_protocol(scheme: Seq<char>, rest: Seq<char>)
    requires
        !scheme.contains(':') && !rest.contains(':'),
    ensures
        behind_last(scheme + "://"@ + rest, "://"@) == rest,
{
    reveal_strlit("://");
    let whole = scheme + "://"@ + rest;
    assert forall|j: int| 0 <= j < scheme.len() implies !#[trigger] text::stands_at(
        whole,
        "://"@,
        j,
    ) by {
        if text::stands_at(whole, "://"@, j) {
            assert(whole.subrange(j, j + 3)[0] == whole[j]);
            assert(whole[j] == scheme[j]);
            assert(scheme.contains(scheme[j]));
        }
    }
    lemma_behind_only(scheme, "://"@, rest);
}

proof fn lemma_suffix_of_a_path(before: Seq<char>, owner: Seq<char>, name: Seq<char>)
    requires
        name.len() > 0 && !name.contains('/'),
        name.len() >= 4 ==> name.skip(name.len() - 4) != ".git"@,
    ensures
        ({
            let path = before + seq!['/'] + owner + seq!['/'] + name;
            &&& text::without_suffix(path + ".git"@, ".git"@) == path
            &&& text::without_suffix(path, ".git"@) == path
        }),
{
    reveal_strlit(".git");
    let path = before + seq!['/'] + owner + seq!['/'] + name;
    let long = path + ".git"@;
    assert(long.subrange(long.len() - 4, long.len() as int) =~= ".git"@);
    assert(long.take(long.len() - 4) =~= path);
    let n = path.len() as int;
    if n >= 4 && path.subrange(n - 4, n) == ".git"@ {
        if name.len() >= 4 {
            assert(path.subrange(n - 4, n) =~= name.skip(name.len() - 4));
        } else {
            // The slash before the name is among the last four characters.
            let k = 3 - name.len();
            assert(path.subrange(n - 4, n)[k] == path[n - 4 + k]);
            assert(path[n - 4 + k] == '/');
            assert(k == 0 || k == 1 || k == 2);
        }
    }
}

/// The address of a repository with a colon behind the host gives the last two
/// steps of its path as owner and name, whatever user and host stand before it.
pub proof fn lemma_address_with_a_colon(
    host: Seq<char>,
    owner: Seq<char>,
    name: Seq<char>,
)
    requires
        !host.contains(':'),
        owner.len() > 0 && !owner.contains('/') && !owner.contains(':'),
        name.len() > 0 && !name.contains('/') && !name.contains(':'),
        name.len() >= 4 ==> name.skip(name.len() - 4) != ".git"@,
    ensures
        repository(host + seq![':'] + (owner + seq!['/'] + name)) == Some((owner, name)),
        repository(host + seq![':'] + (owner + seq!['/'] + name + ".git"@)) == Some((owner, name)),
{
    reveal_strlit("://");
    reveal_strlit(":");
    reveal_strlit(".git");
    let path = owner + seq!['/'] + name;
    assert(!path.contains(':')) by {
        if path.contains(':') {
            let k = choose|k: int| 0 <= k < path.len() && path[k] == ':';
            if k < owner.len() {
                assert(owner.contains(owner[k]));
            } else if k > owner.len() {
                assert(name.contains(name[k - owner.len() - 1]));
            }
        }
    }
    let bare = host + seq![':'] + path;
    let long = host + seq![':'] + (path + ".git"@);
    assert((path + ".git"@)[0] == owner[0]);
    assert(path[0] == owner[0] && owner.contains(owner[0]));
    assert(!(path + ".git"@).contains(':')) by {
        let t = path + ".git"@;
        if t.contains(':') {
            let k = choose|k: int| 0 <= k < t.len() && t[k] == ':';
            if k < path.len() {
                assert(path.contains(path[k]));
            } else {
                assert(t[k] == ".git"@[k - path.len()]);
            }
        }
    }
    lemma_no_protocol(host, path);
    lemma_no_protocol(host, path + ".git"@);
    // The suffix.
    assert(long.subrange(long.len() - 4, long.len() as int) =~= ".git"@);
    assert(long.take(long.len() - 4) =~= bare);
    let n = bare.len() as int;
    assert(text::without_suffix(bare, ".git"@) == bare) by {
        if n >= 4 && bare.subrange(n - 4, n) == ".git"@ {
            if name.len() >= 4 {
                assert(bare.subrange(n - 4, n) =~= name.skip(name.len() - 4));
            } else {
                let k = 3 - name.len();
                assert(bare.subrange(n - 4, n)[k] == bare[n - 4 + k]);
                assert(bare[n - 4 + k] == '/');
                assert(k == 0 || k == 1 || k == 2);
            }
        }
    }
    // The host.
    assert(":"@ =~= seq![':']);
    assert forall|j: int| 0 <= j < host.len() implies !#[trigger] text::stands_at(
        host + ":"@ + path,
        ":"@,
        j,
    ) by {
        let w = host + ":"@ + path;
        if text::stands_at(w, ":"@, j) {
            assert(w.subrange(j, j + 1)[0] == w[j]);
            assert(w[j] == host[j]);
            assert(host.contains(host[j]));
        }
    }
    lemma_behind_only(host, ":"@, path);
    lemma_last_steps(None, owner, name);
}

proof fn lemma_no_protocol(host: Seq<char>, rest: Seq<char>)
    requires
        !host.contains(':') && !rest.contains(':'),
        rest.len() > 0 && rest[0] != '/',
    ensures
        behind_last(host + seq![':'] + rest, "://"@) == host + seq![':'] + rest,
{
    reveal_strlit("://");
    let s = host + seq![':'] + rest;
    text::lemma_find_is_first(s, "://"@);
    if text::find(s, "://"@) is Some {
        let at = text::find(s, "://"@)->0;
        let cut = s.subrange(at, at + 3);
        assert(cut[0] == s[at] && cut[1] == s[at + 1]);
        assert("://"@[0] == ':' && "://"@[1] == '/');
        if at < host.len() {
            assert(host.contains(host[at]));
        } else if at == host.len() {
            assert(s[at + 1] == rest[0]);
        } else {
            assert(rest.contains(rest[at - host.len() - 1]));
        }
    }
}

/// An address without two steps names no repository.
pub proof fn lemma_one_step_is_no_repository(step: Seq<char>)
    requires
        !step.contains('/') && !step.contains(':'),
    ensures
        repository(step) is None,
{
    reveal_strlit("://");
    reveal_strlit(":");
    text::lemma_not_found(step, "://"@);
    let bare = text::without_suffix(step, ".git"@);
    assert forall|c: char| bare.contains(c) implies step.contains(c) by {
        let k = choose|k: int| 0 <= k < bare.len() && bare[k] == c;
        assert(step[k] == c);
    }
    text::lemma_not_found(bare, ":"@);
    text::lemma_split_first(bare, '/', seq![]);
    assert(seq![bare].drop_last() =~= Seq::<Seq<char>>::empty());
    reveal_with_fuel(filled, 2);
    assert(filled(seq![bare]).len() <= 1);
}

/// The repository of the shell is that of the remote for GitHub wherever that
/// remote is known, and that of the one for Gitee otherwise.
pub proof fn lemma_repository_of_the_shell(
    github: Result<String, String>,
    gitee: Result<String, String>,
    r: Result<(String, String), String>,
)
    requires
        call_ensures(github_repo, (github, gitee), r),
    ensures
        ({
            let url = if github is Ok {
                github
            } else {
                gitee
            };
            &&& url is Err ==> r is Err && r->Err_0@ == url->Err_0@
            &&& url is Ok && repository(url->Ok_0@) is Some ==> r is Ok && r->Ok_0.0@
                == (repository(url->Ok_0@)->0).0 && r->Ok_0.1@ == (repository(url->Ok_0@)->0).1
            &&& url is Ok && repository(url->Ok_0@) is None ==> r is Err && r->Err_0@
                == "无法解析 remote: "@ + url->Ok_0@
        }),
{
}

/// What git gives for a remote: its address without the white space round it, or
/// the reason why there is none.
pub proof fn lemma_address_of_a_remote(
    name: &str,
    out: Result<(bool, String), String>,
    r: Result<String, String>,
    before: Seq<char>,
    core: Seq<char>,
    after: Seq<char>,
)
    requires
        call_ensures(read_address, (name, out), r),
        forall|i: int| 0 <= i < before.len() ==> text::is_space(#[trigger] before[i]),
        forall|i: int| 0 <= i < after.len() ==> text::is_space(#[trigger] after[i]),
        core.len() > 0 ==> !text::is_space(core[0]) && !text::is_space(core.last()),
        out is Ok ==> out->Ok_0.1@ == before + core + after,
    ensures
        r is Ok <==> out is Ok && out->Ok_0.0,
        r is Ok ==> r->Ok_0@ == core,
        out is Err ==> r->Err_0@ == "git 不可用: "@ + out->Err_0@,
        out is Ok && !out->Ok_0.0 ==> r->Err_0@ == "无 remote `"@ + name@ + "`"@,
{
    text::lemma_trimming_takes_the_ends_only(before, core, after);
}

/// Where the releases are listed.
pub proof fn lemma_releases_on_github(repo: Result<(String, String), String>, r: String)
    requires
        call_ensures(github_releases, (repo,), r),
    ensures
        repo is Ok ==> r@ == "https://api.github.com/repos/"@ + repo->Ok_0.0@ + "/"@
            + repo->Ok_0.1@ + "/releases?per_page=60"@,
        repo is Err ==> r@ == "https://api.github.com/repos/"@ + "EternalNight996"@ + "/"@
            + "dsh-desktop"@ + "/releases?per_page=60"@,
{
}

// Laws on the list of releases.

/// Three runs of digits, parted by full stops, are a version, with any pre-release
/// part and build metadata behind them.
pub proof fn lemma_every_release_number_is_a_version(
    a: Seq<char>,
    b: Seq<char>,
    c: Seq<char>,
    p: Seq<char>,
)
    requires
        text::all_digits(a) && text::all_digits(b) && text::all_digits(c),
        version::is_suffix(p),
    ensures
        is_version(a + seq!['.'] + b + seq!['.'] + c + p),
{
    let pieces = seq![a, b, c];
    let core = a + seq!['.'] + b + seq!['.'] + c;
    lemma_digits_hold_no_other(a);
    lemma_digits_hold_no_other(b);
    lemma_digits_hold_no_other(c);
    assert forall|i: int| 0 <= i < pieces.len() implies !(#[trigger] pieces[i]).contains('.')
        && !pieces[i].contains('-') && !pieces[i].contains('+') by {}
    reveal_with_fuel(text::joined, 4);
    assert(pieces.drop_last().drop_last() =~= seq![a]);
    assert(text::joined(pieces, seq!['.']) =~= core);
    version::lemma_joined_without(pieces, '.', '-');
    version::lemma_joined_without(pieces, '.', '+');
    version::lemma_suffix_is_cut(core, p);
    text::lemma_split_undoes_join(pieces, '.');
}

proof fn lemma_digits_hold_no_other(s: Seq<char>)
    requires
        text::all_digits(s),
    ensures
        !s.contains('.') && !s.contains('-') && !s.contains('+') && !s.contains('v'),
{
    assert forall|c: char| s.contains(c) implies text::is_digit(c) by {
        let k = choose|k: int| 0 <= k < s.len() && s[k] == c;
        assert(text::is_digit(s[k]));
    }
}

/// A version is three runs of digits, parted by full stops, and nothing behind them
/// but a pre-release part or build metadata.
pub proof fn lemma_what_a_version_is(v: Seq<char>)
    requires
        is_version(v),
    ensures
        exists|a: Seq<char>, b: Seq<char>, c: Seq<char>, p: Seq<char>| #[trigger]
            ((a + seq!['.'] + b + seq!['.'] + c) + p) == v && text::all_digits(a)
                && text::all_digits(b) && text::all_digits(c) && version::is_suffix(p),
{
    let ranked = version::ranked_part(v);
    let core = version::release_part(ranked);
    let parts = text::split(core, '.');
    text::lemma_join_undoes_split(core, '.');
    text::lemma_position_is_first(v, '+');
    text::lemma_position_is_first(ranked, '-');
    let (a, b, c) = (parts[0], parts[1], parts[2]);
    reveal_with_fuel(text::joined, 4);
    assert(parts.drop_last().drop_last() =~= seq![a]);
    assert(core =~= a + seq!['.'] + b + seq!['.'] + c);
    let p = v.skip(core.len() as int);
    assert(((a + seq!['.'] + b + seq!['.'] + c) + p) =~= v);
    if p.len() > 0 {
        assert(p[0] == v[core.len() as int]);
        if core.len() < ranked.len() {
            assert(ranked[core.len() as int] == '-');
        }
    }
}

/// The version of a release is its tag without a leading `v`, where that is a
/// version; the tag is the text under `tag_name`, and the one under `name` only
/// where there is no `tag_name`.
pub proof fn lemma_version_of_a_release(t: JsonTree, tag: Seq<char>, v: Seq<char>)
    requires
        json::member(t, "tag_name"@) == Some(JsonTree::Text(tag)) || (json::member(
            t,
            "tag_name"@,
        ) is None && json::member(t, "name"@) == Some(JsonTree::Text(tag))),
    ensures
        tag == seq!['v'] + v && is_version(v) ==> release_version(t) == Some(v),
        tag == v && is_version(v) ==> release_version(t) == Some(v),
        release_version(t) == Some(v) ==> is_version(v) && (tag == v || tag == seq!['v'] + v),
{
    reveal_strlit("v");
    assert("v"@ =~= seq!['v']);
    let with = seq!['v'] + v;
    assert(with.subrange(0, 1) =~= seq!['v']);
    assert(with.skip(1) =~= v);
    if tag == v && is_version(v) {
        lemma_versions_start_with_a_digit(v);
        assert(v.subrange(0, 1)[0] == v[0]);
    }
    if text::has_prefix(tag, "v"@) {
        assert(tag =~= tag.subrange(0, 1) + tag.skip(1));
    }
}

proof fn lemma_versions_start_with_a_digit(v: Seq<char>)
    requires
        is_version(v),
    ensures
        v.len() > 0 && text::is_digit(v[0]),
{
    lemma_what_a_version_is(v);
    let (a, b, c, p) = choose|a: Seq<char>, b: Seq<char>, c: Seq<char>, p: Seq<char>| #[trigger]
        ((a + seq!['.'] + b + seq!['.'] + c) + p) == v && text::all_digits(a) && text::all_digits(b)
            && text::all_digits(c) && version::is_suffix(p);
    assert(v[0] == a[0]);
}

/// The versions that are listed are those of all releases that have one, in their
/// order.
pub proof fn lemma_all_versions_are_listed(items: Seq<JsonTree>, more: Seq<JsonTree>, k: int)
    requires
        0 <= k < items.len(),
    ensures
        release_versions(items + more) == release_versions(items) + release_versions(more),
        release_version(items[k]) matches Some(v) ==> release_versions(items).contains(v),
        release_version(items[k]) matches Some(v) ==> release_versions(seq![items[k]]) == seq![v],
        release_version(items[k]) is None ==> release_versions(seq![items[k]]).len() == 0,
        release_versions(items).len() <= items.len(),
{
    lemma_versions_of_parts(items, more);
    let (a, b) = (items.take(k), items.skip(k + 1));
    assert(items =~= a + (seq![items[k]] + b));
    lemma_versions_of_parts(a, seq![items[k]] + b);
    lemma_versions_of_parts(seq![items[k]], b);
    assert(seq![items[k]].drop_last() =~= Seq::<JsonTree>::empty());
    reveal_with_fuel(release_versions, 2);
    if let Some(v) = release_version(items[k]) {
        assert(release_versions(seq![items[k]]) =~= seq![v]);
        assert(release_versions(items)[release_versions(a).len() as int] == v);
    }
    lemma_no_more_versions_than_releases(items);
}

proof fn lemma_no_more_versions_than_releases(items: Seq<JsonTree>)
    ensures
        release_versions(items).len() <= items.len(),
    decreases items.len(),
{
    if items.len() > 0 {
        lemma_no_more_versions_than_releases(items.drop_last());
    }
}

proof fn lemma_versions_of_parts(a: Seq<JsonTree>, b: Seq<JsonTree>)
    ensures
        release_versions(a + b) == release_versions(a) + release_versions(b),
    decreases b.len(),
{
    if b.len() > 0 {
        lemma_versions_of_parts(a, b.drop_last());
        assert((a + b).drop_last() =~= a + b.drop_last());
        assert((a + b).last() == b.last());
        assert(release_versions(a + b) =~= release_versions(a) + release_versions(b));
    } else {
        assert(a + b =~= a);
        assert(release_versions(a + b) =~= release_versions(a) + release_versions(b));
    }
}

/// The list is made of what the first place gave, wherever that is a list, and of
/// what the second one gave otherwise; it fails only where neither gave a list.
pub proof fn lemma_place_of_the_list(
    current: &str,
    first: Option<String>,
    second: Option<String>,
    r: Result<Vec<VersionEntry>, String>,
    again: bool,
)
    requires
        call_ensures(list_app_versions, (current, first, second), r),
        call_ensures(needs_second_place, (&first,), again),
    ensures
        ({
            let lists = |body: Option<String>|
                body is Some && json::json_text(body->0@) is Ok && json::json_text(
                    body->0@,
                )->Ok_0 is Array;
            let chosen = if lists(first) {
                first
            } else {
                second
            };
            &&& again <==> !lists(first)
            &&& r is Ok <==> lists(first) || lists(second)
            &&& r is Ok ==> catalog::entries(r->Ok_0@) == catalog::listing(
                release_versions(json::json_text(chosen->0@)->Ok_0->Array_0),
                current@,
                None,
                None,
            )
        }),
{
}

// Laws on the installation of a release.

/// The files of a release, and where they are: the installer and, with `.sig`
/// behind its name, its signature, under the tag of the version, which has one `v`
/// in front of it.
pub proof fn lemma_files_of_a_release(
    version: &str,
    installer: String,
    signature: String,
    file: &str,
    gitee: String,
    github: String,
)
    requires
        call_ensures(installer_file, (version,), installer),
        call_ensures(signature_file, (version,), signature),
        call_ensures(release_file_url, (Place::Gitee, version, file), gitee),
        call_ensures(release_file_url, (Place::GitHub, version, file), github),
    ensures
        installer@ == "dsh-desktop_"@ + version@ + "_x64-setup.exe"@,
        signature@ == installer@ + ".sig"@,
        ({
            let tag = if version@.len() > 0 && version@[0] == 'v' {
                version@
            } else {
                seq!['v'] + version@
            };
            &&& gitee@ == "https://gitee.com/eternalnight996/dsh-desktop/releases/download/"@
                + tag + "/"@ + file@
            &&& github@ == "https://github.com/EternalNight996/dsh-desktop/releases/download/"@
                + tag + "/"@ + file@
        }),
{
    reveal_strlit("v");
    assert("v"@ =~= seq!['v']);
    if version@.len() > 0 {
        assert(version@.subrange(0, 1)[0] == version@[0]);
        if version@[0] == 'v' {
            assert(version@.subrange(0, 1) =~= seq!['v']);
        }
    }
}

/// What an installation asks for on each event: the signature file first, from
/// Gitee and then from GitHub; the installer from the place that gave the signature
/// file, and then from the other one; then the files are read. A file that neither
/// place has ends the installation. The files are those of the version that is to be
/// installed.
pub proof fn lemma_what_an_installation_asks_for(
    before: AppInstall,
    dog: WatchdogState,
    event: AppInstallEvent,
    after: AppInstall,
    dog_after: WatchdogState,
    action: AppInstallAction,
)
    requires
        before.expects(event),
        before.moves(dog, event, after, dog_after, action),
    ensures
        after.version@ == before.version@,
        ({
            let installer = "dsh-desktop_"@ + before.version@ + "_x64-setup.exe"@;
            let signature = installer + ".sig"@;
            &&& (event matches AppInstallEvent::Folder(Ok(_))) ==> fetches(
                action,
                Place::Gitee,
                before.version@,
                signature,
            ) && after.phase == InstallPhase::Signature(Place::Gitee)
            &&& event == AppInstallEvent::Fetched(false) && before.phase
                == InstallPhase::Signature(Place::Gitee) ==> fetches(
                action,
                Place::GitHub,
                before.version@,
                signature,
            ) && after.phase == InstallPhase::Signature(Place::GitHub)
            &&& event == AppInstallEvent::Fetched(true) && before.phase is Signature ==> fetches(
                action,
                before.phase->Signature_0,
                before.version@,
                installer,
            )
            &&& event == AppInstallEvent::Fetched(false) && before.phase
                == (InstallPhase::Installer { place: Place::Gitee, last: false }) ==> fetches(
                action,
                Place::GitHub,
                before.version@,
                installer,
            )
            &&& event == AppInstallEvent::Fetched(false) && before.phase
                == (InstallPhase::Installer { place: Place::GitHub, last: false }) ==> fetches(
                action,
                Place::Gitee,
                before.version@,
                installer,
            )
            &&& action matches AppInstallAction::KillAndRun { file } ==> file@ == installer
            &&& action matches AppInstallAction::Fetch { file, .. } ==> file@ == installer
                || file@ == signature
        }),
        action is ReadFiles <==> event == AppInstallEvent::Fetched(true)
            && before.phase is Installer,
        action is KillAndRun <==> (event matches AppInstallEvent::Files {
            configs,
            signature,
            installer,
        } && files_fault(configs, signature, installer) is None),
        action is KillAndRun ==> dog_after.generation != dog.generation,
        !(action is KillAndRun) ==> dog_after == dog,
        (action matches AppInstallAction::Finish { result: Ok(_), .. }) <==> (
        event matches AppInstallEvent::Started(Ok(_))),
        action matches AppInstallAction::Finish { discard, .. } ==> (discard
            <==> event is Files),
        (event is Files && action is Finish) ==> action->result is Err && Some(
            action->result->Err_0@,
        ) == files_fault(event->configs, event->signature, event->installer),
        event == AppInstallEvent::Fetched(false) && before.phase
            == InstallPhase::Signature(Place::GitHub) ==> action is Finish,
        event == AppInstallEvent::Fetched(false) && (before.phase matches InstallPhase::Installer {
            last: true,
            ..
        }) ==> action is Finish,
{
}

/// The lock is held as long as an installation goes on, and given back at its end;
/// the installation is of the version that was asked for.
pub proof fn lemma_installation_holds_the_lock(
    begun: &mut UpdateLock,
    version: String,
    r: (AppInstall, AppInstallAction),
    install: &mut AppInstall,
    lock: &mut UpdateLock,
    dog: &mut Watchdog,
    event: AppInstallEvent,
    action: AppInstallAction,
)
    requires
        call_ensures(AppInstall::begin, (begun, version), r),
        call_ensures(AppInstall::install_app_version, (install, lock, dog, event), action),
        old(lock).updating,
    ensures
        final(begun).updating && r.0.version@ == version@ && r.1 is MakeFolder,
        final(lock).updating <==> !(action is Finish),
{
}

/// Whatever an installation asks for, it takes any answer to it; and it takes an
/// answer to nothing else.
pub proof fn lemma_installation_takes_every_answer(
    before: AppInstall,
    dog: WatchdogState,
    event: AppInstallEvent,
    after: AppInstall,
    dog_after: WatchdogState,
    action: AppInstallAction,
    answer: AppInstallEvent,
)
    requires
        before.expects(event),
        before.moves(dog, event, after, dog_after, action),
    ensures
        after.expects(answer) <==> match action {
            AppInstallAction::MakeFolder => answer is Folder,
            AppInstallAction::Fetch { .. } => answer is Fetched,
            AppInstallAction::ReadFiles => answer is Files,
            AppInstallAction::KillAndRun { .. } => answer is Started,
            AppInstallAction::Finish { .. } => false,
        },
{
}

/// The installer is run exactly where it is sound: where its signature file holds,
/// in base64, a signature of it under the public key that the configurations give.
pub proof fn lemma_sound_installers_are_run(
    before: AppInstall,
    dog: WatchdogState,
    configs: Vec<Option<String>>,
    signature: Result<String, String>,
    installer: Result<Vec<u8>, String>,
    after: AppInstall,
    dog_after: WatchdogState,
    action: AppInstallAction,
    key: String,
)
    requires
        before.phase is Files,
        before.moves(
            dog,
            AppInstallEvent::Files { configs, signature, installer },
            after,
            dog_after,
            action,
        ),
        call_ensures(signature::updater_public_key, (&configs,), key),
    ensures
        action is KillAndRun <==> {
            let k = signature::base64_bytes(text::trimmed(key@));
            let s = signature::base64_bytes(text::trimmed(signature->Ok_0@));
            &&& k is Ok && utf8::valid_utf8(k->Ok_0)
            &&& signature::key_error(utf8::decode_utf8(k->Ok_0)) is None
            &&& signature is Ok && s is Ok && utf8::valid_utf8(s->Ok_0)
            &&& signature::signature_error(utf8::decode_utf8(s->Ok_0)) is None
            &&& installer is Ok
            &&& signature::verify_error(
                utf8::decode_utf8(k->Ok_0),
                utf8::decode_utf8(s->Ok_0),
                installer->Ok_0@,
            ) is None
        },
        !(action is KillAndRun) ==> (action matches AppInstallAction::Finish { discard, result }
            && discard && result is Err),
{
}

/// A call takes one step of an installation; an address gives the repository, and
/// releases give the versions, that the laws speak of.
pub proof fn lemma_calls(
    install: &mut AppInstall,
    lock: &mut UpdateLock,
    dog: &mut Watchdog,
    event: AppInstallEvent,
    action: AppInstallAction,
    url: &str,
    pair: Option<(String, String)>,
    items: &Vec<Json>,
    versions: Vec<String>,
)
    requires
        call_ensures(AppInstall::install_app_version, (install, lock, dog, event), action),
        call_ensures(regex_lite_url_parse, (url,), pair),
        call_ensures(read_versions, (items,), versions),
    ensures
        old(install).moves(old(dog)@, event, *final(install), final(dog)@, action),
        pair is Some <==> repository(url@) is Some,
        pair matches Some((owner, name)) ==> repository(url@) == Some((owner@, name@)),
        text::texts(versions@) == release_versions(json::trees(items@)),
{
}

} // verus!
