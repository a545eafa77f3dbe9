//! The versions of dsh on npm, and updates of dsh.
use vstd::prelude::*;

use crate::catalog::{self, VersionEntry};
use crate::json::{self, Json, JsonTree};
use crate::plugin;
use crate::shell::{UpdateLock, UpdatingGuard};
use crate::text;
use crate::version;
use crate::watchdog::{Watchdog, WatchdogState};

verus! {

// What npm knows.

/// The versions of dsh that npm knows.
pub struct NpmVersionSnapshot {
    /// The version with the tag `latest`.
    pub stable: Option<String>,
    /// The version with the tag `alpha`.
    pub prerelease: Option<String>,
    /// All versions.
    pub versions: Vec<String>,
}

/// What a snapshot holds.
#[verifier::ext_equal]
pub struct Snapshot {
    pub stable: Option<Seq<char>>,
    pub prerelease: Option<Seq<char>>,
    pub versions: Seq<Seq<char>>,
}

impl View for NpmVersionSnapshot {
    type V = Snapshot;

    open spec fn view(&self) -> Snapshot {
        Snapshot {
            stable: text::maybe_owned(self.stable),
            prerelease: text::maybe_owned(self.prerelease),
            versions: text::texts(self.versions@),
        }
    }
}

/// The version with the given tag.
pub open spec fn tagged(t: JsonTree, tag: Seq<char>) -> Option<Seq<char>> {
    match json::member(t, "dist-tags"@) {
        Some(tags) => json::text_member(tags, tag),
        None => None,
    }
}

/// The versions in the document of a package.
pub open spec fn versions_in(t: JsonTree) -> Snapshot {
    Snapshot {
        stable: tagged(t, "latest"@),
        prerelease: tagged(t, "alpha"@),
        versions: match json::member(t, "versions"@) {
            Some(versions) => json::member_names(versions),
            None => seq![],
        },
    }
}

impl Snapshot {
    /// Whether nothing is known.
    pub open spec fn is_blank(self) -> bool {
        self.stable is None && self.prerelease is None && self.versions.len() == 0
    }
}

/// The version with the given tag.
fn read_tag(doc: &Json, tag: &str) -> (r: Option<String>)
    ensures
        text::maybe_owned(r) == tagged(doc@, tag@),
{
    match doc.get("dist-tags") {
        Some(tags) => match tags.get_text(tag) {
            Some(v) => Some(v.to_owned()),
            None => None,
        },
        None => None,
    }
}

/// Reads the versions out of the document of a package; a document that tells
/// nothing of them is an error.
pub fn snapshot_of(doc: &Json) -> (r: Result<NpmVersionSnapshot, String>)
    ensures
        match r {
            Ok(snap) => snap@ == versions_in(doc@) && !snap@.is_blank(),
            Err(e) => versions_in(doc@).is_blank() && e@ == "npm 返回缺少 dist-tags / versions"@,
        },
{
    let versions = match doc.get("versions") {
        Some(versions) => versions.names(),
        None => Vec::new(),
    };
    let snap = NpmVersionSnapshot {
        stable: read_tag(doc, "latest"),
        prerelease: read_tag(doc, "alpha"),
        versions,
    };
    assert(snap@ =~= versions_in(doc@));
    assert(snap@.versions.len() == versions@.len());
    if snap.stable.is_none() && snap.prerelease.is_none() && snap.versions.len() == 0 {
        Err("npm 返回缺少 dist-tags / versions".to_owned())
    } else {
        Ok(snap)
    }
}

/// What npm answers.
pub enum NpmReply {
    /// Nothing, with the message.
    Unreachable(String),
    /// Something that could not be read to its end, with the message.
    Broken(String),
    /// The document of the package.
    Body(Vec<u8>),
}

/// What a reply tells: the versions, or a message.
pub open spec fn told(reply: NpmReply) -> Result<Snapshot, Seq<char>> {
    match reply {
        NpmReply::Unreachable(e) => Err("请求 npm registry 失败: "@ + e@),
        NpmReply::Broken(e) => Err("解析 npm 返回失败: "@ + e@),
        NpmReply::Body(bytes) => match json::json_bytes(bytes@) {
            Err(e) => Err("解析 npm 返回失败: "@ + "Failed to read JSON: "@ + e),
            Ok(t) => if versions_in(t).is_blank() {
                Err("npm 返回缺少 dist-tags / versions"@)
            } else {
                Ok(versions_in(t))
            },
        },
    }
}

/// What a query gives: the versions, or a message.
pub open spec fn queried(r: Result<NpmVersionSnapshot, String>) -> Result<Snapshot, Seq<char>> {
    match r {
        Ok(snap) => Ok(snap@),
        Err(e) => Err(e@),
    }
}

/// Reads the versions out of the document of a package, or says why there is no
/// document.
pub fn snapshot_from(doc: Result<Json, String>) -> (r: Result<NpmVersionSnapshot, String>)
    ensures
        queried(r) == match doc {
            Err(e) => Err("解析 npm 返回失败: "@ + "Failed to read JSON: "@ + e@),
            Ok(doc) => if versions_in(doc@).is_blank() {
                Err("npm 返回缺少 dist-tags / versions"@)
            } else {
                Ok(versions_in(doc@))
            },
        },
{
    match doc {
        Ok(doc) => snapshot_of(&doc),
        Err(e) => {
            let head = text::glue("解析 npm 返回失败: ", "Failed to read JSON: ");
            Err(text::glue(head.as_str(), e.as_str()))
        },
    }
}

/// Reads the versions out of a reply of npm.
pub fn fetch_npm_version_snapshot(reply: NpmReply) -> (r: Result<NpmVersionSnapshot, String>)
    ensures
        queried(r) == told(reply),
{
    match reply {
        NpmReply::Unreachable(e) => Err(text::glue("请求 npm registry 失败: ", e.as_str())),
        NpmReply::Broken(e) => Err(text::glue("解析 npm 返回失败: ", e.as_str())),
        NpmReply::Body(bytes) => snapshot_from(json::parse_json_bytes(&bytes)),
    }
}

// The latest version.

/// Whether a second query is made for the latest version: only where the first
/// one succeeded and knew no stable version.
pub fn needs_second_query(first: &Result<NpmVersionSnapshot, String>) -> (r: bool)
    ensures
        r == (queried(*first) is Ok && queried(*first)->Ok_0.stable is None),
{
    match first {
        Ok(snap) => snap.stable.is_none(),
        Err(_) => false,
    }
}

/// The latest version: the stable one of the first query, else the pre-release
/// of a second one.
pub open spec fn latest_of(
    first: Result<Snapshot, Seq<char>>,
    second: Option<Result<Snapshot, Seq<char>>>,
) -> Result<Seq<char>, Seq<char>> {
    match first {
        Err(e) => Err(e),
        Ok(snap) => match snap.stable {
            Some(v) => Ok(v),
            None => match second {
                Some(Ok(again)) => match again.prerelease {
                    Some(v) => Ok(v),
                    None => Err("npm latest tag 缺失"@),
                },
                _ => Err("npm latest tag 缺失"@),
            },
        },
    }
}

/// What a version is, or why there is none.
pub open spec fn version_read(r: Result<String, String>) -> Result<Seq<char>, Seq<char>> {
    match r {
        Ok(v) => Ok(v@),
        Err(e) => Err(e@),
    }
}

/// The latest version of dsh, given what one query gave, and a second one where
/// it was made.
pub fn fetch_latest_dsh_version(
    first: Result<NpmVersionSnapshot, String>,
    second: Option<Result<NpmVersionSnapshot, String>>,
) -> (r: Result<String, String>)
    ensures
        version_read(r) == latest_of(
            queried(first),
            match second {
                Some(again) => Some(queried(again)),
                None => None,
            },
        ),
{
    match first {
        Err(e) => Err(e),
        Ok(snap) => match snap.stable {
            Some(v) => Ok(v),
            None => match second {
                Some(Ok(again)) => match again.prerelease {
                    Some(v) => Ok(v),
                    None => Err("npm latest tag 缺失".to_owned()),
                },
                _ => Err("npm latest tag 缺失".to_owned()),
            },
        },
    }
}

// Whether there is an update.

/// The pre-release that is offered: none where it is the stable version.
pub open spec fn offered_prerelease(snap: Snapshot) -> Option<Seq<char>> {
    match snap.prerelease {
        Some(v) => if v.len() > 0 && snap.stable != Some(v) {
            Some(v)
        } else {
            None
        },
        None => None,
    }
}

/// Whether a version is newer than the installed one; any version is newer than
/// none.
pub open spec fn is_newer(v: Option<Seq<char>>, current: Seq<char>) -> bool {
    v is Some && (current == plugin::UNKNOWN_VERSION@ || version::version_higher(v->0, current))
}

/// Whether npm has something newer than the installed version.
pub open spec fn has_update(snap: Snapshot, current: Seq<char>) -> bool {
    is_newer(snap.stable, current) || is_newer(offered_prerelease(snap), current)
}

/// The pre-release that is offered.
fn offer_prerelease(snap: &NpmVersionSnapshot) -> (r: Option<String>)
    ensures
        text::maybe_owned(r) == offered_prerelease(snap@),
{
    match &snap.prerelease {
        Some(v) => {
            let same = match &snap.stable {
                Some(s) => text::same_text(s.as_str(), v.as_str()),
                None => false,
            };
            if !v.as_str().is_empty() && !same {
                Some(v.clone())
            } else {
                None
            }
        },
        None => None,
    }
}

/// Whether a version is newer than the installed one.
fn newer(v: &Option<String>, current: &str) -> (r: bool)
    ensures
        r == is_newer(text::maybe_owned(*v), current@),
{
    match v {
        Some(v) => text::same_text(current, plugin::UNKNOWN_VERSION) || version::is_higher(
            v.as_str(),
            current,
        ),
        None => false,
    }
}

/// The stable version as it is shown: nothing where there is none.
pub open spec fn shown_stable(snap: Snapshot) -> Seq<char> {
    match snap.stable {
        Some(v) => v,
        None => seq![],
    }
}

/// The stable version as it is shown.
fn show_stable(snap: &NpmVersionSnapshot) -> (r: String)
    ensures
        r@ == shown_stable(snap@),
{
    match &snap.stable {
        Some(v) => v.clone(),
        None => String::new(),
    }
}

/// What the settings show about updates of dsh.
pub struct DshUpdateInfo {
    pub has_update: bool,
    pub current_version: String,
    pub latest_version: String,
    pub prerelease_version: Option<String>,
    /// The name of the channel of the pre-release, where one is offered.
    pub prerelease_kind: Option<String>,
    /// Whether dsh can be updated: it is not brought along.
    pub online: bool,
    /// The versions to choose from, where dsh can be updated.
    pub versions: Vec<VersionEntry>,
}

/// Tells whether there is an update of dsh, given the installed version, what
/// npm said, and whether dsh is brought along.
pub fn check_dsh_update(
    current: String,
    query: Result<NpmVersionSnapshot, String>,
    bundled: bool,
) -> (r: Result<DshUpdateInfo, String>)
    ensures
        match query {
            Err(e) => r == Err::<DshUpdateInfo, String>(e),
            Ok(snap) => r matches Ok(info) && {
                &&& info.has_update == has_update(snap@, current@)
                &&& info.current_version@ == current@
                &&& info.latest_version@ == shown_stable(snap@)
                &&& text::maybe_owned(info.prerelease_version) == offered_prerelease(snap@)
                &&& text::maybe_owned(info.prerelease_kind) == (if offered_prerelease(
                    snap@,
                ) is Some {
                    Some("alpha"@)
                } else {
                    None
                })
                &&& info.online == !bundled
                &&& catalog::entries(info.versions@) == (if bundled {
                    Seq::<catalog::Entry>::empty()
                } else {
                    catalog::listing(
                        snap@.versions,
                        current@,
                        snap@.stable,
                        snap@.prerelease,
                    )
                })
            },
        },
{
    let snap = match query {
        Ok(snap) => snap,
        Err(e) => {
            return Err(e);
        },
    };
    let prerelease = offer_prerelease(&snap);
    let kind = if prerelease.is_some() {
        Some("alpha".to_owned())
    } else {
        None
    };
    let update = newer(&snap.stable, current.as_str()) || newer(&prerelease, current.as_str());
    let versions = if bundled {
        Vec::new()
    } else {
        catalog::make_listing(
            &snap.versions,
            current.as_str(),
            &snap.stable,
            &snap.prerelease,
        )
    };
    assert(bundled ==> catalog::entries(versions@) =~= Seq::<catalog::Entry>::empty());
    Ok(
        DshUpdateInfo {
            has_update: update,
            current_version: current,
            latest_version: show_stable(&snap),
            prerelease_version: prerelease,
            prerelease_kind: kind,
            online: !bundled,
            versions,
        },
    )
}

/// What the page is told about a newer version of dsh.
pub struct DshVersionInfo {
    pub current_version: String,
    pub latest_version: String,
    pub prerelease_version: Option<String>,
}

/// Decides whether the page is told about a newer version of dsh: where dsh is
/// not brought along, and npm has one.
pub fn background_check_dsh_version(
    bundled: bool,
    current: String,
    query: Result<NpmVersionSnapshot, String>,
) -> (r: Option<DshVersionInfo>)
    ensures
        r is Some <==> !bundled && query is Ok && has_update(query->Ok_0@, current@),
        r matches Some(info) ==> info.current_version@ == current@ && info.latest_version@
            == shown_stable(query->Ok_0@) && text::maybe_owned(info.prerelease_version)
            == offered_prerelease(query->Ok_0@),
{
    if bundled {
        return None;
    }
    match query {
        Ok(snap) => {
            let prerelease = offer_prerelease(&snap);
            if newer(&snap.stable, current.as_str()) || newer(&prerelease, current.as_str()) {
                Some(
                    DshVersionInfo {
                        current_version: current,
                        latest_version: show_stable(&snap),
                        prerelease_version: prerelease,
                    },
                )
            } else {
                None
            }
        },
        Err(_) => None,
    }
}

/// Where the installed version is the highest of what npm offers, there is no
/// update.
pub proof fn lemma_no_update_from_the_top(snap: Snapshot, current: Seq<char>)
    requires
        current != plugin::UNKNOWN_VERSION@,
        snap.stable is Some ==> current == snap.stable->0 || version::version_higher(
            current,
            snap.stable->0,
        ),
        snap.prerelease is Some ==> current == snap.prerelease->0 || version::version_higher(
            current,
            snap.prerelease->0,
        ),
    ensures
        !has_update(snap, current),
{
    if snap.stable is Some {
        version::lemma_version_higher_asymmetric(current, snap.stable->0);
    }
    if snap.prerelease is Some {
        version::lemma_version_higher_asymmetric(current, snap.prerelease->0);
    }
}

// Updating dsh.

/// Whether the channel is that of the pre-releases.
pub open spec fn wants_prerelease(channel: Option<Seq<char>>) -> bool {
    channel == Some("prerelease"@) || channel == Some("alpha"@)
}

/// The version that was asked for, where one was.
pub open spec fn explicit_version(version: Option<Seq<char>>) -> Option<Seq<char>> {
    match version {
        Some(v) => if text::trimmed(v).len() > 0 {
            Some(v)
        } else {
            None
        },
        None => None,
    }
}

/// The version of a channel, or a message; a channel without a version gives
/// that of the other one.
pub open spec fn channel_version(prerelease: bool, snap: Snapshot) -> Result<
    Seq<char>,
    Seq<char>,
> {
    let (first, second) = if prerelease {
        (snap.prerelease, snap.stable)
    } else {
        (snap.stable, snap.prerelease)
    };
    match (first, second) {
        (Some(v), _) => Ok(v),
        (None, Some(v)) => Ok(v),
        (None, None) => Err(
            if prerelease {
                "npm alpha tag 缺失"@
            } else {
                "npm latest tag 缺失"@
            },
        ),
    }
}

/// The version of a channel.
pub fn pick_version(prerelease: bool, snap: NpmVersionSnapshot) -> (r: Result<String, String>)
    ensures
        version_read(r) == channel_version(prerelease, snap@),
{
    let (first, second) = if prerelease {
        (snap.prerelease, snap.stable)
    } else {
        (snap.stable, snap.prerelease)
    };
    match first {
        Some(v) => Ok(v),
        None => match second {
            Some(v) => Ok(v),
            None => if prerelease {
                Err("npm alpha tag 缺失".to_owned())
            } else {
                Err("npm latest tag 缺失".to_owned())
            },
        },
    }
}

/// What an update of dsh waits for.
#[derive(Clone, Copy, PartialEq, Eq, Structural, Debug)]
pub enum UpdatePhase {
    /// What npm says.
    Query,
    /// Where dsh is installed.
    Place,
    /// The end of the installation, which goes into a prefix of its own.
    Install,
    /// What was installed there.
    Check,
    /// The new installation in the place of the old one.
    Replace,
    /// Nothing any more.
    Over,
}

/// An update of dsh.
pub struct DshUpdate {
    pub phase: UpdatePhase,
    /// Whether the version is that of the channel of the pre-releases.
    pub prerelease: bool,
    /// The version, once it is known.
    pub version: String,
}

/// What an update of dsh is told.
pub enum DshUpdateEvent {
    /// What npm says.
    Queried(Result<NpmVersionSnapshot, String>),
    /// Whether the resources were found, or why not; whether dsh is brought
    /// along; whether the prefix of the global installation is known.
    Place { resources: Result<(), String>, bundled: bool, prefix_known: bool },
    /// Whether the installation succeeded, or why it could not be run.
    Installed(Result<bool, String>),
    /// Whether dsh was found in the new installation, and its version.
    Checked { found: bool, version: Option<String> },
    /// Whether the new installation was put in the place of the old one, or why
    /// not.
    Replaced(Result<(), String>),
}

/// What an update of dsh asks for.
pub enum DshUpdateAction {
    /// Ask npm for the versions.
    Query,
    /// Find out where dsh is installed.
    FindPlace,
    /// Install the version into a prefix of its own, beside the dsh that runs.
    Install(String),
    /// Look at the new installation.
    Check,
    /// Kill dsh, which keeps its files open, then put the new installation in the
    /// place of the old one.
    KillAndReplace,
    /// The update is over. dsh is started where `respawn` says so.
    Finish { respawn: bool, result: Result<String, String> },
}

/// Whether the action ends the update with the given message.
pub open spec fn finishes(action: DshUpdateAction, respawn: bool, message: Seq<char>) -> bool {
    action matches DshUpdateAction::Finish { respawn: again, result } && again == respawn
        && version_read(result) == Err::<Seq<char>, Seq<char>>(message)
}

impl DshUpdate {
    /// Whether the update waits for the event.
    pub open spec fn expects(self, event: DshUpdateEvent) -> bool {
        match event {
            DshUpdateEvent::Queried(_) => self.phase == UpdatePhase::Query,
            DshUpdateEvent::Place { .. } => self.phase == UpdatePhase::Place,
            DshUpdateEvent::Installed(_) => self.phase == UpdatePhase::Install,
            DshUpdateEvent::Checked { .. } => self.phase == UpdatePhase::Check,
            DshUpdateEvent::Replaced(_) => self.phase == UpdatePhase::Replace,
        }
    }

    /// Begins an update under the lock: to the version that is asked for, where
    /// one is, else to that of the channel.
    pub fn begin(lock: &mut UpdateLock, channel: Option<&str>, version: Option<String>) -> (r: (
        Self,
        DshUpdateAction,
    ))
        ensures
            final(lock).updating,
            version is Some && (exists|i: int|
                0 <= i < version->0@.len() && !text::is_space(#[trigger] version->0@[i]))
                ==> r.0.phase == UpdatePhase::Place && r.0.version@ == version->0@
                && r.1 is FindPlace,
            match explicit_version(text::maybe_owned(version)) {
                Some(v) => r.0.phase == UpdatePhase::Place && r.0.version@ == v
                    && r.1 is FindPlace,
                None => r.0.phase == UpdatePhase::Query && r.0.prerelease == wants_prerelease(
                    text::maybe(channel),
                ) && r.1 is Query,
            },
    {
        let _guard = UpdatingGuard::enter(lock);
        proof {
            if version is Some {
                text::lemma_trimmed_is_empty(version->0@);
            }
        }
        if let Some(v) = version {
            if text::trim(&text::to_chars(v.as_str())).len() > 0 {
                return (
                    DshUpdate { phase: UpdatePhase::Place, prerelease: false, version: v },
                    DshUpdateAction::FindPlace,
                );
            }
        }
        let prerelease = match channel {
            Some(c) => text::same_text(c, "prerelease") || text::same_text(c, "alpha"),
            None => false,
        };
        (
            DshUpdate { phase: UpdatePhase::Query, prerelease, version: String::new() },
            DshUpdateAction::Query,
        )
    }

    /// What the update does on an event.
    pub open spec fn moves(
        self,
        dog: WatchdogState,
        event: DshUpdateEvent,
        after: DshUpdate,
        dog_after: WatchdogState,
        action: DshUpdateAction,
    ) -> bool {
        &&& !(event is Queried) ==> after.version == self.version
        &&& match event {
            DshUpdateEvent::Queried(query) => dog_after == dog && match queried(query) {
                Err(e) => after.phase == UpdatePhase::Over && finishes(action, false, e),
                Ok(snap) => match channel_version(self.prerelease, snap) {
                    Err(e) => after.phase == UpdatePhase::Over && finishes(action, false, e),
                    Ok(v) => after.phase == UpdatePhase::Place && after.version@ == v
                        && action is FindPlace,
                },
            },
            DshUpdateEvent::Place { resources, bundled, prefix_known } => match resources {
                Err(e) => after.phase == UpdatePhase::Over && dog_after == dog && finishes(
                    action,
                    false,
                    "无法定位资源目录: "@ + e@,
                ),
                Ok(_) => if bundled {
                    after.phase == UpdatePhase::Over && dog_after == dog && finishes(
                        action,
                        false,
                        "当前为离线版（内置 dsh），更新需 just update 后重新打包"@,
                    )
                } else if !prefix_known {
                    after.phase == UpdatePhase::Over && dog_after == dog && finishes(
                        action,
                        false,
                        "无法定位全局 dsh 目录"@,
                    )
                } else {
                    after.phase == UpdatePhase::Install && dog_after == dog && (
                    action matches DshUpdateAction::Install(v) && v@ == self.version@)
                },
            },
            DshUpdateEvent::Installed(installed) => dog_after == dog && match installed {
                Err(e) => after.phase == UpdatePhase::Over && finishes(
                    action,
                    false,
                    "安装 dsh 失败: "@ + e@,
                ),
                Ok(false) => after.phase == UpdatePhase::Over && finishes(
                    action,
                    false,
                    "安装 dsh 失败：现沿用当前版本"@,
                ),
                Ok(true) => after.phase == UpdatePhase::Check && action is Check,
            },
            DshUpdateEvent::Checked { found, version } => if !found {
                after.phase == UpdatePhase::Over && dog_after == dog && finishes(
                    action,
                    false,
                    "安装完成但找不到全局 dsh 入口"@,
                )
            } else if text::maybe_owned(version) != Some(self.version@) {
                after.phase == UpdatePhase::Over && dog_after == dog && finishes(
                    action,
                    false,
                    "安装完成但版本校验失败：沿用当前版本"@,
                )
            } else {
                after.phase == UpdatePhase::Replace && dog_after == dog.advanced()
                    && action is KillAndReplace
            },
            DshUpdateEvent::Replaced(replaced) => after.phase == UpdatePhase::Over && dog_after
                == dog && match replaced {
                Err(e) => finishes(action, true, "安装 dsh 失败: "@ + e@),
                Ok(_) => action matches DshUpdateAction::Finish { respawn, result } && respawn
                    && version_read(result) == Ok::<Seq<char>, Seq<char>>(self.version@),
            },
        }
    }

    /// Ends the update with a message.
    fn finish(&mut self, respawn: bool, message: String) -> (r: DshUpdateAction)
        ensures
            final(self).phase == UpdatePhase::Over,
            final(self).version == old(self).version,
            finishes(r, respawn, message@),
    {
        self.phase = UpdatePhase::Over;
        DshUpdateAction::Finish { respawn, result: Err(message) }
    }

    /// Takes the next step of an update. The new version is installed beside the
    /// dsh that runs, which a failure to install it does not affect; only when the
    /// right version is there is dsh killed, replaced and started again. The lock
    /// is given back at the end.
    pub fn update_online_dsh(
        &mut self,
        lock: &mut UpdateLock,
        dog: &mut Watchdog,
        event: DshUpdateEvent,
    ) -> (r: DshUpdateAction)
        requires
            old(self).expects(event),
        ensures
            old(self).moves(old(dog)@, event, *final(self), final(dog)@, r),
            final(lock).updating == (old(lock).updating && !(r is Finish)),
            old(dog)@.well_formed() ==> final(dog)@.well_formed(),
    {
        let r = self.next(dog, event);
        if let DshUpdateAction::Finish { .. } = r {
            lock.updating = false;
        }
        r
    }

    /// Takes the next step, apart from the lock.
    fn next(&mut self, dog: &mut Watchdog, event: DshUpdateEvent) -> (r: DshUpdateAction)
        requires
            old(self).expects(event),
        ensures
            old(self).moves(old(dog)@, event, *final(self), final(dog)@, r),
            old(dog)@.well_formed() ==> final(dog)@.well_formed(),
    {
        match event {
            DshUpdateEvent::Queried(query) => match query {
                Err(e) => self.finish(false, e),
                Ok(snap) => match pick_version(self.prerelease, snap) {
                    Err(e) => self.finish(false, e),
                    Ok(v) => {
                        self.version = v;
                        self.phase = UpdatePhase::Place;
                        DshUpdateAction::FindPlace
                    },
                },
            },
            DshUpdateEvent::Place { resources, bundled, prefix_known } => match resources {
                Err(e) => self.finish(false, text::glue("无法定位资源目录: ", e.as_str())),
                Ok(_) => if bundled {
                    self.finish(
                        false,
                        "当前为离线版（内置 dsh），更新需 just update 后重新打包".to_owned(),
                    )
                } else if !prefix_known {
                    self.finish(false, "无法定位全局 dsh 目录".to_owned())
                } else {
                    self.phase = UpdatePhase::Install;
                    DshUpdateAction::Install(self.version.clone())
                },
            },
            DshUpdateEvent::Installed(installed) => match installed {
                Err(e) => self.finish(false, text::glue("安装 dsh 失败: ", e.as_str())),
                Ok(ok) => if ok {
                    self.phase = UpdatePhase::Check;
                    DshUpdateAction::Check
                } else {
                    self.finish(false, "安装 dsh 失败：现沿用当前版本".to_owned())
                },
            },
            DshUpdateEvent::Checked { found, version } => {
                let right = match version {
                    Some(v) => text::same_text(v.as_str(), self.version.as_str()),
                    None => false,
                };
                if !found {
                    self.finish(false, "安装完成但找不到全局 dsh 入口".to_owned())
                } else if !right {
                    self.finish(false, "安装完成但版本校验失败：沿用当前版本".to_owned())
                } else {
                    dog.kill_dsh_intentionally();
                    self.phase = UpdatePhase::Replace;
                    DshUpdateAction::KillAndReplace
                }
            },
            DshUpdateEvent::Replaced(replaced) => match replaced {
                Err(e) => self.finish(true, text::glue("安装 dsh 失败: ", e.as_str())),
                Ok(_) => {
                    self.phase = UpdatePhase::Over;
                    DshUpdateAction::Finish { respawn: true, result: Ok(self.version.clone()) }
                },
            },
        }
    }
}

/// How far an update has come.
pub open spec fn update_progress(phase: UpdatePhase) -> nat {
    match phase {
        UpdatePhase::Query => 0,
        UpdatePhase::Place => 1,
        UpdatePhase::Install => 2,
        UpdatePhase::Check => 3,
        UpdatePhase::Replace => 4,
        UpdatePhase::Over => 5,
    }
}

/// An update that fails to find, install or check the new version does not affect
/// the dsh that runs: nothing is killed or started, and the watchdog stays as it
/// is. Where dsh was killed, it is started again at the end. An update ends after
/// five steps at most.
pub proof fn lemma_failed_update_leaves_dsh_alone(
    before: DshUpdate,
    dog: WatchdogState,
    event: DshUpdateEvent,
    after: DshUpdate,
    dog_after: WatchdogState,
    action: DshUpdateAction,
)
    requires
        before.expects(event),
        before.moves(dog, event, after, dog_after, action),
    ensures
        update_progress(before.phase) < update_progress(after.phase) <= 5,
        action is Finish <==> after.phase == UpdatePhase::Over,
        action is KillAndReplace <==> after.phase == UpdatePhase::Replace,
        action is KillAndReplace ==> (event matches DshUpdateEvent::Checked { found, version }
            && found && text::maybe_owned(version) == Some(before.version@)),
        !(action is KillAndReplace) ==> dog_after == dog,
        action matches DshUpdateAction::Finish { respawn, .. } ==> (respawn <==> before.phase
            == UpdatePhase::Replace),
        action matches DshUpdateAction::Finish { result: Ok(v), .. } ==> v@ == before.version@
            && before.phase == UpdatePhase::Replace,
{
}

// Putting a new installation in the place of the old one.

/// What a replacement waits for.
#[derive(Clone, Copy, PartialEq, Eq, Structural, Debug)]
pub enum ReplacePhase {
    /// The old installation out of its place.
    Aside,
    /// The new installation in that place.
    Place,
    /// The old installation back in its place.
    Back,
    /// Nothing any more.
    Over,
}

/// A replacement of an installation.
pub struct Replacement {
    pub phase: ReplacePhase,
    /// Why the new installation could not be put in place, where that failed.
    pub fault: String,
}

/// What a replacement asks for.
pub enum ReplaceAction {
    /// Put the new installation in place.
    PutInPlace,
    /// Put the old installation back.
    PutBack,
    /// The replacement is over.
    Done(Result<(), String>),
}

/// Whether the action ends the replacement with the given message.
pub open spec fn fails_with(action: ReplaceAction, message: Seq<char>) -> bool {
    action matches ReplaceAction::Done(Err(e)) && e@ == message
}

impl Replacement {
    /// A replacement, which begins with the old installation being set aside.
    pub fn begin() -> (r: Self)
        ensures
            r.phase == ReplacePhase::Aside,
    {
        Replacement { phase: ReplacePhase::Aside, fault: String::new() }
    }

    /// Takes the next step of a replacement, given whether the last one succeeded,
    /// or why not: where the new installation cannot be put in place, the old one
    /// is put back.
    pub fn replace_installation(&mut self, moved: Result<(), String>) -> (r: ReplaceAction)
        requires
            old(self).phase != ReplacePhase::Over,
        ensures
            match (old(self).phase, moved) {
                (ReplacePhase::Aside, Ok(_)) => final(self).phase == ReplacePhase::Place
                    && r is PutInPlace,
                (ReplacePhase::Aside, Err(e)) => final(self).phase == ReplacePhase::Over
                    && fails_with(r, e@),
                (ReplacePhase::Place, Ok(_)) => final(self).phase == ReplacePhase::Over && (
                r matches ReplaceAction::Done(done) && done is Ok),
                (ReplacePhase::Place, Err(e)) => final(self).phase == ReplacePhase::Back
                    && final(self).fault@ == e@ && r is PutBack,
                _ => final(self).phase == ReplacePhase::Over && fails_with(r, old(self).fault@),
            },
    {
        match self.phase {
            ReplacePhase::Aside => match moved {
                Ok(_) => {
                    self.phase = ReplacePhase::Place;
                    ReplaceAction::PutInPlace
                },
                Err(e) => {
                    self.phase = ReplacePhase::Over;
                    ReplaceAction::Done(Err(e))
                },
            },
            ReplacePhase::Place => match moved {
                Ok(_) => {
                    self.phase = ReplacePhase::Over;
                    ReplaceAction::Done(Ok(()))
                },
                Err(e) => {
                    self.phase = ReplacePhase::Back;
                    self.fault = e;
                    ReplaceAction::PutBack
                },
            },
            _ => {
                self.phase = ReplacePhase::Over;
                ReplaceAction::Done(Err(self.fault.clone()))
            },
        }
    }
}

// Laws.

/// There is an update exactly where the stable version, or the version of the
/// pre-releases, where it is one, is higher than the installed version, whatever
/// kind of version that is, or where the installed version is not known.
pub proof fn lemma_every_higher_version_is_an_update(snap: Snapshot, current: Seq<char>)
    ensures
        has_update(snap, current) <==> (snap.stable is Some && (current == "未知"@
            || version::version_higher(snap.stable->0, current))) || (snap.prerelease is Some
            && snap.prerelease->0.len() > 0 && (current == "未知"@ || version::version_higher(
            snap.prerelease->0,
            current,
        ))),
{
}

/// Both looks for an update tell of one, and of the same, where npm has a version
/// that is higher than the installed one; the one in the background tells of
/// nothing else, and never of a dsh that is brought along.
pub proof fn lemma_both_looks_tell_of_an_update(
    current: String,
    snap: NpmVersionSnapshot,
    bundled: bool,
    r: Result<DshUpdateInfo, String>,
    q: Option<DshVersionInfo>,
)
    requires
        call_ensures(check_dsh_update, (current, Ok(snap), bundled), r),
        call_ensures(background_check_dsh_version, (bundled, current, Ok(snap)), q),
    ensures
        r matches Ok(info) && {
            let higher = |v: Option<String>|
                v is Some && v->0@.len() > 0 && (current@ == "未知"@ || version::version_higher(
                    v->0@,
                    current@,
                ));
            &&& higher(snap.stable) || higher(snap.prerelease) ==> info.has_update
            &&& info.has_update && snap.stable is None ==> higher(snap.prerelease)
            &&& info.has_update && snap.prerelease is None && snap.stable is Some
                && snap.stable->0@.len() > 0 ==> higher(snap.stable)
            &&& q is Some <==> info.has_update && !bundled
            &&& info.current_version@ == current@
            &&& info.latest_version@ == (if snap.stable is Some {
                snap.stable->0@
            } else {
                seq![]
            })
            &&& info.online == !bundled
            &&& info.prerelease_version matches Some(p) ==> snap.prerelease is Some
                && snap.prerelease->0@ == p@ && p@.len() > 0
            &&& info.prerelease_version is None <==> (snap.prerelease is None
                || snap.prerelease->0@.len() == 0 || (snap.stable is Some && snap.stable->0@
                == snap.prerelease->0@))
            &&& info.prerelease_kind is Some <==> info.prerelease_version is Some
            &&& bundled ==> info.versions@.len() == 0
            &&& !bundled ==> info.versions@.len() == snap.versions@.len()
            &&& q matches Some(told) ==> told.current_version@ == current@
                && told.latest_version@ == info.latest_version@ && text::maybe_owned(
                told.prerelease_version,
            ) == text::maybe_owned(info.prerelease_version)
        },
{
    lemma_every_higher_version_is_an_update(snap@, current@);
    let info = r->Ok_0;
    assert(catalog::entries(info.versions@).len() == info.versions@.len());
    if !bundled {
        catalog::lemma_listing(snap@.versions, current@, snap@.stable, snap@.prerelease);
        version::lemma_sorted_len(snap@.versions);
    }
}

/// A look that failed tells why, or is passed over in the background.
pub proof fn lemma_failed_looks(
    current: String,
    e: String,
    bundled: bool,
    r: Result<DshUpdateInfo, String>,
    q: Option<DshVersionInfo>,
)
    requires
        call_ensures(check_dsh_update, (current, Err(e), bundled), r),
        call_ensures(background_check_dsh_version, (bundled, current, Err(e)), q),
    ensures
        r == Err::<DshUpdateInfo, String>(e),
        q is None,
{
}

/// A document of a package gives the version with the tag `latest`, that with the
/// tag `alpha`, and the names of all versions; it is refused only where it has none
/// of these.
pub proof fn lemma_snapshot_of_a_document(t: JsonTree, name: Seq<char>)
    ensures
        versions_in(t).stable == Some(name) <==> json::at_path(
            t,
            seq!["dist-tags"@, "latest"@],
        ) == Some(JsonTree::Text(name)),
        versions_in(t).prerelease == Some(name) <==> json::at_path(
            t,
            seq!["dist-tags"@, "alpha"@],
        ) == Some(JsonTree::Text(name)),
        json::member(t, "versions"@) matches Some(JsonTree::Object(members)) ==> versions_in(
            t,
        ).versions.len() == members.len() && forall|i: int|
            0 <= i < members.len() ==> #[trigger] versions_in(t).versions[i] == members[i].0,
        versions_in(t).is_blank() <==> versions_in(t).stable is None && versions_in(
            t,
        ).prerelease is None && versions_in(t).versions.len() == 0,
{
    reveal_with_fuel(json::at_path, 3);
    let a = seq!["dist-tags"@, "latest"@];
    let b = seq!["dist-tags"@, "alpha"@];
    assert(a.skip(1) =~= seq!["latest"@]);
    assert(b.skip(1) =~= seq!["alpha"@]);
    assert(seq!["latest"@].skip(1).len() == 0);
    assert(seq!["alpha"@].skip(1).len() == 0);
}

/// A reply gives the versions exactly where it is a document that tells of any;
/// otherwise it gives a message that ends with the reason.
pub proof fn lemma_replies(reply: NpmReply, r: Result<NpmVersionSnapshot, String>)
    requires
        call_ensures(fetch_npm_version_snapshot, (reply,), r),
    ensures
        r is Ok <==> (reply matches NpmReply::Body(bytes) && (json::json_bytes(
            bytes@,
        ) matches Ok(t) && (versions_in(t).stable is Some || versions_in(t).prerelease is Some
            || versions_in(t).versions.len() > 0))),
        r matches Ok(snap) ==> (reply matches NpmReply::Body(bytes) && snap@ == versions_in(
            json::json_bytes(bytes@)->Ok_0,
        )),
        reply matches NpmReply::Unreachable(e) ==> r->Err_0@ == "请求 npm registry 失败: "@ + e@,
        reply matches NpmReply::Broken(e) ==> r->Err_0@ == "解析 npm 返回失败: "@ + e@,
{
}

/// The latest version is the stable one wherever there is one; a second query is
/// made only where the first one succeeded and knew none, and the pre-release that
/// it gives is the latest version then.
pub proof fn lemma_latest_version(
    first: Result<NpmVersionSnapshot, String>,
    second: Option<Result<NpmVersionSnapshot, String>>,
    r: Result<String, String>,
    again: bool,
)
    requires
        call_ensures(fetch_latest_dsh_version, (first, second), r),
        call_ensures(needs_second_query, (&first,), again),
    ensures
        again <==> (first matches Ok(snap) && snap.stable is None),
        first matches Err(e) ==> r is Err && r->Err_0@ == e@,
        first matches Ok(snap) && snap.stable is Some ==> r is Ok,
        first is Ok && first->Ok_0.stable is Some ==> r->Ok_0@ == first->Ok_0.stable->0@,
        again ==> (r is Ok <==> (second matches Some(Ok(snap)) && snap.prerelease is Some)),
        again && r is Ok ==> r->Ok_0@ == second->0->Ok_0.prerelease->0@,
{
}

/// An update along a channel takes the version of that channel wherever it has
/// one, and that of the other one otherwise; it fails only where neither has one.
pub proof fn lemma_version_of_a_channel(
    prerelease: bool,
    snap: NpmVersionSnapshot,
    r: Result<String, String>,
)
    requires
        call_ensures(pick_version, (prerelease, snap), r),
    ensures
        r is Ok <==> snap.stable is Some || snap.prerelease is Some,
        prerelease && snap.prerelease is Some ==> r->Ok_0@ == snap.prerelease->0@,
        !prerelease && snap.stable is Some ==> r->Ok_0@ == snap.stable->0@,
        prerelease && snap.prerelease is None && snap.stable is Some ==> r->Ok_0@
            == snap.stable->0@,
        !prerelease && snap.stable is None && snap.prerelease is Some ==> r->Ok_0@
            == snap.prerelease->0@,
{
}

/// Which version an update begins with: a text that holds anything but white space
/// is passed through as it is, whatever the channel, and nothing is asked of npm;
/// any other text, and none, means the channel, of which npm is asked.
pub proof fn lemma_picked_version_is_passed_through(
    lock: &mut UpdateLock,
    channel: Option<&str>,
    version: Option<String>,
    r: (DshUpdate, DshUpdateAction),
)
    requires
        call_ensures(DshUpdate::begin, (lock, channel, version), r),
    ensures
        final(lock).updating,
        (version is Some && exists|i: int|
            0 <= i < version->0@.len() && !text::is_space(#[trigger] version->0@[i]))
            ==> r.0.version@ == version->0@ && r.0.phase == UpdatePhase::Place
            && r.1 is FindPlace,
        (version is None || forall|i: int|
            0 <= i < version->0@.len() ==> text::is_space(#[trigger] version->0@[i]))
            ==> r.0.phase == UpdatePhase::Query && r.1 is Query && (r.0.prerelease
            <==> channel is Some && (channel->0@ == "prerelease"@ || channel->0@ == "alpha"@)),
{
    if version is Some {
        text::lemma_trimmed_is_empty(version->0@);
    }
}

/// What an update asks for holds what it was told, and it goes on wherever nothing
/// has failed: the version that was picked, or that npm gave for the channel, is the
/// one that is installed, that the new installation has to have, and that the update
/// reports in the end.
pub proof fn lemma_update_goes_on(
    before: DshUpdate,
    dog: WatchdogState,
    event: DshUpdateEvent,
    after: DshUpdate,
    dog_after: WatchdogState,
    action: DshUpdateAction,
)
    requires
        before.expects(event),
        before.moves(dog, event, after, dog_after, action),
    ensures
        event matches DshUpdateEvent::Queried(Ok(snap)) && before.prerelease
            && snap.prerelease is Some ==> action is FindPlace,
        event matches DshUpdateEvent::Queried(Ok(snap)) && (snap.stable is Some
            || snap.prerelease is Some) ==> action is FindPlace && after.phase
            == UpdatePhase::Place,
        (event is Queried && event->Queried_0 is Ok && before.prerelease
            && event->Queried_0->Ok_0.prerelease is Some) ==> after.version@
            == event->Queried_0->Ok_0.prerelease->0@,
        (event is Queried && event->Queried_0 is Ok && !before.prerelease
            && event->Queried_0->Ok_0.stable is Some) ==> after.version@
            == event->Queried_0->Ok_0.stable->0@,
        !(event is Queried) ==> after.version@ == before.version@,
        event matches DshUpdateEvent::Queried(Err(e)) ==> finishes(action, false, e@),
        action matches DshUpdateAction::Install(v) ==> v@ == before.version@,
        action is Install <==> (event matches DshUpdateEvent::Place {
            resources: Ok(_),
            bundled: false,
            prefix_known: true,
        }),
        action is Check <==> event == DshUpdateEvent::Installed(Ok(true)),
        action is KillAndReplace <==> (event matches DshUpdateEvent::Checked {
            found: true,
            version: Some(v),
        } && v@ == before.version@),
        action is KillAndReplace ==> dog_after.generation != dog.generation && dog_after.crashes
            == dog.crashes && dog_after.error == dog.error,
        action matches DshUpdateAction::Finish { result: Ok(v), respawn } ==> respawn && v@
            == before.version@,
        (action matches DshUpdateAction::Finish { result: Ok(_), .. }) <==> (
        event matches DshUpdateEvent::Replaced(Ok(_))),
{
}

/// A whole update to a version that was picked: each step is given what succeeds,
/// and the version that is installed, and reported at the end, is the one that was
/// picked.
pub proof fn lemma_picked_version_is_installed(
    lock: &mut UpdateLock,
    channel: Option<&str>,
    version: String,
    begun: (DshUpdate, DshUpdateAction),
    updates: Seq<DshUpdate>,
    dogs: Seq<WatchdogState>,
    events: Seq<DshUpdateEvent>,
    actions: Seq<DshUpdateAction>,
    found: String,
)
    requires
        exists|i: int| 0 <= i < version@.len() && !text::is_space(#[trigger] version@[i]),
        call_ensures(DshUpdate::begin, (lock, channel, Some(version)), begun),
        updates.len() == 5 && dogs.len() == 5 && events.len() == 4 && actions.len() == 4,
        updates[0] == begun.0,
        forall|i: int|
            0 <= i < 4 ==> (#[trigger] updates[i]).moves(
                dogs[i],
                events[i],
                updates[i + 1],
                dogs[i + 1],
                actions[i],
            ),
        events[0] == (DshUpdateEvent::Place {
            resources: Ok(()),
            bundled: false,
            prefix_known: true,
        }),
        events[1] == DshUpdateEvent::Installed(Ok(true)),
        events[2] == (DshUpdateEvent::Checked { found: true, version: Some(found) }),
        found@ == version@,
        events[3] == DshUpdateEvent::Replaced(Ok(())),
    ensures
        begun.1 is FindPlace,
        actions[0] matches DshUpdateAction::Install(v) && v@ == version@,
        actions[1] is Check,
        actions[2] is KillAndReplace,
        actions[3] matches DshUpdateAction::Finish { respawn, result } && respawn
            && result is Ok && result->Ok_0@ == version@,
        dogs[2] == dogs[0],
{
    lemma_picked_version_is_passed_through(lock, channel, Some(version), begun);
    assert(updates[0].moves(dogs[0], events[0], updates[1], dogs[1], actions[0]));
    assert(updates[1].moves(dogs[1], events[1], updates[2], dogs[2], actions[1]));
    assert(updates[2].moves(dogs[2], events[2], updates[3], dogs[3], actions[2]));
    assert(updates[3].moves(dogs[3], events[3], updates[4], dogs[4], actions[3]));
}

/// The lock is held as long as an update goes on, and given back at its end.
pub proof fn lemma_update_holds_the_lock(
    update: &mut DshUpdate,
    lock: &mut UpdateLock,
    dog: &mut Watchdog,
    event: DshUpdateEvent,
    r: DshUpdateAction,
)
    requires
        call_ensures(DshUpdate::update_online_dsh, (update, lock, dog, event), r),
        old(lock).updating,
    ensures
        final(lock).updating <==> !(r is Finish),
{
}

/// A replacement that fails to put the new installation in place puts the old one
/// back, and is over with the reason; it touches nothing more where the old one
/// could not be moved.
pub proof fn lemma_replacements(
    r: &mut Replacement,
    moved: Result<(), String>,
    action: ReplaceAction,
)
    requires
        call_ensures(Replacement::replace_installation, (r, moved), action),
    ensures
        action is PutInPlace <==> old(r).phase == ReplacePhase::Aside && moved is Ok,
        action is PutBack <==> old(r).phase == ReplacePhase::Place && moved is Err,
        (action matches ReplaceAction::Done(Ok(_))) <==> old(r).phase == ReplacePhase::Place
            && moved is Ok,
        action matches ReplaceAction::Done(Err(e)) ==> (old(r).phase == ReplacePhase::Aside
            ==> e@ == moved->Err_0@) && (old(r).phase == ReplacePhase::Back ==> e@
            == old(r).fault@),
        action is PutBack ==> final(r).fault@ == moved->Err_0@ && final(r).phase
            == ReplacePhase::Back,
        action is Done <==> final(r).phase == ReplacePhase::Over,
{
}

/// Whatever an update asks for, it takes any answer to it; and it takes an answer to
/// nothing else.
pub proof fn lemma_update_takes_every_answer(
    before: DshUpdate,
    dog: WatchdogState,
    event: DshUpdateEvent,
    after: DshUpdate,
    dog_after: WatchdogState,
    action: DshUpdateAction,
    answer: DshUpdateEvent,
)
    requires
        before.expects(event),
        before.moves(dog, event, after, dog_after, action),
    ensures
        after.expects(answer) <==> match action {
            DshUpdateAction::Query => answer is Queried,
            DshUpdateAction::FindPlace => answer is Place,
            DshUpdateAction::Install(_) => answer is Installed,
            DshUpdateAction::Check => answer is Checked,
            DshUpdateAction::KillAndReplace => answer is Replaced,
            DshUpdateAction::Finish { .. } => false,
        },
{
}

/// The message with which an update fails tells the first thing that is wrong.
pub proof fn lemma_messages_of_an_update(
    before: DshUpdate,
    dog: WatchdogState,
    event: DshUpdateEvent,
    after: DshUpdate,
    dog_after: WatchdogState,
    action: DshUpdateAction,
)
    requires
        before.expects(event),
        before.moves(dog, event, after, dog_after, action),
    ensures
        event matches DshUpdateEvent::Place { resources: Err(e), .. } ==> finishes(
            action,
            false,
            "无法定位资源目录: "@ + e@,
        ),
        (event matches DshUpdateEvent::Place { resources: Ok(_), bundled: true, .. }) ==> finishes(
            action,
            false,
            "当前为离线版（内置 dsh），更新需 just update 后重新打包"@,
        ),
        (event matches DshUpdateEvent::Place {
            resources: Ok(_),
            bundled: false,
            prefix_known: false,
        }) ==> finishes(action, false, "无法定位全局 dsh 目录"@),
        event matches DshUpdateEvent::Installed(Err(e)) ==> finishes(
            action,
            false,
            "安装 dsh 失败: "@ + e@,
        ),
        (event matches DshUpdateEvent::Checked { found: false, .. }) ==> finishes(
            action,
            false,
            "安装完成但找不到全局 dsh 入口"@,
        ),
        event matches DshUpdateEvent::Replaced(Err(e)) ==> finishes(
            action,
            true,
            "安装 dsh 失败: "@ + e@,
        ),
        (event matches DshUpdateEvent::Queried(Ok(_))) && action is Finish ==> finishes(
            action,
            false,
            if before.prerelease {
                "npm alpha tag 缺失"@
            } else {
                "npm latest tag 缺失"@
            },
        ),
{
}

/// A call takes one step of an update, and a document gives the versions in it.
pub proof fn lemma_calls(
    update: &mut DshUpdate,
    lock: &mut UpdateLock,
    dog: &mut Watchdog,
    event: DshUpdateEvent,
    action: DshUpdateAction,
    doc: &Json,
    r: Result<NpmVersionSnapshot, String>,
)
    requires
        call_ensures(DshUpdate::update_online_dsh, (update, lock, dog, event), action),
        call_ensures(snapshot_of, (doc,), r),
    ensures
        old(update).moves(old(dog)@, event, *final(update), final(dog)@, action),
        r is Ok <==> versions_in(doc@).stable is Some || versions_in(doc@).prerelease is Some
            || versions_in(doc@).versions.len() > 0,
        r matches Ok(snap) ==> snap@ == versions_in(doc@),
{
}

} // verus!
