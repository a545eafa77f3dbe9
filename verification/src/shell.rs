//! The shell itself: the lock that is held during an update, what closing and
//! quitting do, and the updates of the shell.
use vstd::prelude::*;

use crate::locale;
use crate::text;

verus! {

// The lock.

/// Whether an update is in progress.
#[derive(Clone, Copy, PartialEq, Eq, Structural, Debug)]
pub struct UpdateLock {
    pub updating: bool,
}

/// A hold on the lock for the time of an update.
pub struct UpdatingGuard {
    pub active: bool,
}

impl UpdatingGuard {
    /// Takes the lock.
    pub fn enter(lock: &mut UpdateLock) -> (r: Self)
        ensures
            r.active,
            final(lock).updating,
    {
        lock.updating = true;
        UpdatingGuard { active: true }
    }

    /// Gives the lock back after an update that succeeded.
    pub fn disarm(self, lock: &mut UpdateLock)
        ensures
            !final(lock).updating,
    {
        lock.updating = false;
    }

    /// Gives the lock back where the guard still holds it, as at the end of its
    /// life.
    pub fn release(&mut self, lock: &mut UpdateLock)
        ensures
            !final(self).active,
            final(lock).updating == (old(lock).updating && !old(self).active),
    {
        if self.active {
            lock.updating = false;
        }
        self.active = false;
    }
}

/// Whether an update is in progress.
pub fn is_updating(lock: &UpdateLock) -> (r: bool)
    ensures
        r == lock.updating,
{
    lock.updating
}

// Closing and quitting.

/// The text that is shown where an update stands in the way.
pub open spec fn blocked_text(is_en: bool) -> Seq<char> {
    locale::chosen(
        is_en,
        "An update is in progress. Please wait for it to finish."@,
        "升级进行中，请等待完成"@,
    )
}

/// The text that is shown where an update stands in the way.
pub fn update_blocked(is_en: bool) -> (r: &'static str)
    ensures
        r@ == blocked_text(is_en),
{
    locale::tr(
        is_en,
        "An update is in progress. Please wait for it to finish.",
        "升级进行中，请等待完成",
    )
}

/// What happens to a window that is to be closed.
#[derive(Clone, Copy, PartialEq, Eq, Structural, Debug)]
pub enum Closing {
    /// It stays, because of an update.
    Blocked,
    /// It is hidden; the shell goes on in the tray.
    Hidden,
    /// It is closed.
    Closed,
}

/// Decides what happens to a window that is to be closed: during an update it
/// stays; otherwise the main window is hidden, and any other one is closed.
pub fn close_requested(lock: &UpdateLock, label: &str) -> (r: Closing)
    ensures
        r == if lock.updating {
            Closing::Blocked
        } else if label@ == "main"@ {
            Closing::Hidden
        } else {
            Closing::Closed
        },
{
    if is_updating(lock) {
        Closing::Blocked
    } else if text::same_text(label, "main") {
        Closing::Hidden
    } else {
        Closing::Closed
    }
}

/// Whether the shell may end: not during an update.
pub fn exit_allowed(lock: &UpdateLock) -> (r: bool)
    ensures
        r == !lock.updating,
{
    !is_updating(lock)
}

/// What an entry of the menu of the tray does.
#[derive(Clone, Copy, PartialEq, Eq, Structural, Debug)]
pub enum TrayChoice {
    ShowMain,
    /// The settings are opened, and look for updates.
    OpenSettings,
    Quit,
    /// Quitting is refused, because of an update.
    Blocked,
    Nothing,
}

/// What the entry of the given name does.
pub open spec fn choice_of(lock: UpdateLock, id: Seq<char>) -> TrayChoice {
    if id == "show"@ {
        TrayChoice::ShowMain
    } else if id == "open_settings"@ || id == "check_update"@ {
        TrayChoice::OpenSettings
    } else if id == "quit"@ {
        if lock.updating {
            TrayChoice::Blocked
        } else {
            TrayChoice::Quit
        }
    } else {
        TrayChoice::Nothing
    }
}

/// Decides what an entry of the menu of the tray does.
pub fn tray_choice(lock: &UpdateLock, id: &str) -> (r: TrayChoice)
    ensures
        r == choice_of(*lock, id@),
{
    if text::same_text(id, "show") {
        TrayChoice::ShowMain
    } else if text::same_text(id, "open_settings") || text::same_text(id, "check_update") {
        TrayChoice::OpenSettings
    } else if text::same_text(id, "quit") {
        if is_updating(lock) {
            TrayChoice::Blocked
        } else {
            TrayChoice::Quit
        }
    } else {
        TrayChoice::Nothing
    }
}

/// During an update the menu of the tray cannot end the shell.
pub proof fn lemma_update_is_not_interrupted(lock: UpdateLock, id: Seq<char>)
    requires
        lock.updating,
    ensures
        choice_of(lock, id) != TrayChoice::Quit,
{
}

// Updates of the shell.

/// What is known about a newer version of the shell.
pub struct AppUpdateInfo {
    pub has_update: bool,
    pub current_version: String,
    pub latest_version: String,
    pub body: String,
}

/// A newer version that was found.
pub struct FoundUpdate {
    pub version: String,
    /// Its notes, where it has any.
    pub body: Option<String>,
}

/// What the look for a newer version gave.
pub enum UpdateSearch {
    /// The updater could not be set up, with the message.
    NoUpdater(String),
    /// The look failed, with the message.
    Failed(String),
    /// There is none.
    Current,
    Found(FoundUpdate),
}

/// What is wrong with a look for a newer version.
pub open spec fn search_error(search: UpdateSearch) -> Option<Seq<char>> {
    match search {
        UpdateSearch::NoUpdater(e) => Some("初始化更新器失败: "@ + e@),
        UpdateSearch::Failed(e) => Some("检查更新失败: "@ + e@),
        _ => None,
    }
}

/// Tells whether there is a newer version of the shell.
pub fn check_app_update(current: String, search: UpdateSearch) -> (r: Result<
    AppUpdateInfo,
    String,
>)
    ensures
        match search {
            UpdateSearch::Found(update) => r matches Ok(info) && info.has_update
                && info.current_version@ == current@ && info.latest_version@ == update.version@
                && info.body@ == match update.body {
                Some(body) => body@,
                None => seq![],
            },
            UpdateSearch::Current => r matches Ok(info) && !info.has_update
                && info.current_version@ == current@ && info.latest_version@ == current@
                && info.body@ == Seq::<char>::empty(),
            _ => r is Err && search_error(search) == Some(r->Err_0@),
        },
{
    match search {
        UpdateSearch::Found(update) => {
            let body = match update.body {
                Some(body) => body,
                None => String::new(),
            };
            Ok(
                AppUpdateInfo {
                    has_update: true,
                    current_version: current,
                    latest_version: update.version,
                    body,
                },
            )
        },
        UpdateSearch::Current => {
            let latest = current.clone();
            Ok(
                AppUpdateInfo {
                    has_update: false,
                    current_version: current,
                    latest_version: latest,
                    body: String::new(),
                },
            )
        },
        UpdateSearch::NoUpdater(e) => Err(text::glue("初始化更新器失败: ", e.as_str())),
        UpdateSearch::Failed(e) => Err(text::glue("检查更新失败: ", e.as_str())),
    }
}

/// How far a download has come.
#[derive(Clone, Copy, PartialEq, Eq, Structural, Debug)]
pub struct UpdateProgress {
    pub downloaded: u64,
    /// The size, or 0 where it is not known.
    pub total: u64,
}

/// Makes a report on a download.
pub fn update_progress(downloaded: u64, total: Option<u64>) -> (r: UpdateProgress)
    ensures
        r.downloaded == downloaded,
        r.total == match total {
            Some(n) => n,
            None => 0,
        },
{
    match total {
        Some(n) => UpdateProgress { downloaded, total: n },
        None => UpdateProgress { downloaded, total: 0 },
    }
}

/// Goes on with the installation of a newer version after the look for one,
/// during which the lock is held already: the lock is kept where there is a
/// version to install, and given back otherwise.
pub fn install_app_update(lock: &mut UpdateLock, search: UpdateSearch) -> (r: Result<
    FoundUpdate,
    String,
>)
    ensures
        match search {
            UpdateSearch::Found(update) => r == Ok::<FoundUpdate, String>(update),
            UpdateSearch::Current => r is Err && r->Err_0@ == "当前已是最新版本"@,
            _ => r is Err && search_error(search) == Some(r->Err_0@),
        },
        final(lock).updating == (r is Ok),
{
    let mut guard = UpdatingGuard::enter(lock);
    let r = match search {
        UpdateSearch::Found(update) => Ok(update),
        UpdateSearch::Current => Err("当前已是最新版本".to_owned()),
        UpdateSearch::NoUpdater(e) => Err(text::glue("初始化更新器失败: ", e.as_str())),
        UpdateSearch::Failed(e) => Err(text::glue("检查更新失败: ", e.as_str())),
    };
    if r.is_err() {
        guard.release(lock);
    }
    r
}

/// Ends the installation of a newer version, given what came of it. On success
/// the shell restarts, under the lock; otherwise the lock is given back.
pub fn app_update_installed(lock: &mut UpdateLock, installed: Result<(), String>) -> (r: Result<
    (),
    String,
>)
    ensures
        match installed {
            Ok(_) => r is Ok,
            Err(e) => r is Err && r->Err_0@ == "下载/安装更新失败: "@ + e@,
        },
        final(lock).updating == (old(lock).updating && installed is Ok),
{
    match installed {
        Ok(_) => Ok(()),
        Err(e) => {
            lock.updating = false;
            Err(text::glue("下载/安装更新失败: ", e.as_str()))
        },
    }
}

// Laws.

/// During an update no window is closed and the shell does not end, by whatever way
/// that is tried; outside of one, closing the main window hides it, closing any
/// other one closes it, and the shell may end.
pub proof fn lemma_closing_and_quitting(
    lock: UpdateLock,
    label: &str,
    closing: Closing,
    exit: bool,
    id: &str,
    choice: TrayChoice,
    busy: bool,
)
    requires
        call_ensures(close_requested, (&lock, label), closing),
        call_ensures(exit_allowed, (&lock,), exit),
        call_ensures(tray_choice, (&lock, id), choice),
        call_ensures(is_updating, (&lock,), busy),
    ensures
        busy <==> lock.updating,
        lock.updating ==> closing == Closing::Blocked && !exit && choice != TrayChoice::Quit,
        !lock.updating ==> exit && closing != Closing::Blocked && choice != TrayChoice::Blocked,
        !lock.updating ==> (closing == Closing::Hidden <==> label@ == "main"@),
        id@ == "quit"@ ==> choice == (if lock.updating {
            TrayChoice::Blocked
        } else {
            TrayChoice::Quit
        }),
        choice == TrayChoice::Quit || choice == TrayChoice::Blocked ==> id@ == "quit"@,
        choice == TrayChoice::ShowMain ==> id@ == "show"@,
        id@ == "show"@ ==> choice == TrayChoice::ShowMain,
        choice == TrayChoice::OpenSettings <==> id@ == "open_settings"@ || id@ == "check_update"@,
{
    reveal_strlit("quit");
    reveal_strlit("show");
    reveal_strlit("open_settings");
    reveal_strlit("check_update");
    assert("quit"@[0] == 'q' && "show"@[0] == 's');
    assert("open_settings"@[0] == 'o' && "check_update"@[0] == 'c');
}

/// A hold on the lock lasts until it is given back; giving it back a second time
/// changes nothing.
pub proof fn lemma_lock_is_given_back(
    a: &mut UpdateLock,
    guard: UpdatingGuard,
    b: &mut UpdateLock,
    c: &mut UpdateLock,
    held: &mut UpdatingGuard,
)
    requires
        call_ensures(UpdatingGuard::enter, (a,), guard),
        call_ensures(UpdatingGuard::disarm, (guard, b), ()),
        call_ensures(UpdatingGuard::release, (held, c), ()),
    ensures
        final(a).updating && guard.active,
        !final(b).updating,
        old(held).active ==> !final(c).updating,
        !old(held).active ==> final(c).updating == old(c).updating,
        !final(held).active,
{
}

/// What the look for a newer version of the shell comes to: there is an update
/// exactly where one was found, and it is installed then, under the lock; in every
/// other case the lock is given back, and the reason is told.
pub proof fn lemma_updates_of_the_shell(
    current: String,
    search: UpdateSearch,
    r: Result<AppUpdateInfo, String>,
    lock: &mut UpdateLock,
    q: Result<FoundUpdate, String>,
    other: &mut UpdateLock,
    installed: Result<(), String>,
    end: Result<(), String>,
)
    requires
        call_ensures(check_app_update, (current, search), r),
        call_ensures(install_app_update, (lock, search), q),
        call_ensures(app_update_installed, (other, installed), end),
    ensures
        r is Ok <==> search is Found || search is Current,
        r matches Ok(info) ==> (info.has_update <==> search is Found) && info.current_version@
            == current@,
        search matches UpdateSearch::Found(update) ==> r->Ok_0.latest_version@ == update.version@
            && q == Ok::<FoundUpdate, String>(update) && (update.body is Some ==> r->Ok_0.body@
            == update.body->0@),
        search is Current ==> r->Ok_0.latest_version@ == current@,
        q is Ok <==> search is Found,
        final(lock).updating <==> search is Found,
        search matches UpdateSearch::Failed(e) ==> r->Err_0@ == "检查更新失败: "@ + e@ && q->Err_0@
            == "检查更新失败: "@ + e@,
        search matches UpdateSearch::NoUpdater(e) ==> r->Err_0@ == "初始化更新器失败: "@ + e@
            && q->Err_0@ == "初始化更新器失败: "@ + e@,
        end is Ok <==> installed is Ok,
        installed is Err ==> !final(other).updating,
        installed is Ok ==> final(other).updating == old(other).updating,
        installed matches Err(e) ==> end->Err_0@ == "下载/安装更新失败: "@ + e@,
{
}

/// A report on a download hands on what is known.
pub proof fn lemma_progress(downloaded: u64, total: Option<u64>, r: UpdateProgress)
    requires
        call_ensures(update_progress, (downloaded, total), r),
    ensures
        r.downloaded == downloaded,
        total is Some ==> r.total == total->0,
        total is None ==> r.total == 0,
{
}

} // verus!
