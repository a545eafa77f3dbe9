//! The `dsh` command of the terminal, and how it is made the one that the shell
//! manages.
use vstd::prelude::*;

use crate::encoding;
use crate::launch;
use crate::locale;
use crate::text;

verus! {

/// For how long no automatic repair is tried after one has failed, in seconds.
pub const COOLDOWN: u64 = 604_800;

// Directories.

/// A text with `b` in the place of every `a`.
pub open spec fn replaced(s: Seq<char>, a: char, b: char) -> Seq<char> {
    s.map_values(
        |c: char|
            if c == a {
                b
            } else {
                c
            },
    )
}

/// A text without the backslashes at its end.
pub open spec fn without_backslashes(s: Seq<char>) -> Seq<char>
    decreases s.len(),
{
    if s.len() > 0 && s.last() == '\\' {
        without_backslashes(s.drop_last())
    } else {
        s
    }
}

/// A directory in the form in which it is compared: small letters, backslashes,
/// none of them at the end, and without the prefix of long paths.
pub open spec fn normal_dir(path: Seq<char>) -> Seq<char> {
    without_backslashes(replaced(encoding::lowercase(launch::shown_path(path)), '/', '\\'))
}

/// Brings a directory into the form in which it is compared.
pub fn normalize_dir(path: &str) -> (r: String)
    ensures
        r@ == normal_dir(path@),
{
    let small = encoding::lowercase_text(launch::display_path(path).as_str());
    normalize_lowered(small.as_str())
}

/// Brings a directory in small letters into the form in which it is compared.
pub fn normalize_lowered(small: &str) -> (r: String)
    ensures
        r@ == without_backslashes(replaced(small@, '/', '\\')),
{
    let chars = text::to_chars(small);
    let ghost all = replaced(small@, '/', '\\');
    let mut out: Vec<char> = Vec::new();
    for i in 0..chars.len()
        invariant
            chars@ == small@,
            all == replaced(small@, '/', '\\'),
            out@ == all.take(i as int),
    {
        out.push(
            if chars[i] == '/' {
                '\\'
            } else {
                chars[i]
            },
        );
        assert(out@ =~= all.take(i as int + 1));
    }
    assert(out@ =~= all);
    let mut n: usize = out.len();
    assert(out@.take(n as int) =~= out@);
    while n > 0 && out[n - 1] == '\\'
        invariant
            n <= out@.len(),
            without_backslashes(out@) == without_backslashes(out@.take(n as int)),
        decreases n,
    {
        assert(out@.take(n as int).drop_last() =~= out@.take(n as int - 1));
        n = n - 1;
    }
    let kept = text::slice_chars(&out, 0, n);
    assert(kept@ =~= out@.take(n as int));
    text::from_chars(&kept)
}

/// Slashes at the end of a directory, and their kind, do not count.
pub proof fn lemma_slashes_do_not_count(small: Seq<char>)
    ensures
        without_backslashes(replaced(small.push('/'), '/', '\\')) == without_backslashes(
            replaced(small, '/', '\\'),
        ),
        without_backslashes(replaced(small.push('\\'), '/', '\\')) == without_backslashes(
            replaced(small, '/', '\\'),
        ),
        replaced(replaced(small, '\\', '/'), '/', '\\') == replaced(small, '/', '\\'),
{
    let plain = replaced(small, '/', '\\');
    assert(replaced(small.push('/'), '/', '\\') =~= plain.push('\\'));
    assert(replaced(small.push('\\'), '/', '\\') =~= plain.push('\\'));
    assert(plain.push('\\').drop_last() =~= plain);
    assert(replaced(replaced(small, '\\', '/'), '/', '\\') =~= plain);
}

// What the terminal finds.

/// The lines of a text that are not blank, without the white space round them.
pub open spec fn filled_lines(lines: Seq<Seq<char>>) -> Seq<Seq<char>>
    decreases lines.len(),
{
    if lines.len() == 0 {
        seq![]
    } else if text::trimmed(lines.last()).len() == 0 {
        filled_lines(lines.drop_last())
    } else {
        filled_lines(lines.drop_last()).push(text::trimmed(lines.last()))
    }
}

/// Reads the places of the command out of the output of `where`.
pub fn where_hits(stdout: &Vec<u8>) -> (r: Vec<String>)
    ensures
        text::texts(r@) == filled_lines(text::lines(encoding::lossy(stdout@))),
{
    let s = encoding::lossy_text(stdout);
    read_hits(s.as_str())
}

/// Reads the places of the command out of a text.
pub fn read_hits(output: &str) -> (r: Vec<String>)
    ensures
        text::texts(r@) == filled_lines(text::lines(output@)),
{
    let lines = text::split_lines(&text::to_chars(output));
    let ghost all = text::lines(output@);
    let mut r: Vec<String> = Vec::new();
    assert(text::texts(r@) =~= filled_lines(all.take(0)));
    for i in 0..lines.len()
        invariant
            all == text::views(lines@),
            text::texts(r@) == filled_lines(all.take(i as int)),
    {
        let ghost before = r@;
        proof {
            assert(all.take(i as int + 1).drop_last() =~= all.take(i as int));
            assert(all.take(i as int + 1).last() == lines@[i as int]@);
        }
        let line = text::trim(&lines[i]);
        if line.len() > 0 {
            r.push(text::from_chars(&line));
            assert(text::texts(r@) =~= text::texts(before).push(line@));
        }
    }
    assert(all.take(all.len() as int) =~= all);
    r
}

/// A place of the command.
pub struct Hit {
    pub path: String,
    /// The directory it lies in, where it lies in one.
    pub parent: Option<String>,
}

/// What a place is.
#[verifier::ext_equal]
pub struct HitView {
    pub path: Seq<char>,
    pub parent: Option<Seq<char>>,
}

impl View for Hit {
    type V = HitView;

    open spec fn view(&self) -> HitView {
        HitView { path: self.path@, parent: text::maybe_owned(self.parent) }
    }
}

/// What the places are.
pub open spec fn hits(v: Seq<Hit>) -> Seq<HitView> {
    v.map_values(|h: Hit| h@)
}

/// Whether a place lies in the directory that the shell manages.
pub open spec fn is_own(hit: HitView, prefix: Seq<char>) -> bool {
    match hit.parent {
        Some(dir) => normal_dir(dir) == normal_dir(prefix),
        None => false,
    }
}

/// The places that lie elsewhere, in their order.
pub open spec fn foreign(found: Seq<HitView>, prefix: Seq<char>) -> Seq<Seq<char>>
    decreases found.len(),
{
    if found.len() == 0 {
        seq![]
    } else if is_own(found.last(), prefix) {
        foreign(found.drop_last(), prefix)
    } else {
        foreign(found.drop_last(), prefix).push(found.last().path)
    }
}

/// How the command of the terminal stands to that of the shell.
#[derive(Clone, Copy, PartialEq, Eq, Structural, Debug)]
pub enum CliKind {
    /// It is the same.
    Unified,
    /// It comes from another global installation with npm.
    NpmGlobal,
    /// It comes from elsewhere.
    OtherPath,
    /// There is none.
    Missing,
}

/// The name of a kind.
pub open spec fn kind_text(kind: CliKind) -> Seq<char> {
    match kind {
        CliKind::Unified => "ok"@,
        CliKind::NpmGlobal => "npm-global"@,
        CliKind::OtherPath => "other-path"@,
        CliKind::Missing => "missing"@,
    }
}

/// The name of a kind.
pub fn kind_name(kind: CliKind) -> (r: &'static str)
    ensures
        r@ == kind_text(kind),
{
    match kind {
        CliKind::Unified => "ok",
        CliKind::NpmGlobal => "npm-global",
        CliKind::OtherPath => "other-path",
        CliKind::Missing => "missing",
    }
}

/// How the command of the terminal stands to that of the shell, given the
/// directory of the first place and that of the shell, in the form in which they
/// are compared.
pub open spec fn kind_by(
    winner: Option<Option<Seq<char>>>,
    own: Seq<char>,
    package_beside: bool,
) -> CliKind {
    match winner {
        None => CliKind::Missing,
        Some(Some(dir)) => if dir == own {
            CliKind::Unified
        } else if package_beside {
            CliKind::NpmGlobal
        } else {
            CliKind::OtherPath
        },
        Some(None) => if own.len() == 0 {
            CliKind::Unified
        } else {
            CliKind::OtherPath
        },
    }
}

/// Tells how the command of the terminal stands to that of the shell, given the
/// directory of the first place, where there is one, and that of the shell, in
/// the form in which they are compared.
pub fn classify(winner: Option<Option<String>>, own: &str, package_beside: bool) -> (r: CliKind)
    ensures
        r == kind_by(
            match winner {
                Some(dir) => Some(text::maybe_owned(dir)),
                None => None,
            },
            own@,
            package_beside,
        ),
{
    match winner {
        None => CliKind::Missing,
        Some(Some(dir)) => if text::same_text(dir.as_str(), own) {
            CliKind::Unified
        } else if package_beside {
            CliKind::NpmGlobal
        } else {
            CliKind::OtherPath
        },
        Some(None) => if own.is_empty() {
            CliKind::Unified
        } else {
            CliKind::OtherPath
        },
    }
}

/// How the command of the terminal stands to that of the shell. The first place
/// decides; where it lies elsewhere, the package beside it tells an
/// installation with npm.
pub open spec fn kind_of(
    found: Seq<HitView>,
    prefix: Seq<char>,
    package_beside: bool,
) -> CliKind {
    kind_by(
        if found.len() == 0 {
            None
        } else {
            Some(
                match found[0].parent {
                    Some(dir) => Some(normal_dir(dir)),
                    None => None,
                },
            )
        },
        normal_dir(prefix),
        package_beside,
    )
}

/// How the command of the terminal stands to that of the shell.
pub struct DshCliStatus {
    /// Whether it is the same.
    pub unified: bool,
    pub kind: CliKind,
    /// The prefix that the shell manages.
    pub app_prefix: String,
    /// The place that the terminal runs.
    pub terminal_path: Option<String>,
    /// The places that lie elsewhere.
    pub foreign_paths: Vec<String>,
}

/// Tells how the command of the terminal stands to that of the shell, given the
/// places in the order of the search path, and whether the package of dsh lies
/// beside the first one.
pub fn scan_terminal_dsh(prefix: &str, found: &Vec<Hit>, package_beside: bool) -> (r: DshCliStatus)
    ensures
        r.kind == kind_of(hits(found@), prefix@, package_beside),
        r.unified == (r.kind == CliKind::Unified),
        r.app_prefix@ == launch::shown_path(prefix@),
        text::maybe_owned(r.terminal_path) == (if found@.len() > 0 {
            Some(found@[0].path@)
        } else {
            None
        }),
        text::texts(r.foreign_paths@) == foreign(hits(found@), prefix@),
{
    let own = normalize_dir(prefix);
    let ghost all = hits(found@);
    let mut elsewhere: Vec<String> = Vec::new();
    assert(text::texts(elsewhere@) =~= foreign(all.take(0), prefix@));
    for i in 0..found.len()
        invariant
            all == hits(found@),
            own@ == normal_dir(prefix@),
            text::texts(elsewhere@) == foreign(all.take(i as int), prefix@),
    {
        let ghost before = elsewhere@;
        proof {
            assert(all.take(i as int + 1).drop_last() =~= all.take(i as int));
            assert(all.take(i as int + 1).last() == found@[i as int]@);
        }
        let here = match &found[i].parent {
            Some(dir) => text::same_text(normalize_dir(dir.as_str()).as_str(), own.as_str()),
            None => false,
        };
        if !here {
            elsewhere.push(found[i].path.clone());
            assert(text::texts(elsewhere@) =~= text::texts(before).push(found@[i as int].path@));
        }
    }
    assert(all.take(all.len() as int) =~= all);
    let (kind, terminal) = if found.len() == 0 {
        (classify(None, own.as_str(), package_beside), None)
    } else {
        assert(all[0] == found@[0]@);
        let winner = match &found[0].parent {
            Some(dir) => Some(normalize_dir(dir.as_str())),
            None => None,
        };
        (classify(Some(winner), own.as_str(), package_beside), Some(found[0].path.clone()))
    };
    DshCliStatus {
        unified: kind == CliKind::Unified,
        kind,
        app_prefix: launch::display_path(prefix),
        terminal_path: terminal,
        foreign_paths: elsewhere,
    }
}

/// The status where the terminal and the shell share one prefix by themselves.
pub fn shared_terminal_dsh(prefix: Option<&str>) -> (r: DshCliStatus)
    ensures
        r.unified,
        r.kind == CliKind::Unified,
        r.app_prefix@ == match prefix {
            Some(p) => launch::shown_path(p@),
            None => Seq::<char>::empty(),
        },
        r.terminal_path is None,
        r.foreign_paths@.len() == 0,
{
    DshCliStatus {
        unified: true,
        kind: CliKind::Unified,
        app_prefix: match prefix {
            Some(p) => launch::display_path(p),
            None => String::new(),
        },
        terminal_path: None,
        foreign_paths: Vec::new(),
    }
}

/// Where the terminal runs the command of the shell, the first place lies in the
/// directory that the shell manages, whatever is found behind it.
pub proof fn lemma_first_place_decides(
    found: Seq<HitView>,
    more: Seq<HitView>,
    prefix: Seq<char>,
    package_beside: bool,
)
    requires
        found.len() > 0,
    ensures
        kind_of(found + more, prefix, package_beside) == kind_of(found, prefix, package_beside),
        found[0].parent is Some ==> (kind_of(found, prefix, package_beside) == CliKind::Unified <==> is_own(
            found[0],
            prefix,
        )),
{
    assert((found + more)[0] == found[0]);
}

// Scripts.

/// What running a script gives: whether it succeeded, and all of its output.
pub open spec fn script_result(out: Result<(bool, Vec<u8>, Vec<u8>), String>) -> (bool, Seq<char>) {
    match out {
        Ok((success, stdout, stderr)) => (
            success,
            encoding::lossy(stdout@) + encoding::lossy(stderr@),
        ),
        Err(e) => (false, e@),
    }
}

/// Reads what running a script gave: whether it succeeded, its output and its
/// errors, or why it could not be run.
pub fn run_ps(out: Result<(bool, Vec<u8>, Vec<u8>), String>) -> (r: (bool, String))
    ensures
        (r.0, r.1@) == script_result(out),
{
    match out {
        Ok((success, stdout, stderr)) => {
            let mut s = encoding::lossy_text(&stdout);
            s.append(encoding::lossy_text(&stderr).as_str());
            (success, s)
        },
        Err(e) => (false, e),
    }
}

/// What came of putting the prefix on the search path of the user, given what
/// the script gave; it is not run where the prefix is not known.
pub fn ensure_user_path_contains_prefix(is_en: bool, script: Option<(bool, String)>) -> (r: Result<
    (),
    String,
>)
    ensures
        match script {
            None => r is Err && r->Err_0@ == locale::chosen(
                is_en,
                "Cannot locate the global npm prefix"@,
                "无法定位全局前缀"@,
            ),
            Some((true, _)) => r is Ok,
            Some((false, out)) => r is Err && r->Err_0@ == locale::chosen(
                is_en,
                "Failed to write the user PATH: "@,
                "写入用户 PATH 失败: "@,
            ) + out@,
        },
{
    match script {
        None => Err(
            locale::tr(
                is_en,
                "Cannot locate the global npm prefix",
                "无法定位全局前缀",
            ).to_owned(),
        ),
        Some((ok, out)) => if ok {
            Ok(())
        } else {
            Err(
                text::glue(
                    locale::tr(
                        is_en,
                        "Failed to write the user PATH: ",
                        "写入用户 PATH 失败: ",
                    ),
                    out.as_str(),
                ),
            )
        },
    }
}

/// What came of uninstalling a foreign dsh with the rights of an administrator,
/// given what the script gave.
pub fn elevated_npm_uninstall(is_en: bool, script: (bool, String)) -> (r: Result<(), String>)
    ensures
        script.0 ==> r is Ok,
        !script.0 ==> r is Err && r->Err_0@ == locale::chosen(
            is_en,
            "Elevated uninstall failed (user cancelled or npm error): "@,
            "提权卸载失败（用户取消或 npm 出错）: "@,
        ) + script.1@,
{
    let (ok, out) = script;
    if ok {
        Ok(())
    } else {
        Err(
            text::glue(
                locale::tr(
                    is_en,
                    "Elevated uninstall failed (user cancelled or npm error): ",
                    "提权卸载失败（用户取消或 npm 出错）: ",
                ),
                out.as_str(),
            ),
        )
    }
}

// Removing a foreign dsh.

/// A removal of a foreign dsh without further rights: the next file, counted
/// from the probe that nothing is removed before.
#[derive(Clone, Copy, PartialEq, Eq, Structural, Debug)]
pub struct Removal {
    pub step: u8,
}

/// What a removal asks for.
#[derive(Clone, Copy, PartialEq, Eq, Structural, Debug)]
pub enum RemovalAction {
    /// Remove one of the files of the command, where it exists.
    File(Shim),
    /// Remove the package, where it exists.
    Package,
    /// The removal is over; whether it succeeded.
    Done(bool),
}

/// The files of the command.
#[derive(Clone, Copy, PartialEq, Eq, Structural, Debug)]
pub enum Shim {
    Plain,
    Cmd,
    Ps1,
}

/// The name of a file of the command.
pub fn shim_name(shim: Shim) -> (r: &'static str)
    ensures
        r@ == match shim {
            Shim::Plain => "dsh"@,
            Shim::Cmd => "dsh.cmd"@,
            Shim::Ps1 => "dsh.ps1"@,
        },
{
    match shim {
        Shim::Plain => "dsh",
        Shim::Cmd => "dsh.cmd",
        Shim::Ps1 => "dsh.ps1",
    }
}

impl Removal {
    /// A removal that waits for the probe whether the directory can be written.
    pub fn new() -> (r: Self)
        ensures
            r.step == 0,
    {
        Removal { step: 0 }
    }

    /// Takes the next step of a removal, given whether the last one succeeded:
    /// nothing is removed unless the directory can be written, and the first
    /// failure ends the removal.
    pub fn try_remove_foreign_direct(&mut self, ok: bool) -> (r: RemovalAction)
        requires
            old(self).step <= 4,
        ensures
            !ok ==> r == RemovalAction::Done(false) && *final(self) == *old(self),
            ok ==> final(self).step == old(self).step + 1 && r == match old(self).step {
                0u8 => RemovalAction::File(Shim::Plain),
                1u8 => RemovalAction::File(Shim::Cmd),
                2u8 => RemovalAction::File(Shim::Ps1),
                3u8 => RemovalAction::Package,
                _ => RemovalAction::Done(true),
            },
    {
        if !ok {
            return RemovalAction::Done(false);
        }
        let step = self.step;
        self.step = step + 1;
        if step == 0 {
            RemovalAction::File(Shim::Plain)
        } else if step == 1 {
            RemovalAction::File(Shim::Cmd)
        } else if step == 2 {
            RemovalAction::File(Shim::Ps1)
        } else if step == 3 {
            RemovalAction::Package
        } else {
            RemovalAction::Done(true)
        }
    }
}

// Making the two commands one.

/// What a repair waits for.
#[derive(Clone, Copy, PartialEq, Eq, Structural, Debug)]
pub enum UnifyPhase {
    /// The status.
    First,
    /// The prefix on the search path, which misses the command.
    MissingPath,
    /// The status after that.
    AfterPath,
    /// The removal of the foreign command.
    Removal,
    /// Its removal with the rights of an administrator.
    Uninstall,
    /// The status after that.
    AfterRemoval,
    /// The prefix on the search path, after the removal.
    RemovedPath,
    /// The last status.
    Last,
    /// Nothing any more.
    Over,
}

/// A repair of the command of the terminal.
pub struct Unify {
    pub phase: UnifyPhase,
    /// The directory of the foreign command, once it is known.
    pub winner: String,
}

/// What a repair is told.
pub enum UnifyEvent {
    /// The status, and the directory of the command of the terminal.
    Scanned { status: DshCliStatus, winner: Option<String> },
    /// What came of putting the prefix on the search path.
    PathEnsured(Result<(), String>),
    /// Whether the foreign command was removed.
    Removed(bool),
    /// What came of its removal with the rights of an administrator.
    Uninstalled(Result<(), String>),
}

/// What a repair asks for.
pub enum UnifyAction {
    Scan,
    EnsurePath,
    /// Remove the foreign command from the directory.
    RemoveDirect(String),
    /// Remove it with the rights of an administrator.
    Uninstall(String),
    /// The repair is over, with a message for the user.
    Finish(Result<String, String>),
}

/// Whether the action ends the repair well, with the given message.
pub open spec fn succeeds(action: UnifyAction, message: Seq<char>) -> bool {
    action matches UnifyAction::Finish(Ok(m)) && m@ == message
}

/// Whether the action ends the repair badly, with the given message.
pub open spec fn gives_up(action: UnifyAction, message: Seq<char>) -> bool {
    action matches UnifyAction::Finish(Err(m)) && m@ == message
}

/// The message that a foreign command was removed.
pub open spec fn removed_text(is_en: bool, winner: Seq<char>) -> Seq<char> {
    locale::chosen(is_en, "Removed the hijacking copy ("@, "已移除抢占副本（"@)
        + launch::shown_path(winner) + locale::chosen(
        is_en,
        "); terminal dsh is now in sync with the desktop shell"@,
        "），终端 dsh 现与桌面壳同源"@,
    )
}

/// The message that a command comes from elsewhere.
pub open spec fn elsewhere_text(is_en: bool, paths: Seq<Seq<char>>) -> Seq<char> {
    locale::chosen(
        is_en,
        "Detected a non-npm dsh taking over PATH ("@,
        "检测到非 npm 来源的 dsh 抢占 PATH（"@,
    ) + text::joined(paths, ", "@) + locale::chosen(
        is_en,
        "); handle it manually in Settings"@,
        "），请在设置中手动处理"@,
    )
}

/// Writes the message that a foreign command was removed.
fn write_removed(is_en: bool, winner: &str) -> (r: String)
    ensures
        r@ == removed_text(is_en, winner@),
{
    let mut s = locale::tr(is_en, "Removed the hijacking copy (", "已移除抢占副本（").to_owned();
    s.append(launch::display_path(winner).as_str());
    s.append(
        locale::tr(
            is_en,
            "); terminal dsh is now in sync with the desktop shell",
            "），终端 dsh 现与桌面壳同源",
        ),
    );
    s
}

/// Writes the message that a command comes from elsewhere.
fn write_elsewhere(is_en: bool, paths: &Vec<String>) -> (r: String)
    ensures
        r@ == elsewhere_text(is_en, text::texts(paths@)),
{
    let mut s = locale::tr(
        is_en,
        "Detected a non-npm dsh taking over PATH (",
        "检测到非 npm 来源的 dsh 抢占 PATH（",
    ).to_owned();
    s.append(text::join(paths, ", ").as_str());
    s.append(
        locale::tr(is_en, "); handle it manually in Settings", "），请在设置中手动处理"),
    );
    s
}

impl Unify {
    /// Begins a repair; where the terminal and the shell share one prefix by
    /// themselves there is nothing to repair.
    pub fn begin(windows: bool) -> (r: (Self, UnifyAction))
        ensures
            windows ==> r.0.phase == UnifyPhase::First && r.1 is Scan,
            !windows ==> r.0.phase == UnifyPhase::Over && succeeds(
                r.1,
                "此平台暂无需统一"@,
            ),
    {
        if windows {
            (Unify { phase: UnifyPhase::First, winner: String::new() }, UnifyAction::Scan)
        } else {
            (
                Unify { phase: UnifyPhase::Over, winner: String::new() },
                UnifyAction::Finish(Ok("此平台暂无需统一".to_owned())),
            )
        }
    }

    /// Whether the repair waits for the event.
    pub open spec fn expects(self, event: UnifyEvent) -> bool {
        match event {
            UnifyEvent::Scanned { .. } => self.phase == UnifyPhase::First || self.phase
                == UnifyPhase::AfterPath || self.phase == UnifyPhase::AfterRemoval || self.phase
                == UnifyPhase::Last,
            UnifyEvent::PathEnsured(_) => self.phase == UnifyPhase::MissingPath || self.phase
                == UnifyPhase::RemovedPath,
            UnifyEvent::Removed(_) => self.phase == UnifyPhase::Removal,
            UnifyEvent::Uninstalled(_) => self.phase == UnifyPhase::Uninstall,
        }
    }

    /// What the repair does with a status.
    pub open spec fn scanned(
        self,
        status: DshCliStatus,
        winner: Option<Seq<char>>,
        is_en: bool,
        after: Unify,
        action: UnifyAction,
    ) -> bool {
        match self.phase {
            UnifyPhase::First => if status.unified {
                after.phase == UnifyPhase::Over && succeeds(
                    action,
                    locale::chosen(
                        is_en,
                        "Terminal dsh is already in sync with the desktop shell"@,
                        "终端 dsh 已与桌面壳同源"@,
                    ),
                )
            } else if status.kind == CliKind::Missing {
                after.phase == UnifyPhase::MissingPath && action is EnsurePath
            } else if status.kind == CliKind::NpmGlobal {
                match winner {
                    Some(dir) => after.phase == UnifyPhase::Removal && after.winner@ == dir && (
                    action matches UnifyAction::RemoveDirect(d) && d@ == dir),
                    None => after.phase == UnifyPhase::Over && gives_up(
                        action,
                        locale::chosen(
                            is_en,
                            "Cannot locate the hijacking source directory"@,
                            "无法定位抢占来源目录"@,
                        ),
                    ),
                }
            } else {
                after.phase == UnifyPhase::Over && gives_up(
                    action,
                    elsewhere_text(is_en, text::texts(status.foreign_paths@)),
                )
            },
            UnifyPhase::AfterPath => after.phase == UnifyPhase::Over && if status.unified {
                succeeds(
                    action,
                    locale::chosen(
                        is_en,
                        "Added the global prefix to the user PATH; takes effect in new terminals"@,
                        "已把全局前缀加入用户 PATH，新开终端即生效"@,
                    ),
                )
            } else {
                gives_up(
                    action,
                    locale::chosen(
                        is_en,
                        "PATH was written but dsh still does not resolve; check your environment variables"@,
                        "已写入 PATH 但仍解析异常，请检查环境变量"@,
                    ),
                )
            },
            UnifyPhase::AfterRemoval => after.winner == self.winner && if status.kind
                == CliKind::Missing {
                after.phase == UnifyPhase::RemovedPath && action is EnsurePath
            } else {
                after.phase == UnifyPhase::Last && action is Scan
            },
            _ => after.phase == UnifyPhase::Over && if status.unified {
                succeeds(action, removed_text(is_en, self.winner@))
            } else {
                gives_up(
                    action,
                    locale::chosen(
                        is_en,
                        "Uninstalled, but terminal dsh still does not resolve; restart your terminal and try again"@,
                        "卸载完成但终端解析仍异常，请重启终端后重试"@,
                    ),
                )
            },
        }
    }

    /// What the repair does on an event.
    pub open spec fn moves(
        self,
        event: UnifyEvent,
        is_en: bool,
        after: Unify,
        action: UnifyAction,
    ) -> bool {
        match event {
            UnifyEvent::Scanned { status, winner } => self.scanned(
                status,
                text::maybe_owned(winner),
                is_en,
                after,
                action,
            ),
            UnifyEvent::PathEnsured(result) => after.winner == self.winner && if self.phase
                == UnifyPhase::MissingPath {
                match result {
                    Ok(_) => after.phase == UnifyPhase::AfterPath && action is Scan,
                    Err(e) => after.phase == UnifyPhase::Over && gives_up(action, e@),
                }
            } else {
                after.phase == UnifyPhase::Last && action is Scan
            },
            UnifyEvent::Removed(ok) => after.winner == self.winner && if ok {
                after.phase == UnifyPhase::AfterRemoval && action is Scan
            } else {
                after.phase == UnifyPhase::Uninstall && (action matches UnifyAction::Uninstall(d)
                    && d@ == self.winner@)
            },
            UnifyEvent::Uninstalled(result) => after.winner == self.winner && match result {
                Ok(_) => after.phase == UnifyPhase::AfterRemoval && action is Scan,
                Err(e) => after.phase == UnifyPhase::Over && gives_up(action, e@),
            },
        }
    }

    /// Ends the repair.
    fn finish(&mut self, result: Result<String, String>) -> (r: UnifyAction)
        ensures
            final(self).phase == UnifyPhase::Over,
            final(self).winner == old(self).winner,
            r == UnifyAction::Finish(result),
    {
        self.phase = UnifyPhase::Over;
        UnifyAction::Finish(result)
    }

    /// Goes on with a status.
    fn take_status(&mut self, status: DshCliStatus, winner: Option<String>, is_en: bool) -> (r:
        UnifyAction)
        ensures
            old(self).scanned(status, text::maybe_owned(winner), is_en, *final(self), r),
    {
        match self.phase {
            UnifyPhase::First => if status.unified {
                self.finish(
                    Ok(
                        locale::tr(
                            is_en,
                            "Terminal dsh is already in sync with the desktop shell",
                            "终端 dsh 已与桌面壳同源",
                        ).to_owned(),
                    ),
                )
            } else {
                match status.kind {
                    CliKind::Missing => {
                        self.phase = UnifyPhase::MissingPath;
                        UnifyAction::EnsurePath
                    },
                    CliKind::NpmGlobal => match winner {
                        Some(dir) => {
                            self.phase = UnifyPhase::Removal;
                            self.winner = dir;
                            UnifyAction::RemoveDirect(self.winner.clone())
                        },
                        None => self.finish(
                            Err(
                                locale::tr(
                                    is_en,
                                    "Cannot locate the hijacking source directory",
                                    "无法定位抢占来源目录",
                                ).to_owned(),
                            ),
                        ),
                    },
                    _ => {
                        let message = write_elsewhere(is_en, &status.foreign_paths);
                        self.finish(Err(message))
                    },
                }
            },
            UnifyPhase::AfterPath => if status.unified {
                self.finish(
                    Ok(
                        locale::tr(
                            is_en,
                            "Added the global prefix to the user PATH; takes effect in new terminals",
                            "已把全局前缀加入用户 PATH，新开终端即生效",
                        ).to_owned(),
                    ),
                )
            } else {
                self.finish(
                    Err(
                        locale::tr(
                            is_en,
                            "PATH was written but dsh still does not resolve; check your environment variables",
                            "已写入 PATH 但仍解析异常，请检查环境变量",
                        ).to_owned(),
                    ),
                )
            },
            UnifyPhase::AfterRemoval => match status.kind {
                CliKind::Missing => {
                    self.phase = UnifyPhase::RemovedPath;
                    UnifyAction::EnsurePath
                },
                _ => {
                    self.phase = UnifyPhase::Last;
                    UnifyAction::Scan
                },
            },
            _ => if status.unified {
                let message = write_removed(is_en, self.winner.as_str());
                self.finish(Ok(message))
            } else {
                self.finish(
                    Err(
                        locale::tr(
                            is_en,
                            "Uninstalled, but terminal dsh still does not resolve; restart your terminal and try again",
                            "卸载完成但终端解析仍异常，请重启终端后重试",
                        ).to_owned(),
                    ),
                )
            },
        }
    }
}

/// Takes the next step of a repair: where the terminal has no command, the
/// prefix of the shell is put on the search path; where it has one of another
/// installation with npm, that one is removed; any other one is left to the
/// user.
pub fn unify_terminal_dsh(repair: &mut Unify, event: UnifyEvent, is_en: bool) -> (r: UnifyAction)
    requires
        old(repair).expects(event),
    ensures
        old(repair).moves(event, is_en, *final(repair), r),
{
    match event {
        UnifyEvent::Scanned { status, winner } => repair.take_status(status, winner, is_en),
        UnifyEvent::PathEnsured(result) => match repair.phase {
            UnifyPhase::MissingPath => match result {
                Ok(_) => {
                    repair.phase = UnifyPhase::AfterPath;
                    UnifyAction::Scan
                },
                Err(e) => repair.finish(Err(e)),
            },
            _ => {
                repair.phase = UnifyPhase::Last;
                UnifyAction::Scan
            },
        },
        UnifyEvent::Removed(ok) => if ok {
            repair.phase = UnifyPhase::AfterRemoval;
            UnifyAction::Scan
        } else {
            repair.phase = UnifyPhase::Uninstall;
            UnifyAction::Uninstall(repair.winner.clone())
        },
        UnifyEvent::Uninstalled(result) => match result {
            Ok(_) => {
                repair.phase = UnifyPhase::AfterRemoval;
                UnifyAction::Scan
            },
            Err(e) => repair.finish(Err(e)),
        },
    }
}

/// How far a repair has come.
pub open spec fn unify_progress(phase: UnifyPhase) -> nat {
    match phase {
        UnifyPhase::First => 0,
        UnifyPhase::MissingPath => 1,
        UnifyPhase::AfterPath => 2,
        UnifyPhase::Removal => 1,
        UnifyPhase::Uninstall => 2,
        UnifyPhase::AfterRemoval => 3,
        UnifyPhase::RemovedPath => 4,
        UnifyPhase::Last => 5,
        UnifyPhase::Over => 6,
    }
}

/// A repair ends after six steps at most. It ends well only when the last status
/// says that the two commands are one, and it removes only a command of an
/// installation with npm.
pub proof fn lemma_repair_ends(
    before: Unify,
    event: UnifyEvent,
    is_en: bool,
    after: Unify,
    action: UnifyAction,
)
    requires
        before.expects(event),
        before.moves(event, is_en, after, action),
    ensures
        unify_progress(before.phase) < unify_progress(after.phase) <= 6,
        action is Finish <==> after.phase == UnifyPhase::Over,
        (action matches UnifyAction::Finish(Ok(_))) ==> (
        event matches UnifyEvent::Scanned { status, .. } && status.unified),
        action is RemoveDirect ==> (event matches UnifyEvent::Scanned { status, .. } && status.kind
            == CliKind::NpmGlobal && !status.unified),
{
}

// The automatic repair.

/// What the shell does by itself about the command of the terminal.
#[derive(Clone, Copy, PartialEq, Eq, Structural, Debug)]
pub enum AutoUnify {
    /// Nothing; the commands are one.
    InSync,
    /// Nothing; a repair has failed not long ago.
    CoolingDown,
    Repair,
}

/// Decides what the shell does by itself about the command of the terminal,
/// given how many seconds ago a repair has failed, where one has.
pub fn auto_unify_dsh_cli(unified: bool, failed_ago: Option<u64>) -> (r: AutoUnify)
    ensures
        r == if unified {
            AutoUnify::InSync
        } else if failed_ago is Some && failed_ago->0 < COOLDOWN {
            AutoUnify::CoolingDown
        } else {
            AutoUnify::Repair
        },
{
    if unified {
        return AutoUnify::InSync;
    }
    match failed_ago {
        Some(age) => if age < COOLDOWN {
            AutoUnify::CoolingDown
        } else {
            AutoUnify::Repair
        },
        None => AutoUnify::Repair,
    }
}

/// What is done about the mark of a failed repair.
#[derive(Clone, Copy, PartialEq, Eq, Structural, Debug)]
pub enum FailureMark {
    Remove,
    Write,
}

/// Decides about the mark of a failed repair after an automatic one.
pub fn mark_after(result: &Result<String, String>) -> (r: FailureMark)
    ensures
        r == if result is Ok {
            FailureMark::Remove
        } else {
            FailureMark::Write
        },
{
    match result {
        Ok(_) => FailureMark::Remove,
        Err(_) => FailureMark::Write,
    }
}

// Laws.

/// How a directory in small letters is brought into the form in which it is
/// compared: every slash becomes a backslash, those at the end are cut off, all of
/// them, and nothing else changes.
pub proof fn lemma_form_of_a_directory(small: &str, r: String, core: Seq<char>, slashes: Seq<char>)
    requires
        call_ensures(normalize_lowered, (small,), r),
        small@ == core + slashes,
        forall|i: int|
            0 <= i < slashes.len() ==> #[trigger] slashes[i] == '/' || slashes[i] == '\\',
        core.len() > 0 ==> core.last() != '/' && core.last() != '\\',
    ensures
        r@.len() == core.len(),
        forall|i: int|
            0 <= i < core.len() ==> #[trigger] r@[i] == if core[i] == '/' {
                '\\'
            } else {
                core[i]
            },
{
    let plain = replaced(core, '/', '\\');
    let tail = replaced(slashes, '/', '\\');
    assert(replaced(small@, '/', '\\') =~= plain + tail);
    assert forall|i: int| 0 <= i < tail.len() implies #[trigger] tail[i] == '\\' by {
        assert(slashes[i] == '/' || slashes[i] == '\\');
    }
    lemma_backslashes_at_the_end(plain, tail);
}

proof fn lemma_backslashes_at_the_end(core: Seq<char>, tail: Seq<char>)
    requires
        forall|i: int| 0 <= i < tail.len() ==> #[trigger] tail[i] == '\\',
        core.len() > 0 ==> core.last() != '\\',
    ensures
        without_backslashes(core + tail) == core,
    decreases tail.len(),
{
    if tail.len() > 0 {
        assert((core + tail).last() == tail.last());
        assert((core + tail).drop_last() =~= core + tail.drop_last());
        lemma_backslashes_at_the_end(core, tail.drop_last());
    } else {
        assert(core + tail =~= core);
    }
}

/// The form of a directory goes through small letters, without the prefix of long
/// paths, so that a long path and a short one are the same.
pub proof fn lemma_long_paths_do_not_count(path: Seq<char>)
    ensures
        normal_dir("\\\\?\\"@ + path) == without_backslashes(
            replaced(encoding::lowercase(path), '/', '\\'),
        ),
{
    launch::lemma_shown_path(path);
}

/// The places that are read are the lines that hold anything but white space, in
/// their order, without the white space round them.
pub proof fn lemma_places_are_the_filled_lines(lines: Seq<Seq<char>>)
    ensures
        filled_lines(lines) == lines.map_values(|l: Seq<char>| text::trimmed(l)).filter(
            |l: Seq<char>| l.len() > 0,
        ),
    decreases lines.len(),
{
    reveal(Seq::filter);
    let all = lines.map_values(|l: Seq<char>| text::trimmed(l));
    if lines.len() > 0 {
        lemma_places_are_the_filled_lines(lines.drop_last());
        assert(all.drop_last() =~= lines.drop_last().map_values(|l: Seq<char>| text::trimmed(l)));
    } else {
        assert(all =~= seq![]);
    }
}

/// The foreign places are all those that do not lie in the directory of the shell,
/// in their order.
pub proof fn lemma_foreign_places(found: Seq<HitView>, prefix: Seq<char>)
    ensures
        foreign(found, prefix) == found.filter(
            |hit: HitView|
                !(hit.parent is Some && normal_dir(hit.parent->0) == normal_dir(prefix)),
        ).map_values(|hit: HitView| hit.path),
    decreases found.len(),
{
    reveal(Seq::filter);
    let pred = |hit: HitView|
        !(hit.parent is Some && normal_dir(hit.parent->0) == normal_dir(prefix));
    if found.len() > 0 {
        lemma_foreign_places(found.drop_last(), prefix);
        let rest = found.drop_last().filter(pred);
        assert(found.filter(pred).map_values(|hit: HitView| hit.path) =~= if pred(found.last()) {
            rest.map_values(|hit: HitView| hit.path).push(found.last().path)
        } else {
            rest.map_values(|hit: HitView| hit.path)
        });
    } else {
        assert(found.filter(pred).map_values(|hit: HitView| hit.path) =~= seq![]);
    }
}

/// How the command of the terminal stands to that of the shell: there is none
/// exactly where nothing was found; it is the same exactly where the first place
/// lies in the directory of the shell; and otherwise it is one of npm exactly where
/// the package of dsh lies beside it. The place that the terminal runs is the first.
pub proof fn lemma_status_of_the_terminal(
    prefix: &str,
    found: &Vec<Hit>,
    package_beside: bool,
    r: DshCliStatus,
)
    requires
        call_ensures(scan_terminal_dsh, (prefix, found, package_beside), r),
    ensures
        r.kind == CliKind::Missing <==> found@.len() == 0,
        r.unified <==> r.kind == CliKind::Unified,
        found@.len() > 0 && found@[0].parent is Some ==> {
            let own = normal_dir(found@[0].parent->0@) == normal_dir(prefix@);
            &&& r.unified <==> own
            &&& r.kind == CliKind::NpmGlobal <==> !own && package_beside
            &&& r.kind == CliKind::OtherPath <==> !own && !package_beside
        },
        found@.len() > 0 && found@[0].parent is None && normal_dir(prefix@).len() > 0 ==> r.kind
            == CliKind::OtherPath,
        r.terminal_path is Some <==> found@.len() > 0,
        r.terminal_path is Some ==> r.terminal_path->0@ == found@[0].path@,
        r.app_prefix@ == launch::shown_path(prefix@),
        r.foreign_paths@.len() <= found@.len(),
        r.foreign_paths@.len() == 0 <==> forall|i: int|
            0 <= i < found@.len() ==> (#[trigger] found@[i]).parent is Some && normal_dir(
                found@[i].parent->0@,
            ) == normal_dir(prefix@),
{
    let all = hits(found@);
    if found@.len() > 0 {
        assert(all[0] == found@[0]@);
    }
    lemma_foreign_count(all, prefix@);
    assert(text::texts(r.foreign_paths@).len() == r.foreign_paths@.len());
    assert forall|i: int| 0 <= i < found@.len() implies is_own(#[trigger] all[i], prefix@) == (
    found@[i].parent is Some && normal_dir(found@[i].parent->0@) == normal_dir(prefix@)) by {
        assert(all[i] == found@[i]@);
    }
    if r.foreign_paths@.len() == 0 {
        assert forall|i: int| 0 <= i < found@.len() implies (#[trigger] found@[i]).parent is Some
            && normal_dir(found@[i].parent->0@) == normal_dir(prefix@) by {
            assert(is_own(all[i], prefix@));
        }
    } else if forall|i: int|
        0 <= i < found@.len() ==> (#[trigger] found@[i]).parent is Some && normal_dir(
            found@[i].parent->0@,
        ) == normal_dir(prefix@) {
        assert forall|i: int| 0 <= i < all.len() implies is_own(#[trigger] all[i], prefix@) by {
            assert(found@[i].parent is Some);
        }
    }
}

proof fn lemma_foreign_count(found: Seq<HitView>, prefix: Seq<char>)
    ensures
        foreign(found, prefix).len() <= found.len(),
        foreign(found, prefix).len() == 0 <==> forall|i: int|
            0 <= i < found.len() ==> is_own(#[trigger] found[i], prefix),
    decreases found.len(),
{
    if found.len() > 0 {
        let short = found.drop_last();
        lemma_foreign_count(short, prefix);
        if foreign(found, prefix).len() == 0 {
            assert forall|i: int| 0 <= i < found.len() implies is_own(
                #[trigger] found[i],
                prefix,
            ) by {
                if i < short.len() {
                    assert(is_own(short[i], prefix));
                }
            }
        } else if forall|i: int| 0 <= i < found.len() ==> is_own(#[trigger] found[i], prefix) {
            assert(is_own(found[found.len() - 1], prefix));
            assert forall|i: int| 0 <= i < short.len() implies is_own(
                #[trigger] short[i],
                prefix,
            ) by {
                assert(short[i] == found[i]);
            }
        }
    }
}

/// The names of the kinds and of the files of the command.
pub proof fn lemma_names(kind: CliKind, name: &'static str, shim: Shim, file: &'static str)
    requires
        call_ensures(kind_name, (kind,), name),
        call_ensures(shim_name, (shim,), file),
    ensures
        kind == CliKind::Unified ==> name@ == "ok"@,
        kind == CliKind::NpmGlobal ==> name@ == "npm-global"@,
        kind == CliKind::OtherPath ==> name@ == "other-path"@,
        kind == CliKind::Missing ==> name@ == "missing"@,
        shim == Shim::Plain ==> file@ == "dsh"@,
        shim == Shim::Cmd ==> file@ == "dsh.cmd"@,
        shim == Shim::Ps1 ==> file@ == "dsh.ps1"@,
{
}

/// What scripts come to: they succeed as they say, and a failure tells what they
/// printed.
pub proof fn lemma_scripts(
    is_en: bool,
    script: Option<(bool, String)>,
    r: Result<(), String>,
    other: (bool, String),
    q: Result<(), String>,
    out: Result<(bool, Vec<u8>, Vec<u8>), String>,
    ran: (bool, String),
)
    requires
        call_ensures(ensure_user_path_contains_prefix, (is_en, script), r),
        call_ensures(elevated_npm_uninstall, (is_en, other), q),
        call_ensures(run_ps, (out,), ran),
    ensures
        r is Ok <==> script is Some && (script->0).0,
        script is Some && r is Err ==> exists|head: Seq<char>| #[trigger]
            (head + (script->0).1@) == r->Err_0@,
        q is Ok <==> other.0,
        q is Err ==> exists|head: Seq<char>| #[trigger] (head + other.1@) == q->Err_0@,
        ran.0 <==> out is Ok && out->Ok_0.0,
        out is Err ==> ran.1@ == out->Err_0@,
        out is Ok ==> ran.1@ == encoding::lossy(out->Ok_0.1@) + encoding::lossy(out->Ok_0.2@),
{
    if script is Some && r is Err {
        let head = locale::chosen(
            is_en,
            "Failed to write the user PATH: "@,
            "写入用户 PATH 失败: "@,
        );
        assert((head + (script->0).1@) == r->Err_0@);
    }
    if q is Err {
        let head = locale::chosen(
            is_en,
            "Elevated uninstall failed (user cancelled or npm error): "@,
            "提权卸载失败（用户取消或 npm 出错）: "@,
        );
        assert((head + other.1@) == q->Err_0@);
    }
}

/// A removal takes the three files of the command and then the package, each once,
/// and succeeds exactly when all of that did; it removes nothing where the directory
/// cannot be written, and nothing more after a failure.
pub proof fn lemma_removals(m: &mut Removal, ok: bool, r: RemovalAction)
    requires
        call_ensures(Removal::try_remove_foreign_direct, (m, ok), r),
        old(m).step <= 4,
    ensures
        !ok <==> r == RemovalAction::Done(false),
        r == RemovalAction::File(Shim::Plain) <==> ok && old(m).step == 0,
        r == RemovalAction::File(Shim::Cmd) <==> ok && old(m).step == 1,
        r == RemovalAction::File(Shim::Ps1) <==> ok && old(m).step == 2,
        r == RemovalAction::Package <==> ok && old(m).step == 3,
        r == RemovalAction::Done(true) <==> ok && old(m).step == 4,
        ok ==> final(m).step == old(m).step + 1,
{
}

/// What a repair does on each event: where the two commands are one already it ends
/// well; where the terminal has none the prefix is put on the search path; where it
/// has one of npm that one is removed, with more rights only where that failed; any
/// other one ends the repair with the places that lie elsewhere. After a change the
/// status is taken again, and decides how the repair ends.
pub proof fn lemma_what_a_repair_does(
    before: Unify,
    event: UnifyEvent,
    is_en: bool,
    after: Unify,
    action: UnifyAction,
)
    requires
        before.expects(event),
        before.moves(event, is_en, after, action),
    ensures
        before.phase == UnifyPhase::First ==> (event matches UnifyEvent::Scanned { status, winner }
            ==> {
            &&& status.unified ==> (action matches UnifyAction::Finish(Ok(_)))
            &&& !status.unified && status.kind == CliKind::Missing ==> action is EnsurePath
                && after.phase == UnifyPhase::MissingPath
            &&& !status.unified && status.kind == CliKind::NpmGlobal && winner is Some ==> (
            action matches UnifyAction::RemoveDirect(d) && d@ == winner->0@ && after.winner@
                == winner->0@)
            &&& !status.unified && status.kind == CliKind::NpmGlobal && winner is None ==> (
            action matches UnifyAction::Finish(Err(_)))
            &&& !status.unified && status.kind == CliKind::OtherPath ==> (
            action matches UnifyAction::Finish(Err(_)))
        }),
        before.phase == UnifyPhase::AfterPath || before.phase == UnifyPhase::Last ==> (
        event matches UnifyEvent::Scanned { status, .. } ==> {
            &&& status.unified <==> (action matches UnifyAction::Finish(Ok(_)))
            &&& !status.unified <==> (action matches UnifyAction::Finish(Err(_)))
        }),
        before.phase == UnifyPhase::AfterRemoval ==> (
        event matches UnifyEvent::Scanned { status, .. } ==> {
            &&& status.kind == CliKind::Missing <==> action is EnsurePath
            &&& status.kind != CliKind::Missing <==> action is Scan
        }),
        before.phase == UnifyPhase::MissingPath ==> (
        event matches UnifyEvent::PathEnsured(done) ==> {
            &&& done is Ok <==> action is Scan
            &&& done is Err ==> (action matches UnifyAction::Finish(Err(m)) && m@
                == done->Err_0@)
        }),
        event matches UnifyEvent::PathEnsured(_) && before.phase == UnifyPhase::RemovedPath
            ==> action is Scan && after.phase == UnifyPhase::Last,
        event == UnifyEvent::Removed(true) ==> action is Scan && after.phase
            == UnifyPhase::AfterRemoval,
        event == UnifyEvent::Removed(false) ==> (action matches UnifyAction::Uninstall(d) && d@
            == before.winner@),
        event matches UnifyEvent::Uninstalled(done) ==> {
            &&& done is Ok <==> action is Scan
            &&& done is Err ==> (action matches UnifyAction::Finish(Err(m)) && m@
                == done->Err_0@)
        },
        action is Uninstall ==> event == UnifyEvent::Removed(false),
        action is EnsurePath ==> (event matches UnifyEvent::Scanned { status, .. } && status.kind
            == CliKind::Missing),
{
}

/// A repair begins with the status, on Windows only.
pub proof fn lemma_repairs_begin(windows: bool, r: (Unify, UnifyAction))
    requires
        call_ensures(Unify::begin, (windows,), r),
    ensures
        windows <==> r.1 is Scan,
        windows ==> r.0.phase == UnifyPhase::First,
        !windows ==> (r.1 matches UnifyAction::Finish(Ok(_))) && r.0.phase == UnifyPhase::Over,
{
}

/// What the shell does by itself: nothing where the commands are one, or where a
/// repair has failed within the last seven days; otherwise it repairs. A repair that
/// fails is marked, and one that succeeds takes the mark away.
pub proof fn lemma_automatic_repairs(
    unified: bool,
    failed_ago: Option<u64>,
    r: AutoUnify,
    result: Result<String, String>,
    mark: FailureMark,
)
    requires
        call_ensures(auto_unify_dsh_cli, (unified, failed_ago), r),
        call_ensures(mark_after, (&result,), mark),
    ensures
        r == AutoUnify::InSync <==> unified,
        r == AutoUnify::CoolingDown <==> !unified && failed_ago is Some && failed_ago->0 < 7 * 24
            * 60 * 60,
        r == AutoUnify::Repair <==> !unified && (failed_ago is None || failed_ago->0 >= 7 * 24 * 60
            * 60),
        mark == FailureMark::Write <==> result is Err,
        mark == FailureMark::Remove <==> result is Ok,
{
}

/// Whatever a repair asks for, it takes any answer to it; and it takes an answer to
/// nothing else.
pub proof fn lemma_repair_takes_every_answer(
    before: Unify,
    event: UnifyEvent,
    is_en: bool,
    after: Unify,
    action: UnifyAction,
    answer: UnifyEvent,
)
    requires
        before.expects(event),
        before.moves(event, is_en, after, action),
    ensures
        after.expects(answer) <==> match action {
            UnifyAction::Scan => answer is Scanned,
            UnifyAction::EnsurePath => answer is PathEnsured,
            UnifyAction::RemoveDirect(_) => answer is Removed,
            UnifyAction::Uninstall(_) => answer is Uninstalled,
            UnifyAction::Finish(_) => false,
        },
{
}

/// The message on a command that comes from elsewhere lists all the foreign places,
/// and the one on a command that was removed names the directory it was removed
/// from.
pub proof fn lemma_messages(is_en: bool, paths: Seq<Seq<char>>, winner: Seq<char>)
    ensures
        exists|a: Seq<char>, b: Seq<char>| #[trigger]
            (a + text::joined(paths, ", "@) + b) == elsewhere_text(is_en, paths),
        exists|a: Seq<char>, b: Seq<char>| #[trigger]
            (a + launch::shown_path(winner) + b) == removed_text(is_en, winner),
{
    let a = locale::chosen(
        is_en,
        "Detected a non-npm dsh taking over PATH ("@,
        "检测到非 npm 来源的 dsh 抢占 PATH（"@,
    );
    let b = locale::chosen(
        is_en,
        "); handle it manually in Settings"@,
        "），请在设置中手动处理"@,
    );
    assert((a + text::joined(paths, ", "@) + b) == elsewhere_text(is_en, paths));
    let c = locale::chosen(is_en, "Removed the hijacking copy ("@, "已移除抢占副本（"@);
    let d = locale::chosen(
        is_en,
        "); terminal dsh is now in sync with the desktop shell"@,
        "），终端 dsh 现与桌面壳同源"@,
    );
    assert((c + launch::shown_path(winner) + d) == removed_text(is_en, winner));
}

/// A repair that failed to remove the command after all ends with what was told; one
/// that met a command from elsewhere ends with the foreign places.
pub proof fn lemma_foreign_places_are_told(
    before: Unify,
    status: DshCliStatus,
    winner: Option<String>,
    is_en: bool,
    after: Unify,
    action: UnifyAction,
)
    requires
        before.moves(UnifyEvent::Scanned { status, winner }, is_en, after, action),
    ensures
        before.phase == UnifyPhase::First && !status.unified && status.kind == CliKind::OtherPath
            ==> gives_up(action, elsewhere_text(is_en, text::texts(status.foreign_paths@))),
        before.phase == UnifyPhase::Last && status.unified ==> succeeds(
            action,
            removed_text(is_en, before.winner@),
        ),
{
}

/// A call takes one step of a repair; the output of a search gives the places that
/// the laws speak of, and a directory the form in which it is compared. A status
/// where the terminal and the shell share one prefix is one of a single command.
pub proof fn lemma_calls(
    repair: &mut Unify,
    event: UnifyEvent,
    is_en: bool,
    action: UnifyAction,
    output: &str,
    places: Vec<String>,
    stdout: &Vec<u8>,
    found: Vec<String>,
    path: &str,
    form: String,
    prefix: Option<&str>,
    shared: DshCliStatus,
)
    requires
        call_ensures(unify_terminal_dsh, (repair, event, is_en), action),
        call_ensures(read_hits, (output,), places),
        call_ensures(where_hits, (stdout,), found),
        call_ensures(normalize_dir, (path,), form),
        call_ensures(shared_terminal_dsh, (prefix,), shared),
    ensures
        old(repair).moves(event, is_en, *final(repair), action),
        text::texts(places@) == filled_lines(text::lines(output@)),
        text::texts(found@) == filled_lines(text::lines(encoding::lossy(stdout@))),
        form@ == normal_dir(path@),
        shared.unified && shared.kind == CliKind::Unified && shared.terminal_path is None
            && shared.foreign_paths@.len() == 0,
        prefix is Some ==> shared.app_prefix@ == launch::shown_path(prefix->0@),
{
}

} // verus!
