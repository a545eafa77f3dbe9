//! The watchdog over the dsh process: what it keeps of the output, when an
//! exit counts as a crash, and when it restarts dsh or gives up.
use std::collections::VecDeque;

use vstd::prelude::*;
use vstd::utf8;

use crate::encoding;
use crate::locale;
use crate::profile;
use crate::text;

verus! {

/// How many lines of the output are kept.
pub const LOG_TAIL_LINES: usize = 60;

/// The number of crashes in a row at which dsh is no longer restarted.
pub const MAX_CRASHES: usize = 3;

/// How long dsh must have been ready, in nanoseconds, for a crash to count as
/// the first one again.
pub const STABLE_UPTIME: u64 = 300_000_000_000;

/// How long to wait before a restart after the plugins were repaired, in
/// milliseconds.
pub const REPAIR_PAUSE: u64 = 500;

// The tail of the log.

/// The last `n` entries of `v`, or all where there are no more.
pub open spec fn last_of(v: Seq<Seq<char>>, n: nat) -> Seq<Seq<char>> {
    if v.len() <= n {
        v
    } else {
        v.skip(v.len() - n)
    }
}

/// Puts a line behind the log, which keeps the last lines only.
pub fn push_log_tail(tail: &mut VecDeque<String>, line: &str)
    ensures
        text::texts(final(tail)@) == last_of(
            text::texts(old(tail)@).push(line@),
            LOG_TAIL_LINES as nat,
        ),
{
    let ghost all = text::texts(tail@).push(line@);
    tail.push_back(line.to_owned());
    assert(text::texts(tail@) =~= all.skip(0));
    let ghost mut dropped: int = 0;
    while tail.len() > LOG_TAIL_LINES
        invariant
            0 <= dropped <= all.len(),
            text::texts(tail@) == all.skip(dropped),
            dropped > 0 ==> tail@.len() >= LOG_TAIL_LINES,
        decreases tail@.len(),
    {
        let ghost before = tail@;
        let _ = tail.pop_front();
        proof {
            assert(text::texts(tail@) =~= text::texts(before).skip(1));
            assert(all.skip(dropped).skip(1) =~= all.skip(dropped + 1));
            dropped = dropped + 1;
        }
    }
    proof {
        assert(tail@.len() == text::texts(tail@).len());
        assert(all.skip(0) =~= all);
    }
}

/// The last lines of the log, one under the other.
pub fn take_log_tail(tail: &VecDeque<String>, lines: usize) -> (r: String)
    ensures
        r@ == text::joined(last_of(text::texts(tail@), lines as nat), "\n"@),
{
    let start: usize = if tail.len() > lines {
        tail.len() - lines
    } else {
        0
    };
    let mut kept: Vec<String> = Vec::new();
    let mut i: usize = start;
    let ghost all = text::texts(tail@);
    assert(text::texts(kept@) =~= all.subrange(start as int, start as int));
    while i < tail.len()
        invariant
            start <= i <= tail@.len(),
            all == text::texts(tail@),
            text::texts(kept@) == all.subrange(start as int, i as int),
        decreases tail@.len() - i,
    {
        let ghost before = kept@;
        let line: &String = &tail[i];
        kept.push(line.clone());
        proof {
            assert(kept@.last()@ == all[i as int]);
            assert(text::texts(kept@) =~= text::texts(before).push(all[i as int]));
            assert(text::texts(kept@) =~= all.subrange(start as int, i as int + 1));
        }
        i = i + 1;
    }
    assert(text::texts(kept@) =~= last_of(all, lines as nat));
    text::join(&kept, "\n")
}

// The state.

/// What the watchdog knows about dsh.
pub struct Watchdog {
    /// Counts the starts and the wanted ends of dsh, so that an exit that was
    /// wanted, or that belongs to an earlier process, can be told from a crash.
    pub generation: u64,
    /// The crashes in a row.
    pub crashes: usize,
    /// When dsh got ready, in nanoseconds of a clock that never goes back.
    pub ready_at: Option<u64>,
    /// The last lines of the output.
    pub log: VecDeque<String>,
    /// Why dsh is not started any more.
    pub error: Option<String>,
    /// The page that shows the error.
    pub loader_url: Option<String>,
    /// The address of the interface that dsh has printed.
    pub web_url: Option<String>,
}

/// What a watchdog holds.
#[verifier::ext_equal]
pub struct WatchdogState {
    pub generation: u64,
    pub crashes: nat,
    pub ready_at: Option<u64>,
    pub log: Seq<Seq<char>>,
    pub error: Option<Seq<char>>,
    pub loader_url: Option<Seq<char>>,
    pub web_url: Option<Seq<char>>,
}

impl View for Watchdog {
    type V = WatchdogState;

    open spec fn view(&self) -> WatchdogState {
        WatchdogState {
            generation: self.generation,
            crashes: self.crashes as nat,
            ready_at: self.ready_at,
            log: text::texts(self.log@),
            error: text::maybe_owned(self.error),
            loader_url: text::maybe_owned(self.loader_url),
            web_url: text::maybe_owned(self.web_url),
        }
    }
}

impl WatchdogState {
    /// The log is bounded.
    pub open spec fn well_formed(self) -> bool {
        self.log.len() <= LOG_TAIL_LINES
    }
}

/// The generation that follows.
pub open spec fn next_generation(g: u64) -> u64 {
    if g == u64::MAX {
        0
    } else {
        (g + 1) as u64
    }
}

/// The generation after `n` more starts and wanted ends.
pub open spec fn later_generation(g: u64, n: nat) -> u64
    decreases n,
{
    if n == 0 {
        g
    } else {
        next_generation(later_generation(g, (n - 1) as nat))
    }
}

/// After a start or a wanted end of dsh, and after any number of them up to the
/// range of the counter, an earlier generation is no longer the current one.
pub proof fn lemma_generations_differ(g: u64, n: nat)
    requires
        0 < n <= u64::MAX,
    ensures
        later_generation(g, n) != g,
{
    lemma_later_generation(g, n);
}

/// The counter of the generations runs through its range.
proof fn lemma_later_generation(g: u64, n: nat)
    requires
        n <= u64::MAX,
    ensures
        later_generation(g, n) == if g + n <= u64::MAX {
            g + n
        } else {
            g + n - u64::MAX - 1
        },
    decreases n,
{
    if n > 0 {
        lemma_later_generation(g, (n - 1) as nat);
    }
}

// Addresses.

/// Whether `url::Url::parse` takes the text as an address.
pub uninterp spec fn url_parses(url: Seq<char>) -> bool;

/// Whether `url::Url::parse` succeeds; the answer is named.
#[verifier::external_body]
fn is_url(url: &str) -> (r: bool)
    ensures
        r == url_parses(url@),
{
    url::Url::parse(url).is_ok()
}

/// The address to which a window is sent: `url` where it is one.
pub open spec fn navigable(url: Option<Seq<char>>) -> Option<Seq<char>> {
    match url {
        Some(u) => if url_parses(u) {
            Some(u)
        } else {
            None
        },
        None => None,
    }
}

/// The address to which a window is sent, where there is one that can be read
/// as an address.
pub fn navigation_target(url: &Option<String>) -> (r: Option<String>)
    ensures
        text::maybe_owned(r) == navigable(text::maybe_owned(*url)),
{
    match url {
        Some(u) => if is_url(u.as_str()) {
            Some(u.clone())
        } else {
            None
        },
        None => None,
    }
}

// The output of dsh.

/// The line that a chunk of output stands for: its text without the white
/// space round it. Chunks that are no UTF-8, or blank, stand for none.
pub open spec fn output_line(bytes: Seq<u8>) -> Option<Seq<char>> {
    if utf8::valid_utf8(bytes) && text::trimmed(utf8::decode_utf8(bytes)).len() > 0 {
        Some(text::trimmed(utf8::decode_utf8(bytes)))
    } else {
        None
    }
}

/// The address in a line: from its first `http://` up to the next white space.
pub open spec fn announced_url(line: Seq<char>) -> Option<Seq<char>> {
    match text::find(line, "http://"@) {
        Some(at) => Some(text::first_word(line.skip(at))),
        None => None,
    }
}

/// Reads the line out of a chunk of output.
pub fn read_output(bytes: Vec<u8>) -> (r: Option<String>)
    ensures
        text::maybe_owned(r) == output_line(bytes@),
{
    match encoding::utf8_text(bytes) {
        Ok(s) => {
            let line = text::trim(&text::to_chars(s.as_str()));
            if line.len() > 0 {
                Some(text::from_chars(&line))
            } else {
                None
            }
        },
        Err(_) => None,
    }
}

/// Finds the address in a line.
pub fn find_url(line: &str) -> (r: Option<String>)
    ensures
        text::maybe_owned(r) == announced_url(line@),
{
    let chars = text::to_chars(line);
    assert(chars@.skip(0) =~= chars@);
    match text::find_from(&chars, &text::to_chars("http://"), 0) {
        Some(at) => {
            let end = text::word_end(&chars, at);
            let found = text::slice_chars(&chars, at, end);
            assert(found@ =~= text::first_word(chars@.skip(at as int)));
            Some(text::from_chars(&found))
        },
        None => None,
    }
}

/// The line in which dsh announces its interface gives the address, with its
/// token.
pub proof fn lemma_announcement_gives_the_address(rest: Seq<char>)
    requires
        forall|i: int| 0 <= i < rest.len() ==> !text::is_space(#[trigger] rest[i]),
    ensures
        announced_url("dsh web: "@ + "http://"@ + rest) == Some("http://"@ + rest),
{
    reveal_strlit("dsh web: ");
    reveal_strlit("http://");
    let url = "http://"@ + rest;
    let line = "dsh web: "@ + "http://"@ + rest;
    assert(line.subrange(9, 16) =~= "http://"@);
    assert(text::stands_at(line, "http://"@, 9));
    text::lemma_find_is_first(line, "http://"@);
    let at = text::find(line, "http://"@)->0;
    assert(at == 9) by {
        if at < 9 {
            assert(line.subrange(at, at + 7)[0] == 'h');
            assert(line[at] == 'h' && line[at + 1] == 't') by {
                assert(line.subrange(at, at + 7)[1] == 't');
            }
        }
    }
    assert(line.skip(9) =~= url);
    assert forall|i: int| 0 <= i < url.len() implies !text::is_space(#[trigger] url[i]) by {
        if i >= 7 {
            assert(url[i] == rest[i - 7]);
        }
    }
    text::lemma_word_without_space(url);
    assert(text::first_word(url) =~= url);
}

// Messages.

/// An exit code as it is shown.
pub open spec fn code_text(code: Option<i32>) -> Seq<char> {
    match code {
        Some(c) => "Some("@ + text::signed_decimal(c as int) + ")"@,
        None => "None"@,
    }
}

/// Writes an exit code.
fn write_code(code: Option<i32>) -> (r: String)
    ensures
        r@ == code_text(code),
{
    match code {
        Some(c) => {
            let mut s = "Some(".to_owned();
            s.append(text::signed_text(c).as_str());
            s.append(")");
            s
        },
        None => "None".to_owned(),
    }
}

/// What is shown after the last crash in a row.
pub open spec fn crash_text(
    is_en: bool,
    n: nat,
    code: Option<i32>,
    tail: Seq<char>,
) -> Seq<char> {
    locale::chosen(is_en, "dsh crashed "@, "dsh 连续崩溃 "@) + text::decimal(n) + locale::chosen(
        is_en,
        " times in a row; automatic restart stopped (exit code "@,
        " 次，已停止自动重启（退出码 "@,
    ) + code_text(code) + locale::chosen(
        is_en,
        "). Usually a plugin fails to load or activate (dsh is zero-tolerance for plugins). Fix or remove the problematic plugin, then click Retry.\n\nRecent logs:\n"@,
        "）。多为某个插件加载/激活失败（dsh 对插件零容错）。修复或移除问题插件后点「重试」。\n\n最近日志：\n"@,
    ) + tail
}

/// Writes what is shown after the last crash in a row.
fn write_crash(is_en: bool, n: usize, code: Option<i32>, tail: &str) -> (r: String)
    ensures
        r@ == crash_text(is_en, n as nat, code, tail@),
{
    let mut s = locale::tr(is_en, "dsh crashed ", "dsh 连续崩溃 ").to_owned();
    s.append(text::decimal_text(n as u64).as_str());
    s.append(
        locale::tr(
            is_en,
            " times in a row; automatic restart stopped (exit code ",
            " 次，已停止自动重启（退出码 ",
        ),
    );
    s.append(write_code(code).as_str());
    s.append(
        locale::tr(
            is_en,
            "). Usually a plugin fails to load or activate (dsh is zero-tolerance for plugins). Fix or remove the problematic plugin, then click Retry.\n\nRecent logs:\n",
            "）。多为某个插件加载/激活失败（dsh 对插件零容错）。修复或移除问题插件后点「重试」。\n\n最近日志：\n",
        ),
    );
    s.append(tail);
    s
}

/// What is shown after the last failure in a row to load a module of the page.
pub open spec fn client_error_text(is_en: bool, n: nat, message: Seq<char>) -> Seq<char> {
    locale::chosen(
        is_en,
        "Failed to load dsh plugin module (client side, "@,
        "dsh 插件模块加载失败（客户端侧，连续 "@,
    ) + text::decimal(n) + locale::chosen(is_en, " consecutive failures):"@, " 次）："@) + "\n"@
        + message + "\n\n"@ + locale::chosen(
        is_en,
        "Fix or remove the problematic plugin, then click Retry."@,
        "修复或移除问题插件后点「重试」。"@,
    )
}

/// Writes what is shown after the last failure to load a module of the page.
fn write_client_error(is_en: bool, n: usize, message: &str) -> (r: String)
    ensures
        r@ == client_error_text(is_en, n as nat, message@),
{
    let mut s = locale::tr(
        is_en,
        "Failed to load dsh plugin module (client side, ",
        "dsh 插件模块加载失败（客户端侧，连续 ",
    ).to_owned();
    s.append(text::decimal_text(n as u64).as_str());
    s.append(locale::tr(is_en, " consecutive failures):", " 次）："));
    s.append("\n");
    s.append(message);
    s.append("\n\n");
    s.append(
        locale::tr(
            is_en,
            "Fix or remove the problematic plugin, then click Retry.",
            "修复或移除问题插件后点「重试」。",
        ),
    );
    s
}

/// What is shown when dsh does not get ready in time.
pub open spec fn timeout_text(is_en: bool, port: nat, tail: Seq<char>) -> Seq<char> {
    locale::chosen(
        is_en,
        "dsh start timed out (>300s, port "@,
        "dsh 启动超时（>300s，端口 "@,
    ) + text::decimal(port) + locale::chosen(
        is_en,
        "). Possible causes: corrupted plugin install or Node runtime error.\n\nRecent logs:\n"@,
        "）。可能原因：插件安装损坏、Node 运行时异常。\n\n最近日志：\n"@,
    ) + tail
}

/// Writes what is shown when dsh does not get ready in time.
fn write_timeout(is_en: bool, port: u16, tail: &str) -> (r: String)
    ensures
        r@ == timeout_text(is_en, port as nat, tail@),
{
    let mut s = locale::tr(
        is_en,
        "dsh start timed out (>300s, port ",
        "dsh 启动超时（>300s，端口 ",
    ).to_owned();
    s.append(text::decimal_text(port as u64).as_str());
    s.append(
        locale::tr(
            is_en,
            "). Possible causes: corrupted plugin install or Node runtime error.\n\nRecent logs:\n",
            "）。可能原因：插件安装损坏、Node 运行时异常。\n\n最近日志：\n",
        ),
    );
    s.append(tail);
    s
}

/// What is shown when dsh could not be started at all.
pub open spec fn start_failure_text(is_en: bool, tail: Seq<char>) -> Seq<char> {
    locale::chosen(
        is_en,
        "Failed to start dsh (service did not come up). Possible causes: corrupted global dsh install, plugin resolution failure, or Node runtime error.\n\nRecent logs:\n"@,
        "dsh 启动失败（未能拉起服务）。可能原因：全局 dsh 安装损坏、插件解析失败、Node 运行时异常。\n\n最近日志：\n"@,
    ) + tail
}

/// Writes what is shown when dsh could not be started at all.
fn write_start_failure(is_en: bool, tail: &str) -> (r: String)
    ensures
        r@ == start_failure_text(is_en, tail@),
{
    let mut s = locale::tr(
        is_en,
        "Failed to start dsh (service did not come up). Possible causes: corrupted global dsh install, plugin resolution failure, or Node runtime error.\n\nRecent logs:\n",
        "dsh 启动失败（未能拉起服务）。可能原因：全局 dsh 安装损坏、插件解析失败、Node 运行时异常。\n\n最近日志：\n",
    ).to_owned();
    s.append(tail);
    s
}

// What happens to the state.

/// What the shell does after dsh has failed.
pub enum Recovery {
    /// Start dsh again after the pause, given in milliseconds; the process that
    /// runs is killed before it where `kill` says so.
    Respawn { kill: bool, pause: u64 },
    /// Do not start it again; send the window to the page, where there is one.
    ShowError { page: Option<String> },
}

/// What the exit of a process means.
pub enum Exit {
    /// It was wanted, or belongs to an earlier process.
    Stale,
    /// It is a crash, and there is nothing to repair.
    Crash,
    /// It is a crash; the log complains about these plugins, which are to be
    /// taken out of the profile.
    BrokenPlugins(Vec<String>),
}

/// What a process reports to the shell.
pub enum ProcessEvent {
    Stdout(Vec<u8>),
    Stderr(Vec<u8>),
    /// It ended, with its exit code where there is one.
    Terminated(Option<i32>),
    /// The report itself failed, with the message.
    Failed(String),
    /// Anything else.
    Other,
}

/// What the page that is shown during the start is told.
pub struct BootState {
    pub status: String,
    pub error: Option<String>,
}

/// Whether dsh had been ready long enough for a failure to be the first one.
pub open spec fn was_stable(ready_at: Option<u64>, now: u64) -> bool {
    match ready_at {
        Some(at) => now - at >= STABLE_UPTIME,
        None => false,
    }
}

/// The log, as it is shown.
pub open spec fn log_text(s: WatchdogState) -> Seq<char> {
    text::joined(last_of(s.log, LOG_TAIL_LINES as nat), "\n"@)
}

/// The pause before the restart after the `n`th failure in a row, in
/// milliseconds.
pub open spec fn backoff_after(n: nat) -> u64 {
    if n <= 1 {
        1_000
    } else if n == 2 {
        5_000
    } else {
        30_000
    }
}

impl WatchdogState {
    /// A start or a wanted end of dsh.
    pub open spec fn advanced(self) -> WatchdogState {
        WatchdogState { generation: next_generation(self.generation), ..self }
    }

    /// A process was started.
    pub open spec fn started(self) -> WatchdogState {
        WatchdogState { log: seq![], web_url: None, ..self.advanced() }
    }

    /// A line was printed.
    pub open spec fn logged(self, line: Seq<char>) -> WatchdogState {
        WatchdogState { log: last_of(self.log.push(line), LOG_TAIL_LINES as nat), ..self }
    }

    /// A chunk was printed, by way of the standard output where `out` says so.
    pub open spec fn printed(self, bytes: Seq<u8>, out: bool) -> WatchdogState {
        match output_line(bytes) {
            Some(line) => if out && announced_url(line) is Some {
                WatchdogState { web_url: announced_url(line), ..self.logged(line) }
            } else {
                self.logged(line)
            },
            None => self,
        }
    }

    /// Starting dsh is given up, for the given reason.
    pub open spec fn failed(self, reason: Seq<char>) -> WatchdogState {
        WatchdogState { error: Some(reason), ..self }
    }

    /// How many failures in a row there are with one more.
    pub open spec fn failures(self, now: u64) -> nat {
        if was_stable(self.ready_at, now) {
            1
        } else {
            self.crashes + 1
        }
    }

    /// One more failure is counted; the process is not ready any more.
    pub open spec fn counted(self, now: u64) -> WatchdogState {
        WatchdogState { crashes: self.failures(now), ready_at: None, ..self }
    }

    /// The broken plugins were taken out after a crash, and dsh is about to be
    /// started again.
    pub open spec fn repaired(self) -> WatchdogState {
        WatchdogState { crashes: 0, ready_at: None, ..self.advanced() }
    }

    /// dsh crashed and nothing could be repaired.
    pub open spec fn crashed(self, code: Option<i32>, now: u64, is_en: bool) -> WatchdogState {
        if self.failures(now) >= MAX_CRASHES {
            self.counted(now).failed(crash_text(is_en, self.failures(now), code, log_text(self)))
        } else {
            self.counted(now)
        }
    }

    /// A module of the page could not be loaded.
    pub open spec fn client_failed(
        self,
        message: Seq<char>,
        now: u64,
        is_en: bool,
    ) -> WatchdogState {
        if self.failures(now) >= MAX_CRASHES {
            self.counted(now).failed(client_error_text(is_en, self.failures(now), message))
        } else {
            self.counted(now).advanced()
        }
    }
}

/// Whether the shell gives up after a failure, and what it does where it does
/// not: it waits longer after each failure in a row.
pub open spec fn recovers(before: WatchdogState, now: u64, kill: bool, r: Recovery) -> bool {
    if before.failures(now) >= MAX_CRASHES {
        r matches Recovery::ShowError { page } && text::maybe_owned(page) == navigable(
            before.loader_url,
        )
    } else {
        r matches Recovery::Respawn { kill: k, pause } && k == kill && pause == backoff_after(
            before.failures(now),
        )
    }
}

/// What the exit of a process of the given generation means: a crash where it
/// is the current process, with the plugins that the log complains about.
pub open spec fn exit_means(s: WatchdogState, generation: u64, exit: Exit) -> bool {
    if generation == s.generation {
        let named = profile::distinct_names(profile::complained_names(log_text(s)));
        if named.len() == 0 {
            exit is Crash
        } else {
            exit matches Exit::BrokenPlugins(plugins) && text::texts(plugins@) == named
        }
    } else {
        exit is Stale
    }
}

/// Whether dsh had been ready long enough for a failure to be the first one.
fn is_stable(ready_at: Option<u64>, now: u64) -> (r: bool)
    ensures
        r == was_stable(ready_at, now),
{
    match ready_at {
        Some(at) => now >= at && now - at >= STABLE_UPTIME,
        None => false,
    }
}

/// The pause before the restart after the `n`th failure in a row.
pub fn backoff(n: usize) -> (r: u64)
    ensures
        r == backoff_after(n as nat),
{
    if n <= 1 {
        1_000
    } else if n == 2 {
        5_000
    } else {
        30_000
    }
}

impl Watchdog {
    /// A watchdog before the first start of dsh.
    pub fn new() -> (r: Self)
        ensures
            r@ == (WatchdogState {
                generation: 0,
                crashes: 0,
                ready_at: None,
                log: seq![],
                error: None,
                loader_url: None,
                web_url: None,
            }),
            r@.well_formed(),
    {
        let r = Watchdog {
            generation: 0,
            crashes: 0,
            ready_at: None,
            log: VecDeque::new(),
            error: None,
            loader_url: None,
            web_url: None,
        };
        assert(r@.log =~= seq![]);
        r
    }

    /// Keeps the address of the page that is shown during the start.
    pub fn keep_loader(&mut self, url: String)
        ensures
            final(self)@ == (WatchdogState { loader_url: Some(url@), ..old(self)@ }),
    {
        self.loader_url = Some(url);
    }

    /// Counts a wanted end of dsh, so that its exit is not taken for a crash.
    pub fn kill_dsh_intentionally(&mut self)
        ensures
            final(self)@ == old(self)@.advanced(),
    {
        self.generation = if self.generation == u64::MAX {
            0
        } else {
            self.generation + 1
        };
    }

    /// Counts a start of dsh, and forgets the output of the process before it;
    /// gives the generation of the new process.
    pub fn dsh_started(&mut self) -> (r: u64)
        ensures
            final(self)@ == old(self)@.started(),
            r == final(self)@.generation,
            final(self)@.well_formed(),
    {
        self.kill_dsh_intentionally();
        self.log.clear();
        self.web_url = None;
        assert(self@.log =~= seq![]);
        self.generation
    }

    /// Keeps a line of the output.
    pub(crate) fn keep_line(&mut self, line: &str)
        ensures
            final(self)@ == old(self)@.logged(line@),
    {
        push_log_tail(&mut self.log, line);
    }

    /// Takes a chunk of the standard output: its line is kept, and the address
    /// in it, where it has one.
    pub fn take_stdout(&mut self, bytes: Vec<u8>)
        ensures
            final(self)@ == old(self)@.printed(bytes@, true),
            old(self)@.well_formed() ==> final(self)@.well_formed(),
    {
        if let Some(line) = read_output(bytes) {
            match find_url(line.as_str()) {
                Some(url) => {
                    self.web_url = Some(url);
                },
                None => {},
            }
            self.keep_line(line.as_str());
        }
    }

    /// Takes a chunk of the standard error: its line is kept.
    pub fn take_stderr(&mut self, bytes: Vec<u8>)
        ensures
            final(self)@ == old(self)@.printed(bytes@, false),
            old(self)@.well_formed() ==> final(self)@.well_formed(),
    {
        if let Some(line) = read_output(bytes) {
            self.keep_line(line.as_str());
        }
    }

    /// Tells what the exit of a process of the given generation means.
    pub fn examine_exit(&self, generation: u64) -> (r: Exit)
        ensures
            exit_means(self@, generation, r),
    {
        if generation != self.generation {
            return Exit::Stale;
        }
        let tail = take_log_tail(&self.log, LOG_TAIL_LINES);
        let plugins = profile::extract_bad_bundle_plugins(tail.as_str());
        assert(plugins@.len() == text::texts(plugins@).len());
        if plugins.len() == 0 {
            Exit::Crash
        } else {
            Exit::BrokenPlugins(plugins)
        }
    }

    /// Takes a report of the process of the given generation; tells what its
    /// exit means where it ended.
    pub fn observe(&mut self, generation: u64, event: ProcessEvent) -> (r: Option<Exit>)
        ensures
            match event {
                ProcessEvent::Stdout(bytes) => final(self)@ == old(self)@.printed(bytes@, true)
                    && r is None,
                ProcessEvent::Stderr(bytes) => final(self)@ == old(self)@.printed(bytes@, false)
                    && r is None,
                ProcessEvent::Terminated(_) => final(self)@ == old(self)@ && r is Some
                    && exit_means(old(self)@, generation, r->0),
                _ => final(self)@ == old(self)@ && r is None,
            },
            old(self)@.well_formed() ==> final(self)@.well_formed(),
    {
        match event {
            ProcessEvent::Stdout(bytes) => {
                self.take_stdout(bytes);
                None
            },
            ProcessEvent::Stderr(bytes) => {
                self.take_stderr(bytes);
                None
            },
            ProcessEvent::Terminated(_code) => Some(self.examine_exit(generation)),
            _ => None,
        }
    }

    /// Gives up starting dsh; the result is the page to show.
    pub fn enter_error_state(&mut self, reason: String) -> (r: Option<String>)
        ensures
            final(self)@ == old(self)@.failed(reason@),
            text::maybe_owned(r) == navigable(old(self)@.loader_url),
    {
        self.error = Some(reason);
        navigation_target(&self.loader_url)
    }

    /// Handles a crash of dsh. `repair` is what came of taking the plugins that
    /// the log complains about out of the profile, where it complains about any.
    pub fn handle_dsh_crash(
        &mut self,
        code: Option<i32>,
        repair: Option<Result<usize, String>>,
        now: u64,
        is_en: bool,
    ) -> (r: Recovery)
        requires
            old(self)@.crashes < usize::MAX,
        ensures
            match repair {
                Some(Ok(_)) => final(self)@ == old(self)@.repaired() && r == (Recovery::Respawn {
                    kill: true,
                    pause: REPAIR_PAUSE,
                }),
                _ => final(self)@ == old(self)@.crashed(code, now, is_en) && recovers(
                    old(self)@,
                    now,
                    false,
                    r,
                ),
            },
            old(self)@.well_formed() ==> final(self)@.well_formed(),
    {
        if let Some(Ok(_)) = repair {
            self.crashes = 0;
            self.ready_at = None;
            self.kill_dsh_intentionally();
            return Recovery::Respawn { kill: true, pause: REPAIR_PAUSE };
        }
        let n = self.count_failure(now);
        if n >= MAX_CRASHES {
            let tail = take_log_tail(&self.log, LOG_TAIL_LINES);
            let reason = write_crash(is_en, n, code, tail.as_str());
            let page = self.enter_error_state(reason);
            Recovery::ShowError { page }
        } else {
            Recovery::Respawn { kill: false, pause: backoff(n) }
        }
    }

    /// Counts a failure; gives the number of failures in a row.
    fn count_failure(&mut self, now: u64) -> (n: usize)
        requires
            old(self)@.crashes < usize::MAX,
        ensures
            final(self)@ == old(self)@.counted(now),
            n == old(self)@.failures(now),
    {
        self.crashes = if is_stable(self.ready_at, now) {
            1
        } else {
            self.crashes + 1
        };
        self.ready_at = None;
        self.crashes
    }

    /// Handles a failure of the page to load a module: like a crash, but the
    /// process still runs and is killed before the restart.
    pub fn report_client_error(&mut self, message: &str, now: u64, is_en: bool) -> (r: Recovery)
        requires
            old(self)@.crashes < usize::MAX,
        ensures
            final(self)@ == old(self)@.client_failed(message@, now, is_en),
            recovers(old(self)@, now, true, r),
            old(self)@.well_formed() ==> final(self)@.well_formed(),
    {
        let n = self.count_failure(now);
        if n >= MAX_CRASHES {
            let reason = write_client_error(is_en, n, message);
            let page = self.enter_error_state(reason);
            Recovery::ShowError { page }
        } else {
            self.kill_dsh_intentionally();
            Recovery::Respawn { kill: true, pause: backoff(n) }
        }
    }

    /// Notes that dsh is ready.
    pub fn dsh_ready(&mut self, now: u64)
        ensures
            final(self)@ == (WatchdogState { ready_at: Some(now), ..old(self)@ }),
    {
        self.ready_at = Some(now);
    }

    /// Notes that dsh did not get ready in time: it is to be killed, and its
    /// start is given up. The result is the page to show.
    pub fn dsh_timed_out(&mut self, port: u16, is_en: bool) -> (r: Option<String>)
        ensures
            final(self)@ == old(self)@.advanced().failed(
                timeout_text(is_en, port as nat, log_text(old(self)@)),
            ),
            text::maybe_owned(r) == navigable(old(self)@.loader_url),
            old(self)@.well_formed() ==> final(self)@.well_formed(),
    {
        self.kill_dsh_intentionally();
        let tail = take_log_tail(&self.log, LOG_TAIL_LINES);
        let reason = write_timeout(is_en, port, tail.as_str());
        self.enter_error_state(reason)
    }

    /// Notes that dsh could not be started. A reason that is known already is
    /// kept; the result is the page to show where none was known.
    pub fn dsh_not_started(&mut self, is_en: bool) -> (r: Option<String>)
        ensures
            old(self)@.error is Some ==> final(self)@ == old(self)@ && r is None,
            old(self)@.error is None ==> final(self)@ == old(self)@.failed(
                start_failure_text(is_en, log_text(old(self)@)),
            ) && text::maybe_owned(r) == navigable(old(self)@.loader_url),
            old(self)@.well_formed() ==> final(self)@.well_formed(),
    {
        if self.error.is_some() {
            return None;
        }
        let tail = take_log_tail(&self.log, LOG_TAIL_LINES);
        let reason = write_start_failure(is_en, tail.as_str());
        self.enter_error_state(reason)
    }

    /// What the page that is shown during the start is told: the reason where
    /// starting dsh was given up.
    pub fn get_boot_state(&self) -> (r: BootState)
        ensures
            r.status@ == if self@.error is Some {
                "error"@
            } else {
                "starting"@
            },
            text::maybe_owned(r.error) == self@.error,
    {
        match &self.error {
            Some(error) => BootState { status: "error".to_owned(), error: Some(error.clone()) },
            None => BootState { status: "starting".to_owned(), error: None },
        }
    }

    /// Forgets the failures, because the user wants another try.
    pub fn retry_dsh_start(&mut self)
        ensures
            final(self)@ == (WatchdogState { error: None, crashes: 0, ..old(self)@ }),
    {
        self.error = None;
        self.crashes = 0;
    }

    /// Handles the wish of the user to take plugins out of the profile, given
    /// what came of it: dsh is started again where that succeeded.
    pub fn remove_plugin_bundles(&mut self, removed: Result<usize, String>) -> (r: Result<
        Recovery,
        String,
    >)
        ensures
            match removed {
                Ok(_) => final(self)@ == (WatchdogState { crashes: 0, ..old(self)@.advanced() })
                    && r == Ok::<Recovery, String>(Recovery::Respawn {
                    kill: true,
                    pause: REPAIR_PAUSE,
                }),
                Err(e) => final(self)@ == old(self)@ && r == Err::<Recovery, String>(e),
            },
    {
        match removed {
            Ok(_) => {
                self.kill_dsh_intentionally();
                self.crashes = 0;
                Ok(Recovery::Respawn { kill: true, pause: REPAIR_PAUSE })
            },
            Err(e) => Err(e),
        }
    }
}

// Laws.

/// The exit of a process is stale once dsh was started again, or killed on
/// purpose, any number of times since: only the current process can crash.
pub proof fn lemma_only_current_process_crashes(s: WatchdogState, n: nat)
    requires
        0 < n <= u64::MAX,
    ensures
        s.advanced().generation == later_generation(s.generation, 1),
        s.started().generation == later_generation(s.generation, 1),
        later_generation(s.generation, n) != s.generation,
{
    reveal_with_fuel(later_generation, 2);
    lemma_generations_differ(s.generation, n);
}

/// Three crashes in a row, none after a stable run and none repaired: dsh is
/// started again after a longer pause each time, and given up at the third.
pub proof fn lemma_third_crash_gives_up(
    s: WatchdogState,
    code: Option<i32>,
    is_en: bool,
    first: u64,
    second: u64,
    third: u64,
)
    requires
        s.crashes == 0,
        s.ready_at matches Some(at) ==> first - at < STABLE_UPTIME,
    ensures
        ({
            let one = s.crashed(code, first, is_en);
            let two = one.crashed(code, second, is_en);
            let three = two.crashed(code, third, is_en);
            &&& one.error == s.error && two.error == s.error
            &&& s.failures(first) == 1 && one.failures(second) == 2 && two.failures(third) == 3
            &&& backoff_after(1) < backoff_after(2)
            &&& three.error == Some(crash_text(is_en, 3, code, log_text(s)))
        }),
{
}

/// A failure after a stable run is the first one of a new row, whatever was
/// counted before: dsh is started again.
pub proof fn lemma_stable_run_starts_anew(
    s: WatchdogState,
    code: Option<i32>,
    message: Seq<char>,
    now: u64,
    is_en: bool,
)
    requires
        s.ready_at matches Some(at) && now - at >= STABLE_UPTIME,
    ensures
        s.crashed(code, now, is_en) == (WatchdogState { crashes: 1, ready_at: None, ..s }),
        s.client_failed(message, now, is_en) == (WatchdogState {
            crashes: 1,
            ready_at: None,
            ..s.advanced()
        }),
{
}

/// The reason for which starting dsh was given up stays until the user wants
/// another try: nothing else takes it away.
pub proof fn lemma_error_lasts(
    s: WatchdogState,
    bytes: Seq<u8>,
    out: bool,
    reason: Seq<char>,
    code: Option<i32>,
    now: u64,
    is_en: bool,
)
    requires
        s.error is Some,
    ensures
        s.advanced().error == s.error,
        s.started().error == s.error,
        s.printed(bytes, out).error == s.error,
        s.repaired().error == s.error,
        s.failed(reason).error is Some,
        s.crashed(code, now, is_en).error is Some,
        s.client_failed(reason, now, is_en).error is Some,
{
}

/// Whatever is printed, the log keeps the last lines only, and the line that
/// was printed last is its last one.
pub proof fn lemma_log_is_bounded(s: WatchdogState, line: Seq<char>)
    ensures
        s.logged(line).well_formed(),
        s.logged(line).log.last() == line,
        s.log.len() < LOG_TAIL_LINES ==> s.logged(line).log == s.log.push(line),
{
}

/// Whether dsh has run for at least five minutes since it got ready, by the two
/// times alone.
pub open spec fn ran_five_minutes(ready_at: Option<u64>, now: u64) -> bool {
    ready_at is Some && now as int - ready_at->0 as int >= 5 * 60 * 1_000_000_000
}

/// What a failure of dsh counts for, whether it is a crash or a page that cannot
/// load a module: after five minutes of service or more, however long, it is the
/// first one of a new row; after less, or before dsh was ready, it is one more.
/// With the first two in a row dsh is started again, after one second and after
/// five; with the third, and any beyond it, starting is given up and the reason
/// shown. Nothing else of what is known changes.
pub proof fn lemma_failures_in_a_row(
    s: WatchdogState,
    code: Option<i32>,
    message: Seq<char>,
    now: u64,
    is_en: bool,
    kill: bool,
    r: Recovery,
)
    requires
        recovers(s, now, kill, r),
    ensures
        STABLE_UPTIME == 300_000_000_000,
        ({
            let n: nat = if ran_five_minutes(s.ready_at, now) {
                1
            } else {
                s.crashes + 1
            };
            let crash = s.crashed(code, now, is_en);
            let client = s.client_failed(message, now, is_en);
            &&& crash.crashes == n && client.crashes == n
            &&& crash.ready_at is None && client.ready_at is None
            &&& crash.generation == s.generation
            &&& client.generation != s.generation <==> n < 3
            &&& crash.log == s.log && client.log == s.log
            &&& crash.web_url == s.web_url && client.web_url == s.web_url
            &&& crash.loader_url == s.loader_url && client.loader_url == s.loader_url
            &&& n < 3 ==> crash.error == s.error && client.error == s.error
            &&& n >= 3 ==> crash.error == Some(crash_text(is_en, n, code, log_text(s)))
            &&& n >= 3 ==> client.error == Some(client_error_text(is_en, n, message))
            &&& r is Respawn <==> n < 3
            &&& r matches Recovery::Respawn { kill: k, pause } ==> k == kill && pause == (if n
                == 1 {
                1_000u64
            } else {
                5_000u64
            })
            &&& r matches Recovery::ShowError { page } ==> (page is Some <==> s.loader_url is Some
                && url_parses(s.loader_url->0)) && (page is Some ==> page->0@ == s.loader_url->0)
        }),
{
}

/// A longer run never counts for less than a shorter one: where a failure after a
/// run is the first of a new row, so is one at any later time.
pub proof fn lemma_longer_runs_count_no_less(s: WatchdogState, now: u64, later: u64)
    requires
        now <= later,
    ensures
        s.counted(later).crashes <= s.counted(now).crashes,
        s.counted(now).crashes == 1 ==> s.counted(later).crashes == 1,
        s.counted(now).crashes <= s.crashes + 1,
        s.counted(now).crashes >= 1,
{
}

/// The pause before a restart grows with the failures in a row.
pub proof fn lemma_pauses_grow(n: nat, m: nat)
    requires
        1 <= n <= m,
    ensures
        backoff_after(n) <= backoff_after(m),
        n < 3 && n < m ==> backoff_after(n) < backoff_after(m),
        n >= 3 ==> backoff_after(n) == 30_000,
        backoff_after(2) == 5_000 && backoff_after(1) == 1_000 && backoff_after(0) == 1_000,
        REPAIR_PAUSE == 500 && MAX_CRASHES == 3 && LOG_TAIL_LINES == 60,
{
}

/// After dsh was started, or was killed on purpose, or its plugins were repaired,
/// the exit of the process before it is stale; the exit of the process itself is a
/// crash, and the plugins to repair are those, each once, that stand in quotes
/// behind a complaint in the log.
pub proof fn lemma_exits(s: WatchdogState, generation: u64, exit: Exit)
    requires
        exit_means(s, generation, exit),
    ensures
        exit is Stale <==> generation != s.generation,
        s.advanced().generation != s.generation && s.started().generation != s.generation
            && s.repaired().generation != s.generation,
        exit is Crash ==> forall|name: Seq<char>|
            name.len() > 0 ==> !#[trigger] profile::complained_names(log_text(s)).contains(name),
        exit matches Exit::BrokenPlugins(plugins) ==> {
            &&& plugins@.len() > 0
            &&& text::texts(plugins@).no_duplicates()
            &&& forall|name: Seq<char>| #[trigger]
                text::texts(plugins@).contains(name) <==> name.len() > 0
                    && profile::complained_names(log_text(s)).contains(name)
        },
{
    profile::lemma_bad_plugins_listed_once(log_text(s));
    if exit is Crash {
        let named = profile::distinct_names(profile::complained_names(log_text(s)));
        assert forall|name: Seq<char>| name.len() > 0 implies !#[trigger] profile::complained_names(
            log_text(s),
        ).contains(name) by {
            assert(!named.contains(name));
        }
    }
}

/// A repair forgets the failures and the run before it; a start forgets the output
/// of the process before it; neither touches anything else.
pub proof fn lemma_starts_and_repairs(s: WatchdogState)
    ensures
        s.started() == (WatchdogState {
            generation: s.advanced().generation,
            log: seq![],
            web_url: None,
            ..s
        }),
        s.repaired() == (WatchdogState {
            generation: s.advanced().generation,
            crashes: 0,
            ready_at: None,
            ..s
        }),
        s.advanced().generation == if s.generation < u64::MAX {
            (s.generation + 1) as u64
        } else {
            0
        },
        s.advanced() == (WatchdogState { generation: s.advanced().generation, ..s }),
{
}

/// The log that is shown is all of the log, its lines one under the other; of a
/// longer list it is the last sixty lines.
pub proof fn lemma_log_is_shown(s: WatchdogState, before: Seq<Seq<char>>)
    requires
        s.log.len() <= 60,
    ensures
        log_text(s) == text::joined(s.log, seq!['\n']),
        s.log.len() == 60 ==> log_text(WatchdogState { log: before + s.log, ..s }) == log_text(s),
        s.log.len() == 60 ==> last_of(before + s.log, 60) == s.log,
{
    reveal_strlit("\n");
    assert("\n"@ =~= seq!['\n']);
    if s.log.len() == 60 {
        assert((before + s.log).skip(before.len() as int) =~= s.log);
        assert(last_of(before + s.log, 60) =~= s.log);
    }
}

/// What a chunk of output comes to: its text without the white space round it is
/// the last line of the log, where there is such a text, and the lines before it
/// stay, but for the oldest of sixty. Nothing but the log changes, and the address
/// of the interface where the line is on the standard output and holds one.
pub proof fn lemma_output_is_kept(
    s: WatchdogState,
    bytes: Seq<u8>,
    out: bool,
    before: Seq<char>,
    line: Seq<char>,
    after: Seq<char>,
)
    requires
        utf8::valid_utf8(bytes),
        utf8::decode_utf8(bytes) == before + line + after,
        forall|i: int| 0 <= i < before.len() ==> text::is_space(#[trigger] before[i]),
        forall|i: int| 0 <= i < after.len() ==> text::is_space(#[trigger] after[i]),
        line.len() > 0 ==> !text::is_space(line[0]) && !text::is_space(line.last()),
        s.log.len() <= 60,
    ensures
        line.len() == 0 ==> s.printed(bytes, out) == s,
        line.len() > 0 ==> {
            let t = s.printed(bytes, out);
            &&& t == (WatchdogState { log: t.log, web_url: t.web_url, ..s })
            &&& t.log == if s.log.len() < 60 {
                s.log.push(line)
            } else {
                s.log.skip(1).push(line)
            }
            &&& !out ==> t.web_url == s.web_url
            &&& text::find(line, "http://"@) is None ==> t.web_url == s.web_url
            &&& out && text::find(line, "http://"@) is Some ==> t.web_url is Some
                && t.web_url == announced_url(line)
        },
{
    text::lemma_trimming_takes_the_ends_only(before, line, after);
    if s.log.len() == 60 {
        assert(s.log.push(line).skip(1) =~= s.log.skip(1).push(line));
    }
}

/// Bytes that are no text are passed over.
pub proof fn lemma_no_text_is_passed_over(s: WatchdogState, bytes: Seq<u8>, out: bool)
    requires
        !utf8::valid_utf8(bytes),
    ensures
        s.printed(bytes, out) == s,
{
}

/// The address in a line starts at the first `http://` in it and runs up to the
/// next white space, or to the end of the line.
pub proof fn lemma_address_in_a_line(line: Seq<char>)
    ensures
        announced_url(line) is None <==> forall|j: int| !#[trigger] text::stands_at(
            line,
            "http://"@,
            j,
        ),
        announced_url(line) matches Some(url) ==> exists|at: int|
            #![trigger line.skip(at)]
            {
                &&& 0 <= at && at + url.len() <= line.len()
                &&& text::stands_at(line, "http://"@, at)
                &&& forall|j: int| 0 <= j < at ==> !#[trigger] text::stands_at(line, "http://"@, j)
                &&& url == line.skip(at).take(url.len() as int)
                &&& forall|i: int| 0 <= i < url.len() ==> !text::is_space(#[trigger] url[i])
                &&& at + url.len() < line.len() ==> text::is_space(line[at + url.len()])
            },
{
    text::lemma_find_is_first(line, "http://"@);
    if let Some(at) = text::find(line, "http://"@) {
        let rest = line.skip(at);
        text::lemma_first_word(rest);
        let url = text::first_word(rest);
        if url.len() < rest.len() {
            assert(rest[url.len() as int] == line[at + url.len()]);
        }
    }
}

/// The message with which starting is given up ends with the log; that of a crash
/// names how many there were in a row and the exit code before it, and that of a
/// page that cannot load a module holds what was reported.
pub proof fn lemma_messages(
    n: nat,
    code: Option<i32>,
    port: nat,
    tail: Seq<char>,
    message: Seq<char>,
)
    ensures
        crash_text(true, n, code, tail) == "dsh crashed "@ + text::decimal(n)
            + " times in a row; automatic restart stopped (exit code "@ + code_text(code)
            + "). Usually a plugin fails to load or activate (dsh is zero-tolerance for plugins). Fix or remove the problematic plugin, then click Retry.\n\nRecent logs:\n"@
            + tail,
        crash_text(false, n, code, tail) == "dsh 连续崩溃 "@ + text::decimal(n)
            + " 次，已停止自动重启（退出码 "@ + code_text(code)
            + "）。多为某个插件加载/激活失败（dsh 对插件零容错）。修复或移除问题插件后点「重试」。\n\n最近日志：\n"@
            + tail,
        timeout_text(true, port, tail) == "dsh start timed out (>300s, port "@ + text::decimal(port)
            + "). Possible causes: corrupted plugin install or Node runtime error.\n\nRecent logs:\n"@
            + tail,
        timeout_text(false, port, tail) == "dsh 启动超时（>300s，端口 "@ + text::decimal(port)
            + "）。可能原因：插件安装损坏、Node 运行时异常。\n\n最近日志：\n"@ + tail,
        start_failure_text(true, tail)
            == "Failed to start dsh (service did not come up). Possible causes: corrupted global dsh install, plugin resolution failure, or Node runtime error.\n\nRecent logs:\n"@
            + tail,
        start_failure_text(false, tail)
            == "dsh 启动失败（未能拉起服务）。可能原因：全局 dsh 安装损坏、插件解析失败、Node 运行时异常。\n\n最近日志：\n"@
            + tail,
        client_error_text(true, n, message) == "Failed to load dsh plugin module (client side, "@
            + text::decimal(n) + " consecutive failures):"@ + "\n"@ + message + "\n\n"@
            + "Fix or remove the problematic plugin, then click Retry."@,
        client_error_text(false, n, message) == "dsh 插件模块加载失败（客户端侧，连续 "@
            + text::decimal(n) + " 次）："@ + "\n"@ + message + "\n\n"@
            + "修复或移除问题插件后点「重试」。"@,
        code is Some && code->0 >= 0 ==> code_text(code) == "Some("@ + text::decimal(
            code->0 as nat,
        ) + ")"@,
        code is Some && code->0 < 0 ==> code_text(code) == "Some("@ + (seq!['-'] + text::decimal(
            (-(code->0 as int)) as nat,
        )) + ")"@,
        code is None ==> code_text(code) == "None"@,
{
}

/// A crash that could not be repaired, or a failed page, after a run of five
/// minutes or more is answered with a restart after a second, whatever was counted
/// before; the third one in a row, each after a shorter run, with none.
pub proof fn lemma_handled_failures(
    dog: &mut Watchdog,
    code: Option<i32>,
    repair: Option<Result<usize, String>>,
    message: &str,
    now: u64,
    is_en: bool,
    r: Recovery,
)
    requires
        call_ensures(Watchdog::report_client_error, (dog, message, now, is_en), r)
            || call_ensures(Watchdog::handle_dsh_crash, (dog, code, repair, now, is_en), r),
        !(repair matches Some(Ok(_))),
    ensures
        ran_five_minutes(old(dog)@.ready_at, now) ==> final(dog)@.crashes == 1 && (
        r matches Recovery::Respawn { pause, .. } && pause == 1_000),
        !ran_five_minutes(old(dog)@.ready_at, now) ==> final(dog)@.crashes == old(dog)@.crashes
            + 1 && (r is Respawn <==> old(dog)@.crashes < 2),
{
}

/// After plugins were taken out of the profile, by the shell or on the wish of the
/// user, the failures are forgotten, dsh is killed without that counting as a
/// crash, and started again after half a second; where they could not be taken out
/// on that wish, nothing happens, and the reason is given.
pub proof fn lemma_repairs_are_followed_by_a_start(
    dog: &mut Watchdog,
    other: &mut Watchdog,
    code: Option<i32>,
    removed: Result<usize, String>,
    now: u64,
    is_en: bool,
    r: Recovery,
    q: Result<Recovery, String>,
)
    requires
        call_ensures(Watchdog::handle_dsh_crash, (dog, code, Some(removed), now, is_en), r),
        call_ensures(Watchdog::remove_plugin_bundles, (other, removed), q),
    ensures
        removed is Ok ==> {
            &&& final(dog)@.crashes == 0 && final(other)@.crashes == 0
            &&& final(dog)@.generation != old(dog)@.generation
            &&& final(other)@.generation != old(other)@.generation
            &&& final(dog)@.error == old(dog)@.error && final(other)@.error == old(other)@.error
            &&& final(dog)@.ready_at is None
            &&& r == (Recovery::Respawn { kill: true, pause: 500 })
            &&& q == Ok::<Recovery, String>(Recovery::Respawn { kill: true, pause: 500 })
        },
        removed matches Err(e) ==> q == Err::<Recovery, String>(e) && final(other)@
            == old(other)@,
{
}

/// Starting is given up with a reason when dsh does not get ready in time, or
/// cannot be started; a reason that is known stays in the second case. The page of
/// the start is told so, until the user wants another try, with which the failures
/// are forgotten too.
pub proof fn lemma_starting_is_given_up(
    late: &mut Watchdog,
    port: u16,
    page: Option<String>,
    failed: &mut Watchdog,
    other: Option<String>,
    tried: &mut Watchdog,
    is_en: bool,
    seen: &Watchdog,
    told: BootState,
)
    requires
        call_ensures(Watchdog::dsh_timed_out, (late, port, is_en), page),
        call_ensures(Watchdog::dsh_not_started, (failed, is_en), other),
        call_ensures(Watchdog::retry_dsh_start, (tried,), ()),
        call_ensures(Watchdog::get_boot_state, (seen,), told),
    ensures
        final(late)@.error == Some(timeout_text(is_en, port as nat, log_text(old(late)@))),
        final(late)@.generation != old(late)@.generation,
        page is Some ==> old(late)@.loader_url == Some(page->0@),
        page is None ==> old(late)@.loader_url is None || !url_parses(old(late)@.loader_url->0),
        final(failed)@.error is Some,
        old(failed)@.error is Some ==> final(failed)@.error == old(failed)@.error && other is None,
        final(failed)@.generation == old(failed)@.generation,
        final(tried)@.error is None && final(tried)@.crashes == 0,
        final(tried)@.log == old(tried)@.log && final(tried)@.generation == old(tried)@.generation,
        seen@.error is Some ==> told.status@ == "error"@ && told.error is Some && told.error->0@
            == seen@.error->0,
        seen@.error is None ==> told.status@ == "starting"@ && told.error is None,
{
}

/// What a process reports is taken as output or as its end, and never as both: all
/// output goes into the log, and only an end tells what it means, with which nothing
/// of what is known changes.
pub proof fn lemma_reports(
    dog: &mut Watchdog,
    generation: u64,
    event: ProcessEvent,
    r: Option<Exit>,
)
    requires
        call_ensures(Watchdog::observe, (dog, generation, event), r),
    ensures
        r is Some <==> event is Terminated,
        r matches Some(exit) ==> (exit is Stale <==> generation != old(dog)@.generation),
        !(event is Stdout || event is Stderr) ==> final(dog)@ == old(dog)@,
        final(dog)@.crashes == old(dog)@.crashes && final(dog)@.generation
            == old(dog)@.generation && final(dog)@.error == old(dog)@.error
            && final(dog)@.ready_at == old(dog)@.ready_at,
        !(event is Stdout) ==> final(dog)@.web_url == old(dog)@.web_url,
        event matches ProcessEvent::Stdout(bytes) ==> final(dog)@ == old(dog)@.printed(bytes@, true),
        event matches ProcessEvent::Stderr(bytes) ==> final(dog)@ == old(dog)@.printed(
            bytes@,
            false,
        ),
        r matches Some(exit) ==> exit_means(old(dog)@, generation, exit),
{
}

/// A new watchdog knows of no failure; a time at which dsh got ready is kept, and
/// so is the page of the start.
pub proof fn lemma_notes(
    fresh: Watchdog,
    dog: &mut Watchdog,
    now: u64,
    other: &mut Watchdog,
    url: String,
    third: &mut Watchdog,
    generation: u64,
)
    requires
        call_ensures(Watchdog::new, (), fresh),
        call_ensures(Watchdog::dsh_ready, (dog, now), ()),
        call_ensures(Watchdog::keep_loader, (other, url), ()),
        call_ensures(Watchdog::dsh_started, (third,), generation),
    ensures
        fresh@.crashes == 0 && fresh@.error is None && fresh@.ready_at is None && fresh@.log.len()
            == 0 && fresh@.web_url is None && fresh@.loader_url is None,
        final(dog)@.ready_at == Some(now) && final(dog)@.crashes == old(dog)@.crashes
            && final(dog)@.generation == old(dog)@.generation && final(dog)@.error
            == old(dog)@.error && final(dog)@.log == old(dog)@.log && final(dog)@.web_url
            == old(dog)@.web_url,
        final(other)@.loader_url == Some(url@) && final(other)@.crashes == old(other)@.crashes
            && final(other)@.error == old(other)@.error,
        final(third)@.generation == generation && generation != old(third)@.generation
            && final(third)@.log.len() == 0 && final(third)@.web_url is None
            && final(third)@.crashes == old(third)@.crashes && final(third)@.ready_at
            == old(third)@.ready_at,
{
}

/// The log is a queue: a line that is put into it stands at its end, and what is
/// taken from it is its last lines, one under the other.
pub proof fn lemma_log_is_a_queue(
    tail: &mut VecDeque<String>,
    line: &str,
    other: &VecDeque<String>,
    n: usize,
    shown: String,
)
    requires
        call_ensures(push_log_tail, (tail, line), ()),
        call_ensures(take_log_tail, (other, n), shown),
    ensures
        text::texts(final(tail)@).last() == line@,
        old(tail)@.len() < 60 ==> text::texts(final(tail)@) == text::texts(old(tail)@).push(line@),
        old(tail)@.len() >= 60 ==> final(tail)@.len() == 60,
        other@.len() <= n ==> shown@ == text::joined(text::texts(other@), "\n"@),
        other@.len() > n ==> shown@ == text::joined(
            text::texts(other@).skip(other@.len() - n),
            "\n"@,
        ),
{
    assert(text::texts(final(tail)@).len() == final(tail)@.len());
    assert(text::texts(old(tail)@).len() == old(tail)@.len());
    assert(text::texts(other@).len() == other@.len());
}

} // verus!
