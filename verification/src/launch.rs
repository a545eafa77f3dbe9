//! How dsh is found, installed and started.
use vstd::prelude::*;

use crate::text;
use crate::watchdog::{self, ProcessEvent, Watchdog, WatchdogState};

verus! {

/// The port of the interface where no other is asked for.
pub const DEFAULT_PORT: u16 = 5399;

/// How long to look for a service that runs already, in milliseconds.
pub const REUSE_TIMEOUT: u64 = 1_000;

/// How long to wait for dsh to get ready, in milliseconds.
pub const READY_TIMEOUT: u64 = 300_000;

/// How long to wait between two looks, in milliseconds.
pub const POLL_INTERVAL: u64 = 200;

/// How long an installation may take, in milliseconds.
pub const INSTALL_TIMEOUT: u64 = 600_000;

// Places.

/// A path without the prefix `\\?\` of long paths.
pub open spec fn shown_path(path: Seq<char>) -> Seq<char> {
    match text::without_prefix(path, "\\\\?\\"@) {
        Some(rest) => rest,
        None => path,
    }
}

/// A path as it is handed to other programs: without the prefix of long paths.
pub fn display_path(path: &str) -> (r: String)
    ensures
        r@ == shown_path(path@),
{
    match text::strip_prefix(&text::to_chars(path), "\\\\?\\") {
        Some(rest) => text::from_chars(&rest),
        None => path.to_owned(),
    }
}

/// The directory of the user: `USERPROFILE`, else `HOME`.
pub fn home_dir(userprofile: Option<String>, home: Option<String>) -> (r: Option<String>)
    ensures
        r == if userprofile is Some {
            userprofile
        } else {
            home
        },
{
    match userprofile {
        Some(dir) => Some(dir),
        None => home,
    }
}

/// The port that `var` asks for, or the usual one.
pub open spec fn port_of(var: Option<Seq<char>>) -> int {
    match var {
        Some(s) => match text::spelled_number(text::trimmed(s)) {
            Some(n) => if n <= u16::MAX {
                n as int
            } else {
                DEFAULT_PORT as int
            },
            None => DEFAULT_PORT as int,
        },
        None => DEFAULT_PORT as int,
    }
}

/// The port of the interface: the one that `DSH_PORT` names, else the usual
/// one, so that the origin of the page stays the same.
pub fn dsh_port(var: Option<&str>) -> (r: u16)
    ensures
        r == port_of(text::maybe(var)),
{
    match var {
        Some(s) => match text::parse_number(
            &text::trim(&text::to_chars(s)),
            u16::MAX as u64,
        ) {
            Some(n) => n as u16,
            None => DEFAULT_PORT,
        },
        None => DEFAULT_PORT,
    }
}

/// Every port can be asked for: the decimal form of a port asks for that port.
pub proof fn lemma_every_port_can_be_asked_for(port: u16)
    ensures
        port_of(Some(text::decimal(port as nat))) == port,
{
    text::lemma_decimal_spells(port as nat);
}

/// Where dsh comes from.
pub enum DshSource {
    /// The script that `DSH_BIN` names.
    Given(String),
    /// The script that is brought along.
    Bundled,
    /// The global installation.
    Online,
}

/// Decides where dsh comes from: the script that `DSH_BIN` names, where it
/// exists, else the one that is brought along, where it exists, else the global
/// installation.
pub fn resolve_dsh_bin(given: Option<String>, given_exists: bool, bundled_exists: bool) -> (r:
    DshSource)
    ensures
        match given {
            Some(path) if given_exists => r == DshSource::Given(path),
            _ => if bundled_exists {
                r is Bundled
            } else {
                r is Online
            },
        },
{
    match given {
        Some(path) => if given_exists {
            return DshSource::Given(path);
        },
        None => {},
    }
    if bundled_exists {
        DshSource::Bundled
    } else {
        DshSource::Online
    }
}

/// The prefix of the global installation.
pub enum GlobalPrefix {
    /// The directory that `DSH_GLOBAL_DIR` names.
    Given(String),
    /// The directory of npm under that of the user.
    UnderUser(String),
    Unknown,
}

/// Decides on the prefix of the global installation: what `DSH_GLOBAL_DIR`
/// names, else what lies under the directory of the user.
pub fn global_dsh_dir(given: Option<String>, user: Option<String>) -> (r: GlobalPrefix)
    ensures
        match (given, user) {
            (Some(dir), _) => r == GlobalPrefix::Given(dir),
            (None, Some(dir)) => r == GlobalPrefix::UnderUser(dir),
            (None, None) => r is Unknown,
        },
{
    match given {
        Some(dir) => GlobalPrefix::Given(dir),
        None => match user {
            Some(dir) => GlobalPrefix::UnderUser(dir),
            None => GlobalPrefix::Unknown,
        },
    }
}

// Command lines.

/// The arguments for node to run dsh.
pub open spec fn dsh_arguments(bin: Seq<char>, port: nat) -> Seq<Seq<char>> {
    seq![shown_path(bin), "web"@, "--port"@, text::decimal(port)]
}

/// Makes the arguments for node to run dsh.
pub fn dsh_argv(bin: &str, port: u16) -> (r: Vec<String>)
    ensures
        text::texts(r@) == dsh_arguments(bin@, port as nat),
{
    let mut r: Vec<String> = Vec::new();
    r.push(display_path(bin));
    r.push("web".to_owned());
    r.push("--port".to_owned());
    r.push(text::decimal_text(port as u64));
    assert(text::texts(r@) =~= dsh_arguments(bin@, port as nat));
    r
}

/// The arguments for node to install a version of dsh under a prefix.
pub open spec fn install_arguments(
    npm_cli: Seq<char>,
    dir: Seq<char>,
    version: Seq<char>,
) -> Seq<Seq<char>> {
    seq![
        shown_path(npm_cli),
        "install"@,
        "-g"@,
        "--prefix"@,
        shown_path(dir),
        "--json"@,
        "--loglevel=http"@,
        "@deepseek-ai/dsh@"@ + version,
        "--ignore-scripts"@,
        "--no-audit"@,
        "--no-fund"@,
    ]
}

/// Makes the arguments for node to install a version of dsh under a prefix.
pub fn npm_install_argv(npm_cli: &str, dir: &str, version: &str) -> (r: Vec<String>)
    ensures
        text::texts(r@) == install_arguments(npm_cli@, dir@, version@),
{
    let mut package = "@deepseek-ai/dsh@".to_owned();
    package.append(version);
    let mut r: Vec<String> = Vec::new();
    r.push(display_path(npm_cli));
    r.push("install".to_owned());
    r.push("-g".to_owned());
    r.push("--prefix".to_owned());
    r.push(display_path(dir));
    r.push("--json".to_owned());
    r.push("--loglevel=http".to_owned());
    r.push(package);
    r.push("--ignore-scripts".to_owned());
    r.push("--no-audit".to_owned());
    r.push("--no-fund".to_owned());
    assert(text::texts(r@) =~= install_arguments(npm_cli@, dir@, version@));
    r
}

// Waiting for the service.

/// The address of the interface without a token.
pub open spec fn plain_url(port: nat) -> Seq<char> {
    "http://127.0.0.1:"@ + text::decimal(port) + "/"@
}

/// Makes the address of the interface without a token.
pub fn plain_address(port: u16) -> (r: String)
    ensures
        r@ == plain_url(port as nat),
{
    let mut s = "http://127.0.0.1:".to_owned();
    s.append(text::decimal_text(port as u64).as_str());
    s.append("/");
    s
}

/// Whether an HTTP status shows that the service answers: the page itself, the
/// exchange of the token for a cookie, or the demand for a token.
pub open spec fn answers(status: Option<u16>) -> bool {
    status == Some(200u16) || status == Some(303u16) || status == Some(401u16)
}

/// Whether an HTTP status shows that the service answers.
pub fn is_responsive(status: Option<u16>) -> (r: bool)
    ensures
        r == answers(status),
{
    match status {
        Some(code) => code == 200 || code == 303 || code == 401,
        None => false,
    }
}

/// Which address was asked.
pub enum Asked {
    Nothing,
    /// The address that dsh has printed.
    Web(String),
    /// The address without a token.
    Plain,
}

/// The wait for a service on a port.
pub struct Readiness {
    pub port: u16,
    /// How long to wait, in milliseconds.
    pub timeout: u64,
    pub asked: Asked,
}

/// What came of a step of the wait.
pub enum ReadyEvent {
    /// A new round: this many milliseconds have passed.
    Round { elapsed: u64 },
    /// Whether the port could be connected to, and the address that dsh has
    /// printed by now.
    Connected { ok: bool, web_url: Option<String> },
    /// The HTTP status of the answer, where there was one.
    Status(Option<u16>),
}

/// The next step of the wait.
pub enum ReadyAction {
    Connect,
    /// Ask this address for its status.
    Ask(String),
    /// Pause, then start a new round.
    Sleep,
    /// The service answers at this address.
    Ready(String),
    /// It did not get ready in time.
    TimedOut,
}

impl Readiness {
    /// A wait that begins with a new round.
    pub fn new(port: u16, timeout: u64) -> (r: Self)
        ensures
            r.port == port,
            r.timeout == timeout,
            r.asked is Nothing,
    {
        Readiness { port, timeout, asked: Asked::Nothing }
    }

    /// Whether the wait can be told the event.
    pub open spec fn expects(self, event: ReadyEvent) -> bool {
        match event {
            ReadyEvent::Status(_) => !(self.asked is Nothing),
            _ => self.asked is Nothing,
        }
    }

    /// The address that was asked.
    pub open spec fn asked_url(self) -> Seq<char> {
        match self.asked {
            Asked::Web(url) => url@,
            _ => plain_url(self.port as nat),
        }
    }

    /// What the wait does on an event.
    pub open spec fn moves(self, event: ReadyEvent, after: Readiness, action: ReadyAction) -> bool {
        &&& after.port == self.port && after.timeout == self.timeout
        &&& match event {
            ReadyEvent::Round { elapsed } => after.asked is Nothing && if elapsed < self.timeout {
                action is Connect
            } else {
                action is TimedOut
            },
            ReadyEvent::Connected { ok: false, web_url: _ } => after.asked is Nothing
                && action is Sleep,
            ReadyEvent::Connected { ok: true, web_url: Some(url) } => after.asked == Asked::Web(url)
                && (action matches ReadyAction::Ask(u) && u@ == url@),
            ReadyEvent::Connected { ok: true, web_url: None } => after.asked is Plain && (
            action matches ReadyAction::Ask(u) && u@ == plain_url(self.port as nat)),
            ReadyEvent::Status(status) => if answers(status) {
                after.asked is Nothing && (action matches ReadyAction::Ready(u) && u@
                    == self.asked_url())
            } else if self.asked is Web {
                after.asked is Plain && (action matches ReadyAction::Ask(u) && u@ == plain_url(
                    self.port as nat,
                ))
            } else {
                after.asked is Nothing && action is Sleep
            },
        }
    }

    /// Takes the next step of the wait: in each round that begins in time, the
    /// port is tried, then the address that dsh has printed, then the one
    /// without a token; the first one that answers is the result.
    pub fn wait_ready(&mut self, event: ReadyEvent) -> (r: ReadyAction)
        requires
            old(self).expects(event),
        ensures
            old(self).moves(event, *final(self), r),
    {
        match event {
            ReadyEvent::Round { elapsed } => if elapsed < self.timeout {
                ReadyAction::Connect
            } else {
                ReadyAction::TimedOut
            },
            ReadyEvent::Connected { ok, web_url } => if !ok {
                ReadyAction::Sleep
            } else {
                match web_url {
                    Some(url) => {
                        let target = url.clone();
                        self.asked = Asked::Web(url);
                        ReadyAction::Ask(target)
                    },
                    None => {
                        self.asked = Asked::Plain;
                        ReadyAction::Ask(plain_address(self.port))
                    },
                }
            },
            ReadyEvent::Status(status) => {
                let (target, web) = match &self.asked {
                    Asked::Web(url) => (url.clone(), true),
                    _ => (plain_address(self.port), false),
                };
                if is_responsive(status) {
                    self.asked = Asked::Nothing;
                    ReadyAction::Ready(target)
                } else if web {
                    self.asked = Asked::Plain;
                    ReadyAction::Ask(plain_address(self.port))
                } else {
                    self.asked = Asked::Nothing;
                    ReadyAction::Sleep
                }
            },
        }
    }
}

/// An address is reported as ready only when it has just answered, and it is
/// the one that dsh has printed or the one without a token on the port.
pub proof fn lemma_ready_has_answered(
    before: Readiness,
    event: ReadyEvent,
    after: Readiness,
    action: ReadyAction,
)
    requires
        before.expects(event),
        before.moves(event, after, action),
        action is Ready,
    ensures
        event matches ReadyEvent::Status(status) && answers(status),
        action->Ready_0@ == before.asked_url(),
        before.asked matches Asked::Web(url) ==> action->Ready_0@ == url@,
        before.asked is Plain ==> action->Ready_0@ == plain_url(before.port as nat),
{
}

// Installing with npm.

/// An installation with npm that runs.
pub struct NpmInstall {
    /// The packages that were fetched.
    pub fetched: u64,
}

/// What follows from a report of an installation.
#[derive(Clone, Copy, PartialEq, Eq, Structural, Debug)]
pub enum InstallAction {
    /// Wait for the next report.
    Wait,
    /// Show that this many packages were fetched; their total is not known.
    Progress { downloaded: u64 },
    /// The installation is over; whether it succeeded.
    Finished(bool),
}

/// Whether a line says that a package was fetched.
pub open spec fn tells_fetch(line: Seq<char>) -> bool {
    text::find(line, "npm http fetch"@) is Some && text::find(line, "GET"@) is Some
}

/// Whether there is time left to wait for a report, after so many milliseconds.
pub fn install_goes_on(elapsed: u64) -> (r: bool)
    ensures
        r == (elapsed < INSTALL_TIMEOUT),
{
    elapsed < INSTALL_TIMEOUT
}

/// The chunk that a report brings.
pub open spec fn chunk_of(event: ProcessEvent) -> Option<Seq<u8>> {
    match event {
        ProcessEvent::Stdout(bytes) => Some(bytes@),
        ProcessEvent::Stderr(bytes) => Some(bytes@),
        _ => None,
    }
}

/// The line that a report brings.
pub open spec fn line_of(event: ProcessEvent) -> Option<Seq<char>> {
    match chunk_of(event) {
        Some(bytes) => watchdog::output_line(bytes),
        None => None,
    }
}

impl NpmInstall {
    /// An installation of which nothing was reported yet.
    pub fn new() -> (r: Self)
        ensures
            r.fetched == 0,
    {
        NpmInstall { fetched: 0 }
    }

    /// Takes a report, or the end of the reports: the installation succeeds
    /// exactly when npm ends with the exit code 0. Lines are kept in the log;
    /// those that tell of a package are counted.
    pub fn run_npm_install(&mut self, dog: &mut Watchdog, event: Option<ProcessEvent>) -> (r:
        InstallAction)
        requires
            old(self).fetched < u64::MAX,
        ensures
            match event {
                None => r == InstallAction::Finished(false) && *final(self) == *old(self)
                    && final(dog)@ == old(dog)@,
                Some(ProcessEvent::Terminated(code)) => r == InstallAction::Finished(
                    code == Some(0i32),
                ) && *final(self) == *old(self) && final(dog)@ == old(dog)@,
                Some(e) => match line_of(e) {
                    Some(line) => final(dog)@ == old(dog)@.logged(line) && if tells_fetch(line) {
                        final(self).fetched == old(self).fetched + 1 && r
                            == (InstallAction::Progress { downloaded: final(self).fetched })
                    } else {
                        *final(self) == *old(self) && r == InstallAction::Wait
                    },
                    None => r == InstallAction::Wait && *final(self) == *old(self) && final(dog)@
                        == old(dog)@,
                },
            },
            old(dog)@.well_formed() ==> final(dog)@.well_formed(),
    {
        match event {
            None => InstallAction::Finished(false),
            Some(ProcessEvent::Terminated(code)) => {
                let ok = match code {
                    Some(c) => c == 0,
                    None => false,
                };
                InstallAction::Finished(ok)
            },
            Some(ProcessEvent::Stdout(bytes)) => self.take_chunk(dog, bytes),
            Some(ProcessEvent::Stderr(bytes)) => self.take_chunk(dog, bytes),
            Some(_) => InstallAction::Wait,
        }
    }

    /// Takes a chunk of the output of npm.
    fn take_chunk(&mut self, dog: &mut Watchdog, bytes: Vec<u8>) -> (r: InstallAction)
        requires
            old(self).fetched < u64::MAX,
        ensures
            match watchdog::output_line(bytes@) {
                Some(line) => final(dog)@ == old(dog)@.logged(line) && if tells_fetch(line) {
                    final(self).fetched == old(self).fetched + 1 && r
                        == (InstallAction::Progress { downloaded: final(self).fetched })
                } else {
                    *final(self) == *old(self) && r == InstallAction::Wait
                },
                None => r == InstallAction::Wait && *final(self) == *old(self) && final(dog)@
                    == old(dog)@,
            },
    {
        match watchdog::read_output(bytes) {
            Some(line) => {
                dog.keep_line(line.as_str());
                let chars = text::to_chars(line.as_str());
                if text::contains_text(&chars, "npm http fetch") && text::contains_text(
                    &chars,
                    "GET",
                ) {
                    self.fetched = self.fetched + 1;
                    InstallAction::Progress { downloaded: self.fetched }
                } else {
                    InstallAction::Wait
                }
            },
            None => InstallAction::Wait,
        }
    }
}

// Starting dsh.

/// What a start of dsh waits for.
#[derive(Clone, Copy, PartialEq, Eq, Structural, Debug)]
pub enum Phase {
    /// Whether a service answers on the fixed port already.
    Reuse,
    /// The end of the leftovers, and whether the fixed port is free then.
    Sweep,
    /// Any free port.
    AnyPort,
    /// The resources, and the plugin of the shell in the profile.
    Resources,
    /// The script of dsh that is given or brought along.
    Entry,
    /// The script of the global installation.
    Global,
    /// The latest version.
    Latest,
    /// The end of the installation.
    Install,
    /// The script of the global installation, after the installation.
    Check,
    /// The process.
    Process,
    /// Whether the service answers.
    Service,
    /// Nothing any more.
    Over,
}

/// A start of dsh.
#[derive(Clone, Copy, PartialEq, Eq, Structural, Debug)]
pub struct Launch {
    pub phase: Phase,
    /// The port that is wanted.
    pub fixed_port: u16,
    /// The port that is used.
    pub port: u16,
}

/// What a start of dsh is told.
pub enum LaunchEvent {
    /// The address at which a service answers, where one does.
    Service(Option<String>),
    /// The leftovers are gone; whether the fixed port is free.
    Swept { fixed_free: bool },
    /// A free port, where there is one.
    FreePort(Option<u16>),
    /// Whether the resources were found; the plugin was looked after then.
    Resources { found: bool },
    /// The script that is given or brought along, where there is one.
    Entry(Option<String>),
    /// The script of the global installation, where there is one, and whether
    /// its prefix is known.
    Global { bin: Option<String>, prefix_known: bool },
    /// The latest version, or why it is not known.
    Latest(Result<String, String>),
    /// Whether the installation succeeded.
    Installed(bool),
    /// Whether the process was started.
    Process { started: bool },
}

/// What a start of dsh asks for.
pub enum LaunchAction {
    /// Wait for a service on the port for so many milliseconds.
    AwaitService { port: u16, timeout: u64 },
    /// End the leftovers of earlier runs.
    Sweep,
    /// Find a free port.
    FindPort,
    /// Find the resources, and look after the plugin of the shell.
    FindResources,
    /// Find the script that is given or brought along.
    FindEntry,
    /// Find the script of the global installation.
    FindGlobal,
    /// Ask for the latest version.
    QueryLatest,
    /// Install this version.
    Install(String),
    /// Run node with these arguments.
    Run(Vec<String>),
    /// Show the interface at this address, where it is one.
    Show { url: Option<String> },
    /// Starting failed: kill the process where `kill` says so, and show this
    /// page, where there is one.
    Fail { kill: bool, page: Option<String> },
}

impl Launch {
    /// A start of dsh at the wanted port, and the first thing it asks for.
    pub fn begin(fixed_port: u16) -> (r: (Self, LaunchAction))
        ensures
            r.0 == (Launch { phase: Phase::Reuse, fixed_port, port: fixed_port }),
            r.1 == (LaunchAction::AwaitService { port: fixed_port, timeout: REUSE_TIMEOUT }),
    {
        (
            Launch { phase: Phase::Reuse, fixed_port, port: fixed_port },
            LaunchAction::AwaitService { port: fixed_port, timeout: REUSE_TIMEOUT },
        )
    }

    /// Whether the start waits for the event.
    pub open spec fn expects(self, event: LaunchEvent) -> bool {
        match event {
            LaunchEvent::Service(_) => self.phase == Phase::Reuse || self.phase == Phase::Service,
            LaunchEvent::Swept { .. } => self.phase == Phase::Sweep,
            LaunchEvent::FreePort(_) => self.phase == Phase::AnyPort,
            LaunchEvent::Resources { .. } => self.phase == Phase::Resources,
            LaunchEvent::Entry(_) => self.phase == Phase::Entry,
            LaunchEvent::Global { .. } => self.phase == Phase::Global || self.phase
                == Phase::Check,
            LaunchEvent::Latest(_) => self.phase == Phase::Latest,
            LaunchEvent::Installed(_) => self.phase == Phase::Install,
            LaunchEvent::Process { .. } => self.phase == Phase::Process,
        }
    }

    /// The start in another phase.
    pub open spec fn at(self, phase: Phase) -> Launch {
        Launch { phase, ..self }
    }

    /// The start with another port, once that is known.
    pub open spec fn with_port(self, port: u16) -> Launch {
        Launch { phase: Phase::Resources, port, ..self }
    }

    /// Whether the start runs the script: node gets it, and the port.
    pub open spec fn runs(self, bin: Seq<char>, after: Launch, action: LaunchAction) -> bool {
        &&& after == self.at(Phase::Process)
        &&& action matches LaunchAction::Run(argv) && text::texts(argv@) == dsh_arguments(
            bin,
            self.port as nat,
        )
    }

    /// Whether the start fails before there is a process: the reason is noted
    /// where none is known yet, and shown.
    pub open spec fn fails(
        self,
        dog: WatchdogState,
        is_en: bool,
        after: Launch,
        dog_after: WatchdogState,
        action: LaunchAction,
    ) -> bool {
        &&& after == self.at(Phase::Over)
        &&& action matches LaunchAction::Fail { kill, page } && !kill && if dog.error is Some {
            dog_after == dog && page is None
        } else {
            dog_after == dog.failed(
                watchdog::start_failure_text(is_en, watchdog::log_text(dog)),
            ) && text::maybe_owned(page) == watchdog::navigable(dog.loader_url)
        }
    }

    /// Whether the start goes on in another phase, with nothing else changed.
    pub open spec fn goes_on(
        self,
        phase: Phase,
        dog: WatchdogState,
        after: Launch,
        dog_after: WatchdogState,
    ) -> bool {
        after == self.at(phase) && dog_after == dog
    }

    /// What the start does on an event.
    pub open spec fn moves(
        self,
        dog: WatchdogState,
        event: LaunchEvent,
        now: u64,
        is_en: bool,
        after: Launch,
        dog_after: WatchdogState,
        action: LaunchAction,
    ) -> bool {
        match event {
            LaunchEvent::Service(Some(url)) => {
                &&& after == self.at(Phase::Over)
                &&& action matches LaunchAction::Show { url: target } && text::maybe_owned(target)
                    == watchdog::navigable(Some(url@))
                &&& dog_after == if self.phase == Phase::Service {
                    (WatchdogState { ready_at: Some(now), ..dog })
                } else {
                    dog
                }
            },
            LaunchEvent::Service(None) => if self.phase == Phase::Service {
                &&& after == self.at(Phase::Over)
                &&& dog_after == dog.advanced().failed(
                    watchdog::timeout_text(is_en, self.port as nat, watchdog::log_text(dog)),
                )
                &&& action matches LaunchAction::Fail { kill, page } && kill && text::maybe_owned(
                    page,
                ) == watchdog::navigable(dog.loader_url)
            } else {
                self.goes_on(Phase::Sweep, dog, after, dog_after) && action is Sweep
            },
            LaunchEvent::Swept { fixed_free: true } => after == self.with_port(self.fixed_port)
                && dog_after == dog && action is FindResources,
            LaunchEvent::Swept { fixed_free: false } => self.goes_on(
                Phase::AnyPort,
                dog,
                after,
                dog_after,
            ) && action is FindPort,
            LaunchEvent::FreePort(Some(port)) => after == self.with_port(port) && dog_after == dog
                && action is FindResources,
            LaunchEvent::FreePort(None) => self.fails(dog, is_en, after, dog_after, action),
            LaunchEvent::Resources { found: true } => self.goes_on(
                Phase::Entry,
                dog,
                after,
                dog_after,
            ) && action is FindEntry,
            LaunchEvent::Resources { found: false } => self.fails(
                dog,
                is_en,
                after,
                dog_after,
                action,
            ),
            LaunchEvent::Entry(Some(bin)) => self.runs(bin@, after, action) && dog_after == dog,
            LaunchEvent::Entry(None) => self.goes_on(Phase::Global, dog, after, dog_after)
                && action is FindGlobal,
            LaunchEvent::Global { bin: Some(bin), .. } => self.runs(bin@, after, action)
                && dog_after == dog,
            LaunchEvent::Global { bin: None, prefix_known } => if self.phase == Phase::Global
                && prefix_known {
                self.goes_on(Phase::Latest, dog, after, dog_after) && action is QueryLatest
            } else {
                self.fails(dog, is_en, after, dog_after, action)
            },
            LaunchEvent::Latest(Ok(version)) => self.goes_on(Phase::Install, dog, after, dog_after)
                && action == LaunchAction::Install(version),
            LaunchEvent::Latest(Err(_)) => self.fails(dog, is_en, after, dog_after, action),
            LaunchEvent::Installed(true) => self.goes_on(Phase::Check, dog, after, dog_after)
                && action is FindGlobal,
            LaunchEvent::Installed(false) => self.fails(dog, is_en, after, dog_after, action),
            LaunchEvent::Process { started: true } => {
                &&& after == self.at(Phase::Service)
                &&& dog_after == dog.started()
                &&& action == (LaunchAction::AwaitService {
                    port: self.port,
                    timeout: READY_TIMEOUT,
                })
            },
            LaunchEvent::Process { started: false } => self.fails(
                dog,
                is_en,
                after,
                dog_after,
                action,
            ),
        }
    }

    /// Fails before there is a process.
    fn fail(&mut self, dog: &mut Watchdog, is_en: bool) -> (r: LaunchAction)
        ensures
            old(self).fails(old(dog)@, is_en, *final(self), final(dog)@, r),
            old(dog)@.well_formed() ==> final(dog)@.well_formed(),
    {
        self.phase = Phase::Over;
        let page = dog.dsh_not_started(is_en);
        LaunchAction::Fail { kill: false, page }
    }

    /// Runs the script.
    fn run(&mut self, bin: &str) -> (r: LaunchAction)
        ensures
            old(self).runs(bin@, *final(self), r),
    {
        self.phase = Phase::Process;
        LaunchAction::Run(dsh_argv(bin, self.port))
    }

    /// Takes the next step of a start: a service that answers on the fixed port
    /// is used as it is; otherwise the leftovers are ended, dsh is found, or
    /// installed where it is nowhere, and run, and its service waited for.
    pub fn start_dsh(
        &mut self,
        dog: &mut Watchdog,
        event: LaunchEvent,
        now: u64,
        is_en: bool,
    ) -> (r: LaunchAction)
        requires
            old(self).expects(event),
        ensures
            old(self).moves(old(dog)@, event, now, is_en, *final(self), final(dog)@, r),
            old(dog)@.well_formed() ==> final(dog)@.well_formed(),
    {
        match event {
            LaunchEvent::Service(Some(url)) => {
                match self.phase {
                    Phase::Service => dog.dsh_ready(now),
                    _ => {},
                }
                self.phase = Phase::Over;
                LaunchAction::Show { url: watchdog::navigation_target(&Some(url)) }
            },
            LaunchEvent::Service(None) => match self.phase {
                Phase::Service => {
                    self.phase = Phase::Over;
                    let page = dog.dsh_timed_out(self.port, is_en);
                    LaunchAction::Fail { kill: true, page }
                },
                _ => {
                    self.phase = Phase::Sweep;
                    LaunchAction::Sweep
                },
            },
            LaunchEvent::Swept { fixed_free } => if fixed_free {
                self.port = self.fixed_port;
                self.phase = Phase::Resources;
                LaunchAction::FindResources
            } else {
                self.phase = Phase::AnyPort;
                LaunchAction::FindPort
            },
            LaunchEvent::FreePort(Some(port)) => {
                self.port = port;
                self.phase = Phase::Resources;
                LaunchAction::FindResources
            },
            LaunchEvent::FreePort(None) => self.fail(dog, is_en),
            LaunchEvent::Resources { found } => if found {
                self.phase = Phase::Entry;
                LaunchAction::FindEntry
            } else {
                self.fail(dog, is_en)
            },
            LaunchEvent::Entry(Some(bin)) => self.run(bin.as_str()),
            LaunchEvent::Entry(None) => {
                self.phase = Phase::Global;
                LaunchAction::FindGlobal
            },
            LaunchEvent::Global { bin, prefix_known } => match bin {
                Some(bin) => self.run(bin.as_str()),
                None => match self.phase {
                    Phase::Global => if prefix_known {
                        self.phase = Phase::Latest;
                        LaunchAction::QueryLatest
                    } else {
                        self.fail(dog, is_en)
                    },
                    _ => self.fail(dog, is_en),
                },
            },
            LaunchEvent::Latest(Ok(version)) => {
                self.phase = Phase::Install;
                LaunchAction::Install(version)
            },
            LaunchEvent::Latest(Err(_)) => self.fail(dog, is_en),
            LaunchEvent::Installed(ok) => if ok {
                self.phase = Phase::Check;
                LaunchAction::FindGlobal
            } else {
                self.fail(dog, is_en)
            },
            LaunchEvent::Process { started } => if started {
                let _generation = dog.dsh_started();
                self.phase = Phase::Service;
                LaunchAction::AwaitService { port: self.port, timeout: READY_TIMEOUT }
            } else {
                self.fail(dog, is_en)
            },
        }
    }
}

/// How far a start has come.
pub open spec fn progress(phase: Phase) -> nat {
    match phase {
        Phase::Reuse => 0,
        Phase::Sweep => 1,
        Phase::AnyPort => 2,
        Phase::Resources => 3,
        Phase::Entry => 4,
        Phase::Global => 5,
        Phase::Latest => 6,
        Phase::Install => 7,
        Phase::Check => 8,
        Phase::Process => 9,
        Phase::Service => 10,
        Phase::Over => 11,
    }
}

/// Every step of a start brings it nearer to its end, so that a start ends
/// after eleven steps at most, and runs, installs and sweeps at most once.
pub proof fn lemma_start_ends(
    before: Launch,
    dog: WatchdogState,
    event: LaunchEvent,
    now: u64,
    is_en: bool,
    after: Launch,
    dog_after: WatchdogState,
    action: LaunchAction,
)
    requires
        before.expects(event),
        before.moves(dog, event, now, is_en, after, dog_after, action),
    ensures
        progress(before.phase) < progress(after.phase) <= 11,
        action is Run <==> after.phase == Phase::Process,
        action is Install <==> after.phase == Phase::Install,
        action is Sweep <==> after.phase == Phase::Sweep,
        action is Show || action is Fail <==> after.phase == Phase::Over,
{
}

/// A service that answers on the fixed port is used as it is: no process is
/// started or ended, and nothing of the watchdog changes.
pub proof fn lemma_running_service_is_reused(
    before: Launch,
    dog: WatchdogState,
    url: String,
    now: u64,
    is_en: bool,
    after: Launch,
    dog_after: WatchdogState,
    action: LaunchAction,
)
    requires
        before.phase == Phase::Reuse,
        before.moves(
            dog,
            LaunchEvent::Service(Some(url)),
            now,
            is_en,
            after,
            dog_after,
            action,
        ),
    ensures
        after.phase == Phase::Over,
        dog_after == dog,
        action matches LaunchAction::Show { url: target } && (target is Some
            <==> watchdog::url_parses(url@)) && (target is Some ==> target->0@ == url@),
{
}

/// An installed dsh is run without asking the network: only where no script is
/// given, brought along or installed does a start ask for the latest version.
pub proof fn lemma_installed_dsh_needs_no_network(
    before: Launch,
    dog: WatchdogState,
    event: LaunchEvent,
    now: u64,
    is_en: bool,
    after: Launch,
    dog_after: WatchdogState,
    action: LaunchAction,
)
    requires
        before.expects(event),
        before.moves(dog, event, now, is_en, after, dog_after, action),
        action is QueryLatest,
    ensures
        before.phase == Phase::Global,
        event matches LaunchEvent::Global { bin: None, prefix_known: true },
{
}

// A whole start.

/// A step of a start.
pub struct LaunchStep {
    pub before: Launch,
    pub dog: WatchdogState,
    pub event: LaunchEvent,
    pub now: u64,
    pub is_en: bool,
    pub after: Launch,
    pub dog_after: WatchdogState,
    pub action: LaunchAction,
}

/// Whether the steps are those of a start of dsh at the wanted port, one behind
/// the other.
pub open spec fn is_start(port: u16, steps: Seq<LaunchStep>) -> bool {
    &&& steps.len() > 0 ==> exists|action: LaunchAction| #[trigger]
        call_ensures(Launch::begin, (port,), (steps[0].before, action))
    &&& forall|i: int| 0 <= i < steps.len() ==> (#[trigger] steps[i]).before.expects(steps[i].event)
    &&& forall|i: int|
        0 <= i < steps.len() ==> (#[trigger] steps[i]).before.moves(
            steps[i].dog,
            steps[i].event,
            steps[i].now,
            steps[i].is_en,
            steps[i].after,
            steps[i].dog_after,
            steps[i].action,
        )
    &&& forall|i: int, j: int|
        0 <= i < j < steps.len() && j == i + 1 ==> (#[trigger] steps[j]).before == (
        #[trigger] steps[i]).after
}

proof fn lemma_wanted_port_stays(port: u16, steps: Seq<LaunchStep>, n: int)
    requires
        is_start(port, steps),
        0 <= n < steps.len(),
    ensures
        steps[n].before.fixed_port == port,
        steps[n].after.fixed_port == port,
    decreases n,
{
    if n > 0 {
        lemma_wanted_port_stays(port, steps, n - 1);
        assert(steps[n].before == steps[n - 1].after);
    }
    assert(steps[n].before.expects(steps[n].event));
}

proof fn lemma_port_is_settled(port: u16, steps: Seq<LaunchStep>, i: int, n: int)
    requires
        is_start(port, steps),
        0 <= i <= n < steps.len(),
        (steps[i].event matches LaunchEvent::Swept { fixed_free: true })
            || steps[i].event is FreePort,
        steps[i].action is FindResources,
    ensures
        steps[n].after.port == steps[i].after.port,
        progress(steps[n].after.phase) >= 3,
        n > i ==> steps[n].before.port == steps[i].after.port && progress(steps[n].before.phase)
            >= 3,
    decreases n,
{
    assert(steps[n].before.expects(steps[n].event));
    if n > i {
        lemma_port_is_settled(port, steps, i, n - 1);
        assert(steps[n].before == steps[n - 1].after);
    }
}

/// Where the wanted port is free after the leftovers were ended, dsh is run at that
/// port, so that the origin of the page stays the same from start to start: no
/// other port is asked for in the whole start, and whatever script is run gets the
/// wanted port as its `--port`.
pub proof fn lemma_free_wanted_port_is_used(
    port: u16,
    steps: Seq<LaunchStep>,
    i: int,
    j: int,
)
    requires
        is_start(port, steps),
        0 <= i < steps.len(),
        steps[i].event matches LaunchEvent::Swept { fixed_free: true },
        0 <= j < steps.len(),
    ensures
        steps[i].action is FindResources,
        !(steps[j].action is FindPort),
        j > i ==> steps[j].before.port == port,
        steps[j].action matches LaunchAction::Run(argv) ==> argv@.len() == 4 && argv@[1]@ == "web"@
            && argv@[2]@ == "--port"@ && argv@[3]@ == text::decimal(port as nat),
        steps[j].action matches LaunchAction::AwaitService { port: p, .. } ==> p == port,
{
    lemma_wanted_port_stays(port, steps, i);
    assert(steps[i].before.expects(steps[i].event));
    assert(steps[j].before.expects(steps[j].event));
    if j > i {
        lemma_port_is_settled(port, steps, i, j);
    } else if j < i {
        lemma_early_steps(port, steps, j, i);
    }
    if let LaunchAction::Run(argv) = steps[j].action {
        assert(text::texts(argv@).len() == argv@.len());
        assert(argv@.len() == 4);
        assert(text::texts(argv@)[1] == argv@[1]@);
        assert(text::texts(argv@)[2] == argv@[2]@);
        assert(text::texts(argv@)[3] == argv@[3]@);
    }
}

/// Before the sweep nothing is run, and no port asked for.
proof fn lemma_early_steps(port: u16, steps: Seq<LaunchStep>, j: int, i: int)
    requires
        is_start(port, steps),
        0 <= j < i < steps.len(),
        steps[i].before.phase == Phase::Sweep,
    ensures
        progress(steps[j].after.phase) <= 1,
        steps[j].action is Sweep,
    decreases i - j,
{
    assert(steps[i].before.expects(steps[i].event));
    lemma_progress_between(port, steps, j, i);
    assert(steps[j].before.expects(steps[j].event));
}

proof fn lemma_progress_between(port: u16, steps: Seq<LaunchStep>, j: int, i: int)
    requires
        is_start(port, steps),
        0 <= j < i < steps.len(),
    ensures
        progress(steps[j].after.phase) <= progress(steps[i].before.phase),
    decreases i - j,
{
    assert(steps[j + 1].before == steps[j].after);
    if j + 1 < i {
        lemma_progress_between(port, steps, j + 1, i);
        assert(steps[j + 1].before.expects(steps[j + 1].event));
        lemma_start_ends(
            steps[j + 1].before,
            steps[j + 1].dog,
            steps[j + 1].event,
            steps[j + 1].now,
            steps[j + 1].is_en,
            steps[j + 1].after,
            steps[j + 1].dog_after,
            steps[j + 1].action,
        );
    }
}

/// Another port is asked for only where the wanted one was reported taken, and the
/// one that is found is then the one at which dsh is run and waited for.
pub proof fn lemma_other_port_only_where_taken(
    port: u16,
    steps: Seq<LaunchStep>,
    i: int,
    found: u16,
    j: int,
)
    requires
        is_start(port, steps),
        0 <= i < steps.len(),
        0 <= j < steps.len(),
    ensures
        steps[i].action is FindPort ==> (steps[i].event matches LaunchEvent::Swept {
            fixed_free: false,
        }),
        (steps[i].event matches LaunchEvent::Swept { fixed_free: false })
            ==> steps[i].action is FindPort,
        steps[i].event == LaunchEvent::FreePort(Some(found)) && i < j ==> {
            &&& steps[j].action matches LaunchAction::Run(argv) ==> argv@.len() == 4 && argv@[3]@
                == text::decimal(found as nat) && argv@[2]@ == "--port"@
            &&& steps[j].action matches LaunchAction::AwaitService { port: p, .. } ==> p == found
        },
{
    assert(steps[i].before.expects(steps[i].event));
    assert(steps[j].before.expects(steps[j].event));
    if steps[i].event == LaunchEvent::FreePort(Some(found)) && i < j {
        lemma_port_is_settled(port, steps, i, j);
        if let LaunchAction::Run(argv) = steps[j].action {
            assert(text::texts(argv@).len() == argv@.len());
            assert(argv@.len() == 4);
            assert(text::texts(argv@)[2] == argv@[2]@);
            assert(text::texts(argv@)[3] == argv@[3]@);
        }
    }
}

/// When a start asks for what: each action has the events that lead to it, and no
/// others.
pub proof fn lemma_what_a_start_asks_for(step: LaunchStep)
    requires
        step.before.expects(step.event),
        step.before.moves(
            step.dog,
            step.event,
            step.now,
            step.is_en,
            step.after,
            step.dog_after,
            step.action,
        ),
    ensures
        step.action is Sweep <==> step.before.phase == Phase::Reuse && step.event
            == LaunchEvent::Service(None),
        step.action is FindPort <==> step.event == (LaunchEvent::Swept { fixed_free: false }),
        step.action is FindResources <==> step.event == (LaunchEvent::Swept { fixed_free: true })
            || (step.event is FreePort && step.event->FreePort_0 is Some),
        step.action is FindEntry <==> step.event == (LaunchEvent::Resources { found: true }),
        step.action is FindGlobal <==> step.event == LaunchEvent::Entry(None) || step.event
            == LaunchEvent::Installed(true),
        step.action is QueryLatest <==> step.before.phase == Phase::Global && step.event
            == (LaunchEvent::Global { bin: None, prefix_known: true }),
        step.action is Install <==> (step.event is Latest && step.event->Latest_0 is Ok),
        step.action is Run <==> (step.event matches LaunchEvent::Entry(Some(_))) || (
        step.event matches LaunchEvent::Global { bin: Some(_), .. }),
        step.action is AwaitService <==> step.event == (LaunchEvent::Process { started: true }),
        step.action is Show <==> (step.event matches LaunchEvent::Service(Some(_))),
        step.action is Fail <==> (step.before.phase == Phase::Service && step.event
            == LaunchEvent::Service(None)) || step.event == LaunchEvent::FreePort(None)
            || step.event == (LaunchEvent::Resources { found: false }) || (
        step.event matches LaunchEvent::Global { bin: None, prefix_known } && (!prefix_known
            || step.before.phase == Phase::Check)) || (step.event is Latest
            && step.event->Latest_0 is Err) || step.event == LaunchEvent::Installed(false)
            || step.event == (LaunchEvent::Process { started: false }),
{
}

/// What a start asks for holds what it was told: the version that is the latest is
/// installed, the script that was found is run, without the prefix of long paths,
/// the service of dsh is waited for for five minutes, and the address at which it
/// answers is shown. What the watchdog knows changes only where the process was
/// started, where its service answered, and where the start failed.
pub proof fn lemma_a_start_hands_on_what_it_is_told(step: LaunchStep)
    requires
        step.before.expects(step.event),
        step.before.moves(
            step.dog,
            step.event,
            step.now,
            step.is_en,
            step.after,
            step.dog_after,
            step.action,
        ),
    ensures
        step.event matches LaunchEvent::Latest(Ok(v)) ==> step.action == LaunchAction::Install(v),
        step.event matches LaunchEvent::Entry(Some(bin)) ==> (
        step.action matches LaunchAction::Run(argv) && argv@.len() == 4 && argv@[0]@ == shown_path(
            bin@,
        )),
        step.event matches LaunchEvent::Global { bin: Some(bin), .. } ==> (
        step.action matches LaunchAction::Run(argv) && argv@.len() == 4 && argv@[0]@ == shown_path(
            bin@,
        )),
        step.action matches LaunchAction::AwaitService { port, timeout } ==> port
            == step.before.port && timeout == 300_000,
        step.event matches LaunchEvent::Service(Some(url)) ==> (
        step.action matches LaunchAction::Show { url: target } && (target is Some
            <==> watchdog::url_parses(url@)) && (target is Some ==> target->0@ == url@)),
        step.action matches LaunchAction::Fail { kill, .. } ==> step.dog_after.error is Some && (
        kill <==> step.before.phase == Phase::Service),
        step.action matches LaunchAction::Fail { kill: false, page } ==> {
            &&& step.dog.error is Some ==> step.dog_after == step.dog && page is None
            &&& step.dog.error is None ==> step.dog_after == (WatchdogState {
                error: Some(
                    watchdog::start_failure_text(step.is_en, watchdog::log_text(step.dog)),
                ),
                ..step.dog
            })
            &&& step.dog.error is None ==> (page is Some <==> step.dog.loader_url is Some
                && watchdog::url_parses(step.dog.loader_url->0))
            &&& page is Some ==> step.dog.loader_url == Some(page->0@)
        },
        step.action matches LaunchAction::Fail { kill: true, page } ==> {
            &&& step.dog_after.error == Some(
                watchdog::timeout_text(
                    step.is_en,
                    step.before.port as nat,
                    watchdog::log_text(step.dog),
                ),
            )
            &&& step.dog_after.generation != step.dog.generation
            &&& page is Some <==> step.dog.loader_url is Some && watchdog::url_parses(
                step.dog.loader_url->0,
            )
            &&& page is Some ==> step.dog.loader_url == Some(page->0@)
        },
        step.event == (LaunchEvent::Process { started: true }) ==> step.dog_after.generation
            != step.dog.generation && step.dog_after.log.len() == 0
            && step.dog_after.web_url is None && step.dog_after.crashes == step.dog.crashes,
        (step.event matches LaunchEvent::Service(Some(_))) && step.before.phase == Phase::Service
            ==> step.dog_after == (WatchdogState { ready_at: Some(step.now), ..step.dog }),
        !(step.action is Fail) && step.event != (LaunchEvent::Process { started: true })
            && step.before.phase != Phase::Service ==> step.dog_after == step.dog,
{
    if let LaunchAction::Run(argv) = step.action {
        assert(text::texts(argv@).len() == argv@.len());
        assert(argv@.len() == 4);
        assert(text::texts(argv@)[0] == argv@[0]@);
    }
}

/// The usual start, from its begin to its end: no service runs yet, the wanted port
/// is free, the script that is brought along is found and run, and its service
/// answers. Then the script was run at the wanted port, and the address at which
/// the service answers is shown, whatever the port, the script and the address.
pub proof fn lemma_usual_start(
    port: u16,
    steps: Seq<LaunchStep>,
    bin: String,
    url: String,
)
    requires
        is_start(port, steps),
        steps.len() == 6,
        steps[0].event == LaunchEvent::Service(None),
        steps[1].event == (LaunchEvent::Swept { fixed_free: true }),
        steps[2].event == (LaunchEvent::Resources { found: true }),
        steps[3].event == LaunchEvent::Entry(Some(bin)),
        steps[4].event == (LaunchEvent::Process { started: true }),
        steps[5].event == LaunchEvent::Service(Some(url)),
    ensures
        steps[0].action is Sweep,
        steps[3].action matches LaunchAction::Run(argv) && text::texts(argv@) == seq![
            shown_path(bin@),
            "web"@,
            "--port"@,
            text::decimal(port as nat),
        ],
        steps[4].action == (LaunchAction::AwaitService { port, timeout: 300_000 }),
        steps[5].action matches LaunchAction::Show { url: target } && (watchdog::url_parses(url@)
            ==> target is Some && target->0@ == url@),
        steps[5].after.phase == Phase::Over,
        steps[5].dog_after.ready_at == Some(steps[5].now),
{
    assert(steps[1].before == steps[0].after);
    assert(steps[2].before == steps[1].after);
    assert(steps[3].before == steps[2].after);
    assert(steps[4].before == steps[3].after);
    assert(steps[5].before == steps[4].after);
    assert(steps[0].before.expects(steps[0].event));
    assert(steps[1].before.expects(steps[1].event));
    assert(steps[2].before.expects(steps[2].event));
    assert(steps[3].before.expects(steps[3].event));
    assert(steps[4].before.expects(steps[4].event));
    assert(steps[5].before.expects(steps[5].event));
}

/// A start looks for a second for a service at the wanted port before it does
/// anything else.
pub proof fn lemma_start_looks_for_a_service(port: u16, r: (Launch, LaunchAction))
    requires
        call_ensures(Launch::begin, (port,), r),
    ensures
        r.1 == (LaunchAction::AwaitService { port, timeout: 1_000 }),
        r.0.phase == Phase::Reuse && r.0.fixed_port == port,
{
}

// The wait for a service.

/// A wait tries the port in every round that begins in time, and ends with the
/// first one that does not; it asks the address that dsh has printed, then the one
/// without a token; and it is over with the address that was asked exactly when
/// that has answered with the page, with a redirection or with a demand for a
/// token.
pub proof fn lemma_what_a_wait_does(
    before: Readiness,
    event: ReadyEvent,
    after: Readiness,
    action: ReadyAction,
)
    requires
        before.expects(event),
        before.moves(event, after, action),
    ensures
        after.port == before.port && after.timeout == before.timeout,
        action is TimedOut <==> (event matches ReadyEvent::Round { elapsed } && elapsed
            >= before.timeout),
        action is Connect <==> (event matches ReadyEvent::Round { elapsed } && elapsed
            < before.timeout),
        action is Ready <==> (event matches ReadyEvent::Status(Some(code)) && (code == 200 || code
            == 303 || code == 401)),
        action is Sleep <==> (event matches ReadyEvent::Connected { ok: false, .. }) || (
        before.asked is Plain && (event matches ReadyEvent::Status(status) && status
            != Some(200u16) && status != Some(303u16) && status != Some(401u16))),
        event matches ReadyEvent::Connected { ok: true, web_url: Some(url) } ==> (
        action matches ReadyAction::Ask(u) && u@ == url@ && after.asked == Asked::Web(url)),
        event matches ReadyEvent::Connected { ok: true, web_url: None } ==> (
        action matches ReadyAction::Ask(u) && u@ == "http://127.0.0.1:"@ + text::decimal(
            before.port as nat,
        ) + "/"@ && after.asked is Plain),
        before.asked is Web && action is Ask ==> action->Ask_0@ == "http://127.0.0.1:"@
            + text::decimal(before.port as nat) + "/"@ && after.asked is Plain,
        action is Ask <==> !(after.asked is Nothing),
        action is Ready && before.asked is Web ==> action->Ready_0@ == before.asked->Web_0@,
        action is Ready && before.asked is Plain ==> action->Ready_0@ == "http://127.0.0.1:"@
            + text::decimal(before.port as nat) + "/"@,
{
}

// Small decisions.

/// What the variables of the environment decide: the directory of the user, the
/// script of dsh and the prefix of its global installation are those that are
/// named first.
pub proof fn lemma_places(
    first: Option<String>,
    second: Option<String>,
    home: Option<String>,
    given: Option<String>,
    exists_given: bool,
    exists_bundled: bool,
    source: DshSource,
    prefix: GlobalPrefix,
)
    requires
        call_ensures(home_dir, (first, second), home),
        call_ensures(resolve_dsh_bin, (given, exists_given, exists_bundled), source),
        call_ensures(global_dsh_dir, (first, second), prefix),
    ensures
        first is Some ==> home == first && prefix == GlobalPrefix::Given(first->0),
        first is None ==> home == second,
        first is None && second is Some ==> prefix == GlobalPrefix::UnderUser(second->0),
        prefix is Unknown <==> first is None && second is None,
        source is Given <==> given is Some && exists_given,
        source matches DshSource::Given(path) ==> given == Some(path),
        source is Bundled <==> exists_bundled && !(given is Some && exists_given),
{
}

/// The port of the interface is the number from 0 up to 65535 that is spelled, with
/// any white space round it, and 5399 where none is, or a greater one, or anything
/// else.
pub proof fn lemma_port_that_is_asked_for(
    before: Seq<char>,
    spelled: Seq<char>,
    after: Seq<char>,
    other: Seq<char>,
)
    requires
        forall|i: int| 0 <= i < before.len() ==> text::is_space(#[trigger] before[i]),
        forall|i: int| 0 <= i < after.len() ==> text::is_space(#[trigger] after[i]),
        text::all_digits(spelled),
        other.len() == 0 || exists|i: int|
            0 <= i < other.len() && !text::is_space(#[trigger] other[i]) && !text::is_digit(
                other[i],
            ) && other[i] != '+',
    ensures
        port_of(Some(before + spelled + after)) == if text::digits_value(spelled) < 65536 {
            text::digits_value(spelled) as int
        } else {
            5399
        },
        port_of(Some(before + (seq!['+'] + spelled) + after)) == port_of(Some(spelled)),
        port_of(None) == 5399,
        port_of(Some(other)) == 5399,
{
    let none = Seq::<char>::empty();
    text::lemma_spelled_numbers(spelled, 0);
    assert(text::is_digit(spelled[0]) && text::is_digit(spelled[spelled.len() - 1]));
    text::lemma_trimming_takes_the_ends_only(before, spelled, after);
    text::lemma_trimming_takes_the_ends_only(none, spelled, none);
    assert(none + spelled + none =~= spelled);
    text::lemma_trimming_takes_the_ends_only(before, seq!['+'] + spelled, after);
    let t = text::trimmed(other);
    if other.len() > 0 {
        let k = choose|i: int|
            0 <= i < other.len() && !text::is_space(#[trigger] other[i]) && !text::is_digit(
                other[i],
            ) && other[i] != '+';
        lemma_trimmed_keeps(other, k);
        let j = choose|j: int| 0 <= j < t.len() && #[trigger] t[j] == other[k];
        text::lemma_spelled_numbers(t, j);
    }
}

/// What is no white space is not trimmed away.
proof fn lemma_trimmed_keeps(s: Seq<char>, k: int)
    requires
        0 <= k < s.len(),
        !text::is_space(s[k]),
    ensures
        exists|j: int| 0 <= j < text::trimmed(s).len() && #[trigger] text::trimmed(s)[j] == s[k],
    decreases s.len(),
{
    if text::is_space(s[0]) {
        assert(s.skip(1)[k - 1] == s[k]);
        lemma_trimmed_keeps(s.skip(1), k - 1);
        let t = text::trimmed(s.skip(1));
        assert(text::trimmed(s) == t);
        let j = choose|j: int| 0 <= j < t.len() && #[trigger] t[j] == s.skip(1)[k - 1];
        assert(text::trimmed(s)[j] == s[k]);
    } else {
        assert(text::trimmed(s) == text::trimmed_end(s));
        lemma_trimmed_end_keeps(s, k);
        assert(text::trimmed(s)[k] == s[k]);
    }
}

proof fn lemma_trimmed_end_keeps(s: Seq<char>, k: int)
    requires
        0 <= k < s.len(),
        !text::is_space(s[k]),
    ensures
        k < text::trimmed_end(s).len(),
        text::trimmed_end(s)[k] == s[k],
    decreases s.len(),
{
    if text::is_space(s.last()) {
        assert(s.drop_last()[k] == s[k]);
        lemma_trimmed_end_keeps(s.drop_last(), k);
    }
}

/// A path is shown as it is, but for the prefix of long paths, which is left out.
pub proof fn lemma_shown_path(path: Seq<char>)
    ensures
        shown_path("\\\\?\\"@ + path) == path,
        path.len() > 0 && path[0] != '\\' ==> shown_path(path) == path,
        path.len() < 4 ==> shown_path(path) == path,
        path.len() >= 4 && path.take(4) != "\\\\?\\"@ ==> shown_path(path) == path,
{
    reveal_strlit("\\\\?\\");
    let long = "\\\\?\\"@ + path;
    assert(long.subrange(0, 4) =~= "\\\\?\\"@);
    assert(long.skip(4) =~= path);
    if path.len() >= 4 {
        assert(path.subrange(0, 4) =~= path.take(4));
        assert(path.take(4)[0] == path[0]);
    }
}

/// node is told to install the version, and no other, under the prefix, for the
/// user and without running scripts of packages.
pub proof fn lemma_installation_command(
    npm_cli: &str,
    dir: &str,
    version: &str,
    argv: Vec<String>,
)
    requires
        call_ensures(npm_install_argv, (npm_cli, dir, version), argv),
    ensures
        text::texts(argv@)[0] == shown_path(npm_cli@),
        text::texts(argv@)[1] == "install"@,
        text::texts(argv@).contains("-g"@),
        text::texts(argv@).contains("--json"@),
        text::texts(argv@).contains("--ignore-scripts"@),
        text::texts(argv@).contains("@deepseek-ai/dsh@"@ + version@),
        text::texts(argv@)[3] == "--prefix"@ && text::texts(argv@)[4] == shown_path(dir@),
{
    let v = text::texts(argv@);
    assert(v[2] == "-g"@);
    assert(v[5] == "--json"@);
    assert(v[7] == "@deepseek-ai/dsh@"@ + version@);
    assert(v[8] == "--ignore-scripts"@);
}

/// An installation succeeds exactly when npm ends with the code 0; a report that
/// ends otherwise, or the end of the reports, is a failure. A line that tells of a
/// fetched package counts one more, and goes into the log as every other line does.
pub proof fn lemma_installation_reports(
    install: &mut NpmInstall,
    dog: &mut Watchdog,
    event: Option<ProcessEvent>,
    r: InstallAction,
)
    requires
        call_ensures(NpmInstall::run_npm_install, (install, dog, event), r),
    ensures
        r == InstallAction::Finished(true) <==> event == Some(
            ProcessEvent::Terminated(Some(0i32)),
        ),
        r is Finished <==> event is None || (event matches Some(ProcessEvent::Terminated(_))),
        r matches InstallAction::Progress { downloaded } ==> downloaded == old(install).fetched + 1
            && final(install).fetched == downloaded,
        !(r is Progress) ==> final(install).fetched == old(install).fetched,
        final(dog)@.generation == old(dog)@.generation && final(dog)@.crashes
            == old(dog)@.crashes && final(dog)@.error == old(dog)@.error,
        event matches Some(ProcessEvent::Stdout(bytes)) ==> match watchdog::output_line(bytes@) {
            Some(line) => final(dog)@.log.last() == line && (r is Progress <==> text::find(
                line,
                "npm http fetch"@,
            ) is Some && text::find(line, "GET"@) is Some),
            None => final(dog)@ == old(dog)@ && r is Wait,
        },
        event matches Some(ProcessEvent::Stderr(bytes)) ==> match watchdog::output_line(bytes@) {
            Some(line) => final(dog)@.log.last() == line && (r is Progress <==> text::find(
                line,
                "npm http fetch"@,
            ) is Some && text::find(line, "GET"@) is Some),
            None => final(dog)@ == old(dog)@ && r is Wait,
        },
{
}

/// An installation may take ten minutes.
pub proof fn lemma_installation_time(elapsed: u64, r: bool)
    requires
        call_ensures(install_goes_on, (elapsed,), r),
    ensures
        r <==> elapsed < 10 * 60 * 1_000,
{
}

/// Whatever a start asks for, it takes any answer to it; and it takes an answer to
/// nothing else.
pub proof fn lemma_start_takes_every_answer(step: LaunchStep, answer: LaunchEvent)
    requires
        step.before.expects(step.event),
        step.before.moves(
            step.dog,
            step.event,
            step.now,
            step.is_en,
            step.after,
            step.dog_after,
            step.action,
        ),
    ensures
        step.after.expects(answer) <==> match step.action {
            LaunchAction::AwaitService { .. } => answer is Service,
            LaunchAction::Sweep => answer is Swept,
            LaunchAction::FindPort => answer is FreePort,
            LaunchAction::FindResources => answer is Resources,
            LaunchAction::FindEntry => answer is Entry,
            LaunchAction::FindGlobal => answer is Global,
            LaunchAction::QueryLatest => answer is Latest,
            LaunchAction::Install(_) => answer is Installed,
            LaunchAction::Run(_) => answer is Process,
            LaunchAction::Show { .. } => false,
            LaunchAction::Fail { .. } => false,
        },
        POLL_INTERVAL == 200,
{
}

/// A start that begins takes any answer to whether a service runs, and a wait that
/// begins takes any round; whatever a wait asks for, it takes any answer to it.
pub proof fn lemma_begins_take_every_answer(
    port: u16,
    begun: (Launch, LaunchAction),
    url: Option<String>,
    timeout: u64,
    fresh: Readiness,
    elapsed: u64,
    before: Readiness,
    event: ReadyEvent,
    after: Readiness,
    action: ReadyAction,
    answer: ReadyEvent,
)
    requires
        call_ensures(Launch::begin, (port,), begun),
        call_ensures(Readiness::new, (port, timeout), fresh),
        before.expects(event),
        before.moves(event, after, action),
    ensures
        begun.0.expects(LaunchEvent::Service(url)),
        fresh.expects(ReadyEvent::Round { elapsed }),
        fresh.port == port && fresh.timeout == timeout,
        action is Ask ==> (after.expects(answer) <==> answer is Status),
        action is Connect && answer is Connected ==> after.expects(answer),
        action is Sleep && answer is Round ==> after.expects(answer),
{
}

/// A call takes one step of a start, or of a wait; and the port, the shown path and
/// the arguments are those that the laws speak of.
pub proof fn lemma_calls(
    launch: &mut Launch,
    dog: &mut Watchdog,
    event: LaunchEvent,
    now: u64,
    is_en: bool,
    action: LaunchAction,
    wait: &mut Readiness,
    told: ReadyEvent,
    next: ReadyAction,
    var: Option<&str>,
    port: u16,
    path: &str,
    shown: String,
    argv: Vec<String>,
)
    requires
        call_ensures(Launch::start_dsh, (launch, dog, event, now, is_en), action),
        call_ensures(Readiness::wait_ready, (wait, told), next),
        call_ensures(dsh_port, (var,), port),
        call_ensures(display_path, (path,), shown),
        call_ensures(dsh_argv, (path, port), argv),
    ensures
        old(launch).moves(old(dog)@, event, now, is_en, *final(launch), final(dog)@, action),
        old(wait).moves(told, *final(wait), next),
        port == port_of(text::maybe(var)),
        shown@ == shown_path(path@),
        text::texts(argv@) == seq![
            shown_path(path@),
            "web"@,
            "--port"@,
            text::decimal(port as nat),
        ],
{
}

} // verus!
