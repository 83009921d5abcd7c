//! The user `systemd` service: its unit file, the command line it starts the
//! daemon with, and the steps each `service` subcommand takes.
use vstd::prelude::*;
use vstd::string::*;
use crate::args::join;
use crate::cli::{opt_str, strs, RunOptions, RunOptionsView};
use crate::daemon::bool_text;
use crate::num::{int_text, nat_digits, percent_text, write_i64, write_nat, write_percent};
use crate::suggest::lower_code;
use crate::text::{contains, occurs_in, push_char, trim, trimmed};

verus! {

/// The name of the unit file.
pub const UNIT_NAME: &'static str = "nighterrors.service";

/// Options of `service install`: the socket the daemon listens on, and the
/// options it runs with.
#[derive(Debug, Clone, PartialEq)]
pub struct ServiceInstallOptions {
    pub socket: Option<String>,
    pub run_options: RunOptions,
}

/// A `service` subcommand.
#[derive(Debug, Clone, PartialEq)]
pub enum ServiceCommand {
    Install(ServiceInstallOptions),
    Uninstall,
    Status,
    Start,
    Stop,
    Restart,
}

/// [`ServiceInstallOptions`] with its strings taken as character sequences.
pub struct InstallView {
    pub socket: Option<Seq<char>>,
    pub run_options: RunOptionsView,
}

impl View for ServiceInstallOptions {
    type V = InstallView;

    open spec fn view(&self) -> InstallView {
        InstallView { socket: opt_str(self.socket), run_options: self.run_options@ }
    }
}

/// [`ServiceCommand`] with its strings taken as character sequences.
pub enum ServiceView {
    Install(InstallView),
    Uninstall,
    Status,
    Start,
    Stop,
    Restart,
}

impl View for ServiceCommand {
    type V = ServiceView;

    open spec fn view(&self) -> ServiceView {
        match self {
            ServiceCommand::Install(o) => ServiceView::Install(o@),
            ServiceCommand::Uninstall => ServiceView::Uninstall,
            ServiceCommand::Status => ServiceView::Status,
            ServiceCommand::Start => ServiceView::Start,
            ServiceCommand::Stop => ServiceView::Stop,
            ServiceCommand::Restart => ServiceView::Restart,
        }
    }
}

/// A character a unit file takes in an `ExecStart=` word without quotes.
pub open spec fn exec_safe_char(c: char) -> bool {
    ||| 'a' <= c && c <= 'z'
    ||| 'A' <= c && c <= 'Z'
    ||| '0' <= c && c <= '9'
    ||| c == '-'
    ||| c == '_'
    ||| c == '.'
    ||| c == '/'
    ||| c == ':'
    ||| c == '@'
}

/// `s` with each `\` and `"` escaped by a backslash.
pub open spec fn backslash_escaped(s: Seq<char>) -> Seq<char>
    decreases s.len(),
{
    if s.len() == 0 {
        seq![]
    } else {
        backslash_escaped(s.drop_last()) + (if s.last() == '\\' || s.last() == '"' {
            seq!['\\', s.last()]
        } else {
            seq![s.last()]
        })
    }
}

/// A word of an `ExecStart=` line: as it is when every character is safe,
/// else in double quotes with `\` and `"` escaped; `""` for the empty word.
pub open spec fn exec_arg_text(s: Seq<char>) -> Seq<char> {
    if s.len() == 0 {
        seq!['"', '"']
    } else if forall|i: int| 0 <= i < s.len() ==> exec_safe_char(#[trigger] s[i]) {
        s
    } else {
        seq!['"'] + backslash_escaped(s) + seq!['"']
    }
}

fn is_exec_safe(c: char) -> (r: bool)
    ensures
        r == exec_safe_char(c),
{
    ('a' <= c && c <= 'z') || ('A' <= c && c <= 'Z') || ('0' <= c && c <= '9') || c == '-' || c == '_'
        || c == '.' || c == '/' || c == ':' || c == '@'
}

/// Quotes a word for an `ExecStart=` line where it needs it.
pub fn escape_exec_arg(value: &str) -> (r: String)
    ensures
        r@ == exec_arg_text(value@),
{
    let n = value.unicode_len();
    if n == 0 {
        let mut out = String::new();
        push_char(&mut out, '"');
        push_char(&mut out, '"');
        assert(out@ =~= seq!['"', '"']);
        return out;
    }
    let mut all_safe = true;
    let mut i: usize = 0;
    while i < n
        invariant
            n == value@.len(),
            i <= n,
            all_safe == forall|k: int| 0 <= k < i ==> exec_safe_char(#[trigger] value@[k]),
        decreases n - i,
    {
        if !is_exec_safe(value.get_char(i)) {
            all_safe = false;
        }
        i = i + 1;
    }
    if all_safe {
        return value.to_owned();
    }
    let mut out = String::new();
    push_char(&mut out, '"');
    let mut j: usize = 0;
    while j < n
        invariant
            n == value@.len(),
            j <= n,
            out@ == seq!['"'] + backslash_escaped(value@.subrange(0, j as int)),
        decreases n - j,
    {
        let c = value.get_char(j);
        let ghost before = value@.subrange(0, j as int);
        assert(value@.subrange(0, j + 1).drop_last() =~= before);
        if c == '\\' || c == '"' {
            push_char(&mut out, '\\');
        }
        push_char(&mut out, c);
        assert(out@ =~= seq!['"'] + backslash_escaped(value@.subrange(0, j + 1)));
        j = j + 1;
    }
    push_char(&mut out, '"');
    assert(value@.subrange(0, n as int) =~= value@);
    out
}

/// `needle`, all lower case, occurs at `i` in `hay` once `A`..=`Z` are lowered.
pub open spec fn lower_match_at(needle: Seq<char>, hay: Seq<char>, i: int) -> bool {
    &&& 0 <= i
    &&& i + needle.len() <= hay.len()
    &&& forall|j: int| 0 <= j < needle.len() ==> lower_code(#[trigger] hay[i + j]) == needle[j] as u32
}

/// `hay.to_ascii_lowercase().contains(needle)` for a lower-case `needle`.
pub open spec fn lower_occurs(needle: Seq<char>, hay: Seq<char>) -> bool {
    exists|i: int| #[trigger] lower_match_at(needle, hay, i)
}

fn lower_char_code(c: char) -> (r: u32)
    ensures
        r == lower_code(c),
{
    if 'A' <= c && c <= 'Z' {
        (c as u32) + 32
    } else {
        c as u32
    }
}

fn contains_lowered(hay: &str, needle: &str) -> (r: bool)
    ensures
        r == lower_occurs(needle@, hay@),
{
    let n = hay.unicode_len();
    let m = needle.unicode_len();
    if m > n {
        assert(!lower_occurs(needle@, hay@)) by {
            if lower_occurs(needle@, hay@) {
                let i = choose|i: int| #[trigger] lower_match_at(needle@, hay@, i);
            }
        }
        return false;
    }
    let mut i: usize = 0;
    while i <= n - m
        invariant
            n == hay@.len(),
            m == needle@.len(),
            m <= n,
            i <= n - m + 1,
            forall|k: int| 0 <= k < i ==> !#[trigger] lower_match_at(needle@, hay@, k),
        decreases n - m + 1 - i,
    {
        let mut j: usize = 0;
        let mut same = true;
        while j < m
            invariant
                n == hay@.len(),
                m == needle@.len(),
                i + m <= n,
                j <= m,
                same == (forall|k: int| 0 <= k < j ==> lower_code(#[trigger] hay@[i + k]) == needle@[k] as u32),
            decreases m - j,
        {
            if lower_char_code(hay.get_char(i + j)) != (needle.get_char(j) as u32) {
                same = false;
            }
            j = j + 1;
        }
        if same {
            assert(lower_match_at(needle@, hay@, i as int));
            return true;
        }
        i = i + 1;
    }
    assert(!lower_occurs(needle@, hay@)) by {
        if lower_occurs(needle@, hay@) {
            let k = choose|k: int| #[trigger] lower_match_at(needle@, hay@, k);
            assert(k < i);
        }
    }
    false
}

/// Whether a `systemctl` failure says that the unit is not there.
pub open spec fn missing_unit_text(err: Seq<char>) -> bool {
    ||| lower_occurs("not loaded"@, err)
    ||| lower_occurs("does not exist"@, err)
    ||| lower_occurs("no such file"@, err)
    ||| lower_occurs("unit nighterrors.service not found"@, err)
}

/// Whether a `systemctl` failure says that the unit is not there; case does not matter.
pub fn is_missing_unit_error(err: &str) -> (r: bool)
    ensures
        r == missing_unit_text(err@),
{
    contains_lowered(err, "not loaded") || contains_lowered(err, "does not exist") || contains_lowered(
        err,
        "no such file",
    ) || contains_lowered(err, "unit nighterrors.service not found")
}

/// `base` joined with `part` as `Path::join` joins them: an absolute `part`
/// replaces `base`; else a `/` goes between unless `base` is empty or
/// already ends with one.
pub open spec fn path_join(base: Seq<char>, part: Seq<char>) -> Seq<char> {
    if part.len() > 0 && part[0] == '/' {
        part
    } else if base.len() == 0 || base.last() == '/' {
        base + part
    } else {
        base + seq!['/'] + part
    }
}

pub fn join_path(base: &str, part: &str) -> (r: String)
    ensures
        r@ == path_join(base@, part@),
{
    if part.unicode_len() > 0 && part.get_char(0) == '/' {
        return part.to_owned();
    }
    let mut out = base.to_owned();
    let n = base.unicode_len();
    if n > 0 && base.get_char(n - 1) != '/' {
        push_char(&mut out, '/');
    }
    out.append(part);
    out
}

pub open spec fn no_unit_dir_error() -> Seq<char> {
    "cannot resolve HOME or XDG_CONFIG_HOME for user unit path"@
}

/// Where user units live: `$XDG_CONFIG_HOME/systemd/user` where that is set
/// and not empty, else `$HOME/.config/systemd/user`.
pub open spec fn unit_dir_text(config_home: Option<Seq<char>>, home: Option<Seq<char>>) -> Result<Seq<char>, Seq<char>> {
    match config_home {
        Some(c) if c.len() > 0 => Ok(path_join(path_join(c, "systemd"@), "user"@)),
        _ => match home {
            Some(h) => Ok(path_join(path_join(path_join(h, ".config"@), "systemd"@), "user"@)),
            None => Err(no_unit_dir_error()),
        },
    }
}

/// The directory of user units, from `XDG_CONFIG_HOME` and `HOME`.
pub fn user_unit_dir_from(config_home: Option<&str>, home: Option<&str>) -> (r: Result<String, String>)
    ensures
        match r {
            Ok(d) => unit_dir_text(
                match config_home { Some(c) => Some(c@), None => None },
                match home { Some(h) => Some(h@), None => None },
            ) == Ok::<Seq<char>, Seq<char>>(d@),
            Err(e) => unit_dir_text(
                match config_home { Some(c) => Some(c@), None => None },
                match home { Some(h) => Some(h@), None => None },
            ) == Err::<Seq<char>, Seq<char>>(e@),
        },
{
    if let Some(config_home) = config_home {
        if config_home.unicode_len() > 0 {
            let dir = join_path(config_home, "systemd");
            return Ok(join_path(dir.as_str(), "user"));
        }
    }
    match home {
        Some(home) => {
            let config = join_path(home, ".config");
            let systemd = join_path(config.as_str(), "systemd");
            Ok(join_path(systemd.as_str(), "user"))
        },
        None => Err(String::from_str("cannot resolve HOME or XDG_CONFIG_HOME for user unit path")),
    }
}

/// The words of the `ExecStart=` line, before quoting where quoting applies.
pub open spec fn exec_start_words(o: InstallView, binary: Seq<char>) -> Seq<Seq<char>> {
    let r = o.run_options;
    seq![exec_arg_text(binary), "run"@, "--temperature"@, nat_digits(r.temperature_k as nat), "--gamma"@,
        percent_text(r.gamma_pct.micros as int), "--identity="@ + bool_text(r.identity)]
        + (match o.socket {
        Some(s) => seq!["--socket"@, exec_arg_text(s)],
        None => seq![],
    }) + exclude_words(r.excludes) + (if r.verbose {
        seq!["--verbose"@]
    } else {
        seq![]
    })
}

/// `--exclude` and the quoted id, for each excluded output.
pub open spec fn exclude_words(ids: Seq<Seq<char>>) -> Seq<Seq<char>>
    decreases ids.len(),
{
    if ids.len() == 0 {
        seq![]
    } else {
        exclude_words(ids.drop_last()) + seq!["--exclude"@, exec_arg_text(ids.last())]
    }
}

/// The `ExecStart=` command line: the daemon's binary and its run options.
pub open spec fn exec_start_text(o: InstallView, binary: Seq<char>) -> Seq<char> {
    join(exec_start_words(o, binary), " "@)
}

fn push_word(words: &mut Vec<String>, w: String)
    ensures
        strs(final(words)@) == strs(old(words)@).push(w@),
{
    let ghost before = strs(words@);
    words.push(w);
    assert(strs(words@) =~= before.push(w@));
}

/// The `ExecStart=` command line for the daemon at `binary_path`.
pub fn render_exec_start(options: &ServiceInstallOptions, binary_path: &str) -> (r: String)
    ensures
        r@ == exec_start_text(options@, binary_path@),
{
    let ro = &options.run_options;
    let mut args: Vec<String> = Vec::new();
    push_word(&mut args, escape_exec_arg(binary_path));
    push_word(&mut args, String::from_str("run"));
    push_word(&mut args, String::from_str("--temperature"));
    let mut t = String::new();
    write_nat(&mut t, ro.temperature_k as u64);
    push_word(&mut args, t);
    push_word(&mut args, String::from_str("--gamma"));
    let mut g = String::new();
    write_percent(&mut g, ro.gamma_pct.micros);
    push_word(&mut args, g);
    let mut id = String::from_str("--identity=");
    if ro.identity {
        id.append("true");
    } else {
        id.append("false");
    }
    push_word(&mut args, id);
    let ghost head = strs(args@);
    if let Some(socket) = &options.socket {
        push_word(&mut args, String::from_str("--socket"));
        push_word(&mut args, escape_exec_arg(socket.as_str()));
    }
    let ghost with_socket = strs(args@);
    let ghost ids = strs(ro.excludes@);
    let mut i: usize = 0;
    while i < ro.excludes.len()
        invariant
            i <= ro.excludes@.len(),
            ids == strs(ro.excludes@),
            strs(args@) == with_socket + exclude_words(ids.subrange(0, i as int)),
        decreases ro.excludes@.len() - i,
    {
        assert(ids.subrange(0, i + 1).drop_last() =~= ids.subrange(0, i as int));
        push_word(&mut args, String::from_str("--exclude"));
        push_word(&mut args, escape_exec_arg(ro.excludes[i].as_str()));
        assert(strs(args@) =~= with_socket + exclude_words(ids.subrange(0, i + 1)));
        i = i + 1;
    }
    assert(ids.subrange(0, ids.len() as int) =~= ids);
    if ro.verbose {
        push_word(&mut args, String::from_str("--verbose"));
    }
    proof {
        reveal_strlit("--identity=");
        reveal_strlit("true");
        reveal_strlit("false");
        assert(strs(args@) =~= exec_start_words(options@, binary_path@));
    }
    join_words_with(&args, " ")
}

fn join_words_with(items: &Vec<String>, sep: &str) -> (r: String)
    ensures
        r@ == join(strs(items@), sep@),
{
    let ghost w = strs(items@);
    let mut out = String::new();
    let mut i: usize = 0;
    while i < items.len()
        invariant
            i <= items@.len(),
            w == strs(items@),
            out@ == join(w.subrange(0, i as int), sep@),
        decreases items@.len() - i,
    {
        let ghost next = w.subrange(0, i + 1);
        assert(next.drop_last() =~= w.subrange(0, i as int));
        if i > 0 {
            out.append(sep);
        } else {
            assert(out@ =~= Seq::<char>::empty());
        }
        out.append(items[i].as_str());
        assert(next.last() == items@[i as int]@);
        i = i + 1;
    }
    assert(w.subrange(0, w.len() as int) =~= w);
    out
}

pub open spec fn unit_head() -> Seq<char> {
    "[Unit]\nDescription=Nighterrors Wayland color temperature daemon\nAfter=graphical-session.target\nPartOf=graphical-session.target\n\n[Service]\nType=simple\nExecStart="@
}

pub open spec fn unit_tail() -> Seq<char> {
    "\nRestart=on-failure\nRestartSec=1\nPassEnvironment=WAYLAND_DISPLAY XDG_RUNTIME_DIR\nEnvironment=XDG_RUNTIME_DIR=%t\n\n[Install]\nWantedBy=default.target\n"@
}

/// The unit file that starts the daemon at `binary_path` with `options`.
pub fn render_unit_file(options: &ServiceInstallOptions, binary_path: &str) -> (r: String)
    ensures
        r@ == unit_head() + exec_start_text(options@, binary_path@) + unit_tail(),
{
    let exec_start = render_exec_start(options, binary_path);
    let mut out = String::from_str(
        "[Unit]\nDescription=Nighterrors Wayland color temperature daemon\nAfter=graphical-session.target\nPartOf=graphical-session.target\n\n[Service]\nType=simple\nExecStart=",
    );
    out.append(exec_start.as_str());
    out.append(
        "\nRestart=on-failure\nRestartSec=1\nPassEnvironment=WAYLAND_DISPLAY XDG_RUNTIME_DIR\nEnvironment=XDG_RUNTIME_DIR=%t\n\n[Install]\nWantedBy=default.target\n",
    );
    out
}

pub open spec fn bus_hint() -> Seq<char> {
    "\nhint: ensure a user systemd session is available and run this from a graphical login."@
}

/// The message for a command that exited unsuccessfully: its exit status
/// (`-1` where it has none), what it wrote on each stream, trimmed, and a hint
/// where it could not reach the user's bus.
pub open spec fn command_error_text(program: Seq<char>, code: Option<i32>, stdout: Seq<char>, stderr: Seq<char>) -> Seq<char> {
    let status = match code {
        Some(c) => c as int,
        None => -1,
    };
    let head = program + " exited with status "@ + int_text(status);
    let with_out = if trimmed(stdout).len() > 0 {
        head + "\nstdout:\n"@ + trimmed(stdout)
    } else {
        head
    };
    let with_err = if trimmed(stderr).len() > 0 {
        with_out + "\nstderr:\n"@ + trimmed(stderr)
    } else {
        with_out
    };
    if occurs_in("Failed to connect to bus"@, with_err) {
        with_err + bus_hint()
    } else {
        with_err
    }
}

/// The message for a command that exited unsuccessfully.
pub fn format_command_error(program: &str, code: Option<i32>, stdout: &str, stderr: &str) -> (r: String)
    ensures
        r@ == command_error_text(program@, code, stdout@, stderr@),
{
    let mut message = program.to_owned();
    message.append(" exited with status ");
    let status: i64 = match code {
        Some(c) => c as i64,
        None => -1,
    };
    write_i64(&mut message, status);
    let out = trim(stdout);
    if out.unicode_len() > 0 {
        message.append("\nstdout:\n");
        message.append(out);
    }
    let err = trim(stderr);
    if err.unicode_len() > 0 {
        message.append("\nstderr:\n");
        message.append(err);
    }
    if contains(message.as_str(), "Failed to connect to bus") {
        message.append("\nhint: ensure a user systemd session is available and run this from a graphical login.");
    }
    message
}

/// One step of a `service` subcommand, for the caller to carry out in order;
/// the first step that fails ends the subcommand with its error.
pub enum ServiceStep {
    /// Create the directory of user units, with its parents.
    CreateUnitDir(String),
    /// Write the unit file.
    WriteUnitFile { path: String, contents: String },
    /// Run `systemctl` with these arguments; with `missing_unit_ok`, a failure
    /// that [`is_missing_unit_error`] recognizes is no failure.
    Systemctl { args: Vec<String>, missing_unit_ok: bool },
    /// Remove the unit file where it exists.
    RemoveUnitFile(String),
    /// Print a line on standard output.
    Print(String),
    /// Print what the last `systemctl` call wrote: its output on standard
    /// output and its errors on standard error, each trimmed at the end, and
    /// nothing for a stream that held only white space.
    PrintStatusReport,
}

/// [`ServiceStep`] with its strings taken as character sequences.
pub enum StepView {
    CreateUnitDir(Seq<char>),
    WriteUnitFile { path: Seq<char>, contents: Seq<char> },
    Systemctl { args: Seq<Seq<char>>, missing_unit_ok: bool },
    RemoveUnitFile(Seq<char>),
    Print(Seq<char>),
    PrintStatusReport,
}

impl View for ServiceStep {
    type V = StepView;

    open spec fn view(&self) -> StepView {
        match self {
            ServiceStep::CreateUnitDir(d) => StepView::CreateUnitDir(d@),
            ServiceStep::WriteUnitFile { path, contents } => StepView::WriteUnitFile { path: path@, contents: contents@ },
            ServiceStep::Systemctl { args, missing_unit_ok } => StepView::Systemctl { args: strs(args@), missing_unit_ok: *missing_unit_ok },
            ServiceStep::RemoveUnitFile(p) => StepView::RemoveUnitFile(p@),
            ServiceStep::Print(s) => StepView::Print(s@),
            ServiceStep::PrintStatusReport => StepView::PrintStatusReport,
        }
    }
}

/// The views of a list of steps.
pub open spec fn step_views(steps: Seq<ServiceStep>) -> Seq<StepView> {
    steps.map_values(|s: ServiceStep| s@)
}

/// `systemctl --user` with `args`.
pub open spec fn systemctl(args: Seq<Seq<char>>, missing_unit_ok: bool) -> StepView {
    StepView::Systemctl { args: seq!["--user"@] + args, missing_unit_ok }
}

/// The steps of `service install`, with the units in `unit_dir`.
pub open spec fn install_steps(o: InstallView, unit_dir: Seq<char>, binary: Seq<char>) -> Seq<StepView> {
    let path = path_join(unit_dir, UNIT_NAME@);
    seq![
        StepView::CreateUnitDir(unit_dir),
        StepView::WriteUnitFile { path, contents: unit_head() + exec_start_text(o, binary) + unit_tail() },
        systemctl(seq!["daemon-reload"@], false),
        systemctl(seq!["enable"@, "--now"@, UNIT_NAME@], false),
        StepView::Print("Installed and enabled "@ + UNIT_NAME@ + " at "@ + path),
        StepView::Print("Check status with: systemctl --user status "@ + UNIT_NAME@),
    ]
}

/// The steps of `service uninstall`, with the units in `unit_dir`.
pub open spec fn uninstall_steps(unit_dir: Seq<char>) -> Seq<StepView> {
    seq![
        systemctl(seq!["disable"@, "--now"@, UNIT_NAME@], true),
        StepView::RemoveUnitFile(path_join(unit_dir, UNIT_NAME@)),
        systemctl(seq!["daemon-reload"@], false),
        StepView::Print("Uninstalled "@ + UNIT_NAME@),
    ]
}

/// The steps of `service status|start|stop|restart`.
pub open spec fn unit_action_steps(action: Seq<char>, report: StepView) -> Seq<StepView> {
    seq![systemctl(seq![action, UNIT_NAME@], false), report]
}

/// The steps a `service` subcommand takes, given `XDG_CONFIG_HOME`, `HOME`
/// and the path of the running binary; installing and uninstalling fail
/// first where the directory of user units cannot be found.
pub open spec fn service_steps(
    command: ServiceCommand,
    config_home: Option<Seq<char>>,
    home: Option<Seq<char>>,
    binary: Seq<char>,
) -> Result<Seq<StepView>, Seq<char>> {
    match command {
        ServiceCommand::Install(o) => match unit_dir_text(config_home, home) {
            Ok(d) => Ok(install_steps(o@, d, binary)),
            Err(e) => Err(e),
        },
        ServiceCommand::Uninstall => match unit_dir_text(config_home, home) {
            Ok(d) => Ok(uninstall_steps(d)),
            Err(e) => Err(e),
        },
        ServiceCommand::Status => Ok(unit_action_steps("status"@, StepView::PrintStatusReport)),
        ServiceCommand::Start => Ok(unit_action_steps("start"@, StepView::Print("Started "@ + UNIT_NAME@))),
        ServiceCommand::Stop => Ok(unit_action_steps("stop"@, StepView::Print("Stopped "@ + UNIT_NAME@))),
        ServiceCommand::Restart => Ok(unit_action_steps("restart"@, StepView::Print("Restarted "@ + UNIT_NAME@))),
    }
}

fn systemctl_step(words: &[&str], missing_unit_ok: bool) -> (r: ServiceStep)
    ensures
        r@ == systemctl(words@.map_values(|w: &str| w@), missing_unit_ok),
{
    let mut args: Vec<String> = Vec::new();
    push_word(&mut args, String::from_str("--user"));
    let mut i: usize = 0;
    while i < words.len()
        invariant
            i <= words@.len(),
            strs(args@) == seq!["--user"@] + words@.subrange(0, i as int).map_values(|w: &str| w@),
        decreases words@.len() - i,
    {
        push_word(&mut args, words[i].to_owned());
        assert(words@.subrange(0, i + 1).map_values(|w: &str| w@) =~= words@.subrange(0, i as int).map_values(
            |w: &str| w@,
        ).push(words@[i as int]@));
        i = i + 1;
    }
    assert(words@.subrange(0, words@.len() as int) =~= words@);
    ServiceStep::Systemctl { args, missing_unit_ok }
}

fn systemctl1(a: &str, missing_unit_ok: bool) -> (r: ServiceStep)
    ensures
        r@ == systemctl(seq![a@], missing_unit_ok),
{
    let words = [a];
    assert(words@.map_values(|w: &str| w@) =~= seq![a@]);
    systemctl_step(&words, missing_unit_ok)
}

fn systemctl2(a: &str, b: &str, missing_unit_ok: bool) -> (r: ServiceStep)
    ensures
        r@ == systemctl(seq![a@, b@], missing_unit_ok),
{
    let words = [a, b];
    assert(words@.map_values(|w: &str| w@) =~= seq![a@, b@]);
    systemctl_step(&words, missing_unit_ok)
}

fn systemctl3(a: &str, b: &str, c: &str, missing_unit_ok: bool) -> (r: ServiceStep)
    ensures
        r@ == systemctl(seq![a@, b@, c@], missing_unit_ok),
{
    let words = [a, b, c];
    assert(words@.map_values(|w: &str| w@) =~= seq![a@, b@, c@]);
    systemctl_step(&words, missing_unit_ok)
}

fn concat(a: &str, b: &str) -> (r: String)
    ensures
        r@ == a@ + b@,
{
    let mut out = a.to_owned();
    out.append(b);
    out
}

fn push_step(steps: &mut Vec<ServiceStep>, s: ServiceStep)
    ensures
        step_views(final(steps)@) == step_views(old(steps)@).push(s@),
{
    let ghost before = step_views(steps@);
    steps.push(s);
    assert(step_views(steps@) =~= before.push(s@));
}

fn install_plan(options: &ServiceInstallOptions, unit_dir: String, binary_path: &str) -> (r: Vec<ServiceStep>)
    ensures
        step_views(r@) == install_steps(options@, unit_dir@, binary_path@),
{
    let ghost dir = unit_dir@;
    let mut steps: Vec<ServiceStep> = Vec::new();
    let path = join_path(unit_dir.as_str(), UNIT_NAME);
    let contents = render_unit_file(options, binary_path);
    push_step(&mut steps, ServiceStep::CreateUnitDir(unit_dir));
    push_step(&mut steps, ServiceStep::WriteUnitFile { path: path.clone(), contents });
    let s = systemctl1("daemon-reload", false);
    push_step(&mut steps, s);
    let s = systemctl3("enable", "--now", UNIT_NAME, false);
    push_step(&mut steps, s);
    let mut installed = String::from_str("Installed and enabled ");
    installed.append(UNIT_NAME);
    installed.append(" at ");
    installed.append(path.as_str());
    push_step(&mut steps, ServiceStep::Print(installed));
    push_step(&mut steps, ServiceStep::Print(concat("Check status with: systemctl --user status ", UNIT_NAME)));
    assert(step_views(steps@) =~= install_steps(options@, dir, binary_path@));
    steps
}

fn uninstall_plan(unit_dir: String) -> (r: Vec<ServiceStep>)
    ensures
        step_views(r@) == uninstall_steps(unit_dir@),
{
    let mut steps: Vec<ServiceStep> = Vec::new();
    let path = join_path(unit_dir.as_str(), UNIT_NAME);
    push_step(&mut steps, systemctl3("disable", "--now", UNIT_NAME, true));
    push_step(&mut steps, ServiceStep::RemoveUnitFile(path));
    push_step(&mut steps, systemctl1("daemon-reload", false));
    push_step(&mut steps, ServiceStep::Print(concat("Uninstalled ", UNIT_NAME)));
    assert(step_views(steps@) =~= uninstall_steps(unit_dir@));
    steps
}

fn unit_action_plan(action: &str, report: ServiceStep) -> (r: Vec<ServiceStep>)
    ensures
        step_views(r@) == unit_action_steps(action@, report@),
{
    let mut steps: Vec<ServiceStep> = Vec::new();
    push_step(&mut steps, systemctl2(action, UNIT_NAME, false));
    push_step(&mut steps, report);
    assert(step_views(steps@) =~= unit_action_steps(action@, report@));
    steps
}

/// Installing, wherever the directory of user units is found, writes the
/// unit file there, has systemd reload its units, and then both enables and
/// starts the unit: `systemctl --user enable --now nighterrors.service`.
pub proof fn law_install_enables_and_starts(
    o: ServiceInstallOptions,
    config_home: Option<Seq<char>>,
    home: Option<Seq<char>>,
    binary: Seq<char>,
)
    requires
        unit_dir_text(config_home, home) is Ok,
    ensures
        ({
            let dir = unit_dir_text(config_home, home)->Ok_0;
            let steps = service_steps(ServiceCommand::Install(o), config_home, home, binary)->Ok_0;
            &&& service_steps(ServiceCommand::Install(o), config_home, home, binary) is Ok
            &&& steps.len() >= 4
            &&& steps[0] == StepView::CreateUnitDir(dir)
            &&& steps[1] is WriteUnitFile
            &&& steps[1]->WriteUnitFile_path == path_join(dir, "nighterrors.service"@)
            &&& steps[2] == StepView::Systemctl { args: seq!["--user"@, "daemon-reload"@], missing_unit_ok: false }
            &&& steps[3] == StepView::Systemctl {
                args: seq!["--user"@, "enable"@, "--now"@, "nighterrors.service"@],
                missing_unit_ok: false,
            }
        }),
{
    let dir = unit_dir_text(config_home, home)->Ok_0;
    let steps = install_steps(o@, dir, binary);
    assert(steps[3] == systemctl(seq!["enable"@, "--now"@, UNIT_NAME@], false));
    assert(seq!["--user"@] + seq!["enable"@, "--now"@, "nighterrors.service"@] =~= seq!["--user"@, "enable"@, "--now"@, "nighterrors.service"@]);
    assert(seq!["--user"@] + seq!["daemon-reload"@] =~= seq!["--user"@, "daemon-reload"@]);
}

/// The steps a `service` subcommand takes.
pub fn run(command: &ServiceCommand, config_home: Option<&str>, home: Option<&str>, binary_path: &str) -> (r: Result<Vec<ServiceStep>, String>)
    ensures
        match r {
            Ok(steps) => service_steps(
                *command,
                match config_home { Some(c) => Some(c@), None => None },
                match home { Some(h) => Some(h@), None => None },
                binary_path@,
            ) == Ok::<Seq<StepView>, Seq<char>>(step_views(steps@)),
            Err(e) => service_steps(
                *command,
                match config_home { Some(c) => Some(c@), None => None },
                match home { Some(h) => Some(h@), None => None },
                binary_path@,
            ) == Err::<Seq<StepView>, Seq<char>>(e@),
        },
{
    match command {
        ServiceCommand::Install(options) => match user_unit_dir_from(config_home, home) {
            Ok(d) => Ok(install_plan(options, d, binary_path)),
            Err(e) => Err(e),
        },
        ServiceCommand::Uninstall => match user_unit_dir_from(config_home, home) {
            Ok(d) => Ok(uninstall_plan(d)),
            Err(e) => Err(e),
        },
        ServiceCommand::Status => Ok(unit_action_plan("status", ServiceStep::PrintStatusReport)),
        ServiceCommand::Start => Ok(unit_action_plan("start", ServiceStep::Print(concat("Started ", UNIT_NAME)))),
        ServiceCommand::Stop => Ok(unit_action_plan("stop", ServiceStep::Print(concat("Stopped ", UNIT_NAME)))),
        ServiceCommand::Restart => Ok(unit_action_plan("restart", ServiceStep::Print(concat("Restarted ", UNIT_NAME)))),
    }
}

} // verus!
