//! The installer: it puts the proxy in the place of the player's own engines, keeps what
//! stood there, and gives it back.
//!
//! Looking at files and changing them belongs to the caller. The functions here read the
//! command line, choose the engines, and say of each file what is to be done with it.
use crate::args::texts_of;
use crate::bytes::same_bytes;
use crate::config::{
    after_ini, default_config, entry_is_taken, entry_line, ini_line, is_key, marks, or_else, server_line_is_taken, text_of,
    timeout_or, ConfigView, IniState,
};
use crate::number::{decimal, digits_value, is_number, push_decimal};
use crate::text::{
    chars_of, drop_leading, drop_trailing, first_line, lacks, line_start_is_kept, lines, lower, occurs_at, plain_start_is_kept,
    push_str, replace, replaced, same, same_ignoring_case, same_str, split_lines, starts_with, string_of, to_lower, trim,
    trim_end, trim_start, trimmed, trimmed_ends, trimmed_leaves, CharClass,
};
use vstd::prelude::*;
use vstd::slice::slice_subrange;

verus! {

/// The command line of the installer.
pub struct Cli {
    pub cmd: String,
    /// The name of an engine, or `all`.
    pub engine: String,
    pub potplayer_dir: Option<String>,
    pub url: Option<String>,
    pub model: Option<String>,
    pub api_key: Option<String>,
    pub timeout: Option<String>,
}

pub struct CliView {
    pub cmd: Seq<char>,
    pub engine: Seq<char>,
    pub potplayer_dir: Option<Seq<char>>,
    pub url: Option<Seq<char>>,
    pub model: Option<Seq<char>>,
    pub api_key: Option<Seq<char>>,
    pub timeout: Option<Seq<char>>,
}

impl View for Cli {
    type V = CliView;

    open spec fn view(&self) -> CliView {
        CliView {
            cmd: self.cmd@,
            engine: self.engine@,
            potplayer_dir: text_of(self.potplayer_dir),
            url: text_of(self.url),
            model: text_of(self.model),
            api_key: text_of(self.api_key),
            timeout: text_of(self.timeout),
        }
    }
}

/// What an empty command line asks for.
pub open spec fn no_cli() -> CliView {
    CliView {
        cmd: seq![],
        engine: "all"@,
        potplayer_dir: None,
        url: None,
        model: None,
        api_key: None,
        timeout: None,
    }
}

impl Default for Cli {
    fn default() -> (r: Cli)
        ensures
            r@ == no_cli(),
    {
        Cli {
            cmd: String::new(),
            engine: "all".to_string(),
            potplayer_dir: None,
            url: None,
            model: None,
            api_key: None,
            timeout: None,
        }
    }
}

/// The options of the installer. Each takes a value.
#[derive(Clone, Copy)]
pub enum CliOption {
    Engine,
    PotplayerDir,
    Url,
    Model,
    ApiKey,
    Timeout,
}

/// The option that an argument names.
pub open spec fn option_of(arg: Seq<char>) -> Option<CliOption> {
    if arg == "--engine"@ {
        Some(CliOption::Engine)
    } else if arg == "--potplayer-dir"@ {
        Some(CliOption::PotplayerDir)
    } else if arg == "--url"@ {
        Some(CliOption::Url)
    } else if arg == "--model"@ {
        Some(CliOption::Model)
    } else if arg == "--api-key"@ {
        Some(CliOption::ApiKey)
    } else if arg == "--timeout"@ {
        Some(CliOption::Timeout)
    } else {
        None
    }
}

fn to_option(arg: &str) -> (r: Option<CliOption>)
    ensures
        r == option_of(arg@),
{
    if same_str(arg, "--engine") {
        Some(CliOption::Engine)
    } else if same_str(arg, "--potplayer-dir") {
        Some(CliOption::PotplayerDir)
    } else if same_str(arg, "--url") {
        Some(CliOption::Url)
    } else if same_str(arg, "--model") {
        Some(CliOption::Model)
    } else if same_str(arg, "--api-key") {
        Some(CliOption::ApiKey)
    } else if same_str(arg, "--timeout") {
        Some(CliOption::Timeout)
    } else {
        None
    }
}

impl CliView {
    /// The command line with an option set. An option at the end of the line, without a
    /// value, is unset, or for the engine empty.
    pub open spec fn with_option(self, option: CliOption, value: Option<Seq<char>>) -> CliView {
        match option {
            CliOption::Engine => CliView { engine: or_else(value, seq![]), ..self },
            CliOption::PotplayerDir => CliView { potplayer_dir: value, ..self },
            CliOption::Url => CliView { url: value, ..self },
            CliOption::Model => CliView { model: value, ..self },
            CliOption::ApiKey => CliView { api_key: value, ..self },
            CliOption::Timeout => CliView { timeout: value, ..self },
        }
    }
}

fn with_option(cli: Cli, option: CliOption, value: Option<String>) -> (r: Cli)
    ensures
        r@ == cli@.with_option(option, text_of(value)),
{
    match option {
        CliOption::Engine => {
            let engine = match value {
                Some(v) => v,
                None => String::new(),
            };
            Cli { engine, ..cli }
        },
        CliOption::PotplayerDir => Cli { potplayer_dir: value, ..cli },
        CliOption::Url => Cli { url: value, ..cli },
        CliOption::Model => Cli { model: value, ..cli },
        CliOption::ApiKey => Cli { api_key: value, ..cli },
        CliOption::Timeout => Cli { timeout: value, ..cli },
    }
}

/// The value of an option: the argument behind it.
pub open spec fn value_at(raw: Seq<Seq<char>>, i: int) -> Option<Seq<char>> {
    if i + 1 < raw.len() {
        Some(raw[i + 1])
    } else {
        None
    }
}

/// What the arguments from the `i`-th on add to the command line.
pub open spec fn cli_from(cli: CliView, raw: Seq<Seq<char>>, i: int) -> CliView
    decreases
            if i < raw.len() {
                raw.len() - i
            } else {
                0
            },
{
    if i < 0 || i >= raw.len() {
        cli
    } else {
        match option_of(raw[i]) {
            Some(option) => cli_from(cli.with_option(option, value_at(raw, i)), raw, i + 2),
            None => cli_from(cli, raw, i + 1),
        }
    }
}

/// The arguments from the `i`-th on that look like options and are none.
pub open spec fn unknown_from(raw: Seq<Seq<char>>, i: int) -> Seq<Seq<char>>
    decreases
            if i < raw.len() {
                raw.len() - i
            } else {
                0
            },
{
    if i < 0 || i >= raw.len() {
        seq![]
    } else if option_of(raw[i]) is Some {
        unknown_from(raw, i + 2)
    } else if "--"@.is_prefix_of(raw[i]) {
        seq![raw[i]] + unknown_from(raw, i + 1)
    } else {
        unknown_from(raw, i + 1)
    }
}

/// What a command line without the program's name asks for: its first argument is the
/// command, the others are options and their values.
pub open spec fn cli_of(raw: Seq<Seq<char>>) -> CliView {
    if raw.len() == 0 {
        no_cli()
    } else {
        cli_from(CliView { cmd: raw[0], ..no_cli() }, raw, 1)
    }
}

/// Reads a command line without the program's name. With it come the arguments that look
/// like options and are none.
pub fn parse_cli(args: &[String]) -> (r: (Cli, Vec<String>))
    ensures
        r.0@ == cli_of(texts_of(args@)),
        texts_of(r.1@) == unknown_from(texts_of(args@), 1),
{
    let mut cli = Cli::default();
    let mut unknown: Vec<String> = Vec::new();
    let ghost raw = texts_of(args@);
    assert(texts_of(unknown@) =~= Seq::<Seq<char>>::empty());
    if args.len() == 0 {
        return (cli, unknown);
    }
    cli.cmd = args[0].clone();
    let mut i: usize = 1;
    let dashes = chars_of("--");
    assert(texts_of(unknown@) + unknown_from(raw, 1) =~= unknown_from(raw, 1));
    while i < args.len()
        invariant
            raw == texts_of(args@),
            dashes@ == "--"@,
            cli_from(cli@, raw, i as int) == cli_of(raw),
            texts_of(unknown@) + unknown_from(raw, i as int) == unknown_from(raw, 1),
        decreases args.len() - i,
    {
        let ghost before = texts_of(unknown@);
        match to_option(args[i].as_str()) {
            Some(option) => {
                if args.len() - i > 1 {
                    cli = with_option(cli, option, Some(args[i + 1].clone()));
                    i = i + 2;
                } else {
                    cli = with_option(cli, option, None);
                    assert(cli_from(cli@, raw, i + 2) == cli@);
                    assert(unknown_from(raw, i + 2) =~= Seq::<Seq<char>>::empty());
                    i = i + 1;
                }
            },
            None => {
                if starts_with(chars_of(args[i].as_str()).as_slice(), dashes.as_slice()) {
                    unknown.push(args[i].clone());
                    assert(texts_of(unknown@) =~= before.push(raw[i as int]));
                    assert(before + (seq![raw[i as int]] + unknown_from(raw, i + 1)) =~= texts_of(
                        unknown@,
                    ) + unknown_from(raw, i + 1));
                }
                i = i + 1;
            },
        }
    }
    assert(texts_of(unknown@) + unknown_from(raw, i as int) =~= texts_of(unknown@));
    (cli, unknown)
}

/// The ini file of an installation, before the placeholders in it are replaced.
pub const INI_TEMPLATE: &'static str = "[server]\nurl = {{URL}}\nmodel = {{MODEL}}\napi_key = {{APIKEY}}\ntimeout = {{TIMEOUT}}\n";

/// The ini text of an installation: the template with each placeholder replaced by what
/// the command line says, else by its default.
pub open spec fn ini_text(template: Seq<char>, cli: CliView) -> Seq<char> {
    let t = replaced(template, "{{URL}}"@, or_else(cli.url, "http://localhost:8000/v1"@));
    let t = replaced(t, "{{MODEL}}"@, or_else(cli.model, "Systran/faster-whisper-large-v3"@));
    let t = replaced(t, "{{APIKEY}}"@, or_else(cli.api_key, ""@));
    replaced(t, "{{TIMEOUT}}"@, or_else(cli.timeout, "300"@))
}

fn fill(text: &[char], placeholder: &str, value: &Option<String>, default: &str) -> (r: Vec<char>)
    requires
        placeholder@.len() > 0,
    ensures
        r@ == replaced(text@, placeholder@, or_else(text_of(*value), default@)),
{
    let pattern = chars_of(placeholder);
    match value {
        Some(v) => replace(text, pattern.as_slice(), chars_of(v.as_str()).as_slice()),
        None => replace(text, pattern.as_slice(), chars_of(default).as_slice()),
    }
}

/// The ini text of an installation, laid out as `INI_TEMPLATE`.
pub fn render_ini(cli: &Cli) -> (r: String)
    ensures
        r@ == ini_text(INI_TEMPLATE@, cli@),
{
    fill_template(INI_TEMPLATE, cli)
}

/// The ini text of an installation, laid out as the template.
pub fn fill_template(template: &str, cli: &Cli) -> (r: String)
    ensures
        r@ == ini_text(template@, cli@),
{
    proof {
        reveal_strlit("{{URL}}");
        reveal_strlit("{{MODEL}}");
        reveal_strlit("{{APIKEY}}");
        reveal_strlit("{{TIMEOUT}}");
    }
    let t = chars_of(template);
    let t = fill(t.as_slice(), "{{URL}}", &cli.url, "http://localhost:8000/v1");
    let t = fill(t.as_slice(), "{{MODEL}}", &cli.model, "Systran/faster-whisper-large-v3");
    let t = fill(t.as_slice(), "{{APIKEY}}", &cli.api_key, "");
    let t = fill(t.as_slice(), "{{TIMEOUT}}", &cli.timeout, "300");
    string_of(t.as_slice())
}

/// The index of the last point in a name, or a negative number where there is none.
pub open spec fn last_point(name: Seq<char>) -> int
    decreases name.len(),
{
    if name.len() == 0 {
        -1
    } else if name.last() == '.' {
        name.len() - 1
    } else {
        last_point(name.drop_last())
    }
}

/// A file's name with `.orig` before its extension, or at the end where there is none. A
/// point at the start of a name opens no extension.
pub open spec fn with_orig(file: Seq<char>) -> Seq<char> {
    let point = last_point(file);
    if point <= 0 {
        file + ".orig"@
    } else {
        file.take(point) + ".orig."@ + file.skip(point + 1)
    }
}

pub open spec fn is_separator(c: char) -> bool {
    c == '/' || c == '\\'
}

/// The index of the last separator in a path, or a negative number where there is none.
pub open spec fn last_separator(path: Seq<char>) -> int
    decreases path.len(),
{
    if path.len() == 0 {
        -1
    } else if is_separator(path.last()) {
        path.len() - 1
    } else {
        last_separator(path.drop_last())
    }
}

/// The path behind the drive that it names, if it names one.
pub open spec fn behind_drive(path: Seq<char>) -> Seq<char> {
    if path.len() >= 2 && path[1] == ':' && ('A' <= path[0] <= 'Z' || 'a' <= path[0] <= 'z') {
        path.skip(2)
    } else {
        path
    }
}

/// The file that a path names: what stands behind the last separator. Separators at the
/// end and a lone point behind one are passed over; `..` names no file.
pub open spec fn file_of(path: Seq<char>) -> Option<Seq<char>>
    decreases path.len(),
{
    let cut = last_separator(path);
    let tail = path.skip(cut + 1);
    if tail.len() == 0 || tail == seq!['.'] {
        if 0 <= cut < path.len() {
            file_of(path.take(cut))
        } else {
            None
        }
    } else if tail == seq!['.', '.'] {
        None
    } else {
        Some(tail)
    }
}

/// The name of a file's backup, which stands in the engine's directory. A path that names
/// no file is taken as it is.
pub open spec fn backup_name(name: Seq<char>) -> Seq<char> {
    match file_of(behind_drive(name)) {
        Some(file) => with_orig(file),
        None => name + ".orig"@,
    }
}

/// Whether a path starts at a network share or a device.
pub open spec fn names_a_share(path: Seq<char>) -> bool {
    path.len() >= 2 && is_separator(path[0]) && is_separator(path[1])
}

fn find_last_separator(path: &[char]) -> (n: usize)
    ensures
        n == last_separator(path@) + 1,
        n <= path@.len(),
{
    let mut n: usize = path.len();
    assert(path@.take(n as int) =~= path@);
    while n > 0 && path[n - 1] != '/' && path[n - 1] != '\\'
        invariant
            n <= path@.len(),
            last_separator(path@) == last_separator(path@.take(n as int)),
        decreases n,
    {
        assert(path@.take(n as int).drop_last() =~= path@.take(n - 1));
        n = n - 1;
    }
    n
}

fn find_file<'a>(path: &'a [char]) -> (r: Option<&'a [char]>)
    ensures
        file_of(path@) == (match r {
            Some(file) => Some(file@),
            None => None,
        }),
    decreases path.len(),
{
    let n = find_last_separator(path);
    let tail = slice_subrange(path, n, path.len());
    assert(tail@ =~= path@.skip(n as int));
    assert(tail@.len() == 1 && tail@[0] == '.' ==> tail@ =~= seq!['.']);
    assert(tail@.len() == 2 && tail@[0] == '.' && tail@[1] == '.' ==> tail@ =~= seq!['.', '.']);
    if tail.len() == 0 || (tail.len() == 1 && tail[0] == '.') {
        if n == 0 {
            None
        } else {
            let before = slice_subrange(path, 0, n - 1);
            assert(before@ =~= path@.take(n - 1));
            find_file(before)
        }
    } else if tail.len() == 2 && tail[0] == '.' && tail[1] == '.' {
        None
    } else {
        Some(tail)
    }
}

fn push_orig(file: &[char]) -> (out: Vec<char>)
    ensures
        out@ == with_orig(file@),
{
    let mut n: usize = file.len();
    assert(file@.take(n as int) =~= file@);
    while n > 0 && file[n - 1] != '.'
        invariant
            n <= file@.len(),
            last_point(file@) == last_point(file@.take(n as int)),
        decreases n,
    {
        assert(file@.take(n as int).drop_last() =~= file@.take(n - 1));
        n = n - 1;
    }
    assert(last_point(file@) == n - 1);
    let mut out: Vec<char> = Vec::new();
    if n <= 1 {
        out.extend_from_slice(file);
        push_str(&mut out, ".orig");
    } else {
        let stem = slice_subrange(file, 0, n - 1);
        let extension = slice_subrange(file, n, file.len());
        assert(stem@ =~= file@.take(n - 1));
        assert(extension@ =~= file@.skip(n as int));
        out.extend_from_slice(stem);
        push_str(&mut out, ".orig.");
        out.extend_from_slice(extension);
    }
    assert(out@ =~= with_orig(file@));
    out
}

/// The name of a file's backup.
pub fn orig_path(name: &str) -> (r: String)
    requires
        !names_a_share(name@),
    ensures
        r@ == backup_name(name@),
{
    let cs = chars_of(name);
    let drive = cs.len() >= 2 && cs[1] == ':' && (('A' <= cs[0] && cs[0] <= 'Z') || ('a' <= cs[0]
        && cs[0] <= 'z'));
    let path = if drive {
        slice_subrange(cs.as_slice(), 2, cs.len())
    } else {
        cs.as_slice()
    };
    assert(path@ =~= behind_drive(name@));
    match find_file(path) {
        Some(file) => string_of(push_orig(file).as_slice()),
        None => {
            let mut out = chars_of(name);
            push_str(&mut out, ".orig");
            string_of(out.as_slice())
        },
    }
}

/// How much of a file is looked at to tell whether it is the proxy.
pub const HEAD_LEN: usize = 1024;

/// Whether a file of this length and with these first bytes is taken for the proxy.
pub open spec fn looks_like(len: int, head: Seq<u8>, proxy: Seq<u8>) -> bool {
    len == proxy.len() && head.is_prefix_of(proxy)
}

/// Whether a file of this length and with these first bytes is taken for the proxy.
pub fn is_our_binary(len: u64, head: &[u8], proxy: &[u8]) -> (r: bool)
    ensures
        r == looks_like(len as int, head@, proxy@),
{
    if len != proxy.len() as u64 || head.len() > proxy.len() {
        return false;
    }
    let start = slice_subrange(proxy, 0, head.len());
    assert(start@ =~= proxy@.subrange(0, head@.len() as int));
    same_bytes(head, start)
}

/// A file of an engine and its backup, as far as they are there.
#[verifier::ext_equal]
pub struct Slot {
    pub live: Option<Seq<u8>>,
    pub orig: Option<Seq<u8>>,
}

/// Whether a file with these bytes is taken for the proxy.
pub open spec fn is_proxy(file: Seq<u8>, proxy: Seq<u8>) -> bool {
    looks_like(
        file.len() as int,
        if file.len() > HEAD_LEN {
            file.take(HEAD_LEN as int)
        } else {
            file
        },
        proxy,
    )
}

impl Slot {
    /// Whether the file is there and is taken for the proxy.
    pub open spec fn is_ours(self, proxy: Seq<u8>) -> bool {
        self.live is Some && is_proxy(self.live->0, proxy)
    }

    /// The slot with the proxy installed. What stood there is kept as the backup, unless
    /// there is a backup already or it was the proxy.
    pub open spec fn installed(self, proxy: Seq<u8>) -> Slot {
        Slot {
            live: Some(proxy),
            orig: if self.live is Some && self.orig is None && !self.is_ours(proxy) {
                self.live
            } else {
                self.orig
            },
        }
    }

    /// The slot with the backup put back in the proxy's place. A file that is not the
    /// proxy stays, and its backup with it; without a backup nothing changes.
    pub open spec fn uninstalled(self, proxy: Seq<u8>) -> Slot {
        if self.orig is Some && (self.live is None || self.is_ours(proxy)) {
            Slot { live: self.orig, orig: None }
        } else {
            self
        }
    }
}

/// What installing does with a file before the proxy is written in its place.
#[derive(Clone, Copy, PartialEq, Eq, Structural)]
pub enum InstallStep {
    /// Copy the file to its backup.
    BackUp,
    /// The file is the proxy already and is not backed up.
    AlreadyOurs,
    /// There is nothing to back up, or a backup already.
    Overwrite,
}

/// Whether it matters to installing whose the file is: it is there and has no backup.
pub open spec fn install_must_look(live: bool, orig: bool) -> bool {
    live && !orig
}

pub fn looks_before_install(live: bool, orig: bool) -> (r: bool)
    ensures
        r == install_must_look(live, orig),
{
    live && !orig
}

/// What installing does with a file. Whose the file is counts only where installing must
/// look.
pub open spec fn install_step_of(live: bool, orig: bool, ours: bool) -> InstallStep {
    if !install_must_look(live, orig) {
        InstallStep::Overwrite
    } else if ours {
        InstallStep::AlreadyOurs
    } else {
        InstallStep::BackUp
    }
}

pub fn install_step(live: bool, orig: bool, ours: bool) -> (r: InstallStep)
    ensures
        r == install_step_of(live, orig, ours),
{
    if !looks_before_install(live, orig) {
        InstallStep::Overwrite
    } else if ours {
        InstallStep::AlreadyOurs
    } else {
        InstallStep::BackUp
    }
}

impl InstallStep {
    /// The slot after the step and after the proxy is written.
    pub open spec fn done(self, slot: Slot, proxy: Seq<u8>) -> Slot {
        Slot {
            live: Some(proxy),
            orig: if self == InstallStep::BackUp {
                slot.live
            } else {
                slot.orig
            },
        }
    }
}

/// What uninstalling does with a file.
#[derive(Clone, Copy, PartialEq, Eq, Structural)]
pub enum UninstallStep {
    /// Copy the backup over the file and remove the backup.
    Restore,
    /// The file is neither the proxy nor missing: someone must look at it.
    LeaveAlone,
    /// There is no backup.
    NoBackup,
}

/// Whether it matters to uninstalling whose the file is: it is there and has a backup.
pub open spec fn uninstall_must_look(live: bool, orig: bool) -> bool {
    live && orig
}

pub fn looks_before_uninstall(live: bool, orig: bool) -> (r: bool)
    ensures
        r == uninstall_must_look(live, orig),
{
    live && orig
}

/// What uninstalling does with a file. Whose the file is counts only where uninstalling
/// must look.
pub open spec fn uninstall_step_of(live: bool, orig: bool, ours: bool) -> UninstallStep {
    if !orig {
        UninstallStep::NoBackup
    } else if !live || ours {
        UninstallStep::Restore
    } else {
        UninstallStep::LeaveAlone
    }
}

pub fn uninstall_step(live: bool, orig: bool, ours: bool) -> (r: UninstallStep)
    ensures
        r == uninstall_step_of(live, orig, ours),
{
    if !orig {
        UninstallStep::NoBackup
    } else if !live || ours {
        UninstallStep::Restore
    } else {
        UninstallStep::LeaveAlone
    }
}

impl UninstallStep {
    /// The slot after the step.
    pub open spec fn done(self, slot: Slot) -> Slot {
        if self == UninstallStep::Restore {
            Slot { live: slot.orig, orig: None }
        } else {
            slot
        }
    }
}

/// An engine's directory: its two files, and the text of its ini file.
#[verifier::ext_equal]
pub struct EngineDir {
    pub main64: Slot,
    pub main: Slot,
    pub ini: Option<Seq<char>>,
}

impl EngineDir {
    /// The directory with the proxy installed. An ini file that is there is kept.
    pub open spec fn installed(self, proxy: Seq<u8>, ini: Seq<char>) -> EngineDir {
        EngineDir {
            main64: self.main64.installed(proxy),
            main: self.main.installed(proxy),
            ini: if self.ini is Some {
                self.ini
            } else {
                Some(ini)
            },
        }
    }

    /// The directory with the proxy uninstalled. The ini file goes.
    pub open spec fn uninstalled(self, proxy: Seq<u8>) -> EngineDir {
        EngineDir {
            main64: self.main64.uninstalled(proxy),
            main: self.main.uninstalled(proxy),
            ini: None,
        }
    }
}

/// The files of an engine that the proxy replaces.
pub const ENGINE_FILES: [&'static str; 2] = ["main64.exe", "main.exe"];

/// What is done with the ini file.
#[derive(Clone, Copy, PartialEq, Eq, Structural)]
pub enum IniStep {
    Write,
    Keep,
    Remove,
    Nothing,
}

/// What installing does with the ini file.
pub open spec fn install_ini_step_of(exists: bool) -> IniStep {
    if exists {
        IniStep::Keep
    } else {
        IniStep::Write
    }
}

pub fn install_ini_step(exists: bool) -> (r: IniStep)
    ensures
        r == install_ini_step_of(exists),
{
    if exists {
        IniStep::Keep
    } else {
        IniStep::Write
    }
}

/// What uninstalling does with the ini file.
pub open spec fn uninstall_ini_step_of(exists: bool) -> IniStep {
    if exists {
        IniStep::Remove
    } else {
        IniStep::Nothing
    }
}

pub fn uninstall_ini_step(exists: bool) -> (r: IniStep)
    ensures
        r == uninstall_ini_step_of(exists),
{
    if exists {
        IniStep::Remove
    } else {
        IniStep::Nothing
    }
}

impl IniStep {
    /// The ini file after the step, where `text` is what would be written.
    pub open spec fn done(self, ini: Option<Seq<char>>, text: Seq<char>) -> Option<Seq<char>> {
        match self {
            IniStep::Write => Some(text),
            IniStep::Remove => None,
            _ => ini,
        }
    }
}

/// How a file of an engine stands.
pub open spec fn mark_of(ours: bool, backed_up: bool) -> Seq<char> {
    if ours && backed_up {
        "INSTALLED (backup OK)"@
    } else if ours {
        "INSTALLED (no backup!)"@
    } else if backed_up {
        "ORIGINAL ACTIVE (backup present)"@
    } else {
        "ORIGINAL ACTIVE"@
    }
}

/// How a file of an engine stands.
pub fn status_mark(ours: bool, backed_up: bool) -> (r: &'static str)
    ensures
        r@ == mark_of(ours, backed_up),
{
    if ours && backed_up {
        "INSTALLED (backup OK)"
    } else if ours {
        "INSTALLED (no backup!)"
    } else if backed_up {
        "ORIGINAL ACTIVE (backup present)"
    } else {
        "ORIGINAL ACTIVE"
    }
}

/// The text with spaces behind it up to the width.
pub open spec fn space_padded(s: Seq<char>, width: int) -> Seq<char> {
    s + Seq::new(
        if s.len() < width {
            (width - s.len()) as nat
        } else {
            0
        },
        |i: int| ' ',
    )
}

/// A line of the status: what it is about, filled up to 14 places, and how that stands.
pub open spec fn status_text(name: Seq<char>, mark: Seq<char>) -> Seq<char> {
    "    "@ + space_padded(name, 14) + " -> "@ + mark
}

/// A line of the status.
pub fn status_line(name: &str, mark: &str) -> (r: String)
    ensures
        r@ == status_text(name@, mark@),
{
    let mut out = chars_of("    ");
    let ghost indent = out@;
    push_str(&mut out, name);
    let mut n: usize = chars_of(name).len();
    while n < 14
        invariant
            out@ == indent + name@ + Seq::new((n - name@.len()) as nat, |i: int| ' '),
            n >= name@.len(),
            n == name@.len() || n <= 14,
        decreases 14 - n,
    {
        out.push(' ');
        n = n + 1;
        assert(out@ =~= indent + name@ + Seq::new((n - name@.len()) as nat, |i: int| ' '));
    }
    assert(out@ =~= indent + space_padded(name@, 14));
    push_str(&mut out, " -> ");
    push_str(&mut out, mark);
    assert(out@ =~= status_text(name@, mark@));
    string_of(out.as_slice())
}

/// The first line, stripped of white space, that starts with `url` in any case of its letters.
pub open spec fn first_url_line(raw: Seq<Seq<char>>) -> Option<Seq<char>>
    decreases raw.len(),
{
    if raw.len() == 0 {
        None
    } else if "url"@.is_prefix_of(lower(trimmed(raw[0]))) {
        Some(trimmed(raw[0]))
    } else {
        first_url_line(raw.drop_first())
    }
}

/// What an ini text says of the server's address.
pub open spec fn shown_url(text: Seq<char>) -> Seq<char> {
    or_else(first_url_line(lines(text)), "(url 없음)"@)
}

/// What an ini text says of the server's address.
pub fn config_url(text: &str) -> (r: String)
    ensures
        r@ == shown_url(text@),
{
    let cs = chars_of(text);
    let raw = split_lines(cs.as_slice());
    let ghost views = lines(text@);
    let key = chars_of("url");
    assert(views.skip(0) =~= views);
    for i in 0..raw.len()
        invariant
            key@ == "url"@,
            views == lines(text@),
            raw@.len() == views.len(),
            forall|j: int| 0 <= j < raw@.len() ==> (#[trigger] raw@[j])@ == views[j],
            first_url_line(views) == first_url_line(views.skip(i as int)),
    {
        let line = trim(raw[i]);
        assert(raw@[i as int]@ == views[i as int]);
        assert(views.skip(i as int)[0] == views[i as int]);
        assert(views.skip(i as int).drop_first() =~= views.skip(i + 1));
        if starts_with(to_lower(line).as_slice(), key.as_slice()) {
            return string_of(line);
        }
    }
    "(url 없음)".to_string()
}

/// An entry of the directory that holds the engines: its name if that is Unicode, whether
/// it is a directory, and whether `main64.exe` and its backup are in it.
pub struct Entry {
    pub name: Option<String>,
    pub is_dir: bool,
    pub has_main: bool,
    pub has_backup: bool,
}

/// The name of an engine, if the entry is one.
pub open spec fn engine_name(entry: Entry) -> Option<Seq<char>> {
    if entry.is_dir && (entry.has_main || entry.has_backup) {
        text_of(entry.name)
    } else {
        None
    }
}

/// The names of the engines among the entries, in order.
pub open spec fn engines_of(entries: Seq<Entry>) -> Seq<Seq<char>>
    decreases entries.len(),
{
    if entries.len() == 0 {
        seq![]
    } else {
        let before = engines_of(entries.drop_last());
        match engine_name(entries.last()) {
            Some(name) => before.push(name),
            None => before,
        }
    }
}

/// The names of the engines among the entries, in order.
pub fn list_engines(entries: &[Entry]) -> (r: Vec<String>)
    ensures
        texts_of(r@) == engines_of(entries@),
{
    let mut r: Vec<String> = Vec::new();
    assert(texts_of(r@) =~= seq![]);
    for i in 0..entries.len()
        invariant
            texts_of(r@) == engines_of(entries@.take(i as int)),
    {
        let entry = &entries[i];
        let ghost before = texts_of(r@);
        assert(entries@.take(i + 1).drop_last() =~= entries@.take(i as int));
        assert(entries@.take(i + 1).last() == *entry);
        if entry.is_dir && (entry.has_main || entry.has_backup) {
            if let Some(name) = &entry.name {
                r.push(name.clone());
                assert(texts_of(r@) =~= before.push(name@));
            }
        }
    }
    assert(entries@.take(entries@.len() as int) =~= entries@);
    r
}

/// The engines with a name, in any case of its letters.
pub open spec fn named(all: Seq<Seq<char>>, engine: Seq<char>) -> Seq<Seq<char>>
    decreases all.len(),
{
    if all.len() == 0 {
        seq![]
    } else {
        let before = named(all.drop_last(), engine);
        if lower(all.last()) == lower(engine) {
            before.push(all.last())
        } else {
            before
        }
    }
}

/// The engines that are meant: all of them, or those of the name. A name that none has is
/// no choice.
pub open spec fn selected(engine: Seq<char>, all: Seq<Seq<char>>) -> Option<Seq<Seq<char>>> {
    if lower(engine) == "all"@ {
        Some(all)
    } else if named(all, engine).len() > 0 {
        Some(named(all, engine))
    } else {
        None
    }
}

/// The engines that are meant.
pub fn select_engines(engine: &str, all: &[String]) -> (r: Option<Vec<String>>)
    ensures
        match r {
            Some(names) => selected(engine@, texts_of(all@)) == Some(texts_of(names@)),
            None => selected(engine@, texts_of(all@)) is None,
        },
{
    let wanted = chars_of(engine);
    let every = same(to_lower(wanted.as_slice()).as_slice(), chars_of("all").as_slice());
    let ghost texts = texts_of(all@);
    let mut names: Vec<String> = Vec::new();
    assert(texts_of(names@) =~= seq![]);
    assert(texts.take(0) =~= seq![]);
    for i in 0..all.len()
        invariant
            texts == texts_of(all@),
            wanted@ == engine@,
            texts_of(names@) == (if every {
                texts.take(i as int)
            } else {
                named(texts.take(i as int), engine@)
            }),
    {
        let ghost before = texts_of(names@);
        assert(texts.take(i + 1).drop_last() =~= texts.take(i as int));
        assert(texts.take(i + 1).last() == all@[i as int]@);
        assert(texts.take(i + 1) =~= texts.take(i as int).push(all@[i as int]@));
        if every || same_ignoring_case(chars_of(all[i].as_str()).as_slice(), wanted.as_slice()) {
            names.push(all[i].clone());
            assert(texts_of(names@) =~= before.push(all@[i as int]@));
        }
    }
    assert(texts.take(all@.len() as int) =~= texts);
    assert(texts_of(names@).len() == names@.len());
    if every || names.len() > 0 {
        Some(names)
    } else {
        None
    }
}

/// Names, with commas between them.
pub open spec fn joined_names(names: Seq<Seq<char>>) -> Seq<char>
    decreases names.len(),
{
    if names.len() == 0 {
        seq![]
    } else if names.len() == 1 {
        names[0]
    } else {
        joined_names(names.drop_last()) + ", "@ + names.last()
    }
}

/// Names, with commas between them.
pub fn join_names(names: &[String]) -> (r: String)
    ensures
        r@ == joined_names(texts_of(names@)),
{
    let mut out: Vec<char> = Vec::new();
    let ghost texts = texts_of(names@);
    for i in 0..names.len()
        invariant
            texts == texts_of(names@),
            out@ == joined_names(texts.take(i as int)),
    {
        let ghost before = out@;
        assert(texts.take(i + 1).drop_last() =~= texts.take(i as int));
        assert(texts.take(i + 1).last() == names@[i as int]@);
        if i > 0 {
            push_str(&mut out, ", ");
        }
        push_str(&mut out, names[i].as_str());
        if i > 0 {
            assert(out@ =~= before + ", "@ + names@[i as int]@);
        } else {
            assert(texts.take(1)[0] == names@[0]@);
            assert(out@ =~= names@[0]@);
        }
    }
    assert(texts.take(names@.len() as int) =~= texts);
    string_of(out.as_slice())
}

/// A part of the registry.
#[derive(Clone, Copy, PartialEq, Eq, Structural)]
pub enum RegistryView {
    Wow32,
    Wow64,
    Native,
}

/// A place where the player may be found.
pub enum Place {
    /// The entry of a program under `App Paths`.
    AppPath(RegistryView, &'static str),
    Directory(&'static str),
}

pub enum PlaceView {
    AppPath(RegistryView, Seq<char>),
    Directory(Seq<char>),
}

impl View for Place {
    type V = PlaceView;

    open spec fn view(&self) -> PlaceView {
        match self {
            Place::AppPath(view, exe) => PlaceView::AppPath(*view, exe@),
            Place::Directory(dir) => PlaceView::Directory(dir@),
        }
    }
}

pub open spec fn place_views(places: Seq<Place>) -> Seq<PlaceView> {
    Seq::new(places.len(), |i: int| places[i]@)
}

/// The entries of a program in the parts of the registry.
pub open spec fn app_paths(exe: Seq<char>) -> Seq<PlaceView> {
    seq![
        PlaceView::AppPath(RegistryView::Wow32, exe),
        PlaceView::AppPath(RegistryView::Wow64, exe),
        PlaceView::AppPath(RegistryView::Native, exe),
    ]
}

/// The places where the player may be found, in the order in which they are tried: its
/// programs one after the other, each in every part of the registry, then the usual
/// directories.
pub open spec fn places_tried() -> Seq<PlaceView> {
    app_paths("PotPlayer.exe"@) + app_paths("PotPlayerMini.exe"@) + app_paths(
        "PotPlayerMini64.exe"@,
    ) + seq![
        PlaceView::Directory("C:\\Program Files (x86)\\DAUM\\PotPlayer"@),
        PlaceView::Directory("C:\\Program Files\\DAUM\\PotPlayer"@),
    ]
}

fn push_app_paths(places: &mut Vec<Place>, exe: &'static str)
    ensures
        place_views(final(places)@) == place_views(old(places)@) + app_paths(exe@),
{
    places.push(Place::AppPath(RegistryView::Wow32, exe));
    places.push(Place::AppPath(RegistryView::Wow64, exe));
    places.push(Place::AppPath(RegistryView::Native, exe));
    assert(place_views(places@) =~= place_views(old(places)@) + app_paths(exe@));
}

/// The places where the player may be found, in the order in which they are tried.
pub fn places_to_look() -> (r: Vec<Place>)
    ensures
        place_views(r@) == places_tried(),
{
    let mut r: Vec<Place> = Vec::new();
    push_app_paths(&mut r, "PotPlayer.exe");
    push_app_paths(&mut r, "PotPlayerMini.exe");
    push_app_paths(&mut r, "PotPlayerMini64.exe");
    r.push(Place::Directory("C:\\Program Files (x86)\\DAUM\\PotPlayer"));
    r.push(Place::Directory("C:\\Program Files\\DAUM\\PotPlayer"));
    assert(place_views(r@) =~= places_tried());
    r
}

/// The index of the first place where the player was found: there is a directory, and
/// engines can be in it.
pub open spec fn first_found(found: Seq<bool>) -> Option<int>
    decreases found.len(),
{
    if found.len() == 0 {
        None
    } else {
        match first_found(found.drop_last()) {
            Some(i) => Some(i),
            None => if found.last() {
                Some(found.len() - 1)
            } else {
                None
            },
        }
    }
}

/// The first place where the player was found.
pub fn discover_potplayer(found: &[bool]) -> (r: Option<usize>)
    ensures
        first_found(found@) == (match r {
            Some(i) => Some(i as int),
            None => None,
        }),
{
    for i in 0..found.len()
        invariant
            first_found(found@.take(i as int)) is None,
    {
        assert(found@.take(i + 1).drop_last() =~= found@.take(i as int));
        if found[i] {
            proof {
                first_found_stays(found@, i + 1);
            }
            return Some(i);
        }
    }
    assert(found@.take(found@.len() as int) =~= found@);
    None
}

/// The place that is chosen is the first where the player was found; there is none exactly
/// if it was found nowhere.
pub proof fn first_found_is_first(found: Seq<bool>)
    ensures
        match first_found(found) {
            Some(i) => 0 <= i < found.len() && found[i] && forall|j: int|
                0 <= j < i ==> !#[trigger] found[j],
            None => forall|j: int| 0 <= j < found.len() ==> !#[trigger] found[j],
        },
    decreases found.len(),
{
    if found.len() > 0 {
        let rest = found.drop_last();
        first_found_is_first(rest);
        assert forall|j: int| 0 <= j < rest.len() implies rest[j] == found[j] by {}
        if first_found(rest) is None {
            assert forall|j: int| 0 <= j < rest.len() implies !#[trigger] found[j] by {
                assert(!rest[j]);
            }
        } else {
            assert forall|j: int| 0 <= j < first_found(rest)->0 implies !#[trigger] found[j] by {
                assert(!rest[j]);
            }
        }
    }
}

proof fn first_found_stays(found: Seq<bool>, n: int)
    requires
        0 <= n <= found.len(),
        first_found(found.take(n)) is Some,
    ensures
        first_found(found) == first_found(found.take(n)),
    decreases found.len(),
{
    if n < found.len() {
        assert(found.drop_last().take(n) =~= found.take(n));
        first_found_stays(found.drop_last(), n);
    } else {
        assert(found.take(n) =~= found);
    }
}

/// The registry key of a program.
pub open spec fn app_path_key_of(exe: Seq<char>) -> Seq<char> {
    "SOFTWARE\\Microsoft\\Windows\\CurrentVersion\\App Paths\\"@ + exe
}

/// The registry key of a program.
pub fn app_path_key(exe: &str) -> (r: String)
    ensures
        r@ == app_path_key_of(exe@),
{
    let mut out = chars_of("SOFTWARE\\Microsoft\\Windows\\CurrentVersion\\App Paths\\");
    push_str(&mut out, exe);
    string_of(out.as_slice())
}

/// A path of the registry without white space and quotes around it.
pub open spec fn unquoted(value: Seq<char>) -> Seq<char> {
    drop_trailing(drop_leading(trimmed(value), CharClass::One('"')), CharClass::One('"'))
}

/// A path of the registry without white space and quotes around it.
pub fn registry_path(value: &str) -> (r: String)
    ensures
        r@ == unquoted(value@),
{
    let cs = chars_of(value);
    let inner = trim(cs.as_slice());
    string_of(trim_end(trim_start(inner, CharClass::One('"')), CharClass::One('"')))
}

/// The name of the file that shows whether a directory can be written to.
pub open spec fn probe_name_of(pid: u32) -> Seq<char> {
    ".whisper-proxy-write-test-"@ + decimal(pid as nat)
}

/// The name of the file that shows whether a directory can be written to.
pub fn probe_name(pid: u32) -> (r: String)
    ensures
        r@ == probe_name_of(pid),
{
    let mut out = chars_of(".whisper-proxy-write-test-");
    push_decimal(&mut out, pid as u64);
    string_of(out.as_slice())
}

/// What the installer is told to do.
#[derive(Clone, Copy, PartialEq, Eq, Structural)]
pub enum Command {
    Detect,
    Status,
    Install,
    Uninstall,
    Unknown,
}

/// The command that a word names.
pub open spec fn command_of(cmd: Seq<char>) -> Command {
    if cmd == "detect"@ {
        Command::Detect
    } else if cmd == "status"@ {
        Command::Status
    } else if cmd == "install"@ {
        Command::Install
    } else if cmd == "uninstall"@ {
        Command::Uninstall
    } else {
        Command::Unknown
    }
}

pub fn to_command(cmd: &str) -> (r: Command)
    ensures
        r == command_of(cmd@),
{
    if same_str(cmd, "detect") {
        Command::Detect
    } else if same_str(cmd, "status") {
        Command::Status
    } else if same_str(cmd, "install") {
        Command::Install
    } else if same_str(cmd, "uninstall") {
        Command::Uninstall
    } else {
        Command::Unknown
    }
}

/// Why the installer stops before a command.
#[derive(Clone, Copy, PartialEq, Eq, Structural)]
pub enum Refusal {
    /// The player was not found.
    NoPlayer,
    /// The player's directory has no place for engines.
    NoModule,
    /// There are no engines.
    NoEngines,
    /// There is no engine of the name.
    UnknownEngine,
}

/// The engines that a command is carried out on, or why there are none.
pub open spec fn targets_of(
    player_found: bool,
    has_module: bool,
    engine: Seq<char>,
    all: Seq<Seq<char>>,
) -> Result<Seq<Seq<char>>, Refusal> {
    if !player_found {
        Err(Refusal::NoPlayer)
    } else if !has_module {
        Err(Refusal::NoModule)
    } else if all.len() == 0 {
        Err(Refusal::NoEngines)
    } else {
        match selected(engine, all) {
            Some(names) => Ok(names),
            None => Err(Refusal::UnknownEngine),
        }
    }
}

/// The engines that a command is carried out on, at least one, or why there are none.
pub fn choose_targets(player_found: bool, has_module: bool, engine: &str, all: &[String]) -> (r:
    Result<Vec<String>, Refusal>)
    ensures
        targets_of(player_found, has_module, engine@, texts_of(all@)) == (match r {
            Ok(names) => Ok::<Seq<Seq<char>>, Refusal>(texts_of(names@)),
            Err(refusal) => Err(refusal),
        }),
        r matches Ok(names) ==> names@.len() > 0,
{
    assert(texts_of(all@).len() == all@.len());
    if !player_found {
        Err(Refusal::NoPlayer)
    } else if !has_module {
        Err(Refusal::NoModule)
    } else if all.len() == 0 {
        Err(Refusal::NoEngines)
    } else {
        match select_engines(engine, all) {
            Some(names) => {
                assert(texts_of(names@).len() == names@.len());
                Ok(names)
            },
            None => Err(Refusal::UnknownEngine),
        }
    }
}

/// How a command went.
#[derive(Clone, Copy, PartialEq, Eq, Structural)]
pub enum Outcome {
    Done,
    /// The first engine's directory cannot be written to.
    NotWritable,
    /// A file could not be read or written.
    Failed,
}

/// Whether a command changes files, so that the first engine's directory is tried first.
pub open spec fn changes_files(command: Command) -> bool {
    command == Command::Install || command == Command::Uninstall
}

pub fn needs_write_access(command: Command) -> (r: bool)
    ensures
        r == changes_files(command),
{
    command == Command::Install || command == Command::Uninstall
}

/// The exit code: 2 for a refusal, 1 for an unknown command, 3 and 4 for a command that
/// changes files and could not.
pub open spec fn exit_code_of(refused: bool, command: Command, outcome: Outcome) -> u8 {
    if refused {
        2
    } else if command == Command::Unknown {
        1
    } else if changes_files(command) && outcome == Outcome::NotWritable {
        3
    } else if changes_files(command) && outcome == Outcome::Failed {
        4
    } else {
        0
    }
}

/// The exit code of the installer.
pub fn exit_code(refused: bool, command: Command, outcome: Outcome) -> (r: u8)
    ensures
        r == exit_code_of(refused, command, outcome),
{
    if refused {
        2
    } else if command == Command::Unknown {
        1
    } else if needs_write_access(command) && outcome == Outcome::NotWritable {
        3
    } else if needs_write_access(command) && outcome == Outcome::Failed {
        4
    } else {
        0
    }
}

impl Slot {
    /// What installing does with the file.
    pub open spec fn install_step(self, proxy: Seq<u8>) -> InstallStep {
        install_step_of(self.live is Some, self.orig is Some, self.is_ours(proxy))
    }

    /// What uninstalling does with the file.
    pub open spec fn uninstall_step(self, proxy: Seq<u8>) -> UninstallStep {
        uninstall_step_of(self.live is Some, self.orig is Some, self.is_ours(proxy))
    }
}

/// The steps that are chosen for the files of a directory install and uninstall the proxy.
pub proof fn steps_do_what_they_should(dir: EngineDir, proxy: Seq<u8>, ini: Seq<char>)
    ensures
        dir.installed(proxy, ini) == (EngineDir {
            main64: dir.main64.install_step(proxy).done(dir.main64, proxy),
            main: dir.main.install_step(proxy).done(dir.main, proxy),
            ini: install_ini_step_of(dir.ini is Some).done(dir.ini, ini),
        }),
        dir.uninstalled(proxy) == (EngineDir {
            main64: dir.main64.uninstall_step(proxy).done(dir.main64),
            main: dir.main.uninstall_step(proxy).done(dir.main),
            ini: uninstall_ini_step_of(dir.ini is Some).done(dir.ini, ini),
        }),
{
}

/// The proxy is taken for the proxy.
pub proof fn proxy_is_recognised(proxy: Seq<u8>)
    ensures
        is_proxy(proxy, proxy),
{
    if proxy.len() > HEAD_LEN {
        assert(proxy.take(HEAD_LEN as int) =~= proxy.subrange(0, HEAD_LEN as int));
    } else {
        assert(proxy =~= proxy.subrange(0, proxy.len() as int));
    }
}

/// Installing twice is installing once.
pub proof fn installing_twice(dir: EngineDir, proxy: Seq<u8>, ini: Seq<char>, other: Seq<char>)
    ensures
        dir.installed(proxy, ini).installed(proxy, other) == dir.installed(proxy, ini),
{
    proxy_is_recognised(proxy);
}

/// A backup is never written over.
pub proof fn backups_are_kept(slot: Slot, proxy: Seq<u8>)
    requires
        slot.orig is Some,
    ensures
        slot.installed(proxy).orig == slot.orig,
{
}

/// What uninstalling leaves of an installation: the backup if there was one, else the
/// file that stood there, unless it was the proxy or missing; then the proxy stays.
pub proof fn uninstalling_gives_back(slot: Slot, proxy: Seq<u8>)
    ensures
        slot.installed(proxy).uninstalled(proxy) == (if slot.orig is Some {
            Slot { live: slot.orig, orig: None }
        } else if slot.live is Some && !slot.is_ours(proxy) {
            slot
        } else {
            Slot { live: Some(proxy), orig: None }
        }),
{
    proxy_is_recognised(proxy);
}

/// Uninstalling undoes installing on a directory that held both files, neither of them the
/// proxy, no backup and no ini file.
pub proof fn uninstalling_undoes_installing(dir: EngineDir, proxy: Seq<u8>, ini: Seq<char>)
    requires
        dir.main64.live is Some,
        !dir.main64.is_ours(proxy),
        dir.main64.orig is None,
        dir.main.live is Some,
        !dir.main.is_ours(proxy),
        dir.main.orig is None,
        dir.ini is None,
    ensures
        dir.installed(proxy, ini).uninstalled(proxy) == dir,
{
    uninstalling_gives_back(dir.main64, proxy);
    uninstalling_gives_back(dir.main, proxy);
}

/// Uninstalling leaves a file alone that someone put in the proxy's place.
pub proof fn changed_files_are_left_alone(slot: Slot, proxy: Seq<u8>)
    requires
        slot.live is Some,
        !slot.is_ours(proxy),
    ensures
        slot.uninstalled(proxy) == slot,
{
}

/// After installing, the status of both files says so, with a backup of what stood there.
pub proof fn installing_shows(slot: Slot, proxy: Seq<u8>)
    ensures
        slot.installed(proxy).is_ours(proxy),
        slot.live is Some && !slot.is_ours(proxy) ==> mark_of(
            slot.installed(proxy).is_ours(proxy),
            slot.installed(proxy).orig is Some,
        ) == "INSTALLED (backup OK)"@,
{
    proxy_is_recognised(proxy);
}

/// An ini file that is there survives an installation.
pub proof fn ini_is_preserved(dir: EngineDir, proxy: Seq<u8>, ini: Seq<char>)
    requires
        dir.ini is Some,
    ensures
        dir.installed(proxy, ini).ini == dir.ini,
{
}

/// Where no engine is named, all are meant.
pub proof fn every_engine_is_meant_by_default(all: Seq<Seq<char>>)
    ensures
        selected(no_cli().engine, all) == Some(all),
{
    reveal_strlit("all");
    assert(lower("all"@) =~= "all"@);
}

/// Every engine that is chosen is one of those there are, and one that is not chosen by a
/// name has another.
pub proof fn chosen_engines_are_there(engine: Seq<char>, all: Seq<Seq<char>>)
    ensures
        selected(engine, all) matches Some(names) ==> forall|i: int|
            0 <= i < names.len() ==> all.contains(#[trigger] names[i]),
        forall|i: int|
            #![trigger all[i]]
            0 <= i < all.len() && lower(all[i]) == lower(engine) && lower(engine) != "all"@ ==> (
            selected(engine, all) matches Some(names) && names.contains(all[i])),
{
    named_are_there(all, engine);
    assert forall|i: int|
        #![trigger all[i]]
        0 <= i < all.len() && lower(all[i]) == lower(engine) && lower(engine) != "all"@ implies (
    selected(engine, all) matches Some(names) && names.contains(all[i])) by {
        let k = choose|k: int| 0 <= k < named(all, engine).len() && named(all, engine)[k] == all[i];
        assert(named(all, engine).len() > 0);
    }
}

proof fn named_are_there(all: Seq<Seq<char>>, engine: Seq<char>)
    ensures
        forall|i: int|
            0 <= i < named(all, engine).len() ==> all.contains(#[trigger] named(all, engine)[i]),
        forall|i: int|
            #![trigger all[i]]
            0 <= i < all.len() && lower(all[i]) == lower(engine) ==> named(all, engine).contains(
                all[i],
            ),
    decreases all.len(),
{
    if all.len() > 0 {
        let rest = all.drop_last();
        named_are_there(rest, engine);
        let r = named(all, engine);
        let before = named(rest, engine);
        assert forall|i: int| 0 <= i < r.len() implies all.contains(#[trigger] r[i]) by {
            if i < before.len() {
                assert(r[i] == before[i]);
                let k = choose|k: int| 0 <= k < rest.len() && rest[k] == before[i];
                assert(all[k] == r[i]);
            } else {
                assert(all[all.len() - 1] == r[i]);
            }
        }
        assert forall|i: int|
            #![trigger all[i]]
            0 <= i < all.len() && lower(all[i]) == lower(engine) implies r.contains(all[i]) by {
            if i < rest.len() {
                assert(rest[i] == all[i]);
                let k = choose|k: int| 0 <= k < before.len() && before[k] == rest[i];
                assert(r[k] == all[i]);
            } else {
                assert(r[r.len() - 1] == all[i]);
            }
        }
    }
}

/// An ini file with these settings, as `INI_TEMPLATE` lays it out.
pub open spec fn ini_with(
    url: Seq<char>,
    model: Seq<char>,
    api_key: Seq<char>,
    timeout: Seq<char>,
) -> Seq<char> {
    "[server]\nurl = "@ + (url + ("\nmodel = "@ + (model + ("\napi_key = "@ + (api_key + (
    "\ntimeout = "@ + (timeout + "\n"@)))))))
}

/// What becomes of a setting when a placeholder is replaced.
spec fn filled(slot: Seq<char>, placeholder: Seq<char>, by: Seq<char>) -> Seq<char> {
    if slot == placeholder {
        by
    } else {
        slot
    }
}

/// A placeholder: two braces, and no other of the kind behind them.
spec fn is_placeholder(p: Seq<char>) -> bool {
    &&& p.len() > 2
    &&& p[0] == '{' && p[1] == '{'
    &&& forall|i: int| 2 <= i < p.len() ==> #[trigger] p[i] != '{' && p[i] != '\n'
}

proof fn slot_is_filled(
    slot: Seq<char>,
    rest: Seq<char>,
    p: Seq<char>,
    by: Seq<char>,
)
    requires
        is_placeholder(p),
        slot == p || lacks(slot, p),
        rest.len() > 0 && rest[0] == '\n',
    ensures
        replaced(slot + rest, p, by) == filled(slot, p, by) + replaced(rest, p, by),
{
    if slot == p {
        let s = slot + rest;
        assert(s.subrange(0, p.len() as int) =~= p);
        assert(s.skip(p.len() as int) =~= rest);
    } else {
        line_start_is_kept(slot, rest, p, by);
    }
}

proof fn settings_are_filled(
    url: Seq<char>,
    model: Seq<char>,
    api_key: Seq<char>,
    timeout: Seq<char>,
    p: Seq<char>,
    by: Seq<char>,
)
    requires
        is_placeholder(p),
        url == p || lacks(url, p),
        model == p || lacks(model, p),
        api_key == p || lacks(api_key, p),
        timeout == p || lacks(timeout, p),
    ensures
        replaced(ini_with(url, model, api_key, timeout), p, by) == ini_with(
            filled(url, p, by),
            filled(model, p, by),
            filled(api_key, p, by),
            filled(timeout, p, by),
        ),
{
    reveal_strlit("[server]\nurl = ");
    reveal_strlit("\nmodel = ");
    reveal_strlit("\napi_key = ");
    reveal_strlit("\ntimeout = ");
    reveal_strlit("\n");
    let t1 = "\n"@;
    let t2 = "\ntimeout = "@ + (timeout + t1);
    let t3 = "\napi_key = "@ + (api_key + t2);
    let t4 = "\nmodel = "@ + (model + t3);
    assert(t1 + Seq::<char>::empty() =~= t1);
    plain_start_is_kept(t1, seq![], p, by);
    assert(replaced(t1, p, by) =~= t1);
    slot_is_filled(timeout, t1, p, by);
    plain_start_is_kept("\ntimeout = "@, timeout + t1, p, by);
    slot_is_filled(api_key, t2, p, by);
    plain_start_is_kept("\napi_key = "@, api_key + t2, p, by);
    slot_is_filled(model, t3, p, by);
    plain_start_is_kept("\nmodel = "@, model + t3, p, by);
    slot_is_filled(url, t4, p, by);
    plain_start_is_kept("[server]\nurl = "@, url + t4, p, by);
}

proof fn placeholders_differ(q: Seq<char>, p: Seq<char>)
    requires
        is_placeholder(p),
        is_placeholder(q),
        p[2] != q[2],
    ensures
        lacks(q, p),
{
    assert forall|i: int| 0 <= i < q.len() implies !#[trigger] occurs_at(q, p, i) by {
        let s = q.skip(i);
        if p.is_prefix_of(s) {
            assert(p[0] == s[0]);
            assert(p[1] == s[1]);
            assert(p[2] == s[2]);
            assert(s[0] == q[i]);
            assert(s[1] == q[i + 1]);
            assert(s[2] == q[i + 2]);
        }
    }
}

/// Whether a value lacks the placeholders that are replaced after it.
pub open spec fn is_filled_once(cli: CliView) -> bool {
    &&& cli.url matches Some(v) ==> lacks(v, "{{MODEL}}"@) && lacks(v, "{{APIKEY}}"@) && lacks(
        v,
        "{{TIMEOUT}}"@,
    )
    &&& cli.model matches Some(v) ==> lacks(v, "{{APIKEY}}"@) && lacks(v, "{{TIMEOUT}}"@)
    &&& cli.api_key matches Some(v) ==> lacks(v, "{{TIMEOUT}}"@)
}

proof fn plain_text_lacks(s: Seq<char>, p: Seq<char>)
    requires
        is_placeholder(p),
        !s.contains('{'),
    ensures
        lacks(s, p),
{
    assert forall|i: int| 0 <= i < s.len() implies !#[trigger] occurs_at(s, p, i) by {
        if p.is_prefix_of(s.skip(i)) {
            assert(p[0] == s.skip(i)[0]);
            assert(s[i] == '{');
        }
    }
}

/// The settings of an installation are those of the command line, else the defaults.
pub proof fn installed_ini_holds_settings(cli: CliView)
    requires
        is_filled_once(cli),
    ensures
        ini_text(INI_TEMPLATE@, cli) == ini_with(
            or_else(cli.url, "http://localhost:8000/v1"@),
            or_else(cli.model, "Systran/faster-whisper-large-v3"@),
            or_else(cli.api_key, ""@),
            or_else(cli.timeout, "300"@),
        ),
{
    reveal_strlit("{{URL}}");
    reveal_strlit("{{MODEL}}");
    reveal_strlit("{{APIKEY}}");
    reveal_strlit("{{TIMEOUT}}");
    let (pu, pm, pk, pt) = ("{{URL}}"@, "{{MODEL}}"@, "{{APIKEY}}"@, "{{TIMEOUT}}"@);
    let url = or_else(cli.url, "http://localhost:8000/v1"@);
    let model = or_else(cli.model, "Systran/faster-whisper-large-v3"@);
    let key = or_else(cli.api_key, ""@);
    let timeout = or_else(cli.timeout, "300"@);
    assert(lacks(url, pm) && lacks(url, pk) && lacks(url, pt)) by {
        reveal_strlit("http://localhost:8000/v1");
        if cli.url is None {
            plain_text_lacks(url, pm);
            plain_text_lacks(url, pk);
            plain_text_lacks(url, pt);
        }
    }
    assert(lacks(model, pk) && lacks(model, pt)) by {
        reveal_strlit("Systran/faster-whisper-large-v3");
        if cli.model is None {
            plain_text_lacks(model, pk);
            plain_text_lacks(model, pt);
        }
    }
    assert(lacks(key, pt)) by {
        reveal_strlit("");
    }
    template_is_laid_out();
    placeholders_differ(pm, pu);
    placeholders_differ(pk, pu);
    placeholders_differ(pt, pu);
    settings_are_filled(pu, pm, pk, pt, pu, url);
    placeholders_differ(pk, pm);
    placeholders_differ(pt, pm);
    placeholders_differ(pm, pk);
    placeholders_differ(pm, pt);
    lacks_is_no_match(url, pm);
    settings_are_filled(url, pm, pk, pt, pm, model);
    placeholders_differ(pt, pk);
    lacks_is_no_match(url, pk);
    lacks_is_no_match(model, pk);
    settings_are_filled(url, model, pk, pt, pk, key);
    lacks_is_no_match(url, pt);
    lacks_is_no_match(model, pt);
    lacks_is_no_match(key, pt);
    settings_are_filled(url, model, key, pt, pt, timeout);
}

proof fn lacks_is_no_match(s: Seq<char>, p: Seq<char>)
    requires
        lacks(s, p),
        p.len() > 0,
    ensures
        s != p,
{
    if s == p {
        assert(!occurs_at(s, p, 0));
        assert(s.skip(0) =~= s);
        assert(p.subrange(0, p.len() as int) =~= p);
    }
}

proof fn template_is_laid_out()
    ensures
        INI_TEMPLATE@ == ini_with("{{URL}}"@, "{{MODEL}}"@, "{{APIKEY}}"@, "{{TIMEOUT}}"@),
{
    reveal_strlit(
        "[server]\nurl = {{URL}}\nmodel = {{MODEL}}\napi_key = {{APIKEY}}\ntimeout = {{TIMEOUT}}\n",
    );
    reveal_strlit("[server]\nurl = ");
    reveal_strlit("\nmodel = ");
    reveal_strlit("\napi_key = ");
    reveal_strlit("\ntimeout = ");
    reveal_strlit("\n");
    reveal_strlit("{{URL}}");
    reveal_strlit("{{MODEL}}");
    reveal_strlit("{{APIKEY}}");
    reveal_strlit("{{TIMEOUT}}");
    assert(INI_TEMPLATE@ =~= ini_with("{{URL}}"@, "{{MODEL}}"@, "{{APIKEY}}"@, "{{TIMEOUT}}"@));
}

/// Whether a value can stand in an ini file: on one line, without white space at its ends.
pub open spec fn is_writable(v: Seq<char>) -> bool {
    trimmed(v) == v && !v.contains('\n')
}

#[verifier::spinoff_prover]
proof fn ini_in_lines(url: Seq<char>, model: Seq<char>, api_key: Seq<char>, timeout: Seq<char>)
    requires
        is_writable(url),
        is_writable(model),
        is_writable(api_key),
        is_writable(timeout),
    ensures
        lines(ini_with(url, model, api_key, timeout)) == seq![
            "[server]"@,
            entry_line("url"@, url),
            entry_line("model"@, model),
            entry_line("api_key"@, api_key),
            entry_line("timeout"@, timeout),
        ],
        ini_with(url, model, api_key, timeout)[0] == '[',
{
    reveal_strlit("[server]\nurl = ");
    reveal_strlit("\nmodel = ");
    reveal_strlit("\napi_key = ");
    reveal_strlit("\ntimeout = ");
    reveal_strlit("\n");
    reveal_strlit("[server]");
    reveal_strlit("url");
    reveal_strlit("model");
    reveal_strlit("api_key");
    reveal_strlit("timeout");
    let lf = seq!['\n'];
    let head = "[server]"@;
    let e1 = entry_line("url"@, url);
    let e2 = entry_line("model"@, model);
    let e3 = entry_line("api_key"@, api_key);
    let e4 = entry_line("timeout"@, timeout);
    let r4 = e4 + lf + seq![];
    let r3 = e3 + lf + r4;
    let r2 = e2 + lf + r3;
    let r1 = e1 + lf + r2;
    let text = ini_with(url, model, api_key, timeout);
    assert(text =~= head + lf + r1);
    first_line(head, r1);
    entry_is_a_line("url"@, url);
    first_line(e1, r2);
    entry_is_a_line("model"@, model);
    first_line(e2, r3);
    entry_is_a_line("api_key"@, api_key);
    first_line(e3, r4);
    entry_is_a_line("timeout"@, timeout);
    first_line(e4, seq![]);
    assert(lines(text) =~= seq![head, e1, e2, e3, e4]);
    assert(text[0] == '[');
}

/// A line more is read after the others.
proof fn one_line_more(s: IniState, raw: Seq<Seq<char>>, line: Seq<char>, drop_marks: bool)
    ensures
        s.take_lines(raw.push(line), drop_marks) == s.take_lines(raw, drop_marks).take_line(
            ini_line(line, drop_marks),
        ),
{
    assert(raw.push(line).drop_last() =~= raw);
}

/// The settings of an ini file as the proxy reads it.
#[verifier::spinoff_prover]
pub proof fn ini_settings_are_read(
    config: ConfigView,
    url: Seq<char>,
    model: Seq<char>,
    api_key: Seq<char>,
    timeout: Seq<char>,
    drop_marks: bool,
)
    requires
        is_writable(url),
        is_writable(model),
        is_writable(api_key),
        is_writable(timeout),
    ensures
        after_ini(config, ini_with(url, model, api_key, timeout), drop_marks) == (ConfigView {
            url,
            model,
            api_key,
            timeout: timeout_or(timeout, config.timeout),
        }),
{
    reveal_strlit("url");
    reveal_strlit("model");
    reveal_strlit("api_key");
    reveal_strlit("timeout");
    let e1 = entry_line("url"@, url);
    let e2 = entry_line("model"@, model);
    let e3 = entry_line("api_key"@, api_key);
    let e4 = entry_line("timeout"@, timeout);
    let text = ini_with(url, model, api_key, timeout);
    ini_in_lines(url, model, api_key, timeout);
    assert(drop_leading(text, marks()) == text);
    let s0 = IniState { in_server: false, config };
    let none = Seq::<Seq<char>>::empty();
    let c1 = config.assigned("url"@, url);
    let c2 = c1.assigned("model"@, model);
    let c3 = c2.assigned("api_key"@, api_key);
    one_line_more(s0, none, "[server]"@, drop_marks);
    server_line_is_taken(s0, drop_marks);
    let l0 = none.push("[server]"@);
    one_line_more(s0, l0, e1, drop_marks);
    entry_is_taken(config, "url"@, url, drop_marks);
    one_line_more(s0, l0.push(e1), e2, drop_marks);
    entry_is_taken(c1, "model"@, model, drop_marks);
    one_line_more(s0, l0.push(e1).push(e2), e3, drop_marks);
    entry_is_taken(c2, "api_key"@, api_key, drop_marks);
    one_line_more(s0, l0.push(e1).push(e2).push(e3), e4, drop_marks);
    entry_is_taken(c3, "timeout"@, timeout, drop_marks);
    assert(lines(text) =~= l0.push(e1).push(e2).push(e3).push(e4));
}

proof fn entry_is_a_line(key: Seq<char>, value: Seq<char>)
    requires
        is_key(key),
        is_writable(value),
    ensures
        !entry_line(key, value).contains('\n'),
        entry_line(key, value).last() != '\r',
{
    reveal_strlit("url");
    reveal_strlit("model");
    reveal_strlit("api_key");
    reveal_strlit("timeout");
    let e = entry_line(key, value);
    assert forall|i: int| 0 <= i < e.len() implies e[i] != '\n' by {
        if i >= key.len() + 3 {
            assert(e[i] == value[i - key.len() - 3]);
        }
    }
    if value.len() > 0 {
        trimmed_ends(value);
        assert(e.last() == value.last());
    }
}

/// What the installer is told, the proxy goes by: the settings of the command line, and
/// the defaults for those it does not name.
pub proof fn installed_settings_are_read(cli: CliView, drop_marks: bool)
    requires
        is_filled_once(cli),
        cli.url matches Some(v) ==> is_writable(v),
        cli.model matches Some(v) ==> is_writable(v),
        cli.api_key matches Some(v) ==> is_writable(v),
        cli.timeout matches Some(v) ==> is_writable(v),
    ensures
        after_ini(default_config(), ini_text(INI_TEMPLATE@, cli), drop_marks) == (ConfigView {
            url: or_else(cli.url, default_config().url),
            model: or_else(cli.model, default_config().model),
            api_key: or_else(cli.api_key, default_config().api_key),
            timeout: match cli.timeout {
                Some(v) => timeout_or(v, default_config().timeout),
                None => 300,
            },
        }),
{
    installed_ini_holds_settings(cli);
    reveal_strlit("http://localhost:8000/v1");
    reveal_strlit("Systran/faster-whisper-large-v3");
    reveal_strlit("");
    reveal_strlit("300");
    assert(""@ =~= Seq::<char>::empty());
    trimmed_leaves("http://localhost:8000/v1"@);
    trimmed_leaves("Systran/faster-whisper-large-v3"@);
    trimmed_leaves(""@);
    trimmed_leaves("300"@);
    assert(timeout_or("300"@, 120) == 300) by {
        let s = "300"@;
        assert(is_number(s));
        assert(s.drop_last() =~= seq!['3', '0']);
        assert(s.drop_last().drop_last() =~= seq!['3']);
        assert(s.drop_last().drop_last().drop_last() =~= seq![]);
        reveal_with_fuel(digits_value, 4);
    }
    ini_settings_are_read(
        default_config(),
        or_else(cli.url, "http://localhost:8000/v1"@),
        or_else(cli.model, "Systran/faster-whisper-large-v3"@),
        or_else(cli.api_key, ""@),
        or_else(cli.timeout, "300"@),
        drop_marks,
    );
}

} // verus!
