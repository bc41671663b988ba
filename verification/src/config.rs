//! The settings of the proxy: built-in defaults, the `[server]` section of
//! `whisper-proxy.ini`, and the environment, each over the one before.
use crate::number::{read_unsigned, unsigned_value, within};
use crate::text::{
    chars_of, drop_leading, drop_trailing, find, first_line, lines, lower, one_line, position, position_is_first, same,
    same_ignoring_case, split_lines, string_of, to_lower, trim, trim_start, trimmed, trimmed_drops_a_space,
    trimmed_ends, trimmed_leaves, without_carriage_return, CharClass,
};
use vstd::prelude::*;
use vstd::slice::slice_subrange;

verus! {

/// Where the Whisper server is and how it is asked.
#[derive(Debug, Clone)]
pub struct Config {
    pub url: String,
    pub api_key: String,
    pub model: String,
    /// Seconds.
    pub timeout: u64,
}

pub struct ConfigView {
    pub url: Seq<char>,
    pub api_key: Seq<char>,
    pub model: Seq<char>,
    pub timeout: u64,
}

impl View for Config {
    type V = ConfigView;

    open spec fn view(&self) -> ConfigView {
        ConfigView {
            url: self.url@,
            api_key: self.api_key@,
            model: self.model@,
            timeout: self.timeout,
        }
    }
}

/// The settings where nothing else is said.
pub open spec fn default_config() -> ConfigView {
    ConfigView {
        url: "http://localhost:8000/v1"@,
        api_key: seq![],
        model: "Systran/faster-whisper-large-v3"@,
        timeout: 120,
    }
}

impl Default for Config {
    fn default() -> (r: Config)
        ensures
            r@ == default_config(),
    {
        Config {
            url: "http://localhost:8000/v1".to_string(),
            api_key: String::new(),
            model: "Systran/faster-whisper-large-v3".to_string(),
            timeout: 120,
        }
    }
}

/// A timeout as it is written, where it can be read; else the one before.
pub open spec fn timeout_or(text: Seq<char>, before: u64) -> u64 {
    match within(unsigned_value(text), 0, u64::MAX as int) {
        Some(n) => n as u64,
        None => before,
    }
}

impl ConfigView {
    /// The settings with a key set to a value. A timeout that cannot be read and a key
    /// that is none change nothing.
    pub open spec fn assigned(self, key: Seq<char>, value: Seq<char>) -> ConfigView {
        if key == "url"@ {
            ConfigView { url: value, ..self }
        } else if key == "api_key"@ {
            ConfigView { api_key: value, ..self }
        } else if key == "model"@ {
            ConfigView { model: value, ..self }
        } else if key == "timeout"@ {
            ConfigView { timeout: timeout_or(value, self.timeout), ..self }
        } else {
            self
        }
    }
}

/// The byte order mark.
pub open spec fn marks() -> CharClass {
    CharClass::One('\u{feff}')
}

/// What reading an ini file has come to: whether the line stands in `[server]`, and the settings.
pub struct IniState {
    pub in_server: bool,
    pub config: ConfigView,
}

/// A line stripped of white space and, where asked, of byte order marks before it.
pub open spec fn ini_line(raw: Seq<char>, drop_marks: bool) -> Seq<char> {
    if drop_marks {
        drop_leading(trimmed(raw), marks())
    } else {
        trimmed(raw)
    }
}

pub open spec fn is_comment(line: Seq<char>) -> bool {
    line.len() == 0 || line[0] == ';' || line[0] == '#'
}

pub open spec fn is_section(line: Seq<char>) -> bool {
    line.len() > 0 && line[0] == '[' && line.last() == ']'
}

impl IniState {
    /// The state after a stripped line. A section line opens or closes `[server]`, in any
    /// case of its letters; in `[server]`, a line with `=` sets its key, in any case of its letters.
    pub open spec fn take_line(self, line: Seq<char>) -> IniState {
        let eq = position(line, '=');
        if is_comment(line) {
            self
        } else if is_section(line) {
            IniState { in_server: lower(line) == lower("[server]"@), ..self }
        } else if !self.in_server || eq == line.len() {
            self
        } else {
            IniState {
                config: self.config.assigned(
                    lower(trimmed(line.take(eq))),
                    trimmed(line.skip(eq + 1)),
                ),
                ..self
            }
        }
    }

    /// The state after all lines.
    pub open spec fn take_lines(self, raw: Seq<Seq<char>>, drop_marks: bool) -> IniState
        decreases raw.len(),
    {
        if raw.len() == 0 {
            self
        } else {
            self.take_lines(raw.drop_last(), drop_marks).take_line(ini_line(raw.last(), drop_marks))
        }
    }
}

/// The settings after an ini text, over those before it.
pub open spec fn after_ini(config: ConfigView, text: Seq<char>, drop_marks: bool) -> ConfigView {
    let body = if drop_marks {
        drop_leading(text, marks())
    } else {
        text
    };
    (IniState { in_server: false, config }).take_lines(lines(body), drop_marks).config
}

fn assign(cfg: &mut Config, key: &[char], value: &[char])
    ensures
        final(cfg)@ == old(cfg)@.assigned(key@, value@),
{
    if same(key, chars_of("url").as_slice()) {
        cfg.url = string_of(value);
    } else if same(key, chars_of("api_key").as_slice()) {
        cfg.api_key = string_of(value);
    } else if same(key, chars_of("model").as_slice()) {
        cfg.model = string_of(value);
    } else if same(key, chars_of("timeout").as_slice()) {
        if let Some(n) = read_unsigned(value, u64::MAX) {
            cfg.timeout = n;
        }
    }
}

fn take_line(line: &[char], in_server: bool, cfg: &mut Config) -> (r: bool)
    ensures
        (IniState { in_server: r, config: final(cfg)@ }) == (IniState {
            in_server,
            config: old(cfg)@,
        }).take_line(line@),
{
    if line.len() == 0 || line[0] == ';' || line[0] == '#' {
        return in_server;
    }
    if line[0] == '[' && line[line.len() - 1] == ']' {
        return same_ignoring_case(line, chars_of("[server]").as_slice());
    }
    if !in_server {
        return in_server;
    }
    let eq = find(line, '=');
    if eq == line.len() {
        return in_server;
    }
    let before = slice_subrange(line, 0, eq);
    let behind = slice_subrange(line, eq + 1, line.len());
    assert(before@ =~= line@.take(eq as int));
    assert(behind@ =~= line@.skip(eq + 1));
    let key = to_lower(trim(before));
    assign(cfg, key.as_slice(), trim(behind));
    in_server
}

/// Reads an ini text over the settings, with or without regard to byte order marks.
pub fn read_ini(text: &str, drop_marks: bool, cfg: &mut Config)
    ensures
        final(cfg)@ == after_ini(old(cfg)@, text@, drop_marks),
{
    let all = chars_of(text);
    let body = if drop_marks {
        trim_start(all.as_slice(), CharClass::One('\u{feff}'))
    } else {
        all.as_slice()
    };
    let raw = split_lines(body);
    let mut in_server = false;
    let ghost first = IniState { in_server: false, config: cfg@ };
    let ghost views = lines(body@);
    for i in 0..raw.len()
        invariant
            raw@.len() == views.len(),
            forall|j: int| 0 <= j < raw@.len() ==> (#[trigger] raw@[j])@ == views[j],
            (IniState { in_server, config: cfg@ }) == first.take_lines(
                views.take(i as int),
                drop_marks,
            ),
    {
        let line = trim(raw[i]);
        let line = if drop_marks {
            trim_start(line, CharClass::One('\u{feff}'))
        } else {
            line
        };
        assert(raw@[i as int]@ == views[i as int]);
        assert(views.take(i + 1).drop_last() =~= views.take(i as int));
        assert(views.take(i + 1).last() == views[i as int]);
        in_server = take_line(line, in_server, cfg);
    }
    assert(views.take(raw@.len() as int) =~= views);
}

/// Reads an ini text over the settings. Byte order marks before the text and before a
/// line are passed over.
pub fn parse_ini(text: &str, cfg: &mut Config)
    ensures
        final(cfg)@ == after_ini(old(cfg)@, text@, true),
{
    read_ini(text, true, cfg);
}

/// The environment variables `WHISPER_PROXY_URL`, `_KEY`, `_MODEL` and `_TIMEOUT`, where they are set.
pub struct Environment {
    pub url: Option<String>,
    pub api_key: Option<String>,
    pub model: Option<String>,
    pub timeout: Option<String>,
}

/// What an optional string holds.
pub open spec fn text_of(s: Option<String>) -> Option<Seq<char>> {
    match s {
        Some(t) => Some(t@),
        None => None,
    }
}

pub struct EnvironmentView {
    pub url: Option<Seq<char>>,
    pub api_key: Option<Seq<char>>,
    pub model: Option<Seq<char>>,
    pub timeout: Option<Seq<char>>,
}

impl View for Environment {
    type V = EnvironmentView;

    open spec fn view(&self) -> EnvironmentView {
        EnvironmentView {
            url: text_of(self.url),
            api_key: text_of(self.api_key),
            model: text_of(self.model),
            timeout: text_of(self.timeout),
        }
    }
}

pub open spec fn or_else(value: Option<Seq<char>>, before: Seq<char>) -> Seq<char> {
    match value {
        Some(v) => v,
        None => before,
    }
}

/// The settings with the environment over them. A timeout that cannot be read changes nothing.
pub open spec fn after_environment(config: ConfigView, env: EnvironmentView) -> ConfigView {
    ConfigView {
        url: or_else(env.url, config.url),
        api_key: or_else(env.api_key, config.api_key),
        model: or_else(env.model, config.model),
        timeout: match env.timeout {
            Some(t) => timeout_or(t, config.timeout),
            None => config.timeout,
        },
    }
}

/// The settings from the defaults, an ini text if there is one, and the environment.
pub open spec fn loaded(
    ini: Option<Seq<char>>,
    env: EnvironmentView,
    drop_marks: bool,
) -> ConfigView {
    after_environment(
        match ini {
            Some(text) => after_ini(default_config(), text, drop_marks),
            None => default_config(),
        },
        env,
    )
}

/// The settings, with or without regard to byte order marks in the ini text.
pub fn load_with(ini: Option<&str>, env: Environment, drop_marks: bool) -> (cfg: Config)
    ensures
        cfg@ == loaded(
            match ini {
                Some(text) => Some(text@),
                None => None,
            },
            env@,
            drop_marks,
        ),
{
    let mut cfg = Config::default();
    if let Some(text) = ini {
        read_ini(text, drop_marks, &mut cfg);
    }
    if let Some(v) = env.url {
        cfg.url = v;
    }
    if let Some(v) = env.api_key {
        cfg.api_key = v;
    }
    if let Some(v) = env.model {
        cfg.model = v;
    }
    if let Some(v) = env.timeout {
        if let Some(n) = read_unsigned(chars_of(v.as_str()).as_slice(), u64::MAX) {
            cfg.timeout = n;
        }
    }
    cfg
}

/// The settings of the `-IPC` engine: the text of the ini file beside the binary, if it
/// could be read, and the environment.
pub fn load(ini: Option<&str>, env: Environment) -> (cfg: Config)
    ensures
        cfg@ == loaded(
            match ini {
                Some(text) => Some(text@),
                None => None,
            },
            env@,
            true,
        ),
{
    load_with(ini, env, true)
}

/// The environment stands over the ini text, and the ini text over the defaults.
pub proof fn environment_stands_first(ini: Seq<char>, env: EnvironmentView, drop_marks: bool)
    ensures
        ({
            let r = loaded(Some(ini), env, drop_marks);
            let below = after_ini(default_config(), ini, drop_marks);
            &&& r.url == (if env.url is Some {
                env.url->0
            } else {
                below.url
            })
            &&& r.api_key == (if env.api_key is Some {
                env.api_key->0
            } else {
                below.api_key
            })
            &&& r.model == (if env.model is Some {
                env.model->0
            } else {
                below.model
            })
            &&& r.timeout == (if env.timeout is Some {
                timeout_or(env.timeout->0, below.timeout)
            } else {
                below.timeout
            })
        }),
        env == (EnvironmentView { url: None, api_key: None, model: None, timeout: None })
            ==> loaded(None, env, drop_marks) == default_config(),
{
}

/// Lines are read in turn: what the first lines came to is where the others start.
pub proof fn lines_are_read_in_turn(
    s: IniState,
    a: Seq<Seq<char>>,
    b: Seq<Seq<char>>,
    drop_marks: bool,
)
    ensures
        s.take_lines(a + b, drop_marks) == s.take_lines(a, drop_marks).take_lines(b, drop_marks),
    decreases b.len(),
{
    if b.len() == 0 {
        assert(a + b =~= a);
    } else {
        assert((a + b).drop_last() =~= a + b.drop_last());
        lines_are_read_in_turn(s, a, b.drop_last(), drop_marks);
    }
}

/// A text without a `[server]` line sets nothing.
pub proof fn nothing_is_set_outside_server(
    config: ConfigView,
    raw: Seq<Seq<char>>,
    drop_marks: bool,
)
    requires
        forall|i: int|
            0 <= i < raw.len() ==> lower(ini_line(#[trigger] raw[i], drop_marks)) != lower(
                "[server]"@,
            ),
    ensures
        (IniState { in_server: false, config }).take_lines(raw, drop_marks) == (IniState {
            in_server: false,
            config,
        }),
    decreases raw.len(),
{
    if raw.len() > 0 {
        assert forall|i: int| 0 <= i < raw.drop_last().len() implies lower(
            ini_line(#[trigger] raw.drop_last()[i], drop_marks),
        ) != lower("[server]"@) by {
            assert(raw.drop_last()[i] == raw[i]);
        }
        nothing_is_set_outside_server(config, raw.drop_last(), drop_marks);
        assert(raw.last() == raw[raw.len() - 1]);
    }
}

/// A byte order mark before the text changes nothing where marks are passed over.
pub proof fn leading_mark_is_passed_over(config: ConfigView, text: Seq<char>)
    ensures
        after_ini(config, seq!['\u{feff}'] + text, true) == after_ini(config, text, true),
{
    assert((seq!['\u{feff}'] + text).drop_first() =~= text);
}

/// The four keys.
pub open spec fn is_key(key: Seq<char>) -> bool {
    key == "url"@ || key == "api_key"@ || key == "model"@ || key == "timeout"@
}

/// A line of `[server]`: a key, an equals sign between spaces, and a value.
pub open spec fn entry_line(key: Seq<char>, value: Seq<char>) -> Seq<char> {
    key + seq![' ', '=', ' '] + value
}

/// In `[server]`, a line that writes a value under a key sets the key to the value.
pub proof fn entry_is_taken(
    config: ConfigView,
    key: Seq<char>,
    value: Seq<char>,
    drop_marks: bool,
)
    requires
        is_key(key),
        trimmed(value) == value,
    ensures
        (IniState { in_server: true, config }).take_line(ini_line(entry_line(key, value), drop_marks))
            == (IniState { in_server: true, config: config.assigned(key, value) }),
{
    reveal_strlit("url");
    reveal_strlit("api_key");
    reveal_strlit("model");
    reveal_strlit("timeout");
    let entry = entry_line(key, value);
    // The line without its outer white space.
    let line = if value.len() == 0 {
        key + seq![' ', '=']
    } else {
        entry
    };
    if value.len() == 0 {
        assert(entry =~= line + seq![' ']);
        trimmed_leaves(line);
        trimmed_drops_a_space(line);
    } else {
        trimmed_ends(value);
        assert(entry.last() == value.last());
        trimmed_leaves(entry);
    }
    assert(trimmed(entry) == line);
    assert(ini_line(entry, drop_marks) == line);
    // Its key and its value.
    let eq = position(line, '=');
    position_is_first(line, '=');
    assert(line[key.len() as int + 1] == '=');
    assert(line.take(key.len() as int) =~= key);
    if eq < key.len() {
        assert(key[eq] == '=');
    }
    assert(line[key.len() as int] == ' ');
    assert(eq == key.len() + 1);
    assert(line.take(eq) =~= key + seq![' ']);
    trimmed_leaves(key);
    trimmed_drops_a_space(key);
    assert(lower(key) =~= key);
    if value.len() == 0 {
        assert(line.skip(eq + 1) =~= value);
    } else {
        assert(line.skip(eq + 1) =~= seq![' '] + value);
        trimmed_drops_a_space(value);
    }
}

/// A `[server]` line opens the section.
pub proof fn server_line_is_taken(s: IniState, drop_marks: bool)
    ensures
        s.take_line(ini_line("[server]"@, drop_marks)) == (IniState { in_server: true, ..s }),
{
    reveal_strlit("[server]");
    trimmed_leaves("[server]"@);
}

/// What `[server]` writes under a key is what the key is set to, whatever stood before.
pub proof fn written_value_is_read(
    config: ConfigView,
    key: Seq<char>,
    value: Seq<char>,
    drop_marks: bool,
)
    requires
        is_key(key),
        trimmed(value) == value,
        !value.contains('\n'),
    ensures
        after_ini(config, "[server]"@ + seq!['\n'] + entry_line(key, value), drop_marks)
            == config.assigned(key, value),
{
    reveal_strlit("[server]");
    reveal_strlit("url");
    reveal_strlit("api_key");
    reveal_strlit("model");
    reveal_strlit("timeout");
    let head = "[server]"@;
    let entry = entry_line(key, value);
    let text = head + seq!['\n'] + entry;
    assert(text[0] == '[');
    assert(drop_leading(text, marks()) == text);
    assert forall|i: int| 0 <= i < entry.len() implies entry[i] != '\n' by {
        if i >= key.len() + 3 {
            assert(entry[i] == value[i - key.len() - 3]);
        }
    }
    first_line(head, entry);
    one_line(entry);
    let raw = lines(text);
    assert(raw =~= seq![head, entry]);
    let s0 = IniState { in_server: false, config };
    assert(raw.drop_last() =~= seq![head]);
    assert(raw.drop_last().drop_last() =~= Seq::<Seq<char>>::empty());
    assert(s0.take_lines(raw.drop_last(), drop_marks) == s0.take_line(ini_line(head, drop_marks)))
        by {
        reveal_with_fuel(IniState::take_lines, 2);
    }
    server_line_is_taken(s0, drop_marks);
    entry_is_taken(config, key, value, drop_marks);
}

/// Whether two readings of the same lines agree: on the section, and on each setting,
/// unless the lines have left it as each reading found it.
spec fn same_reading(a: IniState, b: IniState, a0: ConfigView, b0: ConfigView) -> bool {
    &&& a.in_server == b.in_server
    &&& a.config.url == b.config.url || (a.config.url == a0.url && b.config.url == b0.url)
    &&& a.config.api_key == b.config.api_key || (a.config.api_key == a0.api_key && b.config.api_key
        == b0.api_key)
    &&& a.config.model == b.config.model || (a.config.model == a0.model && b.config.model
        == b0.model)
    &&& a.config.timeout == b.config.timeout || (a.config.timeout == a0.timeout && b.config.timeout
        == b0.timeout)
}

proof fn lines_are_read_alike(a0: ConfigView, b0: ConfigView, raw: Seq<Seq<char>>, drop_marks: bool)
    ensures
        same_reading(
            (IniState { in_server: false, config: a0 }).take_lines(raw, drop_marks),
            (IniState { in_server: false, config: b0 }).take_lines(raw, drop_marks),
            a0,
            b0,
        ),
    decreases raw.len(),
{
    if raw.len() > 0 {
        lines_are_read_alike(a0, b0, raw.drop_last(), drop_marks);
    }
}

/// Reading an ini text twice is reading it once.
pub proof fn reading_twice(config: ConfigView, text: Seq<char>, drop_marks: bool)
    ensures
        after_ini(after_ini(config, text, drop_marks), text, drop_marks) == after_ini(
            config,
            text,
            drop_marks,
        ),
{
    let body = if drop_marks {
        drop_leading(text, marks())
    } else {
        text
    };
    lines_are_read_alike(config, after_ini(config, text, drop_marks), lines(body), drop_marks);
}

proof fn dropping_adds_nothing(s: Seq<char>, k: CharClass, c: char)
    requires
        !s.contains(c),
    ensures
        !drop_leading(s, k).contains(c),
        !drop_trailing(s, k).contains(c),
    decreases s.len(),
{
    if s.len() > 0 {
        assert forall|i: int| 0 <= i < s.drop_first().len() implies s.drop_first()[i] != c by {
            assert(s[i + 1] != c);
        }
        assert forall|i: int| 0 <= i < s.drop_last().len() implies s.drop_last()[i] != c by {
            assert(s[i] != c);
        }
        dropping_adds_nothing(s.drop_first(), k, c);
        dropping_adds_nothing(s.drop_last(), k, c);
    }
}

proof fn lines_add_nothing(s: Seq<char>, c: char)
    requires
        !s.contains(c),
    ensures
        forall|i: int| 0 <= i < lines(s).len() ==> !(#[trigger] lines(s)[i]).contains(c),
    decreases s.len(),
{
    position_is_first(s, '\n');
    let n = position(s, '\n');
    if s.len() > 0 && n < s.len() {
        let first = without_carriage_return(s.take(n));
        let rest = s.skip(n + 1);
        assert forall|i: int| 0 <= i < first.len() implies first[i] != c by {
            assert(first[i] == s[i]);
        }
        assert forall|i: int| 0 <= i < rest.len() implies rest[i] != c by {
            assert(rest[i] == s[i + n + 1]);
        }
        lines_add_nothing(rest, c);
        assert forall|i: int| 0 <= i < lines(s).len() implies !(#[trigger] lines(s)[i]).contains(c) by {
            if i > 0 {
                assert(lines(s)[i] == lines(rest)[i - 1]);
            }
        }
    }
}

proof fn unmarked_lines_are_read_alike(s: IniState, raw: Seq<Seq<char>>)
    requires
        forall|i: int| 0 <= i < raw.len() ==> !(#[trigger] raw[i]).contains('\u{feff}'),
    ensures
        s.take_lines(raw, true) == s.take_lines(raw, false),
    decreases raw.len(),
{
    if raw.len() > 0 {
        let rest = raw.drop_last();
        assert forall|i: int| 0 <= i < rest.len() implies !(#[trigger] rest[i]).contains(
            '\u{feff}',
        ) by {
            assert(rest[i] == raw[i]);
        }
        unmarked_lines_are_read_alike(s, rest);
        let last = raw[raw.len() - 1];
        dropping_adds_nothing(last, CharClass::WhiteSpace, '\u{feff}');
        dropping_adds_nothing(
            drop_leading(last, CharClass::WhiteSpace),
            CharClass::WhiteSpace,
            '\u{feff}',
        );
        let line = trimmed(last);
        if line.len() > 0 {
            assert(line[0] != '\u{feff}');
        }
    }
}

/// On a text without byte order marks it does not matter whether they are passed over.
pub proof fn readers_agree_without_marks(config: ConfigView, text: Seq<char>)
    requires
        !text.contains('\u{feff}'),
    ensures
        after_ini(config, text, true) == after_ini(config, text, false),
{
    if text.len() > 0 {
        assert(text[0] != '\u{feff}');
    }
    lines_add_nothing(text, '\u{feff}');
    unmarked_lines_are_read_alike(IniState { in_server: false, config }, lines(text));
}

} // verus!
