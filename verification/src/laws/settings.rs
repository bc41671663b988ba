//! The settings: what an ini text and the environment come to.
use crate::config::{
    after_ini, default_config, entry_is_taken, entry_line, ini_line, lines_are_read_in_turn, loaded, marks,
    server_line_is_taken, timeout_or, Config, ConfigView, Environment, EnvironmentView, IniState,
};
use crate::laws::numerals::{all_are, dropping_from_the_front, lines_end_at_line_feeds};
use crate::number::{decimal, decimal_reads_back, unsigned_value};
use crate::text::{
    drop_leading, first_line, is_white_space, lines, lower, one_line, position, position_is_first, trimmed, CharClass,
};
use vstd::prelude::*;

verus! {

/// The settings where nothing is said.
pub proof fn the_defaults()
    ensures
        default_config().url == "http://localhost:8000/v1"@,
        default_config().api_key.len() == 0,
        default_config().model == "Systran/faster-whisper-large-v3"@,
        default_config().timeout == 120,
{
}

/// Settings and environment are seen as they are.
pub proof fn settings_are_seen_as_they_are(cfg: Config, env: Environment)
    ensures
        cfg@.url == cfg.url@ && cfg@.api_key == cfg.api_key@ && cfg@.model == cfg.model@
            && cfg@.timeout == cfg.timeout,
        env@.url is Some <==> env.url is Some,
        env@.api_key is Some <==> env.api_key is Some,
        env@.model is Some <==> env.model is Some,
        env@.timeout is Some <==> env.timeout is Some,
        env.url matches Some(v) ==> env@.url->0 == v@,
        env.api_key matches Some(v) ==> env@.api_key->0 == v@,
        env.model matches Some(v) ==> env@.model->0 == v@,
        env.timeout matches Some(v) ==> env@.timeout->0 == v@,
{
}

/// A number of seconds that fits is the timeout; anything else leaves the timeout.
pub proof fn a_timeout_is_a_number(text: Seq<char>, before: u64)
    ensures
        unsigned_value(text) matches Some(n) ==> 0 <= n <= u64::MAX ==> timeout_or(text, before) == n,
        unsigned_value(text) matches Some(n) ==> n > u64::MAX ==> timeout_or(text, before) == before,
        unsigned_value(text) is None ==> timeout_or(text, before) == before,
{
}

/// A number that is written as a timeout is the timeout.
pub proof fn a_written_timeout_is_the_timeout(n: u64, before: u64)
    ensures
        timeout_or(decimal(n as nat), before) == n,
{
    decimal_reads_back(n as nat);
}

/// A line that is empty, or that starts with a semicolon or a number sign, says nothing.
pub proof fn comments_say_nothing(s: IniState, line: Seq<char>)
    requires
        line.len() == 0 || line[0] == ';' || line[0] == '#',
    ensures
        s.take_line(line) == s,
{
}

/// A line in square brackets starts a section and sets nothing: `[server]` in any case of
/// its letters starts the section whose lines count, any other ends it.
pub proof fn brackets_start_a_section(s: IniState, line: Seq<char>)
    requires
        line.len() > 0,
        line[0] == '[',
        line.last() == ']',
    ensures
        s.take_line(line).config == s.config,
        s.take_line(line).in_server <==> lower(line) == "[server]"@,
{
    reveal_strlit("[server]");
    assert(lower("[server]"@) =~= "[server]"@);
}

/// Whether a line is one that sets something in `[server]`: it is neither a comment nor a
/// section, and its first equals sign stands at the given index.
pub open spec fn sets_at(line: Seq<char>, eq: int) -> bool {
    &&& 0 <= eq < line.len()
    &&& line[eq] == '='
    &&& forall|i: int| 0 <= i < eq ==> #[trigger] line[i] != '='
    &&& line[0] != ';' && line[0] != '#'
    &&& !(line[0] == '[' && line.last() == ']')
}

/// A line of `[server]` sets the key before its first equals sign, in any case of its
/// letters, to what stands behind it, and nothing else; both without white space at their
/// ends. Other keys set nothing.
pub proof fn a_line_sets_its_key_alone(s: IniState, line: Seq<char>, eq: int)
    requires
        s.in_server,
        sets_at(line, eq),
    ensures
        ({
            let key = lower(trimmed(line.take(eq)));
            let value = trimmed(line.skip(eq + 1));
            let before = s.config;
            let after = s.take_line(line).config;
            &&& s.take_line(line).in_server
            &&& after.url == if key == "url"@ {
                value
            } else {
                before.url
            }
            &&& after.api_key == if key == "api_key"@ {
                value
            } else {
                before.api_key
            }
            &&& after.model == if key == "model"@ {
                value
            } else {
                before.model
            }
            &&& after.timeout == if key == "timeout"@ {
                timeout_or(value, before.timeout)
            } else {
                before.timeout
            }
        }),
{
    keys_differ();
    position_is_first(line, '=');
    assert(position(line, '=') == eq);
}

proof fn keys_differ()
    ensures
        "url"@ != "api_key"@,
        "url"@ != "model"@,
        "url"@ != "timeout"@,
        "api_key"@ != "model"@,
        "api_key"@ != "timeout"@,
        "model"@ != "timeout"@,
{
    reveal_strlit("url");
    reveal_strlit("api_key");
    reveal_strlit("model");
    reveal_strlit("timeout");
    assert("url"@.len() == 3 && "model"@.len() == 5);
    assert("api_key"@[0] == 'a' && "api_key"@.len() == 7);
    assert("timeout"@[0] == 't' && "timeout"@.len() == 7);
}

/// Outside `[server]`, and without an equals sign, a line sets nothing and ends nothing.
pub proof fn other_lines_set_nothing(s: IniState, line: Seq<char>)
    requires
        line.len() > 0,
        !(line[0] == '[' && line.last() == ']'),
        !s.in_server || !line.contains('='),
    ensures
        s.take_line(line) == s,
{
    position_is_first(line, '=');
}

/// What is read of a line: the line without the white space at its ends and, where asked,
/// without the byte order marks before it.
pub proof fn marks_are_dropped_where_asked(raw: Seq<char>)
    ensures
        ini_line(raw, false) == trimmed(raw),
        ({
            let r = ini_line(raw, true);
            let n = trimmed(raw).len() - r.len();
            &&& 0 <= n
            &&& r == trimmed(raw).skip(n)
            &&& all_are(trimmed(raw).take(n), '\u{feff}')
            &&& r.len() > 0 ==> r[0] != '\u{feff}'
        }),
{
    let t = trimmed(raw);
    dropping_from_the_front(t, marks());
    let r = ini_line(raw, true);
    let n = t.len() - r.len();
    assert forall|i: int| 0 <= i < t.take(n).len() implies #[trigger] t.take(n)[i] == '\u{feff}' by {
        assert(marks().admits(t[i]));
    }
}

/// Lines are read one after the other, each into what the lines before it came to.
pub proof fn lines_are_read_one_by_one(
    s: IniState,
    raw: Seq<Seq<char>>,
    line: Seq<char>,
    drop_marks: bool,
)
    ensures
        s.take_lines(seq![], drop_marks) == s,
        s.take_lines(raw.push(line), drop_marks) == s.take_lines(raw, drop_marks).take_line(
            ini_line(line, drop_marks),
        ),
{
    assert(raw.push(line).drop_last() =~= raw);
}

proof fn a_return_more_changes_nothing(line: Seq<char>)
    ensures
        trimmed(line.push('\r')) == trimmed(line),
    decreases line.len(),
{
    let k = CharClass::WhiteSpace;
    let s = line.push('\r');
    if line.len() > 0 && is_white_space(line[0]) {
        a_return_more_changes_nothing(line.drop_first());
        assert(s.drop_first() =~= line.drop_first().push('\r'));
    } else if line.len() == 0 {
        assert(s.drop_first() =~= seq![]);
        assert(s[0] == '\r' && k.admits(s[0]));
        assert(drop_leading(s.drop_first(), k) =~= seq![]);
        assert(drop_leading(s, k) =~= seq![]);
        assert(line =~= seq![]);
    } else {
        assert(drop_leading(s, k) == s);
        assert(s.drop_last() =~= line);
    }
}

/// Reading a text, a line feed and another text is reading the one and then the other.
proof fn texts_are_read_in_turn(s: IniState, text: Seq<char>, more: Seq<char>, drop_marks: bool)
    ensures
        s.take_lines(lines(text + seq!['\n'] + more), drop_marks) == s.take_lines(
            lines(text),
            drop_marks,
        ).take_lines(lines(more), drop_marks),
    decreases text.len(),
{
    let whole = text + seq!['\n'] + more;
    position_is_first(text, '\n');
    let n = position(text, '\n');
    if n < text.len() {
        let rest = text.skip(n + 1);
        let whole_rest = rest + seq!['\n'] + more;
        let line = text.take(n);
        assert(!line.contains('\n')) by {
            assert forall|i: int| 0 <= i < line.len() implies line[i] != '\n' by {
                assert(line[i] == text[i]);
            }
        }
        position_is_first(whole, '\n');
        assert(whole[n] == '\n');
        assert(position(whole, '\n') == n) by {
            let p = position(whole, '\n');
            if p < n {
                assert(whole[p] == text[p]);
            }
        }
        assert(whole.take(n) =~= line);
        assert(whole.skip(n + 1) =~= whole_rest);
        let first = crate::text::without_carriage_return(line);
        assert(lines(whole) == seq![first] + lines(whole_rest));
        assert(lines(text) == seq![first] + lines(rest));
        let t = s.take_lines(seq![first], drop_marks);
        lines_are_read_in_turn(s, seq![first], lines(whole_rest), drop_marks);
        lines_are_read_in_turn(s, seq![first], lines(rest), drop_marks);
        texts_are_read_in_turn(t, rest, more, drop_marks);
    } else {
        assert(!text.contains('\n'));
        let kept = crate::text::without_carriage_return(text);
        if text.len() > 0 && text.last() == '\r' {
            let line = text.drop_last();
            assert(!line.contains('\n')) by {
                assert forall|i: int| 0 <= i < line.len() implies line[i] != '\n' by {
                    assert(line[i] == text[i]);
                }
            }
            lines_end_at_line_feeds(line, more);
            assert(whole =~= line + seq!['\r', '\n'] + more);
            a_return_more_changes_nothing(line);
            assert(line.push('\r') =~= text);
            assert(ini_line(line, drop_marks) == ini_line(text, drop_marks));
        } else {
            lines_end_at_line_feeds(text, more);
        }
        lines_end_at_line_feeds(text, more);
        lines_are_read_in_turn(s, seq![kept], lines(more), drop_marks);
        assert(lines(whole) == seq![kept] + lines(more));
        assert(seq![kept].drop_last() =~= seq![]);
        if text.len() == 0 {
            assert(kept =~= seq![]);
            assert(trimmed(kept) =~= seq![]);
            assert(ini_line(kept, drop_marks) =~= seq![]);
            assert(s.take_lines(seq![kept].drop_last(), drop_marks) == s);
            assert(s.take_lines(seq![kept], drop_marks) == s);
        } else {
            assert(seq![text].drop_last() =~= seq![]);
            assert(s.take_lines(seq![kept], drop_marks) == s.take_lines(seq![text], drop_marks));
        }
    }
}

proof fn marks_before_a_line_feed(text: Seq<char>, more: Seq<char>)
    ensures
        drop_leading(text + seq!['\n'] + more, marks()) == drop_leading(text, marks()) + seq!['\n']
            + more,
    decreases text.len(),
{
    let whole = text + seq!['\n'] + more;
    if text.len() > 0 && text[0] == '\u{feff}' {
        marks_before_a_line_feed(text.drop_first(), more);
        assert(whole.drop_first() =~= text.drop_first() + seq!['\n'] + more);
    } else {
        assert(whole[0] != '\u{feff}');
    }
}

/// A `[server]` section behind any text sets its key to its value over what the text came
/// to, and nothing else.
pub proof fn a_section_behind_a_text(
    config: ConfigView,
    text: Seq<char>,
    key: Seq<char>,
    value: Seq<char>,
    drop_marks: bool,
)
    requires
        key == "url"@ || key == "api_key"@ || key == "model"@ || key == "timeout"@,
        trimmed(value) == value,
        !value.contains('\n'),
    ensures
        ({
            let before = after_ini(config, text, drop_marks);
            let after = after_ini(
                config,
                text + seq!['\n'] + ("[server]"@ + seq!['\n'] + (key + " = "@ + value)),
                drop_marks,
            );
            &&& after.url == if key == "url"@ {
                value
            } else {
                before.url
            }
            &&& after.api_key == if key == "api_key"@ {
                value
            } else {
                before.api_key
            }
            &&& after.model == if key == "model"@ {
                value
            } else {
                before.model
            }
            &&& after.timeout == if key == "timeout"@ {
                timeout_or(value, before.timeout)
            } else {
                before.timeout
            }
        }),
{
    reveal_strlit(" = ");
    reveal_strlit("[server]");
    reveal_strlit("url");
    reveal_strlit("api_key");
    reveal_strlit("model");
    reveal_strlit("timeout");
    keys_differ();
    let head = "[server]"@;
    let entry = key + " = "@ + value;
    assert(entry =~= entry_line(key, value));
    let more = head + seq!['\n'] + entry;
    let body = if drop_marks {
        drop_leading(text, marks())
    } else {
        text
    };
    marks_before_a_line_feed(text, more);
    let s0 = IniState { in_server: false, config };
    texts_are_read_in_turn(s0, body, more, drop_marks);
    let s1 = s0.take_lines(lines(body), drop_marks);
    assert forall|i: int| 0 <= i < entry.len() implies entry[i] != '\n' by {
        if i >= key.len() + 3 {
            assert(entry[i] == value[i - key.len() - 3]);
        }
    }
    first_line(head, entry);
    one_line(entry);
    assert(lines(more) =~= seq![head].push(entry));
    assert(seq![head].push(entry).drop_last() =~= seq![head]);
    assert(seq![head].drop_last() =~= seq![]);
    assert(s1.take_lines(seq![head].drop_last(), drop_marks) == s1);
    assert(s1.take_lines(seq![head], drop_marks) == s1.take_line(ini_line(head, drop_marks)));
    server_line_is_taken(s1, drop_marks);
    entry_is_taken(s1.config, key, value, drop_marks);
}

/// What the environment names counts; what it does not name is left to the ini text, and
/// where there is none to the defaults.
pub proof fn the_environment_counts_first(
    ini: Option<Seq<char>>,
    env: EnvironmentView,
    drop_marks: bool,
)
    ensures
        ({
            let r = loaded(ini, env, drop_marks);
            let below = if ini is Some {
                after_ini(default_config(), ini->0, drop_marks)
            } else {
                default_config()
            };
            &&& r.url == if env.url is Some {
                env.url->0
            } else {
                below.url
            }
            &&& r.api_key == if env.api_key is Some {
                env.api_key->0
            } else {
                below.api_key
            }
            &&& r.model == if env.model is Some {
                env.model->0
            } else {
                below.model
            }
            &&& env.timeout is None ==> r.timeout == below.timeout
            &&& env.timeout matches Some(t) ==> r.timeout == timeout_or(t, below.timeout)
        }),
{
}

} // verus!
