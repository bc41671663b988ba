//! The installer: what it is told, what it does with each file, and what it says.
use crate::config::text_of;
use crate::installer::{
    app_path_key_of, backup_name, behind_drive, changes_files, cli_from, cli_of, command_of, engines_of, exit_code_of,
    file_of, first_url_line, ini_text, install_ini_step_of, install_must_look, install_step_of, is_proxy,
    joined_names, last_point, last_separator, looks_like, mark_of, named, place_views, places_tried, probe_name_of,
    selected, shown_url, status_text, targets_of, uninstall_ini_step_of, uninstall_must_look, uninstall_step_of,
    unknown_from, unquoted, with_orig, Cli, CliView, Command, EngineDir, Entry, IniStep, InstallStep, Outcome, Place,
    PlaceView, Refusal, RegistryView, Slot, UninstallStep, ENGINE_FILES, HEAD_LEN, INI_TEMPLATE,
};
use crate::laws::numerals::{dropping_from_the_end, dropping_from_the_front};
use crate::number::decimal;
use crate::text::{drop_leading, drop_trailing, lacks, lines, lower, occurs_at, replaced, trimmed, CharClass};
use vstd::prelude::*;

verus! {

/// Whether an argument is one of the six options.
pub open spec fn is_an_option(arg: Seq<char>) -> bool {
    arg == "--engine"@ || arg == "--potplayer-dir"@ || arg == "--url"@ || arg == "--model"@ || arg
        == "--api-key"@ || arg == "--timeout"@
}

proof fn options_differ()
    ensures
        "--engine"@ != "--potplayer-dir"@,
        "--engine"@ != "--url"@,
        "--engine"@ != "--model"@,
        "--engine"@ != "--api-key"@,
        "--engine"@ != "--timeout"@,
        "--potplayer-dir"@ != "--url"@,
        "--potplayer-dir"@ != "--model"@,
        "--potplayer-dir"@ != "--api-key"@,
        "--potplayer-dir"@ != "--timeout"@,
        "--url"@ != "--model"@,
        "--url"@ != "--api-key"@,
        "--url"@ != "--timeout"@,
        "--model"@ != "--api-key"@,
        "--model"@ != "--timeout"@,
        "--api-key"@ != "--timeout"@,
{
    reveal_strlit("--engine");
    reveal_strlit("--potplayer-dir");
    reveal_strlit("--url");
    reveal_strlit("--model");
    reveal_strlit("--api-key");
    reveal_strlit("--timeout");
    assert("--engine"@[2] == 'e');
    assert("--potplayer-dir"@[2] == 'p');
    assert("--url"@[2] == 'u');
    assert("--model"@[2] == 'm');
    assert("--api-key"@[2] == 'a');
    assert("--timeout"@[2] == 't');
}

/// A command line starts with its command; without any argument, all engines are meant and
/// nothing is set.
pub proof fn a_command_line_starts_with_its_command(raw: Seq<Seq<char>>)
    ensures
        cli_of(seq![]) == (CliView {
            cmd: seq![],
            engine: "all"@,
            potplayer_dir: None,
            url: None,
            model: None,
            api_key: None,
            timeout: None,
        }),
        raw.len() > 0 ==> cli_of(raw) == cli_from(
            CliView {
                cmd: raw[0],
                engine: "all"@,
                potplayer_dir: None,
                url: None,
                model: None,
                api_key: None,
                timeout: None,
            },
            raw,
            1,
        ),
{
}

/// Reading ends with the last argument.
pub proof fn reading_ends(cli: CliView, raw: Seq<Seq<char>>)
    ensures
        cli_from(cli, raw, raw.len() as int) == cli,
        unknown_from(raw, raw.len() as int).len() == 0,
{
}

/// An option takes the argument behind it for its own setting, and leaves the others.
pub proof fn an_option_sets_its_own_setting(cli: CliView, raw: Seq<Seq<char>>, i: int)
    requires
        0 <= i < raw.len() - 1,
        is_an_option(raw[i]),
    ensures
        raw[i] == "--engine"@ ==> cli_from(cli, raw, i) == cli_from(
            CliView { engine: raw[i + 1], ..cli },
            raw,
            i + 2,
        ),
        raw[i] == "--potplayer-dir"@ ==> cli_from(cli, raw, i) == cli_from(
            CliView { potplayer_dir: Some(raw[i + 1]), ..cli },
            raw,
            i + 2,
        ),
        raw[i] == "--url"@ ==> cli_from(cli, raw, i) == cli_from(
            CliView { url: Some(raw[i + 1]), ..cli },
            raw,
            i + 2,
        ),
        raw[i] == "--model"@ ==> cli_from(cli, raw, i) == cli_from(
            CliView { model: Some(raw[i + 1]), ..cli },
            raw,
            i + 2,
        ),
        raw[i] == "--api-key"@ ==> cli_from(cli, raw, i) == cli_from(
            CliView { api_key: Some(raw[i + 1]), ..cli },
            raw,
            i + 2,
        ),
        raw[i] == "--timeout"@ ==> cli_from(cli, raw, i) == cli_from(
            CliView { timeout: Some(raw[i + 1]), ..cli },
            raw,
            i + 2,
        ),
        unknown_from(raw, i) == unknown_from(raw, i + 2),
{
    options_differ();
}

/// An option at the end of the line unsets its own setting; the engine's name is then empty.
pub proof fn an_option_at_the_end_unsets(cli: CliView, raw: Seq<Seq<char>>)
    requires
        raw.len() > 0,
        is_an_option(raw.last()),
    ensures
        ({
            let r = cli_from(cli, raw, raw.len() - 1);
            &&& raw.last() == "--engine"@ ==> r == (CliView { engine: seq![], ..cli })
            &&& raw.last() == "--potplayer-dir"@ ==> r == (CliView { potplayer_dir: None, ..cli })
            &&& raw.last() == "--url"@ ==> r == (CliView { url: None, ..cli })
            &&& raw.last() == "--model"@ ==> r == (CliView { model: None, ..cli })
            &&& raw.last() == "--api-key"@ ==> r == (CliView { api_key: None, ..cli })
            &&& raw.last() == "--timeout"@ ==> r == (CliView { timeout: None, ..cli })
        }),
        unknown_from(raw, raw.len() - 1).len() == 0,
{
    options_differ();
    reveal_with_fuel(cli_from, 2);
    reveal_with_fuel(unknown_from, 2);
}

/// Another argument sets nothing; it is reported exactly if it starts with two dashes.
pub proof fn other_arguments_are_reported(cli: CliView, raw: Seq<Seq<char>>, i: int)
    requires
        0 <= i < raw.len(),
        !is_an_option(raw[i]),
    ensures
        cli_from(cli, raw, i) == cli_from(cli, raw, i + 1),
        raw[i].len() >= 2 && raw[i][0] == '-' && raw[i][1] == '-' ==> unknown_from(raw, i) == seq![
            raw[i],
        ] + unknown_from(raw, i + 1),
        !(raw[i].len() >= 2 && raw[i][0] == '-' && raw[i][1] == '-') ==> unknown_from(raw, i)
            == unknown_from(raw, i + 1),
{
    reveal_strlit("--");
    let arg = raw[i];
    if arg.len() >= 2 {
        assert(arg.subrange(0, 2)[0] == arg[0]);
        assert(arg.subrange(0, 2)[1] == arg[1]);
        if arg[0] == '-' && arg[1] == '-' {
            assert("--"@ =~= arg.subrange(0, 2));
        }
    }
    assert("--"@.len() == 2 && "--"@[0] == '-' && "--"@[1] == '-');
}

/// The command line is seen as it is.
pub proof fn the_command_line_is_seen_as_it_is(cli: Cli)
    ensures
        cli@.cmd == cli.cmd@,
        cli@.engine == cli.engine@,
        cli@.potplayer_dir == text_of(cli.potplayer_dir),
        cli@.url == text_of(cli.url),
        cli@.model == text_of(cli.model),
        cli@.api_key == text_of(cli.api_key),
        cli@.timeout == text_of(cli.timeout),
{
}

/// The layout of the ini file of an installation.
pub proof fn the_ini_is_laid_out()
    ensures
        INI_TEMPLATE@
            == "[server]\nurl = {{URL}}\nmodel = {{MODEL}}\napi_key = {{APIKEY}}\ntimeout = {{TIMEOUT}}\n"@,
{
}

proof fn nothing_to_replace(s: Seq<char>, p: Seq<char>, by: Seq<char>)
    requires
        lacks(s, p),
    ensures
        replaced(s, p, by) == s,
    decreases s.len(),
{
    if s.len() > 0 && p.len() > 0 {
        assert(!occurs_at(s, p, 0));
        assert(s.skip(0) =~= s);
        let rest = s.drop_first();
        assert forall|i: int| 0 <= i < rest.len() implies !#[trigger] occurs_at(rest, p, i) by {
            assert(!occurs_at(s, p, i + 1));
            assert(rest.skip(i) =~= s.skip(i + 1));
        }
        nothing_to_replace(rest, p, by);
        assert(seq![s[0]] + rest =~= s);
    }
}

proof fn all_is_replaced(p: Seq<char>, by: Seq<char>)
    requires
        p.len() > 0,
    ensures
        replaced(p, p, by) == by,
{
    assert(p.subrange(0, p.len() as int) =~= p);
    assert(p.skip(p.len() as int) =~= seq![]);
    assert(replaced(p.skip(p.len() as int), p, by) =~= seq![]);
    assert(replaced(p, p, by) =~= by);
}

proof fn other_names_in_braces(s: Seq<char>, p: Seq<char>)
    requires
        s.len() > 2 && p.len() > 2,
        p[0] == '{' && p[2] != s[2],
        forall|i: int| 1 < i < s.len() ==> #[trigger] s[i] != '{',
        p[1] == '{' && p[2] != '{',
    ensures
        lacks(s, p),
{
    assert forall|i: int| 0 <= i < s.len() implies !#[trigger] occurs_at(s, p, i) by {
        let t = s.skip(i);
        if p.is_prefix_of(t) {
            assert(p[0] == t[0] && p[1] == t[1] && p[2] == t[2]);
            assert(t[0] == s[i] && t[1] == s[i + 1] && t[2] == s[i + 2]);
        }
    }
}

/// The placeholders of a template are filled in turn: address, model, key, timeout. What
/// is put in for one is itself read for those that follow. A text without placeholders stays.
pub proof fn placeholders_are_filled_in_turn(cli: CliView, plain: Seq<char>)
    requires
        cli.url is Some && cli.model is Some && cli.api_key is Some && cli.timeout is Some,
        !plain.contains('{'),
    ensures
        ini_text("{{URL}}"@, cli) == replaced(
            replaced(
                replaced(cli.url->0, "{{MODEL}}"@, cli.model->0),
                "{{APIKEY}}"@,
                cli.api_key->0,
            ),
            "{{TIMEOUT}}"@,
            cli.timeout->0,
        ),
        ini_text("{{MODEL}}"@, cli) == replaced(
            replaced(cli.model->0, "{{APIKEY}}"@, cli.api_key->0),
            "{{TIMEOUT}}"@,
            cli.timeout->0,
        ),
        ini_text("{{APIKEY}}"@, cli) == replaced(cli.api_key->0, "{{TIMEOUT}}"@, cli.timeout->0),
        ini_text("{{TIMEOUT}}"@, cli) == cli.timeout->0,
        ini_text(plain, cli) == plain,
{
    reveal_strlit("{{URL}}");
    reveal_strlit("{{MODEL}}");
    reveal_strlit("{{APIKEY}}");
    reveal_strlit("{{TIMEOUT}}");
    let (u, m, k, t) = ("{{URL}}"@, "{{MODEL}}"@, "{{APIKEY}}"@, "{{TIMEOUT}}"@);
    all_is_replaced(u, cli.url->0);
    other_names_in_braces(m, u);
    nothing_to_replace(m, u, cli.url->0);
    all_is_replaced(m, cli.model->0);
    other_names_in_braces(k, u);
    nothing_to_replace(k, u, cli.url->0);
    other_names_in_braces(k, m);
    nothing_to_replace(k, m, cli.model->0);
    all_is_replaced(k, cli.api_key->0);
    other_names_in_braces(t, u);
    nothing_to_replace(t, u, cli.url->0);
    other_names_in_braces(t, m);
    nothing_to_replace(t, m, cli.model->0);
    other_names_in_braces(t, k);
    nothing_to_replace(t, k, cli.api_key->0);
    all_is_replaced(t, cli.timeout->0);
    plain_lacks(plain, u);
    nothing_to_replace(plain, u, cli.url->0);
    plain_lacks(plain, m);
    nothing_to_replace(plain, m, cli.model->0);
    plain_lacks(plain, k);
    nothing_to_replace(plain, k, cli.api_key->0);
    plain_lacks(plain, t);
    nothing_to_replace(plain, t, cli.timeout->0);
}

proof fn plain_lacks(plain: Seq<char>, p: Seq<char>)
    requires
        !plain.contains('{'),
        p.len() > 0 && p[0] == '{',
    ensures
        lacks(plain, p),
{
    assert forall|i: int| 0 <= i < plain.len() implies !#[trigger] occurs_at(plain, p, i) by {
        if p.is_prefix_of(plain.skip(i)) {
            assert(p[0] == plain.skip(i)[0]);
            assert(plain[i] == '{');
        }
    }
}

/// Whether a text has no separator in it.
pub open spec fn is_one_name(s: Seq<char>) -> bool {
    forall|i: int| 0 <= i < s.len() ==> #[trigger] s[i] != '/' && s[i] != '\\'
}

proof fn separator_before_a_name(dir: Seq<char>, c: char, name: Seq<char>)
    requires
        is_one_name(name),
        c == '/' || c == '\\',
    ensures
        last_separator(dir.push(c) + name) == dir.len(),
        last_separator(name) == -1,
    decreases name.len(),
{
    let path = dir.push(c) + name;
    if name.len() == 0 {
        assert(path =~= dir.push(c));
    } else {
        let rest = name.drop_last();
        assert forall|i: int| 0 <= i < rest.len() implies #[trigger] rest[i] != '/' && rest[i]
            != '\\' by {
            assert(name[i] != '/');
        }
        separator_before_a_name(dir, c, rest);
        assert(path.drop_last() =~= dir.push(c) + rest);
        assert(path.last() == name[name.len() - 1]);
        assert(name.last() == name[name.len() - 1]);
    }
}

/// The file of a path is the name behind its last separator. Separators at the end, and a
/// lone point behind one, are passed over; two points name no file.
pub proof fn the_file_of_a_path(dir: Seq<char>, c: char, name: Seq<char>)
    requires
        c == '/' || c == '\\',
        is_one_name(name),
        name.len() > 0,
    ensures
        name != seq!['.'] && name != seq!['.', '.'] ==> file_of(name) == Some(name) && file_of(
            dir.push(c) + name,
        ) == Some(name),
        file_of(dir.push(c)) == file_of(dir),
        file_of(dir.push(c).push('.')) == file_of(dir),
        file_of(dir.push(c) + seq!['.', '.']) is None,
        file_of(seq![]) is None,
        file_of(seq!['.']) is None,
        file_of(seq!['.', '.']) is None,
{
    separator_before_a_name(dir, c, name);
    separator_before_a_name(dir, c, seq![]);
    separator_before_a_name(dir, c, seq!['.']);
    separator_before_a_name(dir, c, seq!['.', '.']);
    let path = dir.push(c) + name;
    assert(name.skip(0) =~= name);
    assert(path.skip((dir.len() + 1) as int) =~= name);
    assert(dir.push(c) + Seq::<char>::empty() =~= dir.push(c));
    assert(dir.push(c).skip((dir.len() + 1) as int) =~= seq![]);
    assert(dir.push(c).take(dir.len() as int) =~= dir);
    assert(dir.push(c) + seq!['.'] =~= dir.push(c).push('.'));
    assert(dir.push(c).push('.').skip((dir.len() + 1) as int) =~= seq!['.']);
    assert(dir.push(c).push('.').take(dir.len() as int) =~= dir);
    assert((dir.push(c) + seq!['.', '.']).skip((dir.len() + 1) as int) =~= seq!['.', '.']);
    assert(seq!['.', '.'].len() == 2 && seq!['.'].len() == 1);
    assert(seq!['.'].skip(0) =~= seq!['.']);
    assert(seq!['.', '.'].skip(0) =~= seq!['.', '.']);
    assert(Seq::<char>::empty().skip(0) =~= Seq::<char>::empty());
}

proof fn point_before_an_extension(stem: Seq<char>, extension: Seq<char>)
    requires
        forall|i: int| 0 <= i < extension.len() ==> #[trigger] extension[i] != '.',
    ensures
        last_point(stem.push('.') + extension) == stem.len(),
        last_point(extension) == -1,
    decreases extension.len(),
{
    let name = stem.push('.') + extension;
    if extension.len() == 0 {
        assert(name =~= stem.push('.'));
    } else {
        let rest = extension.drop_last();
        assert forall|i: int| 0 <= i < rest.len() implies #[trigger] rest[i] != '.' by {
            assert(extension[i] != '.');
        }
        point_before_an_extension(stem, rest);
        assert(name.drop_last() =~= stem.push('.') + rest);
        assert(name.last() == extension[extension.len() - 1]);
        assert(extension.last() == extension[extension.len() - 1]);
    }
}

/// A backup has `.orig` before its extension, or behind its name where it has none; a point
/// at the start of a name opens no extension.
pub proof fn the_name_of_a_backup(stem: Seq<char>, extension: Seq<char>)
    requires
        forall|i: int| 0 <= i < extension.len() ==> #[trigger] extension[i] != '.',
    ensures
        stem.len() > 0 ==> with_orig(stem + seq!['.'] + extension) == stem + seq![
            '.',
            'o',
            'r',
            'i',
            'g',
            '.',
        ] + extension,
        with_orig(seq!['.'] + extension) == seq!['.'] + extension + seq!['.', 'o', 'r', 'i', 'g'],
        with_orig(extension) == extension + seq!['.', 'o', 'r', 'i', 'g'],
{
    reveal_strlit(".orig");
    reveal_strlit(".orig.");
    assert(".orig"@ =~= seq!['.', 'o', 'r', 'i', 'g']);
    assert(".orig."@ =~= seq!['.', 'o', 'r', 'i', 'g', '.']);
    point_before_an_extension(stem, extension);
    point_before_an_extension(seq![], extension);
    let name = stem + seq!['.'] + extension;
    assert(name =~= stem.push('.') + extension);
    assert(name.take(stem.len() as int) =~= stem);
    assert(name.skip((stem.len() + 1) as int) =~= extension);
    assert(Seq::<char>::empty().push('.') + extension =~= seq!['.'] + extension);
}

/// The backup of a path is that of its file, whichever drive the path is on; a path without
/// a file has `.orig` behind it.
pub proof fn the_backup_of_a_path(drive: char, path: Seq<char>)
    ensures
        ('A' <= drive <= 'Z' || 'a' <= drive <= 'z') ==> behind_drive(seq![drive, ':'] + path)
            == path,
        !(path.len() >= 2 && path[1] == ':' && ('A' <= path[0] <= 'Z' || 'a' <= path[0] <= 'z'))
            ==> behind_drive(path) == path,
        file_of(behind_drive(path)) matches Some(file) ==> backup_name(path) == with_orig(file),
        file_of(behind_drive(path)) is None ==> backup_name(path) == path + seq![
            '.',
            'o',
            'r',
            'i',
            'g',
        ],
{
    reveal_strlit(".orig");
    assert(".orig"@ =~= seq!['.', 'o', 'r', 'i', 'g']);
    assert((seq![drive, ':'] + path).skip(2) =~= path);
}

/// A file is taken for the proxy exactly if it is as long and its first 1024 bytes, or all
/// of them where there are fewer, are the same.
pub proof fn what_is_taken_for_the_proxy(file: Seq<u8>, proxy: Seq<u8>)
    ensures
        is_proxy(file, proxy) <==> file.len() == proxy.len() && forall|i: int|
            0 <= i < file.len() && i < 1024 ==> #[trigger] file[i] == proxy[i],
        HEAD_LEN == 1024,
{
    let head = if file.len() > 1024 {
        file.take(1024)
    } else {
        file
    };
    what_looks_like_the_proxy(file.len() as int, head, proxy);
    assert forall|i: int| 0 <= i < head.len() implies head[i] == file[i] by {}
    if is_proxy(file, proxy) {
        assert forall|i: int| 0 <= i < file.len() && i < 1024 implies #[trigger] file[i]
            == proxy[i] by {
            assert(head[i] == proxy[i]);
        }
    }
}

/// A length and the first bytes of a file are those of the proxy exactly if the length is
/// and each byte is.
pub proof fn what_looks_like_the_proxy(len: int, head: Seq<u8>, proxy: Seq<u8>)
    ensures
        looks_like(len, head, proxy) <==> len == proxy.len() && head.len() <= proxy.len()
            && forall|i: int| 0 <= i < head.len() ==> #[trigger] head[i] == proxy[i],
{
    if head.len() <= proxy.len() {
        let start = proxy.subrange(0, head.len() as int);
        assert forall|i: int| 0 <= i < head.len() implies start[i] == proxy[i] by {}
        if forall|i: int| 0 <= i < head.len() ==> #[trigger] head[i] == proxy[i] {
            assert(head =~= start);
        }
    }
}

/// What is done with a file before the proxy takes its place: it is backed up exactly if it
/// is there, is not the proxy and has no backup yet.
pub proof fn what_installing_does(live: bool, orig: bool, ours: bool)
    ensures
        install_step_of(live, orig, ours) == InstallStep::BackUp <==> live && !orig && !ours,
        install_step_of(live, orig, ours) == InstallStep::AlreadyOurs <==> live && !orig && ours,
        install_step_of(live, orig, ours) == InstallStep::Overwrite <==> !live || orig,
        install_must_look(live, orig) <==> live && !orig,
{
}

/// What is done with a file to take the proxy away: its backup is put back exactly if there
/// is one and no file of someone else stands in the way.
pub proof fn what_uninstalling_does(live: bool, orig: bool, ours: bool)
    ensures
        uninstall_step_of(live, orig, ours) == UninstallStep::Restore <==> orig && (!live || ours),
        uninstall_step_of(live, orig, ours) == UninstallStep::LeaveAlone <==> orig && live && !ours,
        uninstall_step_of(live, orig, ours) == UninstallStep::NoBackup <==> !orig,
        uninstall_must_look(live, orig) <==> live && orig,
{
}

/// Installing writes an ini file exactly if there is none, and else keeps it; uninstalling
/// removes the one there is.
pub proof fn what_becomes_of_the_ini(ini: Option<Seq<char>>, text: Seq<char>)
    ensures
        install_ini_step_of(true) == IniStep::Keep,
        install_ini_step_of(false) == IniStep::Write,
        uninstall_ini_step_of(true) == IniStep::Remove,
        uninstall_ini_step_of(false) == IniStep::Nothing,
        IniStep::Keep.done(ini, text) == ini,
        IniStep::Write.done(ini, text) == Some(text),
        IniStep::Remove.done(ini, text) is None,
        IniStep::Nothing.done(ini, text) == ini,
{
}

/// What each step leaves of a file and its backup.
pub proof fn what_a_step_leaves(slot: Slot, proxy: Seq<u8>)
    ensures
        InstallStep::BackUp.done(slot, proxy) == (Slot { live: Some(proxy), orig: slot.live }),
        InstallStep::AlreadyOurs.done(slot, proxy) == (Slot { live: Some(proxy), orig: slot.orig }),
        InstallStep::Overwrite.done(slot, proxy) == (Slot { live: Some(proxy), orig: slot.orig }),
        UninstallStep::Restore.done(slot) == (Slot { live: slot.orig, orig: None }),
        UninstallStep::LeaveAlone.done(slot) == slot,
        UninstallStep::NoBackup.done(slot) == slot,
{
}

/// After an installation the proxy stands in both files, and what stood there and was not
/// the proxy is in the backup, unless there was one before.
pub proof fn what_an_installation_leaves(dir: EngineDir, proxy: Seq<u8>, ini: Seq<char>)
    ensures
        ({
            let r = dir.installed(proxy, ini);
            &&& r.main64.live == Some(proxy)
            &&& r.main.live == Some(proxy)
            &&& dir.main64.orig is Some ==> r.main64.orig == dir.main64.orig
            &&& dir.main.orig is Some ==> r.main.orig == dir.main.orig
            &&& dir.main64.orig is None && dir.main64.live is Some && !is_proxy(
                dir.main64.live->0,
                proxy,
            ) ==> r.main64.orig == dir.main64.live
            &&& dir.main.orig is None && dir.main.live is Some && !is_proxy(
                dir.main.live->0,
                proxy,
            ) ==> r.main.orig == dir.main.live
            &&& dir.main64.orig is None && (dir.main64.live is None || is_proxy(
                dir.main64.live->0,
                proxy,
            )) ==> r.main64.orig is None
            &&& dir.main.orig is None && (dir.main.live is None || is_proxy(
                dir.main.live->0,
                proxy,
            )) ==> r.main.orig is None
            &&& dir.ini is Some ==> r.ini == dir.ini
            &&& dir.ini is None ==> r.ini == Some(ini)
        }),
        ENGINE_FILES@.len() == 2,
        ENGINE_FILES@[0]@ == "main64.exe"@,
        ENGINE_FILES@[1]@ == "main.exe"@,
{
}

/// How a file stands, in words.
pub proof fn marks_in_words()
    ensures
        mark_of(true, true) == "INSTALLED (backup OK)"@,
        mark_of(true, false) == "INSTALLED (no backup!)"@,
        mark_of(false, true) == "ORIGINAL ACTIVE (backup present)"@,
        mark_of(false, false) == "ORIGINAL ACTIVE"@,
{
}

/// A line of the status: four spaces, the name, spaces up to fourteen places, an arrow and
/// the mark.
pub proof fn a_line_of_the_status(name: Seq<char>, mark: Seq<char>)
    ensures
        ({
            let t = status_text(name, mark);
            let w = if name.len() < 14 {
                18
            } else {
                4 + name.len() as int
            };
            &&& t.len() == w + 4 + mark.len()
            &&& t.take(4) == seq![' ', ' ', ' ', ' ']
            &&& t.subrange(4, 4 + name.len() as int) == name
            &&& forall|i: int| 4 + name.len() <= i < w ==> #[trigger] t[i] == ' '
            &&& t.subrange(w, w + 4) == seq![' ', '-', '>', ' ']
            &&& t.skip(w + 4) == mark
        }),
{
    reveal_strlit("    ");
    reveal_strlit(" -> ");
    assert("    "@ =~= seq![' ', ' ', ' ', ' ']);
    assert(" -> "@ =~= seq![' ', '-', '>', ' ']);
    let t = status_text(name, mark);
    let w = if name.len() < 14 {
        18
    } else {
        4 + name.len() as int
    };
    assert(t.take(4) =~= seq![' ', ' ', ' ', ' ']);
    assert(t.subrange(4, 4 + name.len() as int) =~= name);
    assert(t.subrange(w, w + 4) =~= seq![' ', '-', '>', ' ']);
    assert(t.skip(w + 4) =~= mark);
}

/// Whether a line, stripped of white space, starts with `url` in any case of its letters.
pub open spec fn speaks_of_the_url(line: Seq<char>) -> bool {
    let s = lower(trimmed(line));
    s.len() >= 3 && s[0] == 'u' && s[1] == 'r' && s[2] == 'l'
}

proof fn url_starts(s: Seq<char>)
    ensures
        "url"@.is_prefix_of(s) <==> s.len() >= 3 && s[0] == 'u' && s[1] == 'r' && s[2] == 'l',
{
    reveal_strlit("url");
    assert("url"@.len() == 3 && "url"@[0] == 'u' && "url"@[1] == 'r' && "url"@[2] == 'l');
    if s.len() >= 3 {
        let start = s.subrange(0, 3);
        assert(start[0] == s[0] && start[1] == s[1] && start[2] == s[2]);
        if s[0] == 'u' && s[1] == 'r' && s[2] == 'l' {
            assert("url"@ =~= start);
        }
    }
}

/// The first line that speaks of the address is shown without the white space around it.
pub proof fn the_first_line_counts(raw: Seq<Seq<char>>)
    ensures
        match first_url_line(raw) {
            Some(shown) => exists|k: int|
                0 <= k < raw.len() && #[trigger] speaks_of_the_url(raw[k]) && shown == trimmed(
                    raw[k],
                ) && (forall|j: int| 0 <= j < k ==> !#[trigger] speaks_of_the_url(raw[j])),
            None => forall|j: int| 0 <= j < raw.len() ==> !#[trigger] speaks_of_the_url(raw[j]),
        },
    decreases raw.len(),
{
    if raw.len() > 0 {
        let rest = raw.drop_first();
        url_starts(lower(trimmed(raw[0])));
        if speaks_of_the_url(raw[0]) {
            assert(speaks_of_the_url(raw[0]));
        } else {
            the_first_line_counts(rest);
            match first_url_line(rest) {
                Some(shown) => {
                    let k = choose|k: int|
                        0 <= k < rest.len() && #[trigger] speaks_of_the_url(rest[k]) && shown
                            == trimmed(rest[k]) && (forall|j: int|
                            0 <= j < k ==> !#[trigger] speaks_of_the_url(rest[j]));
                    assert(raw[k + 1] == rest[k]);
                    assert(speaks_of_the_url(raw[k + 1]));
                    assert forall|j: int| 0 <= j < k + 1 implies !#[trigger] speaks_of_the_url(
                        raw[j],
                    ) by {
                        if j > 0 {
                            assert(rest[j - 1] == raw[j]);
                            assert(!speaks_of_the_url(rest[j - 1]));
                        }
                    }
                },
                None => {
                    assert forall|j: int| 0 <= j < raw.len() implies !#[trigger] speaks_of_the_url(
                        raw[j],
                    ) by {
                        if j > 0 {
                            assert(rest[j - 1] == raw[j]);
                            assert(!speaks_of_the_url(rest[j - 1]));
                        }
                    }
                },
            }
        }
    }
}

/// The address that an ini text shows is that of its lines, or a note that there is none.
pub proof fn the_url_that_is_shown(text: Seq<char>)
    ensures
        first_url_line(lines(text)) matches Some(shown) ==> shown_url(text) == shown,
        first_url_line(lines(text)) is None ==> shown_url(text) == "(url 없음)"@,
{
}

/// A directory with a name that holds the engine's program or its backup is an engine, and
/// stands behind those before it; nothing else is one.
pub proof fn every_engine_is_listed(entries: Seq<Entry>, entry: Entry)
    ensures
        engines_of(seq![]).len() == 0,
        entry.name matches Some(name) ==> {
            &&& entry.is_dir && entry.has_main ==> engines_of(entries.push(entry)) == engines_of(
                entries,
            ).push(name@)
            &&& entry.is_dir && entry.has_backup ==> engines_of(entries.push(entry)) == engines_of(
                entries,
            ).push(name@)
        },
        entry.name is None || !entry.is_dir || (!entry.has_main && !entry.has_backup)
            ==> engines_of(entries.push(entry)) == engines_of(entries),
{
    assert(entries.push(entry).drop_last() =~= entries);
}

/// An engine of the name, in any case of its letters, stands behind the others of the name;
/// another is passed over.
pub proof fn every_engine_of_a_name_is_meant(
    all: Seq<Seq<char>>,
    one: Seq<char>,
    engine: Seq<char>,
)
    ensures
        named(seq![], engine).len() == 0,
        lower(one) == lower(engine) ==> named(all.push(one), engine) == named(all, engine).push(one),
        lower(one) != lower(engine) ==> named(all.push(one), engine) == named(all, engine),
{
    assert(all.push(one).drop_last() =~= all);
}

/// The word `all`, in any case of its letters, means every engine; another those of the
/// name, and a name that none has is no choice.
pub proof fn which_engines_are_meant(engine: Seq<char>, all: Seq<Seq<char>>)
    ensures
        lower(engine) == seq!['a', 'l', 'l'] ==> selected(engine, all) == Some(all),
        lower(engine) != seq!['a', 'l', 'l'] && named(all, engine).len() > 0 ==> selected(
            engine,
            all,
        ) == Some(named(all, engine)),
        lower(engine) != seq!['a', 'l', 'l'] && named(all, engine).len() == 0 ==> selected(
            engine,
            all,
        ) is None,
{
    reveal_strlit("all");
    assert("all"@ =~= seq!['a', 'l', 'l']);
}

/// Names are joined by a comma and a space.
pub proof fn names_are_joined(names: Seq<Seq<char>>, name: Seq<char>)
    ensures
        joined_names(seq![]).len() == 0,
        joined_names(seq![name]) == name,
        names.len() > 0 ==> joined_names(names.push(name)) == joined_names(names) + seq![
            ',',
            ' ',
        ] + name,
{
    reveal_strlit(", ");
    assert(", "@ =~= seq![',', ' ']);
    assert(names.push(name).drop_last() =~= names);
}

/// The places where the player may be, in their order.
pub proof fn where_the_player_may_be()
    ensures
        ({
            let p = places_tried();
            &&& p.len() == 11
            &&& p[0] == PlaceView::AppPath(RegistryView::Wow32, "PotPlayer.exe"@)
            &&& p[1] == PlaceView::AppPath(RegistryView::Wow64, "PotPlayer.exe"@)
            &&& p[2] == PlaceView::AppPath(RegistryView::Native, "PotPlayer.exe"@)
            &&& p[3] == PlaceView::AppPath(RegistryView::Wow32, "PotPlayerMini.exe"@)
            &&& p[4] == PlaceView::AppPath(RegistryView::Wow64, "PotPlayerMini.exe"@)
            &&& p[5] == PlaceView::AppPath(RegistryView::Native, "PotPlayerMini.exe"@)
            &&& p[6] == PlaceView::AppPath(RegistryView::Wow32, "PotPlayerMini64.exe"@)
            &&& p[7] == PlaceView::AppPath(RegistryView::Wow64, "PotPlayerMini64.exe"@)
            &&& p[8] == PlaceView::AppPath(RegistryView::Native, "PotPlayerMini64.exe"@)
            &&& p[9] == PlaceView::Directory("C:\\Program Files (x86)\\DAUM\\PotPlayer"@)
            &&& p[10] == PlaceView::Directory("C:\\Program Files\\DAUM\\PotPlayer"@)
        }),
{
}

/// Places are seen as they are, each in its place.
pub proof fn places_are_seen_as_they_are(
    places: Seq<Place>,
    view: RegistryView,
    exe: &'static str,
)
    ensures
        Place::AppPath(view, exe)@ == PlaceView::AppPath(view, exe@),
        Place::Directory(exe)@ == PlaceView::Directory(exe@),
        place_views(places).len() == places.len(),
        forall|i: int| 0 <= i < places.len() ==> #[trigger] place_views(places)[i] == places[i]@,
{
}

/// The registry key of a program, and the file that tries a directory.
pub proof fn keys_and_probes(exe: Seq<char>, pid: u32)
    ensures
        app_path_key_of(exe) == "SOFTWARE\\Microsoft\\Windows\\CurrentVersion\\App Paths\\"@ + exe,
        probe_name_of(pid) == ".whisper-proxy-write-test-"@ + decimal(pid as nat),
{
}

/// Whether a text stands in another from the `n`-th character on, with only quotes around it.
pub open spec fn stands_in_quotes(r: Seq<char>, inner: Seq<char>, n: int) -> bool {
    &&& 0 <= n && n + r.len() <= inner.len()
    &&& inner.subrange(n, n + r.len()) == r
    &&& forall|i: int| 0 <= i < n ==> #[trigger] inner[i] == '"'
    &&& forall|i: int| n + r.len() <= i < inner.len() ==> #[trigger] inner[i] == '"'
}

/// A path of the registry loses the white space around it, then every quote at its ends,
/// and nothing else.
pub proof fn a_path_loses_its_quotes(value: Seq<char>)
    ensures
        unquoted(value).len() > 0 ==> unquoted(value)[0] != '"' && unquoted(value).last() != '"',
        exists|n: int| stands_in_quotes(unquoted(value), trimmed(value), n),
{
    let k = CharClass::One('"');
    let inner = trimmed(value);
    let a = drop_leading(inner, k);
    let r = drop_trailing(a, k);
    dropping_from_the_front(inner, k);
    dropping_from_the_end(a, k);
    let n = (inner.len() - a.len()) as int;
    assert(a == inner.skip(n));
    assert(inner.subrange(n, n + r.len()) =~= r);
    assert forall|i: int| 0 <= i < n implies #[trigger] inner[i] == '"' by {
        assert(k.admits(inner[i]));
    }
    assert forall|i: int| n + r.len() <= i < inner.len() implies #[trigger] inner[i] == '"' by {
        assert(a[i - n] == inner[i]);
        assert(k.admits(a[i - n]));
    }
    assert(unquoted(value) == r);
    assert(stands_in_quotes(unquoted(value), trimmed(value), n));
    if r.len() > 0 {
        assert(!k.admits(a[0]));
        assert(r[0] == a[0]);
    }
}

/// The four commands, and no other word.
pub proof fn commands_by_their_words(cmd: Seq<char>)
    ensures
        command_of("detect"@) == Command::Detect,
        command_of("status"@) == Command::Status,
        command_of("install"@) == Command::Install,
        command_of("uninstall"@) == Command::Uninstall,
        cmd != "detect"@ && cmd != "status"@ && cmd != "install"@ && cmd != "uninstall"@
            ==> command_of(cmd) == Command::Unknown,
{
    reveal_strlit("detect");
    reveal_strlit("status");
    reveal_strlit("install");
    reveal_strlit("uninstall");
    assert("detect"@[0] == 'd' && "status"@[0] == 's' && "install"@[0] == 'i' && "uninstall"@[0]
        == 'u');
}

/// Why there is nothing to work on: no player, no place for engines, no engine, or none of
/// the name, in this order.
pub proof fn why_there_are_no_targets(has_module: bool, engine: Seq<char>, all: Seq<Seq<char>>)
    ensures
        targets_of(false, has_module, engine, all) == Err::<Seq<Seq<char>>, Refusal>(
            Refusal::NoPlayer,
        ),
        targets_of(true, false, engine, all) == Err::<Seq<Seq<char>>, Refusal>(Refusal::NoModule),
        all.len() == 0 ==> targets_of(true, true, engine, all) == Err::<Seq<Seq<char>>, Refusal>(
            Refusal::NoEngines,
        ),
        all.len() > 0 && selected(engine, all) is None ==> targets_of(true, true, engine, all)
            == Err::<Seq<Seq<char>>, Refusal>(Refusal::UnknownEngine),
        all.len() > 0 ==> (selected(engine, all) matches Some(names) ==> targets_of(
            true,
            true,
            engine,
            all,
        ) == Ok::<Seq<Seq<char>>, Refusal>(names)),
{
}

/// The exit codes of the installer: 2 where it was refused, 1 for an unknown command, 3 and
/// 4 for installing or uninstalling that could not, else 0.
pub proof fn exit_codes_of_the_installer(command: Command, outcome: Outcome)
    ensures
        exit_code_of(true, command, outcome) == 2,
        exit_code_of(false, Command::Unknown, outcome) == 1,
        exit_code_of(false, Command::Detect, outcome) == 0,
        exit_code_of(false, Command::Status, outcome) == 0,
        exit_code_of(false, Command::Install, Outcome::Done) == 0,
        exit_code_of(false, Command::Install, Outcome::NotWritable) == 3,
        exit_code_of(false, Command::Install, Outcome::Failed) == 4,
        exit_code_of(false, Command::Uninstall, Outcome::Done) == 0,
        exit_code_of(false, Command::Uninstall, Outcome::NotWritable) == 3,
        exit_code_of(false, Command::Uninstall, Outcome::Failed) == 4,
        changes_files(Command::Install) && changes_files(Command::Uninstall),
        !changes_files(Command::Detect) && !changes_files(Command::Status) && !changes_files(
            Command::Unknown,
        ),
{
}

} // verus!
