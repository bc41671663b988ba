//! How the proxy starts: its mode, its pipe, its logs and its exit code.
use crate::args::ArgsView;
use crate::launch::{
    clamped, first_of, logging_wanted, only_help, pipe_asked_for, pipe_path_of, utf16, utf16_char, PIPE_TRIES,
};
use crate::whisper_client::str_of;
use vstd::prelude::*;

verus! {

/// The pipe is named by the argument behind the first `-IPC` that has one; without such an
/// argument there is no pipe.
pub proof fn the_pipe_is_named_behind_its_option(raw: Seq<Seq<char>>)
    ensures
        match pipe_asked_for(raw) {
            Some(name) => exists|k: int|
                0 <= k < raw.len() - 1 && #[trigger] raw[k] == "-IPC"@ && name == raw[k + 1] && (
                forall|j: int| 0 <= j < k ==> #[trigger] raw[j] != "-IPC"@),
            None => forall|j: int| 0 <= j < raw.len() - 1 ==> #[trigger] raw[j] != "-IPC"@,
        },
    decreases raw.len(),
{
    if raw.len() >= 2 {
        let rest = raw.drop_first();
        if raw[0] == "-IPC"@ {
            assert(raw[0] == "-IPC"@);
        } else {
            the_pipe_is_named_behind_its_option(rest);
            match pipe_asked_for(rest) {
                Some(name) => {
                    let k = choose|k: int|
                        0 <= k < rest.len() - 1 && #[trigger] rest[k] == "-IPC"@ && name == rest[k
                            + 1] && (forall|j: int| 0 <= j < k ==> #[trigger] rest[j] != "-IPC"@);
                    assert(raw[k + 1] == "-IPC"@);
                    assert forall|j: int| 0 <= j < k + 1 implies #[trigger] raw[j] != "-IPC"@ by {
                        if j > 0 {
                            assert(rest[j - 1] == raw[j]);
                        }
                    }
                },
                None => {
                    assert forall|j: int| 0 <= j < raw.len() - 1 implies #[trigger] raw[j]
                        != "-IPC"@ by {
                        if j > 0 {
                            assert(rest[j - 1] == raw[j]);
                        }
                    }
                },
            }
        }
    }
}

/// A pipe stands under `\\.\pipe\`, by its own name, and is tried fifty times.
pub proof fn a_pipe_has_its_path(name: Seq<char>)
    ensures
        pipe_path_of(name) == seq!['\\', '\\', '.', '\\', 'p', 'i', 'p', 'e', '\\'] + name,
        PIPE_TRIES == 50,
{
    reveal_strlit("\\\\.\\pipe\\");
    assert("\\\\.\\pipe\\"@ =~= seq!['\\', '\\', '.', '\\', 'p', 'i', 'p', 'e', '\\']);
}

/// The help is all there is to print exactly if it is asked for or no file is named.
pub proof fn when_only_help_is_printed(args: ArgsView)
    ensures
        args.help ==> only_help(args),
        args.files.len() == 0 ==> only_help(args),
        !args.help && args.files.len() > 0 ==> !only_help(args),
{
}

/// An exit code that a byte can hold is kept; one below is zero, one above the largest.
pub proof fn exit_codes_are_cut(code: int)
    ensures
        0 <= code <= 255 ==> clamped(code) == code,
        code < 0 ==> clamped(code) == 0,
        code > 255 ==> clamped(code) == 255,
{
}

/// Calls are logged where the marker stands, or the setting is anything but empty or `0`.
pub proof fn when_calls_are_logged(value: Seq<char>)
    ensures
        logging_wanted(None, true) && logging_wanted(Some(value), true),
        !logging_wanted(None, false),
        logging_wanted(Some(value), false) <==> !(value.len() == 0 || (value.len() == 1 && value[0]
            == '0')),
{
    reveal_strlit("0");
    assert("0"@.len() == 1 && "0"@[0] == '0');
    if value.len() == 1 && value[0] == '0' {
        assert(value =~= "0"@);
    }
}

/// The first directory that is set is taken, and the fallback only where none is.
pub proof fn the_first_directory_counts<T>(a: T, b: Option<T>, c: Option<T>, fallback: T)
    ensures
        first_of(Some(a), b, c, fallback) == a,
        first_of(None, Some(a), c, fallback) == a,
        first_of(None, None, Some(a), fallback) == a,
        first_of(None, None, None, fallback) == fallback,
{
}

/// A character of the first plane is one unit of its own number; another is two units, ten
/// bits of its number in each.
pub proof fn a_character_in_units(c: char)
    ensures
        (c as int) < 0x1_0000 ==> utf16_char(c).len() == 1 && utf16_char(c)[0] == c as int,
        c as int >= 0x1_0000 ==> utf16_char(c).len() == 2 && 0xd800 <= utf16_char(c)[0] < 0xdc00
            && 0xdc00 <= utf16_char(c)[1] < 0xe000 && 0x1_0000 + (utf16_char(c)[0] - 0xd800) * 0x400
            + (utf16_char(c)[1] - 0xdc00) == c as int,
{
    assert(0 <= (c as int) < 0xd800 || 0xe000 <= c as int <= 0x10_ffff);
}

/// A text in units is its characters in units, one behind the other.
pub proof fn a_text_in_units(s: Seq<char>, c: char)
    ensures
        utf16(seq![]) == Seq::<u16>::empty(),
        utf16(s.push(c)) == utf16(s) + utf16_char(c),
{
    assert(s.push(c).drop_last() =~= s);
}

/// An optional text is seen as it is.
pub proof fn borrowed_texts_are_seen_as_they_are(s: Option<&str>)
    ensures
        s matches Some(t) ==> str_of(s) == Some(t@),
        s is None ==> str_of(s) is None,
{
}

} // verus!
