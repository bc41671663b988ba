//! What the proxy decides when it starts: which mode it runs in, where its logs go, and
//! what it exits with.
use crate::args::{texts_of, Args, ArgsView};
use crate::text::{chars_of, push_str, same_str, string_of};
use crate::whisper_client::str_of;
use vstd::prelude::*;

verus! {

/// The pipe that `-IPC` names: the argument behind the first `-IPC` that has one.
pub open spec fn pipe_asked_for(raw: Seq<Seq<char>>) -> Option<Seq<char>>
    decreases raw.len(),
{
    if raw.len() < 2 {
        None
    } else if raw[0] == "-IPC"@ {
        Some(raw[1])
    } else {
        pipe_asked_for(raw.drop_first())
    }
}

/// The pipe that a command line without the program's name asks for.
pub fn ipc_name<'a>(raw: &'a [String]) -> (r: Option<&'a str>)
    ensures
        str_of(r) == pipe_asked_for(texts_of(raw@)),
{
    let ghost texts = texts_of(raw@);
    let mut i: usize = 0;
    assert(texts.skip(0) =~= texts);
    while raw.len() - i >= 2
        invariant
            i <= raw@.len(),
            texts == texts_of(raw@),
            pipe_asked_for(texts) == pipe_asked_for(texts.skip(i as int)),
        decreases raw.len() - i,
    {
        assert(texts.skip(i as int)[0] == raw@[i as int]@);
        assert(texts.skip(i as int)[1] == raw@[i + 1]@);
        assert(texts.skip(i as int).drop_first() =~= texts.skip(i + 1));
        if same_str(raw[i].as_str(), "-IPC") {
            return Some(raw[i + 1].as_str());
        }
        i = i + 1;
    }
    None
}

/// The path of a pipe.
pub open spec fn pipe_path_of(name: Seq<char>) -> Seq<char> {
    "\\\\.\\pipe\\"@ + name
}

/// The path of a pipe.
pub fn pipe_path(name: &str) -> (r: String)
    ensures
        r@ == pipe_path_of(name@),
{
    let mut out = chars_of("\\\\.\\pipe\\");
    push_str(&mut out, name);
    string_of(out.as_slice())
}

/// How often the player's pipe is tried.
pub const PIPE_TRIES: u32 = 50;

/// Whether the pipe is tried once more, after it was tried this often.
pub fn try_again(tried: u32) -> (r: bool)
    ensures
        r == (tried < PIPE_TRIES),
{
    tried < PIPE_TRIES
}

/// Whether file mode has nothing to do but to print its help.
pub open spec fn only_help(args: ArgsView) -> bool {
    args.help || args.files.len() == 0
}

pub fn wants_help(args: &Args) -> (r: bool)
    ensures
        r == only_help(args@),
{
    args.help || args.files.len() == 0
}

/// An exit code cut to what a process can exit with.
pub open spec fn clamped(code: int) -> int {
    if code < 0 {
        0
    } else if code > 255 {
        255
    } else {
        code
    }
}

/// The exit code of the `-IPC` engine as a byte.
pub fn exit_byte(code: i32) -> (r: u8)
    ensures
        r == clamped(code as int),
{
    if code < 0 {
        0
    } else if code > 255 {
        255
    } else {
        code as u8
    }
}

/// Whether calls are logged: `WHISPER_PROXY_DEBUG` is set, neither empty nor `0`, or the
/// marker file stands beside the binary.
pub open spec fn logging_wanted(setting: Option<Seq<char>>, marker: bool) -> bool {
    marker || match setting {
        Some(v) => v != "0"@ && v.len() > 0,
        None => false,
    }
}

pub fn debug_wanted(setting: Option<&str>, marker: bool) -> (r: bool)
    ensures
        r == logging_wanted(str_of(setting), marker),
{
    marker || match setting {
        Some(v) => !same_str(v, "0") && !v.is_empty(),
        None => false,
    }
}

/// The first of the candidates that there is, else the fallback.
pub open spec fn first_of<T>(a: Option<T>, b: Option<T>, c: Option<T>, fallback: T) -> T {
    if a is Some {
        a->0
    } else if b is Some {
        b->0
    } else if c is Some {
        c->0
    } else {
        fallback
    }
}

/// The directory for logs, from the values of `TEMP`, `TMP` and `LOCALAPPDATA`.
pub fn log_dir<T>(
    temp: Option<T>,
    tmp: Option<T>,
    local_app_data: Option<T>,
    fallback: T,
) -> (r: T)
    ensures
        r == first_of(temp, tmp, local_app_data, fallback),
{
    match temp {
        Some(d) => d,
        None => match tmp {
            Some(d) => d,
            None => match local_app_data {
                Some(d) => d,
                None => fallback,
            },
        },
    }
}

/// The log of file mode: its directory and its name; none where calls are not logged.
pub fn debug_log_path<T>(
    wanted: bool,
    temp: Option<T>,
    tmp: Option<T>,
    local_app_data: Option<T>,
    fallback: T,
) -> (r: Option<(T, &'static str)>)
    ensures
        match r {
            Some(path) => wanted && path.0 == first_of(temp, tmp, local_app_data, fallback)
                && path.1@ == "whisper-proxy.log"@,
            None => !wanted,
        },
{
    if wanted {
        Some((log_dir(temp, tmp, local_app_data, fallback), "whisper-proxy.log"))
    } else {
        None
    }
}

/// The log of the `-IPC` engine: its directory and its name.
pub fn ipc_log_path<T>(
    temp: Option<T>,
    tmp: Option<T>,
    local_app_data: Option<T>,
    fallback: T,
) -> (r: (T, &'static str))
    ensures
        r.0 == first_of(temp, tmp, local_app_data, fallback),
        r.1@ == "whisper-proxy-ipc.log"@,
{
    (log_dir(temp, tmp, local_app_data, fallback), "whisper-proxy-ipc.log")
}

/// A character in UTF-16: itself, or a high and a low surrogate.
pub open spec fn utf16_char(c: char) -> Seq<u16> {
    let n = c as int;
    if n < 0x1_0000 {
        seq![n as u16]
    } else {
        seq![
            (0xd800 + (n - 0x1_0000) / 0x400) as u16,
            (0xdc00 + (n - 0x1_0000) % 0x400) as u16,
        ]
    }
}

proof fn char_range(c: char)
    ensures
        0 <= (c as int) < 0xd800 || 0xe000 <= c as int <= 0x10_ffff,
{
}

/// A text in UTF-16.
pub open spec fn utf16(s: Seq<char>) -> Seq<u16>
    decreases s.len(),
{
    if s.len() == 0 {
        seq![]
    } else {
        utf16(s.drop_last()) + utf16_char(s.last())
    }
}

/// A text in UTF-16 with a zero behind it, as Windows takes it.
pub fn to_wide(s: &str) -> (r: Vec<u16>)
    ensures
        r@ == utf16(s@).push(0),
{
    let cs = chars_of(s);
    let mut out: Vec<u16> = Vec::new();
    for i in 0..cs.len()
        invariant
            cs@ == s@,
            out@ == utf16(s@.take(i as int)),
    {
        let ghost before = out@;
        let c: char = cs[i];
        proof {
            char_range(c);
        }
        let n: u32 = c as u32;
        if n < 0x1_0000 {
            out.push(n as u16);
        } else {
            let m: u32 = n - 0x1_0000;
            out.push((0xd800 + m / 0x400) as u16);
            out.push((0xdc00 + m % 0x400) as u16);
        }
        assert(out@ =~= before + utf16_char(s@[i as int]));
        assert(s@.take(i + 1).drop_last() =~= s@.take(i as int));
    }
    assert(s@.take(cs@.len() as int) =~= s@);
    out.push(0);
    out
}

/// Two texts that are the same in UTF-16 are the same.
pub proof fn utf16_is_injective(a: Seq<char>, b: Seq<char>)
    requires
        utf16(a) == utf16(b),
    ensures
        a == b,
    decreases a.len(),
{
    if a.len() == 0 || b.len() == 0 {
        assert(a.len() > 0 ==> utf16_char(a.last()).len() > 0 && utf16(a).len() > 0);
        assert(b.len() > 0 ==> utf16_char(b.last()).len() > 0 && utf16(b).len() > 0);
        assert(a =~= b);
    } else {
        let x = utf16_char(a.last());
        let y = utf16_char(b.last());
        let u = utf16(a);
        char_range(a.last());
        char_range(b.last());
        assert(u.last() == x.last());
        assert(u.last() == y.last());
        if x.len() == 2 && y.len() == 2 {
            assert(u[u.len() - 2] == x[0]);
            assert(u[u.len() - 2] == y[0]);
        }
        assert(a.last() == b.last());
        assert(utf16(a.drop_last()) =~= u.take(u.len() - x.len()));
        assert(utf16(b.drop_last()) =~= u.take(u.len() - x.len()));
        utf16_is_injective(a.drop_last(), b.drop_last());
        assert(a =~= a.drop_last().push(a.last()));
        assert(b =~= b.drop_last().push(b.last()));
    }
}

} // verus!
