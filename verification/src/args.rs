//! The command line of whisper.cpp's `main`, as far as the proxy heeds it.
use crate::config::text_of;
use crate::number::{read_signed, signed_value, within};
use crate::text::{chars_of, same_str};
use vstd::prelude::*;

verus! {

/// The options of whisper.cpp that take a value.
pub const VALUE_OPTS: [&'static str; 67] = [
    "-t", "--threads", "-p", "--processors", "-ot", "--offset-t", "-on", "--offset-n", "-d",
    "--duration", "-mc", "--max-context", "-ml", "--max-len", "-bo", "--best-of", "-bs",
    "--beam-size", "-ac", "--audio-ctx", "-wt", "--word-thold", "-et", "--entropy-thold", "-lpt",
    "--logprob-thold", "-nth", "--no-speech-thold", "-tp", "--temperature", "-tpi",
    "--temperature-inc", "-fp", "--font-path", "-of", "--output-file", "-l", "--language",
    "--prompt", "-m", "--model", "-f", "--file", "-oved", "--ov-e-device", "-dtw", "--dtw",
    "-dev", "--device", "--suppress-regex", "--grammar", "--grammar-rule", "--grammar-penalty",
    "-vm", "--vad-model", "-vt", "--vad-threshold", "-vspd", "--vad-min-speech-duration-ms",
    "-vsd", "--vad-min-silence-duration-ms", "-vmsd", "--vad-max-speech-duration-s", "-vp",
    "--vad-speech-pad-ms", "-vo", "--vad-samples-overlap",
];

/// Whether an option takes a value.
pub open spec fn takes_value(opt: Seq<char>) -> bool {
    exists|i: int| 0 <= i < VALUE_OPTS@.len() && (#[trigger] VALUE_OPTS@[i])@ == opt
}

pub fn opt_takes_value(opt: &str) -> (r: bool)
    ensures
        r == takes_value(opt@),
{
    for i in 0..VALUE_OPTS.len()
        invariant
            forall|j: int| 0 <= j < i ==> (#[trigger] VALUE_OPTS@[j])@ != opt@,
    {
        let known: &'static str = VALUE_OPTS[i];
        if same_str(known, opt) {
            assert(VALUE_OPTS@[i as int]@ == opt@);
            return true;
        }
    }
    false
}

/// What the command line asks for.
#[derive(Debug)]
pub struct Args {
    pub files: Vec<String>,
    pub language: Option<String>,
    pub output_prefix: Option<String>,
    pub out_txt: bool,
    pub out_srt: bool,
    pub out_vtt: bool,
    pub out_json: bool,
    pub out_json_full: bool,
    pub out_lrc: bool,
    pub out_csv: bool,
    pub offset_ms: i64,
    pub translate: bool,
    pub no_timestamps: bool,
    pub no_prints: bool,
    pub prompt: Option<String>,
    pub help: bool,
}

pub struct ArgsView {
    pub files: Seq<Seq<char>>,
    pub language: Option<Seq<char>>,
    pub output_prefix: Option<Seq<char>>,
    pub out_txt: bool,
    pub out_srt: bool,
    pub out_vtt: bool,
    pub out_json: bool,
    pub out_json_full: bool,
    pub out_lrc: bool,
    pub out_csv: bool,
    pub offset_ms: i64,
    pub translate: bool,
    pub no_timestamps: bool,
    pub no_prints: bool,
    pub prompt: Option<Seq<char>>,
    pub help: bool,
}

/// What a list of strings holds.
pub open spec fn texts_of(strings: Seq<String>) -> Seq<Seq<char>> {
    Seq::new(strings.len(), |i: int| strings[i]@)
}

impl View for Args {
    type V = ArgsView;

    open spec fn view(&self) -> ArgsView {
        ArgsView {
            files: texts_of(self.files@),
            language: text_of(self.language),
            output_prefix: text_of(self.output_prefix),
            out_txt: self.out_txt,
            out_srt: self.out_srt,
            out_vtt: self.out_vtt,
            out_json: self.out_json,
            out_json_full: self.out_json_full,
            out_lrc: self.out_lrc,
            out_csv: self.out_csv,
            offset_ms: self.offset_ms,
            translate: self.translate,
            no_timestamps: self.no_timestamps,
            no_prints: self.no_prints,
            prompt: text_of(self.prompt),
            help: self.help,
        }
    }
}

/// What an empty command line asks for.
pub open spec fn no_args() -> ArgsView {
    ArgsView {
        files: seq![],
        language: None,
        output_prefix: None,
        out_txt: false,
        out_srt: false,
        out_vtt: false,
        out_json: false,
        out_json_full: false,
        out_lrc: false,
        out_csv: false,
        offset_ms: 0,
        translate: false,
        no_timestamps: false,
        no_prints: false,
        prompt: None,
        help: false,
    }
}

impl Default for Args {
    fn default() -> (r: Args)
        ensures
            r@ == no_args(),
    {
        let r = Args {
            files: Vec::new(),
            language: None,
            output_prefix: None,
            out_txt: false,
            out_srt: false,
            out_vtt: false,
            out_json: false,
            out_json_full: false,
            out_lrc: false,
            out_csv: false,
            offset_ms: 0,
            translate: false,
            no_timestamps: false,
            no_prints: false,
            prompt: None,
            help: false,
        };
        assert(texts_of(r.files@) =~= Seq::<Seq<char>>::empty());
        r
    }
}

/// The options without a value.
#[derive(Clone, Copy)]
pub enum Flag {
    Help,
    Txt,
    Srt,
    Vtt,
    Json,
    JsonFull,
    Lrc,
    Csv,
    Translate,
    NoTimestamps,
    NoPrints,
}

/// The options that the proxy heeds.
#[derive(Clone, Copy)]
pub enum Switch {
    Flag(Flag),
    File,
    Language,
    OutputFile,
    Offset,
    Prompt,
    Other,
}

/// The option that an argument names.
pub open spec fn switch_of(arg: Seq<char>) -> Switch {
    if arg == "-h"@ || arg == "--help"@ {
        Switch::Flag(Flag::Help)
    } else if arg == "-f"@ || arg == "--file"@ {
        Switch::File
    } else if arg == "-l"@ || arg == "--language"@ {
        Switch::Language
    } else if arg == "-of"@ || arg == "--output-file"@ {
        Switch::OutputFile
    } else if arg == "-otxt"@ || arg == "--output-txt"@ {
        Switch::Flag(Flag::Txt)
    } else if arg == "-osrt"@ || arg == "--output-srt"@ {
        Switch::Flag(Flag::Srt)
    } else if arg == "-ovtt"@ || arg == "--output-vtt"@ {
        Switch::Flag(Flag::Vtt)
    } else if arg == "-oj"@ || arg == "--output-json"@ {
        Switch::Flag(Flag::Json)
    } else if arg == "-ojf"@ || arg == "--output-json-full"@ {
        Switch::Flag(Flag::JsonFull)
    } else if arg == "-olrc"@ || arg == "--output-lrc"@ {
        Switch::Flag(Flag::Lrc)
    } else if arg == "-ocsv"@ || arg == "--output-csv"@ {
        Switch::Flag(Flag::Csv)
    } else if arg == "-tr"@ || arg == "--translate"@ {
        Switch::Flag(Flag::Translate)
    } else if arg == "-nt"@ || arg == "--no-timestamps"@ {
        Switch::Flag(Flag::NoTimestamps)
    } else if arg == "-np"@ || arg == "--no-prints"@ {
        Switch::Flag(Flag::NoPrints)
    } else if arg == "-ot"@ || arg == "--offset-t"@ {
        Switch::Offset
    } else if arg == "--prompt"@ {
        Switch::Prompt
    } else {
        Switch::Other
    }
}

fn either(arg: &str, short: &str, long: &str) -> (r: bool)
    ensures
        r == (arg@ == short@ || arg@ == long@),
{
    same_str(arg, short) || same_str(arg, long)
}

pub fn to_switch(arg: &str) -> (r: Switch)
    ensures
        r == switch_of(arg@),
{
    if either(arg, "-h", "--help") {
        Switch::Flag(Flag::Help)
    } else if either(arg, "-f", "--file") {
        Switch::File
    } else if either(arg, "-l", "--language") {
        Switch::Language
    } else if either(arg, "-of", "--output-file") {
        Switch::OutputFile
    } else if either(arg, "-otxt", "--output-txt") {
        Switch::Flag(Flag::Txt)
    } else if either(arg, "-osrt", "--output-srt") {
        Switch::Flag(Flag::Srt)
    } else if either(arg, "-ovtt", "--output-vtt") {
        Switch::Flag(Flag::Vtt)
    } else if either(arg, "-oj", "--output-json") {
        Switch::Flag(Flag::Json)
    } else if either(arg, "-ojf", "--output-json-full") {
        Switch::Flag(Flag::JsonFull)
    } else if either(arg, "-olrc", "--output-lrc") {
        Switch::Flag(Flag::Lrc)
    } else if either(arg, "-ocsv", "--output-csv") {
        Switch::Flag(Flag::Csv)
    } else if either(arg, "-tr", "--translate") {
        Switch::Flag(Flag::Translate)
    } else if either(arg, "-nt", "--no-timestamps") {
        Switch::Flag(Flag::NoTimestamps)
    } else if either(arg, "-np", "--no-prints") {
        Switch::Flag(Flag::NoPrints)
    } else if either(arg, "-ot", "--offset-t") {
        Switch::Offset
    } else if same_str(arg, "--prompt") {
        Switch::Prompt
    } else {
        Switch::Other
    }
}

/// An offset as it is written; zero where it cannot be read.
pub open spec fn offset_of(text: Seq<char>) -> i64 {
    match within(signed_value(text), i64::MIN as int, i64::MAX as int) {
        Some(n) => n as i64,
        None => 0,
    }
}

impl ArgsView {
    /// The arguments with an option set.
    pub open spec fn flagged(self, flag: Flag) -> ArgsView {
        match flag {
            Flag::Help => ArgsView { help: true, ..self },
            Flag::Txt => ArgsView { out_txt: true, ..self },
            Flag::Srt => ArgsView { out_srt: true, ..self },
            Flag::Vtt => ArgsView { out_vtt: true, ..self },
            Flag::Json => ArgsView { out_json: true, ..self },
            Flag::JsonFull => ArgsView { out_json_full: true, ..self },
            Flag::Lrc => ArgsView { out_lrc: true, ..self },
            Flag::Csv => ArgsView { out_csv: true, ..self },
            Flag::Translate => ArgsView { translate: true, ..self },
            Flag::NoTimestamps => ArgsView { no_timestamps: true, ..self },
            Flag::NoPrints => ArgsView { no_prints: true, ..self },
        }
    }
}

impl ArgsView {
    /// The arguments with an option set to a value.
    pub open spec fn valued(self, switch: Switch, value: Seq<char>) -> ArgsView {
        match switch {
            Switch::File => ArgsView { files: self.files.push(value), ..self },
            Switch::Language => ArgsView { language: Some(value), ..self },
            Switch::OutputFile => ArgsView { output_prefix: Some(value), ..self },
            Switch::Offset => ArgsView { offset_ms: offset_of(value), ..self },
            Switch::Prompt => ArgsView { prompt: Some(value), ..self },
            _ => self,
        }
    }
}

/// What an argument adds, and how many arguments it takes with it. An option that is
/// not heeded is passed over with its value; what is no option is an input file, if a
/// file of that name exists.
pub open spec fn take_arg(
    a: ArgsView,
    arg: Seq<char>,
    value: Option<Seq<char>>,
    exists_as_file: bool,
) -> (ArgsView, int) {
    match switch_of(arg) {
        Switch::Flag(flag) => (a.flagged(flag), 1),
        Switch::Other => if arg.len() > 0 && arg[0] == '-' {
            (
                a,
                if takes_value(arg) {
                    2
                } else {
                    1
                },
            )
        } else if exists_as_file {
            (ArgsView { files: a.files.push(arg), ..a }, 1)
        } else {
            (a, 1)
        },
        switch => match value {
            Some(v) => (a.valued(switch, v), 2),
            None => (a, 1),
        },
    }
}

/// What the arguments from the `i`-th on add.
pub open spec fn args_from(
    a: ArgsView,
    raw: Seq<Seq<char>>,
    existing: Seq<bool>,
    i: int,
) -> ArgsView
    decreases
            if i < raw.len() {
                raw.len() - i
            } else {
                0
            },
{
    if i < 0 || i >= raw.len() {
        a
    } else {
        let (next, taken) = take_arg(
            a,
            raw[i],
            if i + 1 < raw.len() {
                Some(raw[i + 1])
            } else {
                None
            },
            i < existing.len() && existing[i],
        );
        args_from(
            next,
            raw,
            existing,
            i + if taken == 2 {
                2
            } else {
                1int
            },
        )
    }
}

fn read_offset(text: &String) -> (r: i64)
    ensures
        r == offset_of(text@),
{
    match read_signed(chars_of(text.as_str()).as_slice()) {
        Some(n) => n,
        None => 0,
    }
}

#[verifier::spinoff_prover]
fn with_flag(a: Args, flag: Flag) -> (r: Args)
    ensures
        r@ == a@.flagged(flag),
{
    match flag {
        Flag::Help => Args { help: true, ..a },
        Flag::Txt => Args { out_txt: true, ..a },
        Flag::Srt => Args { out_srt: true, ..a },
        Flag::Vtt => Args { out_vtt: true, ..a },
        Flag::Json => Args { out_json: true, ..a },
        Flag::JsonFull => Args { out_json_full: true, ..a },
        Flag::Lrc => Args { out_lrc: true, ..a },
        Flag::Csv => Args { out_csv: true, ..a },
        Flag::Translate => Args { translate: true, ..a },
        Flag::NoTimestamps => Args { no_timestamps: true, ..a },
        Flag::NoPrints => Args { no_prints: true, ..a },
    }
}

fn with_value(a: Args, switch: Switch, v: &String) -> (r: Args)
    ensures
        r@ == a@.valued(switch, v@),
{
    match switch {
        Switch::File => with_file(a, v),
        Switch::Language => Args { language: Some(v.clone()), ..a },
        Switch::OutputFile => Args { output_prefix: Some(v.clone()), ..a },
        Switch::Offset => Args { offset_ms: read_offset(v), ..a },
        Switch::Prompt => Args { prompt: Some(v.clone()), ..a },
        _ => a,
    }
}

/// What an argument adds, and how many arguments it takes with it.
fn take(a: Args, arg: &String, value: Option<&String>, exists_as_file: bool) -> (r: (Args, usize))
    ensures
        (r.0@, r.1 as int) == take_arg(
            a@,
            arg@,
            match value {
                Some(v) => Some(v@),
                None => None,
            },
            exists_as_file,
        ),
{
    match to_switch(arg.as_str()) {
        Switch::Flag(flag) => (with_flag(a, flag), 1),
        Switch::Other => {
            let cs = chars_of(arg.as_str());
            if cs.len() > 0 && cs[0] == '-' {
                if opt_takes_value(arg.as_str()) {
                    (a, 2)
                } else {
                    (a, 1)
                }
            } else if exists_as_file {
                (with_file(a, arg), 1)
            } else {
                (a, 1)
            }
        },
        switch => match value {
            Some(v) => (with_value(a, switch, v), 2),
            None => (a, 1),
        },
    }
}

fn with_file(a: Args, file: &String) -> (r: Args)
    ensures
        r@ == (ArgsView { files: a@.files.push(file@), ..a@ }),
{
    let ghost before = a@.files;
    let mut files = a.files;
    files.push(file.clone());
    assert(texts_of(files@) =~= before.push(file@));
    Args { files, ..a }
}

/// Reads a command line without the program's name. `existing` says of each argument
/// whether a file of that name exists.
pub fn parse_args(raw: &[String], existing: &[bool]) -> (a: Args)
    ensures
        a@ == args_from(no_args(), texts_of(raw@), existing@, 0),
{
    let mut a = Args::default();
    let mut i: usize = 0;
    let ghost texts = texts_of(raw@);
    while i < raw.len()
        invariant
            texts == texts_of(raw@),
            args_from(a@, texts, existing@, i as int) == args_from(no_args(), texts, existing@, 0),
        decreases raw.len() - i,
    {
        let value = if raw.len() - i > 1 {
            Some(&raw[i + 1])
        } else {
            None
        };
        let (next, taken) = take(a, &raw[i], value, i < existing.len() && existing[i]);
        a = next;
        if taken == 2 && raw.len() - i == 1 {
            assert(args_from(a@, texts, existing@, i + 2) == a@);
            return a;
        }
        i = if taken == 2 {
            i + 2
        } else {
            i + 1
        };
    }
    a
}

/// An option that is not heeded is passed over, together with its value if it takes one.
pub proof fn unheeded_option_is_passed_over(
    a: ArgsView,
    raw: Seq<Seq<char>>,
    existing: Seq<bool>,
    i: int,
)
    requires
        0 <= i < raw.len(),
        switch_of(raw[i]) == Switch::Other,
        raw[i].len() > 0,
        raw[i][0] == '-',
    ensures
        args_from(a, raw, existing, i) == args_from(
            a,
            raw,
            existing,
            i + if takes_value(raw[i]) {
                2
            } else {
                1int
            },
        ),
{
}

/// An argument that is no option adds an input file exactly if a file of that name exists.
pub proof fn plain_argument_is_a_file_if_it_exists(
    a: ArgsView,
    raw: Seq<Seq<char>>,
    existing: Seq<bool>,
    i: int,
)
    requires
        0 <= i < raw.len(),
        i < existing.len(),
        switch_of(raw[i]) == Switch::Other,
        raw[i].len() == 0 || raw[i][0] != '-',
    ensures
        args_from(a, raw, existing, i) == args_from(
            if existing[i] {
                ArgsView { files: a.files.push(raw[i]), ..a }
            } else {
                a
            },
            raw,
            existing,
            i + 1,
        ),
{
}

/// What the arguments from an index on add depends on them alone.
proof fn only_later_arguments_count(
    a: ArgsView,
    x: Seq<Seq<char>>,
    y: Seq<Seq<char>>,
    existing: Seq<bool>,
    i: int,
)
    requires
        x.len() == y.len(),
        0 <= i,
        forall|k: int| i <= k < x.len() ==> #[trigger] x[k] == y[k],
    ensures
        args_from(a, x, existing, i) == args_from(a, y, existing, i),
    decreases
            if i < x.len() {
                x.len() - i
            } else {
                0
            },
{
    if i < x.len() {
        let value = if i + 1 < x.len() {
            Some(x[i + 1])
        } else {
            None
        };
        assert(x[i] == y[i]);
        assert(i + 1 < x.len() ==> x[i + 1] == y[i + 1]);
        let (next, taken) = take_arg(a, x[i], value, i < existing.len() && existing[i]);
        only_later_arguments_count(
            next,
            x,
            y,
            existing,
            i + if taken == 2 {
                2
            } else {
                1int
            },
        );
    }
}

/// Two spellings of an option that is heeded are one: it does not matter which is written.
pub proof fn spellings_are_one(
    a: ArgsView,
    raw: Seq<Seq<char>>,
    existing: Seq<bool>,
    i: int,
    other: Seq<char>,
)
    requires
        0 <= i < raw.len(),
        switch_of(raw[i]) == switch_of(other),
        switch_of(other) != Switch::Other,
    ensures
        args_from(a, raw, existing, i) == args_from(a, raw.update(i, other), existing, i),
{
    let y = raw.update(i, other);
    let value = if i + 1 < raw.len() {
        Some(raw[i + 1])
    } else {
        None
    };
    let (next, taken) = take_arg(a, raw[i], value, i < existing.len() && existing[i]);
    only_later_arguments_count(
        next,
        raw,
        y,
        existing,
        i + if taken == 2 {
            2
        } else {
            1int
        },
    );
}

/// Whether two spellings name an option.
pub open spec fn both_name(short: Seq<char>, long: Seq<char>, switch: Switch) -> bool {
    switch_of(short) == switch && switch_of(long) == switch
}

/// The short and the long spelling of each option.
#[verifier::spinoff_prover]
pub proof fn short_and_long_are_one()
    ensures
        both_name("-h"@, "--help"@, Switch::Flag(Flag::Help)),
        both_name("-f"@, "--file"@, Switch::File),
        both_name("-l"@, "--language"@, Switch::Language),
        both_name("-of"@, "--output-file"@, Switch::OutputFile),
        both_name("-otxt"@, "--output-txt"@, Switch::Flag(Flag::Txt)),
        both_name("-osrt"@, "--output-srt"@, Switch::Flag(Flag::Srt)),
        both_name("-ovtt"@, "--output-vtt"@, Switch::Flag(Flag::Vtt)),
        both_name("-oj"@, "--output-json"@, Switch::Flag(Flag::Json)),
        both_name("-ojf"@, "--output-json-full"@, Switch::Flag(Flag::JsonFull)),
        both_name("-olrc"@, "--output-lrc"@, Switch::Flag(Flag::Lrc)),
        both_name("-ocsv"@, "--output-csv"@, Switch::Flag(Flag::Csv)),
        both_name("-tr"@, "--translate"@, Switch::Flag(Flag::Translate)),
        both_name("-nt"@, "--no-timestamps"@, Switch::Flag(Flag::NoTimestamps)),
        both_name("-np"@, "--no-prints"@, Switch::Flag(Flag::NoPrints)),
        both_name("-ot"@, "--offset-t"@, Switch::Offset),
{
    reveal_strlit("-h");
    reveal_strlit("--help");
    reveal_strlit("-f");
    reveal_strlit("--file");
    reveal_strlit("-l");
    reveal_strlit("--language");
    reveal_strlit("-of");
    reveal_strlit("--output-file");
    reveal_strlit("-otxt");
    reveal_strlit("--output-txt");
    reveal_strlit("-osrt");
    reveal_strlit("--output-srt");
    reveal_strlit("-ovtt");
    reveal_strlit("--output-vtt");
    reveal_strlit("-oj");
    reveal_strlit("--output-json");
    reveal_strlit("-ojf");
    reveal_strlit("--output-json-full");
    reveal_strlit("-olrc");
    reveal_strlit("--output-lrc");
    reveal_strlit("-ocsv");
    reveal_strlit("--output-csv");
    reveal_strlit("-tr");
    reveal_strlit("--translate");
    reveal_strlit("-nt");
    reveal_strlit("--no-timestamps");
    reveal_strlit("-np");
    reveal_strlit("--no-prints");
    reveal_strlit("-ot");
    reveal_strlit("--offset-t");
    assert("-h"@.len() == 2);
    assert("--help"@.len() == 6);
    assert("-f"@.len() == 2);
    assert("--file"@.len() == 6);
    assert("-l"@.len() == 2);
    assert("--language"@.len() == 10);
    assert("-of"@.len() == 3);
    assert("--output-file"@.len() == 13);
    assert("-otxt"@.len() == 5);
    assert("--output-txt"@.len() == 12);
    assert("-osrt"@.len() == 5);
    assert("--output-srt"@.len() == 12);
    assert("-ovtt"@.len() == 5);
    assert("--output-vtt"@.len() == 12);
    assert("-oj"@.len() == 3);
    assert("--output-json"@.len() == 13);
    assert("-ojf"@.len() == 4);
    assert("--output-json-full"@.len() == 18);
    assert("-olrc"@.len() == 5);
    assert("--output-lrc"@.len() == 12);
    assert("-ocsv"@.len() == 5);
    assert("--output-csv"@.len() == 12);
    assert("-tr"@.len() == 3);
    assert("--translate"@.len() == 11);
    assert("-nt"@.len() == 3);
    assert("--no-timestamps"@.len() == 15);
    assert("-np"@.len() == 3);
    assert("--no-prints"@.len() == 11);
    assert("-ot"@.len() == 3);
    assert("--offset-t"@.len() == 10);
    // Those of one length differ in these characters.
    assert("-h"@[1] == 'h');
    assert("-f"@[1] == 'f');
    assert("-l"@[1] == 'l');
    assert("-of"@[1] == 'o' && "-of"@[2] == 'f');
    assert("-oj"@[1] == 'o' && "-oj"@[2] == 'j');
    assert("-tr"@[1] == 't');
    assert("-nt"@[1] == 'n' && "-nt"@[2] == 't');
    assert("-np"@[1] == 'n' && "-np"@[2] == 'p');
    assert("-ot"@[1] == 'o' && "-ot"@[2] == 't');
    assert("-otxt"@[2] == 't');
    assert("-osrt"@[2] == 's');
    assert("-ovtt"@[2] == 'v');
    assert("-olrc"@[2] == 'l');
    assert("-ocsv"@[2] == 'c');
    assert("--help"@[2] == 'h');
    assert("--file"@[2] == 'f');
    assert("--language"@[2] == 'l');
    assert("--offset-t"@[2] == 'o');
    assert("--translate"@[2] == 't');
    assert("--no-prints"@[2] == 'n');
    assert("--output-txt"@[9] == 't');
    assert("--output-srt"@[9] == 's');
    assert("--output-vtt"@[9] == 'v');
    assert("--output-lrc"@[9] == 'l');
    assert("--output-csv"@[9] == 'c');
    assert("--output-file"@[9] == 'f');
    assert("--output-json"@[9] == 'j');
}

impl ArgsView {
    /// Whether the arguments hold all files and flags of others.
    pub open spec fn extends(self, other: ArgsView) -> bool {
        &&& other.files.is_prefix_of(self.files)
        &&& other.out_txt ==> self.out_txt
        &&& other.out_srt ==> self.out_srt
        &&& other.out_vtt ==> self.out_vtt
        &&& other.out_json ==> self.out_json
        &&& other.out_json_full ==> self.out_json_full
        &&& other.out_lrc ==> self.out_lrc
        &&& other.out_csv ==> self.out_csv
        &&& other.translate ==> self.translate
        &&& other.no_timestamps ==> self.no_timestamps
        &&& other.no_prints ==> self.no_prints
        &&& other.help ==> self.help
    }
}

proof fn extending_goes_on(a: ArgsView, b: ArgsView, c: ArgsView)
    requires
        b.extends(a),
        c.extends(b),
    ensures
        c.extends(a),
{
    assert(a.files =~= c.files.subrange(0, a.files.len() as int));
}

#[verifier::spinoff_prover]
proof fn an_argument_only_adds(
    a: ArgsView,
    arg: Seq<char>,
    value: Option<Seq<char>>,
    exists_as_file: bool,
)
    ensures
        take_arg(a, arg, value, exists_as_file).0.extends(a),
{
    assert(a.files =~= a.files.subrange(0, a.files.len() as int));
    assert(a.files =~= a.files.push(arg).subrange(0, a.files.len() as int));
    if let Some(v) = value {
        assert(a.files =~= a.files.push(v).subrange(0, a.files.len() as int));
    }
}

proof fn arguments_only_add(a: ArgsView, raw: Seq<Seq<char>>, existing: Seq<bool>, i: int)
    requires
        0 <= i,
    ensures
        args_from(a, raw, existing, i).extends(a),
    decreases
            if i < raw.len() {
                raw.len() - i
            } else {
                0
            },
{
    if i < raw.len() {
        let value = if i + 1 < raw.len() {
            Some(raw[i + 1])
        } else {
            None
        };
        let there = i < existing.len() && existing[i];
        let (next, taken) = take_arg(a, raw[i], value, there);
        let step = if taken == 2 {
            2
        } else {
            1int
        };
        an_argument_only_adds(a, raw[i], value, there);
        arguments_only_add(next, raw, existing, i + step);
        extending_goes_on(a, next, args_from(next, raw, existing, i + step));
    } else {
        assert(a.files =~= a.files.subrange(0, a.files.len() as int));
    }
}

/// More arguments only add files and flags: a longer command line asks for all files and
/// flags that its start asks for.
pub proof fn more_arguments_only_add(
    a: ArgsView,
    raw: Seq<Seq<char>>,
    existing: Seq<bool>,
    more: Seq<Seq<char>>,
    more_existing: Seq<bool>,
    i: int,
)
    requires
        0 <= i,
        existing.len() == raw.len(),
    ensures
        args_from(a, raw + more, existing + more_existing, i).extends(
            args_from(a, raw, existing, i),
        ),
    decreases raw.len() - i,
{
    let long = raw + more;
    let there = existing + more_existing;
    if i >= raw.len() {
        arguments_only_add(a, long, there, i);
    } else {
        let arg = raw[i];
        assert(long[i] == arg);
        assert(there[i] == existing[i]);
        let value = if i + 1 < raw.len() {
            Some(raw[i + 1])
        } else {
            None
        };
        let (next, taken) = take_arg(a, arg, value, existing[i]);
        let step = if taken == 2 {
            2
        } else {
            1int
        };
        if i + 1 < raw.len() {
            assert(long[i + 1] == raw[i + 1]);
            more_arguments_only_add(next, raw, existing, more, more_existing, i + step);
        } else {
            // The last argument may find its value only in the longer line.
            let later = if i + 1 < long.len() {
                Some(long[i + 1])
            } else {
                None
            };
            let (now, taken_now) = take_arg(a, arg, later, existing[i]);
            last_argument_adds_more(a, arg, later, existing[i]);
            let rest = i + if taken_now == 2 {
                2
            } else {
                1int
            };
            arguments_only_add(now, long, there, rest);
            extending_goes_on(next, now, args_from(now, long, there, rest));
            assert(args_from(next, raw, existing, i + step) == next);
        }
    }
}

#[verifier::spinoff_prover]
proof fn last_argument_adds_more(
    a: ArgsView,
    arg: Seq<char>,
    value: Option<Seq<char>>,
    exists_as_file: bool,
)
    ensures
        take_arg(a, arg, value, exists_as_file).0.extends(
            take_arg(a, arg, None, exists_as_file).0,
        ),
{
    let bare = take_arg(a, arg, None, exists_as_file).0;
    assert(bare.files =~= bare.files.subrange(0, bare.files.len() as int));
    if let Some(v) = value {
        assert(a.files =~= a.files.push(v).subrange(0, a.files.len() as int));
    }
}

} // verus!
