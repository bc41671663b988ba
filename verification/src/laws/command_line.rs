//! whisper.cpp's command line, option by option.
use crate::args::{
    args_from, no_args, offset_of, short_and_long_are_one, switch_of, takes_value, texts_of, Args, ArgsView, Switch,
    VALUE_OPTS,
};
use crate::config::text_of;
use crate::number::{signed_decimal, signed_decimal_reads_back, signed_value};
use vstd::prelude::*;

verus! {

/// What an empty command line asks for: no files, no outputs, no offset, nothing else.
pub proof fn nothing_is_asked_for()
    ensures
        no_args().files.len() == 0,
        no_args().language is None && no_args().output_prefix is None && no_args().prompt is None,
        !no_args().out_txt && !no_args().out_srt && !no_args().out_vtt && !no_args().out_json
            && !no_args().out_json_full && !no_args().out_lrc && !no_args().out_csv,
        no_args().offset_ms == 0,
        !no_args().translate && !no_args().no_timestamps && !no_args().no_prints && !no_args().help,
{
}

/// Behind the last argument nothing more is read.
pub proof fn reading_ends_with_the_line(
    a: ArgsView,
    raw: Seq<Seq<char>>,
    existing: Seq<bool>,
    i: int,
)
    requires
        i >= raw.len(),
    ensures
        args_from(a, raw, existing, i) == a,
{
}

/// An option without a value sets its own field and no other, and the next argument is read.
#[verifier::spinoff_prover]
pub proof fn a_flag_sets_its_own_field(
    a: ArgsView,
    raw: Seq<Seq<char>>,
    existing: Seq<bool>,
    i: int,
)
    requires
        0 <= i < raw.len(),
    ensures
        raw[i] == "-h"@ || raw[i] == "--help"@ ==> args_from(a, raw, existing, i) == args_from(
            ArgsView { help: true, ..a },
            raw,
            existing,
            i + 1,
        ),
        raw[i] == "-otxt"@ || raw[i] == "--output-txt"@ ==> args_from(a, raw, existing, i) == args_from(
            ArgsView { out_txt: true, ..a },
            raw,
            existing,
            i + 1,
        ),
        raw[i] == "-osrt"@ || raw[i] == "--output-srt"@ ==> args_from(a, raw, existing, i) == args_from(
            ArgsView { out_srt: true, ..a },
            raw,
            existing,
            i + 1,
        ),
        raw[i] == "-ovtt"@ || raw[i] == "--output-vtt"@ ==> args_from(a, raw, existing, i) == args_from(
            ArgsView { out_vtt: true, ..a },
            raw,
            existing,
            i + 1,
        ),
        raw[i] == "-oj"@ || raw[i] == "--output-json"@ ==> args_from(a, raw, existing, i) == args_from(
            ArgsView { out_json: true, ..a },
            raw,
            existing,
            i + 1,
        ),
        raw[i] == "-ojf"@ || raw[i] == "--output-json-full"@ ==> args_from(a, raw, existing, i) == args_from(
            ArgsView { out_json_full: true, ..a },
            raw,
            existing,
            i + 1,
        ),
        raw[i] == "-olrc"@ || raw[i] == "--output-lrc"@ ==> args_from(a, raw, existing, i) == args_from(
            ArgsView { out_lrc: true, ..a },
            raw,
            existing,
            i + 1,
        ),
        raw[i] == "-ocsv"@ || raw[i] == "--output-csv"@ ==> args_from(a, raw, existing, i) == args_from(
            ArgsView { out_csv: true, ..a },
            raw,
            existing,
            i + 1,
        ),
        raw[i] == "-tr"@ || raw[i] == "--translate"@ ==> args_from(a, raw, existing, i) == args_from(
            ArgsView { translate: true, ..a },
            raw,
            existing,
            i + 1,
        ),
        raw[i] == "-nt"@ || raw[i] == "--no-timestamps"@ ==> args_from(a, raw, existing, i) == args_from(
            ArgsView { no_timestamps: true, ..a },
            raw,
            existing,
            i + 1,
        ),
        raw[i] == "-np"@ || raw[i] == "--no-prints"@ ==> args_from(a, raw, existing, i) == args_from(
            ArgsView { no_prints: true, ..a },
            raw,
            existing,
            i + 1,
        ),
{
    short_and_long_are_one();
}

/// An option with a value sets its own field to the argument behind it and no other field,
/// and the argument behind that is read next. A file is added to those before it.
#[verifier::spinoff_prover]
pub proof fn an_option_takes_its_value(
    a: ArgsView,
    raw: Seq<Seq<char>>,
    existing: Seq<bool>,
    i: int,
)
    requires
        0 <= i,
        i + 1 < raw.len(),
    ensures
        raw[i] == "-f"@ || raw[i] == "--file"@ ==> args_from(a, raw, existing, i) == args_from(
            ArgsView { files: a.files + seq![raw[i + 1]], ..a },
            raw,
            existing,
            i + 2,
        ),
        raw[i] == "-l"@ || raw[i] == "--language"@ ==> args_from(a, raw, existing, i) == args_from(
            ArgsView { language: Some(raw[i + 1]), ..a },
            raw,
            existing,
            i + 2,
        ),
        raw[i] == "-of"@ || raw[i] == "--output-file"@ ==> args_from(a, raw, existing, i) == args_from(
            ArgsView { output_prefix: Some(raw[i + 1]), ..a },
            raw,
            existing,
            i + 2,
        ),
        raw[i] == "-ot"@ || raw[i] == "--offset-t"@ ==> args_from(a, raw, existing, i) == args_from(
            ArgsView { offset_ms: offset_of(raw[i + 1]), ..a },
            raw,
            existing,
            i + 2,
        ),
        raw[i] == "--prompt"@ ==> args_from(a, raw, existing, i) == args_from(
            ArgsView { prompt: Some(raw[i + 1]), ..a },
            raw,
            existing,
            i + 2,
        ),
{
    short_and_long_are_one();
    prompt_is_an_option();
    assert(a.files.push(raw[i + 1]) =~= a.files + seq![raw[i + 1]]);
}

proof fn prompt_is_an_option()
    ensures
        switch_of("--prompt"@) == Switch::Prompt,
{
    reveal_strlit("--file");
    reveal_strlit("--help");
    reveal_strlit("--language");
    reveal_strlit("--no-prints");
    reveal_strlit("--no-timestamps");
    reveal_strlit("--offset-t");
    reveal_strlit("--output-csv");
    reveal_strlit("--output-file");
    reveal_strlit("--output-json");
    reveal_strlit("--output-json-full");
    reveal_strlit("--output-lrc");
    reveal_strlit("--output-srt");
    reveal_strlit("--output-txt");
    reveal_strlit("--output-vtt");
    reveal_strlit("--prompt");
    reveal_strlit("--translate");
    reveal_strlit("-f");
    reveal_strlit("-h");
    reveal_strlit("-l");
    reveal_strlit("-np");
    reveal_strlit("-nt");
    reveal_strlit("-ocsv");
    reveal_strlit("-of");
    reveal_strlit("-oj");
    reveal_strlit("-ojf");
    reveal_strlit("-olrc");
    reveal_strlit("-osrt");
    reveal_strlit("-ot");
    reveal_strlit("-otxt");
    reveal_strlit("-ovtt");
    reveal_strlit("-tr");
    assert("--file"@.len() == 6);
    assert("--help"@.len() == 6);
    assert("--language"@.len() == 10);
    assert("--no-prints"@.len() == 11);
    assert("--no-timestamps"@.len() == 15);
    assert("--offset-t"@.len() == 10);
    assert("--output-csv"@.len() == 12);
    assert("--output-file"@.len() == 13);
    assert("--output-json"@.len() == 13);
    assert("--output-json-full"@.len() == 18);
    assert("--output-lrc"@.len() == 12);
    assert("--output-srt"@.len() == 12);
    assert("--output-txt"@.len() == 12);
    assert("--output-vtt"@.len() == 12);
    assert("--prompt"@.len() == 8);
    assert("--translate"@.len() == 11);
    assert("-f"@.len() == 2);
    assert("-h"@.len() == 2);
    assert("-l"@.len() == 2);
    assert("-np"@.len() == 3);
    assert("-nt"@.len() == 3);
    assert("-ocsv"@.len() == 5);
    assert("-of"@.len() == 3);
    assert("-oj"@.len() == 3);
    assert("-ojf"@.len() == 4);
    assert("-olrc"@.len() == 5);
    assert("-osrt"@.len() == 5);
    assert("-ot"@.len() == 3);
    assert("-otxt"@.len() == 5);
    assert("-ovtt"@.len() == 5);
    assert("-tr"@.len() == 3);
}

/// An option at the end of the line, without its value, is passed over.
#[verifier::spinoff_prover]
pub proof fn an_option_without_its_value(a: ArgsView, raw: Seq<Seq<char>>, existing: Seq<bool>)
    requires
        raw.len() > 0,
        raw.last() == "-f"@ || raw.last() == "--file"@ || raw.last() == "-l"@ || raw.last()
            == "--language"@ || raw.last() == "-of"@ || raw.last() == "--output-file"@
            || raw.last() == "-ot"@ || raw.last() == "--offset-t"@ || raw.last() == "--prompt"@,
    ensures
        args_from(a, raw, existing, raw.len() - 1) == a,
{
    short_and_long_are_one();
    prompt_is_an_option();
    assert(args_from(a, raw, existing, raw.len() as int) == a);
}

/// Any other argument: with a hyphen before it, it is passed over, together with the next
/// if it takes a value; without one, it is a file exactly if there is one of that name.
#[verifier::spinoff_prover]
pub proof fn other_arguments(a: ArgsView, raw: Seq<Seq<char>>, existing: Seq<bool>, i: int)
    requires
        0 <= i < raw.len(),
        existing.len() == raw.len(),
        raw[i] != "--file"@,
        raw[i] != "--help"@,
        raw[i] != "--language"@,
        raw[i] != "--no-prints"@,
        raw[i] != "--no-timestamps"@,
        raw[i] != "--offset-t"@,
        raw[i] != "--output-csv"@,
        raw[i] != "--output-file"@,
        raw[i] != "--output-json"@,
        raw[i] != "--output-json-full"@,
        raw[i] != "--output-lrc"@,
        raw[i] != "--output-srt"@,
        raw[i] != "--output-txt"@,
        raw[i] != "--output-vtt"@,
        raw[i] != "--prompt"@,
        raw[i] != "--translate"@,
        raw[i] != "-f"@,
        raw[i] != "-h"@,
        raw[i] != "-l"@,
        raw[i] != "-np"@,
        raw[i] != "-nt"@,
        raw[i] != "-ocsv"@,
        raw[i] != "-of"@,
        raw[i] != "-oj"@,
        raw[i] != "-ojf"@,
        raw[i] != "-olrc"@,
        raw[i] != "-osrt"@,
        raw[i] != "-ot"@,
        raw[i] != "-otxt"@,
        raw[i] != "-ovtt"@,
        raw[i] != "-tr"@,
    ensures
        raw[i].len() > 0 && raw[i][0] == '-' && takes_value(raw[i]) ==> args_from(a, raw, existing, i)
            == args_from(a, raw, existing, i + 2),
        raw[i].len() > 0 && raw[i][0] == '-' && !takes_value(raw[i]) ==> args_from(a, raw, existing, i)
            == args_from(a, raw, existing, i + 1),
        !(raw[i].len() > 0 && raw[i][0] == '-') && !existing[i] ==> args_from(a, raw, existing, i)
            == args_from(a, raw, existing, i + 1),
        !(raw[i].len() > 0 && raw[i][0] == '-') && existing[i] ==> args_from(a, raw, existing, i)
            == args_from(ArgsView { files: a.files + seq![raw[i]], ..a }, raw, existing, i + 1),
{
    assert(a.files.push(raw[i]) =~= a.files + seq![raw[i]]);
}

/// An offset that is an integer of 64 bits is the offset; any other text is zero.
pub proof fn an_offset_is_an_integer(text: Seq<char>, n: i64)
    ensures
        offset_of(signed_decimal(n as int, 1)) == n,
        signed_value(text) matches Some(v) ==> i64::MIN <= v <= i64::MAX ==> offset_of(text) == v,
        signed_value(text) matches Some(v) ==> v < i64::MIN || v > i64::MAX ==> offset_of(text) == 0,
        signed_value(text) is None ==> offset_of(text) == 0,
{
    signed_decimal_reads_back(n as int, 1);
}

/// The options of whisper.cpp that take a value: these, and as many as these.
#[verifier::spinoff_prover]
pub proof fn the_options_that_take_a_value()
    ensures
        VALUE_OPTS@.len() == 67,
        VALUE_OPTS@[0]@ == "-t"@,
        VALUE_OPTS@[1]@ == "--threads"@,
        VALUE_OPTS@[2]@ == "-p"@,
        VALUE_OPTS@[3]@ == "--processors"@,
        VALUE_OPTS@[4]@ == "-ot"@,
        VALUE_OPTS@[5]@ == "--offset-t"@,
        VALUE_OPTS@[6]@ == "-on"@,
        VALUE_OPTS@[7]@ == "--offset-n"@,
        VALUE_OPTS@[8]@ == "-d"@,
        VALUE_OPTS@[9]@ == "--duration"@,
        VALUE_OPTS@[10]@ == "-mc"@,
        VALUE_OPTS@[11]@ == "--max-context"@,
        VALUE_OPTS@[12]@ == "-ml"@,
        VALUE_OPTS@[13]@ == "--max-len"@,
        VALUE_OPTS@[14]@ == "-bo"@,
        VALUE_OPTS@[15]@ == "--best-of"@,
        VALUE_OPTS@[16]@ == "-bs"@,
        VALUE_OPTS@[17]@ == "--beam-size"@,
        VALUE_OPTS@[18]@ == "-ac"@,
        VALUE_OPTS@[19]@ == "--audio-ctx"@,
        VALUE_OPTS@[20]@ == "-wt"@,
        VALUE_OPTS@[21]@ == "--word-thold"@,
        VALUE_OPTS@[22]@ == "-et"@,
        VALUE_OPTS@[23]@ == "--entropy-thold"@,
        VALUE_OPTS@[24]@ == "-lpt"@,
        VALUE_OPTS@[25]@ == "--logprob-thold"@,
        VALUE_OPTS@[26]@ == "-nth"@,
        VALUE_OPTS@[27]@ == "--no-speech-thold"@,
        VALUE_OPTS@[28]@ == "-tp"@,
        VALUE_OPTS@[29]@ == "--temperature"@,
        VALUE_OPTS@[30]@ == "-tpi"@,
        VALUE_OPTS@[31]@ == "--temperature-inc"@,
        VALUE_OPTS@[32]@ == "-fp"@,
        VALUE_OPTS@[33]@ == "--font-path"@,
        VALUE_OPTS@[34]@ == "-of"@,
        VALUE_OPTS@[35]@ == "--output-file"@,
        VALUE_OPTS@[36]@ == "-l"@,
        VALUE_OPTS@[37]@ == "--language"@,
        VALUE_OPTS@[38]@ == "--prompt"@,
        VALUE_OPTS@[39]@ == "-m"@,
        VALUE_OPTS@[40]@ == "--model"@,
        VALUE_OPTS@[41]@ == "-f"@,
        VALUE_OPTS@[42]@ == "--file"@,
        VALUE_OPTS@[43]@ == "-oved"@,
        VALUE_OPTS@[44]@ == "--ov-e-device"@,
        VALUE_OPTS@[45]@ == "-dtw"@,
        VALUE_OPTS@[46]@ == "--dtw"@,
        VALUE_OPTS@[47]@ == "-dev"@,
        VALUE_OPTS@[48]@ == "--device"@,
        VALUE_OPTS@[49]@ == "--suppress-regex"@,
        VALUE_OPTS@[50]@ == "--grammar"@,
        VALUE_OPTS@[51]@ == "--grammar-rule"@,
        VALUE_OPTS@[52]@ == "--grammar-penalty"@,
        VALUE_OPTS@[53]@ == "-vm"@,
        VALUE_OPTS@[54]@ == "--vad-model"@,
        VALUE_OPTS@[55]@ == "-vt"@,
        VALUE_OPTS@[56]@ == "--vad-threshold"@,
        VALUE_OPTS@[57]@ == "-vspd"@,
        VALUE_OPTS@[58]@ == "--vad-min-speech-duration-ms"@,
        VALUE_OPTS@[59]@ == "-vsd"@,
        VALUE_OPTS@[60]@ == "--vad-min-silence-duration-ms"@,
        VALUE_OPTS@[61]@ == "-vmsd"@,
        VALUE_OPTS@[62]@ == "--vad-max-speech-duration-s"@,
        VALUE_OPTS@[63]@ == "-vp"@,
        VALUE_OPTS@[64]@ == "--vad-speech-pad-ms"@,
        VALUE_OPTS@[65]@ == "-vo"@,
        VALUE_OPTS@[66]@ == "--vad-samples-overlap"@,
        forall|i: int| 0 <= i < VALUE_OPTS@.len() ==> takes_value(#[trigger] VALUE_OPTS@[i]@),
        forall|opt: Seq<char>|
            #[trigger] takes_value(opt) ==> exists|i: int|
                0 <= i < VALUE_OPTS@.len() && (#[trigger] VALUE_OPTS@[i])@ == opt,
{
}

/// The arguments are seen as they are.
pub proof fn arguments_are_seen_as_they_are(a: Args, strings: Seq<String>)
    ensures
        a@.files == texts_of(a.files@),
        a@.language == text_of(a.language) && a@.output_prefix == text_of(a.output_prefix)
            && a@.prompt == text_of(a.prompt),
        a@.out_txt == a.out_txt && a@.out_srt == a.out_srt && a@.out_vtt == a.out_vtt,
        a@.out_json == a.out_json && a@.out_json_full == a.out_json_full,
        a@.out_lrc == a.out_lrc && a@.out_csv == a.out_csv,
        a@.offset_ms == a.offset_ms && a@.translate == a.translate,
        a@.no_timestamps == a.no_timestamps && a@.no_prints == a.no_prints && a@.help == a.help,
        texts_of(strings).len() == strings.len(),
        forall|i: int| 0 <= i < strings.len() ==> #[trigger] texts_of(strings)[i] == strings[i]@,
{
}

/// An optional text is seen as it is.
pub proof fn optional_texts_are_seen_as_they_are(s: Option<String>)
    ensures
        s is None <==> text_of(s) is None,
        s matches Some(t) ==> text_of(s) == Some(t@),
{
}

} // verus!
