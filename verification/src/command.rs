//! Around one run of the tool: which filter its output goes through, and what
//! is printed and reported of it.

use crate::search::filter_search;
use crate::text::{join, trim};
use crate::trace::filter_trace;
use vstd::prelude::*;

verus! {

/// The text that bytes stand for, with replacement characters where they are
/// not UTF-8.
pub uninterp spec fn lossy_text(bytes: Seq<u8>) -> Seq<char>;

/// `String::from_utf8_lossy`: what it returns depends on the bytes alone, and
/// is the text that they encode where they are valid UTF-8. What stands in for
/// other bytes is left to the standard library.
#[verifier::external_body]
fn decode(bytes: &[u8]) -> (text: String)
    ensures
        text@ == lossy_text(bytes@),
        vstd::utf8::valid_utf8(bytes@) ==> text@ == vstd::utf8::decode_utf8(bytes@),
{
    String::from_utf8_lossy(bytes).into_owned()
}

/// What the tool printed: its standard output, a line ending and its standard
/// error.
pub fn raw_output(stdout: &[u8], stderr: &[u8]) -> (raw: String)
    ensures
        raw@ == lossy_text(stdout@) + "\n"@ + lossy_text(stderr@),
        vstd::utf8::valid_utf8(stdout@) ==> lossy_text(stdout@) == vstd::utf8::decode_utf8(
            stdout@,
        ),
        vstd::utf8::valid_utf8(stderr@) ==> lossy_text(stderr@) == vstd::utf8::decode_utf8(
            stderr@,
        ),
{
    let mut raw = decode(stdout);
    raw.append("\n");
    raw.append(decode(stderr).as_str());
    raw
}

/// What becomes of the output of a run with these arguments.
pub open spec fn filtered(args: Seq<Seq<char>>, clean: Seq<char>) -> Seq<char> {
    if args.len() > 0 && args[0] == "search"@ {
        crate::search::filtered(clean)
    } else if args.len() > 1 && args[0] == "trace"@ && (args[1] == "callers"@ || args[1]
        == "callees"@) {
        crate::trace::filtered(clean)
    } else {
        crate::text::trimmed(clean)
    }
}

/// Filters the output of a run: `search` and `trace callers` or `trace callees`
/// are reported on, the output of any other run is trimmed.
pub fn filter_output(args: &[String], clean: &str) -> (out: String)
    ensures
        out@ == filtered(crate::text::texts(args@), clean@),
{
    if args.len() > 0 && args[0] == "search".to_string() {
        return filter_search(clean);
    }
    if args.len() > 1 && args[0] == "trace".to_string() && (args[1] == "callers".to_string()
        || args[1] == "callees".to_string()) {
        return filter_trace(clean);
    }
    trim(clean)
}

/// The exit code of a run. A run that a signal ended has none: it counts as 0
/// if it succeeded and as 1 if not.
pub fn exit_code(code: Option<i32>, success: bool) -> (exit: i32)
    ensures
        exit == match code {
            Some(code) => code,
            None => if success {
                0
            } else {
                1
            },
        },
{
    match code {
        Some(code) => code,
        None => if success {
            0
        } else {
            1
        },
    }
}

/// A program and its arguments as one line.
pub fn command_line(program: &str, args: &[String]) -> (line: String)
    ensures
        line@ == program@ + " "@ + crate::text::joined(crate::text::texts(args@), " "@),
{
    let mut line = String::new();
    line.append(program);
    line.append(" ");
    line.append(join(args, " ").as_str());
    assert(line@ =~= program@ + " "@ + crate::text::joined(crate::text::texts(args@), " "@));
    line
}

/// What is printed: the filtered output and, on a line of its own, the hint.
pub fn message(filtered: &str, hint: Option<&str>) -> (text: String)
    ensures
        text@ == match hint {
            Some(hint) => filtered@ + "\n"@ + hint@,
            None => filtered@,
        },
{
    let mut text = String::new();
    text.append(filtered);
    if let Some(hint) = hint {
        text.append("\n");
        text.append(hint);
    }
    assert(text@ =~= match hint {
        Some(hint) => filtered@ + "\n"@ + hint@,
        None => filtered@,
    });
    text
}

/// Only searches and traces of callers or callees are reported on; the output
/// of every other run passes through, trimmed.
pub proof fn law_other_runs_pass_through(args: Seq<Seq<char>>, clean: Seq<char>)
    requires
        args.len() == 0 || args[0] != "search"@,
        args.len() < 2 || args[0] != "trace"@ || (args[1] != "callers"@ && args[1] != "callees"@),
    ensures
        filtered(args, clean) == crate::text::trimmed(clean),
{
}

/// The output of every run of `search` goes through the search filter, whatever
/// arguments follow.
pub proof fn law_searches_are_filtered(args: Seq<Seq<char>>, clean: Seq<char>)
    requires
        args.len() >= 1,
        args[0] == "search"@,
    ensures
        filtered(args, clean) == crate::search::filtered(clean),
{
}

/// The output of every run of `trace callers` and `trace callees` goes through
/// the trace filter, whatever arguments follow.
pub proof fn law_traces_are_filtered(args: Seq<Seq<char>>, clean: Seq<char>)
    requires
        args.len() >= 2,
        args[0] == "trace"@,
        args[1] == "callers"@ || args[1] == "callees"@,
    ensures
        filtered(args, clean) == crate::trace::filtered(clean),
{
    reveal_strlit("search");
    reveal_strlit("trace");
    assert("search"@.len() != "trace"@.len());
}

/// A run is filtered by its first two arguments: what follows them makes no
/// difference.
pub proof fn law_later_arguments_make_no_difference(
    args: Seq<Seq<char>>,
    more: Seq<Seq<char>>,
    clean: Seq<char>,
)
    requires
        args.len() >= 2,
    ensures
        filtered(args + more, clean) == filtered(args, clean),
{
    assert((args + more)[0] == args[0]);
    assert((args + more)[1] == args[1]);
}

/// What `filter_output` returns: the report of a search or of a trace of
/// callers or callees, by the first two arguments, and else the trimmed output.
pub proof fn law_runs_choose_their_filter(args: &[String], clean: &str, out: String)
    requires
        call_ensures(filter_output, (args, clean), out),
    ensures
        args@.len() >= 1 && args@[0]@ == "search"@ ==> out@ == crate::search::filtered(clean@),
        args@.len() >= 2 && args@[0]@ == "trace"@ && (args@[1]@ == "callers"@ || args@[1]@
            == "callees"@) ==> out@ == crate::trace::filtered(clean@),
        args@.len() == 0 ==> out@ == crate::text::trimmed(clean@),
        args@.len() == 1 && args@[0]@ != "search"@ ==> out@ == crate::text::trimmed(clean@),
        args@.len() >= 2 && args@[0]@ != "search"@ && !(args@[0]@ == "trace"@ && (args@[1]@
            == "callers"@ || args@[1]@ == "callees"@)) ==> out@ == crate::text::trimmed(clean@),
{
    let texts = crate::text::texts(args@);
    if texts.len() >= 2 && texts[0] == "trace"@ && (texts[1] == "callers"@ || texts[1]
        == "callees"@) {
        law_traces_are_filtered(texts, clean@);
    }
}

/// A run that ended by itself keeps its exit code; one that a signal ended has
/// 0 for success and 1 for failure.
pub proof fn law_exit_codes_are_kept(code: Option<i32>, success: bool, exit: i32)
    requires
        call_ensures(exit_code, (code, success), exit),
    ensures
        code matches Some(c) ==> exit == c,
        code is None && success ==> exit == 0,
        code is None && !success ==> exit == 1,
{
}

/// What is printed begins with the filtered output; a hint stands on a line of
/// its own behind it, and without a hint nothing follows.
pub proof fn law_messages_keep_output_and_hint(filtered: &str, hint: Option<&str>, text: String)
    requires
        call_ensures(message, (filtered, hint), text),
    ensures
        hint is None ==> text@ == filtered@,
        hint matches Some(h) ==> text@ == filtered@.push('\n') + h@,
{
    reveal_strlit("\n");
    if hint is Some {
        assert(text@ =~= filtered@.push('\n') + hint->0@);
    }
}

/// A command line is the program and its arguments, with one space between each
/// two; without arguments a space ends it.
pub proof fn law_command_lines_list_the_arguments(program: &str, args: &[String], line: String)
    requires
        call_ensures(command_line, (program, args), line),
    ensures
        args@.len() == 0 ==> line@ == program@.push(' '),
        args@.len() > 0 ==> line@ == crate::text::joined(
            seq![program@] + crate::text::texts(args@),
            seq![' '],
        ),
{
    reveal_strlit(" ");
    let texts = crate::text::texts(args@);
    assert(" "@ =~= seq![' ']);
    crate::text_laws::law_joining_two_lists(seq![program@], texts, " "@);
    if args@.len() == 0 {
        assert(texts =~= Seq::<Seq<char>>::empty());
        assert(line@ =~= program@.push(' '));
    }
}

/// What the tool printed on both streams is kept, the standard output first,
/// with a line feed between the two: of UTF-8 every character.
pub proof fn law_both_streams_are_kept(stdout: &[u8], stderr: &[u8], raw: String)
    requires
        call_ensures(raw_output, (stdout, stderr), raw),
    ensures
        raw@ == lossy_text(stdout@).push('\n') + lossy_text(stderr@),
        vstd::utf8::valid_utf8(stdout@) && vstd::utf8::valid_utf8(stderr@) ==> raw@
            == vstd::utf8::decode_utf8(stdout@).push('\n') + vstd::utf8::decode_utf8(stderr@),
{
    reveal_strlit("\n");
    assert(raw@ =~= lossy_text(stdout@).push('\n') + lossy_text(stderr@));
}

} // verus!
