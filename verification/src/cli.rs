//! What the command line prints.

use vstd::prelude::*;
use vstd::string::*;

use crate::error::{framed_by, lemma_framed_by};
use crate::text::join;

verus! {

/// The tag of the captures that the command line records and replays.
pub const CLI_TAG: [u8; 4] = [70, 82, 71, 69];

/// The line for an event, given what writing it as JSON gave.
pub open spec fn line_for(serialized: Result<Seq<char>, Seq<char>>) -> Seq<char> {
    match serialized {
        Ok(line) => line,
        Err(e) => "{\"kind\":\"serialize_error\",\"error\":\""@ + e + "\"}"@,
    }
}

/// The line to print for an event, given what writing it as JSON gave. An
/// event that has no JSON notation leaves a line that says so.
pub fn emit_line(serialized: Result<String, String>) -> (r: String)
    ensures
        r@ == line_for(
            match serialized {
                Ok(line) => Ok(line@),
                Err(e) => Err(e@),
            },
        ),
{
    match serialized {
        Ok(line) => line,
        Err(e) => {
            let mut out = join("{\"kind\":\"serialize_error\",\"error\":\"", e.as_str());
            out.append("\"}");
            out
        },
    }
}

/// A line that could be written is printed as it is; an error stands whole in
/// the line that takes its place.
pub proof fn lines_show_what_was_written(line: Seq<char>, e: Seq<char>)
    ensures
        line_for(Ok(line)) == line,
        framed_by(
            line_for(Err(e)),
            "{\"kind\":\"serialize_error\",\"error\":\""@,
            e,
            "\"}"@,
        ),
{
    lemma_framed_by("{\"kind\":\"serialize_error\",\"error\":\""@, e, "\"}"@);
}

/// The line printed for an event is what writing it gave, character by
/// character; without that, one that holds the reason whole.
pub proof fn emitted_lines_are_what_was_written(serialized: Result<String, String>, r: String)
    requires
        call_ensures(emit_line, (serialized,), r),
    ensures
        serialized matches Ok(line) ==> r@ == line@,
        serialized matches Err(e) ==> framed_by(
            r@,
            "{\"kind\":\"serialize_error\",\"error\":\""@,
            e@,
            "\"}"@,
        ),
{
    if let Err(e) = serialized {
        lemma_framed_by("{\"kind\":\"serialize_error\",\"error\":\""@, e@, "\"}"@);
    }
}

/// The command line's captures carry the letters `FRGE` as their tag.
pub proof fn command_line_tag()
    ensures
        CLI_TAG@ == seq![70u8, 82, 71, 69],
{
    assert(CLI_TAG@ =~= seq![70u8, 82, 71, 69]);
}

} // verus!
