//! Everything that can go wrong while setting up, running or recording a
//! capture.

use std::time::Duration;
use vstd::prelude::*;
use vstd::string::*;

use crate::text::join;

verus! {

#[derive(Debug)]
pub enum Error {
    /// A capture was built without a script. An empty script would be
    /// accepted further down but is almost always a bug, so it is refused
    /// early.
    MissingScript,
    /// A capture was built without a target.
    MissingTarget,
    /// Process-name lookup found nothing matching.
    ProcessNotFound(String),
    /// The worker did not report ready within the timeout, typically because
    /// the script failed to load.
    StartTimeout(Duration),
    /// The worker panicked. Holds whatever could be recovered of the payload.
    WorkerPanic(String),
    /// Anything the instrumentation toolkit raised.
    Frida(String),
    /// A capture file could not be written, read or understood.
    Record(String),
}

/// What [`Error`] says, with its texts as character sequences.
pub enum ErrorView {
    MissingScript,
    MissingTarget,
    ProcessNotFound(Seq<char>),
    StartTimeout(Duration),
    WorkerPanic(Seq<char>),
    Frida(Seq<char>),
    Record(Seq<char>),
}

impl View for Error {
    type V = ErrorView;

    open spec fn view(&self) -> ErrorView {
        match self {
            Error::MissingScript => ErrorView::MissingScript,
            Error::MissingTarget => ErrorView::MissingTarget,
            Error::ProcessNotFound(s) => ErrorView::ProcessNotFound(s@),
            Error::StartTimeout(d) => ErrorView::StartTimeout(*d),
            Error::WorkerPanic(s) => ErrorView::WorkerPanic(s@),
            Error::Frida(s) => ErrorView::Frida(s@),
            Error::Record(s) => ErrorView::Record(s@),
        }
    }
}

/// The `Debug` notation of a text: quoted, with escapes.
pub uninterp spec fn quoted(s: Seq<char>) -> Seq<char>;

/// How many nanoseconds a duration holds.
pub uninterp spec fn nanos(d: Duration) -> nat;

/// The `Debug` notation of a duration of so many nanoseconds, such as `30s`.
pub uninterp spec fn span_text(nanos: nat) -> Seq<char>;

/// The `Debug` notation of a text, as `format!` writes it.
#[verifier::external_body]
fn quote(s: &str) -> (r: String)
    ensures
        r@ == quoted(s@),
{
    format!("{s:?}")
}

/// The `Debug` notation of a duration, as `format!` writes it.
#[verifier::external_body]
fn show_span(d: &Duration) -> (r: String)
    ensures
        r@ == span_text(nanos(*d)),
{
    format!("{d:?}")
}

/// The sentence shown to a person for an error.
pub open spec fn message_of(e: ErrorView) -> Seq<char> {
    match e {
        ErrorView::MissingScript => "CaptureBuilder missing script"@,
        ErrorView::MissingTarget => "CaptureBuilder missing target"@,
        ErrorView::ProcessNotFound(name) => "no process matching name "@ + quoted(name)
            + " on the selected device"@,
        ErrorView::StartTimeout(d) => "capture worker did not start within "@ + span_text(nanos(d)),
        ErrorView::WorkerPanic(s) => "capture worker panicked: "@ + s,
        ErrorView::Frida(s) => "frida: "@ + s,
        ErrorView::Record(s) => "record: "@ + s,
    }
}

impl Clone for Error {
    fn clone(&self) -> (r: Self)
        ensures
            r@ == self@,
    {
        match self {
            Error::MissingScript => Error::MissingScript,
            Error::MissingTarget => Error::MissingTarget,
            Error::ProcessNotFound(s) => Error::ProcessNotFound(s.clone()),
            Error::StartTimeout(d) => Error::StartTimeout(*d),
            Error::WorkerPanic(s) => Error::WorkerPanic(s.clone()),
            Error::Frida(s) => Error::Frida(s.clone()),
            Error::Record(s) => Error::Record(s.clone()),
        }
    }
}

impl Error {
    /// The sentence shown to a person.
    pub fn message(&self) -> (r: String)
        ensures
            r@ == message_of(self@),
    {
        match self {
            Error::MissingScript => "CaptureBuilder missing script".to_owned(),
            Error::MissingTarget => "CaptureBuilder missing target".to_owned(),
            Error::ProcessNotFound(name) => {
                let q = quote(name.as_str());
                let mut out = join("no process matching name ", q.as_str());
                out.append(" on the selected device");
                out
            },
            Error::StartTimeout(d) => {
                let span = show_span(d);
                join("capture worker did not start within ", span.as_str())
            },
            Error::WorkerPanic(s) => join("capture worker panicked: ", s.as_str()),
            Error::Frida(s) => join("frida: ", s.as_str()),
            Error::Record(s) => join("record: ", s.as_str()),
        }
    }
}

/// `part` stands in `whole` behind `before`, and nothing but `after` follows.
pub open spec fn framed_by(
    whole: Seq<char>,
    before: Seq<char>,
    part: Seq<char>,
    after: Seq<char>,
) -> bool {
    &&& whole.len() == before.len() + part.len() + after.len()
    &&& whole.take(before.len() as int) == before
    &&& whole.subrange(before.len() as int, (before.len() + part.len()) as int) == part
    &&& whole.skip((before.len() + part.len()) as int) == after
}

/// A text put between two others is framed by them.
pub(crate) proof fn lemma_framed_by(before: Seq<char>, part: Seq<char>, after: Seq<char>)
    ensures
        framed_by(before + part + after, before, part, after),
{
    let whole = before + part + after;
    assert(whole.take(before.len() as int) =~= before);
    assert(whole.subrange(before.len() as int, (before.len() + part.len()) as int) =~= part);
    assert(whole.skip((before.len() + part.len()) as int) =~= after);
}

/// What an error holds is shown whole: its text, or the notation of its name
/// or duration, stands in the message between fixed words.
pub proof fn messages_show_what_errors_hold(text: Seq<char>, d: Duration)
    ensures
        message_of(ErrorView::MissingScript) == "CaptureBuilder missing script"@,
        message_of(ErrorView::MissingTarget) == "CaptureBuilder missing target"@,
        framed_by(
            message_of(ErrorView::ProcessNotFound(text)),
            "no process matching name "@,
            quoted(text),
            " on the selected device"@,
        ),
        framed_by(
            message_of(ErrorView::StartTimeout(d)),
            "capture worker did not start within "@,
            span_text(nanos(d)),
            Seq::empty(),
        ),
        framed_by(
            message_of(ErrorView::WorkerPanic(text)),
            "capture worker panicked: "@,
            text,
            Seq::empty(),
        ),
        framed_by(message_of(ErrorView::Frida(text)), "frida: "@, text, Seq::empty()),
        framed_by(message_of(ErrorView::Record(text)), "record: "@, text, Seq::empty()),
{
    let none = Seq::<char>::empty();
    lemma_framed_by("no process matching name "@, quoted(text), " on the selected device"@);
    lemma_framed_by("capture worker did not start within "@, span_text(nanos(d)), none);
    assert("capture worker did not start within "@ + span_text(nanos(d)) + none
        =~= "capture worker did not start within "@ + span_text(nanos(d)));
    lemma_framed_by("capture worker panicked: "@, text, none);
    assert("capture worker panicked: "@ + text + none =~= "capture worker panicked: "@ + text);
    lemma_framed_by("frida: "@, text, none);
    assert("frida: "@ + text + none =~= "frida: "@ + text);
    lemma_framed_by("record: "@, text, none);
    assert("record: "@ + text + none =~= "record: "@ + text);
}

/// The view of an error keeps what it holds.
pub proof fn view_keeps_the_error(text: String, d: Duration)
    ensures
        Error::MissingScript@ is MissingScript,
        Error::MissingTarget@ is MissingTarget,
        Error::ProcessNotFound(text)@ == ErrorView::ProcessNotFound(text@),
        Error::StartTimeout(d)@ == ErrorView::StartTimeout(d),
        Error::WorkerPanic(text)@ == ErrorView::WorkerPanic(text@),
        Error::Frida(text)@ == ErrorView::Frida(text@),
        Error::Record(text)@ == ErrorView::Record(text@),
{
}

/// An error's message shows the text that the error holds, whole and last.
pub proof fn messages_end_with_the_text(e: &Error, r: String)
    requires
        call_ensures(Error::message, (e,), r),
    ensures
        match *e {
            Error::MissingScript => r@ == "CaptureBuilder missing script"@,
            Error::MissingTarget => r@ == "CaptureBuilder missing target"@,
            Error::ProcessNotFound(name) => framed_by(
                r@,
                "no process matching name "@,
                quoted(name@),
                " on the selected device"@,
            ),
            Error::StartTimeout(d) => framed_by(
                r@,
                "capture worker did not start within "@,
                span_text(nanos(d)),
                Seq::empty(),
            ),
            Error::WorkerPanic(t) => framed_by(
                r@,
                "capture worker panicked: "@,
                t@,
                Seq::empty(),
            ),
            Error::Frida(t) => framed_by(r@, "frida: "@, t@, Seq::empty()),
            Error::Record(t) => framed_by(r@, "record: "@, t@, Seq::empty()),
        },
{
    match *e {
        Error::ProcessNotFound(name) => {
            lemma_framed_by(
                "no process matching name "@,
                quoted(name@),
                " on the selected device"@,
            );
        },
        Error::StartTimeout(d) => {
            messages_show_what_errors_hold(Seq::empty(), d);
        },
        Error::WorkerPanic(t) => {
            lemma_framed_last("capture worker panicked: "@, t@);
        },
        Error::Frida(t) => {
            lemma_framed_last("frida: "@, t@);
        },
        Error::Record(t) => {
            lemma_framed_last("record: "@, t@);
        },
        _ => {},
    }
}

/// A text put behind another is framed by it.
proof fn lemma_framed_last(before: Seq<char>, part: Seq<char>)
    ensures
        framed_by(before + part, before, part, Seq::empty()),
{
    lemma_framed_by(before, part, Seq::empty());
    assert(before + part + Seq::<char>::empty() =~= before + part);
}

} // verus!
