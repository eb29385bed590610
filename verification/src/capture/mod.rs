//! `Capture` and `CaptureBuilder`: assembling a session.

pub mod handle;
pub mod handler;
pub mod worker;

use std::time::Duration;
use vstd::prelude::*;
use vstd::string::*;
use vstd::utf8::{decode_utf8, encode_utf8, valid_utf8};

use crate::error::{framed_by, lemma_framed_by, nanos, Error, ErrorView};
use crate::target::{DeviceSel, DeviceSelView, Target, TargetView};
use crate::text::{join, same_text};

verus! {

/// How the script reaches the target: JS source or precompiled bytecode.
#[derive(Debug)]
pub enum ScriptInput {
    Source(String),
    Bytes(Vec<u8>),
}

/// [`ScriptInput`] with its contents as sequences.
pub enum ScriptView {
    Source(Seq<char>),
    Bytes(Seq<u8>),
}

impl View for ScriptInput {
    type V = ScriptView;

    open spec fn view(&self) -> ScriptView {
        match self {
            ScriptInput::Source(s) => ScriptView::Source(s@),
            ScriptInput::Bytes(b) => ScriptView::Bytes(b@),
        }
    }
}

/// Everything a worker needs to know to run a capture.
#[derive(Debug)]
pub struct CaptureConfig {
    pub target: Target,
    pub device: DeviceSel,
    pub script: ScriptInput,
    pub resume_after_spawn: bool,
    pub detach_poll: Duration,
    pub start_timeout: Duration,
}

/// [`CaptureConfig`] with its contents as mathematical values.
pub struct CaptureView {
    pub target: TargetView,
    pub device: DeviceSelView,
    pub script: ScriptView,
    pub resume_after_spawn: bool,
    pub detach_poll: Duration,
    pub start_timeout: Duration,
}

impl View for CaptureConfig {
    type V = CaptureView;

    open spec fn view(&self) -> CaptureView {
        CaptureView {
            target: self.target@,
            device: self.device@,
            script: self.script@,
            resume_after_spawn: self.resume_after_spawn,
            detach_poll: self.detach_poll,
            start_timeout: self.start_timeout,
        }
    }
}

/// A ready-to-start capture. Build via [`Capture::builder`].
#[derive(Debug)]
pub struct Capture {
    pub cfg: CaptureConfig,
}

impl View for Capture {
    type V = CaptureView;

    open spec fn view(&self) -> CaptureView {
        self.cfg@
    }
}

/// Builder for [`Capture`].
#[derive(Debug)]
pub struct CaptureBuilder {
    pub target: Option<Target>,
    pub device: DeviceSel,
    pub script: Option<ScriptInput>,
    pub resume_after_spawn: bool,
    pub detach_poll: Duration,
    pub start_timeout: Duration,
}

/// [`CaptureBuilder`] with its contents as mathematical values.
pub struct BuilderView {
    pub target: Option<TargetView>,
    pub device: DeviceSelView,
    pub script: Option<ScriptView>,
    pub resume_after_spawn: bool,
    pub detach_poll: Duration,
    pub start_timeout: Duration,
}

impl View for CaptureBuilder {
    type V = BuilderView;

    open spec fn view(&self) -> BuilderView {
        BuilderView {
            target: match self.target {
                Some(t) => Some(t@),
                None => None,
            },
            device: self.device@,
            script: match self.script {
                Some(s) => Some(s@),
                None => None,
            },
            resume_after_spawn: self.resume_after_spawn,
            detach_poll: self.detach_poll,
            start_timeout: self.start_timeout,
        }
    }
}

/// `Duration::from_millis`: that many thousandths of a second.
pub assume_specification[ Duration::from_millis ](millis: u64) -> (r: Duration)
    ensures
        nanos(r) == millis * 1_000_000,
;

/// `Duration::from_secs`: that many seconds.
pub assume_specification[ Duration::from_secs ](secs: u64) -> (r: Duration)
    ensures
        nanos(r) == secs * 1_000_000_000,
;

/// What the error of `String::from_utf8` says about bytes it refuses.
pub uninterp spec fn utf8_complaint(bytes: Seq<u8>) -> Seq<char>;

/// `String::from_utf8`: the text that the bytes encode, or an error where they
/// are no UTF-8. The text of the error depends on the bytes alone.
#[verifier::external_body]
fn text_from_utf8(bytes: Vec<u8>) -> (r: Result<String, String>)
    ensures
        match r {
            Ok(s) => valid_utf8(bytes@) && s@ == decode_utf8(bytes@),
            Err(e) => !valid_utf8(bytes@) && e@ == utf8_complaint(bytes@),
        },
{
    String::from_utf8(bytes).map_err(|e| e.to_string())
}

impl Default for CaptureBuilder {
    /// No target and no script yet; the local device, a spawned process is
    /// resumed, the watchdog polls every 500 ms and a start may take 30 s.
    fn default() -> (r: Self)
        ensures
            r@.target is None,
            r@.device == DeviceSelView::Local,
            r@.script is None,
            r@.resume_after_spawn,
            nanos(r@.detach_poll) == 500_000_000,
            nanos(r@.start_timeout) == 30_000_000_000,
    {
        CaptureBuilder {
            target: None,
            device: DeviceSel::default(),
            script: None,
            resume_after_spawn: true,
            detach_poll: Duration::from_millis(500),
            start_timeout: Duration::from_secs(30),
        }
    }
}

/// What [`CaptureBuilder::script_from_disk`] makes of a file: source text where
/// the extension is `js`, bytecode for everything else.
pub open spec fn script_of(ext: Option<Seq<char>>, bytes: Seq<u8>) -> Option<ScriptView> {
    if ext == Some("js"@) {
        if valid_utf8(bytes) {
            Some(ScriptView::Source(decode_utf8(bytes)))
        } else {
            None
        }
    } else {
        Some(ScriptView::Bytes(bytes))
    }
}

impl CaptureBuilder {
    pub fn target(self, t: Target) -> (r: Self)
        ensures
            r@ == (BuilderView { target: Some(t@), ..self@ }),
    {
        let mut b = self;
        b.target = Some(t);
        b
    }

    pub fn device(self, d: DeviceSel) -> (r: Self)
        ensures
            r@ == (BuilderView { device: d@, ..self@ }),
    {
        let mut b = self;
        b.device = d;
        b
    }

    /// JS source. Mutually exclusive with
    /// [`script_bytes`](Self::script_bytes); the last one set wins.
    pub fn script(self, s: &str) -> (r: Self)
        ensures
            r@ == (BuilderView { script: Some(ScriptView::Source(s@)), ..self@ }),
    {
        let mut b = self;
        b.script = Some(ScriptInput::Source(s.to_owned()));
        b
    }

    /// Precompiled bytecode; it must match the runtime that will load it.
    /// Mutually exclusive with [`script`](Self::script); the last one set wins.
    pub fn script_bytes(self, bytes: Vec<u8>) -> (r: Self)
        ensures
            r@ == (BuilderView { script: Some(ScriptView::Bytes(bytes@)), ..self@ }),
    {
        let mut b = self;
        b.script = Some(ScriptInput::Bytes(bytes));
        b
    }

    /// Takes a script read from disk and dispatches by the file's extension:
    /// `js` is source text and has to be UTF-8, everything else is bytecode.
    /// `path` is how the file is shown in errors, `read` what reading it gave.
    ///
    /// Mutually exclusive with [`script`](Self::script) and
    /// [`script_bytes`](Self::script_bytes); the last one set wins.
    pub fn script_from_disk(
        self,
        path: &str,
        ext: Option<&str>,
        read: Result<Vec<u8>, String>,
    ) -> (r: Result<Self, Error>)
        ensures
            ({
                let ext_text = match ext {
                    Some(e) => Some(e@),
                    None => None,
                };
                match read {
                    Err(e) => r is Err && r->Err_0@ == ErrorView::Frida(
                        "read script "@ + path@ + ": "@ + e@,
                    ),
                    Ok(bytes) => match script_of(ext_text, bytes@) {
                        Some(s) => r is Ok && r->Ok_0@ == (BuilderView {
                            script: Some(s),
                            ..self@
                        }),
                        None => r is Err && r->Err_0@ == ErrorView::Frida(
                            "script "@ + path@ + " is not valid utf-8: "@ + utf8_complaint(bytes@),
                        ),
                    },
                }
            }),
    {
        let bytes = match read {
            Ok(bytes) => bytes,
            Err(e) => {
                let mut msg = join("read script ", path);
                msg.append(": ");
                msg.append(e.as_str());
                return Err(Error::Frida(msg));
            },
        };
        let is_source = match ext {
            Some(e) => same_text(e, "js"),
            None => false,
        };
        if is_source {
            match text_from_utf8(bytes) {
                Ok(src) => Ok(self.script(src.as_str())),
                Err(e) => {
                    let mut msg = join("script ", path);
                    msg.append(" is not valid utf-8: ");
                    msg.append(e.as_str());
                    Err(Error::Frida(msg))
                },
            }
        } else {
            Ok(self.script_bytes(bytes))
        }
    }

    /// Whether a spawned target (as against one attached to while running) is
    /// resumed once the script is loaded. Default `true`.
    pub fn resume_after_spawn(self, b: bool) -> (r: Self)
        ensures
            r@ == (BuilderView { resume_after_spawn: b, ..self@ }),
    {
        let mut builder = self;
        builder.resume_after_spawn = b;
        builder
    }

    /// How often the watchdog asks whether the session is detached. Default
    /// 500 ms.
    pub fn detach_poll_interval(self, d: Duration) -> (r: Self)
        ensures
            r@ == (BuilderView { detach_poll: d, ..self@ }),
    {
        let mut b = self;
        b.detach_poll = d;
        b
    }

    /// Cap on how long a start waits for the worker to load the script and
    /// report ready. Default 30 s.
    pub fn start_timeout(self, d: Duration) -> (r: Self)
        ensures
            r@ == (BuilderView { start_timeout: d, ..self@ }),
    {
        let mut b = self;
        b.start_timeout = d;
        b
    }

    /// The capture as configured. A missing target is reported before a
    /// missing script.
    pub fn build(self) -> (r: Result<Capture, Error>)
        ensures
            match (self@.target, self@.script) {
                (None, _) => r is Err && r->Err_0@ == ErrorView::MissingTarget,
                (Some(_), None) => r is Err && r->Err_0@ == ErrorView::MissingScript,
                (Some(target), Some(script)) => r is Ok && r->Ok_0@ == (CaptureView {
                    target,
                    device: self@.device,
                    script,
                    resume_after_spawn: self@.resume_after_spawn,
                    detach_poll: self@.detach_poll,
                    start_timeout: self@.start_timeout,
                }),
            },
    {
        let target = match self.target {
            Some(t) => t,
            None => return Err(Error::MissingTarget),
        };
        let script = match self.script {
            Some(s) => s,
            None => return Err(Error::MissingScript),
        };
        Ok(
            Capture {
                cfg: CaptureConfig {
                    target,
                    script,
                    device: self.device,
                    resume_after_spawn: self.resume_after_spawn,
                    detach_poll: self.detach_poll,
                    start_timeout: self.start_timeout,
                },
            },
        )
    }
}

impl Capture {
    pub fn builder() -> (r: CaptureBuilder)
        ensures
            r@.target is None,
            r@.device == DeviceSelView::Local,
            r@.script is None,
            r@.resume_after_spawn,
            nanos(r@.detach_poll) == 500_000_000,
            nanos(r@.start_timeout) == 30_000_000_000,
    {
        CaptureBuilder::default()
    }
}

/// A script read from disk is taken whole: the source text of a `js` file
/// encodes back to the bytes that were read, and the bytecode of any other file
/// is those bytes. Only a `js` file that is no UTF-8 gives nothing.
pub proof fn script_is_the_file_as_read(ext: Option<Seq<char>>, bytes: Seq<u8>)
    ensures
        ext == Some("js"@) && valid_utf8(bytes) ==> (script_of(ext, bytes) matches Some(
            ScriptView::Source(text),
        ) && encode_utf8(text) == bytes),
        ext == Some("js"@) && !valid_utf8(bytes) ==> script_of(ext, bytes) is None,
        ext != Some("js"@) ==> script_of(ext, bytes) == Some(ScriptView::Bytes(bytes)),
{
    if valid_utf8(bytes) {
        vstd::utf8::decode_utf8_encode_utf8(bytes);
    }
}

/// The views of a script, a configuration, a capture and a builder keep what
/// they hold.
pub proof fn views_keep_what_is_configured(
    text: String,
    bytes: Vec<u8>,
    cfg: CaptureConfig,
    b: CaptureBuilder,
)
    ensures
        ScriptInput::Source(text)@ == ScriptView::Source(text@),
        ScriptInput::Bytes(bytes)@ == ScriptView::Bytes(bytes@),
        cfg@.target == cfg.target@,
        cfg@.device == cfg.device@,
        cfg@.script == cfg.script@,
        cfg@.resume_after_spawn == cfg.resume_after_spawn,
        cfg@.detach_poll == cfg.detach_poll,
        cfg@.start_timeout == cfg.start_timeout,
        (Capture { cfg })@ == cfg@,
        b@.target is Some <==> b.target is Some,
        b.target matches Some(t) ==> b@.target == Some(t@),
        b@.device == b.device@,
        b@.script is Some <==> b.script is Some,
        b.script matches Some(s) ==> b@.script == Some(s@),
        b@.resume_after_spawn == b.resume_after_spawn,
        b@.detach_poll == b.detach_poll,
        b@.start_timeout == b.start_timeout,
{
}

/// Taking a script from disk sets the script and nothing else. The source text
/// of a `js` file encodes back to the bytes that were read, the bytecode of any
/// other file is those bytes. It fails only where the file was not read or a
/// `js` file is no UTF-8, and then says of which path and why.
pub proof fn script_from_disk_takes_the_file(
    b: CaptureBuilder,
    path: &str,
    ext: Option<&str>,
    read: Result<Vec<u8>, String>,
    r: Result<CaptureBuilder, Error>,
)
    requires
        call_ensures(CaptureBuilder::script_from_disk, (b, path, ext, read), r),
    ensures
        match read {
            Err(e) => r is Err && r->Err_0 is Frida && framed_by(
                r->Err_0->Frida_0@,
                "read script "@ + path@,
                ": "@,
                e@,
            ),
            Ok(bytes) => if ext is Some && ext->0@ == "js"@ {
                if valid_utf8(bytes@) {
                    &&& r is Ok
                    &&& r->Ok_0.script is Some
                    &&& r->Ok_0.script->0 is Source
                    &&& encode_utf8(r->Ok_0.script->0->Source_0@) == bytes@
                } else {
                    r is Err && r->Err_0 is Frida && framed_by(
                        r->Err_0->Frida_0@,
                        "script "@ + path@,
                        " is not valid utf-8: "@,
                        utf8_complaint(bytes@),
                    )
                }
            } else {
                &&& r is Ok
                &&& r->Ok_0.script is Some
                &&& r->Ok_0.script->0 is Bytes
                &&& r->Ok_0.script->0->Bytes_0@ == bytes@
            },
        },
        r matches Ok(set) ==> same_but_for_the_script(b, set),
{
    match read {
        Err(e) => {
            lemma_framed_by("read script "@ + path@, ": "@, e@);
        },
        Ok(bytes) => {
            lemma_framed_by(
                "script "@ + path@,
                " is not valid utf-8: "@,
                utf8_complaint(bytes@),
            );
            script_is_the_file_as_read(Some("js"@), bytes@);
            script_is_the_file_as_read(
                match ext {
                    Some(e) => Some(e@),
                    None => None,
                },
                bytes@,
            );
        },
    }
}

/// Two builders that differ at most in their script.
pub open spec fn same_but_for_the_script(a: CaptureBuilder, b: CaptureBuilder) -> bool {
    &&& a.target is Some <==> b.target is Some
    &&& a.target is Some ==> a.target->0@ == b.target->0@
    &&& a.device@ == b.device@
    &&& a.resume_after_spawn == b.resume_after_spawn
    &&& a.detach_poll == b.detach_poll
    &&& a.start_timeout == b.start_timeout
}

/// A capture is built if and only if a target and a script are set, and holds
/// what the builder holds; a missing target is reported first.
pub proof fn built_captures_hold_what_was_set(b: CaptureBuilder, r: Result<Capture, Error>)
    requires
        call_ensures(CaptureBuilder::build, (b,), r),
    ensures
        b.target is None ==> r is Err && r->Err_0 is MissingTarget,
        b.target is Some && b.script is None ==> r is Err && r->Err_0 is MissingScript,
        b.target is Some && b.script is Some ==> {
            &&& r is Ok
            &&& r->Ok_0.cfg.target@ == b.target->0@
            &&& r->Ok_0.cfg.script@ == b.script->0@
            &&& r->Ok_0.cfg.device@ == b.device@
            &&& r->Ok_0.cfg.resume_after_spawn == b.resume_after_spawn
            &&& r->Ok_0.cfg.detach_poll == b.detach_poll
            &&& r->Ok_0.cfg.start_timeout == b.start_timeout
        },
{
}

/// Each setter sets its own part to what it is given; a script replaces the one
/// before, whichever of the two kinds either is.
pub proof fn setters_set_their_part(
    b: CaptureBuilder,
    t: Target,
    d: DeviceSel,
    s: &str,
    bytes: Vec<u8>,
    resume: bool,
    span: Duration,
    r: CaptureBuilder,
)
    ensures
        call_ensures(CaptureBuilder::target, (b, t), r) ==> r.target is Some && r.target->0@ == t@
            && r@ == (BuilderView { target: r@.target, ..b@ }),
        call_ensures(CaptureBuilder::device, (b, d), r) ==> r.device@ == d@ && r@ == (BuilderView {
            device: r@.device,
            ..b@
        }),
        call_ensures(CaptureBuilder::script, (b, s), r) ==> r.script is Some
            && r.script->0 is Source && r.script->0->Source_0@ == s@ && same_but_for_the_script(
            b,
            r,
        ),
        call_ensures(CaptureBuilder::script_bytes, (b, bytes), r) ==> r.script is Some
            && r.script->0 is Bytes && r.script->0->Bytes_0@ == bytes@ && same_but_for_the_script(
            b,
            r,
        ),
        call_ensures(CaptureBuilder::resume_after_spawn, (b, resume), r) ==> r.resume_after_spawn
            == resume && r@ == (BuilderView { resume_after_spawn: r@.resume_after_spawn, ..b@ }),
        call_ensures(CaptureBuilder::detach_poll_interval, (b, span), r) ==> r.detach_poll == span
            && r@ == (BuilderView { detach_poll: r@.detach_poll, ..b@ }),
        call_ensures(CaptureBuilder::start_timeout, (b, span), r) ==> r.start_timeout == span && r@
            == (BuilderView { start_timeout: r@.start_timeout, ..b@ }),
{
}

} // verus!
