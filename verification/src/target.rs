//! What to attach to, and where.

use vstd::prelude::*;

use crate::text::{after_prefix, join, same_text};

verus! {

/// What process a capture targets.
#[derive(Debug, Clone)]
pub enum Target {
    /// Attach to an already-running process by PID.
    Pid(u32),
    /// Attach to the first process whose name matches (case-sensitive on
    /// Linux/macOS; case-insensitive substring on Windows).
    Name(String),
    /// Same as [`Target::Name`] but, when multiple processes share the name,
    /// picks the **main** one: the entry whose parent PID does not refer to
    /// another same-name process. Meant for multi-process apps where the
    /// first same-name process may be a helper.
    MainByName(String),
    /// Spawn the program, attach, then resume it (unless told not to).
    Spawn { program: String, args: Vec<String> },
}

/// [`Target`] with its texts as character sequences.
pub enum TargetView {
    Pid(u32),
    Name(Seq<char>),
    MainByName(Seq<char>),
    Spawn { program: Seq<char>, args: Seq<Seq<char>> },
}

/// The character sequences of a list of texts.
pub open spec fn texts(v: Seq<String>) -> Seq<Seq<char>> {
    v.map_values(|s: String| s@)
}

impl View for Target {
    type V = TargetView;

    open spec fn view(&self) -> TargetView {
        match self {
            Target::Pid(p) => TargetView::Pid(*p),
            Target::Name(s) => TargetView::Name(s@),
            Target::MainByName(s) => TargetView::MainByName(s@),
            Target::Spawn { program, args } => TargetView::Spawn {
                program: program@,
                args: texts(args@),
            },
        }
    }
}

impl Target {
    pub fn pid(p: u32) -> (r: Self)
        ensures
            r@ == TargetView::Pid(p),
    {
        Target::Pid(p)
    }

    pub fn name(s: &str) -> (r: Self)
        ensures
            r@ == TargetView::Name(s@),
    {
        Target::Name(s.to_owned())
    }

    /// See [`Target::MainByName`].
    pub fn main_by_name(s: &str) -> (r: Self)
        ensures
            r@ == TargetView::MainByName(s@),
    {
        Target::MainByName(s.to_owned())
    }

    pub fn spawn(program: &str, args: &[&str]) -> (r: Self)
        ensures
            r@ == (TargetView::Spawn { program: program@, args: args@.map_values(|s: &str| s@) }),
    {
        let mut owned: Vec<String> = Vec::new();
        let mut i: usize = 0;
        while i < args.len()
            invariant
                i <= args.len(),
                owned.len() == i,
                forall|j: int| 0 <= j < i ==> #[trigger] owned[j]@ == args[j]@,
            decreases args.len() - i,
        {
            owned.push(args[i].to_owned());
            i += 1;
        }
        assert(texts(owned@) =~= args@.map_values(|s: &str| s@));
        Target::Spawn { program: program.to_owned(), args: owned }
    }
}

/// Which device hosts the target.
#[derive(Debug, Clone)]
pub enum DeviceSel {
    /// The local machine. Default.
    Local,
    /// First device attached over USB.
    Usb,
    /// A server reachable over TCP.
    Remote(String),
    /// Pick by device id (e.g. `"emulator-5554"`).
    ById(String),
}

/// [`DeviceSel`] with its texts as character sequences.
pub enum DeviceSelView {
    Local,
    Usb,
    Remote(Seq<char>),
    ById(Seq<char>),
}

impl View for DeviceSel {
    type V = DeviceSelView;

    open spec fn view(&self) -> DeviceSelView {
        match self {
            DeviceSel::Local => DeviceSelView::Local,
            DeviceSel::Usb => DeviceSelView::Usb,
            DeviceSel::Remote(s) => DeviceSelView::Remote(s@),
            DeviceSel::ById(s) => DeviceSelView::ById(s@),
        }
    }
}

impl Default for DeviceSel {
    fn default() -> (r: Self)
        ensures
            r@ == DeviceSelView::Local,
    {
        DeviceSel::Local
    }
}

/// The selector a text denotes: `local`, `usb`, `remote:HOST:PORT` or
/// `by-id:DEVICE_ID`.
pub open spec fn device_named(s: Seq<char>) -> Option<DeviceSelView> {
    if s == "local"@ {
        Some(DeviceSelView::Local)
    } else if s == "usb"@ {
        Some(DeviceSelView::Usb)
    } else if "remote:"@.is_prefix_of(s) {
        Some(DeviceSelView::Remote(s.skip("remote:"@.len() as int)))
    } else if "by-id:"@.is_prefix_of(s) {
        Some(DeviceSelView::ById(s.skip("by-id:"@.len() as int)))
    } else {
        None
    }
}

/// Reads a device selector. A text that denotes none is named in the error.
pub fn parse_device(s: &str) -> (r: Result<DeviceSel, String>)
    ensures
        match r {
            Ok(d) => device_named(s@) == Some(d@),
            Err(e) => device_named(s@) is None && e@ == "unknown device selector: "@ + s@,
        },
{
    if same_text(s, "local") {
        return Ok(DeviceSel::Local);
    }
    if same_text(s, "usb") {
        return Ok(DeviceSel::Usb);
    }
    match after_prefix(s, "remote:") {
        Some(host) => {
            assert(host@ =~= s@.skip("remote:"@.len() as int));
            return Ok(DeviceSel::Remote(host));
        },
        None => {},
    }
    match after_prefix(s, "by-id:") {
        Some(id) => {
            assert(id@ =~= s@.skip("by-id:"@.len() as int));
            Ok(DeviceSel::ById(id))
        },
        None => Err(join("unknown device selector: ", s)),
    }
}

/// Why a session ended.
#[derive(Debug)]
pub enum DetachReason {
    /// The watchdog saw the session detached: the process exited or the
    /// channel was lost.
    Detected,
    /// The user stopped the capture or dropped its handle.
    Stopped,
    /// The toolkit raised an error after the session was already running. The
    /// start has already succeeded, so the end of the session is the only
    /// place where this error can surface.
    Error(String),
}

/// [`DetachReason`] with its text as a character sequence.
pub enum DetachReasonView {
    Detected,
    Stopped,
    Error(Seq<char>),
}

impl Clone for DetachReason {
    fn clone(&self) -> (r: Self)
        ensures
            r@ == self@,
    {
        match self {
            DetachReason::Detected => DetachReason::Detected,
            DetachReason::Stopped => DetachReason::Stopped,
            DetachReason::Error(s) => DetachReason::Error(s.clone()),
        }
    }
}

impl View for DetachReason {
    type V = DetachReasonView;

    open spec fn view(&self) -> DetachReasonView {
        match self {
            DetachReason::Detected => DetachReasonView::Detected,
            DetachReason::Stopped => DetachReasonView::Stopped,
            DetachReason::Error(s) => DetachReasonView::Error(s@),
        }
    }
}

/// Every device can be named: `local`, `usb`, and a host or an id behind its
/// prefix.
pub proof fn every_device_has_a_selector(rest: Seq<char>)
    ensures
        device_named("local"@) == Some(DeviceSelView::Local),
        device_named("usb"@) == Some(DeviceSelView::Usb),
        device_named("remote:"@ + rest) == Some(DeviceSelView::Remote(rest)),
        device_named("by-id:"@ + rest) == Some(DeviceSelView::ById(rest)),
{
    reveal_strlit("local");
    reveal_strlit("usb");
    reveal_strlit("remote:");
    reveal_strlit("by-id:");
    let r = "remote:"@ + rest;
    let i = "by-id:"@ + rest;
    assert(r[0] == 'r');
    assert(i[0] == 'b');
    assert("local"@[0] == 'l');
    assert("usb"@[0] == 'u');
    assert("remote:"@[0] == 'r');
    assert(r.skip(7) =~= rest);
    assert(i.skip(6) =~= rest);
}

/// Nothing but a selector is understood, and a selector means what it spells.
pub proof fn only_selectors_are_understood(s: Seq<char>)
    ensures
        device_named(s) matches Some(d) ==> match d {
            DeviceSelView::Local => s == "local"@,
            DeviceSelView::Usb => s == "usb"@,
            DeviceSelView::Remote(host) => s == "remote:"@ + host,
            DeviceSelView::ById(id) => s == "by-id:"@ + id,
        },
        device_named(s) is None <==> s != "local"@ && s != "usb"@ && !"remote:"@.is_prefix_of(s)
            && !"by-id:"@.is_prefix_of(s),
{
    match device_named(s) {
        Some(DeviceSelView::Remote(host)) => {
            assert(s =~= "remote:"@ + host);
        },
        Some(DeviceSelView::ById(id)) => {
            assert(s =~= "by-id:"@ + id);
        },
        _ => {},
    }
}

/// The views of targets, selectors and reasons keep everything they hold.
pub proof fn views_keep_what_is_held(
    pid: u32,
    text: String,
    args: Vec<String>,
)
    ensures
        Target::Pid(pid)@ == TargetView::Pid(pid),
        Target::Name(text)@ == TargetView::Name(text@),
        Target::MainByName(text)@ == TargetView::MainByName(text@),
        (Target::Spawn { program: text, args })@ matches TargetView::Spawn { program, args: kept }
            && program == text@ && kept.len() == args@.len() && forall|i: int|
            0 <= i < args@.len() ==> (#[trigger] kept[i]) == args@[i]@,
        DeviceSel::Local@ is Local,
        DeviceSel::Usb@ is Usb,
        DeviceSel::Remote(text)@ == DeviceSelView::Remote(text@),
        DeviceSel::ById(text)@ == DeviceSelView::ById(text@),
        DetachReason::Detected@ is Detected,
        DetachReason::Stopped@ is Stopped,
        DetachReason::Error(text)@ == DetachReasonView::Error(text@),
{
}

/// Reading a selector gives the device that it spells, and where it spells none
/// an error that ends with it.
pub proof fn selectors_are_read_as_spelled(s: &str, r: Result<DeviceSel, String>)
    requires
        call_ensures(parse_device, (s,), r),
    ensures
        s@ == "local"@ <==> r is Ok && r->Ok_0 is Local,
        s@ == "usb"@ <==> r is Ok && r->Ok_0 is Usb,
        "remote:"@.is_prefix_of(s@) <==> r is Ok && r->Ok_0 is Remote,
        r matches Ok(DeviceSel::Remote(host)) ==> s@ == "remote:"@ + host@,
        "by-id:"@.is_prefix_of(s@) <==> r is Ok && r->Ok_0 is ById,
        r matches Ok(DeviceSel::ById(id)) ==> s@ == "by-id:"@ + id@,
        r matches Err(e) ==> e@ == "unknown device selector: "@ + s@,
{
    only_selectors_are_understood(s@);
    if "remote:"@.is_prefix_of(s@) {
        let rest = s@.skip("remote:"@.len() as int);
        assert(s@ =~= "remote:"@ + rest);
        every_device_has_a_selector(rest);
    }
    if "by-id:"@.is_prefix_of(s@) {
        let rest = s@.skip("by-id:"@.len() as int);
        assert(s@ =~= "by-id:"@ + rest);
        every_device_has_a_selector(rest);
    }
    every_device_has_a_selector(Seq::empty());
    match r {
        Ok(DeviceSel::Remote(host)) => {
            assert("remote:"@.is_prefix_of("remote:"@ + host@));
        },
        Ok(DeviceSel::ById(id)) => {
            assert("by-id:"@.is_prefix_of("by-id:"@ + id@));
        },
        _ => {},
    }
}

/// A target holds the pid, the name, or the program and every argument in order
/// that it is made of.
pub proof fn targets_hold_what_they_are_made_of(
    pid: u32,
    name: &str,
    args: &[&str],
    r: Target,
)
    ensures
        call_ensures(Target::pid, (pid,), r) ==> r == Target::Pid(pid),
        call_ensures(Target::name, (name,), r) ==> r is Name && r->Name_0@ == name@,
        call_ensures(Target::main_by_name, (name,), r) ==> r is MainByName && r->MainByName_0@
            == name@,
        call_ensures(Target::spawn, (name, args), r) ==> {
            &&& r is Spawn
            &&& r->program@ == name@
            &&& r->args@.len() == args@.len()
            &&& forall|i: int| 0 <= i < args@.len() ==> (#[trigger] r->args@[i])@ == args@[i]@
        },
{
    if call_ensures(Target::spawn, (name, args), r) {
        let kept = texts(r->args@);
        assert(kept == args@.map_values(|s: &str| s@));
        assert(kept.len() == r->args@.len());
        assert forall|i: int| 0 <= i < args@.len() implies (#[trigger] r->args@[i])@
            == args@[i]@ by {
            assert(kept[i] == r->args@[i]@);
        }
    }
}

} // verus!
