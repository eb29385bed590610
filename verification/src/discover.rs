//! Snapshots of devices and processes, and finding a process by name.

use vstd::prelude::*;

use crate::error::{Error, ErrorView};
use crate::text::{
    contains_ignoring_case, found_where_it_reads_the_same, holds_ignoring_case, reads_at, same_text,
};

verus! {

/// Minimal owned snapshot of a device.
#[derive(Debug, Clone)]
pub struct DeviceInfo {
    pub id: String,
    pub name: String,
    pub kind: DeviceKind,
}

#[derive(Debug, Clone, Copy, PartialEq, Eq, Structural)]
pub enum DeviceKind {
    Local,
    Remote,
    Usb,
    /// A device type outside the trio above.
    Other,
}

/// Minimal owned snapshot of a process visible on a device.
#[derive(Debug, Clone)]
pub struct ProcessInfo {
    pub pid: u32,
    pub name: String,
    /// Parent pid, where the platform exposes it.
    pub ppid: Option<u32>,
}

/// [`ProcessInfo`] with its name as a character sequence.
pub struct ProcessView {
    pub pid: u32,
    pub name: Seq<char>,
    pub ppid: Option<u32>,
}

impl View for ProcessInfo {
    type V = ProcessView;

    open spec fn view(&self) -> ProcessView {
        ProcessView { pid: self.pid, name: self.name@, ppid: self.ppid }
    }
}

/// A list of processes with their names as character sequences.
pub open spec fn process_views(ps: Seq<ProcessInfo>) -> Seq<ProcessView> {
    ps.map_values(|p: ProcessInfo| p@)
}

/// A process as the platform reports it.
#[derive(Debug, Clone)]
pub struct ProcessReport {
    pub pid: u32,
    pub name: String,
    /// Parent pid, where it is reported as a number.
    pub ppid: Option<i64>,
}

/// The process that a report is about. Of the parent's number the low half
/// counts.
pub open spec fn reported_process(report: ProcessReport) -> ProcessView {
    ProcessView {
        pid: report.pid,
        name: report.name@,
        ppid: match report.ppid {
            Some(i) => Some(i as u32),
            None => None,
        },
    }
}

impl ProcessInfo {
    /// The process that a report is about.
    pub fn from_report(report: &ProcessReport) -> (r: ProcessInfo)
        ensures
            r@ == reported_process(*report),
    {
        ProcessInfo {
            pid: report.pid,
            name: report.name.clone(),
            ppid: match report.ppid {
                Some(i) => Some(#[verifier::truncate] (i as u32)),
                None => None,
            },
        }
    }
}

/// The processes that are reported, in the order of the reports, none left
/// out.
pub fn processes(reports: &[ProcessReport]) -> (r: Vec<ProcessInfo>)
    ensures
        process_views(r@) == reports@.map_values(|p: ProcessReport| reported_process(p)),
{
    let mut out: Vec<ProcessInfo> = Vec::new();
    let mut i: usize = 0;
    while i < reports.len()
        invariant
            i <= reports.len(),
            out.len() == i,
            forall|j: int| 0 <= j < i ==> (#[trigger] out[j])@ == reported_process(reports[j]),
        decreases reports.len() - i,
    {
        out.push(ProcessInfo::from_report(&reports[i]));
        i += 1;
    }
    assert(process_views(out@) =~= reports@.map_values(|p: ProcessReport| reported_process(p)));
    out
}

/// How the name of a process is compared with the one asked for.
#[derive(Debug, Clone, Copy, PartialEq, Eq, Structural)]
pub enum NameMatch {
    /// The names are the same.
    Exact,
    /// The name asked for stands somewhere in the name of the process, ASCII
    /// case aside.
    SubstringIgnoringCase,
}

/// Whether the name of a process is one that is asked for by `name`.
pub open spec fn name_fits(process: Seq<char>, name: Seq<char>, rule: NameMatch) -> bool {
    match rule {
        NameMatch::Exact => process == name,
        NameMatch::SubstringIgnoringCase => holds_ignoring_case(process, name),
    }
}

impl NameMatch {
    /// The rule of a platform: a case-insensitive substring on Windows,
    /// case-sensitive elsewhere.
    pub fn on_platform(windows: bool) -> (r: NameMatch)
        ensures
            r == if windows {
                NameMatch::SubstringIgnoringCase
            } else {
                NameMatch::Exact
            },
    {
        if windows {
            NameMatch::SubstringIgnoringCase
        } else {
            NameMatch::Exact
        }
    }

    /// Whether a process of this name is one that is asked for by `name`.
    pub fn accepts(self, process: &str, name: &str) -> (r: bool)
        ensures
            r == name_fits(process@, name@, self),
    {
        match self {
            NameMatch::Exact => same_text(process, name),
            NameMatch::SubstringIgnoringCase => contains_ignoring_case(process, name),
        }
    }
}

/// Whether a process has the name asked for.
pub open spec fn named(p: ProcessView, name: Seq<char>, rule: NameMatch) -> bool {
    name_fits(p.name, name, rule)
}

/// Whether one of the processes has the name asked for and this pid.
pub open spec fn same_name_pid(
    ps: Seq<ProcessView>,
    name: Seq<char>,
    rule: NameMatch,
    pid: u32,
) -> bool {
    exists|j: int| 0 <= j < ps.len() && named(#[trigger] ps[j], name, rule) && ps[j].pid == pid
}

/// Whether a process has the name asked for and a known parent that is no
/// process of that name.
pub open spec fn is_main(
    ps: Seq<ProcessView>,
    name: Seq<char>,
    rule: NameMatch,
    p: ProcessView,
) -> bool {
    &&& named(p, name, rule)
    &&& p.ppid matches Some(parent)
    &&& !same_name_pid(ps, name, rule, parent)
}

/// Whether the process at `i` is the first with the name.
pub open spec fn first_named(
    ps: Seq<ProcessView>,
    name: Seq<char>,
    rule: NameMatch,
    i: int,
) -> bool {
    &&& 0 <= i < ps.len()
    &&& named(ps[i], name, rule)
    &&& forall|j: int| 0 <= j < i ==> !named(#[trigger] ps[j], name, rule)
}

/// Whether the process at `i` is the first main one of the name.
pub open spec fn first_main(
    ps: Seq<ProcessView>,
    name: Seq<char>,
    rule: NameMatch,
    i: int,
) -> bool {
    &&& 0 <= i < ps.len()
    &&& is_main(ps, name, rule, ps[i])
    &&& forall|j: int| 0 <= j < i ==> !is_main(ps, name, rule, #[trigger] ps[j])
}

/// The pid of the first process with the name.
pub open spec fn pid_by_name(
    ps: Seq<ProcessView>,
    name: Seq<char>,
    rule: NameMatch,
) -> Option<u32> {
    if exists|i: int| first_named(ps, name, rule, i) {
        Some(ps[choose|i: int| first_named(ps, name, rule, i)].pid)
    } else {
        None
    }
}

/// The pid of the first main process of the name.
pub open spec fn main_pid_by_name(
    ps: Seq<ProcessView>,
    name: Seq<char>,
    rule: NameMatch,
) -> Option<u32> {
    if exists|i: int| first_main(ps, name, rule, i) {
        Some(ps[choose|i: int| first_main(ps, name, rule, i)].pid)
    } else {
        None
    }
}

/// Finds the first process with the name.
pub fn find_by_name(ps: &[ProcessInfo], name: &str, rule: NameMatch) -> (r: Result<u32, Error>)
    ensures
        match pid_by_name(process_views(ps@), name@, rule) {
            Some(pid) => r is Ok && r->Ok_0 == pid,
            None => r is Err && r->Err_0@ == ErrorView::ProcessNotFound(name@),
        },
{
    let ghost views = process_views(ps@);
    let mut i: usize = 0;
    while i < ps.len()
        invariant
            i <= ps.len(),
            views == process_views(ps@),
            forall|j: int| 0 <= j < i ==> !named(#[trigger] views[j], name@, rule),
        decreases ps.len() - i,
    {
        assert(views[i as int] == ps[i as int]@);
        if rule.accepts(ps[i].name.as_str(), name) {
            proof {
                assert(first_named(views, name@, rule, i as int));
                lemma_first_named_unique(views, name@, rule, i as int);
            }
            return Ok(ps[i].pid);
        }
        i += 1;
    }
    Err(Error::ProcessNotFound(name.to_owned()))
}

/// Whether one of the processes has the name and this pid.
fn has_same_name_pid(ps: &[ProcessInfo], name: &str, rule: NameMatch, pid: u32) -> (r: bool)
    ensures
        r == same_name_pid(process_views(ps@), name@, rule, pid),
{
    let ghost views = process_views(ps@);
    let mut i: usize = 0;
    while i < ps.len()
        invariant
            i <= ps.len(),
            views == process_views(ps@),
            forall|j: int|
                0 <= j < i ==> !(named(#[trigger] views[j], name@, rule) && views[j].pid == pid),
        decreases ps.len() - i,
    {
        assert(views[i as int] == ps[i as int]@);
        if ps[i].pid == pid && rule.accepts(ps[i].name.as_str(), name) {
            return true;
        }
        i += 1;
    }
    false
}

/// Finds the main process among those with the name: the first whose parent
/// is known and is not itself one of them.
pub fn find_main_by_name(ps: &[ProcessInfo], name: &str, rule: NameMatch) -> (r: Result<u32, Error>)
    ensures
        match main_pid_by_name(process_views(ps@), name@, rule) {
            Some(pid) => r is Ok && r->Ok_0 == pid,
            None => r is Err && r->Err_0@ == ErrorView::ProcessNotFound(name@),
        },
{
    let ghost views = process_views(ps@);
    let mut i: usize = 0;
    while i < ps.len()
        invariant
            i <= ps.len(),
            views == process_views(ps@),
            forall|j: int| 0 <= j < i ==> !is_main(views, name@, rule, #[trigger] views[j]),
        decreases ps.len() - i,
    {
        assert(views[i as int] == ps[i as int]@);
        if rule.accepts(ps[i].name.as_str(), name) {
            match ps[i].ppid {
                Some(parent) => {
                    if !has_same_name_pid(ps, name, rule, parent) {
                        proof {
                            assert(first_main(views, name@, rule, i as int));
                            lemma_first_main_unique(views, name@, rule, i as int);
                        }
                        return Ok(ps[i].pid);
                    }
                },
                None => {},
            }
        }
        i += 1;
    }
    Err(Error::ProcessNotFound(name.to_owned()))
}

/// There is only one first process with the name.
proof fn lemma_first_named_unique(ps: Seq<ProcessView>, name: Seq<char>, rule: NameMatch, i: int)
    requires
        first_named(ps, name, rule, i),
    ensures
        (choose|k: int| first_named(ps, name, rule, k)) == i,
{
    let k = choose|k: int| first_named(ps, name, rule, k);
    assert(first_named(ps, name, rule, k));
    if k < i {
        assert(!named(ps[k], name, rule));
    } else if i < k {
        assert(!named(ps[i], name, rule));
    }
}

/// There is only one first main process of the name.
proof fn lemma_first_main_unique(ps: Seq<ProcessView>, name: Seq<char>, rule: NameMatch, i: int)
    requires
        first_main(ps, name, rule, i),
    ensures
        (choose|k: int| first_main(ps, name, rule, k)) == i,
{
    let k = choose|k: int| first_main(ps, name, rule, k);
    assert(first_main(ps, name, rule, k));
    if k < i {
        assert(!is_main(ps, name, rule, ps[k]));
    } else if i < k {
        assert(!is_main(ps, name, rule, ps[i]));
    }
}

/// Whatever has the property at `n` has it first somewhere up to `n`.
proof fn lemma_first_named_exists(ps: Seq<ProcessView>, name: Seq<char>, rule: NameMatch, n: int)
    requires
        0 <= n < ps.len(),
        named(ps[n], name, rule),
    ensures
        exists|i: int| first_named(ps, name, rule, i),
    decreases n,
{
    if exists|j: int| 0 <= j < n && named(#[trigger] ps[j], name, rule) {
        let j = choose|j: int| 0 <= j < n && named(#[trigger] ps[j], name, rule);
        lemma_first_named_exists(ps, name, rule, j);
    } else {
        assert(first_named(ps, name, rule, n));
    }
}

/// Whatever is a main process at `n` is one first somewhere up to `n`.
proof fn lemma_first_main_exists(ps: Seq<ProcessView>, name: Seq<char>, rule: NameMatch, n: int)
    requires
        0 <= n < ps.len(),
        is_main(ps, name, rule, ps[n]),
    ensures
        exists|i: int| first_main(ps, name, rule, i),
    decreases n,
{
    if exists|j: int| 0 <= j < n && is_main(ps, name, rule, #[trigger] ps[j]) {
        let j = choose|j: int| 0 <= j < n && is_main(ps, name, rule, #[trigger] ps[j]);
        lemma_first_main_exists(ps, name, rule, j);
    } else {
        assert(first_main(ps, name, rule, n));
    }
}

/// Looking a name up finds a process of that name whenever there is one, and
/// nothing else.
pub proof fn lookup_finds_a_process_of_the_name(
    ps: Seq<ProcessView>,
    name: Seq<char>,
    rule: NameMatch,
)
    ensures
        pid_by_name(ps, name, rule) is Some <==> exists|i: int|
            0 <= i < ps.len() && named(#[trigger] ps[i], name, rule),
        pid_by_name(ps, name, rule) matches Some(pid) ==> same_name_pid(ps, name, rule, pid),
{
    if exists|i: int| 0 <= i < ps.len() && named(#[trigger] ps[i], name, rule) {
        let n = choose|i: int| 0 <= i < ps.len() && named(#[trigger] ps[i], name, rule);
        lemma_first_named_exists(ps, name, rule, n);
    }
    if exists|i: int| first_named(ps, name, rule, i) {
        let k = choose|i: int| first_named(ps, name, rule, i);
        assert(named(ps[k], name, rule));
    }
}

/// The main process has the name, and its parent is no process of that name;
/// it is found whenever there is one.
pub proof fn main_process_is_no_child_of_its_name(
    ps: Seq<ProcessView>,
    name: Seq<char>,
    rule: NameMatch,
)
    ensures
        main_pid_by_name(ps, name, rule) is Some <==> exists|i: int|
            0 <= i < ps.len() && is_main(ps, name, rule, #[trigger] ps[i]),
        main_pid_by_name(ps, name, rule) matches Some(pid) ==> exists|i: int|
            0 <= i < ps.len() && is_main(ps, name, rule, #[trigger] ps[i]) && ps[i].pid == pid,
        main_pid_by_name(ps, name, rule) is Some ==> pid_by_name(ps, name, rule) is Some,
{
    if exists|i: int| 0 <= i < ps.len() && is_main(ps, name, rule, #[trigger] ps[i]) {
        let n = choose|i: int| 0 <= i < ps.len() && is_main(ps, name, rule, #[trigger] ps[i]);
        lemma_first_main_exists(ps, name, rule, n);
    }
    if exists|i: int| first_main(ps, name, rule, i) {
        let k = choose|i: int| first_main(ps, name, rule, i);
        assert(is_main(ps, name, rule, ps[k]));
        lemma_first_named_exists(ps, name, rule, k);
    }
}

/// Off Windows a name fits only itself; on Windows it fits every name that
/// reads as it somewhere, but for ASCII case.
pub proof fn names_fit_by_the_rule(process: Seq<char>, name: Seq<char>)
    ensures
        name_fits(process, name, NameMatch::Exact) <==> process == name,
        name_fits(process, name, NameMatch::SubstringIgnoringCase) <==> exists|i: int|
            reads_at(process, name, i),
{
    found_where_it_reads_the_same(process, name);
}

/// The pid that a name gives is that of an entry whose name fits, with no such
/// entry before it; without one the name gives nothing.
pub proof fn lookup_gives_the_first_that_fits(
    ps: Seq<ProcessView>,
    name: Seq<char>,
    rule: NameMatch,
)
    ensures
        match pid_by_name(ps, name, rule) {
            Some(pid) => exists|i: int|
                {
                    &&& 0 <= i < ps.len()
                    &&& (#[trigger] ps[i]).pid == pid
                    &&& name_fits(ps[i].name, name, rule)
                    &&& forall|j: int|
                        0 <= j < i ==> !name_fits((#[trigger] ps[j]).name, name, rule)
                },
            None => forall|j: int|
                0 <= j < ps.len() ==> !name_fits((#[trigger] ps[j]).name, name, rule),
        },
{
    lookup_finds_a_process_of_the_name(ps, name, rule);
    match pid_by_name(ps, name, rule) {
        Some(pid) => {
            let i = choose|i: int| first_named(ps, name, rule, i);
            assert(first_named(ps, name, rule, i));
            assert(ps[i].pid == pid);
            assert forall|j: int| 0 <= j < i implies !name_fits(
                (#[trigger] ps[j]).name,
                name,
                rule,
            ) by {
                assert(!named(ps[j], name, rule));
            }
        },
        None => {
            assert forall|j: int| 0 <= j < ps.len() implies !name_fits(
                (#[trigger] ps[j]).name,
                name,
                rule,
            ) by {
                assert(!named(ps[j], name, rule));
            }
        },
    }
}

/// An entry whose name fits and whose parent is known and is none of the
/// entries whose name fits, whatever the order of the pids.
pub open spec fn heads_its_name(
    ps: Seq<ProcessView>,
    name: Seq<char>,
    rule: NameMatch,
    i: int,
) -> bool {
    &&& 0 <= i < ps.len()
    &&& name_fits(ps[i].name, name, rule)
    &&& ps[i].ppid is Some
    &&& forall|j: int|
        0 <= j < ps.len() && name_fits((#[trigger] ps[j]).name, name, rule) ==> ps[j].pid
            != ps[i].ppid->0
}

/// The main pid of a name is that of an entry whose name fits and whose parent
/// is known and differs from the pid of every entry whose name fits, and it is
/// the first such entry; without one the name gives nothing.
pub proof fn main_lookup_gives_the_first_with_a_foreign_parent(
    ps: Seq<ProcessView>,
    name: Seq<char>,
    rule: NameMatch,
)
    ensures
        match main_pid_by_name(ps, name, rule) {
            Some(pid) => exists|i: int|
                {
                    &&& 0 <= i < ps.len()
                    &&& (#[trigger] ps[i]).pid == pid
                    &&& heads_its_name(ps, name, rule, i)
                    &&& forall|j: int| 0 <= j < i ==> !heads_its_name(ps, name, rule, j)
                },
            None => forall|j: int| !heads_its_name(ps, name, rule, j),
        },
{
    assert forall|i: int| 0 <= i < ps.len() implies (is_main(ps, name, rule, #[trigger] ps[i])
        <==> heads_its_name(ps, name, rule, i)) by {
        let p = ps[i];
        if is_main(ps, name, rule, p) {
            let parent = p.ppid->0;
            assert forall|j: int|
                0 <= j < ps.len() && name_fits(
                    (#[trigger] ps[j]).name,
                    name,
                    rule,
                ) implies ps[j].pid != parent by {
                assert(named(ps[j], name, rule));
            }
        }
        if heads_its_name(ps, name, rule, i) {
            let parent = p.ppid->0;
            if same_name_pid(ps, name, rule, parent) {
                let j = choose|j: int|
                    0 <= j < ps.len() && named(#[trigger] ps[j], name, rule) && ps[j].pid == parent;
                assert(name_fits(ps[j].name, name, rule));
            }
        }
    }
    main_process_is_no_child_of_its_name(ps, name, rule);
    match main_pid_by_name(ps, name, rule) {
        Some(pid) => {
            let i = choose|i: int| first_main(ps, name, rule, i);
            assert(first_main(ps, name, rule, i));
            assert(ps[i].pid == pid);
            assert(is_main(ps, name, rule, ps[i]));
            assert forall|j: int| 0 <= j < i implies !heads_its_name(ps, name, rule, j) by {
                assert(!is_main(ps, name, rule, ps[j]));
            }
        },
        None => {
            assert forall|j: int| !heads_its_name(ps, name, rule, j) by {
                if 0 <= j < ps.len() {
                    assert(!is_main(ps, name, rule, ps[j]));
                }
            }
        },
    }
}

/// A reported process keeps its pid and name, and a parent pid that is one.
pub proof fn reports_are_taken_as_they_are(report: ProcessReport)
    ensures
        reported_process(report).pid == report.pid,
        reported_process(report).name == report.name@,
        reported_process(report).ppid is Some <==> report.ppid is Some,
        report.ppid matches Some(n) ==> 0 <= n <= u32::MAX ==> reported_process(report).ppid->0
            == n,
{
}

/// The view of a process keeps what it holds, and that of a list every entry
/// in its place.
pub proof fn views_keep_the_processes(p: ProcessInfo, ps: Seq<ProcessInfo>)
    ensures
        p@.pid == p.pid,
        p@.name == p.name@,
        p@.ppid == p.ppid,
        process_views(ps).len() == ps.len(),
        forall|i: int| 0 <= i < ps.len() ==> (#[trigger] process_views(ps)[i]) == ps[i]@,
{
}

/// Looking up the main process of a name gives the pid of the first entry whose
/// name fits and whose parent is known and is none of the entries whose name
/// fits: whichever pid is the larger. Before it, and where there is none, every
/// entry whose name fits has an unknown parent, or one among them.
pub proof fn main_process_has_a_parent_of_another_name(
    ps: &[ProcessInfo],
    name: &str,
    rule: NameMatch,
    r: Result<u32, Error>,
)
    requires
        call_ensures(find_main_by_name, (ps, name, rule), r),
    ensures
        r matches Ok(pid) ==> exists|i: int|
            {
                &&& 0 <= i < ps@.len()
                &&& (#[trigger] ps@[i]).pid == pid
                &&& name_fits(ps@[i].name@, name@, rule)
                &&& ps@[i].ppid is Some
                &&& forall|j: int|
                    0 <= j < ps@.len() && name_fits((#[trigger] ps@[j]).name@, name@, rule)
                        ==> ps@[j].pid != ps@[i].ppid->0
                &&& forall|k: int|
                    0 <= k < i && name_fits((#[trigger] ps@[k]).name@, name@, rule)
                        && ps@[k].ppid is Some ==> exists|j: int|
                        0 <= j < ps@.len() && name_fits((#[trigger] ps@[j]).name@, name@, rule)
                            && ps@[j].pid == ps@[k].ppid->0
            },
        r matches Err(e) ==> {
            &&& e is ProcessNotFound
            &&& e->ProcessNotFound_0@ == name@
            &&& forall|k: int|
                0 <= k < ps@.len() && name_fits((#[trigger] ps@[k]).name@, name@, rule)
                    && ps@[k].ppid is Some ==> exists|j: int|
                    0 <= j < ps@.len() && name_fits((#[trigger] ps@[j]).name@, name@, rule)
                        && ps@[j].pid == ps@[k].ppid->0
        },
{
    let views = process_views(ps@);
    main_lookup_gives_the_first_with_a_foreign_parent(views, name@, rule);
    assert forall|i: int| 0 <= i < ps@.len() implies #[trigger] views[i] == ps@[i]@ by {}
    assert forall|k: int|
        0 <= k < ps@.len() && name_fits((#[trigger] ps@[k]).name@, name@, rule)
            && ps@[k].ppid is Some && !heads_its_name(views, name@, rule, k) implies exists|j: int|
        0 <= j < ps@.len() && name_fits((#[trigger] ps@[j]).name@, name@, rule) && ps@[j].pid
            == ps@[k].ppid->0 by {
        assert(views[k] == ps@[k]@);
        let j = choose|j: int|
            0 <= j < views.len() && name_fits((#[trigger] views[j]).name, name@, rule)
                && views[j].pid == views[k].ppid->0;
        assert(views[j] == ps@[j]@);
        assert(name_fits(ps@[j].name@, name@, rule));
    }
    match r {
        Ok(pid) => {
            let i = choose|i: int|
                {
                    &&& 0 <= i < views.len()
                    &&& (#[trigger] views[i]).pid == pid
                    &&& heads_its_name(views, name@, rule, i)
                    &&& forall|j: int| 0 <= j < i ==> !heads_its_name(views, name@, rule, j)
                };
            assert(views[i] == ps@[i]@);
            assert(ps@[i].pid == pid);
            assert forall|j: int|
                0 <= j < ps@.len() && name_fits(
                    (#[trigger] ps@[j]).name@,
                    name@,
                    rule,
                ) implies ps@[j].pid != ps@[i].ppid->0 by {
                assert(views[j] == ps@[j]@);
            }
        },
        Err(e) => {},
    }
}

/// Looking a name up gives the pid of the first entry whose name fits, and
/// fails with the name where there is none.
pub proof fn first_fitting_process_is_found(
    ps: &[ProcessInfo],
    name: &str,
    rule: NameMatch,
    r: Result<u32, Error>,
)
    requires
        call_ensures(find_by_name, (ps, name, rule), r),
    ensures
        r matches Ok(pid) ==> exists|i: int|
            {
                &&& 0 <= i < ps@.len()
                &&& (#[trigger] ps@[i]).pid == pid
                &&& name_fits(ps@[i].name@, name@, rule)
                &&& forall|k: int|
                    0 <= k < i ==> !name_fits((#[trigger] ps@[k]).name@, name@, rule)
            },
        r matches Err(e) ==> {
            &&& e is ProcessNotFound
            &&& e->ProcessNotFound_0@ == name@
            &&& forall|k: int|
                0 <= k < ps@.len() ==> !name_fits((#[trigger] ps@[k]).name@, name@, rule)
        },
{
    let views = process_views(ps@);
    lookup_gives_the_first_that_fits(views, name@, rule);
    match r {
        Ok(pid) => {
            let i = choose|i: int|
                {
                    &&& 0 <= i < views.len()
                    &&& (#[trigger] views[i]).pid == pid
                    &&& name_fits(views[i].name, name@, rule)
                    &&& forall|j: int|
                        0 <= j < i ==> !name_fits((#[trigger] views[j]).name, name@, rule)
                };
            assert(views[i] == ps@[i]@);
            assert(ps@[i].pid == pid);
            assert forall|k: int| 0 <= k < i implies !name_fits(
                (#[trigger] ps@[k]).name@,
                name@,
                rule,
            ) by {
                assert(views[k] == ps@[k]@);
            }
        },
        Err(e) => {
            assert forall|k: int| 0 <= k < ps@.len() implies !name_fits(
                (#[trigger] ps@[k]).name@,
                name@,
                rule,
            ) by {
                assert(views[k] == ps@[k]@);
            }
        },
    }
}

/// Every report gives one process in its place, with its pid, its name and the
/// low half of its parent's number.
pub proof fn every_report_gives_its_process(reports: &[ProcessReport], r: Vec<ProcessInfo>)
    requires
        call_ensures(processes, (reports,), r),
    ensures
        r@.len() == reports@.len(),
        forall|i: int|
            0 <= i < reports@.len() ==> {
                let p = #[trigger] r@[i];
                &&& p.pid == reports@[i].pid
                &&& p.name@ == reports@[i].name@
                &&& p.ppid is Some <==> reports@[i].ppid is Some
                &&& reports@[i].ppid is Some ==> p.ppid->0 == reports@[i].ppid->0 % 0x1_0000_0000
            },
{
    let views = process_views(r@);
    assert(views.len() == reports@.len());
    assert forall|i: int| 0 <= i < reports@.len() implies {
        let p = #[trigger] r@[i];
        &&& p.pid == reports@[i].pid
        &&& p.name@ == reports@[i].name@
        &&& p.ppid is Some <==> reports@[i].ppid is Some
        &&& reports@[i].ppid is Some ==> p.ppid->0 == reports@[i].ppid->0 % 0x1_0000_0000
    } by {
        assert(views[i] == r@[i]@);
        assert(views[i] == reported_process(reports@[i]));
        if let Some(n) = reports@[i].ppid {
            assert(n as u32 == n % 0x1_0000_0000) by (bit_vector);
        }
    }
}

/// On Windows the name asked for may stand anywhere in the name of the process,
/// but for ASCII case; elsewhere the names are the same.
pub proof fn names_are_compared_by_platform(
    windows: bool,
    rule: NameMatch,
    process: &str,
    name: &str,
    r: bool,
)
    requires
        call_ensures(NameMatch::on_platform, (windows,), rule),
        call_ensures(NameMatch::accepts, (rule, process, name), r),
    ensures
        !windows ==> (r <==> process@ == name@),
        windows ==> (r <==> exists|i: int| reads_at(process@, name@, i)),
{
    names_fit_by_the_rule(process@, name@);
}

} // verus!
