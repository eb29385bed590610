//! Capture-file discovery: which files of a directory are captures, newest
//! first, and what to call a new one.

use std::path::PathBuf;
use vstd::prelude::*;
use vstd::string::*;

use super::{in_context, io_err};
use crate::error::{framed_by, lemma_framed_by, Error, ErrorView};
use crate::text::{join, same_text};

verus! {

/// An owned path of the operating system.
#[verifier::external_type_specification]
#[verifier::external_body]
pub struct ExPathBuf(std::path::PathBuf);

/// `PathBuf::clone` gives the same path.
pub assume_specification[ <std::path::PathBuf as Clone>::clone ](p: &std::path::PathBuf) -> (r:
    std::path::PathBuf)
    ensures
        r == *p,
;

/// A capture file found in a directory.
#[derive(Debug, Clone)]
pub struct CaptureFile {
    pub path: PathBuf,
    pub name: String,
    pub size: u64,
    /// When the file was last modified, in nanoseconds since the Unix epoch.
    pub mtime: i128,
}

/// [`CaptureFile`] with its name as a character sequence.
pub struct FileView {
    pub path: PathBuf,
    pub name: Seq<char>,
    pub size: u64,
    pub mtime: i128,
}

impl View for CaptureFile {
    type V = FileView;

    open spec fn view(&self) -> FileView {
        FileView { path: self.path, name: self.name@, size: self.size, mtime: self.mtime }
    }
}

/// The files of a list with their names as character sequences.
pub open spec fn file_views(files: Seq<CaptureFile>) -> Seq<FileView> {
    files.map_values(|f: CaptureFile| f@)
}

/// What the file system knows of a file.
#[derive(Debug)]
pub struct FileMeta {
    pub len: u64,
    /// When it was last modified, where that is known.
    pub modified: Option<i128>,
}

/// One entry of a directory.
#[derive(Debug)]
pub struct DirItem {
    pub path: PathBuf,
    pub is_file: bool,
    /// The extension of the file name, where it has one that is text.
    pub ext: Option<String>,
    /// The file name, where it is text.
    pub file_name: Option<String>,
    /// What the file system knows of it, or why it does not tell.
    pub meta: Result<FileMeta, String>,
}

/// What reading a directory gave.
#[derive(Debug)]
pub enum DirListing {
    /// There is no such directory.
    Missing,
    /// The directory cannot be read.
    Unreadable(String),
    /// Its entries, or why one could not be read.
    Entries(Vec<Result<DirItem, String>>),
}

/// Whether an entry is a capture file.
pub open spec fn wanted(item: DirItem, ext: Seq<char>) -> bool {
    &&& item.is_file
    &&& item.ext matches Some(e)
    &&& e@ == ext
}

/// The capture file that an entry stands for. A name that is no text is shown
/// empty, an unknown time counts as the epoch.
pub open spec fn file_of(item: DirItem, meta: FileMeta) -> FileView {
    FileView {
        path: item.path,
        name: match item.file_name {
            Some(n) => n@,
            None => Seq::empty(),
        },
        size: meta.len,
        mtime: match meta.modified {
            Some(t) => t,
            None => 0,
        },
    }
}

/// The capture files among the entries in the order of the entries, or the
/// first thing that went wrong.
pub open spec fn files_of(
    items: Seq<Result<DirItem, String>>,
    ext: Seq<char>,
) -> Result<Seq<FileView>, ErrorView>
    decreases items.len(),
{
    if items.len() == 0 {
        Ok(Seq::empty())
    } else {
        match files_of(items.drop_last(), ext) {
            Err(e) => Err(e),
            Ok(files) => match items.last() {
                Err(e) => Err(ErrorView::Record(in_context("dirent"@, e@))),
                Ok(item) => if wanted(item, ext) {
                    match item.meta {
                        Err(e) => Err(ErrorView::Record(in_context("stat"@, e@))),
                        Ok(meta) => Ok(files.push(file_of(item, meta))),
                    }
                } else {
                    Ok(files)
                },
            },
        }
    }
}

/// The files of one modification time.
pub open spec fn of_time(files: Seq<FileView>, t: i128) -> Seq<FileView> {
    files.filter(|f: FileView| f.mtime == t)
}

/// No file is older than one behind it.
pub open spec fn newest_first(files: Seq<FileView>) -> bool {
    forall|i: int, j: int|
        0 <= i < j < files.len() ==> (#[trigger] files[i]).mtime >= (#[trigger] files[j]).mtime
}

/// `sorted` holds the files of `files`, newest first; files of one time keep
/// their order.
pub open spec fn sorts(sorted: Seq<FileView>, files: Seq<FileView>) -> bool {
    &&& newest_first(sorted)
    &&& forall|t: i128| #[trigger] of_time(sorted, t) == of_time(files, t)
}

/// Lists the files with the extension `ext` in a directory, newest first. A
/// missing directory is treated as empty, not as an error. `dir` is how the
/// directory is shown in errors.
pub fn list_captures(dir: &str, listing: DirListing, ext: &str) -> (r: Result<
    Vec<CaptureFile>,
    Error,
>)
    ensures
        match listing {
            DirListing::Missing => r is Ok && r->Ok_0@.len() == 0,
            DirListing::Unreadable(e) => r is Err && r->Err_0@ == ErrorView::Record(
                in_context("readdir "@ + dir@, e@),
            ),
            DirListing::Entries(items) => match files_of(items@, ext@) {
                Ok(files) => r is Ok && sorts(file_views(r->Ok_0@), files),
                Err(e) => r is Err && r->Err_0@ == e,
            },
        },
{
    let items = match listing {
        DirListing::Missing => return Ok(Vec::new()),
        DirListing::Unreadable(e) => {
            let ctx = join("readdir ", dir);
            return Err(io_err(ctx.as_str(), e.as_str()));
        },
        DirListing::Entries(items) => items,
    };
    let mut out: Vec<CaptureFile> = Vec::new();
    let mut i: usize = 0;
    assert(items@.take(0) =~= Seq::<Result<DirItem, String>>::empty());
    assert(file_views(out@) =~= Seq::<FileView>::empty());
    while i < items.len()
        invariant
            i <= items.len(),
            listing == DirListing::Entries(items),
            files_of(items@.take(i as int), ext@) is Ok,
            sorts(file_views(out@), files_of(items@.take(i as int), ext@)->Ok_0),
        decreases items.len() - i,
    {
        let ghost upto = items@.take(i as int + 1);
        assert(upto.drop_last() =~= items@.take(i as int));
        match &items[i] {
            Err(e) => {
                proof {
                    lemma_first_fault(items@, ext@, i as int + 1);
                }
                return Err(io_err("dirent", e.as_str()));
            },
            Ok(item) => {
                let is_wanted = item.is_file && match &item.ext {
                    Some(e) => same_text(e.as_str(), ext),
                    None => false,
                };
                if is_wanted {
                    match &item.meta {
                        Err(e) => {
                            proof {
                                lemma_first_fault(items@, ext@, i as int + 1);
                            }
                            return Err(io_err("stat", e.as_str()));
                        },
                        Ok(meta) => {
                            let file = CaptureFile {
                                path: item.path.clone(),
                                name: match &item.file_name {
                                    Some(n) => n.clone(),
                                    None => String::new(),
                                },
                                size: meta.len,
                                mtime: match meta.modified {
                                    Some(t) => t,
                                    None => 0,
                                },
                            };
                            let ghost files = files_of(items@.take(i as int), ext@)->Ok_0;
                            insert_file(&mut out, file, Ghost(files));
                        },
                    }
                }
            },
        }
        i += 1;
    }
    assert(items@.take(items.len() as int) =~= items@);
    Ok(out)
}

/// Puts a file behind all that are not older.
fn insert_file(out: &mut Vec<CaptureFile>, file: CaptureFile, Ghost(files): Ghost<Seq<FileView>>)
    requires
        sorts(file_views(old(out)@), files),
    ensures
        sorts(file_views(final(out)@), files.push(file@)),
{
    let mut at: usize = 0;
    let ghost before = file_views(out@);
    let ghost x = file@;
    while at < out.len() && out[at].mtime >= file.mtime
        invariant
            at <= out.len(),
            before == file_views(out@),
            file@ == x,
            forall|j: int| 0 <= j < at ==> (#[trigger] before[j]).mtime >= x.mtime,
        decreases out.len() - at,
    {
        assert(before[at as int] == out[at as int]@);
        at += 1;
    }
    proof {
        if at < out.len() {
            assert(before[at as int] == out[at as int]@);
        }
        assert forall|j: int| at <= j < before.len() implies (#[trigger] before[j]).mtime
            < x.mtime by {
            if at < j {
                assert(before[at as int].mtime >= before[j].mtime);
            }
        }
        lemma_insert_sorts(before, files, x, at as int);
    }
    out.insert(at, file);
    assert(file_views(out@) =~= before.insert(at as int, x));
}

/// A file put behind all that are not older, and before all that are, keeps
/// the list sorted.
proof fn lemma_insert_sorts(sorted: Seq<FileView>, files: Seq<FileView>, x: FileView, at: int)
    requires
        sorts(sorted, files),
        0 <= at <= sorted.len(),
        forall|j: int| 0 <= j < at ==> (#[trigger] sorted[j]).mtime >= x.mtime,
        forall|j: int| at <= j < sorted.len() ==> (#[trigger] sorted[j]).mtime < x.mtime,
    ensures
        sorts(sorted.insert(at, x), files.push(x)),
{
    let s = sorted.insert(at, x);
    let a = sorted.take(at);
    let b = sorted.skip(at);
    assert(sorted =~= a + b);
    assert(s =~= a + (seq![x] + b));
    assert(files.push(x) =~= files + seq![x]);
    assert forall|i: int, j: int| 0 <= i < j < s.len() implies (#[trigger] s[i]).mtime >= (
    #[trigger] s[j]).mtime by {
        let fi = if i < at {
            sorted[i]
        } else if i == at {
            x
        } else {
            sorted[i - 1]
        };
        let fj = if j < at {
            sorted[j]
        } else if j == at {
            x
        } else {
            sorted[j - 1]
        };
        assert(s[i] == fi && s[j] == fj);
    }
    assert forall|t: i128| #[trigger] of_time(s, t) == of_time(files.push(x), t) by {
        let p = |f: FileView| f.mtime == t;
        Seq::filter_distributes_over_add(a, seq![x] + b, p);
        Seq::filter_distributes_over_add(seq![x], b, p);
        Seq::filter_distributes_over_add(a, b, p);
        Seq::filter_distributes_over_add(files, seq![x], p);
        assert(of_time(sorted, t) == of_time(files, t));
        if t == x.mtime {
            assert forall|i: int| 0 <= i < b.len() implies !p(#[trigger] b[i]) by {
                assert(b[i] == sorted[at + i]);
            }
            lemma_filter_none(b, p);
            assert(a.filter(p) + (seq![x].filter(p) + b.filter(p)) =~= (a.filter(p) + b.filter(p))
                + seq![x].filter(p));
        } else {
            lemma_filter_none(seq![x], p);
            assert(a.filter(p) + (seq![x].filter(p) + b.filter(p)) =~= (a.filter(p) + b.filter(p))
                + seq![x].filter(p));
        }
    }
}

/// Nothing is left where nothing qualifies.
proof fn lemma_filter_none(s: Seq<FileView>, p: spec_fn(FileView) -> bool)
    requires
        forall|i: int| 0 <= i < s.len() ==> !p(#[trigger] s[i]),
    ensures
        s.filter(p) == Seq::<FileView>::empty(),
    decreases s.len(),
{
    reveal(Seq::filter);
    if s.len() > 0 {
        assert forall|i: int| 0 <= i < s.drop_last().len() implies !p(
            #[trigger] s.drop_last()[i],
        ) by {
            assert(s.drop_last()[i] == s[i]);
        }
        lemma_filter_none(s.drop_last(), p);
        assert(!p(s[s.len() - 1]));
    }
}

/// The first thing that goes wrong is what is reported.
proof fn lemma_first_fault(items: Seq<Result<DirItem, String>>, ext: Seq<char>, n: int)
    requires
        0 <= n <= items.len(),
        files_of(items.take(n), ext) is Err,
    ensures
        files_of(items, ext) == files_of(items.take(n), ext),
    decreases items.len(),
{
    if n < items.len() {
        let init = items.drop_last();
        assert(init.take(n) =~= items.take(n));
        lemma_first_fault(init, ext, n);
    } else {
        assert(items.take(n) =~= items);
    }
}

/// Sorting keeps every file and adds none.
pub proof fn sorting_keeps_the_files(sorted: Seq<FileView>, files: Seq<FileView>, f: FileView)
    requires
        sorts(sorted, files),
    ensures
        sorted.contains(f) <==> files.contains(f),
{
    let p = |g: FileView| g.mtime == f.mtime;
    assert(of_time(sorted, f.mtime) == of_time(files, f.mtime));
    lemma_filter_keeps(sorted, p, f);
    lemma_filter_keeps(files, p, f);
}

/// What qualifies is in the filtered list if and only if it is in the list.
proof fn lemma_filter_keeps(s: Seq<FileView>, p: spec_fn(FileView) -> bool, f: FileView)
    requires
        p(f),
    ensures
        s.filter(p).contains(f) <==> s.contains(f),
    decreases s.len(),
{
    reveal(Seq::filter);
    if s.len() > 0 {
        let init = s.drop_last();
        lemma_filter_keeps(init, p, f);
        assert(s =~= init.push(s.last()));
        if s.last() == f {
            assert(s[s.len() - 1] == f);
            let kept = init.filter(p).push(f);
            assert(kept[kept.len() - 1] == f);
        }
        if init.contains(f) {
            let i = choose|i: int| 0 <= i < init.len() && init[i] == f;
            assert(s[i] == f);
        }
        if init.filter(p).contains(f) {
            let i = choose|i: int| 0 <= i < init.filter(p).len() && init.filter(p)[i] == f;
            assert(s.filter(p)[i] == f);
        }
        if s.contains(f) && s.last() != f {
            let i = choose|i: int| 0 <= i < s.len() && s[i] == f;
            assert(init[i] == f);
        }
        if s.filter(p).contains(f) && s.last() != f {
            let i = choose|i: int| 0 <= i < s.filter(p).len() && s.filter(p)[i] == f;
            if p(s.last()) {
                assert(init.filter(p)[i] == f);
            }
        }
    }
}

/// A decimal digit.
pub open spec fn is_digit(c: char) -> bool {
    '0' <= c && c <= '9'
}

/// The number that the two digits at `i` denote.
pub open spec fn two_digits(s: Seq<char>, i: int) -> int {
    10 * (s[i] as int - '0' as int) + (s[i + 1] as int - '0' as int)
}

/// `YYYYMMDD-HHMMSS`, with a month, a day and a time of day that exist; a leap
/// second is the 60th. A year above 9999 is longer and has a plus sign.
pub open spec fn is_stamp(s: Seq<char>) -> bool {
    let n = s.len() as int;
    &&& n >= 15
    &&& if n == 15 {
        is_digit(s[0])
    } else {
        n >= 17 && s[0] == '+'
    }
    &&& forall|i: int| 0 < i < n && i != n - 7 ==> is_digit(#[trigger] s[i])
    &&& 1 <= two_digits(s, n - 11) <= 12
    &&& 1 <= two_digits(s, n - 9) <= 31
    &&& s[n - 7] == '-'
    &&& two_digits(s, n - 6) <= 23
    &&& two_digits(s, n - 4) <= 59
    &&& two_digits(s, n - 2) <= 60
}

/// `chrono::Local::now` in the format `%Y%m%d-%H%M%S`: the local time of the
/// call. Claimed is that its fields are in range and padded to their width;
/// which time it is depends on the clock and is left open. A clock set before
/// 1970 makes the call panic.
#[verifier::external_body]
fn local_stamp() -> (r: String)
    ensures
        is_stamp(r@),
{
    chrono::Local::now().format("%Y%m%d-%H%M%S").to_string()
}

/// `{prefix}-{stamp}.{ext}`.
pub open spec fn name_with(prefix: Seq<char>, stamp: Seq<char>, ext: Seq<char>) -> Seq<char> {
    prefix + "-"@ + stamp + "."@ + ext
}

/// `{prefix}-{stamp}.{ext}`.
pub fn stamped_name(prefix: &str, stamp: &str, ext: &str) -> (r: String)
    ensures
        r@ == name_with(prefix@, stamp@, ext@),
{
    let mut out = join(prefix, "-");
    out.append(stamp);
    out.append(".");
    out.append(ext);
    out
}

/// `{prefix}-YYYYMMDD-HHMMSS.{ext}` in local time. Prefix and extension are
/// the caller's, so that its files look distinct from those of any other
/// consumer that shares the directory.
pub fn timestamped_name(prefix: &str, ext: &str) -> (r: String)
    ensures
        exists|stamp: Seq<char>|
            is_stamp(stamp) && r@ == #[trigger] name_with(prefix@, stamp, ext@),
{
    let stamp = local_stamp();
    stamped_name(prefix, stamp.as_str(), ext)
}

/// Every file listed stands for an entry with the extension asked for, and
/// every such entry is listed.
pub proof fn files_with_the_extension_are_listed(
    items: Seq<Result<DirItem, String>>,
    ext: Seq<char>,
)
    requires
        files_of(items, ext) is Ok,
    ensures
        forall|i: int|
            0 <= i < files_of(items, ext)->Ok_0.len() ==> exists|j: int|
                0 <= j < items.len() && listed_as(
                    #[trigger] items[j],
                    ext,
                    #[trigger] files_of(items, ext)->Ok_0[i],
                ),
        forall|j: int|
            0 <= j < items.len() && (#[trigger] items[j]) is Ok && wanted(items[j]->Ok_0, ext)
                ==> exists|i: int|
                0 <= i < files_of(items, ext)->Ok_0.len() && listed_as(
                    items[j],
                    ext,
                    #[trigger] files_of(items, ext)->Ok_0[i],
                ),
    decreases items.len(),
{
    if items.len() > 0 {
        let init = items.drop_last();
        files_with_the_extension_are_listed(init, ext);
        let before = files_of(init, ext)->Ok_0;
        let files = files_of(items, ext)->Ok_0;
        assert forall|i: int| 0 <= i < files.len() implies exists|j: int|
            0 <= j < items.len() && listed_as(#[trigger] items[j], ext, #[trigger] files[i]) by {
            if i < before.len() {
                assert(files[i] == before[i]);
                let j = choose|j: int|
                    0 <= j < init.len() && listed_as(#[trigger] init[j], ext, before[i]);
                assert(listed_as(items[j], ext, files[i]));
            } else {
                assert(listed_as(items[items.len() - 1], ext, files[i]));
            }
        }
        assert forall|j: int|
            0 <= j < items.len() && (#[trigger] items[j]) is Ok && wanted(
                items[j]->Ok_0,
                ext,
            ) implies exists|i: int|
            0 <= i < files.len() && listed_as(items[j], ext, #[trigger] files[i]) by {
            if j < init.len() {
                assert(init[j] == items[j]);
                let i = choose|i: int|
                    0 <= i < before.len() && listed_as(init[j], ext, #[trigger] before[i]);
                assert(files[i] == before[i]);
            } else {
                assert(listed_as(items[j], ext, files[files.len() - 1]));
            }
        }
    }
}

/// `f` is how an entry with the extension is listed.
pub open spec fn listed_as(item: Result<DirItem, String>, ext: Seq<char>, f: FileView) -> bool {
    &&& item is Ok
    &&& wanted(item->Ok_0, ext)
    &&& item->Ok_0.meta is Ok
    &&& f == file_of(item->Ok_0, item->Ok_0.meta->Ok_0)
}

/// The places of the files of one modification time.
spec fn places_of(files: Seq<FileView>, t: i128) -> Seq<int>
    decreases files.len(),
{
    if files.len() == 0 {
        Seq::empty()
    } else {
        let before = places_of(files.drop_last(), t);
        if files.last().mtime == t {
            before.push(files.len() - 1)
        } else {
            before
        }
    }
}

/// The place of a file among those of its time.
spec fn rank_of(files: Seq<FileView>, k: int) -> int {
    choose|r: int|
        0 <= r < places_of(files, files[k].mtime).len() && #[trigger] places_of(
            files,
            files[k].mtime,
        )[r] == k
}

/// The places go upwards and are those of the files of the time.
proof fn lemma_places(files: Seq<FileView>, t: i128)
    ensures
        places_of(files, t).len() == of_time(files, t).len(),
        forall|r: int|
            0 <= r < places_of(files, t).len() ==> {
                let i = #[trigger] places_of(files, t)[r];
                0 <= i < files.len() && files[i].mtime == t && files[i] == of_time(files, t)[r]
            },
        forall|r: int, s: int|
            0 <= r < s < places_of(files, t).len() ==> (#[trigger] places_of(files, t)[r]) < (
            #[trigger] places_of(files, t)[s]),
        forall|i: int|
            0 <= i < files.len() && (#[trigger] files[i]).mtime == t ==> exists|r: int|
                0 <= r < places_of(files, t).len() && #[trigger] places_of(files, t)[r] == i,
    decreases files.len(),
{
    reveal(Seq::filter);
    let here = places_of(files, t);
    if files.len() > 0 {
        let init = files.drop_last();
        lemma_places(init, t);
        let before = places_of(init, t);
        assert forall|r: int| 0 <= r < here.len() implies {
            let i = #[trigger] here[r];
            0 <= i < files.len() && files[i].mtime == t && files[i] == of_time(files, t)[r]
        } by {
            if r < before.len() {
                assert(here[r] == before[r]);
                assert(init[before[r]] == files[before[r]]);
            }
        }
        assert forall|r: int, s: int| 0 <= r < s < here.len() implies (#[trigger] here[r]) < (
        #[trigger] here[s]) by {
            assert(here[r] == before[r]);
            assert(before[r] < init.len());
            if s < before.len() {
                assert(here[s] == before[s]);
            }
        }
        assert forall|i: int|
            0 <= i < files.len() && (#[trigger] files[i]).mtime == t implies exists|r: int|
            0 <= r < here.len() && #[trigger] here[r] == i by {
            if i < init.len() {
                assert(init[i] == files[i]);
                let r = choose|r: int| 0 <= r < before.len() && #[trigger] before[r] == i;
                assert(here[r] == i);
            } else {
                assert(here[here.len() - 1] == i);
            }
        }
    }
}

/// The rank of the file at a place of its time.
proof fn lemma_rank(files: Seq<FileView>, t: i128, r: int)
    requires
        0 <= r < places_of(files, t).len(),
    ensures
        rank_of(files, places_of(files, t)[r]) == r,
{
    lemma_places(files, t);
    let k = places_of(files, t)[r];
    assert(files[k].mtime == t);
    let q = rank_of(files, k);
    assert(0 <= q < places_of(files, t).len() && places_of(files, t)[q] == k);
    if q < r {
        assert(places_of(files, t)[q] < places_of(files, t)[r]);
    } else if r < q {
        assert(places_of(files, t)[r] < places_of(files, t)[q]);
    }
}

/// The places that the files of a sorted list had before.
proof fn lemma_places_before(sorted: Seq<FileView>, files: Seq<FileView>) -> (from: Seq<int>)
    requires
        sorts(sorted, files),
    ensures
        from.len() == sorted.len(),
        forall|k: int|
            0 <= k < from.len() ==> 0 <= #[trigger] from[k] < files.len() && files[from[k]]
                == sorted[k],
        forall|j: int| 0 <= j < files.len() ==> #[trigger] from.contains(j),
        forall|k: int, l: int|
            0 <= k < l < from.len() ==> {
                ||| sorted[k].mtime > sorted[l].mtime
                ||| sorted[k].mtime == sorted[l].mtime && #[trigger] from[k] < #[trigger] from[l]
            },
{
    let from = Seq::new(
        sorted.len(),
        |k: int| places_of(files, sorted[k].mtime)[rank_of(sorted, k)],
    );
    assert forall|k: int| 0 <= k < sorted.len() implies 0 <= #[trigger] from[k] < files.len()
        && files[from[k]] == sorted[k] by {
        lemma_same_rank(sorted, files, k);
    }
    assert forall|j: int| 0 <= j < files.len() implies #[trigger] from.contains(j) by {
        let t = files[j].mtime;
        lemma_places(sorted, t);
        lemma_places(files, t);
        assert(of_time(sorted, t) == of_time(files, t));
        let r = choose|r: int|
            0 <= r < places_of(files, t).len() && #[trigger] places_of(files, t)[r] == j;
        lemma_rank(sorted, t, r);
        let k = places_of(sorted, t)[r];
        assert(sorted[k].mtime == t);
        assert(from[k] == j);
    }
    assert forall|k: int, l: int| 0 <= k < l < from.len() implies {
        ||| sorted[k].mtime > sorted[l].mtime
        ||| sorted[k].mtime == sorted[l].mtime && #[trigger] from[k] < #[trigger] from[l]
    } by {
        assert(sorted[k].mtime >= sorted[l].mtime);
        if sorted[k].mtime == sorted[l].mtime {
            let t = sorted[k].mtime;
            lemma_same_rank(sorted, files, k);
            lemma_same_rank(sorted, files, l);
            lemma_places(sorted, t);
            lemma_places(files, t);
            let r = rank_of(sorted, k);
            let s = rank_of(sorted, l);
            if s < r {
                assert(places_of(sorted, t)[s] < places_of(sorted, t)[r]);
            }
            assert(r < s);
            assert(places_of(files, t)[r] < places_of(files, t)[s]);
        }
    }
    from
}

/// A file of a sorted list has the rank that it had before.
proof fn lemma_same_rank(sorted: Seq<FileView>, files: Seq<FileView>, k: int)
    requires
        sorts(sorted, files),
        0 <= k < sorted.len(),
    ensures
        ({
            let t = sorted[k].mtime;
            let r = rank_of(sorted, k);
            &&& 0 <= r < places_of(sorted, t).len()
            &&& places_of(sorted, t).len() == places_of(files, t).len()
            &&& places_of(sorted, t)[r] == k
            &&& 0 <= places_of(files, t)[r] < files.len()
            &&& files[places_of(files, t)[r]] == sorted[k]
        }),
{
    let t = sorted[k].mtime;
    lemma_places(sorted, t);
    lemma_places(files, t);
    assert(of_time(sorted, t) == of_time(files, t));
    let r = rank_of(sorted, k);
    assert(places_of(sorted, t)[r] == k);
    assert(sorted[k] == of_time(sorted, t)[r]);
    assert(files[places_of(files, t)[r]] == of_time(files, t)[r]);
}

/// The entries that the files stand for, in their order.
proof fn lemma_entries_of(items: Seq<Result<DirItem, String>>, ext: Seq<char>) -> (at: Seq<int>)
    requires
        files_of(items, ext) is Ok,
    ensures
        at.len() == files_of(items, ext)->Ok_0.len(),
        forall|k: int|
            0 <= k < at.len() ==> 0 <= #[trigger] at[k] < items.len() && listed_as(
                items[at[k]],
                ext,
                files_of(items, ext)->Ok_0[k],
            ),
        forall|k: int, l: int| 0 <= k < l < at.len() ==> #[trigger] at[k] < #[trigger] at[l],
        forall|j: int|
            0 <= j < items.len() && (#[trigger] items[j]) is Ok && wanted(items[j]->Ok_0, ext)
                ==> exists|k: int| 0 <= k < at.len() && #[trigger] at[k] == j,
        forall|j: int| 0 <= j < items.len() ==> (#[trigger] items[j]) is Ok,
    decreases items.len(),
{
    if items.len() == 0 {
        Seq::empty()
    } else {
        let init = items.drop_last();
        let before = lemma_entries_of(init, ext);
        let files = files_of(items, ext)->Ok_0;
        let last = items.len() - 1;
        assert(items[last] == items.last());
        let at = if wanted(items.last()->Ok_0, ext) {
            before.push(last)
        } else {
            before
        };
        assert forall|k: int| 0 <= k < at.len() implies 0 <= #[trigger] at[k] < items.len()
            && listed_as(items[at[k]], ext, files[k]) by {
            if k < before.len() {
                assert(at[k] == before[k]);
                assert(init[before[k]] == items[before[k]]);
            }
        }
        assert forall|k: int, l: int| 0 <= k < l < at.len() implies #[trigger] at[k]
            < #[trigger] at[l] by {
            assert(at[k] == before[k]);
            assert(before[k] < init.len());
            if l < before.len() {
                assert(at[l] == before[l]);
            }
        }
        assert forall|j: int|
            0 <= j < items.len() && (#[trigger] items[j]) is Ok && wanted(
                items[j]->Ok_0,
                ext,
            ) implies exists|k: int| 0 <= k < at.len() && #[trigger] at[k] == j by {
            if j < init.len() {
                assert(init[j] == items[j]);
                let k = choose|k: int| 0 <= k < before.len() && #[trigger] before[k] == j;
                assert(at[k] == j);
            } else {
                assert(at[at.len() - 1] == j);
            }
        }
        assert forall|j: int| 0 <= j < items.len() implies (#[trigger] items[j]) is Ok by {
            if j < init.len() {
                assert(init[j] == items[j]);
            }
        }
        at
    }
}

/// Listing a directory gives, for every entry that is a file with the extension
/// asked for, one file with the path, the name, the size and the modification
/// time of that entry, and nothing else. A name that is no text is empty, a time
/// that is not known is the epoch. Of two files the one whose entry was modified
/// later comes first; where the times are equal, the one whose entry came first.
/// What is returned is the place of each file's entry.
pub proof fn listed_files_are_the_entries(
    dir: &str,
    listing: DirListing,
    ext: &str,
    r: Result<Vec<CaptureFile>, Error>,
) -> (from: Seq<int>)
    requires
        call_ensures(list_captures, (dir, listing, ext), r),
        listing is Entries,
        r is Ok,
    ensures
        ({
            let items = listing->Entries_0@;
            let files = r->Ok_0@;
            &&& from.len() == files.len()
            &&& forall|k: int|
                0 <= k < files.len() ==> {
                    let item = items[#[trigger] from[k]]->Ok_0;
                    let meta = item.meta->Ok_0;
                    &&& 0 <= from[k] < items.len()
                    &&& items[from[k]] is Ok
                    &&& item.is_file
                    &&& item.ext is Some
                    &&& item.ext->0@ == ext@
                    &&& item.meta is Ok
                    &&& files[k].path == item.path
                    &&& item.file_name is Some ==> files[k].name@ == item.file_name->0@
                    &&& item.file_name is None ==> files[k].name@.len() == 0
                    &&& files[k].size == meta.len
                    &&& meta.modified is Some ==> files[k].mtime == meta.modified->0
                    &&& meta.modified is None ==> files[k].mtime == 0
                }
            &&& forall|j: int|
                0 <= j < items.len() && (#[trigger] items[j]) is Ok && items[j]->Ok_0.is_file
                    && items[j]->Ok_0.ext is Some && items[j]->Ok_0.ext->0@ == ext@
                    ==> exists|k: int| 0 <= k < from.len() && #[trigger] from[k] == j
            &&& forall|k: int, l: int|
                0 <= k < l < from.len() ==> #[trigger] from[k] != #[trigger] from[l]
            &&& forall|k: int, l: int|
                0 <= k < l < from.len() ==> {
                    let a = items[#[trigger] from[k]]->Ok_0.meta->Ok_0.modified;
                    let b = items[#[trigger] from[l]]->Ok_0.meta->Ok_0.modified;
                    &&& a is Some && b is Some ==> a->0 > b->0 || a->0 == b->0 && from[k] < from[l]
                    &&& a is Some && b is None ==> a->0 > 0 || a->0 == 0 && from[k] < from[l]
                    &&& a is None && b is Some ==> 0 > b->0 || b->0 == 0 && from[k] < from[l]
                    &&& a is None && b is None ==> from[k] < from[l]
                }
        }),
{
    let items = listing->Entries_0@;
    let files = r->Ok_0@;
    let sorted = file_views(files);
    let plain = files_of(items, ext@)->Ok_0;
    let at = lemma_entries_of(items, ext@);
    let before = lemma_places_before(sorted, plain);
    let from = Seq::new(files.len(), |k: int| at[before[k]]);
    assert forall|k: int| 0 <= k < files.len() implies {
        let item = items[#[trigger] from[k]]->Ok_0;
        &&& 0 <= from[k] < items.len()
        &&& listed_as(items[from[k]], ext@, files[k]@)
    } by {
        assert(files[k]@ == sorted[k]);
        assert(plain[before[k]] == sorted[k]);
        assert(listed_as(items[at[before[k]]], ext@, plain[before[k]]));
    }
    assert forall|j: int|
        0 <= j < items.len() && (#[trigger] items[j]) is Ok && items[j]->Ok_0.is_file
            && items[j]->Ok_0.ext is Some && items[j]->Ok_0.ext->0@ == ext@ implies exists|
        k: int,
    |
        0 <= k < from.len() && #[trigger] from[k] == j by {
        assert(wanted(items[j]->Ok_0, ext@));
        let i = choose|i: int| 0 <= i < at.len() && #[trigger] at[i] == j;
        assert(before.contains(i));
        let k = choose|k: int| 0 <= k < before.len() && #[trigger] before[k] == i;
        assert(from[k] == j);
    }
    assert forall|k: int, l: int| 0 <= k < l < from.len() implies {
        &&& #[trigger] from[k] != #[trigger] from[l]
        &&& files[k].mtime > files[l].mtime || files[k].mtime == files[l].mtime && from[k] < from[l]
    } by {
        let i = before[k];
        let j = before[l];
        assert(files[k]@ == sorted[k] && files[l]@ == sorted[l]);
        assert(plain[i] == sorted[k] && plain[j] == sorted[l]);
        if i < j {
            assert(at[i] < at[j]);
        } else if j < i {
            assert(at[j] < at[i]);
        }
    }
    from
}

/// Listing a directory fails if and only if it cannot be read, one of its
/// entries cannot, or the file system does not tell of a file with the extension
/// asked for. The error shows the reason of the first such entry.
pub proof fn first_bad_entry_is_reported(
    dir: &str,
    listing: DirListing,
    ext: &str,
    r: Result<Vec<CaptureFile>, Error>,
)
    requires
        call_ensures(list_captures, (dir, listing, ext), r),
    ensures
        listing is Missing ==> r is Ok && r->Ok_0@.len() == 0,
        listing matches DirListing::Unreadable(e) ==> r is Err && (r->Err_0@ matches
            ErrorView::Record(text) && framed_by(text, "readdir "@ + dir@, ": "@, e@)),
        listing matches DirListing::Entries(items) ==> {
            &&& r is Err <==> exists|n: int|
                0 <= n < items@.len() && #[trigger] fails(items@[n], ext@)
            &&& r is Err ==> exists|n: int|
                {
                    &&& 0 <= n < items@.len()
                    &&& #[trigger] fails(items@[n], ext@)
                    &&& forall|j: int| 0 <= j < n ==> !fails(#[trigger] items@[j], ext@)
                    &&& r->Err_0@ is Record
                    &&& items@[n] matches Err(e) ==> framed_by(
                        r->Err_0@->Record_0,
                        "dirent"@,
                        ": "@,
                        e@,
                    )
                    &&& items@[n] matches Ok(item) ==> framed_by(
                        r->Err_0@->Record_0,
                        "stat"@,
                        ": "@,
                        item.meta->Err_0@,
                    )
                }
        },
{
    match listing {
        DirListing::Missing => {},
        DirListing::Unreadable(e) => {
            lemma_framed_by("readdir "@ + dir@, ": "@, e@);
        },
        DirListing::Entries(items) => {
            lemma_first_failure(items@, ext@);
            if r is Err {
                let n = choose|n: int|
                    {
                        &&& 0 <= n < items@.len()
                        &&& #[trigger] fails(items@[n], ext@)
                        &&& forall|j: int| 0 <= j < n ==> !fails(#[trigger] items@[j], ext@)
                        &&& r->Err_0@ == failure(items@[n])
                    };
                match items@[n] {
                    Err(e) => {
                        lemma_framed_by("dirent"@, ": "@, e@);
                    },
                    Ok(item) => {
                        lemma_framed_by("stat"@, ": "@, item.meta->Err_0@);
                    },
                }
                assert(fails(items@[n], ext@));
            }
        },
    }
}

/// An entry that cannot be read, or a file with the extension of which the file
/// system does not tell.
pub open spec fn fails(item: Result<DirItem, String>, ext: Seq<char>) -> bool {
    match item {
        Err(_) => true,
        Ok(item) => item.is_file && item.ext is Some && item.ext->0@ == ext && item.meta is Err,
    }
}

/// The error of an entry that fails.
spec fn failure(item: Result<DirItem, String>) -> ErrorView {
    match item {
        Err(e) => ErrorView::Record(in_context("dirent"@, e@)),
        Ok(item) => ErrorView::Record(in_context("stat"@, item.meta->Err_0@)),
    }
}

/// The first entry that fails decides.
proof fn lemma_first_failure(items: Seq<Result<DirItem, String>>, ext: Seq<char>)
    ensures
        files_of(items, ext) is Ok ==> forall|n: int|
            0 <= n < items.len() ==> !fails(#[trigger] items[n], ext),
        files_of(items, ext) matches Err(e) ==> exists|n: int|
            {
                &&& 0 <= n < items.len()
                &&& #[trigger] fails(items[n], ext)
                &&& forall|j: int| 0 <= j < n ==> !fails(#[trigger] items[j], ext)
                &&& e == failure(items[n])
            },
    decreases items.len(),
{
    if items.len() > 0 {
        let init = items.drop_last();
        let last = items.len() - 1;
        lemma_first_failure(init, ext);
        if files_of(init, ext) is Ok {
            assert forall|n: int| 0 <= n < last implies !fails(#[trigger] items[n], ext) by {
                assert(init[n] == items[n]);
            }
            if files_of(items, ext) is Err {
                assert(fails(items[last], ext));
            }
        } else {
            let n = choose|n: int|
                {
                    &&& 0 <= n < init.len()
                    &&& #[trigger] fails(init[n], ext)
                    &&& forall|j: int| 0 <= j < n ==> !fails(#[trigger] init[j], ext)
                    &&& files_of(init, ext)->Err_0 == failure(init[n])
                };
            assert(init[n] == items[n]);
            assert forall|j: int| 0 <= j < n implies !fails(#[trigger] items[j], ext) by {
                assert(init[j] == items[j]);
            }
            assert(fails(items[n], ext));
        }
    }
}

/// A stamped name is the prefix, a dash, the stamp, a dot and the extension.
pub proof fn stamped_names_are_laid_out(prefix: &str, stamp: &str, ext: &str, r: String)
    requires
        call_ensures(stamped_name, (prefix, stamp, ext), r),
    ensures
        r@.len() == prefix@.len() + stamp@.len() + ext@.len() + 2,
        r@.take(prefix@.len() as int) == prefix@,
        r@[prefix@.len() as int] == '-',
        r@.skip(prefix@.len() + 1int).take(stamp@.len() as int) == stamp@,
        r@[(prefix@.len() + 1 + stamp@.len()) as int] == '.',
        r@.skip((prefix@.len() + 2 + stamp@.len()) as int) == ext@,
{
    reveal_strlit("-");
    reveal_strlit(".");
    assert(r@.take(prefix@.len() as int) =~= prefix@);
    assert(r@.skip(prefix@.len() + 1int).take(stamp@.len() as int) =~= stamp@);
    assert(r@.skip((prefix@.len() + 2 + stamp@.len()) as int) =~= ext@);
}

/// A new capture's name is the prefix, a dash, a stamp of a date and a time of
/// day, a dot and the extension.
pub proof fn timestamped_names_are_laid_out(prefix: &str, ext: &str, r: String)
    requires
        call_ensures(timestamped_name, (prefix, ext), r),
    ensures
        r@.len() >= prefix@.len() + ext@.len() + 17,
        r@.take(prefix@.len() as int) == prefix@,
        r@[prefix@.len() as int] == '-',
        is_stamp(r@.subrange(prefix@.len() + 1int, r@.len() - ext@.len() - 1)),
        r@[r@.len() - ext@.len() - 1] == '.',
        r@.skip(r@.len() - ext@.len()) == ext@,
        // The day, the dash and the time of day stand before the dot.
        r@[r@.len() - ext@.len() - 8] == '-',
{
    reveal_strlit("-");
    reveal_strlit(".");
    let stamp = choose|stamp: Seq<char>|
        is_stamp(stamp) && r@ == #[trigger] name_with(prefix@, stamp, ext@);
    assert(r@.take(prefix@.len() as int) =~= prefix@);
    assert(r@.subrange(prefix@.len() + 1int, r@.len() - ext@.len() - 1) =~= stamp);
    assert(r@.skip(r@.len() - ext@.len()) =~= ext@);
    assert(stamp[stamp.len() - 7] == '-');
}

} // verus!
