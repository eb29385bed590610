//! Length-framed capture format: record and replay the messages of a capture.
//!
//! File layout:
//!
//! ```text
//! [4-byte ASCII "FRGE"][u32 LE version=1][4-byte caller tag]
//!   ([u32 LE entry_len][entry bytes of length entry_len])*
//! ```
//!
//! The caller tag keeps consumers apart: two programs that write different
//! messages into one directory would otherwise both pass the magic check and
//! silently misdecode each other's files. A reader passes its own tag and gets
//! an error on mismatch.
//!
//! A writer flushes after every append, so a crash loses at most the message
//! in flight. A reader walks until the end of the file; a partial trailing
//! frame is dropped.

pub mod codec;
pub mod events;
pub mod format;
pub mod listing;
pub mod reader;
pub mod wire;
pub mod writer;

pub use events::{
    create_event_writer, read_all_events, read_event_iter, EventReadIter, EventWriter,
};
pub use listing::{list_captures, timestamped_name, CaptureFile};
pub use reader::{read_all, read_all_with_progress, read_iter, ReadIter};
pub use writer::Writer;

use vstd::prelude::*;
use vstd::string::*;

use crate::error::{framed_by, lemma_framed_by, Error, ErrorView};
use crate::text::join;

verus! {

/// The first four bytes of a capture: `FRGE` in ASCII.
pub const MAGIC: [u8; 4] = [70, 82, 71, 69];

/// The format version this crate writes and reads.
pub const VERSION: u32 = 1;

/// Magic, version and tag.
pub const HEADER_LEN: u64 = 12;

/// Cap on one entry's encoded byte count. A malformed length prefix could
/// otherwise ask for up to 4 GiB before the actual read fails.
pub const MAX_FRAME_BYTES: usize = 16777216;

/// `ctx: e`, the text of a failure `e` met while doing `ctx`.
pub open spec fn in_context(ctx: Seq<char>, e: Seq<char>) -> Seq<char> {
    ctx + ": "@ + e
}

/// A failed read or write, with what was being done.
pub fn io_err(ctx: &str, e: &str) -> (r: Error)
    ensures
        r@ == ErrorView::Record(in_context(ctx@, e@)),
{
    let mut out = join(ctx, ": ");
    out.append(e);
    Error::Record(out)
}

/// A failed encoding or decoding, with what was being done.
pub fn bincode_err(ctx: &str, e: &str) -> (r: Error)
    ensures
        r@ == ErrorView::Record(in_context(ctx@, e@)),
{
    let mut out = join(ctx, ": ");
    out.append(e);
    Error::Record(out)
}

/// A failure is shown behind what was being done, both whole.
pub proof fn failures_are_shown_in_context(ctx: Seq<char>, e: Seq<char>)
    ensures
        framed_by(in_context(ctx, e), ctx, ": "@, e),
{
    lemma_framed_by(ctx, ": "@, e);
}

} // verus!
