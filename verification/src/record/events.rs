//! Captures of events: writing them, reading them back.

use vstd::prelude::*;

use super::format::{
    capture_image, decode_fault, ending, entries, fits, frame, head, header_fault, little_endian,
    too_large, whole_before, Head,
};
use super::reader::{read_iter, takes_any, ReadIter};
use super::wire::{
    data_view, decode_entry, event_of_wire, event_reads_back, event_storable, slice_view,
    wire_bytes, wire_event_of, wire_read, WireEntry, WireView,
};
use super::writer::{too_long, Writer};
use super::HEADER_LEN;
use crate::error::{framed_by, Error, ErrorView};
use crate::event::{Event, EventView, LogLevel};
use crate::json::{json, parsed, printed, Json};
use crate::text::decimal;

verus! {

/// An event and the binary data sent along with it.
pub type ItemView = (EventView, Option<Seq<u8>>);

/// What an item is, with its contents as mathematical values.
pub open spec fn item_view(item: (Event, Option<Vec<u8>>)) -> ItemView {
    (item.0@, data_view(item.1))
}

/// The entry that holds an item.
pub open spec fn item_bytes(item: ItemView) -> Seq<u8> {
    wire_bytes(WireView { event: wire_event_of(item.0), data: item.1 })
}

/// The entries that hold a list of items.
pub open spec fn all_item_bytes(items: Seq<ItemView>) -> Seq<Seq<u8>> {
    items.map_values(|x: ItemView| item_bytes(x))
}

/// The item in the entry with index `i`, or what is wrong with it.
pub open spec fn item_at(body: Seq<u8>, i: nat) -> Result<ItemView, ErrorView> {
    match wire_read(body) {
        Ok(w) => event_of_wire(w),
        Err(e) => Err(ErrorView::Record(decode_fault(i, e))),
    }
}

/// The items in the entries from index `i` on, or the first thing that is
/// wrong.
pub open spec fn items_from(
    bodies: Seq<Seq<u8>>,
    end: Head,
    i: nat,
) -> Result<Seq<ItemView>, ErrorView>
    decreases bodies.len() - i,
{
    if i >= bodies.len() {
        match end {
            Head::TooLarge(n) => Err(ErrorView::Record(too_large(n))),
            _ => Ok(Seq::empty()),
        }
    } else {
        match item_at(bodies[i as int], i) {
            Err(e) => Err(e),
            Ok(item) => match items_from(bodies, end, i + 1) {
                Err(e) => Err(e),
                Ok(items) => Ok(seq![item] + items),
            },
        }
    }
}

/// What a capture of events holds for a reader that expects `tag`.
pub open spec fn items_of(bytes: Seq<u8>, tag: Seq<u8>) -> Result<Seq<ItemView>, ErrorView> {
    match header_fault(bytes, tag) {
        Some(t) => Err(ErrorView::Record(t)),
        None => {
            let rest = bytes.skip(HEADER_LEN as int);
            items_from(entries(rest), ending(rest), 0)
        },
    }
}

/// Streaming appender for events.
pub struct EventWriter {
    inner: Writer,
}

impl View for EventWriter {
    type V = Seq<u8>;

    /// The capture written so far.
    closed spec fn view(&self) -> Seq<u8> {
        self.inner@
    }
}

/// Starts a capture of events. See [`EventWriter::append`].
pub fn create_event_writer(tag: [u8; 4]) -> (r: EventWriter)
    ensures
        r@ == capture_image(tag@, Seq::empty()),
{
    EventWriter { inner: Writer::create(tag) }
}

impl EventWriter {
    /// Encodes and appends one event. `data` is the binary buffer of
    /// `send(payload, data)`, if any.
    /// An entry whose length does not fit the prefix is refused.
    ///
    /// An event whose JSON values keep within what can be stored will be read
    /// back as it is.
    pub fn append(&mut self, evt: &Event, data: Option<&[u8]>) -> (r: Result<(), Error>)
        ensures
            ({
                let body = item_bytes((evt@, slice_view(data)));
                if body.len() <= u32::MAX {
                    r is Ok && final(self)@ == old(self)@ + frame(body)
                } else {
                    &&& r is Err
                    &&& r->Err_0@ == ErrorView::Record(too_long(body.len()))
                    &&& final(self)@ == old(self)@
                }
            }),
            event_storable(evt@) ==> event_reads_back(evt@),
    {
        match WireEntry::from_event(evt, data) {
            Ok(entry) => self.inner.append(entry.encode()),
            Err(e) => Err(e),
        }
    }

    /// The capture written so far.
    pub fn bytes(&self) -> (r: &[u8])
        ensures
            r@ == self@,
    {
        self.inner.bytes()
    }
}

/// Iterator over the events of a capture in memory. See [`read_event_iter`].
pub struct EventReadIter<'a> {
    inner: ReadIter<'a>,
}

/// Verifies the header of a capture and returns an iterator over its events,
/// each with the binary data that was sent along with it. Header errors come
/// from here, errors in an entry from the iterator.
pub fn read_event_iter<'a>(bytes: &'a [u8], tag: [u8; 4]) -> (r: Result<EventReadIter<'a>, Error>)
    ensures
        match header_fault(bytes@, tag@) {
            Some(t) => r is Err && r->Err_0@ == ErrorView::Record(t),
            None => {
                &&& r is Ok
                &&& r->Ok_0.wf()
                &&& !r->Ok_0.done()
                &&& r->Ok_0.index() == 0
                &&& r->Ok_0.consumed() == HEADER_LEN
                &&& r->Ok_0.rest() == bytes@.skip(HEADER_LEN as int)
            },
        },
{
    match read_iter(bytes, tag) {
        Ok(inner) => Ok(EventReadIter { inner }),
        Err(e) => Err(e),
    }
}

impl<'a> EventReadIter<'a> {
    /// The reader stands between entries.
    pub closed spec fn wf(self) -> bool {
        self.inner.wf()
    }

    /// What has not been read yet.
    pub closed spec fn rest(self) -> Seq<u8> {
        self.inner.rest()
    }

    /// How many entries have been read.
    pub closed spec fn index(self) -> nat {
        self.inner.index()
    }

    /// How many bytes the header and the entries read so far take.
    pub closed spec fn consumed(self) -> nat {
        self.inner.consumed()
    }

    /// Whether the reading is over.
    pub closed spec fn done(self) -> bool {
        self.inner.done()
    }

    /// Total bytes consumed so far.
    pub fn bytes_read(&self) -> (r: u64)
        ensures
            r == self.consumed(),
    {
        self.inner.bytes_read()
    }

    /// The next event. An entry whose JSON text does not parse gives an error
    /// and the reading goes on behind it; after any other error it is over.
    pub fn next(&mut self) -> (r: Option<Result<(Event, Option<Vec<u8>>), Error>>)
        requires
            old(self).wf(),
        ensures
            final(self).wf(),
            old(self).done() ==> r is None && *final(self) == *old(self),
            !old(self).done() ==> match head(old(self).rest()) {
                Head::End => {
                    &&& r is None
                    &&& final(self).done()
                    &&& final(self).index() == old(self).index()
                    &&& final(self).consumed() == old(self).consumed()
                },
                Head::TooLarge(n) => {
                    &&& r matches Some(Err(e))
                    &&& e@ == ErrorView::Record(too_large(n))
                    &&& final(self).done()
                    &&& final(self).index() == old(self).index()
                    &&& final(self).consumed() == old(self).consumed()
                },
                Head::Entry(n) => {
                    let body = old(self).rest().subrange(4, 4 + n as int);
                    &&& r is Some
                    &&& match item_at(body, old(self).index()) {
                        Ok(item) => r->0 is Ok && item_view(r->0->Ok_0) == item,
                        Err(e) => r->0 is Err && r->0->Err_0@ == e,
                    }
                    &&& final(self).done() == (wire_read(body) is Err)
                    &&& if wire_read(body) is Ok {
                        &&& final(self).rest() == old(self).rest().skip(4 + n as int)
                        &&& final(self).index() == old(self).index() + 1
                        &&& final(self).consumed() == old(self).consumed() + 4 + n
                    } else {
                        &&& final(self).index() == old(self).index()
                        &&& final(self).consumed() == old(self).consumed()
                    }
                },
            },
    {
        assert(takes_any(decode_entry));
        match self.inner.next(&decode_entry) {
            None => None,
            Some(Ok(entry)) => Some(entry.into_event()),
            Some(Err(e)) => Some(Err(e)),
        }
    }
}

/// Collects every event of a capture. For one that does not fit comfortably
/// into memory once decoded, use [`read_event_iter`] instead.
pub fn read_all_events(bytes: &[u8], tag: [u8; 4]) -> (r: Result<
    Vec<(Event, Option<Vec<u8>>)>,
    Error,
>)
    ensures
        match items_of(bytes@, tag@) {
            Ok(items) => r is Ok && r->Ok_0@.map_values(
                |x: (Event, Option<Vec<u8>>)| item_view(x),
            ) == items,
            Err(e) => r is Err && r->Err_0@ == e,
        },
{
    let mut iter = match read_event_iter(bytes, tag) {
        Ok(it) => it,
        Err(e) => return Err(e),
    };
    let ghost rest = bytes@.skip(HEADER_LEN as int);
    let ghost all = entries(rest);
    let ghost end = ending(rest);
    let mut out: Vec<(Event, Option<Vec<u8>>)> = Vec::new();
    let ghost mut seen: Seq<ItemView> = Seq::empty();
    assert(all.skip(0) =~= all);
    proof {
        if let Ok(items) = items_from(all, end, 0) {
            assert(seen + items =~= items);
        }
    }
    loop
        invariant
            iter.wf(),
            !iter.done(),
            iter.index() == out@.len(),
            out@.len() <= all.len(),
            all == entries(rest),
            end == ending(rest),
            all.skip(out@.len() as int) == entries(iter.rest()),
            end == ending(iter.rest()),
            seen == out@.map_values(|x: (Event, Option<Vec<u8>>)| item_view(x)),
            match items_from(all, end, out@.len()) {
                Ok(items) => items_from(all, end, 0) == Ok::<Seq<ItemView>, ErrorView>(
                    seen + items,
                ),
                Err(e) => items_from(all, end, 0) == Err::<Seq<ItemView>, ErrorView>(e),
            },
            header_fault(bytes@, tag@) is None,
            rest == bytes@.skip(HEADER_LEN as int),
        decreases iter.rest().len(),
    {
        let ghost k = out@.len();
        proof {
            super::reader::lemma_next_entry(rest, iter.rest(), k as int);
        }
        match iter.next() {
            None => {
                assert(seen + Seq::<ItemView>::empty() =~= seen);
                return Ok(out);
            },
            Some(Err(e)) => {
                return Err(e);
            },
            Some(Ok(item)) => {
                let ghost v = item_view(item);
                let ghost before = seen;
                out.push(item);
                proof {
                    seen = seen.push(v);
                    assert(seen =~= out@.map_values(|x: (Event, Option<Vec<u8>>)| item_view(x)));
                    match items_from(all, end, k + 1) {
                        Ok(items) => {
                            assert(before + (seq![v] + items) =~= seen + items);
                        },
                        Err(e) => {},
                    }
                }
            },
        }
    }
}

/// An item whose JSON values come back from their text, and whose entry a
/// reader accepts.
pub open spec fn keepable(item: ItemView) -> bool {
    event_reads_back(item.0) && fits(item_bytes(item))
}

/// An event that was recorded is read back, with the data that was sent along
/// with it, wherever its entry stands.
pub proof fn recorded_event_reads_back(item: ItemView, i: nat)
    requires
        keepable(item),
    ensures
        item_at(item_bytes(item), i) == Ok::<ItemView, ErrorView>(item),
{
    let w = WireView { event: wire_event_of(item.0), data: item.1 };
    super::wire::encoded_entry_decodes(w, Seq::empty());
    assert(wire_bytes(w) + Seq::<u8>::empty() =~= wire_bytes(w));
    super::wire::entry_gives_back_the_event(item.0, item.1);
}

/// Events that were recorded are read back: the same events, in order, each
/// with the data that was sent along with it.
pub proof fn recorded_events_read_back(tag: Seq<u8>, items: Seq<ItemView>)
    requires
        tag.len() == 4,
        forall|i: int| 0 <= i < items.len() ==> keepable(#[trigger] items[i]),
    ensures
        items_of(capture_image(tag, all_item_bytes(items)), tag) == Ok::<Seq<ItemView>, ErrorView>(
            items,
        ),
{
    let bodies = all_item_bytes(items);
    assert forall|i: int| 0 <= i < bodies.len() implies fits(#[trigger] bodies[i]) by {
        assert(keepable(items[i]));
    }
    super::format::capture_reads_back(tag, bodies);
    lemma_items_from(items, 0);
    assert(items.skip(0) =~= items);
}

/// The items from index `i` on, where every entry holds one.
proof fn lemma_items_from(items: Seq<ItemView>, i: nat)
    requires
        forall|i: int| 0 <= i < items.len() ==> keepable(#[trigger] items[i]),
        i <= items.len(),
    ensures
        items_from(all_item_bytes(items), Head::End, i) == Ok::<Seq<ItemView>, ErrorView>(
            items.skip(i as int),
        ),
    decreases items.len() - i,
{
    let bodies = all_item_bytes(items);
    if i < items.len() {
        let item = items[i as int];
        assert(keepable(item));
        lemma_items_from(items, i + 1);
        recorded_event_reads_back(item, i);
        assert(bodies[i as int] == item_bytes(item));
        assert(seq![item] + items.skip(i as int + 1) =~= items.skip(i as int));
    } else {
        assert(items.skip(i as int) =~= Seq::<ItemView>::empty());
    }
}

/// A capture of events cut off anywhere behind its header reads as the events
/// that are whole in it, each with its data, and without an error: of an event
/// that is cut neither half comes back.
pub proof fn cut_capture_keeps_whole_events(tag: Seq<u8>, items: Seq<ItemView>, cut: int)
    requires
        tag.len() == 4,
        forall|i: int| 0 <= i < items.len() ==> keepable(#[trigger] items[i]),
        HEADER_LEN <= cut <= capture_image(tag, all_item_bytes(items)).len(),
    ensures
        items_of(capture_image(tag, all_item_bytes(items)).take(cut), tag) == Ok::<
            Seq<ItemView>,
            ErrorView,
        >(items.take(whole_before(all_item_bytes(items), cut) as int)),
{
    let bodies = all_item_bytes(items);
    assert forall|i: int| 0 <= i < bodies.len() implies fits(#[trigger] bodies[i]) by {
        assert(keepable(items[i]));
    }
    super::format::cut_capture_keeps_whole_entries(tag, bodies, cut);
    super::format::lemma_whole_before(bodies, cut);
    let k = whole_before(bodies, cut) as int;
    let kept = items.take(k);
    assert(all_item_bytes(kept) =~= bodies.take(k));
    assert forall|i: int| 0 <= i < kept.len() implies keepable(#[trigger] kept[i]) by {
        assert(keepable(items[i]));
    }
    lemma_items_from(kept, 0);
    assert(kept.skip(0) =~= kept);
}

/// A reader with another tag gets an error in place of events.
pub proof fn events_of_another_consumer_are_refused(
    tag: Seq<u8>,
    other: Seq<u8>,
    items: Seq<ItemView>,
)
    requires
        tag.len() == 4,
        other != tag,
    ensures
        items_of(capture_image(tag, all_item_bytes(items)), other) is Err,
{
    super::format::other_tag_is_refused(tag, other, all_item_bytes(items));
}

/// A console message or a runtime error that was recorded is read back with
/// every field and its data, whatever they are, as long as its entry keeps
/// within 16 MiB.
pub proof fn recorded_diagnostics_read_back(
    level: LogLevel,
    t: Seq<char>,
    description: Seq<char>,
    stack: Seq<char>,
    file_name: Seq<char>,
    line_number: usize,
    column_number: usize,
    data: Option<Seq<u8>>,
    i: nat,
)
    ensures
        item_bytes((EventView::Log(level, t), data)).len() <= 16777216 ==> item_at(
            item_bytes((EventView::Log(level, t), data)),
            i,
        ) == Ok::<ItemView, ErrorView>((EventView::Log(level, t), data)),
        ({
            let e = EventView::Error { description, stack, file_name, line_number, column_number };
            item_bytes((e, data)).len() <= 16777216 ==> item_at(item_bytes((e, data)), i) == Ok::<
                ItemView,
                ErrorView,
            >((e, data))
        }),
{
    let log = (EventView::Log(level, t), data);
    let err = (
        EventView::Error { description, stack, file_name, line_number, column_number },
        data,
    );
    if item_bytes(log).len() <= 16777216 {
        assert(keepable(log));
        recorded_event_reads_back(log, i);
    }
    if item_bytes(err).len() <= 16777216 {
        assert(keepable(err));
        recorded_event_reads_back(err, i);
    }
}

/// A send or an unknown message whose JSON value comes back from the text that
/// is written for it is read back with its data, as long as its entry keeps
/// within 16 MiB.
pub proof fn recorded_values_read_back(j: Json, data: Option<Seq<u8>>, i: nat)
    requires
        parsed(printed(j)) == Some(j),
    ensures
        item_bytes((EventView::Send(j), data)).len() <= 16777216 ==> item_at(
            item_bytes((EventView::Send(j), data)),
            i,
        ) == Ok::<ItemView, ErrorView>((EventView::Send(j), data)),
        item_bytes((EventView::Unknown(j), data)).len() <= 16777216 ==> item_at(
            item_bytes((EventView::Unknown(j), data)),
            i,
        ) == Ok::<ItemView, ErrorView>((EventView::Unknown(j), data)),
{
    let send = (EventView::Send(j), data);
    let unknown = (EventView::Unknown(j), data);
    if item_bytes(send).len() <= 16777216 {
        assert(keepable(send));
        recorded_event_reads_back(send, i);
    }
    if item_bytes(unknown).len() <= 16777216 {
        assert(keepable(unknown));
        recorded_event_reads_back(unknown, i);
    }
}

/// An item is kept exactly if its JSON value, if it has one, comes back from
/// its text, and its entry keeps within 16 MiB.
pub proof fn what_can_be_kept(
    j: Json,
    level: LogLevel,
    t: Seq<char>,
    e: EventView,
    d: Option<Seq<u8>>,
)
    requires
        e is Error,
    ensures
        keepable((EventView::Send(j), d)) <==> parsed(printed(j)) == Some(j) && item_bytes(
            (EventView::Send(j), d),
        ).len() <= 16777216,
        keepable((EventView::Unknown(j), d)) <==> parsed(printed(j)) == Some(j) && item_bytes(
            (EventView::Unknown(j), d),
        ).len() <= 16777216,
        keepable((EventView::Log(level, t), d)) <==> item_bytes((EventView::Log(level, t), d)).len()
            <= 16777216,
        keepable((e, d)) <==> item_bytes((e, d)).len() <= 16777216,
{
}

/// Reading all events of a capture gives the item of every entry in order, none
/// left out, and only where no oversized frame follows.
pub proof fn events_are_read_in_order(bodies: Seq<Seq<u8>>, end: Head, i: nat, k: int)
    requires
        i <= k < bodies.len(),
        items_from(bodies, end, i) is Ok,
    ensures
        items_from(bodies, end, i)->Ok_0.len() == bodies.len() - i,
        item_at(bodies[k], k as nat) == Ok::<ItemView, ErrorView>(
            items_from(bodies, end, i)->Ok_0[k - i],
        ),
        !(end is TooLarge),
    decreases bodies.len() - i,
{
    let items = items_from(bodies, end, i)->Ok_0;
    let here = item_at(bodies[i as int], i)->Ok_0;
    let later = items_from(bodies, end, i + 1)->Ok_0;
    assert(items == seq![here] + later);
    if i + 1 < bodies.len() {
        events_are_read_in_order(
            bodies,
            end,
            i + 1,
            if i < k {
                k
            } else {
                i + 1int
            },
        );
        if i < k {
            assert(items[k - i] == later[k - (i + 1)]);
        }
    }
}

/// A header that is not the letters `FRGE`, the number one and the tag gives its
/// fault in place of events.
pub proof fn events_are_not_read_past_a_bad_header(
    bytes: &[u8],
    tag: [u8; 4],
    r: Result<Vec<(Event, Option<Vec<u8>>)>, Error>,
)
    requires
        call_ensures(read_all_events, (bytes, tag), r),
        bytes@.len() < 12 || bytes@.take(12) != seq![70u8, 82, 71, 69, 1, 0, 0, 0] + tag@,
    ensures
        r is Err,
        header_fault(bytes@, tag@) matches Some(t) && r->Err_0@ == ErrorView::Record(t),
{
    super::format::only_the_right_header_is_accepted(bytes@, tag@);
}

/// Entries up to 16 MiB, and behind them fewer than four bytes, or a length above
/// 16 MiB, or a length that reaches past the end.
pub open spec fn frames_and_tail(bodies: Seq<Seq<u8>>, tail: Seq<u8>) -> bool {
    &&& forall|i: int| 0 <= i < bodies.len() ==> (#[trigger] bodies[i]).len() <= 16777216
    &&& tail.len() < 4 || little_endian(tail) > 16777216 || tail.len() < 4 + little_endian(tail)
}

/// What is read of a capture with a tail.
proof fn lemma_items_before_tail(tag: Seq<u8>, bodies: Seq<Seq<u8>>, tail: Seq<u8>) -> (end: Head)
    requires
        tag.len() == 4,
        frames_and_tail(bodies, tail),
    ensures
        items_of(capture_image(tag, bodies) + tail, tag) == items_from(bodies, end, 0),
        end is TooLarge <==> tail.len() >= 4 && little_endian(tail) > 16777216,
        end matches Head::TooLarge(n) ==> n == little_endian(tail),
{
    let bytes = capture_image(tag, bodies) + tail;
    let rest = bytes.skip(HEADER_LEN as int);
    assert forall|i: int| 0 <= i < bodies.len() implies fits(#[trigger] bodies[i]) by {
        assert(bodies[i].len() <= 16777216);
    }
    super::format::entries_come_before_what_follows(tag, bodies, tail);
    if tail.len() >= 4 {
        assert(little_endian(tail.take(4)) == little_endian(tail));
    }
    assert(entries(rest) =~= bodies);
    ending(rest)
}

/// Where reading a capture of events succeeds, it gives the event of every entry
/// in its place, with its data, and nothing else; what stands behind the last
/// entry is then no length above 16 MiB.
pub proof fn every_entry_gives_its_event(
    bytes: &[u8],
    tag: [u8; 4],
    bodies: Seq<Seq<u8>>,
    tail: Seq<u8>,
    r: Result<Vec<(Event, Option<Vec<u8>>)>, Error>,
    k: int,
)
    requires
        call_ensures(read_all_events, (bytes, tag), r),
        bytes@ == capture_image(tag@, bodies) + tail,
        frames_and_tail(bodies, tail),
        r is Ok,
    ensures
        r->Ok_0@.len() == bodies.len(),
        0 <= k < bodies.len() ==> item_at(bodies[k], k as nat) == Ok::<ItemView, ErrorView>(
            (r->Ok_0@[k].0@, data_view(r->Ok_0@[k].1)),
        ),
        tail.len() < 4 || little_endian(tail) <= 16777216,
{
    let end = lemma_items_before_tail(tag@, bodies, tail);
    let items = r->Ok_0@;
    let views = items.map_values(|x: (Event, Option<Vec<u8>>)| item_view(x));
    assert(views.len() == items.len());
    if 0 <= k < bodies.len() {
        events_are_read_in_order(bodies, end, 0, k);
        assert(views[k] == item_view(items[k]));
    } else if bodies.len() > 0 {
        events_are_read_in_order(bodies, end, 0, 0);
    }
}

/// Where reading a capture of events fails, it is at the first entry that holds
/// no event, with that entry's error, or at a length above 16 MiB behind entries
/// that all hold one. What is returned is how many entries hold one before.
pub proof fn first_entry_without_an_event_is_reported(
    bytes: &[u8],
    tag: [u8; 4],
    bodies: Seq<Seq<u8>>,
    tail: Seq<u8>,
    r: Result<Vec<(Event, Option<Vec<u8>>)>, Error>,
) -> (n: int)
    requires
        call_ensures(read_all_events, (bytes, tag), r),
        bytes@ == capture_image(tag@, bodies) + tail,
        frames_and_tail(bodies, tail),
        r is Err,
    ensures
        0 <= n <= bodies.len(),
        forall|j: int| 0 <= j < n ==> item_at(#[trigger] bodies[j], j as nat) is Ok,
        n < bodies.len() ==> item_at(bodies[n], n as nat) == Err::<ItemView, ErrorView>(
            r->Err_0@,
        ),
        n == bodies.len() ==> tail.len() >= 4 && little_endian(tail) > 16777216 && r->Err_0@
            == ErrorView::Record(too_large(little_endian(tail) as nat)),
{
    let end = lemma_items_before_tail(tag@, bodies, tail);
    reading_fails_at_the_first_bad_entry(bodies, end, 0)
}

/// Where reading the entries from index `i` on fails, it is at the first that
/// holds no event, with that entry's error, or at an oversized frame behind them
/// all. What is returned is that place.
pub proof fn reading_fails_at_the_first_bad_entry(bodies: Seq<Seq<u8>>, end: Head, i: nat) -> (n:
    int)
    requires
        i <= bodies.len(),
        items_from(bodies, end, i) is Err,
    ensures
        i <= n <= bodies.len(),
        forall|j: int| i <= j < n ==> item_at(#[trigger] bodies[j], j as nat) is Ok,
        n < bodies.len() ==> item_at(bodies[n], n as nat) == Err::<ItemView, ErrorView>(
            items_from(bodies, end, i)->Err_0,
        ),
        n == bodies.len() ==> (end matches Head::TooLarge(m) && items_from(bodies, end, i)->Err_0
            == ErrorView::Record(too_large(m))),
    decreases bodies.len() - i,
{
    if i < bodies.len() && item_at(bodies[i as int], i) is Ok {
        reading_fails_at_the_first_bad_entry(bodies, end, i + 1)
    } else {
        i as int
    }
}

/// An entry that does not decode is reported with its index and the reason.
pub proof fn broken_entries_are_reported_with_their_index(body: Seq<u8>, i: nat)
    ensures
        wire_read(body) matches Err(e) ==> (item_at(body, i) matches Err(ErrorView::Record(t))
            && framed_by(t, "decode at frame#"@, decimal(i), ": "@ + e)),
        wire_read(body) matches Ok(w) ==> item_at(body, i) == event_of_wire(w),
{
    if let Err(e) = wire_read(body) {
        super::format::entry_faults_tell_what_failed(0, i, e);
    }
}

/// The items of a list, and their entries, stand in its order.
pub proof fn items_keep_their_places(
    item: (Event, Option<Vec<u8>>),
    items: Seq<ItemView>,
    k: int,
)
    requires
        0 <= k < items.len(),
    ensures
        item_view(item).0 == item.0@,
        item_view(item).1 is Some <==> item.1 is Some,
        item.1 matches Some(b) ==> item_view(item).1 == Some(b@),
        all_item_bytes(items).len() == items.len(),
        all_item_bytes(items)[k] == item_bytes(items[k]),
{
}

/// A writer of events starts with the header. An appended event adds one entry
/// behind what is there: four bytes of length, then bytes that hold that very
/// event and its data, wherever they are read. Only an entry whose length four
/// bytes cannot hold is refused, and adds nothing.
#[verifier::rlimit(30)]
pub proof fn appended_events_are_held_by_their_entry(i: nat)
    ensures
        forall|tag: [u8; 4], r: EventWriter| #[trigger]
            call_ensures(create_event_writer, (tag,), r) ==> r@ == seq![
                70u8,
                82,
                71,
                69,
                1,
                0,
                0,
                0,
            ] + tag@,
        forall|w: &mut EventWriter, evt: &Event, data: Option<&[u8]>, r: Result<(), Error>|
            #[trigger]
            call_ensures(EventWriter::append, (w, evt, data), r) ==> {
                let before = (*w)@;
                let after = (*final(w))@;
                let body = after.skip(before.len() + 4int);
                &&& r is Err ==> after == before
                &&& r is Ok ==> {
                    &&& after.len() == before.len() + 4 + body.len()
                    &&& after.take(before.len() as int) == before
                    &&& little_endian(after.skip(before.len() as int)) == body.len()
                    &&& body.len() <= 16777216 && comes_back(*evt) ==> item_at(body, i) == Ok::<
                        ItemView,
                        ErrorView,
                    >((evt@, slice_view(data)))
                }
            },
{
    assert forall|tag: [u8; 4], r: EventWriter| #[trigger]
        call_ensures(create_event_writer, (tag,), r) implies r@ == seq![
        70u8,
        82,
        71,
        69,
        1,
        0,
        0,
        0,
    ] + tag@ by {
        super::format::captures_are_laid_out(tag@, Seq::empty());
    }
    assert forall|w: &mut EventWriter, evt: &Event, data: Option<&[u8]>, r: Result<(), Error>|
        #[trigger]
        call_ensures(EventWriter::append, (w, evt, data), r) && r is Ok implies {
        let before = (*w)@;
        let after = (*final(w))@;
        let body = after.skip(before.len() + 4int);
        &&& after.len() == before.len() + 4 + body.len()
        &&& after.take(before.len() as int) == before
        &&& little_endian(after.skip(before.len() as int)) == body.len()
        &&& body.len() <= 16777216 && comes_back(*evt) ==> item_at(body, i) == Ok::<
            ItemView,
            ErrorView,
        >((evt@, slice_view(data)))
    } by {
        let before = (*w)@;
        let after = (*final(w))@;
        let item = (evt@, slice_view(data));
        let body = item_bytes(item);
        super::format::captures_are_laid_out(Seq::empty(), body);
        assert(after == before + frame(body));
        assert(after.take(before.len() as int) =~= before);
        assert(after.skip(before.len() as int) =~= frame(body));
        assert(after.skip(before.len() + 4int) =~= frame(body).skip(4));
        if body.len() <= 16777216 && comes_back(*evt) {
            assert(keepable(item));
            recorded_event_reads_back(item, i);
        }
    }
}

/// An event without a JSON value, or with one that is parsed back from the text
/// written for it.
pub open spec fn comes_back(evt: Event) -> bool {
    match evt {
        Event::Send { payload } => parsed(printed(json(payload))) == Some(json(payload)),
        Event::Unknown(v) => parsed(printed(json(v))) == Some(json(v)),
        _ => true,
    }
}

/// An iterator of events whose next bytes are a frame gives what the body of the
/// frame holds: its event and data, or its error. It goes on behind the frame
/// unless the body does not decode at all.
pub proof fn event_iterators_give_what_the_next_frame_holds<'a>(body: Seq<u8>, more: Seq<u8>)
    requires
        body.len() <= 16777216,
    ensures
        forall|it: &mut EventReadIter<'a>, r: Option<Result<(Event, Option<Vec<u8>>), Error>>|
            (*it).wf() && !(*it).done() && (*it).rest() == frame(body) + more && #[trigger]
                call_ensures(EventReadIter::<'a>::next, (it,), r) ==> {
                let after = *final(it);
                &&& r is Some
                &&& r->0 matches Ok(item) ==> item_at(body, (*it).index()) == Ok::<
                    ItemView,
                    ErrorView,
                >((item.0@, data_view(item.1)))
                &&& r->0 matches Err(e) ==> item_at(body, (*it).index()) == Err::<
                    ItemView,
                    ErrorView,
                >(e@)
                &&& wire_read(body) is Err ==> after.done() && after.consumed()
                    == (*it).consumed()
                &&& wire_read(body) is Ok ==> {
                    &&& !after.done()
                    &&& after.rest() == more
                    &&& after.index() == (*it).index() + 1
                    &&& after.consumed() == (*it).consumed() + 4 + body.len()
                }
            },
{
    super::format::lemma_frame_head(body, more);
}

} // verus!
