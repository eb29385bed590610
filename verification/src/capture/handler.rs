//! User-supplied callback contract.

use vstd::prelude::*;

use crate::event::{event_of, Event, Message};
use crate::record::wire::{data_view, slice_view};
use crate::target::DetachReason;

verus! {

/// Called when script events are delivered. Only [`Handler::on_message`] has
/// to be implemented; the other methods do nothing by default.
///
/// Every method runs on the thread that owns the session, which delivers no
/// further messages until the method returns. Forward to a channel for
/// anything expensive.
///
/// Wrapping one handler in another (a rate limiter, a prefix tagger, a
/// fan-out) needs no support from this crate: implement the trait on a struct
/// that owns the inner handler, and forward the calls.
pub trait Handler: Send + 'static {
    /// A normalized script event: `send()`, a console message or a runtime
    /// error. `data` is the binary payload of `send(obj, data)`, if any.
    fn on_message(&mut self, evt: &Event, data: Option<&[u8]>);

    /// The session ended. Called at most once, and only if it had started.
    fn on_detached(&mut self, _reason: DetachReason) {
    }

    /// The script is loaded and the process runs under this pid.
    fn on_started(&mut self, _pid: u32) {
    }
}

/// Hands a message of the toolkit, with its binary data, to a handler: calls
/// [`Handler::on_message`] once, with the event that the message stands for
/// and the data as it came.
pub fn deliver<H: Handler>(handler: &mut H, msg: &Message, data: Option<Vec<u8>>)
    ensures
        exists|h: &mut H, evt: Event, d: Option<&[u8]>|
            {
                &&& evt@ == event_of(*msg)
                &&& slice_view(d) == data_view(data)
                &&& *h == *old(handler)
                &&& *final(h) == *final(handler)
                &&& #[trigger] call_ensures(H::on_message, (h, &evt, d), ())
            },
{
    let evt = Event::from_frida(msg);
    let d = match &data {
        Some(b) => Some(b.as_slice()),
        None => None,
    };
    hand_over(H::on_message, handler, &evt, d);
}

/// Calls a handler's method with an event and its data.
fn hand_over<H, F: Fn(&mut H, &Event, Option<&[u8]>)>(
    method: F,
    handler: &mut H,
    evt: &Event,
    data: Option<&[u8]>,
)
    requires
        forall|h: &mut H| #[trigger] call_requires(method, (h, evt, data)),
    ensures
        exists|h: &mut H|
            {
                &&& *h == *old(handler)
                &&& *final(h) == *final(handler)
                &&& #[trigger] call_ensures(method, (h, evt, data), ())
            },
{
    method(handler, evt, data);
}

/// A handler gets, in one call, the event of the message and the data that came
/// with it, byte for byte or none.
pub proof fn handlers_get_the_event_and_its_data<H: Handler>(
    msg: &Message,
    data: Option<Vec<u8>>,
)
    ensures
        forall|handler: &mut H| #[trigger] call_ensures(deliver::<H>, (handler, msg, data), ())
            ==> exists|h: &mut H, evt: Event, d: Option<&[u8]>|
            {
                &&& #[trigger] call_ensures(H::on_message, (h, &evt, d), ())
                &&& *h == *handler
                &&& *final(h) == *final(handler)
                &&& evt@ == event_of(*msg)
                &&& d is Some <==> data is Some
                &&& data is Some ==> d->0@ == data->0@
            },
{
    assert forall|handler: &mut H| #[trigger]
        call_ensures(deliver::<H>, (handler, msg, data), ()) implies exists|
        h: &mut H,
        evt: Event,
        d: Option<&[u8]>,
    |
        {
            &&& #[trigger] call_ensures(H::on_message, (h, &evt, d), ())
            &&& *h == *handler
            &&& *final(h) == *final(handler)
            &&& evt@ == event_of(*msg)
            &&& d is Some <==> data is Some
            &&& data is Some ==> d->0@ == data->0@
        } by {
        let (h, evt, d) = choose|h: &mut H, evt: Event, d: Option<&[u8]>|
            {
                &&& evt@ == event_of(*msg)
                &&& slice_view(d) == data_view(data)
                &&& *h == *handler
                &&& *final(h) == *final(handler)
                &&& #[trigger] call_ensures(H::on_message, (h, &evt, d), ())
            };
        assert(call_ensures(H::on_message, (h, &evt, d), ()));
    }
}

} // verus!
