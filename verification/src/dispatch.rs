//! The dispatcher: one event in, one registry mutation and a set of sends out.
//!
//! The event loop produces exactly one `Event` per iteration; `dispatch`
//! consumes it and answers with the `Directive` the loop must perform. The
//! login notice is sent before the connection is registered, and the
//! registration is completed only once the send succeeded, so a connection
//! never appears half-registered. A broadcast names every registered
//! connection but the sender, each exactly once; a failed send to one
//! recipient concerns that recipient alone, which the loop then removes.

use vstd::prelude::*;

use crate::msg::build_login_msg;
use crate::msg::build_message_msg;
use crate::msg::login_msg;
use crate::msg::message_msg;
use crate::registry::fresh_conn;
use crate::registry::has_id;
use crate::registry::ids_of;
use crate::registry::unique_ids;
use crate::registry::without_id;
use crate::registry::Registry;

verus! {

/// What one iteration of the event loop observed.
pub enum Event {
    /// A new connection was accepted, with this identifier.
    NewConnection(u16),
    /// A registered connection sent one complete line.
    NewMessage(u16, String),
    /// A registered connection closed, errored, or broke framing.
    Disconnected(u16),
}

/// What the event loop must do next.
pub enum Directive {
    /// Send this login notice to the named connection, then report the
    /// outcome through `complete_login`.
    SendLogin(u16, String),
    /// Send each named line to the named connection; on a failed send,
    /// remove that recipient and carry on with the rest.
    Deliver(Vec<(u16, String)>),
    /// Nothing to send.
    Done,
}

/// The identifiers a broadcast from `sender` is delivered to: every
/// registered identifier but the sender's, in registry order.
pub open spec fn recipients(ids: Seq<u16>, sender: u16) -> Seq<u16>
    decreases ids.len(),
{
    if ids.len() == 0 {
        Seq::empty()
    } else if ids.last() != sender {
        recipients(ids.drop_last(), sender).push(ids.last())
    } else {
        recipients(ids.drop_last(), sender)
    }
}

/// The identifiers a plan sends to, in order.
pub open spec fn plan_ids(plan: Seq<(u16, String)>) -> Seq<u16> {
    plan.map(|i: int, p: (u16, String)| p.0)
}

/// Plans the fan-out of one line from `sender`: one send of
/// `MESSAGE:<sender> <content>` to every other registered connection,
/// each exactly once, in registry order.
pub fn plan_broadcast(reg: &Registry, sender: u16, content: &str) -> (plan: Vec<(u16, String)>)
    ensures
        plan_ids(plan@) == recipients(ids_of(reg@), sender),
        forall|i: int| 0 <= i < plan@.len() ==> (#[trigger] plan@[i]).1@ == message_msg(
            sender,
            content@,
        ),
{
    let line = build_message_msg(sender, content);
    let ids = reg.ids_vec();
    let mut plan: Vec<(u16, String)> = Vec::new();
    let mut i: usize = 0;
    proof {
        assert(plan_ids(plan@) =~= recipients(ids@.take(0), sender));
    }
    while i < ids.len()
        invariant
            0 <= i <= ids@.len(),
            plan_ids(plan@) == recipients(ids@.take(i as int), sender),
            forall|k: int| 0 <= k < plan@.len() ==> (#[trigger] plan@[k]).1@ == message_msg(
                sender,
                content@,
            ),
            line@ == message_msg(sender, content@),
        decreases ids@.len() - i,
    {
        let ghost pre = plan@;
        proof {
            assert(ids@.take(i + 1).drop_last() =~= ids@.take(i as int));
            assert(ids@.take(i + 1).last() == ids@[i as int]);
        }
        if ids[i] != sender {
            plan.push((ids[i], line.clone()));
            proof {
                assert(plan_ids(plan@) =~= plan_ids(pre).push(ids@[i as int]));
            }
        }
        proof {
            assert(plan_ids(plan@) =~= recipients(ids@.take(i + 1), sender));
        }
        i = i + 1;
    }
    proof {
        assert(ids@.take(ids@.len() as int) =~= ids@);
    }
    plan
}

/// Finishes the registration begun by a `SendLogin` directive: the
/// connection is registered only if the login notice was delivered, and is
/// discarded untouched otherwise.
pub fn complete_login(reg: &mut Registry, id: u16, sent_ok: bool)
    ensures
        sent_ok ==> final(reg)@ == without_id(old(reg)@, id).push(
            fresh_conn(id, old(reg).line_limit()),
        ),
        !sent_ok ==> final(reg)@ == old(reg)@,
        final(reg).line_limit() == old(reg).line_limit(),
        unique_ids(old(reg)@) ==> unique_ids(final(reg)@),
{
    if sent_ok {
        reg.insert(id);
    }
}

/// Consumes one event: answers with the sends the loop must perform, and
/// applies the one registry mutation the event calls for. A disconnection
/// removes the named entry and nothing else; disconnecting an absent
/// identifier changes nothing.
pub fn dispatch(reg: &mut Registry, event: Event) -> (d: Directive)
    ensures
        final(reg).line_limit() == old(reg).line_limit(),
        unique_ids(old(reg)@) ==> unique_ids(final(reg)@),
        match event {
            Event::NewConnection(id) => final(reg)@ == old(reg)@ && (d matches
            Directive::SendLogin(to, line) && to == id && line@ == login_msg(id)),
            Event::NewMessage(id, content) => final(reg)@ == old(reg)@ && (d matches
            Directive::Deliver(plan) && plan_ids(plan@) == recipients(
                ids_of(old(reg)@),
                id,
            ) && (forall|i: int|
                0 <= i < plan@.len() ==> (#[trigger] plan@[i]).1@ == message_msg(id, content@))),
            Event::Disconnected(id) => d is Done && final(reg)@ == without_id(old(reg)@, id) && (
            !has_id(old(reg)@, id) ==> final(reg)@ == old(reg)@),
        },
{
    match event {
        Event::NewConnection(id) => {
            let line = build_login_msg(id);
            Directive::SendLogin(id, line)
        },
        Event::NewMessage(id, content) => {
            let plan = plan_broadcast(reg, id, content.as_str());
            Directive::Deliver(plan)
        },
        Event::Disconnected(id) => {
            reg.remove(id);
            Directive::Done
        },
    }
}

} // verus!
