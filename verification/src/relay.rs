//! The relay server's state: the printers connected over websocket, the
//! jobs waiting for a printer, and what happens on each websocket event.
use std::collections::VecDeque;
use tokio::sync::broadcast::Sender;
use vstd::prelude::*;
use crate::broadcast::{broadcast_send, delivered_texts, Delivery, Refusal};
use crate::text::views;

verus! {

/// Why a print job could not be handed on.
#[derive(Clone, Copy, PartialEq, Eq, Debug, Structural)]
pub enum RelayError {
    /// Printers were counted as connected, but none was listening.
    NoReceivers,
}

/// The number of printers after one more connected.
pub open spec fn registered(count: nat) -> nat {
    count + 1
}

/// The number of printers after one disconnected (never below zero).
pub open spec fn unregistered(count: nat) -> nat {
    if count > 0 {
        (count - 1) as nat
    } else {
        0
    }
}

/// Counts a newly connected printer; tells whether it is the only one,
/// in which case the waiting jobs are due.
pub fn register_printer(connected_printers: &mut usize) -> (first: bool)
    requires
        *old(connected_printers) < usize::MAX,
    ensures
        *final(connected_printers) == registered(*old(connected_printers) as nat),
        first == (*final(connected_printers) == 1),
{
    *connected_printers = *connected_printers + 1;
    *connected_printers == 1
}

/// Counts a printer that disconnected.
pub fn unregister_printer(connected_printers: &mut usize)
    ensures
        *final(connected_printers) == unregistered(*old(connected_printers) as nat),
{
    *connected_printers = connected_printers.saturating_sub(1);
}

/// A printer that connects and disconnects again leaves the count as it was.
pub proof fn lemma_register_unregister(count: nat)
    ensures
        unregistered(registered(count)) == count,
{
}

/// How a print job was handed on.
pub enum Handover {
    /// No printer was connected: the job waits in the queue.
    Queued,
    /// The job was broadcast to this many receivers.
    Sent { receivers: usize, delivery: Delivery },
}

impl Handover {
    /// The number of printers that were sent the job (0 when it was queued).
    pub fn receivers(&self) -> (n: usize)
        ensures
            n == match self {
                Handover::Queued => 0,
                Handover::Sent { receivers, .. } => *receivers,
            },
    {
        match self {
            Handover::Queued => 0,
            Handover::Sent { receivers, .. } => *receivers,
        }
    }
}

/// Hands a print job on: while no printer is connected it waits at the end
/// of the queue; otherwise it is broadcast to the connected printers.
pub fn enqueue_or_broadcast(
    connected_printers: usize,
    pending_jobs: &mut VecDeque<String>,
    broadcaster: &Sender<String>,
    job: String,
) -> (result: Result<Handover, RelayError>)
    ensures
        connected_printers == 0 ==> (result matches Ok(Handover::Queued)) && views(
            final(pending_jobs)@,
        ) == views(old(pending_jobs)@).push(job@),
        connected_printers > 0 ==> final(pending_jobs)@ == old(pending_jobs)@,
        connected_printers > 0 ==> (result matches Ok(Handover::Sent { receivers, delivery })
            ==> receivers >= 1 && delivery@ == job@),
        connected_printers > 0 ==> (result matches Ok(h) ==> h is Sent),
        result matches Err(e) ==> e == RelayError::NoReceivers && connected_printers > 0,
{
    if connected_printers == 0 {
        let ghost before = views(pending_jobs@);
        let ghost j = job@;
        pending_jobs.push_back(job);
        assert(views(pending_jobs@) =~= before.push(j));
        return Ok(Handover::Queued);
    }
    match broadcast_send(broadcaster, job) {
        Ok((receivers, delivery)) => Ok(Handover::Sent { receivers, delivery }),
        Err(_) => Err(RelayError::NoReceivers),
    }
}

/// What flushing the queue achieved.
pub struct FlushOutcome {
    /// The jobs broadcast, in the order they were sent.
    pub deliveries: Vec<Delivery>,
    /// Whether a broadcast failed; the job it carried is then lost and the
    /// jobs behind it stay queued.
    pub failed: bool,
    /// The broadcast that failed, if one did: it carried the job that
    /// followed the delivered ones.
    pub refusal: Option<Refusal>,
}

/// Broadcasts the waiting jobs in the order they arrived, stopping at the
/// first broadcast that fails. The jobs sent are the first ones of the
/// queue, in queue order; a flush fails only where the broadcast channel
/// refused the job that came next.
pub fn flush_pending_jobs(pending_jobs: &mut VecDeque<String>, broadcaster: &Sender<String>) -> (outcome: FlushOutcome)
    ensures
        delivered_texts(outcome.deliveries@) == views(
            old(pending_jobs)@.take(outcome.deliveries@.len() as int),
        ),
        !outcome.failed ==> outcome.deliveries@.len() == old(pending_jobs)@.len()
            && final(pending_jobs)@.len() == 0,
        outcome.failed ==> outcome.deliveries@.len() < old(pending_jobs)@.len(),
        outcome.failed ==> final(pending_jobs)@ == old(pending_jobs)@.skip(
            outcome.deliveries@.len() + 1int,
        ),
        outcome.failed <==> outcome.refusal is Some,
        outcome.refusal matches Some(r) ==> r@ == old(
            pending_jobs,
        )@[outcome.deliveries@.len() as int]@,
{
    let ghost start = pending_jobs@;
    let mut deliveries: Vec<Delivery> = Vec::new();
    loop
        invariant
            start == old(pending_jobs)@,
            deliveries@.len() <= start.len(),
            pending_jobs@ == start.skip(deliveries@.len() as int),
            delivered_texts(deliveries@) == views(start.take(deliveries@.len() as int)),
        decreases pending_jobs@.len(),
    {
        let k = deliveries.len();
        let next = pending_jobs.pop_front();
        match next {
            None => {
                assert(start.skip(k as int).len() == 0);
                return FlushOutcome { deliveries, failed: false, refusal: None };
            },
            Some(job) => {
                assert(k < start.len());
                assert(job == start[k as int]);
                assert(pending_jobs@ =~= start.skip(k + 1));
                match broadcast_send(broadcaster, job) {
                    Ok((_, delivery)) => {
                        let ghost before = delivered_texts(deliveries@);
                        let ghost dv = delivery@;
                        deliveries.push(delivery);
                        assert(delivered_texts(deliveries@) =~= before.push(dv));
                        assert(start.take(k + 1) =~= start.take(k as int).push(start[k as int]));
                        assert(views(start.take(k + 1)) =~= views(start.take(k as int)).push(
                            start[k as int]@,
                        ));
                    },
                    Err(refusal) => {
                        return FlushOutcome { deliveries, failed: true, refusal: Some(refusal) };
                    },
                }
            },
        }
    }
}

/// What a printer's websocket connection on the server has to react to.
pub enum ServerEvent {
    /// A print job arrived on the broadcast channel.
    Job(String),
    /// The connection fell behind the broadcast and skipped this many jobs.
    Lagged(u64),
    /// The broadcast channel closed.
    BroadcastClosed,
    /// The printer sent a close frame.
    ClientClose,
    /// The printer sent a ping with this payload.
    ClientPing(Vec<u8>),
    /// The printer sent a pong.
    ClientPong,
    /// The printer sent a text or binary message.
    ClientMessage,
    /// Receiving from the printer failed.
    ClientError,
    /// The printer's stream ended.
    ClientGone,
    /// Sending to the printer failed.
    SendFailed,
}

/// What the server does next on a printer's connection.
pub enum ServerAction {
    /// Send this job to the printer.
    Deliver(String),
    /// Answer a ping with a pong carrying this payload.
    Pong(Vec<u8>),
    /// Keep waiting.
    Continue,
    /// Close the connection.
    Disconnect,
}

/// The reaction to each event on a printer's connection.
pub open spec fn server_action_spec(event: ServerEvent) -> ServerAction {
    match event {
        ServerEvent::Job(text) => ServerAction::Deliver(text),
        ServerEvent::Lagged(_) => ServerAction::Continue,
        ServerEvent::BroadcastClosed => ServerAction::Disconnect,
        ServerEvent::ClientClose => ServerAction::Disconnect,
        ServerEvent::ClientPing(payload) => ServerAction::Pong(payload),
        ServerEvent::ClientPong => ServerAction::Continue,
        ServerEvent::ClientMessage => ServerAction::Continue,
        ServerEvent::ClientError => ServerAction::Disconnect,
        ServerEvent::ClientGone => ServerAction::Disconnect,
        ServerEvent::SendFailed => ServerAction::Disconnect,
    }
}

/// Whether an event ends a printer's connection: the broadcast channel
/// closing, the printer closing or going away, a receive error or a failed
/// send.
pub open spec fn closes_connection(event: ServerEvent) -> bool {
    event is BroadcastClosed || event is ClientClose || event is ClientError || event is ClientGone
        || event is SendFailed
}

/// How a connection reacts to each kind of event: a job is delivered with
/// exactly its text, a ping is answered with a pong carrying its payload,
/// an event that ends the connection closes it, and anything else
/// (lagging behind, a pong or a message from the printer) leaves it waiting.
pub proof fn lemma_server_reactions(event: ServerEvent)
    ensures
        event matches ServerEvent::Job(t) ==> server_action_spec(event) == ServerAction::Deliver(t),
        event matches ServerEvent::ClientPing(p) ==> server_action_spec(event) == ServerAction::Pong(
            p,
        ),
        closes_connection(event) <==> server_action_spec(event) is Disconnect,
        (event is Lagged || event is ClientPong || event is ClientMessage) ==> server_action_spec(
            event,
        ) is Continue,
{
}

/// Decides what a printer's connection does on `event`: jobs are passed on,
/// pings answered, messages from the printer ignored, and the connection
/// closed when either side goes away or a send fails.
pub fn server_action(event: ServerEvent) -> (action: ServerAction)
    ensures
        action == server_action_spec(event),
        event matches ServerEvent::Job(t) ==> action == ServerAction::Deliver(t),
        event matches ServerEvent::ClientPing(p) ==> action == ServerAction::Pong(p),
        closes_connection(event) <==> action is Disconnect,
        (event is Lagged || event is ClientPong || event is ClientMessage) ==> action is Continue,
{
    proof {
        lemma_server_reactions(event);
    }
    match event {
        ServerEvent::Job(text) => ServerAction::Deliver(text),
        ServerEvent::Lagged(_) => ServerAction::Continue,
        ServerEvent::BroadcastClosed => ServerAction::Disconnect,
        ServerEvent::ClientClose => ServerAction::Disconnect,
        ServerEvent::ClientPing(payload) => ServerAction::Pong(payload),
        ServerEvent::ClientPong => ServerAction::Continue,
        ServerEvent::ClientMessage => ServerAction::Continue,
        ServerEvent::ClientError => ServerAction::Disconnect,
        ServerEvent::ClientGone => ServerAction::Disconnect,
        ServerEvent::SendFailed => ServerAction::Disconnect,
    }
}

/// The actions of a printer's connection on a run of events: one per
/// event, up to and including the first that closes the connection.
pub open spec fn session_actions(events: Seq<ServerEvent>) -> Seq<ServerAction>
    decreases events.len(),
{
    if events.len() == 0 {
        seq![]
    } else if server_action_spec(events[0]) is Disconnect {
        seq![server_action_spec(events[0])]
    } else {
        seq![server_action_spec(events[0])] + session_actions(events.drop_first())
    }
}

/// The jobs received from the broadcast channel before the connection
/// closes, in order.
pub open spec fn jobs_until_close(events: Seq<ServerEvent>) -> Seq<Seq<char>>
    decreases events.len(),
{
    if events.len() == 0 || server_action_spec(events[0]) is Disconnect {
        seq![]
    } else {
        (match events[0] {
            ServerEvent::Job(t) => seq![t@],
            _ => seq![],
        }) + jobs_until_close(events.drop_first())
    }
}

/// The payloads of the pings received before the connection closes, in
/// order.
pub open spec fn pings_until_close(events: Seq<ServerEvent>) -> Seq<Seq<u8>>
    decreases events.len(),
{
    if events.len() == 0 || server_action_spec(events[0]) is Disconnect {
        seq![]
    } else {
        (match events[0] {
            ServerEvent::ClientPing(p) => seq![p@],
            _ => seq![],
        }) + pings_until_close(events.drop_first())
    }
}

/// The texts sent to the printer by a run of actions, in order.
pub open spec fn sent_texts(actions: Seq<ServerAction>) -> Seq<Seq<char>>
    decreases actions.len(),
{
    if actions.len() == 0 {
        seq![]
    } else {
        (match actions[0] {
            ServerAction::Deliver(t) => seq![t@],
            _ => seq![],
        }) + sent_texts(actions.drop_first())
    }
}

/// The payloads of the pongs sent by a run of actions, in order.
pub open spec fn sent_pongs(actions: Seq<ServerAction>) -> Seq<Seq<u8>>
    decreases actions.len(),
{
    if actions.len() == 0 {
        seq![]
    } else {
        (match actions[0] {
            ServerAction::Pong(p) => seq![p@],
            _ => seq![],
        }) + sent_pongs(actions.drop_first())
    }
}

/// Over a printer's session, every job received from the broadcast channel
/// before the connection closes is sent to the printer, in the order it
/// arrived, and nothing else is; every ping is answered with a pong carrying
/// its payload; and the session closes exactly at the first event that
/// closes it (the channel closing, the printer closing or going away, a
/// receive error or a failed send), with no action after it.
pub proof fn lemma_session(events: Seq<ServerEvent>)
    ensures
        sent_texts(session_actions(events)) == jobs_until_close(events),
        sent_pongs(session_actions(events)) == pings_until_close(events),
        forall|i: int|
            0 <= i < session_actions(events).len() - 1 ==> !(#[trigger] session_actions(events)[i] is Disconnect),
        (exists|i: int| 0 <= i < events.len() && #[trigger] server_action_spec(events[i]) is Disconnect)
            <==> (session_actions(events).len() > 0 && session_actions(events).last() is Disconnect),
    decreases events.len(),
{
    if events.len() > 0 {
        let a = server_action_spec(events[0]);
        let rest = events.drop_first();
        lemma_session(rest);
        let acts = session_actions(events);
        if a is Disconnect {
            assert(acts =~= seq![a]);
            assert(acts[0] is Disconnect);
            assert(acts.drop_first() =~= Seq::<ServerAction>::empty());
            assert(sent_texts(acts.drop_first()) =~= Seq::<Seq<char>>::empty());
            assert(sent_pongs(acts.drop_first()) =~= Seq::<Seq<u8>>::empty());
            assert(sent_texts(acts) =~= Seq::<Seq<char>>::empty());
            assert(sent_pongs(acts) =~= Seq::<Seq<u8>>::empty());
            assert(exists|i: int| 0 <= i < events.len() && #[trigger] server_action_spec(events[i]) is Disconnect) by {
                assert(server_action_spec(events[0]) is Disconnect);
            }
        } else {
            let tail = session_actions(rest);
            assert(acts =~= seq![a] + tail);
            assert(acts[0] == a);
            assert(acts.drop_first() =~= tail);
            assert forall|i: int| 0 <= i < acts.len() - 1 implies !(#[trigger] acts[i] is Disconnect) by {
                if i > 0 {
                    assert(acts[i] == tail[i - 1]);
                }
            }
            if exists|i: int| 0 <= i < events.len() && #[trigger] server_action_spec(events[i]) is Disconnect {
                let i = choose|i: int| 0 <= i < events.len() && #[trigger] server_action_spec(events[i]) is Disconnect;
                assert(i > 0);
                assert(rest[i - 1] == events[i]);
                assert(tail.len() > 0);
                assert(acts.last() == tail.last());
            }
            if acts.len() > 0 && acts.last() is Disconnect {
                assert(tail.len() > 0);
                assert(acts.last() == tail.last());
                let j = choose|j: int| 0 <= j < rest.len() && #[trigger] server_action_spec(rest[j]) is Disconnect;
                assert(events[j + 1] == rest[j]);
            }
        }
    }
}

/// Until the first event that ends the connection, a session answers event
/// by event: the action at position `i` delivers the job of the event at
/// `i` with exactly its text, or answers its ping with the same payload;
/// where that event ends the connection, the session closes there and
/// takes no further action.
pub proof fn lemma_session_positions(events: Seq<ServerEvent>, i: int)
    requires
        0 <= i < events.len(),
        forall|j: int| 0 <= j < i ==> !closes_connection(#[trigger] events[j]),
    ensures
        session_actions(events).len() > i,
        events[i] matches ServerEvent::Job(t) ==> session_actions(events)[i] == ServerAction::Deliver(
            t,
        ),
        events[i] matches ServerEvent::ClientPing(p) ==> session_actions(events)[i]
            == ServerAction::Pong(p),
        closes_connection(events[i]) ==> session_actions(events)[i] is Disconnect && session_actions(
            events,
        ).len() == i + 1,
        !closes_connection(events[i]) ==> !(session_actions(events)[i] is Disconnect),
    decreases i,
{
    lemma_server_reactions(events[0]);
    let rest = events.drop_first();
    if i > 0 {
        assert(!closes_connection(events[0]));
        assert forall|j: int| 0 <= j < i - 1 implies !closes_connection(#[trigger] rest[j]) by {
            assert(rest[j] == events[j + 1]);
        }
        lemma_session_positions(rest, i - 1);
        assert(rest[i - 1] == events[i]);
        assert(session_actions(events) =~= seq![server_action_spec(events[0])] + session_actions(rest));
        assert(session_actions(events)[i] == session_actions(rest)[i - 1]);
    } else if !closes_connection(events[0]) {
        assert(session_actions(events) =~= seq![server_action_spec(events[0])] + session_actions(rest));
    }
}

/// A session in which no event ends the connection takes one action per
/// event.
pub proof fn lemma_session_length(events: Seq<ServerEvent>)
    requires
        forall|j: int| 0 <= j < events.len() ==> !closes_connection(#[trigger] events[j]),
    ensures
        session_actions(events).len() == events.len(),
    decreases events.len(),
{
    if events.len() > 0 {
        lemma_server_reactions(events[0]);
        assert(!closes_connection(events[0]));
        let rest = events.drop_first();
        assert forall|j: int| 0 <= j < rest.len() implies !closes_connection(#[trigger] rest[j]) by {
            assert(rest[j] == events[j + 1]);
        }
        lemma_session_length(rest);
    }
}

} // verus!
