//! The driver, the one owner of the node: what it does about each event, where it sends what the
//! node has to say, and when it signs the reach record again.

use std::collections::HashMap;
use vstd::prelude::*;
use vstd::utf8::encode_utf8;

use crate::hops::{
    answer_to, fetch_step, is_decision, law_host_and_place_decide, law_mesh_gets_what_it_asks_for,
    Answer, FetchSpec, HopsDecision, HopsRequest,
};
use crate::link::Role;
use crate::proxy::{law_body_within_cap, translated, BackendReply};
use crate::record::{WELL_KNOWN_RESIGN_NANOS, WELL_KNOWN_TTL_SECS};
use crate::text::lower;

verus! {

broadcast use vstd::std_specs::hash::group_hash_axioms;

/// How long the driver waits for an event before it takes it that there is none, in milliseconds.
pub const DRIVER_WAIT_MILLIS: u64 = 1000;

/// What the driver hears of. `W` is the end at which bytes for a link are put in.
pub enum DriverEvent<W> {
    /// A link is up.
    Up(u64, Role, W),
    /// Bytes came in on a link.
    Data(u64, Vec<u8>),
    /// A link is down.
    Down(u64),
    /// The response to a request of the mesh is there.
    Fetched(Answer),
    /// Nothing came for a while.
    Idle,
    /// Nobody can send events any more.
    Closed,
}

/// What the node is told.
pub enum NodeCall {
    Connected(u64, Role),
    Data(u64, Vec<u8>),
    Disconnected(u64),
    /// Send a response, with its headers.
    Respond {
        to: [u8; 32],
        for_id: [u8; 32],
        status: u16,
        headers: Vec<(String, String)>,
        body: Vec<u8>,
    },
    /// The time.
    Tick,
    /// Nothing: the driver ends.
    Stop,
}

/// What the driver does about an event.
pub struct DriverStep {
    pub call: NodeCall,
    /// Whether to sign the reach record again, after the call, with the time told to the node
    /// first.
    pub resign: bool,
}

/// Whether a record that was signed at one time is to be signed again at another.
pub open spec fn is_due(signed_at: nat, now: nat) -> bool {
    now >= signed_at + WELL_KNOWN_RESIGN_NANOS
}

/// When the record that is served was signed, after an event at `now`.
pub open spec fn signed_after(signed_at: nat, now: nat) -> nat {
    if is_due(signed_at, now) {
        now
    } else {
        signed_at
    }
}

/// The writers of the links that are up, after an event.
pub open spec fn writers_after<W>(writers: Map<u64, W>, ev: DriverEvent<W>) -> Map<u64, W> {
    match ev {
        DriverEvent::Up(link, role, w) => writers.insert(link, w),
        DriverEvent::Down(link) => writers.remove(link),
        _ => writers,
    }
}

/// Whether `call` is what the node is told about `ev`: the same thing, with nothing changed. The
/// content type of a response becomes its one header.
pub open spec fn tells<W>(call: NodeCall, ev: DriverEvent<W>) -> bool {
    match ev {
        DriverEvent::Up(link, role, w) => call == NodeCall::Connected(link, role),
        DriverEvent::Data(link, bytes) => call == NodeCall::Data(link, bytes),
        DriverEvent::Down(link) => call == NodeCall::Disconnected(link),
        DriverEvent::Fetched(a) => {
            &&& call is Respond
            &&& call->to == a.to
            &&& call->for_id == a.for_id
            &&& call->status == a.status
            &&& call->headers@.len() == 1
            &&& call->headers@[0].0@ == "content-type"@
            &&& call->headers@[0].1 == a.content_type
            &&& call->body == a.body
        },
        DriverEvent::Idle => call is Tick,
        DriverEvent::Closed => call is Stop,
    }
}

/// Bytes on their way to the writer of a link.
pub struct Delivery<'a, W> {
    pub link: u64,
    pub to: &'a W,
    pub bytes: Vec<u8>,
}

/// Deliveries, with bytes as a sequence.
pub open spec fn deliveries<W>(v: Seq<Delivery<'_, W>>) -> Seq<(u64, W, Seq<u8>)> {
    v.map_values(|d: Delivery<'_, W>| (d.link, *d.to, d.bytes@))
}

/// What the node has to say, by link, with bytes as a sequence.
pub open spec fn packets(v: Seq<(u64, Vec<u8>)>) -> Seq<(u64, Seq<u8>)> {
    v.map_values(|p: (u64, Vec<u8>)| (p.0, p.1@))
}

/// Where packets go: each to the writer of its link, in order, and none to a link that is not up.
pub open spec fn routed<W>(writers: Map<u64, W>, out: Seq<(u64, Seq<u8>)>) -> Seq<
    (u64, W, Seq<u8>),
>
    decreases out.len(),
{
    if out.len() == 0 {
        Seq::empty()
    } else {
        let before = routed(writers, out.drop_last());
        let (link, bytes) = out.last();
        if writers.contains_key(link) {
            before.push((link, writers[link], bytes))
        } else {
            before
        }
    }
}

/// The links that are up, by number, and when the reach record was signed.
pub struct Driver<W> {
    writers: HashMap<u64, W>,
    signed: u64,
}

impl<W> Driver<W> {
    /// The writers of the links that are up.
    pub closed spec fn writers(self) -> Map<u64, W> {
        self.writers@
    }

    /// When the record that is served was signed, in nanoseconds.
    pub closed spec fn signed_at(self) -> nat {
        self.signed as nat
    }

    /// A driver without links, with a record that is signed at `now`, in nanoseconds.
    pub fn new(now: u64) -> (r: Driver<W>)
        ensures
            r.writers() == Map::<u64, W>::empty(),
            r.signed_at() == now,
    {
        Driver { writers: HashMap::new(), signed: now }
    }

    /// Takes in an event at the time `now`, in nanoseconds. A record that is due is signed again
    /// whatever the event: with steady traffic the driver may never be idle.
    pub fn run(&mut self, ev: DriverEvent<W>, now: u64) -> (r: DriverStep)
        ensures
            tells(r.call, ev),
            ev matches DriverEvent::Fetched(a) ==> r.call is Respond && r.call->status == a.status
                && r.call->to == a.to && r.call->for_id == a.for_id && r.call->body == a.body,
            final(self).writers() == writers_after(old(self).writers(), ev),
            r.resign == (!(ev is Closed) && is_due(old(self).signed_at(), now as nat)),
            final(self).signed_at() == if ev is Closed {
                old(self).signed_at()
            } else {
                signed_after(old(self).signed_at(), now as nat)
            },
    {
        let due = now.saturating_sub(self.signed) >= WELL_KNOWN_RESIGN_NANOS;
        let call = match ev {
            DriverEvent::Up(link, role, w) => {
                self.writers.insert(link, w);
                NodeCall::Connected(link, role)
            },
            DriverEvent::Data(link, bytes) => NodeCall::Data(link, bytes),
            DriverEvent::Down(link) => {
                self.writers.remove(&link);
                NodeCall::Disconnected(link)
            },
            DriverEvent::Fetched(a) => {
                let mut headers: Vec<(String, String)> = Vec::new();
                headers.push((String::from_str("content-type"), a.content_type));
                NodeCall::Respond {
                    to: a.to,
                    for_id: a.for_id,
                    status: a.status,
                    headers,
                    body: a.body,
                }
            },
            DriverEvent::Idle => NodeCall::Tick,
            DriverEvent::Closed => {
                return DriverStep { call: NodeCall::Stop, resign: false };
            },
        };
        if due {
            self.signed = now;
        }
        DriverStep { call, resign: due }
    }

    /// Routes what the node has to say: each packet to the writer of its link, in order, and none
    /// to a link that is not up.
    pub fn route(&self, outgoing: Vec<(u64, Vec<u8>)>) -> (r: Vec<Delivery<'_, W>>)
        ensures
            deliveries(r@) == routed(self.writers(), packets(outgoing@)),
    {
        let ghost all = outgoing@;
        let mut out: Vec<Delivery<'_, W>> = Vec::new();
        assert(packets(all).take(0) =~= Seq::<(u64, Seq<u8>)>::empty());
        assert(deliveries(out@) =~= Seq::<(u64, W, Seq<u8>)>::empty());
        for packet in it: outgoing
            invariant
                it.seq() == all,
                deliveries(out@) == routed(
                    self.writers(),
                    packets(all).take(it.index() as int),
                ),
        {
            let ghost k = it.index() as int;
            let ghost before = out@;
            assert(packet == all[k]);
            let (link, bytes) = packet;
            assert(packets(all).take(k + 1).drop_last() =~= packets(all).take(k));
            assert(packets(all).take(k + 1).last() == (link, bytes@));
            match self.writers.get(&link) {
                Some(to) => {
                    let ghost b = bytes@;
                    out.push(Delivery { link, to, bytes });
                    assert(deliveries(out@) =~= deliveries(before).push((link, *to, b)));
                },
                None => {},
            }
        }
        assert(packets(all).take(all.len() as int) =~= packets(all));
        out
    }

    /// Forgets a link whose writer takes no more bytes.
    pub fn writer_failed(&mut self, link: u64)
        ensures
            final(self).writers() == old(self).writers().remove(link),
            final(self).signed_at() == old(self).signed_at(),
    {
        self.writers.remove(&link);
    }
}

/// A link that goes down leaves the others as they were before it came up.
pub proof fn law_down_undoes_up<W>(writers: Map<u64, W>, link: u64, role: Role, w: W)
    requires
        !writers.contains_key(link),
    ensures
        writers_after(
            writers_after(writers, DriverEvent::Up(link, role, w)),
            DriverEvent::<W>::Down(link),
        ) == writers,
{
    assert(writers.insert(link, w).remove(link) =~= writers);
}

/// What can change the writers of a driver.
pub enum Change<W> {
    /// An event was taken in.
    Event(DriverEvent<W>),
    /// The writer of a link took no more bytes.
    WriterFailed(u64),
}

/// The writers after a history of changes, from a driver without links.
pub open spec fn writers_of<W>(history: Seq<Change<W>>) -> Map<u64, W>
    decreases history.len(),
{
    if history.len() == 0 {
        Map::empty()
    } else {
        let before = writers_of(history.drop_last());
        match history.last() {
            Change::Event(ev) => writers_after(before, ev),
            Change::WriterFailed(link) => before.remove(link),
        }
    }
}

/// The writer of the latest time that a link came up, where it has not gone down since and its
/// writer has not failed.
pub open spec fn latest_up<W>(history: Seq<Change<W>>, link: u64) -> Option<W>
    decreases history.len(),
{
    if history.len() == 0 {
        None
    } else {
        match history.last() {
            Change::Event(DriverEvent::Up(l, role, w)) if l == link => Some(w),
            Change::Event(DriverEvent::Down(l)) if l == link => None,
            Change::WriterFailed(l) if l == link => None,
            _ => latest_up(history.drop_last(), link),
        }
    }
}

/// After any history, the writer of a link is the one of its latest coming up without a later
/// going down.
pub proof fn law_writer_is_of_the_latest_up<W>(history: Seq<Change<W>>, link: u64)
    ensures
        latest_up(history, link) == if writers_of(history).contains_key(link) {
            Some(writers_of(history)[link])
        } else {
            None
        },
    decreases history.len(),
{
    if history.len() > 0 {
        law_writer_is_of_the_latest_up(history.drop_last(), link);
    }
}

/// The bytes that the node has to say on a link, in order.
pub open spec fn said_on(out: Seq<(u64, Seq<u8>)>, link: u64) -> Seq<Seq<u8>>
    decreases out.len(),
{
    if out.len() == 0 {
        Seq::empty()
    } else if out.last().0 == link {
        said_on(out.drop_last(), link).push(out.last().1)
    } else {
        said_on(out.drop_last(), link)
    }
}

/// The bytes that are delivered on a link, in order.
pub open spec fn delivered_on<W>(sent: Seq<(u64, W, Seq<u8>)>, link: u64) -> Seq<Seq<u8>>
    decreases sent.len(),
{
    if sent.len() == 0 {
        Seq::empty()
    } else if sent.last().0 == link {
        delivered_on(sent.drop_last(), link).push(sent.last().2)
    } else {
        delivered_on(sent.drop_last(), link)
    }
}

proof fn lemma_routed<W>(writers: Map<u64, W>, out: Seq<(u64, Seq<u8>)>, link: u64)
    ensures
        delivered_on(routed(writers, out), link) == if writers.contains_key(link) {
            said_on(out, link)
        } else {
            Seq::empty()
        },
        forall|i: int|
            0 <= i < routed(writers, out).len() ==> writers.contains_key(
                (#[trigger] routed(writers, out)[i]).0,
            ) && routed(writers, out)[i].1 == writers[routed(writers, out)[i].0],
    decreases out.len(),
{
    if out.len() > 0 {
        lemma_routed(writers, out.drop_last(), link);
        let before = routed(writers, out.drop_last());
        let (l, bytes) = out.last();
        if writers.contains_key(l) {
            let after = before.push((l, writers[l], bytes));
            assert(after.drop_last() =~= before);
            assert forall|i: int| 0 <= i < after.len() implies writers.contains_key(
                (#[trigger] after[i]).0,
            ) && after[i].1 == writers[after[i].0] by {
                if i < before.len() {
                    assert(after[i] == before[i]);
                }
            }
        }
    }
}

/// After any history, what the node says on a link is delivered once and in order to the writer of
/// the link's latest coming up without a later going down, and to no other; where there is none it
/// is dropped.
pub proof fn law_bytes_go_to_the_latest_up<W>(
    history: Seq<Change<W>>,
    out: Seq<(u64, Seq<u8>)>,
    link: u64,
)
    ensures
        ({
            let sent = routed(writers_of(history), out);
            &&& delivered_on(sent, link) == if latest_up(history, link) is Some {
                said_on(out, link)
            } else {
                Seq::empty()
            }
            &&& forall|i: int|
                0 <= i < sent.len() ==> latest_up(history, (#[trigger] sent[i]).0) == Some(
                    sent[i].1,
                )
        }),
{
    let writers = writers_of(history);
    let sent = routed(writers, out);
    lemma_routed(writers, out, link);
    law_writer_is_of_the_latest_up(history, link);
    assert forall|i: int| 0 <= i < sent.len() implies latest_up(history, (#[trigger] sent[i]).0)
        == Some(sent[i].1) by {
        law_writer_is_of_the_latest_up(history, sent[i].0);
    }
}

/// When the record was signed, after events at a sequence of times.
pub open spec fn signed_of(start: nat, times: Seq<nat>) -> nat
    decreases times.len(),
{
    if times.len() == 0 {
        start
    } else {
        signed_after(signed_of(start, times.drop_last()), times.last())
    }
}

/// The time of the last event, or the start.
pub open spec fn latest(start: nat, times: Seq<nat>) -> nat {
    if times.len() == 0 {
        start
    } else {
        times.last()
    }
}

/// The time that a client may keep a record, in nanoseconds.
pub open spec fn ttl_nanos() -> nat {
    (WELL_KNOWN_TTL_SECS * 1_000_000_000) as nat
}

/// A record that has expired is never served, however long the driver runs and whatever it hears:
/// after every event the record is younger than when it is to be signed again, and until the next
/// event, which is never an hour away since the driver waits for [`DRIVER_WAIT_MILLIS`] at most, it
/// stays younger than what a client may keep.
pub proof fn law_served_record_is_fresh(start: nat, times: Seq<nat>, now: nat)
    requires
        forall|i: int, j: int|
            0 <= i < j < times.len() ==> #[trigger] times[i] <= #[trigger] times[j],
        times.len() > 0 ==> start <= times[0],
        latest(start, times) <= now <= latest(start, times) + ttl_nanos() - WELL_KNOWN_RESIGN_NANOS,
    ensures
        signed_of(start, times) <= latest(start, times) < signed_of(start, times)
            + WELL_KNOWN_RESIGN_NANOS,
        now < signed_of(start, times) + ttl_nanos(),
        DRIVER_WAIT_MILLIS * 1_000_000 < ttl_nanos() - WELL_KNOWN_RESIGN_NANOS,
    decreases times.len(),
{
    if times.len() > 0 {
        let before = times.drop_last();
        assert forall|i: int, j: int| 0 <= i < j < before.len() implies #[trigger] before[i]
            <= #[trigger] before[j] by {
            assert(before[i] == times[i] && before[j] == times[j]);
        }
        if before.len() > 0 {
            assert(before[0] == times[0]);
            assert(times[before.len() - 1] <= times[times.len() - 1]);
        }
        law_served_record_is_fresh(start, before, latest(start, before));
    }
}

/// The node hears what happened, as it happened: which link came up, in which role; the bytes that
/// came in, on their link; which link went down; the time when nothing comes; and nothing more once
/// nobody can send events.
pub proof fn law_node_hears_what_happened<W>(
    call: NodeCall,
    link: u64,
    role: Role,
    w: W,
    bytes: Vec<u8>,
)
    ensures
        tells(call, DriverEvent::Up(link, role, w)) <==> call == NodeCall::Connected(link, role),
        tells(call, DriverEvent::<W>::Data(link, bytes)) <==> call == NodeCall::Data(link, bytes),
        tells(call, DriverEvent::<W>::Down(link)) <==> call == NodeCall::Disconnected(link),
        tells(call, DriverEvent::<W>::Idle) <==> call == NodeCall::Tick,
        tells(call, DriverEvent::<W>::Closed) <==> call == NodeCall::Stop,
{
}

/// The response that the node is told to send says what the answer says: to the same peer, for the
/// same request, with the same status and body, and with the content type as its one header.
pub proof fn law_response_says_what_was_answered<W>(call: NodeCall, a: Answer)
    requires
        tells(call, DriverEvent::<W>::Fetched(a)),
    ensures
        call matches NodeCall::Respond { to, for_id, status, headers, body } && to == a.to && for_id
            == a.for_id && status == a.status && body@ == a.body@ && headers@.len() == 1
            && headers@[0].0@ == "content-type"@ && headers@[0].1@ == a.content_type@,
{
}

/// A request that is not served is refused all the way to the one who asked: the node is told to
/// send them 403 for another host and 503 where no place is free, never a success.
pub proof fn law_refusals_reach_the_one_who_asked<W>(
    request: HopsRequest,
    host: Seq<char>,
    dots: nat,
    domain: Seq<char>,
    free: bool,
    a: Answer,
    call: NodeCall,
)
    requires
        host.len() > 0 ==> host.last() != '.',
        request.host@ == host + Seq::new(dots, |i: int| '.'),
        is_decision(HopsDecision::Answer(a), request, domain, free),
        tells(call, DriverEvent::<W>::Fetched(a)),
    ensures
        call matches NodeCall::Respond { to, for_id, status, headers, body } && to == request.from
            && for_id == request.id && headers@[0].1@ == "text/plain; charset=utf-8"@ && if lower(
            host,
        ) != domain {
            status == 403 && body@ == encode_utf8(
                "hop-endpoint: this endpoint only serves "@ + domain,
            )
        } else {
            status == 503 && body@ == encode_utf8("hop-endpoint: busy, try again"@)
        },
{
    law_host_and_place_decide(host, dots, domain, free);
    law_response_says_what_was_answered::<W>(call, a);
}

/// What the origin says to a request that is served reaches the one who asked: the node is told to
/// send them the origin's own status, content type and body, up to the cap; 502 where the origin
/// could not be reached; and 405 where the method is not GET.
pub proof fn law_replies_reach_the_one_who_asked<W>(
    request: HopsRequest,
    origin: Seq<char>,
    reply: BackendReply,
    max_resp: u32,
    a: Answer,
    call: NodeCall,
)
    requires
        a@ == answer_to(
            request,
            match fetch_step(origin, request.method@, request.url@) {
                FetchSpec::Reply(t) => t,
                FetchSpec::Get { url, scheme } => translated(reply, max_resp),
            },
        ),
        tells(call, DriverEvent::<W>::Fetched(a)),
    ensures
        call matches NodeCall::Respond { to, for_id, status: sent, headers, body: sent_body } && to
            == request.from && for_id == request.id && if lower(request.method@) != "get"@ {
            sent == 405
        } else {
            match reply {
                BackendReply::Unreachable => sent == 502,
                BackendReply::Answered { status, content_type, body } => {
                    &&& sent == status
                    &&& content_type is Some ==> headers@[0].1@ == content_type->0@
                    &&& content_type is None ==> headers@[0].1@ == "application/octet-stream"@
                    &&& body is None ==> sent_body@.len() == 0
                    &&& body is Some && body->0@.len() <= max_resp ==> sent_body@ == body->0@
                    &&& body is Some && body->0@.len() > max_resp ==> sent_body@ == body->0@.take(
                        max_resp as int,
                    )
                },
            }
        },
{
    law_mesh_gets_what_it_asks_for(origin, request.method@, request.url@);
    law_body_within_cap(reply, max_resp);
    law_response_says_what_was_answered::<W>(call, a);
}

/// A record is signed again at the first event an hour or more after it was signed, and at no other;
/// a client may keep it for two hours.
pub proof fn law_record_is_signed_every_hour(signed_at: nat, now: nat)
    ensures
        is_due(signed_at, now) <==> now >= signed_at + 3_600_000_000_000,
        signed_after(signed_at, now) == if now >= signed_at + 3_600_000_000_000 {
            now
        } else {
            signed_at
        },
        ttl_nanos() == 7_200_000_000_000,
{
}

/// A link that comes up gets its writer, one that goes down loses it, and nothing else changes a
/// writer.
pub proof fn law_only_up_and_down_change_writers<W>(
    writers: Map<u64, W>,
    ev: DriverEvent<W>,
    link: u64,
)
    ensures
        ({
            let after = writers_after(writers, ev);
            match ev {
                DriverEvent::Up(l, role, w) if l == link => after.contains_key(link) && after[link]
                    == w,
                DriverEvent::Down(l) if l == link => !after.contains_key(link),
                _ => after.contains_key(link) == writers.contains_key(link) && (
                writers.contains_key(link) ==> after[link] == writers[link]),
            }
        }),
{
}

/// Nothing of what is routed is hidden from what is said of it: neither a packet of the node nor a
/// delivery.
pub proof fn law_routing_is_seen_whole<W>(
    out: Seq<(u64, Vec<u8>)>,
    sent: Seq<Delivery<'_, W>>,
    i: int,
)
    ensures
        packets(out).len() == out.len(),
        0 <= i < out.len() ==> packets(out)[i] == (out[i].0, out[i].1@),
        deliveries(sent).len() == sent.len(),
        0 <= i < sent.len() ==> deliveries(sent)[i] == (sent[i].link, *sent[i].to, sent[i].bytes@),
{
}

} // verus!
