//! How one link is driven between its socket and the driver, step by step, and how a relay is
//! dialed again and again.

use vstd::prelude::*;

use crate::bearer::{backoff, reconnect_backoff, RECONNECT_BASE_SECS};

verus! {

/// Which side of a link this node is.
#[derive(Clone, Copy, PartialEq, Eq, Structural, Debug)]
pub enum Role {
    /// It dialed the peer: a relay. Its socket does not block.
    Initiator,
    /// The peer dialed it. Its socket blocks for a short time.
    Responder,
}

/// What the queue of outgoing bytes gave.
pub enum Queue {
    Bytes(Vec<u8>),
    Empty,
    /// Nobody can put bytes in any more.
    Gone,
}

/// How writing or flushing went.
pub enum Io {
    Done,
    WouldBlock,
    Failed,
}

/// What reading gave.
pub enum Incoming {
    Binary(Vec<u8>),
    Close,
    /// A message that carries no packet: text, ping or pong.
    Other,
    /// Nothing has arrived yet.
    NotYet,
    Failed,
}

/// What came of the last step.
pub enum Happened {
    /// The driver was told that the link is up, or could not be.
    UpSent(bool),
    Queued(Queue),
    Written(Io),
    Flushed(Io),
    Got(Incoming),
    /// The driver was handed incoming bytes, or could not be.
    DataSent(bool),
    Waited,
    /// The driver was told that the link is down, as far as it could be.
    DownSent,
}

/// The next step.
pub enum LinkStep {
    /// Look into the queue of outgoing bytes.
    TakeQueued,
    /// Write these bytes as one message.
    Write(Vec<u8>),
    Flush,
    Read,
    /// Hand these bytes to the driver.
    Deliver(Vec<u8>),
    /// Wait for [`LINK_PAUSE_MILLIS`].
    Pause,
    /// Tell the driver that the link is down.
    AnnounceDown,
    /// The link has ended.
    End,
    /// The driver is gone: give up, with nobody to tell.
    Stop,
}

/// The pause of a link whose socket does not block, where nothing has arrived, in milliseconds.
pub const LINK_PAUSE_MILLIS: u64 = 10;

/// What came of a step, with bytes as a sequence.
pub enum HappenedSpec {
    UpSent(bool),
    Bytes(Seq<u8>),
    QueueEmpty,
    QueueGone,
    Written(Io),
    Flushed(Io),
    Binary(Seq<u8>),
    Closed,
    Other,
    NotYet,
    ReadFailed,
    DataSent(bool),
    Waited,
    DownSent,
}

impl View for Happened {
    type V = HappenedSpec;

    open spec fn view(&self) -> HappenedSpec {
        match *self {
            Happened::UpSent(ok) => HappenedSpec::UpSent(ok),
            Happened::Queued(Queue::Bytes(b)) => HappenedSpec::Bytes(b@),
            Happened::Queued(Queue::Empty) => HappenedSpec::QueueEmpty,
            Happened::Queued(Queue::Gone) => HappenedSpec::QueueGone,
            Happened::Written(io) => HappenedSpec::Written(io),
            Happened::Flushed(io) => HappenedSpec::Flushed(io),
            Happened::Got(Incoming::Binary(b)) => HappenedSpec::Binary(b@),
            Happened::Got(Incoming::Close) => HappenedSpec::Closed,
            Happened::Got(Incoming::Other) => HappenedSpec::Other,
            Happened::Got(Incoming::NotYet) => HappenedSpec::NotYet,
            Happened::Got(Incoming::Failed) => HappenedSpec::ReadFailed,
            Happened::DataSent(ok) => HappenedSpec::DataSent(ok),
            Happened::Waited => HappenedSpec::Waited,
            Happened::DownSent => HappenedSpec::DownSent,
        }
    }
}

/// A step, with bytes as a sequence.
pub enum LinkSpec {
    TakeQueued,
    Write(Seq<u8>),
    Flush,
    Read,
    Deliver(Seq<u8>),
    Pause,
    AnnounceDown,
    End,
    Stop,
}

impl View for LinkStep {
    type V = LinkSpec;

    open spec fn view(&self) -> LinkSpec {
        match *self {
            LinkStep::TakeQueued => LinkSpec::TakeQueued,
            LinkStep::Write(b) => LinkSpec::Write(b@),
            LinkStep::Flush => LinkSpec::Flush,
            LinkStep::Read => LinkSpec::Read,
            LinkStep::Deliver(b) => LinkSpec::Deliver(b@),
            LinkStep::Pause => LinkSpec::Pause,
            LinkStep::AnnounceDown => LinkSpec::AnnounceDown,
            LinkStep::End => LinkSpec::End,
            LinkStep::Stop => LinkSpec::Stop,
        }
    }
}

/// Whether writing or flushing went well enough to go on. Only a socket that does not block is
/// allowed to be full.
pub open spec fn goes_on(role: Role, io: Io) -> bool {
    io is Done || (io is WouldBlock && role is Initiator)
}

/// The step that follows. A round takes everything from the queue and writes it, flushes, and
/// reads once; what goes wrong brings the link down.
pub open spec fn link_next(role: Role, h: HappenedSpec) -> LinkSpec {
    match h {
        HappenedSpec::UpSent(ok) => if ok {
            LinkSpec::TakeQueued
        } else {
            LinkSpec::Stop
        },
        HappenedSpec::Bytes(b) => LinkSpec::Write(b),
        HappenedSpec::QueueEmpty => LinkSpec::Flush,
        HappenedSpec::QueueGone => LinkSpec::AnnounceDown,
        HappenedSpec::Written(io) => if goes_on(role, io) {
            LinkSpec::TakeQueued
        } else {
            LinkSpec::AnnounceDown
        },
        HappenedSpec::Flushed(io) => if goes_on(role, io) {
            LinkSpec::Read
        } else {
            LinkSpec::AnnounceDown
        },
        HappenedSpec::Binary(b) => LinkSpec::Deliver(b),
        HappenedSpec::Closed => LinkSpec::AnnounceDown,
        HappenedSpec::Other => LinkSpec::TakeQueued,
        HappenedSpec::NotYet => if role is Initiator {
            LinkSpec::Pause
        } else {
            LinkSpec::TakeQueued
        },
        HappenedSpec::ReadFailed => LinkSpec::AnnounceDown,
        HappenedSpec::DataSent(ok) => if ok {
            LinkSpec::TakeQueued
        } else if role is Initiator {
            LinkSpec::Stop
        } else {
            LinkSpec::AnnounceDown
        },
        HappenedSpec::Waited => LinkSpec::TakeQueued,
        HappenedSpec::DownSent => LinkSpec::End,
    }
}

/// The step that follows what happened. A link begins with the driver being told that it is up.
pub fn link_step(role: Role, happened: Happened) -> (r: LinkStep)
    ensures
        r@ == link_next(role, happened@),
{
    let dialed = role == Role::Initiator;
    match happened {
        Happened::UpSent(ok) => if ok {
            LinkStep::TakeQueued
        } else {
            LinkStep::Stop
        },
        Happened::Queued(q) => match q {
            Queue::Bytes(b) => LinkStep::Write(b),
            Queue::Empty => LinkStep::Flush,
            Queue::Gone => LinkStep::AnnounceDown,
        },
        Happened::Written(io) => match io {
            Io::Done => LinkStep::TakeQueued,
            Io::WouldBlock => if dialed {
                LinkStep::TakeQueued
            } else {
                LinkStep::AnnounceDown
            },
            Io::Failed => LinkStep::AnnounceDown,
        },
        Happened::Flushed(io) => match io {
            Io::Done => LinkStep::Read,
            Io::WouldBlock => if dialed {
                LinkStep::Read
            } else {
                LinkStep::AnnounceDown
            },
            Io::Failed => LinkStep::AnnounceDown,
        },
        Happened::Got(i) => match i {
            Incoming::Binary(b) => LinkStep::Deliver(b),
            Incoming::Close => LinkStep::AnnounceDown,
            Incoming::Other => LinkStep::TakeQueued,
            Incoming::NotYet => if dialed {
                LinkStep::Pause
            } else {
                LinkStep::TakeQueued
            },
            Incoming::Failed => LinkStep::AnnounceDown,
        },
        Happened::DataSent(ok) => if ok {
            LinkStep::TakeQueued
        } else if dialed {
            LinkStep::Stop
        } else {
            LinkStep::AnnounceDown
        },
        Happened::Waited => LinkStep::TakeQueued,
        Happened::DownSent => LinkStep::End,
    }
}

/// Whether `h` can come of the step `s`. Nothing comes of the last steps.
pub open spec fn comes_of(s: LinkSpec, h: HappenedSpec) -> bool {
    match s {
        LinkSpec::TakeQueued => h is Bytes || h is QueueEmpty || h is QueueGone,
        LinkSpec::Write(_) => h is Written,
        LinkSpec::Flush => h is Flushed,
        LinkSpec::Read => h is Binary || h is Closed || h is Other || h is NotYet || h is ReadFailed,
        LinkSpec::Deliver(_) => h is DataSent,
        LinkSpec::Pause => h is Waited,
        LinkSpec::AnnounceDown => h is DownSent,
        LinkSpec::End => false,
        LinkSpec::Stop => false,
    }
}

/// A life of a link, from its beginning: the driver is told that it is up, and then each thing
/// comes of the step before it.
pub open spec fn is_life(role: Role, hs: Seq<HappenedSpec>) -> bool {
    &&& hs.len() > 0 ==> hs[0] is UpSent
    &&& forall|i: int|
        #![trigger hs[i]]
        0 < i < hs.len() ==> comes_of(link_next(role, hs[i - 1]), hs[i])
}

/// The driver hears once that a link is up, before anything else, and at most once that it is
/// down, after everything else; and a link that ends has been announced down.
pub proof fn law_up_first_down_last(role: Role, hs: Seq<HappenedSpec>, i: int)
    requires
        is_life(role, hs),
        0 <= i < hs.len(),
    ensures
        hs[i] is UpSent <==> i == 0,
        hs[i] is DownSent ==> i == hs.len() - 1 && hs[0] == HappenedSpec::UpSent(true),
        link_next(role, hs[i]) is End <==> hs[i] is DownSent,
{
    if i > 0 {
        assert(comes_of(link_next(role, hs[i - 1]), hs[i]));
        assert(comes_of(link_next(role, hs[0]), hs[1]));
    }
    if i + 1 < hs.len() {
        assert(comes_of(link_next(role, hs[i + 1 - 1]), hs[i + 1]));
    }
}

/// A link gives up without a word only where the driver itself is gone.
pub proof fn law_only_a_gone_driver_is_not_told(role: Role, h: HappenedSpec)
    ensures
        link_next(role, h) is Stop ==> h == HappenedSpec::UpSent(false) || h
            == HappenedSpec::DataSent(false),
{
}

/// A link never waits for its peer while bytes are queued: each time it reads, it has just flushed,
/// and before that it has found the queue empty.
pub proof fn law_queue_is_sent_before_reading(role: Role, hs: Seq<HappenedSpec>, i: int)
    requires
        is_life(role, hs),
        0 <= i < hs.len(),
        link_next(role, hs[i]) is Read,
    ensures
        i >= 2,
        hs[i] is Flushed,
        hs[i - 1] is QueueEmpty,
{
    if i > 0 {
        assert(comes_of(link_next(role, hs[i - 1]), hs[i]));
    }
    if i > 1 {
        assert(comes_of(link_next(role, hs[i - 1 - 1]), hs[i - 1]));
    }
}

/// The bytes that are handed on are the ones that came, both ways, and only a binary message is
/// handed to the driver.
pub proof fn law_bytes_pass_through(role: Role, h: HappenedSpec)
    ensures
        link_next(role, h) matches LinkSpec::Deliver(b) ==> h == HappenedSpec::Binary(b),
        link_next(role, h) matches LinkSpec::Write(b) ==> h == HappenedSpec::Bytes(b),
        h matches HappenedSpec::Binary(b) ==> link_next(role, h) == LinkSpec::Deliver(b),
        h matches HappenedSpec::Bytes(b) ==> link_next(role, h) == LinkSpec::Write(b),
{
}

/// What came of dialing a relay, or of the link to it.
#[derive(Clone, Copy, PartialEq, Eq, Structural, Debug)]
pub enum DialEvent {
    Connected,
    Refused,
    /// The link was up, and has ended.
    LinkEnded,
    DriverGone,
}

/// What to do about a relay.
#[derive(Clone, Copy, PartialEq, Eq, Structural, Debug)]
pub enum DialStep {
    /// Drive the link until it ends.
    RunLink,
    /// Wait for so many seconds, and dial.
    DialAfter(u64),
    Stop,
}

/// The failures in a row, after an event.
pub open spec fn failures_after(failures: nat, ev: DialEvent) -> nat {
    match ev {
        DialEvent::Connected => 0,
        DialEvent::Refused => if failures < u32::MAX {
            failures + 1
        } else {
            failures
        },
        _ => failures,
    }
}

/// What to do after an event that left so many failures in a row.
pub open spec fn dial_next(failures: nat, ev: DialEvent) -> DialStep {
    match ev {
        DialEvent::Connected => DialStep::RunLink,
        DialEvent::Refused => DialStep::DialAfter(backoff(failures) as u64),
        DialEvent::LinkEnded => DialStep::DialAfter(RECONNECT_BASE_SECS),
        DialEvent::DriverGone => DialStep::Stop,
    }
}

/// The failures in a row of dialing a relay.
pub struct RelayDialer {
    failures: u32,
}

impl View for RelayDialer {
    type V = nat;

    closed spec fn view(&self) -> nat {
        self.failures as nat
    }
}

impl RelayDialer {
    /// No failure yet.
    pub fn new() -> (r: RelayDialer)
        ensures
            r@ == 0,
    {
        RelayDialer { failures: 0 }
    }

    /// The failures in a row.
    pub fn failures(&self) -> (r: u32)
        ensures
            r == self@,
    {
        self.failures
    }

    /// Takes in what came of the last step, and tells the next.
    pub fn dial_relay(&mut self, ev: DialEvent) -> (r: DialStep)
        ensures
            final(self)@ == failures_after(old(self)@, ev),
            r == dial_next(final(self)@, ev),
    {
        match ev {
            DialEvent::Connected => {
                self.failures = 0;
                DialStep::RunLink
            },
            DialEvent::Refused => {
                self.failures = self.failures.saturating_add(1);
                DialStep::DialAfter(reconnect_backoff(self.failures))
            },
            DialEvent::LinkEnded => DialStep::DialAfter(RECONNECT_BASE_SECS),
            DialEvent::DriverGone => DialStep::Stop,
        }
    }
}

/// The failures in a row after a sequence of events.
pub open spec fn failures_of(events: Seq<DialEvent>) -> nat
    decreases events.len(),
{
    if events.len() == 0 {
        0
    } else {
        failures_after(failures_of(events.drop_last()), events.last())
    }
}

/// A connection wipes out the failures before it: after it, and after any number of refusals in a
/// row, the pause is the one for that number, whatever came earlier.
pub proof fn law_connecting_resets_the_backoff(events: Seq<DialEvent>, refusals: nat)
    requires
        events.len() > 0 ==> events.last() is Connected,
        refusals <= u32::MAX,
    ensures
        failures_of(events + Seq::new(refusals, |i: int| DialEvent::Refused)) == refusals,
        dial_next(refusals, DialEvent::Refused) == DialStep::DialAfter(backoff(refusals) as u64),
        dial_next(refusals, DialEvent::LinkEnded) == DialStep::DialAfter(RECONNECT_BASE_SECS),
    decreases refusals,
{
    let all = events + Seq::new(refusals, |i: int| DialEvent::Refused);
    if refusals == 0 {
        assert(all =~= events);
    } else {
        let fewer = (refusals - 1) as nat;
        law_connecting_resets_the_backoff(events, fewer);
        assert(all.drop_last() =~= events + Seq::new(fewer, |i: int| DialEvent::Refused));
        assert(all.last() is Refused);
    }
}

/// A link is announced down exactly where something went wrong on a link that was up: its writer is
/// gone, its peer closed it, reading failed, or writing or flushing failed, where a full socket
/// counts as a failure only on a link that was accepted; and, on such a link, where the driver took
/// no more bytes.
pub proof fn law_only_trouble_brings_a_link_down(role: Role, h: HappenedSpec)
    ensures
        link_next(role, h) is AnnounceDown <==> {
            ||| h is QueueGone
            ||| h is Closed
            ||| h is ReadFailed
            ||| h == HappenedSpec::Written(Io::Failed)
            ||| h == HappenedSpec::Flushed(Io::Failed)
            ||| role is Responder && h == HappenedSpec::Written(Io::WouldBlock)
            ||| role is Responder && h == HappenedSpec::Flushed(Io::WouldBlock)
            ||| role is Responder && h == HappenedSpec::DataSent(false)
        },
{
}

/// A link that is well goes round: the queue is written to its end, flushed, and then the socket is
/// read; what is no packet, or has not come yet, leads back to the queue, on a link that was dialed
/// after a pause. It gives up at once where the driver is gone before it is up, or, on a link that
/// was dialed, later.
pub proof fn law_a_link_goes_round(role: Role, h: HappenedSpec)
    ensures
        link_next(role, h) is Flush <==> h is QueueEmpty,
        link_next(role, h) is Read <==> h == HappenedSpec::Flushed(Io::Done) || (role is Initiator
            && h == HappenedSpec::Flushed(Io::WouldBlock)),
        link_next(role, h) is Pause <==> role is Initiator && h is NotYet,
        link_next(role, h) is End <==> h is DownSent,
        link_next(role, h) is Stop <==> h == HappenedSpec::UpSent(false) || (role is Initiator && h
            == HappenedSpec::DataSent(false)),
        link_next(role, h) is TakeQueued <==> {
            ||| h == HappenedSpec::UpSent(true)
            ||| h == HappenedSpec::Written(Io::Done)
            ||| role is Initiator && h == HappenedSpec::Written(Io::WouldBlock)
            ||| h is Other
            ||| role is Responder && h is NotYet
            ||| h == HappenedSpec::DataSent(true)
            ||| h is Waited
        },
{
}

/// A relay that takes the call is kept until its link ends, and is then dialed again after five
/// seconds; one that does not is dialed again after the pause for its failures, of which there is
/// now one more; and once the driver is gone it is dialed no more.
pub proof fn law_a_relay_is_dialed_again(failures: nat)
    ensures
        failures_after(failures, DialEvent::Connected) == 0,
        failures < u32::MAX ==> failures_after(failures, DialEvent::Refused) == failures + 1,
        failures_after(failures, DialEvent::LinkEnded) == failures,
        dial_next(failures, DialEvent::Connected) == DialStep::RunLink,
        dial_next(failures, DialEvent::Refused) == DialStep::DialAfter(backoff(failures) as u64),
        dial_next(failures, DialEvent::LinkEnded) == DialStep::DialAfter(5),
        dial_next(failures, DialEvent::DriverGone) == DialStep::Stop,
{
}

/// Nothing of a step, or of what came of one, is hidden from what is said of it.
pub proof fn law_link_is_seen_whole(b: Vec<u8>, ok: bool, io: Io)
    ensures
        Happened::UpSent(ok)@ == HappenedSpec::UpSent(ok),
        Happened::Queued(Queue::Bytes(b))@ == HappenedSpec::Bytes(b@),
        Happened::Queued(Queue::Empty)@ == HappenedSpec::QueueEmpty,
        Happened::Queued(Queue::Gone)@ == HappenedSpec::QueueGone,
        Happened::Written(io)@ == HappenedSpec::Written(io),
        Happened::Flushed(io)@ == HappenedSpec::Flushed(io),
        Happened::Got(Incoming::Binary(b))@ == HappenedSpec::Binary(b@),
        Happened::Got(Incoming::Close)@ == HappenedSpec::Closed,
        Happened::Got(Incoming::Other)@ == HappenedSpec::Other,
        Happened::Got(Incoming::NotYet)@ == HappenedSpec::NotYet,
        Happened::Got(Incoming::Failed)@ == HappenedSpec::ReadFailed,
        Happened::DataSent(ok)@ == HappenedSpec::DataSent(ok),
        Happened::Waited@ == HappenedSpec::Waited,
        Happened::DownSent@ == HappenedSpec::DownSent,
        LinkStep::TakeQueued@ == LinkSpec::TakeQueued,
        LinkStep::Write(b)@ == LinkSpec::Write(b@),
        LinkStep::Flush@ == LinkSpec::Flush,
        LinkStep::Read@ == LinkSpec::Read,
        LinkStep::Deliver(b)@ == LinkSpec::Deliver(b@),
        LinkStep::Pause@ == LinkSpec::Pause,
        LinkStep::AnnounceDown@ == LinkSpec::AnnounceDown,
        LinkStep::End@ == LinkSpec::End,
        LinkStep::Stop@ == LinkSpec::Stop,
{
}

} // verus!
