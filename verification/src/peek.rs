//! What a new connection is, told from the bytes that can be peeked: a WebSocket handshake, a
//! plain HTTP request, or nothing to serve.

use vstd::prelude::*;

use crate::text::{chars_of, lower, lower_char, to_lower_char};

verus! {

/// What a peeked connection is.
#[derive(Clone, Copy, PartialEq, Eq, Structural, Debug)]
pub enum PeekKind {
    WsUpgrade,
    HttpProxy,
    Empty,
}

/// How often a connection is peeked.
pub const PEEK_ATTEMPTS: u32 = 8;

/// The most bytes that are peeked.
pub const PEEK_BUFFER_BYTES: usize = 2048;

/// The pause between two peeks, in milliseconds.
pub const PEEK_PAUSE_MILLIS: u64 = 20;

/// True where the bytes from `i` on are the text `t`, with capitals taken as small letters.
pub open spec fn has_text_at(head: Seq<u8>, t: Seq<char>, i: int) -> bool {
    &&& 0 <= i
    &&& i + t.len() <= head.len()
    &&& forall|j: int| 0 <= j < t.len() ==> lower_char(#[trigger] head[i + j] as char) == t[j]
}

/// True where the bytes hold the text `t`, with capitals taken as small letters.
pub open spec fn has_text(head: Seq<u8>, t: Seq<char>) -> bool {
    exists|i: int| has_text_at(head, t, i)
}

/// What the bytes of a head decide: the upgrade token makes it a handshake, a blank line without
/// the token makes it a plain request, and without either the rest of the head can still change
/// it.
pub open spec fn classified(head: Seq<u8>) -> Option<PeekKind> {
    if has_text(head, "upgrade: websocket"@) {
        Some(PeekKind::WsUpgrade)
    } else if has_text(head, "\r\n\r\n"@) || has_text(head, "\n\n"@) {
        Some(PeekKind::HttpProxy)
    } else {
        None
    }
}

fn text_in(head: &[u8], t: &str) -> (r: bool)
    ensures
        r == has_text(head@, t@),
{
    let w = chars_of(t);
    if w.len() > head.len() {
        return false;
    }
    let n: usize = head.len();
    let last: usize = n - w.len();
    let mut i: usize = 0;
    while i <= last
        invariant
            i <= last + 1,
            n == head@.len(),
            last + w@.len() == n,
            w@ == t@,
            forall|k: int| 0 <= k < i ==> !has_text_at(head@, t@, k),
        decreases last + 1 - i,
    {
        let mut j: usize = 0;
        while j < w.len() && to_lower_char(head[i + j] as char) == w[j]
            invariant
                i <= last,
                j <= w@.len(),
                n == head@.len(),
                last + w@.len() == n,
                w@ == t@,
                forall|k: int|
                    0 <= k < j ==> lower_char(#[trigger] head@[i + k] as char) == t@[k],
            decreases w@.len() - j,
        {
            j = j + 1;
        }
        if j == w.len() {
            assert(has_text_at(head@, t@, i as int));
            return true;
        }
        assert(lower_char(head@[i + j] as char) != t@[j as int]);
        if i == last {
            return false;
        }
        i = i + 1;
    }
    false
}

/// Decides from the bytes that have arrived what a connection is, where they decide it.
pub fn classify_head(head: &[u8]) -> (r: Option<PeekKind>)
    ensures
        r == classified(head@),
{
    if text_in(head, "upgrade: websocket") {
        return Some(PeekKind::WsUpgrade);
    }
    if text_in(head, "\r\n\r\n") || text_in(head, "\n\n") {
        return Some(PeekKind::HttpProxy);
    }
    None
}

/// A text in the bytes stays there when more bytes arrive.
pub proof fn lemma_text_stays(head: Seq<u8>, more: Seq<u8>, t: Seq<char>)
    requires
        has_text(head, t),
    ensures
        has_text(head + more, t),
{
    let i = choose|i: int| has_text_at(head, t, i);
    assert forall|j: int| 0 <= j < t.len() implies lower_char(
        #[trigger] (head + more)[i + j] as char,
    ) == t[j] by {
        assert((head + more)[i + j] == head[i + j]);
    }
    assert(has_text_at(head + more, t, i));
}

/// A handshake is recognised however it is split: once the token has arrived, more bytes change
/// nothing, and a head that is decided never becomes undecided.
pub proof fn law_more_bytes_keep_the_decision(head: Seq<u8>, more: Seq<u8>)
    ensures
        classified(head) == Some(PeekKind::WsUpgrade) ==> classified(head + more) == Some(
            PeekKind::WsUpgrade,
        ),
        classified(head) is Some ==> classified(head + more) is Some,
        classified(head) != Some(PeekKind::Empty),
{
    if has_text(head, "upgrade: websocket"@) {
        lemma_text_stays(head, more, "upgrade: websocket"@);
    }
    if has_text(head, "\r\n\r\n"@) {
        lemma_text_stays(head, more, "\r\n\r\n"@);
    }
    if has_text(head, "\n\n"@) {
        lemma_text_stays(head, more, "\n\n"@);
    }
}

/// What one peek gave.
pub enum Peeked<'a> {
    /// The bytes that have arrived; none of them where the peer has closed.
    Bytes(&'a [u8]),
    /// Nothing within the time.
    Waiting,
    /// An error.
    Failed,
}

/// What one peek gave, with the bytes as a sequence.
pub enum PeekedSpec {
    Bytes(Seq<u8>),
    Waiting,
    Failed,
}

impl<'a> View for Peeked<'a> {
    type V = PeekedSpec;

    open spec fn view(&self) -> PeekedSpec {
        match self {
            Peeked::Bytes(b) => PeekedSpec::Bytes(b@),
            Peeked::Waiting => PeekedSpec::Waiting,
            Peeked::Failed => PeekedSpec::Failed,
        }
    }
}

/// What to do after a peek.
#[derive(Clone, Copy, PartialEq, Eq, Structural, Debug)]
pub enum PeekStep {
    /// The connection is known.
    Done(PeekKind),
    /// Pause and peek again.
    Again,
    /// Pause; the connection is taken for what is given.
    GiveUp(PeekKind),
}

/// The peeks so far, and whether one of them gave bytes.
pub struct PeekState {
    pub attempt: nat,
    pub seen: bool,
}

/// What an undecided connection is taken for.
pub open spec fn guess(seen: bool) -> PeekKind {
    if seen {
        PeekKind::HttpProxy
    } else {
        PeekKind::Empty
    }
}

/// The state before the first peek.
pub open spec fn peek_start() -> PeekState {
    PeekState { attempt: 0, seen: false }
}

/// The state after a peek.
pub open spec fn peek_after(st: PeekState, p: PeekedSpec) -> PeekState {
    PeekState { attempt: st.attempt + 1, seen: st.seen || p is Bytes }
}

/// What a peek decides: what the bytes say, a guess where they fill the buffer or the peek fails
/// or the peeks are used up, and nothing to serve where no byte ever came.
pub open spec fn peek_step(st: PeekState, p: PeekedSpec) -> PeekStep {
    let next = if st.attempt + 1 == PEEK_ATTEMPTS {
        PeekStep::GiveUp(guess(st.seen || p is Bytes))
    } else {
        PeekStep::Again
    };
    match p {
        PeekedSpec::Bytes(b) => if b.len() == 0 {
            PeekStep::Done(PeekKind::Empty)
        } else {
            match classified(b) {
                Some(kind) => PeekStep::Done(kind),
                None => if b.len() == PEEK_BUFFER_BYTES {
                    PeekStep::Done(PeekKind::HttpProxy)
                } else {
                    next
                },
            }
        },
        PeekedSpec::Waiting => if st.attempt == 0 && !st.seen {
            PeekStep::Done(PeekKind::Empty)
        } else {
            next
        },
        PeekedSpec::Failed => PeekStep::Done(guess(st.seen)),
    }
}

/// The peeks at one connection.
pub struct Peeker {
    attempt: u32,
    seen: bool,
}

impl View for Peeker {
    type V = PeekState;

    closed spec fn view(&self) -> PeekState {
        PeekState { attempt: self.attempt as nat, seen: self.seen }
    }
}

impl Peeker {
    /// Before the first peek.
    pub fn new() -> (r: Peeker)
        ensures
            r@ == peek_start(),
    {
        Peeker { attempt: 0, seen: false }
    }

    /// Takes in what a peek gave, and tells what to do.
    pub fn on_peek(&mut self, peeked: Peeked) -> (r: PeekStep)
        requires
            old(self)@.attempt < PEEK_ATTEMPTS,
        ensures
            r == peek_step(old(self)@, peeked@),
            final(self)@ == peek_after(old(self)@, peeked@),
            r is Again ==> final(self)@.attempt < PEEK_ATTEMPTS,
    {
        let seen = self.seen;
        let first = self.attempt == 0;
        self.attempt = self.attempt + 1;
        match peeked {
            Peeked::Bytes(b) => {
                self.seen = true;
                if b.len() == 0 {
                    return PeekStep::Done(PeekKind::Empty);
                }
                match classify_head(b) {
                    Some(kind) => {
                        return PeekStep::Done(kind);
                    },
                    None => {},
                }
                if b.len() == PEEK_BUFFER_BYTES {
                    return PeekStep::Done(PeekKind::HttpProxy);
                }
            },
            Peeked::Waiting => {
                if first && !seen {
                    return PeekStep::Done(PeekKind::Empty);
                }
            },
            Peeked::Failed => {
                return PeekStep::Done(best_guess(seen));
            },
        }
        if self.attempt == PEEK_ATTEMPTS {
            PeekStep::GiveUp(best_guess(self.seen))
        } else {
            PeekStep::Again
        }
    }
}

fn best_guess(seen: bool) -> (r: PeekKind)
    ensures
        r == guess(seen),
{
    if seen {
        PeekKind::HttpProxy
    } else {
        PeekKind::Empty
    }
}

/// What the peeks from a state on decide, if they decide.
pub open spec fn peek_from(st: PeekState, peeks: Seq<PeekedSpec>) -> Option<PeekKind>
    decreases peeks.len(),
{
    if peeks.len() == 0 {
        None
    } else {
        match peek_step(st, peeks[0]) {
            PeekStep::Done(kind) => Some(kind),
            PeekStep::GiveUp(kind) => Some(kind),
            PeekStep::Again => peek_from(peek_after(st, peeks[0]), peeks.drop_first()),
        }
    }
}

proof fn lemma_peeks_end(st: PeekState, peeks: Seq<PeekedSpec>)
    requires
        st.attempt < PEEK_ATTEMPTS,
        peeks.len() + st.attempt >= PEEK_ATTEMPTS,
        st.attempt > 0 ==> st.seen,
    ensures
        peek_from(st, peeks) is Some,
        peek_from(st, peeks) == Some(PeekKind::Empty) ==> exists|i: int|
            0 <= i < peeks.len() && (#[trigger] peeks[i] == PeekedSpec::Bytes(Seq::<u8>::empty())
                || (i == 0 && !st.seen && !(peeks[0] is Bytes))),
    decreases peeks.len(),
{
    let p = peeks[0];
    match p {
        PeekedSpec::Bytes(b) => {
            law_more_bytes_keep_the_decision(b, Seq::empty());
            if b.len() == 0 {
                assert(b =~= Seq::<u8>::empty());
                assert(peeks[0] == PeekedSpec::Bytes(Seq::<u8>::empty()));
            }
        },
        _ => {},
    }
    match peek_step(st, p) {
        PeekStep::Again => {
            let t = peeks.drop_first();
            lemma_peeks_end(peek_after(st, p), t);
            if peek_from(st, peeks) == Some(PeekKind::Empty) {
                let i = choose|i: int|
                    0 <= i < t.len() && #[trigger] t[i] == PeekedSpec::Bytes(Seq::<u8>::empty());
                assert(peeks[i + 1] == t[i]);
            }
        },
        _ => {
            assert(peeks[0] == p);
        },
    }
}

/// Peeking ends: a connection is known after the last attempt at the latest, whatever the peeks
/// gave. It is taken for empty only where a peek found it closed, or the first peek found
/// nothing.
pub proof fn law_peeking_ends(peeks: Seq<PeekedSpec>)
    requires
        peeks.len() >= 8,
    ensures
        peek_from(peek_start(), peeks) is Some,
        peek_from(peek_start(), peeks) == Some(PeekKind::Empty) ==> !(peeks[0] is Bytes)
            || exists|i: int|
            0 <= i < peeks.len() && #[trigger] peeks[i] == PeekedSpec::Bytes(Seq::<u8>::empty()),
{
    lemma_peeks_end(peek_start(), peeks);
}

/// True where a peek gave the beginning of a head: some bytes, with room for more, and no blank
/// line in them.
pub open spec fn is_beginning(p: PeekedSpec) -> bool {
    p matches PeekedSpec::Bytes(b) && 0 < b.len() < 2048 && !has_text(
        b,
        "\r\n\r\n"@,
    ) && !has_text(b, "\n\n"@)
}

proof fn lemma_split_handshake(st: PeekState, peeks: Seq<PeekedSpec>, k: int)
    requires
        0 <= k < peeks.len(),
        st.attempt + k < PEEK_ATTEMPTS,
        forall|i: int| 0 <= i < k ==> is_beginning(#[trigger] peeks[i]),
        peeks[k] matches PeekedSpec::Bytes(b) && has_text(b, "upgrade: websocket"@),
    ensures
        peek_from(st, peeks) == Some(PeekKind::WsUpgrade),
    decreases k,
{
    if k == 0 {
        reveal_strlit("upgrade: websocket");
    } else {
        let t = peeks.drop_first();
        assert(is_beginning(peeks[0]));
        assert forall|i: int| 0 <= i < k - 1 implies is_beginning(#[trigger] t[i]) by {
            assert(t[i] == peeks[i + 1]);
        }
        assert(t[k - 1] == peeks[k]);
        lemma_split_handshake(peek_after(st, peeks[0]), t, k - 1);
    }
}

/// A handshake that arrives in pieces is recognised: where the token is there by one of the
/// attempts, and the peeks before it gave beginnings of the head, the connection is an upgrade.
pub proof fn law_split_handshake_is_recognised(peeks: Seq<PeekedSpec>, k: int)
    requires
        0 <= k < peeks.len(),
        k < 8,
        forall|i: int| 0 <= i < k ==> is_beginning(#[trigger] peeks[i]),
        peeks[k] matches PeekedSpec::Bytes(b) && has_text(b, "upgrade: websocket"@),
    ensures
        peek_from(peek_start(), peeks) == Some(PeekKind::WsUpgrade),
{
    lemma_split_handshake(peek_start(), peeks, k);
}

/// The bytes of a head as characters, with capitals made small.
pub open spec fn small_letters(head: Seq<u8>) -> Seq<char> {
    lower(head.map_values(|b: u8| b as char))
}

/// True where a text stands somewhere in another.
pub open spec fn stands_in(t: Seq<char>, s: Seq<char>) -> bool {
    exists|i: int| 0 <= i <= s.len() && t.is_prefix_of(#[trigger] s.skip(i))
}

proof fn lemma_has_text(head: Seq<u8>, t: Seq<char>)
    ensures
        has_text(head, t) <==> stands_in(t, small_letters(head)),
{
    let s = small_letters(head);
    if has_text(head, t) {
        let i = choose|i: int| has_text_at(head, t, i);
        assert forall|j: int| 0 <= j < t.len() implies t[j] == s.skip(i)[j] by {
            assert(s.skip(i)[j] == lower_char(head[i + j] as char));
        }
        assert(t =~= s.skip(i).take(t.len() as int));
        assert(t.is_prefix_of(s.skip(i)));
    }
    if stands_in(t, s) {
        let i = choose|i: int| 0 <= i <= s.len() && t.is_prefix_of(#[trigger] s.skip(i));
        assert forall|j: int| 0 <= j < t.len() implies lower_char(#[trigger] head[i + j] as char)
            == t[j] by {
            assert(s.skip(i)[j] == lower_char(head[i + j] as char));
        }
        assert(has_text_at(head, t, i));
    }
}

/// A head is an upgrade exactly where the token stands in it, in any case; it is a plain request
/// exactly where a blank line does and the token does not; and with neither it is undecided.
pub proof fn law_token_and_blank_line_decide(head: Seq<u8>)
    ensures
        classified(head) == Some(PeekKind::WsUpgrade) <==> stands_in(
            "upgrade: websocket"@,
            small_letters(head),
        ),
        classified(head) == Some(PeekKind::HttpProxy) <==> !stands_in(
            "upgrade: websocket"@,
            small_letters(head),
        ) && (stands_in("\r\n\r\n"@, small_letters(head)) || stands_in(
            "\n\n"@,
            small_letters(head),
        )),
        classified(head) is None || classified(head) == Some(PeekKind::WsUpgrade) || classified(head)
            == Some(PeekKind::HttpProxy),
{
    lemma_has_text(head, "upgrade: websocket"@);
    lemma_has_text(head, "\r\n\r\n"@);
    lemma_has_text(head, "\n\n"@);
}

/// True where a peek gave bytes in which the token stands.
pub open spec fn holds_token(p: PeekedSpec) -> bool {
    p matches PeekedSpec::Bytes(b) && stands_in("upgrade: websocket"@, small_letters(b))
}

proof fn lemma_no_token_no_upgrade(st: PeekState, peeks: Seq<PeekedSpec>)
    requires
        forall|i: int| 0 <= i < peeks.len() ==> !holds_token(#[trigger] peeks[i]),
    ensures
        peek_from(st, peeks) != Some(PeekKind::WsUpgrade),
    decreases peeks.len(),
{
    if peeks.len() > 0 {
        let p = peeks[0];
        assert(!holds_token(p));
        match p {
            PeekedSpec::Bytes(b) => {
                law_token_and_blank_line_decide(b);
            },
            _ => {},
        }
        let t = peeks.drop_first();
        assert forall|i: int| 0 <= i < t.len() implies !holds_token(#[trigger] t[i]) by {
            assert(t[i] == peeks[i + 1]);
        }
        lemma_no_token_no_upgrade(peek_after(st, p), t);
    }
}

/// A connection is never taken for an upgrade where no peek gave the token.
pub proof fn law_no_token_no_upgrade(peeks: Seq<PeekedSpec>)
    requires
        forall|i: int| 0 <= i < peeks.len() ==> !holds_token(#[trigger] peeks[i]),
    ensures
        peek_from(peek_start(), peeks) != Some(PeekKind::WsUpgrade),
{
    lemma_no_token_no_upgrade(peek_start(), peeks);
}

proof fn lemma_bytes_without_token(st: PeekState, peeks: Seq<PeekedSpec>)
    requires
        st.attempt < 8,
        peeks.len() + st.attempt >= 8,
        st.seen || (peeks[0] is Bytes && st.attempt == 0),
        forall|i: int|
            0 <= i < peeks.len() ==> !holds_token(#[trigger] peeks[i]) && peeks[i]
                != PeekedSpec::Bytes(Seq::<u8>::empty()),
    ensures
        peek_from(st, peeks) == Some(PeekKind::HttpProxy),
    decreases peeks.len(),
{
    let p = peeks[0];
    assert(!holds_token(p) && p != PeekedSpec::Bytes(Seq::<u8>::empty()));
    match p {
        PeekedSpec::Bytes(b) => {
            law_token_and_blank_line_decide(b);
            if b.len() == 0 {
                assert(b =~= Seq::<u8>::empty());
            }
        },
        _ => {},
    }
    let t = peeks.drop_first();
    assert forall|i: int| 0 <= i < t.len() implies !holds_token(#[trigger] t[i]) && t[i]
        != PeekedSpec::Bytes(Seq::<u8>::empty()) by {
        assert(t[i] == peeks[i + 1]);
    }
    if peek_step(st, p) is Again {
        lemma_bytes_without_token(peek_after(st, p), t);
    }
}

/// A client that sends bytes, and neither the token nor the end of the stream within eight peeks,
/// is served as a plain request: it is not hung, and not dropped.
pub proof fn law_bytes_without_token_are_a_plain_request(peeks: Seq<PeekedSpec>)
    requires
        peeks.len() >= 8,
        peeks[0] is Bytes,
        forall|i: int|
            0 <= i < peeks.len() ==> !holds_token(#[trigger] peeks[i]) && peeks[i]
                != PeekedSpec::Bytes(Seq::<u8>::empty()),
    ensures
        peek_from(peek_start(), peeks) == Some(PeekKind::HttpProxy),
{
    lemma_bytes_without_token(peek_start(), peeks);
}

/// A connection on which the first peek finds nothing, an error or the end is taken for empty at
/// once.
pub proof fn law_silent_connection_is_empty(peeks: Seq<PeekedSpec>)
    requires
        peeks.len() > 0,
        peeks[0] is Waiting || peeks[0] is Failed || peeks[0] == PeekedSpec::Bytes(
            Seq::<u8>::empty(),
        ),
    ensures
        peek_from(peek_start(), peeks) == Some(PeekKind::Empty),
{
}

/// Nothing of what a peek gave is hidden from what is said of it.
pub proof fn law_peek_is_seen_whole(b: &[u8])
    ensures
        Peeked::Bytes(b)@ == PeekedSpec::Bytes(b@),
        Peeked::Waiting@ == PeekedSpec::Waiting,
        Peeked::Failed@ == PeekedSpec::Failed,
{
}

} // verus!
