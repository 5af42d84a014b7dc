//! The head of a plain HTTP request: its request line and its header lines, read from bytes.

use vstd::prelude::*;
use vstd::utf8::{decode_utf8, valid_utf8};

use crate::source::{
    client_ip_from_xff, last_hop, law_blank_behind_a_list_is_dropped, opt_text,
};
use crate::text::{
    chars_of, find_char, first_at, is_blank_text, is_white_space, is_word,
    law_leading_word_is_whole, law_trim_start_cuts_the_blank, leading_word, lemma_first_at_is,
    lower, same_text_any_case, skip_space, text_of, trim, trim_bounds, trim_start, word_end,
};

verus! {

/// `core::str::Utf8Error`: that some bytes are not UTF-8. Nothing of it is used.
#[verifier::external_type_specification]
#[verifier::external_body]
pub struct ExUtf8Error(core::str::Utf8Error);

/// `core::str::from_utf8` takes exactly the byte sequences that are UTF-8, and gives the text
/// that they encode.
pub assume_specification[ core::str::from_utf8 ](v: &[u8]) -> (r: Result<
    &str,
    core::str::Utf8Error,
>)
    ensures
        r is Ok <==> valid_utf8(v@),
        r matches Ok(s) ==> s@ == decode_utf8(v@),
;

/// The most bytes of a request line and its headers, together, that are read from a client.
pub const MAX_REQ_HEAD_BYTES: u64 = 65_536;

/// What the proxy needs of a request head.
pub struct RequestHead {
    pub method: String,
    /// The request target as the client sent it.
    pub raw_path: String,
    /// The client that the forwarded-for header names, if there is one.
    pub xff: Option<String>,
}

/// A request head as its texts.
#[verifier::ext_equal]
pub struct HeadSpec {
    pub method: Seq<char>,
    pub raw_path: Seq<char>,
    pub xff: Option<Seq<char>>,
}

impl View for RequestHead {
    type V = HeadSpec;

    open spec fn view(&self) -> HeadSpec {
        HeadSpec { method: self.method@, raw_path: self.raw_path@, xff: opt_text(self.xff) }
    }
}

/// The head behind an optional `RequestHead`.
pub open spec fn opt_head(h: Option<RequestHead>) -> Option<HeadSpec> {
    match h {
        Some(h) => Some(h@),
        None => None,
    }
}

/// How the bytes of a connection end.
#[derive(Clone, Copy, PartialEq, Eq, Structural, Debug)]
pub enum ReadEnd {
    /// The peer, or the cap on the head, ended the stream.
    Eof,
    /// Reading failed.
    Fault,
}

/// The length of the first line with its line feed, or of everything where there is none.
pub open spec fn line_len(input: Seq<u8>) -> int
    decreases input.len(),
{
    if input.len() == 0 {
        0
    } else if input[0] == 10 {
        1
    } else {
        1 + line_len(input.drop_first())
    }
}

/// The first line of the input.
pub open spec fn first_line(input: Seq<u8>) -> Seq<u8> {
    input.take(line_len(input))
}

/// The input behind its first line.
pub open spec fn rest(input: Seq<u8>) -> Seq<u8> {
    input.skip(line_len(input))
}

/// A line is whole when its line feed has arrived.
pub open spec fn is_whole(line: Seq<u8>) -> bool {
    line.len() > 0 && line.last() == 10
}

/// The line that ends a head.
pub open spec fn is_blank(line: Seq<u8>) -> bool {
    line == seq![13u8, 10u8] || line == seq![10u8]
}

/// What reading one line gives: the bytes, none of them at the end of the stream, or nothing
/// where the stream failed before the line was whole.
pub open spec fn read_line(input: Seq<u8>, end: ReadEnd) -> Option<Seq<u8>> {
    if end is Fault && !is_whole(first_line(input)) {
        None
    } else {
        Some(first_line(input))
    }
}

/// A line that was read and is text.
pub open spec fn is_text(line: Option<Seq<u8>>) -> bool {
    line is Some && valid_utf8(line->0)
}

/// The method and the target that a request line holds: its first two words.
pub open spec fn request_line(t: Seq<char>) -> HeadSpec {
    let from_method = trim_start(t);
    let method = leading_word(from_method);
    let target = leading_word(trim_start(from_method.skip(method.len() as int)));
    HeadSpec {
        method,
        raw_path: if target.len() == 0 {
            "/"@
        } else {
            target
        },
        xff: None,
    }
}

/// True on a header line that is called `x-forwarded-for`, in any case.
pub open spec fn names_forwarded_for(t: Seq<char>) -> bool {
    first_at(t, ':') is Some && lower(trim(t.take(first_at(t, ':')->0))) == lower(
        "x-forwarded-for"@,
    )
}

/// What a header line changes: a forwarded-for line sets the client, anew each time.
pub open spec fn with_header(h: HeadSpec, t: Seq<char>) -> HeadSpec {
    if names_forwarded_for(t) {
        HeadSpec { xff: last_hop(t.skip(first_at(t, ':')->0 + 1)), ..h }
    } else {
        h
    }
}

/// Where the reading of a head stands after a line.
#[verifier::ext_equal]
pub enum StepSpec {
    /// Another line is needed.
    More(HeadSpec),
    /// The head is complete, or there is none to serve.
    Done(Option<HeadSpec>),
}

/// What one line does. `so_far` is what the lines before it gave, nothing before the request
/// line. A line that was cut off sheds the head, be it text or not; a whole line that is no text
/// ends it, as a failed read does.
pub open spec fn head_step(so_far: Option<HeadSpec>, line: Option<Seq<u8>>) -> StepSpec {
    match so_far {
        None => if is_text(line) && is_whole(line->0) {
            StepSpec::More(request_line(decode_utf8(line->0)))
        } else {
            StepSpec::Done(None)
        },
        Some(h) => if line is Some && line->0.len() > 0 && !is_whole(line->0) {
            StepSpec::Done(None)
        } else if !is_text(line) || line->0.len() == 0 || is_blank(line->0) {
            StepSpec::Done(Some(h))
        } else {
            StepSpec::More(with_header(h, decode_utf8(line->0)))
        },
    }
}

/// A line is never longer than the input, and empty only where the input is.
pub proof fn lemma_line_len(input: Seq<u8>)
    ensures
        0 <= line_len(input) <= input.len(),
        input.len() > 0 ==> line_len(input) > 0,
        forall|i: int| 0 <= i < line_len(input) - 1 ==> input[i] != 10,
        line_len(input) < input.len() ==> input[line_len(input) - 1] == 10,
    decreases input.len(),
{
    if input.len() > 0 && input[0] != 10 {
        let t = input.drop_first();
        lemma_line_len(t);
        assert forall|i: int| 0 <= i < line_len(input) - 1 implies input[i] != 10 by {
            if i > 0 {
                assert(input[i] == t[i - 1]);
            }
        }
    }
}

/// The head that the lines of `input` give on top of `so_far`.
pub open spec fn head_from(so_far: Option<HeadSpec>, input: Seq<u8>, end: ReadEnd) -> Option<
    HeadSpec,
>
    decreases input.len(),
{
    proof {
        lemma_line_len(input);
    }
    match head_step(so_far, read_line(input, end)) {
        StepSpec::Done(r) => r,
        StepSpec::More(h) => if input.len() == 0 {
            None
        } else {
            head_from(Some(h), rest(input), end)
        },
    }
}

/// The head of a request whose bytes are `input`, if there is one to serve.
pub open spec fn request_head(input: Seq<u8>, end: ReadEnd) -> Option<HeadSpec> {
    head_from(None, input, end)
}

/// What to do after a line.
pub enum HeadStep {
    /// Read another line.
    More,
    /// Serve this head, or shed the connection where there is none.
    Done(Option<RequestHead>),
}

/// A request head that is read line by line.
pub struct HeadParser {
    so_far: Option<RequestHead>,
}

impl View for HeadParser {
    type V = Option<HeadSpec>;

    closed spec fn view(&self) -> Option<HeadSpec> {
        opt_head(self.so_far)
    }
}

fn parse_request_line(line: &str) -> (r: RequestHead)
    ensures
        r@ == request_line(line@),
{
    let v = chars_of(line);
    assert(v@.skip(0) =~= v@);
    let a: usize = skip_space(&v, 0);
    let b: usize = word_end(&v, a);
    let c: usize = skip_space(&v, b);
    let d: usize = word_end(&v, c);
    let ghost m = leading_word(trim_start(line@));
    assert(v@.skip(a as int).skip(m.len() as int) =~= v@.skip(b as int));
    let method = text_of(&v, a, b);
    let raw_path = if c == d {
        String::from_str("/")
    } else {
        text_of(&v, c, d)
    };
    let r = RequestHead { method, raw_path, xff: None };
    assert(r@ =~= request_line(line@));
    r
}

fn parse_header(h: RequestHead, line: &str) -> (r: RequestHead)
    ensures
        r@ == with_header(h@, line@),
{
    let v = chars_of(line);
    assert(v@.subrange(0, v@.len() as int) =~= v@);
    match find_char(&v, 0, v.len(), ':') {
        None => h,
        Some(k) => {
            let (a, b) = trim_bounds(&v, 0, k);
            assert(v@.subrange(0, k as int) =~= v@.take(k as int));
            let name = text_of(&v, a, b);
            if same_text_any_case(name.as_str(), "x-forwarded-for") {
                let value = text_of(&v, k + 1, v.len());
                assert(value@ =~= line@.skip(k + 1));
                let xff = client_ip_from_xff(value.as_str());
                RequestHead { method: h.method, raw_path: h.raw_path, xff }
            } else {
                h
            }
        },
    }
}

impl HeadParser {
    /// A head of which nothing was read.
    pub fn new() -> (r: HeadParser)
        ensures
            r@ is None,
    {
        HeadParser { so_far: None }
    }

    /// Takes the next line: its bytes up to and with the line feed, what was left at the end of
    /// the stream, or nothing where reading failed. Once a head is done the parser is as new.
    pub fn feed(&mut self, line: Option<&[u8]>) -> (r: HeadStep)
        ensures
            match head_step(
                old(self)@,
                match line {
                    Some(b) => Some(b@),
                    None => None,
                },
            ) {
                StepSpec::More(h) => r is More && final(self)@ == Some(h),
                StepSpec::Done(d) => r matches HeadStep::Done(x) && opt_head(x) == d
                    && final(self)@ is None,
            },
    {
        let so_far = self.so_far.take();
        match line {
            None => HeadStep::Done(so_far),
            Some(bytes) => {
                let whole = bytes.len() > 0 && bytes[bytes.len() - 1] == 10;
                if bytes.len() > 0 && !whole {
                    return HeadStep::Done(None);
                }
                match core::str::from_utf8(bytes) {
                    Err(_) => HeadStep::Done(so_far),
                    Ok(t) => match so_far {
                        None => if whole {
                            self.so_far = Some(parse_request_line(t));
                            HeadStep::More
                        } else {
                            HeadStep::Done(None)
                        },
                        Some(h) => {
                            let blank = (bytes.len() == 2 && bytes[0] == 13 && bytes[1] == 10) || (
                            bytes.len() == 1 && bytes[0] == 10);
                            assert(blank == is_blank(bytes@)) by {
                                if blank {
                                    assert(bytes@ =~= seq![13u8, 10u8] || bytes@ =~= seq![10u8]);
                                }
                            }
                            if bytes.len() == 0 || blank {
                                HeadStep::Done(Some(h))
                            } else {
                                self.so_far = Some(parse_header(h, t));
                                HeadStep::More
                            }
                        },
                    },
                }
            },
        }
    }
}

/// Reads the request line and the header lines of a request from the bytes that arrived, which
/// end as `end` says.
pub fn read_request_head(input: &[u8], end: ReadEnd) -> (r: Option<RequestHead>)
    ensures
        opt_head(r) == request_head(input@, end),
{
    let mut parser = HeadParser::new();
    let mut pos: usize = 0;
    assert(input@.skip(0) =~= input@);
    loop
        invariant
            pos <= input@.len(),
            head_from(parser@, input@.skip(pos as int), end) == request_head(input@, end),
        decreases input@.len() - pos,
    {
        let ghost left = input@.skip(pos as int);
        let mut to: usize = pos;
        let mut whole: bool = false;
        while to < input.len() && !whole
            invariant
                pos <= to <= input@.len(),
                left == input@.skip(pos as int),
                whole ==> to > pos && input@[to - 1] == 10 && line_len(left) == to - pos,
                !whole ==> forall|j: int| pos <= j < to ==> input@[j] != 10,
                !whole ==> line_len(left) == (to - pos) + line_len(input@.skip(to as int)),
            decreases input@.len() - to,
        {
            assert(input@.skip(to as int).drop_first() =~= input@.skip(to + 1));
            if input[to] == 10 {
                whole = true;
            }
            to = to + 1;
        }
        proof {
            lemma_line_len(left);
            assert(input@.subrange(pos as int, to as int) =~= first_line(left));
            assert(input@.skip(to as int) =~= rest(left));
        }
        let line = vstd::slice::slice_subrange(input, pos, to);
        let step = if !whole && end == ReadEnd::Fault {
            assert(!is_whole(first_line(left))) by {
                if to > pos {
                    assert(first_line(left).last() == input@[to - 1]);
                }
            }
            parser.feed(None)
        } else {
            parser.feed(Some(line))
        };
        match step {
            HeadStep::Done(r) => {
                return r;
            },
            HeadStep::More => {
                pos = to;
            },
        }
    }
}

/// True where some line of the input is blank.
pub open spec fn has_blank(input: Seq<u8>) -> bool
    decreases input.len(),
{
    proof {
        lemma_line_len(input);
    }
    input.len() > 0 && (is_blank(first_line(input)) || has_blank(rest(input)))
}

/// True where every whole line of the input up to a blank one is text.
pub open spec fn is_readable(input: Seq<u8>) -> bool
    decreases input.len(),
{
    proof {
        lemma_line_len(input);
    }
    input.len() == 0 || !is_whole(first_line(input)) || (valid_utf8(first_line(input)) && (
    is_blank(first_line(input)) || is_readable(rest(input))))
}

/// True where the input does not stop inside a line.
pub open spec fn ends_at_line(input: Seq<u8>) -> bool {
    input.len() == 0 || input.last() == 10
}

proof fn lemma_headers_served(h: HeadSpec, input: Seq<u8>)
    requires
        is_readable(input),
    ensures
        head_from(Some(h), input, ReadEnd::Eof) is Some <==> has_blank(input) || ends_at_line(
            input,
        ),
    decreases input.len(),
{
    lemma_line_len(input);
    let line = first_line(input);
    if input.len() == 0 {
        assert(line =~= Seq::<u8>::empty());
        assert(!is_text(Some(line)) || line.len() == 0);
    } else if !is_blank(line) {
        assert(line.last() == input[line_len(input) - 1]);
        if is_whole(line) {
            lemma_headers_served(with_header(h, decode_utf8(line)), rest(input));
            if rest(input).len() == 0 {
                assert(input.last() == line.last());
            } else {
                assert(rest(input).last() == input.last());
            }
        } else {
            assert(line_len(input) == input.len());
            assert(rest(input) =~= Seq::<u8>::empty());
            assert(!has_blank(rest(input)));
        }
    }
}

/// Where the whole lines are text, a head is served exactly when its request line is whole and the
/// header lines reach a blank line or stop at the end of a line. A head that the cap cut in the
/// middle of a line is shed, also where it cut a character in two.
pub proof fn law_head_cut_inside_a_line_is_shed(input: Seq<u8>)
    requires
        is_whole(first_line(input)) ==> valid_utf8(first_line(input)),
        is_readable(rest(input)),
    ensures
        request_head(input, ReadEnd::Eof) is Some <==> is_whole(first_line(input)) && (has_blank(
            rest(input),
        ) || ends_at_line(rest(input))),
{
    lemma_line_len(input);
    if is_whole(first_line(input)) {
        lemma_headers_served(request_line(decode_utf8(first_line(input))), rest(input));
    }
}

/// Without a line feed there is no head, whatever the bytes are: a request line that the cap cut
/// is never read as a target.
pub proof fn law_no_line_feed_no_head(input: Seq<u8>, end: ReadEnd)
    requires
        !input.contains(10u8),
    ensures
        request_head(input, end) is None,
{
    lemma_line_len(input);
    let line = first_line(input);
    if line.len() > 0 {
        assert(line.last() == input[line_len(input) - 1]);
        assert(input.contains(input[line_len(input) - 1]));
    }
}

proof fn lemma_line_of_longer(input: Seq<u8>, more: Seq<u8>)
    requires
        is_whole(first_line(input)),
    ensures
        first_line(input + more) == first_line(input),
        rest(input + more) == rest(input) + more,
    decreases input.len(),
{
    lemma_line_len(input);
    let both = input + more;
    assert(both[0] == input[0]);
    if input[0] != 10 {
        let t = input.drop_first();
        lemma_line_len(t);
        assert(first_line(input).last() == input[line_len(input) - 1]);
        assert(t.len() > 0);
        assert(first_line(t).last() == t[line_len(t) - 1]);
        lemma_line_of_longer(t, more);
        assert(both.drop_first() =~= t + more);
        lemma_line_len(t + more);
        assert(line_len(t + more) == line_len(t)) by {
            assert(first_line(t + more).len() == line_len(t + more));
            assert(first_line(t).len() == line_len(t));
        }
    }
    assert(line_len(both) == line_len(input));
    assert(first_line(both) =~= first_line(input));
    assert(rest(both) =~= rest(input) + more);
}

proof fn lemma_headers_stop_at_blank(
    h: HeadSpec,
    input: Seq<u8>,
    more: Seq<u8>,
    end: ReadEnd,
    later: ReadEnd,
)
    requires
        has_blank(input),
    ensures
        head_from(Some(h), input + more, later) == head_from(Some(h), input, end),
    decreases input.len(),
{
    lemma_line_len(input);
    let line = first_line(input);
    assert(line.last() == input[line_len(input) - 1]);
    if !is_blank(line) {
        reveal_with_fuel(has_blank, 2);
        assert(rest(input).len() > 0);
    }
    assert(is_whole(line));
    lemma_line_of_longer(input, more);
    if !is_blank(line) && valid_utf8(line) {
        lemma_headers_stop_at_blank(
            with_header(h, decode_utf8(line)),
            rest(input),
            more,
            end,
            later,
        );
    }
}

/// A head ends at its blank line: what follows it, and how the stream ends, changes nothing.
pub proof fn law_head_ends_at_blank_line(
    input: Seq<u8>,
    more: Seq<u8>,
    end: ReadEnd,
    later: ReadEnd,
)
    requires
        has_blank(rest(input)),
    ensures
        request_head(input + more, later) == request_head(input, end),
{
    lemma_line_len(input);
    assert(first_line(input).last() == input[line_len(input) - 1]);
    lemma_line_of_longer(input, more);
    if valid_utf8(first_line(input)) {
        lemma_headers_stop_at_blank(
            request_line(decode_utf8(first_line(input))),
            rest(input),
            more,
            end,
            later,
        );
    }
}

/// A request line holds its method and its target, both whole: the first two words, whatever white
/// space stands before, between and behind them, and whatever follows. Without a second word the
/// target is the root.
pub proof fn law_request_line_holds_method_and_target(
    before: Seq<char>,
    method: Seq<char>,
    between: Seq<char>,
    target: Seq<char>,
    behind: Seq<char>,
)
    requires
        is_blank_text(before),
        method.len() > 0,
        is_word(method),
        between.len() > 0,
        is_blank_text(between),
        is_word(target),
        behind.len() > 0 ==> is_white_space(behind[0]) && target.len() > 0,
    ensures
        request_line(before + method + between + target + behind).method == method,
        target.len() > 0 ==> request_line(
            before + method + between + target + behind,
        ).raw_path == target,
        target.len() == 0 ==> request_line(
            before + method + between + target + behind,
        ).raw_path == seq!['/'],
        request_line(before + method + between + target + behind).xff is None,
{
    reveal_strlit("/");
    assert("/"@ =~= seq!['/']);
    let line = before + method + between + target + behind;
    let from_target = target + behind;
    let behind_method = between + from_target;
    let from_method = method + behind_method;
    assert(line =~= before + from_method);
    assert(from_method[0] == method[0]);
    law_trim_start_cuts_the_blank(before, from_method);
    assert(behind_method[0] == between[0]);
    law_leading_word_is_whole(method, behind_method);
    assert(from_method.skip(method.len() as int) =~= behind_method);
    if from_target.len() > 0 {
        assert(from_target[0] == target[0]);
    }
    law_trim_start_cuts_the_blank(between, from_target);
    law_leading_word_is_whole(target, behind);
}

/// A header line is told by its name, in any case and with white space around it; the client is the
/// last hop of its value. Any other header changes nothing.
pub proof fn law_header_line_is_told_by_its_name(
    h: HeadSpec,
    name: Seq<char>,
    value: Seq<char>,
    blank: Seq<char>,
)
    requires
        !name.contains(':'),
        is_blank_text(blank),
    ensures
        lower(trim(name)) == "x-forwarded-for"@ ==> with_header(
            h,
            name + seq![':'] + value + blank,
        ) == (HeadSpec { xff: last_hop(value), ..h }),
        lower(trim(name)) != "x-forwarded-for"@ ==> with_header(
            h,
            name + seq![':'] + value + blank,
        ) == h,
{
    let t = name + seq![':'] + value + blank;
    let k = name.len() as int;
    assert forall|i: int| 0 <= i < k implies t[i] != ':' by {
        assert(t[i] == name[i]);
    }
    lemma_first_at_is(t, ':', k);
    assert(t.take(k) =~= name);
    assert(t.skip(k + 1) =~= value + blank);
    law_blank_behind_a_list_is_dropped(value, blank);
    reveal_strlit("x-forwarded-for");
    assert(lower("x-forwarded-for"@) =~= "x-forwarded-for"@);
}

/// A header line that was sent: its bytes, and the name and the value in them.
pub struct SentHeader {
    pub line: Seq<u8>,
    pub name: Seq<char>,
    pub value: Seq<char>,
}

/// True on a line as a client sends it: text that ends in its one line feed.
pub open spec fn is_sent_line(line: Seq<u8>, text: Seq<char>) -> bool {
    &&& line.len() > 0
    &&& line[line.len() - 1] == 10
    &&& forall|i: int| 0 <= i < line.len() - 1 ==> #[trigger] line[i] != 10
    &&& valid_utf8(line)
    &&& decode_utf8(line) == text
}

/// True where the bytes of a header are its name, a colon and its value, on a line of their own.
pub open spec fn is_sent_header(h: SentHeader) -> bool {
    &&& is_sent_line(h.line, h.name + seq![':'] + h.value + seq!['\r', '\n'])
    &&& !h.name.contains(':')
    &&& h.line.len() > 2
}

/// The bytes of some headers, one behind the other.
pub open spec fn sent_bytes(headers: Seq<SentHeader>) -> Seq<u8>
    decreases headers.len(),
{
    if headers.len() == 0 {
        Seq::empty()
    } else {
        headers[0].line + sent_bytes(headers.skip(1))
    }
}

/// The client that the last header of the name names, on top of what was known before.
pub open spec fn sent_client(before: Option<Seq<char>>, headers: Seq<SentHeader>) -> Option<
    Seq<char>,
>
    decreases headers.len(),
{
    if headers.len() == 0 {
        before
    } else if lower(trim(headers.last().name)) == "x-forwarded-for"@ {
        last_hop(headers.last().value)
    } else {
        sent_client(before, headers.drop_last())
    }
}

proof fn lemma_sent_line(line: Seq<u8>, text: Seq<char>, more: Seq<u8>)
    requires
        is_sent_line(line, text),
    ensures
        first_line(line + more) == line,
        rest(line + more) == more,
{
    lemma_line_len(line);
    let n = line_len(line);
    if n < line.len() {
        assert(line[n - 1] == 10);
    }
    assert(first_line(line) =~= line);
    assert(rest(line) =~= Seq::<u8>::empty());
    assert(is_whole(first_line(line)));
    lemma_line_of_longer(line, more);
    assert(rest(line) + more =~= more);
}

proof fn lemma_sent_client(before: Option<Seq<char>>, headers: Seq<SentHeader>)
    requires
        headers.len() > 0,
    ensures
        sent_client(before, headers) == sent_client(
            if lower(trim(headers[0].name)) == "x-forwarded-for"@ {
                last_hop(headers[0].value)
            } else {
                before
            },
            headers.skip(1),
        ),
    decreases headers.len(),
{
    reveal_with_fuel(sent_client, 2);
    let t = headers.skip(1);
    if headers.len() > 1 {
        assert(t.last() == headers.last());
        assert(t.drop_last() =~= headers.drop_last().skip(1));
        assert(headers.drop_last()[0] == headers[0]);
        lemma_sent_client(before, headers.drop_last());
    } else {
        assert(headers.last() == headers[0]);
        assert(headers.drop_last() =~= Seq::<SentHeader>::empty());
    }
}

proof fn lemma_sent_headers(h: HeadSpec, headers: Seq<SentHeader>, left: Seq<u8>, end: ReadEnd)
    requires
        forall|i: int| 0 <= i < headers.len() ==> is_sent_header(#[trigger] headers[i]),
    ensures
        head_from(Some(h), sent_bytes(headers) + left, end) == head_from(
            Some((HeadSpec { xff: sent_client(h.xff, headers), ..h })),
            left,
            end,
        ),
    decreases headers.len(),
{
    let input = sent_bytes(headers) + left;
    if headers.len() == 0 {
        assert(input =~= left);
        assert(HeadSpec { xff: h.xff, ..h } == h);
    } else {
        let first = headers[0];
        let tail = headers.skip(1);
        let behind = sent_bytes(tail) + left;
        let end_of_line = seq!['\r', '\n'];
        assert(is_sent_header(first));
        assert(input =~= first.line + behind);
        lemma_sent_line(
            first.line,
            first.name + seq![':'] + first.value + end_of_line,
            behind,
        );
        assert(is_whole(first.line));
        assert(!is_blank(first.line));
        law_header_line_is_told_by_its_name(h, first.name, first.value, end_of_line);
        let next = with_header(h, decode_utf8(first.line));
        assert forall|i: int| 0 <= i < tail.len() implies is_sent_header(#[trigger] tail[i]) by {
            assert(tail[i] == headers[i + 1]);
        }
        lemma_sent_headers(next, tail, left, end);
        lemma_sent_client(h.xff, headers);
    }
}

proof fn lemma_sent_request_line(
    line: Seq<u8>,
    method: Seq<char>,
    target: Seq<char>,
    version: Seq<char>,
    headers: Seq<SentHeader>,
    left: Seq<u8>,
    end: ReadEnd,
)
    requires
        is_sent_request_line(line, method, target, version),
        forall|i: int| 0 <= i < headers.len() ==> is_sent_header(#[trigger] headers[i]),
    ensures
        request_head(line + sent_bytes(headers) + left, end) == head_from(
            Some(
                (HeadSpec {
                    method,
                    raw_path: target,
                    xff: sent_client(Option::<Seq<char>>::None, headers),
                }),
            ),
            left,
            end,
        ),
{
    let behind = sent_bytes(headers) + left;
    let input = line + sent_bytes(headers) + left;
    assert(input =~= line + behind);
    let text = method + seq![' '] + target + version;
    lemma_sent_line(line, text, behind);
    let before = Seq::<char>::empty();
    assert(before + method + seq![' '] + target + version =~= text);
    law_request_line_holds_method_and_target(before, method, seq![' '], target, version);
    assert(is_whole(line));
    lemma_sent_headers(request_line(text), headers, left, end);
}

/// True on a request line as a client sends it: a method, a space, a target, and behind white space
/// whatever else there is.
pub open spec fn is_sent_request_line(
    line: Seq<u8>,
    method: Seq<char>,
    target: Seq<char>,
    version: Seq<char>,
) -> bool {
    &&& method.len() > 0
    &&& is_word(method)
    &&& target.len() > 0
    &&& is_word(target)
    &&& version.len() > 0
    &&& is_white_space(version[0])
    &&& is_sent_line(line, method + seq![' '] + target + version)
}

/// A head that a client sends whole is read as it was sent: its method, its target, and as the
/// client the last hop of the last header that is called `x-forwarded-for`; whatever other headers
/// there are, whatever follows the blank line, and however the stream ends.
pub proof fn law_head_is_read_as_sent(
    line: Seq<u8>,
    method: Seq<char>,
    target: Seq<char>,
    version: Seq<char>,
    headers: Seq<SentHeader>,
    more: Seq<u8>,
    end: ReadEnd,
)
    requires
        is_sent_request_line(line, method, target, version),
        forall|i: int| 0 <= i < headers.len() ==> is_sent_header(#[trigger] headers[i]),
    ensures
        request_head(line + sent_bytes(headers) + (seq![13u8, 10u8] + more), end) == Some(
            (HeadSpec {
                method,
                raw_path: target,
                xff: sent_client(Option::<Seq<char>>::None, headers),
            }),
        ),
        request_head(line + sent_bytes(headers) + (seq![10u8] + more), end) == Some(
            (HeadSpec {
                method,
                raw_path: target,
                xff: sent_client(Option::<Seq<char>>::None, headers),
            }),
        ),
{
    let blank = seq![13u8, 10u8];
    let bare = seq![10u8];
    lemma_sent_request_line(line, method, target, version, headers, blank + more, end);
    lemma_sent_request_line(line, method, target, version, headers, bare + more, end);
    lemma_line_len(blank);
    lemma_line_len(bare);
    reveal_with_fuel(line_len, 3);
    assert(first_line(blank) =~= blank);
    assert(first_line(bare) =~= bare);
    lemma_line_of_longer(blank, more);
    lemma_line_of_longer(bare, more);
    assert(is_blank(first_line(blank + more)));
    assert(is_blank(first_line(bare + more)));
}

/// A head that stops before its blank line: where it stops at the end of a line, or reading fails,
/// it is served as far as it came; where the stream ends inside a line, be it text or not, it is
/// shed.
pub proof fn law_head_that_stops_early(
    line: Seq<u8>,
    method: Seq<char>,
    target: Seq<char>,
    version: Seq<char>,
    headers: Seq<SentHeader>,
    cut: Seq<u8>,
)
    requires
        is_sent_request_line(line, method, target, version),
        forall|i: int| 0 <= i < headers.len() ==> is_sent_header(#[trigger] headers[i]),
        !cut.contains(10u8),
    ensures
        ({
            let served = Some(
                (HeadSpec {
                    method,
                    raw_path: target,
                    xff: sent_client(Option::<Seq<char>>::None, headers),
                }),
            );
            &&& request_head(line + sent_bytes(headers) + cut, ReadEnd::Fault) == served
            &&& cut.len() == 0 ==> request_head(line + sent_bytes(headers) + cut, ReadEnd::Eof)
                == served
            &&& cut.len() > 0 ==> request_head(
                line + sent_bytes(headers) + cut,
                ReadEnd::Eof,
            ) is None
        }),
{
    lemma_sent_request_line(line, method, target, version, headers, cut, ReadEnd::Fault);
    lemma_sent_request_line(line, method, target, version, headers, cut, ReadEnd::Eof);
    lemma_line_len(cut);
    let l = first_line(cut);
    if cut.len() > 0 {
        assert(l.last() == cut[line_len(cut) - 1]);
        assert(cut.contains(cut[line_len(cut) - 1]));
    } else {
        assert(l =~= Seq::<u8>::empty());
    }
    assert(!is_whole(l));
}

/// A whole line that is no text ends the head: what came before it is served, and nothing behind
/// it is read.
pub proof fn law_line_that_is_no_text_ends_the_head(
    line: Seq<u8>,
    method: Seq<char>,
    target: Seq<char>,
    version: Seq<char>,
    headers: Seq<SentHeader>,
    bad: Seq<u8>,
    more: Seq<u8>,
    end: ReadEnd,
)
    requires
        is_sent_request_line(line, method, target, version),
        forall|i: int| 0 <= i < headers.len() ==> is_sent_header(#[trigger] headers[i]),
        bad.len() > 0,
        bad.last() == 10,
        forall|i: int| 0 <= i < bad.len() - 1 ==> #[trigger] bad[i] != 10,
        !valid_utf8(bad),
    ensures
        request_head(line + sent_bytes(headers) + (bad + more), end) == Some(
            (HeadSpec {
                method,
                raw_path: target,
                xff: sent_client(Option::<Seq<char>>::None, headers),
            }),
        ),
{
    lemma_sent_request_line(line, method, target, version, headers, bad + more, end);
    lemma_line_len(bad);
    if line_len(bad) < bad.len() {
        assert(bad[line_len(bad) - 1] == 10);
    }
    assert(first_line(bad) =~= bad);
    lemma_line_of_longer(bad, more);
    assert(is_whole(first_line(bad + more)));
}

/// Nothing of a request head is hidden from what is said of it.
pub proof fn law_head_is_seen_whole(h: RequestHead)
    ensures
        h@.method == h.method@,
        h@.raw_path == h.raw_path@,
        h.xff is None ==> h@.xff is None,
        h.xff is Some ==> h@.xff == Some(h.xff->0@),
        opt_head(Some(h)) == Some(h@),
        opt_head(None) is None,
{
}

} // verus!
