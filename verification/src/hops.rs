//! The mesh side: which requests are served, and what is fetched from the origin for them.

use vstd::prelude::*;
use vstd::utf8::encode_utf8;

use crate::config::{normal_host, normalize_host};
use crate::limits::Slots;
use crate::proxy::{
    is_method, law_methods_are_matched_whole, own, own_reply, Translated, TranslatedSpec,
};
use crate::target::{
    fetched, fetched_url, law_only_the_origin_is_fetched, path, scheme_and_authority, scheme_at,
};
use crate::text::{law_trim_end_char_cuts_the_run, lower, same_text, same_text_any_case};

verus! {

/// What is to be done for a request from the mesh.
pub enum HopsStep {
    /// Answer with this, at once.
    Reply(Translated),
    /// A place is taken: serve the request, and give the place back.
    Serve,
}

/// What is to be done for a request from the mesh, as text and bytes.
pub enum HopsSpec {
    Reply(TranslatedSpec),
    Serve,
}

impl View for HopsStep {
    type V = HopsSpec;

    open spec fn view(&self) -> HopsSpec {
        match *self {
            HopsStep::Reply(t) => HopsSpec::Reply(t@),
            HopsStep::Serve => HopsSpec::Serve,
        }
    }
}

/// The decision on a request for `host`, with `free` telling whether a place is free: a host that
/// is not the domain is refused, and where no place is free the request is shed.
pub open spec fn hops_step(host: Seq<char>, domain: Seq<char>, free: bool) -> HopsSpec {
    if normal_host(host) != domain {
        HopsSpec::Reply(own(403, "hop-endpoint: this endpoint only serves "@ + domain))
    } else if !free {
        HopsSpec::Reply(own(503, "hop-endpoint: busy, try again"@))
    } else {
        HopsSpec::Serve
    }
}

/// Decides on one request from the mesh, by the host that it is signed for. A place is taken only
/// for a request that is served.
pub fn handle_http_request(host: &str, domain: &str, slots: &mut Slots) -> (r: HopsStep)
    ensures
        r@ == hops_step(host@, domain@, old(slots).taken() < old(slots).places()),
        final(slots).taken() == old(slots).taken() + (if r@ is Serve {
            1nat
        } else {
            0
        }),
        final(slots).places() == old(slots).places(),
{
    let req_host = normalize_host(host);
    if !same_text(req_host.as_str(), domain) {
        let text = String::from_str("hop-endpoint: this endpoint only serves ").concat(domain);
        return HopsStep::Reply(own_reply(403, text.as_str()));
    }
    if !slots.try_acquire() {
        return HopsStep::Reply(own_reply(503, "hop-endpoint: busy, try again"));
    }
    HopsStep::Serve
}

/// A request from the mesh: who asks, under which number, and for what.
pub struct HopsRequest {
    pub from: [u8; 32],
    pub id: [u8; 32],
    /// The host that the request is signed for.
    pub host: String,
    pub method: String,
    pub url: String,
}

/// A response on its way to the one who asked.
pub struct Answer {
    pub to: [u8; 32],
    pub for_id: [u8; 32],
    pub status: u16,
    pub content_type: String,
    pub body: Vec<u8>,
}

/// A response with its addressee, as text and bytes.
#[verifier::ext_equal]
pub struct AnswerSpec {
    pub to: [u8; 32],
    pub for_id: [u8; 32],
    pub reply: TranslatedSpec,
}

impl View for Answer {
    type V = AnswerSpec;

    open spec fn view(&self) -> AnswerSpec {
        AnswerSpec {
            to: self.to,
            for_id: self.for_id,
            reply: TranslatedSpec {
                status: self.status,
                content_type: self.content_type@,
                body: self.body@,
            },
        }
    }
}

/// The response to a request, addressed to the one who asked, under the number of the request.
pub open spec fn answer_to(request: HopsRequest, reply: TranslatedSpec) -> AnswerSpec {
    AnswerSpec { to: request.from, for_id: request.id, reply }
}

/// Addresses a response to the one who asked.
pub fn answer(request: &HopsRequest, reply: Translated) -> (r: Answer)
    ensures
        r@ == answer_to(*request, reply@),
{
    Answer {
        to: request.from,
        for_id: request.id,
        status: reply.status,
        content_type: reply.content_type,
        body: reply.body,
    }
}

/// What is decided on a request of a batch.
pub enum HopsDecision {
    /// Send this, at once.
    Answer(Answer),
    /// A place is taken: serve the request, answer it, and give the place back.
    Serve(HopsRequest),
}

/// Whether `d` is the decision on `request`, addressed to the one who asked, with `free` telling
/// whether a place is free.
pub open spec fn is_decision(
    d: HopsDecision,
    request: HopsRequest,
    domain: Seq<char>,
    free: bool,
) -> bool {
    match hops_step(request.host@, domain, free) {
        HopsSpec::Reply(t) => d matches HopsDecision::Answer(a) && a@ == answer_to(request, t),
        HopsSpec::Serve => d == HopsDecision::Serve(request),
    }
}

/// The hosts that the requests of a batch are signed for.
pub open spec fn hosts(requests: Seq<HopsRequest>) -> Seq<Seq<char>> {
    requests.map_values(|r: HopsRequest| r.host@)
}

/// Decides on a batch of requests, one by one and in order: each gets one decision, with the
/// places that the ones before it left.
pub fn handle_http_requests(requests: Vec<HopsRequest>, domain: &str, slots: &mut Slots) -> (r: Vec<
    HopsDecision,
>)
    ensures
        r@.len() == requests@.len(),
        forall|i: int|
            0 <= i < r@.len() ==> is_decision(
                #[trigger] r@[i],
                requests@[i],
                domain@,
                taken_after(
                    old(slots).taken(),
                    old(slots).places(),
                    hosts(requests@).take(i),
                    domain@,
                ) < old(slots).places(),
            ),
        final(slots).taken() == taken_after(
            old(slots).taken(),
            old(slots).places(),
            hosts(requests@),
            domain@,
        ),
        final(slots).places() == old(slots).places(),
{
    let ghost all = requests@;
    let ghost taken = slots.taken();
    let ghost places = slots.places();
    let mut out: Vec<HopsDecision> = Vec::new();
    assert(hosts(all).take(0) =~= Seq::<Seq<char>>::empty());
    for request in it: requests
        invariant
            it.seq() == all,
            out@.len() == it.index(),
            slots.places() == places,
            slots.taken() == taken_after(
                taken,
                places,
                hosts(all).take(it.index() as int),
                domain@,
            ),
            forall|i: int|
                0 <= i < out@.len() ==> is_decision(
                    #[trigger] out@[i],
                    all[i],
                    domain@,
                    taken_after(taken, places, hosts(all).take(i), domain@) < places,
                ),
    {
        let ghost k = it.index() as int;
        assert(request == all[k]);
        assert(hosts(all).take(k + 1).drop_last() =~= hosts(all).take(k));
        assert(hosts(all).take(k + 1).last() == request.host@);
        let decision = match handle_http_request(request.host.as_str(), domain, slots) {
            HopsStep::Reply(reply) => HopsDecision::Answer(answer(&request, reply)),
            HopsStep::Serve => HopsDecision::Serve(request),
        };
        out.push(decision);
    }
    assert(hosts(all).take(all.len() as int) =~= hosts(all));
    out
}

/// Whom a decision is for, and the request that it answers or serves.
pub open spec fn addressee(d: HopsDecision) -> ([u8; 32], [u8; 32]) {
    match d {
        HopsDecision::Answer(a) => (a.to, a.for_id),
        HopsDecision::Serve(r) => (r.from, r.id),
    }
}

/// What is decided on a request goes to the one who asked, under the number of the request; and so
/// does the answer to a request that is served, whatever it says.
pub proof fn law_answers_go_to_the_one_who_asked(
    d: HopsDecision,
    request: HopsRequest,
    domain: Seq<char>,
    free: bool,
    reply: TranslatedSpec,
)
    requires
        is_decision(d, request, domain, free),
    ensures
        addressee(d) == (request.from, request.id),
        d matches HopsDecision::Serve(r) ==> answer_to(r, reply) == answer_to(request, reply),
{
}

/// A request for the domain that finds a place is handed on whole, to be served.
pub proof fn law_a_served_request_is_handed_on(
    d: HopsDecision,
    request: HopsRequest,
    host: Seq<char>,
    dots: nat,
    domain: Seq<char>,
    free: bool,
)
    requires
        host.len() > 0 ==> host.last() != '.',
        request.host@ == host + Seq::new(dots, |i: int| '.'),
        is_decision(d, request, domain, free),
    ensures
        d is Serve <==> lower(host) == domain && free,
        d is Serve ==> d == HopsDecision::Serve(request),
{
    law_host_and_place_decide(host, dots, domain, free);
}

/// What is to be done for a request that is served.
pub enum FetchStep {
    /// Answer with this.
    Reply(Translated),
    /// Get this URL from the origin, with word of the scheme that the client used, and answer
    /// with what comes back.
    Get { url: String, scheme: &'static str },
}

/// What is to be done for a request that is served, as text and bytes.
pub enum FetchSpec {
    Reply(TranslatedSpec),
    Get { url: Seq<char>, scheme: Seq<char> },
}

impl View for FetchStep {
    type V = FetchSpec;

    open spec fn view(&self) -> FetchSpec {
        match *self {
            FetchStep::Reply(t) => FetchSpec::Reply(t@),
            FetchStep::Get { url, scheme } => FetchSpec::Get { url: url@, scheme: scheme@ },
        }
    }
}

/// The decision on a request that is served: only GET is, and what is fetched is the origin with
/// the path of the request.
pub open spec fn fetch_step(origin: Seq<char>, method: Seq<char>, target: Seq<char>) -> FetchSpec {
    if is_method(method, "GET"@) {
        FetchSpec::Get { url: fetched(origin, target), scheme: "hops"@ }
    } else {
        FetchSpec::Reply(own(405, "hop-endpoint: only GET in v1"@))
    }
}

/// Decides what one request that is served asks of the origin.
pub fn fetch(origin: &str, method: &str, target: &str) -> (r: FetchStep)
    ensures
        r@ == fetch_step(origin@, method@, target@),
{
    if !same_text_any_case(method, "GET") {
        return FetchStep::Reply(own_reply(405, "hop-endpoint: only GET in v1"));
    }
    FetchStep::Get { url: fetched_url(origin, target), scheme: "hops" }
}

/// The endpoint answers for one domain: a request that is signed for any other host is refused
/// with 403 whatever else holds, and is never served.
pub proof fn law_other_hosts_are_refused(host: Seq<char>, domain: Seq<char>, free: bool)
    ensures
        hops_step(host, domain, free) is Serve <==> normal_host(host) == domain && free,
        normal_host(host) != domain ==> hops_step(host, domain, free) == HopsSpec::Reply(
            own(403, "hop-endpoint: this endpoint only serves "@ + domain),
        ),
{
}

/// A request that is served reaches the origin only by GET, and what is fetched names the scheme
/// and the authority of the configured origin, whatever the request holds.
pub proof fn law_mesh_reaches_only_the_origin(
    origin: Seq<char>,
    method: Seq<char>,
    target: Seq<char>,
)
    requires
        scheme_at(origin) is Some,
    ensures
        fetch_step(origin, method, target) is Get <==> is_method(method, "GET"@),
        fetch_step(origin, method, target) matches FetchSpec::Get { url, scheme }
            ==> scheme_and_authority(url) == scheme_and_authority(origin),
{
    law_only_the_origin_is_fetched(origin, target);
}

/// A request that is served by GET, in any case, fetches the origin and then the path that it asks
/// for, with word that it came over the mesh; any other method is refused with 405, and fetches
/// nothing.
pub proof fn law_mesh_gets_what_it_asks_for(
    origin: Seq<char>,
    method: Seq<char>,
    target: Seq<char>,
)
    ensures
        lower(method) == "get"@ ==> fetch_step(origin, method, target) == (FetchSpec::Get {
            url: origin + path(target),
            scheme: "hops"@,
        }),
        lower(method) != "get"@ ==> (fetch_step(origin, method, target) matches FetchSpec::Reply(t)
            && t.status == 405 && t.content_type == "text/plain; charset=utf-8"@ && t.body
            == encode_utf8("hop-endpoint: only GET in v1"@)),
{
    law_methods_are_matched_whole(method);
}

/// A request is served exactly where its host, with capitals made small and the dots at its end
/// dropped, is the domain, and a place is free; another host is refused with 403, and without a
/// place the request is shed with 503.
pub proof fn law_host_and_place_decide(
    host: Seq<char>,
    dots: nat,
    domain: Seq<char>,
    free: bool,
)
    requires
        host.len() > 0 ==> host.last() != '.',
    ensures
        ({
            let step = hops_step(host + Seq::new(dots, |i: int| '.'), domain, free);
            &&& lower(host) == domain && free ==> step is Serve
            &&& lower(host) == domain && !free ==> (step matches HopsSpec::Reply(t) && t.status
                == 503 && t.content_type == "text/plain; charset=utf-8"@ && t.body == encode_utf8(
                "hop-endpoint: busy, try again"@,
            ))
            &&& lower(host) != domain ==> (step matches HopsSpec::Reply(t) && t.status == 403
                && t.content_type == "text/plain; charset=utf-8"@ && t.body == encode_utf8(
                "hop-endpoint: this endpoint only serves "@ + domain,
            ))
        }),
{
    law_trim_end_char_cuts_the_run(host, '.', dots);
}

/// The places that are taken after a batch of requests is decided on.
pub open spec fn taken_after(
    taken: nat,
    places: nat,
    hosts: Seq<Seq<char>>,
    domain: Seq<char>,
) -> nat
    decreases hosts.len(),
{
    if hosts.len() == 0 {
        taken
    } else {
        let t = taken_after(taken, places, hosts.drop_last(), domain);
        if hops_step(hosts.last(), domain, t < places) is Serve {
            t + 1
        } else {
            t
        }
    }
}

/// How many of a batch of requests are served.
pub open spec fn served(
    taken: nat,
    places: nat,
    hosts: Seq<Seq<char>>,
    domain: Seq<char>,
) -> nat
    decreases hosts.len(),
{
    if hosts.len() == 0 {
        0
    } else {
        let t = taken_after(taken, places, hosts.drop_last(), domain);
        served(taken, places, hosts.drop_last(), domain) + (if hops_step(
            hosts.last(),
            domain,
            t < places,
        ) is Serve {
            1nat
        } else {
            0
        })
    }
}

/// How many of a batch of requests are signed for the domain.
pub open spec fn addressed(hosts: Seq<Seq<char>>, domain: Seq<char>) -> nat
    decreases hosts.len(),
{
    if hosts.len() == 0 {
        0
    } else {
        addressed(hosts.drop_last(), domain) + (if normal_host(hosts.last()) == domain {
            1nat
        } else {
            0
        })
    }
}

/// However many requests come in, no more run at one time than there are places; none that is
/// signed for the domain is shed while a place is free; and a place is taken for each that is
/// served and for no other, so that once all of them have given theirs back, the places are as
/// before the batch.
pub proof fn law_fetches_are_bounded(
    taken: nat,
    places: nat,
    hosts: Seq<Seq<char>>,
    domain: Seq<char>,
)
    requires
        taken <= places,
    ensures
        taken_after(taken, places, hosts, domain) <= places,
        taken_after(taken, places, hosts, domain) == if taken + addressed(hosts, domain) <= places {
            taken + addressed(hosts, domain)
        } else {
            places
        },
        taken_after(taken, places, hosts, domain) - served(taken, places, hosts, domain) == taken,
    decreases hosts.len(),
{
    if hosts.len() > 0 {
        law_fetches_are_bounded(taken, places, hosts.drop_last(), domain);
    }
}

/// Nothing of an answer, or of what is to be done for a request, is hidden from what is said of it.
pub proof fn law_answer_is_seen_whole(
    a: Answer,
    step: HopsStep,
    fetch: FetchStep,
    requests: Seq<HopsRequest>,
    i: int,
)
    ensures
        a@.to == a.to && a@.for_id == a.for_id,
        a@.reply.status == a.status && a@.reply.content_type == a.content_type@ && a@.reply.body
            == a.body@,
        step matches HopsStep::Reply(t) ==> step@ == HopsSpec::Reply(t@),
        step is Serve ==> step@ == HopsSpec::Serve,
        fetch matches FetchStep::Reply(t) ==> fetch@ == FetchSpec::Reply(t@),
        fetch matches FetchStep::Get { url, scheme } ==> fetch@ == (FetchSpec::Get {
            url: url@,
            scheme: scheme@,
        }),
        hosts(requests).len() == requests.len(),
        0 <= i < requests.len() ==> hosts(requests)[i] == requests[i].host@,
{
}

} // verus!
