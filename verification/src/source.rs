//! Who sent a request: addresses, the forwarded-for list, and the trusted front-end.

use vstd::prelude::*;

use crate::text::{
    chars_of, is_blank_text, is_white_space, law_trim_cuts_the_blank, lemma_trim_of_longer, same_text,
    text_of, trim, trim_bounds, trimmed,
};

verus! {

/// An IP address as its number.
#[derive(Clone, Copy, PartialEq, Eq, Structural, Debug)]
pub enum Ip {
    V4(u32),
    V6(u128),
}

/// The address that a text writes, if it writes one, as `core::net::IpAddr` reads it.
pub uninterp spec fn ip_written(text: Seq<char>) -> Option<Ip>;

/// Calls `str::parse` for `core::net::IpAddr`, and gives the address as its number. What it reads
/// is a function of the text; which texts it takes for addresses is left unsaid.
#[verifier::external_body]
pub(crate) fn parse_ip(text: &str) -> (r: Option<Ip>)
    ensures
        r == ip_written(text@),
{
    match text.parse::<core::net::IpAddr>() {
        Ok(core::net::IpAddr::V4(a)) => Some(Ip::V4(u32::from(a))),
        Ok(core::net::IpAddr::V6(a)) => Some(Ip::V6(u128::from(a))),
        Err(_) => None,
    }
}

/// Which peers are a front-end that forwards for others. Behind such a front-end every client
/// arrives from one address, so a limit on that address would be a limit on all of them.
#[derive(Clone, Copy, PartialEq, Eq, Structural, Debug)]
pub enum TrustedProxy {
    /// No front-end: every peer is limited by its own address.
    Direct,
    /// Every peer is the front-end.
    Any,
    /// One address is the front-end.
    Ip(Ip),
}

/// Where `c` last stands in `s`, if it stands there.
pub open spec fn last_at(s: Seq<char>, c: char) -> Option<int>
    decreases s.len(),
{
    if s.len() == 0 {
        None
    } else if s.last() == c {
        Some(s.len() - 1)
    } else {
        last_at(s.drop_last(), c)
    }
}

/// What [`last_at`] gives is the greatest index that holds the character.
pub proof fn lemma_last_at(s: Seq<char>, c: char)
    ensures
        match last_at(s, c) {
            Some(k) => 0 <= k < s.len() && s[k] == c && forall|i: int|
                k < i < s.len() ==> s[i] != c,
            None => forall|i: int| 0 <= i < s.len() ==> s[i] != c,
        },
    decreases s.len(),
{
    if s.len() > 0 && s.last() != c {
        let t = s.drop_last();
        lemma_last_at(t, c);
        assert forall|i: int| 0 <= i < s.len() - 1 implies s[i] == t[i] by {}
    }
}

/// The entries of a comma separated list.
pub open spec fn entries(s: Seq<char>) -> Seq<Seq<char>>
    decreases s.len(),
{
    proof {
        lemma_last_at(s, ',');
    }
    match last_at(s, ',') {
        Some(k) => entries(s.take(k)).push(s.skip(k + 1)),
        None => seq![s],
    }
}

/// The last entry that holds more than white space, trimmed.
pub open spec fn last_named(list: Seq<Seq<char>>) -> Option<Seq<char>>
    decreases list.len(),
{
    if list.len() == 0 {
        None
    } else if trim(list.last()).len() > 0 {
        Some(trim(list.last()))
    } else {
        last_named(list.drop_last())
    }
}

/// The hop that a forwarded-for list names last.
pub open spec fn last_hop(s: Seq<char>) -> Option<Seq<char>> {
    last_named(entries(s))
}

/// The text behind an optional `String`.
pub open spec fn opt_text(o: Option<String>) -> Option<Seq<char>> {
    match o {
        Some(t) => Some(t@),
        None => None,
    }
}

/// The key of the per-client limit in the value of an `X-Forwarded-For` header: its last entry
/// that is not blank. A list grows to the right on its way here, so the last entry is the one
/// that the closest hop wrote and the client did not.
pub fn client_ip_from_xff(raw: &str) -> (r: Option<String>)
    ensures
        opt_text(r) == last_hop(raw@),
{
    let v = chars_of(raw);
    let mut to: usize = v.len();
    assert(v@.take(to as int) =~= v@);
    loop
        invariant
            to <= v@.len(),
            last_hop(v@.take(to as int)) == last_hop(raw@),
        decreases to,
    {
        let ghost s = v@.take(to as int);
        let mut k: usize = to;
        assert(s.take(k as int) =~= s);
        while k > 0 && v[k - 1] != ','
            invariant
                k <= to <= v@.len(),
                s == v@.take(to as int),
                last_at(s.take(k as int), ',') == last_at(s, ','),
            decreases k,
        {
            assert(s.take(k as int).drop_last() =~= s.take(k - 1));
            assert(s.take(k as int).last() == v@[k - 1]);
            k = k - 1;
        }
        let (a, b) = trim_bounds(&v, k, to);
        proof {
            if k > 0 {
                assert(s.take(k as int).last() == v@[k - 1]);
                assert(last_at(s, ',') == Some(k - 1));
                assert(s.skip(k as int) =~= v@.subrange(k as int, to as int));
                assert(s.take(k - 1) =~= v@.take(k - 1));
                assert(entries(s).drop_last() =~= entries(v@.take(k - 1)));
                assert(entries(s).last() == s.skip(k as int));
            } else {
                assert(last_at(s, ',') is None);
                reveal_with_fuel(last_named, 2);
                assert(v@.subrange(0, to as int) =~= s);
                assert(entries(s).drop_last() =~= Seq::<Seq<char>>::empty());
            }
        }
        if a < b {
            return Some(text_of(&v, a, b));
        }
        if k == 0 {
            return None;
        }
        to = k - 1;
    }
}

/// Whatever stands in front of them, the entries that the closest front-end appended decide, where
/// one of them names a hop: a client cannot pick another key by writing entries of its own. Entries
/// that name no hop change nothing.
pub proof fn law_appended_hop_wins(claimed: Seq<char>, appended: Seq<char>)
    ensures
        last_hop(appended) is Some ==> last_hop(claimed + seq![','] + appended) == last_hop(
            appended,
        ),
        last_hop(appended) is None ==> last_hop(claimed + seq![','] + appended) == last_hop(
            claimed,
        ),
    decreases appended.len(),
{
    let s = claimed + seq![','] + appended;
    let n = claimed.len() as int;
    lemma_last_at(s, ',');
    lemma_last_at(appended, ',');
    assert(s[n] == ',');
    assert forall|i: int| 0 <= i < appended.len() implies s[n + 1 + i] == appended[i] by {}
    match last_at(appended, ',') {
        Some(k) => {
            assert(s[n + 1 + k] == ',');
            assert(last_at(s, ',') == Some(n + 1 + k));
            assert(s.take(n + 1 + k) =~= claimed + seq![','] + appended.take(k));
            assert(s.skip(n + 1 + k + 1) =~= appended.skip(k + 1));
            assert(entries(s).drop_last() =~= entries(s.take(n + 1 + k)));
            assert(entries(appended).drop_last() =~= entries(appended.take(k)));
            law_appended_hop_wins(claimed, appended.take(k));
        },
        None => {
            assert(last_at(s, ',') == Some(n));
            assert(s.take(n) =~= claimed);
            assert(s.skip(n + 1) =~= appended);
            assert(entries(s).last() == appended);
            assert(entries(s).drop_last() =~= entries(claimed));
            assert(entries(appended).drop_last() =~= Seq::<Seq<char>>::empty());
            reveal_with_fuel(last_named, 2);
        },
    }
}

/// White space behind a list makes no difference.
pub proof fn law_blank_behind_a_list_is_dropped(list: Seq<char>, blank: Seq<char>)
    requires
        is_blank_text(blank),
    ensures
        last_hop(list + blank) == last_hop(list),
{
    let s = list + blank;
    lemma_last_at(s, ',');
    lemma_last_at(list, ',');
    assert forall|i: int| 0 <= i < s.len() && s[i] == ',' implies i < list.len() by {
        if i >= list.len() {
            assert(s[i] == blank[i - list.len()]);
            assert(is_white_space(blank[i - list.len()]));
        }
    }
    assert forall|i: int| 0 <= i < list.len() implies s[i] == list[i] by {}
    match last_at(list, ',') {
        Some(k) => {
            assert(s[k] == ',');
            assert(last_at(s, ',') == Some(k));
            assert(s.take(k) =~= list.take(k));
            assert(s.skip(k + 1) =~= list.skip(k + 1) + blank);
            assert(entries(s).drop_last() =~= entries(list).drop_last());
            lemma_trim_of_longer(list.skip(k + 1), blank);
        },
        None => {
            assert(last_at(s, ',') is None);
            assert(entries(s) =~= seq![s]);
            assert(entries(list) =~= seq![list]);
            assert(entries(s).drop_last() =~= entries(list).drop_last());
            lemma_trim_of_longer(list, blank);
        },
    }
}

/// A list without a comma is its one entry.
pub proof fn law_single_hop(s: Seq<char>)
    requires
        !s.contains(','),
    ensures
        last_hop(s) == (if trim(s).len() > 0 {
            Some(trim(s))
        } else {
            None
        }),
{
    lemma_last_at(s, ',');
    assert(entries(s) =~= seq![s]);
    assert(entries(s).drop_last() =~= Seq::<Seq<char>>::empty());
    reveal_with_fuel(last_named, 2);
}

/// What the operator wrote about the front-end.
#[derive(PartialEq, Eq, Debug)]
pub enum ProxySetting {
    /// Nothing was written.
    Unset,
    /// Every peer is the front-end.
    Any,
    /// The text, trimmed, that should be the address of the front-end.
    Address(String),
}

/// The words that make every peer the front-end.
pub open spec fn means_any(t: Seq<char>) -> bool {
    t == "any"@ || t == "1"@ || t == "true"@ || t == "yes"@
}

/// Reads the setting of the trusted front-end up to the point where an address must be read.
pub fn proxy_setting(env: Option<&str>) -> (r: ProxySetting)
    ensures
        match env {
            None => r is Unset,
            Some(s) => if means_any(trim(s@)) {
                r is Any
            } else if trim(s@).len() == 0 {
                r is Unset
            } else {
                r matches ProxySetting::Address(a) && a@ == trim(s@)
            },
        },
{
    match env {
        None => ProxySetting::Unset,
        Some(s) => {
            let t = trimmed(s);
            if same_text(t.as_str(), "any") || same_text(t.as_str(), "1") || same_text(
                t.as_str(),
                "true",
            ) || same_text(t.as_str(), "yes") {
                ProxySetting::Any
            } else if t.as_str().is_empty() {
                ProxySetting::Unset
            } else {
                ProxySetting::Address(t)
            }
        },
    }
}

/// The policy that a setting stands for, where `parsed` is the address that its text writes. A
/// text that writes none is read as direct exposure, which keeps the limit on.
pub fn proxy_policy(setting: &ProxySetting, parsed: Option<Ip>) -> (r: TrustedProxy)
    ensures
        r == match (setting, parsed) {
            (ProxySetting::Unset, _) => TrustedProxy::Direct,
            (ProxySetting::Any, _) => TrustedProxy::Any,
            (ProxySetting::Address(_), Some(ip)) => TrustedProxy::Ip(ip),
            (ProxySetting::Address(_), None) => TrustedProxy::Direct,
        },
{
    match setting {
        ProxySetting::Unset => TrustedProxy::Direct,
        ProxySetting::Any => TrustedProxy::Any,
        ProxySetting::Address(_) => match parsed {
            Some(ip) => TrustedProxy::Ip(ip),
            None => TrustedProxy::Direct,
        },
    }
}

/// The policy that a setting asks for.
pub open spec fn trusted_by(setting: Option<Seq<char>>) -> TrustedProxy {
    match setting {
        None => TrustedProxy::Direct,
        Some(s) => if means_any(trim(s)) {
            TrustedProxy::Any
        } else if trim(s).len() > 0 && ip_written(trim(s)) is Some {
            TrustedProxy::Ip(ip_written(trim(s))->0)
        } else {
            TrustedProxy::Direct
        },
    }
}

/// The policy that the operator asked for. The words for every peer come first; any other text
/// that is not blank should be the address of the one front-end.
pub fn resolve_trusted_proxy(env: Option<&str>) -> (r: TrustedProxy)
    ensures
        r == match env {
            None => TrustedProxy::Direct,
            Some(s) => if means_any(trim(s@)) {
                TrustedProxy::Any
            } else if trim(s@).len() > 0 && ip_written(trim(s@)) is Some {
                TrustedProxy::Ip(ip_written(trim(s@))->0)
            } else {
                TrustedProxy::Direct
            },
        },
        r == trusted_by(
            match env {
                Some(s) => Some(s@),
                None => None,
            },
        ),
{
    let setting = proxy_setting(env);
    let parsed = match &setting {
        ProxySetting::Address(a) => parse_ip(a.as_str()),
        _ => None,
    };
    proxy_policy(&setting, parsed)
}

/// Whether the limit on a peer's own address applies to `peer`.
pub open spec fn peer_is_limited(peer: Ip, trusted: TrustedProxy) -> bool {
    match trusted {
        TrustedProxy::Direct => true,
        TrustedProxy::Any => false,
        TrustedProxy::Ip(t) => peer != t,
    }
}

/// Tells whether a new connection from `peer_ip` is counted against that address. A trusted
/// front-end is not: its clients are told apart by the forwarded-for list.
pub fn accept_peer_limited(peer_ip: Ip, trusted: TrustedProxy) -> (r: bool)
    ensures
        r == peer_is_limited(peer_ip, trusted),
{
    match trusted {
        TrustedProxy::Direct => true,
        TrustedProxy::Any => false,
        TrustedProxy::Ip(t) => peer_ip != t,
    }
}

/// A peer is spared the limit on its address exactly where it is a front-end that is trusted: any
/// peer, or the one peer that was named.
pub proof fn law_only_a_trusted_peer_is_spared(peer: Ip, trusted: TrustedProxy)
    ensures
        !peer_is_limited(peer, trusted) <==> trusted == TrustedProxy::Any || trusted
            == TrustedProxy::Ip(peer),
{
}

/// The words for every peer are these four, in small letters.
pub proof fn law_four_words_mean_any(t: Seq<char>)
    ensures
        means_any(t) <==> t == "any"@ || t == "1"@ || t == "true"@ || t == "yes"@,
{
}

/// The policy for a setting: unset or blank is direct exposure; the four words, with white space
/// around them or not, are every peer; the text of an address is that one peer; and anything else is
/// direct exposure, so that the limit stays on.
pub proof fn law_setting_decides_the_policy(before: Seq<char>, s: Seq<char>, after: Seq<char>)
    requires
        is_blank_text(before),
        is_blank_text(after),
        s.len() > 0 ==> !is_white_space(s[0]) && !is_white_space(s.last()),
    ensures
        trusted_by(None) == TrustedProxy::Direct,
        s.len() == 0 ==> trusted_by(Some(before + s + after)) == TrustedProxy::Direct,
        s == "any"@ || s == "1"@ || s == "true"@ || s == "yes"@ ==> trusted_by(
            Some(before + s + after),
        ) == TrustedProxy::Any,
        s.len() > 0 && s != "any"@ && s != "1"@ && s != "true"@ && s != "yes"@ ==> trusted_by(
            Some(before + s + after),
        ) == match ip_written(s) {
            Some(ip) => TrustedProxy::Ip(ip),
            None => TrustedProxy::Direct,
        },
{
    law_trim_cuts_the_blank(before, s, after);
    reveal_strlit("any");
    reveal_strlit("1");
    reveal_strlit("true");
    reveal_strlit("yes");
}

} // verus!
