//! Request targets: the path that a request asks for, and the one URL that is fetched for it.

use vstd::prelude::*;

use crate::text::{
    begins_with, chars_of, find_char, first_at, lemma_first_at, lemma_first_at_is, text_of,
};

verus! {

/// What follows the scheme of a target that has one of the known schemes.
pub open spec fn after_scheme(url: Seq<char>) -> Option<Seq<char>> {
    if "https://"@.is_prefix_of(url) {
        Some(url.skip(8))
    } else if "http://"@.is_prefix_of(url) {
        Some(url.skip(7))
    } else if "hops://"@.is_prefix_of(url) {
        Some(url.skip(7))
    } else {
        None
    }
}

/// Where the query begins in what follows a scheme, if it follows the host directly, with no path
/// in between.
pub open spec fn bare_query(t: Seq<char>) -> Option<int> {
    match (first_at(t, '?'), first_at(t, '/')) {
        (Some(q), Some(k)) => if q < k {
            Some(q)
        } else {
            None
        },
        (q, None) => q,
        (None, _) => None,
    }
}

/// The path and query of a target. With a scheme, the host is dropped: the path begins at the
/// first slash behind it, and is the root, with the query where there is one, if no path follows
/// the host. Without a scheme, the target itself is the path, with a slash put in front where it
/// lacks one.
pub open spec fn path(url: Seq<char>) -> Seq<char> {
    match after_scheme(url) {
        Some(t) => match bare_query(t) {
            Some(q) => seq!['/'] + t.skip(q),
            None => match first_at(t, '/') {
                Some(k) => t.skip(k),
                None => seq!['/'],
            },
        },
        None => if url.len() > 0 && url[0] == '/' {
            url
        } else {
            seq!['/'] + url
        },
    }
}

/// Reduces a request target to its path and query.
pub fn path_of(url: &str) -> (r: String)
    ensures
        r@ == path(url@),
{
    proof {
        reveal_strlit("https://");
        reveal_strlit("http://");
        reveal_strlit("hops://");
        reveal_strlit("/");
        assert("/"@ =~= seq!['/']);
    }
    let v = chars_of(url);
    let skip: usize = if begins_with(&v, "https://") {
        8
    } else if begins_with(&v, "http://") || begins_with(&v, "hops://") {
        7
    } else {
        0
    };
    if skip > 0 {
        let n: usize = v.len();
        let ghost t = url@.skip(skip as int);
        assert(v@.subrange(skip as int, n as int) =~= t);
        let slash = find_char(&v, skip, n, '/');
        let query = find_char(&v, skip, n, '?');
        let bare = match (query, slash) {
            (Some(q), Some(k)) => q < k,
            (Some(_), None) => true,
            (None, _) => false,
        };
        return match (query, slash) {
            (Some(q), _) if bare => {
                assert(v@.subrange(skip + q, n as int) =~= t.skip(q as int));
                String::from_str("/").concat(text_of(&v, skip + q, n).as_str())
            },
            (_, Some(k)) => {
                assert(v@.subrange(skip + k, n as int) =~= t.skip(k as int));
                text_of(&v, skip + k, n)
            },
            _ => String::from_str("/"),
        };
    }
    if v.len() > 0 && v[0] == '/' {
        String::from_str(url)
    } else {
        String::from_str("/").concat(url)
    }
}

/// The URL that is fetched for a target: the origin and the path, nothing else.
pub open spec fn fetched(origin: Seq<char>, target: Seq<char>) -> Seq<char> {
    origin + path(target)
}

/// The URL that is fetched for a target.
pub fn fetched_url(origin: &str, target: &str) -> (r: String)
    ensures
        r@ == fetched(origin@, target@),
{
    let p = path_of(target);
    String::from_str(origin).concat(p.as_str())
}

/// A path begins with a slash, and a path is its own path.
pub proof fn law_path_is_a_path(url: Seq<char>)
    ensures
        path(url).len() > 0,
        path(url)[0] == '/',
        path(path(url)) == path(url),
{
    reveal_strlit("https://");
    reveal_strlit("http://");
    reveal_strlit("hops://");
    match after_scheme(url) {
        Some(t) => {
            lemma_first_at(t, '/');
        },
        None => {},
    }
    let p = path(url);
    if "https://"@.is_prefix_of(p) {
        assert("https://"@[0] == 'h');
    }
    if "http://"@.is_prefix_of(p) {
        assert("http://"@[0] == 'h');
    }
    if "hops://"@.is_prefix_of(p) {
        assert("hops://"@[0] == 'h');
    }
    assert(after_scheme(p) is None);
}

/// A host that a client sends makes no difference, and nothing but the scheme and the host is
/// dropped: a target with both has the path and query of what follows the host.
pub proof fn law_host_is_dropped(scheme: Seq<char>, host: Seq<char>, p: Seq<char>)
    requires
        scheme == "https://"@ || scheme == "http://"@ || scheme == "hops://"@,
        !host.contains('/'),
        !host.contains('?'),
        p.len() > 0 ==> p[0] == '/' || p[0] == '?',
    ensures
        path(scheme + host + p) == path(p),
        p.len() > 0 && p[0] == '/' ==> path(scheme + host + p) == p,
        p.len() == 0 || p[0] == '?' ==> path(scheme + host + p) == seq!['/'] + p,
{
    reveal_strlit("https://");
    reveal_strlit("http://");
    reveal_strlit("hops://");
    let url = scheme + host + p;
    let t = url.skip(scheme.len() as int);
    assert(t =~= host + p);
    assert(scheme.is_prefix_of(url));
    if scheme != "https://"@ {
        assert(url[0] == scheme[0] && url[4] == scheme[4]);
        assert("https://"@[4] == 's');
        assert(!"https://"@.is_prefix_of(url));
    }
    if scheme == "hops://"@ {
        assert(url[1] == 'o');
        assert("http://"@[1] == 't');
        assert(!"http://"@.is_prefix_of(url));
    }
    assert(after_scheme(url) == Some(t));
    let n = host.len() as int;
    assert forall|i: int| 0 <= i < n implies t[i] != '/' && t[i] != '?' by {
        assert(t[i] == host[i]);
    }
    lemma_first_at(t, '/');
    lemma_first_at(t, '?');
    assert("https://"@[0] == 'h' && "http://"@[0] == 'h' && "hops://"@[0] == 'h');
    assert(after_scheme(p) is None);
    assert(t.skip(n) =~= p);
    if p.len() > 0 {
        assert(t[n] == p[0]);
        lemma_first_at_is(t, p[0], n);
    } else {
        assert(t =~= host);
        assert(seq!['/'] + p =~= seq!['/']);
    }
}

/// Where the first `://` of a URL stands.
pub open spec fn scheme_at(url: Seq<char>) -> Option<int>
    decreases url.len(),
{
    if url.len() < 3 {
        None
    } else if url[0] == ':' && url[1] == '/' && url[2] == '/' {
        Some(0)
    } else {
        match scheme_at(url.drop_first()) {
            Some(k) => Some(k + 1),
            None => None,
        }
    }
}

/// True on the characters that end the authority of a URL.
pub open spec fn ends_authority(c: char) -> bool {
    c == '/' || c == '?' || c == '#' || c == '\\'
}

/// The characters of `t` up to the one that ends an authority.
pub open spec fn up_to_path(t: Seq<char>) -> Seq<char>
    decreases t.len(),
{
    if t.len() == 0 || ends_authority(t[0]) {
        Seq::empty()
    } else {
        seq![t[0]] + up_to_path(t.drop_first())
    }
}

/// The scheme of a URL, and the authority (user, host and port) that it names.
pub open spec fn scheme_and_authority(url: Seq<char>) -> Option<(Seq<char>, Seq<char>)> {
    match scheme_at(url) {
        Some(k) => Some((url.take(k), up_to_path(url.skip(k + 3)))),
        None => None,
    }
}

proof fn lemma_scheme_of_longer(url: Seq<char>, more: Seq<char>)
    requires
        scheme_at(url) is Some,
    ensures
        0 <= scheme_at(url)->0 <= url.len() - 3,
        scheme_at(url + more) == scheme_at(url),
    decreases url.len(),
{
    let both = url + more;
    assert(both[0] == url[0] && both[1] == url[1] && both[2] == url[2]);
    if !(url[0] == ':' && url[1] == '/' && url[2] == '/') {
        lemma_scheme_of_longer(url.drop_first(), more);
        assert(both.drop_first() =~= url.drop_first() + more);
    }
}

proof fn lemma_authority_of_longer(t: Seq<char>, more: Seq<char>)
    requires
        more.len() > 0,
        ends_authority(more[0]),
    ensures
        up_to_path(t + more) == up_to_path(t),
    decreases t.len(),
{
    if t.len() == 0 {
        assert(t + more =~= more);
    } else {
        assert((t + more)[0] == t[0]);
        assert((t + more).drop_first() =~= t.drop_first() + more);
        lemma_authority_of_longer(t.drop_first(), more);
    }
}

/// The request never chooses the host: for every target, the URL that is fetched has the scheme
/// and the authority of the configured origin.
pub proof fn law_only_the_origin_is_fetched(origin: Seq<char>, target: Seq<char>)
    requires
        scheme_at(origin) is Some,
    ensures
        scheme_and_authority(fetched(origin, target)) == scheme_and_authority(origin),
{
    let p = path(target);
    law_path_is_a_path(target);
    lemma_scheme_of_longer(origin, p);
    let k = scheme_at(origin)->0;
    lemma_authority_of_longer(origin.skip(k + 3), p);
    assert((origin + p).skip(k + 3) =~= origin.skip(k + 3) + p);
    assert((origin + p).take(k) =~= origin.take(k));
}

/// What is fetched is the origin and then what the client asked for, character for character: a
/// path, as it is; behind a scheme and a host, which are dropped, the path, or the query with the
/// root before it; and any other target with a slash before it.
pub proof fn law_fetched_url_is_origin_and_path(
    origin: Seq<char>,
    scheme: Seq<char>,
    host: Seq<char>,
    p: Seq<char>,
)
    requires
        scheme == "https://"@ || scheme == "http://"@ || scheme == "hops://"@,
        !host.contains('/'),
        !host.contains('?'),
    ensures
        p.len() > 0 && p[0] == '/' ==> fetched(origin, p) == origin + p,
        p.len() > 0 && p[0] == '/' ==> fetched(origin, scheme + host + p) == origin + p,
        p.len() == 0 || p[0] == '?' ==> fetched(origin, scheme + host + p) == origin + seq!['/']
            + p,
        !"https://"@.is_prefix_of(p) && !"http://"@.is_prefix_of(p) && !"hops://"@.is_prefix_of(p)
            && (p.len() == 0 || p[0] != '/') ==> fetched(origin, p) == origin + seq!['/'] + p,
{
    reveal_strlit("https://");
    reveal_strlit("http://");
    reveal_strlit("hops://");
    if p.len() == 0 || p[0] == '/' || p[0] == '?' {
        law_host_is_dropped(scheme, host, p);
    }
    if p.len() > 0 && p[0] == '/' {
        assert("https://"@[0] == 'h' && "http://"@[0] == 'h' && "hops://"@[0] == 'h');
        assert(after_scheme(p) is None);
    }
    assert(origin + (seq!['/'] + p) =~= origin + seq!['/'] + p);
}

} // verus!
