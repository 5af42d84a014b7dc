//! The reach record: what an endpoint serves at `/.well-known/hop`, so that a client can find the
//! address behind a domain.

use vstd::prelude::*;
use vstd::utf8::encode_utf8;

use crate::text::{first_at, lemma_first_at, lemma_first_at_is};

verus! {

broadcast use vstd::string::group_string_axioms;

/// How long a client may keep a record, in seconds.
pub const WELL_KNOWN_TTL_SECS: u32 = 7200;

/// How old a served record gets before it is signed again, in nanoseconds.
pub const WELL_KNOWN_RESIGN_NANOS: u64 = 3_600_000_000_000;

/// The character for a number below 64 in the standard base64 alphabet.
pub open spec fn base64_char(n: int) -> char {
    if n < 26 {
        ('A' as int + n) as char
    } else if n < 52 {
        ('a' as int + n - 26) as char
    } else if n < 62 {
        ('0' as int + n - 52) as char
    } else if n == 62 {
        '+'
    } else {
        '/'
    }
}

/// A group of one to three bytes in standard base64: four characters of six bits each, filled up
/// with zero bits and padded where bytes are missing.
pub open spec fn base64_group(g: Seq<u8>) -> Seq<char> {
    let a = g[0] as int;
    let b = if g.len() > 1 {
        g[1] as int
    } else {
        0
    };
    let c = if g.len() > 2 {
        g[2] as int
    } else {
        0
    };
    seq![
        base64_char(a / 4),
        base64_char(a % 4 * 16 + b / 16),
        if g.len() > 1 {
            base64_char(b % 16 * 4 + c / 64)
        } else {
            '='
        },
        if g.len() > 2 {
            base64_char(c % 64)
        } else {
            '='
        },
    ]
}

/// Bytes in standard base64, in groups of three.
pub open spec fn base64_text(data: Seq<u8>) -> Seq<char>
    decreases data.len(),
{
    if data.len() == 0 {
        Seq::empty()
    } else if data.len() <= 3 {
        base64_group(data)
    } else {
        base64_group(data.take(3)) + base64_text(data.skip(3))
    }
}

/// The number that a character stands for in the standard base64 alphabet.
pub open spec fn base64_number(c: char) -> int {
    if 'A' <= c <= 'Z' {
        c as int - 'A' as int
    } else if 'a' <= c <= 'z' {
        c as int - 'a' as int + 26
    } else if '0' <= c <= '9' {
        c as int - '0' as int + 52
    } else if c == '+' {
        62
    } else {
        63
    }
}

/// The bytes that a group of four characters holds.
pub open spec fn base64_group_bytes(t: Seq<char>) -> Seq<u8> {
    let p = base64_number(t[0]);
    let q = base64_number(t[1]);
    let r = base64_number(t[2]);
    let first = seq![(p * 4 + q / 16) as u8];
    if t[2] == '=' {
        first
    } else if t[3] == '=' {
        first.push((q % 16 * 16 + r / 4) as u8)
    } else {
        first.push((q % 16 * 16 + r / 4) as u8).push((r % 4 * 64 + base64_number(t[3])) as u8)
    }
}

/// The bytes that a text in standard base64 holds.
pub open spec fn base64_bytes(text: Seq<char>) -> Seq<u8>
    decreases text.len(),
{
    if text.len() < 4 {
        Seq::empty()
    } else {
        base64_group_bytes(text.take(4)) + base64_bytes(text.skip(4))
    }
}

proof fn lemma_base64_char(n: int)
    requires
        0 <= n < 64,
    ensures
        base64_number(base64_char(n)) == n,
        is_plain_char(base64_char(n)),
        base64_char(n) != '=',
{
}

proof fn lemma_base64_group(g: Seq<u8>)
    requires
        1 <= g.len() <= 3,
    ensures
        base64_group_bytes(base64_group(g)) == g,
        is_plain(base64_group(g)),
{
    let a = g[0] as int;
    let b = if g.len() > 1 {
        g[1] as int
    } else {
        0
    };
    let c = if g.len() > 2 {
        g[2] as int
    } else {
        0
    };
    lemma_base64_char(a / 4);
    lemma_base64_char(a % 4 * 16 + b / 16);
    lemma_base64_char(b % 16 * 4 + c / 64);
    lemma_base64_char(c % 64);
    assert(base64_group_bytes(base64_group(g)) =~= g);
}

/// A client that decodes the base64 text of some bytes gets these bytes.
pub proof fn law_base64_reads_back(data: Seq<u8>)
    ensures
        base64_bytes(base64_text(data)) == data,
        is_plain(base64_text(data)),
        base64_text(data).len() == (data.len() + 2) / 3 * 4,
    decreases data.len(),
{
    let text = base64_text(data);
    if data.len() > 3 {
        let g = base64_group(data.take(3));
        let tail = base64_text(data.skip(3));
        law_base64_reads_back(data.skip(3));
        lemma_base64_group(data.take(3));
        assert(text.take(4) =~= g);
        assert(text.skip(4) =~= tail);
        assert forall|i: int| 0 <= i < text.len() implies is_plain_char(#[trigger] text[i]) by {
            if i < 4 {
                assert(text[i] == g[i]);
            } else {
                assert(text[i] == tail[i - 4]);
            }
        }
        assert(data =~= data.take(3) + data.skip(3));
    } else if data.len() > 0 {
        lemma_base64_group(data);
        assert(text.take(4) =~= text);
        assert(base64_bytes(text.skip(4)) =~= Seq::<u8>::empty());
        assert(base64_bytes(text) =~= data);
    } else {
        assert(base64_bytes(text) =~= data);
    }
}

/// The character for a number below 58 in the default base58 alphabet: letters and digits, without
/// those that look alike.
pub open spec fn base58_char(n: int) -> char {
    if n < 9 {
        ('1' as int + n) as char
    } else if n < 17 {
        ('A' as int + n - 9) as char
    } else if n < 22 {
        ('J' as int + n - 17) as char
    } else if n < 33 {
        ('P' as int + n - 22) as char
    } else if n < 44 {
        ('a' as int + n - 33) as char
    } else {
        ('m' as int + n - 44) as char
    }
}

/// The number that bytes stand for, the most significant first.
pub open spec fn number_of(data: Seq<u8>) -> nat
    decreases data.len(),
{
    if data.len() == 0 {
        0
    } else {
        number_of(data.drop_last()) * 256 + data.last() as nat
    }
}

/// The digits of a number in base 58, the most significant first, none for zero.
pub open spec fn base58_digits(n: nat) -> Seq<char>
    decreases n,
{
    if n == 0 {
        Seq::empty()
    } else {
        base58_digits(n / 58).push(base58_char((n % 58) as int))
    }
}

/// How many zero bytes stand in front.
pub open spec fn leading_zeros(data: Seq<u8>) -> nat
    decreases data.len(),
{
    if data.len() == 0 || data[0] != 0 {
        0
    } else {
        1 + leading_zeros(data.skip(1))
    }
}

/// Bytes in base58: a one for each zero byte in front, and then the digits of the number that the
/// bytes stand for.
pub open spec fn base58_text(data: Seq<u8>) -> Seq<char> {
    Seq::new(leading_zeros(data), |i: int| '1') + base58_digits(number_of(data))
}

/// The number that a character stands for in the default base58 alphabet.
pub open spec fn base58_value(c: char) -> int {
    if c <= '9' {
        c as int - '1' as int
    } else if c <= 'H' {
        c as int - 'A' as int + 9
    } else if c <= 'N' {
        c as int - 'J' as int + 17
    } else if c <= 'Z' {
        c as int - 'P' as int + 22
    } else if c <= 'k' {
        c as int - 'a' as int + 33
    } else {
        c as int - 'm' as int + 44
    }
}

/// The number that a text in base58 stands for.
pub open spec fn base58_number(text: Seq<char>) -> int
    decreases text.len(),
{
    if text.len() == 0 {
        0
    } else {
        base58_number(text.drop_last()) * 58 + base58_value(text.last())
    }
}

proof fn lemma_base58_char(n: int)
    requires
        0 <= n < 58,
    ensures
        base58_value(base58_char(n)) == n,
        is_plain_char(base58_char(n)),
{
}

proof fn lemma_base58_digits(ones: nat, n: nat)
    ensures
        ({
            let text = Seq::new(ones, |i: int| '1') + base58_digits(n);
            base58_number(text) == n && is_plain(text)
        }),
    decreases ones, n,
{
    let front = Seq::new(ones, |i: int| '1');
    let text = front + base58_digits(n);
    if n > 0 {
        lemma_base58_digits(ones, n / 58);
        lemma_base58_char((n % 58) as int);
        let before = front + base58_digits(n / 58);
        assert(text.drop_last() =~= before);
        assert(text.last() == base58_char((n % 58) as int));
        assert forall|i: int| 0 <= i < text.len() implies is_plain_char(#[trigger] text[i]) by {
            if i < text.len() - 1 {
                assert(text[i] == before[i]);
            }
        }
    } else if ones > 0 {
        let fewer = Seq::new((ones - 1) as nat, |i: int| '1');
        lemma_base58_digits((ones - 1) as nat, 0);
        assert(text.drop_last() =~= fewer + base58_digits(0));
        assert(text.last() == '1');
        assert forall|i: int| 0 <= i < text.len() implies is_plain_char(#[trigger] text[i]) by {
            assert(text[i] == front[i]);
        }
    } else {
        assert(text =~= Seq::<char>::empty());
    }
}

proof fn lemma_same_number(a: Seq<u8>, b: Seq<u8>)
    requires
        a.len() == b.len(),
        number_of(a) == number_of(b),
    ensures
        a == b,
    decreases a.len(),
{
    if a.len() > 0 {
        assert(a.last() == b.last());
        lemma_same_number(a.drop_last(), b.drop_last());
        assert(a =~= a.drop_last().push(a.last()));
        assert(b =~= b.drop_last().push(b.last()));
    }
    assert(a =~= b);
}

/// A client that reads the base58 text of an address gets the number that the address stands for,
/// and two addresses of one length with one text are the same.
pub proof fn law_base58_reads_back(a: Seq<u8>, b: Seq<u8>)
    ensures
        base58_number(base58_text(a)) == number_of(a),
        is_plain(base58_text(a)),
        a.len() == b.len() && base58_text(a) == base58_text(b) ==> a == b,
{
    lemma_base58_digits(leading_zeros(a), number_of(a));
    lemma_base58_digits(leading_zeros(b), number_of(b));
    if a.len() == b.len() && base58_text(a) == base58_text(b) {
        lemma_same_number(a, b);
    }
}

/// Calls `encode` of `base64::engine::general_purpose::STANDARD`, which writes the bytes in base64
/// with the standard alphabet and padding. The call panics where the length of the text does not
/// fit.
#[verifier::external_body]
fn base64_encode(data: &[u8]) -> (r: String)
    requires
        (data@.len() + 2) / 3 * 4 <= isize::MAX,
    ensures
        r@ == base64_text(data@),
{
    base64::Engine::encode(&base64::engine::general_purpose::STANDARD, data)
}

/// Calls `bs58::encode(..).into_string()`, which writes the bytes in base58 with the default
/// alphabet. The call sets aside one and a half characters for each byte, and panics where that
/// length does not fit.
#[verifier::external_body]
fn base58_encode(data: &[u8]) -> (r: String)
    requires
        data@.len() + (data@.len() + 1) / 2 <= isize::MAX,
    ensures
        r@ == base58_text(data@),
{
    bs58::encode(data).into_string()
}

/// The address of a node, as it is written.
pub fn address_text(address: &[u8; 32]) -> (r: String)
    ensures
        r@ == base58_text(address@),
{
    base58_encode(address.as_slice())
}

/// The URL at which clients dial the endpoint of `domain`.
pub open spec fn public_url(domain: Seq<char>) -> Seq<char> {
    "wss://"@ + domain + "/"@
}

/// The URL at which clients dial the endpoint of `domain`, as a text.
pub fn public_url_for(domain: &str) -> (r: String)
    ensures
        r@ == public_url(domain@),
{
    String::from_str("wss://").concat(domain).concat("/")
}

/// The JSON object that is served: the address, the URL to dial, and the signed record.
pub open spec fn well_known_text(
    address: Seq<char>,
    endpoint: Seq<char>,
    reach: Seq<char>,
) -> Seq<char> {
    "{\"address\":\""@ + address + "\",\"endpoint\":\""@ + endpoint + "\",\"reach\":\""@ + reach
        + "\"}"@
}

/// The strings that stand between quotes in `s`, in order, where no quote is escaped.
pub open spec fn quoted(s: Seq<char>) -> Seq<Seq<char>>
    decreases s.len(),
{
    match first_at(s, '"') {
        None => Seq::empty(),
        Some(i) => {
            proof {
                lemma_first_at(s, '"');
                lemma_first_at(s.skip(i + 1), '"');
            }
            match first_at(s.skip(i + 1), '"') {
                None => Seq::empty(),
                Some(j) => seq![s.subrange(i + 1, i + 1 + j)] + quoted(s.skip(i + j + 2)),
            }
        },
    }
}

/// A character that can stand between quotes as it is.
pub open spec fn is_plain_char(c: char) -> bool {
    c != '"' && c != '\\' && c as u32 >= 0x20
}

/// A text that can stand between quotes as it is.
pub open spec fn is_plain(s: Seq<char>) -> bool {
    forall|i: int| 0 <= i < s.len() ==> is_plain_char(#[trigger] s[i])
}

proof fn lemma_quoted_step(before: Seq<char>, s: Seq<char>, after: Seq<char>)
    requires
        !before.contains('"'),
        !s.contains('"'),
    ensures
        quoted(before.push('"') + s.push('"') + after) == seq![s] + quoted(after),
{
    let t = before.push('"') + s.push('"') + after;
    let i = before.len() as int;
    let j = s.len() as int;
    assert forall|k: int| 0 <= k < i implies t[k] != '"' by {
        assert(t[k] == before[k]);
    }
    lemma_first_at_is(t, '"', i);
    let u = t.skip(i + 1);
    assert forall|k: int| 0 <= k < j implies u[k] != '"' by {
        assert(u[k] == s[k]);
    }
    lemma_first_at_is(u, '"', j);
    assert(t.subrange(i + 1, i + 1 + j) =~= s);
    assert(t.skip(i + j + 2) =~= after);
}

/// A client that reads the served text finds the three fields with the very values that were put
/// in, in order, wherever none of the values needs escaping.
pub proof fn law_record_reads_back(address: Seq<char>, endpoint: Seq<char>, reach: Seq<char>)
    requires
        is_plain(address),
        is_plain(endpoint),
        is_plain(reach),
    ensures
        quoted(well_known_text(address, endpoint, reach)) == seq![
            "address"@,
            address,
            "endpoint"@,
            endpoint,
            "reach"@,
            reach,
        ],
{
    reveal_strlit("{\"address\":\"");
    reveal_strlit("\",\"endpoint\":\"");
    reveal_strlit("\",\"reach\":\"");
    reveal_strlit("\"}");
    reveal_strlit("address");
    reveal_strlit("endpoint");
    reveal_strlit("reach");
    let t6 = seq!['}'];
    let t5 = seq![':'].push('"') + reach.push('"') + t6;
    let t4 = seq![','].push('"') + "reach"@.push('"') + t5;
    let t3 = seq![':'].push('"') + endpoint.push('"') + t4;
    let t2 = seq![','].push('"') + "endpoint"@.push('"') + t3;
    let t1 = seq![':'].push('"') + address.push('"') + t2;
    let t0 = seq!['{'].push('"') + "address"@.push('"') + t1;
    assert(t0 =~= well_known_text(address, endpoint, reach));
    lemma_quoted_step(seq!['{'], "address"@, t1);
    lemma_quoted_step(seq![':'], address, t2);
    lemma_quoted_step(seq![','], "endpoint"@, t3);
    lemma_quoted_step(seq![':'], endpoint, t4);
    lemma_quoted_step(seq![','], "reach"@, t5);
    lemma_quoted_step(seq![':'], reach, t6);
    lemma_first_at(t6, '"');
    assert(quoted(t6) =~= Seq::empty());
    assert(quoted(t0) =~= seq!["address"@, address, "endpoint"@, endpoint, "reach"@, reach]);
}

/// What a client reads out of a served body is what was put in: it finds the URL, decodes the
/// record to the very bytes that were signed, and tells the address from every other.
pub proof fn law_served_record_reads_back(
    address: Seq<u8>,
    other: Seq<u8>,
    url: Seq<char>,
    record: Seq<u8>,
)
    requires
        is_plain(url),
        address.len() == other.len(),
    ensures
        ({
            let read = quoted(well_known_text(base58_text(address), url, base64_text(record)));
            &&& read.len() == 6
            &&& read[0] == "address"@ && read[2] == "endpoint"@ && read[4] == "reach"@
            &&& read[1] == base58_text(other) <==> address == other
            &&& read[3] == url
            &&& base64_bytes(read[5]) == record
        }),
{
    law_base58_reads_back(address, other);
    law_base64_reads_back(record);
    law_record_reads_back(base58_text(address), url, base64_text(record));
}

/// Writes the body that is served, from the address of the node, the URL to dial, and the bytes of
/// the signed record.
pub fn sign_well_known(address: &[u8; 32], public_url: &str, record: &[u8]) -> (r: Vec<u8>)
    requires
        (record@.len() + 2) / 3 * 4 <= isize::MAX,
    ensures
        r@ == encode_utf8(
            well_known_text(base58_text(address@), public_url@, base64_text(record@)),
        ),
{
    let reach = base64_encode(record);
    let name = address_text(address);
    let body = String::from_str("{\"address\":\"").concat(name.as_str()).concat(
        "\",\"endpoint\":\"",
    ).concat(public_url).concat("\",\"reach\":\"").concat(reach.as_str()).concat("\"}");
    body.as_str().as_bytes_vec()
}

/// Clients dial the domain itself: the URL is the secure WebSocket scheme, the domain, and the root.
pub proof fn law_public_url_is_the_domain(domain: Seq<char>)
    ensures
        public_url(domain).len() == domain.len() + 7,
        public_url(domain).take(6) == seq!['w', 's', 's', ':', '/', '/'],
        public_url(domain).subrange(6, domain.len() as int + 6) == domain,
        public_url(domain).last() == '/',
{
    reveal_strlit("wss://");
    reveal_strlit("/");
    assert(public_url(domain).take(6) =~= seq!['w', 's', 's', ':', '/', '/']);
    assert(public_url(domain).subrange(6, domain.len() as int + 6) =~= domain);
}

} // verus!
