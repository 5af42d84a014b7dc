//! Text as a sequence of characters: white space, ASCII case, trimming, splitting at a
//! character, and decimal numbers.

use vstd::prelude::*;

verus! {

broadcast use vstd::string::group_string_axioms;

/// `String::push` puts one character behind the text.
pub assume_specification[ String::push ](s: &mut String, c: char)
    ensures
        final(s)@ == old(s)@.push(c),
;

/// The characters with the Unicode property White_Space.
pub open spec fn is_white_space(c: char) -> bool {
    ||| 0x09 <= c as u32 <= 0x0d
    ||| c as u32 == 0x20
    ||| c as u32 == 0x85
    ||| c as u32 == 0xa0
    ||| c as u32 == 0x1680
    ||| 0x2000 <= c as u32 <= 0x200a
    ||| c as u32 == 0x2028
    ||| c as u32 == 0x2029
    ||| c as u32 == 0x202f
    ||| c as u32 == 0x205f
    ||| c as u32 == 0x3000
}

/// Tells whether `c` is white space.
pub fn white_space(c: char) -> (r: bool)
    ensures
        r == is_white_space(c),
{
    let n: u32 = c as u32;
    (0x09 <= n && n <= 0x0d) || n == 0x20 || n == 0x85 || n == 0xa0 || n == 0x1680 || (0x2000 <= n
        && n <= 0x200a) || n == 0x2028 || n == 0x2029 || n == 0x202f || n == 0x205f || n == 0x3000
}

/// `c` with an ASCII capital made small; every other character stays.
pub open spec fn lower_char(c: char) -> char {
    if 'A' <= c <= 'Z' {
        (c as u32 + 32) as char
    } else {
        c
    }
}

/// `s` with every ASCII capital made small.
pub open spec fn lower(s: Seq<char>) -> Seq<char> {
    s.map_values(|c: char| lower_char(c))
}

/// The small form of one character.
pub fn to_lower_char(c: char) -> (r: char)
    ensures
        r == lower_char(c),
{
    if 'A' <= c && c <= 'Z' {
        let b: u8 = c as u8 + 32;
        b as char
    } else {
        c
    }
}

/// The characters of `s`, one by one.
pub fn chars_of(s: &str) -> (v: Vec<char>)
    ensures
        v@ == s@,
{
    let mut v: Vec<char> = Vec::new();
    for c in it: s.chars()
        invariant
            it.seq() == s@,
            v@ == s@.take(it.index() as int),
    {
        v.push(c);
        assert(s@.take(it.index() + 1) =~= s@.take(it.index() as int).push(s@[it.index() as int]));
    }
    assert(s@.take(s@.len() as int) =~= s@);
    v
}

/// The characters of `v` from `from` up to `to`, as a text.
pub fn text_of(v: &Vec<char>, from: usize, to: usize) -> (r: String)
    requires
        from <= to <= v@.len(),
    ensures
        r@ == v@.subrange(from as int, to as int),
{
    let mut r: String = String::new();
    let mut i: usize = from;
    assert(v@.subrange(from as int, from as int) =~= Seq::<char>::empty());
    while i < to
        invariant
            from <= i <= to <= v@.len(),
            r@ == v@.subrange(from as int, i as int),
        decreases to - i,
    {
        r.push(v[i]);
        assert(v@.subrange(from as int, i + 1) =~= v@.subrange(from as int, i as int).push(
            v@[i as int],
        ));
        i = i + 1;
    }
    r
}

/// `s` with every ASCII capital made small, as a text.
pub fn to_lower(s: &str) -> (r: String)
    ensures
        r@ == lower(s@),
{
    let v = chars_of(s);
    let mut r: String = String::new();
    let mut i: usize = 0;
    while i < v.len()
        invariant
            i <= v@.len(),
            v@ == s@,
            r@ == lower(s@.take(i as int)),
        decreases v@.len() - i,
    {
        r.push(to_lower_char(v[i]));
        assert(lower(s@.take(i + 1)) =~= lower(s@.take(i as int)).push(lower_char(s@[i as int])));
        i = i + 1;
    }
    assert(s@.take(s@.len() as int) =~= s@);
    r
}

/// Tells whether two texts are the same.
pub fn same_text(a: &str, b: &str) -> (r: bool)
    ensures
        r == (a@ == b@),
{
    let v = chars_of(a);
    let w = chars_of(b);
    if v.len() != w.len() {
        return false;
    }
    let mut i: usize = 0;
    while i < v.len()
        invariant
            i <= v@.len(),
            v@ == a@,
            w@ == b@,
            v@.len() == w@.len(),
            v@.take(i as int) == w@.take(i as int),
        decreases v@.len() - i,
    {
        if v[i] != w[i] {
            assert(a@[i as int] != b@[i as int]);
            return false;
        }
        assert(v@.take(i + 1) =~= v@.take(i as int).push(v@[i as int]));
        assert(w@.take(i + 1) =~= w@.take(i as int).push(w@[i as int]));
        i = i + 1;
    }
    assert(v@.take(v@.len() as int) =~= v@);
    assert(w@.take(w@.len() as int) =~= w@);
    true
}

/// Tells whether two texts are the same up to ASCII case.
pub fn same_text_any_case(a: &str, b: &str) -> (r: bool)
    ensures
        r == (lower(a@) == lower(b@)),
{
    let x = to_lower(a);
    let y = to_lower(b);
    same_text(x.as_str(), y.as_str())
}

/// Tells whether `v` begins with the characters of `prefix`.
pub fn begins_with(v: &Vec<char>, prefix: &str) -> (r: bool)
    ensures
        r == prefix@.is_prefix_of(v@),
{
    let p = chars_of(prefix);
    if p.len() > v.len() {
        return false;
    }
    let mut i: usize = 0;
    while i < p.len()
        invariant
            i <= p@.len() <= v@.len(),
            p@ == prefix@,
            p@.take(i as int) == v@.take(i as int),
        decreases p@.len() - i,
    {
        if p[i] != v[i] {
            assert(v@.subrange(0, p@.len() as int)[i as int] == v@[i as int]);
            return false;
        }
        assert(p@.take(i + 1) =~= p@.take(i as int).push(p@[i as int]));
        assert(v@.take(i + 1) =~= v@.take(i as int).push(v@[i as int]));
        i = i + 1;
    }
    assert(p@.take(p@.len() as int) =~= p@);
    true
}

/// Where `c` first stands in `s`, if it stands there.
pub open spec fn first_at(s: Seq<char>, c: char) -> Option<int>
    decreases s.len(),
{
    if s.len() == 0 {
        None
    } else if s[0] == c {
        Some(0)
    } else {
        match first_at(s.drop_first(), c) {
            Some(k) => Some(k + 1),
            None => None,
        }
    }
}

/// What [`first_at`] gives is the least index that holds the character.
pub proof fn lemma_first_at(s: Seq<char>, c: char)
    ensures
        match first_at(s, c) {
            Some(k) => 0 <= k < s.len() && s[k] == c && forall|i: int| 0 <= i < k ==> s[i] != c,
            None => forall|i: int| 0 <= i < s.len() ==> s[i] != c,
        },
    decreases s.len(),
{
    if s.len() > 0 && s[0] != c {
        let t = s.drop_first();
        lemma_first_at(t, c);
        assert forall|i: int| 0 < i < s.len() implies s[i] == t[i - 1] by {}
    }
}

/// The least index that holds a character is what [`first_at`] gives.
pub proof fn lemma_first_at_is(s: Seq<char>, c: char, k: int)
    requires
        0 <= k < s.len(),
        s[k] == c,
        forall|i: int| 0 <= i < k ==> s[i] != c,
    ensures
        first_at(s, c) == Some(k),
{
    lemma_first_at(s, c);
}

/// Where `c` first stands in `v` at or behind `from` and before `to`, counted from `from`.
pub fn find_char(v: &Vec<char>, from: usize, to: usize, c: char) -> (r: Option<usize>)
    requires
        from <= to <= v@.len(),
    ensures
        match (r, first_at(v@.subrange(from as int, to as int), c)) {
            (Some(k), Some(j)) => k == j && from + k < to && v@[from + k] == c,
            (None, None) => true,
            _ => false,
        },
{
    let ghost s = v@.subrange(from as int, to as int);
    let mut i: usize = from;
    while i < to
        invariant
            from <= i <= to <= v@.len(),
            s == v@.subrange(from as int, to as int),
            forall|j: int| 0 <= j < i - from ==> s[j] != c,
        decreases to - i,
    {
        if v[i] == c {
            proof {
                lemma_first_at_is(s, c, i - from);
            }
            return Some(i - from);
        }
        assert(s[i - from] != c);
        i = i + 1;
    }
    proof {
        lemma_first_at(s, c);
    }
    None
}

/// `s` without the white space in front.
pub open spec fn trim_start(s: Seq<char>) -> Seq<char>
    decreases s.len(),
{
    if s.len() > 0 && is_white_space(s[0]) {
        trim_start(s.drop_first())
    } else {
        s
    }
}

/// `s` without the white space at the end.
pub open spec fn trim_end(s: Seq<char>) -> Seq<char>
    decreases s.len(),
{
    if s.len() > 0 && is_white_space(s.last()) {
        trim_end(s.drop_last())
    } else {
        s
    }
}

/// `s` without the white space around it.
pub open spec fn trim(s: Seq<char>) -> Seq<char> {
    trim_end(trim_start(s))
}

/// `s` without the run of `c` at its end.
pub open spec fn trim_end_char(s: Seq<char>, c: char) -> Seq<char>
    decreases s.len(),
{
    if s.len() > 0 && s.last() == c {
        trim_end_char(s.drop_last(), c)
    } else {
        s
    }
}

/// The bounds of what is left of `v[from..to]` once it is trimmed.
pub fn trim_bounds(v: &Vec<char>, from: usize, to: usize) -> (r: (usize, usize))
    requires
        from <= to <= v@.len(),
    ensures
        from <= r.0 <= r.1 <= to,
        v@.subrange(r.0 as int, r.1 as int) == trim(v@.subrange(from as int, to as int)),
{
    let ghost s = v@.subrange(from as int, to as int);
    let mut a: usize = from;
    while a < to && white_space(v[a])
        invariant
            from <= a <= to <= v@.len(),
            trim_start(v@.subrange(a as int, to as int)) == trim_start(s),
        decreases to - a,
    {
        assert(v@.subrange(a as int, to as int).drop_first() =~= v@.subrange(a + 1, to as int));
        a = a + 1;
    }
    let ghost t = v@.subrange(a as int, to as int);
    assert(t == trim_start(s));
    let mut b: usize = to;
    while b > a && white_space(v[b - 1])
        invariant
            a <= b <= to <= v@.len(),
            trim_end(v@.subrange(a as int, b as int)) == trim_end(t),
        decreases b - a,
    {
        assert(v@.subrange(a as int, b as int).drop_last() =~= v@.subrange(a as int, b - 1));
        b = b - 1;
    }
    (a, b)
}

/// `s` without the white space around it, as a text.
pub fn trimmed(s: &str) -> (r: String)
    ensures
        r@ == trim(s@),
{
    let v = chars_of(s);
    let (a, b) = trim_bounds(&v, 0, v.len());
    assert(v@.subrange(0, v@.len() as int) =~= v@);
    text_of(&v, a, b)
}

/// `s` without the run of `c` at its end, as a text.
pub fn without_trailing(s: &str, c: char) -> (r: String)
    ensures
        r@ == trim_end_char(s@, c),
{
    let v = chars_of(s);
    let mut b: usize = v.len();
    assert(v@.subrange(0, b as int) =~= v@);
    while b > 0 && v[b - 1] == c
        invariant
            b <= v@.len(),
            trim_end_char(v@.subrange(0, b as int), c) == trim_end_char(s@, c),
        decreases b,
    {
        assert(v@.subrange(0, b as int).drop_last() =~= v@.subrange(0, b - 1));
        b = b - 1;
    }
    text_of(&v, 0, b)
}

/// The characters of `s` up to its first white space.
pub open spec fn leading_word(s: Seq<char>) -> Seq<char>
    decreases s.len(),
{
    if s.len() == 0 || is_white_space(s[0]) {
        Seq::empty()
    } else {
        seq![s[0]] + leading_word(s.drop_first())
    }
}

/// The index of the first character at or behind `from` that is no white space.
pub fn skip_space(v: &Vec<char>, from: usize) -> (r: usize)
    requires
        from <= v@.len(),
    ensures
        from <= r <= v@.len(),
        v@.skip(r as int) == trim_start(v@.skip(from as int)),
{
    let mut a: usize = from;
    while a < v.len() && white_space(v[a])
        invariant
            from <= a <= v@.len(),
            trim_start(v@.skip(a as int)) == trim_start(v@.skip(from as int)),
        decreases v@.len() - a,
    {
        assert(v@.skip(a as int).drop_first() =~= v@.skip(a + 1));
        a = a + 1;
    }
    a
}

/// The index behind the word that begins at `from`.
pub fn word_end(v: &Vec<char>, from: usize) -> (r: usize)
    requires
        from <= v@.len(),
    ensures
        from <= r <= v@.len(),
        v@.subrange(from as int, r as int) == leading_word(v@.skip(from as int)),
{
    let ghost s = v@.skip(from as int);
    let mut a: usize = from;
    assert(v@.subrange(from as int, from as int) + leading_word(s) =~= leading_word(s));
    while a < v.len() && !white_space(v[a])
        invariant
            from <= a <= v@.len(),
            v@.subrange(from as int, a as int) + leading_word(v@.skip(a as int)) == leading_word(s),
        decreases v@.len() - a,
    {
        assert(v@.skip(a as int).drop_first() =~= v@.skip(a + 1));
        assert(v@.subrange(from as int, a + 1) + leading_word(v@.skip(a + 1)) =~= v@.subrange(
            from as int,
            a as int,
        ) + (seq![v@[a as int]] + leading_word(v@.skip(a + 1))));
        a = a + 1;
    }
    assert(v@.subrange(from as int, a as int) + Seq::<char>::empty() =~= v@.subrange(
        from as int,
        a as int,
    ));
    a
}

/// The character of a decimal digit.
pub open spec fn digit_char(d: nat) -> char {
    (48 + d) as char
}

/// `n` written in decimal, without leading zeros.
pub open spec fn decimal(n: nat) -> Seq<char>
    decreases n,
{
    if n < 10 {
        seq![digit_char(n)]
    } else {
        decimal(n / 10).push(digit_char(n % 10))
    }
}

/// Writes `n` in decimal behind `s`.
pub fn push_decimal(s: &mut String, n: u64)
    ensures
        final(s)@ == old(s)@ + decimal(n as nat),
    decreases n,
{
    if n >= 10 {
        push_decimal(s, n / 10);
    }
    let d: u8 = 48 + (n % 10) as u8;
    s.push(d as char);
    assert(d as char == digit_char((n % 10) as nat));
    assert(s@ =~= old(s)@ + decimal(n as nat));
}

/// True on the ten ASCII digits.
pub open spec fn is_digit(c: char) -> bool {
    '0' <= c <= '9'
}

/// True where `s` holds ASCII digits only.
pub open spec fn all_digits(s: Seq<char>) -> bool {
    forall|i: int| 0 <= i < s.len() ==> is_digit(#[trigger] s[i])
}

/// The number that a run of digits writes.
pub open spec fn digits_value(s: Seq<char>) -> nat
    decreases s.len(),
{
    if s.len() == 0 {
        0
    } else {
        (10 * digits_value(s.drop_last()) + (s.last() as u32 - 48)) as nat
    }
}

/// The digits of a number that may have one `+` in front.
pub open spec fn without_plus(s: Seq<char>) -> Seq<char> {
    if s.len() > 0 && s[0] == '+' {
        s.drop_first()
    } else {
        s
    }
}

/// The number that `s` writes, where it writes one that a `u32` can hold.
pub open spec fn u32_of(s: Seq<char>) -> Option<u32> {
    let d = without_plus(s);
    if d.len() > 0 && all_digits(d) && digits_value(d) <= u32::MAX {
        Some(digits_value(d) as u32)
    } else {
        None
    }
}

/// Reads a `u32` in decimal: one `+` may stand in front, then at least one digit, nothing else.
pub fn parse_u32(s: &str) -> (r: Option<u32>)
    ensures
        r == u32_of(s@),
{
    let v = chars_of(s);
    let start: usize = if v.len() > 0 && v[0] == '+' {
        1
    } else {
        0
    };
    let ghost d = without_plus(s@);
    assert(d =~= v@.subrange(start as int, v@.len() as int));
    if start == v.len() {
        return None;
    }
    let mut acc: u64 = 0;
    let mut over: bool = false;
    let mut i: usize = start;
    while i < v.len()
        invariant
            start <= i <= v@.len(),
            d == v@.subrange(start as int, v@.len() as int),
            d == without_plus(s@),
            all_digits(d.take(i - start)),
            over ==> digits_value(d.take(i - start)) > u32::MAX,
            !over ==> acc == digits_value(d.take(i - start)) && acc <= u32::MAX,
        decreases v@.len() - i,
    {
        let c = v[i];
        assert(c == d[i - start]);
        if !('0' <= c && c <= '9') {
            assert(!all_digits(d));
            return None;
        }
        assert(d.take(i + 1 - start).drop_last() =~= d.take(i - start));
        assert(d.take(i + 1 - start).last() == c);
        assert forall|j: int| 0 <= j < i + 1 - start implies is_digit(
            #[trigger] d.take(i + 1 - start)[j],
        ) by {
            if j < i - start {
                assert(d.take(i + 1 - start)[j] == d.take(i - start)[j]);
            }
        }
        if !over {
            acc = 10 * acc + (c as u32 - 48) as u64;
            if acc > 0xffff_ffff {
                over = true;
            }
        }
        i = i + 1;
    }
    assert(d.take(d.len() as int) =~= d);
    if over {
        None
    } else {
        Some(acc as u32)
    }
}

/// A number written in decimal is a run of digits that has the number as its value.
pub proof fn lemma_decimal_value(n: nat)
    ensures
        decimal(n).len() > 0,
        all_digits(decimal(n)),
        digits_value(decimal(n)) == n,
    decreases n,
{
    let s = decimal(n);
    if n < 10 {
        assert(s.drop_last() =~= Seq::<char>::empty());
        assert(digits_value(s.drop_last()) == 0);
    } else {
        lemma_decimal_value(n / 10);
        assert(s.drop_last() =~= decimal(n / 10));
        assert forall|i: int| 0 <= i < s.len() implies is_digit(#[trigger] s[i]) by {
            if i < s.len() - 1 {
                assert(s[i] == decimal(n / 10)[i]);
            }
        }
    }
}

/// Reading back a number that was written in decimal gives the number.
pub proof fn law_decimal_round_trip(n: u32)
    ensures
        u32_of(decimal(n as nat)) == Some(n),
{
    lemma_decimal_value(n as nat);
    assert(is_digit(decimal(n as nat)[0]));
}

/// Making small keeps the length, adds 32 to the code of an ASCII capital, and keeps every other
/// character.
pub proof fn law_lower_moves_only_capitals(s: Seq<char>, i: int)
    requires
        0 <= i < s.len(),
    ensures
        lower(s).len() == s.len(),
        65 <= s[i] as u32 <= 90 ==> lower(s)[i] as u32 == s[i] as u32 + 32,
        !(65 <= s[i] as u32 <= 90) ==> lower(s)[i] == s[i],
{
}

/// True where `s` is white space only.
pub open spec fn is_blank_text(s: Seq<char>) -> bool {
    forall|i: int| 0 <= i < s.len() ==> is_white_space(#[trigger] s[i])
}

/// True where `s` holds no white space.
pub open spec fn is_word(s: Seq<char>) -> bool {
    forall|i: int| 0 <= i < s.len() ==> !is_white_space(#[trigger] s[i])
}

/// White space in front goes, and nothing else.
pub proof fn law_trim_start_cuts_the_blank(before: Seq<char>, s: Seq<char>)
    requires
        is_blank_text(before),
        s.len() > 0 ==> !is_white_space(s[0]),
    ensures
        trim_start(before + s) == s,
    decreases before.len(),
{
    let t = before + s;
    if before.len() > 0 {
        assert(t[0] == before[0]);
        assert(t.drop_first() =~= before.drop_first() + s);
        assert forall|i: int| 0 <= i < before.drop_first().len() implies is_white_space(
            #[trigger] before.drop_first()[i],
        ) by {
            assert(before.drop_first()[i] == before[i + 1]);
        }
        law_trim_start_cuts_the_blank(before.drop_first(), s);
    } else {
        assert(t =~= s);
    }
}

/// White space at the end goes, and nothing else.
pub proof fn law_trim_end_cuts_the_blank(s: Seq<char>, after: Seq<char>)
    requires
        is_blank_text(after),
        s.len() > 0 ==> !is_white_space(s.last()),
    ensures
        trim_end(s + after) == s,
    decreases after.len(),
{
    let t = s + after;
    if after.len() > 0 {
        assert(t.last() == after.last());
        assert(t.drop_last() =~= s + after.drop_last());
        assert forall|i: int| 0 <= i < after.drop_last().len() implies is_white_space(
            #[trigger] after.drop_last()[i],
        ) by {
            assert(after.drop_last()[i] == after[i]);
        }
        law_trim_end_cuts_the_blank(s, after.drop_last());
    } else {
        assert(t =~= s);
    }
}

/// The white space around a text goes, and nothing else.
pub proof fn law_trim_cuts_the_blank(before: Seq<char>, s: Seq<char>, after: Seq<char>)
    requires
        is_blank_text(before),
        is_blank_text(after),
        s.len() > 0 ==> !is_white_space(s[0]) && !is_white_space(s.last()),
    ensures
        trim(before + s + after) == s,
{
    if s.len() > 0 {
        let t = s + after;
        assert(t[0] == s[0]);
        assert(before + s + after =~= before + t);
        law_trim_start_cuts_the_blank(before, t);
        law_trim_end_cuts_the_blank(s, after);
    } else {
        let all = before + s + after;
        assert forall|i: int| 0 <= i < all.len() implies is_white_space(#[trigger] all[i]) by {
            if i < before.len() {
                assert(all[i] == before[i]);
            } else {
                assert(all[i] == after[i - before.len()]);
            }
        }
        assert(all =~= all + Seq::<char>::empty());
        law_trim_start_cuts_the_blank(all, Seq::empty());
        assert(s =~= Seq::<char>::empty());
    }
}

/// The word in front ends at the white space behind it, and nowhere before.
pub proof fn law_leading_word_is_whole(word: Seq<char>, rest: Seq<char>)
    requires
        is_word(word),
        rest.len() > 0 ==> is_white_space(rest[0]),
    ensures
        leading_word(word + rest) == word,
    decreases word.len(),
{
    let t = word + rest;
    if word.len() > 0 {
        let w = word.drop_first();
        assert(t[0] == word[0]);
        assert(t.drop_first() =~= w + rest);
        assert forall|i: int| 0 <= i < w.len() implies !is_white_space(#[trigger] w[i]) by {
            assert(w[i] == word[i + 1]);
        }
        law_leading_word_is_whole(w, rest);
        assert(seq![word[0]] + w =~= word);
    } else {
        assert(t =~= rest);
        assert(word =~= Seq::<char>::empty());
    }
}

/// A run of one character at the end goes, and nothing else.
pub proof fn law_trim_end_char_cuts_the_run(s: Seq<char>, c: char, n: nat)
    requires
        s.len() > 0 ==> s.last() != c,
    ensures
        trim_end_char(s + Seq::new(n, |i: int| c), c) == s,
    decreases n,
{
    let t = s + Seq::new(n, |i: int| c);
    if n > 0 {
        assert(t.last() == c);
        assert(t.drop_last() =~= s + Seq::new((n - 1) as nat, |i: int| c));
        law_trim_end_char_cuts_the_run(s, c, (n - 1) as nat);
    } else {
        assert(t =~= s);
    }
}

/// A number in decimal: one digit below ten, and otherwise the digits of a tenth of it and then
/// its last digit; so nothing stands in front of the digits, and no zero leads.
pub proof fn law_decimal_grows_by_a_digit(n: nat, d: nat)
    requires
        d < 10,
    ensures
        decimal(d).len() == 1,
        decimal(d)[0] as u32 == 48 + d,
        n > 0 ==> decimal(10 * n + d) == decimal(n) + decimal(d),
        n > 0 ==> decimal(n)[0] != '0',
        decimal(n).len() > 0,
    decreases n,
{
    lemma_decimal_value(n);
    if n > 0 {
        assert((10 * n + d) / 10 == n && (10 * n + d) % 10 == d);
        assert(decimal(n) + decimal(d) =~= decimal(n).push(digit_char(d)));
        if n >= 10 {
            law_decimal_grows_by_a_digit(n / 10, n % 10);
            assert(decimal(n)[0] == decimal(n / 10)[0]);
        }
    }
}

/// What is read as a number is a run of digits, with at most one plus in front, each digit worth
/// ten of the next.
pub proof fn law_u32_is_its_digits(s: Seq<char>, d: nat)
    requires
        d < 10,
    ensures
        u32_of(s) is Some ==> s.len() > 0 && (s[0] == '+' ==> s.len() > 1) && forall|i: int|
            0 <= i < s.len() ==> 48 <= #[trigger] s[i] as u32 <= 57 || (i == 0 && s[i] == '+'),
        u32_of(seq![digit_char(d)]) == Some(d as u32),
        u32_of(seq!['+'].push(digit_char(d))) == Some(d as u32),
        u32_of(s) matches Some(n) ==> u32_of(s.push(digit_char(d))) == if 10 * n + d <= u32::MAX {
            Some((10 * n + d) as u32)
        } else {
            None
        },
        digit_char(d) as u32 == 48 + d,
{
    let c = digit_char(d);
    let one = seq![c];
    let plus = seq!['+'].push(c);
    reveal_with_fuel(digits_value, 2);
    assert(one.drop_last() =~= Seq::<char>::empty());
    assert(plus.drop_first() =~= one);
    assert(without_plus(one) == one && without_plus(plus) == one);
    assert(digits_value(one) == d);
    if u32_of(s) is Some {
        let w = without_plus(s);
        let t = s.push(c);
        assert(without_plus(t) =~= w.push(c));
        assert(w.push(c).drop_last() =~= w);
        assert forall|i: int| 0 <= i < w.push(c).len() implies is_digit(#[trigger] w.push(c)[i]) by {
            if i < w.len() {
                assert(w.push(c)[i] == w[i]);
            }
        }
        assert forall|i: int| 0 <= i < s.len() implies 48 <= #[trigger] s[i] as u32 <= 57 || (i == 0
            && s[i] == '+') by {
            if s[0] == '+' {
                if i > 0 {
                    assert(w[i - 1] == s[i]);
                }
            } else {
                assert(w[i] == s[i]);
            }
        }
    }
}

proof fn lemma_split_at_blank(s: Seq<char>) -> (k: (int, int))
    ensures
        0 <= k.0 <= k.1 <= s.len(),
        is_blank_text(s.take(k.0)),
        is_blank_text(s.skip(k.1)),
        k.0 < k.1 ==> !is_white_space(s[k.0]) && !is_white_space(s[k.1 - 1]),
    decreases s.len(),
{
    if s.len() == 0 {
        (0, 0)
    } else if is_white_space(s[0]) {
        let t = s.drop_first();
        let k = lemma_split_at_blank(t);
        assert forall|i: int| 0 <= i < k.0 + 1 implies is_white_space(
            #[trigger] s.take(k.0 + 1)[i],
        ) by {
            if i > 0 {
                assert(s.take(k.0 + 1)[i] == t.take(k.0)[i - 1]);
            }
        }
        assert(s.skip(k.1 + 1) =~= t.skip(k.1));
        (k.0 + 1, k.1 + 1)
    } else if is_white_space(s.last()) {
        let t = s.drop_last();
        let k = lemma_split_at_blank(t);
        assert(s.take(k.0) =~= t.take(k.0));
        assert forall|i: int| 0 <= i < s.skip(k.1).len() implies is_white_space(
            #[trigger] s.skip(k.1)[i],
        ) by {
            if i < t.skip(k.1).len() {
                assert(s.skip(k.1)[i] == t.skip(k.1)[i]);
            }
        }
        k
    } else {
        (0, s.len() as int)
    }
}

/// White space behind a text is not seen once it is trimmed.
pub proof fn lemma_trim_of_longer(s: Seq<char>, blank: Seq<char>)
    requires
        is_blank_text(blank),
    ensures
        trim(s + blank) == trim(s),
{
    let (a, b) = lemma_split_at_blank(s);
    let core = s.subrange(a, b);
    let before = s.take(a);
    let after = s.skip(b);
    if a < b {
        assert(core[0] == s[a] && core.last() == s[b - 1]);
    }
    assert(before + core + after =~= s);
    law_trim_cuts_the_blank(before, core, after);
    assert(before + core + (after + blank) =~= s + blank);
    assert forall|i: int| 0 <= i < (after + blank).len() implies is_white_space(
        #[trigger] (after + blank)[i],
    ) by {
        if i < after.len() {
            assert((after + blank)[i] == after[i]);
        } else {
            assert((after + blank)[i] == blank[i - after.len()]);
        }
    }
    law_trim_cuts_the_blank(before, core, after + blank);
}

} // verus!
