//! Text operations on Unicode scalar sequences, with their exact meaning.

use vstd::prelude::*;
use vstd::utf8::{encode_utf8, encode_utf8_decode_utf8};

verus! {

/// `String::push` appends one character to the text.
pub assume_specification[ String::push ](s: &mut String, c: char)
    ensures
        final(s)@ == old(s)@.push(c),
;

/// The characters of a text, in order.
pub fn chars_of(s: &str) -> (chars: Vec<char>)
    ensures
        chars@ == s@,
{
    let mut chars: Vec<char> = Vec::new();
    for c in it: s.chars()
        invariant
            it.seq() == s@,
            chars@ == s@.take(it.index()),
    {
        chars.push(c);
        assert(s@.take(it.index() + 1) == s@.take(it.index()).push(c));
    }
    assert(s@.take(s@.len() as int) == s@);
    chars
}

/// Whether two texts are the same.
pub fn same_text(a: &str, b: &str) -> (same: bool)
    ensures
        same == (a@ == b@),
{
    let x = a.as_bytes();
    let y = b.as_bytes();
    proof {
        encode_utf8_decode_utf8(a@);
        encode_utf8_decode_utf8(b@);
    }
    if x.len() != y.len() {
        return false;
    }
    let mut i: usize = 0;
    while i < x.len()
        invariant
            x@ == encode_utf8(a@),
            y@ == encode_utf8(b@),
            x@.len() == y@.len(),
            i <= x@.len(),
            forall|j: int| 0 <= j < i ==> x@[j] == y@[j],
        decreases x@.len() - i,
    {
        if x[i] != y[i] {
            return false;
        }
        i = i + 1;
    }
    assert(x@ == y@);
    true
}

/// The texts of a list of strings.
pub open spec fn texts(list: Seq<String>) -> Seq<Seq<char>> {
    Seq::new(list.len(), |i: int| list[i]@)
}

/// `pat` stands in `s` at position `i`.
pub open spec fn occurs_at(s: Seq<char>, pat: Seq<char>, i: int) -> bool {
    0 <= i && i + pat.len() <= s.len() && s.subrange(i, i + pat.len()) == pat
}

/// `pat` stands somewhere in `s`.
pub open spec fn has_part(s: Seq<char>, pat: Seq<char>) -> bool {
    exists|i: int| occurs_at(s, pat, i)
}

/// The first position at or after `from` at which `pat` stands in `s`.
pub open spec fn first_from(s: Seq<char>, pat: Seq<char>, from: int) -> Option<int>
    decreases s.len() + 1 - from,
{
    if from < 0 || from + pat.len() > s.len() {
        None
    } else if occurs_at(s, pat, from) {
        Some(from)
    } else {
        first_from(s, pat, from + 1)
    }
}

/// How many times a non-empty `pat` stands in `s` from position `from` on,
/// counted from the left without overlap.
pub open spec fn matches_from(s: Seq<char>, pat: Seq<char>, from: int) -> nat
    decreases s.len() + 1 - from,
{
    match first_from(s, pat, from) {
        Some(i) if pat.len() > 0 && from <= i && i + pat.len() <= s.len() => 1
            + matches_from(s, pat, i + pat.len()),
        _ => 0,
    }
}

/// `s` from position `from` on, with each occurrence of a non-empty `pat`
/// replaced by `rep`, taken from the left without overlap.
pub open spec fn replaced_from(s: Seq<char>, pat: Seq<char>, rep: Seq<char>, from: int) -> Seq<char>
    decreases s.len() + 1 - from,
{
    match first_from(s, pat, from) {
        Some(i) if pat.len() > 0 && from <= i && i + pat.len() <= s.len() => s.subrange(from, i)
            + rep + replaced_from(s, pat, rep, i + pat.len()),
        _ => s.subrange(from, s.len() as int),
    }
}

/// The part of `s` before the first occurrence of `sep`, or all of `s`.
pub open spec fn before_first(s: Seq<char>, sep: Seq<char>) -> Seq<char> {
    match first_from(s, sep, 0) {
        Some(i) => s.take(i),
        None => s,
    }
}

/// `first_from` gives a position where the pattern stands, and none before it.
pub proof fn lemma_first_from(s: Seq<char>, pat: Seq<char>, from: int)
    requires
        0 <= from,
    ensures
        match first_from(s, pat, from) {
            Some(i) => from <= i && occurs_at(s, pat, i) && forall|j: int|
                from <= j < i ==> !occurs_at(s, pat, j),
            None => forall|j: int| from <= j ==> !occurs_at(s, pat, j),
        },
    decreases s.len() + 1 - from,
{
    if from + pat.len() <= s.len() && !occurs_at(s, pat, from) {
        lemma_first_from(s, pat, from + 1);
    }
}

/// A text stands in every longer text that is made with it.
pub proof fn lemma_part_stands_in(before: Seq<char>, part: Seq<char>, after: Seq<char>)
    ensures
        has_part(before + part + after, part),
{
    let whole = before + part + after;
    assert(whole.subrange(before.len() as int, before.len() as int + part.len()) =~= part);
    assert(occurs_at(whole, part, before.len() as int));
}

/// What stands in a text stands in every longer text that is made with it.
pub proof fn lemma_has_in_longer(before: Seq<char>, s: Seq<char>, after: Seq<char>, pat: Seq<char>)
    requires
        has_part(s, pat),
    ensures
        has_part(before + s + after, pat),
{
    let i = choose|i: int| occurs_at(s, pat, i);
    let whole = before + s + after;
    let at = before.len() + i;
    assert(whole.subrange(at, at + pat.len()) =~= s.subrange(i, i + pat.len()));
    assert(occurs_at(whole, pat, at));
}

/// Whether `pat` stands in `s` at position `i`.
fn stands_at(s: &Vec<char>, pat: &Vec<char>, i: usize) -> (found: bool)
    ensures
        found == occurs_at(s@, pat@, i as int),
{
    let n = s.len();
    if pat.len() > n || i > n - pat.len() {
        return false;
    }
    let mut k: usize = 0;
    while k < pat.len()
        invariant
            k <= pat@.len(),
            i + pat@.len() <= n,
            n == s@.len(),
            forall|j: int| 0 <= j < k ==> s@[i + j] == pat@[j],
        decreases pat@.len() - k,
    {
        if s[i + k] != pat[k] {
            assert(s@.subrange(i as int, i + pat@.len())[k as int] != pat@[k as int]);
            return false;
        }
        k = k + 1;
    }
    assert(s@.subrange(i as int, i + pat@.len()) == pat@);
    true
}

/// The first position at or after `from` at which `pat` stands in `s`.
pub fn find_from(s: &Vec<char>, pat: &Vec<char>, from: usize) -> (at: Option<usize>)
    ensures
        match at {
            Some(i) => first_from(s@, pat@, from as int) == Some(i as int),
            None => first_from(s@, pat@, from as int) == None::<int>,
        },
{
    let mut i: usize = from;
    while pat.len() <= s.len() && i <= s.len() - pat.len()
        invariant
            from <= i,
            first_from(s@, pat@, from as int) == first_from(s@, pat@, i as int),
        decreases s@.len() + 1 - i,
    {
        if stands_at(s, pat, i) {
            return Some(i);
        }
        assert(i < usize::MAX) by {
            if i == usize::MAX {
                assert(s@.subrange(i as int, i as int) == pat@);
            }
        }
        i = i + 1;
    }
    None
}

/// Whether `pat` stands somewhere in `s`.
pub fn contains_text(s: &str, pat: &str) -> (found: bool)
    ensures
        found == has_part(s@, pat@),
{
    let text = chars_of(s);
    let pattern = chars_of(pat);
    proof {
        lemma_first_from(s@, pat@, 0);
    }
    match find_from(&text, &pattern, 0) {
        Some(_) => true,
        None => false,
    }
}

/// Whether `s` begins with `prefix`.
pub fn begins_with(s: &str, prefix: &str) -> (found: bool)
    ensures
        found == prefix@.is_prefix_of(s@),
{
    let text = chars_of(s);
    let pattern = chars_of(prefix);
    let found = stands_at(&text, &pattern, 0);
    proof {
        if prefix@.len() <= s@.len() {
            assert(s@.subrange(0, prefix@.len() as int) == prefix@ <==> prefix@.is_prefix_of(s@));
        }
    }
    found
}

/// How many times a non-empty `pat` stands in `s`, without overlap.
pub fn count_matches(s: &str, pat: &str) -> (count: usize)
    requires
        pat@.len() > 0,
    ensures
        count == matches_from(s@, pat@, 0),
{
    let text = chars_of(s);
    let pattern = chars_of(pat);
    let n = text.len();
    let mut count: usize = 0;
    let mut from: usize = 0;
    loop
        invariant
            n == s@.len(),
            text@ == s@,
            pattern@ == pat@,
            pat@.len() > 0,
            count <= from <= n,
            matches_from(s@, pat@, 0) == count + matches_from(s@, pat@, from as int),
        ensures
            count == matches_from(s@, pat@, 0),
            count <= s@.len(),
        decreases s@.len() - from,
    {
        proof {
            lemma_first_from(s@, pat@, from as int);
        }
        match find_from(&text, &pattern, from) {
            Some(i) => {
                count = count + 1;
                from = i + pattern.len();
            },
            None => {
                break;
            },
        }
    }
    count
}

/// Appends `chars[from..to]` to `out`.
fn push_range(out: &mut String, chars: &Vec<char>, from: usize, to: usize)
    requires
        from <= to <= chars@.len(),
    ensures
        final(out)@ == old(out)@ + chars@.subrange(from as int, to as int),
{
    let mut i: usize = from;
    assert(chars@.subrange(from as int, from as int) == Seq::<char>::empty());
    while i < to
        invariant
            from <= i <= to <= chars@.len(),
            out@ == old(out)@ + chars@.subrange(from as int, i as int),
        decreases to - i,
    {
        out.push(chars[i]);
        assert(chars@.subrange(from as int, i + 1) == chars@.subrange(from as int, i as int).push(
            chars@[i as int],
        ));
        i = i + 1;
    }
}

/// The text of `chars[from..to]`.
pub fn text_of(chars: &Vec<char>, from: usize, to: usize) -> (text: String)
    requires
        from <= to <= chars@.len(),
    ensures
        text@ == chars@.subrange(from as int, to as int),
{
    let mut text = String::new();
    push_range(&mut text, chars, from, to);
    text
}

/// `s` with each occurrence of a non-empty `pat` replaced by `rep`.
pub fn replace_all(s: &str, pat: &str, rep: &str) -> (text: String)
    requires
        pat@.len() > 0,
    ensures
        text@ == replaced_from(s@, pat@, rep@, 0),
{
    let chars = chars_of(s);
    let pattern = chars_of(pat);
    let n = chars.len();
    let mut text = String::new();
    let mut from: usize = 0;
    loop
        invariant
            n == s@.len(),
            chars@ == s@,
            pattern@ == pat@,
            pat@.len() > 0,
            from <= n,
            replaced_from(s@, pat@, rep@, 0) == text@ + replaced_from(
                s@,
                pat@,
                rep@,
                from as int,
            ),
        ensures
            from <= n,
            replaced_from(s@, pat@, rep@, 0) == text@ + s@.subrange(from as int, n as int),
        decreases s@.len() - from,
    {
        proof {
            lemma_first_from(s@, pat@, from as int);
        }
        match find_from(&chars, &pattern, from) {
            Some(i) => {
                push_range(&mut text, &chars, from, i);
                text.append(rep);
                from = i + pattern.len();
            },
            None => {
                break;
            },
        }
    }
    push_range(&mut text, &chars, from, n);
    text
}

/// The part of `s` before the first occurrence of `sep`, or all of `s`.
pub fn text_before(s: &str, sep: &str) -> (text: String)
    ensures
        text@ == before_first(s@, sep@),
{
    let chars = chars_of(s);
    let pattern = chars_of(sep);
    proof {
        lemma_first_from(s@, sep@, 0);
    }
    match find_from(&chars, &pattern, 0) {
        Some(i) => text_of(&chars, 0, i),
        None => s.to_owned(),
    }
}

/// The Unicode `White_Space` property.
pub open spec fn white_space(c: char) -> bool {
    let u = c as u32;
    ||| 0x9 <= u <= 0xd
    ||| u == 0x20
    ||| u == 0x85
    ||| u == 0xa0
    ||| u == 0x1680
    ||| 0x2000 <= u <= 0x200a
    ||| u == 0x2028
    ||| u == 0x2029
    ||| u == 0x202f
    ||| u == 0x205f
    ||| u == 0x3000
}

/// Whether a character has the Unicode `White_Space` property.
pub fn is_white_space(c: char) -> (found: bool)
    ensures
        found == white_space(c),
{
    let u = c as u32;
    (0x9 <= u && u <= 0xd) || u == 0x20 || u == 0x85 || u == 0xa0 || u == 0x1680 || (0x2000 <= u
        && u <= 0x200a) || u == 0x2028 || u == 0x2029 || u == 0x202f || u == 0x205f || u == 0x3000
}

/// `s` without its leading white space.
pub open spec fn without_leading(s: Seq<char>) -> Seq<char>
    decreases s.len(),
{
    if s.len() > 0 && white_space(s[0]) {
        without_leading(s.drop_first())
    } else {
        s
    }
}

/// `s` without its trailing white space.
pub open spec fn without_trailing(s: Seq<char>) -> Seq<char>
    decreases s.len(),
{
    if s.len() > 0 && white_space(s.last()) {
        without_trailing(s.drop_last())
    } else {
        s
    }
}

/// `s` without the white space at either end.
pub open spec fn trimmed(s: Seq<char>) -> Seq<char> {
    without_trailing(without_leading(s))
}

/// `s` without the white space at either end.
pub fn trim_text(s: &str) -> (text: String)
    ensures
        text@ == trimmed(s@),
{
    let chars = chars_of(s);
    let n = chars.len();
    let mut from: usize = 0;
    assert(s@.subrange(0, n as int) == s@);
    while from < n && is_white_space(chars[from])
        invariant
            chars@ == s@,
            n == s@.len(),
            from <= n,
            without_leading(s@) == without_leading(s@.subrange(from as int, n as int)),
        decreases n - from,
    {
        assert(s@.subrange(from as int, n as int).drop_first() == s@.subrange(from + 1, n as int));
        from = from + 1;
    }
    let ghost tail = s@.subrange(from as int, n as int);
    assert(without_leading(s@) == tail);
    let mut to: usize = n;
    while from < to && is_white_space(chars[to - 1])
        invariant
            chars@ == s@,
            n == s@.len(),
            from <= to <= n,
            without_trailing(tail) == without_trailing(s@.subrange(from as int, to as int)),
        decreases to,
    {
        assert(s@.subrange(from as int, to as int).drop_last() == s@.subrange(
            from as int,
            to - 1,
        ));
        assert(s@.subrange(from as int, to as int).last() == s@[to - 1]);
        to = to - 1;
    }
    assert(from < to ==> s@.subrange(from as int, to as int).last() == s@[to - 1]);
    text_of(&chars, from, to)
}

/// The decimal digit of value `d`.
pub open spec fn decimal_digit(d: nat) -> char {
    (48 + d) as char
}

/// The decimal notation of `n`, without leading zeros.
pub open spec fn decimal(n: nat) -> Seq<char>
    decreases n,
{
    if n < 10 {
        seq![decimal_digit(n)]
    } else {
        decimal(n / 10).push(decimal_digit(n % 10))
    }
}

/// The decimal notation of `n`, without leading zeros.
pub fn decimal_text(n: usize) -> (text: String)
    ensures
        text@ == decimal(n as nat),
    decreases n,
{
    let mut text = if n < 10 {
        String::new()
    } else {
        decimal_text(n / 10)
    };
    let digit: u8 = (n % 10) as u8;
    text.push((48 + digit) as char);
    text
}

/// The texts of `parts`, with `sep` between each two.
pub open spec fn joined(parts: Seq<Seq<char>>, sep: Seq<char>) -> Seq<char>
    decreases parts.len(),
{
    if parts.len() == 0 {
        Seq::empty()
    } else if parts.len() == 1 {
        parts[0]
    } else {
        joined(parts.drop_last(), sep) + sep + parts.last()
    }
}

/// The lower-case hexadecimal digit of value `d`.
pub open spec fn hex_digit(d: u8) -> char {
    if d < 10 {
        (48 + d) as char
    } else {
        (87 + d) as char
    }
}

/// `bytes` in lower-case hexadecimal notation, two digits each.
pub open spec fn hex(bytes: Seq<u8>) -> Seq<char>
    decreases bytes.len(),
{
    if bytes.len() == 0 {
        Seq::empty()
    } else {
        hex(bytes.drop_last()).push(hex_digit(bytes.last() / 16)).push(hex_digit(bytes.last() % 16))
    }
}

fn hex_char(d: u8) -> (c: char)
    requires
        d < 16,
    ensures
        c == hex_digit(d),
{
    if d < 10 {
        (48 + d) as char
    } else {
        (87 + d) as char
    }
}

/// `bytes` in lower-case hexadecimal notation, two digits each.
pub fn hex_text(bytes: &[u8]) -> (text: String)
    ensures
        text@ == hex(bytes@),
{
    let mut text = String::new();
    let mut i: usize = 0;
    while i < bytes.len()
        invariant
            i <= bytes@.len(),
            text@ == hex(bytes@.take(i as int)),
        decreases bytes@.len() - i,
    {
        let byte = bytes[i];
        text.push(hex_char(byte / 16));
        text.push(hex_char(byte % 16));
        assert(bytes@.take(i + 1).drop_last() == bytes@.take(i as int));
        i = i + 1;
    }
    assert(bytes@.take(bytes@.len() as int) == bytes@);
    text
}

} // verus!
