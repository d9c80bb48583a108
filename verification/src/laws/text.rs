//! Searching, replacing, trimming and writing numbers.

use crate::text::{before_first, decimal, first_from, has_part, hex, joined, lemma_first_from,
    matches_from, occurs_at, replaced_from, trimmed, white_space, without_leading,
    without_trailing};
use vstd::prelude::*;

verus! {

/// A part stands at a position of a text exactly where each of its characters
/// does.
pub proof fn law_part_stands_by_characters(s: Seq<char>, pat: Seq<char>, i: int)
    ensures
        occurs_at(s, pat, i) <==> 0 <= i && i + pat.len() <= s.len() && forall|j: int|
            0 <= j < pat.len() ==> s[i + j] == #[trigger] pat[j],
{
    if 0 <= i && i + pat.len() <= s.len() {
        let part = s.subrange(i, i + pat.len());
        if occurs_at(s, pat, i) {
            assert forall|j: int| 0 <= j < pat.len() implies s[i + j] == #[trigger] pat[j] by {
                assert(part[j] == s[i + j]);
            }
        }
        if forall|j: int| 0 <= j < pat.len() ==> s[i + j] == #[trigger] pat[j] {
            assert(part =~= pat);
        }
    }
}

/// A text has a part exactly where it is made of something, the part, and
/// something.
pub proof fn law_part_of_a_text(s: Seq<char>, pat: Seq<char>)
    ensures
        has_part(s, pat) <==> exists|a: Seq<char>, b: Seq<char>| s == #[trigger] (a + pat + b),
{
    if has_part(s, pat) {
        let i = choose|i: int| occurs_at(s, pat, i);
        let a = s.take(i);
        let b = s.skip(i + pat.len());
        assert(s =~= a + s.subrange(i, i + pat.len()) + b);
        assert(s == a + pat + b);
    }
    if exists|a: Seq<char>, b: Seq<char>| s == #[trigger] (a + pat + b) {
        let (a, b) = choose|a: Seq<char>, b: Seq<char>| s == #[trigger] (a + pat + b);
        crate::text::lemma_part_stands_in(a, pat, b);
    }
}

/// `pat` does not begin in `a + pat + b` before `a` is over.
pub open spec fn begins_after(a: Seq<char>, pat: Seq<char>, b: Seq<char>) -> bool {
    forall|j: int| 0 <= j < a.len() ==> !occurs_at(a + pat + b, pat, j)
}

/// Where a character of the pattern does not stand before the pattern, the
/// pattern does not begin there.
pub proof fn lemma_begins_after(a: Seq<char>, pat: Seq<char>, b: Seq<char>)
    requires
        pat.len() > 0,
        forall|j: int| 0 <= j < a.len() ==> #[trigger] a[j] != pat[0],
    ensures
        begins_after(a, pat, b),
{
    let s = a + pat + b;
    assert forall|j: int| 0 <= j < a.len() implies !occurs_at(s, pat, j) by {
        if occurs_at(s, pat, j) {
            assert(s.subrange(j, j + pat.len())[0] == a[j]);
        }
    }
}

/// The first place of a part is where it begins first.
pub proof fn law_first_place(a: Seq<char>, pat: Seq<char>, b: Seq<char>)
    requires
        begins_after(a, pat, b),
    ensures
        first_from(a + pat + b, pat, 0) == Some(a.len() as int),
        before_first(a + pat + b, pat) == a,
{
    let s = a + pat + b;
    assert(s.subrange(a.len() as int, a.len() as int + pat.len()) =~= pat);
    assert(occurs_at(s, pat, a.len() as int));
    lemma_first_from(s, pat, 0);
    assert(s.take(a.len() as int) =~= a);
}

/// A text without the part is all before the first place of it.
pub proof fn law_no_place(s: Seq<char>, pat: Seq<char>)
    requires
        !has_part(s, pat),
    ensures
        first_from(s, pat, 0) == None::<int>,
        before_first(s, pat) == s,
        matches_from(s, pat, 0) == 0,
{
    lemma_first_from(s, pat, 0);
}

proof fn lemma_matches_skip(s: Seq<char>, pat: Seq<char>, n: int, k: int)
    requires
        0 <= n <= s.len(),
        0 <= k,
        pat.len() > 0,
    ensures
        matches_from(s, pat, n + k) == matches_from(s.skip(n), pat, k),
    decreases s.len() + 1 - n - k,
{
    let rest = s.skip(n);
    crate::media_rewrite::lemma_first_from_skips(s, pat, n, k);
    lemma_first_from(rest, pat, k);
    match first_from(rest, pat, k) {
        Some(i) => {
            lemma_matches_skip(s, pat, n, i + pat.len());
        },
        None => {},
    }
}

/// Counting counts a part that begins first, and goes on after it.
pub proof fn law_counting_goes_on(a: Seq<char>, pat: Seq<char>, b: Seq<char>)
    requires
        pat.len() > 0,
        begins_after(a, pat, b),
    ensures
        matches_from(a + pat + b, pat, 0) == 1 + matches_from(b, pat, 0),
{
    let s = a + pat + b;
    law_first_place(a, pat, b);
    let n = (a.len() + pat.len()) as int;
    assert(s.skip(n) =~= b);
    lemma_matches_skip(s, pat, n, 0);
}

/// Replacing replaces a part that begins first, and goes on after it.
pub proof fn law_replacing_goes_on(a: Seq<char>, pat: Seq<char>, b: Seq<char>, rep: Seq<char>)
    requires
        pat.len() > 0,
        begins_after(a, pat, b),
    ensures
        replaced_from(a + pat + b, pat, rep, 0) == a + rep + replaced_from(b, pat, rep, 0),
{
    let s = a + pat + b;
    law_first_place(a, pat, b);
    let n = (a.len() + pat.len()) as int;
    assert(s.skip(n) =~= b);
    crate::media_rewrite::lemma_replaced_skips(s, pat, rep, n, 0);
    assert(s.subrange(0, a.len() as int) =~= a);
}

/// A text without the part is not changed by replacing it.
pub proof fn law_replacing_nothing(s: Seq<char>, pat: Seq<char>, rep: Seq<char>)
    requires
        !has_part(s, pat),
    ensures
        replaced_from(s, pat, rep, 0) == s,
{
    crate::media_cache::lemma_replace_nothing(s, pat, rep);
}

/// A text of white space alone.
pub open spec fn blank(s: Seq<char>) -> bool {
    forall|i: int| 0 <= i < s.len() ==> white_space(#[trigger] s[i])
}

proof fn lemma_leading(a: Seq<char>, m: Seq<char>)
    requires
        blank(a),
        m.len() > 0 ==> !white_space(m[0]),
    ensures
        without_leading(a + m) == m,
    decreases a.len(),
{
    if a.len() > 0 {
        assert((a + m)[0] == a[0]);
        assert((a + m).drop_first() =~= a.drop_first() + m);
        assert forall|i: int| 0 <= i < a.drop_first().len() implies white_space(
            #[trigger] a.drop_first()[i],
        ) by {
            assert(a.drop_first()[i] == a[i + 1]);
        }
        lemma_leading(a.drop_first(), m);
    } else {
        assert(a + m =~= m);
    }
}

proof fn lemma_trailing(m: Seq<char>, b: Seq<char>)
    requires
        blank(b),
        m.len() > 0 ==> !white_space(m.last()),
    ensures
        without_trailing(m + b) == m,
    decreases b.len(),
{
    if b.len() > 0 {
        assert((m + b).last() == b[b.len() - 1]);
        assert((m + b).drop_last() =~= m + b.drop_last());
        assert forall|i: int| 0 <= i < b.drop_last().len() implies white_space(
            #[trigger] b.drop_last()[i],
        ) by {
            assert(b.drop_last()[i] == b[i]);
        }
        lemma_trailing(m, b.drop_last());
    } else {
        assert(m + b =~= m);
    }
}

/// Trimming takes the white space off both ends of a text, and nothing else.
pub proof fn law_trimming(a: Seq<char>, m: Seq<char>, b: Seq<char>)
    requires
        blank(a),
        blank(b),
        m.len() > 0 ==> !white_space(m[0]) && !white_space(m.last()),
    ensures
        trimmed(a + m + b) == m,
{
    if m.len() > 0 {
        assert((m + b)[0] == m[0]);
        assert(a + m + b =~= a + (m + b));
        lemma_leading(a, m + b);
        lemma_trailing(m, b);
    } else {
        let all = a + b;
        assert(a + m + b =~= all + m);
        assert forall|i: int| 0 <= i < all.len() implies white_space(#[trigger] all[i]) by {
            if i < a.len() {
                assert(all[i] == a[i]);
            } else {
                assert(all[i] == b[i - a.len()]);
            }
        }
        lemma_leading(all, m);
    }
}

/// A text is blank exactly where nothing is left of it after trimming.
pub proof fn law_blank_texts_trim_to_nothing(s: Seq<char>)
    ensures
        trimmed(s).len() == 0 <==> blank(s),
{
    if blank(s) {
        law_trimming(s, Seq::empty(), Seq::empty());
        assert(s + Seq::<char>::empty() + Seq::<char>::empty() =~= s);
    } else {
        lemma_something_stays(s);
    }
}

proof fn lemma_something_stays(s: Seq<char>)
    requires
        !blank(s),
    ensures
        trimmed(s).len() > 0,
    decreases s.len(),
{
    let k = choose|k: int| 0 <= k < s.len() && !white_space(#[trigger] s[k]);
    if white_space(s[0]) {
        let rest = s.drop_first();
        assert(rest[k - 1] == s[k]);
        lemma_something_stays(rest);
    } else {
        lemma_front_stays(s);
    }
}

proof fn lemma_front_stays(s: Seq<char>)
    requires
        s.len() > 0,
        !white_space(s[0]),
    ensures
        without_trailing(s).len() > 0,
    decreases s.len(),
{
    if white_space(s.last()) {
        assert(s.drop_last()[0] == s[0]);
        lemma_front_stays(s.drop_last());
    }
}

/// The number that decimal digits stand for.
pub open spec fn number_of(digits: Seq<char>) -> int
    decreases digits.len(),
{
    if digits.len() == 0 {
        0
    } else {
        10 * number_of(digits.drop_last()) + (digits.last() as int - '0' as int)
    }
}

/// The decimal notation of a number is made of digits, stands for that number,
/// and begins with a zero only where it is nothing else.
pub proof fn law_decimal_stands_for_the_number(n: nat)
    ensures
        decimal(n).len() > 0,
        forall|i: int| 0 <= i < decimal(n).len() ==> '0' <= #[trigger] decimal(n)[i] <= '9',
        number_of(decimal(n)) == n,
        decimal(n)[0] == '0' ==> n == 0 && decimal(n).len() == 1,
    decreases n,
{
    let text = decimal(n);
    if n < 10 {
        assert(text.drop_last() =~= Seq::empty());
        assert(number_of(Seq::<char>::empty()) == 0);
        assert(text.last() as int == 48 + n);
    } else {
        law_decimal_stands_for_the_number(n / 10);
        assert(text.drop_last() =~= decimal(n / 10));
        assert(text.last() as int == 48 + n % 10);
        assert forall|i: int| 0 <= i < text.len() implies '0' <= #[trigger] text[i] <= '9' by {
            if i < decimal(n / 10).len() {
                assert(text[i] == decimal(n / 10)[i]);
            }
        }
        assert(text[0] == decimal(n / 10)[0]);
    }
}

/// Each byte is written as two digits, the digit of its sixteens first.
pub proof fn law_hex_digits_of_each_byte(bytes: Seq<u8>, i: int)
    requires
        0 <= i < bytes.len(),
    ensures
        hex(bytes).len() == 2 * bytes.len(),
        hex(bytes)[2 * i] == "0123456789abcdef"@[bytes[i] as int / 16],
        hex(bytes)[2 * i + 1] == "0123456789abcdef"@[bytes[i] as int % 16],
    decreases bytes.len(),
{
    reveal_strlit("0123456789abcdef");
    crate::media_cache::lemma_hex_len(bytes);
    crate::media_cache::lemma_hex_len(bytes.drop_last());
    let last = bytes.len() - 1;
    if i < last {
        law_hex_digits_of_each_byte(bytes.drop_last(), i);
        assert(hex(bytes)[2 * i] == hex(bytes.drop_last())[2 * i]);
        assert(hex(bytes)[2 * i + 1] == hex(bytes.drop_last())[2 * i + 1]);
    }
}

/// Joining two lists of texts is joining each and putting the separator between.
pub proof fn law_joining_lists(a: Seq<Seq<char>>, b: Seq<Seq<char>>, sep: Seq<char>)
    requires
        a.len() > 0,
        b.len() > 0,
    ensures
        joined(a + b, sep) == joined(a, sep) + sep + joined(b, sep),
    decreases b.len(),
{
    let all = a + b;
    assert(all.last() == b.last());
    assert(all.drop_last() =~= a + b.drop_last());
    if b.len() == 1 {
        assert(all.drop_last() =~= a);
    } else {
        law_joining_lists(a, b.drop_last(), sep);
        let x = joined(a, sep);
        let y = joined(b.drop_last(), sep);
        assert(x + sep + y + sep + b.last() =~= x + sep + (y + sep + b.last()));
    }
}

/// Nothing joined is nothing, and one text joined is that text.
pub proof fn law_joining_one(part: Seq<char>, sep: Seq<char>)
    ensures
        joined(Seq::empty(), sep) == Seq::<char>::empty(),
        joined(seq![part], sep) == part,
{
}

} // verus!
