//! What rewriting the markers of cached images comes to as a whole.

use crate::media_cache::{apart, cached_note, image_marker, law_cached_markers_are_replaced,
    law_unbracketed_markers_are_apart, lemma_marker_opens_once, lemma_note_opens_once, rewritten,
    unbracketed};
use crate::text::{first_from, has_part, lemma_first_from, occurs_at, replaced_from};
use vstd::prelude::*;

verus! {

/// The first of the cached images whose marker stands in `content` at position
/// `at`.
pub open spec fn first_image_at(
    content: Seq<char>,
    cached: Seq<(Seq<char>, Seq<char>)>,
    at: int,
) -> Option<int>
    decreases cached.len(),
{
    if cached.len() == 0 {
        None
    } else {
        match first_image_at(content, cached.drop_last(), at) {
            Some(k) => Some(k),
            None => if occurs_at(content, image_marker(cached.last().0), at) {
                Some(cached.len() - 1)
            } else {
                None
            },
        }
    }
}

/// `first_image_at` gives an image whose marker stands there, and no marker of
/// an image before it does.
pub proof fn lemma_first_image_at(
    content: Seq<char>,
    cached: Seq<(Seq<char>, Seq<char>)>,
    at: int,
)
    ensures
        match first_image_at(content, cached, at) {
            Some(k) => 0 <= k < cached.len() && occurs_at(content, image_marker(cached[k].0), at)
                && forall|j: int|
                0 <= j < k ==> !occurs_at(content, image_marker((#[trigger] cached[j]).0), at),
            None => forall|j: int|
                0 <= j < cached.len() ==> !occurs_at(
                    content,
                    image_marker((#[trigger] cached[j]).0),
                    at,
                ),
        },
    decreases cached.len(),
{
    if cached.len() > 0 {
        let init = cached.drop_last();
        lemma_first_image_at(content, init, at);
        assert forall|j: int| 0 <= j < init.len() implies #[trigger] cached[j] == init[j] by {}
    }
}

/// `content` from position `from` on, read once from the left: where the marker
/// of a cached image stands, the note of the first such image takes its place,
/// and every other character is kept.
pub open spec fn noted_from(
    content: Seq<char>,
    cached: Seq<(Seq<char>, Seq<char>)>,
    from: int,
) -> Seq<char>
    decreases content.len() - from,
{
    if from < 0 || from >= content.len() {
        Seq::empty()
    } else {
        proof {
            reveal_strlit("[IMAGE:");
            lemma_first_image_at(content, cached, from);
        }
        match first_image_at(content, cached, from) {
            Some(k) => cached_note(cached[k].1) + noted_from(
                content,
                cached,
                from + image_marker(cached[k].0).len(),
            ),
            None => seq![content[from]] + noted_from(content, cached, from + 1),
        }
    }
}

/// No reference and no path of the cached images holds an opening square bracket.
pub open spec fn all_unbracketed(cached: Seq<(Seq<char>, Seq<char>)>) -> bool {
    forall|k: int|
        0 <= k < cached.len() ==> unbracketed((#[trigger] cached[k]).0) && unbracketed(cached[k].1)
}

pub proof fn lemma_first_from_skips(s: Seq<char>, pat: Seq<char>, n: int, k: int)
    requires
        0 <= n <= s.len(),
        0 <= k,
    ensures
        match first_from(s.skip(n), pat, k) {
            Some(i) => first_from(s, pat, n + k) == Some(n + i),
            None => first_from(s, pat, n + k) == None::<int>,
        },
    decreases s.len() + 1 - n - k,
{
    let rest = s.skip(n);
    if k + pat.len() <= rest.len() {
        assert(rest.subrange(k, k + pat.len()) =~= s.subrange(n + k, n + k + pat.len()));
        if !occurs_at(rest, pat, k) {
            lemma_first_from_skips(s, pat, n, k + 1);
        }
    }
}

/// Replacing from a position on is replacing in what follows it.
pub proof fn lemma_replaced_skips(s: Seq<char>, pat: Seq<char>, rep: Seq<char>, n: int, k: int)
    requires
        0 <= n <= s.len(),
        0 <= k <= s.len() - n,
        pat.len() > 0,
    ensures
        replaced_from(s, pat, rep, n + k) == replaced_from(s.skip(n), pat, rep, k),
    decreases s.len() - n - k,
{
    let rest = s.skip(n);
    lemma_first_from_skips(s, pat, n, k);
    lemma_first_from(rest, pat, k);
    match first_from(rest, pat, k) {
        Some(i) => {
            lemma_replaced_skips(s, pat, rep, n, i + pat.len());
            assert(rest.subrange(k, i) =~= s.subrange(n + k, n + i));
        },
        None => {
            assert(rest.subrange(k, rest.len() as int) =~= s.subrange(n + k, s.len() as int));
        },
    }
}

/// A beginning in which no pattern starts is kept.
pub proof fn lemma_beginning_is_kept(u: Seq<char>, v: Seq<char>, pat: Seq<char>, rep: Seq<char>)
    requires
        pat.len() > 0,
        forall|j: int| 0 <= j < u.len() ==> !occurs_at(u + v, pat, j),
    ensures
        replaced_from(u + v, pat, rep, 0) == u + replaced_from(v, pat, rep, 0),
{
    let s = u + v;
    let n = u.len() as int;
    assert(s.skip(n) =~= v);
    lemma_first_from(s, pat, 0);
    lemma_first_from(s, pat, n);
    lemma_replaced_skips(s, pat, rep, n, 0);
    match first_from(s, pat, n) {
        Some(i) => {
            match first_from(s, pat, 0) {
                Some(j) => {
                    assert(j >= n);
                    assert(i == j);
                },
                None => {},
            }
            let rest = replaced_from(s, pat, rep, i + pat.len());
            assert(s.subrange(0, i) + rep + rest =~= u + (s.subrange(n, i) + rep + rest));
        },
        None => {
            match first_from(s, pat, 0) {
                Some(j) => {
                    assert(j >= n);
                },
                None => {},
            }
            assert(s.subrange(0, s.len() as int) =~= u + s.subrange(n, s.len() as int));
        },
    }
}

/// Where no opening bracket stands, nothing is replaced.
proof fn lemma_unbracketed_is_kept(
    content: Seq<char>,
    cached: Seq<(Seq<char>, Seq<char>)>,
    from: int,
    to: int,
)
    requires
        0 <= from <= to <= content.len(),
        all_unbracketed(cached),
        forall|j: int| from <= j < to ==> #[trigger] content[j] != '[',
    ensures
        noted_from(content, cached, from) == content.subrange(from, to) + noted_from(
            content,
            cached,
            to,
        ),
    decreases to - from,
{
    let rest = noted_from(content, cached, to);
    if from == to {
        assert(content.subrange(from, to) + rest =~= rest);
    } else {
        lemma_first_image_at(content, cached, from);
        match first_image_at(content, cached, from) {
            Some(k) => {
                lemma_marker_opens_once(cached[k].0);
                let marker = image_marker(cached[k].0);
                assert(content.subrange(from, from + marker.len())[0] == content[from]);
            },
            None => {},
        }
        lemma_unbracketed_is_kept(content, cached, from + 1, to);
        assert(seq![content[from]] + (content.subrange(from + 1, to) + rest) =~= content.subrange(
            from,
            to,
        ) + rest);
    }
}

/// Where what is read has no opening bracket, nothing was replaced.
proof fn lemma_unbracketed_was_kept(
    content: Seq<char>,
    cached: Seq<(Seq<char>, Seq<char>)>,
    from: int,
    n: int,
)
    requires
        0 <= from <= content.len(),
        all_unbracketed(cached),
        0 <= n <= noted_from(content, cached, from).len(),
        forall|j: int| 0 <= j < n ==> #[trigger] noted_from(content, cached, from)[j] != '[',
    ensures
        from + n <= content.len(),
        content.subrange(from, from + n) == noted_from(content, cached, from).take(n),
    decreases n,
{
    let text = noted_from(content, cached, from);
    if n == 0 {
        assert(content.subrange(from, from) =~= text.take(0));
    } else {
        lemma_first_image_at(content, cached, from);
        assert(text[0] != '[');
        match first_image_at(content, cached, from) {
            Some(k) => {
                lemma_marker_opens_once(cached[k].0);
                lemma_note_opens_once(cached[k].1);
                assert(text[0] == cached_note(cached[k].1)[0]);
            },
            None => {},
        }
        let rest = noted_from(content, cached, from + 1);
        assert(text == seq![content[from]] + rest);
        assert forall|j: int| 0 <= j < n - 1 implies #[trigger] rest[j] != '[' by {
            assert(rest[j] == text[j + 1]);
        }
        lemma_unbracketed_was_kept(content, cached, from + 1, n - 1);
        assert forall|j: int| 0 <= j < n implies content.subrange(from, from + n)[j] == text.take(
            n,
        )[j] by {
            if j > 0 {
                assert(content.subrange(from + 1, from + n)[j - 1] == rest.take(n - 1)[j - 1]);
            }
        }
        assert(content.subrange(from, from + n) =~= text.take(n));
    }
}

/// Replacing the marker of one more image in a text read with the others is
/// reading it with that image, too.
proof fn lemma_one_more_image(
    content: Seq<char>,
    cached: Seq<(Seq<char>, Seq<char>)>,
    from: int,
)
    requires
        cached.len() > 0,
        all_unbracketed(cached),
        0 <= from <= content.len(),
    ensures
        replaced_from(
            noted_from(content, cached.drop_last(), from),
            image_marker(cached.last().0),
            cached_note(cached.last().1),
            0,
        ) == noted_from(content, cached, from),
    decreases content.len() - from,
{
    let init = cached.drop_last();
    let pat = image_marker(cached.last().0);
    let note = cached_note(cached.last().1);
    let text = noted_from(content, init, from);
    let last = cached.len() - 1;
    assert(cached[last] == cached.last());
    assert forall|k: int| 0 <= k < init.len() implies #[trigger] init[k] == cached[k] by {}
    lemma_marker_opens_once(cached.last().0);
    lemma_first_image_at(content, init, from);
    lemma_first_image_at(content, cached, from);
    if from == content.len() {
        assert(replaced_from(text, pat, note, 0) =~= Seq::empty()) by {
            lemma_first_from(text, pat, 0);
        }
    } else {
        match first_image_at(content, init, from) {
            Some(k) => {
                let marker = image_marker(init[k].0);
                let other = cached_note(init[k].1);
                lemma_marker_opens_once(init[k].0);
                let rest = noted_from(content, init, from + marker.len());
                law_unbracketed_markers_are_apart(cached.last().0, init[k].1);
                assert forall|j: int| 0 <= j < other.len() implies !occurs_at(
                    other + rest,
                    pat,
                    j,
                ) by {
                    assert(Seq::<char>::empty() + other + rest =~= other + rest);
                    if occurs_at(Seq::<char>::empty() + other + rest, pat, j) {
                    }
                }
                lemma_beginning_is_kept(other, rest, pat, note);
                lemma_one_more_image(content, cached, from + marker.len());
            },
            None => {
                let rest = noted_from(content, init, from + 1);
                let first = seq![content[from]];
                assert(text == first + rest);
                let m = pat.len() as int;
                if occurs_at(content, pat, from) {
                    assert forall|j: int| from + 1 <= j < from + m implies #[trigger] content[j]
                        != '[' by {
                        assert(content.subrange(from, from + m)[j - from] == pat[j - from]);
                    }
                    lemma_unbracketed_is_kept(content, init, from + 1, from + m);
                    let tail = noted_from(content, init, from + m);
                    assert(text =~= content.subrange(from, from + m) + tail);
                    assert(text.subrange(0, m) =~= pat);
                    assert(occurs_at(text, pat, 0));
                    assert(text.skip(m) =~= tail);
                    lemma_replaced_skips(text, pat, note, m, 0);
                    lemma_one_more_image(content, cached, from + m);
                    assert(replaced_from(text, pat, note, 0) == text.subrange(0, 0) + note
                        + replaced_from(text, pat, note, m));
                    assert(text.subrange(0, 0) + note =~= note);
                } else {
                    assert(!occurs_at(first + rest, pat, 0)) by {
                        if occurs_at(text, pat, 0) {
                            assert forall|j: int| 0 <= j < m - 1 implies #[trigger] rest[j]
                                != '[' by {
                                assert(text.subrange(0, m)[j + 1] == rest[j]);
                            }
                            lemma_unbracketed_was_kept(content, init, from + 1, m - 1);
                            assert forall|j: int| 0 <= j < m implies content.subrange(
                                from,
                                from + m,
                            )[j] == pat[j] by {
                                assert(text.subrange(0, m)[j] == pat[j]);
                                if j > 0 {
                                    assert(content.subrange(from + 1, from + m)[j - 1]
                                        == rest.take(m - 1)[j - 1]);
                                }
                            }
                            assert(content.subrange(from, from + m) =~= pat);
                        }
                    }
                    lemma_beginning_is_kept(first, rest, pat, note);
                    lemma_one_more_image(content, cached, from + 1);
                }
            },
        }
    }
}

proof fn lemma_no_images(content: Seq<char>, from: int)
    requires
        0 <= from <= content.len(),
    ensures
        noted_from(content, Seq::empty(), from) == content.skip(from),
    decreases content.len() - from,
{
    if from < content.len() {
        lemma_no_images(content, from + 1);
        assert(seq![content[from]] + content.skip(from + 1) =~= content.skip(from));
    } else {
        assert(content.skip(from) =~= Seq::empty());
    }
}

/// Where no reference and no path of the cached images holds an opening square
/// bracket, rewriting reads a text once: each marker of a cached image becomes
/// the note of the first such image, and all other text is kept, markers of
/// other images among it. No marker of a cached image is left.
pub proof fn law_rewriting_reads_the_text_once(
    content: Seq<char>,
    cached: Seq<(Seq<char>, Seq<char>)>,
)
    requires
        all_unbracketed(cached),
    ensures
        rewritten(content, cached) == noted_from(content, cached, 0),
        forall|k: int|
            0 <= k < cached.len() ==> !has_part(
                rewritten(content, cached),
                image_marker((#[trigger] cached[k]).0),
            ),
    decreases cached.len(),
{
    if cached.len() == 0 {
        assert(cached =~= Seq::empty());
        lemma_no_images(content, 0);
        assert(content.skip(0) =~= content);
    } else {
        let init = cached.drop_last();
        assert forall|k: int| 0 <= k < init.len() implies #[trigger] init[k] == cached[k] by {}
        law_rewriting_reads_the_text_once(content, init);
        lemma_one_more_image(content, cached, 0);
    }
    assert forall|k: int| 0 <= k < cached.len() implies !has_part(
        rewritten(content, cached),
        image_marker((#[trigger] cached[k]).0),
    ) by {
        assert forall|j: int| 0 <= j < cached.len() implies apart(
            image_marker(cached[k].0),
            cached_note((#[trigger] cached[j]).1),
        ) by {
            law_unbracketed_markers_are_apart(cached[k].0, cached[j].1);
        }
        law_cached_markers_are_replaced(content, cached, k);
    }
}

} // verus!
