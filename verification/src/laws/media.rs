//! What is told of an image by its bytes, and of a reference by its characters.

use super::text::{begins_after, blank, law_first_place, law_no_place, law_replacing_goes_on,
    law_replacing_nothing, law_trimming, lemma_begins_after};
use crate::media_cache::{base64_bytes, cached_note, data_uri_bytes, expired, extension_of,
    filename_of, image_marker, is_data_uri, is_remote, payload_of, rewritten, sha256,
    shown_pairs, shown_path, step_for_bytes, step_for_reference, StepView};
use crate::text::{has_part, hex, occurs_at, white_space};
use std::path::PathBuf;
use vstd::prelude::*;

verus! {

/// The extension of an image goes by its first bytes, each at its place.
pub proof fn law_extension_by_bytes(b: Seq<u8>)
    ensures
        ({
            let png = b.len() >= 8 && b[0] == 0x89 && b[1] == 0x50 && b[2] == 0x4e && b[3] == 0x47
                && b[4] == 0x0d && b[5] == 0x0a && b[6] == 0x1a && b[7] == 0x0a;
            let jpg = b.len() >= 3 && b[0] == 0xff && b[1] == 0xd8 && b[2] == 0xff;
            let gif = b.len() >= 6 && b[0] == 0x47 && b[1] == 0x49 && b[2] == 0x46 && b[3] == 0x38
                && (b[4] == 0x37 || b[4] == 0x39) && b[5] == 0x61;
            let webp = b.len() >= 12 && b[0] == 0x52 && b[1] == 0x49 && b[2] == 0x46 && b[3] == 0x46
                && b[8] == 0x57 && b[9] == 0x45 && b[10] == 0x42 && b[11] == 0x50;
            &&& png ==> extension_of(b) == ".png"@
            &&& jpg ==> extension_of(b) == ".jpg"@
            &&& gif ==> extension_of(b) == ".gif"@
            &&& webp ==> extension_of(b) == ".webp"@
            &&& !png && !jpg && !gif && !webp ==> extension_of(b) == ".bin"@
        }),
{
    use_bytes(b, 0, crate::media_cache::png_signature());
    use_bytes(b, 0, crate::media_cache::jpeg_signature());
    use_bytes(b, 0, crate::media_cache::gif87_signature());
    use_bytes(b, 0, crate::media_cache::gif89_signature());
    use_bytes(b, 0, crate::media_cache::riff_signature());
    use_bytes(b, 8, crate::media_cache::webp_signature());
}

proof fn use_bytes(b: Seq<u8>, at: int, part: Seq<u8>)
    requires
        0 <= at,
    ensures
        crate::media_cache::bytes_at(b, at, part) <==> at + part.len() <= b.len() && forall|j: int|
            0 <= j < part.len() ==> b[at + j] == #[trigger] part[j],
{
    if at + part.len() <= b.len() {
        let here = b.subrange(at, at + part.len());
        if here == part {
            assert forall|j: int| 0 <= j < part.len() implies b[at + j] == #[trigger] part[j] by {
                assert(here[j] == b[at + j]);
            }
        }
        if forall|j: int| 0 <= j < part.len() ==> b[at + j] == #[trigger] part[j] {
            assert(here =~= part);
        }
    }
}

/// `s` begins with `prefix`, character by character.
pub open spec fn begins(s: Seq<char>, prefix: Seq<char>) -> bool {
    s.len() >= prefix.len() && forall|j: int|
        0 <= j < prefix.len() ==> s[j] == #[trigger] prefix[j]
}

/// A reference that begins with `data:` holds its image, one that begins with
/// `http://` or `https://` names an image elsewhere and is skipped, and any other
/// one names a file to read.
pub proof fn law_references_by_their_beginning(r: Seq<char>)
    ensures
        is_data_uri(r) <==> begins(r, seq!['d', 'a', 't', 'a', ':']),
        is_remote(r) <==> begins(r, seq!['h', 't', 't', 'p', ':', '/', '/']) || begins(
            r,
            seq!['h', 't', 't', 'p', 's', ':', '/', '/'],
        ),
        is_remote(r) ==> step_for_reference(r) == StepView::Skip,
        step_for_reference(r) == StepView::ReadFile <==> !is_data_uri(r) && !is_remote(r),
        is_data_uri(r) ==> step_for_reference(r) == step_for_bytes(data_uri_bytes(r)),
{
    reveal_strlit("data:");
    reveal_strlit("http://");
    reveal_strlit("https://");
    assert("data:"@ =~= seq!['d', 'a', 't', 'a', ':']);
    assert("http://"@ =~= seq!['h', 't', 't', 'p', ':', '/', '/']);
    assert("https://"@ =~= seq!['h', 't', 't', 'p', 's', ':', '/', '/']);
    lemma_prefix(r, "data:"@);
    lemma_prefix(r, "http://"@);
    lemma_prefix(r, "https://"@);
    if is_remote(r) {
        crate::media_cache::law_remote_images_are_not_cached(r);
    }
}

proof fn lemma_prefix(s: Seq<char>, prefix: Seq<char>)
    ensures
        prefix.is_prefix_of(s) <==> begins(s, prefix),
{
    if begins(s, prefix) {
        assert(s.subrange(0, prefix.len() as int) =~= prefix);
    }
    if prefix.is_prefix_of(s) {
        assert forall|j: int| 0 <= j < prefix.len() implies s[j] == #[trigger] prefix[j] by {
            assert(s.subrange(0, prefix.len() as int)[j] == s[j]);
        }
    }
}

/// Bytes are stored, as they are, exactly where there are any. The name of their
/// file is their digest in hexadecimal notation, and the extension.
pub proof fn law_bytes_are_stored_as_they_are(bytes: Seq<u8>)
    ensures
        step_for_bytes(None) == StepView::Skip,
        bytes.len() == 0 ==> step_for_bytes(Some(bytes)) == StepView::Skip,
        bytes.len() > 0 ==> (step_for_bytes(Some(bytes)) matches StepView::Store {
            filename,
            bytes: stored,
        } && {
            &&& stored == bytes
            &&& filename.len() == hex(sha256(bytes)).len() + extension_of(bytes).len()
            &&& filename.take(hex(sha256(bytes)).len() as int) == hex(sha256(bytes))
            &&& filename.skip(hex(sha256(bytes)).len() as int) == extension_of(bytes)
        }),
{
    let digest = hex(sha256(bytes));
    let name = filename_of(sha256(bytes), bytes);
    assert(name.take(digest.len() as int) =~= digest);
    assert(name.skip(digest.len() as int) =~= extension_of(bytes));
}

/// The payload of a data URI is what stands after the first comma, without the
/// white space around it; there is none where nothing is left, or where there is
/// no comma.
pub proof fn law_payload_follows_the_first_comma(
    head: Seq<char>,
    before: Seq<char>,
    payload: Seq<char>,
    after: Seq<char>,
)
    requires
        forall|j: int| 0 <= j < head.len() ==> #[trigger] head[j] != ',',
        blank(before),
        blank(after),
        payload.len() > 0 ==> !white_space(payload[0]) && !white_space(payload.last()),
    ensures
        payload_of(head) == None::<Seq<char>>,
        payload_of(head.push(',') + (before + payload + after)) == (if payload.len() > 0 {
            Some(payload)
        } else {
            None
        }),
        data_uri_bytes(head.push(',') + (before + payload + after)) == (if payload.len() > 0 {
            base64_bytes(payload)
        } else {
            None
        }),
{
    reveal_strlit(",");
    let comma = ","@;
    assert(comma =~= seq![',']);
    let rest = before + payload + after;
    let uri = head.push(',') + rest;
    assert(!has_part(head, comma)) by {
        if has_part(head, comma) {
            let i = choose|i: int| occurs_at(head, comma, i);
            assert(head.subrange(i, i + 1)[0] == head[i]);
        }
    }
    law_no_place(head, comma);
    lemma_begins_after(head, comma, rest);
    law_first_place(head, comma, rest);
    assert(uri =~= head + comma + rest);
    assert(uri.skip(head.len() as int + 1) =~= rest);
    law_trimming(before, payload, after);
}

/// The marker of an image and the note of a cached one hold the reference and the
/// path as they are, between the words that tell them.
pub proof fn law_markers_hold_the_reference(text: Seq<char>)
    ensures
        image_marker(text).len() == text.len() + 8,
        begins(image_marker(text), seq!['[', 'I', 'M', 'A', 'G', 'E', ':']),
        image_marker(text).subrange(7, 7int + text.len()) == text,
        image_marker(text).last() == ']',
        cached_note(text).len() == text.len() + 34,
        cached_note(text).take(33) == "[Previously seen image cached at "@,
        cached_note(text).subrange(33, 33int + text.len()) == text,
        cached_note(text).last() == ']',
{
    reveal_strlit("[IMAGE:");
    reveal_strlit("]");
    reveal_strlit("[Previously seen image cached at ");
    assert(image_marker(text).subrange(7, 7int + text.len()) =~= text);
    assert(cached_note(text).subrange(33, 33int + text.len()) =~= text);
    assert(cached_note(text).take(33) =~= "[Previously seen image cached at "@);
}

/// With one cached image, its marker in a text becomes the note, wherever it
/// stands first, and what stands before it is kept; the text after it is
/// rewritten likewise. A text without the marker is kept.
pub proof fn law_one_image_is_noted(
    a: Seq<char>,
    b: Seq<char>,
    image_ref: Seq<char>,
    path: Seq<char>,
)
    requires
        begins_after(a, image_marker(image_ref), b),
    ensures
        rewritten(a + image_marker(image_ref) + b, seq![(image_ref, path)]) == a + cached_note(path)
            + rewritten(b, seq![(image_ref, path)]),
        !has_part(b, image_marker(image_ref)) ==> rewritten(b, seq![(image_ref, path)]) == b,
{
    let one = seq![(image_ref, path)];
    let marker = image_marker(image_ref);
    reveal_strlit("[IMAGE:");
    assert(one.drop_last() =~= Seq::<(Seq<char>, Seq<char>)>::empty());
    assert(rewritten(b, one.drop_last()) == b);
    assert(rewritten(a + marker + b, one.drop_last()) == a + marker + b);
    law_replacing_goes_on(a, marker, b, cached_note(path));
    if !has_part(b, marker) {
        law_replacing_nothing(b, marker, cached_note(path));
    }
}

/// Rewriting with two lists of images is rewriting with the one and then with the
/// other.
pub proof fn law_rewriting_with_two_lists(
    content: Seq<char>,
    first: Seq<(Seq<char>, Seq<char>)>,
    second: Seq<(Seq<char>, Seq<char>)>,
)
    ensures
        rewritten(content, first + second) == rewritten(rewritten(content, first), second),
        rewritten(content, Seq::empty()) == content,
    decreases second.len(),
{
    let both = first + second;
    if second.len() == 0 {
        assert(both =~= first);
    } else {
        assert(both.last() == second.last());
        assert(both.drop_last() =~= first + second.drop_last());
        law_rewriting_with_two_lists(content, first, second.drop_last());
    }
}

/// Each image is rewritten by its own reference and its own path.
pub proof fn law_pairs_are_shown_in_order(cached: Seq<(String, PathBuf)>, i: int)
    requires
        0 <= i < cached.len(),
    ensures
        shown_pairs(cached).len() == cached.len(),
        shown_pairs(cached)[i].0 == cached[i].0@,
        shown_pairs(cached)[i].1 == shown_path(cached[i].1),
{
}

/// An entry of the cache directory is old exactly where it is a file of a known
/// age that is the greater number of nanoseconds. What is old stays old as it
/// ages, and is old for every smaller age, too.
pub proof fn law_old_entries_by_age(
    is_file: bool,
    age: u128,
    max_age: u128,
    later: u128,
    smaller: u128,
)
    requires
        later >= age,
        smaller <= max_age,
    ensures
        !expired(is_file, None, max_age),
        !expired(false, Some(age), max_age),
        expired(true, Some(age), max_age) <==> age > max_age,
        expired(is_file, Some(age), max_age) ==> expired(is_file, Some(later), smaller),
{
}

} // verus!
