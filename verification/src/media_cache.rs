//! Caches image data extracted from conversation messages before they are
//! pruned or compressed, allowing later re-read via filesystem markers.

use crate::media_clean::{CleanupRun, CleanupView};
use crate::media_save::{SaveRun, SaveView};
use crate::message::{ChatMessage, MessageView};
use crate::text::{begins_with, chars_of, contains_text, find_from, first_from, has_part, hex, hex_text,
    lemma_first_from, occurs_at, replace_all, replaced_from, text_of, texts, trim_text, trimmed};
use base64::Engine;
use sha2::Digest;
use std::path::PathBuf;
use vstd::prelude::*;

verus! {

/// `std::path::PathBuf`, a path of the file system.
#[verifier::external_type_specification]
#[verifier::external_body]
pub struct ExPathBuf(std::path::PathBuf);

/// `base64::DecodeError`, why a text is not base64.
#[verifier::external_type_specification]
#[verifier::external_body]
pub struct ExDecodeError(base64::DecodeError);

/// A path as it is shown.
pub uninterp spec fn shown_path(path: PathBuf) -> Seq<char>;

/// The SHA-256 digest of some bytes.
pub uninterp spec fn sha256(data: Seq<u8>) -> Seq<u8>;

/// The bytes that a text stands for in standard base64 with padding, if it
/// stands for any.
pub uninterp spec fn base64_bytes(text: Seq<char>) -> Option<Seq<u8>>;

/// `Path::display` shows a path as a text. What text it is, is left to std.
#[verifier::external_body]
fn path_text(path: &PathBuf) -> (text: String)
    ensures
        text@ == shown_path(*path),
{
    path.display().to_string()
}

/// `Sha256::digest` gives the digest of some bytes, which has 32 bytes. What
/// bytes they are, is left to the `sha2` crate.
#[verifier::external_body]
fn sha256_digest(data: &[u8]) -> (digest: Vec<u8>)
    ensures
        digest@ == sha256(data@),
        digest@.len() == 32,
{
    sha2::Sha256::digest(data).to_vec()
}

/// `Engine::decode` of the standard engine of the `base64` crate gives the bytes
/// that a text stands for, or an error where it stands for none. What bytes
/// they are, is left to the crate.
#[verifier::external_body]
fn base64_decode(text: &str) -> (result: Result<Vec<u8>, base64::DecodeError>)
    ensures
        match result {
            Ok(bytes) => base64_bytes(text@) == Some(bytes@),
            Err(_) => base64_bytes(text@) == None::<Seq<u8>>,
        },
{
    base64::engine::general_purpose::STANDARD.decode(text)
}

/// The SHA-256 digest of some bytes, in lower-case hexadecimal notation.
pub fn sha256_hex(data: &[u8]) -> (text: String)
    ensures
        text@ == hex(sha256(data@)),
        text@.len() == 64,
{
    let digest = sha256_digest(data);
    proof {
        lemma_hex_len(digest@);
    }
    hex_text(digest.as_slice())
}

/// Hexadecimal notation has two digits for each byte.
pub proof fn lemma_hex_len(bytes: Seq<u8>)
    ensures
        hex(bytes).len() == 2 * bytes.len(),
    decreases bytes.len(),
{
    if bytes.len() > 0 {
        lemma_hex_len(bytes.drop_last());
    }
}

/// The bytes that a PNG file begins with.
pub open spec fn png_signature() -> Seq<u8> {
    seq![0x89u8, 0x50, 0x4e, 0x47, 0x0d, 0x0a, 0x1a, 0x0a]
}

/// The bytes that a JPEG file begins with.
pub open spec fn jpeg_signature() -> Seq<u8> {
    seq![0xffu8, 0xd8, 0xff]
}

/// `GIF87a`.
pub open spec fn gif87_signature() -> Seq<u8> {
    seq![0x47u8, 0x49, 0x46, 0x38, 0x37, 0x61]
}

/// `GIF89a`.
pub open spec fn gif89_signature() -> Seq<u8> {
    seq![0x47u8, 0x49, 0x46, 0x38, 0x39, 0x61]
}

/// `RIFF`.
pub open spec fn riff_signature() -> Seq<u8> {
    seq![0x52u8, 0x49, 0x46, 0x46]
}

/// `WEBP`.
pub open spec fn webp_signature() -> Seq<u8> {
    seq![0x57u8, 0x45, 0x42, 0x50]
}

/// `part` stands in `bytes` at position `at`.
pub open spec fn bytes_at(bytes: Seq<u8>, at: int, part: Seq<u8>) -> bool {
    at + part.len() <= bytes.len() && bytes.subrange(at, at + part.len()) == part
}

/// The file extension that goes with the first bytes of an image.
pub open spec fn extension_of(bytes: Seq<u8>) -> Seq<char> {
    if bytes_at(bytes, 0, png_signature()) {
        ".png"@
    } else if bytes_at(bytes, 0, jpeg_signature()) {
        ".jpg"@
    } else if bytes_at(bytes, 0, gif87_signature()) || bytes_at(bytes, 0, gif89_signature()) {
        ".gif"@
    } else if bytes_at(bytes, 0, riff_signature()) && bytes_at(bytes, 8, webp_signature()) {
        ".webp"@
    } else {
        ".bin"@
    }
}

fn has_bytes_at(bytes: &[u8], at: usize, part: &[u8]) -> (found: bool)
    ensures
        found == bytes_at(bytes@, at as int, part@),
{
    let n = bytes.len();
    if part.len() > n || at > n - part.len() {
        return false;
    }
    let mut k: usize = 0;
    while k < part.len()
        invariant
            n == bytes@.len(),
            at + part@.len() <= n,
            k <= part@.len(),
            forall|j: int| 0 <= j < k ==> bytes@[at + j] == part@[j],
        decreases part@.len() - k,
    {
        if bytes[at + k] != part[k] {
            assert(bytes@.subrange(at as int, at + part@.len())[k as int] != part@[k as int]);
            return false;
        }
        k = k + 1;
    }
    assert(bytes@.subrange(at as int, at + part@.len()) =~= part@);
    true
}

/// The file extension that goes with the first bytes of an image.
pub fn guess_extension(bytes: &[u8]) -> (extension: &'static str)
    ensures
        extension@ == extension_of(bytes@),
{
    let png: [u8; 8] = [0x89, 0x50, 0x4e, 0x47, 0x0d, 0x0a, 0x1a, 0x0a];
    let jpeg: [u8; 3] = [0xff, 0xd8, 0xff];
    let gif87: [u8; 6] = [0x47, 0x49, 0x46, 0x38, 0x37, 0x61];
    let gif89: [u8; 6] = [0x47, 0x49, 0x46, 0x38, 0x39, 0x61];
    let riff: [u8; 4] = [0x52, 0x49, 0x46, 0x46];
    let webp: [u8; 4] = [0x57, 0x45, 0x42, 0x50];
    proof {
        assert(png@ =~= png_signature());
        assert(jpeg@ =~= jpeg_signature());
        assert(gif87@ =~= gif87_signature());
        assert(gif89@ =~= gif89_signature());
        assert(riff@ =~= riff_signature());
        assert(webp@ =~= webp_signature());
    }
    if has_bytes_at(bytes, 0, &png) {
        ".png"
    } else if has_bytes_at(bytes, 0, &jpeg) {
        ".jpg"
    } else if has_bytes_at(bytes, 0, &gif87) || has_bytes_at(bytes, 0, &gif89) {
        ".gif"
    } else if has_bytes_at(bytes, 0, &riff) && has_bytes_at(bytes, 8, &webp) {
        ".webp"
    } else {
        ".bin"
    }
}

/// The payload of a data URI: what follows the first comma, without the white
/// space around it, where that is not empty.
pub open spec fn payload_of(uri: Seq<char>) -> Option<Seq<char>> {
    match first_from(uri, ","@, 0) {
        Some(i) => if trimmed(uri.skip(i + 1)).len() > 0 {
            Some(trimmed(uri.skip(i + 1)))
        } else {
            None
        },
        None => None,
    }
}

/// The payload of a data URI: what follows the first comma, without the white
/// space around it, where that is not empty.
pub fn data_uri_payload(uri: &str) -> (payload: Option<String>)
    ensures
        match payload {
            Some(text) => payload_of(uri@) == Some(text@),
            None => payload_of(uri@) == None::<Seq<char>>,
        },
{
    let chars = chars_of(uri);
    let comma = chars_of(",");
    proof {
        reveal_strlit(",");
        lemma_first_from(uri@, ","@, 0);
    }
    let n = chars.len();
    match find_from(&chars, &comma, 0) {
        Some(i) => {
            assert(i + 1 <= n);
            let rest = text_of(&chars, i + 1, n);
            assert(rest@ =~= uri@.skip(i + 1));
            let payload = trim_text(rest.as_str());
            if payload.as_str().is_empty() {
                None
            } else {
                Some(payload)
            }
        },
        None => None,
    }
}

/// The bytes that a data URI holds.
pub open spec fn data_uri_bytes(uri: Seq<char>) -> Option<Seq<u8>> {
    match payload_of(uri) {
        Some(payload) => base64_bytes(payload),
        None => None,
    }
}

/// Decode a `data:...;base64,...` URI into raw bytes.
pub fn decode_data_uri(uri: &str) -> (bytes: Option<Vec<u8>>)
    ensures
        match bytes {
            Some(b) => data_uri_bytes(uri@) == Some(b@),
            None => data_uri_bytes(uri@) == None::<Seq<u8>>,
        },
        payload_of(uri@) is None ==> bytes is None,
{
    match data_uri_payload(uri) {
        Some(payload) => match base64_decode(payload.as_str()) {
            Ok(bytes) => Some(bytes),
            Err(_) => None,
        },
        None => None,
    }
}

/// The name of the file that caches some bytes with the given digest: the digest
/// in hexadecimal notation, and the extension that goes with the bytes.
pub open spec fn filename_of(digest: Seq<u8>, bytes: Seq<u8>) -> Seq<char> {
    hex(digest) + extension_of(bytes)
}

/// The name of the file that caches some bytes with the given digest.
pub fn cache_filename(digest_hex: &str, bytes: &[u8]) -> (name: String)
    ensures
        name@ == digest_hex@ + extension_of(bytes@),
{
    digest_hex.to_owned().concat(guess_extension(bytes))
}

/// What is to be done to cache an image.
#[derive(Debug, Clone)]
pub enum CacheStep {
    /// The image is not cached.
    Skip,
    /// The file that the image reference names is to be read.
    ReadFile,
    /// The bytes are to stand in the cache directory under the given name.
    Store { filename: String, bytes: Vec<u8> },
}

/// What is to be done to cache an image, with the texts.
pub enum StepView {
    Skip,
    ReadFile,
    Store { filename: Seq<char>, bytes: Seq<u8> },
}

impl View for CacheStep {
    type V = StepView;

    open spec fn view(&self) -> StepView {
        match self {
            CacheStep::Skip => StepView::Skip,
            CacheStep::ReadFile => StepView::ReadFile,
            CacheStep::Store { filename, bytes } => StepView::Store {
                filename: filename@,
                bytes: bytes@,
            },
        }
    }
}

/// What is to be done with the bytes of an image: nothing where there are none.
pub open spec fn step_for_bytes(bytes: Option<Seq<u8>>) -> StepView {
    match bytes {
        Some(b) => if b.len() == 0 {
            StepView::Skip
        } else {
            StepView::Store { filename: filename_of(sha256(b), b), bytes: b }
        },
        None => StepView::Skip,
    }
}

/// A reference that holds the image itself.
pub open spec fn is_data_uri(image_ref: Seq<char>) -> bool {
    "data:"@.is_prefix_of(image_ref)
}

/// A reference to an image elsewhere.
pub open spec fn is_remote(image_ref: Seq<char>) -> bool {
    "http://"@.is_prefix_of(image_ref) || "https://"@.is_prefix_of(image_ref)
}

/// What is to be done to cache the image that a reference names: a data URI is
/// decoded, a remote image is left where it is, and a local file is read.
pub open spec fn step_for_reference(image_ref: Seq<char>) -> StepView {
    if is_data_uri(image_ref) {
        step_for_bytes(data_uri_bytes(image_ref))
    } else if is_remote(image_ref) {
        StepView::Skip
    } else {
        StepView::ReadFile
    }
}

/// The marker of an image in a message.
pub open spec fn image_marker(image_ref: Seq<char>) -> Seq<char> {
    "[IMAGE:"@ + image_ref + "]"@
}

/// The note that stands for a cached image.
pub open spec fn cached_note(path: Seq<char>) -> Seq<char> {
    "[Previously seen image cached at "@ + path + "]"@
}

/// A text with the markers of the cached images replaced by their notes, one
/// image after the other.
pub open spec fn rewritten(content: Seq<char>, cached: Seq<(Seq<char>, Seq<char>)>) -> Seq<char>
    decreases cached.len(),
{
    if cached.len() == 0 {
        content
    } else {
        replaced_from(
            rewritten(content, cached.drop_last()),
            image_marker(cached.last().0),
            cached_note(cached.last().1),
            0,
        )
    }
}

/// The references of cached images with their paths as they are shown.
pub open spec fn shown_pairs(cached: Seq<(String, PathBuf)>) -> Seq<(Seq<char>, Seq<char>)> {
    Seq::new(cached.len(), |i: int| (cached[i].0@, shown_path(cached[i].1)))
}

/// An entry of the cache directory that is to be removed: a file whose age is
/// known and greater than `max_age`.
pub open spec fn expired(is_file: bool, age: Option<u128>, max_age: u128) -> bool {
    is_file && age is Some && age->0 > max_age
}

/// A text without the pattern stays as it is.
pub proof fn lemma_replace_nothing(s: Seq<char>, pat: Seq<char>, rep: Seq<char>)
    requires
        !has_part(s, pat),
    ensures
        replaced_from(s, pat, rep, 0) == s,
{
    lemma_first_from(s, pat, 0);
    assert(s.subrange(0, s.len() as int) =~= s);
}

/// A text with the markers of one cached image replaced by its note.
pub fn rewrite_content(content: &str, image_ref: &str, path: &str) -> (text: String)
    ensures
        text@ == replaced_from(content@, image_marker(image_ref@), cached_note(path@), 0),
{
    let mut marker = "[IMAGE:".to_owned();
    marker.append(image_ref);
    marker.append("]");
    if !contains_text(content, marker.as_str()) {
        proof {
            lemma_replace_nothing(content@, marker@, cached_note(path@));
        }
        return content.to_owned();
    }
    let mut note = "[Previously seen image cached at ".to_owned();
    note.append(path);
    note.append("]");
    proof {
        reveal_strlit("[IMAGE:");
    }
    replace_all(content, marker.as_str(), note.as_str())
}

/// The marker by which a cached image can be read again.
pub fn reread_marker(path: &str) -> (marker: String)
    ensures
        marker@ == "[CACHED_IMAGE:"@ + path@ + "]"@,
{
    let mut marker = "[CACHED_IMAGE:".to_owned();
    marker.append(path);
    marker.append("]");
    marker
}

/// Caches images in a directory.
pub struct MediaCache {
    /// Where the images are kept.
    pub cache_dir: PathBuf,
}

impl MediaCache {
    /// Create a new media cache rooted at `cache_dir`.
    pub fn new(cache_dir: PathBuf) -> (cache: Self)
        ensures
            cache.cache_dir == cache_dir,
    {
        MediaCache { cache_dir }
    }

    /// The components of the default cache directory, `~/.zeroclaw/media_cache/`.
    /// The home directory is `home`, or `user_profile` where that is unknown.
    pub fn default_dir(home: Option<String>, user_profile: Option<String>) -> (components: Option<
        Vec<String>,
    >)
        ensures
            match components {
                Some(parts) => (home is Some || user_profile is Some) && texts(parts@) == seq![
                    if home is Some {
                        home->0@
                    } else {
                        user_profile->0@
                    },
                    ".zeroclaw"@,
                    "media_cache"@,
                ],
                None => home is None && user_profile is None,
            },
    {
        let root = match home {
            Some(dir) => dir,
            None => match user_profile {
                Some(dir) => dir,
                None => {
                    return None;
                },
            },
        };
        let mut parts: Vec<String> = Vec::new();
        let ghost start = root@;
        parts.push(root);
        parts.push(".zeroclaw".to_owned());
        parts.push("media_cache".to_owned());
        assert(texts(parts@) =~= seq![start, ".zeroclaw"@, "media_cache"@]);
        Some(parts)
    }

    /// What is to be done to cache the image that a reference names.
    pub fn cache_single(image_ref: &str) -> (step: CacheStep)
        ensures
            step@ == step_for_reference(image_ref@),
    {
        if begins_with(image_ref, "data:") {
            MediaCache::cache_bytes(decode_data_uri(image_ref))
        } else if begins_with(image_ref, "http://") || begins_with(image_ref, "https://") {
            CacheStep::Skip
        } else {
            CacheStep::ReadFile
        }
    }

    /// What is to be done with the bytes of an image, if there are any.
    pub fn cache_bytes(bytes: Option<Vec<u8>>) -> (step: CacheStep)
        ensures
            step@ == step_for_bytes(
                match bytes {
                    Some(b) => Some(b@),
                    None => None,
                },
            ),
    {
        match bytes {
            Some(bytes) => {
                if bytes.len() == 0 {
                    return CacheStep::Skip;
                }
                let digest = sha256_hex(bytes.as_slice());
                let filename = cache_filename(digest.as_str(), bytes.as_slice());
                CacheStep::Store { filename, bytes }
            },
            None => CacheStep::Skip,
        }
    }

    /// Save the images that the references name, in order, as far as they can be
    /// cached.
    pub fn save_images(refs: Vec<String>) -> (run: SaveRun)
        ensures
            run@ == SaveView::begun(texts(refs@)),
            run@.sound(),
    {
        SaveRun::begin(refs)
    }

    /// Replace `[IMAGE:...]` markers in the given messages with compact
    /// `[Previously seen image cached at {path}]` references for any images
    /// that were successfully cached. Messages are modified in place.
    pub fn rewrite_markers(messages: &mut [ChatMessage], cached: &[(String, PathBuf)])
        ensures
            final(messages)@.len() == old(messages)@.len(),
            forall|i: int|
                0 <= i < old(messages)@.len() ==> (#[trigger] final(messages)@[i])@ == (MessageView {
                    role: old(messages)@[i].role@,
                    content: rewritten(old(messages)@[i].content@, shown_pairs(cached@)),
                }),
    {
        if cached.len() == 0 {
            return;
        }
        let n = messages.len();
        let ghost pairs = shown_pairs(cached@);
        let mut i: usize = 0;
        while i < n
            invariant
                n == old(messages)@.len(),
                messages@.len() == n,
                i <= n,
                pairs == shown_pairs(cached@),
                forall|j: int|
                    0 <= j < i ==> (#[trigger] messages@[j])@ == (MessageView {
                        role: old(messages)@[j].role@,
                        content: rewritten(old(messages)@[j].content@, pairs),
                    }),
                forall|j: int| i <= j < n ==> (#[trigger] messages@[j]) == old(messages)@[j],
            decreases n - i,
        {
            let mut content = messages[i].content.as_str().to_owned();
            let ghost start = content@;
            let mut k: usize = 0;
            while k < cached.len()
                invariant
                    k <= cached@.len(),
                    pairs == shown_pairs(cached@),
                    content@ == rewritten(start, pairs.take(k as int)),
                decreases cached@.len() - k,
            {
                let path = path_text(&cached[k].1);
                content = rewrite_content(content.as_str(), cached[k].0.as_str(), path.as_str());
                assert(pairs.take(k + 1).drop_last() =~= pairs.take(k as int));
                assert(pairs.take(k + 1).last() == pairs[k as int]);
                k = k + 1;
            }
            assert(pairs.take(pairs.len() as int) =~= pairs);
            let role = messages[i].role.as_str().to_owned();
            messages[i] = ChatMessage { role, content };
            i = i + 1;
        }
    }

    /// Create a re-read marker string for a cached image path.
    pub fn create_reread_marker(cached_path: &PathBuf) -> (marker: String)
        ensures
            marker@ == "[CACHED_IMAGE:"@ + shown_path(*cached_path) + "]"@,
    {
        let path = path_text(cached_path);
        reread_marker(path.as_str())
    }

    /// Delete cache entries older than `max_age`, in nanoseconds, where the cache
    /// directory exists.
    pub fn cleanup_old(dir_exists: bool, max_age: u128) -> (run: CleanupRun)
        ensures
            run@ == CleanupView::begun(dir_exists, max_age),
    {
        CleanupRun::begin(dir_exists, max_age)
    }

    /// Whether an entry of the cache directory is to be removed: a file whose
    /// age is known and greater than `max_age`, both in nanoseconds.
    pub fn is_expired(is_file: bool, age: Option<u128>, max_age: u128) -> (found: bool)
        ensures
            found == expired(is_file, age, max_age),
    {
        match age {
            Some(nanos) => is_file && nanos > max_age,
            None => false,
        }
    }
}

/// Rewriting with no cached image leaves a text as it is, and so does rewriting
/// with images whose markers do not stand in it.
pub proof fn law_texts_without_cached_markers_stay(
    content: Seq<char>,
    cached: Seq<(Seq<char>, Seq<char>)>,
)
    requires
        forall|k: int|
            0 <= k < cached.len() ==> !has_part(content, image_marker((#[trigger] cached[k]).0)),
    ensures
        rewritten(content, cached) == content,
    decreases cached.len(),
{
    if cached.len() > 0 {
        let init = cached.drop_last();
        assert forall|k: int| 0 <= k < init.len() implies !has_part(
            content,
            image_marker((#[trigger] init[k]).0),
        ) by {
            assert(init[k] == cached[k]);
        }
        law_texts_without_cached_markers_stay(content, init);
        assert(cached[cached.len() - 1] == cached.last());
        lemma_replace_nothing(
            content,
            image_marker(cached.last().0),
            cached_note(cached.last().1),
        );
    }
}

/// Wherever `note` stands, `marker` can stand before it or after it, but has no
/// character in common with it.
pub open spec fn apart(marker: Seq<char>, note: Seq<char>) -> bool {
    forall|u: Seq<char>, v: Seq<char>, j: int| #[trigger]
        occurs_at(u + note + v, marker, j) ==> j + marker.len() <= u.len() || j >= u.len()
            + note.len()
}

/// Replacing `pat` by a note that is apart from `marker` brings no `marker` into
/// a text without it, and takes `marker` out of a text where it is `pat` itself.
proof fn lemma_replacing_brings_no_marker(
    s: Seq<char>,
    pat: Seq<char>,
    note: Seq<char>,
    from: int,
    marker: Seq<char>,
)
    requires
        0 <= from <= s.len(),
        pat.len() > 0,
        marker.len() > 0,
        apart(marker, note),
        marker == pat || forall|j: int| from <= j ==> !occurs_at(s, marker, j),
    ensures
        !has_part(replaced_from(s, pat, note, from), marker),
    decreases s.len() - from,
{
    lemma_first_from(s, pat, from);
    let result = replaced_from(s, pat, note, from);
    match first_from(s, pat, from) {
        Some(i) => {
            let u = s.subrange(from, i);
            let v = replaced_from(s, pat, note, i + pat.len());
            lemma_replacing_brings_no_marker(s, pat, note, i + pat.len(), marker);
            assert(result == u + note + v);
            assert forall|j: int| !occurs_at(result, marker, j) by {
                if occurs_at(u + note + v, marker, j) {
                    if j + marker.len() <= u.len() {
                        assert(result.subrange(j, j + marker.len()) =~= s.subrange(
                            from + j,
                            from + j + marker.len(),
                        ));
                        assert(occurs_at(s, marker, from + j));
                    } else {
                        let at = j - u.len() - note.len();
                        assert(result.subrange(j, j + marker.len()) =~= v.subrange(
                            at,
                            at + marker.len(),
                        ));
                        assert(occurs_at(v, marker, at));
                    }
                }
            }
        },
        None => {
            assert forall|j: int| !occurs_at(result, marker, j) by {
                if occurs_at(result, marker, j) {
                    assert(result.subrange(j, j + marker.len()) =~= s.subrange(
                        from + j,
                        from + j + marker.len(),
                    ));
                    assert(occurs_at(s, marker, from + j));
                }
            }
        },
    }
}

/// After rewriting no marker of a cached image is left, as long as the markers
/// are apart from the notes.
pub proof fn law_cached_markers_are_replaced(
    content: Seq<char>,
    cached: Seq<(Seq<char>, Seq<char>)>,
    k: int,
)
    requires
        0 <= k < cached.len(),
        forall|j: int|
            0 <= j < cached.len() ==> apart(
                image_marker(cached[k].0),
                cached_note((#[trigger] cached[j]).1),
            ),
    ensures
        !has_part(rewritten(content, cached), image_marker(cached[k].0)),
    decreases cached.len(),
{
    let init = cached.drop_last();
    let before = rewritten(content, init);
    let marker = image_marker(cached[k].0);
    let pat = image_marker(cached.last().0);
    reveal_strlit("[IMAGE:");
    assert(cached[cached.len() - 1] == cached.last());
    if k < init.len() {
        assert forall|j: int| 0 <= j < init.len() implies apart(
            image_marker(init[k].0),
            cached_note((#[trigger] init[j]).1),
        ) by {
            assert(init[j] == cached[j]);
            assert(init[k] == cached[k]);
        }
        law_cached_markers_are_replaced(content, init, k);
        assert(!has_part(before, marker));
    }
    lemma_replacing_brings_no_marker(before, pat, cached_note(cached.last().1), 0, marker);
}

/// A text without an opening square bracket.
pub open spec fn unbracketed(s: Seq<char>) -> bool {
    forall|i: int| 0 <= i < s.len() ==> #[trigger] s[i] != '['
}

/// The marker of a reference without an opening square bracket begins with one,
/// and holds no other.
pub proof fn lemma_marker_opens_once(image_ref: Seq<char>)
    requires
        unbracketed(image_ref),
    ensures
        image_marker(image_ref).len() > 1,
        image_marker(image_ref)[0] == '[',
        image_marker(image_ref)[1] == 'I',
        forall|i: int|
            0 < i < image_marker(image_ref).len() ==> #[trigger] image_marker(image_ref)[i] != '[',
{
    reveal_strlit("[IMAGE:");
    reveal_strlit("]");
    let marker = image_marker(image_ref);
    let head = "[IMAGE:"@;
    assert forall|i: int| 0 < i < marker.len() implies #[trigger] marker[i] != '[' by {
        if head.len() <= i < head.len() + image_ref.len() {
            assert(marker[i] == image_ref[i - head.len()]);
        }
    }
}

/// The note of a path without an opening square bracket begins with one, and
/// holds no other.
pub proof fn lemma_note_opens_once(path: Seq<char>)
    requires
        unbracketed(path),
    ensures
        cached_note(path).len() > 1,
        cached_note(path)[0] == '[',
        cached_note(path)[1] == 'P',
        forall|i: int| 0 < i < cached_note(path).len() ==> #[trigger] cached_note(path)[i] != '[',
{
    reveal_strlit("[Previously seen image cached at ");
    reveal_strlit("]");
    let note = cached_note(path);
    let head = "[Previously seen image cached at "@;
    assert forall|i: int| 0 < i < note.len() implies #[trigger] note[i] != '[' by {
        if head.len() <= i < head.len() + path.len() {
            assert(note[i] == path[i - head.len()]);
        }
    }
}

/// The marker of a reference without an opening square bracket is apart from the
/// note of a path without one.
pub proof fn law_unbracketed_markers_are_apart(image_ref: Seq<char>, path: Seq<char>)
    requires
        unbracketed(image_ref),
        unbracketed(path),
    ensures
        apart(image_marker(image_ref), cached_note(path)),
{
    let marker = image_marker(image_ref);
    let note = cached_note(path);
    let n = note.len() as int;
    let m = marker.len() as int;
    lemma_marker_opens_once(image_ref);
    lemma_note_opens_once(path);
    assert forall|u: Seq<char>, v: Seq<char>, j: int| #[trigger]
        occurs_at(u + note + v, marker, j) implies j + marker.len() <= u.len() || j >= u.len()
        + note.len() by {
        let whole = u + note + v;
        let a = u.len() as int;
        if j + m > a && j < a + n {
            if j < a {
                // The note's opening bracket would stand inside the marker.
                assert(whole[a] == note[0]);
                assert(marker[a - j] == whole.subrange(j, j + m)[a - j]);
            } else if j > a {
                // The marker's opening bracket would stand inside the note.
                assert(whole[j] == note[j - a]);
                assert(marker[0] == whole.subrange(j, j + m)[0]);
            } else {
                // Both begin at one place, and differ in the second character.
                assert(whole[a + 1] == note[1]);
                assert(marker[1] == whole.subrange(j, j + m)[1]);
            }
        }
    }
}

proof fn lemma_hex_digit_injective(a: u8, b: u8)
    requires
        a < 16,
        b < 16,
        crate::text::hex_digit(a) == crate::text::hex_digit(b),
    ensures
        a == b,
{
}

/// Different bytes have different hexadecimal notations.
pub proof fn law_hex_is_injective(a: Seq<u8>, b: Seq<u8>)
    requires
        hex(a) == hex(b),
    ensures
        a == b,
    decreases a.len(),
{
    lemma_hex_len(a);
    lemma_hex_len(b);
    if a.len() == 0 {
        assert(a =~= b);
    } else {
        let x = hex(a);
        let y = hex(b);
        let n = x.len() as int;
        let p = hex(a.drop_last());
        let q = hex(b.drop_last());
        lemma_hex_len(a.drop_last());
        lemma_hex_len(b.drop_last());
        assert(x[n - 1] == crate::text::hex_digit(a.last() % 16));
        assert(y[n - 1] == crate::text::hex_digit(b.last() % 16));
        assert(x[n - 2] == crate::text::hex_digit(a.last() / 16));
        assert(y[n - 2] == crate::text::hex_digit(b.last() / 16));
        lemma_hex_digit_injective(a.last() % 16, b.last() % 16);
        lemma_hex_digit_injective(a.last() / 16, b.last() / 16);
        assert(p =~= x.take(n - 2));
        assert(q =~= y.take(n - 2));
        law_hex_is_injective(a.drop_last(), b.drop_last());
        assert(a =~= a.drop_last().push(a.last()));
        assert(b =~= b.drop_last().push(b.last()));
    }
}

/// Images with different digests never share a file of the cache.
pub proof fn law_different_digests_have_different_files(
    digest1: Seq<u8>,
    bytes1: Seq<u8>,
    digest2: Seq<u8>,
    bytes2: Seq<u8>,
)
    requires
        digest1.len() == digest2.len(),
        digest1 != digest2,
    ensures
        filename_of(digest1, bytes1) != filename_of(digest2, bytes2),
{
    lemma_hex_len(digest1);
    lemma_hex_len(digest2);
    let n = hex(digest1).len() as int;
    if filename_of(digest1, bytes1) == filename_of(digest2, bytes2) {
        assert(filename_of(digest1, bytes1).take(n) =~= hex(digest1));
        assert(filename_of(digest2, bytes2).take(n) =~= hex(digest2));
        law_hex_is_injective(digest1, digest2);
    }
}

/// A remote image is never cached.
pub proof fn law_remote_images_are_not_cached(image_ref: Seq<char>)
    requires
        is_remote(image_ref),
    ensures
        step_for_reference(image_ref) == StepView::Skip,
{
    reveal_strlit("data:");
    reveal_strlit("http://");
    reveal_strlit("https://");
    assert("data:"@[0] == 'd');
    assert("http://"@[0] == 'h');
    assert("https://"@[0] == 'h');
    assert(image_ref[0] == 'h');
}

} // verus!
