use std::path::PathBuf;
use zeroclaw::media_cache::{
    cache_filename, data_uri_payload, decode_data_uri, guess_extension, reread_marker,
    rewrite_content, sha256_hex, CacheStep, MediaCache,
};
use zeroclaw::media_clean::{CleanupAction, EntryInfo};
use zeroclaw::media_save::SaveAction;
use zeroclaw::message::ChatMessage;

fn msg(role: &str, content: &str) -> ChatMessage {
    ChatMessage {
        role: role.to_string(),
        content: content.to_string(),
    }
}

fn stored(step: CacheStep) -> (String, Vec<u8>) {
    match step {
        CacheStep::Store { filename, bytes } => (filename, bytes),
        CacheStep::Skip | CacheStep::ReadFile => panic!("the image should be stored"),
    }
}

#[test]
fn sha256_hex_deterministic() {
    let hash1 = sha256_hex(b"hello");
    let hash2 = sha256_hex(b"hello");
    assert_eq!(hash1, hash2);
    assert_eq!(hash1.len(), 64);
    assert_eq!(hash1, "2cf24dba5fb0a30e26e83b2ac5b9e29e1b161e5c1fa7425e73043362938b9824");
}

#[test]
fn sha256_hex_differs_for_different_input() {
    assert_ne!(sha256_hex(b"hello"), sha256_hex(b"world"));
}

#[test]
fn guess_extension_png() {
    let png = [0x89, b'P', b'N', b'G', b'\r', b'\n', 0x1a, b'\n'];
    assert_eq!(guess_extension(&png), ".png");
}

#[test]
fn guess_extension_jpg() {
    let jpg = [0xff, 0xd8, 0xff, 0xe0];
    assert_eq!(guess_extension(&jpg), ".jpg");
}

#[test]
fn guess_extension_unknown() {
    assert_eq!(guess_extension(b"random bytes"), ".bin");
}

#[test]
fn guess_extension_of_other_formats() {
    assert_eq!(guess_extension(b"GIF87a"), ".gif");
    assert_eq!(guess_extension(b"GIF89a and more"), ".gif");
    assert_eq!(guess_extension(b"GIF88a"), ".bin");
    assert_eq!(guess_extension(b"RIFF\x00\x00\x00\x00WEBP"), ".webp");
    assert_eq!(guess_extension(b"RIFF\x00\x00\x00\x00WAVE"), ".bin");
    assert_eq!(guess_extension(b"RIFF\x00\x00\x00\x00WEB"), ".bin");
    assert_eq!(guess_extension(&[0x89, b'P', b'N', b'G']), ".bin");
    assert_eq!(guess_extension(&[0xff, 0xd8]), ".bin");
    assert_eq!(guess_extension(&[]), ".bin");
}

#[test]
fn decode_data_uri_valid() {
    // base64("hello") = "aGVsbG8="
    let uri = "data:image/png;base64,aGVsbG8=";
    let bytes = decode_data_uri(uri).unwrap();
    assert_eq!(bytes, b"hello");
}

#[test]
fn decode_data_uri_empty_payload() {
    let uri = "data:image/png;base64,";
    assert!(decode_data_uri(uri).is_none());
}

#[test]
fn decode_data_uri_no_comma() {
    assert!(decode_data_uri("data:image/png;base64").is_none());
}

#[test]
fn decode_data_uri_trims_and_checks_the_payload() {
    assert_eq!(decode_data_uri("data:,  aGVsbG8=\n").unwrap(), b"hello");
    assert!(decode_data_uri("data:, \t ").is_none());
    assert!(decode_data_uri("data:,aGVsbG8").is_none());
    assert!(decode_data_uri("data:,aGV sbG8=").is_none());
}

#[test]
fn data_uri_payload_follows_the_first_comma() {
    assert_eq!(data_uri_payload("data:a, b,c ").unwrap(), "b,c");
    assert_eq!(data_uri_payload("data:"), None);
    assert_eq!(data_uri_payload("data:,\u{3000}"), None);
}

#[test]
fn create_reread_marker_format() {
    let path = PathBuf::from("/tmp/media_cache/abc123.png");
    let marker = MediaCache::create_reread_marker(&path);
    assert_eq!(marker, "[CACHED_IMAGE:/tmp/media_cache/abc123.png]");
    assert_eq!(reread_marker("x"), "[CACHED_IMAGE:x]");
}

#[test]
fn rewrite_markers_replaces_image_refs() {
    let cached = vec![(
        "/tmp/photo.png".to_string(),
        PathBuf::from("/cache/abc123.png"),
    )];
    let mut messages = vec![msg("user", "See [IMAGE:/tmp/photo.png] here")];

    MediaCache::rewrite_markers(&mut messages, &cached);

    assert!(messages[0]
        .content
        .contains("[Previously seen image cached at /cache/abc123.png]"));
    assert!(!messages[0].content.contains("[IMAGE:"));
    assert_eq!(
        messages[0].content,
        "See [Previously seen image cached at /cache/abc123.png] here"
    );
    assert_eq!(messages[0].role, "user");
}

#[test]
fn rewrite_markers_noop_when_empty() {
    let mut messages = vec![msg("user", "no images here")];
    MediaCache::rewrite_markers(&mut messages, &[]);
    assert_eq!(messages[0].content, "no images here");
}

#[test]
fn rewrite_markers_touches_only_cached_images() {
    let cached = vec![
        ("a".to_string(), PathBuf::from("/c/1")),
        ("b".to_string(), PathBuf::from("/c/2")),
    ];
    let mut messages = vec![
        msg("user", "[IMAGE:a][IMAGE:b][IMAGE:a] [IMAGE:c] [IMAGE: a]"),
        msg("assistant", "nothing"),
    ];
    MediaCache::rewrite_markers(&mut messages, &cached);
    assert_eq!(
        messages[0].content,
        "[Previously seen image cached at /c/1][Previously seen image cached at /c/2]\
         [Previously seen image cached at /c/1] [IMAGE:c] [IMAGE: a]"
    );
    assert_eq!(messages[1].content, "nothing");
    assert_eq!(messages[1].role, "assistant");
}

#[test]
fn rewrite_markers_takes_the_first_image_that_fits() {
    let cached = vec![
        ("a".to_string(), PathBuf::from("/c/1")),
        ("a".to_string(), PathBuf::from("/c/2")),
        ("a]b".to_string(), PathBuf::from("/c/3")),
    ];
    let mut messages = vec![msg("user", "[IMAGE:a] [IMAGE:a]b] [[IMAGE:a]] [IMAGE:x]")];
    MediaCache::rewrite_markers(&mut messages, &cached);
    let note = "[Previously seen image cached at /c/1]";
    assert_eq!(
        messages[0].content,
        format!("{note} {note}b] [{note}] [IMAGE:x]")
    );
}

#[test]
fn rewrite_can_bring_back_a_marker_with_brackets_in_the_path() {
    let text = rewrite_content("[IMAGE:a]", "a", "[IMAGE:a");
    assert_eq!(text, "[Previously seen image cached at [IMAGE:a]");
}

#[test]
fn filename_is_digest_and_extension() {
    assert_eq!(cache_filename("00ff", b"GIF87a"), "00ff.gif");
    let (filename, bytes) = stored(MediaCache::cache_bytes(Some(b"hello".to_vec())));
    assert_eq!(
        filename,
        "2cf24dba5fb0a30e26e83b2ac5b9e29e1b161e5c1fa7425e73043362938b9824.bin"
    );
    assert_eq!(bytes, b"hello");
}

#[test]
fn equal_images_share_a_file() {
    let png = [0x89, b'P', b'N', b'G', b'\r', b'\n', 0x1a, b'\n', 0x00];
    let (first, _) = stored(MediaCache::cache_bytes(Some(png.to_vec())));
    let (second, _) = stored(MediaCache::cache_bytes(Some(png.to_vec())));
    assert_eq!(first, second);
    assert!(first.ends_with(".png"));
    let (other, _) = stored(MediaCache::cache_bytes(Some(b"other".to_vec())));
    assert_ne!(first, other);
}

#[test]
fn images_without_bytes_are_skipped() {
    assert!(matches!(MediaCache::cache_bytes(None), CacheStep::Skip));
    assert!(matches!(MediaCache::cache_bytes(Some(Vec::new())), CacheStep::Skip));
}

#[test]
fn remote_images_are_skipped_and_local_ones_read() {
    assert!(matches!(
        MediaCache::cache_single("https://example.com/photo.png"),
        CacheStep::Skip
    ));
    assert!(matches!(MediaCache::cache_single("http://example.com"), CacheStep::Skip));
    assert!(matches!(MediaCache::cache_single("/tmp/test.png"), CacheStep::ReadFile));
    assert!(matches!(MediaCache::cache_single("HTTP://example.com"), CacheStep::ReadFile));
}

#[test]
fn data_uri_images_are_stored() {
    // base64 of PNG header bytes
    let step = MediaCache::cache_single("data:image/png;base64,iVBORw0KGgo=");
    let (filename, bytes) = stored(step);
    assert_eq!(bytes, [0x89, b'P', b'N', b'G', b'\r', b'\n', 0x1a, b'\n']);
    assert!(filename.ends_with(".png"));
    assert_eq!(filename.len(), 68);
    assert!(matches!(MediaCache::cache_single("data:nothing"), CacheStep::Skip));
}

type Files = Vec<(String, Vec<u8>)>;

/// Runs `save_images` on files in memory; `dir` is the cache directory `/c`. Gives
/// the answer and what was written.
fn save_to(
    dir: &mut Files,
    refs: &[&str],
    files: &[(&str, &[u8])],
) -> (Vec<(String, PathBuf)>, Files) {
    enum Outcome {
        Read(Option<Vec<u8>>),
        Looked(Option<PathBuf>),
        Written(PathBuf),
    }
    let path = |name: &str| PathBuf::from("/c").join(name);
    let mut run = MediaCache::save_images(refs.iter().map(|r| r.to_string()).collect());
    let mut written = Vec::new();
    loop {
        let outcome = match run.action() {
            SaveAction::Read { image_ref } => Outcome::Read(
                files.iter().find(|(name, _)| *name == image_ref).map(|(_, b)| b.to_vec()),
            ),
            SaveAction::Find { filename } => {
                Outcome::Looked(dir.iter().find(|(name, _)| name == filename).map(|_| path(filename)))
            }
            SaveAction::Write { filename, bytes } => {
                dir.push((filename.to_string(), bytes.to_vec()));
                written.push((filename.to_string(), bytes.to_vec()));
                Outcome::Written(path(filename))
            }
            SaveAction::Done => break,
        };
        match outcome {
            Outcome::Read(bytes) => run.was_read(bytes),
            Outcome::Looked(found) => run.looked(found),
            Outcome::Written(path) => run.written(path),
        }
    }
    (run.into_saved(), written)
}

fn save(refs: &[&str], files: &[(&str, &[u8])]) -> (Vec<(String, PathBuf)>, Files) {
    save_to(&mut Vec::new(), refs, files)
}

#[test]
fn save_images_skips_remote_urls() {
    let (saved, stored) = save(&["https://example.com/photo.png"], &[]);
    assert!(saved.is_empty());
    assert!(stored.is_empty());
}

#[test]
fn save_images_handles_data_uri() {
    // base64 of PNG header bytes
    let (saved, stored) = save(&["data:image/png;base64,iVBORw0KGgo="], &[]);
    assert_eq!(saved.len(), 1);
    assert_eq!(saved[0].0, "data:image/png;base64,iVBORw0KGgo=");
    assert_eq!(saved[0].1.extension().unwrap(), "png");
    assert_eq!(stored[0].1, [0x89, b'P', b'N', b'G', b'\r', b'\n', 0x1a, b'\n']);
}

#[test]
fn save_images_goes_through_the_references_in_order() {
    let png: &[u8] = &[0x89, b'P', b'N', b'G', b'\r', b'\n', 0x1a, b'\n', 0x00];
    let files: &[(&str, &[u8])] = &[("a.png", png), ("empty", b""), ("copy.png", png)];
    let (saved, stored) = save(
        &["http://x", "a.png", "empty", "missing", "data:,", "data:,aGVsbG8=", "copy.png"],
        files,
    );
    let refs: Vec<&str> = saved.iter().map(|(r, _)| r.as_str()).collect();
    assert_eq!(refs, ["a.png", "data:,aGVsbG8=", "copy.png"]);
    // Images with the same content share a file.
    assert_eq!(saved[0].1, saved[2].1);
    assert_ne!(saved[0].1, saved[1].1);
    assert_eq!(
        saved[1].1,
        PathBuf::from(
            "/c/2cf24dba5fb0a30e26e83b2ac5b9e29e1b161e5c1fa7425e73043362938b9824.bin"
        )
    );
    assert_eq!(stored[1].1, b"hello");
    // The copy is not written again.
    assert_eq!(stored.len(), 2);
    assert!(stored[0].0.ends_with(".png"));
}

#[test]
fn default_dir_returns_some() {
    let home = Some("/home/user".to_string());
    let profile = Some("/users/user".to_string());
    let parts = MediaCache::default_dir(home.clone(), profile.clone());
    assert!(parts.is_some());
    let dir: PathBuf = parts.unwrap().iter().collect();
    assert!(dir.ends_with("media_cache"));
    assert_eq!(dir, PathBuf::from("/home/user/.zeroclaw/media_cache"));
    let parts = MediaCache::default_dir(None, profile).unwrap();
    assert_eq!(parts, ["/users/user", ".zeroclaw", "media_cache"]);
    assert_eq!(MediaCache::default_dir(home, None).unwrap()[0], "/home/user");
    assert!(MediaCache::default_dir(None, None).is_none());
}

#[test]
fn expiry_needs_a_file_that_is_older() {
    assert!(MediaCache::is_expired(true, Some(1), 0));
    assert!(!MediaCache::is_expired(true, Some(0), 0));
    assert!(!MediaCache::is_expired(true, Some(5), 5));
    assert!(!MediaCache::is_expired(false, Some(9), 5));
    assert!(!MediaCache::is_expired(true, None, 0));
}

#[test]
fn cache_keeps_its_directory() {
    let cache = MediaCache::new(PathBuf::from("/var/cache"));
    assert_eq!(cache.cache_dir, PathBuf::from("/var/cache"));
}

#[test]
fn save_and_cleanup_cycle() {
    let png: &[u8] = &[0x89, b'P', b'N', b'G', b'\r', b'\n', 0x1a, b'\n', 0x00];
    let files: &[(&str, &[u8])] = &[("/tmp/test.png", png)];
    let mut dir = Vec::new();
    let (saved, written) = save_to(&mut dir, &["/tmp/test.png"], files);
    assert_eq!(saved.len(), 1);
    assert_eq!(written.len(), 1);
    assert_eq!(dir[0].1, png);
    assert!(saved[0].1.extension().unwrap() == "png");

    // Content hash deduplication: saving again returns the same path.
    let (saved2, written2) = save_to(&mut dir, &["/tmp/test.png"], files);
    assert_eq!(saved[0].1, saved2[0].1);
    assert!(written2.is_empty());
    assert_eq!(dir.len(), 1);

    // Cleanup with zero max_age removes the file.
    let entries = [(true, Some(1), true)];
    let (removed, asked) = clean(true, 0, &entries);
    assert_eq!(removed, 1);
    assert_eq!(asked, [0]);
}

#[test]
fn file_in_the_cache_is_left_as_it_is() {
    let name = "2cf24dba5fb0a30e26e83b2ac5b9e29e1b161e5c1fa7425e73043362938b9824.bin";
    let mut dir = vec![(name.to_string(), b"other".to_vec())];
    let (saved, written) = save_to(&mut dir, &["data:,aGVsbG8="], &[]);
    assert_eq!(saved[0].1, PathBuf::from("/c").join(name));
    assert!(written.is_empty());
    assert_eq!(dir[0].1, b"other");
}

/// Runs `cleanup_old` on entries: whether each is a file, its age, and whether it
/// can be removed. Gives the answer and which entries were to be removed.
fn clean(
    dir_exists: bool,
    max_age: u128,
    entries: &[(bool, Option<u128>, bool)],
) -> (usize, Vec<usize>) {
    let mut run = MediaCache::cleanup_old(dir_exists, max_age);
    let mut listed = 0;
    let mut asked = Vec::new();
    loop {
        match run.action() {
            CleanupAction::Next => {
                run.listed(entries.get(listed).map(|(is_file, age, _)| EntryInfo {
                    is_file: *is_file,
                    age: *age,
                }));
                listed += 1;
            }
            CleanupAction::Remove => {
                asked.push(listed - 1);
                run.tried(entries[listed - 1].2);
            }
            CleanupAction::Done { removed } => {
                assert_eq!(run.removed(), removed);
                return (removed, asked);
            }
        }
    }
}

#[test]
fn cleanup_old_tolerates_missing_dir() {
    let (removed, asked) = clean(false, 3_600_000_000_000, &[]);
    assert_eq!(removed, 0);
    assert!(asked.is_empty());
}

#[test]
fn cleanup_counts_what_could_be_removed() {
    let entries = [
        (true, Some(11), true),
        (false, Some(99), true),
        (true, Some(10), true),
        (true, None, true),
        (true, Some(12), false),
        (true, Some(13), true),
    ];
    assert_eq!(clean(true, 10, &entries), (2, vec![0, 4, 5]));
    assert_eq!(clean(true, 10, &[]), (0, Vec::new()));
}
