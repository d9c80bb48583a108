//! Saving the images of a conversation, as a state machine.
//!
//! The run names its next action: read a local file, look for a file of the cache
//! directory, or write one. Whoever performs the action tells the run of the
//! outcome.

use crate::media_cache::{data_uri_bytes, filename_of, is_data_uri, is_remote, sha256,
    step_for_bytes, step_for_reference, CacheStep, MediaCache, StepView};
use crate::text::texts;
use std::path::PathBuf;
use vstd::prelude::*;

verus! {

/// Where a run stands.
#[derive(Debug, Clone)]
enum SavePhase {
    /// The file that the current reference names is to be read.
    Reading,
    /// The image of the current reference is to stand in the cache directory.
    Storing { filename: String, bytes: Vec<u8> },
    /// No reference is left.
    Finished,
}

/// Where a run stands, with the texts.
pub enum SavePhaseView {
    /// The file that the current reference names is to be read.
    Reading,
    /// The image is to be looked for in the cache directory.
    Finding { filename: Seq<char>, bytes: Seq<u8> },
    /// The image is to be written to the cache directory.
    Writing { filename: Seq<char>, bytes: Seq<u8> },
    /// No reference is left.
    Finished,
}

/// What a run asks for.
#[derive(Debug, Clone, Copy)]
pub enum SaveAction<'a> {
    /// Read the file that a reference names.
    Read { image_ref: &'a str },
    /// Look for a file of the cache directory.
    Find { filename: &'a str },
    /// Write a file of the cache directory, and make the directory where there is
    /// none.
    Write { filename: &'a str, bytes: &'a [u8] },
    /// Nothing more.
    Done,
}

/// What a run asks for, with the texts.
pub enum SaveActionView {
    Read { image_ref: Seq<char> },
    Find { filename: Seq<char> },
    Write { filename: Seq<char>, bytes: Seq<u8> },
    Done,
}

impl<'a> View for SaveAction<'a> {
    type V = SaveActionView;

    open spec fn view(&self) -> SaveActionView {
        match self {
            SaveAction::Read { image_ref } => SaveActionView::Read { image_ref: image_ref@ },
            SaveAction::Find { filename } => SaveActionView::Find { filename: filename@ },
            SaveAction::Write { filename, bytes } => SaveActionView::Write {
                filename: filename@,
                bytes: bytes@,
            },
            SaveAction::Done => SaveActionView::Done,
        }
    }
}

/// A run, with the references, the position of the current one, and the images
/// saved so far, each with its reference.
pub struct SaveView {
    pub refs: Seq<Seq<char>>,
    pub next: nat,
    pub phase: SavePhaseView,
    pub saved: Seq<(Seq<char>, PathBuf)>,
}

impl SaveView {
    /// The run goes on with the first reference from position `from` on whose
    /// image may be cached.
    pub open spec fn going_on(self, from: nat) -> Self
        decreases self.refs.len() - from,
    {
        if from >= self.refs.len() {
            SaveView { next: self.refs.len(), phase: SavePhaseView::Finished, ..self }
        } else {
            match step_for_reference(self.refs[from as int]) {
                StepView::Skip => self.going_on(from + 1),
                StepView::ReadFile => SaveView { next: from, phase: SavePhaseView::Reading, ..self },
                StepView::Store { filename, bytes } => SaveView {
                    next: from,
                    phase: SavePhaseView::Finding { filename, bytes },
                    ..self
                },
            }
        }
    }

    /// The run that begins with some references.
    pub open spec fn begun(refs: Seq<Seq<char>>) -> Self {
        SaveView {
            refs,
            next: 0,
            phase: SavePhaseView::Finished,
            saved: Seq::empty(),
        }.going_on(0)
    }

    /// The run after the file that it asked for was read, or could not be.
    pub open spec fn after_read(self, bytes: Option<Seq<u8>>) -> Self {
        match step_for_bytes(bytes) {
            StepView::Store { filename, bytes } => SaveView {
                phase: SavePhaseView::Finding { filename, bytes },
                ..self
            },
            _ => self.going_on(self.next + 1),
        }
    }

    /// The run after the file that it asked for was found at a path, or was not
    /// found: what is in the cache is not written again.
    pub open spec fn after_find(self, path: Option<PathBuf>) -> Self {
        match (path, self.phase) {
            (Some(p), _) => self.kept(p),
            (None, SavePhaseView::Finding { filename, bytes }) => SaveView {
                phase: SavePhaseView::Writing { filename, bytes },
                ..self
            },
            _ => self,
        }
    }

    /// The run goes on, with the image of the current reference kept at `path`.
    pub open spec fn kept(self, path: PathBuf) -> Self {
        SaveView {
            saved: self.saved.push((self.refs[self.next as int], path)),
            ..self
        }.going_on(self.next + 1)
    }

    /// What the run asks for.
    pub open spec fn action(self) -> SaveActionView {
        match self.phase {
            SavePhaseView::Reading => SaveActionView::Read {
                image_ref: self.refs[self.next as int],
            },
            SavePhaseView::Finding { filename, .. } => SaveActionView::Find { filename },
            SavePhaseView::Writing { filename, bytes } => SaveActionView::Write {
                filename,
                bytes,
            },
            SavePhaseView::Finished => SaveActionView::Done,
        }
    }

    /// A run has a current reference until it is finished.
    pub open spec fn sound(self) -> bool {
        if self.phase is Finished {
            self.next == self.refs.len()
        } else {
            self.next < self.refs.len()
        }
    }

    /// An image that the run looks for or asks to write is not empty, and is named
    /// by its content.
    pub open spec fn names_by_content(self) -> bool {
        match self.phase {
            SavePhaseView::Finding { filename, bytes } => bytes.len() > 0 && filename
                == filename_of(sha256(bytes), bytes),
            SavePhaseView::Writing { filename, bytes } => bytes.len() > 0 && filename
                == filename_of(sha256(bytes), bytes),
            _ => true,
        }
    }
}

/// Going on keeps the references and the images saved, and leads to a sound run.
proof fn lemma_going_on(run: SaveView, from: nat)
    ensures
        run.going_on(from).sound(),
        run.going_on(from).names_by_content(),
        run.going_on(from).refs == run.refs,
        run.going_on(from).saved == run.saved,
        from <= run.refs.len() ==> from <= run.going_on(from).next,
    decreases run.refs.len() - from,
{
    if from < run.refs.len() {
        lemma_going_on(run, from + 1);
    }
}

/// Whatever comes of its actions, a run has a current reference until it is
/// finished; it keeps its references, and never drops an image that it saved.
pub proof fn law_steps_keep_the_save_sound(run: SaveView, bytes: Option<Seq<u8>>, path: PathBuf)
    requires
        run.sound(),
    ensures
        run.phase is Reading ==> {
            let after = run.after_read(bytes);
            after.sound() && after.refs == run.refs && after.saved == run.saved
        },
        run.phase is Finding ==> {
            let after = run.after_find(None);
            after.sound() && after.refs == run.refs && after.saved == run.saved
        },
        run.phase is Finding ==> run.after_find(Some(path)) == run.kept(path),
        run.phase is Finding || run.phase is Writing ==> {
            let after = run.kept(path);
            after.sound() && after.refs == run.refs && after.saved == run.saved.push(
                (run.refs[run.next as int], path),
            )
        },
{
    lemma_going_on(run, run.next + 1);
    let stored = SaveView {
        saved: run.saved.push((run.refs[run.next as int], path)),
        ..run
    };
    lemma_going_on(stored, run.next + 1);
}

/// No run ever looks for or asks to write an empty image, or an image under
/// another name than the one that its content has.
pub proof fn law_kept_images_are_named_by_content(
    refs: Seq<Seq<char>>,
    run: SaveView,
    bytes: Option<Seq<u8>>,
    path: PathBuf,
)
    ensures
        SaveView::begun(refs).names_by_content(),
        run.after_read(bytes).names_by_content(),
        run.names_by_content() ==> run.after_find(None).names_by_content(),
        run.kept(path).names_by_content(),
{
    let start = SaveView {
        refs,
        next: 0,
        phase: SavePhaseView::Finished,
        saved: Seq::empty(),
    };
    lemma_going_on(start, 0);
    lemma_going_on(run, run.next + 1);
    let stored = SaveView {
        saved: run.saved.push((run.refs[run.next as int], path)),
        ..run
    };
    lemma_going_on(stored, run.next + 1);
}

/// The saved images, each with its reference as a text.
pub open spec fn saved_views(saved: Seq<(String, PathBuf)>) -> Seq<(Seq<char>, PathBuf)> {
    Seq::new(saved.len(), |i: int| (saved[i].0@, saved[i].1))
}

/// A run that saves the images of some references.
pub struct SaveRun {
    refs: Vec<String>,
    next: usize,
    phase: SavePhase,
    /// The image to store was looked for and is not in the cache directory.
    missing: bool,
    saved: Vec<(String, PathBuf)>,
}

impl View for SaveRun {
    type V = SaveView;

    closed spec fn view(&self) -> SaveView {
        SaveView {
            refs: texts(self.refs@),
            next: self.next as nat,
            phase: match self.phase {
                SavePhase::Reading => SavePhaseView::Reading,
                SavePhase::Storing { filename, bytes } => if self.missing {
                    SavePhaseView::Writing { filename: filename@, bytes: bytes@ }
                } else {
                    SavePhaseView::Finding { filename: filename@, bytes: bytes@ }
                },
                SavePhase::Finished => SavePhaseView::Finished,
            },
            saved: saved_views(self.saved@),
        }
    }
}

impl SaveRun {
    /// The run that begins with some references.
    pub fn begin(refs: Vec<String>) -> (run: Self)
        ensures
            run@ == SaveView::begun(texts(refs@)),
            run@.sound(),
    {
        let mut run = SaveRun {
            refs,
            next: 0,
            phase: SavePhase::Finished,
            missing: false,
            saved: Vec::new(),
        };
        assert(run@.saved =~= Seq::empty());
        proof {
            lemma_going_on(run@, 0);
        }
        run.go_on(0);
        run
    }

    /// What the run asks for.
    pub fn action(&self) -> (action: SaveAction<'_>)
        requires
            self@.sound(),
        ensures
            action@ == self@.action(),
    {
        match &self.phase {
            SavePhase::Reading => SaveAction::Read { image_ref: self.refs[self.next].as_str() },
            SavePhase::Storing { filename, bytes } => {
                if self.missing {
                    SaveAction::Write { filename: filename.as_str(), bytes: bytes.as_slice() }
                } else {
                    SaveAction::Find { filename: filename.as_str() }
                }
            },
            SavePhase::Finished => SaveAction::Done,
        }
    }

    fn go_on(&mut self, from: usize)
        requires
            from <= old(self)@.refs.len(),
        ensures
            final(self)@ == old(self)@.going_on(from as nat),
    {
        let n = self.refs.len();
        let mut i: usize = from;
        while i < n
            invariant
                from <= i <= n,
                n == self.refs@.len(),
                *self == *old(self),
                old(self)@.going_on(from as nat) == old(self)@.going_on(i as nat),
            decreases n - i,
        {
            match MediaCache::cache_single(self.refs[i].as_str()) {
                CacheStep::Skip => {
                    i = i + 1;
                },
                CacheStep::ReadFile => {
                    self.next = i;
                    self.phase = SavePhase::Reading;
                    return;
                },
                CacheStep::Store { filename, bytes } => {
                    self.next = i;
                    self.phase = SavePhase::Storing { filename, bytes };
                    self.missing = false;
                    return;
                },
            }
        }
        self.next = n;
        self.phase = SavePhase::Finished;
    }

    /// The file that the run asked for was read, or could not be.
    pub fn was_read(&mut self, bytes: Option<Vec<u8>>)
        requires
            old(self)@.sound(),
            old(self)@.phase is Reading,
        ensures
            final(self)@ == old(self)@.after_read(
                match bytes {
                    Some(b) => Some(b@),
                    None => None,
                },
            ),
            final(self)@.sound(),
    {
        proof {
            lemma_going_on(self@, self@.next + 1);
        }
        let n = self.refs.len();
        assert(self.next < n);
        match MediaCache::cache_bytes(bytes) {
            CacheStep::Store { filename, bytes } => {
                self.phase = SavePhase::Storing { filename, bytes };
                self.missing = false;
            },
            CacheStep::Skip => {
                self.go_on(self.next + 1);
            },
            CacheStep::ReadFile => {
                self.go_on(self.next + 1);
            },
        }
    }

    /// The file that the run asked for was found at a path, or was not found.
    pub fn looked(&mut self, path: Option<PathBuf>)
        requires
            old(self)@.sound(),
            old(self)@.phase is Finding,
        ensures
            final(self)@ == old(self)@.after_find(path),
            final(self)@.sound(),
    {
        match path {
            Some(found) => {
                self.keep(found);
            },
            None => {
                self.missing = true;
            },
        }
    }

    /// The image that the run asked to write stands at `path`.
    pub fn written(&mut self, path: PathBuf)
        requires
            old(self)@.sound(),
            old(self)@.phase is Writing,
        ensures
            final(self)@ == old(self)@.kept(path),
            final(self)@.sound(),
    {
        self.keep(path);
    }

    fn keep(&mut self, path: PathBuf)
        requires
            old(self)@.next < old(self)@.refs.len(),
        ensures
            final(self)@ == old(self)@.kept(path),
            final(self)@.sound(),
    {
        let n = self.refs.len();
        assert(self.next < n);
        let image_ref = self.refs[self.next].as_str().to_owned();
        self.saved.push((image_ref, path));
        proof {
            let before = saved_views(old(self).saved@);
            assert(self@.saved =~= before.push((old(self)@.refs[old(self)@.next as int], path)));
            lemma_going_on(self@, self@.next + 1);
        }
        self.go_on(self.next + 1);
    }

    /// The images saved, each with its reference, in order.
    pub fn into_saved(self) -> (saved: Vec<(String, PathBuf)>)
        ensures
            saved_views(saved@) == self@.saved,
    {
        self.saved
    }
}

/// The bytes of the image that a reference names, where `files` holds what can
/// be read of local files. A remote image and an empty one have none.
pub open spec fn image_bytes(
    image_ref: Seq<char>,
    files: spec_fn(Seq<char>) -> Option<Seq<u8>>,
) -> Option<Seq<u8>> {
    let bytes = if is_data_uri(image_ref) {
        data_uri_bytes(image_ref)
    } else if is_remote(image_ref) {
        None
    } else {
        files(image_ref)
    };
    match bytes {
        Some(b) => if b.len() > 0 {
            Some(b)
        } else {
            None
        },
        None => None,
    }
}

/// The images that can be saved of the references from position `from` on, each
/// with its reference, where `paths` tells where a file of the cache stands.
pub open spec fn savable_from(
    refs: Seq<Seq<char>>,
    from: nat,
    files: spec_fn(Seq<char>) -> Option<Seq<u8>>,
    paths: spec_fn(Seq<char>) -> PathBuf,
) -> Seq<(Seq<char>, PathBuf)>
    decreases refs.len() - from,
{
    if from >= refs.len() {
        Seq::empty()
    } else {
        let rest = savable_from(refs, from + 1, files, paths);
        match image_bytes(refs[from as int], files) {
            Some(b) => seq![(refs[from as int], paths(name_of(b)))] + rest,
            None => rest,
        }
    }
}

/// The files of the cache directory, by their names.
pub type CacheFiles = Map<Seq<char>, Seq<u8>>;

/// The name of the file that an image with the given content has.
pub open spec fn name_of(content: Seq<u8>) -> Seq<char> {
    filename_of(sha256(content), content)
}

/// The cache directory with one more image in it. A file that is there already
/// is left as it is.
pub open spec fn with_image(dir: CacheFiles, content: Seq<u8>) -> CacheFiles {
    if dir.contains_key(name_of(content)) {
        dir
    } else {
        dir.insert(name_of(content), content)
    }
}

/// The cache directory with the images in it that can be saved of the references
/// from position `from` on.
pub open spec fn with_images_from(
    refs: Seq<Seq<char>>,
    from: nat,
    files: spec_fn(Seq<char>) -> Option<Seq<u8>>,
    dir: CacheFiles,
) -> CacheFiles
    decreases refs.len() - from,
{
    if from >= refs.len() {
        dir
    } else {
        with_images_from(
            refs,
            from + 1,
            files,
            match image_bytes(refs[from as int], files) {
                Some(content) => with_image(dir, content),
                None => dir,
            },
        )
    }
}

/// The run after all that it asks for was done, and the cache directory then.
/// `files` holds what can be read of local files, `paths` tells where a file of
/// the cache stands, and `dir` is the cache directory before.
pub open spec fn completed(
    run: SaveView,
    files: spec_fn(Seq<char>) -> Option<Seq<u8>>,
    paths: spec_fn(Seq<char>) -> PathBuf,
    dir: CacheFiles,
) -> (SaveView, CacheFiles)
    decreases
            3 * (run.refs.len() - run.next) + match run.phase {
                SavePhaseView::Reading => 2int,
                SavePhaseView::Finding { .. } => 1int,
                _ => 0int,
            },
    when run.sound()
    via completed_decreases
{
    match run.phase {
        SavePhaseView::Reading => completed(
            run.after_read(files(run.refs[run.next as int])),
            files,
            paths,
            dir,
        ),
        SavePhaseView::Finding { filename, .. } => completed(
            run.after_find(
                if dir.contains_key(filename) {
                    Some(paths(filename))
                } else {
                    None
                },
            ),
            files,
            paths,
            dir,
        ),
        SavePhaseView::Writing { filename, bytes } => completed(
            run.kept(paths(filename)),
            files,
            paths,
            dir.insert(filename, bytes),
        ),
        SavePhaseView::Finished => (run, dir),
    }
}

#[via_fn]
proof fn completed_decreases(
    run: SaveView,
    files: spec_fn(Seq<char>) -> Option<Seq<u8>>,
    paths: spec_fn(Seq<char>) -> PathBuf,
    dir: CacheFiles,
) {
    lemma_going_on(run, run.next + 1);
    match run.phase {
        SavePhaseView::Finding { filename, .. } => {
            lemma_kept(run, paths(filename));
        },
        SavePhaseView::Writing { filename, .. } => {
            lemma_kept(run, paths(filename));
        },
        _ => {},
    }
}

proof fn lemma_kept(run: SaveView, path: PathBuf)
    requires
        run.next < run.refs.len(),
    ensures
        run.kept(path).sound(),
        run.kept(path).next > run.next,
        run.kept(path).refs == run.refs,
{
    let stored = SaveView {
        saved: run.saved.push((run.refs[run.next as int], path)),
        ..run
    };
    lemma_going_on(stored, run.next + 1);
}

/// An image that the run looks for is in the cache directory afterwards, and the
/// run goes on with it saved.
proof fn lemma_found_or_written(
    run: SaveView,
    files: spec_fn(Seq<char>) -> Option<Seq<u8>>,
    paths: spec_fn(Seq<char>) -> PathBuf,
    dir: CacheFiles,
    content: Seq<u8>,
)
    requires
        run.next < run.refs.len(),
        run.phase == (SavePhaseView::Finding { filename: name_of(content), bytes: content }),
    ensures
        completed(run, files, paths, dir) == completed(
            run.kept(paths(name_of(content))),
            files,
            paths,
            with_image(dir, content),
        ),
{
    let name = name_of(content);
    lemma_kept(run, paths(name));
    if !dir.contains_key(name) {
        let writing = run.after_find(None);
        assert(completed(run, files, paths, dir) == completed(writing, files, paths, dir));
        lemma_kept(writing, paths(name));
        assert(completed(writing, files, paths, dir) == completed(
            writing.kept(paths(name)),
            files,
            paths,
            dir.insert(name, content),
        ));
        let from = SaveView {
            saved: run.saved.push((run.refs[run.next as int], paths(name))),
            ..run
        };
        let other = SaveView { phase: writing.phase, ..from };
        lemma_same_way_on(from, other, run.next + 1);
    }
}

/// Which way a run goes on does not depend on the phase that it comes from.
proof fn lemma_same_way_on(run: SaveView, other: SaveView, from: nat)
    requires
        run.refs == other.refs,
        run.saved == other.saved,
    ensures
        run.going_on(from) == other.going_on(from),
    decreases run.refs.len() - from,
{
    if from < run.refs.len() {
        lemma_same_way_on(run, other, from + 1);
    }
}

proof fn lemma_completed_from(
    run: SaveView,
    from: nat,
    files: spec_fn(Seq<char>) -> Option<Seq<u8>>,
    paths: spec_fn(Seq<char>) -> PathBuf,
    dir: CacheFiles,
)
    requires
        from <= run.refs.len(),
    ensures
        ({
            let (end, after) = completed(run.going_on(from), files, paths, dir);
            &&& end.phase is Finished
            &&& end.saved == run.saved + savable_from(run.refs, from, files, paths)
            &&& after == with_images_from(run.refs, from, files, dir)
        }),
    decreases run.refs.len() - from,
{
    lemma_going_on(run, from);
    let on = run.going_on(from);
    if from == run.refs.len() {
        assert(run.saved + Seq::<(Seq<char>, PathBuf)>::empty() =~= run.saved);
    } else {
        let image_ref = run.refs[from as int];
        let rest = savable_from(run.refs, from + 1, files, paths);
        match step_for_reference(image_ref) {
            StepView::Skip => {
                lemma_completed_from(run, from + 1, files, paths, dir);
            },
            StepView::ReadFile => {
                let read = on.after_read(files(image_ref));
                lemma_going_on(on, from + 1);
                assert(completed(on, files, paths, dir) == completed(read, files, paths, dir));
                match step_for_bytes(files(image_ref)) {
                    StepView::Store { filename, bytes } => {
                        let path = paths(filename);
                        lemma_found_or_written(read, files, paths, dir, bytes);
                        let stored = SaveView { saved: run.saved.push((image_ref, path)), ..read };
                        lemma_completed_from(
                            stored,
                            from + 1,
                            files,
                            paths,
                            with_image(dir, bytes),
                        );
                        assert(run.saved.push((image_ref, path)) + rest =~= run.saved + (
                        seq![(image_ref, path)] + rest));
                    },
                    _ => {
                        lemma_completed_from(on, from + 1, files, paths, dir);
                    },
                }
            },
            StepView::Store { filename, bytes } => {
                let path = paths(filename);
                lemma_found_or_written(on, files, paths, dir, bytes);
                let stored = SaveView { saved: run.saved.push((image_ref, path)), ..on };
                lemma_completed_from(stored, from + 1, files, paths, with_image(dir, bytes));
                assert(run.saved.push((image_ref, path)) + rest =~= run.saved + (
                seq![(image_ref, path)] + rest));
            },
        }
    }
}

/// A run whose actions are performed comes to its end. It has then saved every
/// image that is neither remote nor unreadable nor empty, in order, one for each
/// reference, under the name that its content has. The cache directory has then
/// these images and what it had before, and nothing else.
pub proof fn law_every_savable_image_is_saved(
    refs: Seq<Seq<char>>,
    files: spec_fn(Seq<char>) -> Option<Seq<u8>>,
    paths: spec_fn(Seq<char>) -> PathBuf,
    dir: CacheFiles,
)
    ensures
        ({
            let (end, after) = completed(SaveView::begun(refs), files, paths, dir);
            &&& end.phase is Finished
            &&& end.saved == savable_from(refs, 0, files, paths)
            &&& after == with_images_from(refs, 0, files, dir)
        }),
{
    let start = SaveView {
        refs,
        next: 0,
        phase: SavePhaseView::Finished,
        saved: Seq::empty(),
    };
    lemma_completed_from(start, 0, files, paths, dir);
    assert(start.saved + savable_from(refs, 0, files, paths) =~= savable_from(
        refs,
        0,
        files,
        paths,
    ));
}

/// `content` is the image of one of the references from position `from` on.
pub open spec fn is_image_from(
    refs: Seq<Seq<char>>,
    from: nat,
    files: spec_fn(Seq<char>) -> Option<Seq<u8>>,
    content: Seq<u8>,
) -> bool {
    exists|i: int|
        from <= i < refs.len() && #[trigger] image_bytes(refs[i], files) == Some(content)
}

/// Saving images leaves every file that was in the cache directory as it was. A
/// new file holds one of the images, under its name, and every image has its
/// file.
pub proof fn law_saving_only_adds_images(
    refs: Seq<Seq<char>>,
    from: nat,
    files: spec_fn(Seq<char>) -> Option<Seq<u8>>,
    dir: CacheFiles,
)
    ensures
        ({
            let after = with_images_from(refs, from, files, dir);
            &&& forall|name: Seq<char>| #[trigger]
                dir.contains_key(name) ==> after.contains_key(name) && after[name] == dir[name]
            &&& forall|name: Seq<char>| #[trigger]
                after.contains_key(name) && !dir.contains_key(name) ==> is_image_from(
                    refs,
                    from,
                    files,
                    after[name],
                ) && name == name_of(after[name])
            &&& forall|i: int|
                from <= i < refs.len() && (#[trigger] image_bytes(refs[i], files)) is Some
                    ==> after.contains_key(name_of(image_bytes(refs[i], files)->0))
        }),
    decreases refs.len() - from,
{
    if from < refs.len() {
        let first = image_bytes(refs[from as int], files);
        let next = match first {
            Some(content) => with_image(dir, content),
            None => dir,
        };
        let after = with_images_from(refs, from, files, dir);
        law_saving_only_adds_images(refs, from + 1, files, next);
        assert(after == with_images_from(refs, from + 1, files, next));
        assert forall|name: Seq<char>| #[trigger]
            dir.contains_key(name) implies after.contains_key(name) && after[name] == dir[name] by {
            assert(next.contains_key(name));
        }
        assert forall|name: Seq<char>| #[trigger]
            after.contains_key(name) && !dir.contains_key(name) implies is_image_from(
            refs,
            from,
            files,
            after[name],
        ) && name == name_of(after[name]) by {
            if next.contains_key(name) {
                assert(after[name] == next[name]);
                assert(image_bytes(refs[from as int], files) == Some(after[name]));
            } else {
                assert(with_images_from(refs, from + 1, files, next).contains_key(name));
                assert(is_image_from(refs, from + 1, files, after[name]));
                let i = choose|i: int|
                    from + 1 <= i < refs.len() && #[trigger] image_bytes(refs[i], files) == Some(
                        after[name],
                    );
                assert(image_bytes(refs[i], files) == Some(after[name]));
            }
        }
        assert forall|i: int|
            from <= i < refs.len() && (#[trigger] image_bytes(refs[i], files)) is Some implies
            after.contains_key(name_of(image_bytes(refs[i], files)->0)) by {
            if i == from {
                assert(next.contains_key(name_of(first->0)));
            }
        }
    }
}

/// Saving the same images again gives the same answer, and leaves the cache
/// directory as it is.
pub proof fn law_saving_again_changes_nothing(
    refs: Seq<Seq<char>>,
    files: spec_fn(Seq<char>) -> Option<Seq<u8>>,
    paths: spec_fn(Seq<char>) -> PathBuf,
    dir: CacheFiles,
)
    ensures
        ({
            let (end, after) = completed(SaveView::begun(refs), files, paths, dir);
            let (end_again, after_again) = completed(SaveView::begun(refs), files, paths, after);
            end_again.saved == end.saved && after_again == after
        }),
{
    law_every_savable_image_is_saved(refs, files, paths, dir);
    let after = with_images_from(refs, 0, files, dir);
    law_every_savable_image_is_saved(refs, files, paths, after);
    law_saving_only_adds_images(refs, 0, files, dir);
    lemma_all_there(refs, 0, files, after);
}

proof fn lemma_all_there(
    refs: Seq<Seq<char>>,
    from: nat,
    files: spec_fn(Seq<char>) -> Option<Seq<u8>>,
    dir: CacheFiles,
)
    requires
        forall|i: int|
            from <= i < refs.len() && (#[trigger] image_bytes(refs[i], files)) is Some
                ==> dir.contains_key(name_of(image_bytes(refs[i], files)->0)),
    ensures
        with_images_from(refs, from, files, dir) == dir,
    decreases refs.len() - from,
{
    if from < refs.len() {
        assert(image_bytes(refs[from as int], files) is Some ==> dir.contains_key(
            name_of(image_bytes(refs[from as int], files)->0),
        ));
        lemma_all_there(refs, from + 1, files, dir);
    }
}

/// A single image that is remote, unreadable or empty is not saved, and nothing
/// is written for it. Any other one is saved under the name of its content: its
/// file is written where there is none of that name, and else left as it is.
pub proof fn law_a_single_image_is_cached(
    image_ref: Seq<char>,
    files: spec_fn(Seq<char>) -> Option<Seq<u8>>,
    paths: spec_fn(Seq<char>) -> PathBuf,
    dir: CacheFiles,
)
    ensures
        ({
            let (end, after) = completed(SaveView::begun(seq![image_ref]), files, paths, dir);
            match image_bytes(image_ref, files) {
                None => end.saved.len() == 0 && after == dir,
                Some(content) => {
                    &&& end.saved == seq![(image_ref, paths(name_of(content)))]
                    &&& after.contains_key(name_of(content))
                    &&& after == (if dir.contains_key(name_of(content)) {
                        dir
                    } else {
                        dir.insert(name_of(content), content)
                    })
                },
            }
        }),
{
    let refs = seq![image_ref];
    law_every_savable_image_is_saved(refs, files, paths, dir);
    assert(savable_from(refs, 1, files, paths) =~= Seq::empty());
    match image_bytes(image_ref, files) {
        Some(content) => {
            assert(with_images_from(refs, 1, files, with_image(dir, content)) == with_image(
                dir,
                content,
            ));
            assert(savable_from(refs, 0, files, paths) =~= seq![
                (image_ref, paths(name_of(content))),
            ]);
        },
        None => {
            assert(with_images_from(refs, 1, files, dir) == dir);
        },
    }
}

/// Two references to images with the same content are saved to one file, which
/// is written at most once.
pub proof fn law_equal_images_share_a_file(
    first: Seq<char>,
    second: Seq<char>,
    content: Seq<u8>,
    files: spec_fn(Seq<char>) -> Option<Seq<u8>>,
    paths: spec_fn(Seq<char>) -> PathBuf,
    dir: CacheFiles,
)
    requires
        image_bytes(first, files) == Some(content),
        image_bytes(second, files) == Some(content),
    ensures
        ({
            let path = paths(name_of(content));
            let (end, after) = completed(SaveView::begun(seq![first, second]), files, paths, dir);
            &&& end.saved == seq![(first, path), (second, path)]
            &&& after == with_image(dir, content)
        }),
{
    let refs = seq![first, second];
    let path = paths(name_of(content));
    law_every_savable_image_is_saved(refs, files, paths, dir);
    assert(savable_from(refs, 2, files, paths) =~= Seq::empty());
    assert(savable_from(refs, 1, files, paths) =~= seq![(second, path)]);
    assert(savable_from(refs, 0, files, paths) =~= seq![(first, path), (second, path)]);
    let once = with_image(dir, content);
    assert(with_images_from(refs, 2, files, once) == once);
    assert(with_images_from(refs, 1, files, once) == once);
}

} // verus!
