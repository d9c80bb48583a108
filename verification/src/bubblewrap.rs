//! Bubblewrap sandbox (user namespaces for Linux/macOS).

use crate::text::{chars_of, texts};
use vstd::prelude::*;

verus! {

/// The kind of a sandbox error.
#[derive(Debug, Clone, Copy, PartialEq, Eq, Structural)]
pub enum SandboxErrorKind {
    NotFound,
    InvalidInput,
}

/// Why a sandbox cannot be made.
#[derive(Debug, Clone)]
pub enum SandboxError {
    /// The `bwrap` program is not installed.
    NotInstalled,
    /// A writable path does not start at the root.
    RelativePath(String),
    /// A writable path has a `..` segment.
    ParentSegment(String),
}

/// A sandbox error, with the path that it names.
pub enum SandboxErrorView {
    NotInstalled,
    RelativePath(Seq<char>),
    ParentSegment(Seq<char>),
}

impl View for SandboxError {
    type V = SandboxErrorView;

    open spec fn view(&self) -> SandboxErrorView {
        match self {
            SandboxError::NotInstalled => SandboxErrorView::NotInstalled,
            SandboxError::RelativePath(path) => SandboxErrorView::RelativePath(path@),
            SandboxError::ParentSegment(path) => SandboxErrorView::ParentSegment(path@),
        }
    }
}

impl SandboxError {
    /// The kind of the error.
    pub fn kind(&self) -> (kind: SandboxErrorKind)
        ensures
            kind == (match self@ {
                SandboxErrorView::NotInstalled => SandboxErrorKind::NotFound,
                _ => SandboxErrorKind::InvalidInput,
            }),
    {
        match self {
            SandboxError::NotInstalled => SandboxErrorKind::NotFound,
            SandboxError::RelativePath(_) => SandboxErrorKind::InvalidInput,
            SandboxError::ParentSegment(_) => SandboxErrorKind::InvalidInput,
        }
    }

    /// What the caller is told.
    pub fn message(&self) -> (text: String)
        ensures
            text@ == (match self@ {
                SandboxErrorView::NotInstalled => "Bubblewrap not found"@,
                SandboxErrorView::RelativePath(path) => "sandbox writable path must be absolute: "@
                    + path,
                SandboxErrorView::ParentSegment(
                    path,
                ) => "sandbox writable path must not contain '..': "@ + path,
            }),
    {
        match self {
            SandboxError::NotInstalled => "Bubblewrap not found".to_owned(),
            SandboxError::RelativePath(path) => {
                "sandbox writable path must be absolute: ".to_owned().concat(path.as_str())
            },
            SandboxError::ParentSegment(path) => {
                "sandbox writable path must not contain '..': ".to_owned().concat(path.as_str())
            },
        }
    }
}

/// A path that starts at the root.
pub open spec fn absolute(path: Seq<char>) -> bool {
    path.len() > 0 && path[0] == '/'
}

/// One of the segments between the slashes of `path` is `..`, and it starts at
/// position `i`.
pub open spec fn parent_segment_at(path: Seq<char>, i: int) -> bool {
    &&& 0 <= i && i + 2 <= path.len()
    &&& path[i] == '.' && path[i + 1] == '.'
    &&& i == 0 || path[i - 1] == '/'
    &&& i + 2 == path.len() || path[i + 2] == '/'
}

/// One of the segments between the slashes of `path` is `..`.
pub open spec fn has_parent_segment(path: Seq<char>) -> bool {
    exists|i: int| parent_segment_at(path, i)
}

/// A path that a sandbox may be given as writable.
pub open spec fn valid_writable_path(path: Seq<char>) -> bool {
    absolute(path) && !has_parent_segment(path)
}

/// Why a path may not be given as writable.
pub open spec fn path_error(path: Seq<char>) -> SandboxErrorView {
    if !absolute(path) {
        SandboxErrorView::RelativePath(path)
    } else {
        SandboxErrorView::ParentSegment(path)
    }
}

/// Validate that a writable path is absolute and contains no `..` segments.
///
/// Bubblewrap runs on Linux/macOS only, so paths must start with `/` regardless
/// of the compilation host platform.
pub fn validate_writable_path(path: &str) -> (result: Result<(), SandboxError>)
    ensures
        match result {
            Ok(_) => valid_writable_path(path@),
            Err(error) => !valid_writable_path(path@) && error@ == path_error(path@),
        },
{
    let chars = chars_of(path);
    let n = chars.len();
    if n == 0 || chars[0] != '/' {
        return Err(SandboxError::RelativePath(path.to_owned()));
    }
    let mut i: usize = 0;
    while n >= 2 && i <= n - 2
        invariant
            n == path@.len(),
            chars@ == path@,
            absolute(path@),
            i <= n,
            forall|j: int| 0 <= j < i ==> !parent_segment_at(path@, j),
        decreases n - i,
    {
        if chars[i] == '.' && chars[i + 1] == '.' && (i == 0 || chars[i - 1] == '/') && (i + 2 == n
            || chars[i + 2] == '/') {
            assert(parent_segment_at(path@, i as int));
            return Err(SandboxError::ParentSegment(path.to_owned()));
        }
        i = i + 1;
    }
    Ok(())
}

/// A program with its arguments.
#[derive(Debug, Clone)]
pub struct CommandLine {
    pub program: String,
    pub args: Vec<String>,
}

/// Bubblewrap sandbox backend.
#[derive(Debug, Clone)]
pub struct BubblewrapSandbox {
    /// Additional paths to bind-mount as writable inside the sandbox.
    writable_paths: Vec<String>,
    /// Whether to allow network access.
    allow_network: bool,
}

/// What a sandbox is set up with.
pub struct SandboxView {
    pub writable_paths: Seq<Seq<char>>,
    pub allow_network: bool,
}

impl View for BubblewrapSandbox {
    type V = SandboxView;

    closed spec fn view(&self) -> SandboxView {
        SandboxView {
            writable_paths: texts(self.writable_paths@),
            allow_network: self.allow_network,
        }
    }
}

/// The set-up without extra paths and without network.
pub open spec fn default_setup() -> SandboxView {
    SandboxView { writable_paths: Seq::empty(), allow_network: false }
}

impl SandboxView {
    /// Every extra path is one that a sandbox may be given as writable.
    pub open spec fn sound(self) -> bool {
        forall|i: int|
            0 <= i < self.writable_paths.len() ==> valid_writable_path(
                #[trigger] self.writable_paths[i],
            )
    }
}

/// The mount options for the extra writable paths: each is bound to itself.
pub open spec fn bind_options(paths: Seq<Seq<char>>) -> Seq<Seq<char>>
    decreases paths.len(),
{
    if paths.len() == 0 {
        Seq::empty()
    } else {
        bind_options(paths.drop_last()) + seq!["--bind"@, paths.last(), paths.last()]
    }
}

/// The mounts that every sandbox has.
pub open spec fn base_options() -> Seq<Seq<char>> {
    seq![
        "--ro-bind"@,
        "/usr"@,
        "/usr"@,
        "--dev"@,
        "/dev"@,
        "--proc"@,
        "/proc"@,
        "--bind"@,
        "/tmp"@,
        "/tmp"@,
    ]
}

/// The namespace options: everything is unshared, and the network is shared
/// again where it is allowed.
pub open spec fn isolation_options(allow_network: bool) -> Seq<Seq<char>> {
    seq!["--unshare-all"@] + (if allow_network {
        seq!["--share-net"@]
    } else {
        Seq::empty()
    }) + seq!["--die-with-parent"@]
}

impl SandboxView {
    /// The options of the sandbox program, before the wrapped command.
    pub open spec fn options(self) -> Seq<Seq<char>> {
        base_options() + bind_options(self.writable_paths) + isolation_options(self.allow_network)
    }
}

fn push_text(args: &mut Vec<String>, text: &str)
    ensures
        texts(final(args)@) == texts(old(args)@).push(text@),
{
    args.push(text.to_owned());
    assert(texts(args@) =~= texts(old(args)@).push(text@));
}

fn push_mount(args: &mut Vec<String>, option: &str, source: &str, target: &str)
    ensures
        texts(final(args)@) == texts(old(args)@) + seq![option@, source@, target@],
{
    push_text(args, option);
    push_text(args, source);
    push_text(args, target);
    assert(texts(args@) =~= texts(old(args)@) + seq![option@, source@, target@]);
}

impl Default for BubblewrapSandbox {
    fn default() -> (sandbox: Self)
        ensures
            sandbox@ == default_setup(),
            sandbox@.sound(),
    {
        let sandbox = BubblewrapSandbox { writable_paths: Vec::new(), allow_network: false };
        assert(sandbox@.writable_paths =~= Seq::empty());
        sandbox
    }
}

impl BubblewrapSandbox {
    /// The sandbox with its default set-up, where the `bwrap` program is
    /// `installed`.
    pub fn new(installed: bool) -> (result: Result<Self, SandboxError>)
        ensures
            match result {
                Ok(sandbox) => installed && sandbox@ == default_setup() && sandbox@.sound(),
                Err(error) => !installed && error@ == SandboxErrorView::NotInstalled,
            },
    {
        if installed {
            Ok(BubblewrapSandbox::default())
        } else {
            Err(SandboxError::NotInstalled)
        }
    }

    /// Create a sandbox with extra writable paths and optional network access,
    /// where the `bwrap` program is `installed`.
    ///
    /// Each path in `writable_paths` is validated: it must be absolute and must
    /// not contain path-traversal segments (`..`). The first invalid path causes
    /// an error.
    pub fn with_config(writable_paths: Vec<String>, allow_network: bool, installed: bool) -> (result:
        Result<Self, SandboxError>)
        ensures
            match result {
                Ok(sandbox) => {
                    &&& installed
                    &&& sandbox@ == (SandboxView {
                        writable_paths: texts(writable_paths@),
                        allow_network,
                    })
                    &&& sandbox@.sound()
                },
                Err(error) => if !installed {
                    error@ == SandboxErrorView::NotInstalled
                } else {
                    exists|i: int|
                        #![trigger writable_paths@[i]]
                        {
                            &&& 0 <= i < writable_paths@.len()
                            &&& !valid_writable_path(writable_paths@[i]@)
                            &&& error@ == path_error(writable_paths@[i]@)
                            &&& forall|j: int|
                                0 <= j < i ==> valid_writable_path(
                                    (#[trigger] writable_paths@[j])@,
                                )
                        }
                },
            },
    {
        if !installed {
            return Err(SandboxError::NotInstalled);
        }
        let mut i: usize = 0;
        while i < writable_paths.len()
            invariant
                installed,
                i <= writable_paths@.len(),
                forall|j: int| 0 <= j < i ==> valid_writable_path((#[trigger] writable_paths@[j])@),
            decreases writable_paths@.len() - i,
        {
            match validate_writable_path(writable_paths[i].as_str()) {
                Ok(_) => {},
                Err(error) => {
                    assert(!valid_writable_path(writable_paths@[i as int]@));
                    return Err(error);
                },
            }
            i = i + 1;
        }
        Ok(BubblewrapSandbox { writable_paths, allow_network })
    }

    /// The sandbox with its default set-up, where the `bwrap` program is
    /// `installed`.
    pub fn probe(installed: bool) -> (result: Result<Self, SandboxError>)
        ensures
            match result {
                Ok(sandbox) => installed && sandbox@ == default_setup() && sandbox@.sound(),
                Err(error) => !installed && error@ == SandboxErrorView::NotInstalled,
            },
    {
        BubblewrapSandbox::new(installed)
    }

    /// Turn a command into one that runs the same program with the same
    /// arguments inside the sandbox.
    pub fn wrap_command(&self, command: &mut CommandLine)
        ensures
            final(command).program@ == "bwrap"@,
            texts(final(command).args@) == self@.options() + seq![old(command).program@] + texts(
                old(command).args@,
            ),
    {
        let mut args: Vec<String> = Vec::new();
        assert(texts(args@) =~= Seq::empty());
        push_mount(&mut args, "--ro-bind", "/usr", "/usr");
        push_text(&mut args, "--dev");
        push_text(&mut args, "/dev");
        push_text(&mut args, "--proc");
        push_text(&mut args, "/proc");
        // Default writable: /tmp
        push_mount(&mut args, "--bind", "/tmp", "/tmp");
        assert(texts(args@) =~= base_options());
        // Additional writable paths from the set-up
        let ghost paths = texts(self.writable_paths@);
        let mut i: usize = 0;
        assert(paths.take(0) =~= Seq::empty());
        assert(texts(args@) =~= base_options() + bind_options(paths.take(0)));
        while i < self.writable_paths.len()
            invariant
                i <= self.writable_paths@.len(),
                paths == texts(self.writable_paths@),
                texts(args@) == base_options() + bind_options(paths.take(i as int)),
            decreases self.writable_paths@.len() - i,
        {
            let path = self.writable_paths[i].as_str();
            push_mount(&mut args, "--bind", path, path);
            assert(paths.take(i + 1).drop_last() =~= paths.take(i as int));
            assert(paths.take(i + 1).last() == path@);
            assert(texts(args@) =~= base_options() + bind_options(paths.take(i + 1)));
            i = i + 1;
        }
        assert(paths.take(paths.len() as int) =~= paths);
        // Namespace isolation: always unshare everything, then selectively
        // re-share the network.
        push_text(&mut args, "--unshare-all");
        if self.allow_network {
            push_text(&mut args, "--share-net");
        }
        push_text(&mut args, "--die-with-parent");
        assert(texts(args@) =~= self@.options());
        push_text(&mut args, command.program.as_str());
        let ghost prefix = texts(args@);
        let mut k: usize = 0;
        while k < command.args.len()
            invariant
                k <= command.args@.len(),
                *command == *old(command),
                texts(args@) =~= prefix + texts(command.args@).take(k as int),
            decreases command.args@.len() - k,
        {
            push_text(&mut args, command.args[k].as_str());
            assert(texts(command.args@).take(k + 1) =~= texts(command.args@).take(k as int).push(
                command.args@[k as int]@,
            ));
            k = k + 1;
        }
        assert(texts(args@) =~= self@.options() + seq![command.program@] + texts(command.args@));
        command.program = "bwrap".to_owned();
        command.args = args;
    }

    /// The name of the backend.
    pub fn name(&self) -> (name: &'static str)
        ensures
            name@ == "bubblewrap"@,
    {
        "bubblewrap"
    }

    /// What the backend is.
    pub fn description(&self) -> (text: &'static str)
        ensures
            text@ == "User namespace sandbox (requires bwrap)"@,
    {
        "User namespace sandbox (requires bwrap)"
    }
}

/// `options` bind the path to itself as writable, with the option at `at`.
pub open spec fn binds_at(options: Seq<Seq<char>>, path: Seq<char>, at: int) -> bool {
    &&& 0 <= at && at + 3 <= options.len()
    &&& options[at] == "--bind"@
    &&& options[at + 1] == path
    &&& options[at + 2] == path
}

/// `options` bind the path to itself as writable.
pub open spec fn binds(options: Seq<Seq<char>>, path: Seq<char>) -> bool {
    exists|at: int| binds_at(options, path, at)
}

proof fn lemma_bind_options(paths: Seq<Seq<char>>)
    ensures
        bind_options(paths).len() == 3 * paths.len(),
        forall|i: int| 0 <= i < paths.len() ==> binds_at(
            bind_options(paths),
            #[trigger] paths[i],
            3 * i,
        ),
        forall|k: int| 0 <= k < bind_options(paths).len() ==> {
            ||| #[trigger] bind_options(paths)[k] == "--bind"@
            ||| paths.contains(bind_options(paths)[k])
        },
    decreases paths.len(),
{
    if paths.len() > 0 {
        let init = paths.drop_last();
        lemma_bind_options(init);
        assert forall|i: int| 0 <= i < paths.len() implies binds_at(
            bind_options(paths),
            #[trigger] paths[i],
            3 * i,
        ) by {
            if i < init.len() {
                assert(binds_at(bind_options(init), init[i], 3 * i));
            }
        }
        assert forall|k: int| 0 <= k < bind_options(paths).len() implies {
            ||| #[trigger] bind_options(paths)[k] == "--bind"@
            ||| paths.contains(bind_options(paths)[k])
        } by {
            if k < bind_options(init).len() {
                assert(bind_options(paths)[k] == bind_options(init)[k]);
                if init.contains(bind_options(init)[k]) {
                    let j = choose|j: int|
                        0 <= j < init.len() && init[j] == bind_options(init)[k];
                    assert(paths[j] == bind_options(paths)[k]);
                }
            } else {
                assert(paths.contains(paths.last()));
            }
        }
    }
}

/// A sandboxed command always has every namespace unshared, and always dies
/// with its parent.
pub proof fn law_isolation_is_always_on(setup: SandboxView)
    ensures
        setup.options().contains("--unshare-all"@),
        setup.options().contains("--die-with-parent"@),
{
    let head = base_options() + bind_options(setup.writable_paths);
    let tail = isolation_options(setup.allow_network);
    assert(setup.options()[head.len() as int] == tail[0]);
    assert(setup.options().last() == tail.last());
}

/// The network is shared with a sandboxed command exactly where the set-up
/// allows it; the default set-up does not.
pub proof fn law_network_is_shared_only_where_allowed(setup: SandboxView)
    requires
        setup.sound(),
    ensures
        setup.options().contains("--share-net"@) <==> setup.allow_network,
        !default_setup().options().contains("--share-net"@),
{
    lemma_network_option(setup);
    lemma_network_option(default_setup());
}

proof fn lemma_network_option(setup: SandboxView)
    requires
        setup.sound(),
    ensures
        setup.options().contains("--share-net"@) <==> setup.allow_network,
{
    let base = base_options();
    let binds = bind_options(setup.writable_paths);
    let head = base + binds;
    let tail = isolation_options(setup.allow_network);
    let options = setup.options();
    lemma_bind_options(setup.writable_paths);
    reveal_strlit("--share-net");
    reveal_strlit("--ro-bind");
    reveal_strlit("/usr");
    reveal_strlit("--dev");
    reveal_strlit("/dev");
    reveal_strlit("--proc");
    reveal_strlit("/proc");
    reveal_strlit("--bind");
    reveal_strlit("/tmp");
    reveal_strlit("--unshare-all");
    reveal_strlit("--die-with-parent");
    if setup.allow_network {
        assert(options[head.len() as int + 1] == tail[1]);
    } else {
        assert forall|k: int| 0 <= k < options.len() implies options[k] != "--share-net"@ by {
            if k < base.len() {
                assert(options[k] == base[k]);
                assert(base[k].len() != "--share-net"@.len());
            } else if k < head.len() {
                let j = k - base.len();
                assert(options[k] == binds[j]);
                if binds[j] != "--bind"@ {
                    let i = choose|i: int|
                        0 <= i < setup.writable_paths.len() && setup.writable_paths[i] == binds[j];
                    assert(valid_writable_path(setup.writable_paths[i]));
                    assert(binds[j][0] == '/');
                    assert("--share-net"@[0] == '-');
                }
            } else {
                assert(options[k] == tail[k - head.len()]);
                assert(tail[k - head.len()].len() != "--share-net"@.len());
            }
        }
    }
}

/// Each extra path of the set-up is bound to itself as writable, and so is
/// `/tmp`.
pub proof fn law_writable_paths_are_bound(setup: SandboxView)
    ensures
        binds(setup.options(), "/tmp"@),
        forall|i: int|
            0 <= i < setup.writable_paths.len() ==> binds(
                setup.options(),
                #[trigger] setup.writable_paths[i],
            ),
{
    let base = base_options();
    let extra = bind_options(setup.writable_paths);
    lemma_bind_options(setup.writable_paths);
    assert(binds_at(setup.options(), "/tmp"@, 7));
    assert forall|i: int| 0 <= i < setup.writable_paths.len() implies binds(
        setup.options(),
        #[trigger] setup.writable_paths[i],
    ) by {
        assert(binds_at(extra, setup.writable_paths[i], 3 * i));
        assert(binds_at(setup.options(), setup.writable_paths[i], base.len() as int + 3 * i));
    }
}

} // verus!
