//! Which paths a sandbox takes, and what its command line says.

use crate::bubblewrap::{bind_options, default_setup, has_parent_segment, parent_segment_at,
    path_error, valid_writable_path, SandboxErrorView, SandboxView};
use vstd::prelude::*;

verus! {

/// `segment` stands between two slashes of `path`, or between a slash and an end.
pub open spec fn is_segment(path: Seq<char>, segment: Seq<char>) -> bool {
    exists|a: Seq<char>, b: Seq<char>|
        {
            &&& path == #[trigger] (a + segment + b)
            &&& a.len() == 0 || a.last() == '/'
            &&& b.len() == 0 || b[0] == '/'
        }
}

/// A path may be given as writable exactly where it begins with a slash and none
/// of its segments is made of two dots.
pub proof fn law_writable_paths_by_segments(path: Seq<char>)
    ensures
        valid_writable_path(path) <==> path.len() > 0 && path[0] == '/' && !is_segment(
            path,
            seq!['.', '.'],
        ),
{
    let dots = seq!['.', '.'];
    if has_parent_segment(path) {
        let i = choose|i: int| parent_segment_at(path, i);
        let a = path.take(i);
        let b = path.skip(i + 2);
        assert(path =~= a + dots + b);
        assert(is_segment(path, dots));
    }
    if is_segment(path, dots) {
        let (a, b) = choose|a: Seq<char>, b: Seq<char>|
            {
                &&& path == #[trigger] (a + dots + b)
                &&& a.len() == 0 || a.last() == '/'
                &&& b.len() == 0 || b[0] == '/'
            };
        let i = a.len() as int;
        assert(path[i] == dots[0] && path[i + 1] == dots[1]);
        assert(i > 0 ==> path[i - 1] == a.last());
        assert(b.len() > 0 ==> path[i + 2] == b[0]);
        assert(parent_segment_at(path, i));
    }
}

/// A path that is turned down is named in the error, and the error tells whether
/// it begins with a slash.
pub proof fn law_path_errors_name_the_path(path: Seq<char>)
    ensures
        path_error(path) == SandboxErrorView::RelativePath(path) <==> path.len() == 0 || path[0]
            != '/',
        path_error(path) == SandboxErrorView::ParentSegment(path) <==> path.len() > 0 && path[0]
            == '/',
{
}

/// The default set-up has no extra path and no network.
pub proof fn law_default_setup_is_bare()
    ensures
        default_setup().writable_paths.len() == 0,
        !default_setup().allow_network,
        default_setup().sound(),
{
}

/// At position `at` the options mount `path` on itself, writable.
pub open spec fn mounts(options: Seq<Seq<char>>, at: int, path: Seq<char>) -> bool {
    options[at] == "--bind"@ && options[at + 1] == path && options[at + 2] == path
}

proof fn lemma_bind_positions(paths: Seq<Seq<char>>)
    ensures
        bind_options(paths).len() == 3 * paths.len(),
        forall|i: int|
            0 <= i < paths.len() ==> mounts(bind_options(paths), 3 * i, #[trigger] paths[i]),
    decreases paths.len(),
{
    if paths.len() > 0 {
        let init = paths.drop_last();
        lemma_bind_positions(init);
        assert forall|i: int| 0 <= i < paths.len() implies mounts(
            bind_options(paths),
            3 * i,
            #[trigger] paths[i],
        ) by {
            if i < init.len() {
                assert(mounts(bind_options(init), 3 * i, init[i]));
            }
        }
    }
}

/// The options of a sandbox, one by one. The system is mounted read-only, with
/// fresh devices and processes; `/tmp` and the extra paths, in their order, are
/// mounted writable and nothing else is; all is unshared, the network is shared
/// again only where it is allowed, and the command dies with its parent.
pub proof fn law_options_one_by_one(setup: SandboxView)
    ensures
        ({
            let options = setup.options();
            let n = setup.writable_paths.len() as int;
            &&& options.len() == 12 + 3 * n + if setup.allow_network {
                1int
            } else {
                0int
            }
            &&& options[0] == "--ro-bind"@ && options[1] == "/usr"@ && options[2] == "/usr"@
            &&& options[3] == "--dev"@ && options[4] == "/dev"@
            &&& options[5] == "--proc"@ && options[6] == "/proc"@
            &&& options[7] == "--bind"@ && options[8] == "/tmp"@ && options[9] == "/tmp"@
            &&& forall|i: int|
                0 <= i < n ==> mounts(options, 10 + 3 * i, #[trigger] setup.writable_paths[i])
            &&& options[10 + 3 * n] == "--unshare-all"@
            &&& setup.allow_network ==> options[11 + 3 * n] == "--share-net"@
            &&& options.last() == "--die-with-parent"@
        }),
{
    let options = setup.options();
    let binds = bind_options(setup.writable_paths);
    let n = setup.writable_paths.len() as int;
    lemma_bind_positions(setup.writable_paths);
    assert forall|i: int| 0 <= i < n implies mounts(
        options,
        10 + 3 * i,
        #[trigger] setup.writable_paths[i],
    ) by {
        assert(mounts(binds, 3 * i, setup.writable_paths[i]));
    }
}

} // verus!
