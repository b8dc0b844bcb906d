//! A model of the slice of the filesystem the materializer touches.
//!
//! The state maps each nonempty segment path under the output directory
//! to what it holds, a directory or a file; an absent path holds nothing.
//! Applying an action follows the creation calls the plan stands for:
//! ensuring a directory creates every missing step and fails when a step
//! already holds a file; creating a file needs every proper step to be a
//! directory, truncates an existing file, and fails on an existing
//! directory. The central fact proved here: a plan that succeeded once,
//! replayed against the tree it produced, succeeds and changes nothing.

use vstd::prelude::*;
use crate::plan::{ActionView, is_prefix_spec};

verus! {

/// What a path holds in the model.
pub enum FsKind {
    Dir,
    File,
}

/// `k` is a nonempty step on the way to `p`, the whole of `p` included.
pub open spec fn is_step(k: Seq<Seq<char>>, p: Seq<Seq<char>>) -> bool {
    1 <= k.len() && is_prefix_spec(k, p)
}

/// Directory creation succeeds exactly when no step of the path already
/// holds a file; a step that is already a directory is left alone.
pub open spec fn mkdir_ok(s: Map<Seq<Seq<char>>, FsKind>, p: Seq<Seq<char>>) -> bool {
    forall|k: Seq<Seq<char>>|
        #[trigger] is_step(k, p) && s.contains_key(k) ==> s[k] != FsKind::File
}

pub open spec fn apply_mkdir(
    s: Map<Seq<Seq<char>>, FsKind>,
    p: Seq<Seq<char>>,
) -> Map<Seq<Seq<char>>, FsKind> {
    Map::new(
        |k: Seq<Seq<char>>| s.contains_key(k) || is_step(k, p),
        |k: Seq<Seq<char>>| if is_step(k, p) {
            FsKind::Dir
        } else {
            s[k]
        },
    )
}

/// File creation succeeds exactly when the path is nonempty, every proper
/// step is already a directory, and the path itself is not one.
pub open spec fn mkfile_ok(s: Map<Seq<Seq<char>>, FsKind>, p: Seq<Seq<char>>) -> bool {
    &&& p.len() >= 1
    &&& forall|k: Seq<Seq<char>>|
        #[trigger] is_step(k, p) && k.len() < p.len() ==> s.contains_key(k) && s[k] == FsKind::Dir
    &&& !(s.contains_key(p) && s[p] == FsKind::Dir)
}

pub open spec fn apply_action(s: Map<Seq<Seq<char>>, FsKind>, a: ActionView) -> Option<
    Map<Seq<Seq<char>>, FsKind>,
> {
    match a {
        ActionView::MkDir(p) => if mkdir_ok(s, p) {
            Option::Some(apply_mkdir(s, p))
        } else {
            Option::None
        },
        ActionView::MkFile(p) => if mkfile_ok(s, p) {
            Option::Some(s.insert(p, FsKind::File))
        } else {
            Option::None
        },
    }
}

/// Apply a plan in order; the first failing action aborts the run.
pub open spec fn apply_plan(s: Map<Seq<Seq<char>>, FsKind>, acts: Seq<ActionView>) -> Option<
    Map<Seq<Seq<char>>, FsKind>,
>
    decreases acts.len(),
{
    if acts.len() == 0 {
        Option::Some(s)
    } else {
        match apply_action(s, acts[0]) {
            Option::Some(s1) => apply_plan(s1, acts.drop_first()),
            Option::None => Option::None,
        }
    }
}

/// Failure isolation, the failing side: a directory creation under a
/// step that already holds a plain file does fail, so the plan's run
/// aborts there instead of claiming success.
pub proof fn lemma_mkdir_fails_on_file_step(
    s: Map<Seq<Seq<char>>, FsKind>,
    p: Seq<Seq<char>>,
    k: Seq<Seq<char>>,
)
    requires
        is_step(k, p),
        s.contains_key(k),
        s[k] == FsKind::File,
    ensures
        apply_action(s, ActionView::MkDir(p)) is None,
{
}

/// An action never removes an entry and never changes what an existing
/// entry holds: directories stay directories, files stay files.
pub proof fn lemma_action_extends(
    s: Map<Seq<Seq<char>>, FsKind>,
    a: ActionView,
    t: Map<Seq<Seq<char>>, FsKind>,
)
    requires
        apply_action(s, a) == Option::Some(t),
    ensures
        forall|k: Seq<Seq<char>>|
            #[trigger] s.contains_key(k) ==> t.contains_key(k) && t[k] == s[k],
{
    match a {
        ActionView::MkDir(p) => {
            assert forall|k: Seq<Seq<char>>| #[trigger] s.contains_key(k) implies t.contains_key(
                k,
            ) && t[k] == s[k] by {
                if is_step(k, p) {
                    assert(s[k] != FsKind::File);
                    assert(s[k] == FsKind::Dir);
                }
            }
        },
        ActionView::MkFile(p) => {
            assert forall|k: Seq<Seq<char>>| #[trigger] s.contains_key(k) implies t.contains_key(
                k,
            ) && t[k] == s[k] by {
                if k == p {
                    assert(s[p] != FsKind::Dir);
                    assert(s[p] == FsKind::File);
                }
            }
        },
    }
}

/// A whole plan, when it succeeds, only extends the tree it started from.
pub proof fn lemma_plan_extends(
    s: Map<Seq<Seq<char>>, FsKind>,
    acts: Seq<ActionView>,
    t: Map<Seq<Seq<char>>, FsKind>,
)
    requires
        apply_plan(s, acts) == Option::Some(t),
    ensures
        forall|k: Seq<Seq<char>>|
            #[trigger] s.contains_key(k) ==> t.contains_key(k) && t[k] == s[k],
    decreases acts.len(),
{
    if acts.len() > 0 {
        let s1 = apply_action(s, acts[0])->0;
        lemma_action_extends(s, acts[0], s1);
        lemma_plan_extends(s1, acts.drop_first(), t);
    }
}

/// Replaying one action that already succeeded, against any tree that
/// kept its outcome, succeeds and changes nothing.
proof fn lemma_action_replay(
    s: Map<Seq<Seq<char>>, FsKind>,
    a: ActionView,
    sa: Map<Seq<Seq<char>>, FsKind>,
    t: Map<Seq<Seq<char>>, FsKind>,
)
    requires
        apply_action(s, a) == Option::Some(sa),
        forall|k: Seq<Seq<char>>|
            #[trigger] sa.contains_key(k) ==> t.contains_key(k) && t[k] == sa[k],
    ensures
        apply_action(t, a) == Option::Some(t),
{
    match a {
        ActionView::MkDir(p) => {
            assert forall|k: Seq<Seq<char>>|
                #[trigger] is_step(k, p) && t.contains_key(k) implies t[k] != FsKind::File by {
                assert(sa.contains_key(k) && sa[k] == FsKind::Dir);
            }
            assert(mkdir_ok(t, p));
            assert forall|k: Seq<Seq<char>>| #[trigger] is_step(k, p) implies t.contains_key(k)
                && t[k] == FsKind::Dir by {
                assert(sa.contains_key(k) && sa[k] == FsKind::Dir);
            }
            assert(apply_mkdir(t, p) =~= t);
        },
        ActionView::MkFile(p) => {
            assert(sa == s.insert(p, FsKind::File));
            assert forall|k: Seq<Seq<char>>|
                #[trigger] is_step(k, p) && k.len() < p.len() implies t.contains_key(k) && t[k]
                == FsKind::Dir by {
                assert(s.contains_key(k) && s[k] == FsKind::Dir);
                assert(k != p);
                assert(sa.contains_key(k) && sa[k] == FsKind::Dir);
            }
            assert(sa.contains_key(p) && sa[p] == FsKind::File);
            assert(t.contains_key(p) && t[p] == FsKind::File);
            assert(mkfile_ok(t, p));
            assert(t.insert(p, FsKind::File) =~= t);
        },
    }
}

/// Idempotence of materialization: a plan that succeeded, replayed
/// against the tree it produced, succeeds again and leaves that tree
/// exactly as it was. Running the same document into the same output
/// directory twice gives the tree of the first run.
pub proof fn lemma_plan_idempotent(
    s: Map<Seq<Seq<char>>, FsKind>,
    acts: Seq<ActionView>,
    t: Map<Seq<Seq<char>>, FsKind>,
)
    requires
        apply_plan(s, acts) == Option::Some(t),
    ensures
        apply_plan(t, acts) == Option::Some(t),
    decreases acts.len(),
{
    if acts.len() > 0 {
        let s1 = apply_action(s, acts[0])->0;
        lemma_plan_extends(s1, acts.drop_first(), t);
        lemma_action_replay(s, acts[0], s1, t);
        lemma_plan_idempotent(s1, acts.drop_first(), t);
    }
}

} // verus!
