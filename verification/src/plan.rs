//! The tree materializer, split from its side effects.
//!
//! Walking a dump entry yields the ordered list of filesystem actions the
//! entry stands for: one directory or file creation per node, parents
//! before children, siblings in document order. A path is the sequence of
//! segments to append under the output directory; the empty path is the
//! output directory itself. Performing the actions on a real filesystem
//! is the caller's business.

use vstd::prelude::*;
use crate::tree::{Entry, EntryType, EntryView, entries_view, lemma_entries_view};
use crate::report::{report_line, report_line_spec};

verus! {

/// One filesystem creation the materializer asks for, at the path given
/// as segments under the output directory.
#[derive(Debug, PartialEq, Eq)]
pub enum Action {
    /// Ensure a directory exists, creating missing ancestors.
    MkDir(Vec<String>),
    /// Create an empty file, truncating an existing one.
    MkFile(Vec<String>),
}

/// The mathematical shape of an [`Action`].
pub enum ActionView {
    MkDir(Seq<Seq<char>>),
    MkFile(Seq<Seq<char>>),
}

impl View for Action {
    type V = ActionView;

    open spec fn view(&self) -> ActionView {
        match self {
            Action::MkDir(p) => ActionView::MkDir(p.deep_view()),
            Action::MkFile(p) => ActionView::MkFile(p.deep_view()),
        }
    }
}

impl DeepView for Action {
    type V = ActionView;

    open spec fn deep_view(&self) -> ActionView {
        self.view()
    }
}

pub open spec fn action_path(a: ActionView) -> Seq<Seq<char>> {
    match a {
        ActionView::MkDir(p) => p,
        ActionView::MkFile(p) => p,
    }
}

/// The path an entry's own entity lives at: the parent path, extended by
/// the entry's name when it has one.
pub open spec fn effective_path(e: EntryView, path: Seq<Seq<char>>) -> Seq<Seq<char>> {
    match e.name {
        Option::Some(n) => path.push(n),
        Option::None => path,
    }
}

/// The action an entry asks for at its own path: a directory creation, a
/// file creation, or nothing for a report, which never touches the
/// filesystem.
pub open spec fn own_actions(e: EntryView, eff: Seq<Seq<char>>) -> Seq<ActionView> {
    match e.fs_type {
        EntryType::Directory => seq![ActionView::MkDir(eff)],
        EntryType::File => seq![ActionView::MkFile(eff)],
        EntryType::Report => Seq::empty(),
    }
}

/// The actions of a whole subtree, depth first: the entry's own action,
/// then each child's subtree in document order, every child walked from
/// the same effective path.
pub open spec fn walk_spec(e: EntryView, path: Seq<Seq<char>>) -> Seq<ActionView>
    decreases e,
{
    own_actions(e, effective_path(e, path)) + match e.contents {
        Option::Some(cs) => walk_children_spec(cs, effective_path(e, path)),
        Option::None => Seq::empty(),
    }
}

pub open spec fn walk_children_spec(cs: Seq<EntryView>, path: Seq<Seq<char>>) -> Seq<ActionView>
    decreases cs,
{
    if cs.len() == 0 {
        Seq::empty()
    } else {
        walk_spec(cs[0], path) + walk_children_spec(cs.drop_first(), path)
    }
}

/// Copy a segment path.
pub fn clone_path(p: &Vec<String>) -> (r: Vec<String>)
    ensures
        r@ == p@,
{
    let mut r: Vec<String> = Vec::new();
    let mut i: usize = 0;
    while i < p.len()
        invariant
            i <= p.len(),
            r@ =~= p@.subrange(0, i as int),
        decreases p.len() - i,
    {
        r.push(p[i].clone());
        proof {
            assert(p@.subrange(0, i + 1) =~= p@.subrange(0, i as int).push(p@[i as int]));
        }
        i += 1;
    }
    proof {
        assert(p@.subrange(0, p@.len() as int) =~= p@);
    }
    r
}

/// Walk one entry: emit the filesystem actions its subtree stands for,
/// in creation order, each at its composed path.
pub fn walk_entry(entry: &Entry, path: &Vec<String>) -> (actions: Vec<Action>)
    ensures
        actions.deep_view() == walk_spec(entry@, path.deep_view()),
    decreases *entry,
{
    let mut effective = clone_path(path);
    if let Option::Some(name) = &entry.name {
        effective.push(name.clone());
        proof {
            assert(effective.deep_view() =~= effective_path(entry@, path.deep_view()));
        }
    } else {
        proof {
            assert(effective.deep_view() =~= effective_path(entry@, path.deep_view()));
        }
    }
    let ghost eff = effective.deep_view();
    let mut actions: Vec<Action> = Vec::new();
    match entry.fs_type {
        EntryType::Directory => {
            actions.push(Action::MkDir(clone_path(&effective)));
        },
        EntryType::File => {
            actions.push(Action::MkFile(clone_path(&effective)));
        },
        EntryType::Report => {},
    }
    proof {
        assert(actions.deep_view() =~= own_actions(entry@, eff));
    }
    if let Option::Some(contents) = &entry.contents {
        let ghost cs = entries_view(contents@);
        proof {
            lemma_entries_view(contents@);
        }
        let mut i: usize = 0;
        while i < contents.len()
            invariant
                i <= contents.len(),
                entry.contents == Option::Some(*contents),
                eff == effective.deep_view(),
                eff == effective_path(entry@, path.deep_view()),
                cs == entries_view(contents@),
                cs.len() == contents@.len(),
                forall|j: int| 0 <= j < cs.len() ==> #[trigger] cs[j] == contents@[j]@,
                actions.deep_view() == own_actions(entry@, eff) + walk_children_spec(
                    cs.subrange(0, i as int),
                    eff,
                ),
            decreases contents.len() - i,
        {
            proof {
                assert(entry.contents->0 == *contents);
                assert(decreases_to!(*entry => entry.contents));
                assert(decreases_to!(entry.contents => entry.contents->0));
                assert(decreases_to!(*contents => contents@));
                assert(decreases_to!(contents@ => contents@[i as int]));
            }
            let ghost prev = actions.deep_view();
            let mut child = walk_entry(&contents[i], &effective);
            let ghost cdv = child.deep_view();
            actions.append(&mut child);
            proof {
                assert(actions.deep_view() =~= prev + cdv);
                assert(cdv == walk_spec(cs[i as int], eff));
                lemma_walk_children_snoc(cs.subrange(0, i as int), cs[i as int], eff);
                assert(cs.subrange(0, i + 1) =~= cs.subrange(0, i as int).push(cs[i as int]));
                assert(walk_children_spec(cs.subrange(0, i + 1), eff) == walk_children_spec(
                    cs.subrange(0, i as int),
                    eff,
                ) + walk_spec(cs[i as int], eff));
                assert(prev + cdv =~= own_actions(entry@, eff) + walk_children_spec(
                    cs.subrange(0, i + 1),
                    eff,
                ));
            }
            i += 1;
        }
        proof {
            assert(cs.subrange(0, cs.len() as int) =~= cs);
            assert(actions.deep_view() =~= walk_spec(entry@, path.deep_view()));
        }
    } else {
        proof {
            assert(actions.deep_view() =~= walk_spec(entry@, path.deep_view()));
        }
    }
    actions
}

/// Walking the children of a longer row first walks the front part, then
/// the rest: a sibling's walk neither sees nor shifts the path another
/// sibling is walked from.
pub proof fn lemma_walk_children_concat(
    cs1: Seq<EntryView>,
    cs2: Seq<EntryView>,
    path: Seq<Seq<char>>,
)
    ensures
        walk_children_spec(cs1 + cs2, path) == walk_children_spec(cs1, path)
            + walk_children_spec(cs2, path),
    decreases cs1.len(),
{
    if cs1.len() == 0 {
        assert(cs1 + cs2 =~= cs2);
        assert(walk_children_spec(cs1, path) + walk_children_spec(cs2, path)
            =~= walk_children_spec(cs2, path));
    } else {
        assert((cs1 + cs2).drop_first() =~= cs1.drop_first() + cs2);
        lemma_walk_children_concat(cs1.drop_first(), cs2, path);
        assert(walk_spec((cs1 + cs2)[0], path) + (walk_children_spec(cs1.drop_first(), path)
            + walk_children_spec(cs2, path)) =~= walk_children_spec(cs1, path)
            + walk_children_spec(cs2, path));
    }
}

/// What one top-level entry of a document asks of the caller: filesystem
/// actions to perform, or a summary line to print.
#[derive(Debug, PartialEq, Eq)]
pub enum RootPlan {
    Actions(Vec<Action>),
    Summary(String),
}

/// The mathematical shape of a [`RootPlan`].
pub enum RootPlanView {
    Actions(Seq<ActionView>),
    Summary(Seq<char>),
}

impl View for RootPlan {
    type V = RootPlanView;

    open spec fn view(&self) -> RootPlanView {
        match self {
            RootPlan::Actions(v) => RootPlanView::Actions(v.deep_view()),
            RootPlan::Summary(s) => RootPlanView::Summary(s@),
        }
    }
}

impl DeepView for RootPlan {
    type V = RootPlanView;

    open spec fn deep_view(&self) -> RootPlanView {
        self.view()
    }
}

/// A top-level report entry must carry both counters; their absence is a
/// defect of the document, not a zero.
pub open spec fn report_ok(e: EntryView) -> bool {
    e.fs_type == EntryType::Report ==> (e.directories is Some && e.files is Some)
}

pub open spec fn doc_ok(es: Seq<EntryView>) -> bool {
    forall|i: int| 0 <= i < es.len() ==> report_ok(#[trigger] es[i])
}

pub open spec fn root_plan_spec(e: EntryView) -> RootPlanView {
    if e.fs_type == EntryType::Report {
        RootPlanView::Summary(report_line_spec(e.directories->0 as nat, e.files->0 as nat))
    } else {
        RootPlanView::Actions(walk_spec(e, Seq::empty()))
    }
}

pub open spec fn doc_plan_spec(es: Seq<EntryView>) -> Seq<RootPlanView> {
    Seq::new(es.len(), |i: int| root_plan_spec(es[i]))
}

#[derive(Clone, Copy, Debug, PartialEq, Eq, Structural)]
pub enum PlanError {
    /// The top-level entry at `index` is a report without both counters.
    MissingReportCounts { index: usize },
}

/// Turn a whole document into a plan: a report root becomes its summary
/// line, every other root becomes the actions of its subtree, walked from
/// the output directory itself. The first report root missing a counter
/// is an error, found before any action is handed out.
pub fn plan_document(entries: &Vec<Entry>) -> (r: Result<Vec<RootPlan>, PlanError>)
    ensures
        match r {
            Result::Ok(plans) => doc_ok(entries_view(entries@)) && plans.deep_view()
                == doc_plan_spec(entries_view(entries@)),
            Result::Err(e) => match e {
                PlanError::MissingReportCounts { index } => index < entries@.len()
                    && !report_ok(entries_view(entries@)[index as int]) && forall|j: int|
                    0 <= j < index ==> report_ok(#[trigger] entries_view(entries@)[j]),
            },
        },
{
    proof {
        lemma_entries_view(entries@);
    }
    let ghost ev = entries_view(entries@);
    let base: Vec<String> = Vec::new();
    proof {
        assert(base.deep_view() =~= Seq::<Seq<char>>::empty());
    }
    let mut plans: Vec<RootPlan> = Vec::new();
    let mut i: usize = 0;
    while i < entries.len()
        invariant
            i <= entries.len(),
            ev == entries_view(entries@),
            ev.len() == entries@.len(),
            forall|j: int| 0 <= j < ev.len() ==> #[trigger] ev[j] == entries@[j]@,
            base.deep_view() == Seq::<Seq<char>>::empty(),
            forall|j: int| 0 <= j < i ==> report_ok(#[trigger] ev[j]),
            plans.deep_view() == doc_plan_spec(ev.subrange(0, i as int)),
        decreases entries.len() - i,
    {
        let e = &entries[i];
        let ghost prev = plans.deep_view();
        match e.fs_type {
            EntryType::Report => {
                match (&e.directories, &e.files) {
                    (Option::Some(d), Option::Some(f)) => {
                        plans.push(RootPlan::Summary(report_line(*d, *f)));
                    },
                    _ => {
                        return Result::Err(PlanError::MissingReportCounts { index: i });
                    },
                }
            },
            _ => {
                let acts = walk_entry(e, &base);
                plans.push(RootPlan::Actions(acts));
            },
        }
        proof {
            assert(plans.deep_view() =~= prev.push(root_plan_spec(ev[i as int])));
            assert(doc_plan_spec(ev.subrange(0, i + 1)) =~= prev.push(
                root_plan_spec(ev[i as int]),
            ));
        }
        i += 1;
    }
    proof {
        assert(ev.subrange(0, ev.len() as int) =~= ev);
        assert(plans.deep_view() =~= doc_plan_spec(ev));
    }
    Result::Ok(plans)
}

/// `p` names the output directory, the directory `q` lives in, one
/// further up, or `q` itself.
pub open spec fn is_prefix_spec(p: Seq<Seq<char>>, q: Seq<Seq<char>>) -> bool {
    p.len() <= q.len() && p == q.subrange(0, p.len() as int)
}

pub fn is_path_prefix(p: &Vec<String>, q: &Vec<String>) -> (r: bool)
    ensures
        r == is_prefix_spec(p.deep_view(), q.deep_view()),
{
    if p.len() > q.len() {
        return false;
    }
    let mut i: usize = 0;
    while i < p.len()
        invariant
            i <= p.len(),
            p.len() <= q.len(),
            forall|j: int| 0 <= j < i ==> #[trigger] p.deep_view()[j] == q.deep_view()[j],
        decreases p.len() - i,
    {
        if !(p[i] == q[i]) {
            proof {
                assert(p.deep_view()[i as int] != q.deep_view()[i as int]);
                assert(!is_prefix_spec(p.deep_view(), q.deep_view())) by {
                    if is_prefix_spec(p.deep_view(), q.deep_view()) {
                        assert(p.deep_view()[i as int] == q.deep_view().subrange(
                            0,
                            p.deep_view().len() as int,
                        )[i as int]);
                    }
                }
            }
            return false;
        }
        i += 1;
    }
    proof {
        assert(p.deep_view() =~= q.deep_view().subrange(0, p.deep_view().len() as int));
    }
    true
}

/// A creation that failed poisons its whole subtree: an action is skipped
/// exactly when some already-failed path is a prefix of its own, so
/// nothing is attempted under a parent that could not be made.
pub fn should_skip(path: &Vec<String>, failed: &Vec<Vec<String>>) -> (r: bool)
    ensures
        r == exists|i: int|
            0 <= i < failed.deep_view().len() && is_prefix_spec(
                #[trigger] failed.deep_view()[i],
                path.deep_view(),
            ),
{
    let mut i: usize = 0;
    while i < failed.len()
        invariant
            i <= failed.len(),
            forall|j: int|
                0 <= j < i ==> !is_prefix_spec(
                    #[trigger] failed.deep_view()[j],
                    path.deep_view(),
                ),
        decreases failed.len() - i,
    {
        if is_path_prefix(&failed[i], path) {
            proof {
                assert(is_prefix_spec(failed.deep_view()[i as int], path.deep_view()));
            }
            return true;
        }
        i += 1;
    }
    false
}

pub proof fn lemma_prefix_reflexive(p: Seq<Seq<char>>)
    ensures
        is_prefix_spec(p, p),
{
    assert(p.subrange(0, p.len() as int) =~= p);
}

pub proof fn lemma_prefix_push(p: Seq<Seq<char>>, n: Seq<char>)
    ensures
        is_prefix_spec(p, p.push(n)),
{
    assert(p.push(n).subrange(0, p.len() as int) =~= p);
}

pub proof fn lemma_prefix_transitive(a: Seq<Seq<char>>, b: Seq<Seq<char>>, c: Seq<Seq<char>>)
    requires
        is_prefix_spec(a, b),
        is_prefix_spec(b, c),
    ensures
        is_prefix_spec(a, c),
{
    assert forall|i: int| 0 <= i < a.len() implies a[i] == c.subrange(0, a.len() as int)[i] by {
        assert(a[i] == b.subrange(0, a.len() as int)[i]);
        assert(b[i] == c.subrange(0, b.len() as int)[i]);
    }
    assert(a =~= c.subrange(0, a.len() as int));
}

/// Containment: every action of a walk lies at or under the path the
/// walk starts from. A subtree's materialization stays inside its
/// parent's directory, and one sibling's walk places nothing under a path
/// that another sibling's name composes.
pub proof fn lemma_walk_paths_extend(e: EntryView, path: Seq<Seq<char>>)
    ensures
        forall|k: int|
            0 <= k < walk_spec(e, path).len() ==> is_prefix_spec(
                path,
                action_path(#[trigger] walk_spec(e, path)[k]),
            ),
    decreases e,
{
    let eff = effective_path(e, path);
    match e.name {
        Option::Some(n) => lemma_prefix_push(path, n),
        Option::None => lemma_prefix_reflexive(path),
    }
    let own = own_actions(e, eff);
    assert(forall|k: int| 0 <= k < own.len() ==> action_path(#[trigger] own[k]) == eff);
    match e.contents {
        Option::Some(cs) => {
            lemma_walk_children_paths_extend(cs, eff);
            let rest = walk_children_spec(cs, eff);
            assert forall|k: int| 0 <= k < walk_spec(e, path).len() implies is_prefix_spec(
                path,
                action_path(#[trigger] walk_spec(e, path)[k]),
            ) by {
                if k < own.len() {
                    assert(walk_spec(e, path)[k] == own[k]);
                } else {
                    assert(walk_spec(e, path)[k] == rest[k - own.len()]);
                    lemma_prefix_transitive(
                        path,
                        eff,
                        action_path(rest[k - own.len()]),
                    );
                }
            }
        },
        Option::None => {
            assert forall|k: int| 0 <= k < walk_spec(e, path).len() implies is_prefix_spec(
                path,
                action_path(#[trigger] walk_spec(e, path)[k]),
            ) by {
                assert(walk_spec(e, path)[k] == own[k]);
            }
        },
    }
}

pub proof fn lemma_walk_children_paths_extend(cs: Seq<EntryView>, path: Seq<Seq<char>>)
    ensures
        forall|k: int|
            0 <= k < walk_children_spec(cs, path).len() ==> is_prefix_spec(
                path,
                action_path(#[trigger] walk_children_spec(cs, path)[k]),
            ),
    decreases cs,
{
    if cs.len() > 0 {
        lemma_walk_paths_extend(cs[0], path);
        lemma_walk_children_paths_extend(cs.drop_first(), path);
        let head = walk_spec(cs[0], path);
        let rest = walk_children_spec(cs.drop_first(), path);
        assert forall|k: int|
            0 <= k < walk_children_spec(cs, path).len() implies is_prefix_spec(
            path,
            action_path(#[trigger] walk_children_spec(cs, path)[k]),
        ) by {
            if k < head.len() {
                assert(walk_children_spec(cs, path)[k] == head[k]);
            } else {
                assert(walk_children_spec(cs, path)[k] == rest[k - head.len()]);
            }
        }
    }
}

/// Parents come first: a directory's or file's own creation is the very
/// first action of its walk, so the entity exists before anything in its
/// subtree is attempted.
pub proof fn lemma_own_action_first(e: EntryView, path: Seq<Seq<char>>)
    requires
        e.fs_type != EntryType::Report,
    ensures
        walk_spec(e, path).len() >= 1,
        walk_spec(e, path)[0] == own_actions(e, effective_path(e, path))[0],
{
}

/// An unnamed directory root stands for the output directory itself, not
/// for a subdirectory of it: its own action is a directory creation at
/// the walk's base path.
pub proof fn lemma_unnamed_root(e: EntryView, path: Seq<Seq<char>>)
    requires
        e.name is None,
        e.fs_type == EntryType::Directory,
    ensures
        walk_spec(e, path).len() >= 1,
        walk_spec(e, path)[0] == ActionView::MkDir(path),
{
    assert(effective_path(e, path) == path);
    assert(own_actions(e, path)[0] == ActionView::MkDir(path));
}

/// A report entry is out of band: without children it asks for no
/// filesystem action at all.
pub proof fn lemma_report_no_actions(e: EntryView, path: Seq<Seq<char>>)
    requires
        e.fs_type == EntryType::Report,
        e.contents is None,
    ensures
        walk_spec(e, path) == Seq::<ActionView>::empty(),
{
    assert(walk_spec(e, path) =~= Seq::<ActionView>::empty());
}

/// Appending one more child appends that child's walk.
pub proof fn lemma_walk_children_snoc(cs: Seq<EntryView>, e: EntryView, path: Seq<Seq<char>>)
    ensures
        walk_children_spec(cs.push(e), path) == walk_children_spec(cs, path) + walk_spec(e, path),
{
    let single = seq![e];
    assert(cs.push(e) =~= cs + single);
    lemma_walk_children_concat(cs, single, path);
    assert(single.drop_first() =~= Seq::<EntryView>::empty());
    assert(walk_children_spec(single.drop_first(), path) =~= Seq::<ActionView>::empty());
    assert(single[0] == e);
    assert(walk_children_spec(single, path) =~= walk_spec(e, path) + Seq::<ActionView>::empty());
    assert(walk_spec(e, path) + Seq::<ActionView>::empty() =~= walk_spec(e, path));
}

} // verus!
