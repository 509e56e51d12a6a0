//! The traversal engine: walks a directory tree depth-first through the
//! filesystem capability, filters and sorts each directory's entries, limits
//! the recursion depth, and records a failed listing in the failing node
//! itself instead of aborting the walk.

use vstd::prelude::*;
use vstd::relations::sorted_by;

use crate::fs::FileSystem;
use crate::models::{DirTree, EntryKind, FsEntry, TreeNode};
use crate::order::{
    entry_leq, entry_order, node_leq, node_order, rendered_name, sort_entries,
    spec_rendered_name,
};
use crate::patterns::{
    model_matches, regex_compiles, spec_glob_regexes, CompiledPatterns, PatternsModel,
};

verus! {

/// Configuration of a walk. Absence of `max_depth` means unbounded
/// recursion; absence of `ignore_pattern` means nothing is ignored.
pub struct WalkOptions {
    pub max_depth: Option<usize>,
    pub ignore_pattern: Option<String>,
    pub show_hidden: bool,
    pub dirs_only: bool,
    pub dirs_first: bool,
}

impl Default for WalkOptions {
    /// The defaults: unbounded depth, no ignore pattern, hidden entries
    /// shown, all kinds listed, one mixed sort order.
    fn default() -> (r: Self)
        ensures
            r.max_depth is None,
            r.ignore_pattern is None,
            r.show_hidden,
            !r.dirs_only,
            !r.dirs_first,
    {
        WalkOptions {
            max_depth: None,
            ignore_pattern: None,
            show_hidden: true,
            dirs_only: false,
            dirs_first: false,
        }
    }
}

/// A hidden entry: its name starts with a dot.
pub open spec fn spec_is_hidden(name: Seq<char>) -> bool {
    name.len() > 0 && name[0] == '.'
}

/// The model of an optional compiled pattern set.
pub open spec fn pats_view(p: Option<CompiledPatterns>) -> Option<PatternsModel> {
    match p {
        Some(cp) => Some(cp@),
        None => None,
    }
}

/// Well-formedness of an optional compiled pattern set.
pub open spec fn pats_wf(p: Option<CompiledPatterns>) -> bool {
    match p {
        Some(cp) => cp.wf(),
        None => true,
    }
}

/// Whether an entry survives all active filters: hidden entries are dropped
/// unless shown, entries matching the ignore patterns are dropped, and
/// non-directories are dropped when only directories are listed. The filters
/// compose by logical AND.
pub open spec fn spec_keep_entry(
    e: FsEntry,
    show_hidden: bool,
    dirs_only: bool,
    pats: Option<PatternsModel>,
) -> bool {
    &&& (show_hidden || !spec_is_hidden(e.name@))
    &&& (match pats {
        Some(m) => !model_matches(m, e.name@),
        None => true,
    })
    &&& (!dirs_only || e.kind == EntryKind::Directory)
}

/// The surviving-entry test as a predicate, for use with `filter`.
pub open spec fn keep_pred(
    show_hidden: bool,
    dirs_only: bool,
    pats: Option<PatternsModel>,
) -> spec_fn(FsEntry) -> bool {
    |e: FsEntry| spec_keep_entry(e, show_hidden, dirs_only, pats)
}

/// The hidden-entry filter alone.
pub open spec fn hidden_pred(show_hidden: bool) -> spec_fn(FsEntry) -> bool {
    |e: FsEntry| show_hidden || !spec_is_hidden(e.name@)
}

/// The ignore-pattern filter alone.
pub open spec fn ignore_pred(pats: Option<PatternsModel>) -> spec_fn(FsEntry) -> bool {
    |e: FsEntry|
        match pats {
            Some(m) => !model_matches(m, e.name@),
            None => true,
        }
}

/// The directories-only filter alone.
pub open spec fn dirs_pred(dirs_only: bool) -> spec_fn(FsEntry) -> bool {
    |e: FsEntry| !dirs_only || e.kind == EntryKind::Directory
}

/// The filters compose: surviving all of them at once is the same as
/// applying, in order, the hidden filter, the ignore filter and the
/// directories-only filter, each a pure predicate of the entry.
pub proof fn lemma_filters_compose(
    entries: Seq<FsEntry>,
    show_hidden: bool,
    dirs_only: bool,
    pats: Option<PatternsModel>,
)
    ensures
        entries.filter(keep_pred(show_hidden, dirs_only, pats)) == entries.filter(
            hidden_pred(show_hidden),
        ).filter(ignore_pred(pats)).filter(dirs_pred(dirs_only)),
    decreases entries.len(),
{
    broadcast use vstd::prelude::Seq::lemma_filter_push;

    let all = keep_pred(show_hidden, dirs_only, pats);
    let h = hidden_pred(show_hidden);
    let g = ignore_pred(pats);
    let d = dirs_pred(dirs_only);
    if entries.len() == 0 {
        assert(entries.filter(all) =~= Seq::<FsEntry>::empty()) by {
            reveal(Seq::filter);
        }
        assert(entries.filter(h) =~= Seq::<FsEntry>::empty()) by {
            reveal(Seq::filter);
        }
        assert(entries.filter(h).filter(g) =~= Seq::<FsEntry>::empty()) by {
            reveal(Seq::filter);
        }
        assert(entries.filter(h).filter(g).filter(d) =~= Seq::<FsEntry>::empty()) by {
            reveal(Seq::filter);
        }
    } else {
        let s = entries.drop_last();
        let e = entries.last();
        lemma_filters_compose(s, show_hidden, dirs_only, pats);
        assert(entries =~= s.push(e));
        assert(all(e) == (h(e) && g(e) && d(e)));
        assert(s.push(e).filter(all) == if all(e) {
            s.filter(all).push(e)
        } else {
            s.filter(all)
        });
        assert(s.push(e).filter(h) == if h(e) {
            s.filter(h).push(e)
        } else {
            s.filter(h)
        });
        if h(e) {
            assert(s.filter(h).push(e).filter(g) == if g(e) {
                s.filter(h).filter(g).push(e)
            } else {
                s.filter(h).filter(g)
            });
            if g(e) {
                assert(s.filter(h).filter(g).push(e).filter(d) == if d(e) {
                    s.filter(h).filter(g).filter(d).push(e)
                } else {
                    s.filter(h).filter(g).filter(d)
                });
            }
        }
    }
}

/// Tests one entry against the active filters.
pub fn keep_entry(e: &FsEntry, options: &WalkOptions, patterns: &Option<CompiledPatterns>) -> (r:
    bool)
    requires
        pats_wf(*patterns),
    ensures
        r == spec_keep_entry(*e, options.show_hidden, options.dirs_only, pats_view(*patterns)),
{
    if !options.show_hidden {
        if e.name.unicode_len() > 0 && e.name.as_str().get_char(0) == '.' {
            return false;
        }
    }
    if let Some(cp) = patterns {
        if cp.matches(e.name.as_str()) {
            return false;
        }
    }
    if options.dirs_only && !(e.kind == EntryKind::Directory) {
        return false;
    }
    true
}

/// Keeps exactly the entries that survive the active filters, in their
/// original order.
fn filter_entries(
    entries: Vec<FsEntry>,
    options: &WalkOptions,
    patterns: &Option<CompiledPatterns>,
) -> (r: Vec<FsEntry>)
    requires
        pats_wf(*patterns),
    ensures
        r@ == entries@.filter(
            keep_pred(options.show_hidden, options.dirs_only, pats_view(*patterns)),
        ),
{
    broadcast use vstd::prelude::Seq::lemma_filter_push;

    let ghost orig = entries@;
    let mut entries = entries;
    let mut r: Vec<FsEntry> = Vec::new();
    let ghost pred = keep_pred(options.show_hidden, options.dirs_only, pats_view(*patterns));
    proof {
        assert(orig.take(0) =~= Seq::<FsEntry>::empty());
        assert(orig.take(0).filter(pred) =~= Seq::<FsEntry>::empty()) by {
            reveal(Seq::filter);
        }
        assert(orig.skip(0) =~= orig);
    }
    while entries.len() > 0
        invariant
            pats_wf(*patterns),
            pred == keep_pred(options.show_hidden, options.dirs_only, pats_view(*patterns)),
            entries@.len() <= orig.len(),
            entries@ == orig.skip(orig.len() - entries@.len()),
            r@ == orig.take(orig.len() - entries@.len()).filter(pred),
        decreases entries@.len(),
    {
        let ghost k = orig.len() - entries@.len();
        let e = entries.remove(0);
        proof {
            assert(e == orig[k]);
            assert(entries@ =~= orig.skip(k + 1));
        }
        let kept = keep_entry(&e, options, patterns);
        proof {
            assert(kept == pred(orig[k]));
            assert(orig.take(k + 1) =~= orig.take(k).push(orig[k]));
            orig.take(k).lemma_filter_push(orig[k], pred);
        }
        if kept {
            r.push(e);
        }
        proof {
            assert(r@ =~= orig.take(k + 1).filter(pred));
        }
    }
    proof {
        assert(orig.take(orig.len() as int) =~= orig);
    }
    r
}

/// Filters and sorts one directory's entries: the result holds exactly the
/// surviving entries, ordered by the sorting relation.
pub fn prepare_entries(
    entries: Vec<FsEntry>,
    options: &WalkOptions,
    patterns: &Option<CompiledPatterns>,
) -> (r: Vec<FsEntry>)
    requires
        pats_wf(*patterns),
    ensures
        r@.to_multiset() == entries@.filter(
            keep_pred(options.show_hidden, options.dirs_only, pats_view(*patterns)),
        ).to_multiset(),
        r@.len() == entries@.filter(
            keep_pred(options.show_hidden, options.dirs_only, pats_view(*patterns)),
        ).len(),
        sorted_by(r@, entry_order(options.dirs_first)),
{
    let mut kept = filter_entries(entries, options, patterns);
    sort_entries(&mut kept, options.dirs_first);
    kept
}

/// Removing a filter can only add entries back, never remove more: an entry
/// kept under some settings is also kept when hidden entries are allowed,
/// when the directories-only restriction is lifted, or when the ignore
/// patterns are dropped.
pub proof fn lemma_filter_relaxation(
    entries: Seq<FsEntry>,
    show_hidden: bool,
    dirs_only: bool,
    pats: Option<PatternsModel>,
    e: FsEntry,
)
    requires
        entries.filter(keep_pred(show_hidden, dirs_only, pats)).contains(e),
    ensures
        entries.filter(keep_pred(true, dirs_only, pats)).contains(e),
        entries.filter(keep_pred(show_hidden, false, pats)).contains(e),
        entries.filter(keep_pred(show_hidden, dirs_only, None)).contains(e),
{
    let strict = keep_pred(show_hidden, dirs_only, pats);
    let f = entries.filter(strict);
    let j = choose|j: int| 0 <= j < f.len() && f[j] == e;
    entries.lemma_filter_pred(strict, j);
    assert(strict(e));
    entries.lemma_filter_contains_rev(strict, e);
    assert(entries.contains(e));
    let i = choose|i: int| 0 <= i < entries.len() && entries[i] == e;
    assert(keep_pred(true, dirs_only, pats)(e));
    assert(keep_pred(show_hidden, false, pats)(e));
    assert(keep_pred(show_hidden, dirs_only, None)(e));
    entries.lemma_filter_contains(keep_pred(true, dirs_only, pats), i);
    entries.lemma_filter_contains(keep_pred(show_hidden, false, pats), i);
    entries.lemma_filter_contains(keep_pred(show_hidden, dirs_only, None), i);
}

/// Whether a node listed at `depth` may have its directories expanded:
/// always when no depth limit is set, and otherwise only while the next
/// level still lies within the limit. The root's immediate children are at
/// depth zero. The depth counter itself is also kept within the machine
/// word, a bound no directory tree a capability can list will reach.
pub open spec fn can_recurse_at(depth: int, max_depth: Option<usize>) -> bool {
    depth < usize::MAX && (match max_depth {
        None => true,
        Some(m) => depth + 1 < m,
    })
}

/// Tests the recursion-permission rule.
fn should_recurse(depth: usize, max_depth: &Option<usize>) -> (r: bool)
    ensures
        r == can_recurse_at(depth as int, *max_depth),
{
    if depth == usize::MAX {
        return false;
    }
    match max_depth {
        None => true,
        Some(m) => depth + 1 < *m,
    }
}

/// Well-formedness of one produced node, listed at `depth`: a directory's
/// rendered name carries the trailing slash; only directories have children
/// or a listing error; an annotated node is childless; children and listing
/// annotations exist only where the depth limit admits descending — a
/// depth-barred directory is never listed, so it can carry neither — and
/// the children are themselves well-formed one level down.
pub open spec fn node_wf(node: TreeNode, depth: int, o: WalkOptions) -> bool
    decreases node,
{
    &&& (node.kind == EntryKind::Directory ==> node.name@.len() > 0 && node.name@.last() == '/')
    &&& (node.kind != EntryKind::Directory ==> node.children@.len() == 0 && node.error is None)
    &&& (node.error is Some ==> node.children@.len() == 0)
    &&& (node.children@.len() > 0 ==> can_recurse_at(depth, o.max_depth))
    &&& (node.error is Some ==> can_recurse_at(depth, o.max_depth))
    &&& nodes_wf(node.children@, depth + 1, o)
}

/// Well-formedness of a produced sibling list: the nodes are sorted by the
/// sorting relation, and each is well-formed.
pub open spec fn nodes_wf(nodes: Seq<TreeNode>, depth: int, o: WalkOptions) -> bool
    decreases nodes,
{
    &&& sorted_by(nodes, node_order(o.dirs_first))
    &&& (forall|i: int| 0 <= i < nodes.len() ==> node_wf(#[trigger] nodes[i], depth, o))
}

/// All nodes of these subtrees lie within `h` further levels: an empty bound
/// admits no nodes at all.
pub open spec fn nodes_height_at_most(nodes: Seq<TreeNode>, h: int) -> bool
    decreases nodes,
{
    forall|i: int|
        0 <= i < nodes.len() ==> h >= 1 && nodes_height_at_most(
            (#[trigger] nodes[i]).children@,
            h - 1,
        )
}

/// Depth-limiting is exact on the engine's side: in a well-formed tree built
/// under `maxDepth = m`, counting the listed siblings as depth `depth`, no
/// node lies at tree-depth `m` or beyond — for the walk's root children
/// (depth zero) the deepest possible node sits at tree-depth `m - 1`.
pub proof fn lemma_depth_limited(nodes: Seq<TreeNode>, depth: int, o: WalkOptions)
    requires
        nodes_wf(nodes, depth, o),
        o.max_depth matches Some(m) && depth < m,
    ensures
        nodes_height_at_most(nodes, o.max_depth->0 - depth),
    decreases nodes,
{
    let m = o.max_depth->0 as int;
    assert forall|i: int| 0 <= i < nodes.len() implies (m - depth >= 1 && nodes_height_at_most(
        (#[trigger] nodes[i]).children@,
        m - depth - 1,
    )) by {
        let node = nodes[i];
        assert(node_wf(node, depth, o));
        if node.children@.len() > 0 {
            assert(can_recurse_at(depth, o.max_depth));
            lemma_depth_limited(node.children@, depth + 1, o);
        } else {
            assert(nodes_height_at_most(node.children@, m - depth - 1));
        }
    }
}

/// Records a failed listing: the capability's message is kept verbatim as
/// the subtree's annotation, and the subtree gets no children.
pub fn failed_listing_tree(message: String) -> (t: DirTree)
    ensures
        t.error == Some(message),
        t.children@.len() == 0,
{
    DirTree { error: Some(message), children: Vec::new() }
}

/// Assembles the node for one surviving entry from its subtree: the entry's
/// rendered name and kind, with the subtree's annotation and children
/// carried over unchanged.
pub fn make_node(entry: &FsEntry, sub: DirTree) -> (node: TreeNode)
    ensures
        node.name@ == spec_rendered_name(entry.name@, entry.kind),
        node.kind == entry.kind,
        node.error == sub.error,
        node.children@ == sub.children@,
{
    TreeNode {
        name: rendered_name(entry.name.as_str(), entry.kind),
        kind: entry.kind,
        error: sub.error,
        children: sub.children,
    }
}

/// Expands one directory's prepared entries into its child nodes: each entry
/// yields exactly one node, in order, carrying the entry's rendered name and
/// kind; a directory is walked one level deeper where the depth limit admits
/// it, and its node carries that subtree's outcome; every other entry — a
/// non-directory, or a directory at the depth limit — stays a clean,
/// childless leaf.
pub fn build_level<F: FileSystem>(
    fs: &F,
    prepared: &Vec<FsEntry>,
    options: &WalkOptions,
    patterns: &Option<CompiledPatterns>,
    depth: usize,
) -> (children: Vec<TreeNode>)
    requires
        pats_wf(*patterns),
    ensures
        children@.len() == prepared@.len(),
        forall|k: int|
            0 <= k < prepared@.len() ==> (#[trigger] children@[k]).name@ == spec_rendered_name(
                prepared@[k].name@,
                prepared@[k].kind,
            ) && children@[k].kind == prepared@[k].kind,
        forall|k: int|
            0 <= k < prepared@.len() ==> node_wf(#[trigger] children@[k], depth as int, *options),
        forall|k: int|
            0 <= k < prepared@.len() && !(prepared@[k].kind == EntryKind::Directory
                && can_recurse_at(depth as int, options.max_depth)) ==> (
            #[trigger] children@[k]).children@.len() == 0 && children@[k].error is None,
    decreases usize::MAX - depth, 0int,
{
    let mut children: Vec<TreeNode> = Vec::new();
    let mut i: usize = 0;
    while i < prepared.len()
        invariant
            pats_wf(*patterns),
            i <= prepared@.len(),
            children@.len() == i,
            forall|k: int|
                0 <= k < i ==> (#[trigger] children@[k]).name@ == spec_rendered_name(
                    prepared@[k].name@,
                    prepared@[k].kind,
                ) && children@[k].kind == prepared@[k].kind,
            forall|k: int|
                0 <= k < i ==> node_wf(#[trigger] children@[k], depth as int, *options),
            forall|k: int|
                0 <= k < i && !(prepared@[k].kind == EntryKind::Directory && can_recurse_at(
                    depth as int,
                    options.max_depth,
                )) ==> (#[trigger] children@[k]).children@.len() == 0 && children@[k].error
                    is None,
        decreases prepared@.len() - i,
    {
        let entry = &prepared[i];
        let sub: DirTree = if entry.kind == EntryKind::Directory && should_recurse(
            depth,
            &options.max_depth,
        ) {
            walk_dir_internal(fs, &entry.path, options, patterns, depth + 1)
        } else {
            DirTree { error: None, children: Vec::new() }
        };
        let node = make_node(entry, sub);
        proof {
            assert(node_wf(node, depth as int, *options));
        }
        children.push(node);
        i = i + 1;
    }
    children
}

/// The recursive step of the walk: lists one directory, filters and sorts
/// its entries, and expands them one level deeper while the depth limit
/// admits it. A failed listing yields an annotated, childless subtree; the
/// walk itself never fails.
fn walk_dir_internal<F: FileSystem>(
    fs: &F,
    dir: &String,
    options: &WalkOptions,
    patterns: &Option<CompiledPatterns>,
    depth: usize,
) -> (t: DirTree)
    requires
        pats_wf(*patterns),
    ensures
        t.error is Some ==> t.children@.len() == 0,
        nodes_wf(t.children@, depth as int, *options),
    decreases usize::MAX - depth, 1int,
{
    let entries = match fs.read_dir(dir) {
        Ok(entries) => entries,
        Err(err) => {
            return failed_listing_tree(err);
        },
    };
    let prepared = prepare_entries(entries, options, patterns);
    let children = build_level(fs, &prepared, options, patterns, depth);
    proof {
        let df = options.dirs_first;
        assert forall|m: int, n: int| 0 <= m < n < children@.len() implies #[trigger] node_order(
            df,
        )(children@[m], children@[n]) by {
            assert(entry_order(df)(prepared@[m], prepared@[n]));
            assert(entry_leq(prepared@[m], prepared@[n], df));
            assert(node_leq(children@[m], children@[n], df));
        }
        assert(sorted_by(children@, node_order(df)));
    }
    DirTree { error: None, children }
}

/// Walks the tree rooted at `dir`. The ignore pattern is compiled once, up
/// front, and the walk fails exactly when that compilation does: when the
/// pattern has glob segments whose translated regexes the regex engine
/// rejects. The error names the offending pattern and no tree is produced;
/// a pattern without glob segments, or no pattern at all, always compiles.
/// On success the tree is well-formed: every sibling list is sorted by the
/// sorting relation, only directories are expanded or annotated, an
/// annotated node is childless, and nodes deeper than the depth limit
/// admits do not occur. What each level holds is fixed one call down by the
/// functions that take a listing's outcome as an argument:
/// `prepare_entries` for the surviving entries and their order,
/// `build_level` and `make_node` for the one node each entry yields, and
/// `failed_listing_tree` for the verbatim annotation of a failed listing.
pub fn walk_dir<F: FileSystem>(fs: &F, dir: &String, options: &WalkOptions) -> (r: Result<
    DirTree,
    String,
>)
    ensures
        r matches Ok(t) ==> {
            &&& nodes_wf(t.children@, 0, *options)
            &&& (t.error is Some ==> t.children@.len() == 0)
        },
        r matches Err(e) ==> {
            &&& options.ignore_pattern matches Some(p)
            &&& e@ == "Invalid ignore pattern: "@ + p@
        },
        r is Err <==> (options.ignore_pattern matches Some(p) && spec_glob_regexes(p@).len() > 0
            && !regex_compiles(spec_glob_regexes(p@))),
{
    let patterns: Option<CompiledPatterns> = match &options.ignore_pattern {
        Some(p) => match CompiledPatterns::new(p.as_str()) {
            Ok(cp) => Some(cp),
            Err(e) => {
                return Err(e);
            },
        },
        None => None,
    };
    Ok(walk_dir_internal(fs, dir, options, &patterns, 0))
}

} // verus!
