//! The ordering policy: an entry's sort key is its rendered name (the base
//! name, plus a trailing `/` for directories), compared lexicographically;
//! with directories-first, every directory sorts before every non-directory
//! and the name order applies within each group.

use vstd::prelude::*;
use vstd::relations::sorted_by;

use crate::models::{EntryKind, FsEntry, TreeNode};
use crate::text::{
    lemma_lex_leq_antisymmetric, lemma_lex_leq_reflexive, lemma_lex_leq_total,
    lemma_lex_leq_transitive, lex_leq, str_leq,
};

verus! {

/// The display name of an entry: its base name, with a trailing `/` appended
/// iff the entry is a directory.
pub open spec fn spec_rendered_name(name: Seq<char>, kind: EntryKind) -> Seq<char> {
    if kind == EntryKind::Directory {
        name.push('/')
    } else {
        name
    }
}

/// Renders an entry's display name.
pub fn rendered_name(name: &str, kind: EntryKind) -> (r: String)
    ensures
        r@ == spec_rendered_name(name@, kind),
{
    let mut r = name.to_owned();
    if kind == EntryKind::Directory {
        r.append("/");
        proof {
            reveal_strlit("/");
            assert(r@ =~= name@.push('/'));
        }
    }
    r
}

/// The sorting relation on entries, parameterised by the directories-first
/// policy: directories precede non-directories when the policy is on, and
/// otherwise the rendered names decide, lexicographically.
pub open spec fn entry_leq(a: FsEntry, b: FsEntry, dirs_first: bool) -> bool {
    if dirs_first && ((a.kind == EntryKind::Directory) != (b.kind == EntryKind::Directory)) {
        a.kind == EntryKind::Directory
    } else {
        lex_leq(spec_rendered_name(a.name@, a.kind), spec_rendered_name(b.name@, b.kind))
    }
}

/// The sorting relation as a binary function, for use with `sorted_by`.
pub open spec fn entry_order(dirs_first: bool) -> spec_fn(FsEntry, FsEntry) -> bool {
    |a: FsEntry, b: FsEntry| entry_leq(a, b, dirs_first)
}

/// The same relation read off produced tree nodes, whose `name` field already
/// is the rendered name.
pub open spec fn node_leq(a: TreeNode, b: TreeNode, dirs_first: bool) -> bool {
    if dirs_first && ((a.kind == EntryKind::Directory) != (b.kind == EntryKind::Directory)) {
        a.kind == EntryKind::Directory
    } else {
        lex_leq(a.name@, b.name@)
    }
}

/// The node relation as a binary function, for use with `sorted_by`.
pub open spec fn node_order(dirs_first: bool) -> spec_fn(TreeNode, TreeNode) -> bool {
    |a: TreeNode, b: TreeNode| node_leq(a, b, dirs_first)
}

/// Rendered names are totally ordered: any two are comparable, and they
/// compare at-or-below each other exactly when they are equal — so of
/// "less", "equal" and "greater" exactly one holds of any pair.
pub proof fn lemma_rendered_order_trichotomy(a: Seq<char>, b: Seq<char>)
    ensures
        lex_leq(a, b) || lex_leq(b, a),
        (lex_leq(a, b) && lex_leq(b, a)) <==> a == b,
{
    lemma_lex_leq_total(a, b);
    if lex_leq(a, b) && lex_leq(b, a) {
        lemma_lex_leq_antisymmetric(a, b);
    }
    if a == b {
        lemma_lex_leq_reflexive(a);
    }
}

/// The order on rendered names chains: it is transitive.
pub proof fn lemma_rendered_order_transitive(a: Seq<char>, b: Seq<char>, c: Seq<char>)
    requires
        lex_leq(a, b),
        lex_leq(b, c),
    ensures
        lex_leq(a, c),
{
    lemma_lex_leq_transitive(a, b, c);
}

/// The entry order is total and transitive, under either directories-first
/// policy.
pub proof fn lemma_entry_order_properties(a: FsEntry, b: FsEntry, c: FsEntry, dirs_first: bool)
    ensures
        entry_leq(a, b, dirs_first) || entry_leq(b, a, dirs_first),
        entry_leq(a, b, dirs_first) && entry_leq(b, c, dirs_first) ==> entry_leq(
            a,
            c,
            dirs_first,
        ),
{
    let ra = spec_rendered_name(a.name@, a.kind);
    let rb = spec_rendered_name(b.name@, b.kind);
    let rc = spec_rendered_name(c.name@, c.kind);
    lemma_lex_leq_total(ra, rb);
    if lex_leq(ra, rb) && lex_leq(rb, rc) {
        lemma_lex_leq_transitive(ra, rb, rc);
    }
}

/// With directories-first, every directory entry sorts strictly before every
/// non-directory entry, whatever the names.
pub proof fn lemma_dirs_first_directories_precede(a: FsEntry, b: FsEntry)
    requires
        a.kind == EntryKind::Directory,
        b.kind != EntryKind::Directory,
    ensures
        entry_leq(a, b, true),
        !entry_leq(b, a, true),
{
}

/// Compares two entries under the sorting relation.
pub fn entry_leq_exec(a: &FsEntry, b: &FsEntry, dirs_first: bool) -> (r: bool)
    ensures
        r == entry_leq(*a, *b, dirs_first),
{
    if dirs_first {
        let a_dir = a.kind == EntryKind::Directory;
        let b_dir = b.kind == EntryKind::Directory;
        if a_dir != b_dir {
            return a_dir;
        }
    }
    let ra = rendered_name(a.name.as_str(), a.kind);
    let rb = rendered_name(b.name.as_str(), b.kind);
    str_leq(ra.as_str(), rb.as_str())
}

/// Sorts entries by the sorting relation, by insertion: the result is a
/// permutation of the input, in order.
pub fn sort_entries(entries: &mut Vec<FsEntry>, dirs_first: bool)
    ensures
        final(entries)@.to_multiset() == old(entries)@.to_multiset(),
        final(entries)@.len() == old(entries)@.len(),
        sorted_by(final(entries)@, entry_order(dirs_first)),
{
    broadcast use vstd::seq_lib::to_multiset_remove;
    broadcast use vstd::seq_lib::to_multiset_insert;
    broadcast use vstd::seq_lib::to_multiset_contains;
    broadcast use vstd::multiset::group_multiset_axioms;

    let ghost ord = entry_order(dirs_first);
    if entries.len() < 2 {
        return;
    }
    let mut i: usize = 1;
    while i < entries.len()
        invariant
            1 <= i <= entries@.len(),
            entries@.len() == old(entries)@.len(),
            entries@.to_multiset() == old(entries)@.to_multiset(),
            ord == entry_order(dirs_first),
            sorted_by(entries@.take(i as int), ord),
        decreases entries@.len() - i,
    {
        let ghost s = entries@;
        let ghost x = entries@[i as int];
        let mut p: usize = 0;
        loop
            invariant_except_break
                0 <= p <= i < entries@.len(),
                entries@ == s,
                x == s[i as int],
                ord == entry_order(dirs_first),
                forall|j: int| 0 <= j < p ==> #[trigger] ord(s[j], x),
            ensures
                0 <= p <= i < entries@.len(),
                entries@ == s,
                forall|j: int| 0 <= j < p ==> #[trigger] ord(s[j], x),
                p == i || !entry_leq(s[p as int], x, dirs_first),
            decreases i - p,
        {
            if p == i {
                break;
            }
            let below = entry_leq_exec(&entries[p], &entries[i], dirs_first);
            if !below {
                break;
            }
            proof {
                assert(entry_leq(s[p as int], x, dirs_first));
                assert(ord(s[p as int], x));
            }
            p = p + 1;
        }
        proof {
            // Entries at or after the insertion point sort at-or-above the
            // inserted one.
            let st = s.take(i as int);
            if p < i {
                lemma_entry_order_properties(s[p as int], x, x, dirs_first);
                assert(ord(x, s[p as int]));
                assert forall|j: int| p <= j < i implies #[trigger] ord(x, s[j]) by {
                    if j > p {
                        assert(ord(st[p as int], st[j]));
                        lemma_entry_order_properties(x, s[p as int], s[j], dirs_first);
                    }
                }
            }
        }
        let x_exec = entries.remove(i);
        entries.insert(p, x_exec);
        proof {
            let st = s.take(i as int);
            let t = s.remove(i as int).insert(p as int, x);
            assert(entries@ == t);
            assert(s.contains(x)) by {
                assert(s[i as int] == x);
            }
            vstd::seq_lib::to_multiset_remove(s, i as int);
            vstd::seq_lib::to_multiset_insert(s.remove(i as int), p as int, x);
            vstd::seq_lib::to_multiset_contains(s, x);
            assert(t.to_multiset() == s.to_multiset().remove(x).insert(x));
            assert(s.to_multiset().remove(x).insert(x) =~= s.to_multiset());
            assert(entries@.to_multiset() == s.to_multiset());
            let tt = t.take(i + 1);
            assert forall|m: int, n: int| 0 <= m < n < tt.len() implies #[trigger] ord(
                tt[m],
                tt[n],
            ) by {
                assert(n <= i);
                if n < p {
                    assert(tt[m] == s[m] && tt[n] == s[n]);
                    assert(ord(st[m], st[n]));
                } else if n == p {
                    assert(tt[m] == s[m] && tt[n] == x);
                    assert(ord(s[m], x));
                } else {
                    // The entry at n is an original one, shifted right by the
                    // insertion; n - 1 indexes it in the unsorted prefix.
                    assert(tt[n] == s[n - 1]);
                    if m < p {
                        assert(tt[m] == s[m]);
                        assert(ord(st[m], st[n - 1]));
                    } else if m == p {
                        assert(tt[m] == x);
                        assert(ord(x, s[n - 1]));
                    } else {
                        assert(tt[m] == s[m - 1]);
                        assert(ord(st[m - 1], st[n - 1]));
                    }
                }
            }
            assert(sorted_by(t.take(i + 1), ord));
        }
        i = i + 1;
    }
    proof {
        assert(entries@.take(entries@.len() as int) =~= entries@);
    }
}

} // verus!
