//! A deterministic ASCII directory-tree printer: a traversal engine that
//! filters, orders and depth-limits the entries a filesystem capability
//! reports, a compiler for pipe-separated ignore patterns, and a renderer
//! that draws the resulting tree with line connectors.

use vstd::prelude::*;

pub mod models;
pub mod order;
pub mod patterns;
pub mod render;
pub mod fs;
pub mod walk;
pub mod text;

verus! {

/// The characters after the last separator; empty when the path ends with
/// one or is empty.
pub open spec fn spec_last_component(p: Seq<char>) -> Seq<char>
    decreases p.len(),
{
    if p.len() == 0 || p.last() == '/' {
        Seq::<char>::empty()
    } else {
        spec_last_component(p.drop_last()).push(p.last())
    }
}

/// The final named component of a path, read from the end: trailing
/// separators are ignored, a trailing `.` component is skipped, and a
/// trailing `..` component means there is no final name — empty stands for
/// "none", as `Path::file_name` answers `None` there.
pub open spec fn spec_final_name(p: Seq<char>) -> Seq<char>
    decreases p.len(),
{
    if p.len() == 0 {
        Seq::<char>::empty()
    } else if p.last() == '/' {
        spec_final_name(p.drop_last())
    } else {
        let b = spec_last_component(p);
        if b == seq!['.'] {
            spec_final_name(p.drop_last())
        } else if b == seq!['.', '.'] {
            Seq::<char>::empty()
        } else {
            b
        }
    }
}

/// The base name a root path is displayed under: its final named component;
/// a path without one — empty, separators and `.` components only, or
/// ending in `..` — is displayed whole.
pub open spec fn spec_base_name(path: Seq<char>) -> Seq<char> {
    let b = spec_final_name(path);
    if b.len() == 0 {
        path
    } else {
        b
    }
}

/// The name under which the root of the walk is displayed: `.` when the walk
/// was started in the current directory, otherwise the root path's base
/// name.
pub open spec fn spec_root_display_name(path: Seq<char>, is_current_dir: bool) -> Seq<char> {
    if is_current_dir {
        seq!['.']
    } else {
        spec_base_name(path)
    }
}

proof fn lemma_last_component_skip(t: Seq<char>, s: int)
    requires
        0 <= s <= t.len(),
        forall|j: int| s <= j < t.len() ==> t[j] != '/',
        s == 0 || t[s - 1] == '/',
    ensures
        spec_last_component(t) == t.skip(s),
    decreases t.len() - s,
{
    if s == t.len() {
        assert(t.skip(s) =~= Seq::<char>::empty());
    } else {
        assert(t.last() != '/');
        assert(t.len() > 0);
        lemma_last_component_skip(t.drop_last(), s);
        assert(t.drop_last().skip(s).push(t.last()) =~= t.skip(s));
    }
}

/// Computes the display name of the root: `.` for the current directory,
/// otherwise the path's final named component, or the whole path where no
/// such component exists.
pub fn root_display_name(root_path: &str, is_current_dir: bool) -> (r: String)
    ensures
        r@ == spec_root_display_name(root_path@, is_current_dir),
{
    if is_current_dir {
        let r = ".".to_owned();
        proof {
            reveal_strlit(".");
            assert(r@ =~= seq!['.']);
        }
        return r;
    }
    let len = root_path.unicode_len();
    let mut end: usize = len;
    proof {
        assert(root_path@.take(len as int) =~= root_path@);
    }
    loop
        invariant
            !is_current_dir,
            end <= len,
            len == root_path@.len(),
            spec_final_name(root_path@) == spec_final_name(root_path@.take(end as int)),
        decreases end,
    {
        let ghost end_entry = end;
        while end > 0 && root_path.get_char(end - 1) == '/'
            invariant
                end <= end_entry <= len,
                len == root_path@.len(),
                spec_final_name(root_path@) == spec_final_name(root_path@.take(end as int)),
            decreases end,
        {
            proof {
                let t = root_path@.take(end as int);
                assert(t.last() == root_path@[end - 1]);
                assert(t.drop_last() =~= root_path@.take(end - 1));
            }
            end = end - 1;
        }
        if end == 0 {
            // Empty, or separators and dots only: no name to show.
            proof {
                assert(spec_final_name(root_path@.take(0)) =~= Seq::<char>::empty());
            }
            return root_path.to_owned();
        }
        let mut start: usize = end;
        while start > 0 && root_path.get_char(start - 1) != '/'
            invariant
                start <= end <= len,
                len == root_path@.len(),
                forall|j: int| start <= j < end ==> root_path@[j] != '/',
            decreases start,
        {
            start = start - 1;
        }
        let ghost t = root_path@.take(end as int);
        proof {
            assert(t.last() == root_path@[end - 1]);
            assert(t.last() != '/');
            assert(start < end);
            lemma_last_component_skip(t, start as int);
            assert(t.skip(start as int) =~= root_path@.subrange(start as int, end as int));
        }
        let comp_len = end - start;
        if comp_len == 1 && root_path.get_char(start) == '.' {
            // A trailing `.` component names nothing: skip it.
            proof {
                assert(spec_last_component(t) =~= seq!['.']);
                assert(t.drop_last() =~= root_path@.take(end - 1));
            }
            end = end - 1;
        } else if comp_len == 2 && root_path.get_char(start) == '.' && root_path.get_char(
            start + 1,
        ) == '.' {
            // A trailing `..` component leaves no final name.
            proof {
                assert(spec_last_component(t) =~= seq!['.', '.']);
                assert(spec_last_component(t) != seq!['.']);
            }
            return root_path.to_owned();
        } else {
            let base = root_path.substring_char(start, end);
            proof {
                let b = spec_last_component(t);
                assert(b == base@);
                assert(b.len() == comp_len);
                if b == seq!['.'] {
                    assert(b[0] == '.');
                    assert(false);
                }
                if b == seq!['.', '.'] {
                    assert(b[0] == '.' && b[1] == '.');
                    assert(false);
                }
                assert(spec_final_name(t) == b);
            }
            return base.to_owned();
        }
    }
}

} // verus!
