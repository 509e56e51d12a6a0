//! The renderer: turns a produced tree into its textual form, one line per
//! node, with a connector in front of the name and one four-column block per
//! ancestor level. A pure function of the tree; the output depends on
//! nothing else.

use vstd::prelude::*;

use crate::models::TreeNode;

verus! {

/// The four-column block for one ancestor level: a continuation bar while
/// that ancestor still has siblings to come, blank space otherwise.
pub open spec fn spec_level_block(has_more: bool) -> Seq<char> {
    if has_more {
        seq!['|', ' ', ' ', ' ']
    } else {
        seq![' ', ' ', ' ', ' ']
    }
}

/// The blocks for all ancestor levels, outermost first.
pub open spec fn spec_indent(ancestor_has_more: Seq<bool>) -> Seq<char>
    decreases ancestor_has_more.len(),
{
    if ancestor_has_more.len() == 0 {
        Seq::<char>::empty()
    } else {
        spec_indent(ancestor_has_more.drop_last()) + spec_level_block(ancestor_has_more.last())
    }
}

/// The node's own connector: a tee while siblings follow, an elbow on the
/// last sibling.
pub open spec fn spec_connector(is_last: bool) -> Seq<char> {
    if is_last {
        seq!['`', '-', '-', ' ']
    } else {
        seq!['|', '-', '-', ' ']
    }
}

/// The inline annotation of a failed listing, empty for a clean node.
pub open spec fn spec_error_note(error: Option<String>) -> Seq<char> {
    match error {
        Some(e) => " [error: "@ + e@ + "]"@,
        None => Seq::<char>::empty(),
    }
}

/// The rendering of one node and its subtree: indent, connector, rendered
/// name, error annotation, newline, then the children with one more
/// ancestor level.
pub open spec fn spec_render_node(
    node: TreeNode,
    ancestor_has_more: Seq<bool>,
    is_last: bool,
) -> Seq<char>
    decreases node,
{
    spec_indent(ancestor_has_more) + spec_connector(is_last) + node.name@ + spec_error_note(
        node.error,
    ) + seq!['\n'] + if node.children@.len() > 0 {
        spec_render_nodes(node.children@, ancestor_has_more.push(!is_last))
    } else {
        Seq::<char>::empty()
    }
}

/// The rendering of a sibling list: each node in turn, the last one with the
/// elbow connector.
pub open spec fn spec_render_nodes(nodes: Seq<TreeNode>, ancestor_has_more: Seq<bool>) -> Seq<
    char,
>
    decreases nodes,
{
    if nodes.len() == 0 {
        Seq::<char>::empty()
    } else {
        spec_render_node(nodes[0], ancestor_has_more, nodes.len() == 1) + spec_render_nodes(
            nodes.drop_first(),
            ancestor_has_more,
        )
    }
}

/// Renders a sibling list at the top level.
pub fn write_children(children: &Vec<TreeNode>) -> (out: String)
    ensures
        out@ == spec_render_nodes(children@, Seq::<bool>::empty()),
{
    let mut out = String::new();
    let ancestors: Vec<bool> = Vec::new();
    write_children_inner(&mut out, children, &ancestors);
    out
}

/// Appends the rendering of a sibling list, below the given ancestor levels.
pub fn write_children_inner(
    out: &mut String,
    children: &Vec<TreeNode>,
    ancestor_has_more: &Vec<bool>,
)
    ensures
        final(out)@ == old(out)@ + spec_render_nodes(children@, ancestor_has_more@),
    decreases children@,
{
    let ghost entry_out = out@;
    let mut index: usize = 0;
    proof {
        assert(children@.skip(0) =~= children@);
    }
    while index < children.len()
        invariant
            index <= children@.len(),
            entry_out + spec_render_nodes(children@, ancestor_has_more@) == out@
                + spec_render_nodes(children@.skip(index as int), ancestor_has_more@),
        decreases children@.len() - index,
    {
        let ghost loop_out = out@;
        let ghost rest = children@.skip(index as int);
        let node = &children[index];
        let is_last = index + 1 == children.len();
        proof {
            assert(rest[0] == children@[index as int]);
            assert(rest.len() == 1 <==> is_last);
            assert(rest.drop_first() =~= children@.skip(index + 1));
        }
        let mut level: usize = 0;
        proof {
            assert(ancestor_has_more@.take(0) =~= Seq::<bool>::empty());
        }
        while level < ancestor_has_more.len()
            invariant
                level <= ancestor_has_more@.len(),
                out@ == loop_out + spec_indent(ancestor_has_more@.take(level as int)),
            decreases ancestor_has_more@.len() - level,
        {
            if ancestor_has_more[level] {
                out.append("|   ");
            } else {
                out.append("    ");
            }
            proof {
                reveal_strlit("|   ");
                reveal_strlit("    ");
                assert(ancestor_has_more@.take(level + 1).drop_last() =~= ancestor_has_more@.take(
                    level as int,
                ));
                assert(out@ =~= loop_out + spec_indent(ancestor_has_more@.take(level + 1)));
            }
            level = level + 1;
        }
        proof {
            assert(ancestor_has_more@.take(ancestor_has_more@.len() as int)
                =~= ancestor_has_more@);
        }
        if is_last {
            out.append("`-- ");
        } else {
            out.append("|-- ");
        }
        proof {
            reveal_strlit("`-- ");
            reveal_strlit("|-- ");
            assert(spec_connector(true) =~= "`-- "@);
            assert(spec_connector(false) =~= "|-- "@);
        }
        out.append(node.name.as_str());
        if let Some(message) = &node.error {
            out.append(" [error: ");
            out.append(message.as_str());
            out.append("]");
        }
        out.append("\n");
        proof {
            reveal_strlit("\n");
            assert("\n"@ =~= seq!['\n']);
            assert(out@ =~= loop_out + spec_indent(ancestor_has_more@) + spec_connector(is_last)
                + node.name@ + spec_error_note(node.error) + seq!['\n']);
        }
        if node.children.len() > 0 {
            let mut next_ancestors = copy_flags(ancestor_has_more);
            next_ancestors.push(!is_last);
            proof {
                assert(decreases_to!(children@ => children@[index as int]));
                assert(decreases_to!(children@[index as int] => children@[index as int].children));
                assert(decreases_to!(children@[index as int].children
                    => children@[index as int].children@));
                assert(decreases_to!(children@ => children@[index as int].children@));
            }
            write_children_inner(out, &node.children, &next_ancestors);
        }
        proof {
            assert(out@ =~= loop_out + spec_render_node(
                rest[0],
                ancestor_has_more@,
                rest.len() == 1,
            ));
            assert(entry_out + spec_render_nodes(children@, ancestor_has_more@) =~= out@
                + spec_render_nodes(children@.skip(index + 1), ancestor_has_more@));
        }
        index = index + 1;
    }
    proof {
        assert(children@.skip(children@.len() as int) =~= Seq::<TreeNode>::empty());
        assert(out@ =~= entry_out + spec_render_nodes(children@, ancestor_has_more@));
    }
}

/// Copies the ancestor flags for the next level down.
fn copy_flags(flags: &Vec<bool>) -> (r: Vec<bool>)
    ensures
        r@ == flags@,
{
    let mut r: Vec<bool> = Vec::new();
    let mut i: usize = 0;
    while i < flags.len()
        invariant
            i <= flags@.len(),
            r@ =~= flags@.take(i as int),
        decreases flags@.len() - i,
    {
        r.push(flags[i]);
        i = i + 1;
    }
    proof {
        assert(flags@.take(flags@.len() as int) =~= flags@);
    }
    r
}

} // verus!
