//! Writing a parse tree out as indented text, one node to a line.
//!
//! The tree comes as the list of its nodes in the order in which a walk
//! meets them, each with its depth. A node is written if it is the root,
//! stands in a field, is named or has children; a written node without a
//! written child is followed by its position and, if it is named, its text.

use vstd::prelude::*;
use crate::ansi::append_range;
use crate::palette::Color;

verus! {

/// One node of a parse tree.
pub struct TreeNode {
    /// How far below the root the node stands.
    pub depth: usize,
    /// The name of the field of its parent that the node stands in.
    pub field: Option<Vec<u8>>,
    /// The name of the node's kind.
    pub kind: Vec<u8>,
    /// The node stands for a syntax error.
    pub is_error: bool,
    /// The node may stand anywhere, as a comment does.
    pub is_extra: bool,
    /// The node is named in the grammar.
    pub is_named: bool,
    /// The node has children.
    pub has_children: bool,
    /// The row and the column where the node starts, counted from zero.
    pub row: usize,
    pub column: usize,
    /// The bytes `start..end` of the text are the node's.
    pub start: usize,
    pub end: usize,
}

/// Whether the node is written where it is not the root.
pub open spec fn shown(node: &TreeNode) -> bool {
    node.field.is_some() || node.is_named || node.has_children
}

/// Whether one of the nodes from place `j` on is a child of a node of the
/// given depth and is written; the search ends where the node's subtree
/// ends.
pub open spec fn shown_child_from(nodes: Seq<TreeNode>, depth: int, j: int) -> bool
    decreases nodes.len() - j,
{
    if j < 0 || j >= nodes.len() || nodes[j].depth <= depth {
        false
    } else if nodes[j].depth == depth + 1 && shown(&nodes[j]) {
        true
    } else {
        shown_child_from(nodes, depth, j + 1)
    }
}

/// Every node's text lies inside a text of `len` bytes.
pub open spec fn nodes_in_range(nodes: Seq<TreeNode>, len: nat) -> bool {
    forall|i: int|
        0 <= i < nodes.len() ==> (#[trigger] nodes[i]).start <= nodes[i].end && nodes[i].end <= len
}

/// A number in decimal digits.
pub open spec fn decimal(n: nat) -> Seq<u8>
    decreases n,
{
    if n < 10 {
        seq![(48 + n) as u8]
    } else {
        decimal(n / 10).push((48 + n % 10) as u8)
    }
}

/// Four spaces for each step of depth.
pub open spec fn indent(depth: nat) -> Seq<u8>
    decreases depth,
{
    if depth == 0 {
        seq![]
    } else {
        indent((depth - 1) as nat) + seq![32u8, 32u8, 32u8, 32u8]
    }
}

/// A colour's control sequence where colours are asked for.
pub open spec fn code_of(color: Color, colored: bool) -> Seq<u8> {
    if colored {
        color.ansi_code()
    } else {
        seq![]
    }
}

/// The colour of a node's kind.
pub open spec fn kind_color(node: &TreeNode) -> Color {
    if node.is_error {
        Color::Red
    } else if node.is_extra {
        Color::Gray
    } else {
        Color::LightGreen
    }
}

/// The line of a node up to its kind: the indentation, the field's name
/// with a colon, the kind.
pub open spec fn head_of(node: &TreeNode, colored: bool) -> Seq<u8> {
    indent(node.depth as nat) + (match node.field {
        Some(name) => code_of(Color::Yellow, colored) + name@ + seq![58u8, 32u8] + code_of(
            Color::Reset,
            colored,
        ),
        None => seq![],
    }) + code_of(kind_color(node), colored) + node.kind@ + code_of(Color::Reset, colored)
}

/// The row and the column of a node in brackets, counted from one.
pub open spec fn position_of(node: &TreeNode, colored: bool) -> Seq<u8> {
    code_of(Color::Pink, colored) + seq![32u8, 91u8] + decimal((node.row + 1) as nat) + seq![
        44u8,
        32u8,
    ] + decimal((node.column + 1) as nat) + seq![93u8, 32u8]
}

/// The text of a named node; nothing for another.
pub open spec fn text_of(node: &TreeNode, code: Seq<u8>, colored: bool) -> Seq<u8> {
    if node.is_named {
        code_of(
            if node.is_extra {
                Color::Gray
            } else {
                Color::Blue
            },
            colored,
        ) + code.subrange(node.start as int, node.end as int) + code_of(Color::Reset, colored)
    } else {
        seq![]
    }
}

/// What follows the kind of a node without a written child: its position
/// and its text.
pub open spec fn tail_of(node: &TreeNode, code: Seq<u8>, colored: bool) -> Seq<u8> {
    position_of(node, colored) + text_of(node, code, colored)
}

/// What the node at place `i` adds to the text.
pub open spec fn node_text(nodes: Seq<TreeNode>, code: Seq<u8>, colored: bool, i: int) -> Seq<u8> {
    if i == 0 || shown(&nodes[i]) {
        (if i == 0 {
            seq![]
        } else {
            seq![10u8]
        }) + head_of(&nodes[i], colored) + (if shown_child_from(
            nodes,
            nodes[i].depth as int,
            i + 1,
        ) {
            seq![]
        } else {
            tail_of(&nodes[i], code, colored)
        })
    } else {
        seq![]
    }
}

/// The text of the first `n` nodes.
pub open spec fn tree_text(nodes: Seq<TreeNode>, code: Seq<u8>, colored: bool, n: int) -> Seq<u8>
    decreases n,
{
    if n <= 0 {
        seq![]
    } else {
        tree_text(nodes, code, colored, n - 1) + node_text(nodes, code, colored, n - 1)
    }
}

/// Appends a number in decimal digits.
pub fn push_decimal(out: &mut Vec<u8>, n: u128)
    ensures
        final(out)@ == old(out)@ + decimal(n as nat),
    decreases n,
{
    if n >= 10 {
        push_decimal(out, n / 10);
    }
    out.push(48u8 + ((n % 10) as u8));
    assert(out@ =~= old(out)@ + decimal(n as nat));
}

fn push_indent(out: &mut Vec<u8>, depth: usize)
    ensures
        final(out)@ == old(out)@ + indent(depth as nat),
{
    let mut d: usize = 0;
    assert(out@ =~= old(out)@ + indent(0));
    while d < depth
        invariant
            0 <= d <= depth,
            out@ == old(out)@ + indent(d as nat),
        decreases depth - d,
    {
        out.push(32u8);
        out.push(32u8);
        out.push(32u8);
        out.push(32u8);
        d = d + 1;
        assert(out@ =~= old(out)@ + indent(d as nat));
    }
}

fn push_code(out: &mut Vec<u8>, color: Color, colored: bool)
    ensures
        final(out)@ == old(out)@ + code_of(color, colored),
{
    if colored {
        color.push_ansi(out);
    } else {
        assert(out@ =~= old(out)@ + code_of(color, colored));
    }
}

fn push_head(out: &mut Vec<u8>, node: &TreeNode, colored: bool)
    ensures
        final(out)@ == old(out)@ + head_of(node, colored),
{
    push_indent(out, node.depth);
    match &node.field {
        Some(name) => {
            push_code(out, Color::Yellow, colored);
            append_range(out, name.as_slice(), 0, name.len());
            assert(name@.subrange(0, name@.len() as int) =~= name@);
            out.push(58u8);
            out.push(32u8);
            push_code(out, Color::Reset, colored);
        },
        None => {},
    }
    let color = if node.is_error {
        Color::Red
    } else if node.is_extra {
        Color::Gray
    } else {
        Color::LightGreen
    };
    push_code(out, color, colored);
    append_range(out, node.kind.as_slice(), 0, node.kind.len());
    assert(node.kind@.subrange(0, node.kind@.len() as int) =~= node.kind@);
    push_code(out, Color::Reset, colored);
    assert(out@ =~= old(out)@ + head_of(node, colored));
}

fn push_position(out: &mut Vec<u8>, node: &TreeNode, colored: bool)
    ensures
        final(out)@ == old(out)@ + position_of(node, colored),
{
    push_code(out, Color::Pink, colored);
    out.push(32u8);
    out.push(91u8);
    let ghost opened = out@;
    assert(opened =~= old(out)@ + (code_of(Color::Pink, colored) + seq![32u8, 91u8]));
    push_decimal(out, (node.row as u128) + 1);
    out.push(44u8);
    out.push(32u8);
    let ghost halfway = out@;
    assert(halfway =~= opened + (decimal((node.row + 1) as nat) + seq![44u8, 32u8]));
    push_decimal(out, (node.column as u128) + 1);
    out.push(93u8);
    out.push(32u8);
    assert(out@ =~= halfway + (decimal((node.column + 1) as nat) + seq![93u8, 32u8]));
    assert(out@ =~= old(out)@ + position_of(node, colored));
}

fn push_text(out: &mut Vec<u8>, node: &TreeNode, code: &[u8], colored: bool)
    requires
        node.start <= node.end <= code@.len(),
    ensures
        final(out)@ == old(out)@ + text_of(node, code@, colored),
{
    if node.is_named {
        let color = if node.is_extra {
            Color::Gray
        } else {
            Color::Blue
        };
        push_code(out, color, colored);
        append_range(out, code, node.start, node.end);
        push_code(out, Color::Reset, colored);
    }
    assert(out@ =~= old(out)@ + text_of(node, code@, colored));
}

fn push_tail(out: &mut Vec<u8>, node: &TreeNode, code: &[u8], colored: bool)
    requires
        node.start <= node.end <= code@.len(),
    ensures
        final(out)@ == old(out)@ + tail_of(node, code@, colored),
{
    push_position(out, node, colored);
    push_text(out, node, code, colored);
    assert(out@ =~= old(out)@ + tail_of(node, code@, colored));
}

fn has_shown_child(nodes: &Vec<TreeNode>, i: usize) -> (found: bool)
    requires
        i < nodes@.len(),
    ensures
        found == shown_child_from(nodes@, nodes@[i as int].depth as int, i + 1),
{
    let count = nodes.len();
    let depth = nodes[i].depth;
    let mut j: usize = i + 1;
    while j < count && nodes[j].depth > depth
        invariant
            i < j <= nodes@.len(),
            count == nodes@.len(),
            depth == nodes@[i as int].depth,
            shown_child_from(nodes@, depth as int, j as int) == shown_child_from(
                nodes@,
                depth as int,
                i + 1,
            ),
        decreases nodes@.len() - j,
    {
        let child = &nodes[j];
        if child.depth - depth == 1 && (child.field.is_some() || child.is_named
            || child.has_children) {
            assert(shown_child_from(nodes@, depth as int, j as int));
            return true;
        }
        j = j + 1;
    }
    false
}

/// Writes the tree out. With `colored`, field names, kinds, positions and
/// texts carry colour codes.
pub fn pretty_parse_nodes(nodes: &Vec<TreeNode>, code: &[u8], colored: bool) -> (out: Vec<u8>)
    requires
        nodes_in_range(nodes@, code@.len()),
    ensures
        out@ == tree_text(nodes@, code@, colored, nodes@.len() as int),
{
    let mut out: Vec<u8> = Vec::new();
    let mut i: usize = 0;
    while i < nodes.len()
        invariant
            0 <= i <= nodes@.len(),
            nodes_in_range(nodes@, code@.len()),
            out@ == tree_text(nodes@, code@, colored, i as int),
        decreases nodes@.len() - i,
    {
        let node = &nodes[i];
        let ghost before = out@;
        if i == 0 || node.field.is_some() || node.is_named || node.has_children {
            if i > 0 {
                out.push(10u8);
            }
            push_head(&mut out, node, colored);
            if !has_shown_child(nodes, i) {
                push_tail(&mut out, node, code, colored);
            }
        }
        assert(out@ =~= before + node_text(nodes@, code@, colored, i as int));
        i = i + 1;
    }
    out
}

} // verus!
