use highlight_render::parse_tree::{pretty_parse_nodes, push_decimal, TreeNode};

fn node(depth: usize, kind: &str) -> TreeNode {
    TreeNode {
        depth,
        field: None,
        kind: kind.as_bytes().to_vec(),
        is_error: false,
        is_extra: false,
        is_named: true,
        has_children: false,
        row: 0,
        column: 0,
        start: 0,
        end: 0,
    }
}

fn written(nodes: &Vec<TreeNode>, code: &str, colored: bool) -> String {
    String::from_utf8(pretty_parse_nodes(nodes, code.as_bytes(), colored)).unwrap()
}

#[test]
fn numbers_are_written_in_decimal() {
    let mut out = b"n=".to_vec();
    push_decimal(&mut out, 0);
    out.push(b' ');
    push_decimal(&mut out, 9);
    out.push(b' ');
    push_decimal(&mut out, 10);
    out.push(b' ');
    push_decimal(&mut out, 1234567890);
    out.push(b' ');
    push_decimal(&mut out, u128::MAX);
    assert_eq!(
        String::from_utf8(out).unwrap(),
        "n=0 9 10 1234567890 340282366920938463463374607431768211455"
    );
}

#[test]
fn leaf_is_followed_by_position_and_text() {
    let mut leaf = node(0, "number");
    leaf.row = 2;
    leaf.column = 4;
    leaf.start = 4;
    leaf.end = 6;
    assert_eq!(written(&vec![leaf], "a = 42", false), "number [3, 5] 42");
}

#[test]
fn no_nodes_give_no_text() {
    assert_eq!(written(&vec![], "", true), "");
}

#[test]
fn children_are_indented_below_their_parent() {
    let mut root = node(0, "program");
    root.has_children = true;
    root.end = 5;
    let mut assign = node(1, "assign");
    assign.has_children = true;
    assign.end = 5;
    let mut name = node(2, "name");
    name.field = Some(b"left".to_vec());
    name.end = 1;
    let mut sign = node(2, "=");
    sign.is_named = false;
    sign.column = 2;
    sign.start = 2;
    sign.end = 3;
    let mut value = node(2, "number");
    value.field = Some(b"right".to_vec());
    value.column = 4;
    value.start = 4;
    value.end = 5;
    let nodes = vec![root, assign, name, sign, value];
    assert_eq!(
        written(&nodes, "x = 1", false),
        "program\n    assign\n        left: name [1, 1] x\n        right: number [1, 5] 1"
    );
}

#[test]
fn node_with_only_unnamed_children_counts_as_a_leaf() {
    let mut root = node(0, "pair");
    root.has_children = true;
    root.end = 2;
    let mut open = node(1, "(");
    open.is_named = false;
    open.end = 1;
    let mut close = node(1, ")");
    close.is_named = false;
    close.start = 1;
    close.end = 2;
    close.column = 1;
    assert_eq!(written(&vec![root, open, close], "()", false), "pair [1, 1] ()");
}

#[test]
fn unnamed_root_has_no_text() {
    let mut root = node(0, ";");
    root.is_named = false;
    root.end = 1;
    assert_eq!(written(&vec![root], ";", false), "; [1, 1] ");
}

#[test]
fn grandchildren_do_not_count_as_children() {
    let mut root = node(0, "a");
    root.has_children = true;
    let mut hidden = node(1, "b");
    hidden.is_named = false;
    let shown = node(2, "c");
    // a list that no tree gives: the node below the unwritten one is written
    // on its own, and the root stays a leaf
    assert_eq!(written(&vec![root, hidden, shown], "", false), "a [1, 1] \n        c [1, 1] ");
}

#[test]
fn colours_mark_fields_kinds_positions_and_texts() {
    let mut root = node(0, "program");
    root.has_children = true;
    root.end = 3;
    let mut bad = node(1, "ERROR");
    bad.is_error = true;
    bad.field = Some(b"body".to_vec());
    bad.end = 1;
    let mut note = node(1, "comment");
    note.is_extra = true;
    note.row = 1;
    note.start = 2;
    note.end = 3;
    let nodes = vec![root, bad, note];
    assert_eq!(
        written(&nodes, "?\n#", true),
        "\x1b[32mprogram\x1b[0m\n    \x1b[33mbody: \x1b[0m\x1b[31mERROR\x1b[0m\x1b[35m [1, 1] \x1b[34m?\x1b[0m\n    \x1b[30mcomment\x1b[0m\x1b[35m [2, 1] \x1b[30m#\x1b[0m"
    );
}

#[test]
fn unnamed_leaf_in_colour_ends_in_the_position_colour() {
    let mut root = node(0, "x");
    root.is_named = false;
    assert_eq!(written(&vec![root], "", true), "\x1b[32mx\x1b[0m\x1b[35m [1, 1] ");
}
