use highlight_render::events::HighlightEvent;
use highlight_render::highlight::{
    highlight_events, highlight_lines, syntax_highlight, HighlightType, LanguageConfig,
};
use highlight_render::palette::Color;
use highlight_render::parse_tree::{pretty_parse_nodes, TreeNode};
use tree_sitter::{Parser, TreeCursor};
use tree_sitter_highlight::HighlightConfiguration;

fn json() -> LanguageConfig {
    let language = tree_sitter_json::language();
    let mut highlight =
        HighlightConfiguration::new(language, tree_sitter_json::HIGHLIGHT_QUERY, "", "").unwrap();
    highlight.configure(&["number", "string", "constant.builtin"]);
    LanguageConfig {
        highlight: HighlightType::TreeSitter(highlight),
        formats: vec![Color::LightGreen, Color::Cyan, Color::DarkBlue],
        language: Some(language),
    }
}

#[test]
fn highlighter_events_are_converted() {
    let src = b"[12, \"ab\",\ntrue]";
    let events = highlight_events(&json(), src).unwrap();
    assert_eq!(
        events,
        vec![
            HighlightEvent::Span { start: 0, end: 1 },
            HighlightEvent::Enter(0),
            HighlightEvent::Span { start: 1, end: 3 },
            HighlightEvent::Exit,
            HighlightEvent::Span { start: 3, end: 5 },
            HighlightEvent::Enter(1),
            HighlightEvent::Span { start: 5, end: 9 },
            HighlightEvent::Exit,
            HighlightEvent::Span { start: 9, end: 11 },
            HighlightEvent::Enter(2),
            HighlightEvent::Span { start: 11, end: 15 },
            HighlightEvent::Exit,
            HighlightEvent::Span { start: 15, end: 16 },
        ]
    );
}

#[test]
fn highlighted_lines_carry_the_category_colours() {
    let src = b"[12, \"ab\",\ntrue]";
    let lines = highlight_lines(&json(), src).unwrap();
    assert_eq!(lines.len(), 2);
    let first: Vec<(Color, &[u8])> =
        lines[0].iter().map(|s| (s.color, s.text(src).unwrap())).collect();
    assert_eq!(
        first,
        vec![
            (Color::Reset, &b"["[..]),
            (Color::LightGreen, &b"12"[..]),
            (Color::Reset, &b", "[..]),
            (Color::Cyan, &b"\"ab\""[..]),
            (Color::Reset, &b","[..]),
        ]
    );
    let second: Vec<(Color, &[u8])> =
        lines[1].iter().map(|s| (s.color, s.text(src).unwrap())).collect();
    assert_eq!(
        second,
        vec![
            (Color::Reset, &b""[..]),
            (Color::DarkBlue, &b"true"[..]),
            (Color::Reset, &b"]"[..]),
        ]
    );
}

#[test]
fn highlighted_text_is_chunked_with_codes() {
    let chunks = syntax_highlight(&json(), b"[1]").unwrap();
    assert_eq!(chunks, vec![b"```ansi\n\x1b[0m[\x1b[32m1\x1b[0m]\x1b[0m\n```".to_vec()]);
}

fn collect(cursor: &mut TreeCursor, depth: usize, nodes: &mut Vec<TreeNode>) {
    let node = cursor.node();
    nodes.push(TreeNode {
        depth,
        field: cursor.field_name().map(|name| name.as_bytes().to_vec()),
        kind: node.kind().as_bytes().to_vec(),
        is_error: node.is_error(),
        is_extra: node.is_extra(),
        is_named: node.is_named(),
        has_children: node.child_count() > 0,
        row: node.start_position().row,
        column: node.start_position().column,
        start: node.start_byte(),
        end: node.end_byte(),
    });
    if cursor.goto_first_child() {
        loop {
            collect(cursor, depth + 1, nodes);
            if !cursor.goto_next_sibling() {
                break;
            }
        }
        cursor.goto_parent();
    }
}

#[test]
fn parsed_text_is_written_as_a_tree() {
    let src = "{\"a\": [1,\n true]}";
    let mut parser = Parser::new();
    parser.set_language(tree_sitter_json::language()).unwrap();
    let tree = parser.parse(src, None).unwrap();
    let mut nodes = Vec::new();
    collect(&mut tree.walk(), 0, &mut nodes);
    let text = String::from_utf8(pretty_parse_nodes(&nodes, src.as_bytes(), false)).unwrap();
    assert_eq!(
        text,
        "document\n    object\n        pair\n            key: string\n                string_content [1, 3] a\n            value: array\n                number [1, 8] 1\n                true [2, 2] true"
    );
}
