use highlight_render::message::{
    codeblock, command_button_id, delete_button_id, parse_command, parse_component_id, parse_u64,
    Action, CodeBlock, Command, ComponentId, Range,
};

fn chars(s: &str) -> Vec<char> {
    s.chars().collect()
}

fn text(s: &[char], r: Range) -> String {
    s[r.start..r.end].iter().collect()
}

fn parts(message: &str) -> Option<(String, String, String, String)> {
    let s = chars(message);
    codeblock(&s).map(|b: CodeBlock| (text(&s, b.before), text(&s, b.lang), text(&s, b.code), text(&s, b.after)))
}

fn owned(before: &str, lang: &str, code: &str, after: &str) -> Option<(String, String, String, String)> {
    Some((before.to_string(), lang.to_string(), code.to_string(), after.to_string()))
}

#[test]
fn block_with_a_language() {
    assert_eq!(parts("+render ```urcl\nADD R1 R2 R3\n``` thanks"), owned("+render", "urcl", "ADD R1 R2 R3", " thanks"));
}

#[test]
fn block_without_a_language() {
    assert_eq!(parts("```\nADD R1\n```"), owned("", "", "ADD R1", ""));
    assert_eq!(parts("```ADD R1```"), owned("", "", "ADD R1", ""));
}

#[test]
fn first_line_that_is_no_tag_is_code() {
    assert_eq!(parts("```add r1\nsub r2```"), owned("", "", "add r1\nsub r2", ""));
    assert_eq!(parts("```a-b\ncode```"), owned("", "", "a-b\ncode", ""));
}

#[test]
fn tag_alone_is_code() {
    assert_eq!(parts("```urcl```"), owned("", "", "urcl", ""));
    assert_eq!(parts("```urcl\n\n\n```"), owned("", "", "urcl", ""));
}

#[test]
fn newlines_round_the_code_are_dropped() {
    assert_eq!(parts("x\n ```py\n\n\na\n\nb\n\n``` y "), owned("x", "py", "a\n\nb", " y "));
}

#[test]
fn unicode_tags_and_space() {
    assert_eq!(parts("\u{2003}+parse\u{a0}```\u{e9}t\u{e9}\nz```"), owned("+parse", "\u{e9}t\u{e9}", "z", ""));
}

#[test]
fn messages_without_one_block() {
    assert_eq!(parts("no code here"), None);
    assert_eq!(parts("```unclosed"), None);
    assert_eq!(parts("``````"), None);
    assert_eq!(parts("```\n\n```"), None);
    assert_eq!(parts("```a``` and ```b```"), None);
    assert_eq!(parts("```a``````"), None);
    assert_eq!(parts("````"), None);
    assert_eq!(parts(""), None);
}

#[test]
fn backticks_next_to_a_fence() {
    // the first three of four open the block, the fourth is its first character
    assert_eq!(parts("````a```"), owned("", "", "`a", ""));
    assert_eq!(parts("a```b```c`"), owned("a", "", "b", "c`"));
}

#[test]
fn commands_are_named_exactly() {
    assert_eq!(parse_command(&chars("+highlight")), Some(Command::Highlight));
    assert_eq!(parse_command(&chars("+render")), Some(Command::Render));
    assert_eq!(parse_command(&chars("+parse")), Some(Command::PrettyParse));
    assert_eq!(parse_command(&chars("+pparse")), Some(Command::PlainParse));
    assert_eq!(parse_command(&chars("+Render")), None);
    assert_eq!(parse_command(&chars("+render ")), None);
    assert_eq!(parse_command(&chars("render")), None);
    assert_eq!(parse_command(&chars("")), None);
}

#[test]
fn button_with_a_message_number() {
    let id = parse_component_id(&chars("highlight-991266068330975302"));
    assert_eq!(id.action, Action::Run(Command::Highlight));
    assert_eq!(id.reference, Some(991266068330975302));
    assert!(!id.ephemeralish);
    assert_eq!(id.name, Range { start: 0, end: 9 });
}

#[test]
fn button_with_the_mark() {
    let id = parse_component_id(&chars("pretty-parse-17-ephemeralish"));
    assert_eq!(id.action, Action::Run(Command::PrettyParse));
    assert_eq!(id.reference, Some(17));
    assert!(id.ephemeralish);
    let id = parse_component_id(&chars("delete-ephemeralish"));
    assert_eq!(id.action, Action::Delete);
    assert_eq!(id.reference, None);
    assert!(id.ephemeralish);
}

#[test]
fn button_without_a_number() {
    let id = parse_component_id(&chars("plain-parse"));
    assert_eq!(id.action, Action::Run(Command::PlainParse));
    assert_eq!(id.reference, None);
    assert_eq!(id.name, Range { start: 0, end: 11 });
    let id = parse_component_id(&chars("render"));
    assert_eq!(id.action, Action::Run(Command::Render));
    assert_eq!(id.reference, None);
}

#[test]
fn number_too_large_is_part_of_the_name() {
    let id = parse_component_id(&chars("render-18446744073709551616"));
    assert_eq!(id.action, Action::Unknown);
    assert_eq!(id.reference, None);
    assert_eq!(id.name, Range { start: 0, end: 27 });
    let id = parse_component_id(&chars("render-18446744073709551615"));
    assert_eq!(id.action, Action::Run(Command::Render));
    assert_eq!(id.reference, Some(u64::MAX));
}

#[test]
fn unknown_buttons() {
    let id = parse_component_id(&chars("explode-5"));
    assert_eq!(id.action, Action::Unknown);
    assert_eq!(id.reference, Some(5));
    assert_eq!(id.name, Range { start: 0, end: 7 });
    assert_eq!(parse_component_id(&chars("")).action, Action::Unknown);
    assert_eq!(parse_component_id(&chars("render-")).action, Action::Unknown);
    assert_eq!(parse_component_id(&chars("-ephemeralish")).action, Action::Unknown);
    assert!(parse_component_id(&chars("-ephemeralish")).ephemeralish);
}

#[test]
fn numbers_are_read_as_std_reads_them() {
    for text in ["0", "7", "007", "+5", "18446744073709551615", "18446744073709551616", "", "+", "-1", "1 ", " 1", "1_0", "12a", "++1", "99999999999999999999999", "\u{663}"] {
        let s = chars(text);
        assert_eq!(parse_u64(&s, 0, s.len()), text.parse::<u64>().ok(), "{:?}", text);
    }
    let s = chars("ab123cd");
    assert_eq!(parse_u64(&s, 2, 5), Some(123));
    assert_eq!(parse_u64(&s, 2, 2), None);
    assert_eq!(parse_u64(&s, 1, 5), None);
}

#[test]
fn plus_sign_before_the_message_number() {
    let id = parse_component_id(&chars("render-+5"));
    assert_eq!(id.action, Action::Run(Command::Render));
    assert_eq!(id.reference, Some(5));
}

#[test]
fn button_identifiers_are_spelled_out() {
    let text = |id: Vec<char>| id.into_iter().collect::<String>();
    assert_eq!(text(command_button_id(Command::Highlight, 991266068330975302, false)), "highlight-991266068330975302");
    assert_eq!(text(command_button_id(Command::Render, 0, true)), "render-0-ephemeralish");
    assert_eq!(text(command_button_id(Command::PrettyParse, 10, false)), "pretty-parse-10");
    assert_eq!(text(command_button_id(Command::PlainParse, u64::MAX, true)), "plain-parse-18446744073709551615-ephemeralish");
    assert_eq!(text(delete_button_id(false)), "delete");
    assert_eq!(text(delete_button_id(true)), "delete-ephemeralish");
}

#[test]
fn button_identifiers_read_back() {
    for command in [Command::Highlight, Command::Render, Command::PrettyParse, Command::PlainParse] {
        for message in [0, 9, 10, 991266068330975302, u64::MAX] {
            for ephemeralish in [false, true] {
                let id = parse_component_id(&command_button_id(command, message, ephemeralish));
                assert_eq!(id.action, Action::Run(command));
                assert_eq!(id.reference, Some(message));
                assert_eq!(id.ephemeralish, ephemeralish);
            }
        }
    }
    for ephemeralish in [false, true] {
        assert_eq!(
            parse_component_id(&delete_button_id(ephemeralish)),
            ComponentId {
                action: Action::Delete,
                name: Range { start: 0, end: 6 },
                reference: None,
                ephemeralish,
            }
        );
    }
}

#[test]
fn white_space_is_what_std_counts_as_such() {
    let mut message = chars("?```a```");
    for code in 0..=0x10_ffffu32 {
        if let Some(c) = char::from_u32(code) {
            message[0] = c;
            let before = codeblock(&message).unwrap().before;
            let listed = matches!(
                code,
                0x09..=0x0d | 0x20 | 0x85 | 0xa0 | 0x1680 | 0x2000..=0x200a | 0x2028 | 0x2029
                    | 0x202f | 0x205f | 0x3000
            );
            assert_eq!(c.is_whitespace(), listed, "{:x}", code);
            // a backtick in front would move the fence
            if c != '`' {
                assert_eq!(before.start == before.end, listed, "{:x}", code);
            }
        }
    }
}
