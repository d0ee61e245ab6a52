use highlight_render::text_lines::{normalize_lines, prepare_message, render_size, RenderSize};

fn by_std(text: &str) -> String {
    let folded = text.lines().fold(String::from("\n"), |out, line| out + line + "\n");
    folded[..folded.len() - 1].to_string()
}

fn size_by_std(text: &str) -> RenderSize {
    let exceeds = |limit: usize| {
        text.lines().map(str::len).max().unwrap_or(0) > limit || text.lines().count() > limit
    };
    if exceeds(700) {
        RenderSize::Huge
    } else if exceeds(100) {
        RenderSize::Big
    } else {
        RenderSize::Plain
    }
}

const SAMPLES: [&str; 16] = [
    "",
    "a",
    "a\n",
    "a\r\n",
    "a\r",
    "\n",
    "\r\n",
    "\r",
    "\n\n",
    "a\nb",
    "a\r\nb\r\n",
    "a\n\rb",
    "a\r\r\nb",
    "\u{e9}\r\n\u{1f600}",
    "one\n\ntwo\n\n",
    "\r\n\r\n",
];

#[test]
fn line_endings_are_brought_into_one_form() {
    assert_eq!(normalize_lines(b""), b"".to_vec());
    assert_eq!(normalize_lines(b"a"), b"\na".to_vec());
    assert_eq!(normalize_lines(b"a\r\nb\n"), b"\na\nb".to_vec());
    assert_eq!(normalize_lines(b"\n"), b"\n".to_vec());
    assert_eq!(normalize_lines(b"a\rb\r"), b"\na\rb\r".to_vec());
}

#[test]
fn normalizing_agrees_with_std() {
    for sample in SAMPLES {
        assert_eq!(
            String::from_utf8(normalize_lines(sample.as_bytes())).unwrap(),
            by_std(sample),
            "{:?}",
            sample
        );
    }
}

#[test]
fn size_goes_by_longest_line_and_line_count() {
    assert_eq!(render_size(b""), RenderSize::Plain);
    assert_eq!(render_size(&vec![b'x'; 100]), RenderSize::Plain);
    assert_eq!(render_size(&vec![b'x'; 101]), RenderSize::Big);
    assert_eq!(render_size(&vec![b'x'; 700]), RenderSize::Big);
    assert_eq!(render_size(&vec![b'x'; 701]), RenderSize::Huge);
    assert_eq!(render_size(&vec![b'\n'; 100]), RenderSize::Plain);
    assert_eq!(render_size(&vec![b'\n'; 101]), RenderSize::Big);
    assert_eq!(render_size(&vec![b'\n'; 700]), RenderSize::Big);
    assert_eq!(render_size(&vec![b'\n'; 701]), RenderSize::Huge);
}

#[test]
fn carriage_return_before_a_newline_does_not_count() {
    let mut line = vec![b'x'; 100];
    line.extend_from_slice(b"\r\n");
    assert_eq!(render_size(&line), RenderSize::Plain);
    let mut line = vec![b'x'; 100];
    line.push(b'\r');
    assert_eq!(render_size(&line), RenderSize::Big);
    let mut text = vec![b'\n'; 100];
    text.push(b'a');
    assert_eq!(render_size(&text), RenderSize::Big);
}

#[test]
fn size_agrees_with_std() {
    for sample in SAMPLES {
        assert_eq!(render_size(sample.as_bytes()), size_by_std(sample), "{:?}", sample);
    }
    for n in [99usize, 100, 101, 699, 700, 701] {
        let wide = "x".repeat(n) + "\r\n" + "y";
        assert_eq!(render_size(wide.as_bytes()), size_by_std(&wide));
        let tall = "z\r\n".repeat(n);
        assert_eq!(render_size(tall.as_bytes()), size_by_std(&tall));
        let open = "z\n".repeat(n) + "w";
        assert_eq!(render_size(open.as_bytes()), size_by_std(&open));
    }
}

#[test]
fn compatibility_characters_are_replaced() {
    // the ligature "fi", a full-width letter and a decomposed e with acute
    let prepared = prepare_message("\u{fb01}x\r\n\u{ff21}e\u{301}");
    assert_eq!(String::from_utf8(prepared).unwrap(), "\nfix\nA\u{e9}");
    assert_eq!(prepare_message(""), Vec::<u8>::new());
    assert_eq!(prepare_message("plain"), b"\nplain".to_vec());
}
