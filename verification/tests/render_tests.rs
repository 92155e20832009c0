use pagefmt::highlight::Role;
use pagefmt::highlight::Span;
use pagefmt::render::render_line;
use pagefmt::render::render_page;
use pagefmt::render::split_lines;
use pagefmt::render::OutputConfig;
use pagefmt::render::OutputLine;

fn sp(text: &[u8], role: Role) -> Span {
    Span { text: text.to_vec(), role }
}

fn styled(indent: usize, spans: Vec<Span>) -> OutputLine {
    OutputLine::Styled { indent, spans }
}

fn page() -> Vec<u8> {
    let lines: Vec<&[u8]> = vec![
        b"# tar",
        b"",
        b"> Archive files.",
        b"> See also `<https://example.com>`.",
        b"",
        b"- Create archive:",
        b"`tar {{-c}} {{-f}} {{out.tar}} {{files...}}`",
    ];
    let mut page: Vec<u8> = Vec::new();
    for (i, line) in lines.iter().enumerate() {
        if i > 0 {
            page.push(b'\n');
        }
        page.extend_from_slice(line);
    }
    page
}

fn example_spans() -> Vec<Span> {
    vec![
        sp(b"tar ", Role::Example),
        sp(b"-c", Role::Placeholder),
        sp(b" ", Role::Example),
        sp(b"-f", Role::Placeholder),
        sp(b" ", Role::Example),
        sp(b"out.tar", Role::Placeholder),
        sp(b" ", Role::Example),
        sp(b"files...", Role::Placeholder),
        sp(b"", Role::Example),
    ]
}

fn url_description_spans() -> Vec<Span> {
    vec![
        sp(b"See also ", Role::Description),
        sp(b"", Role::InlineCode),
        sp(b"https://example.com", Role::Url),
        sp(b"", Role::InlineCode),
        sp(b".", Role::Description),
    ]
}

#[test]
fn full_page_with_padding() {
    let cfg = OutputConfig { raw_markdown: false, show_title: true, compact: false };
    let out = render_page(&page(), &cfg);
    let expected = vec![
        OutputLine::Blank,
        styled(2, vec![sp(b"tar", Role::Title)]),
        OutputLine::Blank,
        styled(2, vec![sp(b"Archive files.", Role::Description)]),
        styled(2, url_description_spans()),
        OutputLine::Blank,
        styled(2, vec![sp(b"Create archive:", Role::Bullet)]),
        styled(4, example_spans()),
        OutputLine::Blank,
    ];
    assert_eq!(out, expected);
}

#[test]
fn full_page_compact_has_no_blank_lines() {
    let cfg = OutputConfig { raw_markdown: false, show_title: true, compact: true };
    let out = render_page(&page(), &cfg);
    let expected = vec![
        styled(2, vec![sp(b"tar", Role::Title)]),
        styled(2, vec![sp(b"Archive files.", Role::Description)]),
        styled(2, url_description_spans()),
        styled(2, vec![sp(b"Create archive:", Role::Bullet)]),
        styled(4, example_spans()),
    ];
    assert_eq!(out, expected);
    assert!(out.iter().all(|l| !matches!(l, OutputLine::Blank)));
}

#[test]
fn hidden_title_produces_no_output_lines() {
    let cfg = OutputConfig { raw_markdown: false, show_title: false, compact: false };
    let out = render_line(b"# NAME", &cfg);
    assert_eq!(out, Vec::<OutputLine>::new());
}

#[test]
fn shown_title_is_preceded_by_one_blank_line() {
    let cfg = OutputConfig { raw_markdown: false, show_title: true, compact: false };
    let out = render_line(b"# NAME", &cfg);
    let expected = vec![OutputLine::Blank, styled(2, vec![sp(b"NAME", Role::Title)])];
    assert_eq!(out, expected);
}

#[test]
fn compact_title_has_no_padding() {
    let cfg = OutputConfig { raw_markdown: false, show_title: true, compact: true };
    let out = render_line(b"# NAME", &cfg);
    let expected = vec![styled(2, vec![sp(b"NAME", Role::Title)])];
    assert_eq!(out, expected);
}

#[test]
fn unclassified_line_is_dropped() {
    let cfg = OutputConfig { raw_markdown: false, show_title: true, compact: false };
    let out = render_line(b"stray content", &cfg);
    assert_eq!(out, Vec::<OutputLine>::new());
}

#[test]
fn blank_line_is_kept_unless_compact() {
    let loose = OutputConfig { raw_markdown: false, show_title: true, compact: false };
    let tight = OutputConfig { raw_markdown: false, show_title: true, compact: true };
    assert_eq!(render_line(b"", &loose), vec![OutputLine::Blank]);
    assert_eq!(render_line(b"", &tight), Vec::<OutputLine>::new());
}

#[test]
fn empty_page_still_gets_a_trailing_blank() {
    let cfg = OutputConfig { raw_markdown: false, show_title: true, compact: false };
    assert_eq!(render_page(b"", &cfg), vec![OutputLine::Blank]);
}

#[test]
fn empty_compact_page_renders_nothing() {
    let cfg = OutputConfig { raw_markdown: false, show_title: true, compact: true };
    assert_eq!(render_page(b"", &cfg), Vec::<OutputLine>::new());
}

#[test]
fn split_lines_handles_crlf_and_final_newline() {
    let got = split_lines(b"a\r\nb\nc\n");
    let expected: Vec<Vec<u8>> = vec![b"a".to_vec(), b"b".to_vec(), b"c".to_vec()];
    assert_eq!(got, expected);
}

#[test]
fn split_lines_keeps_a_last_line_without_newline() {
    let got = split_lines(b"a\n\nb");
    let expected: Vec<Vec<u8>> = vec![b"a".to_vec(), b"".to_vec(), b"b".to_vec()];
    assert_eq!(got, expected);
}

#[test]
fn split_lines_of_empty_text_is_empty() {
    assert_eq!(split_lines(b""), Vec::<Vec<u8>>::new());
}

#[test]
fn split_lines_keeps_a_bare_carriage_return_without_newline() {
    let got = split_lines(b"a\r");
    let expected: Vec<Vec<u8>> = vec![b"a\r".to_vec()];
    assert_eq!(got, expected);
}
