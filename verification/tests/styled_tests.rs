use pagefmt::render::OutputConfig;
use pagefmt::style::render_page_styled;
use pagefmt::style::StyleTable;
use yansi::Style;

fn plain_styles() -> StyleTable {
    StyleTable {
        title: Style::new(),
        description: Style::new(),
        bullet: Style::new(),
        example: Style::new(),
        url: Style::new(),
        inline_code: Style::new(),
        placeholder: Style::new(),
    }
}

fn fancy_styles() -> StyleTable {
    StyleTable {
        title: Style::new().bold(),
        description: Style::new(),
        bullet: Style::new(),
        example: Style::new().italic(),
        url: Style::new().underline(),
        inline_code: Style::new().italic(),
        placeholder: Style::new().bold(),
    }
}

fn contains(haystack: &[u8], needle: &[u8]) -> bool {
    haystack.windows(needle.len()).any(|w| w == needle)
}

#[test]
fn raw_mode_is_a_byte_for_byte_passthrough() {
    let page = b"# tar\n\n> Archive files.\nstray\n`x` {{y}}\n";
    let cfg = OutputConfig { raw_markdown: true, show_title: false, compact: true };
    let out = render_page_styled(page, &cfg, &fancy_styles());
    assert_eq!(out, page.to_vec());
}

#[test]
fn plain_styles_give_plain_text_output() {
    let page = b"# tar\n\n> Archive files.\n> See also `<https://example.com>`.\n\n- Create archive:\n`tar {{-c}} {{-f}} {{out.tar}} {{files...}}`";
    let cfg = OutputConfig { raw_markdown: false, show_title: true, compact: false };
    let out = render_page_styled(page, &cfg, &plain_styles());
    let expected = b"\n  tar\n\n  Archive files.\n  See also https://example.com.\n\n  Create archive:\n    tar -c -f out.tar files...\n\n";
    assert_eq!(out, expected.to_vec());
}

#[test]
fn plain_styles_compact_output_has_no_blank_lines() {
    let page = b"# tar\n\n> Archive files.\n\n- Create archive:\n`tar {{-c}}`";
    let cfg = OutputConfig { raw_markdown: false, show_title: true, compact: true };
    let out = render_page_styled(page, &cfg, &plain_styles());
    let expected = b"  tar\n  Archive files.\n  Create archive:\n    tar -c\n";
    assert_eq!(out, expected.to_vec());
}

#[test]
fn bold_title_paints_escape_codes() {
    let page = b"# tar";
    let cfg = OutputConfig { raw_markdown: false, show_title: true, compact: true };
    let out = render_page_styled(page, &cfg, &fancy_styles());
    assert!(contains(&out, b"\x1b[1m"));
    assert!(contains(&out, b"tar"));
    assert_ne!(out, b"  tar\n".to_vec());
}

#[test]
fn assembled_line_is_indent_fragments_newline() {
    let painted: Vec<Vec<u8>> = vec![b"ab".to_vec(), b"".to_vec(), b"cd".to_vec()];
    let got = pagefmt::style::assemble_styled_line(2, &painted);
    assert_eq!(got, b"  abcd\n".to_vec());
}
