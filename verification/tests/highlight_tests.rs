use pagefmt::highlight::highlight_between;
use pagefmt::highlight::highlight_description;
use pagefmt::highlight::Role;
use pagefmt::highlight::Span;

fn sp(text: &[u8], role: Role) -> Span {
    Span { text: text.to_vec(), role }
}

#[test]
fn asymmetric_well_formed_spans() {
    let r = highlight_between(b"<", b">", b"a<b>c<d>e", Role::Description, Role::Url);
    let expected = vec![
        sp(b"a", Role::Description),
        sp(b"b", Role::Url),
        sp(b"c", Role::Description),
        sp(b"d", Role::Url),
        sp(b"e", Role::Description),
    ];
    assert_eq!(r, expected);
}

#[test]
fn symmetric_toggle_with_four_occurrences() {
    let r = highlight_between(b"`", b"`", b"x`a`y`b`z", Role::Bullet, Role::InlineCode);
    let expected = vec![
        sp(b"x", Role::Bullet),
        sp(b"a", Role::InlineCode),
        sp(b"y", Role::Bullet),
        sp(b"b", Role::InlineCode),
        sp(b"z", Role::Bullet),
    ];
    assert_eq!(r, expected);
    let highlighted = r.iter().filter(|s| s.role == Role::InlineCode).count();
    let normal = r.iter().filter(|s| s.role == Role::Bullet).count();
    assert_eq!(highlighted, 2);
    assert_eq!(normal, 3);
}

#[test]
fn odd_symmetric_occurrence_absorbs_the_rest() {
    let r = highlight_between(b"`", b"`", b"a`rest", Role::Bullet, Role::InlineCode);
    let expected = vec![sp(b"a", Role::Bullet), sp(b"rest", Role::InlineCode)];
    assert_eq!(r, expected);
}

#[test]
fn missing_close_token_stays_normal() {
    let r = highlight_between(b"<", b">", b"a<b", Role::Description, Role::Url);
    let expected = vec![sp(b"a", Role::Description), sp(b"b", Role::Description)];
    assert_eq!(r, expected);
}

#[test]
fn text_after_a_second_close_token_is_kept() {
    let r = highlight_between(b"<", b">", b"a<b>c>d", Role::Description, Role::Url);
    let expected = vec![
        sp(b"a", Role::Description),
        sp(b"b", Role::Url),
        sp(b"c>d", Role::Description),
    ];
    assert_eq!(r, expected);
}

#[test]
fn close_before_any_open_is_highlighted() {
    let r = highlight_between(b"<", b">", b"x>y", Role::Description, Role::Url);
    let expected = vec![sp(b"x", Role::Url), sp(b"y", Role::Description)];
    assert_eq!(r, expected);
}

#[test]
fn empty_text_is_one_normal_span() {
    let r = highlight_between(b"{{", b"}}", b"", Role::Example, Role::Placeholder);
    let expected = vec![sp(b"", Role::Example)];
    assert_eq!(r, expected);
}

#[test]
fn two_byte_placeholder_tokens() {
    let r = highlight_between(
        b"{{",
        b"}}",
        b"tar {{-c}} {{-f}}",
        Role::Example,
        Role::Placeholder,
    );
    let expected = vec![
        sp(b"tar ", Role::Example),
        sp(b"-c", Role::Placeholder),
        sp(b" ", Role::Example),
        sp(b"-f", Role::Placeholder),
        sp(b"", Role::Example),
    ];
    assert_eq!(r, expected);
}

#[test]
fn description_url_inside_backticks_keeps_url_role() {
    let r = highlight_description(b"See also `<https://example.com>`.");
    let expected = vec![
        sp(b"See also ", Role::Description),
        sp(b"", Role::InlineCode),
        sp(b"https://example.com", Role::Url),
        sp(b"", Role::InlineCode),
        sp(b".", Role::Description),
    ];
    assert_eq!(r, expected);
}

#[test]
fn description_without_markers_is_one_span() {
    let r = highlight_description(b"Archive files.");
    let expected = vec![sp(b"Archive files.", Role::Description)];
    assert_eq!(r, expected);
}

#[test]
fn description_inline_code_without_url() {
    let r = highlight_description(b"run `ls` now");
    let expected = vec![
        sp(b"run ", Role::Description),
        sp(b"ls", Role::InlineCode),
        sp(b" now", Role::Description),
    ];
    assert_eq!(r, expected);
}
