use pagefmt::classify::classify;
use pagefmt::classify::LineKind;

#[test]
fn title_line_is_classified_and_stripped() {
    let (kind, rem) = classify(b"# NAME");
    assert_eq!(kind, LineKind::Title);
    assert_eq!(rem, b"NAME".to_vec());
}

#[test]
fn description_line_is_classified_and_stripped() {
    let (kind, rem) = classify(b"> Archive files.");
    assert_eq!(kind, LineKind::Description);
    assert_eq!(rem, b"Archive files.".to_vec());
}

#[test]
fn bullet_line_is_classified_and_stripped() {
    let (kind, rem) = classify(b"- Create archive:");
    assert_eq!(kind, LineKind::Bullet);
    assert_eq!(rem, b"Create archive:".to_vec());
}

#[test]
fn example_line_loses_both_envelope_glyphs() {
    let (kind, rem) = classify(b"`tar -tvf target.tar`");
    assert_eq!(kind, LineKind::Example);
    assert_eq!(rem, b"tar -tvf target.tar".to_vec());
}

#[test]
fn two_backticks_make_an_empty_example() {
    let (kind, rem) = classify(b"``");
    assert_eq!(kind, LineKind::Example);
    assert_eq!(rem, b"".to_vec());
}

#[test]
fn empty_line_is_blank() {
    let (kind, rem) = classify(b"");
    assert_eq!(kind, LineKind::Blank);
    assert_eq!(rem, b"".to_vec());
}

#[test]
fn stray_text_is_unclassified_and_kept() {
    let (kind, rem) = classify(b"stray content");
    assert_eq!(kind, LineKind::Unclassified);
    assert_eq!(rem, b"stray content".to_vec());
}

#[test]
fn unterminated_example_is_unclassified() {
    let (kind, rem) = classify(b"`tar -cf target.tar");
    assert_eq!(kind, LineKind::Unclassified);
    assert_eq!(rem, b"`tar -cf target.tar".to_vec());
}

#[test]
fn lone_backtick_is_unclassified() {
    let (kind, _) = classify(b"`");
    assert_eq!(kind, LineKind::Unclassified);
}

#[test]
fn remainder_does_not_match_the_same_marker_again() {
    let (kind, rem) = classify(b"# tar");
    assert_eq!(kind, LineKind::Title);
    let (kind2, rem2) = classify(&rem);
    assert_eq!(kind2, LineKind::Unclassified);
    assert_eq!(rem2, b"tar".to_vec());
}

#[test]
fn classification_checks_markers_in_priority_order() {
    let (kind, rem) = classify(b"- `ls`");
    assert_eq!(kind, LineKind::Bullet);
    assert_eq!(rem, b"`ls`".to_vec());
}
