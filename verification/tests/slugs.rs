use mdbook_unlink::slug::index;

fn slugs(content: &str) -> Vec<Vec<u8>> {
    index(content.as_bytes())
}

#[test]
fn basic_heading_slug() {
    let s = slugs("# Getting Started\n");
    assert_eq!(s, vec![b"getting-started".to_vec()]);
}

#[test]
fn heading_levels_and_order() {
    let s = slugs("# One\n\n## Two Words\n\n### Three More Words\n");
    assert_eq!(
        s,
        vec![
            b"one".to_vec(),
            b"two-words".to_vec(),
            b"three-more-words".to_vec(),
        ]
    );
}

#[test]
fn duplicate_headings_get_numeric_suffixes() {
    let s = slugs("# Foo\n\n# Foo\n\n# Foo\n");
    assert_eq!(
        s,
        vec![b"foo".to_vec(), b"foo-1".to_vec(), b"foo-2".to_vec()]
    );
}

#[test]
fn suffix_probing_skips_taken_candidates() {
    // The second heading takes "foo-1" before the third needs a suffix, so
    // the third probes "foo-1" (taken) and lands on "foo-2".
    let s = slugs("# Foo\n\n# Foo 1\n\n# Foo\n");
    assert_eq!(
        s,
        vec![b"foo".to_vec(), b"foo-1".to_vec(), b"foo-2".to_vec()]
    );
}

#[test]
fn empty_headings_are_deduplicated_too() {
    let s = slugs("#\n\n#\n");
    assert_eq!(s, vec![b"".to_vec(), b"-1".to_vec()]);
}

#[test]
fn code_tokens_count_as_heading_text() {
    let s = slugs("# Use `map` here\n");
    assert_eq!(s, vec![b"use-map-here".to_vec()]);
}

#[test]
fn uppercase_and_spaces_are_normalized() {
    let s = slugs("# SHOUTED  Title\n");
    // Two spaces become two hyphens; letters are lowered.
    assert_eq!(s, vec![b"shouted--title".to_vec()]);
}

#[test]
fn suffix_numbers_can_take_two_digits() {
    let content = "# Foo\n".repeat(12);
    let s = slugs(&content);
    assert_eq!(s.len(), 12);
    assert_eq!(s[0], b"foo".to_vec());
    assert_eq!(s[1], b"foo-1".to_vec());
    assert_eq!(s[10], b"foo-10".to_vec());
    assert_eq!(s[11], b"foo-11".to_vec());
}

#[test]
fn slug_determinism() {
    let content = "# A\n\n# A\n\nsome [link](a.md) text\n\n## `code` B\n";
    assert_eq!(slugs(content), slugs(content));
}

#[test]
fn link_markup_inside_heading_keeps_only_text() {
    // Only the literal text and code tokens are captured; the link's
    // destination plays no part in the slug.
    let s = slugs("# See [the guide](guide.md)\n");
    assert_eq!(s, vec![b"see-the-guide".to_vec()]);
}
