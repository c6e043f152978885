use ephemeral_notes::render::{
    chars_of, content_to_markdown, find_text, first_20_chars, render_preview, scrub_html,
    truncate_chars,
};

#[test]
fn preview_cuts_plain_text() {
    assert_eq!(render_preview("Hello **world**, this is a test", 5), "Hello");
}

#[test]
fn preview_keeps_short_text_whole() {
    assert_eq!(render_preview("*hi* `code`", 50), "hi code");
    assert_eq!(render_preview("", 5), "");
}

#[test]
fn preview_drops_fence_and_strike_markers() {
    assert_eq!(render_preview("~~gone~~ kept", 100), "gone kept");
    assert_eq!(render_preview("```\nfn x\n```", 100), "fn x\n");
}

#[test]
fn list_title_is_twenty_chars() {
    assert_eq!(
        first_20_chars("# A heading that is long enough"),
        "A heading that is lo"
    );
    assert_eq!(first_20_chars("ééééééééééééééééééééééé").chars().count(), 20);
}

#[test]
fn full_render_excludes_script_block() {
    let html = content_to_markdown("<script>alert(1)</script>\n\ntext");
    assert!(!html.contains("<script"));
    assert!(html.contains("text"));
}

#[test]
fn script_element_cut_and_text_kept() {
    let html = content_to_markdown("<script>alert(1)</script>text");
    assert!(!html.contains("<script"));
    assert!(!html.contains("</script>"));
    assert!(!html.contains("alert(1)"));
    assert!(html.contains("text"));
}

#[test]
fn upper_case_and_multi_line_scripts_are_cut() {
    let html = content_to_markdown("<SCRIPT>bad()</SCRIPT>ok");
    assert!(!html.to_lowercase().contains("<script"));
    assert!(!html.contains("bad()"));
    assert!(html.contains("ok"));
    let html = content_to_markdown("<script>\nalert(2)\n</script>\n\nafter");
    assert!(!html.contains("alert(2)"));
    assert!(!html.contains("</script>"));
    assert!(html.contains("<p>after</p>"));
}

#[test]
fn scrub_cuts_nested_openers() {
    let (out, open) = scrub_html("<scr<script>x</script>ipt>y", false);
    assert!(!out.to_lowercase().contains("<script"));
    assert!(open);
    assert_eq!(out, "");
    let (out, open) = scrub_html("a</script>b", true);
    assert_eq!(out, "b");
    assert!(!open);
    let (out, open) = scrub_html("<div>plain</div>", false);
    assert_eq!(out, "<div>plain</div>");
    assert!(!open);
}

#[test]
fn truncation_counts_characters() {
    assert_eq!(truncate_chars("héllo".to_string(), 2), "hé");
    assert_eq!(truncate_chars("hi".to_string(), 5), "hi");
    assert_eq!(truncate_chars("abc".to_string(), 0), "");
}

#[test]
fn full_render_converts_markdown() {
    assert_eq!(content_to_markdown("**b**"), "<p><strong>b</strong></p>\n");
    assert_eq!(content_to_markdown(""), "");
    let html = content_to_markdown("<div>ok</div>");
    assert!(html.contains("<div>ok</div>"));
}

#[test]
fn text_search() {
    assert!(find_text("abcdef", "cde"));
    assert!(find_text("abc", ""));
    assert!(!find_text("abc", "abcd"));
    assert!(!find_text("abc", "bd"));
    assert_eq!(chars_of("añb"), vec!['a', 'ñ', 'b']);
}
