use hosts_updater_rs::hosts::{
    build_auto_section, end_marker, get_hosts_path, merge, remove_auto_managed_section,
    start_marker,
};
use hosts_updater_rs::validate::SourceDocument;

fn doc(origin: &str, raw: &str) -> SourceDocument {
    SourceDocument { origin: origin.to_string(), raw: raw.to_string() }
}

fn count_marker_lines(text: &str, marker: &str) -> usize {
    text.lines().filter(|l| l.trim() == marker).count()
}

#[test]
fn markers_are_the_documented_literals() {
    assert_eq!(start_marker(), "# >>> hosts_updater_rs START >>>");
    assert_eq!(end_marker(), "# <<< hosts_updater_rs END <<<");
    assert_eq!(get_hosts_path(), "/etc/hosts");
}

#[test]
fn merge_of_user_line_and_no_documents() {
    let out = merge("user line\n", &Vec::new(), "2024-01-15 10:00:00");
    let expected = "user line\n\n\
        # >>> hosts_updater_rs START >>>\n\
        # this region is auto-managed; do not edit by hand\n\
        # last updated: 2024-01-15 10:00:00\n\
        \n\
        # <<< hosts_updater_rs END <<<\n";
    assert_eq!(out, expected);
}

#[test]
fn section_renders_documents_in_caller_order() {
    let docs = vec![
        doc("https://example.com/hosts1", "127.0.0.1 localhost\n192.168.1.100 example.com\n"),
        doc("https://example.com/hosts2", "  192.168.1.101 api.example.com  "),
    ];
    let out = build_auto_section(&docs, "2024-01-15 10:30:00");
    let expected = "# >>> hosts_updater_rs START >>>\n\
        # this region is auto-managed; do not edit by hand\n\
        # last updated: 2024-01-15 10:30:00\n\
        \n\
        # Source: https://example.com/hosts1\n\
        127.0.0.1 localhost\n\
        192.168.1.100 example.com\n\
        \n\
        # Source: https://example.com/hosts2\n\
        192.168.1.101 api.example.com\n\
        \n\
        # <<< hosts_updater_rs END <<<\n";
    assert_eq!(out, expected);
}

#[test]
fn strip_returns_markerless_content_unchanged() {
    let content = "127.0.0.1 localhost\n\n# a comment\nuser entry here\n  \n";
    assert_eq!(remove_auto_managed_section(content), content);
}

#[test]
fn strip_removes_exactly_the_managed_region() {
    let docs = vec![doc("https://example.com/h", "10.0.0.1 one.example\n")];
    let merged = merge("before\n", &docs, "t");
    let stripped = remove_auto_managed_section(&merged);
    assert_eq!(stripped, "before");
}

#[test]
fn strip_drops_unterminated_region_to_the_end() {
    let content = "keep me\n# >>> hosts_updater_rs START >>>\nlost line\n";
    assert_eq!(remove_auto_managed_section(content), "keep me");
}

#[test]
fn merge_replaces_existing_region_instead_of_stacking() {
    let docs1 = vec![doc("https://example.com/h1", "10.0.0.1 one.example\n")];
    let docs2 = vec![doc("https://example.com/h2", "10.0.0.2 two.example\n")];
    let first = merge("user entry\n", &docs1, "t1");
    let second = merge(&first, &docs2, "t2");
    assert_eq!(count_marker_lines(&second, "# >>> hosts_updater_rs START >>>"), 1);
    assert_eq!(count_marker_lines(&second, "# <<< hosts_updater_rs END <<<"), 1);
    assert!(second.contains("two.example"));
    assert!(!second.contains("one.example"));
    assert!(second.starts_with("user entry\n\n"));
}

#[test]
fn merging_twice_with_same_timestamp_is_a_fixed_point() {
    let docs = vec![
        doc("https://example.com/h1", "10.0.0.1 one.example\n"),
        doc("https://example.com/h2", "10.0.0.2 two.example alias.example\n"),
    ];
    let content = "# user header\n192.168.0.1 printer.lan\n";
    let once = merge(content, &docs, "2024-02-02 00:00:00");
    let twice = merge(&once, &docs, "2024-02-02 00:00:00");
    assert_eq!(once, twice);
}

#[test]
fn double_merge_leaves_exactly_one_region_for_odd_content() {
    // a stray end marker without a start marker, plus ordinary lines
    let content = "alpha\n# <<< hosts_updater_rs END <<<\nbeta\n";
    let docs = vec![doc("https://example.com/h", "10.0.0.1 one.example\n")];
    let first = merge(content, &docs, "t1");
    let second = merge(&first, &docs, "t2");
    assert_eq!(count_marker_lines(&second, "# >>> hosts_updater_rs START >>>"), 1);
    assert_eq!(count_marker_lines(&second, "# <<< hosts_updater_rs END <<<"), 1);
}

#[test]
fn merge_preserves_user_content_up_to_trailing_whitespace() {
    let content = "# mine\n10.1.1.1 box.lan\n\nmore text\n\n\n";
    let docs = vec![doc("https://example.com/h", "10.0.0.1 one.example\n")];
    let out = merge(content, &docs, "t");
    let recovered = remove_auto_managed_section(&out);
    assert_eq!(recovered, content.trim_end());
}

#[test]
fn merge_into_whitespace_only_content_is_section_alone() {
    let docs = vec![doc("https://example.com/h", "10.0.0.1 one.example\n")];
    let out = merge("  \n\t\n", &docs, "t");
    assert!(out.starts_with("# >>> hosts_updater_rs START >>>\n"));
    assert!(out.ends_with("# <<< hosts_updater_rs END <<<\n"));
}

#[test]
fn merge_trims_document_bodies_and_keeps_blank_separation() {
    let docs = vec![doc("o", "\n\n10.0.0.7 seven.example\n\n\n")];
    let out = build_auto_section(&docs, "t");
    assert!(out.contains("# Source: o\n10.0.0.7 seven.example\n\n# <<< hosts_updater_rs END <<<\n"));
}
