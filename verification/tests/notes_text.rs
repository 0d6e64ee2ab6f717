use tack::http::percent_decode;
use tack::notes::{folder_path, is_hidden_rel, sanitize_name, word_count};
use tack::notetext::{
    encode_uri_component, history_key, html_escape, note_tags, rewrite_mentions, sanitize_note_name, set_tags,
    split_frontmatter,
};

#[test]
fn folder_names_are_checked() {
    assert_eq!(sanitize_name("  Work ").unwrap(), "Work");
    assert_eq!(sanitize_name("..").unwrap_err(), "Invalid name");
    assert_eq!(sanitize_name("   ").unwrap_err(), "Invalid name");
    assert_eq!(sanitize_name("a/b").unwrap_err(), "Name cannot contain path separators");
    assert_eq!(sanitize_name("c:d").unwrap_err(), "Name cannot contain path separators");
}

#[test]
fn nested_folder_paths_are_checked_per_segment() {
    assert_eq!(folder_path("a/ b /c").unwrap(), "a/b/c");
    assert_eq!(folder_path("a/../c").unwrap_err(), "Invalid name");
    assert_eq!(folder_path("a//c").unwrap_err(), "Invalid name");
    assert_eq!(folder_path("x\\y").unwrap_err(), "Name cannot contain path separators");
}

#[test]
fn system_folders_are_hidden() {
    assert!(is_hidden_rel("archive"));
    assert!(is_hidden_rel("trash"));
    assert!(is_hidden_rel(".tack"));
    assert!(is_hidden_rel(".tack/history"));
    assert!(!is_hidden_rel("archive/old"));
    assert!(!is_hidden_rel(".tackle"));
}

#[test]
fn words_are_counted_by_whitespace() {
    assert_eq!(word_count(""), 0);
    assert_eq!(word_count("  one\ttwo\n three  "), 3);
    assert_eq!(word_count("a\u{3000}b"), 2);
}

#[test]
fn note_names_lose_extension_and_separators() {
    assert_eq!(sanitize_note_name(" Plans.md ").unwrap(), "Plans");
    assert_eq!(sanitize_note_name("a/b:c\\d.MD").unwrap(), "a-b-c-d");
    assert_eq!(sanitize_note_name(" .md").unwrap_err(), "Invalid name");
    assert_eq!(sanitize_note_name("..").unwrap_err(), "Invalid name");
}

#[test]
fn uri_components_match_javascript() {
    assert_eq!(encode_uri_component("My Note (1)!"), "My%20Note%20(1)!");
    assert_eq!(encode_uri_component("a/b?c=d&e"), "a%2Fb%3Fc%3Dd%26e");
    assert_eq!(encode_uri_component("é"), "%C3%A9");
    assert_eq!(encode_uri_component("-_.!~*'()"), "-_.!~*'()");
}

#[test]
fn history_keys_flatten_paths() {
    assert_eq!(history_key("a/b\\c.md"), "a%b%c.md");
    assert_eq!(history_key("plain.md"), "plain.md");
}

#[test]
fn html_is_escaped() {
    assert_eq!(html_escape("a < b && c > d"), "a &lt; b &amp;&amp; c &gt; d");
    assert_eq!(html_escape("&lt;"), "&amp;lt;");
    assert_eq!(html_escape("plain"), "plain");
}

#[test]
fn frontmatter_is_split_off() {
    assert_eq!(split_frontmatter("---\ntitle: x\n---\nbody"), (Some("title: x"), "body"));
    assert_eq!(split_frontmatter("---\na\n---\r\nbody"), (Some("a"), "body"));
    assert_eq!(split_frontmatter("---\na\n---"), (Some("a"), ""));
    assert_eq!(split_frontmatter("no front"), (None, "no front"));
    assert_eq!(split_frontmatter("---\nunclosed"), (None, "---\nunclosed"));
}

#[test]
fn tags_come_from_frontmatter_and_body() {
    let text = "---\ntags: [work, \"home\", 'x']\n---\nSome #idea and #work here\n# Heading #not\n#";
    assert_eq!(note_tags(text), vec!["work", "home", "x", "idea"]);
    let text = "---\ntags:\n  - a\n  - b\nother: 1\n  - c\n---\n";
    assert_eq!(note_tags(text), vec!["a", "b"]);
    assert_eq!(note_tags("---\ntags: one, two\n---\n"), vec!["one", "two"]);
    assert!(note_tags("").is_empty());
}

#[test]
fn set_tags_rewrites_only_the_tags() {
    let tags = vec!["a".to_string(), "b".to_string()];
    assert_eq!(set_tags("body", &tags), "---\ntags:\n  - a\n  - b\n---\n\nbody");
    assert_eq!(set_tags("body", &[]), "body");
    assert_eq!(
        set_tags("---\ntitle: T\ntags:\n  - old\n---\nbody", &tags),
        "---\ntitle: T\ntags:\n  - a\n  - b\n---\n\nbody"
    );
    assert_eq!(set_tags("---\ntags: [x]\n---\nbody", &[]), "body");
}

#[test]
fn set_then_read_tags_round_trips() {
    let tags = vec!["alpha".to_string(), "beta".to_string()];
    for text in ["plain body", "---\ntitle: T\n---\nbody", "---\ntags: [z]\n---\n"] {
        assert_eq!(note_tags(&set_tags(text, &tags)), tags);
    }
    let with_body = set_tags("---\ntags: [z]\n---\nsee #gamma and #alpha", &tags);
    assert_eq!(note_tags(&with_body), vec!["alpha", "beta", "gamma"]);
    let cleared = set_tags("---\ntitle: T\ntags: [a]\n---\nsee #x", &[]);
    assert_eq!(cleared, "---\ntitle: T\n---\n\nsee #x");
    assert_eq!(note_tags(&cleared), vec!["x"]);
}

#[test]
fn mentions_follow_renames() {
    let remap = vec![("Old Name".to_string(), "New Name".to_string())];
    let (out, changed) = rewrite_mentions("see [Old Name](note:Old%20Name) now", &remap);
    assert!(changed);
    assert_eq!(out, "see [Old Name](note:New%20Name) now");
    let (out, changed) = rewrite_mentions("nothing here", &remap);
    assert!(!changed);
    assert_eq!(out, "nothing here");
}

#[test]
fn encoded_names_decode_back() {
    for name in ["Plain", "with space & plus+", "Dossier/Été 100%", "emoji 🎉 (x)"] {
        let encoded = encode_uri_component(name);
        assert!(encoded.is_ascii());
        assert_eq!(percent_decode(&encoded), name);
    }
    assert_eq!(encode_uri_component("a b/é"), "a%20b%2F%C3%A9");
}
