use tack::notefiles::{
    attach_text, count_matches, export_html, export_name, fill_template, first_free_name, folder_of,
    free_asset_name, history_prune, history_versions, is_backlink, is_directly_in, is_under, is_unlinked_mention,
    md_name, mention_title, note_images, pin_key, resolve_note, tag_counts, NoteRef,
};
use tack::notesdir::{list_notes, note_details, FolderEntry, FolderTotals};

fn note(name: &str, rel: &str) -> NoteRef {
    NoteRef { name: name.to_string(), rel: rel.to_string() }
}

fn strings(v: &[&str]) -> Vec<String> {
    v.iter().map(|s| s.to_string()).collect()
}

#[test]
fn references_resolve_by_path_then_name() {
    let notes = vec![note("a.md", "a.md"), note("b.md", "x/b.md"), note("b.md", "y/b.md"), note("c.md", "x/c.md")];
    assert_eq!(resolve_note(&notes, "x/b.md").unwrap(), 1);
    assert_eq!(resolve_note(&notes, "a").unwrap(), 0);
    assert_eq!(resolve_note(&notes, "c.md").unwrap(), 3);
    assert_eq!(resolve_note(&notes, "zzz").unwrap_err(), "Note not found: zzz");
    assert_eq!(
        resolve_note(&notes, "b").unwrap_err(),
        "Ambiguous note name, use a folder path: x/b.md, y/b.md"
    );
    assert_eq!(md_name("plan"), "plan.md");
    assert_eq!(md_name("plan.md"), "plan.md");
}

#[test]
fn folder_filters() {
    assert!(is_directly_in("work/a.md", "/work/"));
    assert!(!is_directly_in("work/sub/a.md", "work"));
    assert!(is_under("work/sub/a.md", "work"));
    assert!(!is_under("workshop/a.md", "work"));
    assert_eq!(folder_of("a/b/c.md").as_deref(), Some("a/b"));
    assert_eq!(folder_of("c.md"), None);
}

#[test]
fn local_images_of_a_note() {
    let text = "![cat](assets/cat.png) ![web](https://x/y.png) ![two](\"a b.png\" \"title\") ![broken](x";
    let imgs = note_images(text);
    assert_eq!(imgs, vec![("cat".to_string(), "assets/cat.png".to_string()), ("two".to_string(), "a".to_string())]);
    assert!(note_images("no images").is_empty());
}

#[test]
fn backlinks_and_mentions() {
    assert!(is_backlink("see [[Plan]] here", "Plan.md", "/v/Plan.md", "Plan.md"));
    assert!(is_backlink("see [[Plan|the plan]]", "Plan.md", "/v/Plan.md", "Plan.md"));
    assert!(is_backlink("[x](note:Plan.md)", "Plan.md", "/v/Plan.md", "Plan.md"));
    assert!(!is_backlink("plain Plan text", "Plan.md", "/v/Plan.md", "Plan.md"));
    assert_eq!(mention_title("Big Plan.md").unwrap(), "big plan");
    assert_eq!(mention_title(".md").unwrap_err(), "Note has an empty title");
    assert!(is_unlinked_mention("About the BIG PLAN today", "big plan", "/v/Big Plan.md", "Big Plan.md"));
    assert!(!is_unlinked_mention("[[big plan]]", "big plan", "/v/Big Plan.md", "Big Plan.md"));
    assert!(!is_unlinked_mention("nothing", "big plan", "/v/Big Plan.md", "Big Plan.md"));
}

#[test]
fn search_counts_ignore_case() {
    assert_eq!(count_matches("Foo foo FOO", "foo"), Some(3));
    assert_eq!(count_matches("aaaa", "aa"), Some(2));
    assert_eq!(count_matches("abc", ""), Some(4));
    assert_eq!(count_matches("abc", "x"), Some(0));
}

#[test]
fn exports() {
    let page = export_html("T <1>", "a & b");
    assert!(page.starts_with("<!doctype html>\n<html>\n<head>\n<meta charset=\"utf-8\">\n<title>T <1></title>"));
    assert!(page.contains("<pre>a &amp; b</pre>"));
    assert!(page.ends_with("</pre>\n</body>\n</html>\n"));
    assert_eq!(export_name("Plan.md", true), "Plan.html");
    assert_eq!(export_name("Plan.md", false), "Plan.md");
}

#[test]
fn templates_fill_their_variables() {
    assert_eq!(
        fill_template("# {{title}} {{date}} {{time}} {{yesterday}}/{{tomorrow}} {{title}}", "T", "D", "H", "Y", "M"),
        "# T D H Y/M T"
    );
    assert_eq!(fill_template("{{unknown}}", "T", "D", "H", "Y", "M"), "{{unknown}}");
}

#[test]
fn attachments_and_pins() {
    assert_eq!(attach_text("text \n\n", "a.png", ".tack/assets/a.png"), "text\n![a.png](.tack/assets/a.png)\n");
    assert_eq!(pin_key(Some("/notes"), "/root"), "notesPinned:/notes");
    assert_eq!(pin_key(None, "/root"), "notesPinned:/root");
}

#[test]
fn free_names() {
    assert_eq!(first_free_name("Plan", &[]), "Plan.md");
    assert_eq!(first_free_name("Plan", &strings(&["Plan.md", "Plan 2.md"])), "Plan 3.md");
    assert_eq!(free_asset_name("a.png", &strings(&["a.png", "a-2.png"])), "a-3.png");
    assert_eq!(free_asset_name("noext", &strings(&["noext"])), "noext-2");
    assert_eq!(free_asset_name("x.tar.gz", &[]), "x.tar.gz");
}

#[test]
fn tags_are_counted_per_vault() {
    let lists = vec![strings(&["b", "a"]), strings(&["a"]), vec![]];
    let counts = tag_counts(&lists);
    assert_eq!(counts, vec![("a".to_string(), 2), ("b".to_string(), 1)]);
}

#[test]
fn history_is_newest_first_and_pruned_oldest_first() {
    let names = strings(&["100.md", "300.md", "200.md", "notes.txt"]);
    assert_eq!(history_versions(&names), vec!["300", "200", "100"]);
    assert_eq!(history_prune(&names, 2), vec!["100.md"]);
    assert!(history_prune(&names, 3).is_empty());
    assert_eq!(history_prune(&names, 0), vec!["100.md", "200.md", "300.md"]);
}

fn entry(name: &str, is_file: bool, modified: u64) -> FolderEntry {
    FolderEntry { name: name.to_string(), path: format!("/v/{}", name), is_file, modified }
}

#[test]
fn note_lists_are_newest_first() {
    let entries = vec![
        entry("a.md", true, 10),
        entry("b.md", true, 30),
        entry("c.txt", true, 50),
        entry("d.md", false, 60),
        entry("e.md", true, 10),
    ];
    let names: Vec<String> = list_notes(&entries).into_iter().map(|n| n.name).collect();
    assert_eq!(names, vec!["b.md", "a.md", "e.md"]);
}

#[test]
fn details_of_notes_and_folders() {
    let d = note_details("a.md".into(), "/v/a.md".into(), 12, 1, 2, 3);
    assert_eq!(d.kind, "note");
    assert_eq!((d.size_bytes, d.word_count, d.note_count), (12, 3, 0));
    let mut t = FolderTotals::new();
    t.add_folder();
    t.add_note(100, Some(5));
    t.add_note(50, None);
    let f = t.details("v".into(), "/v".into(), 1, 2);
    assert_eq!(f.kind, "folder");
    assert_eq!((f.size_bytes, f.word_count, f.note_count, f.folder_count), (150, 5, 2, 1));
}
