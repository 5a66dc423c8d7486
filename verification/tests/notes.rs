use jots::collection::{JotCollection, Jots};
use jots::config::Config;
use jots::jot::{Jot, JotObj, JotVariant};

fn s(t: &str) -> String {
    t.to_string()
}

#[test]
fn parses_example_note() {
    let j = Jot::parse(s("groceries"), "ignored\r\nnote shopping\r\nMilk\r\nEggs");
    assert_eq!(j.title, "groceries");
    assert_eq!(j.variant, JotVariant::Note);
    assert_eq!(j.tags, vec![s("note"), s("shopping")]);
    assert_eq!(j.content, "Milk\nEggs");
    assert!(!j.archived);
}

#[test]
fn task_line_gives_task_variant() {
    let j = Jot::parse(s("todo"), "ignored\r\ntask\r\nbody");
    assert_eq!(j.variant, JotVariant::Task);
    assert_eq!(j.tags, vec![s("task")]);
}

#[test]
fn task_line_is_case_insensitive() {
    let j = Jot::parse(s("todo"), "ignored\r\nTaSK\r\nbody");
    assert_eq!(j.variant, JotVariant::Task);
    assert_eq!(j.tags, vec![s("TaSK")]);
}

#[test]
fn journal_line_gives_journal_variant() {
    let j = Jot::parse(s("diary"), "ignored\r\nJournal\r\nbody");
    assert_eq!(j.variant, JotVariant::Journal);
}

#[test]
fn variant_needs_whole_line() {
    let j = Jot::parse(s("todo"), "ignored\r\ntask extra\r\nbody");
    assert_eq!(j.variant, JotVariant::Note);
    assert_eq!(j.tags, vec![s("task"), s("extra")]);
}

#[test]
fn unknown_keyword_gives_note_variant() {
    let j = Jot::parse(s("x"), "ignored\r\nwhatever\r\nbody");
    assert_eq!(j.variant, JotVariant::Note);
}

#[test]
fn empty_tag_line_gives_single_empty_tag() {
    let j = Jot::parse(s("x"), "ignored\r\n\r\nbody");
    assert_eq!(j.tags, vec![s("")]);
    assert_eq!(j.variant, JotVariant::Note);
    assert_eq!(j.content, "body");
}

#[test]
fn repeated_tags_are_kept_once() {
    let j = Jot::parse(s("x"), "ignored\r\nnote urgent note urgent\r\nbody");
    assert_eq!(j.tags, vec![s("note"), s("urgent")]);
}

#[test]
fn two_line_file_has_empty_body() {
    let j = Jot::parse(s("x"), "ignored\r\ntask");
    assert_eq!(j.content, "");
    assert_eq!(j.variant, JotVariant::Task);
}

#[test]
fn body_keeps_inner_blank_lines() {
    let j = Jot::parse(s("x"), "ignored\r\nnote\r\na\r\n\r\nb");
    assert_eq!(j.content, "a\n\nb");
}

#[test]
fn unread_file_gives_default_note() {
    let j = Jot::parse_or_default(s("missing"), None);
    assert_eq!(j.title, "");
    assert_eq!(j.variant, JotVariant::Note);
    assert!(j.tags.is_empty());
    assert_eq!(j.content, "");
    assert!(!j.archived);
}

#[test]
fn read_file_parses_as_usual() {
    let j = Jot::parse_or_default(s("t"), Some(s("ignored\r\nnote a\r\nbody")));
    assert_eq!(j.title, "t");
    assert_eq!(j.tags, vec![s("note"), s("a")]);
    assert_eq!(j.content, "body");
}

#[test]
fn default_note_is_empty() {
    let j: Jot = Default::default();
    assert_eq!(j.title, "");
    assert_eq!(j.variant, JotVariant::Note);
    assert!(j.tags.is_empty());
    assert_eq!(j.content, "");
    assert!(!j.archived);
}

#[test]
fn new_keeps_its_parts() {
    let j = Jot::new(s("t"), vec![s("a"), s("b")], s("body"));
    assert_eq!(j.title, "t");
    assert_eq!(j.variant, JotVariant::Note);
    assert_eq!(j.tags, vec![s("a"), s("b")]);
    assert_eq!(j.content, "body");
    assert!(!j.archived);
}

#[test]
fn update_reports_failure() {
    assert!(Jot::update().is_err());
}

#[test]
fn renders_title_tags_and_body() {
    let j = Jot::new(s("t"), vec![s("a"), s("b")], s("body"));
    assert_eq!(j.to_text(), "t-a b\nbody");
}

#[test]
fn renders_parsed_example() {
    let j = Jot::parse(s("groceries"), "ignored\r\nnote shopping\r\nMilk\r\nEggs");
    assert_eq!(j.to_text(), "groceries-note shopping\nMilk\nEggs");
}

#[test]
fn renders_empty_note() {
    let j: Jot = Default::default();
    assert_eq!(j.to_text(), "-\n");
}

#[test]
fn search_returns_overlapping_notes_only() {
    let n1 = Jot::new(s("one"), vec![s("a"), s("b")], s(""));
    let n2 = Jot::new(s("two"), vec![s("c")], s(""));
    let n3 = Jot::new(s("three"), vec![s("b"), s("c")], s(""));
    let n4 = Jot::new(s("four"), vec![s("z")], s(""));
    let jots = Jots { all: vec![n1, n2, n3, n4] };
    let found = jots.search(vec![s("b"), s("c")]);
    let titles: Vec<&str> = found.iter().map(|j| j.title.as_str()).collect();
    assert_eq!(titles, vec!["one", "two", "three", "three"]);
}

#[test]
fn search_with_no_tags_finds_nothing() {
    let n1 = Jot::new(s("one"), vec![s("a")], s(""));
    let jots = Jots { all: vec![n1] };
    assert!(jots.search(Vec::new()).is_empty());
}

#[test]
fn search_repeats_note_per_matching_tag() {
    let n1 = Jot::new(s("one"), vec![s("a"), s("b")], s(""));
    let jots = Jots { all: vec![n1] };
    let found = jots.search(vec![s("a"), s("b"), s("missing")]);
    assert_eq!(found.len(), 2);
    assert_eq!(found[0].title, "one");
    assert_eq!(found[1].title, "one");
}

#[test]
fn fresh_config_is_unconfigured() {
    let c: Config = Default::default();
    assert_eq!(c.directory, "");
    assert!(!c.is_configured());
}

#[test]
fn config_with_directory_is_configured() {
    let c = Config { directory: s("notes") };
    assert!(c.is_configured());
}
