use myshell::alias::AliasTable;
use myshell::dispatch::list_new_names;
use myshell::persist::{parse_alias_line, read_aliases_from_lines, save_aliases_lines};

fn lines(ls: &[&str]) -> Vec<String> {
    ls.iter().map(|l| l.to_string()).collect()
}

#[test]
fn parse_splits_on_first_space_only() {
    let (name, command) = parse_alias_line("ll ls -l -a").unwrap();
    assert_eq!(name, "ll");
    assert_eq!(command, "ls -l -a");
}

#[test]
fn parse_skips_line_without_space() {
    assert!(parse_alias_line("justoneword").is_none());
}

#[test]
fn parse_skips_line_with_empty_name_or_command() {
    assert!(parse_alias_line(" command").is_none());
    assert!(parse_alias_line("name ").is_none());
    assert!(parse_alias_line(" ").is_none());
    assert!(parse_alias_line("").is_none());
}

#[test]
fn load_stops_at_max_aliases_keeping_first_valid_lines() {
    let mut table = AliasTable::new();
    let ls = lines(&["a one", "b two", "c three", "d four", "e five"]);
    read_aliases_from_lines(&mut table, &ls, 2);
    assert_eq!(table.len(), 2);
    assert_eq!(table.get("a").unwrap().as_str(), "one");
    assert_eq!(table.get("b").unwrap().as_str(), "two");
    assert!(table.get("c").is_none());
    assert!(table.get("d").is_none());
    assert!(table.get("e").is_none());
}

#[test]
fn load_skips_invalid_lines_without_stopping() {
    let mut table = AliasTable::new();
    let ls = lines(&["a one", "justoneword", "b two"]);
    read_aliases_from_lines(&mut table, &ls, 10);
    assert_eq!(table.len(), 2);
    assert_eq!(table.get("a").unwrap().as_str(), "one");
    assert_eq!(table.get("b").unwrap().as_str(), "two");
    assert!(table.get("justoneword").is_none());
}

#[test]
fn load_is_additive_and_overwrites() {
    let mut table = AliasTable::new();
    table.insert("a", "old");
    table.insert("keep", "kept");
    let ls = lines(&["a new"]);
    read_aliases_from_lines(&mut table, &ls, 10);
    assert_eq!(table.len(), 2);
    assert_eq!(table.get("a").unwrap().as_str(), "new");
    assert_eq!(table.get("keep").unwrap().as_str(), "kept");
}

#[test]
fn load_counts_duplicate_names_once() {
    let mut table = AliasTable::new();
    let ls = lines(&["a one", "a two", "b three"]);
    read_aliases_from_lines(&mut table, &ls, 2);
    assert_eq!(table.len(), 2);
    assert_eq!(table.get("a").unwrap().as_str(), "two");
    assert_eq!(table.get("b").unwrap().as_str(), "three");
}

#[test]
fn save_renders_one_line_per_alias() {
    let mut table = AliasTable::new();
    table.insert("ll", "ls -l");
    let ls = save_aliases_lines(&table);
    assert_eq!(ls, vec!["ll ls -l".to_string()]);
}

#[test]
fn save_then_load_rebuilds_the_same_table() {
    let mut table = AliasTable::new();
    table.insert("ll", "ls -l");
    table.insert("up", "cd ..");
    table.insert("greet", "echo hello world");
    let saved = save_aliases_lines(&table);
    let mut reloaded = AliasTable::new();
    read_aliases_from_lines(&mut reloaded, &saved, 10);
    assert_eq!(reloaded.len(), 3);
    assert_eq!(reloaded.get("ll").unwrap().as_str(), "ls -l");
    assert_eq!(reloaded.get("up").unwrap().as_str(), "cd ..");
    assert_eq!(reloaded.get("greet").unwrap().as_str(), "echo hello world");
}

#[test]
fn save_then_load_with_bound_equal_to_size_keeps_everything() {
    let mut table = AliasTable::new();
    table.insert("a", "one");
    table.insert("b", "two");
    let saved = save_aliases_lines(&table);
    let mut reloaded = AliasTable::new();
    read_aliases_from_lines(&mut reloaded, &saved, 2);
    assert_eq!(reloaded.len(), 2);
    assert_eq!(reloaded.get("a").unwrap().as_str(), "one");
    assert_eq!(reloaded.get("b").unwrap().as_str(), "two");
}

#[test]
fn enumeration_exposes_every_entry() {
    let mut table = AliasTable::new();
    table.insert("a", "one");
    table.insert("b", "two");
    let mut seen = list_new_names(&table);
    seen.sort();
    assert_eq!(
        seen,
        vec![("a".to_string(), "one".to_string()), ("b".to_string(), "two".to_string())]
    );
}
