use obsidian_notes::Date;
use obsidian_notes::Vault;
use obsidian_notes::VaultError;
use obsidian_notes::vault::Config;
use obsidian_notes::vault::DailyPlan;
use obsidian_notes::vault::VaultEntry;

fn entry(file_name: &str, path: &str) -> VaultEntry {
    VaultEntry { file_name: String::from(file_name), path: String::from(path) }
}

#[test]
fn open_requires_an_existing_path() {
    let missing = Vault::open(String::from("/vault"), Config::default(), false);
    assert!(matches!(missing, Err(VaultError::VaultDoesNotExist)));
    let present = Vault::open(String::from("/vault"), Config::default(), true).unwrap();
    assert_eq!(present.path().as_str(), "/vault");
}

#[test]
fn note_path_is_relative_to_the_vault_root() {
    let vault = Vault::open(String::from("/vault"), Config::default(), true).unwrap();
    assert_eq!(vault.note_path("daily/today.md"), "/vault/daily/today.md");
}

#[test]
fn lookup_matches_exactly_and_up_to_case() {
    let vault = Vault::open(String::from("/vault"), Config::default(), true).unwrap();
    let entries = vec![
        entry("Todo.md", "/vault/Todo.md"),
        entry("TODO.MD", "/vault/TODO.MD"),
        entry("todo.md", "/vault/sub/todo.md"),
        entry("todo.txt", "/vault/todo.txt"),
        entry("not todo.md", "/vault/not todo.md"),
    ];
    let hits = vault.lookup(&entries, "Todo");
    assert_eq!(hits, vec!["/vault/Todo.md", "/vault/TODO.MD", "/vault/sub/todo.md"]);
}

#[test]
fn lookup_of_absent_name_finds_nothing() {
    let vault = Vault::open(String::from("/vault"), Config::default(), true).unwrap();
    let entries = vec![entry("journal.md", "/vault/journal.md")];
    assert!(vault.lookup(&entries, "missing").is_empty());
}

#[test]
fn daily_plan_uses_the_configured_directory() {
    let config = Config { daily: Some(String::from("dailies")), templates: None };
    let vault = Vault::open(String::from("/vault"), config, true).unwrap();
    let date = Date::new(2023, 4, 5).unwrap();
    match vault.daily_plan(&date) {
        DailyPlan::Direct { path } => assert_eq!(path, "/vault/dailies/2023-04-05.md"),
        DailyPlan::Search { .. } => panic!("expected a direct plan"),
    }
}

#[test]
fn daily_plan_searches_without_a_configured_directory() {
    let vault = Vault::open(String::from("/vault"), Config::default(), true).unwrap();
    let date = Date::new(2023, 4, 5).unwrap();
    match vault.daily_plan(&date) {
        DailyPlan::Search { name } => assert_eq!(name, "2023-04-05"),
        DailyPlan::Direct { .. } => panic!("expected a search plan"),
    }
}

#[test]
fn daily_pick_rejects_duplicates() {
    let two = vec![String::from("/a/x.md"), String::from("/b/x.md")];
    assert!(matches!(Vault::daily_pick(&two), Err(VaultError::DuplicateDailyNote)));
    let one = vec![String::from("/a/x.md")];
    assert_eq!(Vault::daily_pick(&one).unwrap().unwrap(), "/a/x.md");
    let none: Vec<String> = Vec::new();
    assert!(Vault::daily_pick(&none).unwrap().is_none());
}

#[test]
fn dates_render_zero_padded() {
    let d = Date::new(987, 6, 5).unwrap();
    assert_eq!(d.iso_string(), "0987-06-05");
    let d = Date::new(2023, 12, 31).unwrap();
    assert_eq!(d.iso_string(), "2023-12-31");
}

#[test]
fn leap_years_follow_the_gregorian_rule() {
    assert!(Date::new(2024, 2, 29).is_some());
    assert!(Date::new(2023, 2, 29).is_none());
    assert!(Date::new(1900, 2, 29).is_none());
    assert!(Date::new(2000, 2, 29).is_some());
}

#[test]
fn impossible_dates_are_rejected() {
    assert!(Date::new(2023, 0, 1).is_none());
    assert!(Date::new(2023, 13, 1).is_none());
    assert!(Date::new(2023, 4, 31).is_none());
    assert!(Date::new(2023, 4, 0).is_none());
    assert!(Date::new(10000, 1, 1).is_none());
    assert!(Date::new(2023, 1, 31).is_some());
}
