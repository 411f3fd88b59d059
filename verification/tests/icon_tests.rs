use mybar::icons::{app_name_to_icon, IconEntry};

fn entry(icon: &str, apps: &[&str]) -> IconEntry {
    IconEntry {
        icon_name: icon.to_string(),
        app_names: apps.iter().map(|a| a.to_string()).collect(),
    }
}

fn table() -> Vec<IconEntry> {
    vec![
        entry(":safari:", &["Safari", "Safari Technology Preview"]),
        entry(":terminal:", &["Terminal", "iTerm2"]),
        entry(":iterm:", &["iTerm2"]),
    ]
}

#[test]
fn known_application_gets_its_icon() {
    assert_eq!(app_name_to_icon(&table(), &"Safari".to_string()), ":safari:");
    assert_eq!(app_name_to_icon(&table(), &"Terminal".to_string()), ":terminal:");
}

#[test]
fn first_entry_naming_the_application_wins() {
    assert_eq!(app_name_to_icon(&table(), &"iTerm2".to_string()), ":terminal:");
}

#[test]
fn unknown_application_gets_the_default() {
    assert_eq!(app_name_to_icon(&table(), &"Finder".to_string()), ":default:");
    assert_eq!(app_name_to_icon(&Vec::new(), &"Safari".to_string()), ":default:");
    // Names are compared exactly.
    assert_eq!(app_name_to_icon(&table(), &"safari".to_string()), ":default:");
}
