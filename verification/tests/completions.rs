use ghostty_config::schema::offer_keys;
use ghostty_config::values::offer_labels;
use ghostty_config::completion::{complete, request_in_bounds};
use ghostty_config::item::{Completion, CompletionKind, Documentation, InsertFormat};
use ghostty_config::schema::{
    format_key_documentation, format_type_detail, get_key_completions, ColorType, ConfigOption,
    KeybindType, Schema, SchemaEntry, TypeDefinitions,
};
use ghostty_config::values::{
    get_boolean_completions, get_colour_completions, get_enum_completions,
    get_example_completions, get_keybind_completions, get_theme_completions,
    get_value_completions,
};

fn strings(v: &[&str]) -> Vec<String> {
    v.iter().map(|s| s.to_string()).collect()
}

fn option(ty: &str) -> ConfigOption {
    ConfigOption {
        option_type: ty.to_string(),
        description: format!("The {} option.", ty),
        repeatable: false,
        deprecated: false,
        enum_values: None,
        examples: None,
        platforms: None,
    }
}

fn schema() -> Schema {
    let mut cursor = option("enum");
    cursor.enum_values = Some(strings(&["block", "bar", "Underline"]));
    let mut family = option("string");
    family.repeatable = true;
    family.platforms = Some(strings(&["macos", "linux"]));
    family.examples = Some(strings(&["JetBrains Mono", "Fira Code", "Iosevka", "Menlo"]));
    let mut old = option("boolean");
    old.deprecated = true;
    let entries = vec![
        SchemaEntry { key: "font-family".to_string(), option: family },
        SchemaEntry { key: "font-size".to_string(), option: option("number") },
        SchemaEntry { key: "cursor-style".to_string(), option: cursor },
        SchemaEntry { key: "background".to_string(), option: option("color") },
        SchemaEntry { key: "keybind".to_string(), option: option("keybind") },
        SchemaEntry { key: "theme".to_string(), option: option("theme") },
        SchemaEntry { key: "Old-Flag".to_string(), option: old },
    ];
    let types = TypeDefinitions {
        keybind: Some(KeybindType {
            prefixes: Some(strings(&["global", "all"])),
            modifiers: Some(strings(&["ctrl", "alt"])),
            actions: Some(strings(&["new_tab", "close_surface", "reload_config"])),
        }),
        color: Some(ColorType { named_values: Some(strings(&["Red", "green", "dark_red"])) }),
    };
    Schema::new(entries, Some(types))
}

fn labels(items: &[Completion]) -> Vec<String> {
    items.iter().map(|c| c.label.clone()).collect()
}

#[test]
fn empty_text_offers_every_key() {
    let s = schema();
    let items = get_key_completions(&s, "");
    assert_eq!(
        labels(&items),
        strings(&["font-family", "font-size", "cursor-style", "background", "keybind", "theme", "Old-Flag"])
    );
    assert!(items.iter().all(|c| c.kind == CompletionKind::Property));
}

#[test]
fn key_filter_ignores_case() {
    let s = schema();
    assert_eq!(labels(&get_key_completions(&s, "FONT")), strings(&["font-family", "font-size"]));
    assert_eq!(labels(&get_key_completions(&s, "old")), strings(&["Old-Flag"]));
    assert!(get_key_completions(&s, "zzz").is_empty());
}

#[test]
fn key_item_fields() {
    let s = schema();
    let items = get_key_completions(&s, "size");
    assert_eq!(items.len(), 1);
    let c = &items[0];
    assert_eq!(c.insert_text.as_deref(), Some("font-size = "));
    assert_eq!(c.insert_text_format, Some(InsertFormat::PlainText));
    assert_eq!(c.detail.as_deref(), Some("number"));
    assert!(!c.deprecated);
    assert_eq!(c.sort_text, None);
    match &c.documentation {
        Some(Documentation::Markdown(d)) => assert_eq!(d, "The number option."),
        _ => panic!("expected markdown documentation"),
    }
}

#[test]
fn deprecated_key_sorts_last() {
    let s = schema();
    let items = get_key_completions(&s, "flag");
    assert_eq!(items.len(), 1);
    assert!(items[0].deprecated);
    assert_eq!(items[0].sort_text.as_deref(), Some("z_Old-Flag"));
}

#[test]
fn type_detail_lists_type_repeatable_platforms() {
    let s = schema();
    assert_eq!(format_type_detail(&s.options()[0].option), "string | repeatable | [macos, linux]");
    assert_eq!(format_type_detail(&s.options()[1].option), "number");
}

#[test]
fn documentation_shows_three_examples_and_values() {
    let s = schema();
    let d = format_key_documentation("font-family", &s.options()[0].option);
    assert_eq!(
        d,
        "The string option.\n\n**Examples:**\n- `font-family = JetBrains Mono`\n- `font-family = Fira Code`\n- `font-family = Iosevka`\n"
    );
    let e = format_key_documentation("cursor-style", &s.options()[2].option);
    assert_eq!(e, "The enum option.\n\n**Valid values:** block, bar, Underline");
}

#[test]
fn boolean_values() {
    assert_eq!(labels(&get_boolean_completions("")), strings(&["true", "false"]));
    assert_eq!(labels(&get_boolean_completions("ru")), strings(&["true"]));
    assert_eq!(labels(&get_boolean_completions("e")), strings(&["true", "false"]));
    assert!(get_boolean_completions("x").is_empty());
    assert!(get_boolean_completions("")
        .iter()
        .all(|c| c.kind == CompletionKind::Value && c.detail.is_none()));
}

#[test]
fn enum_values_filtered_case_insensitively() {
    let s = schema();
    let opt = &s.options()[2].option;
    assert_eq!(labels(&get_enum_completions(opt, "")), strings(&["block", "bar", "Underline"]));
    assert_eq!(labels(&get_enum_completions(opt, "under")), strings(&["Underline"]));
    assert_eq!(get_enum_completions(opt, "b")[0].kind, CompletionKind::EnumMember);
    assert!(get_enum_completions(&s.options()[1].option, "").is_empty());
}

#[test]
fn colour_values_and_hex_template() {
    let s = schema();
    let all = get_colour_completions(&s, "");
    assert_eq!(labels(&all), strings(&["Red", "green", "dark_red", "#RRGGBB"]));
    let hex = &all[3];
    assert_eq!(hex.detail.as_deref(), Some("Hex colour"));
    assert_eq!(hex.insert_text.as_deref(), Some("#"));
    assert_eq!(labels(&get_colour_completions(&s, "red")), strings(&["Red", "dark_red"]));
    assert_eq!(labels(&get_colour_completions(&s, "#ff")), strings(&["#RRGGBB"]));
}

#[test]
fn keybind_parts() {
    let s = schema();
    let all = get_keybind_completions(&s, "");
    assert_eq!(
        labels(&all),
        strings(&["global:", "all:", "ctrl+", "alt+", "new_tab", "close_surface", "reload_config"])
    );
    assert_eq!(all[0].detail.as_deref(), Some("Keybind prefix"));
    assert_eq!(all[2].detail.as_deref(), Some("Modifier key"));
    assert_eq!(all[4].detail.as_deref(), Some("Keybind action"));
    assert_eq!(all[4].kind, CompletionKind::Function);
    assert_eq!(labels(&get_keybind_completions(&s, "ctr")), strings(&["ctrl+"]));
    assert_eq!(
        labels(&get_keybind_completions(&s, "ctrl+a=close")),
        strings(&["close_surface"])
    );
    assert_eq!(
        labels(&get_keybind_completions(&s, "ctrl+a= ")),
        strings(&["new_tab", "close_surface", "reload_config"])
    );
}

#[test]
fn theme_values_and_pair_snippet() {
    let all = get_theme_completions("");
    assert_eq!(all.len(), 16);
    assert_eq!(all[0].label, "auto");
    assert_eq!(all[15].label, "light:...,dark:...");
    assert_eq!(all[15].insert_text_format, Some(InsertFormat::Snippet));
    assert_eq!(
        all[15].insert_text.as_deref(),
        Some("light:${1:Catppuccin Latte},dark:${2:Catppuccin Mocha}")
    );
    assert_eq!(
        labels(&get_theme_completions("tokyo")),
        strings(&["Tokyo Night", "Tokyo Night Storm"])
    );
    assert_eq!(
        labels(&get_theme_completions("light")),
        strings(&["Gruvbox Light", "Solarized Light", "light:...,dark:..."])
    );
}

#[test]
fn example_values() {
    let s = schema();
    let items = get_example_completions(&s.options()[0].option, "mono");
    assert_eq!(labels(&items), strings(&["JetBrains Mono"]));
    assert_eq!(items[0].detail.as_deref(), Some("Example value"));
}

#[test]
fn value_completions_dispatch_by_type() {
    let s = schema();
    assert_eq!(labels(&get_value_completions(&s, "Old-Flag", " TR ")), strings(&["true"]));
    assert_eq!(labels(&get_value_completions(&s, "cursor-style", "BA")), strings(&["bar"]));
    assert_eq!(labels(&get_value_completions(&s, "background", "#")), strings(&["#RRGGBB"]));
    assert_eq!(labels(&get_value_completions(&s, "theme", "dracula")), strings(&["Dracula"]));
    assert_eq!(labels(&get_value_completions(&s, "font-family", "fira")), strings(&["Fira Code"]));
    assert!(get_value_completions(&s, "font-size", "").is_empty());
    assert!(get_value_completions(&s, "no-such-key", "").is_empty());
}

#[test]
fn complete_at_positions() {
    let s = schema();
    let text = "# comment\nfont-si\ncursor-style = b\r\n";
    assert!(complete(&s, Some(text), 0, 3).is_empty());
    assert_eq!(labels(&complete(&s, Some(text), 1, 7)), strings(&["font-size"]));
    assert_eq!(labels(&complete(&s, Some(text), 2, 16)), strings(&["block", "bar"]));
    assert_eq!(complete(&s, Some(text), 9, 0).len(), 7);
    assert_eq!(complete(&s, None, 0, 0).len(), 7);
}

#[test]
fn request_bounds() {
    assert!(request_in_bounds(None, 3, 3));
    assert!(request_in_bounds(Some("a = b"), 0, 5));
    assert!(!request_in_bounds(Some("a = b"), 0, 6));
    assert!(request_in_bounds(Some("a = b"), 1, 60));
}

#[test]
fn later_entry_replaces_earlier_one() {
    let entries = vec![
        SchemaEntry { key: "a".to_string(), option: option("number") },
        SchemaEntry { key: "b".to_string(), option: option("string") },
        SchemaEntry { key: "a".to_string(), option: option("boolean") },
    ];
    let s = Schema::new(entries, None);
    assert_eq!(s.options().len(), 2);
    assert_eq!(s.options()[0].key, "b");
    assert_eq!(s.options()[1].key, "a");
    assert_eq!(s.options()[1].option.option_type, "boolean");
    assert_eq!(labels(&get_key_completions(&s, "")), strings(&["b", "a"]));
    assert_eq!(labels(&get_value_completions(&s, "a", "t")), strings(&["true"]));
}

#[test]
fn narrower_text_offers_fewer_keys() {
    let s = schema();
    let wide = labels(&get_key_completions(&s, "font"));
    let narrow = labels(&get_key_completions(&s, "FONT-S"));
    assert!(narrow.iter().all(|l| wide.contains(l)));
    assert_eq!(narrow, strings(&["font-size"]));
}

#[test]
fn value_matching_ignores_ascii_case_and_spaces() {
    let s = schema();
    for (key, p) in [("cursor-style", "ba"), ("theme", "tokyo"), ("background", "red"), ("Old-Flag", "f")] {
        let plain = labels(&get_value_completions(&s, key, p));
        let loud = labels(&get_value_completions(&s, key, &format!("  {}\t", p.to_ascii_uppercase())));
        assert_eq!(plain, loud);
    }
}

#[test]
fn offer_labels_filters_on_the_given_lowercase() {
    let labels = vec![
        ("Alpha".to_string(), "alpha".to_string()),
        ("Beta".to_string(), "xyz".to_string()),
    ];
    let items = offer_labels(&labels, "xy", CompletionKind::Value, Some("d"));
    assert_eq!(labels_of(&items), strings(&["Beta"]));
    assert_eq!(items[0].detail.as_deref(), Some("d"));
    assert_eq!(offer_labels(&labels, "", CompletionKind::Color, None).len(), 2);
}

#[test]
fn offer_keys_filters_on_the_given_lowercase() {
    let s = schema();
    let lowered: Vec<String> = s.options().iter().map(|e| e.key.to_lowercase()).collect();
    assert_eq!(
        labels_of(&offer_keys(&s, &lowered, "Old", "old")),
        strings(&["Old-Flag"])
    );
    let mut odd = lowered.clone();
    odd[0] = "zzz".to_string();
    assert_eq!(labels_of(&offer_keys(&s, &odd, "zz", "zz")), strings(&["font-family"]));
    assert_eq!(offer_keys(&s, &odd, "", "zz").len(), 7);
}

#[test]
fn empty_text_after_typing_offers_every_key() {
    let s = schema();
    let all = labels(&get_key_completions(&s, ""));
    for p in ["f", "FONT", "x"] {
        let some = labels(&get_key_completions(&s, p));
        assert!(some.iter().all(|l| all.contains(l)));
    }
}

fn labels_of(items: &[Completion]) -> Vec<String> {
    labels(items)
}
