use kbcut::config::{check_trigger, load, save, AddError, Config, ConfigError};
use std::collections::BTreeMap;

fn roundtrip(cfg: &Config) -> Config {
    let raw = save(cfg).unwrap();
    load(Some(&raw)).unwrap()
}

#[test]
fn roundtrip_backslashes_quotes_emoji_multiline() {
    let mut cfg = Config::default();
    cfg.replacements.insert("zshrug".into(), r"¯\_(ツ)_/¯".into());
    cfg.replacements.insert("zquote".into(), r#"she said "hi""#.into());
    cfg.replacements.insert("zparty".into(), "🎉🎉".into());
    cfg.replacements.insert("zsig".into(), "Hugo\nhumanready.io\n".into());
    assert_eq!(roundtrip(&cfg).replacements, cfg.replacements);
}

#[test]
fn roundtrip_punctuation_trigger_keys() {
    // Bare TOML keys can't contain '>': the key must be quoted.
    let mut cfg = Config::default();
    cfg.replacements.insert("-->".into(), "→".into());
    cfg.replacements.insert("(c)".into(), "©".into());
    assert_eq!(roundtrip(&cfg).replacements, cfg.replacements);
}

#[test]
fn invalid_escape_is_a_parse_error_not_a_panic() {
    // \_ is not a valid TOML escape.
    let raw = "[replacements]\nzshrug = \"¯\\_(ツ)_/¯\"\n";
    assert!(load(Some(raw)).is_err());
}

#[test]
fn roundtrip_keeps_every_kind_of_text() {
    let texts = [
        "", " ", "'", "''", "'''", "''''", "\"", "\"\"", "\"\"\"", "\"\"\"\"", "'\"'\"'''\"\"\"",
        "\\", "\\\\n", "\n", "\r", "\r\n", "\n\n'''\n", "\t", "\u{0}", "\u{7}", "\u{1f}", "\u{7f}",
        "\u{85}", "\u{feff}", "#", "=", "[a]", "a.b", "{}", "\u{10ffff}", "end'", "end\"", "'x\n",
    ];
    let mut cfg = Config::default();
    for (i, text) in texts.iter().enumerate() {
        cfg.replacements.insert(text.to_string(), texts[texts.len() - 1 - i].to_string());
        cfg.layout = Some(text.to_string());
        let back = roundtrip(&cfg);
        assert_eq!(back.replacements, cfg.replacements);
        assert_eq!(back.layout, cfg.layout);
    }
    let quotes = "\"".repeat(255) + "'" + &"\"".repeat(255);
    cfg.replacements.insert("q".into(), quotes);
    cfg.replacements.insert("\"".repeat(300), "double".into());
    cfg.replacements.insert("'".repeat(300), "single".into());
    cfg.replacements.insert("'".repeat(300) + &"\"".repeat(300) + "\n", "both".into());
    assert_eq!(roundtrip(&cfg).replacements, cfg.replacements);
}

#[test]
fn written_form() {
    let mut cfg = Config::default();
    assert_eq!(save(&cfg).unwrap(), "[replacements]\n");
    cfg.layout = Some("pt".into());
    cfg.replacements.insert("brb".into(), "be right back".into());
    assert_eq!(
        save(&cfg).unwrap(),
        "layout = \"pt\"\n\n[replacements]\nbrb = \"be right back\"\n"
    );
}

#[test]
fn long_runs_of_quotes_are_not_written() {
    let mut cfg = Config::default();
    cfg.replacements.insert("q".into(), "\"".repeat(256));
    assert!(!cfg.can_be_written());
    assert_eq!(save(&cfg), None);
    cfg.replacements.insert("q".into(), "'".repeat(300));
    assert_eq!(save(&cfg), None);
    cfg.replacements.remove("q");
    cfg.layout = Some("\"".repeat(256));
    assert_eq!(save(&cfg), None);
    cfg.layout = None;
    assert!(cfg.can_be_written());
}

#[test]
fn no_file_is_an_empty_configuration() {
    let cfg = load(None).unwrap();
    assert_eq!(cfg.layout, None);
    assert!(cfg.replacements.is_empty());
    let cfg = load(Some("")).unwrap();
    assert_eq!(cfg.layout, None);
    assert!(cfg.replacements.is_empty());
}

#[test]
fn reads_layout_and_replacements() {
    let raw = "layout = 'pt(nativo)'\nother = 3\n[replacements]\nb = 'two'\na = \"one\"\n[more]\n";
    let cfg = load(Some(raw)).unwrap();
    assert_eq!(cfg.layout.as_deref(), Some("pt(nativo)"));
    let pairs: Vec<(&str, &str)> =
        cfg.replacements.entries().iter().map(|(k, v)| (k.as_str(), v.as_str())).collect();
    assert_eq!(pairs, vec![("a", "one"), ("b", "two")]);
}

#[test]
fn refuses_values_of_the_wrong_kind() {
    assert_eq!(load(Some("layout = 3")).unwrap_err(), ConfigError::LayoutIsNoText);
    assert_eq!(
        load(Some("replacements = 'x'")).unwrap_err(),
        ConfigError::ReplacementsAreNoTable
    );
    assert_eq!(
        load(Some("[replacements]\na = 'b'\nc = 1")).unwrap_err(),
        ConfigError::ReplacementIsNoText
    );
    assert!(matches!(load(Some("layout = ")).unwrap_err(), ConfigError::Syntax(_)));
    assert!(matches!(load(Some("a = 1\na = 2")).unwrap_err(), ConfigError::Syntax(_)));
}

#[test]
fn malformed_configuration_starts_empty() {
    let cfg = Config::at_startup(load(Some("[replacements")));
    assert_eq!(cfg.layout, None);
    assert!(cfg.replacements.is_empty());
    let cfg = Config::at_startup(load(Some("layout = 'us'")));
    assert_eq!(cfg.layout.as_deref(), Some("us"));
}

#[test]
fn add_updates_and_reports() {
    let mut cfg = Config::default();
    assert_eq!(cfg.add("brb", "be right back").unwrap(), "brb → be right back");
    assert_eq!(cfg.add("brb", "back soon").unwrap(), "brb → back soon");
    assert_eq!(cfg.replacements.len(), 1);
    assert_eq!(cfg.add("b rb", "x"), Err(AddError::TriggerHasWhitespace));
    assert_eq!(cfg.add("b\u{a0}rb", "x"), Err(AddError::TriggerHasWhitespace));
    assert_eq!(AddError::TriggerHasWhitespace.message(), "trigger cannot contain whitespace");
    assert_eq!(cfg.replacements.len(), 1);
    assert_eq!(check_trigger("a\tb"), Err(AddError::TriggerHasWhitespace));
    assert_eq!(check_trigger("a_b"), Ok(()));
}

#[test]
fn removing_undoes_adding() {
    let mut cfg = Config::default();
    cfg.add("omw", "on my way").unwrap();
    let before = cfg.replacements.clone();
    cfg.add("brb", "be right back").unwrap();
    assert_eq!(cfg.remove("brb"), (true, "removed brb".to_string()));
    assert_eq!(cfg.replacements, before);
    assert_eq!(cfg.remove("brb"), (false, "no such trigger: brb".to_string()));
    assert_eq!(cfg.replacements, before);
}

#[test]
fn list_is_in_trigger_order() {
    let mut cfg = Config::default();
    assert_eq!(
        cfg.list(),
        vec!["no replacements defined — add one with: kbcut add brb \"be right back\""]
    );
    for (k, v) in [("b", "2"), ("a", "1"), ("é", "4"), ("aa", "3"), ("Z", "0")] {
        cfg.add(k, v).unwrap();
    }
    assert_eq!(cfg.list(), vec!["Z → 0", "a → 1", "aa → 3", "b → 2", "é → 4"]);
}

#[test]
fn triggers_are_found_by_their_characters() {
    let mut cfg = Config::default();
    cfg.add("a", "1").unwrap();
    cfg.add("ab", "2").unwrap();
    let get = |word: &str| {
        let cs: Vec<char> = word.chars().collect();
        cfg.replacements.get(cs.as_slice()).cloned()
    };
    assert_eq!(get("ab").as_deref(), Some("2"));
    assert_eq!(get("a").as_deref(), Some("1"));
    assert_eq!(get(""), None);
    assert_eq!(get("abc"), None);
}

#[test]
fn roundtrip_of_all_short_texts() {
    let alphabet = ['"', '\'', '\n', '\r', '\\', 'a', '\u{7f}'];
    let mut texts = vec![String::new()];
    let mut start = 0;
    for _ in 0..5 {
        let end = texts.len();
        for i in start..end {
            for c in alphabet {
                let mut longer = texts[i].clone();
                longer.push(c);
                texts.push(longer);
            }
        }
        start = end;
    }
    for chunk in texts.chunks(500) {
        let mut cfg = Config::default();
        for text in chunk {
            cfg.replacements.insert(text.clone(), text.clone());
        }
        assert_eq!(roundtrip(&cfg).replacements, cfg.replacements);
    }
}

#[test]
fn roundtrip_has_no_reserved_triggers() {
    let keys = [
        "$__toml_private_datetime",
        "$__serde_spanned_private_value",
        "$serde_json::private::RawValue",
        "$serde_json::private::Number",
        "layout",
        "replacements",
    ];
    let mut cfg = Config::default();
    for key in keys {
        let mut alone = Config::default();
        alone.replacements.insert(key.into(), "1979-05-27".into());
        assert_eq!(roundtrip(&alone).replacements, alone.replacements);
        cfg.replacements.insert(key.into(), "\"text\"".into());
    }
    assert_eq!(roundtrip(&cfg).replacements, cfg.replacements);
}

#[test]
fn dates_are_no_text() {
    assert_eq!(load(Some("layout = 1979-05-27")).unwrap_err(), ConfigError::LayoutIsNoText);
    assert_eq!(
        load(Some("[replacements]\na = 1979-05-27")).unwrap_err(),
        ConfigError::ReplacementIsNoText
    );
    assert!(load(Some("when = 1979-05-27\nnumber = nan")).is_ok());
}

#[test]
fn errors_speak_the_words_of_the_reader() {
    let raw = "[replacements]\na = 'b'\nc = 1\n";
    let typed = toml::from_str::<BTreeMap<String, BTreeMap<String, String>>>(raw);
    let told = typed.unwrap_err().to_string();
    assert!(told.contains("line 3, column 5"));
    let error = load(Some(raw)).unwrap_err();
    assert_eq!(error, ConfigError::ReplacementIsNoText);
    assert_eq!(error.message(&told), told);
    assert_eq!(ConfigError::LayoutIsNoText.message("told"), "told");
    assert_eq!(ConfigError::ReplacementsAreNoTable.message("told"), "told");
    let error = load(Some("layout = 'us'\nlayout")).unwrap_err();
    assert!(error.message("told").contains("line 2"));
}
