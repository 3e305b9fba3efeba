use semcommit::defaults::Config;

#[test]
fn load_without_cache_file_yields_fallback() {
    let c = Config::load_defaults(None);
    assert_eq!(c.commit_type, "feat");
    assert_eq!(c.commit_project, "none");
    assert_eq!(c.commit_message, "something");
}

#[test]
fn load_with_corrupt_content_yields_fallback() {
    let c = Config::load_defaults(Some("this is ### not a cache file"));
    assert_eq!(c.commit_type, "feat");
    assert_eq!(c.commit_project, "none");
    assert_eq!(c.commit_message, "something");
}

#[test]
fn load_with_empty_content_yields_fallback() {
    let c = Config::load_defaults(Some(""));
    assert_eq!(c.commit_type, "feat");
    assert_eq!(c.commit_project, "none");
    assert_eq!(c.commit_message, "something");
}

#[test]
fn default_is_the_fallback_record() {
    let c = Config::default();
    assert_eq!(c.commit_type, "feat");
    assert_eq!(c.commit_project, "none");
    assert_eq!(c.commit_message, "something");
}

#[test]
fn encode_layout_is_one_quoted_line_per_field() {
    let c = Config {
        commit_type: "feat".to_string(),
        commit_project: "none".to_string(),
        commit_message: "something".to_string(),
    };
    assert_eq!(
        c.encode(),
        "commit_type = \"feat\"\ncommit_project = \"none\"\ncommit_message = \"something\"\n"
    );
}

#[test]
fn encode_then_decode_is_identity() {
    let c = Config {
        commit_type: "fix".to_string(),
        commit_project: "api".to_string(),
        commit_message: "say \"hi\" to C:\\temp".to_string(),
    };
    let text = c.encode();
    let d = Config::decode(&text).expect("stored text must decode");
    assert_eq!(d.commit_type, c.commit_type);
    assert_eq!(d.commit_project, c.commit_project);
    assert_eq!(d.commit_message, c.commit_message);
}

#[test]
fn decode_then_encode_reproduces_text() {
    let text = "commit_type = \"docs\"\ncommit_project = \"a\\\\b\"\ncommit_message = \"say \\\"hi\\\"\"\n";
    let d = Config::decode(text).expect("well-formed text must decode");
    assert_eq!(d.commit_project, "a\\b");
    assert_eq!(d.commit_message, "say \"hi\"");
    assert_eq!(d.encode(), text);
}

#[test]
fn session_persists_chosen_values() {
    let chosen = Config {
        commit_type: "docs".to_string(),
        commit_project: "readme".to_string(),
        commit_message: "update readme".to_string(),
    };
    let stored = chosen.encode();
    let loaded = Config::load_defaults(Some(&stored));
    assert_eq!(loaded.commit_type, "docs");
    assert_eq!(loaded.commit_project, "readme");
    assert_eq!(loaded.commit_message, "update readme");
}

#[test]
fn decode_rejects_wrong_key() {
    let text = "commit_kind = \"feat\"\ncommit_project = \"none\"\ncommit_message = \"something\"\n";
    assert!(Config::decode(text).is_none());
}

#[test]
fn decode_rejects_unterminated_value() {
    let text = "commit_type = \"feat\ncommit_project = \"none\"\ncommit_message = \"something\"\n";
    assert!(Config::decode(text).is_none());
}

#[test]
fn decode_rejects_missing_line() {
    let text = "commit_type = \"feat\"\ncommit_project = \"none\"\n";
    assert!(Config::decode(text).is_none());
}

#[test]
fn decode_rejects_trailing_garbage() {
    let text =
        "commit_type = \"feat\"\ncommit_project = \"none\"\ncommit_message = \"something\"\nx";
    assert!(Config::decode(text).is_none());
}

#[test]
fn decode_rejects_unknown_escape() {
    let text = "commit_type = \"fe\\at\"\ncommit_project = \"none\"\ncommit_message = \"something\"\n";
    assert!(Config::decode(text).is_none());
}

#[test]
fn encoded_text_is_readable_as_toml() {
    let c = Config {
        commit_type: "fix".to_string(),
        commit_project: "a \"b\\c".to_string(),
        commit_message: "handle null pointer".to_string(),
    };
    let table: toml::Table = c.encode().parse().expect("stored text must parse as toml");
    assert_eq!(table["commit_type"].as_str(), Some("fix"));
    assert_eq!(table["commit_project"].as_str(), Some("a \"b\\c"));
    assert_eq!(table["commit_message"].as_str(), Some("handle null pointer"));
}
