use semcommit::commit_type::{CommitType, Mode};
use semcommit::session::{assemble_commit_message, default_item_position};
use semcommit::status::should_offer_staging;

#[test]
fn assembled_message_exact() {
    assert_eq!(
        assemble_commit_message("fix", "api", "handle null pointer"),
        "fix(api): handle null pointer"
    );
}

#[test]
fn assembled_message_accepts_empty_parts() {
    assert_eq!(assemble_commit_message("feat", "", ""), "feat(): ");
}

#[test]
fn staging_offered_on_clean_tree_phrase() {
    let out = "On branch main\nnothing to commit, working tree clean\n";
    assert!(should_offer_staging(out));
}

#[test]
fn staging_offered_on_no_changes_phrase() {
    let out = "On branch main\nno changes added to commit (use \"git add\")\n";
    assert!(should_offer_staging(out));
}

#[test]
fn staging_offered_on_untracked_phrase() {
    let out = "nothing added to commit but untracked files present (use \"git add\" to track)\n";
    assert!(should_offer_staging(out));
}

#[test]
fn staging_skipped_without_phrases() {
    let out = "On branch main\nChanges to be committed:\n  modified: lib.c\n";
    assert!(!should_offer_staging(out));
}

#[test]
fn preselect_finds_cached_type() {
    let options = CommitType::get_option_list_by_mode(Mode::Normal);
    assert_eq!(default_item_position(&options, &"docs".to_string()), 2);
    assert_eq!(default_item_position(&options, &"chore".to_string()), 6);
}

#[test]
fn preselect_falls_back_to_first_entry() {
    let options = CommitType::get_option_list_by_mode(Mode::Normal);
    assert_eq!(default_item_position(&options, &"docs!".to_string()), 0);
    assert_eq!(default_item_position(&options, &"".to_string()), 0);
}
