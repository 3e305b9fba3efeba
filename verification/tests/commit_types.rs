use semcommit::commit_type::{CommitType, Mode};

#[test]
fn plain_option_list_is_the_fixed_taxonomy() {
    let options = CommitType::get_option_list_by_mode(Mode::Normal);
    assert_eq!(
        options,
        ["feat", "fix", "docs", "style", "refactor", "test", "chore"]
    );
}

#[test]
fn emoji_option_list_is_the_fixed_taxonomy() {
    let options = CommitType::get_option_list_by_mode(Mode::Emoji);
    assert_eq!(
        options,
        [
            "🚀 feat",
            "🔨 fix",
            "📄 docs",
            "🎨 style",
            "🧰 refactor",
            "🧪 test",
            "🧹 chore"
        ]
    );
}

#[test]
fn emoji_label_prefixes_the_plain_name() {
    assert_eq!(CommitType::Feat.get_emoji_by_type(), "🚀 feat");
    assert_eq!(CommitType::Fix.get_emoji_by_type(), "🔨 fix");
    assert_eq!(CommitType::Docs.get_emoji_by_type(), "📄 docs");
    assert_eq!(CommitType::Style.get_emoji_by_type(), "🎨 style");
    assert_eq!(CommitType::Refactor.get_emoji_by_type(), "🧰 refactor");
    assert_eq!(CommitType::Test.get_emoji_by_type(), "🧪 test");
    assert_eq!(CommitType::Chore.get_emoji_by_type(), "🧹 chore");
}
