//! The fixed seven-value commit-type taxonomy and its two display
//! modes: plain lower-case labels, or labels with an emoji prefix. The
//! select menu is built from these lists only, so no type outside the
//! taxonomy can ever be chosen.

use vstd::prelude::*;

verus! {

/// Which label the select menu shows for each commit type.
pub enum Mode {
    Normal,
    Emoji,
}

/// The fixed taxonomy of commit types.
pub enum CommitType {
    Feat,
    Fix,
    Docs,
    Style,
    Refactor,
    Test,
    Chore,
}

/// The taxonomy in its fixed menu order.
pub open spec fn taxonomy() -> Seq<CommitType> {
    seq![
        CommitType::Feat,
        CommitType::Fix,
        CommitType::Docs,
        CommitType::Style,
        CommitType::Refactor,
        CommitType::Test,
        CommitType::Chore,
    ]
}

/// The plain lower-case label of a commit type.
pub open spec fn plain_label(t: CommitType) -> Seq<char> {
    match t {
        CommitType::Feat => "feat"@,
        CommitType::Fix => "fix"@,
        CommitType::Docs => "docs"@,
        CommitType::Style => "style"@,
        CommitType::Refactor => "refactor"@,
        CommitType::Test => "test"@,
        CommitType::Chore => "chore"@,
    }
}

/// The emoji-decorated label of a commit type.
pub open spec fn emoji_label(t: CommitType) -> Seq<char> {
    match t {
        CommitType::Feat => "🚀 feat"@,
        CommitType::Fix => "🔨 fix"@,
        CommitType::Docs => "📄 docs"@,
        CommitType::Style => "🎨 style"@,
        CommitType::Refactor => "🧰 refactor"@,
        CommitType::Test => "🧪 test"@,
        CommitType::Chore => "🧹 chore"@,
    }
}

/// The label a mode shows for a commit type.
pub open spec fn label_of(mode: Mode, t: CommitType) -> Seq<char> {
    match mode {
        Mode::Normal => plain_label(t),
        Mode::Emoji => emoji_label(t),
    }
}

impl CommitType {
    /// The emoji-decorated label: the type's emoji, a space, and its
    /// plain lower-case name.
    pub fn get_emoji_by_type(self) -> (r: String)
        ensures
            r@ == emoji_label(self),
    {
        match self {
            CommitType::Feat => "🚀 feat".to_owned(),
            CommitType::Fix => "🔨 fix".to_owned(),
            CommitType::Docs => "📄 docs".to_owned(),
            CommitType::Style => "🎨 style".to_owned(),
            CommitType::Refactor => "🧰 refactor".to_owned(),
            CommitType::Test => "🧪 test".to_owned(),
            CommitType::Chore => "🧹 chore".to_owned(),
        }
    }

    /// The select menu's entries: one label per commit type, in the
    /// taxonomy's fixed order, rendered for the given mode.
    pub fn get_option_list_by_mode(mode: Mode) -> (r: Vec<String>)
        ensures
            r@.len() == taxonomy().len(),
            forall|i: int|
                0 <= i < taxonomy().len() ==> r@[i]@ == label_of(mode, taxonomy()[i]),
    {
        let mut v: Vec<String> = Vec::new();
        match mode {
            Mode::Normal => {
                v.push("feat".to_owned());
                v.push("fix".to_owned());
                v.push("docs".to_owned());
                v.push("style".to_owned());
                v.push("refactor".to_owned());
                v.push("test".to_owned());
                v.push("chore".to_owned());
            },
            Mode::Emoji => {
                v.push(CommitType::Feat.get_emoji_by_type());
                v.push(CommitType::Fix.get_emoji_by_type());
                v.push(CommitType::Docs.get_emoji_by_type());
                v.push(CommitType::Style.get_emoji_by_type());
                v.push(CommitType::Refactor.get_emoji_by_type());
                v.push(CommitType::Test.get_emoji_by_type());
                v.push(CommitType::Chore.get_emoji_by_type());
            },
        }
        v
    }
}

} // verus!
