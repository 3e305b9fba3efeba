//! The defaults record that pre-fills the prompts, with its built-in
//! fallback values and its cache-file encoding. The caller hands in the
//! cache file's content (or `None` when the file does not exist) and
//! writes the encoded text back; decode failure never fails a load, it
//! falls back to the built-in record.

use crate::codec::{decode_spec, decode_text, encode_text, encoded};
use vstd::prelude::*;

verus! {

/// The last-used commit metadata, persisted between sessions.
pub struct Config {
    pub commit_type: String,
    pub commit_project: String,
    pub commit_message: String,
}

impl View for Config {
    type V = (Seq<char>, Seq<char>, Seq<char>);

    open spec fn view(&self) -> Self::V {
        (self.commit_type@, self.commit_project@, self.commit_message@)
    }
}

/// The built-in fallback record, used when no cache file exists or its
/// content does not decode.
pub open spec fn fallback_view() -> (Seq<char>, Seq<char>, Seq<char>) {
    ("feat"@, "none"@, "something"@)
}

/// What loading yields for given cache-file content: the decoded
/// record where the content decodes, the fallback record otherwise.
pub open spec fn loaded_view(content: Option<Seq<char>>) -> (Seq<char>, Seq<char>, Seq<char>) {
    match content {
        None => fallback_view(),
        Some(s) => match decode_spec(s) {
            Some(r) => r,
            None => fallback_view(),
        },
    }
}

impl Default for Config {
    /// The built-in fallback record.
    fn default() -> (r: Self)
        ensures
            r@ == fallback_view(),
    {
        Config {
            commit_type: "feat".to_owned(),
            commit_project: "none".to_owned(),
            commit_message: "something".to_owned(),
        }
    }
}

impl Config {
    /// The cache-file text of this record, one quoted `key = "value"`
    /// line per field.
    pub fn encode(&self) -> (r: String)
        ensures
            r@ == encoded(self@.0, self@.1, self@.2),
    {
        encode_text(
            self.commit_type.as_str(),
            self.commit_project.as_str(),
            self.commit_message.as_str(),
        )
    }

    /// Decodes cache-file text into a record; `None` on exactly the
    /// texts that the format refuses.
    pub fn decode(s: &str) -> (r: Option<Config>)
        ensures
            match r {
                Some(c) => decode_spec(s@) == Some(c@),
                None => decode_spec(s@) is None,
            },
    {
        match decode_text(s) {
            None => None,
            Some((t, p, m)) => Some(
                Config { commit_type: t, commit_project: p, commit_message: m },
            ),
        }
    }

    /// Loads the defaults record from the cache file's content, `None`
    /// standing for a missing file. Never fails: content that does not
    /// decode yields the built-in fallback record.
    pub fn load_defaults(content: Option<&str>) -> (r: Config)
        ensures
            r@ == loaded_view(
                match content {
                    Some(s) => Some(s@),
                    None => None,
                },
            ),
    {
        match content {
            None => Config::default(),
            Some(s) => match Config::decode(s) {
                Some(c) => c,
                None => Config::default(),
            },
        }
    }
}

} // verus!
