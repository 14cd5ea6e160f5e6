//! The values the wizard gathers and the generators consume.
use vstd::prelude::*;

use crate::text::{chars_of, contains_chars, contains_text};

verus! {

/// Everything needed to write the repository files.
#[derive(Debug)]
pub struct Config {
    /// Directory in which the files are written.
    pub target: String,
    pub gitignores: Vec<GitignoreTemplate>,
    pub gitignore_mode: WriteMode,
    pub license: Option<LicenseTemplate>,
    pub license_mode: WriteMode,
    pub author: Option<String>,
}

/// What to do with a file.
#[derive(Clone, Copy, Debug, PartialEq, Eq, Structural)]
pub enum WriteMode {
    Create,
    Merge,
    Replace,
    Skip,
}

/// A `.gitignore` template: its lookup key, display name and contents.
#[derive(Debug)]
pub struct GitignoreTemplate {
    pub key: String,
    pub name: String,
    pub source: String,
}

impl GitignoreTemplate {
    /// A copy of this template.
    pub fn duplicate(&self) -> (r: GitignoreTemplate)
        ensures
            r == *self,
    {
        GitignoreTemplate {
            key: self.key.clone(),
            name: self.name.clone(),
            source: self.source.clone(),
        }
    }
}

/// A license as listed by the license service.
#[derive(Debug, PartialEq, Eq)]
pub struct LicenseSummary {
    pub key: String,
    pub name: String,
    pub spdx_id: String,
    pub url: String,
}

/// A license with its full text.
#[derive(Debug)]
pub struct LicenseTemplate {
    pub name: String,
    pub spdx_id: String,
    pub description: String,
    pub body: String,
}

/// Whether a license text holds a placeholder for the copyright holder:
/// `[fullname]` or `[name of copyright owner]`.
pub open spec fn has_author_placeholder(body: Seq<char>) -> bool {
    contains_text(body, "[fullname]"@) || contains_text(body, "[name of copyright owner]"@)
}

impl LicenseTemplate {
    /// Whether the license text asks for the copyright holder's name.
    pub fn needs_author(&self) -> (r: bool)
        ensures
            r == has_author_placeholder(self.body@),
            r == (contains_text(self.body@, "[fullname]"@) || contains_text(
                self.body@,
                "[name of copyright owner]"@,
            )),
    {
        let body = chars_of(self.body.as_str());
        contains_chars(&body, &chars_of("[fullname]")) || contains_chars(
            &body,
            &chars_of("[name of copyright owner]"),
        )
    }
}

/// Law: a license asks for its copyright holder exactly when `[fullname]`
/// or `[name of copyright owner]` occurs somewhere in its text, at any
/// position, on any line.
pub proof fn law_author_placeholder_anywhere(body: Seq<char>)
    ensures
        has_author_placeholder(body) <==> (exists|i: int|
            0 <= i && i + 10 <= body.len() && #[trigger] body.subrange(i, i + 10) == "[fullname]"@)
            || (exists|j: int|
            0 <= j && j + 25 <= body.len() && #[trigger] body.subrange(j, j + 25)
                == "[name of copyright owner]"@),
{
    reveal_strlit("[fullname]");
    reveal_strlit("[name of copyright owner]");
    assert("[fullname]"@.len() == 10);
    assert("[name of copyright owner]"@.len() == 25);
    if contains_text(body, "[fullname]"@) {
        let i = choose|i: int| crate::text::occurs_at(body, "[fullname]"@, i);
        assert(body.subrange(i, i + 10) == "[fullname]"@);
    }
    if contains_text(body, "[name of copyright owner]"@) {
        let i = choose|i: int| crate::text::occurs_at(body, "[name of copyright owner]"@, i);
        assert(body.subrange(i, i + 25) == "[name of copyright owner]"@);
    }
    if exists|i: int|
        0 <= i && i + 10 <= body.len() && #[trigger] body.subrange(i, i + 10) == "[fullname]"@ {
        let i = choose|i: int|
            0 <= i && i + 10 <= body.len() && #[trigger] body.subrange(i, i + 10) == "[fullname]"@;
        assert(crate::text::occurs_at(body, "[fullname]"@, i));
    }
    if exists|j: int|
        0 <= j && j + 25 <= body.len() && #[trigger] body.subrange(j, j + 25)
            == "[name of copyright owner]"@ {
        let j = choose|j: int|
            0 <= j && j + 25 <= body.len() && #[trigger] body.subrange(j, j + 25)
                == "[name of copyright owner]"@;
        assert(crate::text::occurs_at(body, "[name of copyright owner]"@, j));
    }
}

/// The command line: the repository to configure, if one was named.
#[derive(Debug)]
pub struct Cli {
    pub path: Option<String>,
}

} // verus!
