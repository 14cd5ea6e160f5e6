//! What writing the repository files amounts to: which files get which
//! contents.
pub mod gitignore;
pub mod gitignore_laws;
pub mod license;

use vstd::prelude::*;

use crate::generate::gitignore::gitignore_write;
use crate::generate::license::{license_write, needs_year};
use crate::model::Config;

verus! {

/// A file that the generators write in the target directory.
#[derive(Clone, Copy, Debug, PartialEq, Eq, Structural)]
pub enum ManagedFile {
    Gitignore,
    License,
}

/// One file to write: which file, its full contents, and whether it must not
/// exist yet (otherwise it is overwritten).
#[derive(Debug)]
pub struct FileWrite {
    pub file: ManagedFile,
    pub contents: String,
    pub create_new: bool,
}

impl FileWrite {
    /// Whether the file must be new, and its contents.
    pub open spec fn view_of(w: Option<FileWrite>) -> Option<(bool, Seq<char>)> {
        match w {
            Some(f) => Some((f.create_new, f.contents@)),
            None => None,
        }
    }
}

/// Why the files could not be planned.
#[derive(Debug)]
pub enum GenerateError {
    /// The system clock lies outside the years -9999..=9999.
    Clock(jiff::Error),
    /// The current time could not be placed in UTC.
    TimeZone(jiff::Error),
}

/// A planned write as a value: which file, whether it must be new, and its
/// contents.
pub open spec fn write_view(w: FileWrite) -> (ManagedFile, bool, Seq<char>) {
    (w.file, w.create_new, w.contents@)
}

/// `w` for `file` as a list of at most one planned write.
pub open spec fn as_list(file: ManagedFile, w: Option<(bool, Seq<char>)>) -> Seq<(ManagedFile, bool, Seq<char>)> {
    match w {
        Some((create_new, contents)) => seq![(file, create_new, contents)],
        None => seq![],
    }
}

/// The writes that `config` calls for, in order, given the current
/// `.gitignore` and the current year: first the `.gitignore`, then the
/// `LICENSE`.
pub open spec fn planned(config: Config, existing_gitignore: Seq<char>, year: int) -> Seq<
    (ManagedFile, bool, Seq<char>),
> {
    as_list(ManagedFile::Gitignore, gitignore_write(config, existing_gitignore)) + as_list(
        ManagedFile::License,
        license_write(config, year),
    )
}

/// The files to write for `config`, in the order they are written:
/// the `.gitignore`, then the `LICENSE`, each when `config` asks for it.
/// `existing_gitignore` is the current `.gitignore`, read only when merging.
/// When the `LICENSE` cannot be planned, the writes planned before it come
/// with the error: they are to be made before the error is reported.
pub fn apply(config: &Config, existing_gitignore: &str) -> (r: (
    Vec<FileWrite>,
    Option<GenerateError>,
))
    ensures
        !needs_year(*config) ==> r.1 is None,
        r.1 is Some ==> needs_year(*config) && r.0@.map_values(|w: FileWrite| write_view(w))
            == as_list(ManagedFile::Gitignore, gitignore_write(*config, existing_gitignore@)),
        r.1 is None ==> exists|year: int|
            -9999 <= year <= 9999 && r.0@.map_values(|w: FileWrite| write_view(w)) == planned(
                *config,
                existing_gitignore@,
                year,
            ),
{
    let mut changed: Vec<FileWrite> = Vec::new();
    let g = gitignore::plan(config, existing_gitignore);
    if let Some(w) = g {
        changed.push(w);
    }
    assert(changed@.map_values(|w: FileWrite| write_view(w)) =~= as_list(
        ManagedFile::Gitignore,
        gitignore_write(*config, existing_gitignore@),
    ));
    let l = match license::plan(config) {
        Ok(l) => l,
        Err(e) => return (changed, Some(e)),
    };
    let ghost year = choose|year: int|
        -9999 <= year <= 9999 && FileWrite::view_of(l) == license_write(*config, year) && (l matches Some(
            f,
        ) ==> f.file == ManagedFile::License);
    if let Some(w) = l {
        changed.push(w);
    }
    assert(changed@.map_values(|w: FileWrite| write_view(w)) =~= planned(
        *config,
        existing_gitignore@,
        year,
    ));
    (changed, None)
}

} // verus!
