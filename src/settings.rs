//! Resolution of run settings: a command-line value overrides the template
//! document's, which overrides the built-in default.
use vstd::prelude::*;

verus! {

/// The settings that a run resolves to.
pub struct Settings {
    /// Commits at and before this one are left out; `None` keeps all history.
    pub commit_id_cutoff: Option<String>,
    /// The repository to read history from.
    pub git_path: String,
}

pub open spec fn first_given(cli: Option<String>, doc: Option<String>) -> Option<String> {
    match cli {
        Some(c) => Some(c),
        None => doc,
    }
}

/// The cutoff commit: the command line's, else the document's, else none.
pub fn resolve_commit_id(cli: Option<String>, doc: Option<String>) -> (r: Option<String>)
    ensures
        r == first_given(cli, doc),
{
    match cli {
        Some(c) => Some(c),
        None => doc,
    }
}

/// The repository path: the command line's, else the document's, else `./`.
pub fn resolve_git_path(cli: Option<String>, doc: Option<String>) -> (r: String)
    ensures
        first_given(cli, doc) is Some ==> r == first_given(cli, doc)->Some_0,
        first_given(cli, doc) is None ==> r@ == "./"@,
{
    match cli {
        Some(c) => c,
        None => match doc {
            Some(d) => d,
            None => String::from_str("./"),
        },
    }
}

/// Resolves both settings, each by its own precedence.
pub fn resolve(
    cli_commit_id: Option<String>,
    doc_commit_id: Option<String>,
    cli_git_path: Option<String>,
    doc_git_path: Option<String>,
) -> (s: Settings)
    ensures
        s.commit_id_cutoff == first_given(cli_commit_id, doc_commit_id),
        first_given(cli_git_path, doc_git_path) is Some ==> s.git_path == first_given(cli_git_path, doc_git_path)->Some_0,
        first_given(cli_git_path, doc_git_path) is None ==> s.git_path@ == "./"@,
{
    Settings {
        commit_id_cutoff: resolve_commit_id(cli_commit_id, doc_commit_id),
        git_path: resolve_git_path(cli_git_path, doc_git_path),
    }
}

} // verus!
