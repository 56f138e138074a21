//! Command dispatch: maps the parsed invocation to the action the program
//! runs.

use vstd::prelude::*;

verus! {

/// A repository subcommand.
pub enum RepoCommand {
    Add { uri: String },
    Browse,
}

/// The parsed invocation of the program.
pub enum Command {
    Preview { line: String },
    PreviewVarWin,
    PreviewVar { selection: String, query: String, variable: String },
    Widget { shell: String },
    Func { func: String, args: Vec<String> },
    Info { info: String },
    Repo { cmd: RepoCommand },
}

/// What the program does for one invocation.
pub enum HandleAction {
    /// Browse the cheatsheet corpus and resolve a selection.
    RunCore,
    /// Render the preview of a selected line.
    RunPreview { line: String },
    /// Render the variable-prompt preview window.
    RunPreviewVarWin,
    /// Render the preview of a variable being resolved.
    RunPreviewVar { selection: String, query: String, variable: String },
    /// Print shell widget code.
    PrintWidget { shell: String },
    /// Run a named internal function.
    RunFunc { func: String, args: Vec<String> },
    /// Print a named piece of information.
    ShowInfo { info: String },
    /// Import cheatsheets from a repository, then browse.
    ImportThenCore { uri: String },
    /// Browse featured repositories, import the chosen one, then browse.
    BrowseImportThenCore,
}

/// Clone a vector of strings, value for value.
fn clone_string_vec(v: &Vec<String>) -> (r: Vec<String>)
    ensures
        r@ == v@,
{
    let n = v.len();
    let mut out: Vec<String> = Vec::new();
    let mut i: usize = 0;
    while i < n
        invariant
            n == v@.len(),
            i <= n,
            out@.len() == i,
            forall|j: int| 0 <= j < i ==> out@[j] == v@[j],
        decreases n - i,
    {
        out.push(v[i].clone());
        i = i + 1;
    }
    proof {
        assert(out@ =~= v@);
    }
    out
}

/// Decide what one invocation does: no command browses the corpus; each
/// subcommand maps to its action; a repository import or browse is
/// followed by a fresh browse of the corpus.
pub fn handle(cmd: &Option<Command>) -> (r: HandleAction)
    ensures
        cmd is None ==> r is RunCore,
        (match cmd {
            None => r is RunCore,
            Some(c) => match c {
                Command::Preview { line } => r matches HandleAction::RunPreview { line: l } && l
                    == line,
                Command::PreviewVarWin => r is RunPreviewVarWin,
                Command::PreviewVar { selection, query, variable } => r matches
                    HandleAction::RunPreviewVar { selection: s, query: q, variable: v } && s
                    == selection && q == query && v == variable,
                Command::Widget { shell } => r matches HandleAction::PrintWidget { shell: s } && s
                    == shell,
                Command::Func { func, args } => r matches HandleAction::RunFunc {
                    func: f,
                    args: a,
                } && f == func && a@ == args@,
                Command::Info { info } => r matches HandleAction::ShowInfo { info: i } && i
                    == info,
                Command::Repo { cmd: rc } => match rc {
                    RepoCommand::Add { uri } => r matches HandleAction::ImportThenCore { uri: u }
                        && u == uri,
                    RepoCommand::Browse => r is BrowseImportThenCore,
                },
            },
        }),
{
    match cmd {
        None => HandleAction::RunCore,
        Some(c) => match c {
            Command::Preview { line } => HandleAction::RunPreview { line: line.clone() },
            Command::PreviewVarWin => HandleAction::RunPreviewVarWin,
            Command::PreviewVar { selection, query, variable } => HandleAction::RunPreviewVar {
                selection: selection.clone(),
                query: query.clone(),
                variable: variable.clone(),
            },
            Command::Widget { shell } => HandleAction::PrintWidget { shell: shell.clone() },
            Command::Func { func, args } => HandleAction::RunFunc {
                func: func.clone(),
                args: clone_string_vec(args),
            },
            Command::Info { info } => HandleAction::ShowInfo { info: info.clone() },
            Command::Repo { cmd: rc } => match rc {
                RepoCommand::Add { uri } => HandleAction::ImportThenCore { uri: uri.clone() },
                RepoCommand::Browse => HandleAction::BrowseImportThenCore,
            },
        },
    }
}

} // verus!
