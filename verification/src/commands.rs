use vstd::prelude::*;

use crate::sync::SyncMode;

verus! {

/// A parsed command-line verb with its arguments.
pub enum Commands {
    /// Author a new template at a path.
    Author { path: String, name: Option<String> },
    /// List the available templates.
    List { verbose: bool, language: Option<String> },
    /// Initialize a template into an existing directory.
    Init { template: String, path: Option<String>, dry_run: bool, force: bool, delete: bool },
    /// Create a new project directory from a template.
    New { template: String, path: String, dry_run: bool, force: bool, delete: bool },
}

/// What a command asks the core to do. `Init` and `New` share one
/// synchronization plan and differ only in whether the target directory is
/// created.
pub enum CommandPlan {
    /// Author a new template.
    Author { path: String, name: Option<String> },
    /// List templates, optionally filtered by language.
    List { verbose: bool, language: Option<String> },
    /// Materialize a template into a target directory.
    Sync { template: String, path: Option<String>, mode: SyncMode, create_dir: bool },
}

/// Maps a command onto the operation it requests: `Init` synchronizes into
/// an existing directory, `New` creates the directory first.
pub fn handle_command(command: Commands) -> (r: CommandPlan)
    ensures
        (command matches Commands::Author { path, name } ==> r == (CommandPlan::Author {
            path,
            name,
        })),
        (command matches Commands::List { verbose, language } ==> r == (CommandPlan::List {
            verbose,
            language,
        })),
        (command matches Commands::Init { template, path, dry_run, force, delete } ==> r == (
        CommandPlan::Sync {
            template,
            path,
            mode: SyncMode { dry_run, force, delete },
            create_dir: false,
        })),
        (command matches Commands::New { template, path, dry_run, force, delete } ==> r == (
        CommandPlan::Sync {
            template,
            path: Some(path),
            mode: SyncMode { dry_run, force, delete },
            create_dir: true,
        })),
{
    match command {
        Commands::Author { path, name } => CommandPlan::Author { path, name },
        Commands::List { verbose, language } => CommandPlan::List { verbose, language },
        Commands::Init { template, path, dry_run, force, delete } => CommandPlan::Sync {
            template,
            path,
            mode: SyncMode { dry_run, force, delete },
            create_dir: false,
        },
        Commands::New { template, path, dry_run, force, delete } => CommandPlan::Sync {
            template,
            path: Some(path),
            mode: SyncMode { dry_run, force, delete },
            create_dir: true,
        },
    }
}

} // verus!
