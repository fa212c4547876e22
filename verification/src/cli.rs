//! The command line: commands, flags and how they meet the settings.

use vstd::prelude::*;

use crate::config::{or, Config, ConfigView};
use crate::text::{
    cat2, copy_option, copy_strings, join, join_strings, lemma_texts_push, opt_text, texts,
};

verus! {

/// A shell that hooks and completions are written for.
#[derive(Debug, Clone, Copy, PartialEq, Eq, Structural)]
pub enum Shell {
    Bash,
    Elvish,
    Fish,
    PowerShell,
    Zsh,
}

impl Shell {
    /// The name of the shell.
    pub open spec fn title(self) -> Seq<char> {
        match self {
            Shell::Bash => "bash"@,
            Shell::Elvish => "elvish"@,
            Shell::Fish => "fish"@,
            Shell::PowerShell => "powershell"@,
            Shell::Zsh => "zsh"@,
        }
    }

    /// The name of the shell.
    pub fn name(self) -> (r: &'static str)
        ensures
            r@ == self.title(),
    {
        match self {
            Shell::Bash => "bash",
            Shell::Elvish => "elvish",
            Shell::Fish => "fish",
            Shell::PowerShell => "powershell",
            Shell::Zsh => "zsh",
        }
    }
}

/// What `wrapt repo` is asked to do.
#[derive(Debug)]
pub enum RepoCmd {
    /// List configured software sources
    List,
    /// Add a repository
    Add { repo: String, yes: bool },
    /// Remove a repository
    Remove { repo: String, yes: bool },
}

/// What is asked for.
#[derive(Debug)]
pub enum Command {
    /// Refresh the package lists
    Update,
    /// Upgrade all installed packages
    Upgrade { yes: bool, full: bool, security_only: bool },
    /// Install packages
    Install { packages: Vec<String>, yes: bool },
    /// Remove packages
    Remove { packages: Vec<String>, yes: bool, purge: bool },
    /// Reinstall packages, fetching their current version again
    Reinstall { packages: Vec<String>, yes: bool },
    /// Remove packages that are no longer needed
    Autoremove { yes: bool },
    /// Download packages into the current directory without installing
    Download { packages: Vec<String> },
    /// List installed, upgradable, or manually-installed packages
    List { upgradable: bool, manual: bool, pattern: Option<String> },
    /// Preview what installing packages would do, without installing
    Plan { packages: Vec<String> },
    /// Free disk space by clearing the downloaded-package cache
    Clean { all: bool, kernels: bool },
    /// Benchmark apt mirrors and switch to the fastest
    Fetch { apply: bool, count: usize, country: Option<String> },
    /// Suggest a package for an unrecognised command
    CommandNotFound { command: Option<String>, init: Option<Shell> },
    /// Explain why a package can't be installed
    WhyNot { package: String },
    /// Show a package's changelog, highlighting security fixes
    Changelog { package: String },
    /// Manage apt software sources and PPAs
    Repo { action: RepoCmd },
    /// Show the transaction history
    History { id: Option<u64> },
    /// Undo a past transaction (the most recent one by default)
    Undo { id: Option<u64>, yes: bool },
    /// Re-apply a past transaction
    Redo { id: u64, yes: bool },
    /// Undo every transaction after the given one, restoring that state
    Rollback { id: u64, yes: bool },
    /// Hold packages at their current version (exclude from upgrades)
    Hold { packages: Vec<String> },
    /// Release held packages
    Unhold { packages: Vec<String> },
    /// List held packages
    Held,
    /// Show the effective configuration, or create a starter config file
    Config { init: bool, path: bool },
    /// Review configuration files left behind by upgrades
    ConfigDiff,
    /// Generate a shell completion script
    Completions { shell: Shell },
    /// Print the man page
    Man,
    /// Search for packages
    Search { query: String },
    /// Show detailed information about a package
    Show { package: String },
    /// Explain why a package is installed
    Why { package: String, all: bool },
    /// Find which package provides a file or command
    Provides { pattern: String },
    /// Check the system for common package problems
    Doctor,
    /// Update wrapt itself to the latest published release
    SelfUpdate { check: bool },
}

/// The command line.
#[derive(Debug)]
pub struct Cli {
    pub command: Command,
    /// Number of parallel downloads
    pub parallel: Option<usize>,
    /// Show apt's raw output instead of the clean progress display
    pub verbose: bool,
    /// Emit machine-readable JSON
    pub json: bool,
    /// Show what a command would do, then stop without changing anything
    pub dry_run: bool,
}

/// Options shared by every state-changing command.
#[derive(Debug, Clone, Copy, PartialEq, Eq, Structural)]
pub struct TxOpts {
    pub yes: bool,
    pub jobs: usize,
    pub verbose: bool,
    /// Show the plan and stop, without downloading or changing anything.
    pub dry_run: bool,
    /// How many transactions the history keeps.
    pub history_limit: usize,
}

/// Whether a command emits JSON.
pub open spec fn emits_json(c: Command) -> bool {
    match c {
        Command::Search { .. } => true,
        Command::List { .. } => true,
        Command::Why { .. } => true,
        Command::History { .. } => true,
        Command::Doctor => true,
        Command::Held => true,
        Command::Provides { .. } => true,
        _ => false,
    }
}

/// Commands that actually emit JSON. Anything else is told so plainly rather
/// than accepting `--json` and printing its normal output.
pub fn supports_json(command: &Command) -> (r: bool)
    ensures
        r == emits_json(*command),
{
    match command {
        Command::Search { .. } => true,
        Command::List { .. } => true,
        Command::Why { .. } => true,
        Command::History { .. } => true,
        Command::Doctor => true,
        Command::Held => true,
        Command::Provides { .. } => true,
        _ => false,
    }
}

/// Whether the command itself was told to assume yes.
pub open spec fn says_yes(c: Command) -> bool {
    match c {
        Command::Upgrade { yes, .. } => yes,
        Command::Install { yes, .. } => yes,
        Command::Remove { yes, .. } => yes,
        Command::Reinstall { yes, .. } => yes,
        Command::Autoremove { yes } => yes,
        Command::Undo { yes, .. } => yes,
        Command::Redo { yes, .. } => yes,
        Command::Rollback { yes, .. } => yes,
        _ => false,
    }
}

fn told_yes(c: &Command) -> (r: bool)
    ensures
        r == says_yes(*c),
{
    match c {
        Command::Upgrade { yes, .. } => *yes,
        Command::Install { yes, .. } => *yes,
        Command::Remove { yes, .. } => *yes,
        Command::Reinstall { yes, .. } => *yes,
        Command::Autoremove { yes } => *yes,
        Command::Undo { yes, .. } => *yes,
        Command::Redo { yes, .. } => *yes,
        Command::Rollback { yes, .. } => *yes,
        _ => false,
    }
}

/// The value, or the default.
pub open spec fn or_else<A>(o: Option<A>, default: A) -> A {
    match o {
        Some(x) => x,
        None => default,
    }
}

/// The options of a run: flags win; else the settings decide, and then built-in
/// defaults. There is always at least one download at a time.
pub open spec fn options(cli: Cli, cfg: ConfigView) -> TxOpts {
    let jobs = or_else(or(cli.parallel, cfg.parallel), 5usize);
    TxOpts {
        yes: says_yes(cli.command) || or_else(cfg.assume_yes, false),
        jobs: if jobs == 0 {
            1usize
        } else {
            jobs
        },
        verbose: cli.verbose || or_else(cfg.verbose, false),
        dry_run: cli.dry_run,
        history_limit: or_else(cfg.history_limit, 1000usize),
    }
}

/// The options of a run.
pub fn resolve_options(cli: &Cli, cfg: &Config) -> (r: TxOpts)
    ensures
        r == options(*cli, cfg@),
{
    let jobs: usize = match cli.parallel {
        Some(n) => n,
        None => match cfg.parallel {
            Some(n) => n,
            None => 5,
        },
    };
    TxOpts {
        yes: told_yes(&cli.command) || match cfg.assume_yes {
            Some(b) => b,
            None => false,
        },
        jobs: if jobs == 0 {
            1
        } else {
            jobs
        },
        verbose: cli.verbose || match cfg.verbose {
            Some(b) => b,
            None => false,
        },
        dry_run: cli.dry_run,
        history_limit: match cfg.history_limit {
            Some(n) => n,
            None => 1000,
        },
    }
}

// ---------------------------------------------------------------------------
// What is done
// ---------------------------------------------------------------------------

/// What a command comes to.
#[derive(Debug)]
pub enum Job {
    Update,
    Upgrade {
        full: bool,
        security_only: bool,
        /// Mention a newer wrapt afterwards.
        notify: bool,
    },
    Install { packages: Vec<String> },
    /// Run apt-get with the arguments. `named` are the packages that were named,
    /// `action` is what is said while it runs.
    Transaction { args: Vec<String>, named: Vec<String>, action: &'static str },
    Download { packages: Vec<String> },
    List { upgradable: bool, manual: bool, pattern: Option<String> },
    Plan { packages: Vec<String> },
    Clean { all: bool },
    /// Purge old kernels, keeping so many of the newest.
    CleanKernels { keep: usize },
    Fetch { apply: bool, count: usize, country: Option<String> },
    /// Print the hook for a shell.
    Hook { shell: Shell },
    /// Suggest packages for a command.
    Lookup { command: String },
    WhyNot { package: String },
    Changelog { package: String },
    Repo { action: RepoCmd },
    History { id: Option<u64> },
    Undo { id: Option<u64> },
    Redo { id: u64 },
    Rollback { id: u64 },
    Hold { hold: bool, packages: Vec<String> },
    Held,
    Config { init: bool, path: bool },
    ConfigDiff,
    Completions { shell: Shell },
    Man,
    Search { query: String },
    Show { package: String },
    Why { package: String, all: bool },
    Provides { pattern: String },
    Doctor,
    SelfUpdate { check: bool },
    /// Say what would be done.
    Preview { would: String },
}

/// The job is the transaction with these arguments, packages and words.
pub open spec fn transacts(
    job: Job,
    args: Seq<Seq<char>>,
    named: Seq<Seq<char>>,
    action: Seq<char>,
) -> bool {
    job matches Job::Transaction { args: a, named: n, action: w } && texts(a@) == args && texts(n@)
        == named && w@ == action
}

/// What a command that runs no transaction would change, where it changes
/// something.
pub open spec fn would_do(c: Command) -> Option<Seq<char>> {
    match c {
        Command::Update => Some("Would refresh the package lists."@),
        Command::Download { packages } => Some(
            "Would download into the current directory: "@ + join(texts(packages@), ", "@),
        ),
        Command::Clean { all, kernels } => if kernels {
            None
        } else if all {
            Some("Would remove every downloaded package from the cache."@)
        } else {
            Some("Would remove outdated packages from the cache."@)
        },
        Command::Repo { action: RepoCmd::Add { repo, yes: _ } } => Some(
            "Would add the repository "@ + repo@,
        ),
        Command::Repo { action: RepoCmd::Remove { repo, yes: _ } } => Some(
            "Would remove the repository "@ + repo@,
        ),
        Command::Hold { packages } => Some("Would hold: "@ + join(texts(packages@), ", "@)),
        Command::Unhold { packages } => Some("Would release: "@ + join(texts(packages@), ", "@)),
        Command::Config { init: true, path: _ } => Some("Would write a starter config."@),
        _ => None,
    }
}

/// The job is what the command comes to under the settings. In a dry run nothing
/// is changed: what a transaction would do is shown, a mirror or a release is
/// looked for and not applied, and of anything else it is said what would be done.
pub open spec fn does(job: Job, cli: Cli, cfg: ConfigView) -> bool {
    if cli.dry_run && would_do(cli.command) is Some {
        job matches Job::Preview { would } && would@ == would_do(cli.command)->0
    } else {
        does_now(job, cli.command, cli.dry_run, cfg)
    }
}

/// The job is what the command comes to, where that is more than a preview.
pub open spec fn does_now(job: Job, c: Command, dry_run: bool, cfg: ConfigView) -> bool {
    match c {
        Command::Update => job == Job::Update,
        Command::Upgrade { yes: _, full, security_only } => job == (Job::Upgrade {
            full,
            security_only,
            notify: or_else(cfg.notify_updates, false),
        }),
        Command::Install { packages, yes: _ } => job == (Job::Install { packages }),
        Command::Remove { packages, yes: _, purge } => transacts(
            job,
            seq![
                if purge {
                    "purge"@
                } else {
                    "remove"@
                },
            ] + texts(packages@),
            texts(packages@),
            "Removing packages..."@,
        ),
        Command::Reinstall { packages, yes: _ } => transacts(
            job,
            seq!["install"@, "--reinstall"@] + texts(packages@),
            texts(packages@),
            "Reinstalling packages..."@,
        ),
        Command::Autoremove { yes: _ } => transacts(
            job,
            seq!["autoremove"@],
            seq![],
            "Removing unused packages..."@,
        ),
        Command::Download { packages } => job == (Job::Download { packages }),
        Command::List { upgradable, manual, pattern } => job == (Job::List {
            upgradable,
            manual,
            pattern,
        }),
        Command::Plan { packages } => job == (Job::Plan { packages }),
        Command::Clean { all, kernels } => if kernels {
            job == (Job::CleanKernels { keep: or_else(cfg.keep_kernels, 2usize) })
        } else {
            job == (Job::Clean { all })
        },
        Command::Fetch { apply, count, country } => job matches Job::Fetch {
            apply: a,
            count: n,
            country: cc,
        } && a == (apply && !dry_run) && n == count && opt_text(cc) == or(opt_text(country), cfg.mirror_country),
        Command::CommandNotFound { command, init } => match init {
            Some(shell) => job == (Job::Hook { shell }),
            None => command is Some && job == (Job::Lookup { command: command->0 }),
        },
        Command::WhyNot { package } => job == (Job::WhyNot { package }),
        Command::Changelog { package } => job == (Job::Changelog { package }),
        Command::Repo { action } => job == (Job::Repo { action }),
        Command::History { id } => job == (Job::History { id }),
        Command::Undo { id, yes: _ } => job == (Job::Undo { id }),
        Command::Redo { id, yes: _ } => job == (Job::Redo { id }),
        Command::Rollback { id, yes: _ } => job == (Job::Rollback { id }),
        Command::Hold { packages } => job == (Job::Hold { hold: true, packages }),
        Command::Unhold { packages } => job == (Job::Hold { hold: false, packages }),
        Command::Held => job == Job::Held,
        Command::Config { init, path } => job == (Job::Config { init, path }),
        Command::ConfigDiff => job == Job::ConfigDiff,
        Command::Completions { shell } => job == (Job::Completions { shell }),
        Command::Man => job == Job::Man,
        Command::Search { query } => job == (Job::Search { query }),
        Command::Show { package } => job == (Job::Show { package }),
        Command::Why { package, all } => job == (Job::Why { package, all }),
        Command::Provides { pattern } => job == (Job::Provides { pattern }),
        Command::Doctor => job == Job::Doctor,
        Command::SelfUpdate { check } => job == (Job::SelfUpdate { check: check || dry_run }),
    }
}

/// Why a command line is refused.
pub open spec fn refused(cli: Cli) -> Option<Seq<char>> {
    if cli.json && !emits_json(cli.command) {
        Some(
            "--json is not supported by this command — it works with search, list, why, history, doctor, held, and provides"@,
        )
    } else if cli.command matches Command::CommandNotFound { command, init } && init is None
        && command is None {
        Some("a command name (or --init <shell>) is required"@)
    } else {
        None
    }
}

fn preview(c: &Command) -> (r: Option<String>)
    ensures
        opt_text(r) == would_do(*c),
{
    match c {
        Command::Update => Some("Would refresh the package lists.".to_owned()),
        Command::Download { packages } => Some(
            cat2(
                "Would download into the current directory: ",
                join_strings(packages, ", ").as_str(),
            ),
        ),
        Command::Clean { all, kernels } => if *kernels {
            None
        } else if *all {
            Some("Would remove every downloaded package from the cache.".to_owned())
        } else {
            Some("Would remove outdated packages from the cache.".to_owned())
        },
        Command::Repo { action: RepoCmd::Add { repo, yes: _ } } => Some(
            cat2("Would add the repository ", repo.as_str()),
        ),
        Command::Repo { action: RepoCmd::Remove { repo, yes: _ } } => Some(
            cat2("Would remove the repository ", repo.as_str()),
        ),
        Command::Hold { packages } => Some(
            cat2("Would hold: ", join_strings(packages, ", ").as_str()),
        ),
        Command::Unhold { packages } => Some(
            cat2("Would release: ", join_strings(packages, ", ").as_str()),
        ),
        Command::Config { init, path: _ } => if *init {
            Some("Would write a starter config.".to_owned())
        } else {
            None
        },
        _ => None,
    }
}

fn prefixed(first: Vec<String>, packages: &Vec<String>) -> (r: Vec<String>)
    ensures
        texts(r@) == texts(first@) + texts(packages@),
{
    let ghost head = texts(first@);
    let mut out = first;
    let mut rest = copy_strings(packages);
    let ghost tail = texts(rest@);
    out.append(&mut rest);
    assert(texts(out@) =~= head + tail);
    out
}

fn one(word: &str) -> (r: Vec<String>)
    ensures
        texts(r@) == seq![word@],
{
    let mut v: Vec<String> = Vec::new();
    v.push(word.to_owned());
    assert(texts(v@) =~= seq![word@]);
    v
}

/// What the command line comes to under the settings, or why it is refused.
pub fn run(cli: Cli, cfg: &Config) -> (r: Result<(Job, TxOpts), String>)
    ensures
        match r {
            Ok((job, opts)) => refused(cli) is None && does(job, cli, cfg@) && opts
                == options(cli, cfg@),
            Err(e) => refused(cli) == Some(e@),
        },
{
    if cli.json && !supports_json(&cli.command) {
        return Err(
            "--json is not supported by this command — it works with search, list, why, history, doctor, held, and provides".to_owned(),
        );
    }
    let opts = resolve_options(&cli, cfg);
    let dry_run = cli.dry_run;
    if dry_run {
        if let Some(would) = preview(&cli.command) {
            return Ok((Job::Preview { would }, opts));
        }
    }
    let job = match cli.command {
        Command::Update => Job::Update,
        Command::Upgrade { yes: _, full, security_only } => Job::Upgrade {
            full,
            security_only,
            notify: match cfg.notify_updates {
                Some(b) => b,
                None => false,
            },
        },
        Command::Install { packages, yes: _ } => Job::Install { packages },
        Command::Remove { packages, yes: _, purge } => {
            let op = if purge {
                "purge"
            } else {
                "remove"
            };
            Job::Transaction {
                args: prefixed(one(op), &packages),
                named: packages,
                action: "Removing packages...",
            }
        },
        Command::Reinstall { packages, yes: _ } => {
            let mut first = one("install");
            first.push("--reinstall".to_owned());
            proof {
                broadcast use lemma_texts_push;

            }
            assert(texts(first@) =~= seq!["install"@, "--reinstall"@]);
            Job::Transaction {
                args: prefixed(first, &packages),
                named: packages,
                action: "Reinstalling packages...",
            }
        },
        Command::Autoremove { yes: _ } => {
            let named: Vec<String> = Vec::new();
            assert(texts(named@) =~= seq![]);
            Job::Transaction {
                args: one("autoremove"),
                named,
                action: "Removing unused packages...",
            }
        },
        Command::Download { packages } => Job::Download { packages },
        Command::List { upgradable, manual, pattern } => Job::List { upgradable, manual, pattern },
        Command::Plan { packages } => Job::Plan { packages },
        Command::Clean { all, kernels } => if kernels {
            Job::CleanKernels {
                keep: match cfg.keep_kernels {
                    Some(n) => n,
                    None => 2,
                },
            }
        } else {
            Job::Clean { all }
        },
        Command::Fetch { apply, count, country } => {
            let country = match country {
                Some(c) => Some(c),
                None => copy_option(&cfg.mirror_country),
            };
            Job::Fetch { apply: apply && !dry_run, count, country }
        },
        Command::CommandNotFound { command, init } => match init {
            Some(shell) => Job::Hook { shell },
            None => match command {
                Some(command) => Job::Lookup { command },
                None => {
                    return Err("a command name (or --init <shell>) is required".to_owned());
                },
            },
        },
        Command::WhyNot { package } => Job::WhyNot { package },
        Command::Changelog { package } => Job::Changelog { package },
        Command::Repo { action } => Job::Repo { action },
        Command::History { id } => Job::History { id },
        Command::Undo { id, yes: _ } => Job::Undo { id },
        Command::Redo { id, yes: _ } => Job::Redo { id },
        Command::Rollback { id, yes: _ } => Job::Rollback { id },
        Command::Hold { packages } => Job::Hold { hold: true, packages },
        Command::Unhold { packages } => Job::Hold { hold: false, packages },
        Command::Held => Job::Held,
        Command::Config { init, path } => Job::Config { init, path },
        Command::ConfigDiff => Job::ConfigDiff,
        Command::Completions { shell } => Job::Completions { shell },
        Command::Man => Job::Man,
        Command::Search { query } => Job::Search { query },
        Command::Show { package } => Job::Show { package },
        Command::Why { package, all } => Job::Why { package, all },
        Command::Provides { pattern } => Job::Provides { pattern },
        Command::Doctor => Job::Doctor,
        Command::SelfUpdate { check } => Job::SelfUpdate { check: check || dry_run },
    };
    Ok((job, opts))
}

/// An explicit flag beats the settings.
pub proof fn a_flag_beats_the_settings(cli: Cli, cfg: ConfigView, other: ConfigView)
    ensures
        cli.parallel is Some ==> options(cli, cfg).jobs == options(cli, other).jobs,
        cli.verbose ==> options(cli, cfg).verbose,
        says_yes(cli.command) ==> options(cli, cfg).yes,
        options(cli, cfg).dry_run == cli.dry_run,
{
}

/// The job changes something by itself, outside a transaction.
pub open spec fn changes_alone(job: Job) -> bool {
    match job {
        Job::Update => true,
        Job::Download { .. } => true,
        Job::Clean { .. } => true,
        Job::Fetch { apply, .. } => apply,
        Job::Repo { action } => !(action is List),
        Job::Hold { .. } => true,
        Job::Config { init, .. } => init,
        Job::SelfUpdate { check } => !check,
        _ => false,
    }
}

/// With `--dry-run`, no command changes anything by itself; the transactions it
/// may run stop at their plan.
pub proof fn a_dry_run_only_previews(cli: Cli, cfg: ConfigView, job: Job)
    requires
        cli.dry_run,
        does(job, cli, cfg),
    ensures
        !changes_alone(job),
        options(cli, cfg).dry_run,
{
}

} // verus!
