//! The `rustinel` command line: its commands, their arguments, and the parser
//! that turns an argument list into a [`Cli`] value or a [`CliError`].
use vstd::prelude::*;
use vstd::string::*;
pub mod grammar;
pub mod scan;
pub mod read;
pub mod lemmas;
pub mod extension;
pub mod shift;
pub mod laws;

use crate::cli::grammar::{key_index, slot_of, str_eq, ArgKey, CliErrorKind, Level};
use crate::cli::read::{chain_view, parse_level_exec, value_text, LevelMatches};
use crate::cli::scan::{chain_wf, level_ok, linked};
use crate::cli::scan::{parse_level, token_views, val_of, vals_wf, Parsed};

verus! {

/// The rules catalog that `setup` and `rules` read when no `--catalog-url` is given.
pub const DEFAULT_CATALOG_URL: &'static str =
    "https://github.com/Karib0u/rustinel-rules/releases/latest/download/index.json";

/// The binary's name, as the first argument carries it.
pub const BINARY_NAME: &'static str = "rustinel";

/// Rules pack offered by `rustinel setup --pack`.
#[derive(Clone, Copy, Debug, PartialEq, Eq, Structural)]
pub enum SetupPack {
    Essential,
    Advanced,
}

/// The name of a pack's level in the rules catalog.
pub open spec fn pack_level(p: SetupPack) -> Seq<char> {
    match p {
        SetupPack::Essential => "essential"@,
        SetupPack::Advanced => "advanced"@,
    }
}

impl SetupPack {
    /// The pack level as it appears in the rules catalog.
    pub fn level(self) -> (r: &'static str)
        ensures
            r@ == pack_level(self),
    {
        match self {
            SetupPack::Essential => "essential",
            SetupPack::Advanced => "advanced",
        }
    }
}

/// `rustinel service <action>`.
#[derive(Clone, Copy, Debug, PartialEq, Eq, Structural)]
pub enum ServiceAction {
    /// Register the native service. The managed binary and configuration must already exist
    Install,
    /// Unregister the native service. Configuration, rules, and logs are kept
    Uninstall,
    /// Start the service
    Start,
    /// Stop the service
    Stop,
    /// Stop and start the service
    Restart,
    /// Print not-installed, stopped, starting, running, failed, or unknown
    Status,
}

/// `rustinel rules <action>`; `rules_dir` is the rules root directory.
#[derive(Clone, Debug)]
pub enum RulesAction {
    /// List rules packs available for this platform
    List { catalog_url: String, rules_dir: Option<String> },
    /// Update the active pack to the newest compatible release
    Update { catalog_url: String, rules_dir: Option<String> },
    /// Install a rules pack and make it active
    Install { pack: String, catalog_url: String, rules_dir: Option<String> },
}

/// The subcommands of `rustinel`; paths are carried as strings.
#[derive(Clone, Debug)]
pub enum Commands {
    /// Update the binary from the latest GitHub Release
    Update,
    /// Install Rustinel into the managed platform layout
    Setup { pack: Option<SetupPack>, yes: bool, no_start: bool, force: bool, catalog_url: String },
    /// Run in the foreground with console output
    Run { console: bool, no_console: bool },
    /// Record endpoint behavior to a replayable file without evaluating detections
    Capture { output: Option<String> },
    /// Evaluate a recording against the detectors, offline
    Replay { recording: String, output: Option<String> },
    /// Check configuration, paths, and runtime prerequisites
    Doctor { json: bool },
    /// Manage the native service
    Service { action: ServiceAction },
    /// Discover, install, and update released rules packs
    Rules { action: RulesAction },
}

/// A parsed command line.
#[derive(Clone, Debug)]
pub struct Cli {
    pub command: Option<Commands>,
    /// Configuration file to load
    pub config: Option<String>,
    /// Log level for this run: one of error, warn, info, debug, trace
    pub log_level: Option<String>,
}

/// A command line that was not accepted, or that asked for help or the version.
#[derive(Clone, Copy, Debug)]
pub struct CliError {
    pub kind: CliErrorKind,
}

impl CliError {
    pub fn kind(&self) -> (k: CliErrorKind)
        ensures
            k == self.kind,
    {
        self.kind
    }
}

/// `RulesAction` with its strings as character sequences.
pub enum RulesActionModel {
    List { catalog_url: Seq<char>, rules_dir: Option<Seq<char>> },
    Update { catalog_url: Seq<char>, rules_dir: Option<Seq<char>> },
    Install { pack: Seq<char>, catalog_url: Seq<char>, rules_dir: Option<Seq<char>> },
}

/// `Commands` with its strings as character sequences.
pub enum CommandModel {
    Update,
    Setup {
        pack: Option<SetupPack>,
        yes: bool,
        no_start: bool,
        force: bool,
        catalog_url: Seq<char>,
    },
    Run { console: bool, no_console: bool },
    Capture { output: Option<Seq<char>> },
    Replay { recording: Seq<char>, output: Option<Seq<char>> },
    Doctor { json: bool },
    Service { action: ServiceAction },
    Rules { action: RulesActionModel },
}

/// `Cli` with its strings as character sequences.
pub struct CliModel {
    pub command: Option<CommandModel>,
    pub config: Option<Seq<char>>,
    pub log_level: Option<Seq<char>>,
}

pub open spec fn opt_view(o: Option<String>) -> Option<Seq<char>> {
    match o {
        Some(s) => Some(s@),
        None => None,
    }
}

impl View for RulesAction {
    type V = RulesActionModel;

    open spec fn view(&self) -> RulesActionModel {
        match self {
            RulesAction::List { catalog_url, rules_dir } => RulesActionModel::List {
                catalog_url: catalog_url@,
                rules_dir: opt_view(*rules_dir),
            },
            RulesAction::Update { catalog_url, rules_dir } => RulesActionModel::Update {
                catalog_url: catalog_url@,
                rules_dir: opt_view(*rules_dir),
            },
            RulesAction::Install { pack, catalog_url, rules_dir } => RulesActionModel::Install {
                pack: pack@,
                catalog_url: catalog_url@,
                rules_dir: opt_view(*rules_dir),
            },
        }
    }
}

impl View for Commands {
    type V = CommandModel;

    open spec fn view(&self) -> CommandModel {
        match self {
            Commands::Update => CommandModel::Update,
            Commands::Setup { pack, yes, no_start, force, catalog_url } => CommandModel::Setup {
                pack: *pack,
                yes: *yes,
                no_start: *no_start,
                force: *force,
                catalog_url: catalog_url@,
            },
            Commands::Run { console, no_console } => CommandModel::Run {
                console: *console,
                no_console: *no_console,
            },
            Commands::Capture { output } => CommandModel::Capture { output: opt_view(*output) },
            Commands::Replay { recording, output } => CommandModel::Replay {
                recording: recording@,
                output: opt_view(*output),
            },
            Commands::Doctor { json } => CommandModel::Doctor { json: *json },
            Commands::Service { action } => CommandModel::Service { action: *action },
            Commands::Rules { action } => CommandModel::Rules { action: action@ },
        }
    }
}

impl View for Cli {
    type V = CliModel;

    open spec fn view(&self) -> CliModel {
        CliModel {
            command: match self.command {
                Some(c) => Some(c@),
                None => None,
            },
            config: opt_view(self.config),
            log_level: opt_view(self.log_level),
        }
    }
}

/// The value that level `p` holds for argument `k`.
pub open spec fn value_in(toks: Seq<Seq<char>>, p: Parsed, k: ArgKey) -> Option<Seq<char>> {
    match p.vals[key_index(k)] {
        Some(r) => Some(val_of(toks, r)),
        None => None,
    }
}

/// Whether flag `k` was given at level `p`.
pub open spec fn flag_in(p: Parsed, k: ArgKey) -> bool {
    p.vals[key_index(k)] is Some
}

/// The catalog URL of level `p`, or the default one.
pub open spec fn catalog_url_in(toks: Seq<Seq<char>>, p: Parsed) -> Seq<char> {
    match value_in(toks, p, ArgKey::CatalogUrl) {
        Some(u) => u,
        None => DEFAULT_CATALOG_URL@,
    }
}

/// A required value: the one given (validation has checked that it was).
pub open spec fn required_in(toks: Seq<Seq<char>>, p: Parsed, k: ArgKey) -> Seq<char> {
    match value_in(toks, p, k) {
        Some(v) => v,
        None => Seq::empty(),
    }
}

pub open spec fn pack_named(v: Seq<char>) -> SetupPack {
    if v == "advanced"@ {
        SetupPack::Advanced
    } else {
        SetupPack::Essential
    }
}

pub open spec fn service_action_of(l: Level) -> ServiceAction {
    match l {
        Level::ServiceInstall => ServiceAction::Install,
        Level::ServiceUninstall => ServiceAction::Uninstall,
        Level::ServiceStart => ServiceAction::Start,
        Level::ServiceStop => ServiceAction::Stop,
        Level::ServiceRestart => ServiceAction::Restart,
        _ => ServiceAction::Status,
    }
}

pub open spec fn rules_action_of(toks: Seq<Seq<char>>, p: Parsed) -> RulesActionModel {
    match p.level {
        Level::RulesList => RulesActionModel::List {
            catalog_url: catalog_url_in(toks, p),
            rules_dir: value_in(toks, p, ArgKey::RulesDir),
        },
        Level::RulesUpdate => RulesActionModel::Update {
            catalog_url: catalog_url_in(toks, p),
            rules_dir: value_in(toks, p, ArgKey::RulesDir),
        },
        _ => RulesActionModel::Install {
            pack: required_in(toks, p, ArgKey::PackName),
            catalog_url: catalog_url_in(toks, p),
            rules_dir: value_in(toks, p, ArgKey::RulesDir),
        },
    }
}

/// The subcommand that a parsed chain of levels describes.
pub open spec fn command_of(toks: Seq<Seq<char>>, c: Seq<Parsed>) -> Option<CommandModel> {
    if c.len() < 2 {
        None
    } else {
        let p = c[1];
        Some(
            match p.level {
                Level::Setup => CommandModel::Setup {
                    pack: match value_in(toks, p, ArgKey::Pack) {
                        Some(v) => Some(pack_named(v)),
                        None => None,
                    },
                    yes: flag_in(p, ArgKey::Yes),
                    no_start: flag_in(p, ArgKey::NoStart),
                    force: flag_in(p, ArgKey::Force),
                    catalog_url: catalog_url_in(toks, p),
                },
                Level::Run => CommandModel::Run {
                    console: flag_in(p, ArgKey::Console),
                    no_console: flag_in(p, ArgKey::NoConsole),
                },
                Level::Capture => CommandModel::Capture { output: value_in(toks, p, ArgKey::Output) },
                Level::Replay => CommandModel::Replay {
                    recording: required_in(toks, p, ArgKey::Recording),
                    output: value_in(toks, p, ArgKey::Output),
                },
                Level::Doctor => CommandModel::Doctor { json: flag_in(p, ArgKey::Json) },
                Level::Service => CommandModel::Service { action: service_action_of(c[2].level) },
                Level::Rules => CommandModel::Rules { action: rules_action_of(toks, c[2]) },
                _ => CommandModel::Update,
            },
        )
    }
}

/// A global option's value: the one given at the deepest level that has it.
pub open spec fn deepest_value(toks: Seq<Seq<char>>, c: Seq<Parsed>, k: ArgKey) -> Option<
    Seq<char>,
>
    decreases c.len(),
{
    if c.len() == 0 {
        None
    } else {
        match value_in(toks, c[c.len() - 1], k) {
            Some(v) => Some(v),
            None => deepest_value(toks, c.drop_last(), k),
        }
    }
}

pub open spec fn cli_of(toks: Seq<Seq<char>>, c: Seq<Parsed>) -> CliModel {
    CliModel {
        command: command_of(toks, c),
        config: deepest_value(toks, c, ArgKey::Config),
        log_level: deepest_value(toks, c, ArgKey::LogLevel),
    }
}

/// What a command line means; its first token names the binary and is skipped.
pub open spec fn parse_command_line(toks: Seq<Seq<char>>) -> Result<CliModel, CliErrorKind> {
    match parse_level(Level::Top, toks, 1) {
        Ok(c) => Ok(cli_of(toks, c)),
        Err(e) => Err(e),
    }
}

fn value_string(args: &[&str], m: &LevelMatches, k: ArgKey) -> (r: Option<String>)
    requires
        vals_wf(token_views(args), m@.vals),
    ensures
        opt_view(r) == value_in(token_views(args), m@, k),
{
    let slot = slot_of(k);
    match m.vals[slot] {
        Some(x) => Some(value_text(args, x).to_owned()),
        None => None,
    }
}

fn flag_set(m: &LevelMatches, k: ArgKey) -> (r: bool)
    requires
        m@.vals.len() == 16,
    ensures
        r == flag_in(m@, k),
{
    let slot = slot_of(k);
    m.vals[slot].is_some()
}

fn catalog_url_string(args: &[&str], m: &LevelMatches) -> (r: String)
    requires
        vals_wf(token_views(args), m@.vals),
    ensures
        r@ == catalog_url_in(token_views(args), m@),
{
    match value_string(args, m, ArgKey::CatalogUrl) {
        Some(u) => u,
        None => DEFAULT_CATALOG_URL.to_owned(),
    }
}

fn required_string(args: &[&str], m: &LevelMatches, k: ArgKey) -> (r: String)
    requires
        vals_wf(token_views(args), m@.vals),
    ensures
        r@ == required_in(token_views(args), m@, k),
{
    match value_string(args, m, k) {
        Some(v) => v,
        None => String::new(),
    }
}

fn build_command(args: &[&str], chain: &Vec<LevelMatches>) -> (r: Option<Commands>)
    requires
        chain_wf(token_views(args), chain_view(chain@), Level::Top),
    ensures
        match r {
            Some(c) => command_of(token_views(args), chain_view(chain@)) == Some(c@),
            None => command_of(token_views(args), chain_view(chain@)) is None,
        },
{
    let ghost toks = token_views(args);
    let ghost c = chain_view(chain@);
    if chain.len() < 2 {
        return None;
    }
    let m = &chain[1];
    proof {
        reveal(level_ok);
        assert(c[1] == m@);
        assert(level_ok(toks, c[1], 1 < c.len() - 1));
        assert(linked(c, 0));
    }
    let cmd = match m.level {
        Level::Setup => {
            let pack = match value_string(args, m, ArgKey::Pack) {
                Some(v) => {
                    if str_eq(v.as_str(), "advanced") {
                        Some(SetupPack::Advanced)
                    } else {
                        Some(SetupPack::Essential)
                    }
                },
                None => None,
            };
            Commands::Setup {
                pack,
                yes: flag_set(m, ArgKey::Yes),
                no_start: flag_set(m, ArgKey::NoStart),
                force: flag_set(m, ArgKey::Force),
                catalog_url: catalog_url_string(args, m),
            }
        },
        Level::Run => Commands::Run {
            console: flag_set(m, ArgKey::Console),
            no_console: flag_set(m, ArgKey::NoConsole),
        },
        Level::Capture => Commands::Capture { output: value_string(args, m, ArgKey::Output) },
        Level::Replay => Commands::Replay {
            recording: required_string(args, m, ArgKey::Recording),
            output: value_string(args, m, ArgKey::Output),
        },
        Level::Doctor => Commands::Doctor { json: flag_set(m, ArgKey::Json) },
        Level::Service => {
            proof {
                assert(c.len() >= 3);
                assert(linked(c, 1));
            }
            let action = match chain[2].level {
                Level::ServiceInstall => ServiceAction::Install,
                Level::ServiceUninstall => ServiceAction::Uninstall,
                Level::ServiceStart => ServiceAction::Start,
                Level::ServiceStop => ServiceAction::Stop,
                Level::ServiceRestart => ServiceAction::Restart,
                _ => ServiceAction::Status,
            };
            Commands::Service { action }
        },
        Level::Rules => {
            proof {
                assert(c.len() >= 3);
                assert(linked(c, 1));
                assert(c[2] == chain@[2]@);
                assert(level_ok(toks, c[2], 2 < c.len() - 1));
            }
            let leaf = &chain[2];
            let action = match leaf.level {
                Level::RulesList => RulesAction::List {
                    catalog_url: catalog_url_string(args, leaf),
                    rules_dir: value_string(args, leaf, ArgKey::RulesDir),
                },
                Level::RulesUpdate => RulesAction::Update {
                    catalog_url: catalog_url_string(args, leaf),
                    rules_dir: value_string(args, leaf, ArgKey::RulesDir),
                },
                _ => RulesAction::Install {
                    pack: required_string(args, leaf, ArgKey::PackName),
                    catalog_url: catalog_url_string(args, leaf),
                    rules_dir: value_string(args, leaf, ArgKey::RulesDir),
                },
            };
            Commands::Rules { action }
        },
        _ => Commands::Update,
    };
    Some(cmd)
}

fn deepest_string(args: &[&str], chain: &Vec<LevelMatches>, k: ArgKey) -> (r: Option<String>)
    requires
        chain_wf(token_views(args), chain_view(chain@), Level::Top),
    ensures
        opt_view(r) == deepest_value(token_views(args), chain_view(chain@), k),
{
    let ghost toks = token_views(args);
    let ghost c = chain_view(chain@);
    let mut n = chain.len();
    proof {
        assert(c.subrange(0, n as int) =~= c);
    }
    while n > 0
        invariant
            n <= chain@.len(),
            c == chain_view(chain@),
            chain_wf(toks, c, Level::Top),
            toks == token_views(args),
            deepest_value(toks, c, k) == deepest_value(toks, c.subrange(0, n as int), k),
        decreases n,
    {
        let m = &chain[n - 1];
        proof {
            reveal(level_ok);
            assert(c[n - 1] == m@);
            assert(level_ok(toks, c[n - 1], n - 1 < c.len() - 1));
            let sub = c.subrange(0, n as int);
            assert(sub[sub.len() - 1] == m@);
            assert(sub.drop_last() =~= c.subrange(0, n - 1));
        }
        match value_string(args, m, k) {
            Some(v) => {
                return Some(v);
            },
            None => {},
        }
        n = n - 1;
    }
    None
}

impl Cli {
    /// Parse a command line; its first element names the binary and is skipped.
    pub fn try_parse_from(args: &[&str]) -> (r: Result<Cli, CliError>)
        ensures
            match parse_command_line(token_views(args)) {
                Ok(c) => r matches Ok(cli) && cli@ == c,
                Err(e) => r matches Err(x) && x.kind == e,
            },
    {
        match parse_level_exec(Level::Top, args, 1) {
            Err(e) => Err(CliError { kind: e }),
            Ok(chain) => {
                let command = build_command(args, &chain);
                let config = deepest_string(args, &chain, ArgKey::Config);
                let log_level = deepest_string(args, &chain, ArgKey::LogLevel);
                Ok(Cli { command, config, log_level })
            },
        }
    }
}

} // verus!
