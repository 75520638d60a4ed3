//! The vocabulary of the command line: its commands, their arguments, how a
//! token is classified, and which values each argument admits.
use vstd::prelude::*;
use vstd::string::*;

verus! {

/// Every command that the command line can reach, the top level included.
#[derive(Clone, Copy, Debug, PartialEq, Eq, Structural)]
pub enum Level {
    Top,
    Update,
    Setup,
    Run,
    Capture,
    Replay,
    Doctor,
    Service,
    ServiceInstall,
    ServiceUninstall,
    ServiceStart,
    ServiceStop,
    ServiceRestart,
    ServiceStatus,
    Rules,
    RulesList,
    RulesUpdate,
    RulesInstall,
}

/// Every argument of every command; `Recording` and `PackName` are positional.
#[derive(Clone, Copy, Debug, PartialEq, Eq, Structural)]
pub enum ArgKey {
    Config,
    LogLevel,
    Pack,
    Yes,
    NoStart,
    Force,
    CatalogUrl,
    Console,
    NoConsole,
    Output,
    Json,
    RulesDir,
    Recording,
    PackName,
    Help,
    Version,
}

/// Why a command line was not turned into a [`crate::cli::Cli`]; the variants
/// carry the names of the corresponding kinds of clap's `ErrorKind`.
#[derive(Clone, Copy, Debug, PartialEq, Eq, Structural)]
pub enum CliErrorKind {
    /// A value outside the admitted ones, an empty path, or a missing value.
    InvalidValue,
    /// An argument given twice at one level, or two arguments that exclude each other.
    ArgumentConflict,
    /// A flag that takes no value was given one with `=`.
    TooManyValues,
    /// A flag that the command does not have, or a surplus value.
    UnknownArgument,
    /// A word that names no subcommand where a subcommand was expected.
    InvalidSubcommand,
    /// A required positional argument is absent.
    MissingRequiredArgument,
    /// A command that needs a subcommand got arguments but no subcommand.
    MissingSubcommand,
    /// Help was asked for.
    DisplayHelp,
    /// A command that needs a subcommand got nothing at all: its help is shown.
    DisplayHelpOnMissingArgumentOrSubcommand,
    /// The version was asked for.
    DisplayVersion,
}

/// Nesting height of a command: how many levels of subcommands it has below it.
pub open spec fn depth(l: Level) -> nat {
    match l {
        Level::Top => 2,
        Level::Service => 1,
        Level::Rules => 1,
        _ => 0,
    }
}

/// The subcommand of `l` named `t`, if any (the built-in `help` excluded).
pub open spec fn subcommand(l: Level, t: Seq<char>) -> Option<Level> {
    match l {
        Level::Top => {
            if t == "update"@ {
                Some(Level::Update)
            } else if t == "setup"@ {
                Some(Level::Setup)
            } else if t == "run"@ {
                Some(Level::Run)
            } else if t == "capture"@ {
                Some(Level::Capture)
            } else if t == "replay"@ {
                Some(Level::Replay)
            } else if t == "doctor"@ {
                Some(Level::Doctor)
            } else if t == "service"@ {
                Some(Level::Service)
            } else if t == "rules"@ {
                Some(Level::Rules)
            } else {
                None
            }
        },
        Level::Service => {
            if t == "install"@ {
                Some(Level::ServiceInstall)
            } else if t == "uninstall"@ {
                Some(Level::ServiceUninstall)
            } else if t == "start"@ {
                Some(Level::ServiceStart)
            } else if t == "stop"@ {
                Some(Level::ServiceStop)
            } else if t == "restart"@ {
                Some(Level::ServiceRestart)
            } else if t == "status"@ {
                Some(Level::ServiceStatus)
            } else {
                None
            }
        },
        Level::Rules => {
            if t == "list"@ {
                Some(Level::RulesList)
            } else if t == "update"@ {
                Some(Level::RulesUpdate)
            } else if t == "install"@ {
                Some(Level::RulesInstall)
            } else {
                None
            }
        },
        _ => None,
    }
}

/// `b` is one of the subcommands of `a`.
pub open spec fn is_child(a: Level, b: Level) -> bool {
    match a {
        Level::Top => b is Update || b is Setup || b is Run || b is Capture || b is Replay
            || b is Doctor || b is Service || b is Rules,
        Level::Service => b is ServiceInstall || b is ServiceUninstall || b is ServiceStart
            || b is ServiceStop || b is ServiceRestart || b is ServiceStatus,
        Level::Rules => b is RulesList || b is RulesUpdate || b is RulesInstall,
        _ => false,
    }
}

pub proof fn lemma_subcommand_is_child(l: Level, t: Seq<char>)
    ensures
        subcommand(l, t) matches Some(s) ==> is_child(l, s) && depth(s) < depth(l),
{
}

/// Commands with subcommands; each of them also has the built-in `help` subcommand.
pub open spec fn has_subcommands(l: Level) -> bool {
    l is Top || l is Service || l is Rules
}

/// The options that every command accepts.
pub open spec fn is_global(k: ArgKey) -> bool {
    k is Config || k is LogLevel
}

/// How a global option is written.
pub open spec fn global_flag(k: ArgKey) -> Seq<char> {
    if k is Config {
        "--config"@
    } else {
        "--log-level"@
    }
}

/// Commands that cannot be used without a subcommand.
pub open spec fn requires_subcommand(l: Level) -> bool {
    l is Service || l is Rules
}

/// `t` names a subcommand of `l`, the built-in `help` included.
pub open spec fn names_subcommand(l: Level, t: Seq<char>) -> bool {
    subcommand(l, t) is Some || (has_subcommands(l) && t == "help"@)
}

/// The argument that `--name` denotes at command `l`.
pub open spec fn long_key(l: Level, name: Seq<char>) -> Option<ArgKey> {
    let rules_leaf = l is RulesList || l is RulesUpdate || l is RulesInstall;
    if name == "help"@ {
        Some(ArgKey::Help)
    } else if name == "version"@ {
        if l is Top { Some(ArgKey::Version) } else { None }
    } else if name == "config"@ {
        Some(ArgKey::Config)
    } else if name == "log-level"@ {
        Some(ArgKey::LogLevel)
    } else if name == "pack"@ {
        if l is Setup { Some(ArgKey::Pack) } else { None }
    } else if name == "yes"@ {
        if l is Setup { Some(ArgKey::Yes) } else { None }
    } else if name == "no-start"@ {
        if l is Setup { Some(ArgKey::NoStart) } else { None }
    } else if name == "force"@ {
        if l is Setup { Some(ArgKey::Force) } else { None }
    } else if name == "catalog-url"@ {
        if l is Setup || rules_leaf { Some(ArgKey::CatalogUrl) } else { None }
    } else if name == "console"@ {
        if l is Run { Some(ArgKey::Console) } else { None }
    } else if name == "no-console"@ {
        if l is Run { Some(ArgKey::NoConsole) } else { None }
    } else if name == "output"@ {
        if l is Capture || l is Replay { Some(ArgKey::Output) } else { None }
    } else if name == "json"@ {
        if l is Doctor { Some(ArgKey::Json) } else { None }
    } else if name == "rules-dir"@ {
        if rules_leaf { Some(ArgKey::RulesDir) } else { None }
    } else {
        None
    }
}

/// The argument that `-c` denotes at command `l`.
pub open spec fn short_key(l: Level, c: char) -> Option<ArgKey> {
    if c == 'h' {
        Some(ArgKey::Help)
    } else if c == 'V' && l is Top {
        Some(ArgKey::Version)
    } else {
        None
    }
}

/// Arguments that carry a value.
pub open spec fn takes_value(k: ArgKey) -> bool {
    k is Config || k is LogLevel || k is Pack || k is CatalogUrl || k is Output || k is RulesDir
        || k is Recording || k is PackName
}

/// The positional argument of command `l`, if it has one.
pub open spec fn positional(l: Level) -> Option<ArgKey> {
    match l {
        Level::Replay => Some(ArgKey::Recording),
        Level::RulesInstall => Some(ArgKey::PackName),
        _ => None,
    }
}

/// Number of argument slots.
pub open spec fn num_keys() -> nat {
    16
}

/// Slot of an argument in a level's record of values.
pub open spec fn key_index(k: ArgKey) -> int {
    match k {
        ArgKey::Config => 0,
        ArgKey::LogLevel => 1,
        ArgKey::Pack => 2,
        ArgKey::Yes => 3,
        ArgKey::NoStart => 4,
        ArgKey::Force => 5,
        ArgKey::CatalogUrl => 6,
        ArgKey::Console => 7,
        ArgKey::NoConsole => 8,
        ArgKey::Output => 9,
        ArgKey::Json => 10,
        ArgKey::RulesDir => 11,
        ArgKey::Recording => 12,
        ArgKey::PackName => 13,
        ArgKey::Help => 14,
        ArgKey::Version => 15,
    }
}

/// The argument stored in slot `j`.
pub open spec fn key_at(j: int) -> ArgKey {
    if j == 0 {
        ArgKey::Config
    } else if j == 1 {
        ArgKey::LogLevel
    } else if j == 2 {
        ArgKey::Pack
    } else if j == 3 {
        ArgKey::Yes
    } else if j == 4 {
        ArgKey::NoStart
    } else if j == 5 {
        ArgKey::Force
    } else if j == 6 {
        ArgKey::CatalogUrl
    } else if j == 7 {
        ArgKey::Console
    } else if j == 8 {
        ArgKey::NoConsole
    } else if j == 9 {
        ArgKey::Output
    } else if j == 10 {
        ArgKey::Json
    } else if j == 11 {
        ArgKey::RulesDir
    } else if j == 12 {
        ArgKey::Recording
    } else if j == 13 {
        ArgKey::PackName
    } else if j == 14 {
        ArgKey::Help
    } else {
        ArgKey::Version
    }
}

/// The log levels that `--log-level` admits.
pub open spec fn is_documented_level(v: Seq<char>) -> bool {
    v == "error"@ || v == "warn"@ || v == "info"@ || v == "debug"@ || v == "trace"@
}

/// The pack names that `--pack` admits.
pub open spec fn is_pack_name(v: Seq<char>) -> bool {
    v == "essential"@ || v == "advanced"@
}

/// Arguments whose value is a filesystem path, which must not be empty.
pub open spec fn is_path_key(k: ArgKey) -> bool {
    k is Config || k is Output || k is RulesDir || k is Recording
}

/// The error that value `v` of argument `k` raises, if any.
pub open spec fn value_error(k: ArgKey, v: Seq<char>) -> Option<CliErrorKind> {
    if is_path_key(k) {
        if v.len() == 0 { Some(CliErrorKind::InvalidValue) } else { None }
    } else if k is LogLevel {
        if is_documented_level(v) { None } else { Some(CliErrorKind::InvalidValue) }
    } else if k is Pack {
        if is_pack_name(v) { None } else { Some(CliErrorKind::InvalidValue) }
    } else {
        None
    }
}

/// `--`, after which every token is a positional value.
pub open spec fn is_escape(t: Seq<char>) -> bool {
    t.len() == 2 && t[0] == '-' && t[1] == '-'
}

/// `--name` or `--name=value`.
pub open spec fn is_long(t: Seq<char>) -> bool {
    t.len() > 2 && t[0] == '-' && t[1] == '-'
}

/// `-c...`: a dash followed by anything but a second dash.
pub open spec fn is_short(t: Seq<char>) -> bool {
    t.len() > 1 && t[0] == '-' && t[1] != '-'
}

/// Index of the first `=` in `t` at or after `i`, or the length of `t`.
pub open spec fn first_eq(t: Seq<char>, i: int) -> int
    decreases t.len() - i,
{
    if i >= t.len() {
        t.len() as int
    } else if t[i] == '=' {
        i
    } else {
        first_eq(t, i + 1)
    }
}

pub proof fn lemma_first_eq_bounds(t: Seq<char>, i: int)
    requires
        0 <= i,
    ensures
        i <= first_eq(t, i) || first_eq(t, i) == t.len(),
        first_eq(t, i) <= t.len() || i > t.len(),
        first_eq(t, i) < t.len() ==> t[first_eq(t, i)] == '=',
        first_eq(t, i) >= i || i >= t.len(),
        forall|j: int| i <= j < first_eq(t, i) ==> t[j] != '=',
    decreases t.len() - i,
{
    if i < t.len() && t[i] != '=' {
        lemma_first_eq_bounds(t, i + 1);
    }
}

/// Whether two strings are equal.
pub fn str_eq(a: &str, b: &str) -> (r: bool)
    ensures
        r == (a@ == b@),
{
    let n = a.unicode_len();
    if n != b.unicode_len() {
        proof {
            assert(a@.len() != b@.len());
        }
        return false;
    }
    let mut i: usize = 0;
    while i < n
        invariant
            n == a@.len(),
            n == b@.len(),
            i <= n,
            forall|j: int| 0 <= j < i ==> a@[j] == b@[j],
        decreases n - i,
    {
        if a.get_char(i) != b.get_char(i) {
            return false;
        }
        i = i + 1;
    }
    proof {
        assert(a@ =~= b@);
    }
    true
}

pub fn subcommand_of(l: Level, t: &str) -> (r: Option<Level>)
    ensures
        r == subcommand(l, t@),
{
    match l {
        Level::Top => {
            if str_eq(t, "update") {
                Some(Level::Update)
            } else if str_eq(t, "setup") {
                Some(Level::Setup)
            } else if str_eq(t, "run") {
                Some(Level::Run)
            } else if str_eq(t, "capture") {
                Some(Level::Capture)
            } else if str_eq(t, "replay") {
                Some(Level::Replay)
            } else if str_eq(t, "doctor") {
                Some(Level::Doctor)
            } else if str_eq(t, "service") {
                Some(Level::Service)
            } else if str_eq(t, "rules") {
                Some(Level::Rules)
            } else {
                None
            }
        },
        Level::Service => {
            if str_eq(t, "install") {
                Some(Level::ServiceInstall)
            } else if str_eq(t, "uninstall") {
                Some(Level::ServiceUninstall)
            } else if str_eq(t, "start") {
                Some(Level::ServiceStart)
            } else if str_eq(t, "stop") {
                Some(Level::ServiceStop)
            } else if str_eq(t, "restart") {
                Some(Level::ServiceRestart)
            } else if str_eq(t, "status") {
                Some(Level::ServiceStatus)
            } else {
                None
            }
        },
        Level::Rules => {
            if str_eq(t, "list") {
                Some(Level::RulesList)
            } else if str_eq(t, "update") {
                Some(Level::RulesUpdate)
            } else if str_eq(t, "install") {
                Some(Level::RulesInstall)
            } else {
                None
            }
        },
        _ => None,
    }
}

pub fn level_has_subcommands(l: Level) -> (r: bool)
    ensures
        r == has_subcommands(l),
{
    match l {
        Level::Top | Level::Service | Level::Rules => true,
        _ => false,
    }
}

pub fn long_key_of(l: Level, name: &str) -> (r: Option<ArgKey>)
    ensures
        r == long_key(l, name@),
{
    let setup = l == Level::Setup;
    let rules_leaf = l == Level::RulesList || l == Level::RulesUpdate || l == Level::RulesInstall;
    if str_eq(name, "help") {
        Some(ArgKey::Help)
    } else if str_eq(name, "version") {
        if l == Level::Top { Some(ArgKey::Version) } else { None }
    } else if str_eq(name, "config") {
        Some(ArgKey::Config)
    } else if str_eq(name, "log-level") {
        Some(ArgKey::LogLevel)
    } else if str_eq(name, "pack") {
        if setup { Some(ArgKey::Pack) } else { None }
    } else if str_eq(name, "yes") {
        if setup { Some(ArgKey::Yes) } else { None }
    } else if str_eq(name, "no-start") {
        if setup { Some(ArgKey::NoStart) } else { None }
    } else if str_eq(name, "force") {
        if setup { Some(ArgKey::Force) } else { None }
    } else if str_eq(name, "catalog-url") {
        if setup || rules_leaf { Some(ArgKey::CatalogUrl) } else { None }
    } else if str_eq(name, "console") {
        if l == Level::Run { Some(ArgKey::Console) } else { None }
    } else if str_eq(name, "no-console") {
        if l == Level::Run { Some(ArgKey::NoConsole) } else { None }
    } else if str_eq(name, "output") {
        if l == Level::Capture || l == Level::Replay { Some(ArgKey::Output) } else { None }
    } else if str_eq(name, "json") {
        if l == Level::Doctor { Some(ArgKey::Json) } else { None }
    } else if str_eq(name, "rules-dir") {
        if rules_leaf { Some(ArgKey::RulesDir) } else { None }
    } else {
        None
    }
}

pub fn short_key_of(l: Level, c: char) -> (r: Option<ArgKey>)
    ensures
        r == short_key(l, c),
{
    if c == 'h' {
        Some(ArgKey::Help)
    } else if c == 'V' && l == Level::Top {
        Some(ArgKey::Version)
    } else {
        None
    }
}

pub fn key_takes_value(k: ArgKey) -> (r: bool)
    ensures
        r == takes_value(k),
{
    match k {
        ArgKey::Config | ArgKey::LogLevel | ArgKey::Pack | ArgKey::CatalogUrl | ArgKey::Output
        | ArgKey::RulesDir | ArgKey::Recording | ArgKey::PackName => true,
        _ => false,
    }
}

pub fn positional_of(l: Level) -> (r: Option<ArgKey>)
    ensures
        r == positional(l),
{
    match l {
        Level::Replay => Some(ArgKey::Recording),
        Level::RulesInstall => Some(ArgKey::PackName),
        _ => None,
    }
}

pub fn slot_of(k: ArgKey) -> (r: usize)
    ensures
        r as int == key_index(k),
        r < num_keys(),
        key_at(r as int) == k,
{
    match k {
        ArgKey::Config => 0,
        ArgKey::LogLevel => 1,
        ArgKey::Pack => 2,
        ArgKey::Yes => 3,
        ArgKey::NoStart => 4,
        ArgKey::Force => 5,
        ArgKey::CatalogUrl => 6,
        ArgKey::Console => 7,
        ArgKey::NoConsole => 8,
        ArgKey::Output => 9,
        ArgKey::Json => 10,
        ArgKey::RulesDir => 11,
        ArgKey::Recording => 12,
        ArgKey::PackName => 13,
        ArgKey::Help => 14,
        ArgKey::Version => 15,
    }
}

pub fn value_error_of(k: ArgKey, v: &str) -> (r: Option<CliErrorKind>)
    ensures
        r == value_error(k, v@),
{
    match k {
        ArgKey::Config | ArgKey::Output | ArgKey::RulesDir | ArgKey::Recording => {
            if v.unicode_len() == 0 { Some(CliErrorKind::InvalidValue) } else { None }
        },
        ArgKey::LogLevel => {
            if str_eq(v, "error") || str_eq(v, "warn") || str_eq(v, "info") || str_eq(v, "debug")
                || str_eq(v, "trace") {
                None
            } else {
                Some(CliErrorKind::InvalidValue)
            }
        },
        ArgKey::Pack => {
            if str_eq(v, "essential") || str_eq(v, "advanced") {
                None
            } else {
                Some(CliErrorKind::InvalidValue)
            }
        },
        _ => None,
    }
}

/// Index of the first `=` of `t` at or after position 2, or the length of `t`.
pub fn first_eq_of(t: &str) -> (r: usize)
    requires
        t@.len() >= 2,
    ensures
        r as int == first_eq(t@, 2),
{
    let n = t.unicode_len();
    let mut i: usize = 2;
    while i < n
        invariant
            n == t@.len(),
            2 <= i <= n,
            first_eq(t@, 2) == first_eq(t@, i as int),
        decreases n - i,
    {
        if t.get_char(i) == '=' {
            return i;
        }
        i = i + 1;
    }
    i
}

} // verus!
