//! The library's command-line grammar, held against clap's parser driven by the
//! same command tree, built with clap's builder API, on many argument lists.
use clap::builder::{PossibleValuesParser, ValueParser};
use clap::error::ErrorKind;
use clap::{Arg, ArgAction, ArgMatches, Command};
use rustinel::cli::grammar::CliErrorKind;
use rustinel::cli::{Cli, Commands, RulesAction, DEFAULT_CATALOG_URL};
use std::path::PathBuf;

fn path_opt(name: &'static str) -> Arg {
    Arg::new(name)
        .long(name)
        .action(ArgAction::Set)
        .value_parser(ValueParser::path_buf())
}

fn flag(id: &'static str, long: &'static str) -> Arg {
    Arg::new(id).long(long).action(ArgAction::SetTrue)
}

fn catalog_url() -> Arg {
    Arg::new("catalog_url")
        .long("catalog-url")
        .action(ArgAction::Set)
        .value_parser(ValueParser::string())
        .default_value(DEFAULT_CATALOG_URL)
}

fn rules_dir() -> Arg {
    Arg::new("rules_dir")
        .long("rules-dir")
        .action(ArgAction::Set)
        .value_parser(ValueParser::path_buf())
}

fn command_tree() -> Command {
    Command::new("rustinel")
        .version("0.0.0")
        .arg(path_opt("config").global(true))
        .arg(
            Arg::new("log_level")
                .long("log-level")
                .global(true)
                .action(ArgAction::Set)
                .value_parser(PossibleValuesParser::new(["error", "warn", "info", "debug", "trace"])),
        )
        .subcommand(Command::new("update"))
        .subcommand(
            Command::new("setup")
                .arg(
                    Arg::new("pack")
                        .long("pack")
                        .action(ArgAction::Set)
                        .value_parser(PossibleValuesParser::new(["essential", "advanced"])),
                )
                .arg(flag("yes", "yes"))
                .arg(flag("no_start", "no-start"))
                .arg(flag("force", "force"))
                .arg(catalog_url()),
        )
        .subcommand(
            Command::new("run")
                .arg(flag("console", "console").conflicts_with("no_console"))
                .arg(flag("no_console", "no-console")),
        )
        .subcommand(Command::new("capture").arg(path_opt("output")))
        .subcommand(
            Command::new("replay")
                .arg(
                    Arg::new("recording")
                        .required(true)
                        .action(ArgAction::Set)
                        .value_parser(ValueParser::path_buf()),
                )
                .arg(path_opt("output")),
        )
        .subcommand(Command::new("doctor").arg(flag("json", "json")))
        .subcommand(
            Command::new("service")
                .subcommand_required(true)
                .arg_required_else_help(true)
                .subcommand(Command::new("install"))
                .subcommand(Command::new("uninstall"))
                .subcommand(Command::new("start"))
                .subcommand(Command::new("stop"))
                .subcommand(Command::new("restart"))
                .subcommand(Command::new("status")),
        )
        .subcommand(
            Command::new("rules")
                .subcommand_required(true)
                .arg_required_else_help(true)
                .subcommand(Command::new("list").arg(catalog_url()).arg(rules_dir()))
                .subcommand(Command::new("update").arg(catalog_url()).arg(rules_dir()))
                .subcommand(
                    Command::new("install")
                        .arg(
                            Arg::new("pack")
                                .required(true)
                                .action(ArgAction::Set)
                                .value_parser(ValueParser::string()),
                        )
                        .arg(catalog_url())
                        .arg(rules_dir()),
                ),
        )
}

fn path_of(m: &ArgMatches, id: &str) -> String {
    match m.get_one::<PathBuf>(id) {
        Some(p) => format!("{:?}", p.to_str().unwrap()),
        None => "-".to_string(),
    }
}

fn string_of(m: &ArgMatches, id: &str) -> String {
    match m.get_one::<String>(id) {
        Some(s) => format!("{s:?}"),
        None => "-".to_string(),
    }
}

fn clap_render(cmd: &mut Command, args: &[&str]) -> Result<String, ErrorKind> {
    let m = cmd.try_get_matches_from_mut(args).map_err(|e| e.kind())?;
    let command = match m.subcommand() {
        None => "none".to_string(),
        Some(("update", _)) => "update".to_string(),
        Some(("setup", s)) => format!(
            "setup {} {} {} {} {}",
            string_of(s, "pack"),
            s.get_flag("yes"),
            s.get_flag("no_start"),
            s.get_flag("force"),
            string_of(s, "catalog_url")
        ),
        Some(("run", s)) => format!("run {} {}", s.get_flag("console"), s.get_flag("no_console")),
        Some(("capture", s)) => format!("capture {}", path_of(s, "output")),
        Some(("replay", s)) => format!("replay {} {}", path_of(s, "recording"), path_of(s, "output")),
        Some(("doctor", s)) => format!("doctor {}", s.get_flag("json")),
        Some(("service", s)) => format!("service {}", s.subcommand_name().unwrap()),
        Some(("rules", s)) => match s.subcommand() {
            Some((name, r)) if name == "list" || name == "update" => format!(
                "rules {} {} {}",
                name,
                string_of(r, "catalog_url"),
                path_of(r, "rules_dir")
            ),
            Some((_, r)) => format!(
                "rules install {} {} {}",
                string_of(r, "pack"),
                string_of(r, "catalog_url"),
                path_of(r, "rules_dir")
            ),
            None => unreachable!(),
        },
        Some((other, _)) => panic!("unexpected subcommand {other}"),
    };
    Ok(format!(
        "{} | {} | {}",
        path_of(&m, "config"),
        string_of(&m, "log_level"),
        command
    ))
}

fn quoted(o: &Option<String>) -> String {
    match o {
        Some(s) => format!("{s:?}"),
        None => "-".to_string(),
    }
}

fn library_render(args: &[&str]) -> Result<String, ErrorKind> {
    let cli = Cli::try_parse_from(args).map_err(|e| clap_kind(e.kind()))?;
    let command = match &cli.command {
        None => "none".to_string(),
        Some(Commands::Update) => "update".to_string(),
        Some(Commands::Setup {
            pack,
            yes,
            no_start,
            force,
            catalog_url,
        }) => format!(
            "setup {} {} {} {} {:?}",
            match pack {
                Some(p) => format!("{:?}", p.level()),
                None => "-".to_string(),
            },
            yes,
            no_start,
            force,
            catalog_url
        ),
        Some(Commands::Run { console, no_console }) => format!("run {console} {no_console}"),
        Some(Commands::Capture { output }) => format!("capture {}", quoted(output)),
        Some(Commands::Replay { recording, output }) => {
            format!("replay {:?} {}", recording, quoted(output))
        }
        Some(Commands::Doctor { json }) => format!("doctor {json}"),
        Some(Commands::Service { action }) => {
            format!("service {}", format!("{action:?}").to_lowercase())
        }
        Some(Commands::Rules { action }) => match action {
            RulesAction::List {
                catalog_url,
                rules_dir,
            } => format!("rules list {:?} {}", catalog_url, quoted(rules_dir)),
            RulesAction::Update {
                catalog_url,
                rules_dir,
            } => format!("rules update {:?} {}", catalog_url, quoted(rules_dir)),
            RulesAction::Install {
                pack,
                catalog_url,
                rules_dir,
            } => format!(
                "rules install {:?} {:?} {}",
                pack,
                catalog_url,
                quoted(rules_dir)
            ),
        },
    };
    Ok(format!(
        "{} | {} | {}",
        quoted(&cli.config),
        quoted(&cli.log_level),
        command
    ))
}

fn clap_kind(k: CliErrorKind) -> ErrorKind {
    match k {
        CliErrorKind::InvalidValue => ErrorKind::InvalidValue,
        CliErrorKind::ArgumentConflict => ErrorKind::ArgumentConflict,
        CliErrorKind::TooManyValues => ErrorKind::TooManyValues,
        CliErrorKind::UnknownArgument => ErrorKind::UnknownArgument,
        CliErrorKind::InvalidSubcommand => ErrorKind::InvalidSubcommand,
        CliErrorKind::MissingRequiredArgument => ErrorKind::MissingRequiredArgument,
        CliErrorKind::MissingSubcommand => ErrorKind::MissingSubcommand,
        CliErrorKind::DisplayHelp => ErrorKind::DisplayHelp,
        CliErrorKind::DisplayHelpOnMissingArgumentOrSubcommand => {
            ErrorKind::DisplayHelpOnMissingArgumentOrSubcommand
        }
        CliErrorKind::DisplayVersion => ErrorKind::DisplayVersion,
    }
}

const ALPHABET: [&str; 30] = [
    "run",
    "setup",
    "replay",
    "service",
    "rules",
    "install",
    "start",
    "list",
    "help",
    "doctor",
    "--config",
    "--config=c",
    "--log-level",
    "info",
    "--log-level=bogus",
    "--console",
    "--no-console",
    "--pack",
    "advanced",
    "--yes",
    "--",
    "-h",
    "-V",
    "--output",
    "--json",
    "--rules-dir",
    "-x",
    "--yes=1",
    "",
    "-",
];

fn check(cmd: &mut Command, tail: &[&str]) {
    let mut args = vec!["rustinel"];
    args.extend_from_slice(tail);
    let expected = clap_render(cmd, &args);
    let actual = library_render(&args);
    assert_eq!(actual, expected, "argument list {args:?}");
}

fn check_all_of_length(n: usize) {
    let mut cmd = command_tree();
    let mut idx = vec![0usize; n];
    loop {
        let tail: Vec<&str> = idx.iter().map(|&i| ALPHABET[i]).collect();
        check(&mut cmd, &tail);
        let mut pos = 0;
        loop {
            if pos == n {
                return;
            }
            idx[pos] += 1;
            if idx[pos] < ALPHABET.len() {
                break;
            }
            idx[pos] = 0;
            pos += 1;
        }
    }
}

#[test]
fn agrees_with_clap_on_short_argument_lists() {
    let mut cmd = command_tree();
    check(&mut cmd, &[]);
    check_all_of_length(1);
    check_all_of_length(2);
}

#[test]
fn agrees_with_clap_on_argument_lists_of_three() {
    check_all_of_length(3);
}

#[test]
fn agrees_with_clap_on_longer_argument_lists() {
    let mut cmd = command_tree();
    let mut seed: u64 = 0x2545_f491_4f6c_dd1d;
    for _ in 0..20_000 {
        seed ^= seed << 13;
        seed ^= seed >> 7;
        seed ^= seed << 17;
        let len = 4 + (seed % 4) as usize;
        let mut tail = Vec::with_capacity(len);
        let mut s = seed;
        for _ in 0..len {
            s = s.wrapping_mul(6364136223846793005).wrapping_add(1442695040888963407);
            tail.push(ALPHABET[((s >> 33) % ALPHABET.len() as u64) as usize]);
        }
        check(&mut cmd, &tail);
    }
}
