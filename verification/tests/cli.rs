use rustinel::cli::grammar::CliErrorKind;
use rustinel::cli::{Cli, Commands, RulesAction, ServiceAction, SetupPack, DEFAULT_CATALOG_URL};

fn parse_err(args: &[&str]) -> CliErrorKind {
    match Cli::try_parse_from(args) {
        Ok(cli) => panic!("expected an error, got {cli:?}"),
        Err(err) => err.kind(),
    }
}

#[test]
fn rules_update_parses_options() {
    let cli = Cli::try_parse_from(&[
        "rustinel",
        "rules",
        "update",
        "--rules-dir",
        "custom-rules",
        "--catalog-url",
        "https://github.com/example/rules/releases/download/v1/index.json",
    ])
    .expect("rules update should parse");
    match cli.command {
        Some(Commands::Rules {
            action:
                RulesAction::Update {
                    rules_dir,
                    catalog_url,
                },
        }) => {
            assert_eq!(rules_dir, Some("custom-rules".to_string()));
            assert!(catalog_url.ends_with("/v1/index.json"));
        }
        _ => panic!("expected rules update command"),
    }
}

#[test]
fn run_defaults_to_console_output() {
    let cli = Cli::try_parse_from(&["rustinel", "run"]).expect("valid CLI");

    match cli.command {
        Some(Commands::Run {
            console,
            no_console,
            ..
        }) => {
            assert!(!console);
            assert!(!no_console);
        }
        _ => panic!("expected run command"),
    }
}

#[test]
fn run_accepts_compat_console_alias() {
    let cli = Cli::try_parse_from(&["rustinel", "run", "--console"]).expect("valid CLI");

    match cli.command {
        Some(Commands::Run {
            console,
            no_console,
            ..
        }) => {
            assert!(console);
            assert!(!no_console);
        }
        _ => panic!("expected run command"),
    }
}

#[test]
fn run_accepts_no_console() {
    let cli = Cli::try_parse_from(&["rustinel", "run", "--no-console"]).expect("valid CLI");

    match cli.command {
        Some(Commands::Run {
            console,
            no_console,
            ..
        }) => {
            assert!(!console);
            assert!(no_console);
        }
        _ => panic!("expected run command"),
    }
}

#[test]
fn run_rejects_console_and_no_console_together() {
    let err = match Cli::try_parse_from(&["rustinel", "run", "--console", "--no-console"]) {
        Ok(_) => panic!("conflicting flags should fail"),
        Err(err) => err,
    };

    assert_eq!(err.kind(), CliErrorKind::ArgumentConflict);
}

#[test]
fn global_log_level_accepts_documented_values() {
    for level in ["error", "warn", "info", "debug", "trace"] {
        let cli = Cli::try_parse_from(&["rustinel", "--log-level", level, "doctor"])
            .expect("documented log level should parse");
        assert_eq!(cli.log_level.as_deref(), Some(level));
    }
}

#[test]
fn global_log_level_rejects_unknown_values() {
    let err = match Cli::try_parse_from(&["rustinel", "--log-level", "bogus", "doctor"]) {
        Ok(_) => panic!("unknown log level should fail"),
        Err(err) => err,
    };

    assert_eq!(err.kind(), CliErrorKind::InvalidValue);
}

#[test]
fn global_config_flag_is_accepted_before_subcommand() {
    let cli = Cli::try_parse_from(&["rustinel", "--config", "/tmp/rustinel.toml", "run"])
        .expect("config path should parse");
    assert_eq!(cli.config, Some("/tmp/rustinel.toml".to_string()));
}

#[test]
fn global_config_flag_is_accepted_after_subcommand() {
    let cli = Cli::try_parse_from(&["rustinel", "run", "--config", "/tmp/rustinel.toml"])
        .expect("config path should parse");
    assert_eq!(cli.config, Some("/tmp/rustinel.toml".to_string()));
}

#[test]
fn setup_accepts_managed_install_flags() {
    let cli = Cli::try_parse_from(&[
        "rustinel",
        "setup",
        "--pack",
        "advanced",
        "--yes",
        "--no-start",
        "--force",
    ])
    .expect("setup should parse");

    match cli.command {
        Some(Commands::Setup {
            pack,
            yes,
            no_start,
            force,
            catalog_url,
        }) => {
            assert_eq!(pack, Some(SetupPack::Advanced));
            assert!(yes);
            assert!(no_start);
            assert!(force);
            assert!(catalog_url.ends_with("/index.json"));
        }
        _ => panic!("expected setup command"),
    }
}

#[test]
fn capture_defaults_to_a_generated_output_path() {
    let cli = Cli::try_parse_from(&["rustinel", "capture"]).expect("capture should parse");

    match cli.command {
        Some(Commands::Capture { output }) => assert_eq!(output, None),
        _ => panic!("expected capture command"),
    }
}

#[test]
fn capture_accepts_an_explicit_output_path() {
    let cli = Cli::try_parse_from(&["rustinel", "capture", "--output", "/tmp/lab/run-42.ndjson"])
        .expect("capture should parse");

    match cli.command {
        Some(Commands::Capture { output }) => {
            assert_eq!(output, Some("/tmp/lab/run-42.ndjson".to_string()));
        }
        _ => panic!("expected capture command"),
    }
}

#[test]
fn capture_accepts_the_global_config_flag() {
    let cli = Cli::try_parse_from(&["rustinel", "capture", "--config", "/tmp/rustinel.toml"])
        .expect("capture should parse");

    assert_eq!(cli.config, Some("/tmp/rustinel.toml".to_string()));
    assert!(matches!(cli.command, Some(Commands::Capture { .. })));
}

#[test]
fn replay_requires_a_recording() {
    let err = match Cli::try_parse_from(&["rustinel", "replay"]) {
        Ok(_) => panic!("replay without a recording should fail"),
        Err(err) => err,
    };

    assert_eq!(
        err.kind(),
        CliErrorKind::MissingRequiredArgument,
        "the recording is the whole input to a replay"
    );
}

#[test]
fn replay_defaults_to_console_output() {
    let cli = Cli::try_parse_from(&["rustinel", "replay", "/tmp/lab/run-42.ndjson"])
        .expect("replay should parse");

    match cli.command {
        Some(Commands::Replay { recording, output }) => {
            assert_eq!(recording, "/tmp/lab/run-42.ndjson".to_string());
            assert_eq!(output, None);
        }
        _ => panic!("expected replay command"),
    }
}

#[test]
fn replay_accepts_an_ecs_output_path_and_a_config_override() {
    let cli = Cli::try_parse_from(&[
        "rustinel",
        "replay",
        "/tmp/lab/run-42.ndjson",
        "--output",
        "/tmp/lab/run-42.alerts.ndjson",
        "--config",
        "/tmp/candidate.toml",
    ])
    .expect("replay should parse");

    assert_eq!(cli.config, Some("/tmp/candidate.toml".to_string()));
    match cli.command {
        Some(Commands::Replay { output, .. }) => {
            assert_eq!(output, Some("/tmp/lab/run-42.alerts.ndjson".to_string()));
        }
        _ => panic!("expected replay command"),
    }
}

#[test]
fn doctor_accepts_json_flag() {
    let cli = Cli::try_parse_from(&["rustinel", "doctor", "--json"]).expect("valid CLI");

    match cli.command {
        Some(Commands::Doctor { json }) => assert!(json),
        _ => panic!("expected doctor command"),
    }
}

#[test]
fn service_accepts_restart() {
    let cli =
        Cli::try_parse_from(&["rustinel", "service", "restart"]).expect("restart should parse");

    match cli.command {
        Some(Commands::Service { action }) => {
            assert!(matches!(action, ServiceAction::Restart));
        }
        _ => panic!("expected service command"),
    }
}

#[test]
fn service_accepts_status() {
    let cli =
        Cli::try_parse_from(&["rustinel", "service", "status"]).expect("status should parse");

    match cli.command {
        Some(Commands::Service { action }) => {
            assert!(matches!(action, ServiceAction::Status));
        }
        _ => panic!("expected service command"),
    }
}

#[test]
fn rules_list_accepts_catalog_url() {
    let cli = Cli::try_parse_from(&[
        "rustinel",
        "rules",
        "list",
        "--catalog-url",
        "https://github.com/Karib0u/rustinel-rules/releases/download/v0.2.0/index.json",
    ])
    .expect("rules list should parse");

    match cli.command {
        Some(Commands::Rules {
            action: RulesAction::List { catalog_url, .. },
        }) => {
            assert!(catalog_url.ends_with("/index.json"));
        }
        _ => panic!("expected rules list command"),
    }
}

#[test]
fn rules_install_requires_pack() {
    let cli = Cli::try_parse_from(&["rustinel", "rules", "install", "linux-essential"])
        .expect("rules install should parse");

    match cli.command {
        Some(Commands::Rules {
            action: RulesAction::Install { pack, .. },
        }) => {
            assert_eq!(pack, "linux-essential");
        }
        _ => panic!("expected rules install command"),
    }
}

// Further cases of the grammar.

#[test]
fn no_subcommand_is_accepted() {
    let cli = Cli::try_parse_from(&["rustinel"]).expect("a bare invocation parses");
    assert!(cli.command.is_none());
    assert_eq!(cli.config, None);
    assert_eq!(cli.log_level, None);
}

#[test]
fn empty_argument_list_is_accepted() {
    let cli = Cli::try_parse_from(&[]).expect("no arguments at all parse");
    assert!(cli.command.is_none());
}

#[test]
fn setup_defaults_to_the_catalog_and_no_pack() {
    let cli = Cli::try_parse_from(&["rustinel", "setup"]).expect("setup parses");
    match cli.command {
        Some(Commands::Setup {
            pack,
            yes,
            no_start,
            force,
            catalog_url,
        }) => {
            assert_eq!(pack, None);
            assert!(!yes && !no_start && !force);
            assert_eq!(catalog_url, DEFAULT_CATALOG_URL);
        }
        _ => panic!("expected setup command"),
    }
}

#[test]
fn setup_pack_essential_and_level_names() {
    let cli = Cli::try_parse_from(&["rustinel", "setup", "--pack=essential"]).expect("parses");
    match cli.command {
        Some(Commands::Setup { pack, .. }) => {
            assert_eq!(pack, Some(SetupPack::Essential));
            assert_eq!(pack.unwrap().level(), "essential");
        }
        _ => panic!("expected setup command"),
    }
    assert_eq!(SetupPack::Advanced.level(), "advanced");
}

#[test]
fn setup_rejects_an_unknown_pack() {
    assert_eq!(
        parse_err(&["rustinel", "setup", "--pack", "extreme"]),
        CliErrorKind::InvalidValue
    );
    assert_eq!(
        parse_err(&["rustinel", "setup", "--pack", "Advanced"]),
        CliErrorKind::InvalidValue
    );
}

#[test]
fn attached_values_use_the_first_equals_sign() {
    let cli = Cli::try_parse_from(&["rustinel", "--config=/tmp/a=b.toml", "doctor"]).expect("parses");
    assert_eq!(cli.config, Some("/tmp/a=b.toml".to_string()));
}

#[test]
fn the_deepest_global_value_wins() {
    let cli = Cli::try_parse_from(&[
        "rustinel",
        "--config",
        "/top.toml",
        "service",
        "--config",
        "/mid.toml",
        "start",
        "--config",
        "/leaf.toml",
    ])
    .expect("one config per level parses");
    assert_eq!(cli.config, Some("/leaf.toml".to_string()));
    assert!(matches!(
        cli.command,
        Some(Commands::Service {
            action: ServiceAction::Start
        })
    ));
}

#[test]
fn a_global_given_twice_at_one_level_conflicts() {
    assert_eq!(
        parse_err(&["rustinel", "--config", "/a", "--config", "/b", "run"]),
        CliErrorKind::ArgumentConflict
    );
    assert_eq!(
        parse_err(&["rustinel", "doctor", "--json", "--json"]),
        CliErrorKind::ArgumentConflict
    );
}

#[test]
fn empty_paths_are_invalid_values() {
    assert_eq!(parse_err(&["rustinel", "--config=", "run"]), CliErrorKind::InvalidValue);
    assert_eq!(parse_err(&["rustinel", "replay", ""]), CliErrorKind::InvalidValue);
}

#[test]
fn an_option_without_its_value_is_an_invalid_value() {
    assert_eq!(parse_err(&["rustinel", "run", "--config"]), CliErrorKind::InvalidValue);
    assert_eq!(
        parse_err(&["rustinel", "--config", "--log-level", "info"]),
        CliErrorKind::InvalidValue
    );
}

#[test]
fn a_value_may_look_like_a_subcommand() {
    let cli = Cli::try_parse_from(&["rustinel", "--config", "run", "doctor"]).expect("parses");
    assert_eq!(cli.config, Some("run".to_string()));
    assert!(matches!(cli.command, Some(Commands::Doctor { json: false })));
}

#[test]
fn help_and_version_requests() {
    assert_eq!(parse_err(&["rustinel", "--help"]), CliErrorKind::DisplayHelp);
    assert_eq!(parse_err(&["rustinel", "-h", "run"]), CliErrorKind::DisplayHelp);
    assert_eq!(parse_err(&["rustinel", "run", "-h"]), CliErrorKind::DisplayHelp);
    assert_eq!(parse_err(&["rustinel", "help", "service", "restart"]), CliErrorKind::DisplayHelp);
    assert_eq!(parse_err(&["rustinel", "service", "help"]), CliErrorKind::DisplayHelp);
    assert_eq!(parse_err(&["rustinel", "help", "nothing"]), CliErrorKind::InvalidSubcommand);
    assert_eq!(parse_err(&["rustinel", "-V"]), CliErrorKind::DisplayVersion);
    assert_eq!(parse_err(&["rustinel", "--version"]), CliErrorKind::DisplayVersion);
    assert_eq!(parse_err(&["rustinel", "run", "--version"]), CliErrorKind::UnknownArgument);
    assert_eq!(parse_err(&["rustinel", "--help=yes"]), CliErrorKind::TooManyValues);
}

#[test]
fn service_and_rules_need_an_action() {
    assert_eq!(
        parse_err(&["rustinel", "service"]),
        CliErrorKind::DisplayHelpOnMissingArgumentOrSubcommand
    );
    assert_eq!(
        parse_err(&["rustinel", "rules", "--config", "/c.toml"]),
        CliErrorKind::MissingSubcommand
    );
    assert_eq!(parse_err(&["rustinel", "rules", "install"]), CliErrorKind::MissingRequiredArgument);
}

#[test]
fn unknown_words_and_flags_are_rejected() {
    assert_eq!(parse_err(&["rustinel", "launch"]), CliErrorKind::InvalidSubcommand);
    assert_eq!(parse_err(&["rustinel", "service", "reload"]), CliErrorKind::InvalidSubcommand);
    assert_eq!(parse_err(&["rustinel", "run", "--fast"]), CliErrorKind::UnknownArgument);
    assert_eq!(parse_err(&["rustinel", "run", "-x"]), CliErrorKind::UnknownArgument);
    assert_eq!(parse_err(&["rustinel", "run", "extra"]), CliErrorKind::UnknownArgument);
    assert_eq!(parse_err(&["rustinel", "--", "run"]), CliErrorKind::UnknownArgument);
    assert_eq!(parse_err(&["rustinel", "doctor", "--json=true"]), CliErrorKind::TooManyValues);
}

#[test]
fn a_double_dash_makes_the_rest_positional() {
    let cli = Cli::try_parse_from(&["rustinel", "replay", "--", "--output"]).expect("parses");
    match cli.command {
        Some(Commands::Replay { recording, output }) => {
            assert_eq!(recording, "--output");
            assert_eq!(output, None);
        }
        _ => panic!("expected replay command"),
    }
    let cli = Cli::try_parse_from(&["rustinel", "rules", "install", "-"]).expect("parses");
    match cli.command {
        Some(Commands::Rules {
            action: RulesAction::Install { pack, catalog_url, rules_dir },
        }) => {
            assert_eq!(pack, "-");
            assert_eq!(catalog_url, DEFAULT_CATALOG_URL);
            assert_eq!(rules_dir, None);
        }
        _ => panic!("expected rules install command"),
    }
}

#[test]
fn the_configuration_may_follow_all_other_arguments() {
    let lines: [&[&str]; 6] = [
        &["rustinel"],
        &["rustinel", "run", "--no-console"],
        &["rustinel", "--log-level", "debug", "service", "status"],
        &["rustinel", "rules", "install", "linux-essential", "--rules-dir", "/r"],
        &["rustinel", "replay", "/tmp/lab/run-42.ndjson", "--output", "/tmp/out"],
        &["rustinel", "setup", "--pack", "advanced", "--yes"],
    ];
    for line in lines {
        let mut without = Cli::try_parse_from(line).expect("parses");
        assert_eq!(without.config, None);
        let mut extended: Vec<&str> = line.to_vec();
        extended.push("--config");
        extended.push("/etc/rustinel/config.toml");
        let with = Cli::try_parse_from(&extended).expect("parses with a configuration");
        without.config = Some("/etc/rustinel/config.toml".to_string());
        assert_eq!(format!("{with:?}"), format!("{without:?}"));
    }
}

#[test]
fn after_a_double_dash_a_configuration_is_a_plain_value() {
    let line = ["rustinel", "replay", "--", "/tmp/run.ndjson"];
    assert!(Cli::try_parse_from(&line).is_ok());
    assert_eq!(
        parse_err(&["rustinel", "replay", "--", "/tmp/run.ndjson", "--config", "/c.toml"]),
        CliErrorKind::UnknownArgument
    );
}

#[test]
fn parsed_values_are_admitted() {
    assert_eq!(parse_err(&["rustinel", "--log-level", "verbose"]), CliErrorKind::InvalidValue);
    assert_eq!(parse_err(&["rustinel", "--log-level=INFO"]), CliErrorKind::InvalidValue);
    let cli = Cli::try_parse_from(&["rustinel", "--log-level=trace"]).expect("parses");
    assert_eq!(cli.log_level, Some("trace".to_string()));
    assert!(cli.command.is_none());
}

#[test]
fn the_configuration_may_precede_all_other_arguments() {
    let lines: [&[&str]; 7] = [
        &["rustinel"],
        &["rustinel", "run", "--no-console"],
        &["rustinel", "--log-level", "debug", "service", "status"],
        &["rustinel", "rules", "install", "linux-essential", "--rules-dir", "/r"],
        &["rustinel", "replay", "/tmp/lab/run-42.ndjson", "--output", "/tmp/out"],
        &["rustinel", "setup", "--pack", "advanced", "--yes"],
        &["rustinel", "--", "--log-level"],
    ];
    for line in lines {
        let without = Cli::try_parse_from(line);
        let mut extended: Vec<&str> = vec![line[0], "--config", "run"];
        extended.extend_from_slice(&line[1..]);
        let with = Cli::try_parse_from(&extended);
        match without {
            Ok(mut cli) => {
                assert_eq!(cli.config, None);
                cli.config = Some("run".to_string());
                assert_eq!(format!("{:?}", with.expect("parses")), format!("{cli:?}"));
            }
            Err(err) => assert_eq!(with.expect_err("fails as well").kind(), err.kind()),
        }
    }
}

#[test]
fn the_log_level_may_precede_or_follow_all_other_arguments() {
    let lines: [&[&str]; 5] = [
        &["rustinel", "doctor"],
        &["rustinel", "--config", "/c.toml", "run"],
        &["rustinel", "service", "restart", "--config", "/c.toml"],
        &["rustinel", "rules", "list", "--catalog-url", "https://example.test/index.json"],
        &["rustinel", "capture", "--output", "/tmp/run.ndjson"],
    ];
    for line in lines {
        let mut expected = Cli::try_parse_from(line).expect("parses");
        assert_eq!(expected.log_level, None);
        expected.log_level = Some("warn".to_string());
        let mut before: Vec<&str> = vec![line[0], "--log-level", "warn"];
        before.extend_from_slice(&line[1..]);
        let mut after: Vec<&str> = line.to_vec();
        after.push("--log-level");
        after.push("warn");
        for extended in [before, after] {
            let cli = Cli::try_parse_from(&extended).expect("parses with a log level");
            assert_eq!(format!("{cli:?}"), format!("{expected:?}"));
        }
    }
}
