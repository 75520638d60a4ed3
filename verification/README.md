# rustinel: command line and logging policy, verified

The command-line front end and the logging policy of the Rustinel endpoint
agent, written as a Verus library whose behaviour is stated in contracts and
proved.

## Layout

- `src/cli/` — the `rustinel` command line.
  - `grammar.rs`: the commands, their options and the values they admit.
  - `scan.rs`: what a command line means, as spec functions: one command level
    at a time, with pending option values, `--`, `help`, validation, and global
    options taken from the deepest level that gives them.
  - `read.rs`: the executable reader, proved to compute exactly that meaning.
  - `mod.rs`: `Cli`, `Commands` and friends, and `Cli::try_parse_from`, whose
    contract is the meaning above.
  - `laws.rs`: properties of every command line (help and version first, the
    admitted values, `--console` against `--no-console`, and that the global
    options may stand before or after all other arguments), with the lemmas of
    `lemmas.rs`, `extension.rs` and `shift.rs` behind them.
- `src/runtime/` — the logging policy.
  - `filter.rs`: the trusted boundary to `tracing_subscriber::EnvFilter`:
    `LogFilter`, a filter that only `EnvFilter::try_new` (or a clone) makes,
    beside the directives it was built from, and which directive strings its
    parser reads without cutting a character in two (drawn close to, and on the
    safe side of, where it panics).
  - `logging.rs`: the file and console filters, the startup banner, which log
    files get restricted permissions and when, and where a daily writer goes
    when a directory cannot be used.
  - `laws.rs`: the promises the policy keeps for every configuration.
- `src/text.rs` — trimming, ASCII case folding, prefixes and centring.
- `app/` — the process side, not verified: reading the real arguments (clap
  renders help, version and usage errors), building the tracing layers, and
  the file-system work behind the log writers.
- `tests/` — scenarios, including a comparison of the parser with a clap
  command tree declared like the program's.
