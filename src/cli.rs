use vstd::prelude::*;
use crate::selector::{Registry, RuleSelector, Selection, parsed_as};

verus! {

/// How much the program logs.
#[derive(Debug, Clone, Copy, PartialEq, Eq, Structural)]
pub enum LogLevel {
    Silent,
    Quiet,
    Default,
    Verbose,
}

/// The three verbosity flags of the command line.
#[derive(Debug, Clone, Copy, PartialEq, Eq, Structural, Default)]
pub struct LogLevelArgs {
    pub verbose: bool,
    pub quiet: bool,
    pub silent: bool,
}

/// The options that every subcommand takes.
#[derive(Debug, Clone, PartialEq, Eq, Default)]
pub struct GlobalConfigArgs {
    pub log_level_args: LogLevelArgs,
    /// Path to a TOML configuration file.
    pub config_file: Option<String>,
}

/// The arguments of the `explain` subcommand: the rules to explain, all of
/// them where none is named.
#[derive(Debug, Clone, PartialEq, Eq)]
pub struct ExplainArgs {
    pub rules: Vec<String>,
}

/// The arguments of the `check` subcommand. Each `x` / `no_x` pair is a flag
/// and its negation, of which the parser keeps the last given.
#[derive(Debug, Clone, PartialEq, Eq)]
pub struct CheckArgs {
    pub files: Option<Vec<String>>,
    pub fix: Option<bool>,
    pub no_fix: Option<bool>,
    pub unsafe_fixes: Option<bool>,
    pub no_unsafe_fixes: Option<bool>,
    pub show_fixes: Option<bool>,
    pub no_show_fixes: Option<bool>,
    pub fix_only: Option<bool>,
    pub no_fix_only: Option<bool>,
    pub output_format: Option<String>,
    pub preview: Option<bool>,
    pub no_preview: Option<bool>,
    pub progress_bar: Option<String>,
    pub ignore: Option<Vec<String>>,
    pub select: Option<Vec<String>>,
    pub extend_select: Option<Vec<String>>,
    pub per_file_ignores: Option<Vec<String>>,
    pub extend_per_file_ignores: Option<Vec<String>>,
    pub file_extensions: Option<Vec<String>>,
    pub exclude: Option<Vec<String>>,
    pub extend_exclude: Option<Vec<String>>,
    pub force_exclude: Option<bool>,
    pub no_force_exclude: Option<bool>,
    pub line_length: Option<usize>,
}

/// The subcommands.
#[derive(Debug, Clone, PartialEq, Eq)]
pub enum SubCommands {
    Check(CheckArgs),
    Explain(ExplainArgs),
}

/// A whole command line.
#[derive(Debug, Clone, PartialEq, Eq)]
pub struct Cli {
    pub command: SubCommands,
    pub global_options: GlobalConfigArgs,
}

/// `sels` reads the tokens of `tokens` one for one.
pub open spec fn reads_tokens(reg: &Registry, tokens: Seq<String>, sels: Seq<RuleSelector>) -> bool {
    &&& sels.len() == tokens.len()
    &&& forall|i: int| 0 <= i < sels.len() ==> parsed_as(reg, tokens[i]@, #[trigger] sels[i])
}

/// Reads a list of selector tokens; an absent list reads as empty.
pub fn read_selectors(reg: &Registry, tokens: &Option<Vec<String>>) -> (r: Vec<RuleSelector>)
    ensures
        reads_tokens(
            reg,
            match tokens {
                Some(v) => v@,
                None => seq![],
            },
            r@,
        ),
{
    let mut r: Vec<RuleSelector> = Vec::new();
    match tokens {
        Some(v) => {
            let mut i: usize = 0;
            while i < v.len()
                invariant
                    i <= v@.len(),
                    reads_tokens(reg, v@.take(i as int), r@),
                decreases v@.len() - i,
            {
                let sel = reg.parse_selector(v[i].as_str());
                r.push(sel);
                assert(v@.take(i + 1).drop_last() =~= v@.take(i as int));
                i = i + 1;
            }
            assert(v@.take(v@.len() as int) =~= v@);
        },
        None => {},
    }
    r
}

impl CheckArgs {
    /// The rule selection that the arguments ask for: `select` where given,
    /// `extend_select` and `ignore` as read, and no other ignores.
    pub fn selection(&self, reg: &Registry) -> (r: Selection)
        ensures
            (r.select is Some) == (self.select is Some),
            r.select matches Some(v) ==> reads_tokens(reg, self.select->0@, v@),
            reads_tokens(
                reg,
                match self.extend_select {
                    Some(v) => v@,
                    None => seq![],
                },
                r.extend_select@,
            ),
            reads_tokens(
                reg,
                match self.ignore {
                    Some(v) => v@,
                    None => seq![],
                },
                r.ignore@,
            ),
            r.extend_ignore@.len() == 0,
            r.file_ignore@.len() == 0,
    {
        let select = match &self.select {
            Some(_) => Some(read_selectors(reg, &self.select)),
            None => None,
        };
        Selection {
            select,
            extend_select: read_selectors(reg, &self.extend_select),
            ignore: read_selectors(reg, &self.ignore),
            extend_ignore: Vec::new(),
            file_ignore: Vec::new(),
        }
    }

    /// Whether preview mode is on: off unless `--preview` was given last.
    pub fn preview_mode(&self) -> (r: bool)
        requires
            !(self.preview == Some(true) && self.no_preview == Some(true)),
        ensures
            r == (self.no_preview != Some(true) && self.preview == Some(true)),
    {
        match resolve_bool_arg(self.preview, self.no_preview) {
            Some(b) => b,
            None => false,
        }
    }
}

/// The level that the flags ask for: `silent` wins over `quiet`, which wins
/// over `verbose`.
pub open spec fn level_of(a: LogLevelArgs) -> LogLevel {
    if a.silent {
        LogLevel::Silent
    } else if a.quiet {
        LogLevel::Quiet
    } else if a.verbose {
        LogLevel::Verbose
    } else {
        LogLevel::Default
    }
}

impl LogLevel {
    pub fn from(args: &LogLevelArgs) -> (r: LogLevel)
        ensures
            r == level_of(*args),
    {
        if args.silent {
            LogLevel::Silent
        } else if args.quiet {
            LogLevel::Quiet
        } else if args.verbose {
            LogLevel::Verbose
        } else {
            LogLevel::Default
        }
    }
}

impl GlobalConfigArgs {
    pub fn log_level(&self) -> (r: LogLevel)
        ensures
            r == level_of(self.log_level_args),
    {
        LogLevel::from(&self.log_level_args)
    }
}

/// A paired `--opt` / `--no-opt` flag, of which the parser keeps at most the
/// last given: `Some(true)` for `--opt`, `Some(false)` for `--no-opt`, `None`
/// when neither is.
pub fn resolve_bool_arg(yes: Option<bool>, no: Option<bool>) -> (r: Option<bool>)
    requires
        !(yes == Some(true) && no == Some(true)),
    ensures
        r == (if no == Some(true) {
            Some(false)
        } else if yes == Some(true) {
            Some(true)
        } else {
            None
        }),
{
    match (yes, no) {
        (_, Some(true)) => Some(false),
        (Some(true), _) => Some(true),
        _ => None,
    }
}

} // verus!
