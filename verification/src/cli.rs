//! The arguments of the command line and what they configure.

use vstd::prelude::*;
use crate::lexer::opt_text;
use crate::text::same_text;

verus! {

/// How the program runs.
#[derive(Debug, Clone, Copy, PartialEq, Eq, Structural)]
pub enum Mode {
    Normal,
    Deamon,
    DebugNew,
    DebugParser,
    DebugLexer,
}

/// What the command line asks for.
#[derive(Debug)]
pub struct Config {
    pub file_path: Option<String>,
    pub mode: Mode,
}

/// A configuration as a mathematical value.
pub struct ConfigView {
    pub file_path: Option<Seq<char>>,
    pub mode: Mode,
}

impl View for Config {
    type V = ConfigView;

    open spec fn view(&self) -> ConfigView {
        ConfigView { file_path: opt_text(self.file_path), mode: self.mode }
    }
}

/// Why the command line is refused.
#[derive(Debug)]
pub enum ConfigError {
    /// `--debug` with a value that names no debug mode.
    UnknownDebugMode(String),
    /// `--debug` as the last argument, without its value.
    MissingDebugMode,
    /// A second path, after one was given.
    DuplicatePath(String),
    /// An argument that begins with `-` and is no flag of the program.
    UnknownFlag(String),
}

/// A refusal as a mathematical value.
pub enum ConfigErrorView {
    UnknownDebugMode(Seq<char>),
    MissingDebugMode,
    DuplicatePath(Seq<char>),
    UnknownFlag(Seq<char>),
}

impl View for ConfigError {
    type V = ConfigErrorView;

    open spec fn view(&self) -> ConfigErrorView {
        match *self {
            ConfigError::UnknownDebugMode(value) => ConfigErrorView::UnknownDebugMode(value@),
            ConfigError::MissingDebugMode => ConfigErrorView::MissingDebugMode,
            ConfigError::DuplicatePath(path) => ConfigErrorView::DuplicatePath(path@),
            ConfigError::UnknownFlag(flag) => ConfigErrorView::UnknownFlag(flag@),
        }
    }
}

/// The debug mode that a value of `--debug` names.
pub open spec fn debug_mode_named(value: Seq<char>) -> Option<Mode> {
    if value == "parser"@ {
        Some(Mode::DebugParser)
    } else if value == "lexer"@ {
        Some(Mode::DebugLexer)
    } else if value == "new"@ {
        Some(Mode::DebugNew)
    } else {
        None
    }
}

/// Whether an argument begins with `-`.
pub open spec fn is_flag(arg: Seq<char>) -> bool {
    arg.len() > 0 && arg[0] == '-'
}

/// What the arguments `args` make of the configuration `config`, read from
/// the left.
///
/// `--debug` takes the next argument as its value and sets the debug mode
/// that it names. `--deamon` and `-d` set the background mode. Of several
/// modes the last one stands. Any other argument that begins with `-` is
/// refused. An argument that does not is the path, of which there is at
/// most one.
pub open spec fn configured(args: Seq<Seq<char>>, config: ConfigView) -> Result<
    ConfigView,
    ConfigErrorView,
>
    decreases args.len(),
{
    if args.len() == 0 {
        Ok(config)
    } else if args[0] == "--debug"@ {
        if args.len() == 1 {
            Err(ConfigErrorView::MissingDebugMode)
        } else {
            match debug_mode_named(args[1]) {
                Some(mode) => configured(args.skip(2), ConfigView { mode, ..config }),
                None => Err(ConfigErrorView::UnknownDebugMode(args[1])),
            }
        }
    } else if args[0] == "--deamon"@ || args[0] == "-d"@ {
        configured(args.skip(1), ConfigView { mode: Mode::Deamon, ..config })
    } else if is_flag(args[0]) {
        Err(ConfigErrorView::UnknownFlag(args[0]))
    } else if config.file_path is Some {
        Err(ConfigErrorView::DuplicatePath(args[0]))
    } else {
        configured(args.skip(1), ConfigView { file_path: Some(args[0]), ..config })
    }
}

/// The configuration that stands where no argument is given: the normal
/// mode and no path.
pub open spec fn default_config() -> ConfigView {
    ConfigView { file_path: None, mode: Mode::Normal }
}

/// The characters of each argument.
pub open spec fn texts_of(args: Seq<String>) -> Seq<Seq<char>> {
    args.map_values(|s: String| s@)
}

/// The debug mode that a value of `--debug` names.
pub fn debug_mode(value: &str) -> (mode: Option<Mode>)
    ensures
        mode == debug_mode_named(value@),
{
    if same_text(value, "parser") {
        Some(Mode::DebugParser)
    } else if same_text(value, "lexer") {
        Some(Mode::DebugLexer)
    } else if same_text(value, "new") {
        Some(Mode::DebugNew)
    } else {
        None
    }
}

/// Whether an argument begins with `-`.
pub fn begins_flag(arg: &str) -> (r: bool)
    ensures
        r == is_flag(arg@),
{
    arg.unicode_len() > 0 && arg.get_char(0) == '-'
}

impl Config {
    /// Reads the arguments that follow the program's name.
    pub fn from_args(args: &Vec<String>) -> (r: Result<Config, ConfigError>)
        ensures
            match r {
                Ok(config) => configured(texts_of(args@), default_config()) == Ok::<
                    ConfigView,
                    ConfigErrorView,
                >(config@),
                Err(e) => configured(texts_of(args@), default_config()) == Err::<
                    ConfigView,
                    ConfigErrorView,
                >(e@),
            },
    {
        let ghost all = texts_of(args@);
        let mut config = Config { file_path: None, mode: Mode::Normal };
        let mut i: usize = 0;
        proof {
            assert(all.skip(0) =~= all);
        }
        while i < args.len()
            invariant
                all == texts_of(args@),
                0 <= i <= args.len(),
                configured(all, default_config()) == configured(all.skip(i as int), config@),
            decreases args.len() - i,
        {
            let ghost rest = all.skip(i as int);
            proof {
                assert(rest[0] == args[i as int]@);
                assert(rest.skip(1) =~= all.skip(i + 1));
            }
            let arg = args[i].as_str();
            if same_text(arg, "--debug") {
                if i + 1 >= args.len() {
                    return Err(ConfigError::MissingDebugMode);
                }
                proof {
                    assert(rest[1] == args[i + 1]@);
                    assert(rest.skip(2) =~= all.skip(i + 2));
                }
                match debug_mode(args[i + 1].as_str()) {
                    Some(mode) => {
                        config.mode = mode;
                    },
                    None => {
                        return Err(ConfigError::UnknownDebugMode(args[i + 1].clone()));
                    },
                }
                i += 2;
            } else if same_text(arg, "--deamon") || same_text(arg, "-d") {
                config.mode = Mode::Deamon;
                i += 1;
            } else if begins_flag(arg) {
                return Err(ConfigError::UnknownFlag(args[i].clone()));
            } else if config.file_path.is_some() {
                return Err(ConfigError::DuplicatePath(args[i].clone()));
            } else {
                config.file_path = Some(args[i].clone());
                i += 1;
            }
        }
        Ok(config)
    }
}

} // verus!
