//! Reading the command line.

use vstd::prelude::*;
use vstd::string::*;

verus! {

/// What the command line asks for.
#[derive(Clone, Debug, PartialEq, Eq)]
pub struct Options {
    /// `--help` or `-h`: print the usage and do nothing else.
    pub help: bool,
    /// `--inject`: change the files; without it they are only listed.
    pub inject: bool,
    /// `--quiet`: do not list the definitions found.
    pub quiet: bool,
    /// `--follow-inc`: look for definitions in included files too.
    pub follow_inc: bool,
    /// `--dir <dirname>`: the directory to search for files.
    pub dir: Option<String>,
    /// `--skip <pattern>`: leave out the files with the pattern in their path.
    pub skip: Option<String>,
    /// The arguments that are neither switches nor the values of `--dir` and
    /// `--skip`, in order: the files to work on when no directory is given.
    pub files: Vec<String>,
}

/// Mathematical value of [`Options`].
pub struct OptionsView {
    pub help: bool,
    pub inject: bool,
    pub quiet: bool,
    pub follow_inc: bool,
    pub dir: Option<Seq<char>>,
    pub skip: Option<Seq<char>>,
    pub files: Seq<Seq<char>>,
}

impl View for Options {
    type V = OptionsView;

    open spec fn view(&self) -> OptionsView {
        OptionsView {
            help: self.help,
            inject: self.inject,
            quiet: self.quiet,
            follow_inc: self.follow_inc,
            dir: match self.dir {
                Some(d) => Some(d@),
                None => None,
            },
            skip: match self.skip {
                Some(s) => Some(s@),
                None => None,
            },
            files: self.files.deep_view(),
        }
    }
}

/// Why a command line was refused.
#[derive(Clone, Copy, Debug, PartialEq, Eq, Structural)]
pub enum CliError {
    /// `--dir` is the last argument: the directory is missing.
    MissingDirectory,
    /// `--skip` is the last argument: the pattern is missing.
    MissingPattern,
}

/// The index of the first of `args` at or after `from` that is `flag`.
pub open spec fn position_from(args: Seq<Seq<char>>, flag: Seq<char>, from: int) -> Option<int>
    decreases args.len() - from,
{
    if from < 0 || from >= args.len() {
        None
    } else if args[from] == flag {
        Some(from)
    } else {
        position_from(args, flag, from + 1)
    }
}

/// The argument behind the first `flag`, if `flag` occurs and is not the
/// last argument.
pub open spec fn value_of(args: Seq<Seq<char>>, flag: Seq<char>) -> Option<Seq<char>> {
    match position_from(args, flag, 0) {
        Some(i) => if args.len() - i > 1 {
            Some(args[i + 1])
        } else {
            None
        },
        None => None,
    }
}

/// `flag` occurs, and its first occurrence is the last argument.
pub open spec fn lacks_value(args: Seq<Seq<char>>, flag: Seq<char>) -> bool {
    position_from(args, flag, 0) == Some(args.len() - 1)
}

/// `arg` is one of the switches.
pub open spec fn is_command(arg: Seq<char>) -> bool {
    arg == "--inject"@ || arg == "--quiet"@ || arg == "--dir"@ || arg == "--skip"@ || arg
        == "--help"@ || arg == "-h"@ || arg == "--follow-inc"@
}

/// `arg` is a switch that takes the argument behind it as its value.
pub open spec fn takes_value(arg: Seq<char>) -> bool {
    arg == "--dir"@ || arg == "--skip"@
}

/// The argument at index `i` is taken for a file: it is no switch, and it
/// does not stand directly behind `--dir` or `--skip`.
pub open spec fn is_file_at(args: Seq<Seq<char>>, i: int) -> bool {
    &&& !is_command(args[i])
    &&& i > 0 ==> !takes_value(args[i - 1])
}

/// Those of the first `n` arguments that are taken for files, in order.
pub open spec fn files_upto(args: Seq<Seq<char>>, n: nat) -> Seq<Seq<char>>
    decreases n,
{
    if n == 0 || n > args.len() {
        Seq::empty()
    } else if is_file_at(args, n - 1) {
        files_upto(args, (n - 1) as nat).push(args[n - 1])
    } else {
        files_upto(args, (n - 1) as nat)
    }
}

/// What `args` ask for: each switch is set when it occurs anywhere,
/// `--dir` and `--skip` take the argument behind their first occurrence,
/// and the files are the arguments that are neither switches nor values.
pub open spec fn parsed(args: Seq<Seq<char>>) -> OptionsView {
    OptionsView {
        help: args.contains("--help"@) || args.contains("-h"@),
        inject: args.contains("--inject"@),
        quiet: args.contains("--quiet"@),
        follow_inc: args.contains("--follow-inc"@),
        dir: value_of(args, "--dir"@),
        skip: value_of(args, "--skip"@),
        files: files_upto(args, args.len()),
    }
}

/// `position_from` finds the first occurrence from `from` on, and finds
/// nothing only when there is none.
pub proof fn lemma_position_from(args: Seq<Seq<char>>, flag: Seq<char>, from: int)
    requires
        0 <= from,
    ensures
        match position_from(args, flag, from) {
            Some(i) => from <= i < args.len() && args[i] == flag && forall|j: int|
                from <= j < i ==> args[j] != flag,
            None => forall|j: int| from <= j < args.len() ==> args[j] != flag,
        },
    decreases args.len() - from,
{
    if from < args.len() && args[from] != flag {
        lemma_position_from(args, flag, from + 1);
    }
}

fn position(args: &[String], flag: &str) -> (found: Option<usize>)
    ensures
        match found {
            Some(i) => position_from(args.deep_view(), flag@, 0) == Some(i as int),
            None => position_from(args.deep_view(), flag@, 0) is None,
        },
        found is Some <==> args.deep_view().contains(flag@),
        found matches Some(i) ==> i < args@.len(),
{
    let wanted = String::from_str(flag);
    let ghost all = args.deep_view();
    let mut i: usize = 0;
    while i < args.len()
        invariant
            i <= args@.len(),
            all == args.deep_view(),
            all.len() == args@.len(),
            wanted@ == flag@,
            position_from(all, flag@, 0) == position_from(all, flag@, i as int),
        decreases args@.len() - i,
    {
        assert(all[i as int] == args@[i as int]@);
        if args[i] == wanted {
            proof {
                lemma_position_from(all, flag@, 0);
            }
            return Some(i);
        }
        i += 1;
    }
    proof {
        lemma_position_from(all, flag@, 0);
    }
    None
}

fn file_arguments(args: &[String]) -> (files: Vec<String>)
    ensures
        files.deep_view() == files_upto(args.deep_view(), args@.len()),
{
    let inject = String::from_str("--inject");
    let quiet = String::from_str("--quiet");
    let dir = String::from_str("--dir");
    let skip = String::from_str("--skip");
    let help = String::from_str("--help");
    let h = String::from_str("-h");
    let follow_inc = String::from_str("--follow-inc");
    let ghost all = args.deep_view();
    let mut files: Vec<String> = Vec::new();
    let mut value_expected: bool = false;
    let mut i: usize = 0;
    while i < args.len()
        invariant
            i <= args@.len(),
            all == args.deep_view(),
            all.len() == args@.len(),
            inject@ == "--inject"@,
            quiet@ == "--quiet"@,
            dir@ == "--dir"@,
            skip@ == "--skip"@,
            help@ == "--help"@,
            h@ == "-h"@,
            follow_inc@ == "--follow-inc"@,
            value_expected == (i > 0 && takes_value(all[i - 1])),
            files.deep_view() == files_upto(all, i as nat),
        decreases args@.len() - i,
    {
        let arg = &args[i];
        assert(all[i as int] == arg@);
        let with_value = *arg == dir || *arg == skip;
        let command = with_value || *arg == inject || *arg == quiet || *arg == help || *arg == h
            || *arg == follow_inc;
        assert(command == is_command(arg@));
        assert((!command && !value_expected) == is_file_at(all, i as int));
        let ghost before = files.deep_view();
        if !command && !value_expected {
            files.push(arg.clone());
            assert(files.deep_view() =~= before.push(arg@));
        }
        value_expected = with_value;
        i += 1;
    }
    files
}

/// Reads the arguments that follow the program's name.
///
/// A switch counts wherever it stands. Unless help is asked for, `--dir`
/// and `--skip` must each be followed by their value. An argument that
/// stands directly behind `--dir` or `--skip` is never taken for a file.
pub fn parse_args(args: &[String]) -> (outcome: Result<Options, CliError>)
    ensures
        match outcome {
            Ok(options) => {
                &&& options@ == parsed(args.deep_view())
                &&& !options.help ==> !lacks_value(args.deep_view(), "--dir"@) && !lacks_value(
                    args.deep_view(),
                    "--skip"@,
                )
            },
            Err(CliError::MissingDirectory) => {
                &&& !parsed(args.deep_view()).help
                &&& lacks_value(args.deep_view(), "--dir"@)
            },
            Err(CliError::MissingPattern) => {
                &&& !parsed(args.deep_view()).help
                &&& !lacks_value(args.deep_view(), "--dir"@)
                &&& lacks_value(args.deep_view(), "--skip"@)
            },
        },
{
    let help = position(args, "--help").is_some() || position(args, "-h").is_some();
    let dir_at = position(args, "--dir");
    let skip_at = position(args, "--skip");
    assert(args.deep_view().len() == args@.len());
    let dir = match dir_at {
        Some(i) => if args.len() - i > 1 {
            assert(args.deep_view()[i + 1] == args@[i + 1]@);
            Some(args[i + 1].clone())
        } else if help {
            None
        } else {
            return Err(CliError::MissingDirectory);
        },
        None => None,
    };
    let skip = match skip_at {
        Some(i) => if args.len() - i > 1 {
            assert(args.deep_view()[i + 1] == args@[i + 1]@);
            Some(args[i + 1].clone())
        } else if help {
            None
        } else {
            return Err(CliError::MissingPattern);
        },
        None => None,
    };
    Ok(
        Options {
            help,
            inject: position(args, "--inject").is_some(),
            quiet: position(args, "--quiet").is_some(),
            follow_inc: position(args, "--follow-inc").is_some(),
            dir,
            skip,
            files: file_arguments(args),
        },
    )
}

} // verus!
