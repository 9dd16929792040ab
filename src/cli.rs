//! The command line of a batch: the units to compile and where the bytes go.
use vstd::prelude::*;

verus! {

/// What a command line asks for.
pub enum Command {
    /// Print the usage text.
    Help,
    /// Compile `inputs`, in order, into the file `output`.
    Build { inputs: Vec<String>, output: String },
}

/// A command line that cannot be run.
#[derive(Clone, Copy, Debug, PartialEq, Eq, Structural)]
pub enum UsageError {
    /// No `-o <file>` names the output.
    MissingOutput,
}

/// What has been read of a command line so far.
pub struct ArgsState {
    pub help: bool,
    pub inputs: Seq<Seq<char>>,
    pub output: Seq<char>,
    /// The previous argument was `-o`.
    pub after_flag: bool,
}

/// Reads one more argument.
pub open spec fn args_step(st: ArgsState, a: Seq<char>) -> ArgsState {
    if st.help {
        st
    } else if a == "--help"@ {
        ArgsState { help: true, ..st }
    } else if st.after_flag {
        ArgsState { output: a, after_flag: false, ..st }
    } else if a == "-o"@ {
        ArgsState { after_flag: true, ..st }
    } else {
        ArgsState { inputs: st.inputs.push(a), ..st }
    }
}

pub open spec fn args_fold(args: Seq<Seq<char>>) -> ArgsState
    decreases args.len(),
{
    if args.len() == 0 {
        ArgsState { help: false, inputs: seq![], output: seq![], after_flag: false }
    } else {
        args_step(args_fold(args.drop_last()), args.last())
    }
}

/// The meaning of a command line: `None` for help, else the inputs and the output.
/// Later `-o` options replace earlier ones; an empty command line asks for help.
pub open spec fn parse_args_spec(args: Seq<Seq<char>>) -> Result<
    Option<(Seq<Seq<char>>, Seq<char>)>,
    UsageError,
> {
    let st = args_fold(args);
    if args.len() == 0 || st.help {
        Ok(None)
    } else if st.output.len() == 0 {
        Err(UsageError::MissingOutput)
    } else {
        Ok(Some((st.inputs, st.output)))
    }
}

pub open spec fn string_views(v: Seq<String>) -> Seq<Seq<char>> {
    Seq::new(v.len(), |i: int| v[i]@)
}

/// Whether a string is the given word.
pub fn str_is(a: &str, w: &str) -> (r: bool)
    ensures
        r == (a@ == w@),
{
    let n = a.unicode_len();
    if n != w.unicode_len() {
        return false;
    }
    let mut i: usize = 0;
    while i < n
        invariant
            i <= n,
            n == a@.len(),
            n == w@.len(),
            forall|j: int| 0 <= j < i ==> a@[j] == w@[j],
        decreases n - i,
    {
        if a.get_char(i) != w.get_char(i) {
            return false;
        }
        i = i + 1;
    }
    assert(a@ =~= w@);
    true
}

/// Reads a command line.
pub fn parse_args(args: &Vec<String>) -> (r: Result<Command, UsageError>)
    ensures
        match parse_args_spec(string_views(args@)) {
            Ok(None) => r matches Ok(Command::Help),
            Ok(Some((ins, out))) => r matches Ok(Command::Build { inputs, output }) && string_views(
                inputs@,
            ) == ins && output@ == out,
            Err(e) => r == Err::<Command, UsageError>(e),
        },
{
    let ghost sv = string_views(args@);
    let mut inputs: Vec<String> = Vec::new();
    let mut output: String = String::new();
    let mut after_flag = false;
    let mut i: usize = 0;
    assert(sv.subrange(0, 0) =~= seq![]);
    assert(string_views(inputs@) =~= seq![]);
    while i < args.len()
        invariant
            i <= args@.len(),
            sv == string_views(args@),
            args_fold(sv.subrange(0, i as int)) == (ArgsState {
                help: false,
                inputs: string_views(inputs@),
                output: output@,
                after_flag,
            }),
        decreases args@.len() - i,
    {
        let ghost prefix = sv.subrange(0, i + 1);
        assert(prefix.drop_last() =~= sv.subrange(0, i as int));
        assert(prefix.last() == args@[i as int]@);
        let a = args[i].as_str();
        if str_is(a, "--help") {
            proof {
                lemma_help_stays(sv, i + 1);
            }
            return Ok(Command::Help);
        } else if after_flag {
            output = args[i].clone();
            after_flag = false;
        } else if str_is(a, "-o") {
            after_flag = true;
        } else {
            let ghost before = inputs@;
            inputs.push(args[i].clone());
            assert(string_views(inputs@) =~= string_views(before).push(args@[i as int]@));
        }
        i = i + 1;
    }
    assert(sv.subrange(0, i as int) =~= sv);
    if args.len() == 0 {
        return Ok(Command::Help);
    }
    if output.as_str().unicode_len() == 0 {
        return Err(UsageError::MissingOutput);
    }
    Ok(Command::Build { inputs, output })
}

/// After `--help`, the rest of a command line is not read.
pub proof fn lemma_help_stays(args: Seq<Seq<char>>, j: int)
    requires
        0 <= j <= args.len(),
        args_fold(args.subrange(0, j)).help,
    ensures
        args_fold(args).help,
    decreases args.len() - j,
{
    if j < args.len() {
        assert(args.drop_last().subrange(0, j) =~= args.subrange(0, j));
        lemma_help_stays(args.drop_last(), j);
    } else {
        assert(args.subrange(0, j) =~= args);
    }
}

} // verus!
