//! The command line's grammar: how a sequence of tokens is read as flags and
//! positional arguments.

use vstd::prelude::*;

verus! {

/// The flag that asks for a search that ignores case.
pub const IGNORE_CASE_FLAG: &'static str = "-i";

/// The flag that names a file holding the pattern. It takes the token after
/// it, whatever that token is, as the file's path.
pub const PATTERN_FILE_FLAG: &'static str = "-f";

/// One argument of the command line. `S` is the type of its text: `String` in
/// executable code, `Seq<char>` in contracts.
#[derive(Debug, PartialEq)]
pub enum Arg<S> {
    /// The flag [`IGNORE_CASE_FLAG`].
    IgnoreCase,
    /// The flag [`PATTERN_FILE_FLAG`] with the path that follows it.
    PatternFile(S),
    /// The flag [`PATTERN_FILE_FLAG`] as the last token, with no path after it.
    PatternFileUnnamed,
    /// Any other token.
    Positional(S),
}

impl DeepView for Arg<String> {
    type V = Arg<Seq<char>>;

    open spec fn deep_view(&self) -> Arg<Seq<char>> {
        match *self {
            Arg::IgnoreCase => Arg::IgnoreCase,
            Arg::PatternFile(path) => Arg::PatternFile(path@),
            Arg::PatternFileUnnamed => Arg::PatternFileUnnamed,
            Arg::Positional(token) => Arg::Positional(token@),
        }
    }
}

/// The arguments that the tokens of `argv` from index `from` on are read as,
/// left to right.
pub open spec fn arguments_from(argv: Seq<Seq<char>>, from: int) -> Seq<Arg<Seq<char>>>
    decreases argv.len() - from,
{
    if from < 0 || from >= argv.len() {
        Seq::empty()
    } else if argv[from] == IGNORE_CASE_FLAG@ {
        seq![Arg::IgnoreCase] + arguments_from(argv, from + 1)
    } else if argv[from] == PATTERN_FILE_FLAG@ {
        if from + 1 >= argv.len() {
            seq![Arg::PatternFileUnnamed]
        } else {
            seq![Arg::PatternFile(argv[from + 1])] + arguments_from(argv, from + 2)
        }
    } else {
        seq![Arg::Positional(argv[from])] + arguments_from(argv, from + 1)
    }
}

/// The arguments of a command line. Its first token is the program's name and
/// is no argument.
pub open spec fn arguments(argv: Seq<Seq<char>>) -> Seq<Arg<Seq<char>>> {
    arguments_from(argv, 1)
}

/// The positional arguments among `args`, in order.
pub open spec fn positionals(args: Seq<Arg<Seq<char>>>) -> Seq<Seq<char>>
    decreases args.len(),
{
    if args.len() == 0 {
        Seq::empty()
    } else {
        let earlier = positionals(args.drop_last());
        match args.last() {
            Arg::Positional(token) => earlier.push(token),
            _ => earlier,
        }
    }
}

/// The paths that the pattern-file flags among `args` name, in order.
pub open spec fn pattern_paths(args: Seq<Arg<Seq<char>>>) -> Seq<Seq<char>>
    decreases args.len(),
{
    if args.len() == 0 {
        Seq::empty()
    } else {
        let earlier = pattern_paths(args.drop_last());
        match args.last() {
            Arg::PatternFile(path) => earlier.push(path),
            _ => earlier,
        }
    }
}

/// Whether the token of `argv` at index `at` starts an argument: it is not the
/// program's name, and it is not the path that a pattern-file flag before it
/// takes.
pub open spec fn starts_argument(argv: Seq<Seq<char>>, at: int) -> bool
    decreases at,
{
    &&& 1 <= at < argv.len()
    &&& {
        ||| at == 1
        ||| starts_argument(argv, at - 1) && argv[at - 1] != PATTERN_FILE_FLAG@
        ||| starts_argument(argv, at - 2) && argv[at - 2] == PATTERN_FILE_FLAG@
    }
}

/// What a token that is no pattern-file flag is read as, where it starts an
/// argument.
pub open spec fn plain_argument(token: Seq<char>) -> Arg<Seq<char>> {
    if token == IGNORE_CASE_FLAG@ {
        Arg::IgnoreCase
    } else {
        Arg::Positional(token)
    }
}

/// The tokens that are not the flag that ignores case.
pub open spec fn is_not_ignore_case_flag() -> spec_fn(Seq<char>) -> bool {
    |token: Seq<char>| token != IGNORE_CASE_FLAG@
}

/// The two flags are different tokens.
pub proof fn lemma_flags_differ()
    ensures
        IGNORE_CASE_FLAG@ != PATTERN_FILE_FLAG@,
{
    reveal_strlit("-i");
    reveal_strlit("-f");
    assert(PATTERN_FILE_FLAG@[1] == 'f');
}

/// A token that starts an argument is read on its own: the arguments from it
/// on are the arguments of the command line from some index `k` on.
pub proof fn lemma_argument_starts(argv: Seq<Seq<char>>, at: int) -> (k: int)
    requires
        starts_argument(argv, at),
    ensures
        0 <= k < arguments(argv).len(),
        arguments(argv).skip(k) == arguments_from(argv, at),
        arguments_from(argv, at).len() > 0,
    decreases at,
{
    let all = arguments(argv);
    if at == 1 {
        0
    } else if starts_argument(argv, at - 1) && argv[at - 1] != PATTERN_FILE_FLAG@ {
        let k = lemma_argument_starts(argv, at - 1);
        assert(arguments_from(argv, at - 1).skip(1) =~= arguments_from(argv, at));
        k + 1
    } else {
        lemma_flags_differ();
        let k = lemma_argument_starts(argv, at - 2);
        assert(arguments_from(argv, at - 2).skip(1) =~= arguments_from(argv, at));
        k + 1
    }
}

/// Without a pattern-file flag every token is an argument of its own: from
/// index `from` on, the arguments are the tokens, each read by
/// [`plain_argument`].
pub proof fn lemma_arguments_without_pattern_file(argv: Seq<Seq<char>>, from: int)
    requires
        1 <= from <= argv.len(),
        forall|i: int| from <= i < argv.len() ==> argv[i] != PATTERN_FILE_FLAG@,
    ensures
        arguments_from(argv, from).len() == argv.len() - from,
        forall|k: int|
            0 <= k < argv.len() - from ==> #[trigger] arguments_from(argv, from)[k]
                == plain_argument(argv[from + k]),
    decreases argv.len() - from,
{
    if from < argv.len() {
        lemma_arguments_without_pattern_file(argv, from + 1);
    }
}

/// The positional arguments of two runs of arguments, one after the other, are
/// those of the first followed by those of the second.
pub proof fn lemma_positionals_concat(first: Seq<Arg<Seq<char>>>, second: Seq<Arg<Seq<char>>>)
    ensures
        positionals(first + second) == positionals(first) + positionals(second),
    decreases second.len(),
{
    if second.len() > 0 {
        assert((first + second).drop_last() =~= first + second.drop_last());
        lemma_positionals_concat(first, second.drop_last());
    }
}

/// Every positional argument is a token of the command line, and not the
/// program's name.
pub proof fn lemma_positionals_are_tokens(argv: Seq<Seq<char>>, from: int)
    requires
        1 <= from,
    ensures
        forall|k: int|
            0 <= k < positionals(arguments_from(argv, from)).len() ==> exists|i: int|
                from <= i < argv.len() && argv[i] == #[trigger] positionals(
                    arguments_from(argv, from),
                )[k],
    decreases argv.len() - from,
{
    if from < argv.len() {
        lemma_flags_differ();
        let step: int = if argv[from] == PATTERN_FILE_FLAG@ {
            2
        } else {
            1
        };
        if from + step <= argv.len() {
            let head = arguments_from(argv, from).take(1);
            let rest = arguments_from(argv, from + step);
            assert(arguments_from(argv, from) =~= head + rest);
            lemma_positionals_concat(head, rest);
            lemma_positionals_are_tokens(argv, from + step);
            assert(positionals(head.drop_last()) =~= Seq::<Seq<char>>::empty());
        } else {
            assert(positionals(arguments_from(argv, from).drop_last()) =~= Seq::<
                Seq<char>,
            >::empty());
        }
    }
}

/// Reads a command line as arguments. The first token, the program's name, is
/// skipped.
pub fn parse_args(argv: &Vec<String>) -> (args: Vec<Arg<String>>)
    ensures
        args.deep_view() == arguments(argv.deep_view()),
{
    let ignore_case_flag = String::from_str(IGNORE_CASE_FLAG);
    let pattern_file_flag = String::from_str(PATTERN_FILE_FLAG);
    let ghost tokens = argv.deep_view();
    let mut args: Vec<Arg<String>> = Vec::new();
    let mut i: usize = 1;
    while i < argv.len()
        invariant
            1 <= i,
            tokens == argv.deep_view(),
            ignore_case_flag@ == IGNORE_CASE_FLAG@,
            pattern_file_flag@ == PATTERN_FILE_FLAG@,
            args.deep_view() + arguments_from(tokens, i as int) == arguments(tokens),
        decreases argv.len() - i,
    {
        let ghost before = args.deep_view();
        let ghost at = i as int;
        if argv[i] == ignore_case_flag {
            args.push(Arg::IgnoreCase);
            i += 1;
            assert(args.deep_view() + arguments_from(tokens, at + 1) =~= before + arguments_from(
                tokens,
                at,
            ));
        } else if argv[i] == pattern_file_flag {
            if i + 1 < argv.len() {
                args.push(Arg::PatternFile(argv[i + 1].clone()));
                i += 2;
                assert(args.deep_view() + arguments_from(tokens, at + 2) =~= before
                    + arguments_from(tokens, at));
            } else {
                args.push(Arg::PatternFileUnnamed);
                i += 1;
                assert(args.deep_view() + arguments_from(tokens, at + 1) =~= before
                    + arguments_from(tokens, at));
            }
        } else {
            args.push(Arg::Positional(argv[i].clone()));
            i += 1;
            assert(args.deep_view() + arguments_from(tokens, at + 1) =~= before + arguments_from(
                tokens,
                at,
            ));
        }
    }
    args
}

} // verus!
