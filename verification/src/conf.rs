//! The configuration of a search and how a command line resolves to one.

use vstd::prelude::*;
use crate::args::{
    arguments, arguments_from, is_not_ignore_case_flag, lemma_argument_starts,
    lemma_arguments_without_pattern_file, lemma_positionals_are_tokens, parse_args,
    pattern_paths, plain_argument, positionals, starts_argument, Arg, IGNORE_CASE_FLAG,
    PATTERN_FILE_FLAG,
};

verus! {

/// Why a command line gives no configuration, or why a run stops.
#[derive(Debug, PartialEq, Eq, Clone, Copy)]
pub enum Error {
    /// Neither a pattern file nor a positional argument gives a pattern.
    MissingPattern,
    /// A pattern-file flag has no path after it, or the file it names cannot
    /// be read.
    PatternFile,
    /// An input file, or standard input, cannot be read as text.
    InputRead,
}

impl Error {
    /// The text of [`Error::message`].
    pub open spec fn message_text(self) -> Seq<char> {
        match self {
            Error::MissingPattern => "no pattern specified!"@,
            Error::PatternFile => "no pattern specified by -f flag!"@,
            Error::InputRead => "input cannot be read as text!"@,
        }
    }

    /// A sentence for the user.
    pub fn message(&self) -> (text: &'static str)
        ensures
            text@ == self.message_text(),
    {
        match self {
            Error::MissingPattern => "no pattern specified!",
            Error::PatternFile => "no pattern specified by -f flag!",
            Error::InputRead => "input cannot be read as text!",
        }
    }
}

/// What to search for and where.
#[derive(Debug, PartialEq)]
pub struct Conf {
    /// Whether lines and pattern are compared in lowercase.
    pub ignore_case: bool,
    /// The text that a matching line contains.
    pub pattern: String,
    /// The files to search, in order. Where there are none, standard input is
    /// searched.
    pub input_filepaths: Vec<String>,
}

/// A [`Conf`] as plain values.
pub struct ConfView {
    pub ignore_case: bool,
    pub pattern: Seq<char>,
    pub input_filepaths: Seq<Seq<char>>,
}

impl View for Conf {
    type V = ConfView;

    open spec fn view(&self) -> ConfView {
        ConfView {
            ignore_case: self.ignore_case,
            pattern: self.pattern@,
            input_filepaths: self.input_filepaths.deep_view(),
        }
    }
}

/// The contents of the file at `path` among `files`, a list of paths with the
/// contents read from them, looked at from index `from` on. Of two entries
/// with the same path the first counts.
pub open spec fn contents_from(
    files: Seq<(Seq<char>, Seq<char>)>,
    path: Seq<char>,
    from: int,
) -> Option<Seq<char>>
    decreases files.len() - from,
{
    if from < 0 || from >= files.len() {
        None
    } else if files[from].0 == path {
        Some(files[from].1)
    } else {
        contents_from(files, path, from + 1)
    }
}

/// The contents of the file at `path`, if `files` holds it. A file that
/// `files` does not hold is one that could not be read.
pub open spec fn contents_of(files: Seq<(Seq<char>, Seq<char>)>, path: Seq<char>) -> Option<
    Seq<char>,
> {
    contents_from(files, path, 0)
}

/// Whether `arg` is a pattern-file flag that gives no contents: it names no
/// path, or a file that could not be read.
pub open spec fn fails_to_read(arg: Arg<Seq<char>>, files: Seq<(Seq<char>, Seq<char>)>) -> bool {
    match arg {
        Arg::PatternFileUnnamed => true,
        Arg::PatternFile(path) => contents_of(files, path) is None,
        _ => false,
    }
}

/// The pattern that the pattern-file flags among `args` give: the contents of
/// the file that the last of them names, and the empty text where there is
/// none.
pub open spec fn pattern_from_file(
    args: Seq<Arg<Seq<char>>>,
    files: Seq<(Seq<char>, Seq<char>)>,
) -> Seq<char>
    decreases args.len(),
{
    if args.len() == 0 {
        Seq::empty()
    } else {
        match args.last() {
            Arg::PatternFile(path) => match contents_of(files, path) {
                Some(contents) => contents,
                None => Seq::empty(),
            },
            Arg::PatternFileUnnamed => Seq::empty(),
            _ => pattern_from_file(args.drop_last(), files),
        }
    }
}

/// The configuration that arguments resolve to, given the pattern files that
/// could be read.
///
/// A pattern-file flag that gives no contents fails the resolution. Otherwise
/// a non-empty pattern from a file is the pattern, and every positional
/// argument is an input file. Without one, the last positional argument is the
/// pattern and those before it are the input files; with no positional
/// argument either, the pattern is missing.
pub open spec fn resolve_args(
    args: Seq<Arg<Seq<char>>>,
    files: Seq<(Seq<char>, Seq<char>)>,
) -> Result<ConfView, Error> {
    let from_file = pattern_from_file(args, files);
    let trailing = positionals(args);
    let ignore_case = args.contains(Arg::IgnoreCase);
    if exists|k: int| 0 <= k < args.len() && fails_to_read(#[trigger] args[k], files) {
        Err(Error::PatternFile)
    } else if from_file.len() > 0 {
        Ok(ConfView { ignore_case, pattern: from_file, input_filepaths: trailing })
    } else if trailing.len() == 0 {
        Err(Error::MissingPattern)
    } else {
        Ok(
            ConfView {
                ignore_case,
                pattern: trailing.last(),
                input_filepaths: trailing.drop_last(),
            },
        )
    }
}

/// The configuration that the command line `argv` resolves to; see
/// [`resolve_args`]. The first token of `argv` is the program's name.
pub open spec fn resolve(argv: Seq<Seq<char>>, files: Seq<(Seq<char>, Seq<char>)>) -> Result<
    ConfView,
    Error,
> {
    resolve_args(arguments(argv), files)
}

/// Arguments that are each a token read by [`plain_argument`] hold no
/// pattern-file flag: their positional arguments are the tokens other than the
/// flag that ignores case, and they ask to ignore case exactly when that flag
/// is among the tokens.
proof fn lemma_plain_arguments(
    args: Seq<Arg<Seq<char>>>,
    tokens: Seq<Seq<char>>,
    files: Seq<(Seq<char>, Seq<char>)>,
)
    requires
        args.len() == tokens.len(),
        forall|k: int| 0 <= k < args.len() ==> #[trigger] args[k] == plain_argument(tokens[k]),
    ensures
        positionals(args) == tokens.filter(is_not_ignore_case_flag()),
        args.contains(Arg::IgnoreCase) <==> tokens.contains(IGNORE_CASE_FLAG@),
        pattern_from_file(args, files).len() == 0,
        forall|k: int| 0 <= k < args.len() ==> !fails_to_read(#[trigger] args[k], files),
    decreases args.len(),
{
    reveal(Seq::filter);
    if args.len() > 0 {
        let earlier = args.drop_last();
        let before = tokens.drop_last();
        assert forall|k: int| 0 <= k < earlier.len() implies #[trigger] earlier[k]
            == plain_argument(before[k]) by {
        }
        lemma_plain_arguments(earlier, before, files);
        if args.contains(Arg::IgnoreCase) && !earlier.contains(Arg::IgnoreCase) {
            let k = choose|k: int| 0 <= k < args.len() && args[k] == Arg::<Seq<char>>::IgnoreCase;
            if k < earlier.len() {
                assert(earlier[k] == args[k]);
            }
        }
        if tokens.contains(IGNORE_CASE_FLAG@) && !before.contains(IGNORE_CASE_FLAG@) {
            let k = choose|k: int| 0 <= k < tokens.len() && tokens[k] == IGNORE_CASE_FLAG@;
            if k < before.len() {
                assert(before[k] == tokens[k]);
            }
        }
    }
}

/// Without a pattern-file flag, the last token that is not the flag that
/// ignores case is the pattern, and the tokens before it that are not that
/// flag are the input files, in their order. Case is ignored exactly when the
/// flag is among the tokens, wherever it stands.
///
/// The tokens are those after the program's name, and one of them has to be
/// other than the flag.
pub proof fn lemma_last_positional_is_the_pattern(
    argv: Seq<Seq<char>>,
    files: Seq<(Seq<char>, Seq<char>)>,
)
    requires
        forall|i: int| 1 <= i < argv.len() ==> argv[i] != PATTERN_FILE_FLAG@,
        exists|i: int| 1 <= i < argv.len() && argv[i] != IGNORE_CASE_FLAG@,
    ensures
        resolve(argv, files) is Ok,
        resolve(argv, files)->Ok_0.pattern == argv.skip(1).filter(
            is_not_ignore_case_flag(),
        ).last(),
        resolve(argv, files)->Ok_0.input_filepaths == argv.skip(1).filter(
            is_not_ignore_case_flag(),
        ).drop_last(),
        resolve(argv, files)->Ok_0.ignore_case == argv.skip(1).contains(IGNORE_CASE_FLAG@),
{
    let args = arguments(argv);
    let tokens = argv.skip(1);
    lemma_arguments_without_pattern_file(argv, 1);
    assert forall|k: int| 0 <= k < args.len() implies #[trigger] args[k] == plain_argument(
        tokens[k],
    ) by {
    }
    lemma_plain_arguments(args, tokens, files);
    let i = choose|i: int| 1 <= i < argv.len() && argv[i] != IGNORE_CASE_FLAG@;
    tokens.lemma_filter_contains(is_not_ignore_case_flag(), i - 1);
}

/// The flag that ignores case counts wherever it starts an argument: if the
/// command line resolves, case is ignored. Its place among the other
/// arguments does not matter.
///
/// A token that a pattern-file flag before it takes as its path starts no
/// argument, whatever it reads.
pub proof fn lemma_ignore_case_flag_counts_anywhere(
    argv: Seq<Seq<char>>,
    files: Seq<(Seq<char>, Seq<char>)>,
    at: int,
)
    requires
        starts_argument(argv, at),
        argv[at] == IGNORE_CASE_FLAG@,
        resolve(argv, files) is Ok,
    ensures
        resolve(argv, files)->Ok_0.ignore_case,
{
    lemma_argument_starts(argv, at);
    assert(arguments_from(argv, at)[0] == Arg::<Seq<char>>::IgnoreCase);
}

/// The pattern from a file is the contents of the file that the last
/// pattern-file flag names.
proof fn lemma_last_pattern_file(
    args: Seq<Arg<Seq<char>>>,
    files: Seq<(Seq<char>, Seq<char>)>,
    k: int,
)
    requires
        0 <= k < args.len(),
        args[k] is PatternFile,
        contents_of(files, args[k]->PatternFile_0) is Some,
        forall|j: int| k < j < args.len() ==> args[j] is IgnoreCase || args[j] is Positional,
    ensures
        pattern_from_file(args, files) == contents_of(files, args[k]->PatternFile_0)->Some_0,
    decreases args.len(),
{
    if k < args.len() - 1 {
        let earlier = args.drop_last();
        assert forall|j: int| k < j < earlier.len() implies earlier[j] is IgnoreCase
            || earlier[j] is Positional by {
        }
        lemma_last_pattern_file(earlier, files, k);
    }
}

/// A pattern file gives the pattern: where argument `k` is the last
/// pattern-file flag, every pattern-file flag names a file that could be read,
/// and the file of the last one is not empty, the pattern is that file's whole
/// contents and every positional argument is an input file.
///
/// An empty file gives no pattern, and an earlier flag yields to a later one.
pub proof fn lemma_pattern_file_gives_the_pattern(
    argv: Seq<Seq<char>>,
    files: Seq<(Seq<char>, Seq<char>)>,
    k: int,
)
    requires
        0 <= k < arguments(argv).len(),
        arguments(argv)[k] is PatternFile,
        forall|j: int|
            k < j < arguments(argv).len() ==> arguments(argv)[j] is IgnoreCase || arguments(
                argv,
            )[j] is Positional,
        forall|j: int|
            0 <= j < arguments(argv).len() ==> !fails_to_read(#[trigger] arguments(argv)[j], files),
        contents_of(files, arguments(argv)[k]->PatternFile_0)->Some_0.len() > 0,
    ensures
        resolve(argv, files) is Ok,
        resolve(argv, files)->Ok_0.pattern == contents_of(
            files,
            arguments(argv)[k]->PatternFile_0,
        )->Some_0,
        resolve(argv, files)->Ok_0.input_filepaths == positionals(arguments(argv)),
        resolve(argv, files)->Ok_0.ignore_case == arguments(argv).contains(Arg::IgnoreCase),
{
    let args = arguments(argv);
    lemma_last_pattern_file(args, files, k);
}

/// A command line whose tokens are not empty resolves to a pattern that is not
/// empty, if it resolves. An empty token that is the last positional argument
/// is taken as the pattern like any other.
pub proof fn lemma_pattern_is_not_empty(argv: Seq<Seq<char>>, files: Seq<(Seq<char>, Seq<char>)>)
    requires
        forall|i: int| 1 <= i < argv.len() ==> argv[i].len() > 0,
        resolve(argv, files) is Ok,
    ensures
        resolve(argv, files)->Ok_0.pattern.len() > 0,
{
    lemma_positionals_are_tokens(argv, 1);
}

/// The contents held for `path` in `files`, if any.
fn find_contents<'a>(files: &'a Vec<(String, String)>, path: &String) -> (found: Option<
    &'a String,
>)
    ensures
        match found {
            Some(contents) => contents_of(files.deep_view(), path@) == Some(contents@),
            None => contents_of(files.deep_view(), path@) is None,
        },
{
    let ghost table = files.deep_view();
    let mut i: usize = 0;
    while i < files.len()
        invariant
            i <= files.len(),
            table == files.deep_view(),
            contents_of(table, path@) == contents_from(table, path@, i as int),
        decreases files.len() - i,
    {
        if files[i].0 == *path {
            return Some(&files[i].1);
        }
        i += 1;
    }
    None
}

impl Conf {
    /// The paths of the pattern files that the command line `argv` names, in
    /// order: the files to read before [`Conf::build`] is called.
    pub fn pattern_files(argv: &Vec<String>) -> (paths: Vec<String>)
        ensures
            paths.deep_view() == pattern_paths(arguments(argv.deep_view())),
    {
        let args = parse_args(argv);
        let ghost all = args.deep_view();
        let mut paths: Vec<String> = Vec::new();
        let mut k: usize = 0;
        while k < args.len()
            invariant
                k <= args.len(),
                all == args.deep_view(),
                paths.deep_view() == pattern_paths(all.take(k as int)),
            decreases args.len() - k,
        {
            assert(all.take(k + 1).drop_last() =~= all.take(k as int));
            match &args[k] {
                Arg::PatternFile(path) => {
                    paths.push(path.clone());
                },
                _ => {},
            }
            k += 1;
        }
        assert(all.take(k as int) =~= all);
        paths
    }

    /// Resolves the command line `argv` to a configuration. `pattern_files`
    /// holds, for each pattern file that could be read, its path and its
    /// contents; a file that it does not hold counts as unreadable.
    pub fn build(argv: &Vec<String>, pattern_files: &Vec<(String, String)>) -> (res: Result<
        Conf,
        Error,
    >)
        ensures
            match resolve(argv.deep_view(), pattern_files.deep_view()) {
                Ok(conf) => res is Ok && res->Ok_0@ == conf,
                Err(error) => res == Err::<Conf, Error>(error),
            },
    {
        let args = parse_args(argv);
        let ghost all = args.deep_view();
        let ghost files = pattern_files.deep_view();
        let mut ignore_case = false;
        let mut trailing: Vec<String> = Vec::new();
        let mut pattern = String::new();
        let mut k: usize = 0;
        while k < args.len()
            invariant
                k <= args.len(),
                all == args.deep_view(),
                all == arguments(argv.deep_view()),
                files == pattern_files.deep_view(),
                forall|j: int| 0 <= j < k ==> !fails_to_read(#[trigger] all[j], files),
                ignore_case == all.take(k as int).contains(Arg::IgnoreCase),
                trailing.deep_view() == positionals(all.take(k as int)),
                pattern@ == pattern_from_file(all.take(k as int), files),
            decreases args.len() - k,
        {
            let ghost seen = all.take(k as int);
            let ghost next = all.take(k + 1);
            assert(next.drop_last() =~= seen);
            match &args[k] {
                Arg::IgnoreCase => {
                    ignore_case = true;
                    assert(next[k as int] == Arg::<Seq<char>>::IgnoreCase);
                },
                Arg::PatternFile(path) => {
                    match find_contents(pattern_files, path) {
                        Some(contents) => {
                            pattern = contents.clone();
                        },
                        None => {
                            return Err(Error::PatternFile);
                        },
                    }
                },
                Arg::PatternFileUnnamed => {
                    return Err(Error::PatternFile);
                },
                Arg::Positional(token) => {
                    trailing.push(token.clone());
                },
            }
            k += 1;
        }
        assert(all.take(k as int) =~= all);
        if pattern.as_str().is_empty() {
            let ghost positional = trailing.deep_view();
            match trailing.pop() {
                Some(last) => {
                    pattern = last;
                    assert(trailing.deep_view() =~= positional.drop_last());
                },
                None => {
                    return Err(Error::MissingPattern);
                },
            }
        }
        Ok(Conf { ignore_case, pattern, input_filepaths: trailing })
    }
}

} // verus!
