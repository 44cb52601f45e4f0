//! The command line: what it asks to open, and from where.
use vstd::prelude::*;

use crate::text;

verus! {

/// One word of the command line: its text, where it is text at all, and whether
/// it names a folder before its last name.
#[derive(Debug)]
pub struct Argument {
    pub text: Option<String>,
    pub has_parent: bool,
}

/// Where the writing directory is to be found. A number is that of a word.
#[derive(Debug, Clone, Copy, PartialEq, Eq, Structural)]
pub enum DirectoryChoice {
    /// Where it usually is.
    Usual,
    /// As a word says.
    Named(usize),
    /// In the folder of the file that a word names.
    ParentOf(usize),
}

/// What the command line asks for. A number is that of a word.
#[derive(Debug, Clone, Copy, PartialEq, Eq, Structural)]
pub enum Request {
    Help,
    Version,
    Open { directory: DirectoryChoice, file: Option<usize>, force_new: bool },
    MissingDirectory,
    UnknownOption(usize),
    TooManyFiles,
}

/// Whether a word is a given text.
pub open spec fn says(argument: Argument, words: Seq<char>) -> bool {
    argument.text matches Some(given) && given@ == words
}

/// Whether a word begins with a dash.
pub open spec fn dashed(argument: Argument) -> bool {
    argument.text matches Some(given) && given@.len() > 0 && given@[0] == '-'
}

/// What the words from `at` on ask for, after what those before asked.
pub open spec fn requested(
    arguments: Seq<Argument>,
    at: int,
    directory: DirectoryChoice,
    file: Option<usize>,
    force_new: bool,
) -> Request
    decreases arguments.len() - at,
{
    if at >= arguments.len() {
        Request::Open { directory, file, force_new }
    } else {
        let word = arguments[at];
        if says(word, "--help"@) || says(word, "-h"@) {
            Request::Help
        } else if says(word, "--version"@) || says(word, "-V"@) {
            Request::Version
        } else if says(word, "--new"@) || says(word, "-n"@) {
            requested(arguments, at + 1, directory, file, true)
        } else if says(word, "--dir"@) {
            if at + 1 < arguments.len() {
                requested(
                    arguments,
                    at + 2,
                    DirectoryChoice::Named((at + 1) as usize),
                    file,
                    force_new,
                )
            } else {
                Request::MissingDirectory
            }
        } else if dashed(word) {
            Request::UnknownOption(at as usize)
        } else if file is Some {
            Request::TooManyFiles
        } else {
            let next = if word.has_parent {
                DirectoryChoice::ParentOf(at as usize)
            } else {
                directory
            };
            requested(arguments, at + 1, next, Some(at as usize), force_new)
        }
    }
}

fn argument_says(argument: &Argument, words: &str) -> (yes: bool)
    ensures
        yes == says(*argument, words@),
{
    match &argument.text {
        Some(given) => text::same(given.as_str(), words),
        None => false,
    }
}

fn argument_dashed(argument: &Argument) -> (yes: bool)
    ensures
        yes == dashed(*argument),
{
    match &argument.text {
        Some(given) => {
            let chars: Vec<char> = text::chars_of(given.as_str());
            chars.len() > 0 && chars[0] == '-'
        },
        None => false,
    }
}

/// Reads the command line.
pub fn parse_args(arguments: &Vec<Argument>) -> (request: Request)
    ensures
        request == requested(arguments@, 0, DirectoryChoice::Usual, None, false),
{
    let mut directory: DirectoryChoice = DirectoryChoice::Usual;
    let mut file: Option<usize> = None;
    let mut force_new: bool = false;
    let mut at: usize = 0;
    while at < arguments.len()
        invariant
            at <= arguments@.len(),
            requested(arguments@, at as int, directory, file, force_new) == requested(
                arguments@,
                0,
                DirectoryChoice::Usual,
                None,
                false,
            ),
        decreases arguments@.len() - at,
    {
        let word: &Argument = &arguments[at];
        if argument_says(word, "--help") || argument_says(word, "-h") {
            return Request::Help;
        }
        if argument_says(word, "--version") || argument_says(word, "-V") {
            return Request::Version;
        }
        if argument_says(word, "--new") || argument_says(word, "-n") {
            force_new = true;
            at += 1;
        } else if argument_says(word, "--dir") {
            if at + 1 >= arguments.len() {
                return Request::MissingDirectory;
            }
            directory = DirectoryChoice::Named(at + 1);
            at += 2;
        } else if argument_dashed(word) {
            return Request::UnknownOption(at);
        } else if file.is_some() {
            return Request::TooManyFiles;
        } else {
            if word.has_parent {
                directory = DirectoryChoice::ParentOf(at);
            }
            file = Some(at);
            at += 1;
        }
    }
    Request::Open { directory, file, force_new }
}

/// What to say of a command line that cannot be followed.
pub fn complaint(request: Request, arguments: &Vec<Argument>) -> (words: Option<String>)
    ensures
        match request {
            Request::MissingDirectory => words matches Some(w) && w@
                == "--dir requires a directory"@,
            Request::UnknownOption(at) => words matches Some(w) && w@ == "unknown option: "@ + (
            if at < arguments@.len() && arguments@[at as int].text is Some {
                arguments@[at as int].text->0@
            } else {
                Seq::empty()
            }),
            Request::TooManyFiles => words matches Some(w) && w@ == "only one file may be opened"@,
            _ => words is None,
        },
{
    match request {
        Request::MissingDirectory => Some(text::owned("--dir requires a directory")),
        Request::UnknownOption(at) => {
            let mut words: String = text::owned("unknown option: ");
            let ghost plain = words@;
            if at < arguments.len() {
                if let Some(given) = &arguments[at].text {
                    words.append(given.as_str());
                }
            }
            assert(plain + Seq::<char>::empty() == plain);
            Some(words)
        },
        Request::TooManyFiles => Some(text::owned("only one file may be opened")),
        _ => None,
    }
}

/// Whether a word asks for a new note.
pub open spec fn asks_for_new(argument: Argument) -> bool {
    says(argument, "--new"@) || says(argument, "-n"@)
}

proof fn lemma_requested_is_said(
    arguments: Seq<Argument>,
    at: int,
    directory: DirectoryChoice,
    file: Option<usize>,
    force_new: bool,
)
    requires
        0 <= at <= arguments.len() <= usize::MAX,
        file matches Some(i) ==> i < at && !dashed(arguments[i as int]),
        force_new ==> exists|i: int| 0 <= i < at && asks_for_new(#[trigger] arguments[i]),
        directory matches DirectoryChoice::Named(i) ==> 0 < i < at && says(
            arguments[i - 1],
            "--dir"@,
        ),
        directory matches DirectoryChoice::ParentOf(i) ==> i < at && file == Some(i)
            && arguments[i as int].has_parent,
    ensures
        requested(arguments, at, directory, file, force_new) matches Request::Open {
            directory: chosen,
            file: named,
            force_new: fresh,
        } ==> {
            &&& named matches Some(i) ==> i < arguments.len() && !dashed(arguments[i as int])
            &&& fresh ==> exists|i: int|
                0 <= i < arguments.len() && asks_for_new(#[trigger] arguments[i])
            &&& chosen matches DirectoryChoice::Named(i) ==> 0 < i < arguments.len() && says(
                arguments[i - 1],
                "--dir"@,
            )
            &&& chosen matches DirectoryChoice::ParentOf(i) ==> i < arguments.len() && named
                == Some(i) && arguments[i as int].has_parent
        },
    decreases arguments.len() - at,
{
    if at < arguments.len() {
        let word = arguments[at];
        if says(word, "--help"@) || says(word, "-h"@) || says(word, "--version"@) || says(
            word,
            "-V"@,
        ) {
        } else if says(word, "--new"@) || says(word, "-n"@) {
            assert(asks_for_new(arguments[at]));
            lemma_requested_is_said(arguments, at + 1, directory, file, true);
        } else if says(word, "--dir"@) {
            if at + 1 < arguments.len() {
                lemma_requested_is_said(
                    arguments,
                    at + 2,
                    DirectoryChoice::Named((at + 1) as usize),
                    file,
                    force_new,
                );
            }
        } else if dashed(word) || file is Some {
        } else {
            let next = if word.has_parent {
                DirectoryChoice::ParentOf(at as usize)
            } else {
                directory
            };
            lemma_requested_is_said(arguments, at + 1, next, Some(at as usize), force_new);
        }
    }
}

/// Nothing is done that was not asked for: a file is one of the words without a
/// dash, a new note comes of `--new` or `-n`, a directory of the word behind
/// `--dir` or of the file's own folder.
pub proof fn law_only_what_is_said_is_done(arguments: Seq<Argument>)
    requires
        arguments.len() <= usize::MAX,
    ensures
        requested(arguments, 0, DirectoryChoice::Usual, None, false) matches Request::Open {
            directory,
            file,
            force_new,
        } ==> {
            &&& file matches Some(i) ==> i < arguments.len() && !dashed(arguments[i as int])
            &&& force_new ==> exists|i: int|
                0 <= i < arguments.len() && asks_for_new(#[trigger] arguments[i])
            &&& directory matches DirectoryChoice::Named(i) ==> 0 < i < arguments.len() && says(
                arguments[i - 1],
                "--dir"@,
            )
            &&& directory matches DirectoryChoice::ParentOf(i) ==> i < arguments.len() && file
                == Some(i) && arguments[i as int].has_parent
        },
{
    lemma_requested_is_said(arguments, 0, DirectoryChoice::Usual, None, false);
}

/// Whether a word is an option with nothing to follow it, or a file.
pub open spec fn stands_alone(argument: Argument) -> bool {
    asks_for_new(argument) || !dashed(argument)
}

proof fn lemma_everything_is_done(
    arguments: Seq<Argument>,
    at: int,
    directory: DirectoryChoice,
    file: Option<usize>,
    force_new: bool,
    k: int,
)
    requires
        0 <= at <= k < arguments.len() <= usize::MAX,
        forall|i: int| 0 <= i < arguments.len() ==> stands_alone(#[trigger] arguments[i]),
    ensures
        ({
            let request = requested(arguments, at, directory, file, force_new);
            &&& request is Open || request is TooManyFiles
            &&& request is Open && asks_for_new(arguments[k]) ==> request->force_new
            &&& request is Open && !dashed(arguments[k]) ==> request->file == Some(k as usize)
            &&& !dashed(arguments[k]) && file is Some ==> request is TooManyFiles
        }),
    decreases k - at,
{
    lemma_options();
    let word = arguments[at];
    assert(stands_alone(word));
    if asks_for_new(word) {
        if at < k {
            lemma_everything_is_done(arguments, at + 1, directory, file, true, k);
        } else {
            lemma_kept(arguments, at + 1, directory, file, true);
        }
    } else if file is Some {
    } else {
        let next = if word.has_parent {
            DirectoryChoice::ParentOf(at as usize)
        } else {
            directory
        };
        if at < k {
            lemma_everything_is_done(
                arguments,
                at + 1,
                next,
                Some(at as usize),
                force_new,
                k,
            );
        } else {
            lemma_kept(arguments, at + 1, next, Some(at as usize), force_new);
        }
    }
}

proof fn lemma_options()
    ensures
        forall|word: Argument|
            #![trigger dashed(word)]
            !dashed(word) ==> !says(word, "--help"@) && !says(word, "-h"@) && !says(
                word,
                "--version"@,
            ) && !says(word, "-V"@) && !says(word, "--new"@) && !says(word, "-n"@) && !says(
                word,
                "--dir"@,
            ),
        forall|word: Argument|
            #![trigger asks_for_new(word)]
            asks_for_new(word) ==> dashed(word) && !says(word, "--help"@) && !says(word, "-h"@)
                && !says(word, "--version"@) && !says(word, "-V"@) && !says(word, "--dir"@),
{
    reveal_strlit("--help");
    reveal_strlit("-h");
    reveal_strlit("--version");
    reveal_strlit("-V");
    reveal_strlit("--new");
    reveal_strlit("-n");
    reveal_strlit("--dir");
    assert("--new"@[2] == 'n' && "--dir"@[2] == 'd' && "-n"@[1] == 'n' && "-h"@[1] == 'h'
        && "-V"@[1] == 'V');
}

proof fn lemma_kept(
    arguments: Seq<Argument>,
    at: int,
    directory: DirectoryChoice,
    file: Option<usize>,
    force_new: bool,
)
    requires
        0 <= at <= arguments.len() <= usize::MAX,
        forall|i: int| 0 <= i < arguments.len() ==> stands_alone(#[trigger] arguments[i]),
    ensures
        ({
            let request = requested(arguments, at, directory, file, force_new);
            &&& request is Open || request is TooManyFiles
            &&& request is Open && force_new ==> request->force_new
            &&& request is Open && file is Some ==> request->file == file
        }),
    decreases arguments.len() - at,
{
    lemma_options();
    if at < arguments.len() {
        let word = arguments[at];
        assert(stands_alone(word));
        if asks_for_new(word) {
            lemma_kept(arguments, at + 1, directory, file, true);
        } else if file is None {
            let next = if word.has_parent {
                DirectoryChoice::ParentOf(at as usize)
            } else {
                directory
            };
            lemma_kept(arguments, at + 1, next, Some(at as usize), force_new);
        }
    }
}

/// What is asked for is done: among words that are files or ask for a new note,
/// every file is opened and every wish for a new note heard, unless there are two
/// files.
pub proof fn law_what_is_said_is_done(arguments: Seq<Argument>, k: int, other: int)
    requires
        arguments.len() <= usize::MAX,
        forall|i: int| 0 <= i < arguments.len() ==> stands_alone(#[trigger] arguments[i]),
        0 <= k < arguments.len(),
        0 <= other < arguments.len(),
    ensures
        ({
            let request = requested(arguments, 0, DirectoryChoice::Usual, None, false);
            &&& request is Open || request is TooManyFiles
            &&& request is Open && asks_for_new(arguments[k]) ==> request->force_new
            &&& request is Open && !dashed(arguments[k]) ==> request->file == Some(k as usize)
            &&& k != other && !dashed(arguments[k]) && !dashed(arguments[other]) ==> request
                is TooManyFiles
        }),
{
    lemma_everything_is_done(arguments, 0, DirectoryChoice::Usual, None, false, k);
    lemma_everything_is_done(arguments, 0, DirectoryChoice::Usual, None, false, other);
}

/// The first word decides where it asks for help or the version, lacks its
/// directory or is an option that is not known; the word behind `--dir` is the
/// directory, whatever it says.
pub proof fn law_the_first_word_decides(word: Argument, rest: Seq<Argument>)
    ensures
        ({
            let request = requested(seq![word] + rest, 0, DirectoryChoice::Usual, None, false);
            &&& says(word, "--help"@) || says(word, "-h"@) ==> request == Request::Help
            &&& says(word, "--version"@) || says(word, "-V"@) ==> request == Request::Version
            &&& says(word, "--dir"@) && rest.len() == 0 ==> request == Request::MissingDirectory
            &&& says(word, "--dir"@) && rest.len() == 1 ==> request == (Request::Open {
                directory: DirectoryChoice::Named(1),
                file: None,
                force_new: false,
            })
            &&& dashed(word) && !says(word, "--help"@) && !says(word, "-h"@) && !says(
                word,
                "--version"@,
            ) && !says(word, "-V"@) && !asks_for_new(word) && !says(word, "--dir"@) ==> request
                == Request::UnknownOption(0)
            &&& !dashed(word) && rest.len() == 0 ==> request == (Request::Open {
                directory: if word.has_parent {
                    DirectoryChoice::ParentOf(0)
                } else {
                    DirectoryChoice::Usual
                },
                file: Some(0),
                force_new: false,
            })
        }),
        requested(Seq::empty(), 0, DirectoryChoice::Usual, None, false) == (Request::Open {
            directory: DirectoryChoice::Usual,
            file: None,
            force_new: false,
        }),
{
    lemma_options();
    let words = seq![word] + rest;
    assert(words[0] == word);
    reveal_with_fuel(requested, 2);
    reveal_strlit("--help");
    reveal_strlit("-h");
    reveal_strlit("--version");
    reveal_strlit("-V");
    reveal_strlit("--dir");
    reveal_strlit("--new");
    reveal_strlit("-n");
    assert("--help"@[2] == 'h' && "--version"@[2] == 'v' && "--dir"@[2] == 'd' && "--new"@[2]
        == 'n' && "-h"@[1] == 'h' && "-V"@[1] == 'V' && "-n"@[1] == 'n');
    assert("--help"@.len() == 6 && "--version"@.len() == 9 && "--dir"@.len() == 5 && "-h"@.len()
        == 2 && "-V"@.len() == 2);
}

} // verus!
