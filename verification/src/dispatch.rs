//! Turning a resolved command string into a program and its arguments.
//!
//! The command string attached to a matched sequence is split with POSIX
//! shell-word rules (quoting and escaping respected) into the program name
//! and the argument list; the surrounding program spawns the child process.

use vstd::prelude::*;

verus! {

/// What splitting a command line into POSIX shell words yields: the list
/// of words, or `None` for erroneous input (an unclosed quote, a trailing
/// backslash or a nul byte).
pub uninterp spec fn shell_words(s: Seq<char>) -> Option<Seq<Seq<char>>>;

/// Relies on shlex::split: the splitting is a pure function of the input
/// string; it returns the shell words of the input, or `None` for
/// erroneous input.
#[verifier::external_body]
fn split_shell(cmd: &str) -> (r: Option<Vec<String>>)
    ensures
        match r {
            Some(ws) => shell_words(cmd@) == Some(ws.deep_view()),
            None => shell_words(cmd@) is None,
        },
{
    shlex::split(cmd)
}

/// The head-and-tail split of a word list: the first word is the program,
/// the remaining words are its arguments.  `None` when the list is empty,
/// for then there is nothing to spawn.
pub fn split_program(words: Vec<String>) -> (r: Option<(String, Vec<String>)>)
    ensures
        match r {
            Some(pair) => words.deep_view().len() > 0 && pair.0@ == words.deep_view()[0]
                && pair.1.deep_view() == words.deep_view().drop_first(),
            None => words.deep_view().len() == 0,
        },
{
    if words.len() == 0 {
        return None;
    }
    let mut rest = words;
    let prog = rest.remove(0);
    proof {
        assert forall|i: int| 0 <= i < rest.deep_view().len() implies rest.deep_view()[i]
            == words.deep_view().drop_first()[i] by {
            assert(rest@[i] == words@.remove(0)[i]);
        }
        assert(rest.deep_view() =~= words.deep_view().drop_first());
    }
    Some((prog, rest))
}

/// The program and argument list of a command line: the first shell word
/// and the rest.  `None` when the line cannot be split or splits to no
/// words at all.
pub fn command_parts(cmd: &str) -> (r: Option<(String, Vec<String>)>)
    ensures
        match shell_words(cmd@) {
            None => r is None,
            Some(ws) => if ws.len() == 0 {
                r is None
            } else {
                r is Some && r->Some_0.0@ == ws[0] && r->Some_0.1.deep_view() == ws.drop_first()
            },
        },
{
    match split_shell(cmd) {
        Some(parts) => split_program(parts),
        None => None,
    }
}

} // verus!
