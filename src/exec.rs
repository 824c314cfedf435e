//! Turning a finished command line into a request to start a process.
use vstd::prelude::*;

use crate::text::strings_view;

verus! {

/// Why a command could not be turned into a process to start.
#[derive(Debug, Clone, Copy, PartialEq, Eq, Structural)]
pub enum CommandError {
    /// No candidate is selected.
    NoSelection,
    /// The quoting of the command is malformed.
    ParseError,
    /// The command holds no word.
    EmptyCommand,
}

/// A program and its arguments, to be started as a child process.
pub struct SpawnRequest {
    pub program: String,
    pub args: Vec<String>,
}

impl View for SpawnRequest {
    type V = (Seq<char>, Seq<Seq<char>>);

    open spec fn view(&self) -> (Seq<char>, Seq<Seq<char>>) {
        (self.program@, strings_view(self.args@))
    }
}

/// The words of a command line under POSIX shell quoting, `None` where the
/// quoting is malformed.
pub uninterp spec fn shell_words(s: Seq<char>) -> Option<Seq<Seq<char>>>;

pub open spec fn words_view(w: Option<Vec<String>>) -> Option<Seq<Seq<char>>> {
    match w {
        Some(v) => Some(strings_view(v@)),
        None => None,
    }
}

pub open spec fn request_view(r: Result<SpawnRequest, CommandError>) -> Result<
    (Seq<char>, Seq<Seq<char>>),
    CommandError,
> {
    match r {
        Ok(q) => Ok(q@),
        Err(e) => Err(e),
    }
}

/// The first word is the program, the others its arguments.
pub open spec fn request_of_words(w: Option<Seq<Seq<char>>>) -> Result<
    (Seq<char>, Seq<Seq<char>>),
    CommandError,
> {
    match w {
        None => Err(CommandError::ParseError),
        Some(ws) => if ws.len() == 0 {
            Err(CommandError::EmptyCommand)
        } else {
            Ok((ws[0], ws.drop_first()))
        },
    }
}

/// Relies on `shlex::split`: the words of `s` by POSIX shell quoting, `None` when
/// the quoting is malformed. The result depends on the text alone.
#[verifier::external_body]
fn shell_split(s: &str) -> (r: Option<Vec<String>>)
    ensures
        words_view(r) == shell_words(s@),
{
    shlex::split(s)
}

/// The request for the words of a command line: the first word is the program.
pub fn spawn_request_from_words(words: Option<Vec<String>>) -> (r: Result<
    SpawnRequest,
    CommandError,
>)
    ensures
        request_view(r) == request_of_words(words_view(words)),
{
    match words {
        None => Err(CommandError::ParseError),
        Some(v) => {
            if v.len() == 0 {
                Err(CommandError::EmptyCommand)
            } else {
                let ghost all = v@;
                let mut args = v;
                let program = args.remove(0);
                assert(strings_view(args@) =~= strings_view(all).drop_first());
                Ok(SpawnRequest { program, args })
            }
        },
    }
}

/// The request that starts `command`, split by POSIX shell quoting.
pub fn spawn_request(command: &str) -> (r: Result<SpawnRequest, CommandError>)
    ensures
        request_view(r) == request_of_words(shell_words(command@)),
{
    spawn_request_from_words(shell_split(command))
}

} // verus!
