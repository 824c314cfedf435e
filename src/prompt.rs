//! The instructions that go with the question to the completion service.
use vstd::prelude::*;

use crate::text::{replace_all, replace_all_of, strip_prefix, strip_prefix_of, strip_suffix, strip_suffix_of};
use crate::utils::UserQuery;

verus! {

/// The system instructions, with `{shell}` and `{os}` to fill in.
pub const PROMPT: &'static str = "Act as a natural language to {shell} command translation engine on {os}.

You are an expert in {shell} on {os} and translate the question at the end to valid syntax.

A user will as a question and will at least 5, but at most 10 unique and different {shell} command options.

Always provide at least 5 different commands, but at most 10.

All answer must be valid {shell} commands.

Output structred data that can be parsed without adjustements with each command seperated by a linebreak as follows:
option_1_command\noption_2_command\noption_3_command etc.

Only return plain text and no additional information.";

/// The shell named where the one in use cannot be found.
pub const DEFAULT_SHELL: &'static str = "Bash";

/// The system instructions and the question.
pub struct Prompt {
    pub system_message: String,
    pub user_message: UserQuery,
}

/// The instructions for a shell on an operating system.
pub open spec fn system_message_for(os: Seq<char>, shell: Seq<char>) -> Seq<char> {
    replace_all(replace_all(PROMPT@, "{os}"@, os), "{shell}"@, shell)
}

pub fn system_message(os: &str, shell: &str) -> (r: String)
    ensures
        r@ == system_message_for(os@, shell@),
{
    proof {
        reveal_strlit("{os}");
        reveal_strlit("{shell}");
    }
    let with_os = replace_all_of(PROMPT, "{os}", os);
    replace_all_of(with_os.as_str(), "{shell}", shell)
}

/// The prompt for a question, on the operating system `os` and in `shell`.
pub fn generate_prompt(os: &str, shell: &str, user_message: UserQuery) -> (r: Prompt)
    ensures
        r.system_message@ == system_message_for(os@, shell@),
        r.user_message == user_message,
{
    Prompt { system_message: system_message(os, shell), user_message }
}

/// The shell's name from its process name: without a `.exe` at the end, and
/// without the `-` in front that marks a login shell.
pub open spec fn shell_name_of(process_name: Seq<char>) -> Seq<char> {
    strip_prefix(strip_suffix(process_name, ".exe"@), "-"@)
}

pub fn shell_name(process_name: &str) -> (r: String)
    ensures
        r@ == shell_name_of(process_name@),
{
    let s = strip_suffix_of(process_name, ".exe");
    strip_prefix_of(s.as_str(), "-")
}

} // verus!
