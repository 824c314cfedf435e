//! The question and the completion service, as the command line gives them.
use vstd::prelude::*;

use crate::text::{join_from, join_with, str_eq, strings_view};

verus! {

/// The completion services that can answer.
#[derive(Debug, Clone, Copy, PartialEq, Eq, Structural)]
pub enum ApiEndpoint {
    Groq,
    Anthropic,
    OpenAI,
    Local,
}

pub const DEFAULT_ENDPOINT: ApiEndpoint = ApiEndpoint::Groq;

impl ApiEndpoint {
    /// The base URL of the service's OpenAI-compatible API.
    pub fn api_base(&self) -> (r: &'static str)
        ensures
            r@ == match *self {
                ApiEndpoint::Groq => "https://api.groq.com/openai/v1"@,
                ApiEndpoint::Anthropic => "https://api.anthropic.com/v1"@,
                ApiEndpoint::OpenAI => "https://api.openai.com/v1"@,
                ApiEndpoint::Local => "http://localhost:11434/v1"@,
            },
    {
        match *self {
            ApiEndpoint::Groq => "https://api.groq.com/openai/v1",
            ApiEndpoint::Anthropic => "https://api.anthropic.com/v1",
            ApiEndpoint::OpenAI => "https://api.openai.com/v1",
            ApiEndpoint::Local => "http://localhost:11434/v1",
        }
    }

    /// The environment variable that holds the service's key; a local
    /// service takes none.
    pub fn api_key_var(&self) -> (r: Option<&'static str>)
        ensures
            match *self {
                ApiEndpoint::Groq => r matches Some(v) && v@ == "GROQ_API_KEY"@,
                ApiEndpoint::Anthropic => r matches Some(v) && v@ == "ANTHROPIC_API_KEY"@,
                ApiEndpoint::OpenAI => r matches Some(v) && v@ == "OPENAI_API_KEY"@,
                ApiEndpoint::Local => r is None,
            },
    {
        match *self {
            ApiEndpoint::Groq => Some("GROQ_API_KEY"),
            ApiEndpoint::Anthropic => Some("ANTHROPIC_API_KEY"),
            ApiEndpoint::OpenAI => Some("OPENAI_API_KEY"),
            ApiEndpoint::Local => None,
        }
    }
}

/// The service that a command-line name stands for, each by its full name or
/// its first letter.
pub open spec fn endpoint_named(arg: Seq<char>) -> Option<ApiEndpoint> {
    if arg == "g"@ || arg == "groq"@ {
        Some(ApiEndpoint::Groq)
    } else if arg == "a"@ || arg == "anthropic"@ {
        Some(ApiEndpoint::Anthropic)
    } else if arg == "o"@ || arg == "openai"@ {
        Some(ApiEndpoint::OpenAI)
    } else if arg == "l"@ || arg == "local"@ {
        Some(ApiEndpoint::Local)
    } else {
        None
    }
}

/// The service named by `arg`, or `None` where it names none.
pub fn get_endpoint(arg: &str) -> (r: Option<ApiEndpoint>)
    ensures
        r == endpoint_named(arg@),
{
    if str_eq(arg, "g") || str_eq(arg, "groq") {
        Some(ApiEndpoint::Groq)
    } else if str_eq(arg, "a") || str_eq(arg, "anthropic") {
        Some(ApiEndpoint::Anthropic)
    } else if str_eq(arg, "o") || str_eq(arg, "openai") {
        Some(ApiEndpoint::OpenAI)
    } else if str_eq(arg, "l") || str_eq(arg, "local") {
        Some(ApiEndpoint::Local)
    } else {
        None
    }
}

/// The question to translate and the service to ask.
#[derive(Debug)]
pub struct UserQuery {
    pub endpoint: ApiEndpoint,
    pub command: String,
}

impl View for UserQuery {
    type V = (ApiEndpoint, Seq<char>);

    open spec fn view(&self) -> (ApiEndpoint, Seq<char>) {
        (self.endpoint, self.command@)
    }
}

impl UserQuery {
    /// An empty question for the default service.
    pub fn new() -> (r: UserQuery)
        ensures
            r@ == (DEFAULT_ENDPOINT, Seq::<char>::empty()),
    {
        UserQuery { endpoint: DEFAULT_ENDPOINT, command: String::new() }
    }
}

/// Why the command line holds no question.
#[derive(Debug, Clone, Copy, PartialEq, Eq, Structural)]
pub enum QueryError {
    MissingQuestion,
}

/// The query of a command line `args` (program name first). With `-l NAME`
/// first, `NAME` picks the service (the default one where it names none) and
/// the words after it are the question; else all words are. Fewer than four
/// arguments, or an empty question after `-l NAME`, give no query.
pub open spec fn query_of_args(args: Seq<Seq<char>>) -> Result<(ApiEndpoint, Seq<char>), QueryError> {
    if args.len() <= 3 {
        Err(QueryError::MissingQuestion)
    } else if args[1] == "-l"@ {
        let command = join_with(args.subrange(3, args.len() as int), " "@);
        if command.len() == 0 {
            Err(QueryError::MissingQuestion)
        } else {
            let endpoint = match endpoint_named(args[2]) {
                Some(e) => e,
                None => DEFAULT_ENDPOINT,
            };
            Ok((endpoint, command))
        }
    } else {
        Ok((DEFAULT_ENDPOINT, join_with(args.subrange(1, args.len() as int), " "@)))
    }
}

pub open spec fn query_view(r: Result<UserQuery, QueryError>) -> Result<(ApiEndpoint, Seq<char>), QueryError> {
    match r {
        Ok(q) => Ok(q@),
        Err(e) => Err(e),
    }
}

/// The query that the command line `args` asks.
pub fn get_user_query(args: &Vec<String>) -> (r: Result<UserQuery, QueryError>)
    ensures
        query_view(r) == query_of_args(strings_view(args@)),
{
    if args.len() <= 3 {
        return Err(QueryError::MissingQuestion);
    }
    let mut user_query = UserQuery::new();
    if str_eq(args[1].as_str(), "-l") {
        user_query.endpoint = match get_endpoint(args[2].as_str()) {
            Some(e) => e,
            None => DEFAULT_ENDPOINT,
        };
        user_query.command = join_from(args, 3, " ");
        if user_query.command.as_str().is_empty() {
            return Err(QueryError::MissingQuestion);
        }
    } else {
        user_query.command = join_from(args, 1, " ");
    }
    Ok(user_query)
}

} // verus!
