use barsh::prompt::{generate_prompt, shell_name, system_message, PROMPT};
use barsh::text::{replace_all_of, strip_prefix_of, strip_suffix_of, str_eq};
use barsh::utils::{get_endpoint, get_user_query, ApiEndpoint, QueryError, UserQuery, DEFAULT_ENDPOINT};

fn args(v: &[&str]) -> Vec<String> {
    v.iter().map(|s| s.to_string()).collect()
}

#[test]
fn endpoint_names() {
    assert_eq!(get_endpoint("g"), Some(ApiEndpoint::Groq));
    assert_eq!(get_endpoint("groq"), Some(ApiEndpoint::Groq));
    assert_eq!(get_endpoint("a"), Some(ApiEndpoint::Anthropic));
    assert_eq!(get_endpoint("anthropic"), Some(ApiEndpoint::Anthropic));
    assert_eq!(get_endpoint("o"), Some(ApiEndpoint::OpenAI));
    assert_eq!(get_endpoint("openai"), Some(ApiEndpoint::OpenAI));
    assert_eq!(get_endpoint("l"), Some(ApiEndpoint::Local));
    assert_eq!(get_endpoint("local"), Some(ApiEndpoint::Local));
    assert_eq!(get_endpoint("gro"), None);
    assert_eq!(get_endpoint(""), None);
}

#[test]
fn new_query_is_empty_and_default() {
    let q = UserQuery::new();
    assert_eq!(q.endpoint, DEFAULT_ENDPOINT);
    assert_eq!(q.endpoint, ApiEndpoint::Groq);
    assert_eq!(q.command, "");
}

#[test]
fn too_few_arguments_give_no_query() {
    assert!(matches!(get_user_query(&args(&["barsh"])), Err(QueryError::MissingQuestion)));
    assert!(matches!(get_user_query(&args(&["barsh", "list", "files"])), Err(QueryError::MissingQuestion)));
}

#[test]
fn plain_question_is_joined() {
    let q = get_user_query(&args(&["barsh", "list", "all", "files"])).unwrap();
    assert_eq!(q.endpoint, ApiEndpoint::Groq);
    assert_eq!(q.command, "list all files");
}

#[test]
fn flag_picks_the_endpoint() {
    let q = get_user_query(&args(&["barsh", "-l", "local", "what's", "the", "time"])).unwrap();
    assert_eq!(q.endpoint, ApiEndpoint::Local);
    assert_eq!(q.command, "what's the time");
    let q = get_user_query(&args(&["barsh", "-l", "nope", "time"])).unwrap();
    assert_eq!(q.endpoint, ApiEndpoint::Groq);
    assert_eq!(q.command, "time");
}

#[test]
fn flag_with_an_empty_question_fails() {
    assert!(matches!(get_user_query(&args(&["barsh", "-l", "a", ""])), Err(QueryError::MissingQuestion)));
}

#[test]
fn system_message_fills_in_shell_and_os() {
    let m = system_message("linux", "zsh");
    assert!(m.starts_with("Act as a natural language to zsh command translation engine on linux."));
    assert!(!m.contains("{shell}"));
    assert!(!m.contains("{os}"));
    assert_eq!(m, PROMPT.replace("{os}", "linux").replace("{shell}", "zsh"));
}

#[test]
fn prompt_keeps_the_question() {
    let q = get_user_query(&args(&["barsh", "show", "disk", "usage"])).unwrap();
    let p = generate_prompt("macos", "fish", q);
    assert_eq!(p.user_message.command, "show disk usage");
    assert!(p.system_message.contains("translation engine on macos"));
}

#[test]
fn shell_names_are_normalised() {
    assert_eq!(shell_name("-zsh"), "zsh");
    assert_eq!(shell_name("bash.exe"), "bash");
    assert_eq!(shell_name("-pwsh.exe"), "pwsh");
    assert_eq!(shell_name("fish"), "fish");
    assert_eq!(shell_name(".exe"), "");
}

#[test]
fn text_helpers() {
    assert!(str_eq("abc", "abc"));
    assert!(!str_eq("abc", "abd"));
    assert!(!str_eq("ab", "abc"));
    assert_eq!(replace_all_of("aaa", "aa", "b"), "ba");
    assert_eq!(replace_all_of("x{a}y{a}", "{a}", ""), "xy");
    assert_eq!(strip_suffix_of("a.exe.exe", ".exe"), "a.exe");
    assert_eq!(strip_prefix_of("--x", "-"), "-x");
}

#[test]
fn endpoint_configuration() {
    assert_eq!(ApiEndpoint::Groq.api_base(), "https://api.groq.com/openai/v1");
    assert_eq!(ApiEndpoint::Groq.api_key_var(), Some("GROQ_API_KEY"));
    assert_eq!(ApiEndpoint::OpenAI.api_key_var(), Some("OPENAI_API_KEY"));
    assert_eq!(ApiEndpoint::Local.api_key_var(), None);
    assert_eq!(ApiEndpoint::Local.api_base(), "http://localhost:11434/v1");
}
