use mathline::agent::{
    clean_code, extract_expression, remove_all, OllamaClient, Prompt, DEFAULT_MODEL, SYSTEM_PROMPT,
};

#[test]
fn extract_from_python_block() {
    let reply = "Here you go:\n```python\nimport math\n\nexpression = math.sin(0) + 1\n```\nDone.";
    assert_eq!(extract_expression(reply), "math.sin(0) + 1");
}

#[test]
fn extract_without_block_keeps_reply() {
    assert_eq!(extract_expression("1 + 2"), "1 + 2");
    assert_eq!(extract_expression("expression = 1 + 2"), "expression = 1 + 2");
}

#[test]
fn extract_takes_first_block() {
    let reply = "```python\n2 * 3```\n```python\n4\n```";
    assert_eq!(extract_expression(reply), "2 * 3");
}

#[test]
fn clean_code_removes_boilerplate() {
    assert_eq!(clean_code("import math\n\nexpression = 2 ** 8"), "2 ** 8");
    assert_eq!(clean_code("2 + 2"), "2 + 2");
}

#[test]
fn remove_all_occurrences() {
    assert_eq!(remove_all("abcabcab", "abc"), "ab");
    assert_eq!(remove_all("aaaa", "aa"), "");
    assert_eq!(remove_all("aaa", "aa"), "a");
    assert_eq!(remove_all("hello", ""), "hello");
    assert_eq!(remove_all("", "x"), "");
    assert_eq!(remove_all("xπyπ", "π"), "xy");
}

#[test]
fn ollama_client_models() {
    assert_eq!(OllamaClient::gemma3_4b().model(), "gemma3:4b");
    assert_eq!(OllamaClient::new("llama3".to_string()).model(), "llama3");
    assert_eq!(DEFAULT_MODEL, "gemma3:4b");
}

#[test]
fn prompt_for_request() {
    let p = Prompt::for_request("two plus two");
    assert_eq!(p.system_prompt, SYSTEM_PROMPT);
    assert_eq!(p.user_request, "two plus two");
}

#[test]
fn extract_block_edges() {
    assert_eq!(extract_expression("```python\n1\n```"), "1");
    assert_eq!(extract_expression("```python\n```"), "");
    assert_eq!(extract_expression("```python\n1 + 2"), "```python\n1 + 2");
    assert_eq!(extract_expression("x ```python\na\n\n```"), "a\n");
}
