use vstd::prelude::*;

use crate::text::chars_of;

verus! {

/// What the language model is told to do with a request.
pub const SYSTEM_PROMPT: &'static str = "Transform the following request into a mathematical expression. Do not attempt to solve the expression. Use standard, valid Python syntax.";

/// The model that answers when no other is named.
pub const DEFAULT_MODEL: &'static str = "gemma3:4b";

/// A request to a language model: its instructions and the user's words.
pub struct Prompt<'a> {
    pub system_prompt: &'a str,
    pub user_request: &'a str,
}

impl<'a> Prompt<'a> {
    /// The prompt that asks for the expression of a request.
    pub fn for_request(user_request: &'a str) -> (r: Prompt<'a>)
        ensures
            r.system_prompt@ == SYSTEM_PROMPT@,
            r.user_request@ == user_request@,
    {
        Prompt { system_prompt: SYSTEM_PROMPT, user_request }
    }
}

/// A client of an Ollama server, bound to one model.
pub struct OllamaClient {
    model: String,
}

impl OllamaClient {
    /// The identifier of the model that this client asks.
    pub closed spec fn model_id(&self) -> Seq<char> {
        self.model@
    }

    pub fn new(model: String) -> (r: OllamaClient)
        ensures
            r.model_id() == model@,
    {
        OllamaClient { model }
    }

    /// A client of the default model.
    pub fn gemma3_4b() -> (r: OllamaClient)
        ensures
            r.model_id() == DEFAULT_MODEL@,
    {
        Self::new(DEFAULT_MODEL.to_owned())
    }

    /// The identifier of the model that this client asks.
    pub fn model(&self) -> (r: &str)
        ensures
            r@ == self.model_id(),
    {
        self.model.as_str()
    }
}

/// Whether `p` stands in `t` from position `i` on.
pub open spec fn occurs_at_pos(t: Seq<char>, i: int, p: Seq<char>) -> bool {
    0 <= i && i + p.len() <= t.len() && t.subrange(i, i + p.len()) == p
}

/// The first position from `i` on where `p` stands in `t`, if any.
pub open spec fn find_from(t: Seq<char>, i: int, p: Seq<char>) -> Option<int>
    decreases t.len() + 1 - i,
{
    if i < 0 || i + p.len() > t.len() {
        None
    } else if occurs_at_pos(t, i, p) {
        Some(i)
    } else {
        find_from(t, i + 1, p)
    }
}

/// The first position from `i` on where a closing fence starts, a newline
/// just before it included.
pub open spec fn find_close(t: Seq<char>, i: int) -> Option<int>
    decreases t.len() - i,
{
    if i < 0 || i + 3 > t.len() {
        None
    } else if occurs_at_pos(t, i, "\n```"@) || occurs_at_pos(t, i, "```"@) {
        Some(i)
    } else {
        find_close(t, i + 1)
    }
}

/// The code inside the first fenced Python block of a text, if it has one:
/// what follows the first "```python" and newline, up to the earliest
/// "```" after it, without a newline just before that fence.
pub open spec fn fenced_python_code(text: Seq<char>) -> Option<Seq<char>> {
    match find_from(text, 0, "```python\n"@) {
        Some(p) => match find_close(text, p + 10) {
            Some(q) => Some(text.subrange(p + 10, q)),
            None => None,
        },
        None => None,
    }
}

#[verifier::external_body]
fn python_block(text: &str) -> (r: Option<String>)
    ensures
        match fenced_python_code(text@) {
            Some(code) => r is Some && r->Some_0@ == code,
            None => r is None,
        },
{
    let re = regex::Regex::new(r"(?s)```python\n(.*?)\n?```").unwrap();
    re.captures(text).and_then(|c| c.get(1)).map(|m| m.as_str().to_string())
}

/// `s` with every occurrence of `p` removed, left to right, occurrences
/// not overlapping.
pub open spec fn without(s: Seq<char>, p: Seq<char>) -> Seq<char>
    decreases s.len(),
{
    if p.len() == 0 || s.len() < p.len() {
        s
    } else if s.take(p.len() as int) == p {
        without(s.skip(p.len() as int), p)
    } else {
        seq![s[0]] + without(s.skip(1), p)
    }
}

/// Whether `p` occurs in `s` at position `i`.
fn occurs_at(s: &Vec<char>, p: &Vec<char>, i: usize) -> (r: bool)
    requires
        i + p.len() <= s.len(),
    ensures
        r == (s@.subrange(i as int, i + p.len()) == p@),
{
    let mut k: usize = 0;
    while k < p.len()
        invariant
            i + p.len() <= s.len(),
            k <= p.len(),
            s@.subrange(i as int, i + k) == p@.take(k as int),
        decreases p.len() - k,
    {
        if s[i + k] != p[k] {
            assert(s@.subrange(i as int, i + p.len())[k as int] != p@[k as int]);
            return false;
        }
        assert(s@.subrange(i as int, i + k + 1) =~= p@.take(k + 1));
        k = k + 1;
    }
    assert(p@.take(p.len() as int) =~= p@);
    true
}

/// `text` with every occurrence of `pattern` removed, left to right.
pub fn remove_all(text: &str, pattern: &str) -> (r: String)
    ensures
        r@ == without(text@, pattern@),
{
    let s = chars_of(text);
    let p = chars_of(pattern);
    let n = s.len();
    let m = p.len();
    if m == 0 {
        return text.to_owned();
    }
    let mut out = String::new();
    let mut start: usize = 0;
    let mut i: usize = 0;
    assert(text@.skip(0) =~= text@);
    while m <= n - i
        invariant
            s@ == text@,
            p@ == pattern@,
            n == s.len(),
            m == p.len(),
            m > 0,
            start <= i <= n,
            out@ + text@.subrange(start as int, i as int) + without(text@.skip(i as int), pattern@)
                == without(text@, pattern@),
        decreases n - i,
    {
        let ghost rest = text@.skip(i as int);
        assert(rest.take(m as int) =~= text@.subrange(i as int, i + m));
        if occurs_at(&s, &p, i) {
            let piece = text.substring_char(start, i);
            out.append(piece);
            assert(rest.skip(m as int) =~= text@.skip(i + m));
            assert(text@.subrange((i + m) as int, (i + m) as int) =~= Seq::<char>::empty());
            i = i + m;
            start = i;
        } else {
            assert(rest.skip(1) =~= text@.skip(i + 1));
            assert(text@.subrange(start as int, i + 1) =~= text@.subrange(start as int, i as int)
                + seq![rest[0]]);
            i = i + 1;
        }
    }
    let piece = text.substring_char(start, n);
    out.append(piece);
    assert(text@.subrange(start as int, i as int) + text@.skip(i as int) =~= text@.subrange(
        start as int,
        n as int,
    ));
    out
}

/// Takes out the lines that models put around an expression: the import of
/// `math`, and an assignment to `expression`.
pub fn clean_code(code: &str) -> (r: String)
    ensures
        r@ == without(without(code@, "import math\n\n"@), "expression = "@),
{
    let first = remove_all(code, "import math\n\n");
    remove_all(first.as_str(), "expression = ")
}

/// The expression in a model's reply: the cleaned code of its first fenced
/// Python block, or the whole reply when it has none.
pub fn extract_expression(reply: &str) -> (r: String)
    ensures
        r@ == match fenced_python_code(reply@) {
            Some(code) => without(without(code, "import math\n\n"@), "expression = "@),
            None => reply@,
        },
{
    match python_block(reply) {
        Some(code) => clean_code(code.as_str()),
        None => reply.to_owned(),
    }
}

} // verus!
