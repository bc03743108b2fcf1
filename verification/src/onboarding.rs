//! The first-run setup's answers: how typed answers are read and what
//! configuration each provider choice makes. Prompting and saving are the
//! caller's part.
use vstd::prelude::*;
use crate::text::{chars_of, string_from_range};

verus! {

broadcast use vstd::string::group_string_axioms;

/// The characters with the Unicode `White_Space` property, which is what
/// `char::is_whitespace` tests and `str::trim` removes.
pub open spec fn is_white_space(c: char) -> bool {
    ||| '\u{9}' <= c && c <= '\u{d}'
    ||| c == ' '
    ||| c == '\u{85}'
    ||| c == '\u{a0}'
    ||| c == '\u{1680}'
    ||| '\u{2000}' <= c && c <= '\u{200a}'
    ||| c == '\u{2028}'
    ||| c == '\u{2029}'
    ||| c == '\u{202f}'
    ||| c == '\u{205f}'
    ||| c == '\u{3000}'
}

fn white_space(c: char) -> (b: bool)
    ensures
        b == is_white_space(c),
{
    ('\u{9}' <= c && c <= '\u{d}') || c == ' ' || c == '\u{85}' || c == '\u{a0}' || c == '\u{1680}' || (
    '\u{2000}' <= c && c <= '\u{200a}') || c == '\u{2028}' || c == '\u{2029}' || c == '\u{202f}' || c
        == '\u{205f}' || c == '\u{3000}'
}

pub open spec fn trim_start(s: Seq<char>) -> Seq<char>
    decreases s.len(),
{
    if s.len() > 0 && is_white_space(s[0]) {
        trim_start(s.drop_first())
    } else {
        s
    }
}

pub open spec fn trim_end(s: Seq<char>) -> Seq<char>
    decreases s.len(),
{
    if s.len() > 0 && is_white_space(s.last()) {
        trim_end(s.drop_last())
    } else {
        s
    }
}

/// `s` without leading and trailing white space, as `str::trim` gives it.
pub open spec fn trimmed(s: Seq<char>) -> Seq<char> {
    trim_end(trim_start(s))
}

/// The text of `line` without leading and trailing white space.
pub fn trim_text(line: &str) -> (r: String)
    ensures
        r@ == trimmed(line@),
{
    let cs = chars_of(line);
    let ghost s = cs@;
    let n = cs.len();
    let mut start: usize = 0;
    proof {
        assert(s.skip(0) =~= s);
    }
    while start < n && white_space(cs[start])
        invariant
            s == cs@,
            n == s.len(),
            start <= n,
            trim_start(s) == trim_start(s.skip(start as int)),
        decreases n - start,
    {
        proof {
            assert(s.skip(start as int).drop_first() =~= s.skip(start + 1));
        }
        start = start + 1;
    }
    proof {
        assert(trim_start(s.skip(start as int)) == s.skip(start as int));
        assert(s.skip(start as int) =~= s.subrange(start as int, n as int));
    }
    let mut end: usize = n;
    proof {
        assert(s.subrange(start as int, end as int) =~= s.subrange(start as int, n as int));
    }
    while end > start && white_space(cs[end - 1])
        invariant
            s == cs@,
            n == s.len(),
            start <= end <= n,
            trimmed(s) == trim_end(s.subrange(start as int, end as int)),
        decreases end,
    {
        proof {
            assert(s.subrange(start as int, end as int).drop_last() =~= s.subrange(start as int, end - 1));
        }
        end = end - 1;
    }
    string_from_range(cs.as_slice(), start, end)
}

pub open spec fn is_digit(c: char) -> bool {
    '0' <= c && c <= '9'
}

pub open spec fn all_digits(d: Seq<char>) -> bool {
    forall|i: int| 0 <= i < d.len() ==> is_digit(#[trigger] d[i])
}

/// The number a string of decimal digits denotes.
pub open spec fn digits_value(d: Seq<char>) -> nat
    decreases d.len(),
{
    if d.len() == 0 {
        0
    } else {
        10 * digits_value(d.drop_last()) + (d.last() as nat - '0' as nat) as nat
    }
}

/// What `str::parse::<u32>` gives: an optional `+`, then one or more decimal
/// digits whose value fits in 32 bits.
pub open spec fn parse_u32_spec(s: Seq<char>) -> Option<u32> {
    let d = if s.len() > 0 && s[0] == '+' {
        s.drop_first()
    } else {
        s
    };
    if d.len() > 0 && all_digits(d) && digits_value(d) <= u32::MAX {
        Some(digits_value(d) as u32)
    } else {
        None
    }
}

proof fn lemma_digits_value_grows(d: Seq<char>, i: int)
    requires
        0 <= i <= d.len(),
        all_digits(d),
    ensures
        digits_value(d.take(i)) <= digits_value(d),
    decreases d.len() - i,
{
    if i < d.len() {
        lemma_digits_value_grows(d, i + 1);
        assert(d.take(i + 1).drop_last() =~= d.take(i));
        assert(is_digit(d.take(i + 1).last()));
    } else {
        assert(d.take(i) =~= d);
    }
}

/// Parses a number as `str::parse::<u32>` does (see [`parse_u32_spec`]).
pub fn parse_u32(s: &str) -> (r: Option<u32>)
    ensures
        r == parse_u32_spec(s@),
{
    let cs = chars_of(s);
    let ghost sv = cs@;
    let first: usize = if cs.len() > 0 && cs[0] == '+' { 1 } else { 0 };
    let ghost d = if sv.len() > 0 && sv[0] == '+' { sv.drop_first() } else { sv };
    proof {
        assert(d =~= sv.skip(first as int));
    }
    if first >= cs.len() {
        return None;
    }
    let mut value: u64 = 0;
    let mut i: usize = first;
    while i < cs.len()
        invariant
            sv == cs@,
            sv == s@,
            d == (if sv.len() > 0 && sv[0] == '+' { sv.drop_first() } else { sv }),
            d == sv.skip(first as int),
            first <= i <= sv.len(),
            value as nat == digits_value(d.take(i - first)),
            value <= u32::MAX,
            all_digits(d.take(i - first)),
        decreases sv.len() - i,
    {
        let c = cs[i];
        proof {
            assert(d.take(i - first + 1).drop_last() =~= d.take(i - first));
            assert(d.take(i - first + 1).last() == c);
        }
        proof {
            assert(d[i - first] == c);
        }
        if !('0' <= c && c <= '9') {
            proof {
                assert(!is_digit(d[i - first]));
                assert(!all_digits(d));

            }
            return None;
        }
        let digit = (c as u64) - ('0' as u64);
        value = value * 10 + digit;
        if value > 0xffff_ffff {
            proof {
                assert(all_digits(d.take(i - first + 1)));
                assert(value as nat == digits_value(d.take(i - first + 1)));
                if all_digits(d) {
                    lemma_digits_value_grows(d, i - first + 1);
                }
            }
            return None;
        }
        i = i + 1;
    }
    proof {
        assert(d.take(sv.len() - first) =~= d);
    }
    Some(value as u32)
}

/// The number typed as a menu choice, if it is one between `min` and `max`.
pub open spec fn menu_choice(line: Seq<char>, min: u32, max: u32) -> Option<u32> {
    match parse_u32_spec(trimmed(line)) {
        Some(n) => if min <= n && n <= max {
            Some(n)
        } else {
            None
        },
        None => None,
    }
}

/// Reads a menu choice from a typed line (see [`menu_choice`]).
pub fn choice_from_answer(line: &str, min: u32, max: u32) -> (r: Option<u32>)
    ensures
        r == menu_choice(line@, min, max),
{
    let t = trim_text(line);
    match parse_u32(t.as_str()) {
        Some(n) => if min <= n && n <= max {
            Some(n)
        } else {
            None
        },
        None => None,
    }
}

/// A typed answer, trimmed, when it is not empty.
pub fn optional_from_answer(line: &str) -> (r: Option<String>)
    ensures
        match r {
            Some(t) => trimmed(line@).len() > 0 && t@ == trimmed(line@),
            None => trimmed(line@).len() == 0,
        },
{
    let t = trim_text(line);
    if t.as_str().unicode_len() == 0 {
        None
    } else {
        Some(t)
    }
}

/// A typed answer, trimmed, or the default when nothing was typed.
pub fn value_or_default(line: &str, default: &str) -> (r: String)
    ensures
        r@ == if trimmed(line@).len() == 0 {
            default@
        } else {
            trimmed(line@)
        },
{
    match optional_from_answer(line) {
        Some(t) => t,
        None => default.to_owned(),
    }
}

/// The saved configuration: provider, credentials, endpoint and model.
#[derive(Clone, Debug)]
pub struct AppConfig {
    pub provider: Option<String>,
    pub api_key: Option<String>,
    pub base_url: Option<String>,
    pub model: Option<String>,
}

/// The configuration for the Anthropic API.
pub fn anthropic_setup(api_key: String, base_url: Option<String>, model: Option<String>) -> (c: AppConfig)
    ensures
        c.provider matches Some(p) && p@ == "anthropic"@,
        c.api_key == Some(api_key),
        c.base_url == base_url,
        c.model == model,
{
    AppConfig { provider: Some(String::from_str("anthropic")), api_key: Some(api_key), base_url, model }
}

/// The Ollama endpoint offered when the user gives none.
pub fn ollama_default_base_url() -> (r: &'static str)
    ensures
        r@ == "http://localhost:11434"@,
{
    "http://localhost:11434"
}

/// The Ollama model offered when the user gives none.
pub fn ollama_default_model() -> (r: &'static str)
    ensures
        r@ == "qwen3.5:9b"@,
{
    "qwen3.5:9b"
}

/// The model offered for an OpenAI-format API when the user gives none.
pub fn openai_compat_default_model() -> (r: &'static str)
    ensures
        r@ == "gpt-4o"@,
{
    "gpt-4o"
}

/// The configuration for a local Ollama server.
pub fn ollama_setup(base_url: String, model: String) -> (c: AppConfig)
    ensures
        c.provider matches Some(p) && p@ == "ollama"@,
        c.api_key is None,
        c.base_url == Some(base_url),
        c.model == Some(model),
{
    AppConfig { provider: Some(String::from_str("ollama")), api_key: None, base_url: Some(base_url), model: Some(model) }
}

/// The configuration for any OpenAI-format API.
pub fn openai_compat_setup(base_url: String, api_key: Option<String>, model: String) -> (c: AppConfig)
    ensures
        c.provider matches Some(p) && p@ == "openai"@,
        c.api_key == api_key,
        c.base_url == Some(base_url),
        c.model == Some(model),
{
    AppConfig { provider: Some(String::from_str("openai")), api_key, base_url: Some(base_url), model: Some(model) }
}

/// A menu choice is accepted exactly when it lies in the menu: a line whose
/// trimmed text is the number `n` gives `n` when `min <= n <= max` (both ends
/// included) and nothing otherwise, and a line that is not a number gives
/// nothing.
pub proof fn law_menu_choice_in_range(line: Seq<char>, min: u32, max: u32)
    ensures
        match parse_u32_spec(trimmed(line)) {
            Some(n) => {
                &&& (min <= n && n <= max) ==> menu_choice(line, min, max) == Some(n)
                &&& !(min <= n && n <= max) ==> menu_choice(line, min, max) is None
            },
            None => menu_choice(line, min, max) is None,
        },
        menu_choice(line, min, max) matches Some(n) ==> min <= n <= max,
        min <= max ==> (parse_u32_spec(trimmed(line)) == Some(max) ==> menu_choice(line, min, max) == Some(max)),
{
}

} // verus!
