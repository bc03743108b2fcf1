use claw::onboarding::{
    choice_from_answer, anthropic_setup, ollama_default_base_url, ollama_default_model, ollama_setup,
    openai_compat_default_model, openai_compat_setup, optional_from_answer, parse_u32, trim_text, value_or_default,
};

#[test]
fn setup_defaults() {
    assert_eq!(ollama_default_base_url(), "http://localhost:11434");
    assert_eq!(ollama_default_model(), "qwen3.5:9b");
    assert_eq!(openai_compat_default_model(), "gpt-4o");
    assert_eq!(value_or_default("  ", ollama_default_model()), "qwen3.5:9b");
}

#[test]
fn trimming_matches_str_trim() {
    for s in ["", "  ", " a ", "\t\nx y\r\n", "\u{3000}z\u{a0}", "\u{200b}q"] {
        assert_eq!(trim_text(s), s.trim(), "input {:?}", s);
    }
}

#[test]
fn numbers_parse_like_str_parse() {
    for s in ["0", "42", "+7", "+", "", "-1", "4294967295", "4294967296", "99999999999999999999", "1a", " 1", "007"] {
        assert_eq!(parse_u32(s), s.parse::<u32>().ok(), "input {:?}", s);
    }
}

#[test]
fn menu_choices() {
    assert_eq!(choice_from_answer(" 2\n", 1, 3), Some(2));
    assert_eq!(choice_from_answer("4", 1, 3), None);
    assert_eq!(choice_from_answer("0", 1, 3), None);
    assert_eq!(choice_from_answer("two", 1, 3), None);
}

#[test]
fn answers() {
    assert_eq!(optional_from_answer("  \n"), None);
    assert_eq!(optional_from_answer(" key \n"), Some("key".to_string()));
    assert_eq!(value_or_default("\n", "gpt-4o"), "gpt-4o");
    assert_eq!(value_or_default(" llama \n", "gpt-4o"), "llama");
}

#[test]
fn provider_configurations() {
    let c = anthropic_setup("k".to_string(), None, Some("m".to_string()));
    assert_eq!(c.provider.as_deref(), Some("anthropic"));
    assert_eq!(c.api_key.as_deref(), Some("k"));
    let c = ollama_setup("http://localhost:11434".to_string(), "qwen3.5:9b".to_string());
    assert_eq!(c.provider.as_deref(), Some("ollama"));
    assert!(c.api_key.is_none());
    let c = openai_compat_setup("https://api.openai.com".to_string(), None, "gpt-4o".to_string());
    assert_eq!(c.provider.as_deref(), Some("openai"));
    assert_eq!(c.model.as_deref(), Some("gpt-4o"));
}
