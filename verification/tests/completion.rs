use makepad_analyzer::completion::{
    completion_items_for_static_keywords, completion_items_for_use_keyword, contains_text,
    is_token_char, keywords_matching, match_keyword_from, token_at_position, token_in_line, CompletionItem,
    CompletionItemKind, InsertTextFormat, Token,
};
use makepad_analyzer::config::{Config, LSPClient, LevelFilter, LoggingConfig};
use makepad_analyzer::document::{Position, TextDocument};
use makepad_analyzer::live_keywords_docs::LiveKeywordsDocs;
use makepad_analyzer::plugin::{
    handle_completion, merge_completions, MakepadAnalyzerLivePlugin, MakepadAnalyzerPlugin,
    PluginCapability, PluginManagerBuilder,
};

fn labels(items: &[CompletionItem]) -> Vec<&str> {
    items.iter().map(|item| item.label.as_str()).collect()
}

fn item(label: &str, detail: &str) -> CompletionItem {
    CompletionItem {
        label: label.to_string(),
        kind: Some(CompletionItemKind::Text),
        detail: Some(detail.to_string()),
        documentation: None,
        insert_text: None,
        insert_text_format: None,
    }
}

#[test]
fn token_characters() {
    for c in ['a', 'Z', '7', '_', ':', '/', '"', 'é'] {
        assert!(is_token_char(c));
    }
    for c in [' ', '(', ')', '.', '\n', '-'] {
        assert!(!is_token_char(c));
    }
}

#[test]
fn token_around_a_place() {
    assert_eq!(token_in_line("  use crate::x;", 4), Token::Keyword("use".to_string()));
    assert_eq!(token_in_line("  use crate::x;", 2), Token::Keyword("use".to_string()));
    assert_eq!(token_in_line("  use crate::x;", 5), Token::Keyword("use".to_string()));
    assert_eq!(token_in_line("  use crate::x;", 8), Token::Keyword("crate::x".to_string()));
    assert_eq!(token_in_line("  use crate::x;", 1), Token::Nothing);
    assert_eq!(token_in_line("use", 3), Token::Keyword("use".to_string()));
    assert_eq!(token_in_line("use", 9), Token::Nothing);
    assert_eq!(token_in_line("", 0), Token::Nothing);
    let document = TextDocument::new("a.rs", "first\n  pub Widget".to_string());
    assert_eq!(
        token_at_position(&document, Position { line: 1, character: 3 }),
        Some(Token::Keyword("pub".to_string()))
    );
    assert_eq!(token_at_position(&document, Position { line: 5, character: 0 }), Some(Token::Nothing));
}

#[test]
fn text_containment() {
    assert!(contains_text("crate::", "te:"));
    assert!(contains_text("use", ""));
    assert!(contains_text("use", "use"));
    assert!(!contains_text("use", "uses"));
    assert!(!contains_text("pub", "bu"));
}

#[test]
fn keyword_proposals() {
    assert_eq!(labels(&match_keyword_from(Token::Keyword("us".to_string()))), vec!["use", "use crate"]);
    assert_eq!(
        labels(&match_keyword_from(Token::Keyword("U".to_string()))),
        vec!["dep", "pub", "use", "use crate"]
    );
    assert_eq!(labels(&match_keyword_from(Token::Keyword("P".to_string()))), vec!["dep", "pub"]);
    assert_eq!(labels(&match_keyword_from(Token::Keyword("de".to_string()))), vec!["dep", "pub"]);
    assert_eq!(
        labels(&match_keyword_from(Token::Keyword(String::new()))),
        vec!["dep", "pub", "use", "use crate"]
    );
    assert!(match_keyword_from(Token::Keyword("widget".to_string())).is_empty());
    assert!(match_keyword_from(Token::Keyword("link".to_string())).is_empty());
    assert!(match_keyword_from(Token::Nothing).is_empty());
}

#[test]
fn keywords_are_matched_in_lower_case() {
    assert_eq!(labels(&keywords_matching("u")), vec!["dep", "pub", "use", "use crate"]);
    assert_eq!(labels(&keywords_matching("se")), vec!["use", "use crate"]);
    assert_eq!(labels(&keywords_matching("ep")), vec!["dep", "pub"]);
    assert!(keywords_matching("U").is_empty());
    assert!(keywords_matching("used").is_empty());
}

#[test]
fn keyword_items_carry_their_texts() {
    let statics = completion_items_for_static_keywords();
    assert_eq!(labels(&statics), vec!["dep", "pub"]);
    assert_eq!(statics[0].insert_text.as_deref(), Some("dep(\"$1\")"));
    assert_eq!(statics[0].insert_text_format, Some(InsertTextFormat::Snippet));
    assert_eq!(
        statics[1].documentation.as_deref(),
        Some("# pub\nThe `pub` keyword is used to export the widget.\nExample: \n```rust\npub Widget = {{Widget}} {}\n```")
    );
    let uses = completion_items_for_use_keyword();
    assert_eq!(labels(&uses), vec!["use", "use crate"]);
    assert!(uses[0].documentation.as_deref().unwrap().starts_with("# use\n"));
    assert_eq!(uses[1].kind, Some(CompletionItemKind::Keyword));
}

#[test]
fn merge_keeps_the_first_of_each_label() {
    let merged = merge_completions(vec![
        item("a", "first"),
        item("b", "one"),
        item("a", "second"),
        item("c", "x"),
        item("b", "two"),
    ]);
    assert_eq!(labels(&merged), vec!["a", "b", "c"]);
    assert_eq!(merged[0].detail.as_deref(), Some("first"));
    assert_eq!(merged[1].detail.as_deref(), Some("one"));
    assert!(merge_completions(vec![]).is_empty());
}

#[test]
fn plugins_are_asked_in_order() {
    let empty = PluginManagerBuilder::<MakepadAnalyzerLivePlugin>::new().finish();
    assert!(empty.handle_completion("file:///a.rs", Position { line: 0, character: 0 }, "").is_empty());
    assert!(empty.get_registered_plugin_info("x").is_none());
    let manager = PluginManagerBuilder::new()
        .apply_plugin(MakepadAnalyzerLivePlugin::new())
        .apply_plugin(MakepadAnalyzerLivePlugin::new())
        .finish();
    assert_eq!(manager.get_plugins().len(), 2);
    let infos = manager.get_all_registered_plugin_info();
    assert_eq!(infos.len(), 2);
    assert_eq!(infos[0].name, "Makepad Analyzer Live Plugin");
    assert_eq!(infos[0].version, "0.0.1");
    assert_eq!(
        manager.get_registered_plugin_info("Makepad Analyzer Live Plugin").unwrap().description,
        "A plugin for the Makepad Analyzer that provides live completion"
    );
    assert!(manager.get_registered_plugin_info("other").is_none());
    let items = manager.handle_completion("file:///a.rs", Position { line: 1, character: 2 }, ".");
    assert_eq!(labels(&items), vec!["dep", "pub"]);
    assert_eq!(
        labels(&handle_completion("file:///a.rs", Position { line: 0, character: 0 }, "")),
        vec!["dep", "pub"]
    );
    let plugin = MakepadAnalyzerLivePlugin::new();
    let given = plugin.capabilities().handle_completion("u", Position { line: 0, character: 0 }, "");
    assert_eq!(labels(&given), vec!["dep", "pub"]);
}

#[test]
fn settings_default_to_silence() {
    let config = Config::default();
    assert_eq!(config.client, LSPClient::Other);
    assert_eq!(config.logging, LoggingConfig { level: LevelFilter::Off });
    assert!(!config.wants_logging());
    assert!(!config.is_makepad_studio());
    let loud = Config {
        client: LSPClient::MakepadStudio,
        logging: LoggingConfig { level: LevelFilter::Info },
    };
    assert!(loud.wants_logging());
    assert!(loud.is_makepad_studio());
    assert_eq!(LSPClient::default(), LSPClient::Other);
    assert_eq!(LoggingConfig::default().level, LevelFilter::Off);
}

#[test]
fn keywords_have_their_placeholder() {
    let docs = LiveKeywordsDocs::new();
    assert_eq!(docs.len(), 5);
    for keyword in ["pub", "link::", "crate::", "use", "dep"] {
        assert_eq!(docs.get(keyword), Some("Some detail"));
    }
    assert_eq!(docs.get("link"), None);
}
