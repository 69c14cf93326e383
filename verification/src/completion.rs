use vstd::prelude::*;
use vstd::string::*;
use crate::document::{line_text, Position, TextDocument};
use crate::paths::chars_of;

verus! {

/// What stands at a place in a document.
#[derive(Debug, PartialEq)]
pub enum Token {
    Keyword(String),
    Nothing,
}

/// What kind of thing a completion item proposes.
#[derive(Clone, Copy, Debug, PartialEq, Eq, Structural)]
pub enum CompletionItemKind {
    Text,
    Variable,
    Keyword,
}

/// How the text that a completion item inserts is to be read.
#[derive(Clone, Copy, Debug, PartialEq, Eq, Structural)]
pub enum InsertTextFormat {
    PlainText,
    Snippet,
}

/// One proposal for a completion: a label, with what explains it and what
/// is inserted for it.
#[derive(Clone, Debug, PartialEq, Eq)]
pub struct CompletionItem {
    pub label: String,
    pub kind: Option<CompletionItemKind>,
    pub detail: Option<String>,
    pub documentation: Option<String>,
    pub insert_text: Option<String>,
    pub insert_text_format: Option<InsertTextFormat>,
}

/// Whether `c` is a letter or a digit, as `char::is_alphanumeric` tells.
pub uninterp spec fn is_alphanumeric_char(c: char) -> bool;

/// The lower case of `text`, as `str::to_lowercase` gives it.
pub uninterp spec fn lowercase_of(text: Seq<char>) -> Seq<char>;

/// `char::is_alphanumeric`: whether the character is a letter or a digit.
#[verifier::external_body]
fn char_is_alphanumeric(c: char) -> (r: bool)
    ensures
        r == is_alphanumeric_char(c),
{
    c.is_alphanumeric()
}

/// `str::to_lowercase`: the text in lower case.
#[verifier::external_body]
fn to_lowercase(text: &str) -> (lower: String)
    ensures
        lower@ == lowercase_of(text@),
{
    text.to_lowercase()
}

/// Whether `c` can be part of a token.
pub open spec fn is_token(c: char) -> bool {
    is_alphanumeric_char(c) || c == '_' || c == ':' || c == '/' || c == '"'
}

/// Where the token starts that reaches up to `at`.
pub open spec fn token_start(line: Seq<char>, at: int) -> int
    decreases at,
{
    if 0 < at <= line.len() && is_token(line[at - 1]) {
        token_start(line, at - 1)
    } else {
        at
    }
}

/// Where the token ends that reaches down to `at`.
pub open spec fn token_end(line: Seq<char>, at: int) -> int
    decreases line.len() - at,
{
    if 0 <= at < line.len() && is_token(line[at]) {
        token_end(line, at + 1)
    } else {
        at
    }
}

/// The token of `line` around the place `at`.
pub open spec fn token_of(line: Seq<char>, at: int) -> Option<Seq<char>> {
    if token_start(line, at) == token_end(line, at) {
        None
    } else {
        Some(line.subrange(token_start(line, at), token_end(line, at)))
    }
}

/// A token starts no later than where it is looked for, and ends no
/// earlier; one that is found lies within the line.
pub proof fn lemma_token_span(line: Seq<char>, at: int)
    requires
        0 <= at,
    ensures
        0 <= token_start(line, at) <= at <= token_end(line, at),
        token_start(line, at) < token_end(line, at) ==> token_end(line, at) <= line.len(),
    decreases line.len() + at,
{
    lemma_token_start(line, at);
    lemma_token_end(line, at);
}

proof fn lemma_token_start(line: Seq<char>, at: int)
    requires
        0 <= at,
    ensures
        0 <= token_start(line, at) <= at,
        token_start(line, at) < at ==> at <= line.len(),
    decreases at,
{
    if 0 < at <= line.len() && is_token(line[at - 1]) {
        lemma_token_start(line, at - 1);
    }
}

proof fn lemma_token_end(line: Seq<char>, at: int)
    requires
        0 <= at,
    ensures
        at <= token_end(line, at),
        at < token_end(line, at) ==> token_end(line, at) <= line.len(),
    decreases line.len() - at,
{
    if 0 <= at < line.len() && is_token(line[at]) {
        lemma_token_end(line, at + 1);
    }
}

/// Whether `c` can be part of a token.
pub fn is_token_char(c: char) -> (r: bool)
    ensures
        r == is_token(c),
{
    char_is_alphanumeric(c) || c == '_' || c == ':' || c == '/' || c == '"'
}

/// The token of `line` around the place `character`: the longest run of
/// token characters that touches it.
pub fn token_in_line(line: &str, character: u32) -> (token: Token)
    ensures
        match token_of(line@, character as int) {
            Some(text) => token matches Token::Keyword(given) && given@ == text,
            None => token is Nothing,
        },
{
    let chars = chars_of(line);
    let at = character as usize;
    let mut start = at;
    while start > 0 && start <= chars.len() && is_token_char(chars[start - 1])
        invariant
            start <= at,
            chars@ == line@,
            token_start(line@, start as int) == token_start(line@, at as int),
        decreases start,
    {
        start -= 1;
    }
    let mut end = at;
    while end < chars.len() && is_token_char(chars[end])
        invariant
            at <= end,
            chars@ == line@,
            token_end(line@, end as int) == token_end(line@, at as int),
        decreases chars@.len() - end,
    {
        end += 1;
    }
    proof {
        lemma_token_span(line@, at as int);
    }
    if start == end {
        Token::Nothing
    } else {
        Token::Keyword(line.substring_char(start, end).to_owned())
    }
}

/// The token that stands in `document` at `position`.
pub fn token_at_position(document: &TextDocument, position: Position) -> (token: Option<Token>)
    requires
        document.wf(),
    ensures
        match token_of(line_text(document@.text, position.line as int), position.character as int) {
            Some(text) => token matches Some(Token::Keyword(given)) && given@ == text,
            None => token == Some(Token::Nothing),
        },
{
    Some(token_in_line(document.get_line(position.line as usize), position.character))
}

/// Whether `needle` occurs in `text`.
pub open spec fn occurs_in(text: Seq<char>, needle: Seq<char>) -> bool {
    exists|i: int|
        0 <= i <= text.len() - needle.len() && #[trigger] text.subrange(i, i + needle.len())
            == needle
}

/// Whether `needle` occurs in `text`.
pub fn contains_text(text: &str, needle: &str) -> (r: bool)
    ensures
        r == occurs_in(text@, needle@),
{
    let chars = chars_of(text);
    let wanted = chars_of(needle);
    if wanted.len() > chars.len() {
        return false;
    }
    let last = chars.len() - wanted.len();
    let mut i: usize = 0;
    while i <= last
        invariant
            i <= last + 1,
            chars@ == text@,
            wanted@ == needle@,
            last + wanted@.len() == chars@.len() <= usize::MAX,
            forall|k: int| 0 <= k < i ==> #[trigger] text@.subrange(k, k + needle@.len()) != needle@,
        decreases last + 1 - i,
    {
        let mut j: usize = 0;
        while j < wanted.len() && chars[i + j] == wanted[j]
            invariant
                j <= wanted@.len(),
                i <= last,
                last + wanted@.len() == chars@.len() <= usize::MAX,
                forall|k: int| 0 <= k < j ==> chars@[i + k] == wanted@[k],
            decreases wanted@.len() - j,
        {
            j += 1;
        }
        if j == wanted.len() {
            assert(text@.subrange(i as int, i + needle@.len()) =~= needle@);
            return true;
        }
        assert(text@.subrange(i as int, i + needle@.len())[j as int] != needle@[j as int]);
        i += 1;
    }
    false
}

/// The proposals for the keyword `use`.
pub fn completion_items_for_use_keyword() -> (items: Vec<CompletionItem>)
    ensures
        items@.len() == 2,
        items@[0].label@ == "use"@,
        items@[1].label@ == "use crate"@,
        forall|k: int| 0 <= k < 2 ==> (#[trigger] items@[k]).kind == Some(CompletionItemKind::Keyword),
{
    let mut items: Vec<CompletionItem> = Vec::new();
    items.push(
        CompletionItem {
            label: "use".to_owned(),
            kind: Some(CompletionItemKind::Keyword),
            detail: None,
            documentation: Some(
                "# use\nThe `use` keyword is used to import modules.\nExample: \n```rust\nuse link::theme::*;\nuse link::shaders::*;\nuse link::widgets::*;\n \nuse crate::shared::styles::*;\nuse crate::shared::helpers::*;\n```".to_owned(),
            ),
            insert_text: None,
            insert_text_format: None,
        },
    );
    items.push(
        CompletionItem {
            label: "use crate".to_owned(),
            kind: Some(CompletionItemKind::Keyword),
            detail: None,
            documentation: Some(
                "# use crate\nThe `use crate` keyword is used to import modules from the current crate.\nExample: \n```rust\nuse crate::shared::styles::*;\nuse crate::shared::helpers::*;\n```".to_owned(),
            ),
            insert_text: None,
            insert_text_format: None,
        },
    );
    items
}

/// The proposals for the keywords `pub` and `dep`, in the order of their
/// labels.
pub fn completion_items_for_static_keywords() -> (items: Vec<CompletionItem>)
    ensures
        items@.len() == 2,
        items@[0].label@ == "dep"@,
        items@[1].label@ == "pub"@,
        forall|k: int| 0 <= k < 2 ==> (#[trigger] items@[k]).kind == Some(CompletionItemKind::Keyword),
        items@[0].insert_text_format == Some(InsertTextFormat::Snippet),
{
    let mut items: Vec<CompletionItem> = Vec::new();
    items.push(
        CompletionItem {
            label: "dep".to_owned(),
            kind: Some(CompletionItemKind::Keyword),
            detail: None,
            documentation: Some(
                "**dep**\nThe `dep` keyword is used to declare a dependency.\nExample: \n```rust\nICON_ADD = dep(\"crate://self/resources/icon_add.svg\")\n```".to_owned(),
            ),
            insert_text: Some("dep(\"$1\")".to_owned()),
            insert_text_format: Some(InsertTextFormat::Snippet),
        },
    );
    items.push(
        CompletionItem {
            label: "pub".to_owned(),
            kind: Some(CompletionItemKind::Keyword),
            detail: None,
            documentation: Some(
                "# pub\nThe `pub` keyword is used to export the widget.\nExample: \n```rust\npub Widget = {{Widget}} {}\n```".to_owned(),
            ),
            insert_text: None,
            insert_text_format: None,
        },
    );
    items
}

/// The labels of a list of proposals.
pub open spec fn labels(items: Seq<CompletionItem>) -> Seq<Seq<char>> {
    items.map_values(|item: CompletionItem| item.label@)
}

/// The labels proposed for a start of a keyword that is given in lower
/// case, in rising order and each once: those of `pub` and `dep` where the
/// start occurs in one of the two, then those of `use` where it occurs in
/// `use`.
pub open spec fn labels_for(lower: Seq<char>) -> Seq<Seq<char>> {
    (if occurs_in("pub"@, lower) || occurs_in("dep"@, lower) {
        seq!["dep"@, "pub"@]
    } else {
        Seq::empty()
    }) + (if occurs_in("use"@, lower) {
        seq!["use"@, "use crate"@]
    } else {
        Seq::empty()
    })
}

/// The labels proposed for the start `partial` of a keyword: those for its
/// lower-case form.
pub open spec fn proposed_labels(partial: Seq<char>) -> Seq<Seq<char>> {
    labels_for(lowercase_of(partial))
}

/// The proposals for a start of a keyword that is given in lower case:
/// those of the keywords it occurs in, ordered by label and each label
/// once.
pub fn keywords_matching(lower: &str) -> (items: Vec<CompletionItem>)
    ensures
        labels(items@) == labels_for(lower@),
{
    let mut items: Vec<CompletionItem> = Vec::new();
    if contains_text("pub", lower) || contains_text("dep", lower) {
        let mut found = completion_items_for_static_keywords();
        assert(labels(found@) =~= seq!["dep"@, "pub"@]);
        items.append(&mut found);
    }
    let ghost first = items@;
    if contains_text("use", lower) {
        let mut found = completion_items_for_use_keyword();
        assert(labels(found@) =~= seq!["use"@, "use crate"@]);
        items.append(&mut found);
        assert(labels(items@) =~= labels(first) + seq!["use"@, "use crate"@]);
    }
    assert(labels(items@) =~= labels_for(lower@));
    items
}

/// The proposals for a token: for the start of a keyword those that match
/// its lower-case form; none for no token.
pub fn match_keyword_from(token: Token) -> (items: Vec<CompletionItem>)
    ensures
        match token {
            Token::Keyword(partial) => labels(items@) == proposed_labels(partial@),
            Token::Nothing => items@.len() == 0,
        },
{
    match token {
        Token::Keyword(partial) => {
            let lower = to_lowercase(partial.as_str());
            keywords_matching(lower.as_str())
        },
        Token::Nothing => Vec::new(),
    }
}

} // verus!
