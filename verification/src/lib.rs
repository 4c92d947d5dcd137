//! Parsing of the CSS gap decoration grammars `<gap-rule-list>` and
//! `<gap-auto-rule-list>` (CSS Gap Decorations, level 1), over the tokens
//! that `css_lexer` reads from a source text.
//!
//! - `token`: token kinds, cursors, spans, the lexer's limits, and the tokenizer.
//! - `keywords`: unescaping, ASCII case-insensitive keyword matching, keyword lists.
//! - `syntax`: errors, the node traits, and comma-separated lists.
//! - `components`: `<line-width>`, `<line-style>`, `<color>` and `<gap-rule>`.
//! - `gap_rule_list`: `<gap-repeat-rule>`, `<gap-rule-or-repeat>`, `<gap-rule-list>`.
//! - `gap_auto_rule_list`: `<gap-auto-repeat-rule>` and `<gap-auto-rule-list>`.
//! - `values`: the gap rule style property values.
pub mod token;
pub mod keywords;
pub mod syntax;
pub mod components;
pub mod gap_rule_list;
pub mod gap_auto_rule_list;
pub mod values;
