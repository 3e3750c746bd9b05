//! Context tags (`#xhome`): extraction in order of appearance and removal.

use vstd::prelude::*;
use crate::token::{has_token, find_tokens, strip_kind, strip_text, tokens_from, views, TokenKind};
use crate::text::chars_of;

verus! {

/// A context tag such as `#xhome`.
pub struct TaskContext(pub String);

impl TaskContext {
    /// Every context token of `task`, left to right, repeats kept.
    pub fn extract_contexts(task: &str) -> (r: Vec<String>)
        ensures
            views(r@) == tokens_from(task@, 0, TokenKind::Context),
    {
        let s = chars_of(task);
        find_tokens(&s, TokenKind::Context)
    }

    /// `task` without any context token (removed until none is left),
    /// whitespace runs collapsed.
    pub fn remove_context_string(task: &str) -> (r: String)
        ensures
            r@ == strip_kind(task@, TokenKind::Context),
            !has_token(r@, TokenKind::Context),
    {
        strip_text(task, TokenKind::Context)
    }
}

} // verus!
