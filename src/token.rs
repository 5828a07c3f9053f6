use vstd::prelude::*;

verus! {

/// A token, optionally labelled.
#[derive(Debug, Clone)]
pub struct Token {
    pub label: Option<String>,
}

impl Token {
    /// Creates a token with the given label.
    pub fn new(label: String) -> (r: Token)
        ensures
            r.label == Some(label),
    {
        Token { label: Some(label) }
    }
}

impl Default for Token {
    /// A token without a label.
    fn default() -> (r: Token)
        ensures
            r.label is None,
    {
        Token { label: None }
    }
}

} // verus!
