//! Trading-pair symbols such as `BTCUSDT`.
use vstd::prelude::*;

use crate::error::CoreError;
use crate::text::{chars_of, owned};

verus! {

/// An uppercase ASCII letter or an ASCII digit.
pub open spec fn is_symbol_char(c: char) -> bool {
    ('A' <= c && c <= 'Z') || ('0' <= c && c <= '9')
}

/// 1 to 32 characters, each an uppercase ASCII letter or digit. Nothing
/// else (no `/`, no `.`, no lowercase) can reach a path or a query.
pub open spec fn is_valid_symbol(s: Seq<char>) -> bool {
    &&& 1 <= s.len() <= 32
    &&& forall|i: int| 0 <= i < s.len() ==> is_symbol_char(#[trigger] s[i])
}

/// A validated trading-pair symbol.
#[derive(Debug)]
pub struct Symbol {
    value: String,
}

impl View for Symbol {
    type V = Seq<char>;

    closed spec fn view(&self) -> Seq<char> {
        self.value@
    }
}

/// Whether `raw` is a valid symbol.
pub fn symbol_is_valid(raw: &str) -> (r: bool)
    ensures
        r == is_valid_symbol(raw@),
{
    let chars = chars_of(raw);
    if chars.len() < 1 || chars.len() > 32 {
        return false;
    }
    for i in 0..chars.len()
        invariant
            chars@ == raw@,
            1 <= chars@.len() <= 32,
            forall|j: int| 0 <= j < i ==> is_symbol_char(#[trigger] chars@[j]),
    {
        let c = chars[i];
        if !(('A' <= c && c <= 'Z') || ('0' <= c && c <= '9')) {
            return false;
        }
    }
    true
}

impl Symbol {
    #[verifier::type_invariant]
    spec fn well_formed(self) -> bool {
        is_valid_symbol(self.value@)
    }

    /// Validates `raw`: `Ok` exactly when it is a valid symbol, holding the
    /// same characters; otherwise `InvalidSymbol` carrying `raw`.
    pub fn new(raw: &str) -> (r: Result<Symbol, CoreError>)
        ensures
            r matches Ok(s) ==> is_valid_symbol(raw@) && s@ == raw@,
            r matches Err(e) ==> !is_valid_symbol(raw@) && (e matches CoreError::InvalidSymbol(t)
                && t@ == raw@),
            r is Ok <==> is_valid_symbol(raw@),
    {
        if symbol_is_valid(raw) {
            Ok(Symbol { value: owned(raw) })
        } else {
            Err(CoreError::InvalidSymbol(owned(raw)))
        }
    }

    /// The symbol's text.
    pub fn as_str(&self) -> (r: &str)
        ensures
            r@ == self@,
            is_valid_symbol(r@),
    {
        proof {
            use_type_invariant(self);
        }
        self.value.as_str()
    }

    /// The symbol's text, as an owned string.
    pub fn to_string(&self) -> (r: String)
        ensures
            r@ == self@,
    {
        self.value.clone()
    }

    /// A copy of this symbol.
    pub fn duplicate(&self) -> (r: Symbol)
        ensures
            r@ == self@,
    {
        proof {
            use_type_invariant(self);
        }
        Symbol { value: self.value.clone() }
    }

    /// Validates an owned string, as `new` does.
    pub fn try_from(value: String) -> (r: Result<Symbol, CoreError>)
        ensures
            r matches Ok(s) ==> is_valid_symbol(value@) && s@ == value@,
            r matches Err(e) ==> !is_valid_symbol(value@) && (e matches CoreError::InvalidSymbol(t)
                && t@ == value@),
            r is Ok <==> is_valid_symbol(value@),
    {
        Symbol::new(value.as_str())
    }

    /// The symbol's text, consuming the symbol.
    pub fn into_string(self) -> (r: String)
        ensures
            r@ == self@,
    {
        self.value
    }

    /// Whether two symbols are the same.
    pub fn same_as(&self, other: &Symbol) -> (r: bool)
        ensures
            r == (self@ == other@),
    {
        self.value == other.value
    }
}

impl AsRef<str> for Symbol {
    fn as_ref(&self) -> (r: &str)
        ensures
            r@ == self@,
    {
        self.value.as_str()
    }
}

impl Clone for Symbol {
    fn clone(&self) -> (r: Symbol)
        ensures
            r@ == self@,
    {
        self.duplicate()
    }
}

} // verus!
