//! Values that a user may set in the environment of the process.
//!
//! The environment itself is read elsewhere. What is decided here is what a
//! lookup counts as.

use vstd::prelude::*;

verus! {

/// Why a variable of the environment has no value that can be used.
#[derive(Debug)]
pub enum VarError {
    /// The variable is not set.
    NotPresent,
    /// The variable is set to something that is no text; this is what can
    /// be shown of it.
    NotUnicode(String),
}

/// What a lookup of a variable counts as: a variable that is set to the
/// empty text counts as one that is not set.
pub open spec fn var_spec(found: Result<Seq<char>, VarError>) -> Option<Seq<char>> {
    match found {
        Ok(value) => if value.len() == 0 {
            None
        } else {
            Some(value)
        },
        Err(_) => None,
    }
}

/// What a lookup gave, with the text as what it holds.
pub open spec fn found_view(found: Result<String, VarError>) -> Result<Seq<char>, VarError> {
    match found {
        Ok(value) => Ok(value@),
        Err(e) => Err(e),
    }
}

/// Takes what a lookup of a variable gave, and counts a variable that is
/// set to the empty text as one that is not set.
pub fn var(found: Result<String, VarError>) -> (r: Result<String, VarError>)
    ensures
        match r {
            Ok(value) => var_spec(found_view(found)) == Some(value@),
            Err(e) => var_spec(found_view(found)) is None && e == match found {
                Ok(_) => VarError::NotPresent,
                Err(e) => e,
            },
        },
{
    match found {
        Ok(value) => {
            if value.as_str().is_empty() {
                Err(VarError::NotPresent)
            } else {
                Ok(value)
            }
        },
        Err(e) => Err(e),
    }
}

/// A value that is made from a variable of the environment, which the user
/// can set when the process starts.
pub trait Config: Sized {
    /// The variable of the environment that holds the value.
    fn envvar() -> &'static str;

    /// Reads a value.
    fn parse(text: &str) -> Option<Self>;

    /// The value to fall back on.
    fn default_value() -> Self;

    /// The value that the variable stands for, from what a lookup of the
    /// variable gave: what `parse` makes of the text of the variable, and
    /// what `default_value` gives where the variable is not set, is empty,
    /// is no text, or `parse` makes nothing of it.
    fn configured_value(found: Result<String, VarError>) -> (r: Self)
        ensures
            match var_spec(found_view(found)) {
                Some(text) => exists|given: &str, parsed: Option<Self>|
                    given@ == text && call_ensures(Self::parse, (given,), parsed) && match parsed {
                        Some(value) => r == value,
                        None => call_ensures(Self::default_value, (), r),
                    },
                None => call_ensures(Self::default_value, (), r),
            },
    {
        match var(found) {
            Ok(value) => match Self::parse(value.as_str()) {
                Some(parsed) => parsed,
                None => Self::default_value(),
            },
            Err(_) => Self::default_value(),
        }
    }
}

} // verus!
