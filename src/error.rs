use vstd::prelude::*;
use vstd::string::StringExecFns;

verus! {

/// Why a save file could not be decoded or encoded.
#[derive(Clone, Debug, PartialEq, Eq)]
pub enum SaveError {
    /// The structured payload did not parse or serialise; carries the parser's diagnostic.
    JSONError { error_string: String },
}

/// Why a run file could not be decoded or encoded.
#[derive(Clone, Debug, PartialEq, Eq)]
pub enum RunError {
    /// The structured payload did not parse or serialise; carries the parser's diagnostic.
    JSONError { error_string: String },
}

/// The text that prefixes every diagnostic of a structured-payload error.
pub open spec fn json_error_prefix() -> Seq<char> {
    seq!['J', 'S', 'O', 'N', ' ', 'e', 'r', 'r', 'o', 'r', ':', ' ']
}

fn json_error_message(error_string: &String) -> (r: String)
    ensures
        r@ == json_error_prefix() + error_string@,
{
    let prefix = String::from_str("JSON error: ");
    proof {
        reveal_strlit("JSON error: ");
        assert("JSON error: "@ =~= json_error_prefix());
    }
    prefix.concat(error_string.as_str())
}

impl SaveError {
    /// A human-readable description of the error; never empty.
    pub fn message(&self) -> (r: String)
        ensures
            match self {
                SaveError::JSONError { error_string } => r@ == json_error_prefix()
                    + error_string@,
            },
            r@.len() > 0,
    {
        match self {
            SaveError::JSONError { error_string } => json_error_message(error_string),
        }
    }
}

impl RunError {
    /// A human-readable description of the error; never empty.
    pub fn message(&self) -> (r: String)
        ensures
            match self {
                RunError::JSONError { error_string } => r@ == json_error_prefix() + error_string@,
            },
            r@.len() > 0,
    {
        match self {
            RunError::JSONError { error_string } => json_error_message(error_string),
        }
    }
}

} // verus!
