//! Output formats of the commands and how they are named on the command
//! line.

use vstd::prelude::*;
use vstd::string::StringExecFns;

verus! {

/// The message refusing an unknown format name.
pub open spec fn unsupported_format(s: Seq<char>) -> Seq<char> {
    "unsupported format: "@ + s + ". Only 'sexpr' and 'json' are supported"@
}

/// The same refusal under the error kind `invalid_format`, as the
/// invalidate and outline commands report it.
pub open spec fn invalid_format(s: Seq<char>) -> Seq<char> {
    "invalid_format: "@ + unsupported_format(s)
}

fn unsupported_format_message(s: &str) -> (m: String)
    ensures
        m@ == unsupported_format(s@),
{
    "unsupported format: ".to_owned().concat(s).concat(". Only 'sexpr' and 'json' are supported")
}

fn invalid_format_message(s: &str) -> (m: String)
    ensures
        m@ == invalid_format(s@),
{
    let m = "invalid_format: ".to_owned().concat(unsupported_format_message(s).as_str());
    assert(m@ =~= invalid_format(s@));
    m
}

/// Output format for compaction results.
#[derive(Clone, Copy, Debug, PartialEq, Eq, Structural)]
pub enum CompactFormat {
    Sexpr,
    Json,
}

impl CompactFormat {
    /// The format named `s`: `sexpr` or `json`.
    pub fn from_str(s: &str) -> (r: Result<Self, String>)
        ensures
            s@ == "sexpr"@ ==> r == Ok::<Self, String>(CompactFormat::Sexpr),
            s@ == "json"@ ==> r == Ok::<Self, String>(CompactFormat::Json),
            s@ != "sexpr"@ && s@ != "json"@ ==> (r matches Err(m) && m@ == unsupported_format(s@)),
    {
        proof {
            reveal_strlit("json");
            reveal_strlit("sexpr");
            assert("json"@.len() != "sexpr"@.len());
        }
        let name = s.to_owned();
        if name == "sexpr".to_owned() {
            Ok(CompactFormat::Sexpr)
        } else if name == "json".to_owned() {
            Ok(CompactFormat::Json)
        } else {
            Err(unsupported_format_message(s))
        }
    }
}

/// Output format for invalidation results.
#[derive(Clone, Copy, Debug, PartialEq, Eq, Structural)]
pub enum InvalidateFormat {
    Sexpr,
    Json,
}

impl InvalidateFormat {
    /// The format named `s`: `sexpr` or `json`.
    pub fn from_str(s: &str) -> (r: Result<Self, String>)
        ensures
            s@ == "sexpr"@ ==> r == Ok::<Self, String>(InvalidateFormat::Sexpr),
            s@ == "json"@ ==> r == Ok::<Self, String>(InvalidateFormat::Json),
            s@ != "sexpr"@ && s@ != "json"@ ==> (r matches Err(m) && m@ == invalid_format(s@)),
    {
        proof {
            reveal_strlit("json");
            reveal_strlit("sexpr");
            assert("json"@.len() != "sexpr"@.len());
        }
        let name = s.to_owned();
        if name == "sexpr".to_owned() {
            Ok(InvalidateFormat::Sexpr)
        } else if name == "json".to_owned() {
            Ok(InvalidateFormat::Json)
        } else {
            Err(invalid_format_message(s))
        }
    }
}

/// Output format for outline results.
#[derive(Clone, Copy, Debug, PartialEq, Eq, Structural)]
pub enum OutlineFormat {
    Sexpr,
    Json,
}

impl OutlineFormat {
    /// The format named `s`: `sexpr` or `json`.
    pub fn from_str(s: &str) -> (r: Result<Self, String>)
        ensures
            s@ == "sexpr"@ ==> r == Ok::<Self, String>(OutlineFormat::Sexpr),
            s@ == "json"@ ==> r == Ok::<Self, String>(OutlineFormat::Json),
            s@ != "sexpr"@ && s@ != "json"@ ==> (r matches Err(m) && m@ == invalid_format(s@)),
    {
        proof {
            reveal_strlit("json");
            reveal_strlit("sexpr");
            assert("json"@.len() != "sexpr"@.len());
        }
        let name = s.to_owned();
        if name == "sexpr".to_owned() {
            Ok(OutlineFormat::Sexpr)
        } else if name == "json".to_owned() {
            Ok(OutlineFormat::Json)
        } else {
            Err(invalid_format_message(s))
        }
    }
}

/// Output format for orientation blocks.
#[derive(Clone, Copy, Debug, PartialEq, Eq, Structural)]
pub enum OrientationFormat {
    Sexpr,
    Json,
}

} // verus!
