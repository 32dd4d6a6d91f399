//! A syntax check for simple assignments: `name = operand` or
//! `name = operand op operand`, where an operand is a name or a number.
use vstd::prelude::*;
use crate::text::{chars_of, string_of_range, trim, trim_chars};
use crate::pattern::{regex_is_match, is_match};

verus! {

/// The pattern of a valid assignment.
pub open spec fn assignment_pattern() -> Seq<char> {
    r"^[a-zA-Z_]\w*\s*=\s*([a-zA-Z_]\w*|\d+)(\s*[+\-*/]\s*([a-zA-Z_]\w*|\d+))?$"@
}

/// Checks `statement`: gives whether the trimmed statement is a valid
/// assignment, and the trimmed statement.
pub fn syntax_analyzer(statement: &str) -> (r: (bool, String))
    ensures
        r.1@ == trim(statement@),
        r.0 == regex_is_match(assignment_pattern(), trim(statement@)),
{
    let cs = chars_of(statement);
    let t = trim_chars(&cs);
    let trimmed = string_of_range(&t, 0, t.len());
    assert(t@.subrange(0, t@.len() as int) =~= t@);
    let valid = is_match(r"^[a-zA-Z_]\w*\s*=\s*([a-zA-Z_]\w*|\d+)(\s*[+\-*/]\s*([a-zA-Z_]\w*|\d+))?$", trimmed.as_str());
    (valid, trimmed)
}

} // verus!
