//! The closed set of offer conditions and the grammar of their source text.

use crate::text::{has_prefix, str_eq, starts_with, trim, trim_spec, trim_start, trim_start_spec};
use vstd::prelude::*;

verus! {

/// Condition of an offered item: new, renewed, or one of the used grades.
#[derive(Debug, Eq, PartialEq, Structural, Copy, Clone)]
pub enum Condition {
    New,
    Renewed,
    UsedLikeNew,
    UsedVeryGood,
    UsedGood,
    UsedAcceptable,
}

/// A condition string outside the six recognised forms.
#[derive(Copy, Clone, Debug)]
pub struct UnknownCondition;

/// The grammar of a condition string: after trimming, either `New`, or
/// `Used` followed by whitespace and one of the five dashed grade names.
pub open spec fn parse_condition_spec(s: Seq<char>) -> Option<Condition> {
    let t = trim_spec(s);
    if t == "New"@ {
        Some(Condition::New)
    } else if has_prefix(t, "Used"@) {
        let u = trim_start_spec(t.subrange("Used"@.len() as int, t.len() as int));
        if u == "- Renewed"@ {
            Some(Condition::Renewed)
        } else if u == "- Like New"@ {
            Some(Condition::UsedLikeNew)
        } else if u == "- Very Good"@ {
            Some(Condition::UsedVeryGood)
        } else if u == "- Good"@ {
            Some(Condition::UsedGood)
        } else if u == "- Acceptable"@ {
            Some(Condition::UsedAcceptable)
        } else {
            None
        }
    } else {
        None
    }
}

impl Condition {
    /// Parse a condition from source text, as `parse_condition_spec`
    /// describes.
    pub fn parse(s: &str) -> (r: Result<Condition, UnknownCondition>)
        ensures
            match parse_condition_spec(s@) {
                Some(c) => r matches Ok(got) && got == c,
                None => r matches Err(_),
            },
    {
        let t = trim(s);
        if str_eq(t, "New") {
            return Ok(Condition::New);
        }
        if starts_with(t, "Used") {
            proof {
                reveal_strlit("Used");
            }
            let suffix = t.substring_char(4, t.unicode_len());
            proof {
                assert(suffix@ =~= t@.subrange("Used"@.len() as int, t@.len() as int));
            }
            let u = trim_start(suffix);
            if str_eq(u, "- Renewed") {
                return Ok(Condition::Renewed);
            }
            if str_eq(u, "- Like New") {
                return Ok(Condition::UsedLikeNew);
            }
            if str_eq(u, "- Very Good") {
                return Ok(Condition::UsedVeryGood);
            }
            if str_eq(u, "- Good") {
                return Ok(Condition::UsedGood);
            }
            if str_eq(u, "- Acceptable") {
                return Ok(Condition::UsedAcceptable);
            }
            return Err(UnknownCondition);
        }
        Err(UnknownCondition)
    }
}

/// The condition grammar is total and exhaustive on the six canonical
/// strings: each one parses to its own variant, and every variant is hit.
pub proof fn lemma_condition_grammar()
    ensures
        parse_condition_spec("New"@) == Some(Condition::New),
        parse_condition_spec("Used - Renewed"@) == Some(Condition::Renewed),
        parse_condition_spec("Used - Like New"@) == Some(Condition::UsedLikeNew),
        parse_condition_spec("Used - Very Good"@) == Some(Condition::UsedVeryGood),
        parse_condition_spec("Used - Good"@) == Some(Condition::UsedGood),
        parse_condition_spec("Used - Acceptable"@) == Some(Condition::UsedAcceptable),
{
    reveal_strlit("New");
    reveal_strlit("Used");
    reveal_strlit("Used - Renewed");
    reveal_strlit("Used - Like New");
    reveal_strlit("Used - Very Good");
    reveal_strlit("Used - Good");
    reveal_strlit("Used - Acceptable");
    reveal_strlit("- Renewed");
    reveal_strlit("- Like New");
    reveal_strlit("- Very Good");
    reveal_strlit("- Good");
    reveal_strlit("- Acceptable");
    lemma_canonical_used("Used - Renewed"@, "- Renewed"@);
    lemma_canonical_used("Used - Like New"@, "- Like New"@);
    lemma_canonical_used("Used - Very Good"@, "- Very Good"@);
    lemma_canonical_used("Used - Good"@, "- Good"@);
    lemma_canonical_used("Used - Acceptable"@, "- Acceptable"@);
    assert(trim_spec("New"@) =~= "New"@);
}

/// A canonical `Used - ...` string trims to itself, starts with `Used`, and
/// its suffix after the space is the dashed grade name.
proof fn lemma_canonical_used(s: Seq<char>, grade: Seq<char>)
    requires
        s.len() >= 6,
        grade.len() >= 2,
        s =~= "Used"@ + seq![' '] + grade,
        grade[0] == '-',
        !crate::text::is_space_char(s[0]),
        !crate::text::is_space_char(s[s.len() - 1]),
        "Used"@.len() == 4,
    ensures
        trim_spec(s) == s,
        s != "New"@,
        has_prefix(s, "Used"@),
        trim_start_spec(s.subrange("Used"@.len() as int, s.len() as int)) == grade,
{
    reveal_strlit("New");
    assert(trim_start_spec(s) == s);
    assert(crate::text::trim_end_spec(s) == s);
    assert(s.subrange(0, 4) =~= "Used"@);
    let u = s.subrange(4, s.len() as int);
    assert(u =~= seq![' '] + grade);
    assert(u[0] == ' ');
    assert(crate::text::is_space_char(' '));
    assert(u.drop_first() =~= grade);
    assert('-' as int == 45);
    assert(!crate::text::is_space_char(grade[0]));
    assert(trim_start_spec(u) == trim_start_spec(grade));
    assert(trim_start_spec(grade) == grade);
}

} // verus!
