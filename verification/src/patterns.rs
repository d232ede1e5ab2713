use vstd::prelude::*;

verus! {

#[verifier::external_type_specification]
#[verifier::external_body]
pub struct ExRegexError(::regex::Error);

/// What compiling `pattern` with `regex::Regex::new` and then walking
/// `captures_iter` over `text` gives: `None` where the pattern is refused,
/// otherwise, for each successive non-overlapping match, every group of the
/// pattern (group 0 being the whole match), `None` for a group that took no part.
pub uninterp spec fn regex_captures(pattern: Seq<char>, text: Seq<char>) -> Option<
    Seq<Seq<Option<Seq<char>>>>,
>;

/// What compiling `pattern` with `regex::Regex::new` and then calling
/// `replace_all(text, replacement)` gives: `None` where the pattern is refused.
pub uninterp spec fn regex_replaced(pattern: Seq<char>, text: Seq<char>, replacement: Seq<char>) -> Option<
    Seq<char>,
>;

/// Compiles `pattern` with `regex::Regex::new` and collects `captures_iter` over
/// `text`, each match as the list of its groups. The contract claims only that
/// the outcome is the one named by `regex_captures` for these arguments.
#[verifier::external_body]
pub(crate) fn captures_all(pattern: &str, text: &str) -> (res: Result<
    Vec<Vec<Option<String>>>,
    ::regex::Error,
>)
    ensures
        match res {
            Ok(found) => regex_captures(pattern@, text@) == Some(found.deep_view()),
            Err(_) => regex_captures(pattern@, text@) is None,
        },
{
    let re = ::regex::Regex::new(pattern)?;
    Ok(
        re.captures_iter(text).map(
            |caps| caps.iter().map(|group| group.map(|m| m.as_str().to_string())).collect(),
        ).collect(),
    )
}

/// Compiles `pattern` with `regex::Regex::new` and calls `replace_all(text,
/// replacement)`. The contract claims only that the outcome is the one named by
/// `regex_replaced` for these arguments.
#[verifier::external_body]
pub(crate) fn replace_all_matches(pattern: &str, text: &str, replacement: &str) -> (res: Result<
    String,
    ::regex::Error,
>)
    ensures
        match res {
            Ok(out) => regex_replaced(pattern@, text@, replacement@) == Some(out@),
            Err(_) => regex_replaced(pattern@, text@, replacement@) is None,
        },
{
    let re = ::regex::Regex::new(pattern)?;
    Ok(re.replace_all(text, replacement).to_string())
}

} // verus!
