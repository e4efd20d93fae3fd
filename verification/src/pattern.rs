use vstd::prelude::*;

verus! {

#[verifier::external_type_specification]
#[verifier::external_body]
pub struct ExRegexError(regex::Error);

/// What the `regex` crate answers when `pattern` is compiled and searched for in
/// `text`: `Err(())` when the pattern is refused; `Ok(None)` when it does not
/// match; otherwise, for each capture group in order (group 0 being the whole
/// leftmost-first match), the text it matched, or `None` when it took no part.
pub uninterp spec fn regex_captures(pattern: Seq<char>, text: Seq<char>) -> Result<
    Option<Seq<Option<Seq<char>>>>,
    (),
>;

/// Compiles `pattern` with `regex::Regex::new`, searches `text` with
/// `Regex::captures`, and hands out the text of every capture group
/// (`Captures::get`, `Match::as_str`). The contract claims only that the answer is
/// the same whenever the pattern and the text are: the matching itself is the
/// `regex` crate's and is not restated here.
#[verifier::external_body]
pub(crate) fn captures(pattern: &str, text: &str) -> (res: Result<
    Option<Vec<Option<String>>>,
    regex::Error,
>)
    ensures
        match res {
            Ok(found) => regex_captures(pattern@, text@) == Ok::<_, ()>(found.deep_view()),
            Err(_) => regex_captures(pattern@, text@) is Err,
        },
{
    let re = regex::Regex::new(pattern)?;
    let caps = match re.captures(text) {
        Some(caps) => caps,
        None => return Ok(None),
    };
    let mut groups = Vec::new();
    for i in 0..caps.len() {
        groups.push(caps.get(i).map(|m| m.as_str().to_string()));
    }
    Ok(Some(groups))
}

} // verus!
