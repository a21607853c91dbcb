//! The `gh` side of the library: the typed results the CLI's JSON turns into,
//! and the pure decisions over its text output.
use vstd::prelude::*;
use crate::text::{chars_of, contains, contains_exec, first_line, lower, to_lower};

pub mod issue;
pub mod project;
pub mod scope;
pub mod write;

verus! {

#[verifier::external_type_specification]
#[verifier::external_body]
pub struct ExAnyhowError(anyhow::Error);

/// What an `anyhow::Error`'s `Display` impl writes for `e` (its outermost
/// message): a function of the error value alone.
pub uninterp spec fn error_message(e: anyhow::Error) -> Seq<char>;

/// The text of an `anyhow::Error` as its `Display` impl writes it:
/// `error_message(*err)`. Nothing more is claimed about that text.
#[verifier::external_body]
fn error_text(err: &anyhow::Error) -> (r: String)
    ensures
        r@ == error_message(*err),
{
    err.to_string()
}

/// A failure message reads as GitHub refusing us for rate reasons.
pub open spec fn rate_limited(msg: Seq<char>) -> bool {
    contains(lower(msg), "rate limit"@) || contains(lower(msg), "abuse detection"@)
}

/// Whether a failure message is GitHub refusing us for rate reasons
/// (case-insensitive "rate limit" or "abuse detection").
pub fn rate_limit_message(msg: &str) -> (r: bool)
    ensures
        r == rate_limited(msg@),
{
    let low = to_lower(msg);
    let cs = chars_of(low.as_str());
    let a = chars_of("rate limit");
    let b = chars_of("abuse detection");
    contains_exec(cs.as_slice(), a.as_slice()) || contains_exec(cs.as_slice(), b.as_slice())
}

/// Whether an error from a `gh` run is GitHub refusing us for rate reasons.
/// The poller backs off instead of retrying on schedule.
pub fn is_rate_limit(err: &anyhow::Error) -> (r: bool)
    ensures
        r == rate_limited(error_message(*err)),
{
    let text = error_text(err);
    rate_limit_message(text.as_str())
}

/// An error collapsed to the first line of its message.
pub fn one_line(err: &anyhow::Error) -> (r: String)
    ensures
        r@ == crate::text::first_line_spec(error_message(*err)),
{
    let text = error_text(err);
    first_line(text.as_str())
}

} // verus!
