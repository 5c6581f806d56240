//! Errors as callers see them, and the checks that produce them.
use crate::models::AppError;
use vstd::prelude::*;

verus! {

/// The text that `str::trim` leaves of `s`.
pub uninterp spec fn trimmed(s: Seq<char>) -> Seq<char>;

/// Relies on `str::trim`: the text without its leading and trailing whitespace.
#[verifier::external_body]
fn trim_text(s: &str) -> (r: &str)
    ensures
        r@ == trimmed(s@),
        s@.len() == 0 ==> r@.len() == 0,
{
    s.trim()
}

/// An error with the given code and message and no details.
pub fn make_error(code: &str, message: &str) -> (r: AppError)
    ensures
        r.code@ == code@,
        r.message@ == message@,
        r.details is None,
{
    AppError { code: code.to_owned(), message: message.to_owned(), details: None }
}

/// A title must hold something besides whitespace.
pub fn validate_title(title: &str) -> (r: Result<(), AppError>)
    ensures
        r is Err <==> trimmed(title@).len() == 0,
        r matches Err(e) ==> e.code@ == "VALIDATION_ERROR"@ && e.details is None,
{
    if trim_text(title).is_empty() {
        return Err(make_error("VALIDATION_ERROR", "Title must not be empty or whitespace-only"));
    }
    Ok(())
}

} // verus!
