//! Quoting helper used when embedding arbitrary text in an error message.

use vstd::prelude::*;

verus! {

/// What uniquote's `Quote` impl for `str` renders: the string between double
/// quotes, with unprintable characters escaped. The result depends on the
/// characters alone.
pub uninterp spec fn quoted_of(s: Seq<char>) -> Seq<char>;

/// Relies on uniquote's `Quote` impl for `str`: quoting never fails, and the
/// rendered text is a function of the input characters alone.
#[verifier::external_body]
pub fn quote(string: &str) -> (r: String)
    ensures
        r@ == quoted_of(string@),
{
    format!("{}", uniquote::Quote::quote(string))
}

/// Every action line must end with the continuation suffix `; \`.
pub open spec fn has_cont_suffix(s: Seq<char>) -> bool {
    crate::strutil::is_suffix(s, "; \\"@)
}

/// The line without the continuation suffix, or nothing when the suffix is
/// absent.
pub fn strip_cont_suffix<'a>(s: &'a str) -> (r: Option<&'a str>)
    ensures
        (r is Some) == has_cont_suffix(s@),
        r matches Some(t) ==> t@ == s@.take(s@.len() - 3),
{
    proof {
        reveal_strlit("; \\");
    }
    if crate::strutil::ends_with(s, "; \\") {
        let t = s.substring_char(0, s.unicode_len() - 3);
        proof {
            assert(t@ =~= s@.take(s@.len() - 3));
        }
        Some(t)
    } else {
        None
    }
}

} // verus!
