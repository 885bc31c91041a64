//! The current time, as the metadata formats write it.

use vstd::prelude::*;

use crate::text::trim;

verus! {

/// The text is one line without white space at either end.
pub open spec fn is_plain_line(s: Seq<char>) -> bool {
    s.len() > 0 && trim(s) == s && !s.contains('\n') && !s.contains('\r')
}

/// `chrono::Utc::now` written by `chrono::DateTime::to_rfc2822`, such as
/// `Tue, 1 Jul 2003 10:52:37 +0000`. Which date it is depends on the clock of
/// the machine; whatever it is, the text is one line. A clock that shows a year
/// beyond 9999 makes chrono panic.
#[verifier::external_body]
pub(crate) fn rfc2822_now() -> (r: String)
    ensures
        is_plain_line(r@),
{
    chrono::Utc::now().to_rfc2822()
}

/// The layout in which a generated Release writes its date.
pub open spec fn release_date_layout() -> Seq<char> {
    "%a, %d %b %Y %H:%M:%S UTC"@
}

/// `chrono::Utc::now` written by `chrono::DateTime::format` in the layout of a
/// Release, such as `Tue, 01 Jul 2003 10:52:37 UTC`. Which date it is depends on
/// the clock of the machine; whatever it is, the text is one line. A layout with
/// an unknown field would make chrono panic, so no other is handed in.
#[verifier::external_body]
pub(crate) fn utc_now(layout: &str) -> (r: String)
    requires
        layout@ == release_date_layout(),
    ensures
        is_plain_line(r@),
{
    chrono::Utc::now().format(layout).to_string()
}

} // verus!
