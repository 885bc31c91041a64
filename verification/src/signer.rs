//! Signing Release metadata through a signer that the caller provides.

use vstd::prelude::*;
use vstd::utf8::encode_utf8;

use crate::error::{invalid, outcome, Failure, Result};
use crate::text::is_blank;
use crate::text::is_blank_text;

verus! {

/// What signs Release metadata.
pub trait DebianReleaseSigner {
    /// Signs the text in the clear.
    fn sign_in_release(&self, release: &str) -> Result<String>;

    /// Makes a detached signature of the bytes.
    fn sign_release_gpg(&self, release: &[u8]) -> Result<Vec<u8>>;
}

/// Makes a clear-signed InRelease. An empty Release is never signed; any other
/// is handed to the signer as it is, and its answer handed back.
pub fn generate_in_release<S: DebianReleaseSigner + ?Sized>(signer: &S, release: &str) -> (r: Result<
    String,
>)
    ensures
        is_blank(release@) ==> outcome(r) == Err::<Seq<char>, Failure>(
            Failure::Validation("Release content must not be empty when signing InRelease"@),
        ),
        !is_blank(release@) ==> call_ensures(S::sign_in_release, (signer, release), r),
{
    if is_blank_text(release) {
        return Err(invalid("Release content must not be empty when signing InRelease"));
    }
    signer.sign_in_release(release)
}

/// Makes a detached Release.gpg. An empty Release is never signed; any other is
/// handed to the signer as its bytes, and its answer handed back.
pub fn generate_release_gpg<S: DebianReleaseSigner + ?Sized>(signer: &S, release: &str) -> (r: Result<
    Vec<u8>,
>)
    ensures
        is_blank(release@) ==> outcome(r) == Err::<Seq<u8>, Failure>(
            Failure::Validation("Release content must not be empty when signing Release.gpg"@),
        ),
        !is_blank(release@) ==> exists|bytes: &[u8]|
            bytes@ == encode_utf8(release@) && #[trigger] call_ensures(
                S::sign_release_gpg,
                (signer, bytes),
                r,
            ),
{
    if is_blank_text(release) {
        return Err(invalid("Release content must not be empty when signing Release.gpg"));
    }
    signer.sign_release_gpg(release.as_bytes())
}

} // verus!
