//! The time-window oracle: the bindings to `totp_rs` and to the system clock
//! that the rest of the library builds on.

use vstd::prelude::*;

verus! {

/// `totp_rs::Algorithm`, whose variants are plain unit variants.
#[verifier::external_type_specification]
pub struct ExAlgorithm(totp_rs::Algorithm);

/// `totp_rs::TOTP`, whose fields are all public.
#[verifier::external_type_specification]
pub struct ExTotp(totp_rs::TOTP);

/// `totp_rs::TotpUrlError`, only carried as the error of `TOTP::new`.
#[verifier::external_type_specification]
#[verifier::external_body]
pub struct ExTotpUrlError(totp_rs::TotpUrlError);

/// The bytes that `base32::decode` (RFC 4648 alphabet, no padding) yields
/// for a text, or `None` where the text is not valid base32.
pub uninterp spec fn base32_decoded(text: Seq<char>) -> Option<Seq<u8>>;

/// The HOTP code that HMAC-SHA1 gives for a key, a number of digits and a
/// counter, written in decimal.
pub uninterp spec fn hotp_sha1_code(key: Seq<u8>, digits: nat, counter: nat) -> Seq<char>;

/// Relies on `totp_rs::Secret::to_bytes` for an encoded secret: it decodes
/// the text as unpadded RFC 4648 base32, and fails where that fails.
#[verifier::external_body]
pub(crate) fn decode_secret(text: &str) -> (r: Option<Vec<u8>>)
    ensures
        r is Some <==> base32_decoded(text@) is Some,
        r is Some ==> base32_decoded(text@) == Some(r->0@),
{
    totp_rs::Secret::Encoded(text.to_string()).to_bytes().ok()
}

/// Relies on `totp_rs::TOTP::new`: it checks that `digits` lies in `6..=8`
/// and that the key has at least 16 bytes, and then stores its arguments.
pub assume_specification[ totp_rs::TOTP::new ](
    algorithm: totp_rs::Algorithm,
    digits: usize,
    skew: u8,
    step: u64,
    secret: Vec<u8>,
) -> (r: Result<totp_rs::TOTP, totp_rs::TotpUrlError>)
    ensures
        r is Ok <==> (6 <= digits <= 8 && secret@.len() >= 16),
        r matches Ok(t) ==> (t.algorithm == algorithm && t.digits == digits && t.skew == skew
            && t.step == step && t.secret@ == secret@),
;

/// Relies on `totp_rs::TOTP::generate`: the code depends on the key, the
/// number of digits and the counter `time / step` alone, for SHA-1.
pub assume_specification[ totp_rs::TOTP::generate ](t: &totp_rs::TOTP, time: u64) -> (r: String)
    requires
        t.algorithm == totp_rs::Algorithm::SHA1,
        6 <= t.digits <= 8,
        t.step > 0,
    ensures
        r@ == hotp_sha1_code(t.secret@, t.digits as nat, (time / t.step) as nat),
        r@.len() == t.digits,
;

/// Relies on `std::time::SystemTime::elapsed`, taken from `UNIX_EPOCH`: the
/// whole seconds since the Unix epoch, or `None` for a clock set before it.
#[verifier::external_body]
pub(crate) fn unix_seconds() -> (r: Option<u64>) {
    match std::time::UNIX_EPOCH.elapsed() {
        Ok(d) => Some(d.as_secs()),
        Err(_) => None,
    }
}

} // verus!
