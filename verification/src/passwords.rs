//! Password hashing and checking, done by the `bcrypt` crate.

use vstd::prelude::*;

verus! {

/// The error type of the `bcrypt` crate.
#[verifier::external_type_specification]
#[verifier::external_body]
pub struct ExBcryptError(bcrypt::BcryptError);

/// What `bcrypt::verify(password, hash)` returns for the UTF-8 text `password`
/// and the text `hash`: `Some(b)` for `Ok(b)`, `None` for an error.
pub uninterp spec fn bcrypt_verify_outcome(password: Seq<char>, hash: Seq<char>) -> Option<bool>;

/// The characters that a bcrypt hash string is made of: `$`, the digits of its
/// cost, and the bcrypt base-64 alphabet `./A-Za-z0-9`.
pub open spec fn is_hash_char(c: char) -> bool {
    let u = c as u32;
    u == 36 || u == 46 || u == 47 || (48 <= u && u <= 57) || (65 <= u && u <= 90) || (97 <= u
        && u <= 122)
}

/// Whether `h` is a hash that `bcrypt::hash` can give for `password`: 60
/// characters of the hash alphabet, which `bcrypt::verify` accepts for `password`.
pub open spec fn is_hash_of(h: Seq<char>, password: Seq<char>) -> bool {
    &&& h.len() == 60
    &&& forall|i: int| 0 <= i < h.len() ==> is_hash_char(#[trigger] h[i])
    &&& bcrypt_verify_outcome(password, h) == Some(true)
}

/// Calls `bcrypt::hash(password, bcrypt::DEFAULT_COST)`.
///
/// The salt is drawn at random, so two calls on one password give different
/// hashes, and the call fails only where the system gives no randomness. Of a
/// hash that it returns the contract claims what the crate's source shows: it
/// is 60 characters, each `$`, a digit or one of the bcrypt base-64 alphabet,
/// and `bcrypt::verify` on the same password and that hash recomputes the hash
/// with the salt and cost it holds and returns `Ok(true)`. Which hash comes
/// out (beyond its `$2b$12$` start, which the contract does not state), and
/// when the call fails, is left unsaid.
#[verifier::external_body]
pub(crate) fn hash_password(password: &str) -> (r: Result<String, bcrypt::BcryptError>)
    ensures
        r matches Ok(h) ==> is_hash_of(h@, password@),
{
    bcrypt::hash(password, bcrypt::DEFAULT_COST)
}

/// Calls `bcrypt::verify(password, hash)`. The contract claims only that the
/// outcome is the one that `bcrypt_verify_outcome` names for the two texts:
/// the call reads the salt and cost out of `hash` and recomputes, so the
/// outcome depends on its two arguments alone.
#[verifier::external_body]
pub(crate) fn check_password(password: &str, hash: &str) -> (r: Result<bool, bcrypt::BcryptError>)
    ensures
        match r {
            Ok(b) => bcrypt_verify_outcome(password@, hash@) == Some(b),
            Err(_) => bcrypt_verify_outcome(password@, hash@) is None,
        },
{
    bcrypt::verify(password, hash)
}

} // verus!
