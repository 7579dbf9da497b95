//! Credential references: a 1Password reference (`op://...`) is read with
//! the 1Password CLI, anything else is the credential itself.

use vstd::prelude::*;
use vstd::string::StringSliceAdditionalSpecFns;
use crate::text::{append_str, starts_with, starts_with_bytes, trim, trim_chars};

verus! {

/// The keychain service under which credentials are stored.
pub const KEYRING_SERVICE: &'static str = "djdrop";

/// The reference names a 1Password secret.
pub fn is_op_ref(s: &str) -> (r: bool)
    ensures
        r == starts_with(s.spec_bytes(), "op://".spec_bytes()),
{
    starts_with_bytes(s.as_bytes(), "op://".as_bytes())
}

/// A reference that is no 1Password reference is the credential itself.
pub fn resolve_direct(s: &str) -> (r: String)
    ensures
        r@ == s@,
{
    s.to_owned()
}

/// How a credential is obtained from its reference.
#[derive(Debug, PartialEq)]
pub enum CredentialLookup {
    /// Read this reference with `op read`.
    OnePassword(String),
    /// The credential is this text.
    Literal(String),
}

/// How the credential behind `reference` is obtained: 1Password references
/// are read with the CLI, any other text (an empty one too) is used as it is.
pub fn credential_lookup(reference: &str) -> (r: CredentialLookup)
    ensures
        starts_with(reference.spec_bytes(), "op://".spec_bytes()) ==> (r matches CredentialLookup::OnePassword(x) && x@ == reference@),
        !starts_with(reference.spec_bytes(), "op://".spec_bytes()) ==> (r matches CredentialLookup::Literal(x) && x@ == reference@),
{
    if is_op_ref(reference) {
        CredentialLookup::OnePassword(reference.to_owned())
    } else {
        CredentialLookup::Literal(resolve_direct(reference))
    }
}

/// What `op read` yields: its output without surrounding whitespace on
/// success, else an error that quotes its error output.
pub fn op_read_result(success: bool, stdout: &str, stderr: &str) -> (r: Result<String, String>)
    ensures
        success ==> (r matches Ok(v) && v@ == trim_chars(stdout@)),
        !success ==> (r matches Err(m) && m@ == "op read failed: "@ + trim_chars(stderr@)),
{
    if !success {
        let mut m = "op read failed: ".to_owned();
        append_str(&mut m, trim(stderr));
        return Err(m);
    }
    Ok(trim(stdout).to_owned())
}

/// The keychain account of a pool's credential field (`<pool>:<field>`).
pub fn keychain_account(pool: &str, field: &str) -> (r: String)
    ensures
        r@ == pool@ + ":"@ + field@,
{
    let mut a = pool.to_owned();
    append_str(&mut a, ":");
    append_str(&mut a, field);
    a
}

} // verus!
