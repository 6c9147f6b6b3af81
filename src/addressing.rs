//! State addresses: a six-character family namespace, a two-character kind
//! prefix and the first 62 characters of the hex SHA-512 digest of the
//! identifier, 70 characters in all.
use vstd::prelude::*;
use vstd::string::*;
use sha2::Digest;

verus! {

pub const FAMILY_NAME: &'static str = "cert_registry";

pub const FAMILY_VERSION: &'static str = "0.1";

pub const AGENT_PREFIX: &'static str = "00";

pub const CERTIFICATE_PREFIX: &'static str = "01";

pub const ORGANIZATION_PREFIX: &'static str = "02";

pub const STANDARD_PREFIX: &'static str = "03";

pub const REQUEST_PREFIX: &'static str = "04";

/// The lowercase hex SHA-512 digest of the UTF-8 bytes of a string.
pub uninterp spec fn sha512_hex_of(s: Seq<char>) -> Seq<char>;

/// Relies on `sha2::Sha512::digest` (a 64-byte digest that depends on the
/// input bytes alone) and on generic_array's `LowerHex` for the digest, which
/// writes two lowercase hex digits per byte: 128 characters.
#[verifier::external_body]
fn sha512_hex(s: &str) -> (r: String)
    ensures
        r@ == sha512_hex_of(s@),
        r@.len() == 128,
{
    format!("{:x}", sha2::Sha512::digest(s.as_bytes()))
}

/// The namespace that every address of this family starts with.
pub open spec fn namespace_of() -> Seq<char> {
    sha512_hex_of(FAMILY_NAME@).subrange(0, 6)
}

/// The address of the record with identifier `id` under the kind prefix `kind`.
pub open spec fn address_of(kind: Seq<char>, id: Seq<char>) -> Seq<char> {
    namespace_of() + kind + sha512_hex_of(id).subrange(0, 62)
}

pub fn get_family_namespace_prefix() -> (r: String)
    ensures
        r@ == namespace_of(),
{
    let h = sha512_hex(FAMILY_NAME);
    h.as_str().substring_char(0, 6).to_string()
}

/// Lays out an address from the digest of the family name, a kind prefix
/// and the digest of the identifier.
pub fn address_from_digests(family_digest: &str, kind: &str, id_digest: &str) -> (r: String)
    requires
        family_digest@.len() >= 6,
        id_digest@.len() >= 62,
    ensures
        r@ == family_digest@.subrange(0, 6) + kind@ + id_digest@.subrange(0, 62),
{
    let mut address = family_digest.substring_char(0, 6).to_string();
    address.append(kind);
    address.append(id_digest.substring_char(0, 62));
    address
}

/// Builds the address of `id` under a kind prefix.
pub fn make_address(kind: &str, id: &str) -> (r: String)
    ensures
        r@ == address_of(kind@, id@),
{
    let family = sha512_hex(FAMILY_NAME);
    let h = sha512_hex(id);
    address_from_digests(family.as_str(), kind, h.as_str())
}

pub fn make_agent_address(public_key: &str) -> (r: String)
    ensures
        r@ == address_of(AGENT_PREFIX@, public_key@),
{
    make_address(AGENT_PREFIX, public_key)
}

pub fn make_certificate_address(id: &str) -> (r: String)
    ensures
        r@ == address_of(CERTIFICATE_PREFIX@, id@),
{
    make_address(CERTIFICATE_PREFIX, id)
}

pub fn make_organization_address(id: &str) -> (r: String)
    ensures
        r@ == address_of(ORGANIZATION_PREFIX@, id@),
{
    make_address(ORGANIZATION_PREFIX, id)
}

pub fn make_standard_address(id: &str) -> (r: String)
    ensures
        r@ == address_of(STANDARD_PREFIX@, id@),
{
    make_address(STANDARD_PREFIX, id)
}

pub fn make_request_address(id: &str) -> (r: String)
    ensures
        r@ == address_of(REQUEST_PREFIX@, id@),
{
    make_address(REQUEST_PREFIX, id)
}

} // verus!
