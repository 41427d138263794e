//! The stand-in vetKD service used in local tests, and the greeting
//! canister.
use vstd::prelude::*;
use vstd::utf8::encode_utf8;
use crate::hexnum::{hex_encoded, hex_encode};
use crate::text::{push_str, string_bytes};

verus! {

/// The mock public key for a key name: the bytes of
/// `mock_public_key_<name>` (`vetkd_public_key`).
pub fn vetkd_public_key(key_name: &str) -> (r: Vec<u8>)
    ensures
        r@ == encode_utf8("mock_public_key_"@ + key_name@),
{
    let mut s = String::new();
    push_str(&mut s, "mock_public_key_");
    push_str(&mut s, key_name);
    string_bytes(s.as_str())
}

/// The mock encrypted key: the bytes of
/// `mock_encrypted_key_<derivation id in hex>_<public key in hex>`
/// (`vetkd_derive_encrypted_key`).
pub fn vetkd_derive_encrypted_key(derivation_id: &[u8], encryption_public_key: &[u8]) -> (r: Vec<u8>)
    ensures
        r@ == encode_utf8(
            "mock_encrypted_key_"@ + hex_encoded(derivation_id@) + "_"@ + hex_encoded(
                encryption_public_key@,
            ),
        ),
{
    let mut s = String::new();
    push_str(&mut s, "mock_encrypted_key_");
    let a = hex_encode(derivation_id);
    push_str(&mut s, a.as_str());
    push_str(&mut s, "_");
    let b = hex_encode(encryption_public_key);
    push_str(&mut s, b.as_str());
    string_bytes(s.as_str())
}

/// A greeting: `Hello, <name>!` (`greet`).
pub fn greet(name: &str) -> (r: String)
    ensures
        r@ == "Hello, "@ + name@ + "!"@,
{
    let mut s = String::new();
    push_str(&mut s, "Hello, ");
    push_str(&mut s, name);
    push_str(&mut s, "!");
    s
}

} // verus!
