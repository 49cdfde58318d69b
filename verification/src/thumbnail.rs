//! Thumbnail presentation: turns raw image bytes into the data URL the
//! interface shows. Reading the image file is the caller's business.
use vstd::prelude::*;
use vstd::string::*;
use base64::Engine;

verus! {

/// What base64-encoding a byte stream yields under the standard padded
/// alphabet, a function of the bytes alone.
pub uninterp spec fn base64_of(bytes: Seq<u8>) -> Seq<char>;

/// Relies on base64's Engine::encode with the general_purpose::STANDARD
/// engine: standard-alphabet, padded base64 of the bytes. The encoding
/// depends on the bytes alone, and the documented output length is four
/// characters per started three-byte group.
#[verifier::external_body]
fn base64_encode(bytes: &Vec<u8>) -> (r: String)
    ensures
        r@ == base64_of(bytes@),
        r@.len() == 4 * ((bytes@.len() + 2) / 3),
{
    base64::engine::general_purpose::STANDARD.encode(bytes.as_slice())
}

/// The data URL for a JPEG thumbnail: the fixed prefix followed by the
/// image bytes in base64.
pub fn thumbnail_data_url(image: &Vec<u8>) -> (r: String)
    ensures
        r@ == "data:image/jpeg;base64,"@ + base64_of(image@),
        r@.len() == "data:image/jpeg;base64,"@.len() + 4 * ((image@.len() + 2) / 3),
{
    let mut s = String::from_str("data:image/jpeg;base64,");
    let encoded = base64_encode(image);
    s.append(encoded.as_str());
    s
}

} // verus!
