use vstd::prelude::*;

use crate::crypto::{base64_standard_encode, base64_standard_spec};
use crate::text::str_concat;

verus! {

/// Dense Unicode rendering (two rows per character) of the QR code of
/// `data`, or the text of the encoder's error.
pub uninterp spec fn qr_unicode_spec(data: Seq<u8>) -> Result<Seq<char>, Seq<char>>;

/// SVG document of the QR code of `data` at 240x240 or more, or the text of
/// the encoder's error.
pub uninterp spec fn qr_svg_spec(data: Seq<u8>) -> Result<Seq<char>, Seq<char>>;

/// `qrcode::QrCode::new(data)` rendered with `unicode::Dense1x2`.
#[verifier::external_body]
fn qr_unicode(data: &[u8]) -> (r: Result<String, String>)
    ensures
        match qr_unicode_spec(data@) {
            Ok(t) => r matches Ok(s) && s@ == t,
            Err(t) => r matches Err(s) && s@ == t,
        },
{
    match qrcode::QrCode::new(data) {
        Ok(code) => Ok(code.render::<qrcode::render::unicode::Dense1x2>().build()),
        Err(error) => Err(error.to_string()),
    }
}

/// `qrcode::QrCode::new(data)` rendered as SVG with minimum dimensions 240x240.
#[verifier::external_body]
fn qr_svg(data: &[u8]) -> (r: Result<String, String>)
    ensures
        match qr_svg_spec(data@) {
            Ok(t) => r matches Ok(s) && s@ == t,
            Err(t) => r matches Err(s) && s@ == t,
        },
{
    match qrcode::QrCode::new(data) {
        Ok(code) => Ok(code.render::<qrcode::render::svg::Color<'_>>().min_dimensions(240, 240).build()),
        Err(error) => Err(error.to_string()),
    }
}

/// QR payload: reference, base64 noise key, base64 identity key and adv
/// secret, separated by commas.
pub open spec fn qr_string_spec(
    reference: Seq<char>,
    noise_pub: Seq<u8>,
    identity_pub: Seq<u8>,
    adv_secret_key_b64: Seq<char>,
) -> Seq<char> {
    reference + seq![','] + base64_standard_spec(noise_pub) + seq![','] + base64_standard_spec(identity_pub) + seq![
        ',',
    ] + adv_secret_key_b64
}

/// Builds a WA QR payload string in the expected comma-separated format.
pub fn generate_qr_string(reference: &str, noise_pub: &[u8], identity_pub: &[u8], adv_secret_key_b64: &str) -> (r: String)
    ensures
        r@ == qr_string_spec(reference@, noise_pub@, identity_pub@, adv_secret_key_b64@),
{
    proof {
        reveal_strlit(",");
    }
    let noise = base64_standard_encode(noise_pub);
    let identity = base64_standard_encode(identity_pub);
    let a = str_concat(reference, ",");
    let b = str_concat(a.as_str(), noise.as_str());
    let c = str_concat(b.as_str(), ",");
    let d = str_concat(c.as_str(), identity.as_str());
    let e = str_concat(d.as_str(), ",");
    str_concat(e.as_str(), adv_secret_key_b64)
}

/// Renders a QR payload into a terminal-friendly Unicode matrix.
pub fn render_qr_for_terminal(qr_payload: &str) -> (r: Result<String, String>)
    ensures
        match qr_unicode_spec(vstd::utf8::encode_utf8(qr_payload@)) {
            Ok(t) => r matches Ok(s) && s@ == t,
            Err(t) => r matches Err(s) && s@ == t,
        },
{
    qr_unicode(qr_payload.as_bytes())
}

/// Encodes a QR payload as an SVG data URL.
pub fn render_qr_svg_data_url(qr_payload: &str) -> (r: Result<String, String>)
    ensures
        match qr_svg_spec(vstd::utf8::encode_utf8(qr_payload@)) {
            Ok(svg) => r matches Ok(s) && s@ == "data:image/svg+xml;base64,"@ + base64_standard_spec(
                vstd::utf8::encode_utf8(svg),
            ),
            Err(t) => r matches Err(s) && s@ == t,
        },
{
    let svg = qr_svg(qr_payload.as_bytes())?;
    let encoded = base64_standard_encode(svg.as_str().as_bytes());
    Ok(str_concat("data:image/svg+xml;base64,", encoded.as_str()))
}

} // verus!
