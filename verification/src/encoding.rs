//! Base64 (RFC 4648 section 4, with padding) and `data:` URLs for images.
use vstd::prelude::*;
use crate::text::{joined, push_char};

verus! {

/// The Base64 alphabet: `A`-`Z`, `a`-`z`, `0`-`9`, `+`, `/`.
pub open spec fn b64_char(x: int) -> char {
    if x < 26 {
        (x + 'A' as int) as char
    } else if x < 52 {
        (x - 26 + 'a' as int) as char
    } else if x < 62 {
        (x - 52 + '0' as int) as char
    } else if x == 62 {
        '+'
    } else {
        '/'
    }
}

/// Base64 of `b`: every three bytes become four characters, and a final
/// group of one or two bytes is padded with `=` to four characters.
pub open spec fn base64_spec(b: Seq<u8>) -> Seq<char>
    decreases b.len(),
{
    let x0 = if b.len() > 0 {
        b[0] as int
    } else {
        0
    };
    let x1 = if b.len() > 1 {
        b[1] as int
    } else {
        0
    };
    let x2 = if b.len() > 2 {
        b[2] as int
    } else {
        0
    };
    if b.len() == 0 {
        Seq::<char>::empty()
    } else if b.len() == 1 {
        seq![b64_char(x0 / 4), b64_char((x0 % 4) * 16), '=', '=']
    } else if b.len() == 2 {
        seq![b64_char(x0 / 4), b64_char((x0 % 4) * 16 + x1 / 16), b64_char((x1 % 16) * 4), '=']
    } else {
        seq![
            b64_char(x0 / 4),
            b64_char((x0 % 4) * 16 + x1 / 16),
            b64_char((x1 % 16) * 4 + x2 / 64),
            b64_char(x2 % 64),
        ] + base64_spec(b.skip(3))
    }
}

/// Base64 writes four characters for every started group of three bytes.
pub proof fn law_base64_len(b: Seq<u8>)
    ensures
        base64_spec(b).len() == 4 * ((b.len() + 2) / 3),
    decreases b.len(),
{
    if b.len() >= 3 {
        law_base64_len(b.skip(3));
    }
}

/// The Base64 character of the six-bit value `x`.
fn b64_char_exec(x: u8) -> (c: char)
    requires
        x < 64,
    ensures
        c == b64_char(x as int),
{
    if x < 26 {
        (x + 65u8) as char
    } else if x < 52 {
        (x - 26u8 + 97u8) as char
    } else if x < 62 {
        (x - 52u8 + 48u8) as char
    } else if x == 62 {
        '+'
    } else {
        '/'
    }
}

/// Encodes `bytes` in Base64 with padding.
pub fn base64_encode(bytes: &[u8]) -> (res: String)
    ensures
        res@ == base64_spec(bytes@),
{
    let n = bytes.len();
    let mut out = String::new();
    let mut i: usize = 0;
    assert(bytes@.skip(0) =~= bytes@);
    while n - i >= 3
        invariant
            n == bytes@.len(),
            i <= n,
            out@ + base64_spec(bytes@.skip(i as int)) == base64_spec(bytes@),
        decreases n - i,
    {
        let ghost rest = bytes@.skip(i as int);
        let b0 = bytes[i];
        let b1 = bytes[i + 1];
        let b2 = bytes[i + 2];
        assert(rest[0] == b0 && rest[1] == b1 && rest[2] == b2);
        assert(rest.skip(3) =~= bytes@.skip(i + 3));
        let ghost old_out = out@;
        push_char(&mut out, b64_char_exec(b0 / 4));
        push_char(&mut out, b64_char_exec((b0 % 4) * 16 + b1 / 16));
        push_char(&mut out, b64_char_exec((b1 % 16) * 4 + b2 / 64));
        push_char(&mut out, b64_char_exec(b2 % 64));
        assert(out@ + base64_spec(bytes@.skip(i + 3)) =~= old_out + base64_spec(rest));
        i = i + 3;
    }
    let ghost rest = bytes@.skip(i as int);
    let left = n - i;
    if left == 1 {
        let b0 = bytes[i];
        assert(rest[0] == b0);
        push_char(&mut out, b64_char_exec(b0 / 4));
        push_char(&mut out, b64_char_exec((b0 % 4) * 16));
        push_char(&mut out, '=');
        push_char(&mut out, '=');
    } else if left == 2 {
        let b0 = bytes[i];
        let b1 = bytes[i + 1];
        assert(rest[0] == b0 && rest[1] == b1);
        push_char(&mut out, b64_char_exec(b0 / 4));
        push_char(&mut out, b64_char_exec((b0 % 4) * 16 + b1 / 16));
        push_char(&mut out, b64_char_exec((b1 % 16) * 4));
        push_char(&mut out, '=');
    }
    assert(out@ =~= base64_spec(bytes@));
    out
}

/// `data:<mime>;base64,<Base64 of bytes>`.
pub open spec fn data_url_spec(mime: Seq<char>, bytes: Seq<u8>) -> Seq<char> {
    "data:"@ + mime + ";base64,"@ + base64_spec(bytes)
}

/// A `data:` URL that embeds `bytes` with media type `mime`.
pub fn data_url(mime: &str, bytes: &[u8]) -> (res: String)
    ensures
        res@ == data_url_spec(mime@, bytes@),
{
    let a = joined("data:", mime);
    let b = joined(a.as_str(), ";base64,");
    let c = base64_encode(bytes);
    joined(b.as_str(), c.as_str())
}

/// The application icon as a `data:` URL: a PNG on macOS, an ICO elsewhere.
pub fn icon_data_url(icon: &[u8], is_macos: bool) -> (res: String)
    ensures
        is_macos ==> res@ == data_url_spec("image/png"@, icon@),
        !is_macos ==> res@ == data_url_spec("image/x-icon"@, icon@),
{
    if is_macos {
        data_url("image/png", icon)
    } else {
        data_url("image/x-icon", icon)
    }
}

/// Error-correction level of a QR code.
#[derive(PartialEq, Eq, Structural, Clone, Copy, Debug)]
pub enum QrLevel {
    Low,
    Medium,
    Quartile,
    High,
}

/// The PNG image that `qrcode_generator` draws for `data` at level `level`,
/// `size` pixels wide and high; `None` when it reports an error.
pub uninterp spec fn qr_png(data: Seq<char>, level: QrLevel, size: usize) -> Option<Seq<u8>>;

/// `qrcode_generator::to_png_to_vec`: encodes `data` as a QR code and draws
/// it as a grayscale PNG of `size` x `size` pixels.
/// Trusted: the result depends on these three arguments alone (the crate
/// encodes, renders and compresses deterministically); its bytes are not
/// restated. `size` is kept small because the crate allocates `size * size`
/// bytes for the image.
#[verifier::external_body]
fn qr_png_image(data: &str, level: QrLevel, size: usize) -> (res: Option<Vec<u8>>)
    requires
        size <= 4096,
    ensures
        match res {
            Some(v) => qr_png(data@, level, size) == Some(v@),
            None => qr_png(data@, level, size) is None,
        },
{
    let ecc = match level {
        QrLevel::Low => qrcode_generator::QrCodeEcc::Low,
        QrLevel::Medium => qrcode_generator::QrCodeEcc::Medium,
        QrLevel::Quartile => qrcode_generator::QrCodeEcc::Quartile,
        QrLevel::High => qrcode_generator::QrCodeEcc::High,
    };
    qrcode_generator::to_png_to_vec(data, ecc, size).ok()
}

/// The bytes of the two-factor QR image for `data` (empty when drawing failed).
pub open spec fn two_factor_png(data: Seq<char>) -> Seq<u8> {
    match qr_png(data, QrLevel::Low, 200) {
        Some(b) => b,
        None => Seq::<u8>::empty(),
    }
}

/// The QR code of the two-factor setup text `data` as a PNG `data:` URL,
/// 200 pixels wide at the lowest error-correction level; an empty image
/// when the text does not fit a QR code.
pub fn two_factor_image_src(data: &str) -> (res: String)
    ensures
        res@ == data_url_spec("image/png"@, two_factor_png(data@)),
{
    let png = match qr_png_image(data, QrLevel::Low, 200) {
        Some(v) => v,
        None => Vec::new(),
    };
    data_url("image/png", png.as_slice())
}

} // verus!
