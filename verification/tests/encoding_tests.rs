use hoptodesk::encoding::{base64_encode, data_url, icon_data_url, two_factor_image_src};

#[test]
fn base64_matches_rfc4648_vectors() {
    assert_eq!(base64_encode(b""), "");
    assert_eq!(base64_encode(b"f"), "Zg==");
    assert_eq!(base64_encode(b"fo"), "Zm8=");
    assert_eq!(base64_encode(b"foo"), "Zm9v");
    assert_eq!(base64_encode(b"foob"), "Zm9vYg==");
    assert_eq!(base64_encode(b"fooba"), "Zm9vYmE=");
    assert_eq!(base64_encode(b"foobar"), "Zm9vYmFy");
    assert_eq!(base64_encode(&[0xfb, 0xff, 0xbf]), "+/+/");
}

#[test]
fn base64_length_is_four_per_started_group() {
    for n in 0..20usize {
        let bytes = vec![7u8; n];
        assert_eq!(base64_encode(&bytes).len(), 4 * ((n + 2) / 3));
    }
}

#[test]
fn data_urls() {
    assert_eq!(data_url("image/png", b"foo"), "data:image/png;base64,Zm9v");
    assert_eq!(icon_data_url(b"fo", true), "data:image/png;base64,Zm8=");
    assert_eq!(icon_data_url(b"fo", false), "data:image/x-icon;base64,Zm8=");
}

#[test]
fn two_factor_setup_is_a_png_qr_code() {
    let src = two_factor_image_src("otpauth://totp/HopToDesk:me?secret=JBSWY3DPEHPK3PXP");
    // the PNG signature 89 50 4E 47 0D 0A 1A 0A encodes as "iVBORw0KGgo"
    assert!(src.starts_with("data:image/png;base64,iVBORw0KGgo"), "{}", &src[..40]);
    assert!(src.len() > "data:image/png;base64,".len() + 100);
}
