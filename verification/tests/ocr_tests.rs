use hoptodesk::ocr::{
    async_step, check_buffer_capacity, check_engine, check_hresult, check_interface,
    check_ocr_supported, factory_error, rgba_to_premul_bgra, ro_init_result, AsyncStep, RoInitState,
};

#[test]
fn pixels_become_premultiplied_bgra() {
    let out = rgba_to_premul_bgra(&[10, 20, 30, 255, 100, 50, 200, 128, 9, 9, 9, 0]);
    assert_eq!(out, vec![30, 20, 10, 255, 100, 25, 50, 128, 0, 0, 0, 0]);
    assert!(rgba_to_premul_bgra(&[]).is_empty());
}

#[test]
fn premultiplied_channels_never_exceed_alpha() {
    let mut rgba = Vec::new();
    for a in [0u8, 1, 77, 128, 254, 255] {
        rgba.extend_from_slice(&[255, 128, 3, a]);
    }
    let out = rgba_to_premul_bgra(&rgba);
    for px in out.chunks(4) {
        assert!(px[0] <= px[3] && px[1] <= px[3] && px[2] <= px[3]);
    }
}

#[test]
fn hresult_errors_name_the_call() {
    assert_eq!(check_hresult(0, "IOcrResult.Text"), Ok(()));
    assert_eq!(check_hresult(1, "x"), Ok(()));
    assert_eq!(
        check_hresult(0x80070005u32 as i32, "IOcrResult.Text"),
        Err("IOcrResult.Text failed: 0x80070005".to_string())
    );
    assert_eq!(
        factory_error("Windows.Media.Ocr.OcrEngine", 0x80040154u32 as i32),
        "RoGetActivationFactory(Windows.Media.Ocr.OcrEngine): 0x80040154"
    );
}

#[test]
fn ro_initialize_changed_mode_is_fine() {
    assert_eq!(ro_init_result(None), Ok(()));
    assert_eq!(ro_init_result(Some(0x80010106u32 as i32)), Ok(()));
    assert_eq!(
        ro_init_result(Some(0x80004005u32 as i32)),
        Err("RoInitialize failed: 0x80004005".to_string())
    );
}

#[test]
fn null_pointers_are_reported() {
    assert_eq!(check_interface(false, "LockBuffer"), Ok(()));
    assert_eq!(
        check_interface(true, "LockBuffer"),
        Err("LockBuffer returned null interface pointer".to_string())
    );
    assert_eq!(check_engine(false), Ok(()));
    assert_eq!(
        check_engine(true),
        Err("Failed to create OcrEngine — no supported OCR language pack is installed.".to_string())
    );
}

fn failed(s: AsyncStep) -> String {
    match s {
        AsyncStep::Failed(e) => e,
        _ => panic!("expected a failure"),
    }
}

#[test]
fn async_status_steps() {
    assert!(matches!(async_step(0, false, 0), AsyncStep::Wait));
    assert_eq!(failed(async_step(0, true, 0)), "OCR timed out after 30 s");
    assert!(matches!(async_step(1, true, 0), AsyncStep::Finished));
    assert_eq!(failed(async_step(2, false, 0)), "OCR was cancelled");
    assert_eq!(failed(async_step(3, false, 0x887A0005u32 as i32)), "OCR failed: 0x887A0005");
    assert_eq!(failed(async_step(3, false, 0)), "OCR failed: 0x00000000");
    assert_eq!(failed(async_step(7, false, 0)), "OCR unknown async status: 7");
    assert_eq!(failed(async_step(-1, false, 0)), "OCR unknown async status: -1");
}

#[test]
fn bitmap_buffer_must_hold_the_pixels() {
    assert_eq!(check_buffer_capacity(16, 16), Ok(()));
    assert_eq!(
        check_buffer_capacity(10, 16),
        Err("SoftwareBitmap buffer 10 too small for 16 pixel bytes".to_string())
    );
}

#[test]
fn windows_seven_has_no_ocr() {
    assert_eq!(check_ocr_supported(6, 1), Err("OCR requires Windows 8 or later".to_string()));
    assert_eq!(check_ocr_supported(6, 2), Ok(()));
    assert_eq!(check_ocr_supported(10, 0), Ok(()));
}

#[test]
fn winrt_is_initialised_once_per_thread() {
    let mut st = RoInitState::new();
    assert!(st.needs_init());
    assert_eq!(
        st.record(Some(0x80004005u32 as i32)),
        Err("RoInitialize failed: 0x80004005".to_string())
    );
    assert!(st.needs_init());
    assert_eq!(st.record(None), Ok(()));
    assert!(!st.needs_init());
}

#[test]
fn winrt_in_another_apartment_mode_counts_as_initialised() {
    let mut st = RoInitState::new();
    assert_eq!(st.record(Some(0x80010106u32 as i32)), Ok(()));
    assert!(!st.needs_init());
}
