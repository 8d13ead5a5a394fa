use ws2812b_driver::command::Command;
use ws2812b_driver::serial::{dispatch, is_reset_request, FrameAction, FrameWindow, FRAME_LEN};

#[test]
fn dispatch_forwards_valid_frame() {
    let expected = Command { strip: 1, pixel: 256, rgb: (0x12, 0x34, 0x56) }.to_u32();
    assert_eq!(dispatch(b"0001010012345600\n", false), FrameAction::Forward(expected));
    assert_eq!(dispatch(b"0001010012345600\n", true), FrameAction::Forward(expected));
}

#[test]
fn dispatch_discards_invalid_frame() {
    assert_eq!(dispatch(b"0001010012345601\n", false), FrameAction::Discard);
    assert_eq!(dispatch(b"\0\0\0\0\0\0\0\0\0\0\0\0\0\0\0\0\n", true), FrameAction::Discard);
}

#[test]
fn dispatch_resets_only_when_enabled() {
    assert_eq!(dispatch(b"RESET_TO_BOOTSEL\n", true), FrameAction::ResetToBootsel);
    assert_eq!(dispatch(b"RESET_TO_BOOTSEL\n", false), FrameAction::Discard);
}

#[test]
fn reset_literal_matches_exactly() {
    assert!(is_reset_request(b"RESET_TO_BOOTSEL\n"));
    assert!(!is_reset_request(b"RESET_TO_BOOTSEl\n"));
    assert!(!is_reset_request(b"RESET_TO_BOOTSEL\nx"));
    assert!(!is_reset_request(b"RESET_TO_BOOTSEL"));
}

#[test]
fn window_completes_on_newline() {
    let mut w = FrameWindow::new();
    assert!(!w.is_complete());
    assert_eq!(w.as_slice(), &[0u8; FRAME_LEN][..]);
    for &b in b"junk0003000aff00ff00" {
        w.push(b);
        assert!(!w.is_complete());
    }
    w.push(b'\n');
    assert!(w.is_complete());
    assert_eq!(w.as_slice(), b"0003000aff00ff00\n");
    let expected = Command { strip: 3, pixel: 10, rgb: (0xff, 0, 0xff) }.to_u32();
    assert_eq!(dispatch(w.as_slice(), false), FrameAction::Forward(expected));
}

#[test]
fn short_line_is_padded_and_discarded() {
    let mut w = FrameWindow::new();
    for &b in b"01\n" {
        w.push(b);
    }
    assert!(w.is_complete());
    assert_eq!(w.as_slice().len(), FRAME_LEN);
    assert_eq!(dispatch(w.as_slice(), true), FrameAction::Discard);
}
