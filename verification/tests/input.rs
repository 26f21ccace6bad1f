use codexos::input::{
    drain_ps2_output, read_any_data_byte, read_auxiliary_data_byte,
    wait_until_controller_input_clear, ControllerStep,
};
use codexos::input::{DesktopInput, Ps2MouseDecoder, Ps2Set1Decoder};

#[test]
fn decodes_text_with_shift_caps_and_punctuation() {
    let mut decoder = Ps2Set1Decoder::new();
    assert!(matches!(
        decoder.feed(0x1E),
        Some(DesktopInput::Character('a'))
    ));
    assert!(decoder.feed(0x2A).is_none());
    assert!(matches!(
        decoder.feed(0x1E),
        Some(DesktopInput::Character('A'))
    ));
    assert!(decoder.feed(0xAA).is_none());
    assert!(decoder.feed(0x3A).is_none());
    assert!(matches!(
        decoder.feed(0x1E),
        Some(DesktopInput::Character('A'))
    ));
    assert!(decoder.feed(0x2A).is_none());
    assert!(matches!(
        decoder.feed(0x1E),
        Some(DesktopInput::Character('a'))
    ));
    assert!(matches!(
        decoder.feed(0x02),
        Some(DesktopInput::Character('!'))
    ));
}

#[test]
fn ignores_releases_and_decodes_extended_arrows() {
    let mut decoder = Ps2Set1Decoder::new();
    assert!(decoder.feed(0x9E).is_none());
    assert!(decoder.feed(0xE0).is_none());
    assert!(matches!(decoder.feed(0x48), Some(DesktopInput::MoveUp)));
    assert!(decoder.feed(0xE0).is_none());
    assert!(decoder.feed(0xC8).is_none());
}

#[test]
fn decodes_desktop_control_keys() {
    let mut decoder = Ps2Set1Decoder::new();
    assert!(matches!(decoder.feed(0x0F), Some(DesktopInput::CycleFocus)));
    assert!(matches!(decoder.feed(0x0E), Some(DesktopInput::Backspace)));
    assert!(matches!(decoder.feed(0x1C), Some(DesktopInput::Submit)));
    assert!(matches!(decoder.feed(0x01), Some(DesktopInput::Exit)));
}

#[test]
fn decodes_ps2_mouse_motion_buttons_and_screen_y_axis() {
    let mut decoder = Ps2MouseDecoder::new();
    assert!(decoder.feed(0x09).is_none());
    assert!(decoder.feed(5).is_none());
    let sample = decoder.feed(2).expect("mouse packet");
    assert_eq!(sample.delta_x, 5);
    assert_eq!(sample.delta_y, -2);
    assert!(sample.left_button);
    assert!(!sample.right_button);

    assert!(decoder.feed(0x3A).is_none());
    assert!(decoder.feed(0xFC).is_none());
    let sample = decoder.feed(0xFD).expect("signed mouse packet");
    assert_eq!(sample.delta_x, -4);
    assert_eq!(sample.delta_y, 3);
    assert!(!sample.left_button);
    assert!(sample.right_button);
}

#[test]
fn rejects_mouse_overflow_and_resynchronizes_on_header_bit() {
    let mut decoder = Ps2MouseDecoder::new();
    assert!(decoder.feed(0x01).is_none());
    assert!(decoder.feed(0x4B).is_none());
    assert!(decoder.feed(1).is_none());
    assert!(decoder.feed(1).is_none());

    assert!(decoder.feed(0x08).is_none());
    assert!(decoder.feed(7).is_none());
    let sample = decoder.feed(0).expect("resynchronized mouse packet");
    assert_eq!(sample.delta_x, 7);
    assert_eq!(sample.delta_y, 0);
    assert!(!sample.left_button);
    assert!(!sample.right_button);
}

#[test]
fn the_controller_is_waited_for_within_bounds() {
    assert_eq!(wait_until_controller_input_clear(0, 0), ControllerStep::Proceed);
    assert_eq!(wait_until_controller_input_clear(0, 2), ControllerStep::Again);
    assert_eq!(wait_until_controller_input_clear(100_000, 0), ControllerStep::Stop);
    assert_eq!(read_any_data_byte(0, 1), ControllerStep::Proceed);
    assert_eq!(read_any_data_byte(99_999, 0), ControllerStep::Again);
    assert_eq!(read_any_data_byte(100_000, 1), ControllerStep::Stop);
    assert_eq!(read_auxiliary_data_byte(0, 0x21), ControllerStep::Proceed);
    assert_eq!(read_auxiliary_data_byte(0, 1), ControllerStep::Discard);
    assert_eq!(read_auxiliary_data_byte(0, 0x20), ControllerStep::Again);
    assert_eq!(read_auxiliary_data_byte(100_000, 0x21), ControllerStep::Stop);
    assert_eq!(drain_ps2_output(63, 1), ControllerStep::Discard);
    assert_eq!(drain_ps2_output(64, 1), ControllerStep::Stop);
    assert_eq!(drain_ps2_output(0, 0), ControllerStep::Stop);
}
