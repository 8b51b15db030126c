use fadewire_core::hid::{find_fader, parse_report, send_status, DeviceSummary, HidEvent};

#[test]
fn report_axes_are_signed_little_endian() {
    let mut buf = [0u8; 64];
    buf[0] = 2;
    buf[1] = 0xE4;
    buf[2] = 0x0C; // 3300
    buf[3] = 0xFF;
    buf[4] = 0xFF; // -1
    buf[5] = 0x00;
    buf[6] = 0x80; // -32768
    match parse_report(&buf, 7) {
        Some(HidEvent::Axes { axes, count }) => {
            assert_eq!(count, 3);
            assert_eq!(&axes[..3], &[3300, -1, -32768]);
            assert_eq!(&axes[3..], &[0; 5]);
        }
        other => panic!("unexpected {:?}", other),
    }
}

#[test]
fn report_axis_count_is_capped() {
    let mut buf = [1u8; 64];
    buf[0] = 2;
    match parse_report(&buf, 64) {
        Some(HidEvent::Axes { axes, count }) => {
            assert_eq!(count, 8);
            assert_eq!(axes, [257; 8]);
        }
        other => panic!("unexpected {:?}", other),
    }
    // An even length leaves the dangling byte out.
    match parse_report(&buf, 4) {
        Some(HidEvent::Axes { count, .. }) => assert_eq!(count, 1),
        other => panic!("unexpected {:?}", other),
    }
}

#[test]
fn other_reports_and_timeouts_are_ignored() {
    let mut buf = [0u8; 64];
    assert_eq!(parse_report(&buf, 0), None);
    buf[0] = 2;
    assert_eq!(parse_report(&buf, 2), None);
    buf[0] = 1;
    assert_eq!(parse_report(&buf, 17), None);
}

fn dev(usage_page: u16, usage: u16, vendor_id: u16) -> DeviceSummary {
    DeviceSummary {
        usage_page,
        usage,
        vendor_id,
    }
}

#[test]
fn device_preference_order() {
    let keyboard = dev(0x0001, 0x0006, 0x1d50);
    let other_usage = dev(0xFF00, 0x0001, 0x1234);
    let exact = dev(0xFF00, 0x0001, 0x1d50);
    let ours_page = dev(0xFF00, 0x0002, 0x1d50);
    let any_page = dev(0xFF00, 0x0003, 0x4321);
    assert_eq!(find_fader(&[keyboard, other_usage, ours_page, exact]), Some(3));
    assert_eq!(find_fader(&[keyboard, any_page, ours_page, other_usage]), Some(3));
    assert_eq!(find_fader(&[any_page, keyboard, ours_page]), Some(2));
    assert_eq!(find_fader(&[keyboard, any_page]), Some(1));
    assert_eq!(find_fader(&[keyboard]), None);
    assert_eq!(find_fader(&[]), None);
}

#[test]
fn repeated_status_is_sent_once() {
    let mut last = String::new();
    assert_eq!(
        send_status(&mut last, false, "fader device not found"),
        Some(HidEvent::Status {
            connected: false,
            message: "fader device not found".into()
        })
    );
    assert_eq!(send_status(&mut last, false, "fader device not found"), None);
    assert_eq!(last, "fader device not found");
    assert!(send_status(&mut last, true, "connected to Fader").is_some());
}
