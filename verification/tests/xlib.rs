use x11_input_supercharger::x::xlib::{
    CookieKind, Device, Event, XLib, GenericEvent, XI_DeviceChanged, XI_Enter,
    XI_KeyPress, XI_PropertyEvent, XI_RawKeyPress, XI_RawMotion, XI_RawTouchEnd,
};

fn xlib() -> XLib {
    XLib::new(
        vec![
            Device { id: 2, name: "Virtual core pointer".to_string() },
            Device { id: 9, name: "Wacom Bamboo Pen stylus".to_string() },
            Device { id: 10, name: "Wacom Bamboo Pen eraser".to_string() },
            Device { id: 12, name: "Wacom Bamboo Pen stylus".to_string() },
            Device { id: 13, name: "Żółw".to_string() },
        ],
        131,
    )
}

#[test]
fn device_ids() {
    let x = xlib();
    assert_eq!(x.get_device_id("Wacom Bamboo Pen stylus", 0), Some(9));
    assert_eq!(x.get_device_id("Wacom Bamboo Pen stylus", 1), Some(12));
    assert_eq!(x.get_device_id("Wacom Bamboo Pen stylus", 2), None);
    assert_eq!(x.get_device_id("Wacom Bamboo Pen eraser", 0), Some(10));
    assert_eq!(x.get_device_id("Wacom Bamboo Pen", 0), None);
    assert_eq!(x.get_device_id("Żółw", 0), Some(13));
    assert_eq!(x.get_device_id("", 0), None);
}

#[test]
fn list_devices_in_order() {
    let x = xlib();
    let ids: Vec<u32> = x.list_devices().iter().map(|d| d.id).collect();
    assert_eq!(ids, vec![2, 9, 10, 12, 13]);
}

#[test]
fn finish_builds_the_mask() {
    let mut x = xlib();
    x.grab(&[13, 14, 15, 16, 17]);
    x.grab(&[13]);
    let locked = x.finish();
    assert_eq!(locked.mask(), &[0u8, 0xe0, 0x03, 0]);
}

#[test]
fn finish_edges_of_the_mask() {
    let mut x = xlib();
    x.grab(&[0, 31]);
    assert_eq!(x.finish().mask(), &[1u8, 0, 0, 0x80]);
    let x = xlib();
    assert_eq!(x.finish().mask(), &[0u8, 0, 0, 0]);
}

#[test]
fn classify_cookies() {
    let locked = xlib().finish();
    assert_eq!(locked.classify_cookie(GenericEvent, 131, XI_RawKeyPress), CookieKind::Raw);
    assert_eq!(locked.classify_cookie(GenericEvent, 131, XI_RawMotion), CookieKind::Raw);
    assert_eq!(locked.classify_cookie(GenericEvent, 131, XI_RawTouchEnd), CookieKind::Raw);
    assert_eq!(locked.classify_cookie(GenericEvent, 131, XI_KeyPress), CookieKind::Device);
    // 4: a device button press
    assert_eq!(locked.classify_cookie(GenericEvent, 131, 4), CookieKind::Device);
    assert_eq!(locked.classify_cookie(GenericEvent, 131, XI_DeviceChanged), CookieKind::Unsupported);
    assert_eq!(locked.classify_cookie(GenericEvent, 131, XI_Enter), CookieKind::Unsupported);
    assert_eq!(locked.classify_cookie(GenericEvent, 131, XI_PropertyEvent), CookieKind::Unsupported);
    assert_eq!(locked.classify_cookie(GenericEvent, 130, XI_RawKeyPress), CookieKind::Foreign);
    assert_eq!(locked.classify_cookie(2, 131, XI_RawKeyPress), CookieKind::Foreign);
}

#[test]
fn event_from_cookie_converts() {
    assert_eq!(Event::from_cookie(13, 11, 25), Event { kind: 13, source_id: 11, detail: 25 });
    assert_eq!(Event::from_cookie(13, -1, 300), Event { kind: 13, source_id: u32::MAX, detail: 44 });
}
