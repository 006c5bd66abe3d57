use x11_input_supercharger::features::scroll::{Scroll, ScrollConfig, ScrollThread, Toggle, WheelRolls};
use x11_input_supercharger::x::xlib::{
    Device, Event, XLib, XI_RawButtonPress, XI_RawButtonRelease, XI_RawKeyPress, XI_RawMotion,
};

const START: Toggle = Toggle::Start { speed: 600000, show_indicator: true };
const STOP: Toggle = Toggle::Stop { hide_indicator: true };

fn rolls(down: u64, up: u64) -> WheelRolls {
    WheelRolls { down, up }
}

fn config(hold: bool, cancel_on_keypress: bool) -> ScrollConfig {
    ScrollConfig {
        device: "Wacom Bamboo Pen stylus".to_string(),
        subdevice: 0,
        hold,
        speed: 600000,
        button_id: 3,
        indicator: true,
        indicator_size: 5,
        cancel_on_keypress,
    }
}

fn xlib() -> XLib {
    XLib::new(
        vec![
            Device { id: 2, name: "Virtual core pointer".to_string() },
            Device { id: 11, name: "Wacom Bamboo Pen stylus".to_string() },
            Device { id: 14, name: "Wacom Bamboo Pen stylus".to_string() },
        ],
        131,
    )
}

fn ev(kind: i32, source_id: u32, detail: u8) -> Event {
    Event { kind, source_id, detail }
}

#[test]
fn tick_at_start_rolls_nothing() {
    let mut s = ScrollThread::new(600000, 100);
    assert_eq!(s.tick(100), rolls(0, 0));
    assert_eq!(s.tick(100), rolls(0, 0));
}

#[test]
fn tick_below_start_rolls_down() {
    // 4 * 500 px * 600000 = 1.2e9: one roll, 2e8 left over
    let mut s = ScrollThread::new(600000, 100);
    assert_eq!(s.tick(600), rolls(1, 0));
    // 2e8 + 1.2e9 = 1.4e9: one more roll
    assert_eq!(s.tick(600), rolls(1, 0));
    // 4e8 + 1.2e9 = 1.6e9: one more
    assert_eq!(s.tick(600), rolls(1, 0));
    // 6e8 + 1.2e9 = 1.8e9, then 8e8 + 1.2e9 = 2e9 exactly: rolls down to 1e9, not below
    assert_eq!(s.tick(600), rolls(1, 0));
    assert_eq!(s.tick(600), rolls(1, 0));
    // 1e9 + 1.2e9 = 2.2e9: two rolls
    assert_eq!(s.tick(600), rolls(2, 0));
}

#[test]
fn tick_above_start_rolls_up() {
    let mut s = ScrollThread::new(600000, 600);
    assert_eq!(s.tick(100), rolls(0, 1));
}

#[test]
fn small_motion_accumulates() {
    // 4 * 10 * 600000 = 2.4e7 per tick: 42 ticks reach 1.008e9
    let mut s = ScrollThread::new(600000, 100);
    for _ in 0..41 {
        assert_eq!(s.tick(110), rolls(0, 0));
    }
    assert_eq!(s.tick(110), rolls(1, 0));
}

#[test]
fn crossing_the_start_discards_progress() {
    let mut s = ScrollThread::new(600000, 100);
    // 9.6e8 accumulated downwards, no roll yet
    for _ in 0..40 {
        assert_eq!(s.tick(110), rolls(0, 0));
    }
    // moving above the start resets the progress: -2.4e7
    assert_eq!(s.tick(90), rolls(0, 0));
    // back below: reset again, 2.4e7, far from a roll
    assert_eq!(s.tick(110), rolls(0, 0));
    assert_eq!(s.tick(110), rolls(0, 0));
}

#[test]
fn standing_still_keeps_progress() {
    let mut s = ScrollThread::new(600000, 100);
    for _ in 0..41 {
        s.tick(110);
    }
    assert_eq!(s.tick(100), rolls(0, 0));
    assert_eq!(s.tick(110), rolls(1, 0));
}

#[test]
fn largest_tick() {
    // 4 * 65535 * 4294967295 = 1125882726711300
    let mut s = ScrollThread::new(u32::MAX, 0);
    assert_eq!(s.tick(65535), rolls(1125882, 0));
    let mut s = ScrollThread::new(u32::MAX, 65535);
    assert_eq!(s.tick(0), rolls(0, 1125882));
}

#[test]
fn farther_scrolls_faster() {
    let mut near = ScrollThread::new(600000, 100);
    let mut far = ScrollThread::new(600000, 100);
    assert_eq!(near.tick(600), rolls(1, 0));
    assert_eq!(far.tick(2100), rolls(4, 0));
}

#[test]
fn zero_speed_never_scrolls() {
    let mut s = ScrollThread::new(0, 0);
    assert_eq!(s.tick(65535), rolls(0, 0));
}

#[test]
fn scroll_new_needs_the_device() {
    let mut x = xlib();
    let mut cfg = config(false, true);
    cfg.device = "Gaming Mouse".to_string();
    assert!(Scroll::new(&cfg, &mut x).is_none());
    let mut cfg = config(false, true);
    cfg.subdevice = 2;
    assert!(Scroll::new(&cfg, &mut x).is_none());
}

#[test]
fn clicks_toggle_scrolling() {
    let mut x = xlib();
    let cfg = config(false, false);
    let mut s = Scroll::new(&cfg, &mut x).unwrap();
    assert_eq!(s.handle(&ev(XI_RawButtonPress, 11, 3)), Some(START));
    assert_eq!(s.handle(&ev(XI_RawButtonRelease, 11, 3)), None);
    assert_eq!(s.handle(&ev(XI_RawButtonPress, 11, 3)), Some(STOP));
    assert_eq!(s.handle(&ev(XI_RawButtonPress, 11, 3)), Some(START));
}

#[test]
fn other_buttons_and_devices_ignored() {
    let mut x = xlib();
    let cfg = config(false, false);
    let mut s = Scroll::new(&cfg, &mut x).unwrap();
    assert_eq!(s.handle(&ev(XI_RawButtonPress, 11, 2)), None);
    assert_eq!(s.handle(&ev(XI_RawButtonPress, 14, 3)), None);
    assert_eq!(s.handle(&ev(XI_RawMotion, 11, 3)), None);
}

#[test]
fn subdevice_picks_the_second_device() {
    let mut x = xlib();
    let mut cfg = config(false, false);
    cfg.subdevice = 1;
    let mut s = Scroll::new(&cfg, &mut x).unwrap();
    assert_eq!(s.handle(&ev(XI_RawButtonPress, 11, 3)), None);
    assert_eq!(s.handle(&ev(XI_RawButtonPress, 14, 3)), Some(START));
}

#[test]
fn hold_scrolls_while_held() {
    let mut x = xlib();
    let cfg = config(true, false);
    let mut s = Scroll::new(&cfg, &mut x).unwrap();
    assert_eq!(s.handle(&ev(XI_RawButtonPress, 11, 3)), Some(START));
    assert_eq!(s.handle(&ev(XI_RawButtonRelease, 11, 3)), Some(STOP));
}

#[test]
fn keypress_cancels_only_when_configured() {
    let mut x = xlib();
    let cfg = config(false, true);
    let mut s = Scroll::new(&cfg, &mut x).unwrap();
    assert_eq!(s.handle(&ev(XI_RawKeyPress, 3, 38)), None);
    assert_eq!(s.handle(&ev(XI_RawButtonPress, 11, 3)), Some(START));
    assert_eq!(s.handle(&ev(XI_RawKeyPress, 3, 38)), Some(STOP));
    assert_eq!(s.handle(&ev(XI_RawKeyPress, 3, 38)), None);

    let cfg = config(false, false);
    let mut s = Scroll::new(&cfg, &mut x).unwrap();
    s.handle(&ev(XI_RawButtonPress, 11, 3));
    assert_eq!(s.handle(&ev(XI_RawKeyPress, 3, 38)), None);
}

#[test]
fn toggle_alternates() {
    let mut x = xlib();
    let cfg = config(false, false);
    let mut s = Scroll::new(&cfg, &mut x).unwrap();
    assert_eq!(s.toggle(), START);
    assert_eq!(s.toggle(), STOP);
    assert_eq!(s.toggle(), START);
}

#[test]
fn new_selects_button_events() {
    let mut x = xlib();
    let cfg = config(false, true);
    Scroll::new(&cfg, &mut x).unwrap();
    // key press 13, button press 15, button release 16
    assert_eq!(x.finish().mask(), &[0u8, 0xa0, 0x01, 0]);

    let mut x = xlib();
    let cfg = config(false, false);
    Scroll::new(&cfg, &mut x).unwrap();
    assert_eq!(x.finish().mask(), &[0u8, 0x80, 0x01, 0]);
}

#[test]
fn indicator_off_shows_nothing() {
    let mut x = xlib();
    let mut cfg = config(false, false);
    cfg.indicator = false;
    let mut s = Scroll::new(&cfg, &mut x).unwrap();
    assert_eq!(
        s.handle(&ev(XI_RawButtonPress, 11, 3)),
        Some(Toggle::Start { speed: 600000, show_indicator: false })
    );
    assert_eq!(s.handle(&ev(XI_RawButtonPress, 11, 3)), Some(Toggle::Stop { hide_indicator: false }));
}

#[test]
fn hold_release_after_cancel_does_not_restart() {
    let mut x = xlib();
    let cfg = config(true, true);
    let mut s = Scroll::new(&cfg, &mut x).unwrap();
    assert_eq!(s.handle(&ev(XI_RawButtonPress, 11, 3)), Some(START));
    assert_eq!(s.handle(&ev(XI_RawKeyPress, 3, 38)), Some(STOP));
    assert_eq!(s.handle(&ev(XI_RawButtonRelease, 11, 3)), None);
    // scrolling is off: the next press starts it again
    assert_eq!(s.handle(&ev(XI_RawButtonPress, 11, 3)), Some(START));
}

#[test]
fn hold_release_without_press_ignored() {
    let mut x = xlib();
    let cfg = config(true, false);
    let mut s = Scroll::new(&cfg, &mut x).unwrap();
    assert_eq!(s.handle(&ev(XI_RawButtonRelease, 11, 3)), None);
}

#[test]
fn farther_scrolls_faster_over_many_ticks() {
    for (near_y, far_y) in [(100u16, 110u16), (110, 600), (600, 2100), (100, 65535)] {
        let mut near = ScrollThread::new(600000, 100);
        let mut far = ScrollThread::new(600000, 100);
        let (mut near_total, mut far_total) = (0u64, 0u64);
        for _ in 0..200 {
            near_total += near.tick(near_y).down;
            far_total += far.tick(far_y).down;
            assert!(near_total <= far_total);
        }
    }
    let mut near = ScrollThread::new(600000, 2000);
    let mut far = ScrollThread::new(600000, 2000);
    let (mut near_total, mut far_total) = (0u64, 0u64);
    for _ in 0..200 {
        near_total += near.tick(1990).up;
        far_total += far.tick(0).up;
        assert!(near_total <= far_total);
    }
    assert!(far_total > near_total);
}
