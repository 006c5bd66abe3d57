use x11_input_supercharger::features::keyboard_click::{
    KeyboardClick, KeyboardClickConfig, Keys, Reaction, TimerThread,
};
use x11_input_supercharger::x::xdotool::XdotoolCommand;
use x11_input_supercharger::x::xlib::{
    Device, Event, XLib, XI_RawButtonPress, XI_RawKeyPress, XI_RawKeyRelease, XI_RawMotion,
};

fn config() -> KeyboardClickConfig {
    KeyboardClickConfig {
        device: "Wacom Bamboo Pen stylus".to_string(),
        subdevice: 0,
        timeout_ms: 500,
        key_lmb: 25,
        key_rmb: 26,
        key_unused1: 106,
        key_unused2: 63,
    }
}

fn keys() -> Keys {
    Keys {
        key_lmb: vec![0x77, 0x57, 0x77, 0x57],
        key_rmb: vec![0x65, 0x45],
        key_unused1: vec![0xffaf, 0],
        key_unused2: vec![0xffaa],
    }
}

fn xlib() -> XLib {
    XLib::new(vec![Device { id: 11, name: "Wacom Bamboo Pen stylus".to_string() }], 131)
}

fn ev(kind: i32, source_id: u32, detail: u8) -> Event {
    Event { kind, source_id, detail }
}

fn nothing() -> Reaction {
    Reaction { notify_timer: false, command: None }
}

fn cmd(c: XdotoolCommand) -> Reaction {
    Reaction { notify_timer: false, command: Some(c) }
}

const MS: u64 = 1_000_000;

#[test]
fn keyboard_click_new_needs_the_device() {
    let mut x = xlib();
    let mut cfg = config();
    cfg.subdevice = 1;
    assert!(KeyboardClick::new(&cfg, &mut x, keys()).is_none());
    // nothing was selected
    assert_eq!(x.finish().mask(), &[0u8, 0, 0, 0]);
}

#[test]
fn new_selects_motion_and_keys() {
    let mut x = xlib();
    let cfg = config();
    assert!(KeyboardClick::new(&cfg, &mut x, keys()).is_some());
    // 13, 14 and 17
    assert_eq!(x.finish().mask(), &[0u8, 0x60, 0x02, 0]);
}

#[test]
fn keys_are_keys_before_motion() {
    let mut x = xlib();
    let cfg = config();
    let mut k = KeyboardClick::new(&cfg, &mut x, keys()).unwrap();
    assert_eq!(
        k.handle(&ev(XI_RawKeyPress, 3, 25), false),
        cmd(XdotoolCommand::Key { down: true, num: 106 })
    );
    assert_eq!(
        k.handle(&ev(XI_RawKeyRelease, 3, 25), false),
        cmd(XdotoolCommand::Key { down: false, num: 106 })
    );
    assert_eq!(
        k.handle(&ev(XI_RawKeyPress, 3, 26), false),
        cmd(XdotoolCommand::Key { down: true, num: 63 })
    );
}

#[test]
fn motion_makes_keys_click() {
    let mut x = xlib();
    let cfg = config();
    let mut k = KeyboardClick::new(&cfg, &mut x, keys()).unwrap();
    assert_eq!(
        k.handle(&ev(XI_RawMotion, 11, 0), false),
        Reaction { notify_timer: true, command: None }
    );
    assert_eq!(
        k.handle(&ev(XI_RawKeyPress, 3, 25), false),
        cmd(XdotoolCommand::Click { down: true, rmb: false })
    );
    assert_eq!(
        k.handle(&ev(XI_RawKeyRelease, 3, 25), false),
        cmd(XdotoolCommand::Click { down: false, rmb: false })
    );
    assert_eq!(
        k.handle(&ev(XI_RawKeyPress, 3, 26), false),
        cmd(XdotoolCommand::Click { down: true, rmb: true })
    );
}

#[test]
fn motion_of_other_devices_does_not_count() {
    let mut x = xlib();
    let cfg = config();
    let mut k = KeyboardClick::new(&cfg, &mut x, keys()).unwrap();
    assert_eq!(k.handle(&ev(XI_RawMotion, 12, 0), false), nothing());
    assert_eq!(
        k.handle(&ev(XI_RawKeyPress, 3, 25), false),
        cmd(XdotoolCommand::Key { down: true, num: 106 })
    );
}

#[test]
fn timeout_restores_keys() {
    let mut x = xlib();
    let cfg = config();
    let mut k = KeyboardClick::new(&cfg, &mut x, keys()).unwrap();
    k.handle(&ev(XI_RawMotion, 11, 0), false);
    assert_eq!(
        k.handle(&ev(XI_RawKeyPress, 3, 26), true),
        cmd(XdotoolCommand::Key { down: true, num: 63 })
    );
    assert_eq!(
        k.handle(&ev(XI_RawKeyRelease, 3, 26), false),
        cmd(XdotoolCommand::Key { down: false, num: 63 })
    );
}

#[test]
fn motion_wins_over_timeout() {
    let mut x = xlib();
    let cfg = config();
    let mut k = KeyboardClick::new(&cfg, &mut x, keys()).unwrap();
    assert_eq!(
        k.handle(&ev(XI_RawMotion, 11, 0), true),
        Reaction { notify_timer: true, command: None }
    );
    assert_eq!(
        k.handle(&ev(XI_RawKeyPress, 3, 25), false),
        cmd(XdotoolCommand::Click { down: true, rmb: false })
    );
}

#[test]
fn other_keys_and_buttons_untouched() {
    let mut x = xlib();
    let cfg = config();
    let mut k = KeyboardClick::new(&cfg, &mut x, keys()).unwrap();
    assert_eq!(k.handle(&ev(XI_RawKeyPress, 3, 38), false), nothing());
    k.handle(&ev(XI_RawMotion, 11, 0), false);
    assert_eq!(k.handle(&ev(XI_RawKeyPress, 3, 38), false), nothing());
    assert_eq!(k.handle(&ev(XI_RawButtonPress, 11, 25), false), nothing());
}

#[test]
fn remap_script() {
    let mut x = xlib();
    let cfg = config();
    let k = KeyboardClick::new(&cfg, &mut x, keys()).unwrap();
    let script = String::from_utf8(k.remap_transaction().commit()).unwrap();
    assert_eq!(
        script,
        "keycode 25 = \nkeycode 26 = \nkeycode 106 = 119 87 119 87 \nkeycode 63 = 101 69 \n"
    );
}

#[test]
fn restore_script() {
    let mut x = xlib();
    let cfg = config();
    let k = KeyboardClick::new(&cfg, &mut x, keys()).unwrap();
    let script = String::from_utf8(k.restore_transaction().commit()).unwrap();
    assert_eq!(
        script,
        "keycode 25 = 119 87 119 87 \nkeycode 26 = 101 69 \nkeycode 106 = 65455 NoSymbol \nkeycode 63 = 65450 \n"
    );
}

#[test]
fn timer_warms_up_first() {
    let mut t = TimerThread::new(500, 0);
    assert!(!t.on_tick(50 * MS));
    t.on_event();
    // still warming up: the first period passes without a report
    assert!(!t.on_tick(600 * MS));
    assert!(!t.warmup);
    t.on_event();
    assert!(!t.on_tick(650 * MS));
    assert!(t.on_tick(1101 * MS));
}

#[test]
fn timer_reports_once_per_use() {
    let mut t = TimerThread::new(500, 0);
    assert!(!t.on_tick(501 * MS));
    assert!(!t.warmup);
    t.on_event();
    assert!(!t.on_tick(1000 * MS));
    // exactly the timeout is not more than it
    assert!(!t.on_tick(1001 * MS));
    assert!(t.on_tick(1001 * MS + 1));
    assert!(!t.on_tick(1050 * MS));
    assert!(!t.on_tick(5000 * MS));
}

#[test]
fn timer_needs_motion() {
    let mut t = TimerThread::new(500, 0);
    for i in 1..100u64 {
        assert!(!t.on_tick(i * 100 * MS));
    }
}

#[test]
fn timer_motion_restarts_the_wait() {
    let mut t = TimerThread::new(500, 0);
    t.on_tick(600 * MS);
    t.on_event();
    assert!(!t.on_tick(900 * MS));
    t.on_event();
    // the last motion counts from the tick before it, at 900 ms
    assert!(!t.on_tick(1300 * MS));
    assert!(t.on_tick(1450 * MS));
}

#[test]
fn timer_event_before_any_tick() {
    let mut t = TimerThread::new(0, 7);
    t.on_event();
    assert_eq!(t.last_event_time, 7);
    assert!(t.remapped);
    // a zero timeout: any later tick ends the warm-up, the next one reports
    assert!(!t.on_tick(8));
    assert!(t.on_tick(9));
}

/// Applies an xmodmap script of `keycode K = S S ... ` lines to a keymap.
fn apply(keymap: &mut std::collections::BTreeMap<u8, Vec<u64>>, script: &str) {
    for line in script.lines() {
        let rest = line.strip_prefix("keycode ").unwrap();
        let (key, syms) = rest.split_once(" = ").unwrap();
        let syms = syms
            .split(' ')
            .filter(|s| !s.is_empty())
            .map(|s| if s == "NoSymbol" { 0 } else { s.parse().unwrap() })
            .collect();
        keymap.insert(key.parse().unwrap(), syms);
    }
}

#[test]
fn restore_undoes_remap() {
    let mut x = xlib();
    let cfg = config();
    let k = KeyboardClick::new(&cfg, &mut x, keys()).unwrap();
    let mut keymap = std::collections::BTreeMap::new();
    keymap.insert(25u8, keys().key_lmb);
    keymap.insert(26u8, keys().key_rmb);
    keymap.insert(106u8, keys().key_unused1);
    keymap.insert(63u8, keys().key_unused2);
    keymap.insert(38u8, vec![0x61, 0x41]);
    let original = keymap.clone();
    apply(&mut keymap, &String::from_utf8(k.remap_transaction().commit()).unwrap());
    assert_eq!(keymap[&25], Vec::<u64>::new());
    assert_eq!(keymap[&106], keys().key_lmb);
    assert_eq!(keymap[&63], keys().key_rmb);
    apply(&mut keymap, &String::from_utf8(k.restore_transaction().commit()).unwrap());
    assert_eq!(keymap, original);
}

/// Runs the timer on time from `start`, with motion at `motion_at`, and
/// says what a press of the left-button key at `key_at` does.
fn press_after(timeout_ms: u64, motion_at: u64, key_at: u64) -> Reaction {
    let mut x = xlib();
    let mut cfg = config();
    cfg.timeout_ms = timeout_ms;
    let mut k = KeyboardClick::new(&cfg, &mut x, keys()).unwrap();
    let tick = 50 * MS;
    let mut timer = TimerThread::new(timeout_ms, 0);
    let mut now = 0;
    let mut pending = false;
    let mut moved = false;
    loop {
        if !moved && motion_at < now + tick {
            let r = k.handle(&ev(XI_RawMotion, 11, 0), pending);
            pending = false;
            assert!(r.notify_timer);
            timer.on_event();
            moved = true;
        }
        if key_at < now + tick {
            return k.handle(&ev(XI_RawKeyPress, 3, 25), pending);
        }
        now += tick;
        if timer.on_tick(now) {
            pending = true;
        }
    }
}

#[test]
fn keys_click_for_about_the_timeout() {
    let click = cmd(XdotoolCommand::Click { down: true, rmb: false });
    let key = cmd(XdotoolCommand::Key { down: true, num: 106 });
    // after warm-up
    assert_eq!(press_after(500, 2000 * MS, 2000 * MS + 449 * MS), click);
    assert_eq!(press_after(500, 2010 * MS, 2010 * MS + 601 * MS), key);
    // during warm-up: two ticks past the timeout at most
    assert_eq!(press_after(500, 10 * MS, 10 * MS + 449 * MS), click);
    assert_eq!(press_after(500, 10 * MS, 10 * MS + 601 * MS), key);
}
