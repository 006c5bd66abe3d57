//! Clicking with keyboard keys: for a while after the configured pointing
//! device was last moved, two keys act as the left and right mouse buttons.
//! Their usual meaning stays reachable through two spare keys, which are
//! remapped to the original keysyms.
use crate::x::xdotool::{click, key, XdotoolCommand};
use crate::x::xlib::{device_id, Event, XLib, XI_RawKeyPress, XI_RawKeyRelease, XI_RawMotion};
use crate::x::xmodmap::{apply_bindings, transaction, Transaction};
use vstd::prelude::*;

verus! {

/// Nanoseconds in a millisecond.
pub const NANOS_PER_MILLI: u128 = 1_000_000;

/// How often the timer ticks, in milliseconds.
pub const TIMER_TICK_MS: u64 = 50;

/// How often the timer ticks, in nanoseconds.
pub open spec fn timer_tick_nanos() -> int {
    TIMER_TICK_MS * NANOS_PER_MILLI
}

/// Configuration of the keyboard-clicking feature.
#[derive(Clone, Debug)]
pub struct KeyboardClickConfig {
    /// Name of the device whose use turns keyboard clicking on.
    pub device: String,
    /// Which of the devices with that name (counting from 0).
    pub subdevice: u32,
    /// How long after the device's last motion the keys keep clicking.
    pub timeout_ms: u64,
    /// Key that acts as the left mouse button.
    pub key_lmb: u8,
    /// Key that acts as the right mouse button.
    pub key_rmb: u8,
    /// Spare key that takes over the left-button key's keysyms.
    pub key_unused1: u8,
    /// Spare key that takes over the right-button key's keysyms.
    pub key_unused2: u8,
}

/// The keysyms that the four configured keys had before remapping.
#[derive(Clone, Debug)]
pub struct Keys {
    pub key_lmb: Vec<u64>,
    pub key_rmb: Vec<u64>,
    pub key_unused1: Vec<u64>,
    pub key_unused2: Vec<u64>,
}

/// What the program does after an event.
#[derive(Debug, Copy, Clone, PartialEq, Eq)]
pub struct Reaction {
    /// Tell the timer that the device was just used.
    pub notify_timer: bool,
    /// Run this `xdotool` command.
    pub command: Option<XdotoolCommand>,
}

/// The keyboard-clicking feature's state: the device it watches, the
/// original keysyms, and whether the keys click right now.
pub struct KeyboardClick<'a> {
    config: &'a KeyboardClickConfig,
    source_id: u32,
    original_keys: Keys,
    remapped: bool,
}

/// The event types the keyboard-clicking feature selects.
pub open spec fn keyboard_click_grabs() -> Set<i32> {
    set![XI_RawMotion, XI_RawKeyPress, XI_RawKeyRelease]
}

/// Whether the keys click, and what to do, after event `ev`. `timed_out`
/// says whether the timer reported that the device has been idle for the
/// timeout.
pub open spec fn click_step(
    config: KeyboardClickConfig,
    source_id: u32,
    remapped: bool,
    timed_out: bool,
    ev: Event,
) -> (bool, Reaction) {
    let remapped = remapped && !timed_out;
    if ev.source_id == source_id && ev.kind == XI_RawMotion {
        (true, Reaction { notify_timer: true, command: None })
    } else if (ev.kind == XI_RawKeyPress || ev.kind == XI_RawKeyRelease) && (ev.detail
        == config.key_lmb || ev.detail == config.key_rmb) {
        let down = ev.kind == XI_RawKeyPress;
        let rmb = ev.detail == config.key_rmb;
        if remapped {
            (remapped, Reaction { notify_timer: false, command: Some(XdotoolCommand::Click { down, rmb }) })
        } else {
            let num = if rmb {
                config.key_unused2
            } else {
                config.key_unused1
            };
            (remapped, Reaction { notify_timer: false, command: Some(XdotoolCommand::Key { down, num }) })
        }
    } else {
        (remapped, Reaction { notify_timer: false, command: None })
    }
}

/// The bindings that set the keys up: the clicking keys lose their
/// keysyms, which the spare keys take over.
pub open spec fn remap_bindings(config: KeyboardClickConfig, keys: Keys) -> Seq<(u8, Seq<u64>)> {
    seq![
        (config.key_lmb, Seq::<u64>::empty()),
        (config.key_rmb, Seq::<u64>::empty()),
        (config.key_unused1, keys.key_lmb@),
        (config.key_unused2, keys.key_rmb@),
    ]
}

/// The bindings that give all four keys their original keysyms back.
pub open spec fn restore_bindings(config: KeyboardClickConfig, keys: Keys) -> Seq<(u8, Seq<u64>)> {
    seq![
        (config.key_lmb, keys.key_lmb@),
        (config.key_rmb, keys.key_rmb@),
        (config.key_unused1, keys.key_unused1@),
        (config.key_unused2, keys.key_unused2@),
    ]
}

impl<'a> KeyboardClick<'a> {
    pub closed spec fn config(&self) -> KeyboardClickConfig {
        *self.config
    }

    pub closed spec fn source_id(&self) -> u32 {
        self.source_id
    }

    pub closed spec fn original_keys(&self) -> Keys {
        self.original_keys
    }

    /// Whether the keys click right now.
    pub closed spec fn is_remapped(&self) -> bool {
        self.remapped
    }

    /// Sets up the feature for the configured device, selecting motion and
    /// key events; `original_keys` are the four keys' keysyms as they are
    /// now. Gives `None`, selecting nothing, when no such device exists.
    pub fn new(config: &'a KeyboardClickConfig, x: &mut XLib, original_keys: Keys) -> (k: Option<
        KeyboardClick<'a>,
    >)
        ensures
            final(x)@.devices == old(x)@.devices,
            final(x)@.xi_opcode == old(x)@.xi_opcode,
            match k {
                None => {
                    &&& device_id(old(x)@.devices, config.device@, config.subdevice as int) is None
                    &&& final(x)@.grabs == old(x)@.grabs
                },
                Some(k) => {
                    &&& device_id(old(x)@.devices, config.device@, config.subdevice as int)
                        == Some(k.source_id())
                    &&& k.config() == *config
                    &&& k.original_keys() == original_keys
                    &&& !k.is_remapped()
                    &&& final(x)@.grabs == old(x)@.grabs.union(keyboard_click_grabs())
                },
            },
    {
        let source_id = match x.get_device_id(config.device.as_str(), config.subdevice) {
            Some(id) => id,
            None => return None,
        };
        let events: [i32; 3] = [XI_RawMotion, XI_RawKeyPress, XI_RawKeyRelease];
        x.grab(&events);
        assert(events@.to_set() =~= keyboard_click_grabs()) by {
            assert(events@[0] == XI_RawMotion);
            assert(events@[1] == XI_RawKeyPress);
            assert(events@[2] == XI_RawKeyRelease);
        }
        Some(KeyboardClick { config, source_id, original_keys, remapped: false })
    }

    /// The remapping that sets the keys up.
    pub fn remap_transaction(&self) -> (t: Transaction<'_>)
        ensures
            t@ == remap_bindings(self.config(), self.original_keys()),
    {
        let lmb: &[u64] = self.original_keys.key_lmb.as_slice();
        let none: &[u64] = vstd::slice::slice_subrange(lmb, 0, 0);
        assert(none@ =~= Seq::<u64>::empty());
        let mut t = transaction();
        t.bind(self.config.key_lmb, none);
        t.bind(self.config.key_rmb, none);
        t.bind(self.config.key_unused1, self.original_keys.key_lmb.as_slice());
        t.bind(self.config.key_unused2, self.original_keys.key_rmb.as_slice());
        assert(t@ =~= remap_bindings(self.config(), self.original_keys()));
        t
    }

    /// The remapping that restores the four keys on exit.
    pub fn restore_transaction(&self) -> (t: Transaction<'_>)
        ensures
            t@ == restore_bindings(self.config(), self.original_keys()),
    {
        let mut t = transaction();
        t.bind(self.config.key_lmb, self.original_keys.key_lmb.as_slice());
        t.bind(self.config.key_rmb, self.original_keys.key_rmb.as_slice());
        t.bind(self.config.key_unused1, self.original_keys.key_unused1.as_slice());
        t.bind(self.config.key_unused2, self.original_keys.key_unused2.as_slice());
        assert(t@ =~= restore_bindings(self.config(), self.original_keys()));
        t
    }

    /// Reacts to an input event. Motion of the watched device makes the
    /// keys click (and restarts the timer); a press or release of a
    /// clicking key then clicks, and otherwise presses or releases the
    /// spare key that holds its keysyms. `timed_out` says whether the timer
    /// reported, since the last call, that the device has been idle.
    pub fn handle(&mut self, ev: &Event, timed_out: bool) -> (r: Reaction)
        ensures
            final(self).config() == old(self).config(),
            final(self).source_id() == old(self).source_id(),
            final(self).original_keys() == old(self).original_keys(),
            (final(self).is_remapped(), r) == click_step(
                old(self).config(),
                old(self).source_id(),
                old(self).is_remapped(),
                timed_out,
                *ev,
            ),
    {
        if timed_out {
            self.remapped = false;
        }
        if ev.source_id == self.source_id && ev.kind == XI_RawMotion {
            self.remapped = true;
            Reaction { notify_timer: true, command: None }
        } else if ev.kind == XI_RawKeyPress || ev.kind == XI_RawKeyRelease {
            if ev.detail == self.config.key_lmb || ev.detail == self.config.key_rmb {
                let down = ev.kind == XI_RawKeyPress;
                let rmb = ev.detail == self.config.key_rmb;
                if self.remapped {
                    Reaction { notify_timer: false, command: Some(click(down, rmb)) }
                } else {
                    let key_to_hit = if rmb {
                        self.config.key_unused2
                    } else {
                        self.config.key_unused1
                    };
                    Reaction { notify_timer: false, command: Some(key(down, key_to_hit)) }
                }
            } else {
                Reaction { notify_timer: false, command: None }
            }
        } else {
            Reaction { notify_timer: false, command: None }
        }
    }
}

/// State of the timer that ends keyboard clicking. Times are nanoseconds on
/// a monotonic clock.
#[derive(Debug, Copy, Clone, PartialEq, Eq)]
pub struct TimerThread {
    /// How long the device must be idle.
    pub timeout_ms: u64,
    /// Time of the tick before the device's last motion.
    pub last_event_time: u64,
    /// The first period after start, in which no timeout is reported.
    pub warmup: bool,
    /// Whether the device moved since the last timeout.
    pub remapped: bool,
    /// Time of the last tick.
    pub current_time: u64,
}

/// Nanoseconds from `since` to `now` (none if `now` is earlier).
pub open spec fn elapsed(now: int, since: int) -> int {
    if now >= since {
        now - since
    } else {
        0
    }
}

/// Whether `elapsed` nanoseconds are more than `timeout_ms` milliseconds.
pub open spec fn exceeds(elapsed: int, timeout_ms: int) -> bool {
    elapsed > timeout_ms * NANOS_PER_MILLI
}

/// The timer's state after a report of motion.
pub open spec fn timer_on_event(t: TimerThread) -> TimerThread {
    TimerThread { remapped: true, last_event_time: t.current_time, ..t }
}

/// The timer's state after a tick at time `now`, and whether the tick
/// reports a timeout.
pub open spec fn timer_on_tick(t: TimerThread, now: u64) -> (TimerThread, bool) {
    let elapsed: int = elapsed(now as int, t.last_event_time as int);
    let t = TimerThread { current_time: now, ..t };
    if t.warmup {
        (TimerThread { warmup: !exceeds(elapsed, t.timeout_ms as int), ..t }, false)
    } else if t.remapped && exceeds(elapsed, t.timeout_ms as int) {
        (TimerThread { remapped: false, ..t }, true)
    } else {
        (t, false)
    }
}

impl TimerThread {
    /// A timer started at time `now`.
    pub fn new(timeout_ms: u64, now: u64) -> (t: TimerThread)
        ensures
            t == (TimerThread {
                timeout_ms,
                last_event_time: now,
                warmup: true,
                remapped: false,
                current_time: now,
            }),
    {
        TimerThread { timeout_ms, last_event_time: now, warmup: true, remapped: false, current_time: now }
    }

    /// The device moved.
    pub fn on_event(&mut self)
        ensures
            *final(self) == timer_on_event(*old(self)),
    {
        self.remapped = true;
        self.last_event_time = self.current_time;
    }

    /// A tick at time `now`; gives whether to report a timeout.
    pub fn on_tick(&mut self, now: u64) -> (timed_out: bool)
        ensures
            (*final(self), timed_out) == timer_on_tick(*old(self), now),
    {
        self.current_time = now;
        let elapsed: u64 = now.saturating_sub(self.last_event_time);
        let over: bool = (elapsed as u128) > (self.timeout_ms as u128) * NANOS_PER_MILLI;
        if self.warmup {
            if over {
                self.warmup = false;
            }
            false
        } else if self.remapped && over {
            self.remapped = false;
            true
        } else {
            false
        }
    }
}

/// Restoring undoes remapping: when the original keysyms were read from
/// the keyboard mapping, applying the remapping and then the restoring
/// bindings gives that mapping back.
pub proof fn lemma_restore_undoes_remap(keymap: Map<u8, Seq<u64>>, config: KeyboardClickConfig, keys: Keys)
    requires
        keymap.contains_key(config.key_lmb) && keymap[config.key_lmb] == keys.key_lmb@,
        keymap.contains_key(config.key_rmb) && keymap[config.key_rmb] == keys.key_rmb@,
        keymap.contains_key(config.key_unused1) && keymap[config.key_unused1] == keys.key_unused1@,
        keymap.contains_key(config.key_unused2) && keymap[config.key_unused2] == keys.key_unused2@,
    ensures
        apply_bindings(
            apply_bindings(keymap, remap_bindings(config, keys)),
            restore_bindings(config, keys),
        ) == keymap,
{
    reveal_with_fuel(apply_bindings, 5);
    let remapped = apply_bindings(keymap, remap_bindings(config, keys));
    let restored = apply_bindings(remapped, restore_bindings(config, keys));
    let r = restore_bindings(config, keys);
    assert(r.drop_last().drop_last().drop_last().drop_last() =~= Seq::<(u8, Seq<u64>)>::empty());
    let m = remap_bindings(config, keys);
    assert(m.drop_last().drop_last().drop_last().drop_last() =~= Seq::<(u8, Seq<u64>)>::empty());
    assert(restored =~= keymap);
}

/// While the keys click (the device moved and no timeout came since), a
/// press or release of a clicking key is a press or release of a mouse
/// button: the right one for the right-button key, the left one otherwise.
pub proof fn lemma_motion_makes_keys_click(
    config: KeyboardClickConfig,
    source_id: u32,
    remapped: bool,
    motion: Event,
    ev: Event,
)
    requires
        motion.source_id == source_id && motion.kind == XI_RawMotion,
        ev.kind == XI_RawKeyPress || ev.kind == XI_RawKeyRelease,
        ev.detail == config.key_lmb || ev.detail == config.key_rmb,
    ensures
        ({
            let (r1, a1) = click_step(config, source_id, remapped, false, motion);
            let (r2, a2) = click_step(config, source_id, r1, false, ev);
            &&& a1 == Reaction { notify_timer: true, command: None }
            &&& r2
            &&& a2.command == Some(
                XdotoolCommand::Click {
                    down: ev.kind == XI_RawKeyPress,
                    rmb: ev.detail == config.key_rmb,
                },
            )
        }),
{
}

/// Once the timer reports that the device has been idle, the keys are back
/// to normal: a press or release of a clicking key (not preceded by motion)
/// presses or releases the spare key that holds its keysyms.
pub proof fn lemma_timeout_restores_keys(
    config: KeyboardClickConfig,
    source_id: u32,
    remapped: bool,
    ev: Event,
)
    requires
        ev.kind == XI_RawKeyPress || ev.kind == XI_RawKeyRelease,
        ev.detail == config.key_lmb || ev.detail == config.key_rmb,
    ensures
        ({
            let (r, a) = click_step(config, source_id, remapped, true, ev);
            &&& !r
            &&& a.command == Some(
                XdotoolCommand::Key {
                    down: ev.kind == XI_RawKeyPress,
                    num: if ev.detail == config.key_rmb {
                        config.key_unused2
                    } else {
                        config.key_unused1
                    },
                },
            )
        }),
{
}

/// Keys other than the two clicking keys pass through untouched.
pub proof fn lemma_other_keys_untouched(
    config: KeyboardClickConfig,
    source_id: u32,
    remapped: bool,
    timed_out: bool,
    ev: Event,
)
    requires
        ev.kind == XI_RawKeyPress || ev.kind == XI_RawKeyRelease,
        ev.detail != config.key_lmb && ev.detail != config.key_rmb,
    ensures
        click_step(config, source_id, remapped, timed_out, ev).1 == (Reaction {
            notify_timer: false,
            command: None,
        }),
{
}

/// The timer reports a timeout only when the device has moved since the
/// last report, the warm-up period is over, and more than the timeout has
/// passed since the last motion.
pub proof fn lemma_timeout_only_after_idle(t: TimerThread, now: u64)
    ensures
        timer_on_tick(t, now).1 ==> {
            &&& t.remapped
            &&& !t.warmup
            &&& now >= t.last_event_time
            &&& exceeds(now - t.last_event_time, t.timeout_ms as int)
        },
{
}

/// A timeout is reported once per period of use: after a report, ticks
/// report nothing until the device moves again.
pub proof fn lemma_one_timeout_per_use(t: TimerThread, now1: u64, now2: u64)
    requires
        timer_on_tick(t, now1).1,
    ensures
        !timer_on_tick(timer_on_tick(t, now1).0, now2).1,
        !timer_on_tick(timer_on_tick(t, now1).0, now2).0.remapped,
{
}

/// A timer that has not seen motion since its last report (or since it
/// started) reports nothing, however many ticks pass.
pub proof fn lemma_no_timeout_without_motion(t: TimerThread, now: u64)
    requires
        !t.remapped,
    ensures
        !timer_on_tick(t, now).1,
        !timer_on_tick(t, now).0.remapped,
{
}

/// While the device keeps moving, no timeout comes: a tick within the
/// timeout after the tick that preceded the last motion reports nothing.
pub proof fn lemma_no_timeout_while_active(t: TimerThread, now: u64)
    requires
        now >= t.last_event_time,
        !exceeds(now - t.last_event_time, t.timeout_ms as int),
    ensures
        !timer_on_tick(t, now).1,
{
}

/// The timer's state after ticks at `times`, in order, with no motion in
/// between, and whether any of them reported a timeout.
pub open spec fn timer_run(t: TimerThread, times: Seq<u64>) -> (TimerThread, bool)
    decreases times.len(),
{
    if times.len() == 0 {
        (t, false)
    } else {
        let (t1, r1) = timer_run(t, times.drop_last());
        let (t2, r2) = timer_on_tick(t1, times.last());
        (t2, r1 || r2)
    }
}

proof fn lemma_timer_run_keeps(t: TimerThread, times: Seq<u64>)
    ensures
        timer_run(t, times).0.last_event_time == t.last_event_time,
        timer_run(t, times).0.timeout_ms == t.timeout_ms,
        t.remapped && !timer_run(t, times).1 ==> timer_run(t, times).0.remapped,
    decreases times.len(),
{
    if times.len() > 0 {
        lemma_timer_run_keeps(t, times.drop_last());
    }
}

/// Ticks that all come within the timeout of the last motion report
/// nothing.
proof fn lemma_timer_run_quiet(t: TimerThread, times: Seq<u64>)
    requires
        forall|i: int|
            0 <= i < times.len() ==> !exceeds(
                elapsed(times[i] as int, t.last_event_time as int),
                t.timeout_ms as int,
            ),
    ensures
        !timer_run(t, times).1,
    decreases times.len(),
{
    if times.len() > 0 {
        let prefix = times.drop_last();
        assert forall|i: int| 0 <= i < prefix.len() implies !exceeds(
            elapsed(prefix[i] as int, t.last_event_time as int),
            t.timeout_ms as int,
        ) by {
            assert(prefix[i] == times[i]);
        }
        lemma_timer_run_quiet(t, prefix);
        lemma_timer_run_keeps(t, prefix);
    }
}

/// After a tick past the timeout, the warm-up is over (or a timeout was
/// already reported).
proof fn lemma_timer_run_warmup_ends(t: TimerThread, times: Seq<u64>, i: int)
    requires
        t.remapped,
        0 <= i < times.len(),
        exceeds(elapsed(times[i] as int, t.last_event_time as int), t.timeout_ms as int),
    ensures
        timer_run(t, times).1 || (!timer_run(t, times).0.warmup && timer_run(t, times).0.remapped),
    decreases times.len(),
{
    let prefix = times.drop_last();
    lemma_timer_run_keeps(t, prefix);
    if i < times.len() - 1 {
        assert(prefix[i] == times[i]);
        lemma_timer_run_warmup_ends(t, prefix, i);
    }
}

/// Two ticks past the timeout after the device was last moved report a
/// timeout: the first ends the warm-up if it is still on, the second
/// reports at the latest.
proof fn lemma_timer_run_reports(t: TimerThread, times: Seq<u64>, i: int, j: int)
    requires
        t.remapped,
        0 <= i < j < times.len(),
        exceeds(elapsed(times[i] as int, t.last_event_time as int), t.timeout_ms as int),
        exceeds(elapsed(times[j] as int, t.last_event_time as int), t.timeout_ms as int),
    ensures
        timer_run(t, times).1,
    decreases times.len(),
{
    let prefix = times.drop_last();
    assert(prefix[i] == times[i]);
    lemma_timer_run_keeps(t, prefix);
    if j < times.len() - 1 {
        assert(prefix[j] == times[j]);
        lemma_timer_run_reports(t, prefix, i, j);
    } else {
        lemma_timer_run_warmup_ends(t, prefix, i);
    }
}

/// Keys click for about the timeout after the device was last moved.
/// The device moves at `motion_at`, between the timer's last tick and the
/// next; the timer then ticks on time, every `TIMER_TICK_MS`, `m` times
/// before a clicking key is pressed or released at `key_at`. If the key
/// comes less than the timeout minus one tick after the motion, it clicks;
/// if it comes more than the timeout plus two ticks after, it is a key
/// again (the spare key that holds its keysyms).
pub proof fn lemma_keys_click_for_about_timeout(
    config: KeyboardClickConfig,
    source_id: u32,
    remapped: bool,
    pending: bool,
    t: TimerThread,
    motion: Event,
    key_ev: Event,
    motion_at: u64,
    key_at: u64,
    m: nat,
)
    requires
        motion.source_id == source_id && motion.kind == XI_RawMotion,
        key_ev.kind == XI_RawKeyPress || key_ev.kind == XI_RawKeyRelease,
        key_ev.detail == config.key_lmb || key_ev.detail == config.key_rmb,
        t.timeout_ms == config.timeout_ms,
        t.current_time <= motion_at < t.current_time + timer_tick_nanos(),
        t.current_time + timer_tick_nanos() * m <= key_at < t.current_time + timer_tick_nanos() * (m
            + 1),
        t.current_time + timer_tick_nanos() * (m + 1) <= u64::MAX,
    ensures
        ({
            let (r1, a1) = click_step(config, source_id, remapped, pending, motion);
            let ticks = Seq::new(
                m,
                |k: int| (t.current_time + timer_tick_nanos() * (k + 1)) as u64,
            );
            let (t2, reported) = timer_run(timer_on_event(t), ticks);
            let (r2, a2) = click_step(config, source_id, r1, reported, key_ev);
            &&& a1.notify_timer
            &&& key_at - motion_at < config.timeout_ms * NANOS_PER_MILLI - timer_tick_nanos()
                ==> a2.command == Some(
                XdotoolCommand::Click {
                    down: key_ev.kind == XI_RawKeyPress,
                    rmb: key_ev.detail == config.key_rmb,
                },
            )
            &&& key_at - motion_at > config.timeout_ms * NANOS_PER_MILLI + 2 * timer_tick_nanos()
                ==> a2.command == Some(
                XdotoolCommand::Key {
                    down: key_ev.kind == XI_RawKeyPress,
                    num: if key_ev.detail == config.key_rmb {
                        config.key_unused2
                    } else {
                        config.key_unused1
                    },
                },
            )
        }),
{
    let c = t.current_time as int;
    let tick = timer_tick_nanos();
    assert(tick == 50_000_000);
    let timeout = config.timeout_ms * NANOS_PER_MILLI;
    let ticks = Seq::new(m, |k: int| (t.current_time + timer_tick_nanos() * (k + 1)) as u64);
    let t1 = timer_on_event(t);
    assert(t1.last_event_time == t.current_time);
    if key_at - motion_at < timeout - tick {
        assert forall|i: int| 0 <= i < ticks.len() implies !exceeds(
            elapsed(ticks[i] as int, t1.last_event_time as int),
            t1.timeout_ms as int,
        ) by {
            assert(ticks[i] as int == c + tick * (i + 1));
            assert(tick * (i + 1) <= tick * m) by (nonlinear_arith)
                requires
                    tick == 50_000_000,
                    0 <= i < m,
            ;
        }
        lemma_timer_run_quiet(t1, ticks);
    }
    if key_at - motion_at > timeout + 2 * tick {
        assert(tick * (m + 1) > timeout + 2 * tick);
        assert(m >= 2) by (nonlinear_arith)
            requires
                tick == 50_000_000,
                tick * (m + 1) > timeout + 2 * tick,
                timeout >= 0,
        ;
        assert(tick * (m - 1) > timeout) by (nonlinear_arith)
            requires
                tick == 50_000_000,
                tick * (m + 1) > timeout + 2 * tick,
        ;
        assert(tick * m > timeout) by (nonlinear_arith)
            requires
                tick == 50_000_000,
                tick * (m - 1) > timeout,
        ;
        assert(tick * m <= tick * (m + 1) && tick * (m - 1) <= tick * (m + 1)) by (nonlinear_arith)
            requires
                tick == 50_000_000,
                m >= 2,
        ;
        let i = m - 2;
        let j = m - 1;
        assert(ticks[i] as int == c + tick * (i + 1));
        assert(ticks[j] as int == c + tick * (j + 1));
        lemma_timer_run_reports(t1, ticks, i, j);
    }
}

/// Only motion of the watched device (event type 17 from it) and a timeout
/// change whether the keys click: after any other event, such as another
/// key (Control for a Ctrl+click), a button, or motion of another device,
/// the keys click exactly when they did before and no timeout came.
pub proof fn lemma_only_motion_and_timeout_switch(
    config: KeyboardClickConfig,
    source_id: u32,
    remapped: bool,
    timed_out: bool,
    ev: Event,
)
    ensures
        ev.source_id == source_id && ev.kind == 17 ==> click_step(
            config,
            source_id,
            remapped,
            timed_out,
            ev,
        ).0,
        !(ev.source_id == source_id && ev.kind == 17) ==> click_step(
            config,
            source_id,
            remapped,
            timed_out,
            ev,
        ).0 == (remapped && !timed_out),
{
}

/// Only the two clicking keys' presses and releases (event types 13 and
/// 14) cause a command; the timer is told only of the watched device's
/// motion.
pub proof fn lemma_commands_only_for_clicking_keys(
    config: KeyboardClickConfig,
    source_id: u32,
    remapped: bool,
    timed_out: bool,
    ev: Event,
)
    ensures
        click_step(config, source_id, remapped, timed_out, ev).1.command is Some <==> (!(
        ev.source_id == source_id && ev.kind == 17) && (ev.kind == 13 || ev.kind == 14) && (
        ev.detail == config.key_lmb || ev.detail == config.key_rmb)),
        click_step(config, source_id, remapped, timed_out, ev).1.notify_timer <==> (ev.source_id
            == source_id && ev.kind == 17),
{
}

} // verus!
