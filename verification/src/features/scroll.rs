use crate::x::xlib::{device_id, Event, XLib, XI_RawButtonPress, XI_RawButtonRelease, XI_RawKeyPress};
use vstd::prelude::*;

verus! {

/// How much accumulated motion makes one emulated mouse-wheel roll.
pub const THRESHOLD: i64 = 1_000_000_000;

/// How often the scrolling loop ticks, in milliseconds.
pub const SCROLL_TICK_MS: u64 = 16;

/// What a tick contributes per pixel of distance and unit of speed
/// (the tick interval is four times the nominal one).
pub const TICK_FACTOR: i64 = 4;

/// Progress after the reset that happens when the cursor crosses to the
/// other side of the starting point.
pub open spec fn after_reset(diff: int, progress: int) -> int {
    if (diff < 0 && progress > 0) || (diff > 0 && progress < 0) {
        0
    } else {
        progress
    }
}

/// Progress after a tick has added its contribution, before any roll.
pub open spec fn accumulated(diff: int, speed: int, progress: int) -> int {
    after_reset(diff, progress) + TICK_FACTOR * (diff * speed)
}

/// Number of downward rolls that `acc` pays for: while it exceeds the
/// threshold, one roll is emitted and the threshold taken off.
pub open spec fn rolls_down(acc: int) -> int {
    if acc > THRESHOLD {
        (acc - 1) / (THRESHOLD as int)
    } else {
        0
    }
}

/// Number of upward rolls that `acc` pays for (the mirror image).
pub open spec fn rolls_up(acc: int) -> int {
    if acc < -THRESHOLD {
        (-acc - 1) / (THRESHOLD as int)
    } else {
        0
    }
}

/// What is left of `acc` once the rolls are paid.
pub open spec fn leftover(acc: int) -> int {
    acc - rolls_down(acc) * THRESHOLD + rolls_up(acc) * THRESHOLD
}

/// Wheel rolls that one tick asks for.
#[derive(Clone, Copy, Debug, PartialEq, Eq)]
pub struct WheelRolls {
    /// Rolls of the wheel down (button 5).
    pub down: u64,
    /// Rolls of the wheel up (button 4).
    pub up: u64,
}

/// Abstract state of the scrolling loop.
pub struct ScrollThreadView {
    pub speed: int,
    pub original_y: int,
    pub progress: int,
}

/// State of the auto-scrolling loop that runs while scrolling mode is on:
/// the speed, the cursor's height when scrolling started, and the motion
/// accumulated towards the next wheel roll.
pub struct ScrollThread {
    speed: i64,
    original_y: u16,
    progress_towards_next_event: i64,
}

impl View for ScrollThread {
    type V = ScrollThreadView;

    closed spec fn view(&self) -> ScrollThreadView {
        ScrollThreadView {
            speed: self.speed as int,
            original_y: self.original_y as int,
            progress: self.progress_towards_next_event as int,
        }
    }
}

impl ScrollThread {
    /// The speed comes from a `u32`, and between ticks the accumulated
    /// progress never exceeds the threshold in either direction.
    pub open spec fn wf(&self) -> bool {
        &&& 0 <= self@.speed <= u32::MAX
        &&& 0 <= self@.original_y <= u16::MAX
        &&& -THRESHOLD <= self@.progress <= THRESHOLD
    }

    /// Starts scrolling at cursor height `original_y`.
    pub fn new(speed: u32, original_y: u16) -> (s: ScrollThread)
        ensures
            s.wf(),
            s@.speed == speed,
            s@.original_y == original_y,
            s@.progress == 0,
    {
        ScrollThread { speed: speed as i64, original_y, progress_towards_next_event: 0 }
    }

    /// One tick of the loop, with the cursor now at height `current_y`.
    /// Moving below the starting point accumulates progress towards rolling
    /// down, above it towards rolling up; crossing over discards progress
    /// made in the other direction.
    pub fn tick(&mut self, current_y: u16) -> (rolls: WheelRolls)
        requires
            old(self).wf(),
        ensures
            final(self).wf(),
            final(self)@.speed == old(self)@.speed,
            final(self)@.original_y == old(self)@.original_y,
            ({
                let acc = accumulated(
                    current_y - old(self)@.original_y,
                    old(self)@.speed,
                    old(self)@.progress,
                );
                &&& rolls.down == rolls_down(acc)
                &&& rolls.up == rolls_up(acc)
                &&& final(self)@.progress == leftover(acc)
            }),
    {
        let diff: i64 = current_y as i64 - self.original_y as i64;
        let mut progress: i64 = self.progress_towards_next_event;
        if diff < 0 && progress > 0 {
            progress = 0;
        }
        if diff > 0 && progress < 0 {
            progress = 0;
        }
        let speed: i64 = self.speed;
        assert(-0xffff * 0xffff_ffff <= diff * speed <= 0xffff * 0xffff_ffff) by (nonlinear_arith)
            requires
                -0xffff <= diff <= 0xffff,
                0 <= speed <= 0xffff_ffff,
        ;
        let step: i64 = TICK_FACTOR * (diff * speed);
        progress = progress + step;
        let ghost acc = progress as int;
        let mut rolls = WheelRolls { down: 0, up: 0 };
        if progress > THRESHOLD {
            let n: i64 = (progress - 1) / THRESHOLD;
            progress = progress - n * THRESHOLD;
            rolls.down = n as u64;
        } else if progress < -THRESHOLD {
            let n: i64 = (-progress - 1) / THRESHOLD;
            progress = progress + n * THRESHOLD;
            rolls.up = n as u64;
        }
        self.progress_towards_next_event = progress;
        rolls
    }
}


/// Configuration of the auto-scrolling feature.
#[derive(Clone, Debug)]
pub struct ScrollConfig {
    /// Name of the device whose button toggles scrolling.
    pub device: String,
    /// Which of the devices with that name (counting from 0).
    pub subdevice: u32,
    /// Scroll only while the button is held (otherwise a click toggles).
    pub hold: bool,
    /// Scrolling speed: speed times distance in pixels, divided by
    /// [`THRESHOLD`], is the number of wheel rolls per nominal interval.
    pub speed: u32,
    /// The button that toggles scrolling.
    pub button_id: u8,
    /// Whether to show an indicator where scrolling started.
    pub indicator: bool,
    /// Size of the indicator.
    pub indicator_size: u16,
    /// Whether a key press stops scrolling.
    pub cancel_on_keypress: bool,
}

/// What the program does when scrolling is toggled.
#[derive(Debug, Copy, Clone, PartialEq, Eq)]
pub enum Toggle {
    /// Start the scrolling loop with this speed, and show the indicator
    /// where scrolling starts if `show_indicator`.
    Start { speed: u32, show_indicator: bool },
    /// Stop the scrolling loop, and hide the indicator if `hide_indicator`.
    Stop { hide_indicator: bool },
}

/// The auto-scrolling feature: which device it listens to and whether
/// scrolling mode is on.
pub struct Scroll<'a> {
    config: &'a ScrollConfig,
    source_id: u32,
    scrolling: bool,
}

/// The event types the scrolling feature selects.
pub open spec fn scroll_grabs(cancel_on_keypress: bool) -> Set<i32> {
    if cancel_on_keypress {
        set![XI_RawButtonPress, XI_RawButtonRelease, XI_RawKeyPress]
    } else {
        set![XI_RawButtonPress, XI_RawButtonRelease]
    }
}

/// What toggling does when scrolling mode is `scrolling`.
pub open spec fn toggle_action(config: ScrollConfig, scrolling: bool) -> Toggle {
    if scrolling {
        Toggle::Stop { hide_indicator: config.indicator }
    } else {
        Toggle::Start { speed: config.speed, show_indicator: config.indicator }
    }
}

/// Whether event `ev` toggles scrolling mode: a press of the button; in
/// hold mode, its release while scrolling; and, when configured, a key
/// press while scrolling.
pub open spec fn toggles(config: ScrollConfig, source_id: u32, scrolling: bool, ev: Event) -> bool {
    if ev.source_id == source_id && ev.detail == config.button_id {
        ev.kind == XI_RawButtonPress || (config.hold && ev.kind == XI_RawButtonRelease && scrolling)
    } else {
        config.cancel_on_keypress && ev.kind == XI_RawKeyPress && scrolling
    }
}

/// Scrolling mode after event `ev`, and the toggle it causes.
pub open spec fn scroll_step(config: ScrollConfig, source_id: u32, scrolling: bool, ev: Event) -> (bool, Option<Toggle>) {
    if toggles(config, source_id, scrolling, ev) {
        (!scrolling, Some(toggle_action(config, scrolling)))
    } else {
        (scrolling, None)
    }
}

impl<'a> Scroll<'a> {
    pub closed spec fn config(&self) -> ScrollConfig {
        *self.config
    }

    pub closed spec fn source_id(&self) -> u32 {
        self.source_id
    }

    /// Whether scrolling mode is on.
    pub closed spec fn is_scrolling(&self) -> bool {
        self.scrolling
    }

    /// Sets up the feature for the configured device, selecting button
    /// events (and key presses, when they cancel scrolling). Gives `None`,
    /// selecting nothing, when no such device exists.
    pub fn new(config: &'a ScrollConfig, x: &mut XLib) -> (s: Option<Scroll<'a>>)
        ensures
            final(x)@.devices == old(x)@.devices,
            final(x)@.xi_opcode == old(x)@.xi_opcode,
            match s {
                None => {
                    &&& device_id(old(x)@.devices, config.device@, config.subdevice as int) is None
                    &&& final(x)@.grabs == old(x)@.grabs
                },
                Some(s) => {
                    &&& device_id(old(x)@.devices, config.device@, config.subdevice as int)
                        == Some(s.source_id())
                    &&& s.config() == *config
                    &&& !s.is_scrolling()
                    &&& final(x)@.grabs == old(x)@.grabs.union(scroll_grabs(config.cancel_on_keypress))
                },
            },
    {
        let source_id = match x.get_device_id(config.device.as_str(), config.subdevice) {
            Some(id) => id,
            None => return None,
        };
        let ghost grabs0 = x@.grabs;
        let buttons: [i32; 2] = [XI_RawButtonPress, XI_RawButtonRelease];
        x.grab(&buttons);
        assert(buttons@.to_set() =~= set![XI_RawButtonPress, XI_RawButtonRelease]) by {
            assert(buttons@.contains(XI_RawButtonPress) && buttons@[0] == XI_RawButtonPress);
            assert(buttons@[1] == XI_RawButtonRelease);
        }
        if config.cancel_on_keypress {
            let keys: [i32; 1] = [XI_RawKeyPress];
            x.grab(&keys);
            assert(keys@.to_set() =~= set![XI_RawKeyPress]) by {
                assert(keys@[0] == XI_RawKeyPress);
            }
        }
        assert(x@.grabs =~= grabs0.union(scroll_grabs(config.cancel_on_keypress)));
        Some(Scroll { config, source_id, scrolling: false })
    }

    /// Reacts to an input event: a press of the configured button toggles
    /// scrolling, in hold mode its release stops scrolling, and a key press stops
    /// scrolling when configured to.
    pub fn handle(&mut self, ev: &Event) -> (t: Option<Toggle>)
        ensures
            final(self).config() == old(self).config(),
            final(self).source_id() == old(self).source_id(),
            (final(self).is_scrolling(), t) == scroll_step(
                old(self).config(),
                old(self).source_id(),
                old(self).is_scrolling(),
                *ev,
            ),
    {
        if ev.source_id == self.source_id && ev.detail == self.config.button_id {
            if ev.kind == XI_RawButtonPress {
                Some(self.toggle())
            } else if self.config.hold && ev.kind == XI_RawButtonRelease && self.scrolling {
                Some(self.toggle())
            } else {
                None
            }
        } else if self.config.cancel_on_keypress && ev.kind == XI_RawKeyPress {
            if self.scrolling {
                Some(self.toggle())
            } else {
                None
            }
        } else {
            None
        }
    }

    /// Switches scrolling mode on or off.
    pub fn toggle(&mut self) -> (t: Toggle)
        ensures
            final(self).config() == old(self).config(),
            final(self).source_id() == old(self).source_id(),
            final(self).is_scrolling() == !old(self).is_scrolling(),
            t == toggle_action(old(self).config(), old(self).is_scrolling()),
    {
        if self.scrolling {
            self.scrolling = false;
            Toggle::Stop { hide_indicator: self.config.indicator }
        } else {
            self.scrolling = true;
            Toggle::Start { speed: self.config.speed, show_indicator: self.config.indicator }
        }
    }
}

/// Each roll pays for exactly one threshold of accumulated motion: the
/// rolls down, less the rolls up, times the threshold, plus what is left,
/// is the progress after the tick's contribution. Whatever remains stays
/// within one threshold and on the side it came from.
pub proof fn lemma_tick_accounts_for_motion(acc: int)
    ensures
        rolls_down(acc) * THRESHOLD - rolls_up(acc) * THRESHOLD + leftover(acc) == acc,
        rolls_down(acc) >= 0,
        rolls_up(acc) >= 0,
        rolls_down(acc) == 0 || rolls_up(acc) == 0,
        -THRESHOLD <= leftover(acc) <= THRESHOLD,
        acc > 0 ==> 0 < leftover(acc),
        acc < 0 ==> leftover(acc) < 0,
        acc == 0 ==> leftover(acc) == 0,
{
}

/// The wheel rolls towards the cursor: down only when the cursor is below
/// the point where scrolling started, up only when it is above, and not at
/// all when it is on the same height.
pub proof fn lemma_rolls_follow_cursor(s: ScrollThread, current_y: u16)
    requires
        s.wf(),
    ensures
        ({
            let diff = current_y - s@.original_y;
            let acc = accumulated(diff, s@.speed, s@.progress);
            &&& rolls_down(acc) > 0 ==> current_y > s@.original_y
            &&& rolls_up(acc) > 0 ==> current_y < s@.original_y
        }),
{
    let diff = current_y - s@.original_y;
    let speed = s@.speed;
    if diff <= 0 {
        assert(diff * speed <= 0) by (nonlinear_arith)
            requires
                diff <= 0,
                speed >= 0,
        ;
    }
    if diff >= 0 {
        assert(diff * speed >= 0) by (nonlinear_arith)
            requires
                diff >= 0,
                speed >= 0,
        ;
    }
}

/// The farther the cursor is from where scrolling started, the faster the
/// wheel rolls: from the same state, a cursor farther below the start
/// gives at least as many rolls down, and one farther above at least as
/// many rolls up.
pub proof fn lemma_farther_scrolls_faster(s: ScrollThread, y1: u16, y2: u16)
    requires
        s.wf(),
    ensures
        s@.original_y <= y1 <= y2 ==> rolls_down(
            accumulated(y1 - s@.original_y, s@.speed, s@.progress),
        ) <= rolls_down(accumulated(y2 - s@.original_y, s@.speed, s@.progress)),
        y2 <= y1 <= s@.original_y ==> rolls_up(
            accumulated(y1 - s@.original_y, s@.speed, s@.progress),
        ) <= rolls_up(accumulated(y2 - s@.original_y, s@.speed, s@.progress)),
{
    let o = s@.original_y;
    let speed = s@.speed;
    let p = s@.progress;
    let d1 = y1 - o;
    let d2 = y2 - o;
    let a1 = accumulated(d1, speed, p);
    let a2 = accumulated(d2, speed, p);
    if o <= y1 <= y2 {
        assert(d1 * speed <= d2 * speed) by (nonlinear_arith)
            requires
                0 <= d1 <= d2,
                speed >= 0,
        ;
        assert(d1 * speed >= 0) by (nonlinear_arith)
            requires
                0 <= d1,
                speed >= 0,
        ;
        assert(a1 <= a2);
        if a1 > THRESHOLD {
            vstd::arithmetic::div_mod::lemma_div_is_ordered(a1 - 1, a2 - 1, THRESHOLD as int);
        }
    }
    if y2 <= y1 <= o {
        assert(d2 * speed <= d1 * speed) by (nonlinear_arith)
            requires
                d2 <= d1 <= 0,
                speed >= 0,
        ;
        assert(d1 * speed <= 0) by (nonlinear_arith)
            requires
                d1 <= 0,
                speed >= 0,
        ;
        assert(a2 <= a1);
        if a1 < -THRESHOLD {
            vstd::arithmetic::div_mod::lemma_div_is_ordered(-a1 - 1, -a2 - 1, THRESHOLD as int);
        }
    }
}

/// Two presses of the button (not in hold mode) turn scrolling on and off
/// again, or off and on again: the mode is back where it was, and the two
/// toggles are a start and a stop.
pub proof fn lemma_two_clicks_toggle_back(config: ScrollConfig, source_id: u32, scrolling: bool, ev: Event)
    requires
        ev.source_id == source_id,
        ev.detail == config.button_id,
        ev.kind == XI_RawButtonPress,
    ensures
        ({
            let (s1, t1) = scroll_step(config, source_id, scrolling, ev);
            let (s2, t2) = scroll_step(config, source_id, s1, ev);
            &&& s2 == scrolling
            &&& s1 == !scrolling
            &&& t1 == Some(toggle_action(config, scrolling))
            &&& t2 == Some(toggle_action(config, !scrolling))
            &&& (t1 == Some(Toggle::Stop { hide_indicator: config.indicator }) || t2 == Some(
                Toggle::Stop { hide_indicator: config.indicator },
            ))
        }),
{
}

/// The indicator follows the configuration: starting scrolling shows it,
/// and stopping hides it, exactly when `indicator` is set.
pub proof fn lemma_indicator_follows_config(config: ScrollConfig, scrolling: bool)
    ensures
        toggle_action(config, scrolling) == (if scrolling {
            Toggle::Stop { hide_indicator: config.indicator }
        } else {
            Toggle::Start { speed: config.speed, show_indicator: config.indicator }
        }),
        !config.indicator ==> match toggle_action(config, scrolling) {
            Toggle::Start { show_indicator, .. } => !show_indicator,
            Toggle::Stop { hide_indicator } => !hide_indicator,
        },
{
}

/// In hold mode, scrolling lasts while the button is held: from rest, a
/// press starts it and the release stops it.
pub proof fn lemma_hold_scrolls_while_held(config: ScrollConfig, source_id: u32, press: Event, release: Event)
    requires
        config.hold,
        press.source_id == source_id && press.detail == config.button_id && press.kind
            == XI_RawButtonPress,
        release.source_id == source_id && release.detail == config.button_id && release.kind
            == XI_RawButtonRelease,
    ensures
        ({
            let (s1, t1) = scroll_step(config, source_id, false, press);
            let (s2, t2) = scroll_step(config, source_id, s1, release);
            &&& s1 && t1 == Some(Toggle::Start { speed: config.speed, show_indicator: config.indicator })
            &&& !s2 && t2 == Some(Toggle::Stop { hide_indicator: config.indicator })
        }),
{
}

/// Releasing a button never turns scrolling on. In hold mode, releasing
/// the configured button leaves scrolling off: it stops scrolling if it is
/// on, and changes nothing if it is off (for instance after a key press
/// cancelled it while the button was held).
pub proof fn lemma_release_never_starts(config: ScrollConfig, source_id: u32, scrolling: bool, release: Event)
    requires
        release.kind == XI_RawButtonRelease,
    ensures
        scroll_step(config, source_id, scrolling, release).0 ==> scrolling,
        config.hold && release.source_id == source_id && release.detail == config.button_id ==> {
            &&& !scroll_step(config, source_id, scrolling, release).0
            &&& scroll_step(config, source_id, scrolling, release).1 == (if scrolling {
                Some(Toggle::Stop { hide_indicator: config.indicator })
            } else {
                None::<Toggle>
            })
        },
{
}

/// Outside hold mode, releasing the button changes nothing.
pub proof fn lemma_release_ignored_without_hold(config: ScrollConfig, source_id: u32, scrolling: bool, ev: Event)
    requires
        !config.hold,
        ev.kind == XI_RawButtonRelease,
    ensures
        scroll_step(config, source_id, scrolling, ev) == (scrolling, None::<Toggle>),
{
}

/// When key presses cancel scrolling, a key press stops scrolling if it is
/// on, and does nothing if it is off (unless the press is the device's own
/// button event).
pub proof fn lemma_keypress_only_stops(config: ScrollConfig, source_id: u32, scrolling: bool, ev: Event)
    requires
        config.cancel_on_keypress,
        ev.kind == XI_RawKeyPress,
        !(ev.source_id == source_id && ev.detail == config.button_id),
    ensures
        scroll_step(config, source_id, scrolling, ev) == (if scrolling {
            (false, Some(Toggle::Stop { hide_indicator: config.indicator }))
        } else {
            (false, None::<Toggle>)
        }),
{
}

/// Rolls down, rolls up, and the progress left after `n` ticks with the
/// cursor held at `current_y`, from progress `progress`: the tick's
/// contract applied `n` times.
pub open spec fn scroll_run(speed: int, original_y: int, progress: int, current_y: int, n: nat) -> (int, int, int)
    decreases n,
{
    if n == 0 {
        (0, 0, progress)
    } else {
        let (down, up, p) = scroll_run(speed, original_y, progress, current_y, (n - 1) as nat);
        let acc = accumulated(current_y - original_y, speed, p);
        (down + rolls_down(acc), up + rolls_up(acc), leftover(acc))
    }
}

/// Paying the rolls of `x` first and then those of what remains of `y`
/// comes to the rolls of `y`, when `0 <= x <= y`.
proof fn lemma_rolls_down_split(x: int, y: int)
    requires
        0 <= x <= y,
    ensures
        y - rolls_down(x) * THRESHOLD >= 0,
        rolls_down(x) + rolls_down(y - rolls_down(x) * THRESHOLD) == rolls_down(y),
        leftover(y - rolls_down(x) * THRESHOLD) == y - rolls_down(y) * THRESHOLD,
        rolls_up(y - rolls_down(x) * THRESHOLD) == 0,
{
    let t = THRESHOLD as int;
    if x > t {
        let r = rolls_down(x);
        assert(r * t <= x - 1 < (r + 1) * t);
        let z = y - r * t;
        if z > t {
            assert((z - 1) / t == (y - 1) / t - r) by {
                let q = (y - 1) / t;
                let m = (y - 1) % t;
                vstd::arithmetic::div_mod::lemma_fundamental_div_mod(y - 1, t);
                vstd::arithmetic::div_mod::lemma_fundamental_div_mod_converse(z - 1, t, q - r, m);
            }
        } else {
            assert(r * t <= y - 1 < (r + 1) * t);
            assert((y - 1) / t == r) by {
                vstd::arithmetic::div_mod::lemma_fundamental_div_mod_converse(y - 1, t, r, y - 1 - r * t);
            }
        }
    }
}

/// With the cursor held below the start, the rolls down after `n >= 1`
/// ticks are those of the whole motion accumulated since the first tick,
/// and no roll goes up.
proof fn lemma_run_below(speed: int, original_y: int, p0: int, current_y: int, n: nat)
    requires
        speed >= 0,
        current_y > original_y,
        -THRESHOLD <= p0 <= THRESHOLD,
        n >= 1,
    ensures
        ({
            let c = TICK_FACTOR * ((current_y - original_y) * speed);
            let a = (if p0 > 0 { p0 } else { 0 }) + n * c;
            let (down, up, p) = scroll_run(speed, original_y, p0, current_y, n);
            &&& c >= 0
            &&& a >= 0
            &&& down == rolls_down(a)
            &&& up == 0
            &&& p == a - rolls_down(a) * THRESHOLD
        }),
    decreases n,
{
    let d = current_y - original_y;
    let c = TICK_FACTOR * (d * speed);
    assert(d * speed >= 0) by (nonlinear_arith)
        requires
            d > 0,
            speed >= 0,
    ;
    let base = if p0 > 0 { p0 } else { 0 };
    assert(n * c >= 0) by (nonlinear_arith)
        requires
            c >= 0,
    ;
    if n > 1 {
        let m = (n - 1) as nat;
        lemma_run_below(speed, original_y, p0, current_y, m);
        let a0 = base + m * c;
        let a = base + n * c;
        assert(a == a0 + c) by (nonlinear_arith)
            requires
                a == base + n * c,
                a0 == base + m * c,
                m == n - 1,
        ;
        lemma_tick_accounts_for_motion(a0);
        lemma_rolls_down_split(a0, a);
        let (d0, u0, p) = scroll_run(speed, original_y, p0, current_y, m);
        assert(p >= 0);
        assert(after_reset(d, p) == p);
        let acc = accumulated(d, speed, p);
        assert(acc == a - rolls_down(a0) * THRESHOLD);
        assert(scroll_run(speed, original_y, p0, current_y, n) == (d0 + rolls_down(acc), u0
            + rolls_up(acc), leftover(acc)));
    } else {
        assert(n * c == c) by (nonlinear_arith)
            requires
                n == 1,
        ;
        lemma_rolls_down_split(0, base + c);
        assert(scroll_run(speed, original_y, p0, current_y, 0) == (0int, 0int, p0));
        assert(after_reset(d, p0) == base);
        let acc = accumulated(d, speed, p0);
        assert(acc == base + c);
        assert(scroll_run(speed, original_y, p0, current_y, n) == (0 + rolls_down(acc), 0
            + rolls_up(acc), leftover(acc)));
    }
}

/// The mirror image: with the cursor held above the start, the rolls up
/// after `n >= 1` ticks are those of the whole accumulated motion.
proof fn lemma_run_above(speed: int, original_y: int, p0: int, current_y: int, n: nat)
    requires
        speed >= 0,
        current_y < original_y,
        -THRESHOLD <= p0 <= THRESHOLD,
        n >= 1,
    ensures
        ({
            let c = TICK_FACTOR * ((original_y - current_y) * speed);
            let a = (if p0 < 0 { -p0 } else { 0 }) + n * c;
            let (down, up, p) = scroll_run(speed, original_y, p0, current_y, n);
            &&& c >= 0
            &&& a >= 0
            &&& up == rolls_down(a)
            &&& down == 0
            &&& p == -(a - rolls_down(a) * THRESHOLD)
        }),
    decreases n,
{
    let d = original_y - current_y;
    let c = TICK_FACTOR * (d * speed);
    assert(d * speed >= 0) by (nonlinear_arith)
        requires
            d > 0,
            speed >= 0,
    ;
    assert((current_y - original_y) * speed == -(d * speed)) by (nonlinear_arith)
        requires
            d == original_y - current_y,
    ;
    let base = if p0 < 0 { -p0 } else { 0 };
    assert(n * c >= 0) by (nonlinear_arith)
        requires
            c >= 0,
    ;
    if n > 1 {
        let m = (n - 1) as nat;
        lemma_run_above(speed, original_y, p0, current_y, m);
        let a0 = base + m * c;
        let a = base + n * c;
        assert(a == a0 + c) by (nonlinear_arith)
            requires
                a == base + n * c,
                a0 == base + m * c,
                m == n - 1,
        ;
        lemma_tick_accounts_for_motion(a0);
        lemma_rolls_down_split(a0, a);
        let (d0, u0, p) = scroll_run(speed, original_y, p0, current_y, m);
        assert(p <= 0);
        let e = current_y - original_y;
        assert(after_reset(e, p) == p);
        let acc = accumulated(e, speed, p);
        assert(acc == -(a - rolls_down(a0) * THRESHOLD));
        lemma_mirror(a - rolls_down(a0) * THRESHOLD);
        assert(scroll_run(speed, original_y, p0, current_y, n) == (d0 + rolls_down(acc), u0
            + rolls_up(acc), leftover(acc)));
    } else {
        assert(n * c == c) by (nonlinear_arith)
            requires
                n == 1,
        ;
        lemma_rolls_down_split(0, base + c);
        lemma_mirror(base + c);
        let e = current_y - original_y;
        assert(scroll_run(speed, original_y, p0, current_y, 0) == (0int, 0int, p0));
        assert(after_reset(e, p0) == -base);
        let acc = accumulated(e, speed, p0);
        assert(acc == -(base + c));
        assert(scroll_run(speed, original_y, p0, current_y, n) == (0 + rolls_down(acc), 0
            + rolls_up(acc), leftover(acc)));
    }
}

/// Rolling up is rolling down mirrored.
proof fn lemma_mirror(a: int)
    ensures
        rolls_up(-a) == rolls_down(a),
        rolls_down(-a) == rolls_up(a),
        leftover(-a) == -leftover(a),
{
}

/// With the cursor held at the start, nothing rolls and the progress stays.
proof fn lemma_run_at_start(speed: int, original_y: int, p0: int, n: nat)
    requires
        -THRESHOLD <= p0 <= THRESHOLD,
    ensures
        scroll_run(speed, original_y, p0, original_y, n) == (0int, 0int, p0),
    decreases n,
{
    if n > 0 {
        lemma_run_at_start(speed, original_y, p0, (n - 1) as nat);
        assert(0 * speed == 0);
    }
}

/// The farther the cursor is held from where scrolling started, the faster
/// the wheel rolls, over any number of ticks: two scrolling sessions with
/// the same speed and start, the cursor held at two distances on the same
/// side, roll at least as often for the farther one.
pub proof fn lemma_farther_scrolls_faster_over_time(s: ScrollThread, y1: u16, y2: u16, n: nat)
    requires
        s.wf(),
    ensures
        s@.original_y <= y1 <= y2 ==> scroll_run(s@.speed, s@.original_y, s@.progress, y1 as int, n).0
            <= scroll_run(s@.speed, s@.original_y, s@.progress, y2 as int, n).0,
        y2 <= y1 <= s@.original_y ==> scroll_run(s@.speed, s@.original_y, s@.progress, y1 as int, n).1
            <= scroll_run(s@.speed, s@.original_y, s@.progress, y2 as int, n).1,
{
    let sp = s@.speed;
    let o = s@.original_y;
    let p0 = s@.progress;
    if n == 0 {
        return;
    }
    if o <= y1 <= y2 {
        if y1 == o {
            lemma_run_at_start(sp, o, p0, n);
            if y2 == o {
            } else {
                lemma_run_below(sp, o, p0, y2 as int, n);
            }
        } else {
            lemma_run_below(sp, o, p0, y1 as int, n);
            lemma_run_below(sp, o, p0, y2 as int, n);
            let c1 = TICK_FACTOR * ((y1 - o) * sp);
            let c2 = TICK_FACTOR * ((y2 - o) * sp);
            assert(n * c1 <= n * c2) by (nonlinear_arith)
                requires
                    0 < y1 - o <= y2 - o,
                    sp >= 0,
                    c1 == 4 * ((y1 - o) * sp),
                    c2 == 4 * ((y2 - o) * sp),
            ;
            let base = if p0 > 0 { p0 } else { 0 };
            let a1 = base + n * c1;
            let a2 = base + n * c2;
            if a1 > THRESHOLD {
                vstd::arithmetic::div_mod::lemma_div_is_ordered(a1 - 1, a2 - 1, THRESHOLD as int);
            }
        }
    }
    if y2 <= y1 <= o {
        if y1 == o {
            lemma_run_at_start(sp, o, p0, n);
            if y2 == o {
            } else {
                lemma_run_above(sp, o, p0, y2 as int, n);
            }
        } else {
            lemma_run_above(sp, o, p0, y1 as int, n);
            lemma_run_above(sp, o, p0, y2 as int, n);
            let c1 = TICK_FACTOR * ((o - y1) * sp);
            let c2 = TICK_FACTOR * ((o - y2) * sp);
            assert(n * c1 <= n * c2) by (nonlinear_arith)
                requires
                    0 < o - y1 <= o - y2,
                    sp >= 0,
                    c1 == 4 * ((o - y1) * sp),
                    c2 == 4 * ((o - y2) * sp),
            ;
            let base = if p0 < 0 { -p0 } else { 0 };
            let a1 = base + n * c1;
            let a2 = base + n * c2;
            if a1 > THRESHOLD {
                vstd::arithmetic::div_mod::lemma_div_is_ordered(a1 - 1, a2 - 1, THRESHOLD as int);
            }
        }
    }
}

/// Only the configured button of the watched device and, when configured,
/// key presses (event type 13) matter: any other event, such as another
/// button of the same device, motion, or another device's button, leaves
/// scrolling as it is and asks for nothing.
pub proof fn lemma_other_events_change_nothing(config: ScrollConfig, source_id: u32, scrolling: bool, ev: Event)
    requires
        !(ev.source_id == source_id && ev.detail == config.button_id),
        !(config.cancel_on_keypress && ev.kind == 13),
    ensures
        scroll_step(config, source_id, scrolling, ev) == (scrolling, None::<Toggle>),
{
}

/// Scrolling mode only ever flips, and only together with the matching
/// toggle: turning on starts the loop, turning off stops it.
pub proof fn lemma_mode_flips_with_toggle(config: ScrollConfig, source_id: u32, scrolling: bool, ev: Event)
    ensures
        ({
            let (after, t) = scroll_step(config, source_id, scrolling, ev);
            &&& t is None <==> after == scrolling
            &&& after && !scrolling ==> t == Some(
                Toggle::Start { speed: config.speed, show_indicator: config.indicator },
            )
            &&& !after && scrolling ==> t == Some(Toggle::Stop { hide_indicator: config.indicator })
        }),
{
}

} // verus!
