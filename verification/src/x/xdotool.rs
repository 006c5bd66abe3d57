//! What is asked of `xdotool`: the argument lists of its commands, and the
//! reading of the cursor's height from what `xdotool getmouselocation`
//! prints.
use crate::decimal::{all_digits, decimal, lemma_digits_value_decimal, lemma_parse_decimal_u16, parse_u16, parse_u16_spec, to_decimal};
use vstd::prelude::*;

verus! {

/// Left mouse button.
pub const LEFT_BUTTON: u8 = 1;
/// Right mouse button.
pub const RIGHT_BUTTON: u8 = 3;
/// Mouse wheel rolled up.
pub const WHEEL_UP: u8 = 4;
/// Mouse wheel rolled down.
pub const WHEEL_DOWN: u8 = 5;
/// ASCII space, which separates the fields of `getmouselocation`.
pub const SPACE: u8 = 0x20;

/// `mousedown`
pub open spec fn word_mousedown() -> Seq<u8> {
    seq![0x6du8, 0x6fu8, 0x75u8, 0x73u8, 0x65u8, 0x64u8, 0x6fu8, 0x77u8, 0x6eu8]
}

/// `mouseup`
pub open spec fn word_mouseup() -> Seq<u8> {
    seq![0x6du8, 0x6fu8, 0x75u8, 0x73u8, 0x65u8, 0x75u8, 0x70u8]
}

/// `keydown`
pub open spec fn word_keydown() -> Seq<u8> {
    seq![0x6bu8, 0x65u8, 0x79u8, 0x64u8, 0x6fu8, 0x77u8, 0x6eu8]
}

/// `keyup`
pub open spec fn word_keyup() -> Seq<u8> {
    seq![0x6bu8, 0x65u8, 0x79u8, 0x75u8, 0x70u8]
}

fn mousedown() -> (w: Vec<u8>)
    ensures
        w@ == word_mousedown(),
{
    let w = vec![0x6du8, 0x6fu8, 0x75u8, 0x73u8, 0x65u8, 0x64u8, 0x6fu8, 0x77u8, 0x6eu8];
    assert(w@ =~= word_mousedown());
    w
}

fn mouseup() -> (w: Vec<u8>)
    ensures
        w@ == word_mouseup(),
{
    let w = vec![0x6du8, 0x6fu8, 0x75u8, 0x73u8, 0x65u8, 0x75u8, 0x70u8];
    assert(w@ =~= word_mouseup());
    w
}

fn keydown() -> (w: Vec<u8>)
    ensures
        w@ == word_keydown(),
{
    let w = vec![0x6bu8, 0x65u8, 0x79u8, 0x64u8, 0x6fu8, 0x77u8, 0x6eu8];
    assert(w@ =~= word_keydown());
    w
}

fn keyup() -> (w: Vec<u8>)
    ensures
        w@ == word_keyup(),
{
    let w = vec![0x6bu8, 0x65u8, 0x79u8, 0x75u8, 0x70u8];
    assert(w@ =~= word_keyup());
    w
}

/// A command for `xdotool`.
#[derive(Debug, Copy, Clone, PartialEq, Eq)]
pub enum XdotoolCommand {
    /// Press (`down`) or release a mouse button, the right one if `rmb`.
    Click { down: bool, rmb: bool },
    /// Press (`down`) or release the key with keycode `num`.
    Key { down: bool, num: u8 },
    /// Roll the mouse wheel once, up or down.
    Scroll { up: bool },
}

/// The arguments passed to `xdotool` for command `c`.
pub open spec fn command_args(c: XdotoolCommand) -> Seq<Seq<u8>> {
    match c {
        XdotoolCommand::Scroll { up } => {
            let button = decimal((if up { WHEEL_UP } else { WHEEL_DOWN }) as nat);
            seq![word_mousedown(), button, word_mouseup(), button]
        },
        XdotoolCommand::Click { down, rmb } => seq![
            if down { word_mousedown() } else { word_mouseup() },
            decimal((if rmb { RIGHT_BUTTON } else { LEFT_BUTTON }) as nat),
        ],
        XdotoolCommand::Key { down, num } => seq![
            if down { word_keydown() } else { word_keyup() },
            decimal(num as nat),
        ],
    }
}

/// Rolls the wheel up once.
pub fn scroll_up() -> (c: XdotoolCommand)
    ensures
        c == (XdotoolCommand::Scroll { up: true }),
{
    XdotoolCommand::Scroll { up: true }
}

/// Rolls the wheel down once.
pub fn scroll_down() -> (c: XdotoolCommand)
    ensures
        c == (XdotoolCommand::Scroll { up: false }),
{
    XdotoolCommand::Scroll { up: false }
}

/// Presses (`down`) or releases the left mouse button, or the right one if `rmb`.
pub fn click(down: bool, rmb: bool) -> (c: XdotoolCommand)
    ensures
        c == (XdotoolCommand::Click { down, rmb }),
{
    XdotoolCommand::Click { down, rmb }
}

/// Presses (`down`) or releases the key with keycode `num`.
pub fn key(down: bool, num: u8) -> (c: XdotoolCommand)
    ensures
        c == (XdotoolCommand::Key { down, num }),
{
    XdotoolCommand::Key { down, num }
}

impl XdotoolCommand {
    /// The arguments to run `xdotool` with.
    pub fn args(&self) -> (args: Vec<Vec<u8>>)
        ensures
            args@.map_values(|w: Vec<u8>| w@) == command_args(*self),
    {
        let mut args: Vec<Vec<u8>> = Vec::new();
        match *self {
            XdotoolCommand::Scroll { up } => {
                let button: u8 = if up { WHEEL_UP } else { WHEEL_DOWN };
                args.push(mousedown());
                args.push(to_decimal(button as u64));
                args.push(mouseup());
                args.push(to_decimal(button as u64));
            },
            XdotoolCommand::Click { down, rmb } => {
                args.push(if down { mousedown() } else { mouseup() });
                let button: u8 = if rmb { RIGHT_BUTTON } else { LEFT_BUTTON };
                args.push(to_decimal(button as u64));
            },
            XdotoolCommand::Key { down, num } => {
                args.push(if down { keydown() } else { keyup() });
                args.push(to_decimal(num as u64));
            },
        }
        assert(args@.map_values(|w: Vec<u8>| w@) =~= command_args(*self));
        args
    }
}

/// Index of the first `b` in `s` at or after `from`, or `s.len()`.
pub open spec fn find_byte(s: Seq<u8>, b: u8, from: int) -> int
    decreases s.len() - from,
{
    if from >= s.len() || from < 0 {
        s.len() as int
    } else if s[from] == b {
        from
    } else {
        find_byte(s, b, from + 1)
    }
}

/// The second space-separated field of `out`, if it has one.
pub open spec fn second_field(out: Seq<u8>) -> Option<Seq<u8>> {
    let first_end = find_byte(out, SPACE, 0);
    if first_end >= out.len() {
        None
    } else {
        Some(out.subrange(first_end + 1, find_byte(out, SPACE, first_end + 1)))
    }
}

/// The cursor's height in what `getmouselocation` prints
/// (`x:<x> y:<y> screen:<n> window:<id>`): the second field without its
/// two-byte label, read as a `u16`.
pub open spec fn current_y_spec(out: Seq<u8>) -> Option<u16> {
    match second_field(out) {
        None => None,
        Some(field) => if field.len() < 2 {
            None
        } else {
            parse_u16_spec(field.skip(2))
        },
    }
}

/// Where `find_byte` lands: at or after `from`, on a `b`, past no `b`.
pub proof fn lemma_find_byte_bounds(s: Seq<u8>, b: u8, from: int)
    requires
        0 <= from <= s.len(),
    ensures
        from <= find_byte(s, b, from) <= s.len(),
        find_byte(s, b, from) < s.len() ==> s[find_byte(s, b, from)] == b,
        forall|k: int| from <= k < find_byte(s, b, from) ==> s[k] != b,
    decreases s.len() - from,
{
    if from < s.len() && s[from] != b {
        lemma_find_byte_bounds(s, b, from + 1);
    }
}

/// Index of the first `b` in `s` at or after `from`, or `s.len()`.
fn find(s: &[u8], b: u8, from: usize) -> (i: usize)
    requires
        from <= s@.len(),
    ensures
        i == find_byte(s@, b, from as int),
{
    let mut i = from;
    while i < s.len() && s[i] != b
        invariant
            from <= i <= s@.len(),
            find_byte(s@, b, from as int) == find_byte(s@, b, i as int),
        decreases s@.len() - i,
    {
        i = i + 1;
    }
    i
}

/// Reads the cursor's height from the output of `xdotool getmouselocation`;
/// `None` where that output has no such value.
pub fn parse_current_y(out: &[u8]) -> (y: Option<u16>)
    ensures
        y == current_y_spec(out@),
{
    let first_end = find(out, SPACE, 0);
    if first_end >= out.len() {
        return None;
    }
    proof {
        lemma_find_byte_bounds(out@, SPACE, 0);
        lemma_find_byte_bounds(out@, SPACE, first_end + 1);
    }
    let end = find(out, SPACE, first_end + 1);
    let start = first_end + 1;
    if end - start < 2 {
        return None;
    }
    let digits = vstd::slice::slice_subrange(out, start + 2, end);
    assert(digits@ =~= out@.subrange(start as int, end as int).skip(2));
    parse_u16(digits)
}

/// `find_byte` stops at the first `b`: given that none occurs from `from`
/// up to `at`, and `at` holds one (or is the end), it finds `at`.
pub proof fn lemma_find_first(s: Seq<u8>, b: u8, from: int, at: int)
    requires
        0 <= from <= at <= s.len(),
        forall|k: int| from <= k < at ==> s[k] != b,
        at == s.len() || s[at] == b,
    ensures
        find_byte(s, b, from) == at,
    decreases at - from,
{
    if from < at {
        lemma_find_first(s, b, from + 1, at);
    }
}

/// `y:`
pub open spec fn word_y_label() -> Seq<u8> {
    seq![0x79u8, 0x3au8]
}

/// The height that `getmouselocation` prints is the height read back:
/// whatever the first field (without spaces) and whatever follows after a
/// space, a second field `y:<y>` reads as `y`.
pub proof fn lemma_reads_printed_y(first: Seq<u8>, y: u16, rest: Seq<u8>)
    requires
        forall|i: int| 0 <= i < first.len() ==> first[i] != SPACE,
        rest.len() == 0 || rest[0] == SPACE,
    ensures
        current_y_spec(first + seq![SPACE] + word_y_label() + decimal(y as nat) + rest) == Some(y),
{
    let d = decimal(y as nat);
    let field = word_y_label() + d;
    let out = first + seq![SPACE] + field + rest;
    assert(out =~= first + seq![SPACE] + word_y_label() + d + rest);
    lemma_digits_value_decimal(y as nat);
    lemma_parse_decimal_u16(y);
    let start: int = first.len() as int + 1;
    let end: int = start + field.len();
    assert forall|k: int| 0 <= k < first.len() implies out[k] != SPACE by {
        assert(out[k] == first[k]);
    }
    lemma_find_first(out, SPACE, 0, first.len() as int);
    assert forall|k: int| start <= k < end implies out[k] != SPACE by {
        assert(out[k] == field[k - start]);
        if k - start >= 2 {
            assert(field[k - start] == d[k - start - 2]);
            assert(all_digits(d));
        }
    }
    assert(end == out.len() || out[end] == SPACE) by {
        if end < out.len() {
            assert(out[end] == rest[0]);
        }
    }
    lemma_find_first(out, SPACE, start, end);
    assert(out.subrange(start, end) =~= field);
    assert(field.skip(2) =~= d);
}

} // verus!
