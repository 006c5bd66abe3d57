//! Keyboard remapping: a transaction collects key bindings, and committing
//! it writes the script that `xmodmap -` reads from its standard input.
use crate::decimal::{all_digits, decimal, digits_value, lemma_digits_value_decimal, push_decimal};
use crate::x::xdotool::{find_byte, lemma_find_first, SPACE};
use vstd::prelude::*;

verus! {

/// ASCII line feed.
pub const NEWLINE: u8 = 0x0a;

/// `keycode `
pub open spec fn word_keycode() -> Seq<u8> {
    seq![0x6bu8, 0x65u8, 0x79u8, 0x63u8, 0x6fu8, 0x64u8, 0x65u8, 0x20u8]
}

/// ` = `
pub open spec fn word_equals() -> Seq<u8> {
    seq![0x20u8, 0x3du8, 0x20u8]
}

/// `NoSymbol`
pub open spec fn word_nosymbol() -> Seq<u8> {
    seq![0x4eu8, 0x6fu8, 0x53u8, 0x79u8, 0x6du8, 0x62u8, 0x6fu8, 0x6cu8]
}

/// How a keysym is written: its number, or `NoSymbol` for keysym 0.
pub open spec fn keysym_text(keysym: u64) -> Seq<u8> {
    if keysym != 0 {
        decimal(keysym as nat)
    } else {
        word_nosymbol()
    }
}

/// The keysyms of a binding, each followed by a space.
pub open spec fn keysyms_text(keysyms: Seq<u64>) -> Seq<u8>
    decreases keysyms.len(),
{
    if keysyms.len() == 0 {
        Seq::empty()
    } else {
        keysyms_text(keysyms.drop_last()) + keysym_text(keysyms.last()) + seq![SPACE]
    }
}

/// The line that binds keycode `key` to `keysyms`.
pub open spec fn binding_line(key: u8, keysyms: Seq<u64>) -> Seq<u8> {
    word_keycode() + decimal(key as nat) + word_equals() + keysyms_text(keysyms) + seq![NEWLINE]
}

/// The script for a sequence of bindings: one line each, in order.
pub open spec fn script(bindings: Seq<(u8, Seq<u64>)>) -> Seq<u8>
    decreases bindings.len(),
{
    if bindings.len() == 0 {
        Seq::empty()
    } else {
        script(bindings.drop_last()) + binding_line(bindings.last().0, bindings.last().1)
    }
}

/// The keyboard mapping that results from applying `bindings` to `keymap`
/// in order: each binding gives its keycode the listed keysyms.
pub open spec fn apply_bindings(keymap: Map<u8, Seq<u64>>, bindings: Seq<(u8, Seq<u64>)>) -> Map<u8, Seq<u64>>
    decreases bindings.len(),
{
    if bindings.len() == 0 {
        keymap
    } else {
        apply_bindings(keymap, bindings.drop_last()).insert(bindings.last().0, bindings.last().1)
    }
}

struct Item<'a> {
    key: u8,
    keysyms: &'a [u64],
}

/// Key bindings to hand to `xmodmap` together.
pub struct Transaction<'a> {
    items: Vec<Item<'a>>,
}

impl<'a> View for Transaction<'a> {
    type V = Seq<(u8, Seq<u64>)>;

    closed spec fn view(&self) -> Seq<(u8, Seq<u64>)> {
        self.items@.map_values(|item: Item<'a>| (item.key, item.keysyms@))
    }
}

/// Starts an empty transaction.
pub fn transaction() -> (t: Transaction<'static>)
    ensures
        t@ == Seq::<(u8, Seq<u64>)>::empty(),
{
    let t = Transaction { items: Vec::with_capacity(2) };
    assert(t@ =~= Seq::<(u8, Seq<u64>)>::empty());
    t
}

fn append_word(out: &mut Vec<u8>, mut word: Vec<u8>)
    ensures
        final(out)@ == old(out)@ + word@,
{
    out.append(&mut word);
}

impl<'a> Transaction<'a> {
    /// Binds keycode `key` to `keysyms` (none at all unbinds it).
    pub fn bind(&mut self, key: u8, keysyms: &'a [u64])
        ensures
            final(self)@ == old(self)@.push((key, keysyms@)),
    {
        self.items.push(Item { key, keysyms });
        assert(self@ =~= old(self)@.push((key, keysyms@)));
    }

    /// Ends the transaction: the script that carries out its bindings, for
    /// `xmodmap -` to read.
    pub fn commit(self) -> (out: Vec<u8>)
        ensures
            out@ == script(self@),
    {
        let mut out: Vec<u8> = Vec::with_capacity(128);
        let mut i: usize = 0;
        while i < self.items.len()
            invariant
                0 <= i <= self.items@.len(),
                out@ == script(self@.take(i as int)),
            decreases self.items@.len() - i,
        {
            let item = &self.items[i];
            let ghost before = out@;
            append_word(&mut out, vec![0x6bu8, 0x65u8, 0x79u8, 0x63u8, 0x6fu8, 0x64u8, 0x65u8, 0x20u8]);
            push_decimal(&mut out, item.key as u64);
            append_word(&mut out, vec![0x20u8, 0x3du8, 0x20u8]);
            let ghost header = out@;
            let mut j: usize = 0;
            while j < item.keysyms.len()
                invariant
                    0 <= j <= item.keysyms@.len(),
                    out@ == header + keysyms_text(item.keysyms@.take(j as int)),
                decreases item.keysyms@.len() - j,
            {
                let keysym = item.keysyms[j];
                if keysym != 0 {
                    push_decimal(&mut out, keysym);
                } else {
                    append_word(&mut out, vec![0x4eu8, 0x6fu8, 0x53u8, 0x79u8, 0x6du8, 0x62u8, 0x6fu8, 0x6cu8]);
                }
                out.push(SPACE);
                proof {
                    let ks = item.keysyms@.take(j + 1);
                    assert(ks.drop_last() =~= item.keysyms@.take(j as int));
                    assert(out@ =~= header + keysyms_text(ks));
                }
                j = j + 1;
            }
            out.push(NEWLINE);
            proof {
                assert(item.keysyms@.take(item.keysyms@.len() as int) =~= item.keysyms@);
                let bs = self@.take(i + 1);
                assert(bs.drop_last() =~= self@.take(i as int));
                assert(bs.last() == (item.key, item.keysyms@));
                assert(out@ =~= before + binding_line(item.key, item.keysyms@));
            }
            i = i + 1;
        }
        assert(self@.take(self.items@.len() as int) =~= self@);
        out
    }
}

// Reading a script back.

/// Index of the last `b` in `s` before index `end`, or -1 if none.
pub open spec fn find_last(s: Seq<u8>, b: u8, end: int) -> int
    decreases end,
{
    if end <= 0 {
        -1
    } else if s[end - 1] == b {
        end - 1
    } else {
        find_last(s, b, end - 1)
    }
}

pub proof fn lemma_find_last_bounds(s: Seq<u8>, b: u8, end: int)
    ensures
        end <= 0 ==> find_last(s, b, end) == -1,
        end > 0 ==> -1 <= find_last(s, b, end) < end,
    decreases end,
{
    if end > 0 && s[end - 1] != b {
        lemma_find_last_bounds(s, b, end - 1);
    }
}

proof fn lemma_find_last_at(s: Seq<u8>, b: u8, end: int, r: int)
    requires
        -1 <= r < end <= s.len(),
        r == -1 || s[r] == b,
        forall|i: int| r < i < end ==> s[i] != b,
    ensures
        find_last(s, b, end) == r,
    decreases end,
{
    if end - 1 > r {
        lemma_find_last_at(s, b, end - 1, r);
    }
}

/// A keysym as written: `NoSymbol` is 0, anything else a decimal number.
pub open spec fn read_keysym(token: Seq<u8>) -> u64 {
    if token == word_nosymbol() {
        0
    } else {
        digits_value(token) as u64
    }
}

/// The keysyms of space-terminated tokens.
pub open spec fn read_keysyms(text: Seq<u8>) -> Seq<u64>
    decreases text.len(),
{
    if text.len() == 0 {
        Seq::empty()
    } else {
        let k = find_last(text, SPACE, text.len() - 1);
        proof {
            lemma_find_last_bounds(text, SPACE, text.len() - 1);
        }
        read_keysyms(text.take(k + 1)).push(read_keysym(text.subrange(k + 1, text.len() - 1)))
    }
}

/// A line `keycode <key> = <keysym> ... ` (without its line feed).
pub open spec fn read_line(line: Seq<u8>) -> (u8, Seq<u64>) {
    let key_end = find_byte(line, SPACE, 8);
    (digits_value(line.subrange(8, key_end)) as u8, read_keysyms(line.skip(key_end + 3)))
}

/// The bindings of a script, one per line.
pub open spec fn read_script(text: Seq<u8>) -> Seq<(u8, Seq<u64>)>
    decreases text.len(),
{
    if text.len() == 0 {
        Seq::empty()
    } else {
        let k = find_last(text, NEWLINE, text.len() - 1);
        proof {
            lemma_find_last_bounds(text, NEWLINE, text.len() - 1);
        }
        read_script(text.take(k + 1)).push(read_line(text.subrange(k + 1, text.len() - 1)))
    }
}

pub open spec fn lacks(s: Seq<u8>, b: u8) -> bool {
    forall|i: int| 0 <= i < s.len() ==> s[i] != b
}

proof fn lemma_decimal_plain(n: nat)
    ensures
        lacks(decimal(n), SPACE),
        lacks(decimal(n), NEWLINE),
        decimal(n).len() > 0,
        decimal(n) != word_nosymbol(),
{
    lemma_digits_value_decimal(n);
    let d = decimal(n);
    assert(all_digits(d));
    assert forall|i: int| 0 <= i < d.len() implies d[i] != SPACE && d[i] != NEWLINE by {
        assert(crate::decimal::is_digit(d[i]));
    }
    assert(crate::decimal::is_digit(d[0]));
    assert(word_nosymbol()[0] == 0x4eu8);
}

proof fn lemma_keysym_text_plain(k: u64)
    ensures
        lacks(keysym_text(k), SPACE),
        lacks(keysym_text(k), NEWLINE),
        read_keysym(keysym_text(k)) == k,
{
    if k != 0 {
        lemma_decimal_plain(k as nat);
        lemma_digits_value_decimal(k as nat);
    }
}

proof fn lemma_keysyms_text_shape(ks: Seq<u64>)
    ensures
        lacks(keysyms_text(ks), NEWLINE),
        keysyms_text(ks).len() == 0 || keysyms_text(ks).last() == SPACE,
        keysyms_text(ks).len() == 0 <==> ks.len() == 0,
    decreases ks.len(),
{
    if ks.len() > 0 {
        lemma_keysyms_text_shape(ks.drop_last());
        lemma_keysym_text_plain(ks.last());
        let a = keysyms_text(ks.drop_last());
        let t = keysym_text(ks.last());
        let all = a + t + seq![SPACE];
        assert(all == keysyms_text(ks));
        assert forall|i: int| 0 <= i < all.len() implies all[i] != NEWLINE by {
            if i < a.len() {
                assert(all[i] == a[i]);
            } else if i < a.len() + t.len() {
                assert(all[i] == t[i - a.len()]);
            }
        }
    }
}

/// Splitting `a + t + [b]` at its last `b` before the end gives back `a`
/// and `t`, when `t` has no `b` and `a` is empty or ends with `b`.
proof fn lemma_split_last(a: Seq<u8>, t: Seq<u8>, b: u8)
    requires
        lacks(t, b),
        a.len() == 0 || a.last() == b,
    ensures
        ({
            let all = a + t + seq![b];
            let k = find_last(all, b, all.len() - 1);
            &&& k == a.len() - 1
            &&& all.take(k + 1) == a
            &&& all.subrange(k + 1, all.len() - 1) == t
        }),
{
    let all = a + t + seq![b];
    let r = a.len() - 1;
    assert forall|i: int| r < i < all.len() - 1 implies all[i] != b by {
        assert(all[i] == t[i - a.len()]);
    }
    if r >= 0 {
        assert(all[r] == a[r]);
    }
    lemma_find_last_at(all, b, all.len() - 1, r);
    assert(all.take(r + 1) =~= a);
    assert(all.subrange(r + 1, all.len() - 1) =~= t);
}

proof fn lemma_read_keysyms(ks: Seq<u64>)
    ensures
        read_keysyms(keysyms_text(ks)) == ks,
    decreases ks.len(),
{
    if ks.len() > 0 {
        let a = keysyms_text(ks.drop_last());
        let t = keysym_text(ks.last());
        lemma_read_keysyms(ks.drop_last());
        lemma_keysyms_text_shape(ks.drop_last());
        lemma_keysym_text_plain(ks.last());
        lemma_split_last(a, t, SPACE);
        assert(keysyms_text(ks) == a + t + seq![SPACE]);
        assert(read_keysyms(keysyms_text(ks)) =~= ks.drop_last().push(ks.last()));
        assert(ks.drop_last().push(ks.last()) =~= ks);
    }
}

/// The line of a binding, without its line feed.
proof fn lemma_read_line(key: u8, ks: Seq<u64>)
    ensures
        ({
            let line = word_keycode() + decimal(key as nat) + word_equals() + keysyms_text(ks);
            &&& read_line(line) == (key, ks)
            &&& lacks(line, NEWLINE)
        }),
{
    let d = decimal(key as nat);
    let kt = keysyms_text(ks);
    let line = word_keycode() + d + word_equals() + kt;
    lemma_decimal_plain(key as nat);
    lemma_digits_value_decimal(key as nat);
    lemma_keysyms_text_shape(ks);
    lemma_read_keysyms(ks);
    let key_end: int = 8 + d.len() as int;
    assert forall|i: int| 8 <= i < key_end implies line[i] != SPACE by {
        assert(line[i] == d[i - 8]);
    }
    assert(line[key_end] == SPACE);
    lemma_find_first(line, SPACE, 8, key_end);
    assert(line.subrange(8, key_end) =~= d);
    assert(line.skip(key_end + 3) =~= kt);
    assert forall|i: int| 0 <= i < line.len() implies line[i] != NEWLINE by {
        if 8 <= i < key_end {
            assert(line[i] == d[i - 8]);
        } else if i >= key_end + 3 {
            assert(line[i] == kt[i - key_end - 3]);
        }
    }
}

/// Committing loses nothing: reading the script back line by line
/// (`keycode <key> = <keysym> ... `, `NoSymbol` as 0) gives every binding,
/// in order, with all of its keysyms.
pub proof fn lemma_script_reads_back(bindings: Seq<(u8, Seq<u64>)>)
    ensures
        read_script(script(bindings)) == bindings,
    decreases bindings.len(),
{
    if bindings.len() > 0 {
        let dl = bindings.drop_last();
        let (key, ks) = bindings.last();
        lemma_script_reads_back(dl);
        lemma_script_shape(dl);
        lemma_read_line(key, ks);
        let line = word_keycode() + decimal(key as nat) + word_equals() + keysyms_text(ks);
        assert(binding_line(key, ks) =~= line + seq![NEWLINE]);
        assert(script(bindings) =~= script(dl) + line + seq![NEWLINE]);
        lemma_split_last(script(dl), line, NEWLINE);
        assert(read_script(script(bindings)) =~= dl.push((key, ks)));
        assert(dl.push((key, ks)) =~= bindings);
    }
}

proof fn lemma_script_shape(bindings: Seq<(u8, Seq<u64>)>)
    ensures
        script(bindings).len() == 0 || script(bindings).last() == NEWLINE,
{
    if bindings.len() > 0 {
        let (key, ks) = bindings.last();
        assert(binding_line(key, ks).last() == NEWLINE);
    }
}

} // verus!
