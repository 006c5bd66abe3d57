//! Reading what the `xinput list` pipeline prints: one entry per line.
use crate::x::xdotool::{find_byte, lemma_find_byte_bounds, lemma_find_first};
use crate::x::xmodmap::NEWLINE;
use vstd::prelude::*;

verus! {

/// ASCII carriage return.
pub const CARRIAGE_RETURN: u8 = 0x0d;

/// A line without its line ending: a carriage return before the line feed
/// goes too.
pub open spec fn strip_cr(line: Seq<u8>) -> Seq<u8> {
    if line.len() > 0 && line.last() == CARRIAGE_RETURN {
        line.drop_last()
    } else {
        line
    }
}

/// The lines of `text`, as `str::lines` gives them: split at each line
/// feed (dropping a carriage return just before it); a last line without
/// line feed is kept as it is, and nothing follows a final line feed.
pub open spec fn lines_spec(text: Seq<u8>) -> Seq<Seq<u8>>
    decreases text.len(),
{
    if text.len() == 0 {
        Seq::empty()
    } else {
        let end = find_byte(text, NEWLINE, 0);
        if end >= text.len() {
            seq![text]
        } else {
            proof {
                lemma_find_byte_bounds(text, NEWLINE, 0);
            }
            seq![strip_cr(text.take(end))] + lines_spec(text.skip(end + 1))
        }
    }
}

proof fn lemma_find_byte_shift(s: Seq<u8>, b: u8, base: int, from: int)
    requires
        0 <= base <= s.len(),
        0 <= from <= s.len() - base,
    ensures
        find_byte(s.skip(base), b, from) == find_byte(s, b, base + from) - base,
    decreases s.len() - base - from,
{
    if from < s.len() - base && s[base + from] != b {
        lemma_find_byte_shift(s, b, base, from + 1);
    }
}

/// The lines of `text` (see [`lines_spec`]).
pub fn lines(text: &[u8]) -> (r: Vec<Vec<u8>>)
    ensures
        r@.map_values(|l: Vec<u8>| l@) == lines_spec(text@),
{
    let ghost s = text@;
    let mut out: Vec<Vec<u8>> = Vec::new();
    let mut pos: usize = 0;
    assert(s.skip(0) =~= s);
    while pos < text.len()
        invariant
            s == text@,
            0 <= pos <= s.len(),
            out@.map_values(|l: Vec<u8>| l@) + lines_spec(s.skip(pos as int)) == lines_spec(s),
        decreases s.len() - pos,
    {
        let ghost rest = s.skip(pos as int);
        let mut end: usize = pos;
        while end < text.len() && text[end] != NEWLINE
            invariant
                s == text@,
                pos <= end <= s.len(),
                forall|k: int| pos <= k < end ==> s[k] != NEWLINE,
            decreases s.len() - end,
        {
            end = end + 1;
        }
        proof {
            lemma_find_byte_shift(s, NEWLINE, pos as int, 0);
            lemma_find_byte_bounds(s, NEWLINE, pos as int);
            assert(find_byte(s, NEWLINE, pos as int) == end as int) by {
                lemma_find_first(s, NEWLINE, pos as int, end as int);
            }
        }
        let ghost prev = out@.map_values(|l: Vec<u8>| l@);
        if end == text.len() {
            let line = vstd::slice::slice_to_vec(vstd::slice::slice_subrange(text, pos, end));
            out.push(line);
            proof {
                assert(rest =~= s.subrange(pos as int, end as int));
                assert(s.skip(end as int) =~= Seq::<u8>::empty());
                assert(out@.map_values(|l: Vec<u8>| l@) =~= prev.push(rest));
                assert(lines_spec(rest) == seq![rest]);
                assert(prev + seq![rest] =~= prev.push(rest) + lines_spec(s.skip(end as int)));
            }
            pos = end;
        } else {
            let mut line_end: usize = end;
            if line_end > pos && text[line_end - 1] == CARRIAGE_RETURN {
                line_end = line_end - 1;
            }
            let line = vstd::slice::slice_to_vec(vstd::slice::slice_subrange(text, pos, line_end));
            out.push(line);
            proof {
                let head = rest.take(end - pos);
                assert(head =~= s.subrange(pos as int, end as int));
                assert(line@ =~= strip_cr(head));
                assert(rest.skip(end - pos + 1) =~= s.skip(end + 1));
                assert(out@.map_values(|l: Vec<u8>| l@) =~= prev.push(strip_cr(head)));
                assert(lines_spec(rest) == seq![strip_cr(head)] + lines_spec(s.skip(end + 1)));
                assert(prev + lines_spec(rest) =~= prev.push(strip_cr(head)) + lines_spec(s.skip(end + 1)));
            }
            pos = end + 1;
        }
    }
    proof {
        assert(s.skip(pos as int) =~= Seq::<u8>::empty());
        assert(out@.map_values(|l: Vec<u8>| l@) + Seq::<Seq<u8>>::empty() =~= out@.map_values(|l: Vec<u8>| l@));
    }
    out
}

} // verus!
