//! Text as a flat sequence of bytes and line breaks, the form in which the
//! undo history records what an edit removed.
use crate::little_string::{LittleString, N_MAX_LITTLE};
use crate::text::char_bytes;
use crate::mostly_one_vec::MostlyOneVec;
use vstd::prelude::*;
use vstd::utf8::*;

verus! {

/// The bytes of a line, each as a token.
pub open spec fn toks(l: Seq<u8>) -> Seq<Option<u8>> {
    l.map_values(|b: u8| Some(b))
}

/// Lines joined into one token sequence, `None` standing for each line break.
pub open spec fn flatten(lines: Seq<Seq<u8>>) -> Seq<Option<u8>>
    decreases lines.len(),
{
    if lines.len() == 0 {
        Seq::empty()
    } else if lines.len() == 1 {
        toks(lines[0])
    } else {
        flatten(lines.drop_last()) + seq![None::<u8>] + toks(lines.last())
    }
}

/// The bytes of each of a sequence of little strings.
pub open spec fn ls_lines(s: Seq<LittleString>) -> Seq<Seq<u8>> {
    s.map_values(|l: LittleString| l@)
}

/// Every byte is ASCII.
pub open spec fn is_ascii(s: Seq<u8>) -> bool {
    forall|i: int| 0 <= i < s.len() ==> #[trigger] s[i] < 128
}

/// Every token that is a byte is ASCII.
pub open spec fn toks_ascii(t: Seq<Option<u8>>) -> bool {
    forall|i: int| 0 <= i < t.len() ==> (#[trigger] t[i] matches Some(b) ==> b < 128)
}

/// ASCII bytes are valid UTF-8.
pub proof fn lemma_ascii_valid(s: Seq<u8>)
    requires
        is_ascii(s),
    ensures
        valid_utf8(s),
    decreases s.len(),
{
    if s.len() > 0 {
        let b = s[0];
        assert(b < 128);
        assert(is_leading_byte_width_1(b));
        assert(codepoint_width_1(b) <= 0x7f) by (bit_vector)
            requires
                b < 128,
        ;
        assert(valid_first_scalar(s));
        assert(pop_first_scalar(s) =~= s.drop_first());
        lemma_ascii_valid(s.drop_first());
    }
}

pub proof fn lemma_flatten_push(lines: Seq<Seq<u8>>, l: Seq<u8>)
    requires
        lines.len() > 0,
    ensures
        flatten(lines.push(l)) == flatten(lines) + seq![None::<u8>] + toks(l),
{
    assert(lines.push(l).drop_last() =~= lines);
}

pub proof fn lemma_flatten_push_byte(lines: Seq<Seq<u8>>, b: u8)
    requires
        lines.len() > 0,
    ensures
        flatten(lines.update(lines.len() - 1, lines.last().push(b))) == flatten(lines).push(Some(b)),
{
    let n = lines.update(lines.len() - 1, lines.last().push(b));
    assert(toks(lines.last().push(b)) =~= toks(lines.last()).push(Some(b)));
    if lines.len() > 1 {
        assert(n.drop_last() =~= lines.drop_last());
    }
}

pub proof fn lemma_flatten_prepend_byte(lines: Seq<Seq<u8>>, b: u8)
    requires
        lines.len() > 0,
    ensures
        flatten(lines.update(0, seq![b] + lines[0])) == seq![Some(b)] + flatten(lines),
    decreases lines.len(),
{
    let n = lines.update(0, seq![b] + lines[0]);
    if lines.len() == 1 {
        assert(toks(seq![b] + lines[0]) =~= seq![Some(b)] + toks(lines[0]));
    } else {
        lemma_flatten_prepend_byte(lines.drop_last(), b);
        assert(n.drop_last() =~= lines.drop_last().update(0, seq![b] + lines.drop_last()[0]));
        assert(flatten(n) =~= seq![Some(b)] + flatten(lines));
    }
}

pub proof fn lemma_flatten_prepend_line(lines: Seq<Seq<u8>>)
    requires
        lines.len() > 0,
    ensures
        flatten(lines.insert(0, Seq::<u8>::empty())) == seq![None::<u8>] + flatten(lines),
    decreases lines.len(),
{
    let n = lines.insert(0, Seq::<u8>::empty());
    if lines.len() == 1 {
        assert(n.drop_last() =~= seq![Seq::<u8>::empty()]);
        assert(toks(Seq::<u8>::empty()) =~= Seq::<Option<u8>>::empty());
        assert(flatten(n.drop_last()) =~= Seq::<Option<u8>>::empty());
        assert(n.last() == lines[0]);
        assert(flatten(n) =~= seq![None::<u8>] + flatten(lines));
    } else {
        lemma_flatten_prepend_line(lines.drop_last());
        assert(n.drop_last() =~= lines.drop_last().insert(0, Seq::<u8>::empty()));
        assert(flatten(n) =~= seq![None::<u8>] + flatten(lines));
    }
}


proof fn lemma_ascii_byte_char(b: u8)
    requires
        b < 128,
    ensures
        ((b as char) as u32) < 128,
        (b as char) as u8 == b,
{
    assert((b as char) as u32 == b as u32);
    assert(((b as u32) as u8) == b) by (bit_vector);
}

/// Every little string keeps its inline length within its block.
pub open spec fn strings_wf(s: Seq<LittleString>) -> bool {
    forall|i: int| 0 <= i < s.len() ==> (#[trigger] s[i]).wf()
}

/// Recorded text as its lines, with whether its first line is held inline.
pub open spec fn first_state(s: Seq<LittleString>) -> (bool, Seq<Seq<u8>>) {
    (s[0] is Little, ls_lines(s))
}

/// Recorded text as its lines, with whether its last line is held inline.
pub open spec fn last_state(s: Seq<LittleString>) -> (bool, Seq<Seq<u8>>) {
    (s.last() is Little, ls_lines(s))
}

/// The bytes `l` of a line, inline where `little`, after
/// [`LittleString::insert`] puts the byte `b` in front: an inline line below
/// the limit takes the byte; any other becomes a `String` that takes the
/// character `b as char`.
pub open spec fn prepended(little: bool, l: Seq<u8>, b: u8) -> (bool, Seq<u8>) {
    if little && l.len() < N_MAX_LITTLE {
        (true, seq![b] + l)
    } else {
        (false, char_bytes(b as char) + l)
    }
}

/// Recorded text `r` (see [`first_state`]) after the token `t` is put in
/// front: a byte at the start of its first line, or a line break, which
/// starts a new, empty, inline first line.
pub open spec fn back_step(r: (bool, Seq<Seq<u8>>), t: Option<u8>) -> (bool, Seq<Seq<u8>>) {
    match t {
        Some(b) => {
            let p = prepended(r.0, r.1[0], b);
            (p.0, r.1.update(0, p.1))
        },
        None => (true, r.1.insert(0, Seq::<u8>::empty())),
    }
}

/// Putting `t` in front of `r` does not panic: a byte put in front of a
/// full inline first line needs that line to be valid UTF-8.
pub open spec fn back_step_ok(r: (bool, Seq<Seq<u8>>), t: Option<u8>) -> bool {
    (t is Some && r.0 && r.1[0].len() >= N_MAX_LITTLE) ==> valid_utf8(r.1[0])
}

/// Recorded text `r` after the tokens `ts` are put in front one at a time,
/// the last one first.
pub open spec fn back_recorded(r: (bool, Seq<Seq<u8>>), ts: Seq<Option<u8>>) -> (bool, Seq<Seq<u8>>)
    decreases ts.len(),
{
    if ts.len() == 0 {
        r
    } else {
        back_step(back_recorded(r, ts.drop_first()), ts[0])
    }
}

/// No step of [`back_recorded`] panics.
pub open spec fn back_fits(r: (bool, Seq<Seq<u8>>), ts: Seq<Option<u8>>) -> bool
    decreases ts.len(),
{
    if ts.len() == 0 {
        true
    } else {
        back_fits(r, ts.drop_first()) && back_step_ok(back_recorded(r, ts.drop_first()), ts[0])
    }
}

/// Recorded text `r` (see [`last_state`]) after the ASCII token `t` is
/// appended: a byte at the end of its last line, which stays inline while
/// below the limit, or a line break, which starts a new, empty, inline last
/// line.
pub open spec fn fwd_step(r: (bool, Seq<Seq<u8>>), t: Option<u8>) -> (bool, Seq<Seq<u8>>) {
    match t {
        Some(b) => (r.0 && r.1.last().len() < N_MAX_LITTLE, r.1.update(r.1.len() - 1, r.1.last().push(b))),
        None => (true, r.1.push(Seq::<u8>::empty())),
    }
}

/// Appending `t` to `r` does not panic: a byte appended to a full inline
/// last line needs that line to be valid UTF-8.
pub open spec fn fwd_step_ok(r: (bool, Seq<Seq<u8>>), t: Option<u8>) -> bool {
    (t is Some && r.0 && r.1.last().len() >= N_MAX_LITTLE) ==> valid_utf8(r.1.last())
}

/// Recorded text `r` after the tokens `ts` are appended in order.
pub open spec fn fwd_recorded(r: (bool, Seq<Seq<u8>>), ts: Seq<Option<u8>>) -> (bool, Seq<Seq<u8>>)
    decreases ts.len(),
{
    if ts.len() == 0 {
        r
    } else {
        fwd_step(fwd_recorded(r, ts.drop_last()), ts.last())
    }
}

/// No step of [`fwd_recorded`] panics.
pub open spec fn fwd_fits(r: (bool, Seq<Seq<u8>>), ts: Seq<Option<u8>>) -> bool
    decreases ts.len(),
{
    if ts.len() == 0 {
        true
    } else {
        fwd_fits(r, ts.drop_last()) && fwd_step_ok(fwd_recorded(r, ts.drop_last()), ts.last())
    }
}

/// Putting ASCII tokens in front of recorded text puts exactly those tokens
/// in front; where its first line was ASCII, it stays so, and no step
/// panics.
pub proof fn lemma_back_ascii(r: (bool, Seq<Seq<u8>>), ts: Seq<Option<u8>>)
    requires
        r.1.len() > 0,
        toks_ascii(ts),
    ensures
        back_recorded(r, ts).1.len() > 0,
        flatten(back_recorded(r, ts).1) == ts + flatten(r.1),
        is_ascii(r.1[0]) ==> is_ascii(back_recorded(r, ts).1[0]) && back_fits(r, ts),
    decreases ts.len(),
{
    if ts.len() == 0 {
        assert(ts + flatten(r.1) =~= flatten(r.1));
    } else {
        let rest = ts.drop_first();
        assert forall|i: int| 0 <= i < rest.len() implies (#[trigger] rest[i] matches Some(b) ==> b < 128) by {
            assert(rest[i] == ts[i + 1]);
        }
        lemma_back_ascii(r, rest);
        let q = back_recorded(r, rest);
        assert(ts[0] matches Some(b) ==> b < 128);
        if is_ascii(r.1[0]) {
            lemma_ascii_valid(q.1[0]);
        }
        match ts[0] {
            Some(b) => {
                crate::text::lemma_ascii_char_bytes(b);
                assert(prepended(q.0, q.1[0], b).1 == seq![b] + q.1[0]);
                lemma_flatten_prepend_byte(q.1, b);
            },
            None => {
                lemma_flatten_prepend_line(q.1);
            },
        }
        assert(ts =~= seq![ts[0]] + rest);
        assert(seq![ts[0]] + (rest + flatten(r.1)) =~= ts + flatten(r.1));
    }
}

/// Appending ASCII tokens to recorded text whose last line is ASCII never
/// panics.
pub proof fn lemma_fwd_ascii(r: (bool, Seq<Seq<u8>>), ts: Seq<Option<u8>>)
    requires
        r.1.len() > 0,
        toks_ascii(ts),
        is_ascii(r.1.last()),
    ensures
        fwd_recorded(r, ts).1.len() > 0,
        is_ascii(fwd_recorded(r, ts).1.last()),
        fwd_fits(r, ts),
    decreases ts.len(),
{
    if ts.len() > 0 {
        let rest = ts.drop_last();
        assert forall|i: int| 0 <= i < rest.len() implies (#[trigger] rest[i] matches Some(b) ==> b < 128) by {
            assert(rest[i] == ts[i]);
        }
        lemma_fwd_ascii(r, rest);
        let q = fwd_recorded(r, rest);
        lemma_ascii_valid(q.1.last());
        assert(ts[ts.len() - 1] matches Some(b) ==> b < 128);
    }
}

/// What fits after the tokens `ts` fits after any of their suffixes.
pub proof fn lemma_back_fits_suffix(r: (bool, Seq<Seq<u8>>), ts: Seq<Option<u8>>, i: int)
    requires
        back_fits(r, ts),
        0 <= i <= ts.len(),
    ensures
        back_fits(r, ts.subrange(i, ts.len() as int)),
    decreases i,
{
    if i == 0 {
        assert(ts.subrange(0, ts.len() as int) =~= ts);
    } else {
        lemma_back_fits_suffix(r, ts, i - 1);
        assert(ts.subrange(i - 1, ts.len() as int).drop_first() =~= ts.subrange(i, ts.len() as int));
    }
}

/// What fits after the tokens `ts` fits after any of their prefixes.
pub proof fn lemma_fwd_fits_prefix(r: (bool, Seq<Seq<u8>>), ts: Seq<Option<u8>>, i: int)
    requires
        fwd_fits(r, ts),
        0 <= i <= ts.len(),
    ensures
        fwd_fits(r, ts.take(i)),
    decreases ts.len() - i,
{
    if i == ts.len() {
        assert(ts.take(i) =~= ts);
    } else {
        lemma_fwd_fits_prefix(r, ts, i + 1);
        assert(ts.take(i + 1).drop_last() =~= ts.take(i));
    }
}

/// Appends one ASCII token to recorded text: a byte to its last line, or a
/// line break.
pub fn record_forward(removed: &mut MostlyOneVec<LittleString>, t: Option<u8>)
    requires
        old(removed)@.len() > 0,
        strings_wf(old(removed)@),
        t matches Some(b) ==> b < 128,
        fwd_step_ok(last_state(old(removed)@), t),
    ensures
        final(removed)@.len() > 0,
        strings_wf(final(removed)@),
        last_state(final(removed)@) == fwd_step(last_state(old(removed)@), t),
        flatten(ls_lines(final(removed)@)) == flatten(ls_lines(old(removed)@)).push(t),
{
    let ghost lines = ls_lines(removed@);
    match t {
        Some(b) => {
            let n = removed.len();
            let last = removed.index_mut(n - 1);
            proof {
                lemma_ascii_byte_char(b);
            }
            last.push(b as char);
            proof {
                assert(ls_lines(removed@) =~= lines.update(lines.len() - 1, lines.last().push(b)));
                lemma_flatten_push_byte(lines, b);
                assert forall|i: int| 0 <= i < removed@.len() implies (#[trigger] removed@[i]).wf() by {
                    if i != n - 1 {
                        assert(removed@[i] == old(removed)@[i]);
                    }
                }
            }
        },
        None => {
            removed.push(LittleString::empty());
            proof {
                assert(ls_lines(removed@) =~= lines.push(Seq::<u8>::empty()));
                lemma_flatten_push(lines, Seq::<u8>::empty());
                assert(toks(Seq::<u8>::empty()) =~= Seq::<Option<u8>>::empty());
                assert(flatten(ls_lines(removed@)) =~= flatten(lines).push(None::<u8>));
                assert forall|i: int| 0 <= i < removed@.len() implies (#[trigger] removed@[i]).wf() by {
                    if i < removed@.len() - 1 {
                        assert(removed@[i] == old(removed)@[i]);
                    }
                }
            }
        },
    }
}

/// Puts one token in front of recorded text: a byte at the start of its
/// first line, or a line break.
pub fn record_backward(removed: &mut MostlyOneVec<LittleString>, t: Option<u8>)
    requires
        old(removed)@.len() > 0,
        strings_wf(old(removed)@),
        back_step_ok(first_state(old(removed)@), t),
    ensures
        final(removed)@.len() > 0,
        strings_wf(final(removed)@),
        first_state(final(removed)@) == back_step(first_state(old(removed)@), t),
{
    let ghost lines = ls_lines(removed@);
    match t {
        Some(b) => {
            let first = removed.index_mut(0);
            proof {
                assert(first@.take(0) =~= Seq::<u8>::empty());
                assert(first@.skip(0) =~= first@);
                assert(valid_utf8(Seq::<u8>::empty()));
                if let LittleString::Big(st) = first {
                    encode_utf8_valid_utf8(st@);
                    is_char_boundary_start_end_of_seq(first@);
                }
            }
            first.insert(0, b);
            proof {
                let p = prepended(old(removed)@[0] is Little, lines[0], b);
                assert(removed@[0]@ =~= p.1);
                assert(ls_lines(removed@) =~= lines.update(0, p.1));
                assert forall|i: int| 0 <= i < removed@.len() implies (#[trigger] removed@[i]).wf() by {
                    if i != 0 {
                        assert(removed@[i] == old(removed)@[i]);
                    }
                }
            }
        },
        None => {
            removed.insert(0, LittleString::empty());
            proof {
                assert(ls_lines(removed@) =~= lines.insert(0, Seq::<u8>::empty()));
                assert forall|i: int| 0 <= i < removed@.len() implies (#[trigger] removed@[i]).wf() by {
                    if i != 0 {
                        assert(removed@[i] == old(removed)@[i - 1]);
                    }
                }
            }
        },
    }
}

} // verus!
