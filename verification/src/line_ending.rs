//! Line endings, and how text is split into lines and joined again.
use crate::text::{lemma_ascii_char_bytes, lemma_encode_push, str_bytes};
use vstd::prelude::*;

verus! {

/// The line break a file uses.
#[derive(Debug, Clone, Copy, PartialEq, Eq)]
pub enum LineEnding {
    CR,
    LF,
    CRLF,
}

/// The bytes of a line ending.
pub open spec fn le_bytes(le: LineEnding) -> Seq<u8> {
    match le {
        LineEnding::CR => seq![13u8],
        LineEnding::LF => seq![10u8],
        LineEnding::CRLF => seq![13u8, 10u8],
    }
}

/// The lines of `b`, split at "\n", "\r\n" and "\r"; there is always at
/// least one (the empty line for no bytes).
pub open spec fn split_lines(b: Seq<u8>) -> Seq<Seq<u8>>
    decreases b.len(),
{
    if b.len() == 0 {
        seq![Seq::<u8>::empty()]
    } else if b[0] == 10u8 {
        seq![Seq::<u8>::empty()] + split_lines(b.skip(1))
    } else if b[0] == 13u8 {
        if b.len() > 1 && b[1] == 10u8 {
            seq![Seq::<u8>::empty()] + split_lines(b.skip(2))
        } else {
            seq![Seq::<u8>::empty()] + split_lines(b.skip(1))
        }
    } else {
        let r = split_lines(b.skip(1));
        r.update(0, seq![b[0]] + r[0])
    }
}

/// The kind of the first line break in `b`, if there is one.
pub open spec fn first_ending(b: Seq<u8>) -> Option<LineEnding>
    decreases b.len(),
{
    if b.len() == 0 {
        None
    } else if b[0] == 10u8 {
        Some(LineEnding::LF)
    } else if b[0] == 13u8 {
        if b.len() > 1 && b[1] == 10u8 {
            Some(LineEnding::CRLF)
        } else {
            Some(LineEnding::CR)
        }
    } else {
        first_ending(b.skip(1))
    }
}

/// The line ending a file is taken to use: that of its first line break,
/// CRLF where there is none.
pub open spec fn detected_ending(b: Seq<u8>) -> LineEnding {
    match first_ending(b) {
        Some(le) => le,
        None => LineEnding::CRLF,
    }
}

/// Every line break in `b` is `le`.
pub open spec fn uniform(b: Seq<u8>, le: LineEnding) -> bool
    decreases b.len(),
{
    if b.len() == 0 {
        true
    } else if b[0] == 10u8 {
        le == LineEnding::LF && uniform(b.skip(1), le)
    } else if b[0] == 13u8 {
        if b.len() > 1 && b[1] == 10u8 {
            le == LineEnding::CRLF && uniform(b.skip(2), le)
        } else {
            le == LineEnding::CR && uniform(b.skip(1), le)
        }
    } else {
        uniform(b.skip(1), le)
    }
}

/// The lines joined, `sep` between each two.
pub open spec fn join(lines: Seq<Seq<u8>>, sep: Seq<u8>) -> Seq<u8>
    decreases lines.len(),
{
    if lines.len() == 0 {
        Seq::empty()
    } else if lines.len() == 1 {
        lines[0]
    } else {
        join(lines.drop_last(), sep) + sep + lines.last()
    }
}

pub proof fn lemma_split_nonempty(b: Seq<u8>)
    ensures
        split_lines(b).len() >= 1,
    decreases b.len(),
{
    if b.len() > 0 {
        if b[0] == 13u8 && b.len() > 1 && b[1] == 10u8 {
            lemma_split_nonempty(b.skip(2));
        } else {
            lemma_split_nonempty(b.skip(1));
        }
    }
}

proof fn lemma_join_prepend_byte(lines: Seq<Seq<u8>>, x: u8, sep: Seq<u8>)
    requires
        lines.len() >= 1,
    ensures
        join(lines.update(0, seq![x] + lines[0]), sep) == seq![x] + join(lines, sep),
    decreases lines.len(),
{
    let u = lines.update(0, seq![x] + lines[0]);
    if lines.len() > 1 {
        lemma_join_prepend_byte(lines.drop_last(), x, sep);
        assert(u.drop_last() =~= lines.drop_last().update(0, seq![x] + lines.drop_last()[0]));
        assert(join(u, sep) =~= seq![x] + join(lines, sep));
    }
}

proof fn lemma_join_prepend_line(lines: Seq<Seq<u8>>, sep: Seq<u8>)
    requires
        lines.len() >= 1,
    ensures
        join(seq![Seq::<u8>::empty()] + lines, sep) == sep + join(lines, sep),
    decreases lines.len(),
{
    let u = seq![Seq::<u8>::empty()] + lines;
    if lines.len() == 1 {
        assert(u.drop_last() =~= seq![Seq::<u8>::empty()]);
        assert(join(u.drop_last(), sep) =~= Seq::<u8>::empty());
        assert(u.last() == lines[0]);
        assert(join(u, sep) =~= sep + join(lines, sep));
    } else {
        lemma_join_prepend_line(lines.drop_last(), sep);
        assert(u.drop_last() =~= seq![Seq::<u8>::empty()] + lines.drop_last());
        assert(join(u, sep) =~= sep + join(lines, sep));
    }
}

/// Text whose line breaks are all of one kind comes back unchanged when its
/// lines are joined with that kind of break; and that kind is the one
/// detected, where there is a break at all.
pub proof fn split_join_roundtrip(b: Seq<u8>, le: LineEnding)
    requires
        uniform(b, le),
    ensures
        join(split_lines(b), le_bytes(le)) == b,
        first_ending(b) is Some ==> first_ending(b) == Some(le),
    decreases b.len(),
{
    if b.len() == 0 {
    } else if b[0] == 10u8 {
        split_join_roundtrip(b.skip(1), le);
        lemma_split_nonempty(b.skip(1));
        lemma_join_prepend_line(split_lines(b.skip(1)), le_bytes(le));
        assert(b =~= seq![10u8] + b.skip(1));
    } else if b[0] == 13u8 {
        if b.len() > 1 && b[1] == 10u8 {
            split_join_roundtrip(b.skip(2), le);
            lemma_split_nonempty(b.skip(2));
            lemma_join_prepend_line(split_lines(b.skip(2)), le_bytes(le));
            assert(b =~= seq![13u8, 10u8] + b.skip(2));
        } else {
            split_join_roundtrip(b.skip(1), le);
            lemma_split_nonempty(b.skip(1));
            lemma_join_prepend_line(split_lines(b.skip(1)), le_bytes(le));
            assert(b =~= seq![13u8] + b.skip(1));
        }
    } else {
        split_join_roundtrip(b.skip(1), le);
        lemma_split_nonempty(b.skip(1));
        lemma_join_prepend_byte(split_lines(b.skip(1)), b[0], le_bytes(le));
        assert(b =~= seq![b[0]] + b.skip(1));
    }
}

/// What is saved of what was loaded: text whose line breaks are all of the
/// kind detected comes back byte for byte when its lines are joined with
/// the detected line ending.
pub proof fn saved_text_is_loaded_text(b: Seq<u8>)
    requires
        uniform(b, detected_ending(b)),
    ensures
        join(split_lines(b), le_bytes(detected_ending(b))) == b,
{
    split_join_roundtrip(b, detected_ending(b));
}

impl LineEnding {
    /// The bytes of the line ending.
    pub fn get(&self) -> (r: &'static [u8])
        ensures
            r@ == le_bytes(*self),
    {
        match self {
            LineEnding::CR => {
                let x = "\r";
                proof {
                    reveal_strlit("\r");
                    assert(x@ =~= seq![13u8 as char]);
                    lemma_ascii_char_bytes(13u8);
                }
                str_bytes(x)
            },
            LineEnding::LF => {
                let x = "\n";
                proof {
                    reveal_strlit("\n");
                    assert(x@ =~= seq![10u8 as char]);
                    lemma_ascii_char_bytes(10u8);
                }
                str_bytes(x)
            },
            LineEnding::CRLF => {
                let x = "\r\n";
                proof {
                    reveal_strlit("\r\n");
                    assert(x@ =~= seq![13u8 as char].push(10u8 as char));
                    lemma_ascii_char_bytes(13u8);
                    lemma_ascii_char_bytes(10u8);
                    lemma_encode_push(seq![13u8 as char], 10u8 as char);
                }
                str_bytes(x)
            },
        }
    }

    /// CRLF, the ending assumed for text without line breaks.
    pub fn default() -> (r: LineEnding)
        ensures
            r == LineEnding::CRLF,
    {
        LineEnding::CRLF
    }

    /// The name of the line ending.
    pub fn name(&self) -> (r: &'static str)
        ensures
            *self == LineEnding::CR ==> r@ == "CR"@,
            *self == LineEnding::LF ==> r@ == "LF"@,
            *self == LineEnding::CRLF ==> r@ == "CRLF"@,
    {
        match self {
            LineEnding::CR => "CR",
            LineEnding::LF => "LF",
            LineEnding::CRLF => "CRLF",
        }
    }
}

} // verus!
