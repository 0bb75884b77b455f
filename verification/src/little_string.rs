//! Short byte strings stored inline, longer ones in a `String`.
use crate::text::{char_bytes, lemma_ascii_char_bytes, lemma_encode_concat, lemma_encode_push, string_insert, string_push_str, lemma_ascii_repeat, str_bytes, str_from_utf8, string_from_utf8, string_push, string_with_capacity};
use vstd::prelude::*;
use vstd::utf8::*;

verus! {

/// Strings shorter than this many bytes (and up to it, for some
/// constructors) are kept inline.
pub const N_MAX_LITTLE: usize = 10;

/// A string of bytes: inline, with its length, while short; a `String` once
/// long.
pub enum LittleString {
    Little((u8, [u8; N_MAX_LITTLE])),
    Big(String),
}

impl View for LittleString {
    type V = Seq<u8>;

    /// The bytes of the string: the first `len` inline bytes, or the UTF-8
    /// encoding of the `String`.
    open spec fn view(&self) -> Seq<u8> {
        match self {
            LittleString::Little((len, data)) => data@.take(*len as int),
            LittleString::Big(s) => encode_utf8(s@),
        }
    }
}

/// An inline string of length zero whose block is all zeros.
pub open spec fn empty_block(s: LittleString) -> bool {
    s matches LittleString::Little((len, data)) && len == 0 && data@ == Seq::new(N_MAX_LITTLE as nat, |i: int| 0u8)
}

/// Ten zero bytes.
fn zero_block() -> (r: [u8; N_MAX_LITTLE])
    ensures
        r@ == Seq::new(N_MAX_LITTLE as nat, |i: int| 0u8),
{
    let r = [0u8, 0u8, 0u8, 0u8, 0u8, 0u8, 0u8, 0u8, 0u8, 0u8];
    assert(r@ =~= Seq::new(N_MAX_LITTLE as nat, |i: int| 0u8));
    r
}

/// An inline block whose first bytes are `b`, the rest zero.
fn block_from(b: &[u8]) -> (r: [u8; N_MAX_LITTLE])
    requires
        b@.len() <= N_MAX_LITTLE,
    ensures
        r@.take(b@.len() as int) == b@,
{
    let mut data = zero_block();
    let mut i: usize = 0;
    while i < b.len()
        invariant
            i <= b@.len() <= N_MAX_LITTLE,
            forall|j: int| 0 <= j < i ==> data@[j] == b@[j],
            data@.len() == N_MAX_LITTLE,
        decreases b@.len() - i,
    {
        data[i] = b[i];
        i = i + 1;
    }
    assert(data@.take(b@.len() as int) =~= b@);
    data
}

impl LittleString {
    /// The inline form keeps its length within the block.
    pub open spec fn wf(&self) -> bool {
        match self {
            LittleString::Little((len, _)) => *len as int <= N_MAX_LITTLE,
            LittleString::Big(_) => true,
        }
    }

    /// `len` copies of the byte `ch`: inline when shorter than the limit, and
    /// otherwise a `String` of `len` copies of the character `ch as char`.
    pub fn from_char_repeated(ch: u8, len: usize) -> (r: Self)
        ensures
            r.wf(),
            len < N_MAX_LITTLE ==> r is Little && r@ == Seq::new(len as nat, |i: int| ch),
            len >= N_MAX_LITTLE ==> r is Big && r@ == encode_utf8(Seq::new(len as nat, |i: int| ch as char)),
            ch < 128 ==> r@ == Seq::new(len as nat, |i: int| ch),
    {
        if len < N_MAX_LITTLE {
            let mut data = zero_block();
            let mut i: usize = 0;
            while i < len
                invariant
                    i <= len < N_MAX_LITTLE,
                    data@.len() == N_MAX_LITTLE,
                    forall|j: int| 0 <= j < i ==> data@[j] == ch,
                decreases len - i,
            {
                data[i] = ch;
                i = i + 1;
            }
            let r = LittleString::Little((len as u8, data));
            assert(r@ =~= Seq::new(len as nat, |i: int| ch));
            r
        } else {
            let mut s = string_with_capacity(len);
            let mut i: usize = 0;
            while i < len
                invariant
                    i <= len,
                    s@ == Seq::new(i as nat, |j: int| ch as char),
                decreases len - i,
            {
                string_push(&mut s, ch as char);
                assert(s@ =~= Seq::new((i + 1) as nat, |j: int| ch as char));
                i = i + 1;
            }
            proof {
                if ch < 128 {
                    lemma_ascii_repeat(ch, len as nat);
                }
            }
            LittleString::Big(s)
        }
    }

    /// The empty string, inline, its block all zeros.
    pub fn empty() -> (r: LittleString)
        ensures
            r.wf(),
            r is Little,
            r@ == Seq::<u8>::empty(),
            empty_block(r),
    {
        let r = LittleString::Little((0, zero_block()));
        assert(r@ =~= Seq::<u8>::empty());
        r
    }

    /// Same as [`LittleString::empty`].
    pub fn default() -> (r: LittleString)
        ensures
            r.wf(),
            r is Little,
            r@ == Seq::<u8>::empty(),
            empty_block(r),
    {
        Self::empty()
    }

    /// Collects bytes: fewer than the limit stay inline; from the limit on they
    /// become a `String`, which they must be valid UTF-8 for (otherwise it
    /// would panic).
    pub fn from_iter(bytes: &[u8]) -> (r: Self)
        requires
            bytes@.len() >= N_MAX_LITTLE ==> valid_utf8(bytes@),
        ensures
            r.wf(),
            r@ == bytes@,
            (bytes@.len() < N_MAX_LITTLE) == (r is Little),
    {
        if bytes.len() < N_MAX_LITTLE {
            let data = block_from(bytes);
            LittleString::Little((bytes.len() as u8, data))
        } else {
            let mut v: Vec<u8> = Vec::with_capacity(bytes.len());
            let mut i: usize = 0;
            while i < bytes.len()
                invariant
                    i <= bytes@.len(),
                    v@ == bytes@.take(i as int),
                decreases bytes@.len() - i,
            {
                v.push(bytes[i]);
                assert(v@ =~= bytes@.take(i + 1));
                i = i + 1;
            }
            assert(bytes@.take(bytes@.len() as int) =~= bytes@);
            let s = string_from_utf8(v).unwrap();
            LittleString::Big(s)
        }
    }

    /// The bytes of `value`: inline up to the limit, a `String` beyond it.
    pub fn from_str(value: &str) -> (r: Self)
        ensures
            r.wf(),
            r@ == encode_utf8(value@),
    {
        let b = str_bytes(value);
        if b.len() > N_MAX_LITTLE {
            LittleString::Big(value.to_owned())
        } else {
            let data = block_from(b);
            LittleString::Little((b.len() as u8, data))
        }
    }

    /// The bytes of `value`: inline up to the limit, kept as is beyond it.
    pub fn from_string(value: String) -> (r: Self)
        ensures
            r.wf(),
            r@ == encode_utf8(value@),
    {
        let b = str_bytes(value.as_str());
        if b.len() > N_MAX_LITTLE {
            LittleString::Big(value)
        } else {
            let data = block_from(b);
            LittleString::Little((b.len() as u8, data))
        }
    }

    /// One byte: the character truncated to eight bits.
    pub fn from_char(value: char) -> (r: Self)
        ensures
            r.wf(),
            r is Little,
            r@ == seq![value as u8],
    {
        let mut data = zero_block();
        data[0] = value as u8;
        let r = LittleString::Little((1u8, data));
        assert(r@ =~= seq![value as u8]);
        r
    }

    /// A copy of the string, in the same form.
    pub fn clone(&self) -> (r: Self)
        ensures
            r == *self,
    {
        match self {
            LittleString::Little((len, data)) => LittleString::Little((*len, *data)),
            LittleString::Big(s) => LittleString::Big(s.clone()),
        }
    }

    /// The length in bytes.
    pub fn len(&self) -> (r: usize)
        requires
            self.wf(),
        ensures
            r == self@.len(),
    {
        match self {
            LittleString::Little((len, _data)) => *len as usize,
            LittleString::Big(s) => str_bytes(s.as_str()).len(),
        }
    }

    /// Whether the string is held inline.
    pub fn is_little(&self) -> (r: bool)
        ensures
            r == (*self is Little),
    {
        match self {
            LittleString::Little(_) => true,
            LittleString::Big(_) => false,
        }
    }

    /// The bytes, borrowed.
    pub fn as_bytes(&self) -> (r: &[u8])
        requires
            self.wf(),
        ensures
            r@ == self@,
    {
        match self {
            LittleString::Little((len, data)) => {
                let s = vstd::array::array_as_slice(data);
                let r = &s[0..*len as usize];
                assert(r@ =~= self@);
                r
            },
            LittleString::Big(s) => str_bytes(s.as_str()),
        }
    }

    /// The string as text; the inline bytes must be valid UTF-8 (otherwise it
    /// would panic).
    pub fn as_str(&self) -> (r: &str)
        requires
            self.wf(),
            valid_utf8(self@),
        ensures
            encode_utf8(r@) == self@,
    {
        match self {
            LittleString::Little(_) => {
                let b = self.as_bytes();
                str_from_utf8(b).unwrap()
            },
            LittleString::Big(s) => s.as_str(),
        }
    }
}


impl LittleString {
    /// Appends the bytes of `other`. An inline string that would outgrow the
    /// limit becomes a `String`, for which its bytes must be valid UTF-8
    /// (otherwise it would panic).
    pub fn push_str(&mut self, other: &str)
        requires
            old(self).wf(),
            *old(self) is Little && old(self)@.len() + encode_utf8(other@).len() > N_MAX_LITTLE
                ==> valid_utf8(old(self)@),
        ensures
            final(self).wf(),
            final(self)@ == old(self)@ + encode_utf8(other@),
    {
        let ob = str_bytes(other);
        let mut me = LittleString::empty();
        std::mem::swap(self, &mut me);
        match me {
            LittleString::Little((len, data)) => {
                let l = len as usize;
                if ob.len() > N_MAX_LITTLE - l {
                    let head = str_from_utf8(&vstd::array::array_as_slice(&data)[0..l]).unwrap();
                    let mut s = string_with_capacity(l.saturating_add(ob.len()));
                    string_push_str(&mut s, head);
                    string_push_str(&mut s, other);
                    proof {
                        assert(s@ == head@ + other@);
                        lemma_encode_concat(head@, other@);
                    }
                    *self = LittleString::Big(s);
                } else {
                    let mut data = data;
                    let mut i: usize = 0;
                    while i < ob.len()
                        invariant
                            i <= ob@.len(),
                            l + ob@.len() <= N_MAX_LITTLE,
                            data@.len() == N_MAX_LITTLE,
                            data@.take(l as int) == me@,
                            forall|j: int| 0 <= j < i ==> data@[l + j] == ob@[j],
                        decreases ob@.len() - i,
                    {
                        let ghost before = data@;
                        data[l + i] = ob[i];
                        assert(data@.take(l as int) =~= before.take(l as int));
                        i = i + 1;
                    }
                    let total = l + ob.len();
                    *self = LittleString::Little((total as u8, data));
                    assert(self@ =~= me@ + ob@);
                }
            },
            LittleString::Big(mut s) => {
                let ghost before = s@;
                string_push_str(&mut s, other);
                proof {
                    lemma_encode_concat(before, other@);
                }
                *self = LittleString::Big(s);
            },
        }
    }

    /// [`LittleString::push_str`], returning the result.
    pub fn added(self, other: &str) -> (r: Self)
        requires
            self.wf(),
            self is Little && self@.len() + encode_utf8(other@).len() > N_MAX_LITTLE ==> valid_utf8(self@),
        ensures
            r.wf(),
            r@ == self@ + encode_utf8(other@),
    {
        let mut me = self;
        me.push_str(other);
        me
    }

    /// Inserts the byte `ch` at byte position `index`. An inline string keeps
    /// the byte; one at the limit, or a `String`, gets the character `ch as
    /// char`, which for ASCII is the same byte. A `String` needs `index` on a
    /// character boundary, and an inline string at the limit needs both sides
    /// of `index` to be valid UTF-8 (otherwise it would panic).
    pub fn insert(&mut self, index: usize, ch: u8)
        requires
            old(self).wf(),
            index <= old(self)@.len(),
            *old(self) is Little && old(self)@.len() >= N_MAX_LITTLE ==> valid_utf8(old(self)@.take(index as int))
                && valid_utf8(old(self)@.skip(index as int)),
            *old(self) is Big ==> is_char_boundary(old(self)@, index as int),
        ensures
            final(self).wf(),
            *old(self) is Little && old(self)@.len() < N_MAX_LITTLE ==> final(self)@ == old(self)@.insert(index as int, ch),
            !(*old(self) is Little && old(self)@.len() < N_MAX_LITTLE) ==> final(self)@ == old(self)@.take(index as int)
                + char_bytes(ch as char) + old(self)@.skip(index as int),
            ch < 128 ==> final(self)@ == old(self)@.insert(index as int, ch),
            *old(self) is Little && old(self)@.len() < N_MAX_LITTLE ==> *final(self) is Little,
            !(*old(self) is Little && old(self)@.len() < N_MAX_LITTLE) ==> *final(self) is Big,
    {
        let mut me = LittleString::empty();
        std::mem::swap(self, &mut me);
        let ghost old_bytes = me@;
        match me {
            LittleString::Little((len, data)) => {
                let l = len as usize;
                if l + 1 > N_MAX_LITTLE {
                    let sl = vstd::array::array_as_slice(&data);
                    assert(sl@.subrange(0, index as int) =~= old_bytes.take(index as int));
                    assert(sl@.subrange(index as int, N_MAX_LITTLE as int) =~= old_bytes.skip(index as int));
                    let left = str_from_utf8(&sl[0..index]).unwrap();
                    let right = str_from_utf8(&sl[index..N_MAX_LITTLE]).unwrap();
                    let mut s = string_with_capacity(l + 1);
                    string_push_str(&mut s, left);
                    string_push(&mut s, ch as char);
                    string_push_str(&mut s, right);
                    proof {
                        assert(sl@.subrange(0, index as int) =~= old_bytes.take(index as int));
                        assert(sl@.subrange(index as int, N_MAX_LITTLE as int) =~= old_bytes.skip(index as int));
                        lemma_encode_push(left@, ch as char);
                        lemma_encode_concat(left@.push(ch as char), right@);
                    }
                    *self = LittleString::Big(s);
                } else {
                    let mut data = data;
                    let mut j: usize = l;
                    while j > index
                        invariant
                            index <= j <= l < N_MAX_LITTLE,
                            data@.len() == N_MAX_LITTLE,
                            forall|k: int| 0 <= k < index ==> data@[k] == old_bytes[k],
                            forall|k: int| index <= k < j ==> data@[k] == old_bytes[k],
                            forall|k: int| j < k <= l ==> data@[k] == old_bytes[k - 1],
                        decreases j,
                    {
                        data[j] = data[j - 1];
                        j = j - 1;
                    }
                    data[index] = ch;
                    *self = LittleString::Little(((l + 1) as u8, data));
                    assert(self@ =~= old_bytes.insert(index as int, ch));
                }
            },
            LittleString::Big(mut s) => {
                string_insert(&mut s, index, ch as char);
                *self = LittleString::Big(s);
            },
        }
        proof {
            if ch < 128 {
                lemma_ascii_char_bytes(ch);
                assert(old_bytes.take(index as int) + seq![ch] + old_bytes.skip(index as int)
                    =~= old_bytes.insert(index as int, ch));
            }
        }
    }

    /// The string as an owned `String`; its bytes must be valid UTF-8 (which a
    /// `String` always is; otherwise it would panic).
    pub fn to_string_clone(&self) -> (r: String)
        requires
            self.wf(),
            valid_utf8(self@),
        ensures
            encode_utf8(r@) == self@,
    {
        match self {
            LittleString::Little(_) => self.as_str().to_owned(),
            LittleString::Big(s) => s.clone(),
        }
    }

    /// The string followed by `added`, as a new `String`.
    pub fn to_string_added_clone(&self, added: &str) -> (r: String)
        requires
            self.wf(),
            valid_utf8(self@),
        ensures
            encode_utf8(r@) == self@ + encode_utf8(added@),
    {
        let head = self.as_str();
        let mut s = string_with_capacity(self.len().saturating_add(str_bytes(added).len()));
        string_push_str(&mut s, head);
        string_push_str(&mut s, added);
        proof {
            assert(s@ == head@ + added@);
            lemma_encode_concat(head@, added@);
        }
        s
    }

    /// Appends the ASCII character `ch` (any other would panic). An inline
    /// string at the limit becomes a `String`, for which its bytes must be
    /// valid UTF-8.
    pub fn push(&mut self, ch: char)
        requires
            old(self).wf(),
            (ch as u32) < 128,
            *old(self) is Little && old(self)@.len() >= N_MAX_LITTLE ==> valid_utf8(old(self)@),
        ensures
            final(self).wf(),
            final(self)@ == old(self)@.push(ch as u8),
            *old(self) is Little && old(self)@.len() < N_MAX_LITTLE ==> *final(self) is Little,
            !(*old(self) is Little && old(self)@.len() < N_MAX_LITTLE) ==> *final(self) is Big,
    {
        let mut me = LittleString::empty();
        std::mem::swap(self, &mut me);
        let ghost old_bytes = me@;
        let b = ch as u8;
        proof {
            assert((ch as u8) as char == ch) by {
                vstd::utf8::char_u32_cast(ch, ch as u32);
            };
            lemma_ascii_char_bytes(b);
        }
        match me {
            LittleString::Little((len, data)) => {
                let l = len as usize;
                if l == N_MAX_LITTLE {
                    let sl = vstd::array::array_as_slice(&data);
                    assert(sl@ =~= old_bytes);
                    let head = str_from_utf8(sl).unwrap();
                    let mut s = string_with_capacity(N_MAX_LITTLE + 1);
                    string_push_str(&mut s, head);
                    string_push(&mut s, ch);
                    proof {
                        assert(data@ =~= old_bytes);
                        lemma_encode_push(head@, ch);
                    }
                    *self = LittleString::Big(s);
                } else {
                    let mut data = data;
                    data[l] = b;
                    *self = LittleString::Little(((l + 1) as u8, data));
                    assert(self@ =~= old_bytes.push(b));
                }
            },
            LittleString::Big(mut s) => {
                let ghost before = s@;
                string_push(&mut s, ch);
                proof {
                    lemma_encode_push(before, ch);
                }
                *self = LittleString::Big(s);
            },
        }
    }
}

} // verus!
