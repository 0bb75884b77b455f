//! Byte-level text helpers: the std string calls the library makes, each with
//! the contract that its documentation gives, and the UTF-8 facts the proofs
//! about them need.
use vstd::prelude::*;
use vstd::utf8::*;

verus! {

/// The UTF-8 encoding of a single character.
pub open spec fn char_bytes(c: char) -> Seq<u8> {
    encode_utf8(seq![c])
}

/// Encoding distributes over concatenation.
pub proof fn lemma_encode_concat(a: Seq<char>, b: Seq<char>)
    ensures
        encode_utf8(a + b) == encode_utf8(a) + encode_utf8(b),
    decreases a.len(),
{
    if a.len() == 0 {
        assert(a + b =~= b);
        assert(encode_utf8(a) + encode_utf8(b) =~= encode_utf8(b));
    } else {
        assert((a + b).drop_first() =~= a.drop_first() + b);
        assert((a + b)[0] == a[0]);
        lemma_encode_concat(a.drop_first(), b);
        assert(encode_utf8(a + b) =~= encode_scalar(a[0] as u32) + (encode_utf8(a.drop_first()) + encode_utf8(b)));
    }
}

/// Encoding a sequence extended by one character.
pub proof fn lemma_encode_push(a: Seq<char>, c: char)
    ensures
        encode_utf8(a.push(c)) == encode_utf8(a) + char_bytes(c),
{
    assert(a.push(c) =~= a + seq![c]);
    lemma_encode_concat(a, seq![c]);
}

/// An ASCII character is encoded as its own code, in one byte.
pub proof fn lemma_ascii_char_bytes(b: u8)
    requires
        b < 128,
    ensures
        char_bytes(b as char) == seq![b],
{
    let c = b as char;
    let s = seq![c];
    assert(s.drop_first() =~= Seq::<char>::empty());
    assert((c as u32) == b as u32);
    assert(has_width_1_encoding(b as u32));
    assert(((b as u32) & 0x7F) as u8 == b) by (bit_vector)
        requires
            b < 128,
    ;
    assert(encode_utf8(s) =~= encode_scalar(c as u32) + encode_utf8(s.drop_first()));
    assert(encode_utf8(s) =~= seq![b]);
}

/// Repeating an ASCII character and encoding it gives the byte repeated.
pub proof fn lemma_ascii_repeat(b: u8, n: nat)
    requires
        b < 128,
    ensures
        encode_utf8(Seq::new(n, |i: int| b as char)) == Seq::new(n, |i: int| b),
    decreases n,
{
    if n > 0 {
        let m = (n - 1) as nat;
        lemma_ascii_repeat(b, m);
        assert(Seq::new(n, |i: int| b as char) =~= Seq::new(m, |i: int| b as char).push(b as char));
        lemma_encode_push(Seq::new(m, |i: int| b as char), b as char);
        lemma_ascii_char_bytes(b);
        assert(Seq::new(n, |i: int| b) =~= Seq::new(m, |i: int| b) + seq![b]);
    } else {
        assert(Seq::new(n, |i: int| b as char) =~= Seq::<char>::empty());
        assert(Seq::new(n, |i: int| b) =~= Seq::<u8>::empty());
    }
}

/// `String::with_capacity`: a new empty string.
#[verifier::external_body]
pub(crate) fn string_with_capacity(cap: usize) -> (r: String)
    ensures
        r@ == Seq::<char>::empty(),
{
    String::with_capacity(cap)
}

/// `String::push`: the character is appended.
#[verifier::external_body]
pub(crate) fn string_push(s: &mut String, c: char)
    ensures
        final(s)@ == old(s)@.push(c),
{
    s.push(c)
}

/// `String::push_str`: the text is appended.
#[verifier::external_body]
pub(crate) fn string_push_str(s: &mut String, t: &str)
    ensures
        final(s)@ == old(s)@ + t@,
{
    s.push_str(t)
}

/// `String::insert`: the character is inserted at the byte position `idx`,
/// which must be a character boundary (it panics otherwise).
#[verifier::external_body]
pub(crate) fn string_insert(s: &mut String, idx: usize, c: char)
    requires
        is_char_boundary(encode_utf8(old(s)@), idx as int),
    ensures
        encode_utf8(final(s)@) == encode_utf8(old(s)@).take(idx as int) + char_bytes(c)
            + encode_utf8(old(s)@).skip(idx as int),
{
    s.insert(idx, c)
}

/// `std::str::from_utf8`: the bytes read as text, where they are valid UTF-8.
#[verifier::external_body]
pub(crate) fn str_from_utf8(b: &[u8]) -> (r: Option<&str>)
    ensures
        r is Some <==> valid_utf8(b@),
        r matches Some(s) ==> encode_utf8(s@) == b@,
{
    std::str::from_utf8(b).ok()
}

/// `String::from_utf8`: the bytes as an owned string, where they are valid
/// UTF-8.
#[verifier::external_body]
pub(crate) fn string_from_utf8(b: Vec<u8>) -> (r: Option<String>)
    ensures
        r is Some <==> valid_utf8(b@),
        r matches Some(s) ==> encode_utf8(s@) == b@,
{
    String::from_utf8(b).ok()
}

/// The character of the decimal digit `d`.
pub open spec fn digit_char(d: nat) -> char {
    (48 + d) as char
}

/// The decimal digits of `n`, most significant first, without leading
/// zeros.
pub open spec fn decimal(n: nat) -> Seq<char>
    decreases n,
{
    if n < 10 {
        seq![digit_char(n)]
    } else {
        decimal(n / 10).push(digit_char(n % 10))
    }
}

/// Appends the decimal digits of `n`.
pub fn push_decimal(s: &mut String, n: usize)
    ensures
        final(s)@ == old(s)@ + decimal(n as nat),
    decreases n,
{
    if n >= 10 {
        push_decimal(s, n / 10);
    }
    let d = (n % 10) as u8;
    let ghost before = s@;
    string_push(s, (48u8 + d) as char);
    assert(((48u8 + d) as u8) as char == digit_char((n % 10) as nat));
    assert(s@ =~= old(s)@ + decimal(n as nat));
}

/// The bytes of a string slice.
pub fn str_bytes(s: &str) -> (r: &[u8])
    ensures
        r@ == encode_utf8(s@),
{
    s.as_bytes()
}

} // verus!
