//! Facts about UTF-8 that byte-wise work on text rests on.
use vstd::prelude::*;
use vstd::utf8::*;

verus! {

/// The encoding of two texts in a row is their encodings in a row.
pub proof fn lemma_encode_concat(a: Seq<char>, b: Seq<char>)
    ensures
        encode_utf8(a + b) == encode_utf8(a) + encode_utf8(b),
    decreases a.len(),
{
    if a.len() == 0 {
        assert(a + b =~= b);
        assert(encode_utf8(a) + encode_utf8(b) =~= encode_utf8(b));
    } else {
        lemma_encode_concat(a.drop_first(), b);
        assert((a + b).drop_first() =~= a.drop_first() + b);
        let head = encode_scalar(a[0] as u32);
        assert(head + (encode_utf8(a.drop_first()) + encode_utf8(b)) =~= (head + encode_utf8(
            a.drop_first(),
        )) + encode_utf8(b));
    }
}

/// An ASCII character is encoded as the byte of its own code.
pub proof fn lemma_encode_ascii(c: char)
    requires
        c <= '\u{7f}',
    ensures
        encode_utf8(seq![c]) == seq![c as u8],
        (c as u8) as char == c,
{
    let s = seq![c];
    assert(is_ascii_chars(s));
    is_ascii_chars_encode_utf8(s);
    assert(s[0] == c);
    assert(encode_utf8(s) =~= seq![c as u8]);
}

/// The encoding of any other character is made of bytes that no ASCII character has.
pub proof fn lemma_encode_beyond_ascii(c: char)
    requires
        c > '\u{7f}',
    ensures
        encode_scalar(c as u32).len() > 0,
        forall|i: int|
            0 <= i < encode_scalar(c as u32).len() ==> #[trigger] encode_scalar(c as u32)[i]
                >= 0x80,
{
    let v = c as u32;
    assert(0xC0u8 | ((v >> 6) & 0x1F) as u8 >= 0x80) by (bit_vector);
    assert(0xE0u8 | ((v >> 12) & 0x0F) as u8 >= 0x80) by (bit_vector);
    assert(0xF0u8 | ((v >> 18) & 0x7) as u8 >= 0x80) by (bit_vector);
    assert(0x80u8 | (v & 0x3F) as u8 >= 0x80) by (bit_vector);
    assert(0x80u8 | ((v >> 6) & 0x3F) as u8 >= 0x80) by (bit_vector);
    assert(0x80u8 | ((v >> 12) & 0x3F) as u8 >= 0x80) by (bit_vector);
}

/// The encoding of a text starts with that of its first character.
pub proof fn lemma_encode_first(s: Seq<char>)
    requires
        s.len() > 0,
    ensures
        encode_utf8(s) == encode_scalar(s[0] as u32) + encode_utf8(s.drop_first()),
        encode_utf8(seq![s[0]]) == encode_scalar(s[0] as u32),
{
    let one = seq![s[0]];
    assert(one.drop_first() =~= Seq::<char>::empty());
    assert(encode_utf8(one.drop_first()) =~= Seq::<u8>::empty());
    assert(encode_scalar(s[0] as u32) + Seq::<u8>::empty() =~= encode_scalar(s[0] as u32));
}

} // verus!
