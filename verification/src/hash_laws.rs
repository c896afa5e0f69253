//! Laws of the deduplication hash: inputs of different kinds never coincide,
//! and equal inputs come only from equal content.

use vstd::prelude::*;
use vstd::utf8::{encode_utf8, encode_utf8_decode_utf8};

use crate::backend::le_bytes;
use crate::clipboard::{
    ascii_bytes, concat_bytes, domain_input, domain_prefix, hash_input, kind_name, Captured,
    ClipboardKind,
};

verus! {

proof fn lemma_concat_one(a: Seq<u8>)
    ensures
        concat_bytes(seq![a]) == a,
{
    reveal_with_fuel(concat_bytes, 2);
    assert(seq![a].drop_last() =~= Seq::<Seq<u8>>::empty());
    assert(Seq::<u8>::empty() + a =~= a);
}

/// A text and a file list are hashed from different bytes, whatever they
/// contain: the text `D:\a.txt` and the file list `[D:\a.txt]` are different entries.
pub proof fn lemma_text_and_files_apart(t: Captured, f: Captured)
    requires
        t is Text,
        f is Files,
    ensures
        hash_input(t) != hash_input(f),
{
    let a = hash_input(t);
    let b = hash_input(f);
    assert(a[0] == domain_prefix(ClipboardKind::Text)[0]);
    assert(b[0] == domain_prefix(ClipboardKind::Files)[0]);
    assert(ascii_bytes(kind_name(ClipboardKind::Text))[0] == 116u8);
    assert(ascii_bytes(kind_name(ClipboardKind::Files))[0] == 102u8);
}

/// Two texts are hashed from the same bytes only when they are the same text.
pub proof fn lemma_text_input_injective(a: Captured, b: Captured)
    requires
        a is Text,
        b is Text,
        hash_input(a) == hash_input(b),
    ensures
        a->Text_0@ == b->Text_0@,
{
    let x = a->Text_0@;
    let y = b->Text_0@;
    let p = domain_prefix(ClipboardKind::Text);
    lemma_concat_one(encode_utf8(x));
    lemma_concat_one(encode_utf8(y));
    assert(hash_input(a) == p + encode_utf8(x));
    assert(hash_input(b) == p + encode_utf8(y));
    assert(encode_utf8(x) =~= hash_input(a).subrange(p.len() as int, hash_input(a).len() as int));
    assert(encode_utf8(y) =~= hash_input(b).subrange(p.len() as int, hash_input(b).len() as int));
    encode_utf8_decode_utf8(x);
    encode_utf8_decode_utf8(y);
}

proof fn lemma_le_bytes_injective(x: u32, y: u32)
    requires
        le_bytes(x) == le_bytes(y),
    ensures
        x == y,
{
    assert(le_bytes(x)[0] == le_bytes(y)[0]);
    assert(le_bytes(x)[1] == le_bytes(y)[1]);
    assert(le_bytes(x)[2] == le_bytes(y)[2]);
    assert(le_bytes(x)[3] == le_bytes(y)[3]);
    assert(x % 256 == y % 256);
    assert((x / 256) % 256 == (y / 256) % 256);
    assert((x / 65536) % 256 == (y / 65536) % 256);
    assert((x / 16777216) % 256 == (y / 16777216) % 256);
    assert(x == y) by (bit_vector)
        requires
            x % 256 == y % 256,
            (x / 256) % 256 == (y / 256) % 256,
            (x / 65536) % 256 == (y / 65536) % 256,
            (x / 16777216) % 256 == (y / 16777216) % 256,
    ;
}

proof fn lemma_concat_three(a: Seq<u8>, b: Seq<u8>, c: Seq<u8>)
    ensures
        concat_bytes(seq![a, b, c]) == a + b + c,
{
    reveal_with_fuel(concat_bytes, 4);
    assert(seq![a, b, c].drop_last() =~= seq![a, b]);
    assert(seq![a, b].drop_last() =~= seq![a]);
    assert(seq![a].drop_last() =~= Seq::<Seq<u8>>::empty());
    assert(Seq::<u8>::empty() + a =~= a);
}

proof fn lemma_strip_prefix(pre: Seq<u8>, x: Seq<u8>, y: Seq<u8>)
    requires
        pre + x == pre + y,
    ensures
        x == y,
{
    assert(x =~= (pre + x).subrange(pre.len() as int, (pre + x).len() as int));
    assert(y =~= (pre + y).subrange(pre.len() as int, (pre + y).len() as int));
}

proof fn lemma_split_eight(a1: Seq<u8>, b1: Seq<u8>, c1: Seq<u8>, a2: Seq<u8>, b2: Seq<u8>, c2: Seq<u8>)
    requires
        a1.len() == 4,
        b1.len() == 4,
        a2.len() == 4,
        b2.len() == 4,
        a1 + b1 + c1 == a2 + b2 + c2,
    ensures
        a1 == a2,
        b1 == b2,
        c1 == c2,
{
    let s1 = a1 + b1 + c1;
    let s2 = a2 + b2 + c2;
    assert(a1 =~= s1.subrange(0, 4));
    assert(a2 =~= s2.subrange(0, 4));
    assert(b1 =~= s1.subrange(4, 8));
    assert(b2 =~= s2.subrange(4, 8));
    assert(c1 =~= s1.subrange(8, s1.len() as int));
    assert(c2 =~= s2.subrange(8, s2.len() as int));
}

/// Pixel hashes are taken over size and pixels: equal inputs mean equal
/// width, height and pixel bytes, so the same bytes at another size are
/// another picture.
pub proof fn lemma_pixel_input_injective(
    w1: u32,
    h1: u32,
    p1: Seq<u8>,
    w2: u32,
    h2: u32,
    p2: Seq<u8>,
)
    requires
        domain_input(ClipboardKind::Image, seq![le_bytes(w1), le_bytes(h1), p1]) == domain_input(
            ClipboardKind::Image,
            seq![le_bytes(w2), le_bytes(h2), p2],
        ),
    ensures
        w1 == w2,
        h1 == h2,
        p1 == p2,
{
    lemma_concat_three(le_bytes(w1), le_bytes(h1), p1);
    lemma_concat_three(le_bytes(w2), le_bytes(h2), p2);
    lemma_strip_prefix(
        domain_prefix(ClipboardKind::Image),
        le_bytes(w1) + le_bytes(h1) + p1,
        le_bytes(w2) + le_bytes(h2) + p2,
    );
    lemma_split_eight(le_bytes(w1), le_bytes(h1), p1, le_bytes(w2), le_bytes(h2), p2);
    lemma_le_bytes_injective(w1, w2);
    lemma_le_bytes_injective(h1, h2);
}

} // verus!
