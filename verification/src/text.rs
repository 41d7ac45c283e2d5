//! Cutting string slices at ASCII bytes.
//!
//! A `&str` is modelled by its UTF-8 bytes. An ASCII byte never lies inside
//! the encoding of another character, so a string may be cut before and
//! after one.

use vstd::prelude::*;
use vstd::string::*;
use vstd::utf8::*;

verus! {

/// In valid UTF-8, an ASCII byte starts a character and ends it.
pub proof fn lemma_ascii_boundary(bytes: Seq<u8>, i: int)
    requires
        valid_utf8(bytes),
        0 <= i < bytes.len(),
        bytes[i] < 0x80,
    ensures
        is_char_boundary(bytes, i),
        is_char_boundary(bytes, i + 1),
{
    is_char_boundary_iff_not_is_continuation_byte(bytes, i);
    if i + 1 == bytes.len() {
        is_char_boundary_start_end_of_seq(bytes);
    } else {
        valid_utf8_split(bytes, i);
        let tail = bytes.subrange(i, bytes.len() as int);
        assert(tail[0] == bytes[i]);
        let rest = pop_first_scalar(tail);
        assert(rest =~= bytes.subrange(i + 1, bytes.len() as int));
        assert(valid_utf8(rest));
        assert(rest[0] == bytes[i + 1]);
        assert(!is_continuation_byte(bytes[i + 1]));
        is_char_boundary_iff_not_is_continuation_byte(bytes, i + 1);
    }
}

/// The bytes of two texts joined are the bytes of the first, then those of
/// the second.
pub proof fn lemma_encode_concat(a: Seq<char>, b: Seq<char>)
    ensures
        encode_utf8(a + b) == encode_utf8(a) + encode_utf8(b),
    decreases a.len(),
{
    if a.len() == 0 {
        assert(a + b =~= b);
        assert(encode_utf8(a) + encode_utf8(b) =~= encode_utf8(b));
    } else {
        lemma_encode_concat(a.drop_first(), b);
        assert((a + b).drop_first() =~= a.drop_first() + b);
        assert(encode_utf8(a + b) =~= encode_utf8(a) + encode_utf8(b));
    }
}

/// The part of `s` from byte `from` up to byte `to`.
pub fn str_slice<'a>(s: &'a str, from: usize, to: usize) -> (r: &'a str)
    requires
        from <= to <= s.spec_bytes().len(),
        is_char_boundary(s.spec_bytes(), from as int),
        is_char_boundary(s.spec_bytes(), to as int),
    ensures
        r.spec_bytes() == s.spec_bytes().subrange(from as int, to as int),
{
    let (head, _) = s.split_at(to);
    proof {
        let bytes = s.spec_bytes();
        let prefix = head.spec_bytes();
        encode_utf8_valid_utf8(s@);
        encode_utf8_valid_utf8(head@);
        if from == to {
            is_char_boundary_start_end_of_seq(prefix);
        } else {
            is_char_boundary_iff_not_is_continuation_byte(bytes, from as int);
            assert(prefix[from as int] == bytes[from as int]);
            is_char_boundary_iff_not_is_continuation_byte(prefix, from as int);
        }
    }
    let (_, part) = head.split_at(from);
    assert(part.spec_bytes() =~= s.spec_bytes().subrange(from as int, to as int));
    part
}

} // verus!
