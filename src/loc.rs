use vstd::prelude::*;
use vstd::std_specs::iter::IteratorSpec;
use vstd::utf8::{encode_scalar, encode_utf8};

verus! {

/// Number of bytes in the UTF-8 encoding of `c`.
pub open spec fn utf8_width(c: char) -> nat {
    encode_scalar(c as u32).len()
}

/// Byte offset at which the `i`-th character of `s` starts in its UTF-8 encoding.
pub open spec fn byte_offset(s: Seq<char>, i: int) -> nat {
    encode_utf8(s.take(i)).len()
}

/// A byte position relative to an enclosing text, moved to the start of the
/// slice that begins at `offset`; positions before the slice become 0.
pub open spec fn relative_pos(byte_pos: u32, offset: u32) -> int {
    if byte_pos < offset {
        0
    } else {
        byte_pos - offset
    }
}

/// Index of the first character at or after `i` that starts at or after byte
/// `pos`, or 0 when there is none.
pub open spec fn first_char_from(s: Seq<char>, pos: int, i: nat) -> nat
    decreases s.len() - i,
{
    if i >= s.len() {
        0
    } else if pos <= byte_offset(s, i as int) {
        i
    } else {
        first_char_from(s, pos, i + 1)
    }
}

/// Index of the first character of `s` that starts at or after byte `pos`, or
/// 0 when `pos` lies past the start of the last character.
pub open spec fn char_index(s: Seq<char>, pos: int) -> nat {
    first_char_from(s, pos, 0)
}

/// True when some character of `s` starts at or after byte `pos`.
pub open spec fn has_char_at_or_after(s: Seq<char>, pos: int) -> bool {
    exists|i: int| 0 <= i < s.len() && pos <= #[trigger] byte_offset(s, i)
}

/// The character index that `Loc::new(source, byte_pos, offset)` returns.
pub open spec fn loc_index(source: Seq<char>, byte_pos: u32, offset: u32) -> nat {
    char_index(source, relative_pos(byte_pos, offset))
}

proof fn lemma_encode_len_concat(a: Seq<char>, b: Seq<char>)
    ensures
        encode_utf8(a + b).len() == encode_utf8(a).len() + encode_utf8(b).len(),
    decreases a.len(),
{
    if a.len() > 0 {
        assert((a + b).drop_first() =~= a.drop_first() + b);
        lemma_encode_len_concat(a.drop_first(), b);
    } else {
        assert(a + b =~= b);
    }
}

/// Each character adds its own width to the byte offset of the next one.
pub proof fn lemma_byte_offset_step(s: Seq<char>, i: int)
    requires
        0 <= i < s.len(),
    ensures
        byte_offset(s, i + 1) == byte_offset(s, i) + utf8_width(s[i]),
        1 <= utf8_width(s[i]) <= 4,
{
    assert(s.take(i + 1) =~= s.take(i) + seq![s[i]]);
    lemma_encode_len_concat(s.take(i), seq![s[i]]);
    assert(seq![s[i]].drop_first() =~= Seq::<char>::empty());
    assert(encode_utf8(seq![s[i]]) =~= encode_scalar(s[i] as u32) + encode_utf8(Seq::<char>::empty()));
}

/// Byte offsets grow with the character index, at least one byte per character.
pub proof fn lemma_byte_offset_grows(s: Seq<char>, i: int, j: int)
    requires
        0 <= i <= j <= s.len(),
    ensures
        byte_offset(s, j) >= byte_offset(s, i) + (j - i),
    decreases j - i,
{
    if i < j {
        lemma_byte_offset_step(s, j - 1);
        lemma_byte_offset_grows(s, i, j - 1);
    }
}

/// Width in bytes of the UTF-8 encoding of `c`.
fn char_width(c: char) -> (w: u64)
    ensures
        w == utf8_width(c),
{
    proof {
        vstd::utf8::char_is_scalar(c);
    }
    let u = c as u32;
    if u <= 0x7F {
        1
    } else if u <= 0x7FF {
        2
    } else if u <= 0xFFFF {
        3
    } else {
        4
    }
}

/// A character position (0-based) in one file's source text.
#[derive(Clone, Copy, PartialEq, Eq, PartialOrd, Ord, Debug, Structural)]
pub struct Loc(pub u32);

impl Loc {
    /// Converts `byte_pos`, a UTF-8 byte offset into an enclosing text in
    /// which `source` starts at byte `offset`, into the index of the first
    /// character of `source` that starts at or after it. A position before
    /// `source` counts as its start; one past the start of its last character
    /// gives index 0. Each call scans `source` from its start.
    pub fn new(source: &str, byte_pos: u32, offset: u32) -> (r: Loc)
        ensures
            r.0 == loc_index(source@, byte_pos, offset),
    {
        let pos: u32 = if byte_pos < offset {
            0
        } else {
            byte_pos - offset
        };
        let ghost s = source@;
        let mut chars = source.chars();
        let mut i: u32 = 0;
        let mut byte: u64 = 0;
        loop
            invariant
                s == source@,
                i <= s.len(),
                chars.remaining() == s.skip(i as int),
                chars.obeys_prophetic_iter_laws(),
                byte == byte_offset(s, i as int),
                i <= pos,
                pos == relative_pos(byte_pos, offset),
                first_char_from(s, pos as int, i as nat) == char_index(s, pos as int),
            decreases s.len() - i,
        {
            let next = chars.next();
            match next {
                None => {
                    return Loc(0);
                },
                Some(c) => {
                    proof {
                        assert(s.skip(i as int)[0] == s[i as int]);
                        lemma_byte_offset_step(s, i as int);
                        lemma_byte_offset_grows(s, 0, i as int);
                    }
                    if (pos as u64) <= byte {
                        return Loc(i);
                    }
                    byte = byte + char_width(c);
                    i = i + 1;
                    assert(chars.remaining() =~= s.skip(i as int));
                },
            }
        }
    }
}

proof fn lemma_first_char_found(s: Seq<char>, pos: int, i: nat, j: int)
    requires
        i <= j < s.len(),
        pos <= byte_offset(s, j),
    ensures
        i <= first_char_from(s, pos, i) <= j,
    decreases j - i,
{
    if pos > byte_offset(s, i as int) {
        lemma_first_char_found(s, pos, i + 1, j);
    }
}

proof fn lemma_first_char_monotonic(s: Seq<char>, pos1: int, pos2: int, i: nat, j: int)
    requires
        pos1 <= pos2,
        i <= j < s.len(),
        pos2 <= byte_offset(s, j),
    ensures
        first_char_from(s, pos1, i) <= first_char_from(s, pos2, i),
    decreases j - i,
{
    if pos2 > byte_offset(s, i as int) {
        if pos1 <= byte_offset(s, i as int) {
            lemma_first_char_found(s, pos2, i + 1, j);
        } else {
            lemma_first_char_monotonic(s, pos1, pos2, i + 1, j);
        }
    }
}

/// Later byte positions map to later (or equal) locations, as long as the
/// later position does not fall past the start of the last character, where
/// the result drops back to 0; an earlier position that itself gives 0 is
/// below anything.
pub proof fn lemma_loc_monotonic(source: Seq<char>, p1: u32, p2: u32, offset: u32)
    requires
        offset <= p1 <= p2,
        has_char_at_or_after(source, relative_pos(p2, offset)) || loc_index(source, p1, offset)
            == 0,
    ensures
        loc_index(source, p1, offset) <= loc_index(source, p2, offset),
{
    if has_char_at_or_after(source, relative_pos(p2, offset)) {
        let j = choose|j: int|
            0 <= j < source.len() && relative_pos(p2, offset) <= #[trigger] byte_offset(source, j);
        lemma_first_char_monotonic(source, relative_pos(p1, offset), relative_pos(p2, offset), 0, j);
    }
}

/// A byte position before the start of the text maps to location 0.
pub proof fn lemma_loc_clamp(source: Seq<char>, byte_pos: u32, offset: u32)
    requires
        byte_pos < offset,
    ensures
        loc_index(source, byte_pos, offset) == 0,
{
    assert(source.take(0) =~= Seq::<char>::empty());
}

/// A span of source text, from one location to another.
#[derive(Clone, Copy, PartialEq, Eq, Debug, Structural)]
pub struct Range {
    pub from: Loc,
    pub until: Loc,
}

impl Range {
    /// A range with the given ends; no order between them is enforced.
    pub fn new(from: Loc, until: Loc) -> (r: Range)
        ensures
            r.from == from,
            r.until == until,
    {
        Range { from, until }
    }
}

} // verus!
