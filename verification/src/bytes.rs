//! UTF-8 byte widths of characters, and byte offsets inside strings.
//!
//! Strings are viewed as `Seq<char>`; a byte offset into a string is the
//! sum of the UTF-8 widths of the characters before it. A byte offset is a
//! character boundary when some prefix of the characters has exactly that
//! many bytes.
use vstd::prelude::*;

verus! {

/// Number of bytes in the UTF-8 encoding of `c` (`char::len_utf8`).
pub open spec fn char_width(c: char) -> nat {
    let v = c as u32;
    if v < 0x80 {
        1
    } else if v < 0x800 {
        2
    } else if v < 0x10000 {
        3
    } else {
        4
    }
}

/// Number of bytes in the UTF-8 encoding of `s` (`str::len`).
pub open spec fn utf8_len(s: Seq<char>) -> nat
    decreases s.len(),
{
    if s.len() == 0 {
        0
    } else {
        utf8_len(s.drop_last()) + char_width(s.last())
    }
}

/// Byte offset of the `k`-th character of `s`.
pub open spec fn byte_offset(s: Seq<char>, k: int) -> nat {
    utf8_len(s.take(k))
}

/// Whether byte offset `pos` falls between two characters of `s` (or at
/// either end).
pub open spec fn is_boundary(s: Seq<char>, pos: int) -> bool {
    exists|k: int| 0 <= k <= s.len() && byte_offset(s, k) == pos
}

/// The index of the character that starts at byte offset `pos`.
pub open spec fn char_index(s: Seq<char>, pos: int) -> int {
    choose|k: int| 0 <= k <= s.len() && byte_offset(s, k) == pos
}

/// Executable `char_width`.
pub fn width_of(c: char) -> (w: usize)
    ensures
        w == char_width(c),
        1 <= w <= 4,
{
    let v = c as u32;
    if v < 0x80 {
        1
    } else if v < 0x800 {
        2
    } else if v < 0x10000 {
        3
    } else {
        4
    }
}

/// The byte length of a string (`str::len`): the sum of the UTF-8 widths of
/// its characters, which std documents as the length of the string in bytes.
/// It is at most `isize::MAX`, the most bytes std lets one allocation (and
/// so one string) hold.
#[verifier::external_body]
pub fn str_byte_len(s: &str) -> (n: usize)
    ensures
        n == utf8_len(s@),
        n <= isize::MAX,
{
    s.len()
}

/// Adding one character to the end adds its width.
pub proof fn lemma_take_step(s: Seq<char>, k: int)
    requires
        0 <= k < s.len(),
    ensures
        byte_offset(s, k + 1) == byte_offset(s, k) + char_width(s[k]),
{
    assert(s.take(k + 1).drop_last() =~= s.take(k));
}

/// The byte length of the whole string is the offset after its last char.
pub proof fn lemma_take_all(s: Seq<char>)
    ensures
        byte_offset(s, s.len() as int) == utf8_len(s),
        byte_offset(s, 0) == 0,
{
    assert(s.take(s.len() as int) =~= s);
}

/// Byte offsets grow strictly with the character index.
pub proof fn lemma_offset_strict(s: Seq<char>, i: int, j: int)
    requires
        0 <= i <= j <= s.len(),
    ensures
        byte_offset(s, i) + (j - i) <= byte_offset(s, j),
    decreases j - i,
{
    if i < j {
        lemma_offset_strict(s, i, j - 1);
        lemma_take_step(s, j - 1);
    }
}

/// A byte offset names at most one character index.
pub proof fn lemma_offset_injective(s: Seq<char>, i: int, j: int)
    requires
        0 <= i <= s.len(),
        0 <= j <= s.len(),
        byte_offset(s, i) == byte_offset(s, j),
    ensures
        i == j,
{
    if i < j {
        lemma_offset_strict(s, i, j);
    } else if j < i {
        lemma_offset_strict(s, j, i);
    }
}

/// `char_index` picks the character index of a boundary.
pub proof fn lemma_char_index(s: Seq<char>, k: int)
    requires
        0 <= k <= s.len(),
    ensures
        is_boundary(s, byte_offset(s, k) as int),
        char_index(s, byte_offset(s, k) as int) == k,
{
    let pos = byte_offset(s, k) as int;
    assert(0 <= k <= s.len() && byte_offset(s, k) == pos);
    let c = char_index(s, pos);
    lemma_offset_injective(s, c, k);
}

/// Byte length of a concatenation.
pub proof fn lemma_utf8_len_concat(a: Seq<char>, b: Seq<char>)
    ensures
        utf8_len(a + b) == utf8_len(a) + utf8_len(b),
    decreases b.len(),
{
    if b.len() == 0 {
        assert(a + b =~= a);
    } else {
        lemma_utf8_len_concat(a, b.drop_last());
        assert((a + b).drop_last() =~= a + b.drop_last());
    }
}

/// Byte length of a sub-range as a difference of offsets.
pub proof fn lemma_utf8_len_subrange(s: Seq<char>, i: int, j: int)
    requires
        0 <= i <= j <= s.len(),
    ensures
        utf8_len(s.subrange(i, j)) + byte_offset(s, i) == byte_offset(s, j),
{
    assert(s.take(j) =~= s.take(i) + s.subrange(i, j));
    lemma_utf8_len_concat(s.take(i), s.subrange(i, j));
}

/// Walks the characters of `v` from the start until their widths add up to
/// `pos`; returns the index reached.
pub fn char_index_of(v: &Vec<char>, pos: usize) -> (k: usize)
    requires
        is_boundary(v@, pos as int),
    ensures
        k <= v.len(),
        byte_offset(v@, k as int) == pos,
        k == char_index(v@, pos as int),
{
    let ghost target = char_index(v@, pos as int);
    proof {
        lemma_take_all(v@);
        lemma_offset_strict(v@, 0, target);
    }
    let mut k: usize = 0;
    let mut acc: usize = 0;
    while acc < pos
        invariant
            0 <= target <= v.len(),
            byte_offset(v@, target) == pos,
            0 <= k <= target,
            acc == byte_offset(v@, k as int),
        decreases target - k,
    {
        proof {
            if k == target {
                assert(false);
            }
            lemma_take_step(v@, k as int);
            lemma_offset_strict(v@, k + 1, target);
        }
        acc = acc + width_of(v[k]);
        k = k + 1;
    }
    proof {
        if k < target {
            lemma_offset_strict(v@, k as int, target);
            lemma_take_step(v@, k as int);
        }
    }
    k
}

} // verus!
