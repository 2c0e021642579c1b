//! Byte offsets in text.

use vstd::prelude::*;
use crate::chars;

verus! {

/// The bytes that a character takes in UTF-8.
pub open spec fn char_len(c: char) -> nat {
    if (c as u32) < 0x80 {
        1
    } else if (c as u32) < 0x800 {
        2
    } else if (c as u32) < 0x1_0000 {
        3
    } else {
        4
    }
}

/// The bytes that a text takes.
pub open spec fn byte_len(s: Seq<char>) -> nat
    decreases s.len(),
{
    if s.len() == 0 {
        0
    } else {
        byte_len(s.drop_last()) + char_len(s.last())
    }
}

/// The byte offset of character `i`.
pub open spec fn offset_of(s: Seq<char>, i: int) -> nat {
    byte_len(s.take(i))
}

/// A character starts at the offset, or the text ends there.
pub open spec fn on_boundary(s: Seq<char>, o: int) -> bool {
    exists|i: int| 0 <= i <= s.len() && #[trigger] offset_of(s, i) == o
}

/// The character that starts at an offset.
pub open spec fn index_at(s: Seq<char>, o: int) -> int {
    choose|i: int| 0 <= i <= s.len() && #[trigger] offset_of(s, i) == o
}

/// The text between two offsets; none where they are not on boundaries in order.
pub open spec fn slice(s: Seq<char>, start: int, end: int) -> Seq<char> {
    if start <= end && on_boundary(s, start) && on_boundary(s, end) {
        s.subrange(index_at(s, start), index_at(s, end))
    } else {
        Seq::empty()
    }
}

/// Later characters have larger offsets.
pub proof fn lemma_offsets_increase(s: Seq<char>, i: int, j: int)
    requires
        0 <= i < j <= s.len(),
    ensures
        offset_of(s, i) + (j - i) <= offset_of(s, j),
    decreases j,
{
    assert(s.take(j).drop_last() =~= s.take(j - 1));
    if i < j - 1 {
        lemma_offsets_increase(s, i, j - 1);
    }
}

/// One character starts at an offset.
pub proof fn lemma_index_unique(s: Seq<char>, i: int)
    requires
        0 <= i <= s.len(),
    ensures
        on_boundary(s, offset_of(s, i) as int),
        index_at(s, offset_of(s, i) as int) == i,
{
    let o = offset_of(s, i) as int;
    let j = index_at(s, o);
    assert(offset_of(s, i) == o);
    assert(0 <= j <= s.len() && offset_of(s, j) == o);
    if j < i {
        lemma_offsets_increase(s, j, i);
    } else if i < j {
        lemma_offsets_increase(s, i, j);
    }
}

pub proof fn lemma_byte_len_concat(a: Seq<char>, b: Seq<char>)
    ensures
        byte_len(a + b) == byte_len(a) + byte_len(b),
    decreases b.len(),
{
    if b.len() == 0 {
        assert(a + b =~= a);
    } else {
        assert((a + b).drop_last() =~= a + b.drop_last());
        lemma_byte_len_concat(a, b.drop_last());
    }
}

/// The bytes that a character takes in UTF-8.
pub fn bytes_of(c: char) -> (n: usize)
    ensures
        n == char_len(c),
        1 <= n <= 4,
{
    let u: u32 = c as u32;
    if u < 0x80 {
        1
    } else if u < 0x800 {
        2
    } else if u < 0x1_0000 {
        3
    } else {
        4
    }
}

/// The bytes that a text takes; none where they are more than can be counted.
pub fn count_bytes(v: &Vec<char>) -> (n: Option<usize>)
    ensures
        n is Some <==> byte_len(v@) <= usize::MAX,
        n matches Some(n) ==> n == byte_len(v@),
{
    let mut n: usize = 0;
    let mut i: usize = 0;
    while i < v.len()
        invariant
            i <= v@.len(),
            n == offset_of(v@, i as int),
        decreases v.len() - i,
    {
        assert(v@.take(i + 1).drop_last() =~= v@.take(i as int));
        let k: usize = bytes_of(v[i]);
        if n > usize::MAX - k {
            proof {
                assert(v@.take(v@.len() as int) =~= v@);
                if i + 1 < v@.len() {
                    lemma_offsets_increase(v@, i + 1, v@.len() as int);
                }
            }
            return None;
        }
        n = n + k;
        i += 1;
    }
    assert(v@.take(v@.len() as int) =~= v@);
    Some(n)
}

/// The character that starts at an offset.
pub fn find_offset(v: &Vec<char>, o: usize) -> (r: Option<usize>)
    ensures
        r is Some <==> on_boundary(v@, o as int),
        r matches Some(i) ==> i <= v@.len() && i == index_at(v@, o as int) && offset_of(
            v@,
            i as int,
        ) == o,
{
    let mut n: usize = 0;
    let mut i: usize = 0;
    while i < v.len() && n < o
        invariant
            i <= v@.len(),
            n == offset_of(v@, i as int),
            forall|j: int| 0 <= j < i ==> #[trigger] offset_of(v@, j) < o,
        decreases v.len() - i,
    {
        assert(v@.take(i + 1).drop_last() =~= v@.take(i as int));
        let k: usize = bytes_of(v[i]);
        if k > o - n {
            proof {
                assert forall|j: int| 0 <= j <= v@.len() implies #[trigger] offset_of(v@, j)
                    != o by {
                    if j > i + 1 {
                        lemma_offsets_increase(v@, i + 1, j);
                    }
                }
            }
            return None;
        }
        n = n + k;
        i += 1;
    }
    if n == o {
        proof {
            lemma_index_unique(v@, i as int);
        }
        Some(i)
    } else {
        proof {
            assert forall|j: int| 0 <= j <= v@.len() implies #[trigger] offset_of(v@, j) != o by {
                if j > i {
                    lemma_offsets_increase(v@, i as int, j);
                }
            }
        }
        None
    }
}

/// The text between two offsets; none where they are not on boundaries in order.
pub fn text_between(v: &Vec<char>, start: usize, end: usize) -> (r: String)
    ensures
        r@ == slice(v@, start as int, end as int),
{
    if start <= end {
        if let Some(i) = find_offset(v, start) {
            if let Some(j) = find_offset(v, end) {
                proof {
                    if j < i {
                        lemma_offsets_increase(v@, j as int, i as int);
                    }
                }
                return chars::to_text(&chars::sub_chars(v, i, j));
            }
        }
    }
    let r = String::new();
    assert(r@ =~= Seq::<char>::empty());
    r
}

} // verus!
