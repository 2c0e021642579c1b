//! Text as a sequence of characters: comparing, trimming, splitting and joining.

use vstd::prelude::*;

verus! {

/// Whether a character has the Unicode property `White_Space`.
pub open spec fn white_space(c: char) -> bool {
    ||| 0x09 <= c as int <= 0x0d
    ||| c as int == 0x20
    ||| c as int == 0x85
    ||| c as int == 0xa0
    ||| c as int == 0x1680
    ||| 0x2000 <= c as int <= 0x200a
    ||| c as int == 0x2028
    ||| c as int == 0x2029
    ||| c as int == 0x202f
    ||| c as int == 0x205f
    ||| c as int == 0x3000
}

/// `s` without its leading white space.
pub open spec fn trim_start(s: Seq<char>) -> Seq<char>
    decreases s.len(),
{
    if s.len() > 0 && white_space(s[0]) {
        trim_start(s.drop_first())
    } else {
        s
    }
}

/// `s` without its trailing white space.
pub open spec fn trim_end(s: Seq<char>) -> Seq<char>
    decreases s.len(),
{
    if s.len() > 0 && white_space(s.last()) {
        trim_end(s.drop_last())
    } else {
        s
    }
}

/// `s` without leading and trailing white space.
pub open spec fn trimmed(s: Seq<char>) -> Seq<char> {
    trim_end(trim_start(s))
}

/// An ASCII capital in lower case, any other character as it is.
pub open spec fn ascii_lower(c: char) -> char {
    if 'A' <= c && c <= 'Z' {
        (c as int + 32) as char
    } else {
        c
    }
}

/// `s` with ASCII capitals in lower case.
pub open spec fn lowered(s: Seq<char>) -> Seq<char> {
    Seq::new(s.len(), |i: int| ascii_lower(s[i]))
}

pub open spec fn ascii_letter(c: char) -> bool {
    ('a' <= c && c <= 'z') || ('A' <= c && c <= 'Z')
}

pub open spec fn ascii_digit(c: char) -> bool {
    '0' <= c && c <= '9'
}

/// The pieces of `s` between the separators.
pub open spec fn split(s: Seq<char>, sep: char) -> Seq<Seq<char>>
    decreases s.len(),
{
    if s.len() == 0 {
        seq![Seq::empty()]
    } else {
        let rest = split(s.drop_last(), sep);
        if s.last() == sep {
            rest.push(Seq::empty())
        } else {
            rest.drop_last().push(rest.last().push(s.last()))
        }
    }
}

/// The pieces with `sep` between each two.
pub open spec fn join(pieces: Seq<Seq<char>>, sep: Seq<char>) -> Seq<char>
    decreases pieces.len(),
{
    if pieces.len() == 0 {
        Seq::empty()
    } else if pieces.len() == 1 {
        pieces[0]
    } else {
        join(pieces.drop_last(), sep) + sep + pieces.last()
    }
}

/// The concatenation of the pieces.
pub open spec fn flatten(pieces: Seq<Seq<char>>) -> Seq<char>
    decreases pieces.len(),
{
    if pieces.len() == 0 {
        Seq::empty()
    } else {
        flatten(pieces.drop_last()) + pieces.last()
    }
}

/// The views of a list of character vectors.
pub open spec fn views(v: Seq<Vec<char>>) -> Seq<Seq<char>> {
    Seq::new(v.len(), |i: int| v[i]@)
}

/// Splitting leaves at least one piece.
pub proof fn lemma_split_nonempty(s: Seq<char>, sep: char)
    ensures
        split(s, sep).len() > 0,
    decreases s.len(),
{
    if s.len() > 0 {
        lemma_split_nonempty(s.drop_last(), sep);
    }
}

/// Joining the pieces with the separator gives back what was split.
pub proof fn lemma_split_join(s: Seq<char>, sep: char)
    ensures
        join(split(s, sep), seq![sep]) == s,
    decreases s.len(),
{
    if s.len() > 0 {
        let t = s.drop_last();
        let rest = split(t, sep);
        lemma_split_join(t, sep);
        lemma_split_nonempty(t, sep);
        if s.last() == sep {
            assert(rest.push(Seq::empty()).drop_last() =~= rest);
            assert(join(split(s, sep), seq![sep]) =~= s);
        } else {
            let last = rest.last().push(s.last());
            let pieces = rest.drop_last().push(last);
            assert(pieces.drop_last() =~= rest.drop_last());
            assert(pieces.last() == last);
            assert(s =~= t.push(s.last()));
            if rest.len() == 1 {
                assert(join(pieces, seq![sep]) == last);
                assert(last =~= t.push(s.last()));
            } else {
                assert(join(pieces, seq![sep]) == join(rest.drop_last(), seq![sep]) + seq![sep]
                    + last);
                assert(join(pieces, seq![sep]) =~= t.push(s.last()));
            }
        }
    }
}

/// The character does not occur in the text.
pub open spec fn lacks(s: Seq<char>, c: char) -> bool {
    forall|i: int| 0 <= i < s.len() ==> #[trigger] s[i] != c
}

/// The text neither begins nor ends with white space, and it is not empty.
pub open spec fn tight(s: Seq<char>) -> bool {
    s.len() > 0 && !white_space(s[0]) && !white_space(s.last())
}

/// No piece holds the separator.
pub proof fn lemma_pieces_lack_the_separator(s: Seq<char>, sep: char)
    ensures
        forall|i: int|
            0 <= i < split(s, sep).len() ==> lacks(#[trigger] split(s, sep)[i], sep),
    decreases s.len(),
{
    if s.len() > 0 {
        lemma_split_nonempty(s.drop_last(), sep);
        lemma_pieces_lack_the_separator(s.drop_last(), sep);
        let rest = split(s.drop_last(), sep);
        assert(lacks(rest[rest.len() - 1], sep));
    }
}

/// What does not occur in a text occurs in none of its pieces.
pub proof fn lemma_pieces_come_from_the_text(s: Seq<char>, sep: char)
    ensures
        forall|c: char, i: int|
            lacks(s, c) && 0 <= i < split(s, sep).len() ==> #[trigger] lacks(split(s, sep)[i], c),
    decreases s.len(),
{
    if s.len() > 0 {
        let t = s.drop_last();
        lemma_split_nonempty(t, sep);
        lemma_pieces_come_from_the_text(t, sep);
        let rest = split(t, sep);
        assert forall|c: char, i: int|
            lacks(s, c) && 0 <= i < split(s, sep).len() implies #[trigger] lacks(
            split(s, sep)[i],
            c,
        ) by {
            assert(s[s.len() - 1] != c);
            assert(lacks(t, c));
            assert(lacks(rest[rest.len() - 1], c));
            if i < rest.len() {
                assert(lacks(rest[i], c));
            }
        }
    }
}

proof fn lemma_trim_start(s: Seq<char>)
    ensures
        trim_start(s).len() > 0 ==> !white_space(trim_start(s)[0]),
        forall|c: char| lacks(s, c) ==> #[trigger] lacks(trim_start(s), c),
    decreases s.len(),
{
    if s.len() > 0 && white_space(s[0]) {
        lemma_trim_start(s.drop_first());
        assert forall|c: char| lacks(s, c) implies #[trigger] lacks(trim_start(s), c) by {
            assert(lacks(s.drop_first(), c));
            assert(lacks(trim_start(s.drop_first()), c));
        }
    }
}

proof fn lemma_trim_end(s: Seq<char>)
    ensures
        trim_end(s).len() > 0 ==> !white_space(trim_end(s).last()) && trim_end(s)[0] == s[0],
        forall|c: char| lacks(s, c) ==> #[trigger] lacks(trim_end(s), c),
    decreases s.len(),
{
    if s.len() > 0 && white_space(s.last()) {
        lemma_trim_end(s.drop_last());
        assert forall|c: char| lacks(s, c) implies #[trigger] lacks(trim_end(s), c) by {
            assert(lacks(s.drop_last(), c));
            assert(lacks(trim_end(s.drop_last()), c));
        }
    }
}

/// A trimmed text is empty or tight, and holds nothing that was not there.
pub proof fn lemma_trimmed(s: Seq<char>)
    ensures
        trimmed(s).len() > 0 ==> tight(trimmed(s)),
        forall|c: char| lacks(s, c) ==> #[trigger] lacks(trimmed(s), c),
{
    lemma_trim_start(s);
    lemma_trim_end(trim_start(s));
    assert forall|c: char| lacks(s, c) implies #[trigger] lacks(trimmed(s), c) by {
        assert(lacks(trim_start(s), c));
        assert(lacks(trim_end(trim_start(s)), c));
    }
}

/// Text without the separator grows the last piece.
proof fn lemma_split_more(t: Seq<char>, x: Seq<char>, sep: char)
    requires
        lacks(x, sep),
    ensures
        split(t, sep).len() > 0,
        split(t + x, sep) == split(t, sep).drop_last().push(split(t, sep).last() + x),
    decreases x.len(),
{
    lemma_split_nonempty(t, sep);
    if x.len() == 0 {
        assert(t + x =~= t);
        assert(split(t, sep).last() + x =~= split(t, sep).last());
        assert(split(t, sep) =~= split(t, sep).drop_last().push(split(t, sep).last()));
    } else {
        let y = x.drop_last();
        let c = x.last();
        lemma_split_more(t, y, sep);
        assert((t + x).drop_last() =~= t + y);
        assert((t + x).last() == c);
        let rest = split(t + y, sep);
        assert(rest.drop_last() =~= split(t, sep).drop_last());
        assert(rest.last().push(c) =~= split(t, sep).last() + x);
    }
}

/// The pieces of texts joined by a comma and a space: from the second on each has the space.
pub open spec fn spaced_pieces(names: Seq<Seq<char>>) -> Seq<Seq<char>> {
    Seq::new(
        names.len(),
        |i: int|
            if i == 0 {
                names[0]
            } else {
                seq![' '] + names[i]
            },
    )
}

/// Splitting a list at its commas gives its items back.
pub proof fn lemma_split_list(names: Seq<Seq<char>>)
    requires
        names.len() > 0,
        forall|i: int| 0 <= i < names.len() ==> lacks(#[trigger] names[i], ','),
    ensures
        split(join(names, ", "@), ',') == spaced_pieces(names),
    decreases names.len(),
{
    reveal_strlit(", ");
    let last = names.last();
    assert(lacks(names[names.len() - 1], ','));
    if names.len() == 1 {
        assert(Seq::<char>::empty() + last =~= last);
        lemma_split_more(Seq::empty(), last, ',');
        assert(split(last, ',') =~= spaced_pieces(names));
    } else {
        let init = names.drop_last();
        assert forall|i: int| 0 <= i < init.len() implies lacks(#[trigger] init[i], ',') by {
            assert(lacks(names[i], ','));
        }
        lemma_split_list(init);
        let t = join(init, ", "@);
        let x = seq![' '] + last;
        assert(lacks(x, ','));
        let u = t.push(',');
        assert(u.drop_last() =~= t);
        lemma_split_more(u, x, ',');
        assert(join(names, ", "@) =~= u + x);
        assert(split(u, ',') == split(t, ',').push(Seq::empty()));
        assert(split(u, ',').drop_last() =~= split(t, ','));
        assert(Seq::<char>::empty() + x =~= x);
        assert(split(u + x, ',') =~= spaced_pieces(names));
    }
}

/// Trimming leaves a tight text as it is, and takes a space before it away.
pub proof fn lemma_tight_is_trimmed(s: Seq<char>)
    requires
        tight(s),
    ensures
        trimmed(s) == s,
        trimmed(seq![' '] + s) == s,
{
    let t = seq![' '] + s;
    assert(t.drop_first() =~= s);
    assert(white_space(t[0]));
    assert(trim_start(t) == trim_start(s));
}

/// The characters of `s`.
pub fn to_chars(s: &str) -> (v: Vec<char>)
    ensures
        v@ == s@,
{
    let mut v: Vec<char> = Vec::new();
    for c in it: s.chars()
        invariant
            it.seq() == s@,
            v@ == s@.take(it.index()),
    {
        v.push(c);
        assert(v@ =~= s@.take(it.index() + 1));
    }
    assert(s@.take(s@.len() as int) =~= s@);
    v
}

/// The string made of the characters.
pub fn to_text(v: &Vec<char>) -> (s: String)
    ensures
        s@ == v@,
{
    let mut s = String::new();
    push_chars(&mut s, v);
    assert(s@ =~= v@);
    s
}

/// Appends the characters.
pub fn push_chars(out: &mut String, v: &Vec<char>)
    ensures
        final(out)@ == old(out)@ + v@,
{
    let ghost start = out@;
    let mut i: usize = 0;
    while i < v.len()
        invariant
            i <= v.len(),
            out@ == start + v@.take(i as int),
        decreases v.len() - i,
    {
        out.push(v[i]);
        i += 1;
        assert(out@ =~= start + v@.take(i as int));
    }
    assert(v@.take(v@.len() as int) =~= v@);
}

/// Whether the characters spell `s`.
pub fn spells(v: &Vec<char>, s: &str) -> (r: bool)
    ensures
        r == (v@ == s@),
{
    let w: Vec<char> = to_chars(s);
    if v.len() != w.len() {
        return false;
    }
    let mut i: usize = 0;
    while i < v.len()
        invariant
            i <= v.len(),
            v@.len() == w@.len(),
            w@ == s@,
            forall|j: int| 0 <= j < i ==> v@[j] == w@[j],
        decreases v.len() - i,
    {
        if v[i] != w[i] {
            return false;
        }
        i += 1;
    }
    assert(v@ =~= w@);
    true
}

/// Whether two strings are equal.
pub fn same_text(a: &str, b: &str) -> (r: bool)
    ensures
        r == (a@ == b@),
{
    spells(&to_chars(a), b)
}

/// Whether a character has the Unicode property `White_Space`.
pub fn is_white_space(c: char) -> (r: bool)
    ensures
        r == white_space(c),
{
    let n: u32 = c as u32;
    (0x09 <= n && n <= 0x0d) || n == 0x20 || n == 0x85 || n == 0xa0 || n == 0x1680 || (0x2000 <= n
        && n <= 0x200a) || n == 0x2028 || n == 0x2029 || n == 0x202f || n == 0x205f || n == 0x3000
}

/// The characters without leading and trailing white space.
pub fn trim(v: &Vec<char>) -> (r: Vec<char>)
    ensures
        r@ == trimmed(v@),
{
    let mut lo: usize = 0;
    let mut hi: usize = v.len();
    assert(v@.subrange(0, v@.len() as int) =~= v@);
    while lo < hi && is_white_space(v[lo])
        invariant
            lo <= hi == v.len(),
            trim_start(v@) == trim_start(v@.subrange(lo as int, hi as int)),
        decreases hi - lo,
    {
        assert(v@.subrange(lo as int, hi as int).drop_first() =~= v@.subrange(
            lo + 1,
            hi as int,
        ));
        lo += 1;
    }
    assert(trim_start(v@) =~= v@.subrange(lo as int, hi as int));
    while lo < hi && is_white_space(v[hi - 1])
        invariant
            lo <= hi <= v.len(),
            trimmed(v@) == trim_end(v@.subrange(lo as int, hi as int)),
        decreases hi - lo,
    {
        assert(v@.subrange(lo as int, hi as int).drop_last() =~= v@.subrange(
            lo as int,
            hi - 1,
        ));
        hi -= 1;
    }
    assert(trimmed(v@) =~= v@.subrange(lo as int, hi as int));
    sub_chars(v, lo, hi)
}

/// The characters from `lo` up to `hi`.
pub fn sub_chars(v: &Vec<char>, lo: usize, hi: usize) -> (r: Vec<char>)
    requires
        lo <= hi <= v@.len(),
    ensures
        r@ == v@.subrange(lo as int, hi as int),
{
    let mut r: Vec<char> = Vec::new();
    let mut i: usize = lo;
    while i < hi
        invariant
            lo <= i <= hi <= v@.len(),
            r@ == v@.subrange(lo as int, i as int),
        decreases hi - i,
    {
        r.push(v[i]);
        i += 1;
        assert(r@ =~= v@.subrange(lo as int, i as int));
    }
    r
}

/// The characters with ASCII capitals in lower case.
pub fn to_lower(v: &Vec<char>) -> (r: Vec<char>)
    ensures
        r@ == lowered(v@),
{
    let mut r: Vec<char> = Vec::new();
    let mut i: usize = 0;
    while i < v.len()
        invariant
            i <= v.len(),
            r@.len() == i,
            forall|j: int| 0 <= j < i ==> r@[j] == ascii_lower(v@[j]),
        decreases v.len() - i,
    {
        let c = v[i];
        if 'A' <= c && c <= 'Z' {
            r.push((c as u8 + 32) as char);
        } else {
            r.push(c);
        }
        i += 1;
    }
    assert(r@ =~= lowered(v@));
    r
}

/// The pieces between the separators.
pub fn split_chars(v: &Vec<char>, sep: char) -> (pieces: Vec<Vec<char>>)
    ensures
        views(pieces@) == split(v@, sep),
{
    let mut done: Vec<Vec<char>> = Vec::new();
    let mut last: Vec<char> = Vec::new();
    let mut i: usize = 0;
    assert(v@.take(0) =~= Seq::<char>::empty());
    assert(views(done@).push(last@) =~= split(v@.take(0), sep));
    while i < v.len()
        invariant
            i <= v.len(),
            views(done@).push(last@) == split(v@.take(i as int), sep),
        decreases v.len() - i,
    {
        let c = v[i];
        let ghost before = views(done@).push(last@);
        let ghost head = views(done@);
        assert(v@.take(i + 1).drop_last() =~= v@.take(i as int));
        assert(before.drop_last() =~= head);
        if c == sep {
            done.push(last);
            last = Vec::new();
            assert(views(done@) =~= before);
        } else {
            last.push(c);
        }
        i += 1;
        assert(views(done@).push(last@) =~= split(v@.take(i as int), sep));
    }
    assert(v@.take(v@.len() as int) =~= v@);
    let ghost head = views(done@).push(last@);
    done.push(last);
    assert(views(done@) =~= head);
    done
}

} // verus!
