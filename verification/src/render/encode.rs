//! Text in markup and bytes in text.

use vstd::prelude::*;

verus! {

/// A character in markup; `quoted` inside a double-quoted attribute.
pub open spec fn char_markup(c: char, quoted: bool) -> Seq<char> {
    if c == '&' {
        "&amp;"@
    } else if c == '<' {
        "&lt;"@
    } else if c == '>' {
        "&gt;"@
    } else if c == '"' && quoted {
        "&quot;"@
    } else {
        seq![c]
    }
}

/// Text in markup, character by character.
pub open spec fn escaped(s: Seq<char>, quoted: bool) -> Seq<char>
    decreases s.len(),
{
    if s.len() == 0 {
        Seq::empty()
    } else {
        escaped(s.drop_last(), quoted) + char_markup(s.last(), quoted)
    }
}

/// Escapes `&`, `<` and `>`.
pub fn escape_text(s: &str) -> (out: String)
    ensures
        out@ == escaped(s@, false),
{
    let mut out = String::new();
    assert(out@ =~= escaped(s@.take(0), false));
    for c in it: s.chars()
        invariant
            it.seq() == s@,
            out@ == escaped(s@.take(it.index() as int), false),
    {
        assert(s@.take(it.index() as int + 1).drop_last() =~= s@.take(it.index() as int));
        if c == '&' {
            out.append("&amp;");
        } else if c == '<' {
            out.append("&lt;");
        } else if c == '>' {
            out.append("&gt;");
        } else {
            let ghost start = out@;
            out.push(c);
            assert(out@ =~= start + seq![c]);
        }
    }
    assert(s@.take(s@.len() as int) =~= s@);
    out
}

/// Escapes `&`, `<`, `>` and `"`.
pub fn escape_attr(s: &str) -> (out: String)
    ensures
        out@ == escaped(s@, true),
{
    let mut out = String::new();
    assert(out@ =~= escaped(s@.take(0), true));
    for c in it: s.chars()
        invariant
            it.seq() == s@,
            out@ == escaped(s@.take(it.index() as int), true),
    {
        assert(s@.take(it.index() as int + 1).drop_last() =~= s@.take(it.index() as int));
        if c == '"' {
            out.append("&quot;");
        } else if c == '&' {
            out.append("&amp;");
        } else if c == '<' {
            out.append("&lt;");
        } else if c == '>' {
            out.append("&gt;");
        } else {
            let ghost start = out@;
            out.push(c);
            assert(out@ =~= start + seq![c]);
        }
    }
    assert(s@.take(s@.len() as int) =~= s@);
    out
}

/// Reads markup back: each entity is one character.
pub open spec fn unescaped(s: Seq<char>) -> Seq<char>
    decreases s.len(),
{
    if s.len() == 0 {
        Seq::empty()
    } else if ends_with(s, seq!['&', 'a', 'm', 'p', ';']) {
        unescaped(s.take(s.len() - 5)).push('&')
    } else if ends_with(s, seq!['&', 'l', 't', ';']) {
        unescaped(s.take(s.len() - 4)).push('<')
    } else if ends_with(s, seq!['&', 'g', 't', ';']) {
        unescaped(s.take(s.len() - 4)).push('>')
    } else if ends_with(s, seq!['&', 'q', 'u', 'o', 't', ';']) {
        unescaped(s.take(s.len() - 6)).push('"')
    } else {
        unescaped(s.drop_last()).push(s.last())
    }
}

/// `s` ends with `tail`.
pub open spec fn ends_with(s: Seq<char>, tail: Seq<char>) -> bool {
    s.len() >= tail.len() && forall|i: int|
        0 <= i < tail.len() ==> s[s.len() - tail.len() + i] == #[trigger] tail[i]
}

proof fn lemma_entities()
    ensures
        "&amp;"@ == seq!['&', 'a', 'm', 'p', ';'],
        "&lt;"@ == seq!['&', 'l', 't', ';'],
        "&gt;"@ == seq!['&', 'g', 't', ';'],
        "&quot;"@ == seq!['&', 'q', 'u', 'o', 't', ';'],
{
    reveal_strlit("&amp;");
    reveal_strlit("&lt;");
    reveal_strlit("&gt;");
    reveal_strlit("&quot;");
    assert("&amp;"@ =~= seq!['&', 'a', 'm', 'p', ';']);
    assert("&lt;"@ =~= seq!['&', 'l', 't', ';']);
    assert("&gt;"@ =~= seq!['&', 'g', 't', ';']);
    assert("&quot;"@ =~= seq!['&', 'q', 'u', 'o', 't', ';']);
}

/// Escaped text holds no `<` and no `>`, and inside an attribute no `"`.
pub proof fn law_escaped_text_is_inert(s: Seq<char>, quoted: bool)
    ensures
        forall|i: int|
            0 <= i < escaped(s, quoted).len() ==> {
                let c = #[trigger] escaped(s, quoted)[i];
                c != '<' && c != '>' && (quoted ==> c != '"')
            },
    decreases s.len(),
{
    if s.len() > 0 {
        law_escaped_text_is_inert(s.drop_last(), quoted);
        lemma_entities();
        let head = escaped(s.drop_last(), quoted);
        let last = char_markup(s.last(), quoted);
        let e = escaped(s, quoted);
        assert forall|i: int| 0 <= i < e.len() implies {
            let c = #[trigger] e[i];
            c != '<' && c != '>' && (quoted ==> c != '"')
        } by {
            if i < head.len() {
                assert(e[i] == head[i]);
            } else {
                assert(e[i] == last[i - head.len()]);
            }
        }
    }
}

/// In the last `n` characters of escaped text, no `&` without a `;`.
proof fn lemma_closed_tail(s: Seq<char>, quoted: bool, n: int)
    requires
        0 <= n <= escaped(s, quoted).len(),
        forall|i: int|
            escaped(s, quoted).len() - n <= i < escaped(s, quoted).len() ==> #[trigger] escaped(
                s,
                quoted,
            )[i] != ';',
    ensures
        forall|i: int|
            escaped(s, quoted).len() - n <= i < escaped(s, quoted).len() ==> #[trigger] escaped(
                s,
                quoted,
            )[i] != '&',
    decreases s.len(),
{
    if n > 0 && s.len() > 0 {
        lemma_entities();
        let e = escaped(s, quoted);
        let head = escaped(s.drop_last(), quoted);
        let last = char_markup(s.last(), quoted);
        assert(e.last() == last.last());
        assert(e.last() != ';');
        assert(last == seq![s.last()]);
        assert forall|i: int| head.len() - (n - 1) <= i < head.len() implies #[trigger] head[i]
            != ';' by {
            assert(e[i] == head[i]);
        }
        lemma_closed_tail(s.drop_last(), quoted, n - 1);
        assert forall|i: int| e.len() - n <= i < e.len() implies #[trigger] e[i] != '&' by {
            if i < head.len() {
                assert(e[i] == head[i]);
            }
        }
    }
}

/// A character that is not escaped does not complete an entity.
proof fn lemma_no_false_entity(s: Seq<char>, quoted: bool, c: char, name: Seq<char>)
    requires
        c != '&',
        name.len() > 0,
        forall|i: int| 0 <= i < name.len() ==> #[trigger] name[i] != ';',
        name[0] == '&',
    ensures
        !ends_with(escaped(s, quoted).push(c), name.push(';')),
{
    let e = escaped(s, quoted);
    let full = name.push(';');
    if ends_with(e.push(c), full) {
        let n = name.len() as int;
        assert(e.len() >= n);
        assert forall|i: int| e.len() - n <= i < e.len() implies #[trigger] e[i] == name[i - (e.len()
            - n)] by {
            let j = i - (e.len() - n);
            assert(e.push(c)[e.push(c).len() - full.len() + j] == full[j]);
            assert(e.push(c)[i] == e[i]);
        }
        lemma_closed_tail(s, quoted, n);
        assert(e[e.len() - n] == name[0]);
    }
}

/// An entity ends with one name only.
proof fn lemma_one_entity(e: Seq<char>)
    ensures
        ends_with(e, seq!['&', 'l', 't', ';']) ==> !ends_with(e, seq!['&', 'a', 'm', 'p', ';']),
        ends_with(e, seq!['&', 'g', 't', ';']) ==> !ends_with(e, seq!['&', 'a', 'm', 'p', ';'])
            && !ends_with(e, seq!['&', 'l', 't', ';']),
        ends_with(e, seq!['&', 'q', 'u', 'o', 't', ';']) ==> !ends_with(
            e,
            seq!['&', 'a', 'm', 'p', ';'],
        ) && !ends_with(e, seq!['&', 'l', 't', ';']) && !ends_with(e, seq!['&', 'g', 't', ';']),
{
    let amp = seq!['&', 'a', 'm', 'p', ';'];
    let lt = seq!['&', 'l', 't', ';'];
    let gt = seq!['&', 'g', 't', ';'];
    let quot = seq!['&', 'q', 'u', 'o', 't', ';'];
    let n = e.len();
    if ends_with(e, amp) {
        assert(e[n - 2] == amp[3]);
    }
    if ends_with(e, lt) {
        assert(e[n - 2] == lt[2] && e[n - 3] == lt[1]);
    }
    if ends_with(e, gt) {
        assert(e[n - 2] == gt[2] && e[n - 3] == gt[1]);
    }
    if ends_with(e, quot) {
        assert(e[n - 2] == quot[4] && e[n - 3] == quot[3]);
    }
}

/// An entity after other text reads back to its character.
proof fn lemma_entity_reads_back(head: Seq<char>, c: char, quoted: bool)
    requires
        char_markup(c, quoted) != seq![c],
    ensures
        unescaped(head + char_markup(c, quoted)) == unescaped(head).push(c),
{
    lemma_entities();
    let m = char_markup(c, quoted);
    let e = head + m;
    assert(m.len() >= 4);
    assert(ends_with(e, m)) by {
        assert forall|i: int| 0 <= i < m.len() implies e[e.len() - m.len() + i] == #[trigger] m[i] by {}
    }
    lemma_one_entity(e);
    assert(e.take(e.len() - m.len()) =~= head);
}

/// A character that is not escaped reads back to itself.
proof fn lemma_raw_reads_back(s: Seq<char>, c: char, quoted: bool)
    requires
        c != '&',
    ensures
        unescaped(escaped(s, quoted).push(c)) == unescaped(escaped(s, quoted)).push(c),
{
    let head = escaped(s, quoted);
    let e = head.push(c);
    assert(seq!['&', 'a', 'm', 'p'].push(';') =~= seq!['&', 'a', 'm', 'p', ';']);
    assert(seq!['&', 'l', 't'].push(';') =~= seq!['&', 'l', 't', ';']);
    assert(seq!['&', 'g', 't'].push(';') =~= seq!['&', 'g', 't', ';']);
    assert(seq!['&', 'q', 'u', 'o', 't'].push(';') =~= seq!['&', 'q', 'u', 'o', 't', ';']);
    lemma_no_false_entity(s, quoted, c, seq!['&', 'a', 'm', 'p']);
    lemma_no_false_entity(s, quoted, c, seq!['&', 'l', 't']);
    lemma_no_false_entity(s, quoted, c, seq!['&', 'g', 't']);
    lemma_no_false_entity(s, quoted, c, seq!['&', 'q', 'u', 'o', 't']);
    assert(e.drop_last() =~= head);
}

/// Escaping loses nothing: the entities read back to the text.
pub proof fn law_escaping_is_undone(s: Seq<char>, quoted: bool)
    ensures
        unescaped(escaped(s, quoted)) == s,
    decreases s.len(),
{
    if s.len() > 0 {
        let head = escaped(s.drop_last(), quoted);
        let c = s.last();
        law_escaping_is_undone(s.drop_last(), quoted);
        assert(s.drop_last().push(c) =~= s);
        if char_markup(c, quoted) == seq![c] {
            assert(c != '&') by {
                lemma_entities();
                assert(seq![c].len() == 1);
            }
            assert(escaped(s, quoted) =~= head.push(c));
            lemma_raw_reads_back(s.drop_last(), c, quoted);
        } else {
            lemma_entity_reads_back(head, c, quoted);
        }
    }
}

/// The base64 character of a number below 64.
pub open spec fn sextet_char(v: int) -> char {
    if v < 26 {
        (65 + v) as char
    } else if v < 52 {
        (71 + v) as char
    } else if v < 62 {
        (v - 4) as char
    } else if v == 62 {
        '+'
    } else {
        '/'
    }
}

/// The number of a base64 character; 0 for padding.
pub open spec fn char_sextet(c: char) -> int {
    if 'A' <= c <= 'Z' {
        c as int - 65
    } else if 'a' <= c <= 'z' {
        c as int - 71
    } else if '0' <= c <= '9' {
        c as int + 4
    } else if c == '+' {
        62
    } else if c == '/' {
        63
    } else {
        0
    }
}

/// Byte `i`, and 0 past the end.
pub open spec fn byte_or_zero(s: Seq<u8>, i: int) -> int {
    if i < s.len() {
        s[i] as int
    } else {
        0
    }
}

/// The four characters of one to three bytes: of `count` bytes, where those missing are 0.
#[verifier::opaque]
pub open spec fn group_chars(b0: int, b1: int, b2: int, count: int) -> Seq<char> {
    let n = b0 * 65536 + b1 * 256 + b2;
    seq![
        sextet_char(n / 262144),
        sextet_char(n / 4096 % 64),
        if count > 1 {
            sextet_char(n / 64 % 64)
        } else {
            '='
        },
        if count > 2 {
            sextet_char(n % 64)
        } else {
            '='
        },
    ]
}

/// The four characters of a group.
pub open spec fn base64_group(g: Seq<u8>) -> Seq<char> {
    group_chars(byte_or_zero(g, 0), byte_or_zero(g, 1), byte_or_zero(g, 2), g.len() as int)
}

/// The length of the last group of `n` bytes in groups of three.
pub open spec fn last_group(n: int) -> int {
    (n - 1) % 3 + 1
}

/// Bytes in base64: groups of three, the last one padded.
pub open spec fn base64(s: Seq<u8>) -> Seq<char>
    decreases s.len(),
{
    if s.len() == 0 {
        Seq::empty()
    } else {
        let k = s.len() - last_group(s.len() as int);
        base64(s.take(k)) + base64_group(s.skip(k))
    }
}

/// Reads base64 back.
pub open spec fn base64_bytes(t: Seq<char>) -> Seq<u8>
    decreases t.len(),
{
    if t.len() < 4 {
        Seq::empty()
    } else {
        let k = t.len() - 4;
        let n = char_sextet(t[k]) * 262144 + char_sextet(t[k + 1]) * 4096 + char_sextet(t[k + 2])
            * 64 + char_sextet(t[k + 3]);
        let head = base64_bytes(t.take(k)).push((n / 65536) as u8);
        if t[k + 2] == '=' {
            head
        } else if t[k + 3] == '=' {
            head.push((n / 256 % 256) as u8)
        } else {
            head.push((n / 256 % 256) as u8).push((n % 256) as u8)
        }
    }
}

fn sextet(v: u32) -> (c: char)
    requires
        v < 64,
    ensures
        c == sextet_char(v as int),
{
    let b: u8 = v as u8;
    if b < 26 {
        (65 + b) as char
    } else if b < 52 {
        (71 + b) as char
    } else if b < 62 {
        (b - 4) as char
    } else if b == 62 {
        '+'
    } else {
        '/'
    }
}

fn push_group(out: &mut String, b0: u32, b1: u32, b2: u32, count: usize)
    requires
        b0 < 256,
        b1 < 256,
        b2 < 256,
    ensures
        final(out)@ == old(out)@ + group_chars(b0 as int, b1 as int, b2 as int, count as int),
{
    let n: u32 = b0 * 65536 + b1 * 256 + b2;
    out.push(sextet(n / 262144));
    out.push(sextet(n / 4096 % 64));
    if count > 1 {
        out.push(sextet(n / 64 % 64));
    } else {
        out.push('=');
    }
    if count > 2 {
        out.push(sextet(n % 64));
    } else {
        out.push('=');
    }
    proof {
        reveal(group_chars);
        assert(final(out)@ =~= old(out)@ + group_chars(
            b0 as int,
            b1 as int,
            b2 as int,
            count as int,
        ));
    }
}

proof fn lemma_next_group(s: Seq<u8>, i: int, count: int)
    requires
        0 <= i < s.len(),
        i % 3 == 0,
        1 <= count <= 3,
        i + count <= s.len(),
    ensures
        base64(s.take(i + count)) == base64(s.take(i)) + base64_group(s.subrange(i, i + count)),
{
    let t = s.take(i + count);
    assert(last_group(t.len() as int) == count);
    assert(t.take(i) =~= s.take(i));
    assert(t.skip(i) =~= s.subrange(i, i + count));
}

/// Bytes in standard base64, with padding.
pub fn base64_encode(data: &[u8]) -> (out: String)
    ensures
        out@ == base64(data@),
{
    let mut out = String::new();
    let len: usize = data.len();
    let mut i: usize = 0;
    assert(out@ =~= base64(data@.take(0)));
    while i < len
        invariant
            i <= len,
            len == data@.len(),
            i % 3 == 0 || i == len,
            out@ == base64(data@.take(i as int)),
        decreases len - i,
    {
        let rest: usize = len - i;
        let count: usize = if rest < 3 {
            rest
        } else {
            3
        };
        let b0: u32 = data[i] as u32;
        let b1: u32 = if count > 1 {
            data[i + 1] as u32
        } else {
            0
        };
        let b2: u32 = if count > 2 {
            data[i + 2] as u32
        } else {
            0
        };
        let ghost g = data@.subrange(i as int, i + count);
        push_group(&mut out, b0, b1, b2, count);
        proof {
            lemma_next_group(data@, i as int, count as int);
            assert(b0 == byte_or_zero(g, 0) && b1 == byte_or_zero(g, 1) && b2 == byte_or_zero(
                g,
                2,
            ));
        }
        i += count;
    }
    assert(data@.take(len as int) =~= data@);
    out
}

proof fn lemma_sextet(v: int)
    requires
        0 <= v < 64,
    ensures
        char_sextet(sextet_char(v)) == v,
        sextet_char(v) != '=',
{
}

proof fn lemma_sextets(n: int)
    requires
        0 <= n < 16777216,
    ensures
        n / 262144 * 262144 + n / 4096 % 64 * 4096 + n / 64 % 64 * 64 + n % 64 == n,
{
}

proof fn lemma_triple(a: int, b: int, c: int)
    requires
        0 <= a < 256,
        0 <= b < 256,
        0 <= c < 256,
    ensures
        0 <= a * 65536 + b * 256 + c < 16777216,
        (a * 65536 + b * 256 + c) / 65536 == a,
        (a * 65536 + b * 256 + c) / 256 == a * 256 + b,
        (a * 256 + b) % 256 == b,
        (a * 65536 + b * 256 + c) % 256 == c,
{
    let n = a * 65536 + b * 256 + c;
    assert(n == (a * 256 + b) * 256 + c);
}

proof fn lemma_missing_bytes(a: int, b: int)
    requires
        0 <= a < 256,
        0 <= b < 256,
    ensures
        (a * 65536 + b * 256) % 64 == 0,
        (a * 65536) / 64 % 64 == 0,
{
    assert(a * 65536 + b * 256 == (a * 1024 + b * 4) * 64);
    assert(a * 65536 == (a * 16) * 64 * 64);
}

/// Base64 reads back to the bytes, and takes four characters for each three bytes or part of
/// three.
pub proof fn law_base64_reads_back(s: Seq<u8>)
    ensures
        base64_bytes(base64(s)) == s,
        base64(s).len() == (s.len() + 2) / 3 * 4,
    decreases s.len(),
{
    if s.len() > 0 {
        let k = s.len() - last_group(s.len() as int);
        let g = s.skip(k);
        let head = base64(s.take(k));
        let t = base64(s);
        law_base64_reads_back(s.take(k));
        let n = byte_or_zero(g, 0) * 65536 + byte_or_zero(g, 1) * 256 + byte_or_zero(g, 2);
        lemma_triple(byte_or_zero(g, 0), byte_or_zero(g, 1), byte_or_zero(g, 2));
        lemma_missing_bytes(byte_or_zero(g, 0), byte_or_zero(g, 1));
        reveal(group_chars);
        lemma_sextet(n / 262144);
        lemma_sextet(n / 4096 % 64);
        lemma_sextet(n / 64 % 64);
        lemma_sextet(n % 64);
        lemma_sextets(n);
        assert(t.take(t.len() - 4) =~= head);
        let q = base64_group(g);
        assert(t[t.len() - 4] == q[0] && t[t.len() - 3] == q[1] && t[t.len() - 2] == q[2] && t[t.len()
            - 1] == q[3]);
        assert(base64_bytes(t) =~= s.take(k) + g);
        assert(s.take(k) + g =~= s);
    }
}

} // verus!
