//! Font-family lists in CSS syntax.

use vstd::prelude::*;
use crate::chars;

verus! {

/// A family name without the pair of quotes around it.
pub open spec fn unquoted(s: Seq<char>) -> Seq<char> {
    if s.len() >= 2 && s[0] == s.last() && (s[0] == '"' || s[0] == '\'') {
        s.subrange(1, s.len() - 1)
    } else {
        s
    }
}

/// A CSS generic family, in any case.
pub open spec fn generic_family(s: Seq<char>) -> bool {
    let l = chars::lowered(s);
    ||| l == "serif"@
    ||| l == "sans-serif"@
    ||| l == "monospace"@
    ||| l == "cursive"@
    ||| l == "fantasy"@
    ||| l == "system-ui"@
    ||| l == "ui-serif"@
    ||| l == "ui-sans-serif"@
    ||| l == "ui-monospace"@
    ||| l == "ui-rounded"@
    ||| l == "emoji"@
    ||| l == "math"@
    ||| l == "fangsong"@
}

/// A CSS-wide keyword, which names no family unless it is quoted.
pub open spec fn css_wide(s: Seq<char>) -> bool {
    ||| s == "inherit"@
    ||| s == "initial"@
    ||| s == "unset"@
    ||| s == "revert"@
    ||| s == "revert-layer"@
    ||| s == "default"@
}

/// A character that may stand in an unquoted name, at the start or after it.
pub open spec fn ident_char(c: char, first: bool) -> bool {
    chars::ascii_letter(c) || c == '_' || c == '-' || (!first && chars::ascii_digit(c))
}

/// A name that needs no quotes.
pub open spec fn css_ident(s: Seq<char>) -> bool {
    &&& s.len() > 0
    &&& !css_wide(s)
    &&& forall|i: int| 0 <= i < s.len() ==> ident_char(#[trigger] s[i], i == 0)
}

/// The text of a CSS string: a backslash stands before each backslash and single quote.
pub open spec fn css_escaped(s: Seq<char>) -> Seq<char>
    decreases s.len(),
{
    if s.len() == 0 {
        Seq::empty()
    } else if s.last() == '\\' || s.last() == '\'' {
        css_escaped(s.drop_last()).push('\\').push(s.last())
    } else {
        css_escaped(s.drop_last()).push(s.last())
    }
}

/// A family name as CSS writes it.
pub open spec fn family_name(raw: Seq<char>) -> Seq<char> {
    let name = unquoted(raw);
    if generic_family(name) || css_ident(name) {
        name
    } else {
        (seq!['\''] + css_escaped(name)).push('\'')
    }
}

/// The family names of a comma-separated list.
pub open spec fn family_items(raw: Seq<char>) -> Seq<Seq<char>> {
    chars::split(raw, ',').map_values(|p: Seq<char>| chars::trimmed(p)).filter(
        |p: Seq<char>| p.len() > 0,
    )
}

/// The family list as CSS writes it.
pub open spec fn family_css(raw: Seq<char>) -> Seq<char> {
    chars::join(family_items(raw).map_values(|p: Seq<char>| family_name(p)), ", "@)
}

/// The name without the pair of quotes around it.
fn strip_family_quotes(s: &Vec<char>) -> (r: Vec<char>)
    ensures
        r@ == unquoted(s@),
{
    let n: usize = s.len();
    if n >= 2 && s[0] == s[n - 1] && (s[0] == '"' || s[0] == '\'') {
        chars::sub_chars(s, 1, n - 1)
    } else {
        chars::sub_chars(s, 0, n)
    }
}

/// Whether the name is a CSS generic family.
fn is_generic_family(s: &Vec<char>) -> (r: bool)
    ensures
        r == generic_family(s@),
{
    let l: Vec<char> = chars::to_lower(s);
    chars::spells(&l, "serif") || chars::spells(&l, "sans-serif") || chars::spells(
        &l,
        "monospace",
    ) || chars::spells(&l, "cursive") || chars::spells(&l, "fantasy") || chars::spells(
        &l,
        "system-ui",
    ) || chars::spells(&l, "ui-serif") || chars::spells(&l, "ui-sans-serif") || chars::spells(
        &l,
        "ui-monospace",
    ) || chars::spells(&l, "ui-rounded") || chars::spells(&l, "emoji") || chars::spells(
        &l,
        "math",
    ) || chars::spells(&l, "fangsong")
}

/// Whether the name needs no quotes.
fn is_css_ident(s: &Vec<char>) -> (r: bool)
    ensures
        r == css_ident(s@),
{
    if s.len() == 0 || chars::spells(s, "inherit") || chars::spells(s, "initial") || chars::spells(
        s,
        "unset",
    ) || chars::spells(s, "revert") || chars::spells(s, "revert-layer") || chars::spells(
        s,
        "default",
    ) {
        return false;
    }
    let mut i: usize = 0;
    while i < s.len()
        invariant
            i <= s@.len(),
            forall|j: int| 0 <= j < i ==> ident_char(#[trigger] s@[j], j == 0),
        decreases s.len() - i,
    {
        let c = s[i];
        let letter = ('a' <= c && c <= 'z') || ('A' <= c && c <= 'Z');
        let digit = '0' <= c && c <= '9';
        if !(letter || c == '_' || c == '-' || (i != 0 && digit)) {
            assert(!ident_char(s@[i as int], i == 0));
            return false;
        }
        i += 1;
    }
    true
}

/// Appends a family name as CSS writes it.
fn push_family(out: &mut String, raw: &Vec<char>)
    ensures
        final(out)@ == old(out)@ + family_name(raw@),
{
    let name: Vec<char> = strip_family_quotes(raw);
    if is_generic_family(&name) || is_css_ident(&name) {
        chars::push_chars(out, &name);
        return;
    }
    let ghost start = out@;
    out.push('\'');
    let mut i: usize = 0;
    while i < name.len()
        invariant
            i <= name@.len(),
            out@ == start + (seq!['\''] + css_escaped(name@.take(i as int))),
        decreases name.len() - i,
    {
        let c = name[i];
        assert(name@.take(i + 1).drop_last() =~= name@.take(i as int));
        if c == '\\' || c == '\'' {
            out.push('\\');
        }
        out.push(c);
        i += 1;
        assert(out@ =~= start + (seq!['\''] + css_escaped(name@.take(i as int))));
    }
    assert(name@.take(name@.len() as int) =~= name@);
    out.push('\'');
    assert(out@ =~= start + family_name(raw@));
}

/// The family list in CSS syntax: generic families and plain names as they are, other names as
/// CSS strings, empty items left out.
pub fn normalize_font_family_list(raw: &str) -> (out: String)
    ensures
        out@ == family_css(raw@),
{
    let pieces: Vec<Vec<char>> = chars::split_chars(&chars::to_chars(raw), ',');
    let ghost parts = chars::split(raw@, ',');
    let ghost trims = parts.map_values(|p: Seq<char>| chars::trimmed(p));
    let ghost kept = |p: Seq<char>| p.len() > 0;
    let ghost named = |p: Seq<char>| family_name(p);
    let mut out = String::new();
    let mut count: usize = 0;
    let mut i: usize = 0;
    proof {
        reveal(Seq::filter);
        assert(trims.take(0).filter(kept) =~= Seq::<Seq<char>>::empty());
        assert(out@ =~= chars::join(trims.take(0).filter(kept).map_values(named), ", "@));
    }
    while i < pieces.len()
        invariant
            i <= pieces@.len(),
            count <= i,
            chars::views(pieces@) == parts,
            trims == parts.map_values(|p: Seq<char>| chars::trimmed(p)),
            family_items(raw@) == trims.filter(kept),
            kept == (|p: Seq<char>| p.len() > 0),
            named == (|p: Seq<char>| family_name(p)),
            count == trims.take(i as int).filter(kept).len(),
            out@ == chars::join(trims.take(i as int).filter(kept).map_values(named), ", "@),
        decreases pieces.len() - i,
    {
        let t: Vec<char> = chars::trim(&pieces[i]);
        let ghost before = trims.take(i as int).filter(kept);
        let ghost after = trims.take(i + 1).filter(kept);
        proof {
            reveal(Seq::filter);
            assert(chars::views(pieces@)[i as int] == pieces@[i as int]@);
            assert(trims[i as int] == t@);
            assert(trims.take(i + 1).drop_last() =~= trims.take(i as int));
        }
        if t.len() > 0 {
            proof {
                assert(after == before.push(t@));
                assert(after.map_values(named).drop_last() =~= before.map_values(named));
            }
            if count > 0 {
                out.append(", ");
            }
            push_family(&mut out, &t);
            count += 1;
            assert(out@ =~= chars::join(after.map_values(named), ", "@));
        }
        i += 1;
    }
    assert(trims.take(trims.len() as int) =~= trims);
    out
}

/// A name that holds no backslash and no single quote, so that CSS writes it without escapes.
pub open spec fn plain_name(s: Seq<char>) -> bool {
    chars::lacks(s, '\\') && chars::lacks(s, '\'')
}

/// A text of letters and hyphens.
spec fn word(s: Seq<char>) -> bool {
    s.len() > 0 && forall|i: int|
        0 <= i < s.len() ==> chars::ascii_letter(#[trigger] s[i]) || s[i] == '-'
}

proof fn lemma_generic_families_are_words(s: Seq<char>)
    requires
        generic_family(s),
    ensures
        word(s),
{
    reveal_strlit("serif");
    reveal_strlit("sans-serif");
    reveal_strlit("monospace");
    reveal_strlit("cursive");
    reveal_strlit("fantasy");
    reveal_strlit("system-ui");
    reveal_strlit("ui-serif");
    reveal_strlit("ui-sans-serif");
    reveal_strlit("ui-monospace");
    reveal_strlit("ui-rounded");
    reveal_strlit("emoji");
    reveal_strlit("math");
    reveal_strlit("fangsong");
    let l = chars::lowered(s);
    assert(word(l));
    assert forall|i: int| 0 <= i < s.len() implies chars::ascii_letter(#[trigger] s[i]) || s[i]
        == '-' by {
        assert(chars::ascii_letter(l[i]) || l[i] == '-');
    }
}

proof fn lemma_plain_names_need_no_escapes(s: Seq<char>)
    requires
        plain_name(s),
    ensures
        css_escaped(s) == s,
    decreases s.len(),
{
    if s.len() > 0 {
        assert(s[s.len() - 1] != '\\' && s[s.len() - 1] != '\'');
        let t = s.drop_last();
        assert forall|i: int| 0 <= i < t.len() implies #[trigger] t[i] != '\\' && t[i]
            != '\'' by {
            assert(s[i] != '\\' && s[i] != '\'');
        }
        lemma_plain_names_need_no_escapes(t);
        assert(t.push(s.last()) =~= s);
    }
}

/// A name that CSS writes as it is stays so.
proof fn lemma_bare_name(name: Seq<char>)
    requires
        generic_family(name) || css_ident(name),
    ensures
        chars::lacks(name, ','),
        chars::tight(name),
        family_name(name) == name,
{
    if generic_family(name) {
        lemma_generic_families_are_words(name);
        assert(chars::ascii_letter(name[0]) || name[0] == '-');
        assert(chars::ascii_letter(name[name.len() - 1]) || name[name.len() - 1] == '-');
    } else {
        assert(ident_char(name[0], true));
        assert(ident_char(name[name.len() - 1], name.len() == 1));
        assert forall|i: int| 0 <= i < name.len() implies #[trigger] name[i] != ',' by {
            assert(ident_char(name[i], i == 0));
        }
    }
    assert(unquoted(name) == name);
}

/// A name as CSS writes it stays as it is, and can stand in a list.
proof fn lemma_written_name(raw: Seq<char>)
    requires
        plain_name(unquoted(raw)),
        chars::lacks(raw, ','),
    ensures
        chars::lacks(family_name(raw), ','),
        chars::tight(family_name(raw)),
        family_name(family_name(raw)) == family_name(raw),
{
    let name = unquoted(raw);
    if generic_family(name) || css_ident(name) {
        lemma_bare_name(name);
    } else {
        lemma_plain_names_need_no_escapes(name);
        let q = (seq!['\''] + name).push('\'');
        assert(family_name(raw) == q);
        assert forall|i: int| 0 <= i < q.len() implies #[trigger] q[i] != ',' by {
            if 0 < i < q.len() - 1 {
                assert(q[i] == name[i - 1]);
                assert(name[i - 1] == raw[i - 1] || name[i - 1] == raw[i]);
            }
        }
        assert(q.subrange(1, q.len() - 1) =~= name);
        assert(unquoted(q) == name);
    }
}

/// What all members of a sequence are, those that a filter keeps are too.
proof fn lemma_filter_keeps<A>(s: Seq<A>, p: spec_fn(A) -> bool, q: spec_fn(A) -> bool)
    requires
        forall|i: int| 0 <= i < s.len() ==> q(#[trigger] s[i]),
    ensures
        forall|i: int|
            0 <= i < s.filter(p).len() ==> p(#[trigger] s.filter(p)[i]) && q(s.filter(p)[i]),
        (forall|i: int| 0 <= i < s.len() ==> p(#[trigger] s[i])) ==> s.filter(p) == s,
    decreases s.len(),
{
    reveal(Seq::filter);
    if s.len() > 0 {
        let t = s.drop_last();
        assert forall|i: int| 0 <= i < t.len() implies q(#[trigger] t[i]) by {
            assert(q(s[i]));
        }
        lemma_filter_keeps(t, p, q);
        assert(q(s[s.len() - 1]));
        let f = s.filter(p);
        assert forall|i: int| 0 <= i < f.len() implies p(#[trigger] f[i]) && q(f[i]) by {
            if i < t.filter(p).len() {
                assert(f[i] == t.filter(p)[i]);
            }
        }
        if forall|i: int| 0 <= i < s.len() ==> p(#[trigger] s[i]) {
            assert(p(s[s.len() - 1]));
            assert forall|i: int| 0 <= i < t.len() implies p(#[trigger] t[i]) by {
                assert(p(s[i]));
            }
            assert(t.push(s.last()) =~= s);
        }
    }
}

/// The items of a list hold no comma.
proof fn lemma_items_lack_commas(raw: Seq<char>)
    ensures
        forall|i: int|
            0 <= i < family_items(raw).len() ==> chars::lacks(
                #[trigger] family_items(raw)[i],
                ',',
            ),
{
    let parts = chars::split(raw, ',');
    let trims = parts.map_values(|p: Seq<char>| chars::trimmed(p));
    let clean = |p: Seq<char>| chars::lacks(p, ',');
    chars::lemma_pieces_lack_the_separator(raw, ',');
    assert forall|i: int| 0 <= i < trims.len() implies clean(#[trigger] trims[i]) by {
        chars::lemma_trimmed(parts[i]);
        assert(chars::lacks(parts[i], ','));
        assert(chars::lacks(chars::trimmed(parts[i]), ','));
    }
    lemma_filter_keeps(trims, |p: Seq<char>| p.len() > 0, clean);
    assert forall|i: int| 0 <= i < family_items(raw).len() implies chars::lacks(
        #[trigger] family_items(raw)[i],
        ',',
    ) by {
        assert(clean(family_items(raw)[i]));
    }
}

/// The items of a list of tight names without commas are these names.
proof fn lemma_listed_names(names: Seq<Seq<char>>)
    requires
        forall|i: int|
            0 <= i < names.len() ==> chars::lacks(#[trigger] names[i], ',') && chars::tight(
                names[i],
            ),
    ensures
        family_items(chars::join(names, ", "@)) == names,
{
    let raw = chars::join(names, ", "@);
    let parts = chars::split(raw, ',');
    let trims = parts.map_values(|p: Seq<char>| chars::trimmed(p));
    let kept = |p: Seq<char>| p.len() > 0;
    if names.len() == 0 {
        reveal(Seq::filter);
        assert(parts =~= seq![Seq::<char>::empty()]);
        assert(chars::trimmed(Seq::<char>::empty()) =~= Seq::<char>::empty());
        assert(trims.drop_last() =~= Seq::<Seq<char>>::empty());
        assert(trims.drop_last().filter(kept) =~= Seq::<Seq<char>>::empty());
        assert(!kept(trims.last()));
        assert(trims.filter(kept) =~= names);
    } else {
        chars::lemma_split_list(names);
        assert(parts == chars::spaced_pieces(names));
        assert forall|i: int| 0 <= i < names.len() implies #[trigger] trims[i] == names[i] by {
            assert(chars::tight(names[i]));
            chars::lemma_tight_is_trimmed(names[i]);
            assert(trims[i] == chars::trimmed(parts[i]));
        }
        assert(trims =~= names);
        assert forall|i: int| 0 <= i < names.len() implies kept(#[trigger] names[i]) by {
            assert(chars::tight(names[i]));
        }
        lemma_filter_keeps(names, kept, kept);
    }
}

/// Normalizing a normalized list changes nothing, where no name needs an escape.
pub proof fn law_normalizing_is_idempotent(raw: Seq<char>)
    requires
        forall|i: int|
            0 <= i < family_items(raw).len() ==> plain_name(
                unquoted(#[trigger] family_items(raw)[i]),
            ),
    ensures
        family_css(family_css(raw)) == family_css(raw),
{
    let items = family_items(raw);
    let names = items.map_values(|p: Seq<char>| family_name(p));
    lemma_items_lack_commas(raw);
    assert forall|i: int| 0 <= i < names.len() implies chars::lacks(#[trigger] names[i], ',')
        && chars::tight(names[i]) && family_name(names[i]) == names[i] by {
        assert(plain_name(unquoted(items[i])));
        lemma_written_name(items[i]);
    }
    lemma_listed_names(names);
    assert(names.map_values(|p: Seq<char>| family_name(p)) =~= names);
}

/// A list without quotes and backslashes is normalized for good.
pub proof fn law_unquoted_lists_are_normalized_once(raw: Seq<char>)
    requires
        chars::lacks(raw, '"'),
        chars::lacks(raw, '\''),
        chars::lacks(raw, '\\'),
    ensures
        family_css(family_css(raw)) == family_css(raw),
{
    let parts = chars::split(raw, ',');
    let trims = parts.map_values(|p: Seq<char>| chars::trimmed(p));
    chars::lemma_pieces_come_from_the_text(raw, ',');
    assert forall|i: int| 0 <= i < trims.len() implies plain_name(#[trigger] trims[i]) by {
        chars::lemma_trimmed(parts[i]);
        assert(chars::lacks(parts[i], '\'') && chars::lacks(parts[i], '\\'));
        assert(chars::lacks(chars::trimmed(parts[i]), '\''));
        assert(chars::lacks(chars::trimmed(parts[i]), '\\'));
    }
    let plain = |p: Seq<char>| plain_name(p);
    lemma_filter_keeps(trims, |p: Seq<char>| p.len() > 0, plain);
    assert forall|i: int| 0 <= i < family_items(raw).len() implies plain_name(
        unquoted(#[trigger] family_items(raw)[i]),
    ) by {
        let p = family_items(raw)[i];
        assert(plain(p));
        let name = unquoted(p);
        assert forall|j: int| 0 <= j < name.len() implies #[trigger] name[j] != '\\' && name[j]
            != '\'' by {
            assert(name[j] == p[j] || name[j] == p[j + 1]);
        }
    }
    law_normalizing_is_idempotent(raw);
}

} // verus!
