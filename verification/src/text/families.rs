//! The font families that the layout engine is asked for.

use vstd::prelude::*;
use crate::chars;
use crate::text::shaping;
use crate::text::shaping::{parse_generic_family, GenericFamily};
use parley::style::FontFamilyName;

verus! {

/// A font family in a list.
#[derive(Debug, PartialEq, Eq)]
pub enum FamilyName {
    Named(String),
    Generic(GenericFamily),
}

/// The value of a [`FamilyName`].
#[verifier::ext_equal]
pub enum FamilyView {
    Named(Seq<char>),
    Generic(GenericFamily),
}

impl View for FamilyName {
    type V = FamilyView;

    open spec fn view(&self) -> FamilyView {
        match *self {
            FamilyName::Named(name) => FamilyView::Named(name@),
            FamilyName::Generic(g) => FamilyView::Generic(g),
        }
    }
}

/// The items that `FontFamilyName::parse_css_list` finds in a text: for each whether it is a
/// generic family, and its name; none for an item that it rejects.
pub uninterp spec fn css_families(raw: Seq<char>) -> Seq<Option<(bool, Seq<char>)>>;

/// The values of parsed items.
pub open spec fn item_views(items: Seq<Option<(bool, String)>>) -> Seq<
    Option<(bool, Seq<char>)>,
> {
    Seq::new(
        items.len(),
        |i: int|
            match items[i] {
                Some((generic, name)) => Some((generic, name@)),
                None => None,
            },
    )
}

/// Parses a CSS list with `parley::style::FontFamilyName::parse_css_list`.
///
/// Claimed: the items are a function of the text alone. A generic family is given by the name
/// that its `Display` writes. Of the grammar nothing is claimed.
#[verifier::external_body]
fn parse_css_list(raw: &str) -> (r: Vec<Option<(bool, String)>>)
    ensures
        item_views(r@) == css_families(raw@),
{
    FontFamilyName::parse_css_list(raw)
        .map(|item| match item {
            Ok(FontFamilyName::Generic(family)) => Some((true, family.to_string())),
            Ok(FontFamilyName::Named(name)) => Some((false, name.into_owned())),
            Err(_) => None,
        })
        .collect()
}

/// The values of families.
pub open spec fn name_views(names: Seq<FamilyName>) -> Seq<FamilyView> {
    Seq::new(names.len(), |i: int| names[i]@)
}

/// The family of an item; a generic one that is not known counts as a name.
pub open spec fn family_of(item: (bool, Seq<char>)) -> FamilyView {
    match shaping::generic_of(chars::lowered(item.1)) {
        Some(g) if item.0 => FamilyView::Generic(g),
        _ => FamilyView::Named(item.1),
    }
}

/// The families of the items that were parsed, in order.
pub open spec fn accepted(items: Seq<Option<(bool, Seq<char>)>>) -> Seq<FamilyView>
    decreases items.len(),
{
    if items.len() == 0 {
        Seq::empty()
    } else {
        match items.last() {
            Some(item) => accepted(items.drop_last()).push(family_of(item)),
            None => accepted(items.drop_last()),
        }
    }
}

/// The families of the items that were parsed; the whole text as one name where there are none.
pub open spec fn chosen(raw: Seq<char>, items: Seq<Option<(bool, Seq<char>)>>) -> Seq<FamilyView> {
    if accepted(items).len() == 0 {
        seq![FamilyView::Named(raw)]
    } else {
        accepted(items)
    }
}

/// The families of the items that were parsed; the whole text as one name where there are none.
pub fn choose_families(raw: &str, items: &Vec<Option<(bool, String)>>) -> (r: Vec<FamilyName>)
    ensures
        name_views(r@) == chosen(raw@, item_views(items@)),
{
    let ghost all = item_views(items@);
    let mut r: Vec<FamilyName> = Vec::new();
    let mut i: usize = 0;
    assert(name_views(r@) =~= accepted(all.take(0)));
    while i < items.len()
        invariant
            i <= items@.len(),
            all == item_views(items@),
            name_views(r@) == accepted(all.take(i as int)),
        decreases items.len() - i,
    {
        assert(all.take(i + 1).drop_last() =~= all.take(i as int));
        let ghost before = name_views(r@);
        match &items[i] {
            Some((generic, name)) => {
                let known = if *generic {
                    parse_generic_family(name.as_str())
                } else {
                    None
                };
                let family = match known {
                    Some(g) => FamilyName::Generic(g),
                    None => FamilyName::Named(name.clone()),
                };
                assert(family@ == family_of(all[i as int]->0));
                r.push(family);
                assert(name_views(r@) =~= before.push(family@));
            },
            None => {},
        }
        i += 1;
    }
    assert(all.take(all.len() as int) =~= all);
    if r.len() == 0 {
        r.push(FamilyName::Named(raw.to_string()));
        assert(name_views(r@) =~= seq![FamilyView::Named(raw@)]);
    }
    r
}

/// The families of a CSS list, as the layout engine reads it; items that it rejects are left
/// out, and a text without any other is one name.
pub fn font_families(raw: &str) -> (r: Vec<FamilyName>)
    ensures
        name_views(r@) == chosen(raw@, css_families(raw@)),
{
    let items = parse_css_list(raw);
    choose_families(raw, &items)
}

} // verus!
