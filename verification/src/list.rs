//! The data side of the list-editing widgets: the container interface
//! the editors drive, the text configuration they show, and the string
//! item behaviour.

use vstd::prelude::*;
use vstd::string::StringExecFns;
use crate::text::{contains_seq, contains_str};

verus! {

/// `s` restricted to the positions its mask keeps, order preserved.
pub open spec fn mask_filter<W>(s: Seq<W>, keep: Seq<bool>) -> Seq<W>
    decreases s.len(),
{
    if s.len() == 0 {
        Seq::empty()
    } else if keep.len() > 0 && keep[0] {
        seq![s[0]] + mask_filter(s.drop_first(), keep.drop_first())
    } else {
        mask_filter(s.drop_first(), keep.drop_first())
    }
}

/// What a list editor asks of the collection it edits: adding an item,
/// appending a batch, and keeping exactly the items a mask retains.
pub trait ListEditContainer<W>: Sized {
    /// The items the container holds, in order.
    spec fn items(&self) -> Seq<W>;

    /// Adds one item at the back.
    fn add(&mut self, i: W)
        ensures
            final(self).items() == old(self).items().push(i),
    ;

    /// Appends a batch of items at the back, in order.
    fn append(&mut self, o: Vec<W>)
        ensures
            final(self).items() == old(self).items() + o@,
    ;

    /// Keeps exactly the items whose mask position is true, in order.
    fn retain_mut(&mut self, keep: &Vec<bool>)
        requires
            keep@.len() == old(self).items().len(),
        ensures
            final(self).items() == mask_filter(old(self).items(), keep@),
    ;
}

impl<W> ListEditContainer<W> for Vec<W> {
    open spec fn items(&self) -> Seq<W> {
        self@
    }

    fn add(&mut self, i: W) {
        self.push(i);
    }

    fn append(&mut self, o: Vec<W>) {
        let mut tail = o;
        self.append(&mut tail);
    }

    fn retain_mut(&mut self, keep: &Vec<bool>) {
        vec_retain_by_mask(self, keep);
    }
}

/// What the list editor of the other family asks of its collection;
/// the same three operations.
pub trait ListEditorContainer<W>: Sized {
    /// The items the container holds, in order.
    spec fn items(&self) -> Seq<W>;

    /// Adds one item at the back.
    fn add(&mut self, i: W)
        ensures
            final(self).items() == old(self).items().push(i),
    ;

    /// Appends a batch of items at the back, in order.
    fn append(&mut self, o: Vec<W>)
        ensures
            final(self).items() == old(self).items() + o@,
    ;

    /// Keeps exactly the items whose mask position is true, in order.
    fn retain_mut(&mut self, keep: &Vec<bool>)
        requires
            keep@.len() == old(self).items().len(),
        ensures
            final(self).items() == mask_filter(old(self).items(), keep@),
    ;
}

impl<W> ListEditorContainer<W> for Vec<W> {
    open spec fn items(&self) -> Seq<W> {
        self@
    }

    fn add(&mut self, i: W) {
        self.push(i);
    }

    fn append(&mut self, o: Vec<W>) {
        let mut tail = o;
        self.append(&mut tail);
    }

    fn retain_mut(&mut self, keep: &Vec<bool>) {
        vec_retain_by_mask(self, keep);
    }
}

/// Keeps exactly the vector elements whose mask position is true.
fn vec_retain_by_mask<W>(v: &mut Vec<W>, keep: &Vec<bool>)
    requires
        keep@.len() == old(v)@.len(),
    ensures
        final(v)@ == mask_filter(old(v)@, keep@),
{
    let ghost v0 = v@;
    let mut i = v.len();
    while i > 0
        invariant
            i <= v0.len(),
            i <= v@.len(),
            keep@.len() == v0.len(),
            v@ =~= v0.subrange(0, i as int) + mask_filter(v0.skip(i as int), keep@.skip(i as int)),
        decreases i,
    {
        i -= 1;
        proof {
            assert(v0.skip(i as int)[0] == v0[i as int]);
            assert(v0.skip(i as int).drop_first() =~= v0.skip(i + 1));
            assert(keep@.skip(i as int)[0] == keep@[i as int]);
            assert(keep@.skip(i as int).drop_first() =~= keep@.skip(i + 1));
        }
        if !keep[i] {
            v.remove(i);
            proof {
                assert(v@ =~= v0.subrange(0, i as int) + mask_filter(
                    v0.skip(i as int),
                    keep@.skip(i as int),
                ));
            }
        } else {
            proof {
                assert(v0.subrange(0, i + 1) =~= v0.subrange(0, i as int).push(v0[i as int]));
                assert(mask_filter(v0.skip(i as int), keep@.skip(i as int)) =~= seq![
                    v0[i as int],
                ] + mask_filter(v0.skip(i + 1), keep@.skip(i + 1)));
                assert(v@ =~= v0.subrange(0, i as int) + mask_filter(
                    v0.skip(i as int),
                    keep@.skip(i as int),
                ));
            }
        }
    }
    proof {
        assert(v0.skip(0) =~= v0);
        assert(keep@.skip(0) =~= keep@);
        assert(v@ =~= mask_filter(v0, keep@));
    }
}

/// The button texts of the list editors, an explicit configuration
/// handed to the widget instead of process-wide state.
#[derive(Debug, Clone, PartialEq)]
pub struct UiText {
    pub add: String,
    pub reset: String,
    pub filter: String,
    pub delete: String,
    pub copy: String,
}

impl Default for UiText {
    /// The English button texts the editors start out with.
    fn default() -> (t: UiText)
        ensures
            t.add@ == "Add"@,
            t.reset@ == "Reset"@,
            t.filter@ == "Filter"@,
            t.delete@ == "Delete"@,
            t.copy@ == "Copy"@,
    {
        UiText {
            add: String::from_str("Add"),
            reset: String::from_str("Reset"),
            filter: String::from_str("Filter"),
            delete: String::from_str("Delete"),
            copy: String::from_str("Copy"),
        }
    }
}

/// The text configuration of the list views, an explicit value handed
/// to the widget instead of process-wide state.
#[derive(Debug, Clone, PartialEq)]
pub struct ListViewText {
    pub search_hint: String,
}

impl Default for ListViewText {
    /// The placeholder the search box starts out with.
    fn default() -> (t: ListViewText)
        ensures
            t.search_hint@ == "search"@,
    {
        ListViewText { search_hint: String::from_str("search") }
    }
}

/// Sets the placeholder shown while the search box is empty.
pub fn set_search_hint_text(config: &mut ListViewText, text: String)
    ensures
        final(config).search_hint == text,
{
    config.search_hint = text;
}

/// How a plain string behaves as an editable list item: the title of
/// the new-item form, the default new item, and multi-line editing.
#[derive(Debug, Clone, PartialEq)]
pub struct StringData {
    pub new_title: String,
    pub multiline: bool,
    pub default: Option<String>,
}

impl StringData {
    /// The title the new-item form shows.
    pub fn form_title(&self) -> (t: String)
        ensures
            t@ == self.new_title@,
    {
        self.new_title.clone()
    }

    /// The fresh item the form starts from, when one is configured.
    pub fn new_item(&self) -> (r: Option<String>)
        ensures
            match r {
                Some(s) => self.default is Some && s@ == self.default.unwrap()@,
                None => self.default is None,
            },
    {
        match &self.default {
            Some(s) => Some(s.clone()),
            None => None,
        }
    }
}

/// The list title of a string item: the string itself.
pub fn string_item_title(item: &String) -> (t: String)
    ensures
        t@ == item@,
{
    item.clone()
}

/// Whether a string item matches the search text: literal containment.
pub fn string_item_on_search(item: &String, text: &str) -> (b: bool)
    ensures
        b == contains_seq(item@, text@),
{
    contains_str(item.as_str(), text)
}

} // verus!
