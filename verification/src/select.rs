//! The data side of the searchable select boxes: the current text, the
//! selectable items, and the filtering rule their popups apply.

use vstd::prelude::*;
use crate::text::{contains_seq, contains_str};

verus! {

/// A select box with an optional placeholder: the text being edited,
/// the selectable items, whether the popup filters by the text, and
/// the placeholder shown while the text is empty.
#[derive(Debug, Clone, PartialEq)]
pub struct SelectEdit {
    pub text: String,
    pub items: Vec<String>,
    pub filter: bool,
    pub hint_text: Option<String>,
}

impl SelectEdit {
    /// A select box over `items`, not filtering, with no placeholder.
    pub fn new(text: String, items: Vec<String>) -> (s: SelectEdit)
        ensures
            s.text == text,
            s.items == items,
            s.filter == false,
            s.hint_text is None,
    {
        SelectEdit { text, items, filter: false, hint_text: None }
    }

    /// The same select box, filtering its popup by the current text.
    pub fn filter(self) -> (s: SelectEdit)
        ensures
            s.text == self.text,
            s.items == self.items,
            s.filter == true,
            s.hint_text == self.hint_text,
    {
        SelectEdit { filter: true, ..self }
    }

    /// The same select box with the given placeholder.
    pub fn hint_text(self, hint_text: Option<String>) -> (s: SelectEdit)
        ensures
            s.text == self.text,
            s.items == self.items,
            s.filter == self.filter,
            s.hint_text == hint_text,
    {
        SelectEdit { hint_text, ..self }
    }

    /// Whether the popup offers `item`: always while the text is empty
    /// or filtering is off, else exactly when the item contains the
    /// text.
    pub fn shows(&self, item: &str) -> (b: bool)
        ensures
            b == (self.text@.len() == 0 || !self.filter || contains_seq(item@, self.text@)),
    {
        self.text.as_str().is_empty() || !self.filter || contains_str(item, self.text.as_str())
    }
}

/// The plain select box: as `SelectEdit`, without a placeholder.
#[derive(Debug, Clone, PartialEq)]
pub struct SelectEditor {
    pub text: String,
    pub items: Vec<String>,
    pub filter: bool,
}

impl SelectEditor {
    /// A select box over `items`, not filtering.
    pub fn new(text: String, items: Vec<String>) -> (s: SelectEditor)
        ensures
            s.text == text,
            s.items == items,
            s.filter == false,
    {
        SelectEditor { text, items, filter: false }
    }

    /// The same select box, filtering its popup by the current text.
    pub fn filter(self) -> (s: SelectEditor)
        ensures
            s.text == self.text,
            s.items == self.items,
            s.filter == true,
    {
        SelectEditor { filter: true, ..self }
    }

    /// Whether the popup offers `item`: always while the text is empty
    /// or filtering is off, else exactly when the item contains the
    /// text.
    pub fn shows(&self, item: &str) -> (b: bool)
        ensures
            b == (self.text@.len() == 0 || !self.filter || contains_seq(item@, self.text@)),
    {
        self.text.as_str().is_empty() || !self.filter || contains_str(item, self.text.as_str())
    }
}

} // verus!
