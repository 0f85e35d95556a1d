use vstd::prelude::*;
use crate::records::Tech;
use crate::text::{parse_i32, parsed_i32, same_text};

verus! {

/// The selection on the graph page: one technology, or one category, or neither.
/// Selecting either one clears the other.
#[derive(Clone, Debug, PartialEq, Eq)]
pub struct GraphFilter {
    pub technology: Option<i32>,
    pub category: Option<String>,
}

/// The technology that a value of the technology selector picks: none for `none` or
/// for a value that is not a decimal id.
pub open spec fn technology_choice(value: Seq<char>) -> Option<i32> {
    if value == "none"@ { None } else { parsed_i32(value) }
}

/// Whether a value of a selector is the `none` entry.
pub open spec fn is_none_choice(value: Seq<char>) -> bool {
    value == "none"@
}

impl GraphFilter {
    /// A technology matches when it is the selected one or lies in the selected category.
    pub open spec fn matches(&self, t: Tech) -> bool {
        self.technology == Some(t.id) || (self.category is Some && self.category->0@ == t.category@)
    }

    /// Whether anything is selected.
    pub open spec fn is_active(&self) -> bool {
        self.technology is Some || self.category is Some
    }

    /// At most one of the two selections is set.
    pub open spec fn wf(&self) -> bool {
        !(self.technology is Some && self.category is Some)
    }

    /// The selection after choosing technology `t`: the category is cleared.
    pub open spec fn with_technology(self, t: Option<i32>) -> GraphFilter {
        GraphFilter { technology: t, category: None }
    }

    /// The selection after choosing category `c`: the technology is cleared.
    pub open spec fn with_category(self, c: Option<String>) -> GraphFilter {
        GraphFilter { technology: None, category: c }
    }

    /// No selection.
    pub fn none() -> (r: GraphFilter)
        ensures
            r.technology is None,
            r.category is None,
    {
        GraphFilter { technology: None, category: None }
    }

    /// Sets the technology selection and clears the category selection.
    pub fn select_technology(&mut self, technology: Option<i32>)
        ensures
            *final(self) == old(self).with_technology(technology),
    {
        self.technology = technology;
        self.category = None;
    }

    /// Sets the category selection and clears the technology selection.
    pub fn select_category(&mut self, category: Option<String>)
        ensures
            *final(self) == old(self).with_category(category),
    {
        self.category = category;
        self.technology = None;
    }

    /// Applies a value of the technology selector: `none` clears the technology, a
    /// decimal id selects it; either way the category is cleared.
    pub fn choose_technology(&mut self, value: &str)
        ensures
            *final(self) == old(self).with_technology(technology_choice(value@)),
    {
        let choice = if same_text(value, "none") { None } else { parse_i32(value) };
        self.select_technology(choice);
    }

    /// Applies a value of the category selector: `none` clears the category, any other
    /// value selects it; either way the technology is cleared.
    pub fn choose_category(&mut self, value: String)
        ensures
            is_none_choice(value@) ==> *final(self) == old(self).with_category(None),
            !is_none_choice(value@) ==> *final(self) == old(self).with_category(Some(value)),
    {
        if same_text(value.as_str(), "none") {
            self.select_category(None);
        } else {
            self.select_category(Some(value));
        }
    }

    /// Clears both selections.
    pub fn clear(&mut self)
        ensures
            final(self).technology is None,
            final(self).category is None,
    {
        self.technology = None;
        self.category = None;
    }

    /// Whether anything is selected.
    pub fn active(&self) -> (r: bool)
        ensures
            r == self.is_active(),
    {
        self.technology.is_some() || self.category.is_some()
    }

    /// Whether `t` matches the selection.
    pub fn tech_matches(&self, t: &Tech) -> (r: bool)
        ensures
            r == self.matches(*t),
    {
        let by_id = match self.technology {
            Some(id) => id == t.id,
            None => false,
        };
        let by_category = match &self.category {
            Some(c) => *c == t.category,
            None => false,
        };
        by_id || by_category
    }
}

/// Choosing a technology and then a category leaves only the category selected, and
/// choosing a category and then a technology leaves only the technology selected.
pub proof fn lemma_selections_exclusive(f: GraphFilter, t: Option<i32>, c: Option<String>)
    ensures
        f.with_technology(t).with_category(c).technology is None,
        f.with_technology(t).with_category(c).category == c,
        f.with_category(c).with_technology(t).category is None,
        f.with_category(c).with_technology(t).technology == t,
        f.with_technology(t).wf(),
        f.with_category(c).wf(),
{
}

} // verus!
