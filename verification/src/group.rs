//! Groups of tags.

use vstd::prelude::*;

verus! {

/// A named collection of tags, in the order in which they were given.
#[derive(Debug)]
pub struct Group {
    /// The name of the group.
    pub name: String,
    /// The tags that belong to the group.
    pub tags: Vec<String>,
}

/// What a `Group` holds: its name and its tags as sequences of characters.
pub struct GroupView {
    pub name: Seq<char>,
    pub tags: Seq<Seq<char>>,
}

impl DeepView for Group {
    type V = GroupView;

    open spec fn deep_view(&self) -> GroupView {
        GroupView { name: self.name@, tags: self.tags.deep_view() }
    }
}

impl View for Group {
    type V = GroupView;

    open spec fn view(&self) -> GroupView {
        self.deep_view()
    }
}

} // verus!
