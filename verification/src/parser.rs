//! The parser: a text and the groups parsed from it so far.

use crate::error::ParseError;
use crate::group::{Group, GroupView};
use crate::scan::{parse_groups, parse_text};
use vstd::prelude::*;

verus! {

/// A parser that holds a text and collects the groups of tags that it gives.
///
/// The text has this form:
/// ```text
/// # a comment
/// [Group1]
/// tag1 tag2 tag3   # one tag, of three words
/// tag4
///
/// [Group2]
/// tag5
/// ```
#[derive(Debug)]
pub struct TagParser {
    /// The text to parse.
    data: String,
    /// The groups parsed so far.
    groups: Vec<Group>,
}

/// What a `TagParser` holds.
pub struct TagParserView {
    pub data: Seq<char>,
    pub groups: Seq<GroupView>,
}

impl TagParserView {
    /// A parser over `data` that has parsed nothing yet.
    pub open spec fn fresh(data: Seq<char>) -> TagParserView {
        TagParserView { data: data, groups: Seq::empty() }
    }

    /// The parser after one more parse: the groups of its text have joined
    /// those that it held, or nothing has changed where the text is in error.
    pub open spec fn parsed(self) -> TagParserView {
        match parse_text(self.data) {
            Ok(groups) => TagParserView { data: self.data, groups: self.groups + groups },
            Err(_) => self,
        }
    }
}

impl View for TagParser {
    type V = TagParserView;

    closed spec fn view(&self) -> TagParserView {
        TagParserView { data: self.data@, groups: self.groups.deep_view() }
    }
}

impl TagParser {
    /// A parser over `data`, which is not parsed yet.
    pub fn new(data: String) -> (parser: TagParser)
        ensures
            parser@ == TagParserView::fresh(data@),
    {
        let parser = TagParser { data: data, groups: Vec::new() };
        proof {
            assert(parser.groups.deep_view() =~= Seq::empty());
        }
        parser
    }

    /// The groups parsed so far, in the order in which they were found.
    pub fn groups(&self) -> (groups: &Vec<Group>)
        ensures
            groups.deep_view() == self@.groups,
    {
        &self.groups
    }

    /// Parses the text and adds its groups behind those already held. Where
    /// the text is in error, the parser is left as it was.
    pub fn parse(&mut self) -> (result: Result<(), ParseError>)
        ensures
            final(self)@ == old(self)@.parsed(),
            match parse_text(old(self)@.data) {
                Ok(_) => result is Ok,
                Err(e) => result == Err::<(), ParseError>(e),
            },
    {
        match parse_groups(self.data.as_str()) {
            Ok(mut found) => {
                let ghost before = self.groups.deep_view();
                let ghost added = found.deep_view();
                self.groups.append(&mut found);
                proof {
                    assert(self.groups.deep_view() =~= before + added);
                }
                Ok(())
            },
            Err(e) => Err(e),
        }
    }
}

/// What `from` returns is stated in its own `ensures`, over the parser's view.
/// `from_spec` would have to name the parser itself, whose text and groups are
/// known by their views alone, so it is left without a promise.
impl vstd::std_specs::convert::FromSpecImpl<&str> for TagParser {
    open spec fn obeys_from_spec() -> bool {
        false
    }

    open spec fn from_spec(data: &str) -> TagParser {
        arbitrary()
    }
}

impl From<&str> for TagParser {
    /// A parser over `data` that has parsed it already. Where `data` is in
    /// error, the parser holds no groups.
    fn from(data: &str) -> (parser: TagParser)
        ensures
            parser@ == TagParserView::fresh(data@).parsed(),
    {
        let mut parser = TagParser::new(data.to_owned());
        let _ = parser.parse();
        parser
    }
}

/// As for `&str`: what `from` returns is stated in its own `ensures`.
impl vstd::std_specs::convert::FromSpecImpl<String> for TagParser {
    open spec fn obeys_from_spec() -> bool {
        false
    }

    open spec fn from_spec(data: String) -> TagParser {
        arbitrary()
    }
}

impl From<String> for TagParser {
    /// A parser over `data` that has parsed it already. Where `data` is in
    /// error, the parser holds no groups.
    fn from(data: String) -> (parser: TagParser)
        ensures
            parser@ == TagParserView::fresh(data@).parsed(),
    {
        let mut parser = TagParser::new(data);
        let _ = parser.parse();
        parser
    }
}

} // verus!
