//! The pattern of a search: the text that was compiled, and what the regex
//! compiler made of it.
use vstd::prelude::*;
use alacritty_terminal::term::search::RegexSearch;

verus! {

/// alacritty's compiled search pattern.
#[verifier::external_type_specification]
#[verifier::external_body]
pub struct ExRegexSearch(RegexSearch);

/// A text that was handed to the regex compiler, with the automaton that came
/// of it where it is a pattern. Only `compile` makes one.
pub struct Pattern {
    text: String,
    dfas: Option<RegexSearch>,
}

/// The pattern that a `Pattern` stands for.
pub struct PatternModel {
    /// What was compiled.
    pub text: Seq<char>,
    /// It can be searched for.
    pub ready: bool,
}

impl View for Pattern {
    type V = PatternModel;

    closed spec fn view(&self) -> PatternModel {
        PatternModel { text: self.text@, ready: self.dfas is Some }
    }
}

/// `RegexSearch::new` of alacritty_terminal, with its error dropped and the
/// text that it was given kept beside its result. Which texts are patterns is
/// not stated: it also refuses those whose automaton would outgrow a limit in
/// bytes, which rests on the machine.
#[verifier::external_body]
pub(crate) fn compile(query: &str) -> (r: Pattern)
    ensures
        r@.text == query@,
{
    Pattern { text: query.to_string(), dfas: RegexSearch::new(query).ok() }
}

impl Pattern {
    /// Whether it can be searched for.
    pub fn is_ready(&self) -> (r: bool)
        ensures
            r == self@.ready,
    {
        self.dfas.is_some()
    }

    /// The automaton to search with, where there is one.
    pub fn automaton(&mut self) -> (r: Option<&mut RegexSearch>)
        ensures
            r is Some == old(self)@.ready,
            final(self)@ == old(self)@,
    {
        match &mut self.dfas {
            Some(d) => Some(d),
            None => None,
        }
    }
}

} // verus!
