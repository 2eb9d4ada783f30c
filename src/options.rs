//! Structured choices offered to a human when the agent meets an ambiguity.

use vstd::prelude::*;
use crate::tea::string_views;

verus! {

/// One labelled choice, with its pros, cons and impact.
#[derive(Debug)]
pub struct OptionChoice {
    /// The label of the choice, such as `A`.
    pub id: String,
    pub description: String,
    pub pros: Vec<String>,
    pub cons: Vec<String>,
    pub impact: String,
}

/// A question and the choices offered for it.
#[derive(Debug)]
pub struct ProactiveOptions {
    pub question: String,
    pub options: Vec<OptionChoice>,
}

impl View for OptionChoice {
    type V = (Seq<char>, Seq<char>, Seq<Seq<char>>, Seq<Seq<char>>, Seq<char>);

    open spec fn view(&self) -> Self::V {
        (
            self.id@,
            self.description@,
            string_views(self.pros@),
            string_views(self.cons@),
            self.impact@,
        )
    }
}

impl Clone for OptionChoice {
    fn clone(&self) -> (r: OptionChoice)
        ensures
            r@ == self@,
    {
        let pros = self.pros.clone();
        let cons = self.cons.clone();
        assert(pros@ =~= self.pros@);
        assert(cons@ =~= self.cons@);
        OptionChoice {
            id: self.id.clone(),
            description: self.description.clone(),
            pros,
            cons,
            impact: self.impact.clone(),
        }
    }
}

impl View for ProactiveOptions {
    type V = (Seq<char>, Seq<(Seq<char>, Seq<char>, Seq<Seq<char>>, Seq<Seq<char>>, Seq<char>)>);

    open spec fn view(&self) -> Self::V {
        (self.question@, self.options@.map_values(|o: OptionChoice| o@))
    }
}

impl Clone for ProactiveOptions {
    fn clone(&self) -> (r: ProactiveOptions)
        ensures
            r@ == self@,
    {
        let options = self.options.clone();
        assert(options@.map_values(|o: OptionChoice| o@) =~= self.options@.map_values(
            |o: OptionChoice| o@,
        ));
        ProactiveOptions { question: self.question.clone(), options }
    }
}

} // verus!
