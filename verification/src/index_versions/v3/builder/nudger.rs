//! Warnings about settings that are still read but no longer have an
//! effect.

use crate::config::Config;
use crate::text::push_str;
use vstd::prelude::*;

verus! {

/// A setting that is read but has no effect.
#[derive(Debug, PartialEq, Eq, Structural, Clone, Copy)]
pub enum Nudge {
    InputSurroundingWordCount,
}

/// What a nudge says.
pub open spec fn nudge_text(n: Nudge) -> Seq<char> {
    match n {
        Nudge::InputSurroundingWordCount => "`input.surrounding_word_count` is deprecated and has no effect. Please use output.excerpt_buffer instead."@,
    }
}

impl Nudge {
    /// What this nudge says.
    pub fn description(&self) -> (r: String)
        ensures
            r@ == nudge_text(*self),
    {
        match self {
            Nudge::InputSurroundingWordCount => "`input.surrounding_word_count` is deprecated and has no effect. Please use output.excerpt_buffer instead.".to_owned(),
        }
    }
}

/// The warnings a configuration gives.
#[derive(Debug, PartialEq, Eq)]
pub struct Nudger {
    pub nudges: Vec<Nudge>,
}

/// The warning text for `nudges`: a heading, then each nudge on a line of
/// its own; nothing where there are no nudges.
pub open spec fn nudges_text(nudges: Seq<Nudge>) -> Seq<char>
    decreases nudges.len(),
{
    if nudges.len() == 0 {
        seq![]
    } else if nudges.len() == 1 {
        "== Config Warnings =="@ + seq!['\n'] + nudge_text(nudges[0])
    } else {
        nudges_text(nudges.drop_last()) + seq!['\n'] + nudge_text(nudges.last())
    }
}

impl Nudger {
    /// The warnings a configuration gives: one where the deprecated
    /// `input.surrounding_word_count` is set.
    pub fn from_config(config: &Config) -> (r: Nudger)
        ensures
            r.nudges@ == if config.input.UNUSED_surrounding_word_count is Some {
                seq![Nudge::InputSurroundingWordCount]
            } else {
                Seq::<Nudge>::empty()
            },
    {
        let mut nudges: Vec<Nudge> = Vec::new();
        if config.input.UNUSED_surrounding_word_count.is_some() {
            nudges.push(Nudge::InputSurroundingWordCount);
        }
        assert(nudges@ =~= if config.input.UNUSED_surrounding_word_count is Some {
            seq![Nudge::InputSurroundingWordCount]
        } else {
            Seq::<Nudge>::empty()
        });
        Nudger { nudges }
    }

    /// Whether there are no warnings.
    pub fn is_empty(&self) -> (r: bool)
        ensures
            r == (self.nudges@.len() == 0),
    {
        self.nudges.len() == 0
    }

    /// The warnings as text: a heading, then each warning on a line of its
    /// own; nothing where there are none.
    pub fn generate_formatted_output(&self) -> (r: String)
        ensures
            r@ == nudges_text(self.nudges@),
    {
        let mut output = String::new();
        if self.nudges.len() > 0 {
            push_str(&mut output, "== Config Warnings ==");
        }
        let mut i: usize = 0;
        while i < self.nudges.len()
            invariant
                i <= self.nudges@.len(),
                self.nudges@.len() > 0 ==> output@ == if i == 0 {
                    "== Config Warnings =="@
                } else {
                    nudges_text(self.nudges@.take(i as int))
                },
                self.nudges@.len() == 0 ==> output@ == Seq::<char>::empty(),
            decreases self.nudges@.len() - i,
        {
            push_str(&mut output, "\n");
            let d = self.nudges[i].description();
            push_str(&mut output, d.as_str());
            proof {
                reveal_strlit("\n");
                let t = self.nudges@.take(i as int + 1);
                assert(t.drop_last() =~= self.nudges@.take(i as int));
                assert(t.last() == self.nudges@[i as int]);
                if i == 0 {
                    assert(output@ =~= "== Config Warnings =="@ + seq!['\n'] + nudge_text(t[0]));
                } else {
                    assert(output@ =~= nudges_text(t.drop_last()) + seq!['\n'] + nudge_text(t.last()));
                }
            }
            i = i + 1;
        }
        proof {
            if self.nudges@.len() > 0 {
                assert(self.nudges@.take(self.nudges@.len() as int) =~= self.nudges@);
            }
        }
        output
    }
}

} // verus!
