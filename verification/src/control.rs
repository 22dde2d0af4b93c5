//! The top-level control loop's decisions.
//!
//! The program prompts repeatedly: the quit sentinel leaves the loop
//! without launching; a line naming a menu entry launches that entry,
//! once, and ends the loop; every other line is answered with an
//! invalid-option message and another prompt. The prompting and the
//! messages belong to the surrounding process; which of the three happens
//! on each line is decided here.

use crate::input::{choice_of, interpret_input, quit_word, Choice};
use vstd::prelude::*;

verus! {

/// Where the control loop stands after the input lines seen so far.
#[derive(Clone, Copy, PartialEq, Eq, Structural, Debug)]
pub enum LoopOutcome {
    /// The quit sentinel came first: leave without launching.
    Quit,
    /// A valid selection came first: launch that entry (1-based), once.
    Launched(usize),
    /// Every line so far was invalid: still prompting.
    Pending,
}

/// The loop's outcome on a sequence of trimmed input lines against `n`
/// menu entries: the first line that quits or selects decides, and
/// nothing after it is read; invalid lines only re-prompt.
pub open spec fn loop_outcome(inputs: Seq<Seq<char>>, n: nat) -> LoopOutcome
    decreases inputs.len(),
{
    if inputs.len() == 0 {
        LoopOutcome::Pending
    } else {
        match choice_of(inputs[0], n) {
            Choice::Quit => LoopOutcome::Quit,
            Choice::Select(i) => LoopOutcome::Launched(i),
            Choice::Invalid => loop_outcome(inputs.drop_first(), n),
        }
    }
}

/// Invalid lines change nothing: the loop's outcome is whatever the lines
/// after them decide, and in particular they never launch.
pub proof fn lemma_invalid_lines_only_reprompt(inputs: Seq<Seq<char>>, n: nat, k: int)
    requires
        0 <= k <= inputs.len(),
        forall|j: int| 0 <= j < k ==> choice_of(#[trigger] inputs[j], n) == Choice::Invalid,
    ensures
        loop_outcome(inputs, n) == loop_outcome(inputs.skip(k), n),
    decreases k,
{
    if k > 0 {
        lemma_invalid_lines_only_reprompt(inputs.drop_first(), n, k - 1);
        assert(inputs.drop_first().skip(k - 1) =~= inputs.skip(k));
    } else {
        assert(inputs.skip(0) =~= inputs);
    }
}

/// The quit sentinel ends the loop without launching, whatever the entry
/// count and whatever lines would have followed.
pub proof fn lemma_quit_line_quits(inputs: Seq<Seq<char>>, n: nat)
    requires
        inputs.len() > 0,
        inputs[0] == quit_word(),
    ensures
        loop_outcome(inputs, n) == LoopOutcome::Quit,
{
}

/// A line naming a menu entry launches exactly that entry, and the loop
/// is over: no later line is read, so the launch happens once.
pub proof fn lemma_selection_launches(inputs: Seq<Seq<char>>, n: nat)
    requires
        inputs.len() > 0,
        choice_of(inputs[0], n) is Select,
    ensures
        loop_outcome(inputs, n) == LoopOutcome::Launched(choice_of(inputs[0], n)->Select_0),
{
}

/// Replays the control loop on recorded input lines, exactly as
/// `loop_outcome` states it: lines after the deciding one are not
/// consumed.
pub fn control_loop_outcome(inputs: &Vec<String>, n: usize) -> (r: LoopOutcome)
    ensures
        r == loop_outcome(inputs.deep_view(), n as nat),
{
    let ghost lines = inputs.deep_view();
    let mut i: usize = 0;
    while i < inputs.len()
        invariant
            i <= inputs.len(),
            lines == inputs.deep_view(),
            lines.len() == inputs.len(),
            forall|j: int| 0 <= j < i ==> choice_of(#[trigger] lines[j], n as nat)
                == Choice::Invalid,
        decreases inputs.len() - i,
    {
        let decision = interpret_input(inputs[i].as_str(), n);
        proof {
            lemma_invalid_lines_only_reprompt(lines, n as nat, i as int);
            assert(lines.skip(i as int)[0] == lines[i as int]);
        }
        match decision {
            Choice::Quit => {
                return LoopOutcome::Quit;
            },
            Choice::Select(sel) => {
                return LoopOutcome::Launched(sel);
            },
            Choice::Invalid => {},
        }
        i = i + 1;
    }
    proof {
        lemma_invalid_lines_only_reprompt(lines, n as nat, i as int);
        assert(lines.skip(i as int) =~= Seq::<Seq<char>>::empty());
    }
    LoopOutcome::Pending
}

} // verus!
