//! The prompt state: shell name and terminator.

use vstd::prelude::*;
use vstd::string::StringExecFns;

verus! {

/// The mutable, process-lifetime prompt state. The prompt renders as the name
/// followed by the terminator; both are free-form text.
pub struct ShellState {
    pub name: String,
    pub terminator: String,
}

/// The given pieces joined into one text with single spaces between them.
pub open spec fn join_spaced(ts: Seq<Seq<char>>) -> Seq<char>
    decreases ts.len(),
{
    if ts.len() == 0 {
        Seq::empty()
    } else if ts.len() == 1 {
        ts[0]
    } else {
        join_spaced(ts.drop_last()) + seq![' '] + ts.last()
    }
}

impl ShellState {
    /// The state the shell starts in.
    pub fn new() -> (s: ShellState)
        ensures
            s.name@ == "My Shell"@,
            s.terminator@ == ">"@,
    {
        ShellState { name: String::from_str("My Shell"), terminator: String::from_str(">") }
    }
}

/// `SETSHELLNAME`: every token after the selector, joined with single spaces,
/// becomes the shell name; with no further tokens the name becomes empty.
pub fn set_shell_name(inputs: &Vec<String>, state: &mut ShellState)
    requires
        inputs@.len() >= 1,
    ensures
        final(state).name@ == join_spaced(inputs.deep_view().skip(1)),
        final(state).terminator == old(state).terminator,
{
    let ghost toks = inputs.deep_view();
    let n = inputs.len();
    let mut name = String::new();
    let mut i: usize = 1;
    proof {
        reveal_strlit(" ");
        assert(" "@ =~= seq![' ']);
        assert(toks.subrange(1, 1) =~= Seq::<Seq<char>>::empty());
    }
    while i < n
        invariant
            1 <= i <= n,
            n == inputs@.len(),
            toks == inputs.deep_view(),
            " "@ =~= seq![' '],
            name@ == join_spaced(toks.subrange(1, i as int)),
        decreases n - i,
    {
        if i > 1 {
            name.append(" ");
        }
        name.append(inputs[i].as_str());
        proof {
            let ts = toks.subrange(1, i + 1);
            assert(ts.drop_last() =~= toks.subrange(1, i as int));
            assert(ts.last() == toks[i as int]);
            assert(toks[i as int] == inputs@[i as int]@);
        }
        i = i + 1;
    }
    proof {
        assert(toks.skip(1) =~= toks.subrange(1, n as int));
    }
    state.name = name;
}

/// `SETTERMINATOR`: the token after the selector, when present, becomes the
/// terminator verbatim; with none, the prior terminator is kept.
pub fn set_terminator(inputs: &Vec<String>, state: &mut ShellState) -> (changed: bool)
    ensures
        final(state).name == old(state).name,
        inputs@.len() >= 2 ==> changed && final(state).terminator@ == inputs.deep_view()[1],
        inputs@.len() < 2 ==> !changed && *final(state) == *old(state),
{
    if inputs.len() >= 2 {
        state.terminator = inputs[1].clone();
        proof {
            assert(inputs.deep_view()[1] == inputs@[1]@);
        }
        true
    } else {
        false
    }
}

} // verus!
