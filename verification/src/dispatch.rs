//! The dispatcher: classifying a tokenized input line and routing it.
//!
//! The first token is matched, case-sensitively, against a fixed vocabulary of
//! built-in selectors. A built-in is handled here, mutating the prompt state
//! or the alias table; everything the shell cannot do itself (stopping the
//! process, running a program, file I/O, printing) is described by the
//! returned [`Action`] for the caller to perform.

use vstd::prelude::*;
use vstd::string::StringExecFns;
use crate::alias::AliasTable;
use crate::alias::entry_wf;
use crate::shell::ShellState;
use crate::shell::join_spaced;
use crate::shell::set_shell_name;
use crate::shell::set_terminator;
use crate::tokens::is_space_char;
use crate::tokens::str_eq;
use crate::tokens::token_wf;
use crate::tokens::tokens_of;
use crate::tokens::tokens_wf;
use crate::tokens::tokenize;

verus! {

/// The report a handled directive leaves for the user.
#[derive(Debug, PartialEq, Eq, Structural)]
pub enum Notice {
    /// The shell name was replaced.
    ShellNameSet,
    /// The terminator was replaced.
    TerminatorSet,
    /// No terminator was given; the prior one is kept.
    TerminatorKept,
    /// An alias was defined or overwritten.
    AliasDefined,
    /// An alias was deleted.
    AliasDeleted,
    /// The alias to delete does not exist; the table is unchanged.
    AliasNotFound,
    /// Wrong arity for `NEWNAME`.
    NewnameUsage,
    /// Wrong arity for `READNEWNAMES`.
    ReadUsage,
    /// Wrong arity for `SAVENEWNAMES`.
    SaveUsage,
    /// The resolved alias value holds no token, so nothing can be run.
    AliasEmpty,
}

/// What remains for the caller to do after a dispatch.
#[derive(Debug)]
pub enum Action {
    /// Empty input: nothing at all.
    Silent,
    /// `STOP`: terminate the process with success status.
    Stop,
    /// A directive was handled; report its outcome.
    Report(Notice),
    /// Enumerate the alias table.
    ListAliases,
    /// Run an external program with the given arguments.
    Run { program: String, args: Vec<String> },
    /// Load aliases from the file at `path`.
    LoadFile { path: String },
    /// Save the alias table to the file at `path`.
    SaveFile { path: String },
}

/// Whether an action is an external program invocation.
pub open spec fn is_run(act: &Action) -> bool {
    match act {
        Action::Run { .. } => true,
        _ => false,
    }
}

/// The built-in command vocabulary.
pub open spec fn is_selector(t: Seq<char>) -> bool {
    ||| t == "STOP"@
    ||| t == "SETSHELLNAME"@
    ||| t == "SETTERMINATOR"@
    ||| t == "NEWNAME"@
    ||| t == "READNEWNAMES"@
    ||| t == "LISTNEWNAMES"@
    ||| t == "SAVENEWNAMES"@
}

/// No two selectors of the vocabulary are the same word.
pub proof fn lemma_selectors_distinct()
    ensures
        "STOP"@ != "SETSHELLNAME"@,
        "STOP"@ != "SETTERMINATOR"@,
        "STOP"@ != "NEWNAME"@,
        "STOP"@ != "READNEWNAMES"@,
        "STOP"@ != "LISTNEWNAMES"@,
        "STOP"@ != "SAVENEWNAMES"@,
        "SETSHELLNAME"@ != "SETTERMINATOR"@,
        "SETSHELLNAME"@ != "NEWNAME"@,
        "SETSHELLNAME"@ != "READNEWNAMES"@,
        "SETSHELLNAME"@ != "LISTNEWNAMES"@,
        "SETSHELLNAME"@ != "SAVENEWNAMES"@,
        "SETTERMINATOR"@ != "NEWNAME"@,
        "SETTERMINATOR"@ != "READNEWNAMES"@,
        "SETTERMINATOR"@ != "LISTNEWNAMES"@,
        "SETTERMINATOR"@ != "SAVENEWNAMES"@,
        "NEWNAME"@ != "READNEWNAMES"@,
        "NEWNAME"@ != "LISTNEWNAMES"@,
        "NEWNAME"@ != "SAVENEWNAMES"@,
        "READNEWNAMES"@ != "LISTNEWNAMES"@,
        "READNEWNAMES"@ != "SAVENEWNAMES"@,
        "LISTNEWNAMES"@ != "SAVENEWNAMES"@,
{
    reveal_strlit("STOP");
    reveal_strlit("SETSHELLNAME");
    reveal_strlit("SETTERMINATOR");
    reveal_strlit("NEWNAME");
    reveal_strlit("READNEWNAMES");
    reveal_strlit("LISTNEWNAMES");
    reveal_strlit("SAVENEWNAMES");
    assert("STOP"@.len() == 4);
    assert("NEWNAME"@.len() == 7);
    assert("SETTERMINATOR"@.len() == 13);
    assert("SETSHELLNAME"@.len() == 12);
    assert("READNEWNAMES"@.len() == 12);
    assert("LISTNEWNAMES"@.len() == 12);
    assert("SAVENEWNAMES"@.len() == 12);
    assert("SETSHELLNAME"@[0] == 'S' && "READNEWNAMES"@[0] == 'R' && "LISTNEWNAMES"@[0] == 'L'
        && "SAVENEWNAMES"@[0] == 'S');
    assert("SETSHELLNAME"@[1] == 'E' && "SAVENEWNAMES"@[1] == 'A');
}

/// `NEWNAME`: alone, an enumeration request; with one argument, deletion of
/// that alias (reported either way, never an error); with two, definition or
/// overwrite; any longer arity is a usage error and changes nothing.
pub fn set_new_name(inputs: &Vec<String>, aliases: &mut AliasTable) -> (act: Action)
    requires
        old(aliases).wf(),
        tokens_wf(inputs.deep_view()),
    ensures
        final(aliases).wf(),
        ({
            let toks = inputs.deep_view();
            &&& toks.len() == 1 ==> *final(aliases) == *old(aliases) && act == Action::ListAliases
            &&& toks.len() == 2 ==> final(aliases)@ == old(aliases)@.remove(toks[1]) && (if old(
                aliases
            )@.contains_key(toks[1]) {
                act == Action::Report(Notice::AliasDeleted)
            } else {
                *final(aliases) == *old(aliases) && act == Action::Report(Notice::AliasNotFound)
            })
            &&& toks.len() == 3 ==> final(aliases)@ == old(aliases)@.insert(toks[1], toks[2])
                && act == Action::Report(Notice::AliasDefined)
            &&& (toks.len() == 0 || toks.len() >= 4) ==> *final(aliases) == *old(aliases) && act
                == Action::Report(Notice::NewnameUsage)
        }),
{
    let ghost toks = inputs.deep_view();
    let n = inputs.len();
    if n == 1 {
        Action::ListAliases
    } else if n == 2 {
        proof {
            assert(toks[1] == inputs@[1]@);
        }
        let existed = aliases.remove(inputs[1].as_str());
        if existed {
            Action::Report(Notice::AliasDeleted)
        } else {
            proof {
                assert(old(aliases)@.remove(toks[1]) =~= old(aliases)@);
            }
            Action::Report(Notice::AliasNotFound)
        }
    } else if n == 3 {
        proof {
            assert(toks[1] == inputs@[1]@);
            assert(toks[2] == inputs@[2]@);
            assert(token_wf(toks[1]));
            assert(token_wf(toks[2]));
            assert forall|j: int| 0 <= j < toks[1].len() implies #[trigger] toks[1][j] != ' ' by {
                assert(!is_space_char(toks[1][j]));
                assert(is_space_char(' '));
            }
            assert(entry_wf(toks[1], toks[2]));
        }
        aliases.insert(inputs[1].as_str(), inputs[2].as_str());
        Action::Report(Notice::AliasDefined)
    } else {
        Action::Report(Notice::NewnameUsage)
    }
}

/// `READNEWNAMES`: with exactly one argument, the request to load that file;
/// any other arity is a usage error.
pub fn read_new_names(inputs: &Vec<String>) -> (act: Action)
    ensures
        inputs.deep_view().len() == 2 ==> (act matches Action::LoadFile { path } && path@
            == inputs.deep_view()[1]),
        inputs.deep_view().len() != 2 ==> act == Action::Report(Notice::ReadUsage),
{
    if inputs.len() == 2 {
        proof {
            assert(inputs.deep_view()[1] == inputs@[1]@);
        }
        Action::LoadFile { path: inputs[1].clone() }
    } else {
        Action::Report(Notice::ReadUsage)
    }
}

/// `SAVENEWNAMES`: with exactly one argument, the request to save to that
/// file; any other arity is a usage error.
pub fn save_new_names(inputs: &Vec<String>) -> (act: Action)
    ensures
        inputs.deep_view().len() == 2 ==> (act matches Action::SaveFile { path } && path@
            == inputs.deep_view()[1]),
        inputs.deep_view().len() != 2 ==> act == Action::Report(Notice::SaveUsage),
{
    if inputs.len() == 2 {
        proof {
            assert(inputs.deep_view()[1] == inputs@[1]@);
        }
        Action::SaveFile { path: inputs[1].clone() }
    } else {
        Action::Report(Notice::SaveUsage)
    }
}

/// `NEWNAME` alone and `LISTNEWNAMES`: the table's entries as owned
/// (name, command) pairs in enumeration order, ready for rendering. The order
/// is unspecified to callers; only the set of pairs is promised.
pub fn list_new_names(aliases: &AliasTable) -> (r: Vec<(String, String)>)
    ensures
        r@.len() == aliases.seq_view().len(),
        forall|i: int|
            0 <= i < r@.len() ==> (#[trigger] r@[i]).0@ == aliases.seq_view()[i].0 && r@[i].1@
                == aliases.seq_view()[i].1,
{
    let n = aliases.entry_count();
    let mut r: Vec<(String, String)> = Vec::new();
    let mut i: usize = 0;
    while i < n
        invariant
            n == aliases.seq_view().len(),
            i <= n,
            r@.len() == i,
            forall|k: int|
                0 <= k < i ==> (#[trigger] r@[k]).0@ == aliases.seq_view()[k].0 && r@[k].1@
                    == aliases.seq_view()[k].1,
        decreases n - i,
    {
        let e = aliases.entry_at(i);
        r.push((e.0.clone(), e.1.clone()));
        i = i + 1;
    }
    r
}

/// An input whose first token is no built-in: when the token names an alias,
/// its command line is re-tokenized and replaces the whole input, the
/// original arguments being discarded; otherwise the input itself is the
/// invocation. An alias value with no token is reported, not run.
pub fn resolve_invocation(inputs: &Vec<String>, aliases: &AliasTable) -> (act: Action)
    requires
        aliases.wf(),
        inputs@.len() >= 1,
    ensures
        ({
            let toks = inputs.deep_view();
            if aliases@.contains_key(toks[0]) {
                let vt = tokens_of(aliases@[toks[0]]);
                if vt.len() == 0 {
                    act == Action::Report(Notice::AliasEmpty)
                } else {
                    act matches Action::Run { program, args } && program@ == vt[0]
                        && args.deep_view() == vt.skip(1)
                }
            } else {
                act matches Action::Run { program, args } && program@ == toks[0]
                    && args.deep_view() == toks.skip(1)
            }
        }),
{
    let ghost toks = inputs.deep_view();
    proof {
        assert(toks[0] == inputs@[0]@);
    }
    match aliases.get(inputs[0].as_str()) {
        Some(cmd) => {
            let ghost vt = tokens_of(aliases@[toks[0]]);
            let mut parts = tokenize(cmd.as_str());
            if parts.len() == 0 {
                Action::Report(Notice::AliasEmpty)
            } else {
                let ghost dv = parts.deep_view();
                let program = parts.remove(0);
                proof {
                    assert(program@ == dv[0]);
                    assert(parts.deep_view() =~= dv.skip(1));
                }
                Action::Run { program, args: parts }
            }
        },
        None => {
            let program = inputs[0].clone();
            let n = inputs.len();
            let mut args: Vec<String> = Vec::new();
            let mut i: usize = 1;
            proof {
                assert(args.deep_view() =~= toks.subrange(1, 1));
            }
            while i < n
                invariant
                    1 <= i <= n,
                    n == inputs@.len(),
                    toks == inputs.deep_view(),
                    args.deep_view() == toks.subrange(1, i as int),
                decreases n - i,
            {
                let ghost prev = args.deep_view();
                args.push(inputs[i].clone());
                proof {
                    assert(args.deep_view() =~= prev.push(toks[i as int]));
                    assert(prev.push(toks[i as int]) =~= toks.subrange(1, i + 1));
                }
                i = i + 1;
            }
            proof {
                assert(toks.subrange(1, n as int) =~= toks.skip(1));
            }
            Action::Run { program, args }
        },
    }
}

/// Dispatches one tokenized input line.
///
/// The first token selects a built-in, or else an alias resolution and
/// external invocation; empty input does nothing. A recognized selector is
/// always handled here: it never leads to an external program invocation.
pub fn match_inputs(inputs: &Vec<String>, state: &mut ShellState, aliases: &mut AliasTable) -> (act:
    Action)
    requires
        old(aliases).wf(),
        tokens_wf(inputs.deep_view()),
    ensures
        final(aliases).wf(),
        ({
            let toks = inputs.deep_view();
            &&& toks.len() == 0 ==> act == Action::Silent && *final(state) == *old(state)
                && *final(aliases) == *old(aliases)
            &&& toks.len() > 0 ==> {
                &&& is_selector(toks[0]) ==> !is_run(&act)
                &&& toks[0] == "STOP"@ ==> act == Action::Stop && *final(state) == *old(state)
                    && *final(aliases) == *old(aliases)
                &&& toks[0] == "SETSHELLNAME"@ ==> final(state).name@ == join_spaced(toks.skip(1))
                    && final(state).terminator == old(state).terminator
                    && *final(aliases) == *old(aliases)
                    && act == Action::Report(Notice::ShellNameSet)
                &&& toks[0] == "SETTERMINATOR"@ ==> final(state).name == old(state).name
                    && *final(aliases) == *old(aliases) && (if toks.len() >= 2 {
                    final(state).terminator@ == toks[1] && act == Action::Report(
                        Notice::TerminatorSet,
                    )
                } else {
                    final(state).terminator == old(state).terminator && act == Action::Report(
                        Notice::TerminatorKept,
                    )
                })
                &&& toks[0] == "NEWNAME"@ ==> *final(state) == *old(state) && {
                    &&& toks.len() == 1 ==> *final(aliases) == *old(aliases) && act
                        == Action::ListAliases
                    &&& toks.len() == 2 ==> final(aliases)@ == old(aliases)@.remove(toks[1]) && (
                    if old(aliases)@.contains_key(toks[1]) {
                        act == Action::Report(Notice::AliasDeleted)
                    } else {
                        *final(aliases) == *old(aliases) && act == Action::Report(
                            Notice::AliasNotFound,
                        )
                    })
                    &&& toks.len() == 3 ==> final(aliases)@ == old(aliases)@.insert(
                        toks[1],
                        toks[2],
                    ) && act == Action::Report(Notice::AliasDefined)
                    &&& toks.len() >= 4 ==> *final(aliases) == *old(aliases) && act
                        == Action::Report(Notice::NewnameUsage)
                }
                &&& toks[0] == "READNEWNAMES"@ ==> *final(state) == *old(state) && *final(aliases)
                    == *old(aliases) && (if toks.len() == 2 {
                    act matches Action::LoadFile { path } && path@ == toks[1]
                } else {
                    act == Action::Report(Notice::ReadUsage)
                })
                &&& toks[0] == "LISTNEWNAMES"@ ==> *final(state) == *old(state) && *final(aliases)
                    == *old(aliases) && act == Action::ListAliases
                &&& toks[0] == "SAVENEWNAMES"@ ==> *final(state) == *old(state) && *final(aliases)
                    == *old(aliases) && (if toks.len() == 2 {
                    act matches Action::SaveFile { path } && path@ == toks[1]
                } else {
                    act == Action::Report(Notice::SaveUsage)
                })
                &&& !is_selector(toks[0]) ==> *final(state) == *old(state) && *final(aliases)
                    == *old(aliases) && (if old(aliases)@.contains_key(toks[0]) {
                    let vt = tokens_of(old(aliases)@[toks[0]]);
                    if vt.len() == 0 {
                        act == Action::Report(Notice::AliasEmpty)
                    } else {
                        act matches Action::Run { program, args } && program@ == vt[0]
                            && args.deep_view() == vt.skip(1)
                    }
                } else {
                    act matches Action::Run { program, args } && program@ == toks[0]
                        && args.deep_view() == toks.skip(1)
                })
            }
        }),
{
    let n = inputs.len();
    if n == 0 {
        return Action::Silent;
    }
    let ghost toks = inputs.deep_view();
    proof {
        assert(toks[0] == inputs@[0]@);
        lemma_selectors_distinct();
    }
    let t0 = &inputs[0];
    if str_eq(t0.as_str(), "STOP") {
        Action::Stop
    } else if str_eq(t0.as_str(), "SETSHELLNAME") {
        set_shell_name(inputs, state);
        Action::Report(Notice::ShellNameSet)
    } else if str_eq(t0.as_str(), "SETTERMINATOR") {
        if set_terminator(inputs, state) {
            Action::Report(Notice::TerminatorSet)
        } else {
            Action::Report(Notice::TerminatorKept)
        }
    } else if str_eq(t0.as_str(), "NEWNAME") {
        set_new_name(inputs, aliases)
    } else if str_eq(t0.as_str(), "READNEWNAMES") {
        read_new_names(inputs)
    } else if str_eq(t0.as_str(), "LISTNEWNAMES") {
        Action::ListAliases
    } else if str_eq(t0.as_str(), "SAVENEWNAMES") {
        save_new_names(inputs)
    } else {
        resolve_invocation(inputs, aliases)
    }
}

} // verus!


