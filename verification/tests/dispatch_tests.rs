use myshell::alias::AliasTable;
use myshell::dispatch::{match_inputs, Action, Notice};
use myshell::shell::ShellState;
use myshell::tokens::tokenize;

fn toks(words: &[&str]) -> Vec<String> {
    words.iter().map(|w| w.to_string()).collect()
}

#[test]
fn empty_input_is_silent() {
    let mut state = ShellState::new();
    let mut aliases = AliasTable::new();
    let act = match_inputs(&toks(&[]), &mut state, &mut aliases);
    assert!(matches!(act, Action::Silent));
    assert_eq!(state.name, "My Shell");
    assert_eq!(state.terminator, ">");
}

#[test]
fn stop_returns_stop_action() {
    let mut state = ShellState::new();
    let mut aliases = AliasTable::new();
    let act = match_inputs(&toks(&["STOP"]), &mut state, &mut aliases);
    assert!(matches!(act, Action::Stop));
}

#[test]
fn stop_ignores_extra_arguments() {
    let mut state = ShellState::new();
    let mut aliases = AliasTable::new();
    let act = match_inputs(&toks(&["STOP", "now", "please"]), &mut state, &mut aliases);
    assert!(matches!(act, Action::Stop));
}

#[test]
fn set_shell_name_joins_tokens_with_spaces() {
    let mut state = ShellState::new();
    let mut aliases = AliasTable::new();
    let act = match_inputs(&toks(&["SETSHELLNAME", "A", "B", "C"]), &mut state, &mut aliases);
    assert!(matches!(act, Action::Report(Notice::ShellNameSet)));
    assert_eq!(state.name, "A B C");
}

#[test]
fn set_shell_name_with_no_arguments_empties_the_name() {
    let mut state = ShellState::new();
    let mut aliases = AliasTable::new();
    let act = match_inputs(&toks(&["SETSHELLNAME"]), &mut state, &mut aliases);
    assert!(matches!(act, Action::Report(Notice::ShellNameSet)));
    assert_eq!(state.name, "");
    assert_eq!(state.terminator, ">");
}

#[test]
fn set_terminator_replaces_the_terminator() {
    let mut state = ShellState::new();
    let mut aliases = AliasTable::new();
    let act = match_inputs(&toks(&["SETTERMINATOR", "$"]), &mut state, &mut aliases);
    assert!(matches!(act, Action::Report(Notice::TerminatorSet)));
    assert_eq!(state.terminator, "$");
    assert_eq!(state.name, "My Shell");
}

#[test]
fn set_terminator_without_argument_keeps_prior_value() {
    let mut state = ShellState::new();
    let mut aliases = AliasTable::new();
    match_inputs(&toks(&["SETTERMINATOR", "#"]), &mut state, &mut aliases);
    let act = match_inputs(&toks(&["SETTERMINATOR"]), &mut state, &mut aliases);
    assert!(matches!(act, Action::Report(Notice::TerminatorKept)));
    assert_eq!(state.terminator, "#");
}

#[test]
fn newname_defines_and_resolves_alias() {
    let mut state = ShellState::new();
    let mut aliases = AliasTable::new();
    let act = match_inputs(&toks(&["NEWNAME", "x", "y"]), &mut state, &mut aliases);
    assert!(matches!(act, Action::Report(Notice::AliasDefined)));
    let act = match_inputs(&toks(&["x"]), &mut state, &mut aliases);
    match act {
        Action::Run { program, args } => {
            assert_eq!(program, "y");
            assert!(args.is_empty());
        }
        other => panic!("expected a run action, got {:?}", other),
    }
}

#[test]
fn alias_resolution_discards_original_arguments() {
    let mut state = ShellState::new();
    let mut aliases = AliasTable::new();
    match_inputs(&toks(&["NEWNAME", "x", "y"]), &mut state, &mut aliases);
    let act = match_inputs(&toks(&["x", "ignored", "also"]), &mut state, &mut aliases);
    match act {
        Action::Run { program, args } => {
            assert_eq!(program, "y");
            assert!(args.is_empty());
        }
        other => panic!("expected a run action, got {:?}", other),
    }
}

#[test]
fn newname_overwrites_existing_alias() {
    let mut state = ShellState::new();
    let mut aliases = AliasTable::new();
    match_inputs(&toks(&["NEWNAME", "x", "y"]), &mut state, &mut aliases);
    match_inputs(&toks(&["NEWNAME", "x", "z"]), &mut state, &mut aliases);
    assert_eq!(aliases.len(), 1);
    assert_eq!(aliases.get("x").unwrap().as_str(), "z");
}

#[test]
fn newname_deletes_existing_alias() {
    let mut state = ShellState::new();
    let mut aliases = AliasTable::new();
    match_inputs(&toks(&["NEWNAME", "x", "y"]), &mut state, &mut aliases);
    let act = match_inputs(&toks(&["NEWNAME", "x"]), &mut state, &mut aliases);
    assert!(matches!(act, Action::Report(Notice::AliasDeleted)));
    assert_eq!(aliases.len(), 0);
    assert!(aliases.get("x").is_none());
}

#[test]
fn deleting_nonexistent_alias_reports_and_changes_nothing() {
    let mut state = ShellState::new();
    let mut aliases = AliasTable::new();
    match_inputs(&toks(&["NEWNAME", "x", "y"]), &mut state, &mut aliases);
    let act = match_inputs(&toks(&["NEWNAME", "nosuch"]), &mut state, &mut aliases);
    assert!(matches!(act, Action::Report(Notice::AliasNotFound)));
    assert_eq!(aliases.len(), 1);
    assert_eq!(aliases.get("x").unwrap().as_str(), "y");
}

#[test]
fn newname_with_too_many_arguments_is_usage_error() {
    let mut state = ShellState::new();
    let mut aliases = AliasTable::new();
    let act = match_inputs(&toks(&["NEWNAME", "a", "b", "c"]), &mut state, &mut aliases);
    assert!(matches!(act, Action::Report(Notice::NewnameUsage)));
    assert_eq!(aliases.len(), 0);
}

#[test]
fn newname_alone_lists_aliases() {
    let mut state = ShellState::new();
    let mut aliases = AliasTable::new();
    let act = match_inputs(&toks(&["NEWNAME"]), &mut state, &mut aliases);
    assert!(matches!(act, Action::ListAliases));
}

#[test]
fn listnewnames_lists_aliases() {
    let mut state = ShellState::new();
    let mut aliases = AliasTable::new();
    let act = match_inputs(&toks(&["LISTNEWNAMES"]), &mut state, &mut aliases);
    assert!(matches!(act, Action::ListAliases));
}

#[test]
fn readnewnames_requests_load_of_named_file() {
    let mut state = ShellState::new();
    let mut aliases = AliasTable::new();
    let act = match_inputs(&toks(&["READNEWNAMES", "a.txt"]), &mut state, &mut aliases);
    match act {
        Action::LoadFile { path } => assert_eq!(path, "a.txt"),
        other => panic!("expected a load action, got {:?}", other),
    }
}

#[test]
fn readnewnames_wrong_arity_is_usage_error() {
    let mut state = ShellState::new();
    let mut aliases = AliasTable::new();
    let act = match_inputs(&toks(&["READNEWNAMES"]), &mut state, &mut aliases);
    assert!(matches!(act, Action::Report(Notice::ReadUsage)));
    let act = match_inputs(&toks(&["READNEWNAMES", "a", "b"]), &mut state, &mut aliases);
    assert!(matches!(act, Action::Report(Notice::ReadUsage)));
}

#[test]
fn savenewnames_requests_save_to_named_file() {
    let mut state = ShellState::new();
    let mut aliases = AliasTable::new();
    let act = match_inputs(&toks(&["SAVENEWNAMES", "out.txt"]), &mut state, &mut aliases);
    match act {
        Action::SaveFile { path } => assert_eq!(path, "out.txt"),
        other => panic!("expected a save action, got {:?}", other),
    }
}

#[test]
fn savenewnames_wrong_arity_is_usage_error() {
    let mut state = ShellState::new();
    let mut aliases = AliasTable::new();
    let act = match_inputs(&toks(&["SAVENEWNAMES"]), &mut state, &mut aliases);
    assert!(matches!(act, Action::Report(Notice::SaveUsage)));
}

#[test]
fn unknown_command_becomes_external_invocation() {
    let mut state = ShellState::new();
    let mut aliases = AliasTable::new();
    let act = match_inputs(&toks(&["ls", "-l", "dir"]), &mut state, &mut aliases);
    match act {
        Action::Run { program, args } => {
            assert_eq!(program, "ls");
            assert_eq!(args, vec!["-l".to_string(), "dir".to_string()]);
        }
        other => panic!("expected a run action, got {:?}", other),
    }
}

#[test]
fn selectors_never_run_external_programs() {
    let selectors = [
        "STOP",
        "SETSHELLNAME",
        "SETTERMINATOR",
        "NEWNAME",
        "READNEWNAMES",
        "LISTNEWNAMES",
        "SAVENEWNAMES",
    ];
    for sel in selectors {
        let mut state = ShellState::new();
        let mut aliases = AliasTable::new();
        // An alias under the selector's own name must not shadow the built-in.
        match_inputs(&toks(&["NEWNAME", sel, "evil"]), &mut state, &mut aliases);
        let act = match_inputs(&toks(&[sel, "arg"]), &mut state, &mut aliases);
        assert!(
            !matches!(act, Action::Run { .. }),
            "selector {} reached external invocation",
            sel
        );
    }
}

#[test]
fn alias_with_multiword_command_line_is_retokenized() {
    let mut state = ShellState::new();
    let mut aliases = AliasTable::new();
    aliases.insert("ll", "ls -l -a");
    let act = match_inputs(&toks(&["ll"]), &mut state, &mut aliases);
    match act {
        Action::Run { program, args } => {
            assert_eq!(program, "ls");
            assert_eq!(args, vec!["-l".to_string(), "-a".to_string()]);
        }
        other => panic!("expected a run action, got {:?}", other),
    }
}

#[test]
fn alias_value_of_only_whitespace_is_reported_not_run() {
    let mut state = ShellState::new();
    let mut aliases = AliasTable::new();
    // Loadable from a file: the part after the first space is a tab.
    aliases.insert("x", "\t");
    let act = match_inputs(&toks(&["x"]), &mut state, &mut aliases);
    assert!(matches!(act, Action::Report(Notice::AliasEmpty)));
}

#[test]
fn tokenize_splits_on_any_whitespace() {
    let t = tokenize("  one\ttwo  three \r\n");
    assert_eq!(t, vec!["one".to_string(), "two".to_string(), "three".to_string()]);
}

#[test]
fn tokenize_of_blank_line_is_empty() {
    assert!(tokenize("").is_empty());
    assert!(tokenize(" \t ").is_empty());
}
