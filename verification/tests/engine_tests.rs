use sync_install::command::{Command, CommandError};
use sync_install::command_computing::{compute_commands, parse_state_from_file_content};
use sync_install::common::quote;

fn plan(current: &str, target: &str) -> Vec<Vec<String>> {
    let current_state = parse_state_from_file_content(current).unwrap();
    let target_state = parse_state_from_file_content(target).unwrap();
    compute_commands(&current_state, &target_state)
        .into_iter()
        .map(Command::into_vec)
        .collect()
}

fn tokens(words: &[&str]) -> Vec<String> {
    words.iter().map(|w| w.to_string()).collect()
}

#[test]
fn fresh_install_emits_verbatim_command() {
    // An identity absent from the current state is installed with the
    // verbatim target command, and nothing is removed.
    let plan = plan("", "cargo install foo --locked; \\");
    assert_eq!(plan, vec![tokens(&["cargo", "install", "foo", "--locked"])]);
}

#[test]
fn update_appends_force_flag() {
    // A crate present with a differing command is re-installed with
    // `--force` appended to the target command, never the plain command.
    let plan = plan("cargo install foo; \\", "cargo install foo --locked; \\");
    assert_eq!(plan, vec![tokens(&["cargo", "install", "foo", "--locked", "--force"])]);
}

#[test]
fn removed_recipe_is_uninstalled() {
    // A recipe absent from the target is uninstalled by identity.
    let plan = plan("pixi global install bar=1.0; \\", "");
    assert_eq!(plan, vec![tokens(&["pixi", "global", "uninstall", "bar"])]);
}

#[test]
fn identical_config_option_is_a_no_op() {
    // Current and target declaring the same option and value emit nothing.
    let text = "    git config set --global x y; \\";
    assert_eq!(plan(text, text), Vec::<Vec<String>>::new());
}

#[test]
fn changed_config_option_is_set_again() {
    let plan = plan(
        "git config set --global x y; \\",
        "git config set --global x z; \\",
    );
    assert_eq!(plan, vec![tokens(&["git", "config", "set", "--global", "x", "z"])]);
}

#[test]
fn changed_recipe_version_reinstalls() {
    let plan = plan(
        "pixi global install git=2.46.0; \\",
        "pixi global install git=2.48.1; \\",
    );
    assert_eq!(plan, vec![tokens(&["pixi", "global", "install", "git=2.48.1"])]);
}

#[test]
fn single_quoted_config_value_is_unquoted() {
    let plan = plan("", "git config set --global user.name 'John Smith'; \\");
    assert_eq!(
        plan,
        vec![tokens(&["git", "config", "set", "--global", "user.name", "John Smith"])]
    );
}

#[test]
fn removals_run_in_reverse_declaration_order() {
    let current = "cargo install a; \\\npixi global install b=1; \\\ngit config set --global c v; \\";
    let plan = plan(current, "");
    assert_eq!(
        plan,
        vec![
            tokens(&["git", "config", "unset", "--global", "c"]),
            tokens(&["pixi", "global", "uninstall", "b"]),
            tokens(&["cargo", "uninstall", "a"]),
        ]
    );
}

#[test]
fn installs_run_in_declaration_order() {
    let target = "cargo install a; \\\npixi global install b=1; \\\ngit config set --global c v; \\";
    let plan = plan("", target);
    assert_eq!(
        plan,
        vec![
            tokens(&["cargo", "install", "a"]),
            tokens(&["pixi", "global", "install", "b=1"]),
            tokens(&["git", "config", "set", "--global", "c", "v"]),
        ]
    );
}

#[test]
fn empty_states_emit_nothing() {
    assert_eq!(plan("", ""), Vec::<Vec<String>>::new());
}

#[test]
fn comments_and_unrecognized_lines_are_skipped() {
    let text = "# cargo install hidden; \\\nWORKDIR /src\ncargo cache -r all\n";
    assert_eq!(plan(text, ""), Vec::<Vec<String>>::new());
    assert_eq!(plan("", text), Vec::<Vec<String>>::new());
}

#[test]
fn duplicate_error_message_embeds_first_payload_exactly() {
    let text = "cargo install fsays --version 0.1.0; \\\ncargo install fsays; \\";
    let error = parse_state_from_file_content(text).unwrap_err();
    assert!(error.renderable());
    assert_eq!(
        error.message(),
        "failed to parse line 2: \"cargo install fsays; \\\": \
         \"fsays\" crate already installed in a previous line: \
         the command was [cargo install fsays --version 0.1.0]"
    );
}

#[test]
fn empty_crate_name_message_is_exact() {
    let error = parse_state_from_file_content("cargo install ; \\").unwrap_err();
    assert_eq!(
        error.message(),
        "failed to parse line 1: \"cargo install ; \\\": empty crate name"
    );
}

#[test]
fn from_vec_rejects_missing_and_empty_program() {
    assert!(matches!(Command::from_vec(Vec::new()), Err(CommandError::MissingProgram)));
    assert!(matches!(
        Command::from_vec(vec![String::new(), "x".to_string()]),
        Err(CommandError::EmptyProgram)
    ));
}

#[test]
fn from_str_splits_on_single_spaces() {
    let command = Command::from_str("cargo install  foo").unwrap();
    assert_eq!(command.into_vec(), tokens(&["cargo", "install", "", "foo"]));
    assert!(matches!(Command::from_str(""), Err(CommandError::EmptyProgram)));
    assert!(matches!(Command::from_str(" x"), Err(CommandError::EmptyProgram)));
}

#[test]
fn split_program_and_args_returns_head_and_tail() {
    let command = Command::from_str("cargo install foo").unwrap();
    let (program, args) = command.split_program_and_args();
    assert_eq!(program, "cargo");
    assert_eq!(args, &["install".to_string(), "foo".to_string()]);
}

#[test]
fn concat_args_does_not_mutate_the_original() {
    let command = Command::from_str("cargo install foo").unwrap();
    let forced = command.concat_args(vec!["--force".to_string()]);
    assert_eq!(forced.into_vec(), tokens(&["cargo", "install", "foo", "--force"]));
    assert_eq!(command.into_vec(), tokens(&["cargo", "install", "foo"]));
}

#[test]
fn display_shell_quotes_tokens() {
    let command = Command::from_vec(tokens(&["echo", "a b"])).unwrap();
    assert_eq!(command.display().unwrap(), "echo 'a b'");
    let plain = Command::from_vec(tokens(&["cargo", "install", "foo"])).unwrap();
    assert_eq!(plain.display().unwrap(), "cargo install foo");
}

#[test]
fn display_refuses_nul_bytes() {
    let command = Command::from_vec(tokens(&["echo", "a\u{0}b"])).unwrap();
    assert!(command.display().is_none());
}

#[test]
fn quote_wraps_text_in_double_quotes() {
    assert_eq!(quote("master"), "\"master\"");
    assert_eq!(quote("; \\"), "\"; \\\"");
}
