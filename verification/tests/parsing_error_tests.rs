use sync_install::command_computing::parse_state_from_file_content;

#[test]
fn cargo_install_without_expected_suffix() {
    parse_first_arg_and_check_error_contains(
        "RUN cargo install fsays --version 0.3.0 --locked",
        &[
            "failed to parse line 1: ",
            r#"line with "cargo install " but which does not end with "; \""#,
        ],
    )
}

#[test]
fn cargo_install_without_crate_name() {
    parse_first_arg_and_check_error_contains(
        r"RUN set -eux; \
            cargo install ; \
            cargo cache -r all",
        &["failed to parse line 2: ", "empty crate name"],
    )
}

#[test]
fn same_crate_in_a_previous_line() {
    parse_first_arg_and_check_error_contains(
        r"RUN set -eux; \
            cargo install fsays --version 0.1.0 --locked; \
            cargo install fsays --version 0.3.0 --locked; \
            cargo cache -r all",
        &[
            "failed to parse line 3: ",
            r#""fsays" crate already installed in a previous line: "#,
            "the command was [cargo install fsays --version 0.1.0 --locked]",
        ],
    )
}

#[test]
fn pixi_global_install_without_expected_suffix() {
    parse_first_arg_and_check_error_contains(
        r"RUN set -eux; \
            pixi global install git=2.49.0",
        &[
            "failed to parse line 2: ",
            r#"line with "pixi global install " but which does not end with "; \""#,
        ],
    )
}

#[test]
fn pixi_global_install_without_recipe_and_version() {
    parse_first_arg_and_check_error_contains(
        r"RUN set -eux; \
            pixi global install ; \
            pixi clean cache --yes",
        &["failed to parse line 2: ", "neither recipe nor version"],
    )
}

#[test]
fn pixi_global_install_without_equal() {
    parse_first_arg_and_check_error_contains(
        r"RUN set -eux; \
            pixi global install git; \
            pixi clean cache --yes",
        &["failed to parse line 2: ", "'=' is missing"],
    )
}

#[test]
fn pixi_global_install_with_empty_recipe() {
    parse_first_arg_and_check_error_contains(
        r"RUN set -eux; \
            pixi global install =2.49.0; \
            pixi clean cache --yes",
        &["failed to parse line 2: ", "empty recipe"],
    )
}

#[test]
fn same_recipe_in_a_previous_line() {
    parse_first_arg_and_check_error_contains(
        r"RUN set -eux; \
            pixi global install git=2.46.0; \
            pixi global install git=2.49.0; \
            pixi clean cache --yes",
        &[
            "failed to parse line 3: ",
            r#""git" recipe already installed in a previous line: it was git=2.46.0"#,
        ],
    )
}

#[test]
fn git_config_set_global_without_expected_suffix() {
    parse_first_arg_and_check_error_contains(
        r"RUN set -eux; \
            git config set --global init.defaultBranch main",
        &[
            "failed to parse line 2: ",
            r#"line with "git config set --global " but which does not end with "; \""#,
        ],
    )
}

#[test]
fn git_config_set_global_without_value() {
    parse_first_arg_and_check_error_contains(
        r#"RUN set -eux; \
            git config set --global init.defaultBranch; \
            cat "$HOME/.gitconfig""#,
        &["failed to parse line 2: ", r#""init.defaultBranch" git global option without value"#],
    )
}

#[test]
fn git_config_set_global_with_empty_option() {
    parse_first_arg_and_check_error_contains(
        r#"RUN set -eux; \
            git config set --global  main; \
            cat "$HOME/.gitconfig""#,
        &["failed to parse line 2: ", "empty option"],
    )
}

#[test]
fn git_config_set_global_with_empty_value_1() {
    parse_first_arg_and_check_error_contains(
        r#"RUN set -eux; \
            git config set --global init.defaultBranch ; \
            cat "$HOME/.gitconfig""#,
        &["failed to parse line 2: ", "empty value"],
    )
}

#[test]
fn git_config_set_global_with_empty_value_2() {
    parse_first_arg_and_check_error_contains(
        r#"RUN set -eux; \
            git config set --global init.defaultBranch ''; \
            cat "$HOME/.gitconfig""#,
        &["failed to parse line 2: ", "empty value"],
    )
}

#[test]
fn git_config_set_global_without_ending_apostrophe() {
    parse_first_arg_and_check_error_contains(
        r#"RUN set -eux; \
            git config set --global user.name 'John Smith; \
            cat "$HOME/.gitconfig""#,
        &["failed to parse line 2: ", r#"missing ending apostrophe in "'John Smith""#],
    )
}

#[test]
fn same_git_global_option_in_a_previous_line() {
    parse_first_arg_and_check_error_contains(
        r#"RUN set -eux; \
            git config set --global init.defaultBranch master; \
            git config set --global init.defaultBranch main; \
            cat "$HOME/.gitconfig""#,
        &[
            "failed to parse line 3: ",
            r#""init.defaultBranch" git global option already set in a previous line: "#,
            r#"the value was "master""#,
        ],
    )
}

fn parse_first_arg_and_check_error_contains(file_content: &str, texts: &[&str]) {
    let result = parse_state_from_file_content(file_content);
    let error = match result {
        Err(error) => error,
        Ok(_) => panic!("missing error"),
    };
    assert!(error.renderable());
    let msg = error.message();
    for text in texts {
        assert!(msg.contains(text), "the error message {:?} does not contain {:?}", msg, text);
    }
}
