use sync_install::command::Command;
use sync_install::command_computing::{compute_commands, parse_state_from_file_content};
use sync_install::errors::ParseError;

const FILE_CONTENT_1: &str = r#"FROM docker.io/library/rust:1.85.0-slim-bookworm
RUN set -eux; \
    cargo install cargo-cache --version 0.8.3 --locked; \
    cargo install pixi --git https://github.com/prefix-dev/pixi.git --tag v0.41.4 --locked; \
    pixi run -e openssl-pkgconfig cargo install cargo-update --version 16.1.0 --locked; \
    pixi global install git=2.46.0; \
    cargo cache -r all
CMD ["/bin/bash"]
"#;

const FILE_CONTENT_2: &str = r#"FROM docker.io/library/rust:1.85.0-slim-bookworm
RUN set -eux; \
    cargo install cargo-cache --version 0.8.3; \
    cargo install pixi --git https://github.com/prefix-dev/pixi.git --tag v0.41.4 --locked; \
    pixi run -e openssl-pkgconfig cargo install cargo-update --version 16.1.0 --locked; \
    pixi global install git=2.48.1; \
    cargo cache -r all
CMD ["/bin/bash"]
"#;

#[test]
fn install() {
    let current_state_file_content = "";
    let target_state_file_content = FILE_CONTENT_1;
    assert_eq!(
        parse_args_and_compute_commands(current_state_file_content, target_state_file_content)
            .unwrap(),
        split_commands(&[
            "cargo install cargo-cache --version 0.8.3 --locked",
            "cargo install pixi --git https://github.com/prefix-dev/pixi.git --tag v0.41.4 --locked",
            "pixi run -e openssl-pkgconfig cargo install cargo-update --version 16.1.0 --locked",
            "pixi global install git=2.46.0",
        ]),
    );
}

#[test]
fn update() {
    let current_state_file_content = FILE_CONTENT_1;
    let target_state_file_content = FILE_CONTENT_2;
    assert_eq!(
        parse_args_and_compute_commands(current_state_file_content, target_state_file_content)
            .unwrap(),
        split_commands(&[
            "cargo install cargo-cache --version 0.8.3 --force",
            "pixi global install git=2.48.1",
        ]),
    );
}

#[test]
fn remove() {
    let current_state_file_content = FILE_CONTENT_2;
    let target_state_file_content = "";
    assert_eq!(
        parse_args_and_compute_commands(current_state_file_content, target_state_file_content)
            .unwrap(),
        split_commands(&[
            "pixi global uninstall git",
            "cargo uninstall cargo-update",
            "cargo uninstall pixi",
            "cargo uninstall cargo-cache",
        ]),
    );
}

#[test]
fn no_change() {
    assert_eq!(
        parse_args_and_compute_commands(FILE_CONTENT_1, FILE_CONTENT_1).unwrap(),
        Vec::<Vec<String>>::new()
    );
    assert_eq!(
        parse_args_and_compute_commands(FILE_CONTENT_2, FILE_CONTENT_2).unwrap(),
        Vec::<Vec<String>>::new()
    );
}

fn parse_args_and_compute_commands(
    current_state_file_content: &str,
    target_state_file_content: &str,
) -> Result<Vec<Vec<String>>, ParseError> {
    let current_state = parse_state_from_file_content(current_state_file_content)?;
    let target_state = parse_state_from_file_content(target_state_file_content)?;
    Ok(compute_commands(&current_state, &target_state)
        .into_iter()
        .map(Command::into_vec)
        .collect())
}

fn split_commands(commands: &[&str]) -> Vec<Vec<String>> {
    commands
        .iter()
        .map(|command| command.split(' ').map(str::to_owned).collect::<Vec<_>>())
        .collect::<Vec<_>>()
}
