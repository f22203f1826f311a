use repo_updater::commands::{
    add_args, author_signature, branch_name, checkout_args, clone_args, commit_args,
    commit_message, committer_env, push_args, split_command, white_space,
};

#[test]
fn branch_name_replaces_colons_and_dots() {
    assert_eq!(branch_name("v1.2:rc1"), "update-to-v1-2-rc1");
}

#[test]
fn branch_name_for_plain_version() {
    assert_eq!(branch_name("2.0.1"), "update-to-2-0-1");
}

#[test]
fn branch_name_keeps_other_characters() {
    assert_eq!(branch_name("abc_9-x"), "update-to-abc_9-x");
    assert_eq!(branch_name(""), "update-to-");
    assert_eq!(branch_name("::.."), "update-to-----");
}

#[test]
fn commit_message_names_update() {
    assert_eq!(commit_message("2.0.1"), "Update to 2.0.1");
}

#[test]
fn author_signature_shape() {
    assert_eq!(author_signature("Jo Doe", "jo@example.org"), "Jo Doe <jo@example.org>");
}

#[test]
fn clone_arguments() {
    assert_eq!(clone_args("https://example/repo.git"), vec!["clone", "https://example/repo.git"]);
}

#[test]
fn checkout_arguments() {
    assert_eq!(checkout_args("2.0.1"), vec!["checkout", "-b", "update-to-2-0-1"]);
}

#[test]
fn add_arguments() {
    assert_eq!(add_args("/tmp/x/repo/.gitlab.yml"), vec!["add", "/tmp/x/repo/.gitlab.yml"]);
}

#[test]
fn commit_arguments() {
    assert_eq!(
        commit_args("2.0.1", "Jo", "jo@x.org"),
        vec!["commit", "-m", "Update to 2.0.1", "--author", "Jo <jo@x.org>"]
    );
}

#[test]
fn committer_environment() {
    let env = committer_env("Jo", "jo@x.org");
    assert_eq!(
        env,
        vec![
            ("GIT_COMMITTER_NAME".to_string(), "Jo".to_string()),
            ("GIT_COMMITTER_EMAIL".to_string(), "jo@x.org".to_string()),
        ]
    );
}

#[test]
fn push_arguments() {
    assert_eq!(push_args("2.0.1"), vec!["push", "origin", "update-to-2-0-1"]);
}

#[test]
fn split_make_test() {
    assert_eq!(split_command("make test"), vec!["make", "test"]);
}

#[test]
fn split_collapses_runs_of_whitespace() {
    assert_eq!(split_command("  cargo\ttest  --all \n"), vec!["cargo", "test", "--all"]);
}

#[test]
fn split_empty_and_blank() {
    assert!(split_command("").is_empty());
    assert!(split_command(" \t ").is_empty());
}

#[test]
fn split_on_unicode_whitespace() {
    assert_eq!(split_command("a\u{3000}b\u{a0}c"), vec!["a", "b", "c"]);
}

#[test]
fn white_space_agrees_with_std() {
    for n in 0u32..0x3100 {
        if let Some(c) = char::from_u32(n) {
            assert_eq!(white_space(c), c.is_whitespace(), "code point {n:#x}");
        }
    }
}
