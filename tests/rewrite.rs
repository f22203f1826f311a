use repo_updater::rewrite::{rewrite_contents, rewrite_line};

#[test]
fn matching_line_gets_update() {
    assert_eq!(rewrite_line("image: 1.0.0", "image:", "2.0.1"), "image: 2.0.1");
}

#[test]
fn text_after_first_occurrence_is_dropped() {
    assert_eq!(rewrite_line("  image: old # image: x", "image:", "2.0.1"), "  image: 2.0.1");
}

#[test]
fn first_of_several_occurrences_is_used() {
    assert_eq!(rewrite_line("a=a=a", "a=", "z"), "a= z");
}

#[test]
fn line_without_prefix_is_unchanged() {
    assert_eq!(rewrite_line("name: build", "image:", "2.0.1"), "name: build");
}

#[test]
fn empty_prefix_matches_at_start() {
    assert_eq!(rewrite_line("abc", "", "v"), " v");
}

#[test]
fn prefix_at_end_of_line() {
    assert_eq!(rewrite_line("image:", "image:", "3"), "image: 3");
}

#[test]
fn non_ascii_text_before_prefix() {
    assert_eq!(rewrite_line("über image: x", "image:", "é1"), "über image: é1");
}

#[test]
fn whole_text_rewritten_line_by_line() {
    let input = "stages:\n  image: registry/app:1.0\nscript: make\n";
    let out = rewrite_contents(input, "image:", "2.0.1");
    assert_eq!(out, "stages:\n  image: 2.0.1\nscript: make\n");
}

#[test]
fn missing_final_newline_is_added() {
    assert_eq!(rewrite_contents("a\nb", "x", "1"), "a\nb\n");
}

#[test]
fn empty_text_becomes_one_newline() {
    assert_eq!(rewrite_contents("", "x", "1"), "\n");
}

#[test]
fn crlf_line_endings_become_newlines() {
    assert_eq!(rewrite_contents("a\r\nimage: 1\r\n", "image:", "2"), "a\nimage: 2\n");
}

#[test]
fn blank_lines_are_kept() {
    assert_eq!(rewrite_contents("a\n\n\nb\n", "x", "1"), "a\n\n\nb\n");
}

#[test]
fn every_matching_line_is_rewritten() {
    let out = rewrite_contents("image: a\nimage: b\nother\n", "image:", "9");
    assert_eq!(out, "image: 9\nimage: 9\nother\n");
}

#[test]
fn rewriting_plain_text_twice_changes_nothing() {
    let input = "one\ntwo\nthree\n";
    let once = rewrite_contents(input, "image:", "2");
    let twice = rewrite_contents(&once, "image:", "2");
    assert_eq!(once, input);
    assert_eq!(twice, once);
}

#[test]
fn rewriting_is_deterministic() {
    let input = "x\n  image: old\n";
    assert_eq!(rewrite_contents(input, "image:", "2.0"), rewrite_contents(input, "image:", "2.0"));
}

#[test]
fn result_ignores_what_follows_the_prefix() {
    assert_eq!(
        rewrite_line("k: a b c", "k:", "v"),
        rewrite_line("k: something else", "k:", "v")
    );
}

fn by_std_lines(contents: &str, prefix: &str, update: &str) -> String {
    let lines: Vec<String> = contents
        .lines()
        .map(|line| match line.find(prefix) {
            Some(pos) => format!("{} {}", &line[..pos + prefix.len()], update),
            None => line.to_string(),
        })
        .collect();
    let mut out = lines.join("\n");
    out.push('\n');
    out
}

#[test]
fn agrees_with_std_line_splitting() {
    let inputs = [
        "",
        "\n",
        "\n\n",
        "a",
        "a\n",
        "a\r\n",
        "a\r",
        "a\r\r\n",
        "\r\n\r\n",
        "x: 1\r\nimage: y\nimage:z\r\n\nend",
        "äö image: ü\nimage:",
        "image: image: image:\n",
    ];
    for input in inputs {
        for prefix in ["image:", "", "\r", "ö"] {
            assert_eq!(
                rewrite_contents(input, prefix, "1.2"),
                by_std_lines(input, prefix, "1.2"),
                "input {input:?} prefix {prefix:?}"
            );
        }
    }
}

#[test]
fn second_rewrite_of_edited_text_changes_nothing() {
    let input = "stages: [build]\n  image: node:18 # pinned\nimage:\nscript: make\nimage: a image: b";
    let once = rewrite_contents(input, "image:", "2.0.1");
    assert_eq!(once, "stages: [build]\n  image: 2.0.1\nimage: 2.0.1\nscript: make\nimage: 2.0.1\n");
    assert_eq!(rewrite_contents(&once, "image:", "2.0.1"), once);
}
