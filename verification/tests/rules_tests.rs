use dockerignore::dockerignore::DockerIgnore;

fn ruleset(lines: &[&str]) -> DockerIgnore {
    let owned: Vec<String> = lines.iter().map(|s| String::from(*s)).collect();
    DockerIgnore::from_lines(&owned)
}

#[test]
fn plain_rule_ignores_matching_path() {
    let di = ruleset(&["*.log"]);
    assert!(di.check_path_ignored("a.log"));
    assert!(!di.check_path_ignored("b.txt"));
}

#[test]
fn last_matching_rule_wins() {
    let di = ruleset(&["*.log", "!keep.log"]);
    assert!(di.check_path_ignored("a.log"));
    assert!(!di.check_path_ignored("keep.log"));

    let reversed = ruleset(&["!keep.log", "*.log"]);
    assert!(reversed.check_path_ignored("keep.log"));
}

#[test]
fn negation_alone_does_not_ignore() {
    let di = ruleset(&["!keep.log"]);
    assert!(!di.check_path_ignored("keep.log"));
    assert!(!di.check_path_ignored("other.log"));
}

#[test]
fn no_matching_rule_means_not_ignored() {
    let empty = ruleset(&[]);
    assert!(!empty.check_path_ignored("anything"));

    let di = ruleset(&["*.log", "build"]);
    assert!(!di.check_path_ignored("src"));
}

#[test]
fn comment_lines_never_influence() {
    let di = ruleset(&["#a.log"]);
    assert!(!di.check_path_ignored("a.log"));
    assert!(!di.check_path_ignored("#a.log"));

    let with_comment = ruleset(&["*.log", "#!keep.log"]);
    assert!(with_comment.check_path_ignored("keep.log"));
}

#[test]
fn invalid_pattern_is_inert_and_load_succeeds() {
    let di = ruleset(&["["]);
    assert_eq!(di.lines.len(), 1);
    assert!(di.lines[0].pattern.is_none());
    assert!(!di.check_path_ignored("["));
    assert!(!di.check_path_ignored("anything"));

    let mixed = ruleset(&["*.log", "[", "!keep.log"]);
    assert!(mixed.check_path_ignored("a.log"));
    assert!(!mixed.check_path_ignored("keep.log"));
}

#[test]
fn line_fields_follow_the_file() {
    let di = ruleset(&["*.log", "#note", "!keep.log", ""]);
    assert_eq!(di.lines.len(), 4);
    assert_eq!(di.lines[0].lineno, 1);
    assert_eq!(di.lines[3].lineno, 4);
    assert!(!di.lines[0].is_comment);
    assert!(!di.lines[0].is_negate);
    assert!(di.lines[1].is_comment);
    assert!(!di.lines[1].is_negate);
    assert!(!di.lines[2].is_comment);
    assert!(di.lines[2].is_negate);
    assert_eq!(di.lines[2].string, "!keep.log");
    assert!(!di.lines[3].is_comment);
    assert!(!di.lines[3].is_negate);
}

#[test]
fn empty_line_matches_nothing_but_empty() {
    let di = ruleset(&[""]);
    assert!(!di.check_path_ignored("a"));
    assert!(di.check_path_ignored(""));
}

#[test]
fn glob_metacharacters_reach_the_matcher() {
    let di = ruleset(&["a?c"]);
    assert!(di.check_path_ignored("abc"));
    assert!(!di.check_path_ignored("abcd"));

    let range = ruleset(&["[ab]one"]);
    assert!(range.check_path_ignored("aone"));
    assert!(range.check_path_ignored("bone"));
    assert!(!range.check_path_ignored("cone"));
}

#[test]
fn directory_rule_decides_at_the_directory() {
    // The rule marks the directory itself; files beneath it match no rule,
    // so only directory-level pruning keeps them out of the output.
    let di = ruleset(&["build"]);
    assert!(di.check_path_ignored("build"));
    assert!(!di.check_path_ignored("build/deep/inner.txt"));
}

#[test]
fn negated_pattern_strips_only_the_bang() {
    let di = ruleset(&["!!x"]);
    assert!(!di.check_path_ignored("x"));
    let direct = ruleset(&["!x", "x"]);
    assert!(direct.check_path_ignored("x"));
}
