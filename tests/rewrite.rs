use mdbook_spec::{admonition_fragment, expand_admonitions, expand_rule_references, rewrite};
use mdbook_spec::Spec;

fn rule(id: &str) -> String {
    format!(
        "<div class=\"rule\" id=\"{id}\"><a class=\"rule-link\" href=\"#{id}\">[{id}]</a></div>\n"
    )
}

#[test]
fn plain_text_is_unchanged() {
    let t = "# Title\n\nSome text with r[x] inside.\n> a quote\n> [!note] trailing\n";
    assert_eq!(rewrite(t), t);
    assert_eq!(rewrite(""), "");
    assert_eq!(rewrite("no newline at end"), "no newline at end");
}

#[test]
fn single_rule_line() {
    assert_eq!(rewrite("r[foo.bar]\n"), format!("{}\n", rule("foo.bar")));
    let out = rewrite("r[a-b]\n");
    assert_eq!(out.matches("a-b").count(), 3);
    assert_eq!(out.lines().filter(|l| l.starts_with("<div")).count(), 1);
}

#[test]
fn rule_line_without_line_break() {
    assert_eq!(rewrite("r[last]"), rule("last"));
}

#[test]
fn empty_rule_identifier() {
    assert_eq!(rewrite("r[]\n"), format!("{}\n", rule("")));
}

#[test]
fn near_rule_lines_are_kept() {
    for t in [" r[a]\n", "r[a] \n", "r[a]b]\n", "x r[a]\n", "r[a\n", "r[a]\r\n", "R[a]\n"] {
        assert_eq!(rewrite(t), t);
    }
}

#[test]
fn rule_identifier_is_not_escaped() {
    assert_eq!(rewrite("r[a\"<b>]\n"), format!("{}\n", rule("a\"<b>")));
}

#[test]
fn rewrite_twice_is_rewrite_once() {
    for t in [
        "r[a]\ntext\n> [!Warning]\n> one\n> two\nafter\n",
        "> [!tip]\n",
        "  > [!NOTE]\n  > x\nr[b]\n",
        "plain\n",
    ] {
        let once = rewrite(t);
        assert_eq!(rewrite(&once), once);
    }
}

#[test]
fn warning_block() {
    let t = "> [!warning]\n> line one\n> line two\n";
    assert_eq!(rewrite(t), "<div class=\"warning\">\n\n> line one\n> line two\n\n</div>\n");
}

#[test]
fn rule_line_before_admonition() {
    let t = "r[foo]\n> [!note]\n> body\n";
    let expected = format!("{}\n<div class=\"note\">\n\n> body\n\n</div>\n", rule("foo"));
    assert_eq!(rewrite(t), expected);
}

#[test]
fn admonition_without_quoted_line() {
    for t in ["> [!tip]\n", "> [!tip]", "> [!tip]\ntext\n", "> [!tip]\n>\n", "> [!tip]\n> no newline"] {
        assert_eq!(rewrite(t), t);
    }
}

#[test]
fn two_rule_lines() {
    assert_eq!(rewrite("r[a]\nr[b]\n"), format!("{}\n{}\n", rule("a"), rule("b")));
}

#[test]
fn label_is_lowercased() {
    let t = "> [!WARNING]\n> Careful\n";
    assert_eq!(rewrite(t), "<div class=\"warning\">\n\n> Careful\n\n</div>\n");
    let t = "> [!ÄrgER]\n> x\n";
    assert_eq!(rewrite(t), "<div class=\"ärger\">\n\n> x\n\n</div>\n");
}

#[test]
fn empty_label() {
    assert_eq!(rewrite("> [!]\n> x\n"), "<div class=\"\">\n\n> x\n\n</div>\n");
}

#[test]
fn indented_block_keeps_quoted_lines() {
    let t = "intro\n  > [!Note]\n  > a\n > b\nrest\n";
    assert_eq!(rewrite(t), "intro\n<div class=\"note\">\n\n  > a\n > b\n\n</div>\nrest\n");
}

#[test]
fn block_takes_following_quoted_lines_greedily() {
    let t = "> [!a]\n> [!b]\n> x\n";
    assert_eq!(rewrite(t), "<div class=\"a\">\n\n> [!b]\n> x\n\n</div>\n");
}

#[test]
fn last_quoted_line_needs_line_break() {
    let t = "> [!note]\n> a\n> b";
    assert_eq!(rewrite(t), "<div class=\"note\">\n\n> a\n\n</div>\n> b");
}

#[test]
fn rule_line_inside_quote_is_expanded_first() {
    let t = "> [!note]\nr[x]\n> y\n";
    assert_eq!(rewrite(t), format!("> [!note]\n{}\n> y\n", rule("x")));
}

#[test]
fn passes_alone() {
    assert_eq!(expand_rule_references("r[a]\n> [!x]\n> y\n"), format!("{}\n> [!x]\n> y\n", rule("a")));
    assert_eq!(expand_admonitions("r[a]\n> [!X]\n> y\n"), "r[a]\n<div class=\"x\">\n\n> y\n\n</div>\n");
}

#[test]
fn fragment_of_admonition() {
    assert_eq!(admonition_fragment("tip", "> a\n"), "<div class=\"tip\">\n\n> a\n\n</div>\n");
}

#[test]
fn preprocessor_name() {
    let s = Spec::new();
    assert_eq!(s.name(), "nop-preprocessor");
}
