use minishell::tokenizer::tokenize;

fn toks(line: &str) -> Vec<String> {
    tokenize(line)
}

fn strs(v: &[&str]) -> Vec<String> {
    v.iter().map(|s| s.to_string()).collect()
}

#[test]
fn plain_line_splits_on_runs_of_spaces() {
    assert_eq!(toks("  ls   -l  a  "), strs(&["ls", "-l", "a"]));
    assert_eq!(toks("one"), strs(&["one"]));
}

#[test]
fn empty_and_blank_lines_give_no_tokens() {
    assert_eq!(toks(""), strs(&[]));
    assert_eq!(toks("     "), strs(&[]));
}

#[test]
fn single_quotes_keep_spaces() {
    assert_eq!(toks("echo 'a b' c"), strs(&["echo", "a b", "c"]));
}

#[test]
fn backslash_quote_inside_double_quotes() {
    assert_eq!(toks("echo \"a\\\"b\""), strs(&["echo", "a\"b"]));
}

#[test]
fn backslash_space_outside_quotes() {
    assert_eq!(toks("echo a\\ b"), strs(&["echo", "a b"]));
}

#[test]
fn backslash_inside_single_quotes_is_literal() {
    assert_eq!(toks("echo 'a\\nb'"), strs(&["echo", "a\\nb"]));
}

#[test]
fn adjacent_quotes_splice() {
    assert_eq!(toks("echo \"a\"'b'c"), strs(&["echo", "abc"]));
}

#[test]
fn double_quotes_keep_other_backslashes() {
    assert_eq!(toks("\"a\\nb\""), strs(&["a\\nb"]));
    assert_eq!(toks("\"\\$x \\` \\\\\""), strs(&["$x ` \\"]));
}

#[test]
fn escaped_quote_outside_quotes() {
    assert_eq!(toks("a\\'b \\\"c"), strs(&["a'b", "\"c"]));
}

#[test]
fn single_quote_inside_double_quotes_is_literal() {
    assert_eq!(toks("\"it's\""), strs(&["it's"]));
}

#[test]
fn unterminated_quotes_close_at_end() {
    assert_eq!(toks("echo 'abc"), strs(&["echo", "abc"]));
    assert_eq!(toks("echo \"a b"), strs(&["echo", "a b"]));
    assert_eq!(toks("a\\"), strs(&["a"]));
    assert_eq!(toks("\"a\\"), strs(&["a"]));
}

#[test]
fn empty_quotes_give_no_token() {
    assert_eq!(toks("a '' b"), strs(&["a", "b"]));
}

#[test]
fn non_ascii_characters_pass_through() {
    assert_eq!(toks("héllo 'wörld  ü'"), strs(&["héllo", "wörld  ü"]));
}
