use arduino_build_util::tokenizer::{tokenize, join_tokens};

#[test]
fn splits_on_spaces() {
    let toks = tokenize("avr-gcc -c -DFOO file.c");
    assert_eq!(toks, vec!["avr-gcc", "-c", "-DFOO", "file.c"]);
}

#[test]
fn empty_input_gives_no_tokens() {
    assert_eq!(tokenize(""), Vec::<String>::new());
    assert_eq!(tokenize("   "), Vec::<String>::new());
}

#[test]
fn double_quotes_keep_inner_spaces() {
    let toks = tokenize("a \"b c\" d");
    assert_eq!(toks, vec!["a", "b c", "d"]);
}

#[test]
fn single_quotes_keep_inner_spaces() {
    let toks = tokenize("x '-DA -I/z' y");
    assert_eq!(toks, vec!["x", "-DA -I/z", "y"]);
}

#[test]
fn other_quote_inside_span_is_content() {
    let toks = tokenize("'a \"b' c");
    assert_eq!(toks, vec!["a \"b", "c"]);
}

#[test]
fn quote_after_content_is_ordinary() {
    // a quote that does not start a token opens no span
    let toks = tokenize("foo\"bar baz\"");
    assert_eq!(toks, vec!["foo\"bar", "baz\""]);
}

#[test]
fn quoted_content_is_preserved_verbatim() {
    // the quote delimiters are stripped; the content keeps even its
    // leading and trailing spaces
    let toks = tokenize("' a ' b");
    assert_eq!(toks, vec![" a ", "b"]);
}

#[test]
fn empty_quoted_token_is_discarded() {
    let toks = tokenize("'' x");
    assert_eq!(toks, vec!["x"]);
}

#[test]
fn closing_quote_ends_the_token() {
    let toks = tokenize("\"ab\"cd");
    assert_eq!(toks, vec!["ab", "cd"]);
}

#[test]
fn unterminated_quote_keeps_the_rest() {
    let toks = tokenize("a 'b c");
    assert_eq!(toks, vec!["a", "b c"]);
}

#[test]
fn round_trip_unquoted_tokens() {
    // joining whitespace-free unquoted tokens and re-tokenizing is the identity
    let tokens: Vec<String> = vec!["avr-gcc", "-c", "-DFOO", "-I/core", "x.c"]
        .into_iter()
        .map(|s| s.to_string())
        .collect();
    let joined = join_tokens(&tokens);
    assert_eq!(joined, "avr-gcc -c -DFOO -I/core x.c");
    assert_eq!(tokenize(joined.as_str()), tokens);
}

#[test]
fn round_trip_single_token() {
    let tokens: Vec<String> = vec!["one".to_string()];
    assert_eq!(tokenize(join_tokens(&tokens).as_str()), tokens);
}
