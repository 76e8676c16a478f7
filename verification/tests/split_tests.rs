use paddle::split_keeping_delimiter::SplitKeepingDelimiterExt;

#[test]
fn split_with_delimiter() {
    let delims = &[',', ';'][..];
    let items: Vec<String> = "alpha,beta;gamma".split_keeping_delimiter(delims).collect_all();
    assert_eq!(&items, &["alpha", ",", "beta", ";", "gamma"]);
}

#[test]
fn split_with_delimiter_allows_consecutive_delimiters() {
    let delims = &[',', ';'][..];
    let items: Vec<String> = ",;".split_keeping_delimiter(delims).collect_all();
    assert_eq!(&items, &[",", ";"]);
}

#[test]
fn split_pieces_join_back_to_input() {
    let delims = &[' ', '(', ')'][..];
    let text = "(define (f x)  (+ x 1))";
    let items: Vec<String> = text.split_keeping_delimiter(delims).collect_all();
    assert_eq!(items.concat(), text);
    assert_eq!(items[0], "(");
    assert_eq!(items[1], "define");
}

#[test]
fn split_next_one_piece_at_a_time() {
    let delims = &['-'][..];
    let mut s = "ab-c".split_keeping_delimiter(delims);
    assert_eq!(s.next(), Some("ab".to_string()));
    assert_eq!(s.next(), Some("-".to_string()));
    assert_eq!(s.next(), Some("c".to_string()));
    assert_eq!(s.next(), None);
    assert_eq!(s.next(), None);
}

#[test]
fn split_empty_text_has_no_pieces() {
    let delims = &[','][..];
    let items: Vec<String> = "".split_keeping_delimiter(delims).collect_all();
    assert!(items.is_empty());
}
