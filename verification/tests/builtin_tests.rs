use crusty::builtins::echo::echo;

#[test]
fn echo_joins_arguments_with_spaces() {
    let args = vec!["hello".to_string(), "world".to_string()];
    assert_eq!(echo(&args), "hello world ");
}

#[test]
fn echo_of_nothing_is_empty() {
    let args: Vec<String> = Vec::new();
    assert_eq!(echo(&args), "");
}

#[test]
fn echo_keeps_argument_order() {
    let args = vec!["c".to_string(), "a".to_string(), "b".to_string()];
    assert_eq!(echo(&args), "c a b ");
}
