use ecstasy::sexpr::{needs_quoting, Value};

#[test]
fn symbols_and_lists() {
    assert_eq!(Value::Sym("abc".to_string()).to_text(), "abc");
    assert_eq!(Value::Sym(String::new()).to_text(), "||");
    assert_eq!(Value::Sym("a b".to_string()).to_text(), "|a\\ b|");
    assert_eq!(Value::Sym("(x|y)\\".to_string()).to_text(), "|\\(x\\|y\\)\\\\|");
    assert_eq!(Value::List(vec![]).to_text(), "()");
    let v = Value::List(vec![
        Value::Sym("define".to_string()),
        Value::List(vec![Value::Sym("f".to_string()), Value::Sym("x".to_string())]),
        Value::Sym("hello world".to_string()),
    ]);
    assert_eq!(v.to_text(), "(define (f x) |hello\\ world|)");
}

#[test]
fn quoting_characters() {
    for c in [' ', '\t', '\n', '(', ')', '|', '\\', '\u{3000}', '\u{a0}'] {
        assert!(needs_quoting(c), "{:?}", c);
    }
    for c in ['a', 'Z', '0', '-', '"', 'é'] {
        assert!(!needs_quoting(c), "{:?}", c);
    }
}
