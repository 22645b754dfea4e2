use sqs_dispatch::command::substitute;
use sqs_dispatch::message::Message;

fn strings(items: &[&str]) -> Vec<String> {
    items.iter().map(|s| s.to_string()).collect()
}

#[test]
fn exec_substitution() {
    let exec = strings(&["/bin/echo", "{}.messageId", "prefix-{}.body"]);
    let message = Message::new(Some("m6".to_string()), Some("r6".to_string()), Some("hi".to_string()));
    let invocation = substitute(&exec, &message).expect("a program was named");
    assert_eq!(invocation.program, "/bin/echo");
    assert_eq!(invocation.args, strings(&["m6", "prefix-{}.body"]));
}

#[test]
fn body_token_is_replaced() {
    let exec = strings(&["run", "{}.body", "--id", "{}.messageId", "{}.body"]);
    let message = Message::new(Some("m".to_string()), None, Some("payload".to_string()));
    let invocation = substitute(&exec, &message).expect("a program was named");
    assert_eq!(invocation.program, "run");
    assert_eq!(invocation.args, strings(&["payload", "--id", "m", "payload"]));
}

#[test]
fn no_exec_no_invocation() {
    let message = Message::new(Some("m".to_string()), None, None);
    assert!(substitute(&Vec::new(), &message).is_none());
}

#[test]
fn program_alone_has_no_arguments() {
    let message = Message::new(None, None, None);
    let invocation = substitute(&strings(&["{}.body"]), &message).expect("a program was named");
    // The first token is the program, whatever it says.
    assert_eq!(invocation.program, "{}.body");
    assert!(invocation.args.is_empty());
}

#[test]
fn missing_parts_give_no_argument() {
    let exec = strings(&["run", "a", "{}.messageId", "b", "{}.body", "c"]);
    let message = Message::new(None, Some("r".to_string()), None);
    let invocation = substitute(&exec, &message).expect("a program was named");
    assert_eq!(invocation.args, strings(&["a", "b", "c"]));
}

#[test]
fn tokens_are_matched_whole_and_exactly() {
    let exec = strings(&["run", "{}.messageid", " {}.body", "{}.body ", "{}.messageId{}.body", "{}"]);
    let message = Message::new(Some("m".to_string()), None, Some("b".to_string()));
    let invocation = substitute(&exec, &message).expect("a program was named");
    assert_eq!(
        invocation.args,
        strings(&["{}.messageid", " {}.body", "{}.body ", "{}.messageId{}.body", "{}"])
    );
}
