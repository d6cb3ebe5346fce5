use editor_backend::files::{read_reply, write_reply};

#[test]
fn read_reply_returns_the_file_text() {
    let text = String::from("first line\nsecond line\n");
    assert_eq!(read_reply(Some(text.clone())), text);
}

#[test]
fn read_reply_is_empty_on_failure() {
    assert_eq!(read_reply(None), "");
}

#[test]
fn read_reply_of_an_empty_file_is_empty() {
    assert_eq!(read_reply(Some(String::new())), "");
}

#[test]
fn write_reply_succeeds_after_a_write() {
    assert_eq!(write_reply(true), Ok(()));
}

#[test]
fn write_reply_fails_without_a_message() {
    assert_eq!(write_reply(false), Err(String::new()));
}
