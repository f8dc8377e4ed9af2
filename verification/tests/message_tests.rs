use chat_relay::messages::chat_message;
use chat_relay::messages::join_message;
use chat_relay::messages::leave_message;
use chat_relay::messages::name_from_reply;
use chat_relay::messages::prompt_message;

#[test]
fn prompt_asks_for_username() {
    assert_eq!(prompt_message(), b"What is your Username".to_vec());
}

#[test]
fn join_notification_exact() {
    assert_eq!(
        join_message(&b"alice".to_vec()),
        b"alice has joined the chat".to_vec()
    );
}

#[test]
fn leave_notification_exact() {
    assert_eq!(
        leave_message(&b"alice".to_vec()),
        b"alice has left the chat".to_vec()
    );
}

#[test]
fn chat_line_exact() {
    assert_eq!(
        chat_message(&b"alice".to_vec(), &b"hi".to_vec()),
        b"alice: hi".to_vec()
    );
}

#[test]
fn chat_line_with_empty_payload() {
    assert_eq!(chat_message(&b"bob".to_vec(), &Vec::new()), b"bob: ".to_vec());
}

#[test]
fn missing_reply_means_empty_name() {
    assert_eq!(name_from_reply(None), Vec::<u8>::new());
    assert_eq!(name_from_reply(Some(b"carol".to_vec())), b"carol".to_vec());
}
