use rufi::export::Export;
use rufi::mailbox::{AsStates, Mailbox};
use rufi::mailbox_impl::MailboxFactory;
use rufi::mailbox::Messages;
use rufi::message::Message;
use rufi::path::Path;
use rufi::state::States;
use rufi::value::{Val, ValKind};

fn export_root(v: i32) -> Export {
    let mut export = Export::new();
    export.put(Path::new(), Val::Int(v));
    export
}

fn assert_same_message(actual: &Message, expected: &Message) {
    assert_eq!(actual.source, expected.source);
    assert_eq!(actual.timestamp, expected.timestamp);
    assert_eq!(actual.export, expected.export);
}

#[test]
fn message_test_new() {
    let export = export_root(1);
    let msg = Message::new(1, export.clone(), 1);
    assert_eq!(msg.source, 1);
    assert_eq!(msg.export, export);
}

#[test]
fn test_as_states() {
    let mut messages: Messages = Messages::new();
    let export_1 = export_root(1);
    let export_2 = export_root(2);
    let export_3 = export_root(3);
    messages.insert(1, Message::new(1, export_1.clone(), 1));
    messages.insert(2, Message::new(2, export_2.clone(), 2));
    messages.insert(3, Message::new(3, export_3.clone(), 3));

    let states: States = messages.as_states();
    assert_eq!(states.len(), 3);
    assert_eq!(states.get(1).unwrap(), &export_1);
    assert_eq!(states.get(2).unwrap(), &export_2);
    assert_eq!(states.get(3).unwrap(), &export_3);
}

#[test]
fn test_memory_less() {
    let mut mailbox = MailboxFactory::memory_less();
    let msg_2 = Message::new(2, export_root(2), 1);
    let msg_3 = Message::new(3, export_root(3), 2);
    mailbox.enqueue(msg_2.clone());
    mailbox.enqueue(msg_3.clone());
    let messages = mailbox.messages();
    assert_eq!(messages.len(), 2);
    assert_same_message(messages.get(2).unwrap(), &msg_2);
    assert_same_message(messages.get(3).unwrap(), &msg_3);

    // update the message of source 2
    let new_msg_2 = Message::new(2, export_root(2 + 2), 3);
    mailbox.enqueue(new_msg_2.clone());
    let messages = mailbox.messages();
    assert_eq!(messages.len(), 2);
    assert_same_message(messages.get(2).unwrap(), &new_msg_2);
    assert_same_message(messages.get(3).unwrap(), &msg_3);
}

#[test]
fn test_most_recent() {
    let mut mailbox = MailboxFactory::most_recent();

    // add the first round of messages
    let msg_2 = Message::new(2, export_root(2), 1);
    let msg_3 = Message::new(3, export_root(3), 2);
    mailbox.enqueue(msg_2.clone());
    mailbox.enqueue(msg_3.clone());

    // add the second round of messages
    let new_msg_2 = Message::new(2, export_root(2 + 2), 3);
    let new_msg_3 = Message::new(3, export_root(3 + 3), 4);
    mailbox.enqueue(new_msg_2.clone());
    mailbox.enqueue(new_msg_3.clone());

    // pop once
    let messages = mailbox.messages();
    assert_eq!(messages.len(), 2);
    assert_same_message(messages.get(2).unwrap(), &new_msg_2);
    assert_same_message(messages.get(3).unwrap(), &new_msg_3);

    // pop the second time
    let messages = mailbox.messages();
    assert_eq!(messages.len(), 2);
    assert_same_message(messages.get(2).unwrap(), &msg_2);
    assert_same_message(messages.get(3).unwrap(), &msg_3);

    // nothing left
    let messages = mailbox.messages();
    assert_eq!(messages.len(), 0);
}

#[test]
fn test_least_recent() {
    let mut mailbox = MailboxFactory::least_recent();

    // add the first round of messages
    let msg_2 = Message::new(2, export_root(2), 1);
    let msg_3 = Message::new(3, export_root(3), 2);
    mailbox.enqueue(msg_2.clone());
    mailbox.enqueue(msg_3.clone());

    // add the second round of messages
    let new_msg_2 = Message::new(2, export_root(2 + 2), 3);
    let new_msg_3 = Message::new(3, export_root(3 + 3), 4);
    mailbox.enqueue(new_msg_2.clone());
    mailbox.enqueue(new_msg_3.clone());

    // pop once
    let messages = mailbox.messages();
    assert_eq!(messages.len(), 2);
    assert_same_message(messages.get(2).unwrap(), &msg_2);
    assert_same_message(messages.get(3).unwrap(), &msg_3);

    // pop the second time
    let messages = mailbox.messages();
    assert_eq!(messages.len(), 2);
    assert_same_message(messages.get(2).unwrap(), &new_msg_2);
    assert_same_message(messages.get(3).unwrap(), &new_msg_3);
}

#[test]
fn test_same_timestamp_replaces() {
    let mut mailbox = MailboxFactory::most_recent();
    let msg_a = Message::new(2, export_root(1), 5);
    let msg_b = Message::new(2, export_root(9), 5);
    mailbox.enqueue(msg_a);
    mailbox.enqueue(msg_b.clone());
    let messages = mailbox.messages();
    assert_same_message(messages.get(2).unwrap(), &msg_b);
    let messages = mailbox.messages();
    assert_eq!(messages.len(), 0);
}

#[test]
fn test_memory_less_root_values() {
    // the stored exports read back by value
    let mut mailbox = MailboxFactory::memory_less();
    mailbox.enqueue(Message::new(9, export_root(42), 1));
    let messages = mailbox.messages();
    let msg = messages.get(9).unwrap();
    assert_eq!(msg.export.root(ValKind::Int), Val::Int(42));
}
