use chat::client::Client;
use chat::clock::Timestamp;
use chat::protocol::{Action, ClientResult, Event};

type Conn = Client<&'static str>;

#[test]
fn the_first_line_is_the_nickname() {
    let client: Conn = Client::new(Some("alice".to_string()), "lobby");
    assert_eq!(client.nick(), "alice");
    assert_eq!(*client.channel(), "lobby");
}

#[test]
fn the_nickname_is_not_trimmed() {
    let client: Conn = Client::new(Some(" alice ".to_string()), "lobby");
    assert_eq!(client.nick(), " alice ");
}

#[test]
fn a_stream_that_ends_at_once_has_the_empty_nickname() {
    let client: Conn = Client::new(None, "lobby");
    assert_eq!(client.nick(), "");
    let empty: Conn = Client::new(Some(String::new()), "lobby");
    assert_eq!(empty.nick(), "");
}

#[test]
fn attach_reports_the_nickname_and_the_mailbox() {
    let client: Conn = Client::new(Some("alice".to_string()), "lobby");
    let event: Event<u8, u32> = client.attach(17);
    assert_eq!(event, Event::Client { nick: "alice".to_string(), sender: 17 });
}

#[test]
fn the_reader_trims_and_drops_empty_lines() {
    let client: Conn = Client::new(Some("alice".to_string()), "lobby");
    let event: Option<Event<u8, u32>> = client.reader("  hello there \r\n");
    assert_eq!(
        event,
        Some(Event::Message { nick: "alice".to_string(), msg: "hello there".to_string() })
    );
    let event: Option<Event<u8, u32>> = client.reader("");
    assert_eq!(event, None);
    let event: Option<Event<u8, u32>> = client.reader(" \t \n");
    assert_eq!(event, None);
    let event: Option<Event<u8, u32>> = client.reader("JOIN #dev\n");
    assert_eq!(
        event,
        Some(Event::Message { nick: "alice".to_string(), msg: "JOIN #dev".to_string() })
    );
}

#[test]
fn the_writer_hands_results_out() {
    let mut client: Conn = Client::new(Some("alice".to_string()), "lobby");
    let result = ClientResult::Message {
        time: Timestamp { seconds: 5, nanos: 6, offset: 0 },
        nick: "bob".to_string(),
        message: "hi".to_string(),
    };
    assert_eq!(client.writer(Action::Send(result.clone())), Some(result));
    assert_eq!(*client.channel(), "lobby");
    let result = ClientResult::CommandFailure { error: "E".to_string(), hint: "h".to_string() };
    assert_eq!(client.writer(Action::Send(result.clone())), Some(result));
}

#[test]
fn the_writer_rebinds_the_reader() {
    let mut client: Conn = Client::new(Some("alice".to_string()), "lobby");
    assert_eq!(client.writer(Action::Join("#dev")), None);
    assert_eq!(*client.channel(), "#dev");
    assert_eq!(client.nick(), "alice");
    assert_eq!(client.writer(Action::Join("#ops")), None);
    assert_eq!(*client.channel(), "#ops");
}

#[test]
fn depart_names_the_client() {
    let client: Conn = Client::new(Some("alice".to_string()), "lobby");
    let event: Event<u8, u32> = client.depart();
    assert_eq!(event, Event::Depart { nick: "alice".to_string() });
}

#[test]
fn results_clone_as_they_are() {
    let result = ClientResult::CommandSuccess { data: "KICKED!".to_string() };
    assert_eq!(result.clone(), result);
}
