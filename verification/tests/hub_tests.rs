use chat::channel::Channel;
use chat::irc::{Routing, IRC};
use chat::protocol::{Command, Event, Settings};

type Hub = IRC<&'static str>;
type Room = Channel<u32, &'static str>;
type Route = Routing<u8, u32, &'static str>;

fn started() -> (Hub, Room) {
    IRC::start("hub", "lobby", Settings::default())
}

fn ask(nick: &str, channel: &str, sender: u32) -> Event<u8, u32> {
    Event::Command(Command::Join {
        nick: nick.to_string(),
        channel: channel.to_string(),
        sender,
    })
}

#[test]
fn the_hub_starts_with_the_lobby() {
    let (hub, lobby) = started();
    assert_eq!(hub.names(), vec!["HALL"]);
    assert_eq!(hub.mailbox(&"HALL".to_string()), Some(&"lobby"));
    assert_eq!(hub.mailbox(&"#dev".to_string()), None);
    assert_eq!(*hub.sender(), "hub");
    assert_eq!(lobby.info().name, "HALL");
    assert_eq!(lobby.info().admin, "SERVER");
    assert_eq!(lobby.info().capacity, 5);
    assert_eq!(lobby.info().topic, "Default Topic of the Channel.");
    assert_eq!(*lobby.sender(), "lobby");
    assert_eq!(*lobby.irc_sender(), "hub");
    assert!(lobby.nicks().is_empty());
}

#[test]
fn the_lobby_goes_by_the_settings() {
    let mut settings = Settings::default();
    settings.hall = "#lounge".to_string();
    settings.hall_admin = "root".to_string();
    settings.max_clients = 2;
    settings.default_topic = "Welcome".to_string();
    let (mut hub, lobby): (Hub, Room) = IRC::start("hub", "lounge", settings);
    assert_eq!(hub.names(), vec!["#lounge"]);
    assert_eq!(lobby.info().name, "#lounge");
    assert_eq!(lobby.info().admin, "root");
    assert_eq!(lobby.info().capacity, 2);
    assert_eq!(lobby.info().topic, "Welcome");
    let back: Route = hub.join("alice".to_string(), "#lounge".to_string(), 1, "spare");
    match back {
        Routing::Forward { channel, event } => {
            assert_eq!(channel, "#lounge");
            assert_eq!(event, Event::Client { nick: "alice".to_string(), sender: 1 });
        }
        other => panic!("{:?}", other),
    }
    let made: Route = hub.join("alice".to_string(), "#dev".to_string(), 1, "spare");
    match made {
        Routing::Open { opened, .. } => {
            assert_eq!(opened.info().capacity, 2);
            assert_eq!(opened.info().topic, "Welcome");
        }
        other => panic!("{:?}", other),
    }
}

#[test]
fn connection_wraps_the_stream() {
    let event: Event<u8, u32> = Hub::connection(9);
    assert_eq!(event, Event::Connection(9));
}

#[test]
fn a_stream_goes_on_to_the_lobby() {
    let (mut hub, _lobby) = started();
    let route: Route = hub.broker(Event::Connection(4), "spare");
    match route {
        Routing::Forward { channel, event } => {
            assert_eq!(channel, "HALL");
            assert_eq!(event, Event::Connection(4));
        }
        other => panic!("{:?}", other),
    }
    assert_eq!(hub.names(), vec!["HALL"]);
}

#[test]
fn a_join_to_a_new_name_makes_the_channel() {
    let (mut hub, _lobby) = started();
    let route: Route = hub.join("bob".to_string(), "#dev".to_string(), 2, "dev");
    match route {
        Routing::Open { opened, event } => {
            assert_eq!(opened.info().name, "#dev");
            assert_eq!(opened.info().admin, "bob");
            assert_eq!(opened.info().capacity, 5);
            assert_eq!(opened.info().topic, "Default Topic of the Channel.");
            assert_eq!(*opened.sender(), "dev");
            assert_eq!(*opened.irc_sender(), "hub");
            assert!(opened.nicks().is_empty());
            assert_eq!(event, Event::Client { nick: "bob".to_string(), sender: 2 });
        }
        other => panic!("{:?}", other),
    }
    assert_eq!(hub.names(), vec!["HALL", "#dev"]);
    assert_eq!(hub.mailbox(&"#dev".to_string()), Some(&"dev"));
}

#[test]
fn a_second_join_finds_the_channel() {
    let (mut hub, _lobby) = started();
    let first: Route = hub.join("bob".to_string(), "#dev".to_string(), 2, "dev");
    let mut room = match first {
        Routing::Open { opened, event } => {
            let mut room = opened;
            let _: chat::channel::Reaction<u8, u32, &'static str> = room.broker(event);
            room
        }
        other => panic!("{:?}", other),
    };
    let second: Route = hub.join("carol".to_string(), "#dev".to_string(), 3, "other");
    match second {
        Routing::Forward { channel, event } => {
            assert_eq!(channel, "#dev");
            assert_eq!(event, Event::Client { nick: "carol".to_string(), sender: 3 });
            let _: chat::channel::Reaction<u8, u32, &'static str> = room.broker(event);
        }
        other => panic!("{:?}", other),
    }
    assert_eq!(hub.names(), vec!["HALL", "#dev"]);
    assert_eq!(hub.mailbox(&"#dev".to_string()), Some(&"dev"));
    assert_eq!(room.nicks(), vec!["bob", "carol"]);
    assert_eq!(room.info().admin, "bob");
}

#[test]
fn channel_names_are_case_sensitive() {
    let (mut hub, _lobby) = started();
    let _: Route = hub.join("bob".to_string(), "#dev".to_string(), 2, "dev");
    let other: Route = hub.join("carol".to_string(), "#Dev".to_string(), 3, "Dev");
    assert!(matches!(other, Routing::Open { .. }));
    assert_eq!(hub.names(), vec!["HALL", "#dev", "#Dev"]);
}

#[test]
fn run_command_joins() {
    let (mut hub, _lobby) = started();
    let route: Route = hub.run_command(
        Command::Join { nick: "bob".to_string(), channel: "&x".to_string(), sender: 2 },
        "x",
    );
    assert!(matches!(route, Routing::Open { .. }));
    let route: Route = hub.run_command(
        Command::Join { nick: "bob".to_string(), channel: "&x".to_string(), sender: 2 },
        "y",
    );
    assert!(matches!(route, Routing::Forward { .. }));
    assert_eq!(hub.mailbox(&"&x".to_string()), Some(&"x"));
}

#[test]
fn the_hub_ignores_what_is_not_for_it() {
    let (mut hub, _lobby) = started();
    let route: Route =
        hub.broker(Event::Message { nick: "a".to_string(), msg: "JOIN #x".to_string() }, "s");
    assert!(matches!(route, Routing::Ignore));
    let route: Route = hub.broker(Event::Client { nick: "a".to_string(), sender: 1 }, "s");
    assert!(matches!(route, Routing::Ignore));
    let route: Route = hub.broker(Event::Depart { nick: "a".to_string() }, "s");
    assert!(matches!(route, Routing::Ignore));
    assert_eq!(hub.names(), vec!["HALL"]);
    let route: Route = hub.broker(ask("a", "#x", 1), "x");
    assert!(matches!(route, Routing::Open { .. }));
    assert_eq!(hub.names(), vec!["HALL", "#x"]);
}
