use chat::channel::{Channel, Outbound, Reaction};
use chat::client::Client;
use chat::clock::Timestamp;
use chat::irc::{Routing, IRC};
use chat::protocol::{Action, ClientResult, Command, Event, Settings};

type Tx = &'static str;
type Room = Channel<u32, Tx>;
type Out = Outbound<u32, Tx>;

fn at() -> Timestamp {
    Timestamp { seconds: 1_700_000_000, nanos: 0, offset: 0 }
}

fn sent(room: &mut Room, event: Event<u8, u32>) -> Vec<Out> {
    match room.broker_at(event, at()) {
        Reaction::Send(out) => out,
        Reaction::Spawn(_) => panic!("a stream"),
    }
}

fn snapshot_of(out: &[Out]) -> serde_json::Value {
    match &out[1] {
        Outbound::Member { action: Action::Send(ClientResult::CommandSuccess { data }), .. } => {
            serde_json::from_str(data).unwrap()
        }
        other => panic!("{:?}", other),
    }
}

fn users_of(snapshot: &serde_json::Value) -> Vec<String> {
    snapshot["users"].as_array().unwrap().iter().map(|u| u.as_str().unwrap().to_string()).collect()
}

#[test]
fn alice_and_bob() {
    let (mut hub, mut lobby): (IRC<Tx>, Room) = IRC::start("hub", "lobby", Settings::default());

    // alice connects and sends her nickname
    let stream: Event<u8, u32> = IRC::<Tx>::connection(1);
    let to_lobby: Routing<u8, u32, Tx> = hub.broker(stream, "spare");
    let event = match to_lobby {
        Routing::Forward { channel, event } => {
            assert_eq!(channel, "HALL");
            event
        }
        other => panic!("{:?}", other),
    };
    assert_eq!(lobby.broker_at(event, at()), Reaction::Spawn(1));
    let mut alice: Client<Tx> = Client::new(Some("alice".to_string()), "lobby");
    let out = sent(&mut lobby, alice.attach(100));
    assert_eq!(out[0], Outbound::Member { nick: "alice".to_string(), action: Action::Join("lobby") });
    let snapshot = snapshot_of(&out);
    assert_eq!(snapshot["name"].as_str(), Some("HALL"));
    assert_eq!(snapshot["admin"].as_str(), Some("SERVER"));
    assert_eq!(snapshot["capacity"].as_u64(), Some(5));
    assert_eq!(snapshot["topic"].as_str(), Some("Default Topic of the Channel."));
    assert_eq!(users_of(&snapshot), vec!["alice"]);
    assert_eq!(alice.writer(Action::Join("lobby")), None);

    // bob connects similarly
    let mut bob: Client<Tx> = Client::new(Some("bob".to_string()), "lobby");
    let out = sent(&mut lobby, bob.attach(200));
    assert_eq!(users_of(&snapshot_of(&out)), vec!["alice", "bob"]);
    assert_eq!(lobby.nicks(), vec!["alice", "bob"]);

    // alice sends hello: bob receives it, alice receives nothing
    let line = alice.reader("hello\n").unwrap();
    let out = sent(&mut lobby, line);
    assert_eq!(
        out,
        vec![Outbound::Member {
            nick: "bob".to_string(),
            action: Action::Send(ClientResult::Message {
                time: at(),
                nick: "alice".to_string(),
                message: "hello".to_string(),
            }),
        }]
    );
    assert_eq!(lobby.mailbox(&"bob".to_string()), Some(&200));

    // bob sends JOIN #dev: he leaves the lobby, #dev is made with him as admin
    let line = bob.reader("JOIN #dev\n").unwrap();
    let mut out = sent(&mut lobby, line);
    assert_eq!(lobby.nicks(), vec!["alice"]);
    assert_eq!(out.len(), 1);
    let command = match out.pop().unwrap() {
        Outbound::Hub(command) => command,
        other => panic!("{:?}", other),
    };
    assert_eq!(
        command,
        Command::Join { nick: "bob".to_string(), channel: "#dev".to_string(), sender: 200 }
    );
    let made: Routing<u8, u32, Tx> = hub.broker(Event::Command(command), "dev");
    let (mut dev, event) = match made {
        Routing::Open { opened, event } => (opened, event),
        other => panic!("{:?}", other),
    };
    assert_eq!(dev.info().name, "#dev");
    assert_eq!(dev.info().admin, "bob");
    let out = sent(&mut dev, event);
    assert_eq!(out[0], Outbound::Member { nick: "bob".to_string(), action: Action::Join("dev") });
    assert_eq!(users_of(&snapshot_of(&out)), vec!["bob"]);
    assert_eq!(dev.nicks(), vec!["bob"]);
    assert_eq!(dev.mailbox(&"bob".to_string()), Some(&200));
    assert_eq!(bob.writer(Action::Join("dev")), None);
    assert_eq!(*bob.channel(), "dev");
    assert_eq!(hub.names(), vec!["HALL", "#dev"]);

    // alice kicks bob in the lobby, where he is no more
    let line = alice.reader("KICK bob\n").unwrap();
    let out = sent(&mut lobby, line);
    assert_eq!(
        out,
        vec![Outbound::Member {
            nick: "alice".to_string(),
            action: Action::Send(ClientResult::CommandFailure {
                error: "USER_NOT_FOUND_ERROR".to_string(),
                hint: "USER DOES NOT EXIST!".to_string(),
            }),
        }]
    );
    assert_eq!(lobby.nicks(), vec!["alice"]);
    assert_eq!(dev.nicks(), vec!["bob"]);
}

#[test]
fn no_nickname_is_in_two_channels() {
    let (mut hub, mut lobby): (IRC<Tx>, Room) = IRC::start("hub", "lobby", Settings::default());
    let mut rooms: Vec<Room> = Vec::new();
    for (i, nick) in ["a", "b", "c", "d"].iter().enumerate() {
        sent(&mut lobby, Event::Client { nick: nick.to_string(), sender: i as u32 });
    }
    for (nick, target) in [("a", "#x"), ("b", "#y"), ("c", "#x"), ("a", "#y")] {
        let line = Event::Message { nick: nick.to_string(), msg: format!("JOIN {}", target) };
        let mut handed = sent(&mut lobby, line);
        for room in rooms.iter_mut() {
            let line = Event::Message { nick: nick.to_string(), msg: format!("JOIN {}", target) };
            handed.extend(sent(room, line));
        }
        for item in handed {
            let command = match item {
                Outbound::Hub(command) => command,
                other => panic!("{:?}", other),
            };
            let route: Routing<u8, u32, Tx> = hub.broker(Event::Command(command), "spare");
            match route {
                Routing::Open { mut opened, event } => {
                    sent(&mut opened, event);
                    rooms.push(opened);
                }
                Routing::Forward { channel, event } => {
                    let room = rooms.iter_mut().find(|r| r.info().name == channel).unwrap();
                    sent(room, event);
                }
                Routing::Ignore => panic!("ignored"),
            }
        }
        let mut all: Vec<String> = lobby.nicks();
        for room in rooms.iter() {
            all.extend(room.nicks());
        }
        let mut once = all.clone();
        once.sort();
        once.dedup();
        assert_eq!(once.len(), all.len());
        assert_eq!(all.len(), 4);
    }
    assert_eq!(lobby.nicks(), vec!["d"]);
    assert_eq!(rooms[0].nicks(), vec!["c"]);
    assert_eq!(rooms[1].nicks(), vec!["b", "a"]);
    assert_eq!(hub.names(), vec!["HALL", "#x", "#y"]);
}

#[test]
fn a_join_round_trip_moves_the_talk() {
    let (mut hub, mut lobby): (IRC<Tx>, Room) = IRC::start("hub", "lobby", Settings::default());
    for (i, nick) in ["alice", "bob", "carol"].iter().enumerate() {
        sent(&mut lobby, Event::Client { nick: nick.to_string(), sender: i as u32 });
    }
    let mut dev: Option<Room> = None;
    for nick in ["bob", "carol"] {
        let mut out =
            sent(&mut lobby, Event::Message { nick: nick.to_string(), msg: "JOIN #dev".to_string() });
        let command = match out.pop().unwrap() {
            Outbound::Hub(command) => command,
            other => panic!("{:?}", other),
        };
        let route: Routing<u8, u32, Tx> = hub.broker(Event::Command(command), "dev");
        match route {
            Routing::Open { mut opened, event } => {
                sent(&mut opened, event);
                dev = Some(opened);
            }
            Routing::Forward { channel, event } => {
                assert_eq!(channel, "#dev");
                sent(dev.as_mut().unwrap(), event);
            }
            Routing::Ignore => panic!("ignored"),
        }
    }
    let mut dev = dev.unwrap();
    assert_eq!(lobby.nicks(), vec!["alice"]);
    assert_eq!(dev.nicks(), vec!["bob", "carol"]);
    assert_eq!(dev.mailbox(&"carol".to_string()), Some(&2));
    let out = sent(&mut dev, Event::Message { nick: "bob".to_string(), msg: "hi dev".to_string() });
    assert_eq!(out.len(), 1);
    match &out[0] {
        Outbound::Member { nick, .. } => assert_eq!(nick, "carol"),
        other => panic!("{:?}", other),
    }
}

#[test]
fn two_clients_of_one_nickname_keep_their_mailboxes_apart() {
    let (mut hub, mut lobby): (IRC<Tx>, Room) = IRC::start("hub", "lobby", Settings::default());
    sent(&mut lobby, Event::Client { nick: "alice".to_string(), sender: 1 });
    let mut out =
        sent(&mut lobby, Event::Message { nick: "alice".to_string(), msg: "JOIN #dev".to_string() });
    let command = match out.pop().unwrap() {
        Outbound::Hub(command) => command,
        other => panic!("{:?}", other),
    };
    let route: Routing<u8, u32, Tx> = hub.broker(Event::Command(command), "dev");
    let mut dev = match route {
        Routing::Open { mut opened, event } => {
            sent(&mut opened, event);
            opened
        }
        other => panic!("{:?}", other),
    };
    // a second connection under the same nickname, with a mailbox of its own
    let out = sent(&mut lobby, Event::Client { nick: "alice".to_string(), sender: 2 });
    assert_eq!(out.len(), 2);
    assert_eq!(lobby.nicks(), vec!["alice"]);
    assert_eq!(dev.nicks(), vec!["alice"]);
    assert_eq!(lobby.mailbox(&"alice".to_string()), Some(&2));
    assert_eq!(dev.mailbox(&"alice".to_string()), Some(&1));
    // the second one cannot follow the first: the nickname is taken there
    let mut out =
        sent(&mut lobby, Event::Message { nick: "alice".to_string(), msg: "JOIN #dev".to_string() });
    let command = match out.pop().unwrap() {
        Outbound::Hub(command) => command,
        other => panic!("{:?}", other),
    };
    let route: Routing<u8, u32, Tx> = hub.broker(Event::Command(command), "spare");
    match route {
        Routing::Forward { channel, event } => {
            assert_eq!(channel, "#dev");
            let out = sent(&mut dev, event);
            assert_eq!(
                out,
                vec![Outbound::Mailbox {
                    sender: 2,
                    action: Action::Send(ClientResult::CommandFailure {
                        error: "NICKNAME_IN_USE_ERROR".to_string(),
                        hint: "The channel has a member of that nickname.".to_string(),
                    }),
                }]
            );
        }
        other => panic!("{:?}", other),
    }
    assert!(lobby.nicks().is_empty());
    assert_eq!(dev.mailbox(&"alice".to_string()), Some(&1));
}
