use chat::channels::{list, Channel, Channels, Delivery};

fn room_of(capacity: usize, nicks: &[&str]) -> Channel<u32> {
    let mut room = Channel::new("#dev".to_string(), capacity);
    for (i, nick) in nicks.iter().enumerate() {
        assert_eq!(room.insert(nick.to_string(), i as u32), Ok(()));
    }
    room
}

fn copy(nick: &str, msg: &str) -> Delivery {
    Delivery { nick: nick.to_string(), msg: msg.to_string() }
}

#[test]
fn a_new_room_is_empty() {
    let room: Channel<u32> = Channel::new("#dev".to_string(), 3);
    assert_eq!(room.name(), "#dev");
    assert!(room.nicks().is_empty());
    assert_eq!(room.writer(&"alice".to_string()), None);
}

#[test]
fn insert_lets_in_up_to_the_capacity() {
    let mut room = room_of(2, &["alice", "bob"]);
    assert_eq!(room.insert("carol".to_string(), 9), Err(()));
    assert_eq!(room.nicks(), vec!["alice", "bob"]);
    assert_eq!(room.writer(&"bob".to_string()), Some(&1));
    assert_eq!(room.writer(&"carol".to_string()), None);
}

#[test]
fn insert_refuses_a_taken_nickname() {
    let mut room = room_of(5, &["alice"]);
    assert_eq!(room.insert("alice".to_string(), 9), Err(()));
    assert_eq!(room.nicks(), vec!["alice"]);
    assert_eq!(room.writer(&"alice".to_string()), Some(&0));
}

#[test]
fn send_copies_for_the_others() {
    let room = room_of(5, &["alice", "bob", "carol"]);
    assert_eq!(
        room.send("alice".to_string(), "hi".to_string()),
        vec![copy("bob", "hi"), copy("carol", "hi")]
    );
    assert_eq!(
        room.send("carol".to_string(), "yo".to_string()),
        vec![copy("alice", "yo"), copy("bob", "yo")]
    );
}

#[test]
fn send_of_a_stranger_copies_nothing() {
    let room = room_of(5, &["alice", "bob"]);
    assert_eq!(room.send("mallory".to_string(), "hi".to_string()), vec![]);
    let alone = room_of(5, &["alice"]);
    assert_eq!(alone.send("alice".to_string(), "hi".to_string()), vec![]);
}

#[test]
fn remove_returns_the_writer() {
    let mut room = room_of(5, &["alice", "bob"]);
    assert_eq!(room.remove("alice".to_string()), Some(0));
    assert_eq!(room.remove("alice".to_string()), None);
    assert_eq!(room.nicks(), vec!["bob"]);
    assert_eq!(room.insert("alice".to_string(), 5), Ok(()));
    assert_eq!(room.nicks(), vec!["bob", "alice"]);
}

#[test]
fn list_joins_with_comma_and_space() {
    assert_eq!(list(&vec![]), "");
    assert_eq!(list(&vec!["alice".to_string()]), "alice");
    assert_eq!(list(&vec!["alice".to_string(), "bob".to_string(), "c".to_string()]), "alice, bob, c");
}

#[test]
fn join_finds_the_room_by_name() {
    let mut rooms: Channels<u32> = Channels::new();
    rooms.insert("#a".to_string(), 2);
    rooms.insert("#b".to_string(), 2);
    assert_eq!(rooms.join("#b".to_string(), "alice".to_string(), 1), Some("alice".to_string()));
    assert_eq!(rooms.join("#b".to_string(), "bob".to_string(), 2), Some("alice, bob".to_string()));
    assert_eq!(rooms.join("#a".to_string(), "bob".to_string(), 3), Some("bob".to_string()));
}

#[test]
fn join_returns_nothing_where_it_cannot() {
    let mut rooms: Channels<u32> = Channels::new();
    assert_eq!(rooms.join("#a".to_string(), "alice".to_string(), 1), None);
    rooms.insert("#a".to_string(), 1);
    assert_eq!(rooms.join("#b".to_string(), "alice".to_string(), 1), None);
    assert_eq!(rooms.join("#a".to_string(), "alice".to_string(), 1), Some("alice".to_string()));
    assert_eq!(rooms.join("#a".to_string(), "alice".to_string(), 2), None);
    assert_eq!(rooms.join("#a".to_string(), "bob".to_string(), 2), None);
}

#[test]
fn the_first_room_of_a_name_answers() {
    let mut rooms: Channels<u32> = Channels::new();
    rooms.insert("#a".to_string(), 1);
    rooms.insert("#a".to_string(), 5);
    assert_eq!(rooms.join("#a".to_string(), "alice".to_string(), 1), Some("alice".to_string()));
    assert_eq!(rooms.join("#a".to_string(), "bob".to_string(), 2), None);
}
