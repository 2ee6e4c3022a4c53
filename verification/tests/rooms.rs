use backend::connection::{Actor, Cmd};
use backend::message::{Message, MessageError};
use backend::registry::{Registry, RegistryError, MAX_ROOM_NUMBER};
use backend::room::{Delivery, Polled, RoomData};

fn text(s: &str) -> Message {
    Message::Text(s.to_string())
}

fn owed(sender: usize, peer: usize, s: &str) -> Delivery {
    Delivery { sender, peer, message: text(s) }
}

#[test]
fn new_room_is_empty_and_kept() {
    let room = RoomData::new();
    assert!(room.members().is_empty());
    assert!(!room.is_deletable());
    assert!(!room.contains(1));
}

#[test]
fn joining_makes_a_room_deletable() {
    let mut room = RoomData::new();
    room.insert(7);
    room.insert(3);
    room.insert(7);
    assert_eq!(room.members(), &vec![7, 3]);
    assert!(room.is_deletable());
    assert!(room.contains(3));
    assert!(!room.contains(4));
}

#[test]
fn message_goes_to_every_member_but_its_sender() {
    let (a, b, c, d) = (10, 20, 30, 40);
    let mut room = RoomData::new();
    room.insert(a);
    room.insert(b);
    room.insert(c);
    let polled = vec![Polled { id: a, item: Ok(text("M")) }];
    let plan = room.tick(&polled);
    room.insert(d);
    assert_eq!(plan, vec![owed(a, b, "M"), owed(a, c, "M")]);
    assert!(plan.iter().all(|delivery| delivery.peer != a && delivery.peer != d));
    assert_eq!(room.members(), &vec![a, b, c, d]);
}

#[test]
fn messages_are_owed_in_the_order_of_the_polls() {
    let mut room = RoomData::new();
    room.insert(1);
    room.insert(2);
    room.insert(3);
    let polled = vec![
        Polled { id: 2, item: Ok(text("x")) },
        Polled { id: 1, item: Ok(Message::Binary(vec![1])) },
    ];
    let plan = room.tick(&polled);
    assert_eq!(
        plan,
        vec![
            owed(2, 1, "x"),
            owed(2, 3, "x"),
            Delivery { sender: 1, peer: 2, message: Message::Binary(vec![1]) },
            Delivery { sender: 1, peer: 3, message: Message::Binary(vec![1]) },
        ]
    );
}

#[test]
fn member_that_failed_is_evicted_and_gets_nothing() {
    let mut room = RoomData::new();
    room.insert(1);
    room.insert(2);
    room.insert(3);
    let polled = vec![
        Polled { id: 1, item: Ok(text("bye")) },
        Polled { id: 2, item: Err(MessageError::Network) },
    ];
    let plan = room.tick(&polled);
    assert_eq!(room.members(), &vec![1, 3]);
    assert_eq!(plan, vec![owed(1, 3, "bye")]);
    assert!(room.is_deletable());
}

#[test]
fn every_error_evicts() {
    let mut room = RoomData::new();
    room.insert(1);
    room.insert(2);
    room.insert(3);
    let polled = vec![
        Polled { id: 1, item: Err(MessageError::ConnectionClosed) },
        Polled { id: 2, item: Err(MessageError::InvalidMessage) },
        Polled { id: 3, item: Err(MessageError::Network) },
    ];
    let plan = room.tick(&polled);
    assert!(plan.is_empty());
    assert!(room.members().is_empty());
}

#[test]
fn poll_of_a_stranger_is_left_out() {
    let mut room = RoomData::new();
    room.insert(1);
    room.insert(2);
    let polled = vec![
        Polled { id: 9, item: Ok(text("who")) },
        Polled { id: 8, item: Err(MessageError::Network) },
    ];
    let plan = room.tick(&polled);
    assert!(plan.is_empty());
    assert_eq!(room.members(), &vec![1, 2]);
}

#[test]
fn tick_without_polls_changes_nothing() {
    let mut room = RoomData::new();
    room.insert(1);
    let plan = room.tick(&Vec::new());
    assert!(plan.is_empty());
    assert_eq!(room.members(), &vec![1]);
}

#[test]
fn registry_starts_empty() {
    let registry = Registry::new(MAX_ROOM_NUMBER);
    assert_eq!(MAX_ROOM_NUMBER, 20);
    assert_eq!(registry.len(), 0);
    assert!(registry.room_names().is_empty());
    assert_eq!(registry.position(&"x".to_string()), None);
    assert_eq!(registry.members(&"x".to_string()), None);
}

#[test]
fn creating_a_room_at_capacity_changes_nothing() {
    let mut registry = Registry::new(3);
    for name in ["a", "b", "c"] {
        assert_eq!(registry.create_room(name.to_string()), Ok(()));
    }
    let before = registry.room_names();
    assert_eq!(registry.create_room("d".to_string()), Err(RegistryError::RoomsAtCapacity));
    assert_eq!(registry.handle_new_room(), Err(RegistryError::RoomsAtCapacity));
    assert_eq!(registry.len(), 3);
    assert_eq!(registry.room_names(), before);
    assert_eq!(registry.room_names(), vec!["a".to_string(), "b".to_string(), "c".to_string()]);
}

#[test]
fn default_capacity_is_twenty_rooms() {
    let mut registry = Registry::new(MAX_ROOM_NUMBER);
    for i in 0..20 {
        assert_eq!(registry.create_room(format!("room{}", i)), Ok(()));
    }
    assert_eq!(registry.create_room("one more".to_string()), Err(RegistryError::RoomsAtCapacity));
    assert_eq!(registry.len(), 20);
}

#[test]
fn creating_under_a_taken_name_replaces_the_room() {
    let mut registry = Registry::new(5);
    let name = "lobby".to_string();
    registry.create_room(name.clone()).unwrap();
    registry.create_room("other".to_string()).unwrap();
    registry.join(&name, 4).unwrap();
    assert_eq!(registry.members(&name), Some(&vec![4]));
    registry.create_room(name.clone()).unwrap();
    assert_eq!(registry.len(), 2);
    assert_eq!(registry.position(&name), Some(0));
    assert_eq!(registry.members(&name), Some(&vec![]));
}

#[test]
fn random_room_names_are_six_letters_or_digits() {
    let mut registry = Registry::new(MAX_ROOM_NUMBER);
    for _ in 0..10 {
        let name = registry.handle_new_room().unwrap();
        assert_eq!(name.chars().count(), 6);
        assert!(name.chars().all(|c| c.is_ascii_alphanumeric()));
        assert!(registry.position(&name).is_some());
        assert_eq!(registry.members(&name), Some(&vec![]));
    }
}

#[test]
fn joining_a_room_that_is_not_there_fails() {
    let mut registry = Registry::new(5);
    registry.create_room("here".to_string()).unwrap();
    assert_eq!(registry.join(&"nowhere".to_string(), 1), Err(RegistryError::RoomNotFound));
    assert_eq!(registry.handle_new_member(&"nowhere".to_string()), Err(RegistryError::RoomNotFound));
    assert_eq!(registry.len(), 1);
    assert_eq!(registry.members(&"here".to_string()), Some(&vec![]));
}

#[test]
fn new_member_gets_an_id_and_joins() {
    let mut registry = Registry::new(5);
    let name = "here".to_string();
    registry.create_room(name.clone()).unwrap();
    let id = registry.handle_new_member(&name).unwrap();
    assert_eq!(registry.members(&name), Some(&vec![id]));
}

#[test]
fn tick_of_one_room_leaves_the_others() {
    let mut registry = Registry::new(5);
    let (one, two) = ("one".to_string(), "two".to_string());
    registry.create_room(one.clone()).unwrap();
    registry.create_room(two.clone()).unwrap();
    registry.join(&one, 1).unwrap();
    registry.join(&one, 2).unwrap();
    registry.join(&two, 1).unwrap();
    registry.join(&two, 5).unwrap();
    let polled = vec![
        Polled { id: 1, item: Ok(text("hello")) },
        Polled { id: 2, item: Err(MessageError::Network) },
    ];
    let plan = registry.tick_room(&one, &polled);
    assert!(plan.is_empty());
    assert_eq!(registry.members(&one), Some(&vec![1]));
    assert_eq!(registry.members(&two), Some(&vec![1, 5]));
    let plan = registry.tick_room(&"three".to_string(), &polled);
    assert!(plan.is_empty());
    assert_eq!(registry.len(), 2);
}

#[test]
fn emptied_room_is_gone_after_the_tick() {
    let mut registry = Registry::new(5);
    let (fixed, made, busy) = ("roomForAll".to_string(), "made".to_string(), "busy".to_string());
    registry.create_room(fixed.clone()).unwrap();
    registry.create_room(made.clone()).unwrap();
    registry.create_room(busy.clone()).unwrap();
    registry.join(&made, 1).unwrap();
    registry.join(&busy, 2).unwrap();
    registry.sweep();
    assert_eq!(registry.room_names(), vec![fixed.clone(), made.clone(), busy.clone()]);
    let polled = vec![Polled { id: 1, item: Err(MessageError::Network) }];
    let plan = registry.tick_room(&made, &polled);
    assert!(plan.is_empty());
    assert_eq!(registry.members(&made), Some(&vec![]));
    registry.sweep();
    assert_eq!(registry.room_names(), vec![fixed.clone(), busy.clone()]);
    assert_eq!(registry.position(&made), None);
    assert_eq!(registry.members(&busy), Some(&vec![2]));
}

#[test]
fn room_without_a_joiner_is_kept_while_empty() {
    let mut registry = Registry::new(5);
    registry.create_room("roomForAll".to_string()).unwrap();
    registry.sweep();
    assert_eq!(registry.room_names(), vec!["roomForAll".to_string()]);
}

#[test]
fn actor_queues_what_arrives_oldest_first() {
    let mut actor = Actor::new();
    assert!(actor.is_open());
    assert_eq!(actor.poll_next_message(), None);
    assert!(actor.on_read(Ok(text("one"))));
    assert!(actor.on_read(Ok(text("two"))));
    assert!(!actor.on_read(Err(MessageError::Network)));
    assert!(!actor.is_open());
    assert!(!actor.on_read(Ok(text("late"))));
    assert_eq!(actor.poll_next_message(), Some(Ok(text("one"))));
    assert_eq!(actor.poll_next_message(), Some(Ok(text("two"))));
    assert_eq!(actor.poll_next_message(), Some(Err(MessageError::Network)));
    assert_eq!(actor.poll_next_message(), None);
}

#[test]
fn actor_writes_what_it_is_asked_to_send() {
    let mut actor = Actor::new();
    let mut out = Vec::new();
    assert!(actor.on_command(Cmd::Send(text("Hello")), &mut out));
    assert_eq!(out, vec![0x81, 0x05, 0x48, 0x65, 0x6c, 0x6c, 0x6f]);
    assert!(actor.is_open());
    assert!(!actor.on_command(Cmd::Close, &mut out));
    assert_eq!(out, vec![0x81, 0x05, 0x48, 0x65, 0x6c, 0x6c, 0x6f, 0x88, 0x00]);
    assert!(!actor.is_open());
    assert!(!actor.on_command(Cmd::Send(text("late")), &mut out));
    assert_eq!(out.len(), 9);
}

#[test]
fn failed_write_ends_the_actor() {
    let mut actor = Actor::new();
    actor.on_read(Ok(text("kept")));
    actor.on_write_failed();
    assert!(!actor.is_open());
    assert_eq!(actor.poll_next_message(), Some(Ok(text("kept"))));
}

#[test]
fn command_gives_its_message_back() {
    assert_eq!(Cmd::Send(text("m")).message(), Some(text("m")));
    assert_eq!(Cmd::Close.message(), None);
}

#[test]
fn tick_over_all_rooms() {
    let mut registry = Registry::new(5);
    let (fixed, talk, dead, idle) =
        ("roomForAll".to_string(), "talk".to_string(), "dead".to_string(), "idle".to_string());
    for name in [&fixed, &talk, &dead, &idle] {
        registry.create_room(name.clone()).unwrap();
    }
    for id in [1, 2, 3] {
        registry.join(&talk, id).unwrap();
    }
    registry.join(&dead, 1).unwrap();
    registry.join(&dead, 7).unwrap();
    registry.join(&idle, 9).unwrap();
    let polled = vec![
        vec![],
        vec![
            Polled { id: 1, item: Ok(text("M")) },
            Polled { id: 3, item: Err(MessageError::ConnectionClosed) },
        ],
        vec![
            Polled { id: 7, item: Err(MessageError::Network) },
            Polled { id: 1, item: Err(MessageError::InvalidMessage) },
        ],
    ];
    let plan = registry.tick(&polled);
    assert_eq!(plan, vec![vec![], vec![owed(1, 2, "M")], vec![], vec![]]);
    assert_eq!(registry.room_names(), vec![fixed.clone(), talk.clone(), idle.clone()]);
    assert_eq!(registry.members(&fixed), Some(&vec![]));
    assert_eq!(registry.members(&talk), Some(&vec![1, 2]));
    assert_eq!(registry.members(&idle), Some(&vec![9]));
    assert_eq!(registry.members(&dead), None);
}

#[test]
fn tick_without_any_poll_sweeps_only() {
    let mut registry = Registry::new(5);
    registry.create_room("a".to_string()).unwrap();
    registry.create_room("b".to_string()).unwrap();
    registry.join(&"b".to_string(), 1).unwrap();
    let plan = registry.tick(&Vec::new());
    assert_eq!(plan, vec![vec![], vec![]]);
    assert_eq!(registry.room_names(), vec!["a".to_string(), "b".to_string()]);
    let plan = registry.tick(&vec![vec![], vec![Polled { id: 1, item: Err(MessageError::Network) }]]);
    assert_eq!(plan, vec![vec![], vec![]]);
    assert_eq!(registry.room_names(), vec!["a".to_string()]);
}

#[test]
fn ended_actor_takes_no_request() {
    let mut actor = Actor::new();
    assert_eq!(actor.try_send(text("m")).map(|cmd| cmd.message()), Ok(Some(text("m"))));
    assert_eq!(actor.shutdown().map(|cmd| cmd.message()), Ok(None));
    actor.on_write_failed();
    assert_eq!(actor.try_send(text("m")).map(|cmd| cmd.message()), Err(text("m")));
    assert_eq!(actor.shutdown().map(|cmd| cmd.message()), Err("error sending close command to task"));
}
