use greeter::db::id::IdGenerator;
use greeter::db::timestamp::{ProtoTimestamp, Timestamp};
use greeter::db::{Greeting, GreetingsRepository, NewGreeting};
use greeter::db::id::IdGenerator as Generator;

fn new_greeting(recipient: &str, sender: &str, message: &str) -> NewGreeting {
    NewGreeting {
        recipient_name: recipient.to_string(),
        sender_name: sender.to_string(),
        message: message.to_string(),
    }
}

fn at(second: i64) -> Timestamp {
    Timestamp { second, nanosecond: 0 }
}

#[test]
fn id_generator_counts_up_from_start() {
    let mut ids = IdGenerator::default();
    assert_eq!(ids.next_id(), 0);
    assert_eq!(ids.next_id(), 1);
    assert_eq!(ids.next_id(), 2);
    let mut from_ten = IdGenerator::new(10);
    assert_eq!(from_ten.next_id(), 10);
    assert_eq!(from_ten.next_id(), 11);
}

#[test]
fn id_generator_wraps_at_u32_max() {
    let mut ids = IdGenerator::new(u32::MAX - 1);
    assert_eq!(ids.next_id(), u32::MAX - 1);
    assert_eq!(ids.next_id(), u32::MAX);
    assert_eq!(ids.next_id(), 0);
}

#[test]
fn new_repository_is_empty() {
    let repo = GreetingsRepository::new();
    assert!(repo.get_greetings_by_name("alice").is_none());
    assert!(repo.get_all_greetings().is_empty());
    assert_eq!(repo.stored_counts(), (0, 0));
    assert_eq!(repo.greeting_count(), 0);
}

#[test]
fn read_after_write_returns_the_greeting() {
    let mut repo = GreetingsRepository::new();
    repo.add_new_greeting_at("alice", new_greeting("alice", "bob", "hi"), at(100));
    let greetings = repo.get_greetings_by_name("alice").expect("alice has greetings");
    assert_eq!(greetings.len(), 1);
    let g = &greetings[0];
    assert_eq!(g.id, 0);
    assert_eq!(g.recipient_name, "alice");
    assert_eq!(g.sender_name, "bob");
    assert_eq!(g.message, "hi");
    assert_eq!(g.timestamp, at(100));
}

#[test]
fn greetings_of_a_name_stay_in_arrival_order_and_others_are_untouched() {
    let mut repo = GreetingsRepository::new();
    repo.add_new_greeting_at("alice", new_greeting("alice", "bob", "one"), at(1));
    repo.add_new_greeting_at("carol", new_greeting("carol", "bob", "two"), at(2));
    repo.add_new_greeting_at("alice", new_greeting("alice", "dan", "three"), at(3));

    let alice: Vec<&str> = repo
        .get_greetings_by_name("alice")
        .unwrap()
        .iter()
        .map(|g| g.message.as_str())
        .collect();
    assert_eq!(alice, vec!["one", "three"]);
    let carol = repo.get_greetings_by_name("carol").unwrap();
    assert_eq!(carol.len(), 1);
    assert_eq!(carol[0].message, "two");
    assert_eq!(carol[0].id, 1);
    assert!(repo.get_greetings_by_name("Alice").is_none());
}

#[test]
fn all_greetings_are_listed_group_after_group() {
    let mut repo = GreetingsRepository::new();
    repo.add_new_greeting_at("alice", new_greeting("alice", "bob", "one"), at(1));
    repo.add_new_greeting_at("carol", new_greeting("carol", "bob", "two"), at(2));
    repo.add_new_greeting_at("alice", new_greeting("alice", "dan", "three"), at(3));
    let all: Vec<(u32, String)> = repo
        .get_all_greetings()
        .into_iter()
        .map(|g: Greeting| (g.id, g.message))
        .collect();
    assert_eq!(
        all,
        vec![(0, "one".to_string()), (2, "three".to_string()), (1, "two".to_string())]
    );
    let names: Vec<&str> = repo.recipients().iter().map(|r| r.recipient_name.as_str()).collect();
    assert_eq!(names, vec!["alice", "carol"]);
}

#[test]
fn counts_match_what_is_stored() {
    let mut repo = GreetingsRepository::new();
    for i in 0..5u32 {
        let name = if i % 2 == 0 { "even" } else { "odd" };
        repo.add_new_greeting_at(name, new_greeting(name, "s", "m"), at(i as i64));
    }
    assert_eq!(repo.stored_counts(), (5, 2));
    assert_eq!(repo.get_all_greetings().len(), 5);
    assert_eq!(repo.greeting_count(), 5);
}

#[test]
fn stored_ids_are_distinct() {
    let mut repo = GreetingsRepository::new();
    for i in 0..20u32 {
        let name = format!("name{}", i % 3);
        repo.add_new_greeting_at(&name, new_greeting(&name, "s", "m"), at(0));
    }
    let mut ids: Vec<u32> = repo.get_all_greetings().iter().map(|g| g.id).collect();
    ids.sort();
    assert_eq!(ids, (0..20).collect::<Vec<u32>>());
}

#[test]
fn add_new_greeting_stamps_the_current_time() {
    let mut repo = GreetingsRepository::new();
    assert_eq!(repo.add_new_greeting("alice", new_greeting("alice", "bob", "hi")), Ok(()));
    let g = &repo.get_greetings_by_name("alice").unwrap()[0];
    // 2020-09-13 or later: the clock was read, not a constant.
    assert!(g.timestamp.second > 1_600_000_000);
    assert!((0..1_000_000_000).contains(&g.timestamp.nanosecond));
    let now = std::time::SystemTime::now()
        .duration_since(std::time::UNIX_EPOCH)
        .unwrap()
        .as_secs() as i64;
    assert!((now - g.timestamp.second).abs() <= 5);
}

#[test]
fn clone_keeps_every_field() {
    let mut repo = GreetingsRepository::new();
    repo.add_new_greeting_at("x", new_greeting("x", "y", "z"), Timestamp { second: 7, nanosecond: 9 });
    let g = repo.get_greetings_by_name("x").unwrap()[0].clone();
    assert_eq!((g.id, g.recipient_name.as_str(), g.sender_name.as_str(), g.message.as_str()), (0, "x", "y", "z"));
    assert_eq!(g.timestamp, Timestamp { second: 7, nanosecond: 9 });
}

#[test]
fn proto_timestamp_of_positive_instant_keeps_components() {
    let ts = Timestamp { second: 1_700_000_000, nanosecond: 123_456_789 };
    assert_eq!(ts.to_proto(), ProtoTimestamp { seconds: 1_700_000_000, nanos: 123_456_789 });
}

#[test]
fn proto_timestamp_of_negative_instant_rounds_down() {
    let ts = Timestamp { second: -5, nanosecond: -123_456_789 };
    assert_eq!(ts.to_proto(), ProtoTimestamp { seconds: -6, nanos: 876_543_211 });
    let whole = Timestamp { second: -5, nanosecond: 0 };
    assert_eq!(whole.to_proto(), ProtoTimestamp { seconds: -5, nanos: 0 });
    let tiny = Timestamp { second: 0, nanosecond: -1 };
    assert_eq!(tiny.to_proto(), ProtoTimestamp { seconds: -1, nanos: 999_999_999 });
}

#[test]
fn defaults_match_their_constructors() {
    let mut ids = <Generator as Default>::default();
    assert_eq!(ids.next_id(), 0);
    assert_eq!(ids.next_id(), 1);
    let repo = <GreetingsRepository as Default>::default();
    assert_eq!(repo.stored_counts(), (0, 0));
    let greeting = Greeting::default();
    assert_eq!(greeting.id, 0);
    assert!(greeting.recipient_name.is_empty() && greeting.sender_name.is_empty() && greeting.message.is_empty());
    assert_eq!(greeting.timestamp, Timestamp { second: 0, nanosecond: 0 });
    let request = NewGreeting::default();
    assert!(request.recipient_name.is_empty() && request.sender_name.is_empty() && request.message.is_empty());
}

#[test]
fn new_greeting_clone_keeps_the_texts() {
    let original = new_greeting("a", "b", "c");
    let copy = original.clone();
    assert_eq!(
        (copy.recipient_name.as_str(), copy.sender_name.as_str(), copy.message.as_str()),
        ("a", "b", "c")
    );
}

#[test]
fn successive_adds_keep_every_greeting_once() {
    let mut repo = GreetingsRepository::new();
    let names = ["a", "b", "a", "c", "b", "a"];
    for (k, name) in names.iter().enumerate() {
        repo.add_new_greeting_at(name, new_greeting(name, "s", &k.to_string()), at(k as i64));
    }
    assert_eq!(repo.stored_counts(), (6, 3));
    for name in ["a", "b", "c"] {
        let expected: Vec<String> = names
            .iter()
            .enumerate()
            .filter(|(_, n)| **n == name)
            .map(|(k, _)| k.to_string())
            .collect();
        let got: Vec<String> = repo
            .get_greetings_by_name(name)
            .unwrap()
            .iter()
            .map(|g| g.message.clone())
            .collect();
        assert_eq!(got, expected);
    }
    assert!(repo.get_greetings_by_name("d").is_none());
}
