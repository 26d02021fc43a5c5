use std::sync::Arc;

use greeter::db::timestamp::{ProtoTimestamp, Timestamp};
use greeter::db::{Greeting, GreetingsRepository, NewGreeting};
use greeter::grpc::{
    echo_hello, get_greetings_by_name, greeting_response_from_greeting, say_greeting,
    GreeterService, GrpcCode, ServiceError,
};

fn repo_with(entries: &[(&str, &str, &str, i64)]) -> GreetingsRepository {
    let mut repo = GreetingsRepository::new();
    for (recipient, sender, message, second) in entries {
        repo.add_new_greeting_at(
            recipient,
            NewGreeting {
                recipient_name: recipient.to_string(),
                sender_name: sender.to_string(),
                message: message.to_string(),
            },
            Timestamp { second: *second, nanosecond: 0 },
        );
    }
    repo
}

#[test]
fn echo_hello_greets_a_name() {
    assert_eq!(echo_hello("world"), Ok("server says hello, world!".to_string()));
}

#[test]
fn echo_hello_refuses_an_empty_name() {
    assert_eq!(
        echo_hello(""),
        Err(ServiceError {
            code: GrpcCode::InvalidArgument,
            message: "please pass in a non-empty string for name",
        })
    );
}

#[test]
fn greeting_response_reads_sender_says_message() {
    let greeting = Greeting {
        id: 4,
        recipient_name: "alice".to_string(),
        sender_name: "bob".to_string(),
        message: "good morning".to_string(),
        timestamp: Timestamp { second: 10, nanosecond: 5 },
    };
    let response = greeting_response_from_greeting("alice".to_string(), greeting);
    assert_eq!(response.id, 4);
    assert_eq!(response.message, "bob says good morning");
    assert_eq!(response.sender_name, "bob");
    assert_eq!(response.recipient_name, "alice");
    assert_eq!(response.received_at, Some(ProtoTimestamp { seconds: 10, nanos: 5 }));
}

#[test]
fn say_greeting_files_under_the_recipient() {
    let mut repo = GreetingsRepository::new();
    assert_eq!(
        say_greeting(&mut repo, "alice".to_string(), "bob".to_string(), "hello".to_string()),
        Ok(())
    );
    let stored = repo.get_greetings_by_name("alice").unwrap();
    assert_eq!(stored.len(), 1);
    assert_eq!(stored[0].sender_name, "bob");
    assert_eq!(stored[0].message, "hello");
    assert_eq!(stored[0].recipient_name, "alice");
}

#[test]
fn greetings_by_name_answers_for_that_name() {
    let repo = repo_with(&[("alice", "bob", "one", 1), ("carol", "dan", "two", 2), ("alice", "eve", "three", 3)]);
    let replies = get_greetings_by_name(&repo, Some("alice")).unwrap();
    let messages: Vec<&str> = replies.iter().map(|r| r.message.as_str()).collect();
    assert_eq!(messages, vec!["bob says one", "eve says three"]);
    assert!(replies.iter().all(|r| r.recipient_name == "alice"));
    assert_eq!(replies[1].received_at, Some(ProtoTimestamp { seconds: 3, nanos: 0 }));
}

#[test]
fn greetings_by_unknown_name_is_not_found() {
    let repo = repo_with(&[("alice", "bob", "one", 1)]);
    let err = get_greetings_by_name(&repo, Some("zed")).unwrap_err();
    assert_eq!(err.code, GrpcCode::NotFound);
    assert_eq!(err.message, "no greetings found for this name");
}

#[test]
fn greetings_without_name_answers_for_everyone() {
    let repo = repo_with(&[("alice", "bob", "one", 1), ("carol", "dan", "two", 2), ("alice", "eve", "three", 3)]);
    for name in [None, Some("")] {
        let replies = get_greetings_by_name(&repo, name).unwrap();
        let got: Vec<(String, String, u32)> = replies
            .into_iter()
            .map(|r| (r.recipient_name, r.message, r.id))
            .collect();
        assert_eq!(
            got,
            vec![
                ("alice".to_string(), "bob says one".to_string(), 0),
                ("alice".to_string(), "eve says three".to_string(), 2),
                ("carol".to_string(), "dan says two".to_string(), 1),
            ]
        );
    }
}

#[test]
fn greetings_of_empty_store_is_empty_list() {
    let repo = GreetingsRepository::new();
    assert!(get_greetings_by_name(&repo, None).unwrap().is_empty());
    assert_eq!(get_greetings_by_name(&repo, Some("a")).unwrap_err().code, GrpcCode::NotFound);
}

#[test]
fn grpc_codes_round_trip_through_numbers() {
    for n in 0..=16 {
        assert_eq!(GrpcCode::from_i32(n).number(), n);
    }
    assert_eq!(GrpcCode::from_i32(17), GrpcCode::Unknown);
    assert_eq!(GrpcCode::from_i32(-1), GrpcCode::Unknown);
    assert_eq!(GrpcCode::from_i32(0).name(), "OK");
    assert_eq!(GrpcCode::from_i32(5).name(), "NOT_FOUND");
    assert_eq!(GrpcCode::from_i32(16).name(), "UNAUTHENTICATED");
}

#[test]
fn greeter_service_holds_its_store() {
    let repo = Arc::new(42u8);
    let service = GreeterService::new(repo.clone());
    assert!(Arc::ptr_eq(service.greetings_repo(), &repo));
}

#[test]
fn health_probes_answer_ok() {
    assert_eq!(greeter::http::health::ready(), "ok");
    assert_eq!(greeter::http::health::live(), "ok");
}

#[test]
fn default_service_holds_a_default_store() {
    let service: GreeterService<u32> = GreeterService::default();
    assert_eq!(**service.greetings_repo(), 0);
}
