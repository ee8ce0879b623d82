use ttv_bot::command::{BotCommand, CommandHandler, StoreError};
use ttv_bot::document::StoreUnavailable;

fn entry(name: &str, contents: &str) -> BotCommand {
    BotCommand { name: name.to_string(), contents: contents.to_string() }
}

fn loaded(text: &str) -> CommandHandler {
    match CommandHandler::new(text) {
        Ok(store) => store,
        Err(e) => panic!("no store: {:?}", e),
    }
}

fn refusal(text: &str) -> StoreUnavailable {
    match CommandHandler::new(text) {
        Ok(_) => panic!("a store: {:?}", text),
        Err(e) => e,
    }
}

#[test]
fn empty_document_is_an_empty_store() {
    let mut store = loaded("{}");
    assert!(!store.contains(&"help".to_string()));
    assert_eq!(store.get_command_names(), vec!["help".to_string()]);
    assert!(store.contains(&"help".to_string()));
}

#[test]
fn document_is_read() {
    let mut store = loaded(
        r#"{
            "today": { "name": "today", "contents": "Building a bot" },
            "discord": { "contents": "Join \"us\"\n", "name": "discord", "uses": 3 }
        }"#,
    );
    assert_eq!(
        store.get_command(&"today".to_string()),
        Ok(entry("today", "Building a bot"))
    );
    assert_eq!(
        store.get_command(&"discord".to_string()),
        Ok(entry("discord", "Join \"us\"\n"))
    );
    assert_eq!(store.get_command(&"uses".to_string()), Err(StoreError::NotFound));
    assert_eq!(
        store.get_command_names(),
        vec!["discord".to_string(), "today".to_string(), "help".to_string()]
    );
    assert_eq!(
        store.get_command(&"help".to_string()),
        Ok(entry("help", "Available commands: !discord !today"))
    );
}

#[test]
fn document_may_hold_empty_contents() {
    let store = loaded(r#"{ "a": { "name": "a", "contents": "" } }"#);
    assert_eq!(store.get_command(&"a".to_string()), Ok(entry("a", "")));
}

#[test]
fn document_with_an_invalid_name_is_refused() {
    assert_eq!(
        refusal(r#"{ "a b": { "name": "a b", "contents": "x" } }"#),
        StoreUnavailable::NotCommands
    );
    assert_eq!(
        refusal(r#"{ "": { "name": "", "contents": "x" } }"#),
        StoreUnavailable::NotCommands
    );
    assert_eq!(
        refusal(r#"{ "a": { "name": "a", "contents": "x" }, "b\n": { "name": "b\n", "contents": "y" } }"#),
        StoreUnavailable::NotCommands
    );
}

#[test]
fn text_that_is_no_json_is_refused() {
    assert_eq!(refusal(""), StoreUnavailable::NotJson);
    assert_eq!(refusal("{"), StoreUnavailable::NotJson);
    assert_eq!(refusal("commands"), StoreUnavailable::NotJson);
    assert_eq!(refusal(r#"{"a": {"name": "a", "contents": "x"},}"#), StoreUnavailable::NotJson);
    assert_eq!(refusal("{} {}"), StoreUnavailable::NotJson);
}

#[test]
fn json_that_holds_no_commands_is_refused() {
    assert_eq!(refusal("[]"), StoreUnavailable::NotCommands);
    assert_eq!(refusal("null"), StoreUnavailable::NotCommands);
    assert_eq!(refusal("\"today\""), StoreUnavailable::NotCommands);
    assert_eq!(refusal(r#"{"a": "x"}"#), StoreUnavailable::NotCommands);
    assert_eq!(refusal(r#"{"a": {}}"#), StoreUnavailable::NotCommands);
    assert_eq!(refusal(r#"{"a": {"name": "a"}}"#), StoreUnavailable::NotCommands);
    assert_eq!(refusal(r#"{"a": {"contents": "x"}}"#), StoreUnavailable::NotCommands);
    assert_eq!(refusal(r#"{"a": {"name": "a", "contents": 3}}"#), StoreUnavailable::NotCommands);
    assert_eq!(refusal(r#"{"a": {"name": 3, "contents": "x"}}"#), StoreUnavailable::NotCommands);
    assert_eq!(refusal(r#"{"a": {"name": "b", "contents": "x"}}"#), StoreUnavailable::NotCommands);
    assert_eq!(
        refusal(r#"{"a": {"name": "a", "contents": "x"}, "b": ["name", "contents"]}"#),
        StoreUnavailable::NotCommands
    );
}

#[test]
fn store_is_written_as_json() {
    let mut store = CommandHandler::empty();
    assert_eq!(store.to_json(), "{}");
    assert_eq!(store.create_command(&entry("today", "Building a bot")), Ok(()));
    assert_eq!(
        store.to_json(),
        r#"{"today":{"contents":"Building a bot","name":"today"}}"#
    );
    assert_eq!(store.create_command(&entry("discord", "say \"hi\"")), Ok(()));
    assert_eq!(
        store.to_json(),
        r#"{"discord":{"contents":"say \"hi\"","name":"discord"},"today":{"contents":"Building a bot","name":"today"}}"#
    );
    assert_eq!(store.update_command_content(&"today".to_string(), &"Resting".to_string()), Ok(()));
    assert_eq!(store.delete_command(&"discord".to_string()), Ok(()));
    assert_eq!(store.to_json(), r#"{"today":{"contents":"Resting","name":"today"}}"#);
}

#[test]
fn written_store_is_read_back() {
    let mut store = CommandHandler::empty();
    let records = [
        entry("today", "Building a bot"),
        entry("quote", "\"To be\"\tor\nnot \\ to be"),
        entry("ünï", "cödé \u{1f600}"),
        entry("{\"a\":1}", "{}"),
    ];
    for record in &records {
        assert_eq!(store.create_command(record), Ok(()));
    }
    assert_eq!(store.update_command_content(&"today".to_string(), &String::new()), Ok(()));
    let _ = store.get_command_names();
    let mut again = loaded(&store.to_json());
    let mut names = store.get_command_names();
    let mut names_again = again.get_command_names();
    names.sort();
    names_again.sort();
    assert_eq!(names, names_again);
    assert_eq!(names.len(), 5);
    for name in &names {
        assert_eq!(store.get_command(name), again.get_command(name));
    }
    assert_eq!(again.to_json(), store.to_json());
}

#[test]
fn document_of_a_store() {
    let mut store = CommandHandler::empty();
    assert_eq!(store.create_command(&entry("b", "2")), Ok(()));
    assert_eq!(store.create_command(&entry("a", "1")), Ok(()));
    let document = store.to_document();
    let members = document.as_object().expect("an object");
    assert_eq!(members.len(), 2);
    assert_eq!(document["a"]["name"].as_str(), Some("a"));
    assert_eq!(document["a"]["contents"].as_str(), Some("1"));
    assert_eq!(document["b"]["name"].as_str(), Some("b"));
    assert_eq!(document["b"]["contents"].as_str(), Some("2"));
    assert_eq!(document["a"].as_object().map(|record| record.len()), Some(2));
    let again = CommandHandler::from_document(&document).expect("a store");
    assert_eq!(again.get_command(&"a".to_string()), Ok(entry("a", "1")));
    assert_eq!(again.get_command(&"b".to_string()), Ok(entry("b", "2")));
}

#[test]
fn document_that_is_no_store() {
    let document: serde_json::Value = serde_json::from_str("[1, 2]").expect("json");
    assert_eq!(
        CommandHandler::from_document(&document).err(),
        Some(StoreUnavailable::NotCommands)
    );
}

#[test]
fn record_of_a_command() {
    let record = entry("today", "Building \"a\" bot").to_value();
    assert_eq!(record.to_string(), r#"{"contents":"Building \"a\" bot","name":"today"}"#);
    assert_eq!(BotCommand::from_value(&record), Some(entry("today", "Building \"a\" bot")));
}

#[test]
fn record_is_read_by_its_two_members() {
    let read = |text: &str| {
        let value: serde_json::Value = serde_json::from_str(text).expect("json");
        BotCommand::from_value(&value)
    };
    assert_eq!(read(r#"{"name": "a", "contents": "x"}"#), Some(entry("a", "x")));
    assert_eq!(read(r#"{"name": "", "contents": "", "more": [1]}"#), Some(entry("", "")));
    assert_eq!(read(r#"{"name": "a"}"#), None);
    assert_eq!(read(r#"{"contents": "x"}"#), None);
    assert_eq!(read(r#"{"name": "a", "contents": null}"#), None);
    assert_eq!(read(r#"{"name": ["a"], "contents": "x"}"#), None);
    assert_eq!(read(r#"["a", "x"]"#), None);
    assert_eq!(read(r#""a""#), None);
}
