use ttv_bot::command::{
    is_sender_allowed, select, BotCommand, CommandHandler, HandleCommandError, Selector,
    StoreError, COMMAND_SYMBOL, CREATE_COMMAND_SYMBOL,
};

const OWNER: &str = "zartisimo";

fn stocked() -> CommandHandler {
    let mut store = CommandHandler::empty();
    for (name, contents) in [("today", "Building a bot"), ("Today", "Capital"), ("up", "time")] {
        let command = BotCommand { name: name.to_string(), contents: contents.to_string() };
        assert_eq!(store.create_command(&command), Ok(()));
    }
    store
}

fn contents_of(store: &CommandHandler, name: &str) -> Option<String> {
    store.get_command(&name.to_string()).ok().map(|command| command.contents)
}

fn dispatch(
    store: &mut CommandHandler,
    sender: &str,
    body: &str,
) -> Result<Option<String>, HandleCommandError> {
    store.handle_command(sender.to_string(), body.to_string())
}

fn create_error_of(outcome: Result<Option<String>, HandleCommandError>) -> (String, String, String) {
    match outcome {
        Err(HandleCommandError::CreateCommand(err)) => {
            (err.name().clone(), err.msg().clone(), err.message())
        }
        other => panic!("no create error: {:?}", other),
    }
}

#[test]
fn symbols() {
    assert_eq!(COMMAND_SYMBOL, '!');
    assert_eq!(CREATE_COMMAND_SYMBOL, '#');
}

#[test]
fn only_the_owner_is_allowed() {
    assert!(is_sender_allowed("zartisimo"));
    assert!(!is_sender_allowed("Zartisimo"));
    assert!(!is_sender_allowed("zartisimo "));
    assert!(!is_sender_allowed("zartisim"));
    assert!(!is_sender_allowed(""));
    assert!(!is_sender_allowed("someone"));
}

#[test]
fn invocation_returns_the_contents() {
    let mut store = stocked();
    assert_eq!(
        dispatch(&mut store, "viewer", "today"),
        Ok(Some("Building a bot".to_string()))
    );
    assert_eq!(dispatch(&mut store, OWNER, "today"), Ok(Some("Building a bot".to_string())));
}

#[test]
fn invocation_of_unknown_command_fails() {
    let mut store = stocked();
    let outcome = dispatch(&mut store, "viewer", "unknownxyz");
    assert_eq!(outcome, Err(HandleCommandError::MissingCommand("unknownxyz".to_string())));
    assert_eq!(outcome.unwrap_err().message(), "Invalid command: unknownxyz");
}

#[test]
fn invocation_passes_over_further_tokens() {
    let mut store = stocked();
    assert_eq!(
        dispatch(&mut store, "viewer", "today and more words"),
        Ok(Some("Building a bot".to_string()))
    );
    assert_eq!(
        dispatch(&mut store, "viewer", "unknown today"),
        Err(HandleCommandError::MissingCommand("unknown".to_string()))
    );
}

#[test]
fn empty_body_names_no_command() {
    let mut store = stocked();
    assert_eq!(
        dispatch(&mut store, "viewer", ""),
        Err(HandleCommandError::MissingCommand(String::new()))
    );
    assert_eq!(
        dispatch(&mut store, "viewer", " today"),
        Err(HandleCommandError::MissingCommand(String::new()))
    );
}

#[test]
fn set_by_a_viewer_is_declined() {
    let mut store = stocked();
    assert_eq!(
        dispatch(&mut store, "viewer", "setToday newval"),
        Ok(Some("I'm sorry viewer. You are not allowed to execute this command.".to_string()))
    );
    assert_eq!(contents_of(&store, "today"), Some("Building a bot".to_string()));
    assert_eq!(contents_of(&store, "Today"), Some("Capital".to_string()));
    assert_eq!(
        dispatch(&mut store, "viewer", "settoday newval"),
        Ok(Some("I'm sorry viewer. You are not allowed to execute this command.".to_string()))
    );
    assert_eq!(contents_of(&store, "today"), Some("Building a bot".to_string()));
}

#[test]
fn set_by_the_owner_updates() {
    let mut store = stocked();
    assert_eq!(
        dispatch(&mut store, OWNER, "setToday newval"),
        Ok(Some("Updated Today command".to_string()))
    );
    assert_eq!(contents_of(&store, "Today"), Some("newval".to_string()));
    assert_eq!(contents_of(&store, "today"), Some("Building a bot".to_string()));
    assert_eq!(
        dispatch(&mut store, OWNER, "settoday Today we  rest"),
        Ok(Some("Updated today command".to_string()))
    );
    assert_eq!(contents_of(&store, "today"), Some("Today we  rest".to_string()));
    assert_eq!(dispatch(&mut store, "viewer", "today"), Ok(Some("Today we  rest".to_string())));
}

#[test]
fn set_names_the_command_letter_for_letter() {
    let mut store = CommandHandler::empty();
    let command = BotCommand { name: "today".to_string(), contents: "old".to_string() };
    assert_eq!(store.create_command(&command), Ok(()));
    assert_eq!(
        dispatch(&mut store, OWNER, "setToday newval"),
        Err(HandleCommandError::MissingCommand("Today".to_string()))
    );
    assert_eq!(contents_of(&store, "today"), Some("old".to_string()));
}

#[test]
fn set_of_unknown_command_fails() {
    let mut store = stocked();
    assert_eq!(
        dispatch(&mut store, OWNER, "setnothing value"),
        Err(HandleCommandError::MissingCommand("nothing".to_string()))
    );
    assert_eq!(
        dispatch(&mut store, OWNER, "set value"),
        Err(HandleCommandError::MissingCommand(String::new()))
    );
    assert!(!store.contains(&"nothing".to_string()));
}

#[test]
fn set_without_payload_empties_the_contents() {
    let mut store = stocked();
    assert_eq!(dispatch(&mut store, OWNER, "settoday"), Ok(Some("Updated today command".to_string())));
    assert_eq!(contents_of(&store, "today"), Some(String::new()));
}

#[test]
fn a_name_that_begins_with_set_is_taken_for_a_set() {
    let mut store = stocked();
    let command = BotCommand { name: "setup".to_string(), contents: "my desk".to_string() };
    assert_eq!(store.create_command(&command), Ok(()));
    assert_eq!(
        dispatch(&mut store, "viewer", "setup"),
        Ok(Some("I'm sorry viewer. You are not allowed to execute this command.".to_string()))
    );
    assert_eq!(dispatch(&mut store, OWNER, "setup now"), Ok(Some("Updated up command".to_string())));
    assert_eq!(contents_of(&store, "up"), Some("now".to_string()));
    assert_eq!(contents_of(&store, "setup"), Some("my desk".to_string()));
}

#[test]
fn create_by_the_owner_stores() {
    let mut store = stocked();
    assert_eq!(
        dispatch(&mut store, OWNER, "#discord join us at example.org"),
        Ok(Some("Created discord command".to_string()))
    );
    assert_eq!(contents_of(&store, "discord"), Some("join us at example.org".to_string()));
    assert_eq!(
        dispatch(&mut store, "viewer", "discord"),
        Ok(Some("join us at example.org".to_string()))
    );
}

#[test]
fn create_by_a_viewer_is_declined() {
    let mut store = stocked();
    assert_eq!(
        dispatch(&mut store, "bob", "#discord link"),
        Ok(Some("I'm sorry bob. You are not allowed to execute this command.".to_string()))
    );
    assert!(!store.contains(&"discord".to_string()));
}

#[test]
fn create_of_existing_name_fails() {
    let mut store = stocked();
    let (name, msg, message) = create_error_of(dispatch(&mut store, OWNER, "#today again"));
    assert_eq!(name, "today");
    assert_eq!(msg, "ERROR - Command today already exists");
    assert_eq!(message, "Error creating command today: ERROR - Command today already exists");
    assert_eq!(contents_of(&store, "today"), Some("Building a bot".to_string()));
    let (_, msg, _) = create_error_of(dispatch(&mut store, OWNER, "#today"));
    assert_eq!(msg, "ERROR - Command today already exists");
}

#[test]
fn create_without_payload_fails() {
    let mut store = stocked();
    let (name, msg, message) = create_error_of(dispatch(&mut store, OWNER, "#fresh"));
    assert_eq!(name, "fresh");
    assert_eq!(msg, "ERROR - No content for new command fresh");
    assert_eq!(message, "Error creating command fresh: ERROR - No content for new command fresh");
    assert!(!store.contains(&"fresh".to_string()));
    let (_, msg, _) = create_error_of(dispatch(&mut store, OWNER, "#fresh "));
    assert_eq!(msg, "ERROR - No content for new command fresh");
}

#[test]
fn create_of_invalid_name_fails() {
    let mut store = stocked();
    let (name, msg, _) = create_error_of(dispatch(&mut store, OWNER, "# text"));
    assert_eq!(name, "");
    assert_eq!(msg, "ERROR - Invalid name for new command ");
    let (name, msg, _) = create_error_of(dispatch(&mut store, OWNER, "#a\tb text"));
    assert_eq!(name, "a\tb");
    assert_eq!(msg, "ERROR - Invalid name for new command a\tb");
    assert!(!store.contains(&String::new()));
    assert!(!store.contains(&"a\tb".to_string()));
    assert_eq!(store.create_command(&BotCommand { name: String::new(), contents: "x".to_string() }),
        Err(StoreError::InvalidName));
}

#[test]
fn selectors() {
    assert_eq!(select("today"), Selector::Invoke { name: "today".to_string() });
    assert_eq!(select("today is nice"), Selector::Invoke { name: "today".to_string() });
    assert_eq!(select(""), Selector::Invoke { name: String::new() });
    assert_eq!(select("se"), Selector::Invoke { name: "se".to_string() });
    assert_eq!(select("Settoday x"), Selector::Invoke { name: "Settoday".to_string() });
    assert_eq!(
        select("settoday a b  c"),
        Selector::Update { name: "today".to_string(), payload: "a b  c".to_string() }
    );
    assert_eq!(select("set"), Selector::Update { name: String::new(), payload: String::new() });
    assert_eq!(
        select("set#x y"),
        Selector::Update { name: "#x".to_string(), payload: "y".to_string() }
    );
    assert_eq!(
        select("#new some text"),
        Selector::Create { name: "new".to_string(), payload: "some text".to_string() }
    );
    assert_eq!(select("#"), Selector::Create { name: String::new(), payload: String::new() });
    assert_eq!(
        select("#é ü"),
        Selector::Create { name: "é".to_string(), payload: "ü".to_string() }
    );
    assert_eq!(select("today#x"), Selector::Invoke { name: "today#x".to_string() });
}

#[test]
fn a_write_is_due_after_a_change() {
    let mut store = stocked();
    let due = |store: &mut CommandHandler, sender: &str, body: &str| {
        store.dispatch(sender.to_string(), body.to_string()).1
    };
    assert!(!due(&mut store, OWNER, "today"));
    assert!(!due(&mut store, "viewer", "settoday x"));
    assert!(!due(&mut store, "viewer", "#fresh x"));
    assert!(!due(&mut store, OWNER, "setnothing x"));
    assert!(!due(&mut store, OWNER, "#today x"));
    assert!(!due(&mut store, OWNER, "#fresh"));
    assert!(!due(&mut store, OWNER, "# x"));
    assert!(due(&mut store, OWNER, "settoday x"));
    assert!(due(&mut store, OWNER, "settoday x"));
    assert!(due(&mut store, OWNER, "#fresh x"));
    assert_eq!(
        store.dispatch("viewer".to_string(), "fresh".to_string()),
        (Ok(Some("x".to_string())), false)
    );
}
