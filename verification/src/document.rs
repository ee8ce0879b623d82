//! The store as a JSON document: an object that holds, under each command's
//! name, an object with the members `name` and `contents`.

use crate::command::{is_valid_name, lemma_mapping_at, valid_name, BotCommand, CommandHandler};
use crate::json::{
    empty_object, member, member_names, members_of, parse, parsed, render, rendered,
    set_member, text, text_of, text_value,
};
use crate::text::texts_of;
use vstd::prelude::*;

verus! {

/// Why a text is no store.
#[derive(Debug, Clone, Copy, PartialEq, Eq, Structural)]
pub enum StoreUnavailable {
    /// The text is no JSON.
    NotJson,
    /// The JSON is no object of command records.
    NotCommands,
}

/// The key under which a record holds its name.
pub open spec fn name_key() -> Seq<char> {
    "name"@
}

/// The key under which a record holds its contents.
pub open spec fn contents_key() -> Seq<char> {
    "contents"@
}

/// The string that the object `value` holds under `key`, if it is an object
/// and holds one there.
pub open spec fn field_text(value: serde_json::Value, key: Seq<char>) -> Option<Seq<char>> {
    match members_of(value) {
        Some(members) => if members.contains_key(key) {
            text_of(members[key])
        } else {
            None
        },
        None => None,
    }
}

/// Whether `value` is the record of a command called `name`: an object with
/// that string as its `name` and a string as its `contents`.
pub open spec fn is_record(value: serde_json::Value, name: Seq<char>) -> bool {
    field_text(value, name_key()) == Some(name) && field_text(value, contents_key()) is Some
}

/// Whether `document` is a store: an object of which each member stands
/// under a valid name and is the record of a command of that name.
pub open spec fn is_command_document(document: serde_json::Value) -> bool {
    &&& members_of(document) is Some
    &&& forall|key: Seq<char>| #[trigger]
        members_of(document)->0.contains_key(key) ==> valid_name(key) && is_record(
            members_of(document)->0[key],
            key,
        )
}

/// The commands that a store document holds: each key with the contents of
/// its record.
pub open spec fn commands_of(document: serde_json::Value) -> Map<Seq<char>, Seq<char>> {
    Map::new(
        |key: Seq<char>| members_of(document)->0.contains_key(key),
        |key: Seq<char>| field_text(members_of(document)->0[key], contents_key())->0,
    )
}

/// Whether `value` is the record written for a command: an object of the
/// command's name and contents and nothing else.
pub open spec fn is_record_of(value: serde_json::Value, name: Seq<char>, contents: Seq<char>) -> bool {
    &&& members_of(value) is Some
    &&& members_of(value)->0.dom() == set![name_key(), contents_key()]
    &&& field_text(value, name_key()) == Some(name)
    &&& field_text(value, contents_key()) == Some(contents)
}

/// Whether `document` is the one written for a store that holds `stored`: it
/// has a member for each command and no other, and each is the record
/// written for that command.
pub open spec fn is_document_of(
    document: serde_json::Value,
    stored: Map<Seq<char>, Seq<char>>,
) -> bool {
    &&& members_of(document) is Some
    &&& members_of(document)->0.dom() == stored.dom()
    &&& forall|key: Seq<char>| #[trigger]
        stored.contains_key(key) ==> is_record_of(members_of(document)->0[key], key, stored[key])
}

/// The document written for a store, whose names are valid, is a store
/// document that holds the same commands: what is read back from it is what
/// was stored.
pub proof fn lemma_document_round_trip(
    document: serde_json::Value,
    stored: Map<Seq<char>, Seq<char>>,
)
    requires
        is_document_of(document, stored),
        forall|key: Seq<char>| stored.contains_key(key) ==> valid_name(key),
    ensures
        is_command_document(document),
        commands_of(document) == stored,
{
    assert forall|key: Seq<char>| #[trigger]
        members_of(document)->0.contains_key(key) implies valid_name(key) && is_record(
        members_of(document)->0[key],
        key,
    ) by {
        assert(stored.dom().contains(key));
        assert(stored.contains_key(key));
    }
    assert forall|key: Seq<char>| #[trigger] stored.contains_key(key) implies commands_of(
        document,
    ).contains_key(key) && commands_of(document)[key] == stored[key] by {
        assert(members_of(document)->0.dom().contains(key));
    }
    assert(commands_of(document) =~= stored);
}

impl BotCommand {
    /// Reads a command from its record: an object that holds a string as its
    /// `name` and one as its `contents`. Other members are passed over.
    pub fn from_value(record: &serde_json::Value) -> (read: Option<BotCommand>)
        ensures
            match read {
                Some(command) => {
                    &&& field_text(*record, name_key()) == Some(command.name@)
                    &&& field_text(*record, contents_key()) == Some(command.contents@)
                },
                None => field_text(*record, name_key()) is None || field_text(
                    *record,
                    contents_key(),
                ) is None,
            },
    {
        let name = match member(record, "name") {
            Some(value) => text(value),
            None => None,
        };
        let contents = match member(record, "contents") {
            Some(value) => text(value),
            None => None,
        };
        match (name, contents) {
            (Some(name), Some(contents)) => Some(BotCommand { name, contents }),
            _ => None,
        }
    }

    /// The record written for the command.
    pub fn to_value(&self) -> (record: serde_json::Value)
        ensures
            is_record_of(record, self.name@, self.contents@),
    {
        let mut record = empty_object();
        set_member(&mut record, "name", text_value(self.name.as_str()));
        set_member(&mut record, "contents", text_value(self.contents.as_str()));
        proof {
            reveal_strlit("name");
            reveal_strlit("contents");
            assert(name_key().len() == 4 && contents_key().len() == 8);
            assert(members_of(record)->0.dom() =~= set![name_key(), contents_key()]);
        }
        record
    }
}

impl CommandHandler {
    /// Reads a store from the text of its document.
    pub fn new(text: &str) -> (loaded: Result<CommandHandler, StoreUnavailable>)
        ensures
            match parsed(text@) {
                None => loaded is Err && loaded->Err_0 == StoreUnavailable::NotJson,
                Some(document) => match loaded {
                    Ok(store) => is_command_document(document) && store.wf() && store@
                        == commands_of(document),
                    Err(e) => !is_command_document(document) && e
                        == StoreUnavailable::NotCommands,
                },
            },
    {
        match parse(text) {
            Ok(document) => Self::from_document(&document),
            Err(_) => Err(StoreUnavailable::NotJson),
        }
    }

    /// Reads a store from its document: the commands of a store document,
    /// and `NotCommands` for any other.
    pub fn from_document(document: &serde_json::Value) -> (loaded: Result<
        CommandHandler,
        StoreUnavailable,
    >)
        ensures
            match loaded {
                Ok(store) => is_command_document(*document) && store.wf() && store@
                    == commands_of(*document),
                Err(e) => !is_command_document(*document) && e == StoreUnavailable::NotCommands,
            },
    {
        let names = match member_names(document) {
            Some(names) => names,
            None => {
                return Err(StoreUnavailable::NotCommands);
            },
        };
        let ghost members = members_of(*document)->0;
        let ghost keys = texts_of(names@);
        let mut store = CommandHandler::empty();
        let mut i: usize = 0;
        while i < names.len()
            invariant
                members_of(*document) == Some(members),
                keys == texts_of(names@),
                keys.no_duplicates(),
                keys.to_set() == members.dom(),
                i <= names.len(),
                store.wf(),
                store.names() == keys.take(i as int),
                store.records().len() == i,
                forall|j: int|
                    0 <= j < i ==> is_record(members[keys[j]], keys[j]) && field_text(
                        members[keys[j]],
                        contents_key(),
                    ) == Some(store.records()[j].1),
            decreases names.len() - i,
        {
            let name = &names[i];
            proof {
                assert(keys[i as int] == name@);
                assert(keys.to_set().contains(name@));
                assert(members.contains_key(name@));
            }
            let record = match member(document, name.as_str()) {
                Some(record) => record,
                None => {
                    return Err(StoreUnavailable::NotCommands);
                },
            };
            match BotCommand::from_value(record) {
                Some(command) => {
                    if !(command.name == *name) || !is_valid_name(name.as_str()) {
                        return Err(StoreUnavailable::NotCommands);
                    }
                    proof {
                        if keys.take(i as int).contains(name@) {
                            let j = keys.take(i as int).index_of(name@);
                            assert(keys[j] == keys[i as int]);
                        }
                    }
                    let ghost before = store.records();
                    store.append(command);
                    proof {
                        assert(store.names() =~= keys.take(i + 1));
                        assert forall|j: int| 0 <= j < i + 1 implies is_record(
                            members[keys[j]],
                            keys[j],
                        ) && field_text(members[keys[j]], contents_key()) == Some(
                            store.records()[j].1,
                        ) by {
                            if j < i {
                                assert(store.records()[j] == before[j]);
                            }
                        }
                    }
                },
                None => {
                    return Err(StoreUnavailable::NotCommands);
                },
            }
            i = i + 1;
        }
        proof {
            assert(keys.take(i as int) =~= keys);
            assert forall|key: Seq<char>| #[trigger] members.contains_key(key) implies valid_name(
                key,
            ) && is_record(members[key], key) && store@.contains_key(key) && store@[key]
                == commands_of(*document)[key] by {
                assert(keys.to_set().contains(key));
                let j = keys.index_of(key);
                assert(keys[j] == key);
                assert(store.names()[j] == key);
                lemma_mapping_at(store.records(), j);
            }
            assert forall|key: Seq<char>| #[trigger] store@.contains_key(key) implies members.contains_key(
                key,
            ) by {
                assert(keys.contains(key));
                assert(keys.to_set().contains(key));
            }
            assert(store@ =~= commands_of(*document));
        }
        Ok(store)
    }

    /// The store as a document, from which the same commands are read back.
    pub fn to_document(&self) -> (document: serde_json::Value)
        requires
            self.wf(),
        ensures
            is_document_of(document, self@),
            is_command_document(document),
            commands_of(document) == self@,
    {
        let mut document = empty_object();
        let mut i: usize = 0;
        proof {
            assert(self.names().take(0).to_set() =~= Set::<Seq<char>>::empty());
            assert(members_of(document)->0.dom() =~= Set::<Seq<char>>::empty());
        }
        while i < self.count()
            invariant
                self.wf(),
                i <= self.records().len(),
                members_of(document) is Some,
                members_of(document)->0.dom() == self.names().take(i as int).to_set(),
                forall|j: int|
                    0 <= j < i ==> is_record_of(
                        #[trigger] members_of(document)->0[self.names()[j]],
                        self.names()[j],
                        self.records()[j].1,
                    ),
            decreases self.records().len() - i,
        {
            let command = self.command_at(i);
            let record = command.to_value();
            let ghost before = members_of(document)->0;
            set_member(&mut document, command.name.as_str(), record);
            proof {
                let key = self.names()[i as int];
                assert(key == command.name@);
                assert(self.names().take(i + 1) =~= self.names().take(i as int).push(key));
                assert(self.names().take(i + 1).to_set() =~= self.names().take(
                    i as int,
                ).to_set().insert(key)) by {
                    let shorter = self.names().take(i as int);
                    let longer = self.names().take(i + 1);
                    assert forall|n: Seq<char>| longer.to_set().contains(n) implies shorter.to_set().insert(
                        key,
                    ).contains(n) by {
                        let j = longer.index_of(n);
                        if j < i {
                            assert(shorter[j] == n);
                        }
                    }
                    assert forall|n: Seq<char>|
                        shorter.to_set().insert(key).contains(n) implies longer.to_set().contains(
                        n,
                    ) by {
                        if n == key {
                            assert(longer[i as int] == n);
                        } else {
                            let j = shorter.index_of(n);
                            assert(longer[j] == n);
                        }
                    }
                }
                assert forall|j: int| 0 <= j < i + 1 implies is_record_of(
                    #[trigger] members_of(document)->0[self.names()[j]],
                    self.names()[j],
                    self.records()[j].1,
                ) by {
                    if j < i {
                        assert(self.names()[j] != key);
                        assert(members_of(document)->0[self.names()[j]] == before[self.names()[j]]);
                    }
                }
            }
            i = i + 1;
        }
        proof {
            assert(self.names().take(i as int) =~= self.names());
            assert(members_of(document)->0.dom() =~= self@.dom()) by {
                assert forall|n: Seq<char>| self.names().to_set().contains(n) == self@.dom().contains(
                    n,
                ) by {}
            }
            assert forall|key: Seq<char>| #[trigger] self@.contains_key(key) implies is_record_of(
                members_of(document)->0[key],
                key,
                self@[key],
            ) by {
                let j = self.names().index_of(key);
                assert(self.names()[j] == key);
                lemma_mapping_at(self.records(), j);
            }
            assert forall|key: Seq<char>| self@.contains_key(key) implies valid_name(key) by {
                let j = self.names().index_of(key);
                assert(self.names()[j] == key);
            }
            lemma_document_round_trip(document, self@);
        }
        document
    }

    /// The text of the store's document, as it is written to the store's file.
    pub fn to_json(&self) -> (text: String)
        requires
            self.wf(),
        ensures
            exists|document: serde_json::Value|
                is_document_of(document, self@) && commands_of(document) == self@ && text@
                    == #[trigger] rendered(document),
    {
        let document = self.to_document();
        render(&document)
    }
}

} // verus!
