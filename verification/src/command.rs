//! The command store: canned responses by name, and the rules for changing them.

use crate::text::{
    after_first_token, first_token, has_prefix, lemma_split_at_space, lemma_split_without_space,
    same_text, skip_chars, split_first, starts_with, texts_of,
};
use vstd::prelude::*;

verus! {

/// Marks a chat message as a command invocation.
pub const COMMAND_SYMBOL: char = '!';

/// Marks, after the invocation symbol, a request to create a command.
pub const CREATE_COMMAND_SYMBOL: char = '#';

/// One canned response: its name and the text it replies with.
#[derive(Debug, Clone, PartialEq, Eq)]
pub struct BotCommand {
    pub name: String,
    pub contents: String,
}

impl View for BotCommand {
    type V = (Seq<char>, Seq<char>);

    open spec fn view(&self) -> (Seq<char>, Seq<char>) {
        (self.name@, self.contents@)
    }
}

/// Why the store refused an operation.
#[derive(Debug, Clone, Copy, PartialEq, Eq, Structural)]
pub enum StoreError {
    /// The name is empty or holds whitespace.
    InvalidName,
    /// The contents are empty.
    EmptyContents,
    /// A command of that name is already stored.
    AlreadyExists,
    /// No command of that name is stored.
    NotFound,
}

/// The characters that count as whitespace in a command name: those with the
/// Unicode property `White_Space`.
pub open spec fn is_whitespace(c: char) -> bool {
    let u = c as u32;
    ||| 0x09 <= u <= 0x0d
    ||| u == 0x20
    ||| u == 0x85
    ||| u == 0xa0
    ||| u == 0x1680
    ||| 0x2000 <= u <= 0x200a
    ||| u == 0x2028
    ||| u == 0x2029
    ||| u == 0x202f
    ||| u == 0x205f
    ||| u == 0x3000
}

/// A valid name is not empty and holds no whitespace.
pub open spec fn valid_name(name: Seq<char>) -> bool {
    name.len() > 0 && forall|i: int| 0 <= i < name.len() ==> !is_whitespace(#[trigger] name[i])
}

/// Whether each of `names` is valid.
pub open spec fn all_valid(names: Seq<Seq<char>>) -> bool {
    forall|i: int| 0 <= i < names.len() ==> valid_name(#[trigger] names[i])
}

/// The names of `records`, in their order.
pub open spec fn names_of(records: Seq<(Seq<char>, Seq<char>)>) -> Seq<Seq<char>> {
    records.map_values(|r: (Seq<char>, Seq<char>)| r.0)
}

/// The mapping from name to contents that `records` stand for.
pub open spec fn mapping_of(records: Seq<(Seq<char>, Seq<char>)>) -> Map<Seq<char>, Seq<char>> {
    Map::new(
        |n: Seq<char>| names_of(records).contains(n),
        |n: Seq<char>| records[names_of(records).index_of(n)].1,
    )
}

/// What `create_command` answers for a record offered to a store that holds
/// `stored`: the first rule that the record breaks, if it breaks one.
pub open spec fn create_refusal(
    stored: Map<Seq<char>, Seq<char>>,
    name: Seq<char>,
    contents: Seq<char>,
) -> Option<StoreError> {
    if !valid_name(name) {
        Some(StoreError::InvalidName)
    } else if contents.len() == 0 {
        Some(StoreError::EmptyContents)
    } else if stored.contains_key(name) {
        Some(StoreError::AlreadyExists)
    } else {
        None
    }
}

/// With distinct names, the record at `i` is what the mapping holds under its name.
pub proof fn lemma_mapping_at(records: Seq<(Seq<char>, Seq<char>)>, i: int)
    requires
        names_of(records).no_duplicates(),
        0 <= i < records.len(),
    ensures
        mapping_of(records).contains_key(records[i].0),
        mapping_of(records)[records[i].0] == records[i].1,
{
    let names = names_of(records);
    assert(names[i] == records[i].0);
    assert(names.contains(records[i].0));
    let j = names.index_of(records[i].0);
    assert(names[j] == names[i]);
}

/// Appending a record under a new name inserts it into the mapping.
pub proof fn lemma_mapping_push(
    records: Seq<(Seq<char>, Seq<char>)>,
    name: Seq<char>,
    contents: Seq<char>,
)
    requires
        names_of(records).no_duplicates(),
        !names_of(records).contains(name),
    ensures
        names_of(records.push((name, contents))) == names_of(records).push(name),
        names_of(records.push((name, contents))).no_duplicates(),
        mapping_of(records.push((name, contents))) == mapping_of(records).insert(name, contents),
{
    let after = records.push((name, contents));
    assert(names_of(after) =~= names_of(records).push(name));
    assert(names_of(after).no_duplicates());
    assert forall|n: Seq<char>| mapping_of(after).contains_key(n) implies #[trigger] mapping_of(
        records,
    ).insert(name, contents).contains_key(n) by {
        let j = names_of(after).index_of(n);
        if j < records.len() {
            assert(names_of(records)[j] == n);
        }
    }
    assert forall|n: Seq<char>| #[trigger]
        mapping_of(records).insert(name, contents).contains_key(n) implies mapping_of(
        after,
    ).contains_key(n) && mapping_of(after)[n] == mapping_of(records).insert(name, contents)[n] by {
        if n == name {
            assert(names_of(after)[records.len() as int] == name);
            lemma_mapping_at(after, records.len() as int);
        } else {
            let j = names_of(records).index_of(n);
            assert(names_of(after)[j] == n);
            lemma_mapping_at(after, j);
            lemma_mapping_at(records, j);
        }
    }
    assert(mapping_of(after) =~= mapping_of(records).insert(name, contents));
}

/// Replacing the contents of the record at `i` replaces them in the mapping.
pub proof fn lemma_mapping_update(
    records: Seq<(Seq<char>, Seq<char>)>,
    i: int,
    contents: Seq<char>,
)
    requires
        names_of(records).no_duplicates(),
        0 <= i < records.len(),
    ensures
        names_of(records.update(i, (records[i].0, contents))) == names_of(records),
        mapping_of(records.update(i, (records[i].0, contents))) == mapping_of(records).insert(
            records[i].0,
            contents,
        ),
{
    let after = records.update(i, (records[i].0, contents));
    let target = mapping_of(records).insert(records[i].0, contents);
    assert(names_of(after) =~= names_of(records));
    assert forall|n: Seq<char>| #[trigger] target.contains_key(n) implies mapping_of(
        after,
    ).contains_key(n) && mapping_of(after)[n] == target[n] by {
        if n == records[i].0 {
            lemma_mapping_at(after, i);
        } else {
            let j = names_of(records).index_of(n);
            assert(names_of(records)[j] == n);
            lemma_mapping_at(after, j);
            lemma_mapping_at(records, j);
        }
    }
    assert forall|n: Seq<char>| mapping_of(after).contains_key(n) implies #[trigger]
        target.contains_key(n) by {}
    assert(mapping_of(after) =~= target);
}

/// Taking out the record at `i` removes its name from the mapping.
pub proof fn lemma_mapping_remove(records: Seq<(Seq<char>, Seq<char>)>, i: int)
    requires
        names_of(records).no_duplicates(),
        0 <= i < records.len(),
    ensures
        names_of(records.remove(i)) == names_of(records).remove(i),
        names_of(records.remove(i)).no_duplicates(),
        !names_of(records.remove(i)).contains(records[i].0),
        mapping_of(records.remove(i)) == mapping_of(records).remove(records[i].0),
{
    let after = records.remove(i);
    let names = names_of(records);
    let target = mapping_of(records).remove(records[i].0);
    assert(names_of(after) =~= names.remove(i));
    assert forall|a: int, b: int|
        0 <= a < after.len() && 0 <= b < after.len() && a != b implies names_of(after)[a]
        != names_of(after)[b] by {
        let a0 = if a < i { a } else { a + 1 };
        let b0 = if b < i { b } else { b + 1 };
        assert(names_of(after)[a] == names[a0]);
        assert(names_of(after)[b] == names[b0]);
    }
    assert(names[i] == records[i].0);
    if names_of(after).contains(records[i].0) {
        let a = names_of(after).index_of(records[i].0);
        let a0 = if a < i { a } else { a + 1 };
        assert(names_of(after)[a] == names[a0]);
    }
    assert forall|n: Seq<char>| #[trigger] target.contains_key(n) implies mapping_of(
        after,
    ).contains_key(n) && mapping_of(after)[n] == target[n] by {
        let j = names.index_of(n);
        assert(names[j] == n);
        let a = if j < i { j } else { j - 1 };
        assert(names_of(after)[a] == n);
        lemma_mapping_at(after, a);
        lemma_mapping_at(records, j);
    }
    assert forall|n: Seq<char>| mapping_of(after).contains_key(n) implies #[trigger]
        target.contains_key(n) by {
        let a = names_of(after).index_of(n);
        let a0 = if a < i { a } else { a + 1 };
        assert(names_of(after)[a] == names[a0]);
        assert(names.contains(n));
    }
    assert(mapping_of(after) =~= target);
}

/// Whether `c` counts as whitespace in a command name.
pub fn is_whitespace_char(c: char) -> (yes: bool)
    ensures
        yes == is_whitespace(c),
{
    let u: u32 = c as u32;
    (0x09 <= u && u <= 0x0d) || u == 0x20 || u == 0x85 || u == 0xa0 || u == 0x1680 || (0x2000 <= u
        && u <= 0x200a) || u == 0x2028 || u == 0x2029 || u == 0x202f || u == 0x205f || u == 0x3000
}

/// Whether `name` may name a command.
pub fn is_valid_name(name: &str) -> (yes: bool)
    ensures
        yes == valid_name(name@),
{
    let n: usize = name.unicode_len();
    if n == 0 {
        return false;
    }
    let mut i: usize = 0;
    while i < n
        invariant
            n == name@.len(),
            i <= n,
            forall|j: int| 0 <= j < i ==> !is_whitespace(#[trigger] name@[j]),
        decreases n - i,
    {
        if is_whitespace_char(name.get_char(i)) {
            return false;
        }
        i = i + 1;
    }
    true
}

/// The store of commands: each name once, with its contents.
#[derive(Debug, Clone)]
pub struct CommandHandler {
    commands: Vec<BotCommand>,
}

impl View for CommandHandler {
    type V = Map<Seq<char>, Seq<char>>;

    /// The mapping from each stored name to its contents.
    open spec fn view(&self) -> Map<Seq<char>, Seq<char>> {
        mapping_of(self.records())
    }
}

impl CommandHandler {
    /// The stored records, as pairs of name and contents, oldest first.
    pub closed spec fn records(&self) -> Seq<(Seq<char>, Seq<char>)> {
        self.commands@.map_values(|c: BotCommand| c@)
    }

    /// The stored names, oldest first.
    pub open spec fn names(&self) -> Seq<Seq<char>> {
        names_of(self.records())
    }

    /// No name is stored twice, and each stored name is valid.
    pub open spec fn wf(&self) -> bool {
        self.names().no_duplicates() && all_valid(self.names())
    }

    /// Where `name` is stored, if it is.
    fn position(&self, name: &String) -> (at: Option<usize>)
        ensures
            match at {
                Some(i) => i < self.records().len() && self.records()[i as int].0 == name@,
                None => !self.names().contains(name@),
            },
    {
        let mut i: usize = 0;
        while i < self.commands.len()
            invariant
                i <= self.commands.len(),
                forall|j: int| 0 <= j < i ==> self.names()[j] != name@,
            decreases self.commands.len() - i,
        {
            if self.commands[i].name == *name {
                return Some(i);
            }
            i = i + 1;
        }
        None
    }

    /// How many commands are stored.
    pub(crate) fn count(&self) -> (n: usize)
        ensures
            n == self.records().len(),
    {
        self.commands.len()
    }

    /// The command stored at `i`.
    pub(crate) fn command_at(&self, i: usize) -> (command: &BotCommand)
        requires
            i < self.records().len(),
        ensures
            command@ == self.records()[i as int],
    {
        &self.commands[i]
    }

    /// Stores `command`, whose name is valid and new, whatever its contents.
    pub(crate) fn append(&mut self, command: BotCommand)
        requires
            old(self).wf(),
            valid_name(command.name@),
            !old(self).names().contains(command.name@),
        ensures
            final(self).wf(),
            final(self).records() == old(self).records().push(command@),
            final(self)@ == old(self)@.insert(command.name@, command.contents@),
    {
        proof {
            lemma_mapping_push(self.records(), command.name@, command.contents@);
        }
        self.commands.push(command);
        assert(self.records() =~= old(self).records().push(command@));
    }

    /// Whether a command called `name` is stored.
    pub fn contains(&self, name: &String) -> (yes: bool)
        requires
            self.wf(),
        ensures
            yes == self@.contains_key(name@),
    {
        match self.position(name) {
            Some(i) => {
                proof {
                    lemma_mapping_at(self.records(), i as int);
                }
                true
            },
            None => false,
        }
    }

    /// The command called `name`, or `NotFound`.
    pub fn get_command(&self, command_name: &String) -> (found: Result<BotCommand, StoreError>)
        requires
            self.wf(),
        ensures
            match found {
                Ok(command) => self@.contains_key(command_name@) && command@ == (
                    command_name@,
                    self@[command_name@],
                ),
                Err(e) => e == StoreError::NotFound && !self@.contains_key(command_name@),
            },
    {
        match self.position(command_name) {
            Some(i) => {
                proof {
                    lemma_mapping_at(self.records(), i as int);
                }
                Ok(
                    BotCommand {
                        name: self.commands[i].name.clone(),
                        contents: self.commands[i].contents.clone(),
                    },
                )
            },
            None => Err(StoreError::NotFound),
        }
    }

    /// Stores `command` if its name is valid and new and its contents are not
    /// empty; otherwise answers with the first rule that it breaks and
    /// changes nothing.
    pub fn create_command(&mut self, command: &BotCommand) -> (done: Result<(), StoreError>)
        requires
            old(self).wf(),
        ensures
            final(self).wf(),
            match done {
                Ok(()) => {
                    &&& create_refusal(old(self)@, command.name@, command.contents@) is None
                    &&& final(self).records() == old(self).records().push(command@)
                    &&& final(self)@ == old(self)@.insert(command.name@, command.contents@)
                },
                Err(e) => {
                    &&& create_refusal(old(self)@, command.name@, command.contents@) == Some(e)
                    &&& final(self).records() == old(self).records()
                },
            },
    {
        if !is_valid_name(command.name.as_str()) {
            return Err(StoreError::InvalidName);
        }
        if command.contents.as_str().is_empty() {
            return Err(StoreError::EmptyContents);
        }
        if self.contains(&command.name) {
            return Err(StoreError::AlreadyExists);
        }
        proof {
            lemma_mapping_push(self.records(), command.name@, command.contents@);
        }
        self.commands.push(
            BotCommand { name: command.name.clone(), contents: command.contents.clone() },
        );
        assert(self.records() =~= old(self).records().push(command@));
        Ok(())
    }

    /// Replaces the contents of the command called `command_name`, or answers
    /// `NotFound` and changes nothing.
    pub fn update_command_content(&mut self, command_name: &String, new_contents: &String) -> (done:
        Result<(), StoreError>)
        requires
            old(self).wf(),
        ensures
            final(self).wf(),
            final(self).names() == old(self).names(),
            match done {
                Ok(()) => {
                    &&& old(self)@.contains_key(command_name@)
                    &&& final(self)@ == old(self)@.insert(command_name@, new_contents@)
                },
                Err(e) => {
                    &&& e == StoreError::NotFound
                    &&& !old(self)@.contains_key(command_name@)
                    &&& final(self).records() == old(self).records()
                },
            },
    {
        match self.position(command_name) {
            Some(i) => {
                proof {
                    lemma_mapping_at(self.records(), i as int);
                    lemma_mapping_update(self.records(), i as int, new_contents@);
                }
                let name = self.commands[i].name.clone();
                self.commands.set(i, BotCommand { name, contents: new_contents.clone() });
                assert(self.records() =~= old(self).records().update(
                    i as int,
                    (command_name@, new_contents@),
                ));
                Ok(())
            },
            None => Err(StoreError::NotFound),
        }
    }

    /// Removes the command called `command_name`, or answers `NotFound` and
    /// changes nothing.
    pub fn delete_command(&mut self, command_name: &String) -> (done: Result<(), StoreError>)
        requires
            old(self).wf(),
        ensures
            final(self).wf(),
            match done {
                Ok(()) => {
                    &&& old(self)@.contains_key(command_name@)
                    &&& final(self)@ == old(self)@.remove(command_name@)
                    &&& !final(self).names().contains(command_name@)
                    &&& exists|i: int|
                        0 <= i < old(self).records().len() && old(self).names()[i] == command_name@
                            && final(self).records() == old(self).records().remove(i)
                },
                Err(e) => {
                    &&& e == StoreError::NotFound
                    &&& !old(self)@.contains_key(command_name@)
                    &&& final(self).records() == old(self).records()
                },
            },
    {
        match self.position(command_name) {
            Some(i) => {
                proof {
                    lemma_mapping_at(self.records(), i as int);
                    lemma_mapping_remove(self.records(), i as int);
                }
                let _ = self.commands.remove(i);
                assert(self.records() =~= old(self).records().remove(i as int));
                Ok(())
            },
            None => Err(StoreError::NotFound),
        }
    }
}


/// Creating a command through chat failed: the name asked for, and why.
#[derive(Debug, Clone, PartialEq, Eq)]
pub struct CreateCommandError {
    name: String,
    msg: String,
}

impl View for CreateCommandError {
    type V = (Seq<char>, Seq<char>);

    /// The name and the reason.
    closed spec fn view(&self) -> (Seq<char>, Seq<char>) {
        (self.name@, self.msg@)
    }
}

impl CreateCommandError {
    /// The name of the command that was not created.
    pub fn name(&self) -> (name: &String)
        ensures
            name@ == self@.0,
    {
        &self.name
    }

    /// Why it was not created.
    pub fn msg(&self) -> (msg: &String)
        ensures
            msg@ == self@.1,
    {
        &self.msg
    }

    /// The error as a sentence.
    pub fn message(&self) -> (text: String)
        ensures
            text@ == "Error creating command "@ + self@.0 + ": "@ + self@.1,
    {
        let mut text = String::from_str("Error creating command ");
        text.append(self.name.as_str());
        text.append(": ");
        text.append(self.msg.as_str());
        text
    }
}

/// Why a chat line got no reply.
#[derive(Debug, Clone, PartialEq, Eq)]
pub enum HandleCommandError {
    /// No command of this name is stored.
    MissingCommand(String),
    /// The command asked for was not created.
    CreateCommand(CreateCommandError),
}

/// A `HandleCommandError` over sequences of characters.
pub enum Failure {
    MissingCommand(Seq<char>),
    CreateCommand(Seq<char>, Seq<char>),
}

impl View for HandleCommandError {
    type V = Failure;

    open spec fn view(&self) -> Failure {
        match self {
            HandleCommandError::MissingCommand(name) => Failure::MissingCommand(name@),
            HandleCommandError::CreateCommand(err) => Failure::CreateCommand(err@.0, err@.1),
        }
    }
}

impl HandleCommandError {
    /// The error as a sentence.
    pub fn message(&self) -> (text: String)
        ensures
            text@ == match self@ {
                Failure::MissingCommand(name) => "Invalid command: "@ + name,
                Failure::CreateCommand(name, msg) => "Error creating command "@ + name + ": "@
                    + msg,
            },
    {
        match self {
            HandleCommandError::MissingCommand(name) => {
                let mut text = String::from_str("Invalid command: ");
                text.append(name.as_str());
                text
            },
            HandleCommandError::CreateCommand(err) => err.message(),
        }
    }
}

/// What a chat line, its invocation symbol removed, asks for.
#[derive(Debug, Clone, PartialEq, Eq)]
pub enum Selector {
    /// Reply with the contents of the command `name`.
    Invoke { name: String },
    /// Replace the contents of the command `name` by `payload`.
    Update { name: String, payload: String },
    /// Store a new command `name` with the contents `payload`.
    Create { name: String, payload: String },
}

/// A `Selector` over sequences of characters.
pub enum Intent {
    Invoke { name: Seq<char> },
    Update { name: Seq<char>, payload: Seq<char> },
    Create { name: Seq<char>, payload: Seq<char> },
}

impl View for Selector {
    type V = Intent;

    open spec fn view(&self) -> Intent {
        match self {
            Selector::Invoke { name } => Intent::Invoke { name: name@ },
            Selector::Update { name, payload } => Intent::Update { name: name@, payload: payload@ },
            Selector::Create { name, payload } => Intent::Create {
                name: name@,
                payload: payload@,
            },
        }
    }
}

/// The reserved word that a first token begins with to set a command's contents.
pub open spec fn set_prefix() -> Seq<char> {
    seq!['s', 'e', 't']
}

/// What `body` asks for. Its first token decides: one that begins with `set`
/// names, after those three characters, a command to set; one that begins with
/// the create symbol names, after it, a command to create; any other is the
/// name of a command to invoke. For the first two the payload is what follows
/// the first space.
pub open spec fn intent_of(body: Seq<char>) -> Intent {
    let head = first_token(body);
    let rest = after_first_token(body);
    if has_prefix(head, set_prefix()) {
        Intent::Update { name: head.skip(3), payload: rest }
    } else if head.len() > 0 && head[0] == CREATE_COMMAND_SYMBOL {
        Intent::Create { name: head.skip(1), payload: rest }
    } else {
        Intent::Invoke { name: head }
    }
}

/// Reads what `body` asks for.
pub fn select(body: &str) -> (selector: Selector)
    ensures
        selector@ == intent_of(body@),
{
    let (head, rest) = split_first(body);
    proof {
        reveal_strlit("set");
        assert("set"@ =~= set_prefix());
    }
    if starts_with(head, "set") {
        Selector::Update {
            name: String::from_str(skip_chars(head, 3)),
            payload: String::from_str(rest),
        }
    } else if head.unicode_len() > 0 && head.get_char(0) == CREATE_COMMAND_SYMBOL {
        Selector::Create {
            name: String::from_str(skip_chars(head, 1)),
            payload: String::from_str(rest),
        }
    } else {
        Selector::Invoke { name: String::from_str(head) }
    }
}

/// The one sender who may change commands through chat.
pub open spec fn is_privileged(sender: Seq<char>) -> bool {
    sender == "zartisimo"@
}

/// Whether `sender` may change commands through chat.
pub fn is_sender_allowed(sender: &str) -> (allowed: bool)
    ensures
        allowed == is_privileged(sender@),
{
    same_text(sender, "zartisimo")
}

/// The reply to a sender who may not change commands.
pub open spec fn decline_reply(sender: Seq<char>) -> Seq<char> {
    "I'm sorry "@ + sender + ". You are not allowed to execute this command."@
}

/// The reply after the contents of `name` were replaced.
pub open spec fn updated_reply(name: Seq<char>) -> Seq<char> {
    "Updated "@ + name + " command"@
}

/// The reply after `name` was created.
pub open spec fn created_reply(name: Seq<char>) -> Seq<char> {
    "Created "@ + name + " command"@
}

/// Why `name` is not created when it is stored already.
pub open spec fn exists_reason(name: Seq<char>) -> Seq<char> {
    "ERROR - Command "@ + name + " already exists"@
}

/// Why `name` is not created without a payload.
pub open spec fn no_content_reason(name: Seq<char>) -> Seq<char> {
    "ERROR - No content for new command "@ + name
}

/// Why `name` is not created when it is no valid name.
pub open spec fn invalid_name_reason(name: Seq<char>) -> Seq<char> {
    "ERROR - Invalid name for new command "@ + name
}

/// The outcome of dispatching `body`, sent by `sender`, against a store that
/// holds `stored`: the reply, or why there is none.
pub open spec fn reply_to(stored: Map<Seq<char>, Seq<char>>, sender: Seq<char>, body: Seq<char>)
    -> Result<Seq<char>, Failure> {
    match intent_of(body) {
        Intent::Invoke { name } => if stored.contains_key(name) {
            Ok(stored[name])
        } else {
            Err(Failure::MissingCommand(name))
        },
        Intent::Update { name, payload } => if !is_privileged(sender) {
            Ok(decline_reply(sender))
        } else if stored.contains_key(name) {
            Ok(updated_reply(name))
        } else {
            Err(Failure::MissingCommand(name))
        },
        Intent::Create { name, payload } => if !is_privileged(sender) {
            Ok(decline_reply(sender))
        } else if stored.contains_key(name) {
            Err(Failure::CreateCommand(name, exists_reason(name)))
        } else if payload.len() == 0 {
            Err(Failure::CreateCommand(name, no_content_reason(name)))
        } else if !valid_name(name) {
            Err(Failure::CreateCommand(name, invalid_name_reason(name)))
        } else {
            Ok(created_reply(name))
        },
    }
}

/// The records that a store holds after dispatching `body`, sent by `sender`,
/// where it held `records` before: only the privileged sender changes them,
/// and only by setting a stored command or creating a valid new one.
pub open spec fn records_after(
    records: Seq<(Seq<char>, Seq<char>)>,
    sender: Seq<char>,
    body: Seq<char>,
) -> Seq<(Seq<char>, Seq<char>)> {
    let names = names_of(records);
    match intent_of(body) {
        Intent::Invoke { name } => records,
        Intent::Update { name, payload } => if is_privileged(sender) && names.contains(name) {
            records.update(names.index_of(name), (name, payload))
        } else {
            records
        },
        Intent::Create { name, payload } => if is_privileged(sender) && create_refusal(
            mapping_of(records),
            name,
            payload,
        ) is None {
            records.push((name, payload))
        } else {
            records
        },
    }
}

/// The commands that a store holds after dispatching `body`, sent by `sender`,
/// where it held `stored` before.
pub open spec fn stored_after(
    stored: Map<Seq<char>, Seq<char>>,
    sender: Seq<char>,
    body: Seq<char>,
) -> Map<Seq<char>, Seq<char>> {
    match intent_of(body) {
        Intent::Invoke { name } => stored,
        Intent::Update { name, payload } => if is_privileged(sender) && stored.contains_key(name) {
            stored.insert(name, payload)
        } else {
            stored
        },
        Intent::Create { name, payload } => if is_privileged(sender) && create_refusal(
            stored,
            name,
            payload,
        ) is None {
            stored.insert(name, payload)
        } else {
            stored
        },
    }
}

/// Whether a dispatch ends in a write of the store to its file: it does where
/// the privileged sender set or created a command.
pub open spec fn write_due(stored: Map<Seq<char>, Seq<char>>, sender: Seq<char>, body: Seq<char>)
    -> bool {
    !(intent_of(body) is Invoke) && is_privileged(sender) && reply_to(stored, sender, body) is Ok
}

/// A dispatch that changes what the store holds ends in a write.
pub proof fn lemma_change_is_written(
    stored: Map<Seq<char>, Seq<char>>,
    sender: Seq<char>,
    body: Seq<char>,
)
    ensures
        stored_after(stored, sender, body) != stored ==> write_due(stored, sender, body),
{
}

/// The mapping of the records after a dispatch is the mapping after it, and
/// no name is stored twice.
pub proof fn lemma_records_after(
    records: Seq<(Seq<char>, Seq<char>)>,
    sender: Seq<char>,
    body: Seq<char>,
)
    requires
        names_of(records).no_duplicates(),
    ensures
        names_of(records_after(records, sender, body)).no_duplicates(),
        mapping_of(records_after(records, sender, body)) == stored_after(
            mapping_of(records),
            sender,
            body,
        ),
{
    match intent_of(body) {
        Intent::Invoke { name } => {},
        Intent::Update { name, payload } => {
            if is_privileged(sender) && names_of(records).contains(name) {
                let i = names_of(records).index_of(name);
                assert(names_of(records)[i] == name);
                lemma_mapping_update(records, i, payload);
            }
        },
        Intent::Create { name, payload } => {
            if is_privileged(sender) && create_refusal(mapping_of(records), name, payload) is None {
                lemma_mapping_push(records, name, payload);
            }
        },
    }
}

/// Dispatching a line removes no command.
pub proof fn lemma_dispatch_keeps_commands(
    stored: Map<Seq<char>, Seq<char>>,
    sender: Seq<char>,
    body: Seq<char>,
    name: Seq<char>,
)
    requires
        stored.contains_key(name),
    ensures
        stored_after(stored, sender, body).contains_key(name),
{
}

fn decline(sender: &str) -> (reply: String)
    ensures
        reply@ == decline_reply(sender@),
{
    let mut reply = String::from_str("I'm sorry ");
    reply.append(sender);
    reply.append(". You are not allowed to execute this command.");
    reply
}

fn create_failure(name: String, prefix: &str, suffix: &str) -> (err: HandleCommandError)
    ensures
        err@ == Failure::CreateCommand(name@, prefix@ + name@ + suffix@),
{
    let mut msg = String::from_str(prefix);
    msg.append(name.as_str());
    msg.append(suffix);
    HandleCommandError::CreateCommand(CreateCommandError { name, msg })
}

impl CommandHandler {
    /// Dispatches `msg`, a chat line of `sender` with its invocation symbol
    /// removed, against the store, and gives the reply. A sender without
    /// privilege who asks for a change gets a reply that declines, and nothing
    /// changes.
    pub fn handle_command(&mut self, sender: String, msg: String) -> (reply: Result<
        Option<String>,
        HandleCommandError,
    >)
        requires
            old(self).wf(),
        ensures
            final(self).wf(),
            final(self).records() == records_after(old(self).records(), sender@, msg@),
            final(self)@ == stored_after(old(self)@, sender@, msg@),
            match reply {
                Ok(Some(text)) => reply_to(old(self)@, sender@, msg@) == Ok::<
                    Seq<char>,
                    Failure,
                >(text@),
                Ok(None) => false,
                Err(e) => reply_to(old(self)@, sender@, msg@) == Err::<Seq<char>, Failure>(e@),
            },
    {
        self.dispatch(sender, msg).0
    }

    /// Dispatches as `handle_command` does, and tells beside the reply whether
    /// the store is to be written to its file.
    pub fn dispatch(&mut self, sender: String, msg: String) -> (outcome: (
        Result<Option<String>, HandleCommandError>,
        bool,
    ))
        requires
            old(self).wf(),
        ensures
            final(self).wf(),
            final(self).records() == records_after(old(self).records(), sender@, msg@),
            final(self)@ == stored_after(old(self)@, sender@, msg@),
            match outcome.0 {
                Ok(Some(text)) => reply_to(old(self)@, sender@, msg@) == Ok::<
                    Seq<char>,
                    Failure,
                >(text@),
                Ok(None) => false,
                Err(e) => reply_to(old(self)@, sender@, msg@) == Err::<Seq<char>, Failure>(e@),
            },
            outcome.1 == write_due(old(self)@, sender@, msg@),
    {
        proof {
            lemma_records_after(self.records(), sender@, msg@);
        }
        let allowed = is_sender_allowed(sender.as_str());
        match select(msg.as_str()) {
            Selector::Update { name, payload } => {
                let reply = self.handle_set_command(sender, name, payload);
                let due = allowed && reply.is_ok();
                (reply, due)
            },
            Selector::Create { name, payload } => {
                let reply = self.handle_create_command(sender, name, payload);
                let due = allowed && reply.is_ok();
                (reply, due)
            },
            Selector::Invoke { name } => match self.get_command(&name) {
                Ok(command) => (Ok(Some(command.contents)), false),
                Err(_) => (Err(HandleCommandError::MissingCommand(name)), false),
            },
        }
    }

    /// Replaces the contents of `command_name` on behalf of `sender`.
    fn handle_set_command(&mut self, sender: String, command_name: String, new_contents: String)
        -> (reply: Result<Option<String>, HandleCommandError>)
        requires
            old(self).wf(),
        ensures
            final(self).wf(),
            final(self).records() == (if is_privileged(sender@) && old(self).names().contains(
                command_name@,
            ) {
                old(self).records().update(
                    old(self).names().index_of(command_name@),
                    (command_name@, new_contents@),
                )
            } else {
                old(self).records()
            }),
            match reply {
                Ok(Some(text)) => if !is_privileged(sender@) {
                    text@ == decline_reply(sender@)
                } else {
                    old(self)@.contains_key(command_name@) && text@ == updated_reply(
                        command_name@,
                    )
                },
                Ok(None) => false,
                Err(e) => is_privileged(sender@) && !old(self)@.contains_key(command_name@) && e@
                    == Failure::MissingCommand(command_name@),
            },
    {
        if !is_sender_allowed(sender.as_str()) {
            return Ok(Some(decline(sender.as_str())));
        }
        match self.position(&command_name) {
            Some(i) => {
                proof {
                    lemma_mapping_at(self.records(), i as int);
                    lemma_mapping_update(self.records(), i as int, new_contents@);
                    assert(self.names()[i as int] == command_name@);
                    let j = self.names().index_of(command_name@);
                    assert(self.names()[j] == command_name@);
                }
                let mut text = String::from_str("Updated ");
                text.append(command_name.as_str());
                text.append(" command");
                self.commands.set(i, BotCommand { name: command_name, contents: new_contents });
                assert(self.records() =~= old(self).records().update(
                    i as int,
                    (command_name@, new_contents@),
                ));
                Ok(Some(text))
            },
            None => Err(HandleCommandError::MissingCommand(command_name)),
        }
    }

    /// Stores a new command on behalf of `sender`.
    fn handle_create_command(
        &mut self,
        sender: String,
        command_name: String,
        new_contents: String,
    ) -> (reply: Result<Option<String>, HandleCommandError>)
        requires
            old(self).wf(),
        ensures
            final(self).wf(),
            final(self).records() == (if is_privileged(sender@) && create_refusal(
                old(self)@,
                command_name@,
                new_contents@,
            ) is None {
                old(self).records().push((command_name@, new_contents@))
            } else {
                old(self).records()
            }),
            match reply {
                Ok(Some(text)) => if !is_privileged(sender@) {
                    text@ == decline_reply(sender@)
                } else {
                    create_refusal(old(self)@, command_name@, new_contents@) is None && text@
                        == created_reply(command_name@)
                },
                Ok(None) => false,
                Err(e) => is_privileged(sender@) && e@ == Failure::CreateCommand(
                    command_name@,
                    if old(self)@.contains_key(command_name@) {
                        exists_reason(command_name@)
                    } else if new_contents@.len() == 0 {
                        no_content_reason(command_name@)
                    } else {
                        invalid_name_reason(command_name@)
                    },
                ) && create_refusal(old(self)@, command_name@, new_contents@) is Some,
            },
    {
        if !is_sender_allowed(sender.as_str()) {
            return Ok(Some(decline(sender.as_str())));
        }
        if self.contains(&command_name) {
            return Err(create_failure(command_name, "ERROR - Command ", " already exists"));
        }
        if new_contents.as_str().is_empty() {
            proof {
                reveal_strlit("");
                assert("ERROR - No content for new command "@ + command_name@ + ""@
                    =~= no_content_reason(command_name@));
            }
            return Err(create_failure(command_name, "ERROR - No content for new command ", ""));
        }
        let new_command = BotCommand { name: command_name, contents: new_contents };
        match self.create_command(&new_command) {
            Ok(()) => {
                let mut text = String::from_str("Created ");
                text.append(new_command.name.as_str());
                text.append(" command");
                Ok(Some(text))
            },
            Err(_) => {
                proof {
                    reveal_strlit("");
                    assert("ERROR - Invalid name for new command "@ + new_command.name@ + ""@
                        =~= invalid_name_reason(new_command.name@));
                }
                Err(create_failure(new_command.name, "ERROR - Invalid name for new command ", ""))
            },
        }
    }
}


/// The name of the command that lists the others.
pub open spec fn help_name() -> Seq<char> {
    "help"@
}

/// The contents of the help command for a store that holds `names`: a heading,
/// then each name in turn behind a space and the invocation symbol.
pub open spec fn help_contents(names: Seq<Seq<char>>) -> Seq<char>
    decreases names.len(),
{
    if names.len() == 0 {
        "Available commands:"@
    } else {
        help_contents(names.drop_last()) + seq![' ', COMMAND_SYMBOL] + names.last()
    }
}

/// The records of a store after its names were listed: the help command is
/// added where it was missing, and is left as it is where it was there.
pub open spec fn records_listed(records: Seq<(Seq<char>, Seq<char>)>) -> Seq<
    (Seq<char>, Seq<char>),
> {
    if names_of(records).contains(help_name()) {
        records
    } else {
        records.push((help_name(), help_contents(names_of(records))))
    }
}

/// `help` is a valid name.
pub proof fn lemma_help_name_valid()
    ensures
        valid_name(help_name()),
        help_name() == seq!['h', 'e', 'l', 'p'],
{
    reveal_strlit("help");
    assert(help_name() =~= seq!['h', 'e', 'l', 'p']);
}

/// The help contents are never empty.
pub proof fn lemma_help_contents_len(names: Seq<Seq<char>>)
    ensures
        help_contents(names).len() > 0,
    decreases names.len(),
{
    if names.len() == 0 {
        reveal_strlit("Available commands:");
    } else {
        lemma_help_contents_len(names.drop_last());
    }
}

/// The help contents hold each listed name directly behind a space and the
/// invocation symbol.
pub proof fn lemma_help_lists_name(names: Seq<Seq<char>>, i: int) -> (at: int)
    requires
        0 <= i < names.len(),
    ensures
        0 <= at,
        at + 2 + names[i].len() <= help_contents(names).len(),
        help_contents(names).subrange(at, at + 2 + names[i].len()) == seq![' ', COMMAND_SYMBOL]
            + names[i],
    decreases names.len(),
{
    let before = help_contents(names.drop_last());
    let entry = seq![' ', COMMAND_SYMBOL] + names.last();
    assert(help_contents(names) == before + entry);
    if i == names.len() - 1 {
        let at = before.len() as int;
        assert(help_contents(names).subrange(at, at + 2 + names[i].len()) =~= entry);
        at
    } else {
        let at = lemma_help_lists_name(names.drop_last(), i);
        assert(names.drop_last()[i] == names[i]);
        assert(help_contents(names).subrange(at, at + 2 + names[i].len()) =~= before.subrange(
            at,
            at + 2 + names[i].len(),
        ));
        at
    }
}

impl CommandHandler {
    /// A store that holds no command.
    pub fn empty() -> (store: CommandHandler)
        ensures
            store.wf(),
            store.records() == Seq::<(Seq<char>, Seq<char>)>::empty(),
            store@ == Map::<Seq<char>, Seq<char>>::empty(),
    {
        let store = CommandHandler { commands: Vec::new() };
        assert(store.records() =~= Seq::<(Seq<char>, Seq<char>)>::empty());
        assert(store@ =~= Map::<Seq<char>, Seq<char>>::empty());
        store
    }

    /// Stores the help command, which lists the names stored so far.
    pub fn generate_help_command(&mut self)
        requires
            old(self).wf(),
            !old(self)@.contains_key(help_name()),
        ensures
            final(self).wf(),
            final(self).records() == old(self).records().push(
                (help_name(), help_contents(old(self).names())),
            ),
            final(self)@ == old(self)@.insert(help_name(), help_contents(old(self).names())),
    {
        let mut help_contents = String::from_str("Available commands:");
        let mut i: usize = 0;
        proof {
            reveal_strlit(" !");
            assert(" !"@ =~= seq![' ', COMMAND_SYMBOL]);
            assert(self.names().take(0) =~= Seq::<Seq<char>>::empty());
        }
        while i < self.commands.len()
            invariant
                i <= self.commands.len(),
                " !"@ == seq![' ', COMMAND_SYMBOL],
                help_contents@ == self::help_contents(self.names().take(i as int)),
            decreases self.commands.len() - i,
        {
            proof {
                let next = self.names().take(i + 1);
                assert(next.drop_last() =~= self.names().take(i as int));
                assert(next.last() == self.commands[i as int].name@);
            }
            help_contents.append(" !");
            help_contents.append(self.commands[i].name.as_str());
            i = i + 1;
        }
        proof {
            assert(self.names().take(i as int) =~= self.names());
            lemma_help_name_valid();
            lemma_help_contents_len(self.names());
        }
        let help_command = BotCommand { name: String::from_str("help"), contents: help_contents };
        let _ = self.create_command(&help_command);
    }

    /// The stored names. The help command is stored first where it was missing;
    /// one that is there is not brought up to date.
    pub fn get_command_names(&mut self) -> (names: Vec<String>)
        requires
            old(self).wf(),
        ensures
            final(self).wf(),
            final(self).records() == records_listed(old(self).records()),
            final(self)@ == (if old(self)@.contains_key(help_name()) {
                old(self)@
            } else {
                old(self)@.insert(help_name(), help_contents(old(self).names()))
            }),
            texts_of(names@) == final(self).names(),
    {
        if !self.contains(&String::from_str("help")) {
            self.generate_help_command();
        }
        let mut names: Vec<String> = Vec::new();
        let mut i: usize = 0;
        while i < self.commands.len()
            invariant
                i <= self.commands.len(),
                texts_of(names@) == self.names().take(i as int),
            decreases self.commands.len() - i,
        {
            let ghost before = texts_of(names@);
            let name = self.commands[i].name.clone();
            names.push(name);
            proof {
                let listed = texts_of(names@);
                assert(before.len() == i);
                assert(listed.len() == i + 1);
                assert(listed[i as int] == name@);
                assert forall|j: int| 0 <= j < listed.len() implies listed[j] == self.names().take(
                    i + 1,
                )[j] by {
                    if j < i {
                        assert(before[j] == self.names().take(i as int)[j]);
                    }
                }
                assert(listed =~= self.names().take(i + 1));
            }
            i = i + 1;
        }
        assert(self.names().take(i as int) =~= self.names());
        names
    }
}

/// A name that holds a space is refused as invalid, whatever is stored.
pub proof fn lemma_space_in_name_refused(
    stored: Map<Seq<char>, Seq<char>>,
    name: Seq<char>,
    contents: Seq<char>,
)
    requires
        name.contains(' '),
    ensures
        create_refusal(stored, name, contents) == Some(StoreError::InvalidName),
{
    let i = name.index_of(' ');
    assert(is_whitespace(name[i]));
}

/// Once a record was stored, a second one of the same name that has contents
/// is refused as existing already, and the first stays.
pub proof fn lemma_second_create_refused(
    records: Seq<(Seq<char>, Seq<char>)>,
    name: Seq<char>,
    first: Seq<char>,
    second: Seq<char>,
)
    requires
        names_of(records).no_duplicates(),
        create_refusal(mapping_of(records), name, first) is None,
        second.len() > 0,
    ensures
        create_refusal(mapping_of(records.push((name, first))), name, second) == Some(
            StoreError::AlreadyExists,
        ),
        mapping_of(records.push((name, first)))[name] == first,
{
    lemma_mapping_push(records, name, first);
}

/// A record that was stored is found under its name with the contents it was
/// stored with.
pub proof fn lemma_create_then_get(
    records: Seq<(Seq<char>, Seq<char>)>,
    name: Seq<char>,
    contents: Seq<char>,
)
    requires
        names_of(records).no_duplicates(),
        create_refusal(mapping_of(records), name, contents) is None,
    ensures
        mapping_of(records.push((name, contents))).contains_key(name),
        mapping_of(records.push((name, contents)))[name] == contents,
{
    lemma_mapping_push(records, name, contents);
}

/// A name that was deleted is not among the names listed next, unless it is
/// the help command's, which listing brings back.
pub proof fn lemma_deleted_name_not_listed(records: Seq<(Seq<char>, Seq<char>)>, i: int)
    requires
        names_of(records).no_duplicates(),
        0 <= i < records.len(),
        records[i].0 != help_name(),
    ensures
        !names_of(records_listed(records.remove(i))).contains(records[i].0),
{
    lemma_mapping_remove(records, i);
    let after = records.remove(i);
    let listed = records_listed(after);
    if names_of(listed).contains(records[i].0) {
        let j = names_of(listed).index_of(records[i].0);
        if j < after.len() {
            assert(names_of(after)[j] == records[i].0);
        }
    }
}

/// The names listed for a store hold the help command's, and its contents
/// hold every other name behind the invocation symbol.
pub proof fn lemma_listing_adds_help(records: Seq<(Seq<char>, Seq<char>)>, i: int) -> (at: int)
    requires
        names_of(records).no_duplicates(),
        !names_of(records).contains(help_name()),
        0 <= i < records.len(),
    ensures
        names_of(records_listed(records)).contains(help_name()),
        mapping_of(records_listed(records))[help_name()] == help_contents(names_of(records)),
        0 <= at,
        at + 2 + records[i].0.len() <= help_contents(names_of(records)).len(),
        help_contents(names_of(records)).subrange(at, at + 2 + records[i].0.len()) == seq![
            ' ',
            COMMAND_SYMBOL,
        ] + records[i].0,
{
    let contents = help_contents(names_of(records));
    lemma_mapping_push(records, help_name(), contents);
    assert(names_of(records_listed(records))[records.len() as int] == help_name());
    assert(names_of(records)[i] == records[i].0);
    lemma_help_lists_name(names_of(records), i)
}

/// A name alone invokes the command of that name, unless it begins like a
/// request to set or to create: the reply is what is stored under it, and its
/// absence is an error.
pub proof fn lemma_name_invokes(
    stored: Map<Seq<char>, Seq<char>>,
    sender: Seq<char>,
    name: Seq<char>,
)
    requires
        !name.contains(' '),
        !has_prefix(name, set_prefix()),
        name.len() == 0 || name[0] != CREATE_COMMAND_SYMBOL,
    ensures
        intent_of(name) == (Intent::Invoke { name }),
        stored_after(stored, sender, name) == stored,
        reply_to(stored, sender, name) == (if stored.contains_key(name) {
            Ok::<Seq<char>, Failure>(stored[name])
        } else {
            Err::<Seq<char>, Failure>(Failure::MissingCommand(name))
        }),
{
    lemma_split_without_space(name);
}

/// `set`, a name, a space and a payload ask to set that command to that
/// payload: the privileged sender replaces the contents of a stored command
/// and is told so.
pub proof fn lemma_set_line(
    stored: Map<Seq<char>, Seq<char>>,
    sender: Seq<char>,
    name: Seq<char>,
    payload: Seq<char>,
)
    requires
        !name.contains(' '),
    ensures
        intent_of(set_prefix() + name + seq![' '] + payload) == (Intent::Update { name, payload }),
        is_privileged(sender) && stored.contains_key(name) ==> {
            let body = set_prefix() + name + seq![' '] + payload;
            &&& stored_after(stored, sender, body) == stored.insert(name, payload)
            &&& reply_to(stored, sender, body) == Ok::<Seq<char>, Failure>(updated_reply(name))
        },
{
    let head = set_prefix() + name;
    assert(!head.contains(' ')) by {
        if head.contains(' ') {
            let j = head.index_of(' ');
            assert(name[j - 3] == ' ');
            assert(name.contains(' '));
        }
    }
    lemma_split_at_space(head, payload);
    assert(head.subrange(0, 3) =~= set_prefix());
    assert(head.skip(3) =~= name);
}

/// The create symbol, a name, a space and a payload ask to create that
/// command with that payload: the privileged sender stores a valid new name
/// with a payload that is not empty, and is told so.
pub proof fn lemma_create_line(
    stored: Map<Seq<char>, Seq<char>>,
    sender: Seq<char>,
    name: Seq<char>,
    payload: Seq<char>,
)
    requires
        !name.contains(' '),
    ensures
        intent_of(seq![CREATE_COMMAND_SYMBOL] + name + seq![' '] + payload) == (Intent::Create {
            name,
            payload,
        }),
        is_privileged(sender) && create_refusal(stored, name, payload) is None ==> {
            let body = seq![CREATE_COMMAND_SYMBOL] + name + seq![' '] + payload;
            &&& stored_after(stored, sender, body) == stored.insert(name, payload)
            &&& reply_to(stored, sender, body) == Ok::<Seq<char>, Failure>(created_reply(name))
        },
{
    let head = seq![CREATE_COMMAND_SYMBOL] + name;
    assert(!head.contains(' ')) by {
        if head.contains(' ') {
            let j = head.index_of(' ');
            assert(name[j - 1] == ' ');
            assert(name.contains(' '));
        }
    }
    lemma_split_at_space(head, payload);
    assert(!has_prefix(head, set_prefix())) by {
        if has_prefix(head, set_prefix()) {
            assert(head.subrange(0, 3)[0] == 's');
        }
    }
    assert(head.skip(1) =~= name);
}

/// A sender without privilege changes nothing, whatever the line asks for.
pub proof fn lemma_unprivileged_changes_nothing(
    records: Seq<(Seq<char>, Seq<char>)>,
    sender: Seq<char>,
    body: Seq<char>,
)
    requires
        !is_privileged(sender),
    ensures
        records_after(records, sender, body) == records,
        !(intent_of(body) is Invoke) ==> reply_to(mapping_of(records), sender, body) == Ok::<
            Seq<char>,
            Failure,
        >(decline_reply(sender)),
{
}

} // verus!
