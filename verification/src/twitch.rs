//! The chat wire protocol: reading a line, writing one, and deciding what a
//! listener does with a line it read.

use crate::command::{
    records_after, reply_to, stored_after, write_due, CommandHandler, COMMAND_SYMBOL,
};
use crate::messages::{Platform, PlatformMessage};
use crate::text::{
    after_first_token, find_char, find_from, first_token, lemma_find_from_is,
    lemma_split_at_space, lemma_split_without_space, same_text, skip_chars, split_first,
};
use vstd::prelude::*;

verus! {

/// A line of the protocol, read or to be written.
#[derive(Debug, Clone, PartialEq, Eq)]
pub enum TwitchMessage {
    /// A request to join `channel`.
    JOIN { channel: String },
    /// A chat message of `sender` in `channel`.
    PRIVMSG { sender: String, channel: String, msg: String },
    /// Any other line, kept as it was read.
    UNIMPLEMENTED { msg: String },
}

/// A `TwitchMessage` over sequences of characters.
pub enum Frame {
    Join { channel: Seq<char> },
    ChatLine { sender: Seq<char>, channel: Seq<char>, text: Seq<char> },
    Unimplemented { raw: Seq<char> },
}

impl View for TwitchMessage {
    type V = Frame;

    open spec fn view(&self) -> Frame {
        match self {
            TwitchMessage::JOIN { channel } => Frame::Join { channel: channel@ },
            TwitchMessage::PRIVMSG { sender, channel, msg } => Frame::ChatLine {
                sender: sender@,
                channel: channel@,
                text: msg@,
            },
            TwitchMessage::UNIMPLEMENTED { msg } => Frame::Unimplemented { raw: msg@ },
        }
    }
}

/// Why a line could not be read.
#[derive(Debug, Clone, Copy, PartialEq, Eq, Structural)]
pub enum ParseError {
    /// The line holds nothing.
    EmptyLine,
}

/// The verb of a join request.
pub open spec fn join_verb() -> Seq<char> {
    seq!['J', 'O', 'I', 'N']
}

/// The verb of a chat message.
pub open spec fn chat_verb() -> Seq<char> {
    seq!['P', 'R', 'I', 'V', 'M', 'S', 'G']
}

/// What a line says. Its tokens are what single spaces separate.
///
/// A line whose first token is `JOIN` and whose second begins with `#` asks to
/// join the channel named behind the `#`.
///
/// A line is a chat message where its first token begins with `:`, its second
/// is `PRIVMSG`, its third begins with `#`, and what follows the third space
/// begins with `:` and holds two more characters at least. The sender stands
/// between the leading `:` and the first `!` of the first token (its end where
/// it holds none), the channel behind the `#`, and the text behind the second
/// `:`, without the line's last two characters, which end the line.
///
/// Every other line is kept whole.
pub open spec fn frame_of(line: Seq<char>) -> Frame {
    let t0 = first_token(line);
    let r1 = after_first_token(line);
    let t1 = first_token(r1);
    let r2 = after_first_token(r1);
    let t2 = first_token(r2);
    let r3 = after_first_token(r2);
    if t0 == join_verb() && t1.len() > 0 && t1[0] == '#' {
        Frame::Join { channel: t1.skip(1) }
    } else if t0.len() > 0 && t0[0] == ':' && t1 == chat_verb() && t2.len() > 0 && t2[0] == '#'
        && r3.len() >= 3 && r3[0] == ':' {
        Frame::ChatLine {
            sender: t0.subrange(1, find_from(t0, '!', 1)),
            channel: t2.skip(1),
            text: r3.subrange(1, r3.len() - 2),
        }
    } else {
        Frame::Unimplemented { raw: line }
    }
}

/// The line that says `frame`, without the two characters that end a line.
pub open spec fn line_of(frame: Frame) -> Seq<char> {
    match frame {
        Frame::Join { channel } => join_verb() + seq![' ', '#'] + channel,
        Frame::ChatLine { sender, channel, text } => chat_verb() + seq![' ', '#'] + channel + seq![
            ' ',
            ':',
        ] + text,
        Frame::Unimplemented { raw } => raw,
    }
}

/// The message as a sentence for a log.
pub open spec fn description_of(frame: Frame) -> Seq<char> {
    match frame {
        Frame::Join { channel } => "JOIN ( channel: "@ + channel + " )"@,
        Frame::ChatLine { sender, channel, text } => "PRIVMSG ( sender: "@ + sender
            + ", channel: "@ + channel + ", msg: "@ + text + " )"@,
        Frame::Unimplemented { raw } => "UNIMPLEMENTED ( msg: "@ + raw + " )"@,
    }
}

impl TwitchMessage {
    /// Reads a line. Only an empty line is an error: a line that is neither a
    /// join request nor a chat message is kept as `UNIMPLEMENTED`.
    pub fn parse(line: &str) -> (parsed: Result<TwitchMessage, ParseError>)
        ensures
            match parsed {
                Ok(message) => line@.len() > 0 && message@ == frame_of(line@),
                Err(e) => line@.len() == 0 && e == ParseError::EmptyLine,
            },
    {
        if line.is_empty() {
            return Err(ParseError::EmptyLine);
        }
        let (t0, r1) = split_first(line);
        let (t1, r2) = split_first(r1);
        let (t2, r3) = split_first(r2);
        proof {
            reveal_strlit("JOIN");
            reveal_strlit("PRIVMSG");
            assert("JOIN"@ =~= join_verb());
            assert("PRIVMSG"@ =~= chat_verb());
        }
        if same_text(t0, "JOIN") && t1.unicode_len() > 0 && t1.get_char(0) == '#' {
            return Ok(TwitchMessage::JOIN { channel: String::from_str(skip_chars(t1, 1)) });
        }
        let n3: usize = r3.unicode_len();
        if t0.unicode_len() > 0 && t0.get_char(0) == ':' && same_text(t1, "PRIVMSG")
            && t2.unicode_len() > 0 && t2.get_char(0) == '#' && n3 >= 3 && r3.get_char(0) == ':' {
            let bang: usize = find_char(t0, '!', 1);
            Ok(
                TwitchMessage::PRIVMSG {
                    sender: String::from_str(t0.substring_char(1, bang)),
                    channel: String::from_str(skip_chars(t2, 1)),
                    msg: String::from_str(r3.substring_char(1, n3 - 2)),
                },
            )
        } else {
            Ok(TwitchMessage::UNIMPLEMENTED { msg: String::from_str(line) })
        }
    }

    /// The line to write for a join request or a chat message; a line that was
    /// kept whole is written as it was read.
    pub fn to_line(&self) -> (line: String)
        ensures
            line@ == line_of(self@),
    {
        proof {
            reveal_strlit("JOIN #");
            reveal_strlit("PRIVMSG #");
            reveal_strlit(" :");
            assert("JOIN #"@ =~= join_verb() + seq![' ', '#']);
            assert("PRIVMSG #"@ =~= chat_verb() + seq![' ', '#']);
            assert(" :"@ =~= seq![' ', ':']);
        }
        match self {
            TwitchMessage::JOIN { channel } => {
                let mut line = String::from_str("JOIN #");
                line.append(channel.as_str());
                line
            },
            TwitchMessage::PRIVMSG { sender: _, channel, msg } => {
                let mut line = String::from_str("PRIVMSG #");
                line.append(channel.as_str());
                line.append(" :");
                line.append(msg.as_str());
                line
            },
            TwitchMessage::UNIMPLEMENTED { msg } => msg.clone(),
        }
    }

    /// The message as a sentence for a log.
    pub fn describe(&self) -> (text: String)
        ensures
            text@ == description_of(self@),
    {
        match self {
            TwitchMessage::JOIN { channel } => {
                let mut text = String::from_str("JOIN ( channel: ");
                text.append(channel.as_str());
                text.append(" )");
                text
            },
            TwitchMessage::PRIVMSG { sender, channel, msg } => {
                let mut text = String::from_str("PRIVMSG ( sender: ");
                text.append(sender.as_str());
                text.append(", channel: ");
                text.append(channel.as_str());
                text.append(", msg: ");
                text.append(msg.as_str());
                text.append(" )");
                text
            },
            TwitchMessage::UNIMPLEMENTED { msg } => {
                let mut text = String::from_str("UNIMPLEMENTED ( msg: ");
                text.append(msg.as_str());
                text.append(" )");
                text
            },
        }
    }

    /// A chat message as the listeners hand it on.
    pub fn into_platform_message(self) -> (message: PlatformMessage)
        requires
            self is PRIVMSG,
        ensures
            message@ == (self@->sender, self@->text, Platform::Twitch),
    {
        match self {
            TwitchMessage::PRIVMSG { sender, channel: _, msg } => PlatformMessage {
                sender,
                msg,
                platform: Platform::Twitch,
            },
            _ => unreached(),
        }
    }
}

/// The name under which the bot speaks, and of the channel it speaks in.
pub open spec fn bot_name() -> Seq<char> {
    "zartisimo"@
}

/// The lines that open a session: the token, the nick, and the request to join
/// the bot's channel.
pub fn login_lines(token: &str) -> (lines: Vec<String>)
    ensures
        lines@.len() == 3,
        lines@[0]@ == "PASS oauth:"@ + token@,
        lines@[1]@ == "NICK zartisimo"@,
        lines@[2]@ == line_of(Frame::Join { channel: bot_name() }),
{
    let mut pass = String::from_str("PASS oauth:");
    pass.append(token);
    let join = TwitchMessage::JOIN { channel: String::from_str("zartisimo") };
    let mut lines: Vec<String> = Vec::new();
    lines.push(pass);
    lines.push(String::from_str("NICK zartisimo"));
    lines.push(join.to_line());
    lines
}

/// What a listener does with a line it read.
#[derive(Debug, Clone, PartialEq, Eq)]
pub enum Reaction {
    /// Write this line back, and the store to its file where a write is due.
    Reply { line: String, write_due: bool },
    /// Hand this message on to whoever shows the chat.
    Forward(PlatformMessage),
    /// Nothing.
    Ignore,
}

/// A `Reaction` over sequences of characters.
pub enum ReactionView {
    Reply(Seq<char>, bool),
    Forward(Seq<char>, Seq<char>, Platform),
    Ignore,
}

impl View for Reaction {
    type V = ReactionView;

    open spec fn view(&self) -> ReactionView {
        match self {
            Reaction::Reply { line, write_due } => ReactionView::Reply(line@, *write_due),
            Reaction::Forward(message) => ReactionView::Forward(
                message@.0,
                message@.1,
                message@.2,
            ),
            Reaction::Ignore => ReactionView::Ignore,
        }
    }
}

/// Whether a chat text invokes a command.
pub open spec fn is_command(text: Seq<char>) -> bool {
    text.len() > 0 && text[0] == COMMAND_SYMBOL
}

/// What a listener does with `line` where the store holds `stored`. A chat
/// message that begins with the invocation symbol is dispatched without it,
/// and the reply, if there is one, goes back as a chat message of the bot in
/// its channel, with the word whether the store is to be written; one that
/// fails is passed over. Any other chat message is
/// handed on. Nothing is done for any other line, nor for an empty one.
pub open spec fn reaction_to(stored: Map<Seq<char>, Seq<char>>, line: Seq<char>) -> ReactionView {
    if line.len() == 0 {
        ReactionView::Ignore
    } else {
        match frame_of(line) {
            Frame::ChatLine { sender, channel, text } => if is_command(text) {
                match reply_to(stored, sender, text.skip(1)) {
                    Ok(reply) => ReactionView::Reply(
                        line_of(
                            Frame::ChatLine {
                                sender: bot_name(),
                                channel: bot_name(),
                                text: reply,
                            },
                        ),
                        write_due(stored, sender, text.skip(1)),
                    ),
                    Err(_) => ReactionView::Ignore,
                }
            } else {
                ReactionView::Forward(sender, text, Platform::Twitch)
            },
            _ => ReactionView::Ignore,
        }
    }
}

/// The records that the store holds after a listener read `line`.
pub open spec fn records_after_line(records: Seq<(Seq<char>, Seq<char>)>, line: Seq<char>) -> Seq<
    (Seq<char>, Seq<char>),
> {
    if line.len() == 0 {
        records
    } else {
        match frame_of(line) {
            Frame::ChatLine { sender, channel, text } => if is_command(text) {
                records_after(records, sender, text.skip(1))
            } else {
                records
            },
            _ => records,
        }
    }
}

/// The commands that the store holds after a listener read `line`.
pub open spec fn stored_after_line(stored: Map<Seq<char>, Seq<char>>, line: Seq<char>) -> Map<
    Seq<char>,
    Seq<char>,
> {
    if line.len() == 0 {
        stored
    } else {
        match frame_of(line) {
            Frame::ChatLine { sender, channel, text } => if is_command(text) {
                stored_after(stored, sender, text.skip(1))
            } else {
                stored
            },
            _ => stored,
        }
    }
}

/// Decides what a listener does with a line it read, and dispatches the line
/// against the store where it invokes a command.
pub fn react(command_handler: &mut CommandHandler, line: &str) -> (reaction: Reaction)
    requires
        old(command_handler).wf(),
    ensures
        final(command_handler).wf(),
        final(command_handler).records() == records_after_line(
            old(command_handler).records(),
            line@,
        ),
        final(command_handler)@ == stored_after_line(old(command_handler)@, line@),
        reaction@ == reaction_to(old(command_handler)@, line@),
{
    match TwitchMessage::parse(line) {
        Ok(TwitchMessage::PRIVMSG { sender, channel, msg }) => {
            if msg.as_str().unicode_len() > 0 && msg.as_str().get_char(0) == COMMAND_SYMBOL {
                let body = String::from_str(skip_chars(msg.as_str(), 1));
                match command_handler.dispatch(sender, body) {
                    (Ok(Some(response)), write_due) => {
                        let answer = TwitchMessage::PRIVMSG {
                            sender: String::from_str("zartisimo"),
                            channel: String::from_str("zartisimo"),
                            msg: response,
                        };
                        Reaction::Reply { line: answer.to_line(), write_due }
                    },
                    _ => Reaction::Ignore,
                }
            } else {
                let message = TwitchMessage::PRIVMSG { sender, channel, msg };
                Reaction::Forward(message.into_platform_message())
            }
        },
        _ => Reaction::Ignore,
    }
}

/// A join request whose channel holds no space is read back from its line as
/// it was written.
pub proof fn lemma_join_round_trip(channel: Seq<char>)
    requires
        !channel.contains(' '),
    ensures
        frame_of(line_of(Frame::Join { channel })) == (Frame::Join { channel }),
{
    let target = seq!['#'] + channel;
    let line = line_of(Frame::Join { channel });
    assert(line =~= join_verb() + seq![' '] + target);
    assert(!join_verb().contains(' '));
    lemma_split_at_space(join_verb(), target);
    assert(!target.contains(' ')) by {
        if target.contains(' ') {
            let j = target.index_of(' ');
            assert(channel[j - 1] == ' ');
            assert(channel.contains(' '));
        }
    }
    lemma_split_without_space(target);
    assert(target.skip(1) =~= channel);
}

/// The line on which the service sends a chat message: the sender's prefix,
/// the verb, the channel and the text, and the two characters that end a line.
pub open spec fn chat_line(sender: Seq<char>, host: Seq<char>, channel: Seq<char>, text: Seq<char>)
    -> Seq<char> {
    seq![':'] + sender + seq!['!'] + host + seq![' '] + chat_verb() + seq![' ', '#'] + channel
        + seq![' ', ':'] + text + seq!['\r', '\n']
}

/// A chat message is read from its line as it was sent, whatever its text
/// holds, where the sender holds neither a space nor a `!` and the host and
/// the channel hold no space.
pub proof fn lemma_chat_line_is_read(
    sender: Seq<char>,
    host: Seq<char>,
    channel: Seq<char>,
    text: Seq<char>,
)
    requires
        !sender.contains(' '),
        !sender.contains('!'),
        !host.contains(' '),
        !channel.contains(' '),
    ensures
        chat_line(sender, host, channel, text).len() > 0,
        frame_of(chat_line(sender, host, channel, text)) == (Frame::ChatLine {
            sender,
            channel,
            text,
        }),
{
    let line = chat_line(sender, host, channel, text);
    let t0 = seq![':'] + sender + seq!['!'] + host;
    let t2 = seq!['#'] + channel;
    let r3 = seq![':'] + text + seq!['\r', '\n'];
    let r2 = t2 + seq![' '] + r3;
    let r1 = chat_verb() + seq![' '] + r2;
    assert(line =~= t0 + seq![' '] + r1);
    assert(!t0.contains(' ')) by {
        if t0.contains(' ') {
            let j = t0.index_of(' ');
            if j >= 1 && j < 1 + sender.len() {
                assert(sender[j - 1] == ' ');
                assert(sender.contains(' '));
            } else if j > 1 + sender.len() {
                assert(host[j - 2 - sender.len()] == ' ');
                assert(host.contains(' '));
            }
        }
    }
    assert(!t2.contains(' ')) by {
        if t2.contains(' ') {
            let j = t2.index_of(' ');
            assert(channel[j - 1] == ' ');
            assert(channel.contains(' '));
        }
    }
    assert(!chat_verb().contains(' '));
    lemma_split_at_space(t0, r1);
    lemma_split_at_space(chat_verb(), r2);
    lemma_split_at_space(t2, r3);
    assert(t0 != join_verb()) by {
        assert(t0[0] == ':');
    }
    let bang = 1 + sender.len() as int;
    assert forall|j: int| 1 <= j < bang implies t0[j] != '!' by {
        assert(t0[j] == sender[j - 1]);
        assert(sender.contains(t0[j]));
    }
    assert(t0[bang] == '!');
    lemma_find_from_is(t0, '!', 1, bang);
    assert(t0.subrange(1, bang) =~= sender);
    assert(t2.skip(1) =~= channel);
    assert(r3.subrange(1, r3.len() - 2) =~= text);
}

} // verus!
