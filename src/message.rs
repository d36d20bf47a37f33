//! IRC messages: the source hostmask, the recognised commands, and the codec
//! between them and wire lines.
use vstd::prelude::*;
use crate::text::{
    after_colon, is_atom, is_mark, is_space, is_text, is_word, join, lemma_join_tokens,
    lemma_sections_concat, lemma_sections_plain, lemma_tokens_concat, lemma_tokens_some,
    lemma_tokens_word, rest_from, spaceless, lemma_spaceless_concat, lemma_markless_concat,
    lemma_first_token, same_text, sections, split_marks, split_words, strs,
    text_after_colon, tokens, word_at, word_or_empty, join_from,
};

verus! {

/// The source of a message.
#[derive(Clone, Debug)]
pub enum Hostmask {
    User(String, String, String),
    Server(String),
    Empty,
}

pub enum HostmaskView {
    User(Seq<char>, Seq<char>, Seq<char>),
    Server(Seq<char>),
    Empty,
}

impl View for Hostmask {
    type V = HostmaskView;

    open spec fn view(&self) -> HostmaskView {
        match self {
            Hostmask::User(n, u, h) => HostmaskView::User(n@, u@, h@),
            Hostmask::Server(s) => HostmaskView::Server(s@),
            Hostmask::Empty => HostmaskView::Empty,
        }
    }
}

/// The recognised commands and their parameters.
#[allow(non_camel_case_types)]
#[derive(Clone, Debug)]
pub enum Command {
    RPL_WELCOME(String),
    PING(String),
    PONG(String),
    USER(String, String, String, String),
    NICK(String),
    PASS(String),
    JOIN(String),
    PART(String, String),
    QUIT(String, String),
    PRIVMSG(String, String),
    NOTICE(String, String),
    UNDEFINED,
}

#[allow(non_camel_case_types)]
pub enum CommandView {
    RPL_WELCOME(Seq<char>),
    PING(Seq<char>),
    PONG(Seq<char>),
    USER(Seq<char>, Seq<char>, Seq<char>, Seq<char>),
    NICK(Seq<char>),
    PASS(Seq<char>),
    JOIN(Seq<char>),
    PART(Seq<char>, Seq<char>),
    QUIT(Seq<char>, Seq<char>),
    PRIVMSG(Seq<char>, Seq<char>),
    NOTICE(Seq<char>, Seq<char>),
    UNDEFINED,
}

impl View for Command {
    type V = CommandView;

    open spec fn view(&self) -> CommandView {
        match self {
            Command::RPL_WELCOME(p) => CommandView::RPL_WELCOME(p@),
            Command::PING(p) => CommandView::PING(p@),
            Command::PONG(p) => CommandView::PONG(p@),
            Command::USER(u, h, s, r) => CommandView::USER(u@, h@, s@, r@),
            Command::NICK(n) => CommandView::NICK(n@),
            Command::PASS(p) => CommandView::PASS(p@),
            Command::JOIN(c) => CommandView::JOIN(c@),
            Command::PART(c, m) => CommandView::PART(c@, m@),
            Command::QUIT(c, m) => CommandView::QUIT(c@, m@),
            Command::PRIVMSG(c, m) => CommandView::PRIVMSG(c@, m@),
            Command::NOTICE(c, m) => CommandView::NOTICE(c@, m@),
            Command::UNDEFINED => CommandView::UNDEFINED,
        }
    }
}

/// A message: its source, its command, and the line it was parsed from or rendered to.
#[derive(Clone, Debug)]
pub struct Message {
    pub hostmask: Hostmask,
    pub command: Command,
    pub raw: String,
}

pub struct MessageView {
    pub hostmask: HostmaskView,
    pub command: CommandView,
    pub raw: Seq<char>,
}

impl View for Message {
    type V = MessageView;

    open spec fn view(&self) -> MessageView {
        MessageView { hostmask: self.hostmask@, command: self.command@, raw: self.raw@ }
    }
}

/// `nick!user@host`, a server name, or nothing.
pub open spec fn hostmask_text(h: HostmaskView) -> Seq<char> {
    match h {
        HostmaskView::User(n, u, host) => n + "!"@ + u + "@"@ + host,
        HostmaskView::Server(s) => s,
        HostmaskView::Empty => seq![],
    }
}

/// A line body with its source prefix, which is left out when there is no source.
pub open spec fn prefixed(h: HostmaskView, body: Seq<char>) -> Seq<char> {
    match h {
        HostmaskView::Empty => body,
        _ => ":"@ + hostmask_text(h) + " "@ + body,
    }
}

/// The verb of a command followed by its arguments.
pub open spec fn command_text(c: CommandView) -> Seq<char> {
    match c {
        CommandView::RPL_WELCOME(p) => "001"@ + " "@ + p,
        CommandView::PING(p) => "PING"@ + " "@ + p,
        CommandView::PONG(p) => "PONG"@ + " "@ + p,
        CommandView::USER(u, h, s, r) => "USER"@ + " "@ + u + " "@ + h + " "@ + s + " "@ + ":"@
            + r,
        CommandView::NICK(n) => "NICK"@ + " "@ + n,
        CommandView::PASS(p) => "PASS"@ + " "@ + p,
        CommandView::JOIN(c) => "JOIN"@ + " "@ + c,
        CommandView::PART(c, m) => "PART"@ + " "@ + c + " "@ + ":"@ + m,
        CommandView::QUIT(c, m) => "QUIT"@ + " "@ + c + " "@ + ":"@ + m,
        CommandView::PRIVMSG(c, m) => "PRIVMSG"@ + " "@ + c + " "@ + ":"@ + m,
        CommandView::NOTICE(c, m) => "NOTICE"@ + " "@ + c + " "@ + ":"@ + m,
        CommandView::UNDEFINED => seq![],
    }
}

/// The wire line of a message from `h` carrying `c`.
pub open spec fn render(h: HostmaskView, c: CommandView) -> Seq<char> {
    prefixed(h, command_text(c))
}

/// The message that a constructor builds.
pub open spec fn built(h: HostmaskView, c: CommandView) -> MessageView {
    MessageView { hostmask: h, command: c, raw: render(h, c) }
}

/// `s` without its first character.
pub open spec fn drop_lead(s: Seq<char>) -> Seq<char> {
    if s.len() > 0 {
        s.drop_first()
    } else {
        seq![]
    }
}

/// The hostmask of a source prefix token, `:` included: three sections are a
/// user, a single one a server name.
pub open spec fn prefix_hostmask(tok: Seq<char>) -> HostmaskView {
    let secs = sections(tok);
    if secs.len() == 3 {
        HostmaskView::User(drop_lead(secs[0]), secs[1], secs[2])
    } else if secs.len() == 1 {
        HostmaskView::Server(drop_lead(tok))
    } else {
        HostmaskView::Server(tok)
    }
}

/// Whether a line opens with a source prefix.
pub open spec fn has_prefix(line: Seq<char>) -> bool {
    line.len() > 0 && line[0] == ':'
}

pub open spec fn parse_hostmask(line: Seq<char>) -> HostmaskView {
    if has_prefix(line) {
        prefix_hostmask(tokens(line)[0])
    } else {
        HostmaskView::Empty
    }
}

/// The command whose verb is the word of `ws` at index `k`.
pub open spec fn command_of_words(ws: Seq<Seq<char>>, k: int) -> CommandView {
    let v = word_at(ws, k);
    if v == "001"@ {
        CommandView::RPL_WELCOME(rest_from(ws, k + 1))
    } else if v == "PING"@ {
        CommandView::PING(rest_from(ws, k + 1))
    } else if v == "PONG"@ {
        CommandView::PONG(rest_from(ws, k + 1))
    } else if v == "USER"@ {
        CommandView::USER(
            word_at(ws, k + 1),
            word_at(ws, k + 2),
            word_at(ws, k + 3),
            after_colon(rest_from(ws, k + 4)),
        )
    } else if v == "NICK"@ {
        CommandView::NICK(word_at(ws, k + 1))
    } else if v == "PASS"@ {
        CommandView::PASS(word_at(ws, k + 1))
    } else if v == "JOIN"@ {
        CommandView::JOIN(word_at(ws, k + 1))
    } else if v == "PART"@ {
        CommandView::PART(word_at(ws, k + 1), after_colon(rest_from(ws, k + 2)))
    } else if v == "QUIT"@ {
        CommandView::QUIT(word_at(ws, k + 1), after_colon(rest_from(ws, k + 2)))
    } else if v == "PRIVMSG"@ {
        CommandView::PRIVMSG(word_at(ws, k + 1), after_colon(rest_from(ws, k + 2)))
    } else if v == "NOTICE"@ {
        CommandView::NOTICE(word_at(ws, k + 1), after_colon(rest_from(ws, k + 2)))
    } else {
        CommandView::UNDEFINED
    }
}

pub open spec fn parse_command(line: Seq<char>) -> CommandView {
    command_of_words(tokens(line), if has_prefix(line) { 1 } else { 0 })
}

/// The message that a wire line parses to.
pub open spec fn parse(line: Seq<char>) -> MessageView {
    MessageView { hostmask: parse_hostmask(line), command: parse_command(line), raw: line }
}

/// The hostmask that `read_hostmask` reads from `nick!user@host` or a server name.
pub open spec fn hostmask_of(s: Seq<char>) -> HostmaskView {
    let secs = sections(s);
    if secs.len() == 3 {
        HostmaskView::User(secs[0], secs[1], secs[2])
    } else {
        HostmaskView::Server(secs[0])
    }
}

impl Hostmask {
    /// The text of the hostmask: `nick!user@host`, the server name, or nothing.
    pub fn to_string(&self) -> (r: String)
        ensures
            r@ == hostmask_text(self@),
    {
        match self {
            Hostmask::User(n, u, h) => {
                let mut r = n.clone();
                r.append("!");
                r.append(u.as_str());
                r.append("@");
                r.append(h.as_str());
                r
            },
            Hostmask::Server(s) => s.clone(),
            Hostmask::Empty => String::new(),
        }
    }

    /// A copy with the same view.
    pub fn duplicate(&self) -> (r: Hostmask)
        ensures
            r@ == self@,
    {
        match self {
            Hostmask::User(n, u, h) => Hostmask::User(n.clone(), u.clone(), h.clone()),
            Hostmask::Server(s) => Hostmask::Server(s.clone()),
            Hostmask::Empty => Hostmask::Empty,
        }
    }
}

impl PartialEq for Hostmask {
    fn eq(&self, other: &Hostmask) -> (r: bool) {
        match (self, other) {
            (Hostmask::User(a1, a2, a3), Hostmask::User(b1, b2, b3)) => same_text(a1.as_str(), b1.as_str()) && same_text(a2.as_str(), b2.as_str())
                && same_text(a3.as_str(), b3.as_str()),
            (Hostmask::Server(a), Hostmask::Server(b)) => same_text(a.as_str(), b.as_str()),
            (Hostmask::Empty, Hostmask::Empty) => true,
            _ => false,
        }
    }
}

impl vstd::std_specs::cmp::PartialEqSpecImpl for Hostmask {
    open spec fn obeys_eq_spec() -> bool {
        true
    }

    open spec fn eq_spec(&self, other: &Hostmask) -> bool {
        self@ == other@
    }
}

impl PartialEq for Command {
    fn eq(&self, other: &Command) -> (r: bool) {
        match (self, other) {
            (Command::RPL_WELCOME(a), Command::RPL_WELCOME(b)) => same_text(a.as_str(), b.as_str()),
            (Command::PING(a), Command::PING(b)) => same_text(a.as_str(), b.as_str()),
            (Command::PONG(a), Command::PONG(b)) => same_text(a.as_str(), b.as_str()),
            (Command::USER(a1, a2, a3, a4), Command::USER(b1, b2, b3, b4)) => same_text(a1.as_str(), b1.as_str()) && same_text(a2.as_str(), b2.as_str())
                && same_text(a3.as_str(), b3.as_str()) && same_text(a4.as_str(), b4.as_str()),
            (Command::NICK(a), Command::NICK(b)) => same_text(a.as_str(), b.as_str()),
            (Command::PASS(a), Command::PASS(b)) => same_text(a.as_str(), b.as_str()),
            (Command::JOIN(a), Command::JOIN(b)) => same_text(a.as_str(), b.as_str()),
            (Command::PART(a1, a2), Command::PART(b1, b2)) => same_text(a1.as_str(), b1.as_str()) && same_text(a2.as_str(), b2.as_str()),
            (Command::QUIT(a1, a2), Command::QUIT(b1, b2)) => same_text(a1.as_str(), b1.as_str()) && same_text(a2.as_str(), b2.as_str()),
            (Command::PRIVMSG(a1, a2), Command::PRIVMSG(b1, b2)) => same_text(a1.as_str(), b1.as_str()) && same_text(a2.as_str(), b2.as_str()),
            (Command::NOTICE(a1, a2), Command::NOTICE(b1, b2)) => same_text(a1.as_str(), b1.as_str()) && same_text(a2.as_str(), b2.as_str()),
            (Command::UNDEFINED, Command::UNDEFINED) => true,
            _ => false,
        }
    }
}

impl vstd::std_specs::cmp::PartialEqSpecImpl for Command {
    open spec fn obeys_eq_spec() -> bool {
        true
    }

    open spec fn eq_spec(&self, other: &Command) -> bool {
        self@ == other@
    }
}

/// `verb arg`.
fn verb_arg(verb: &str, arg: &str) -> (r: String)
    ensures
        r@ == verb@ + " "@ + arg@,
{
    let mut r = String::from_str(verb);
    r.append(" ");
    r.append(arg);
    r
}

/// `verb target :text`.
fn verb_target_text(verb: &str, target: &str, text: &str) -> (r: String)
    ensures
        r@ == verb@ + " "@ + target@ + " "@ + ":"@ + text@,
{
    let mut r = verb_arg(verb, target);
    r.append(" ");
    r.append(":");
    r.append(text);
    r
}

/// Puts the source prefix of `hostmask` in front of `body`.
fn with_prefix(hostmask: &Hostmask, body: String) -> (r: String)
    ensures
        r@ == prefixed(hostmask@, body@),
{
    match hostmask {
        Hostmask::Empty => body,
        _ => {
            let mut r = String::from_str(":");
            r.append(hostmask.to_string().as_str());
            r.append(" ");
            r.append(body.as_str());
            r
        },
    }
}

/// The hostmask of a source prefix token.
fn prefix_of(tok: &str) -> (h: Hostmask)
    ensures
        h@ == prefix_hostmask(tok@),
{
    let secs = split_marks(tok);
    proof {
        assert(strs(secs@).len() == secs@.len());
    }
    if secs.len() == 3 {
        proof {
            assert(strs(secs@)[0] == secs@[0]@);
            assert(strs(secs@)[1] == secs@[1]@);
            assert(strs(secs@)[2] == secs@[2]@);
        }
        Hostmask::User(without_lead(secs[0].as_str()), secs[1].clone(), secs[2].clone())
    } else if secs.len() == 1 {
        Hostmask::Server(without_lead(tok))
    } else {
        Hostmask::Server(String::from_str(tok))
    }
}

/// `s` without its first character.
fn without_lead(s: &str) -> (r: String)
    ensures
        r@ == drop_lead(s@),
{
    let n = s.unicode_len();
    if n == 0 {
        String::new()
    } else {
        String::from_str(s.substring_char(1, n))
    }
}

/// The command whose verb is the word of `ws` at index `k`.
fn command_from_words(ws: &Vec<String>, k: usize) -> (c: Command)
    requires
        k <= 1,
    ensures
        c@ == command_of_words(strs(ws@), k as int),
{
    let v = word_or_empty(ws, k);
    let v = v.as_str();
    if same_text(v, "001") {
        Command::RPL_WELCOME(join_from(ws, k + 1))
    } else if same_text(v, "PING") {
        Command::PING(join_from(ws, k + 1))
    } else if same_text(v, "PONG") {
        Command::PONG(join_from(ws, k + 1))
    } else if same_text(v, "USER") {
        let rest = join_from(ws, k + 4);
        Command::USER(
            word_or_empty(ws, k + 1),
            word_or_empty(ws, k + 2),
            word_or_empty(ws, k + 3),
            text_after_colon(rest.as_str()),
        )
    } else if same_text(v, "NICK") {
        Command::NICK(word_or_empty(ws, k + 1))
    } else if same_text(v, "PASS") {
        Command::PASS(word_or_empty(ws, k + 1))
    } else if same_text(v, "JOIN") {
        Command::JOIN(word_or_empty(ws, k + 1))
    } else if same_text(v, "PART") {
        let rest = join_from(ws, k + 2);
        Command::PART(word_or_empty(ws, k + 1), text_after_colon(rest.as_str()))
    } else if same_text(v, "QUIT") {
        let rest = join_from(ws, k + 2);
        Command::QUIT(word_or_empty(ws, k + 1), text_after_colon(rest.as_str()))
    } else if same_text(v, "PRIVMSG") {
        let rest = join_from(ws, k + 2);
        Command::PRIVMSG(word_or_empty(ws, k + 1), text_after_colon(rest.as_str()))
    } else if same_text(v, "NOTICE") {
        let rest = join_from(ws, k + 2);
        Command::NOTICE(word_or_empty(ws, k + 1), text_after_colon(rest.as_str()))
    } else {
        Command::UNDEFINED
    }
}

impl Message {
    /// `001 param`, the welcome numeric.
    pub fn rpl_welcome(hostmask: Hostmask, param: &str) -> (m: Message)
        ensures
            m@ == built(hostmask@, CommandView::RPL_WELCOME(param@)),
    {
        let raw = with_prefix(&hostmask, verb_arg("001", param));
        Message { hostmask, command: Command::RPL_WELCOME(String::from_str(param)), raw }
    }

    /// `PING param`.
    pub fn ping(hostmask: Hostmask, param: &str) -> (m: Message)
        ensures
            m@ == built(hostmask@, CommandView::PING(param@)),
    {
        let raw = with_prefix(&hostmask, verb_arg("PING", param));
        Message { hostmask, command: Command::PING(String::from_str(param)), raw }
    }

    /// `PONG param`.
    pub fn pong(hostmask: Hostmask, param: &str) -> (m: Message)
        ensures
            m@ == built(hostmask@, CommandView::PONG(param@)),
    {
        let raw = with_prefix(&hostmask, verb_arg("PONG", param));
        Message { hostmask, command: Command::PONG(String::from_str(param)), raw }
    }

    /// `USER username * 0 :realname`.
    pub fn user(hostmask: Hostmask, username: &str, realname: &str) -> (m: Message)
        ensures
            m@ == built(hostmask@, CommandView::USER(username@, "*"@, "0"@, realname@)),
    {
        let mut body = verb_arg("USER", username);
        body.append(" ");
        body.append("*");
        body.append(" ");
        body.append("0");
        body.append(" ");
        body.append(":");
        body.append(realname);
        let raw = with_prefix(&hostmask, body);
        let command = Command::USER(
            String::from_str(username),
            String::from_str("*"),
            String::from_str("0"),
            String::from_str(realname),
        );
        Message { hostmask, command, raw }
    }

    /// `NICK nickname`.
    pub fn nick(hostmask: Hostmask, nickname: &str) -> (m: Message)
        ensures
            m@ == built(hostmask@, CommandView::NICK(nickname@)),
    {
        let raw = with_prefix(&hostmask, verb_arg("NICK", nickname));
        Message { hostmask, command: Command::NICK(String::from_str(nickname)), raw }
    }

    /// `PASS password`.
    pub fn pass(hostmask: Hostmask, password: &str) -> (m: Message)
        ensures
            m@ == built(hostmask@, CommandView::PASS(password@)),
    {
        let raw = with_prefix(&hostmask, verb_arg("PASS", password));
        Message { hostmask, command: Command::PASS(String::from_str(password)), raw }
    }

    /// `JOIN chan`.
    pub fn join(hostmask: Hostmask, chan: &str) -> (m: Message)
        ensures
            m@ == built(hostmask@, CommandView::JOIN(chan@)),
    {
        let raw = with_prefix(&hostmask, verb_arg("JOIN", chan));
        Message { hostmask, command: Command::JOIN(String::from_str(chan)), raw }
    }

    /// `PART chan :message`.
    pub fn part(hostmask: Hostmask, chan: &str, message: &str) -> (m: Message)
        ensures
            m@ == built(hostmask@, CommandView::PART(chan@, message@)),
    {
        let raw = with_prefix(&hostmask, verb_target_text("PART", chan, message));
        Message {
            hostmask,
            command: Command::PART(String::from_str(chan), String::from_str(message)),
            raw,
        }
    }

    /// `QUIT chan :message`.
    pub fn quit(hostmask: Hostmask, chan: &str, message: &str) -> (m: Message)
        ensures
            m@ == built(hostmask@, CommandView::QUIT(chan@, message@)),
    {
        let raw = with_prefix(&hostmask, verb_target_text("QUIT", chan, message));
        Message {
            hostmask,
            command: Command::QUIT(String::from_str(chan), String::from_str(message)),
            raw,
        }
    }

    /// `PRIVMSG chan :message`.
    pub fn privmsg(hostmask: Hostmask, chan: &str, message: &str) -> (m: Message)
        ensures
            m@ == built(hostmask@, CommandView::PRIVMSG(chan@, message@)),
    {
        let raw = with_prefix(&hostmask, verb_target_text("PRIVMSG", chan, message));
        Message {
            hostmask,
            command: Command::PRIVMSG(String::from_str(chan), String::from_str(message)),
            raw,
        }
    }

    /// `NOTICE chan :message`.
    pub fn notice(hostmask: Hostmask, chan: &str, message: &str) -> (m: Message)
        ensures
            m@ == built(hostmask@, CommandView::NOTICE(chan@, message@)),
    {
        let raw = with_prefix(&hostmask, verb_target_text("NOTICE", chan, message));
        Message {
            hostmask,
            command: Command::NOTICE(String::from_str(chan), String::from_str(message)),
            raw,
        }
    }

    /// Reads `nick!user@host` as a user and anything else as a server name.
    pub fn read_hostmask(hostmask: &str) -> (h: Hostmask)
        ensures
            h@ == hostmask_of(hostmask@),
    {
        let secs = split_marks(hostmask);
        proof {
            assert(strs(secs@).len() == secs@.len());
            crate::text::lemma_sections_some(hostmask@);
            assert(strs(secs@)[0] == secs@[0]@);
        }
        if secs.len() == 3 {
            proof {
                assert(strs(secs@)[1] == secs@[1]@);
                assert(strs(secs@)[2] == secs@[2]@);
            }
            Hostmask::User(secs[0].clone(), secs[1].clone(), secs[2].clone())
        } else {
            Hostmask::Server(secs[0].clone())
        }
    }

    /// Parses a wire line.
    pub fn from_string(line: &str) -> (m: Message)
        ensures
            m@ == parse(line@),
    {
        let words = split_words(line);
        let lead = line.unicode_len() > 0 && line.get_char(0) == ':';
        let hostmask = if lead {
            proof {
                lemma_tokens_some(line@, 0);
                assert(strs(words@)[0] == words@[0]@);
            }
            prefix_of(words[0].as_str())
        } else {
            Hostmask::Empty
        };
        let k: usize = if lead {
            1
        } else {
            0
        };
        let command = command_from_words(&words, k);
        Message { hostmask, command, raw: String::from_str(line) }
    }

    /// The wire line of the message.
    pub fn to_string(&self) -> (r: String)
        ensures
            r@ == self@.raw,
    {
        self.raw.clone()
    }
}

} // verus!
verus! {

/// A hostmask whose parts hold neither whitespace nor `!` or `@`.
pub open spec fn hostmask_ok(h: HostmaskView) -> bool {
    match h {
        HostmaskView::User(n, u, host) => is_atom(n) && is_atom(u) && is_atom(host),
        HostmaskView::Server(s) => is_atom(s),
        HostmaskView::Empty => true,
    }
}

/// A command that a constructor builds, whose single-token parameters are words
/// and whose trailing parameters are texts.
pub open spec fn command_ok(c: CommandView) -> bool {
    match c {
        CommandView::RPL_WELCOME(p) => is_text(p),
        CommandView::PING(p) => is_text(p),
        CommandView::PONG(p) => is_text(p),
        CommandView::USER(u, h, s, r) => is_word(u) && is_word(h) && is_word(s) && is_text(r),
        CommandView::NICK(n) => is_word(n),
        CommandView::PASS(p) => is_word(p),
        CommandView::JOIN(c) => is_word(c),
        CommandView::PART(c, m) => is_word(c) && is_text(m),
        CommandView::QUIT(c, m) => is_word(c) && is_text(m),
        CommandView::PRIVMSG(c, m) => is_word(c) && is_text(m),
        CommandView::NOTICE(c, m) => is_word(c) && is_text(m),
        CommandView::UNDEFINED => false,
    }
}

proof fn lemma_literals()
    ensures
        " "@ == seq![' '],
        ":"@ == seq![':'],
        "!"@ == seq!['!'],
        "@"@ == seq!['@'],
        "001"@ == seq!['0', '0', '1'],
        "PING"@ == seq!['P', 'I', 'N', 'G'],
        "PONG"@ == seq!['P', 'O', 'N', 'G'],
        "USER"@ == seq!['U', 'S', 'E', 'R'],
        "NICK"@ == seq!['N', 'I', 'C', 'K'],
        "PASS"@ == seq!['P', 'A', 'S', 'S'],
        "JOIN"@ == seq!['J', 'O', 'I', 'N'],
        "PART"@ == seq!['P', 'A', 'R', 'T'],
        "QUIT"@ == seq!['Q', 'U', 'I', 'T'],
        "PRIVMSG"@ == seq!['P', 'R', 'I', 'V', 'M', 'S', 'G'],
        "NOTICE"@ == seq!['N', 'O', 'T', 'I', 'C', 'E'],
{
    reveal_strlit(" ");
    reveal_strlit(":");
    reveal_strlit("!");
    reveal_strlit("@");
    reveal_strlit("001");
    reveal_strlit("PING");
    reveal_strlit("PONG");
    reveal_strlit("USER");
    reveal_strlit("NICK");
    reveal_strlit("PASS");
    reveal_strlit("JOIN");
    reveal_strlit("PART");
    reveal_strlit("QUIT");
    reveal_strlit("PRIVMSG");
    reveal_strlit("NOTICE");
    assert(" "@ =~= seq![' ']);
    assert(":"@ =~= seq![':']);
    assert("!"@ =~= seq!['!']);
    assert("@"@ =~= seq!['@']);
    assert("001"@ =~= seq!['0', '0', '1']);
    assert("PING"@ =~= seq!['P', 'I', 'N', 'G']);
    assert("PONG"@ =~= seq!['P', 'O', 'N', 'G']);
    assert("USER"@ =~= seq!['U', 'S', 'E', 'R']);
    assert("NICK"@ =~= seq!['N', 'I', 'C', 'K']);
    assert("PASS"@ =~= seq!['P', 'A', 'S', 'S']);
    assert("JOIN"@ =~= seq!['J', 'O', 'I', 'N']);
    assert("PART"@ =~= seq!['P', 'A', 'R', 'T']);
    assert("QUIT"@ =~= seq!['Q', 'U', 'I', 'T']);
    assert("PRIVMSG"@ =~= seq!['P', 'R', 'I', 'V', 'M', 'S', 'G']);
    assert("NOTICE"@ =~= seq!['N', 'O', 'T', 'I', 'C', 'E']);
}

/// The verb of a command.
pub open spec fn verb_of(c: CommandView) -> Seq<char> {
    match c {
        CommandView::RPL_WELCOME(_) => "001"@,
        CommandView::PING(_) => "PING"@,
        CommandView::PONG(_) => "PONG"@,
        CommandView::USER(..) => "USER"@,
        CommandView::NICK(_) => "NICK"@,
        CommandView::PASS(_) => "PASS"@,
        CommandView::JOIN(_) => "JOIN"@,
        CommandView::PART(..) => "PART"@,
        CommandView::QUIT(..) => "QUIT"@,
        CommandView::PRIVMSG(..) => "PRIVMSG"@,
        CommandView::NOTICE(..) => "NOTICE"@,
        CommandView::UNDEFINED => seq![],
    }
}

proof fn lemma_verb(c: CommandView)
    requires
        command_ok(c),
    ensures
        is_word(verb_of(c)),
        verb_of(c)[0] != ':',
{
    lemma_literals();
    let v = verb_of(c);
    assert(is_word(v)) by {
        assert forall|i: int| 0 <= i < v.len() implies !is_space(#[trigger] v[i]) by {
            assert(v[i] == 'P' || v[i] == 'I' || v[i] == 'N' || v[i] == 'G' || v[i] == 'O' || v[i]
                == 'U' || v[i] == 'S' || v[i] == 'E' || v[i] == 'R' || v[i] == 'C' || v[i] == 'K'
                || v[i] == 'A' || v[i] == 'J' || v[i] == 'T' || v[i] == 'Q' || v[i] == 'V' || v[i]
                == 'M' || v[i] == '0' || v[i] == '1');
        }
    }
}

proof fn lemma_shape_text(v: Seq<char>, p: Seq<char>)
    requires
        is_word(v),
    ensures
        tokens(v + " "@ + p) == seq![v] + tokens(p),
{
    lemma_literals();
    lemma_tokens_concat(v, p);
    lemma_tokens_word(v);
}

proof fn lemma_colon_text(m: Seq<char>)
    requires
        is_text(m),
    ensures
        join(tokens(":"@ + m)) == ":"@ + m,
        after_colon(":"@ + m) == m,
{
    lemma_literals();
    let t = ":"@ + m;
    assert(is_text(t)) by {
        assert forall|i: int| 0 <= i < t.len() && is_space(#[trigger] t[i]) implies t[i] == ' ' && 0
            < i < t.len() - 1 && !is_space(t[i + 1]) by {
            assert(t[0] == ':');
            if i > 0 {
                assert(t[i] == m[i - 1]);
                assert(i < t.len() - 1 ==> t[i + 1] == m[i]);
            }
        }
    }
    lemma_join_tokens(t);
    assert(t.drop_first() =~= m);
}

/// How the words of a command's text give the command back, after `pre`.
proof fn lemma_command_words(pre: Seq<Seq<char>>, c: CommandView)
    requires
        command_ok(c),
    ensures
        command_of_words(pre + tokens(command_text(c)), pre.len() as int) == c,
        command_text(c).len() > 0,
        command_text(c)[0] == verb_of(c)[0],
{
    lemma_literals();
    lemma_verb(c);
    let v = verb_of(c);
    let k = pre.len() as int;
    match c {
        CommandView::RPL_WELCOME(p) => {
            lemma_shape_text(v, p);
            let ws = pre + (seq![v] + tokens(p));
            assert(ws.skip(k + 1) =~= tokens(p));
            lemma_join_tokens(p);
            assert(word_at(ws, k) == v);
        },
        CommandView::PING(p) => {
            lemma_shape_text(v, p);
            let ws = pre + (seq![v] + tokens(p));
            assert(ws.skip(k + 1) =~= tokens(p));
            lemma_join_tokens(p);
            assert(word_at(ws, k) == v);
        },
        CommandView::PONG(p) => {
            lemma_shape_text(v, p);
            let ws = pre + (seq![v] + tokens(p));
            assert(ws.skip(k + 1) =~= tokens(p));
            lemma_join_tokens(p);
            assert(word_at(ws, k) == v);
        },
        CommandView::USER(u, h, s, r) => {
            let t = ":"@ + r;
            assert(command_text(c) =~= v + " "@ + (u + " "@ + (h + " "@ + (s + " "@ + t))));
            lemma_shape_text(v, u + " "@ + (h + " "@ + (s + " "@ + t)));
            lemma_shape_text(u, h + " "@ + (s + " "@ + t));
            lemma_shape_text(h, s + " "@ + t);
            lemma_shape_text(s, t);
            let ws = pre + (seq![v] + (seq![u] + (seq![h] + (seq![s] + tokens(t)))));
            assert(ws.skip(k + 4) =~= tokens(t));
            lemma_colon_text(r);
            assert(word_at(ws, k) == v);
            assert(word_at(ws, k + 1) == u);
            assert(word_at(ws, k + 2) == h);
            assert(word_at(ws, k + 3) == s);
        },
        CommandView::NICK(x) => {
            lemma_shape_text(v, x);
            lemma_tokens_word(x);
            let ws = pre + (seq![v] + seq![x]);
            assert(word_at(ws, k) == v);
            assert(word_at(ws, k + 1) == x);
        },
        CommandView::PASS(x) => {
            lemma_shape_text(v, x);
            lemma_tokens_word(x);
            let ws = pre + (seq![v] + seq![x]);
            assert(word_at(ws, k) == v);
            assert(word_at(ws, k + 1) == x);
        },
        CommandView::JOIN(x) => {
            lemma_shape_text(v, x);
            lemma_tokens_word(x);
            let ws = pre + (seq![v] + seq![x]);
            assert(word_at(ws, k) == v);
            assert(word_at(ws, k + 1) == x);
        },
        CommandView::PART(x, m) => {
            lemma_pair_words(pre, v, x, m);
        },
        CommandView::QUIT(x, m) => {
            lemma_pair_words(pre, v, x, m);
        },
        CommandView::PRIVMSG(x, m) => {
            lemma_pair_words(pre, v, x, m);
        },
        CommandView::NOTICE(x, m) => {
            lemma_pair_words(pre, v, x, m);
        },
        CommandView::UNDEFINED => {},
    }
}

proof fn lemma_pair_words(pre: Seq<Seq<char>>, v: Seq<char>, x: Seq<char>, m: Seq<char>)
    requires
        is_word(v),
        is_word(x),
        is_text(m),
    ensures
        ({
            let ws = pre + tokens(v + " "@ + x + " "@ + ":"@ + m);
            &&& word_at(ws, pre.len() as int) == v
            &&& word_at(ws, pre.len() as int + 1) == x
            &&& after_colon(rest_from(ws, pre.len() as int + 2)) == m
        }),
{
    lemma_literals();
    let k = pre.len() as int;
    let t = ":"@ + m;
    assert(v + " "@ + x + " "@ + ":"@ + m =~= v + " "@ + (x + " "@ + t));
    lemma_shape_text(v, x + " "@ + t);
    lemma_shape_text(x, t);
    let ws = pre + (seq![v] + (seq![x] + tokens(t)));
    assert(ws.skip(k + 2) =~= tokens(t));
    lemma_colon_text(m);
    assert(word_at(ws, k) == v);
    assert(word_at(ws, k + 1) == x);
}

/// The source prefix token of a well-formed hostmask reads back as that hostmask.
proof fn lemma_prefix_token(h: HostmaskView)
    requires
        hostmask_ok(h),
        !(h is Empty),
    ensures
        is_word(":"@ + hostmask_text(h)),
        prefix_hostmask(":"@ + hostmask_text(h)) == h,
{
    lemma_literals();
    let colon = ":"@;
    assert(spaceless(colon) && !is_mark(colon[0]));
    match h {
        HostmaskView::User(n, u, host) => {
            let tok = colon + hostmask_text(h);
            let head = colon + n;
            lemma_markless_concat(colon, n);
            assert(tok =~= head + seq!['!'] + (u + seq!['@'] + host));
            lemma_sections_concat(head, '!', u + seq!['@'] + host);
            lemma_sections_concat(u, '@', host);
            lemma_sections_plain(head);
            lemma_sections_plain(u);
            lemma_sections_plain(host);
            assert(head.drop_first() =~= n);
            lemma_spaceless_concat(colon, n);
            assert(spaceless(seq!['!']) && spaceless(seq!['@']));
            lemma_spaceless_concat(head, seq!['!']);
            lemma_spaceless_concat(u, seq!['@']);
            lemma_spaceless_concat(u + seq!['@'], host);
            lemma_spaceless_concat(head + seq!['!'], u + seq!['@'] + host);
            assert(sections(tok) =~= seq![head, u, host]);
        },
        HostmaskView::Server(s) => {
            let tok = colon + s;
            lemma_markless_concat(colon, s);
            lemma_sections_plain(tok);
            lemma_spaceless_concat(colon, s);
            assert(tok.drop_first() =~= s);
        },
        HostmaskView::Empty => {},
    }
}

/// Rendering a message from a well-formed hostmask and command, then parsing
/// the line, gives back the same hostmask and the same command.
pub proof fn lemma_round_trip(h: HostmaskView, c: CommandView)
    requires
        hostmask_ok(h),
        command_ok(c),
    ensures
        parse(render(h, c)).hostmask == h,
        parse(render(h, c)).command == c,
{
    lemma_literals();
    let body = command_text(c);
    if h is Empty {
        lemma_command_words(seq![], c);
        lemma_verb(c);
        assert(seq![] + tokens(body) =~= tokens(body));
    } else {
        let tok = ":"@ + hostmask_text(h);
        lemma_prefix_token(h);
        lemma_command_words(seq![tok], c);
        assert(render(h, c) =~= tok + seq![' '] + body);
        lemma_tokens_concat(tok, body);
        lemma_tokens_word(tok);
        assert(render(h, c)[0] == ':');
    }
}

/// A line whose first character is not whitespace has a source exactly when
/// its first token opens with `:`.
pub proof fn lemma_source_iff_colon(line: Seq<char>)
    requires
        line.len() == 0 || !is_space(line[0]),
    ensures
        (parse(line).hostmask != HostmaskView::Empty) <==> (tokens(line).len() > 0
            && tokens(line)[0][0] == ':'),
{
    if line.len() > 0 {
        lemma_first_token(line);
    } else {
        assert(tokens(line) =~= seq![]);
    }
}

} // verus!
