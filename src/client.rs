//! A local IRC client session.
use vstd::prelude::*;
use crate::connection::{Connection, ConnectionView, ping_step, pong_step, with_channel};
use crate::message::{HostmaskView, Hostmask, Message, CommandView, built, hostmask_text};

verus! {

pub struct Client {
    pub conn: Connection,
    pub username: String,
    /// The peer's address, captured when the connection was accepted.
    pub hostname: String,
    pub realname: String,
}

pub struct ClientView {
    pub conn: ConnectionView,
    pub username: Seq<char>,
    pub hostname: Seq<char>,
    pub realname: Seq<char>,
}

impl View for Client {
    type V = ClientView;

    open spec fn view(&self) -> ClientView {
        ClientView {
            conn: self.conn@,
            username: self.username@,
            hostname: self.hostname@,
            realname: self.realname@,
        }
    }
}

/// A client is registered once it has given both a nickname and a username.
pub open spec fn registered(c: ClientView) -> bool {
    c.conn.nick.len() > 0 && c.username.len() > 0
}

/// `nick!username@peer`.
pub open spec fn client_hostmask(c: ClientView) -> HostmaskView {
    HostmaskView::User(c.conn.nick, c.username, c.hostname)
}

/// The parameter of the welcome numeric sent to `c`.
pub open spec fn welcome_param(c: ClientView) -> Seq<char> {
    c.conn.nick + " :Welcome to the Internet Relay Network "@ + hostmask_text(client_hostmask(c))
}

impl Client {
    /// A fresh, unregistered session with connection id `id`, labelled `name`,
    /// whose peer has the address `peer_ip`.
    pub fn from_peer(id: usize, name: String, peer_ip: String) -> (r: Client)
        ensures
            r@.conn == (ConnectionView {
                id: id as nat,
                name: name@,
                connected: true,
                ping_active: false,
                nick: seq![],
                channels: seq![],
            }),
            r@.username == Seq::<char>::empty(),
            r@.hostname == peer_ip@,
            r@.realname == Seq::<char>::empty(),
    {
        Client {
            conn: Connection::new(id, name),
            username: String::new(),
            hostname: peer_ip,
            realname: String::new(),
        }
    }

    pub fn get_nick(&self) -> (r: String)
        ensures
            r@ == self@.conn.nick,
    {
        self.conn.get_nick()
    }

    pub fn nick(&self) -> (r: String)
        ensures
            r@ == self@.conn.nick,
    {
        self.conn.get_nick()
    }

    pub fn set_nick(&mut self, value: String)
        ensures
            final(self)@ == (ClientView {
                conn: ConnectionView { nick: value@, ..old(self)@.conn },
                ..old(self)@
            }),
    {
        self.conn.set_nick(value);
    }

    pub fn set_userdata(&mut self, username: String, realname: String)
        ensures
            final(self)@ == (ClientView { username: username@, realname: realname@, ..old(self)@ }),
    {
        self.username = username;
        self.realname = realname;
    }

    pub fn is_registered(&self) -> (r: bool)
        ensures
            r == registered(self@),
    {
        self.conn.nick.unicode_len() > 0 && self.username.unicode_len() > 0
    }

    pub fn hostmask(&self) -> (r: Hostmask)
        ensures
            r@ == client_hostmask(self@),
    {
        Hostmask::User(self.conn.get_nick(), self.username.clone(), self.hostname.clone())
    }

    /// `001 <nick> :Welcome to the Internet Relay Network <hostmask>` from `hostmask`.
    pub fn welcome_msg(&self, hostmask: Hostmask) -> (m: Message)
        ensures
            m@ == built(hostmask@, CommandView::RPL_WELCOME(welcome_param(self@))),
    {
        let mut param = self.conn.get_nick();
        param.append(" :Welcome to the Internet Relay Network ");
        param.append(self.hostmask().to_string().as_str());
        Message::rpl_welcome(hostmask, param.as_str())
    }

    pub fn has_channel(&self, channel: &str) -> (r: bool)
        ensures
            r == self@.conn.channels.contains(channel@),
    {
        self.conn.has_channel(channel)
    }

    pub fn add_channel(&mut self, channel: &str)
        ensures
            final(self)@ == (ClientView {
                conn: ConnectionView {
                    channels: with_channel(old(self)@.conn.channels, channel@),
                    ..old(self)@.conn
                },
                ..old(self)@
            }),
    {
        self.conn.add_channel(channel);
    }

    pub fn id(&self) -> (r: usize)
        ensures
            r == self.conn.id,
    {
        self.conn.id()
    }

    pub fn name(&self) -> (r: String)
        ensures
            r@ == self@.conn.name,
    {
        self.conn.name()
    }

    pub fn is_connected(&self) -> (r: bool)
        ensures
            r == self@.conn.connected,
    {
        self.conn.is_connected()
    }

    pub fn set_connected(&mut self, value: bool)
        ensures
            final(self)@ == (ClientView {
                conn: ConnectionView { connected: value, ..old(self)@.conn },
                ..old(self)@
            }),
    {
        self.conn.set_connected(value);
    }

    /// Attempts a ping; `true` means a PING is to be sent.
    pub fn try_ping(&mut self) -> (r: bool)
        ensures
            (final(self)@.conn, r) == ping_step(old(self)@.conn),
            final(self)@ == (ClientView { conn: final(self)@.conn, ..old(self)@ }),
    {
        self.conn.try_ping()
    }

    pub fn register_pong(&mut self)
        ensures
            final(self)@ == (ClientView { conn: pong_step(old(self)@.conn), ..old(self)@ }),
    {
        self.conn.register_pong();
    }
}

} // verus!
