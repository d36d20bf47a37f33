//! An upstream IRC server connection.
use vstd::prelude::*;
use crate::config::{Config, ConfigView};
use crate::connection::{
    Connection, ConnectionView, ping_step, pong_step, with_channel, without_channel,
};
use crate::message::{HostmaskView, Hostmask};

verus! {

pub struct Server {
    pub conn: Connection,
    pub config: Config,
    pub username: String,
    pub hostname: String,
}

pub struct ServerView {
    pub conn: ConnectionView,
    pub config: ConfigView,
    pub username: Seq<char>,
    pub hostname: Seq<char>,
}

impl View for Server {
    type V = ServerView;

    open spec fn view(&self) -> ServerView {
        ServerView {
            conn: self.conn@,
            config: self.config@,
            username: self.username@,
            hostname: self.hostname@,
        }
    }
}

impl Server {
    /// The record of the server of `config`, reached as connection `id`.
    pub fn new(id: usize, config: Config) -> (r: Server)
        ensures
            r@.conn == (ConnectionView {
                id: id as nat,
                name: config@.name,
                connected: true,
                ping_active: false,
                nick: seq![],
                channels: seq![],
            }),
            r@.config == config@,
            r@.username == Seq::<char>::empty(),
            r@.hostname == Seq::<char>::empty(),
    {
        let name = config.name.clone();
        Server {
            conn: Connection::new(id, name),
            config,
            username: String::new(),
            hostname: String::new(),
        }
    }

    pub fn get_nick(&self) -> (r: String)
        ensures
            r@ == self@.conn.nick,
    {
        self.conn.get_nick()
    }

    pub fn set_nick(&mut self, value: String)
        ensures
            final(self)@ == (ServerView {
                conn: ConnectionView { nick: value@, ..old(self)@.conn },
                ..old(self)@
            }),
    {
        self.conn.set_nick(value);
    }

    pub fn set_userdata(&mut self, username: String, hostname: String)
        ensures
            final(self)@ == (ServerView { username: username@, hostname: hostname@, ..old(self)@ }),
    {
        self.username = username;
        self.hostname = hostname;
    }

    pub fn hostmask(&self) -> (r: Hostmask)
        ensures
            r@ == HostmaskView::User(self@.conn.nick, self@.username, self@.hostname),
    {
        Hostmask::User(self.conn.get_nick(), self.username.clone(), self.hostname.clone())
    }

    pub fn has_channel(&self, channel: &str) -> (r: bool)
        ensures
            r == self@.conn.channels.contains(channel@),
    {
        self.conn.has_channel(channel)
    }

    pub fn add_channel(&mut self, channel: &str)
        ensures
            final(self)@ == (ServerView {
                conn: ConnectionView {
                    channels: with_channel(old(self)@.conn.channels, channel@),
                    ..old(self)@.conn
                },
                ..old(self)@
            }),
    {
        self.conn.add_channel(channel);
    }

    pub fn remove_channel(&mut self, channel: &str)
        ensures
            final(self)@ == (ServerView {
                conn: ConnectionView {
                    channels: without_channel(old(self)@.conn.channels, channel@),
                    ..old(self)@.conn
                },
                ..old(self)@
            }),
    {
        self.conn.remove_channel(channel);
    }

    pub fn id(&self) -> (r: usize)
        ensures
            r == self.conn.id,
    {
        self.conn.id()
    }

    /// The network's label, from the configuration.
    pub fn name(&self) -> (r: String)
        ensures
            r@ == self@.config.name,
    {
        self.config.name.clone()
    }

    pub fn is_connected(&self) -> (r: bool)
        ensures
            r == self@.conn.connected,
    {
        self.conn.is_connected()
    }

    pub fn set_connected(&mut self, value: bool)
        ensures
            final(self)@ == (ServerView {
                conn: ConnectionView { connected: value, ..old(self)@.conn },
                ..old(self)@
            }),
    {
        self.conn.set_connected(value);
    }

    /// Attempts a ping; `true` means a PING is to be sent.
    pub fn try_ping(&mut self) -> (r: bool)
        ensures
            (final(self)@.conn, r) == ping_step(old(self)@.conn),
            final(self)@ == (ServerView { conn: final(self)@.conn, ..old(self)@ }),
    {
        self.conn.try_ping()
    }

    pub fn register_pong(&mut self)
        ensures
            final(self)@ == (ServerView { conn: pong_step(old(self)@.conn), ..old(self)@ }),
    {
        self.conn.register_pong();
    }
}

} // verus!
