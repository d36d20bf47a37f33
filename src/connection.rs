//! What the dispatcher knows of one connection: identity, liveness, nickname
//! and joined channels.
use vstd::prelude::*;
use crate::text::{same_text, strs};

verus! {

pub struct Connection {
    pub id: usize,
    pub name: String,
    pub connected: bool,
    pub ping_active: bool,
    pub nick: String,
    pub channels: Vec<String>,
}

pub struct ConnectionView {
    pub id: nat,
    pub name: Seq<char>,
    pub connected: bool,
    pub ping_active: bool,
    pub nick: Seq<char>,
    pub channels: Seq<Seq<char>>,
}

impl View for Connection {
    type V = ConnectionView;

    open spec fn view(&self) -> ConnectionView {
        ConnectionView {
            id: self.id as nat,
            name: self.name@,
            connected: self.connected,
            ping_active: self.ping_active,
            nick: self.nick@,
            channels: strs(self.channels@),
        }
    }
}

/// A ping attempt: with a PING still unanswered the connection is dead and
/// no PING goes out; otherwise a PING goes out and awaits its PONG.
pub open spec fn ping_step(c: ConnectionView) -> (ConnectionView, bool) {
    if c.ping_active {
        (ConnectionView { connected: false, ..c }, false)
    } else {
        (ConnectionView { ping_active: true, ..c }, true)
    }
}

/// A PONG clears the pending PING.
pub open spec fn pong_step(c: ConnectionView) -> ConnectionView {
    ConnectionView { ping_active: false, ..c }
}

/// `chans` with `chan` added, unless it is there already.
pub open spec fn with_channel(chans: Seq<Seq<char>>, chan: Seq<char>) -> Seq<Seq<char>> {
    if chans.contains(chan) {
        chans
    } else {
        chans.push(chan)
    }
}

/// `chans` without the first occurrence of `chan`.
pub open spec fn without_channel(chans: Seq<Seq<char>>, chan: Seq<char>) -> Seq<Seq<char>>
    decreases chans.len(),
{
    if chans.len() == 0 {
        chans
    } else if chans[0] == chan {
        chans.drop_first()
    } else {
        seq![chans[0]] + without_channel(chans.drop_first(), chan)
    }
}

/// A second ping without a PONG in between finds the connection dead.
pub proof fn lemma_unanswered_ping_disconnects(c: ConnectionView)
    ensures
        !ping_step(ping_step(c).0).0.connected,
        !ping_step(ping_step(c).0).1,
{
}

/// A PONG between two pings lets the second ping go out.
pub proof fn lemma_pong_rearms_ping(c: ConnectionView)
    ensures
        ping_step(pong_step(ping_step(c).0)).1,
{
}

impl Connection {
    pub fn new(id: usize, name: String) -> (r: Connection)
        ensures
            r@ == (ConnectionView {
                id: id as nat,
                name: name@,
                connected: true,
                ping_active: false,
                nick: seq![],
                channels: seq![],
            }),
    {
        let r = Connection {
            id,
            name,
            connected: true,
            ping_active: false,
            nick: String::new(),
            channels: Vec::new(),
        };
        assert(strs(r.channels@) =~= seq![]);
        r
    }

    pub fn id(&self) -> (r: usize)
        ensures
            r == self.id,
    {
        self.id
    }

    pub fn name(&self) -> (r: String)
        ensures
            r@ == self@.name,
    {
        self.name.clone()
    }

    pub fn is_connected(&self) -> (r: bool)
        ensures
            r == self@.connected,
    {
        self.connected
    }

    pub fn set_connected(&mut self, value: bool)
        ensures
            final(self)@ == (ConnectionView { connected: value, ..old(self)@ }),
    {
        self.connected = value;
    }

    /// Attempts a ping; `true` means a PING is to be sent.
    pub fn try_ping(&mut self) -> (r: bool)
        ensures
            (final(self)@, r) == ping_step(old(self)@),
    {
        if self.ping_active {
            self.connected = false;
            false
        } else {
            self.ping_active = true;
            true
        }
    }

    pub fn register_pong(&mut self)
        ensures
            final(self)@ == pong_step(old(self)@),
    {
        self.ping_active = false;
    }

    pub fn get_nick(&self) -> (r: String)
        ensures
            r@ == self@.nick,
    {
        self.nick.clone()
    }

    pub fn set_nick(&mut self, value: String)
        ensures
            final(self)@ == (ConnectionView { nick: value@, ..old(self)@ }),
    {
        self.nick = value;
    }

    pub fn has_channel(&self, channel: &str) -> (r: bool)
        ensures
            r == self@.channels.contains(channel@),
    {
        let mut i: usize = 0;
        while i < self.channels.len()
            invariant
                i <= self.channels.len(),
                forall|k: int| 0 <= k < i ==> self@.channels[k] != channel@,
            decreases self.channels.len() - i,
        {
            if same_text(self.channels[i].as_str(), channel) {
                assert(self@.channels[i as int] == channel@);
                return true;
            }
            i = i + 1;
        }
        false
    }

    pub fn add_channel(&mut self, channel: &str)
        ensures
            final(self)@ == (ConnectionView {
                channels: with_channel(old(self)@.channels, channel@),
                ..old(self)@
            }),
    {
        if !self.has_channel(channel) {
            let ghost before = self.channels@;
            self.channels.push(String::from_str(channel));
            assert(strs(self.channels@) =~= strs(before).push(channel@));
        }
    }

    pub fn remove_channel(&mut self, channel: &str)
        ensures
            final(self)@ == (ConnectionView {
                channels: without_channel(old(self)@.channels, channel@),
                ..old(self)@
            }),
    {
        let mut i: usize = 0;
        assert(self@.channels.skip(0) =~= self@.channels);
        assert(self@.channels.take(0) + self@.channels =~= self@.channels);
        while i < self.channels.len()
            invariant
                self@ == old(self)@,
                i <= self.channels.len(),
                forall|k: int| 0 <= k < i ==> self@.channels[k] != channel@,
                without_channel(self@.channels, channel@) == self@.channels.take(i as int)
                    + without_channel(self@.channels.skip(i as int), channel@),
            decreases self.channels.len() - i,
        {
            let ghost v = self@.channels;
            assert(v.skip(i as int).drop_first() =~= v.skip(i + 1));
            assert(v.skip(i as int)[0] == v[i as int]);
            assert(v[i as int] == self.channels@[i as int]@);
            if same_text(self.channels[i].as_str(), channel) {
                self.channels.remove(i);
                assert(strs(self.channels@) =~= v.take(i as int) + v.skip(i + 1));
                return;
            }
            assert(v.take(i + 1) =~= v.take(i as int) + seq![v[i as int]]);
            i = i + 1;
        }
        assert(self@.channels.skip(i as int) =~= seq![]);
        assert(self@.channels.take(i as int) =~= self@.channels);
    }
}

} // verus!
