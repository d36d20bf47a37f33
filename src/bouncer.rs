//! The dispatcher: it owns the server and client records, decides what each
//! event does to them, and names the lines to send on which connection.
//! Sockets, threads and queues stay with the caller, which performs the
//! returned actions in order.
use vstd::prelude::*;
use crate::client::{Client, ClientView, client_hostmask, registered, welcome_param};
use crate::config::{Config, ConfigView};
use crate::connection::{ConnectionView, ping_step, pong_step, with_channel, without_channel};
use crate::message::{Command, CommandView, Hostmask, HostmaskView, Message, MessageView, render};
use crate::server::{Server, ServerView};
use crate::text::{
    count_hashes, find_hash, first_hash, hash_count, lemma_first_hash_bound, pieces,
    lemma_hash_count_concat, lemma_no_hash, lemma_first_hash_after,
    same_text, split_on, split_words, strs, tokens, word_at, word_or_empty,
};

verus! {

/// What the caller is to do after an event.
#[derive(Debug)]
pub enum Action {
    /// Queue a line on the server with this id.
    ToServer(usize, String),
    /// Queue a line on the client with this id.
    ToClient(usize, String),
    /// Start the ping worker of the server with this id.
    StartPing(usize),
}

pub enum ActionView {
    ToServer(nat, Seq<char>),
    ToClient(nat, Seq<char>),
    StartPing(nat),
}

impl View for Action {
    type V = ActionView;

    open spec fn view(&self) -> ActionView {
        match self {
            Action::ToServer(i, l) => ActionView::ToServer(*i as nat, l@),
            Action::ToClient(i, l) => ActionView::ToClient(*i as nat, l@),
            Action::StartPing(i) => ActionView::StartPing(*i as nat),
        }
    }
}

impl PartialEq for Action {
    fn eq(&self, other: &Action) -> (r: bool) {
        match (self, other) {
            (Action::ToServer(a, x), Action::ToServer(b, y)) => *a == *b && same_text(
                x.as_str(),
                y.as_str(),
            ),
            (Action::ToClient(a, x), Action::ToClient(b, y)) => *a == *b && same_text(
                x.as_str(),
                y.as_str(),
            ),
            (Action::StartPing(a), Action::StartPing(b)) => *a == *b,
            _ => false,
        }
    }
}

impl vstd::std_specs::cmp::PartialEqSpecImpl for Action {
    open spec fn obeys_eq_spec() -> bool {
        true
    }

    open spec fn eq_spec(&self, other: &Action) -> bool {
        self@ == other@
    }
}

pub open spec fn actions(v: Seq<Action>) -> Seq<ActionView> {
    v.map_values(|a: Action| a@)
}

pub struct Bouncer {
    /// The bouncer's own identity, the source of the lines it makes up for clients.
    pub hostmask: Hostmask,
    pub configs: Vec<Config>,
    /// Indexed by server id.
    pub servers: Vec<Server>,
    /// Indexed by client id.
    pub clients: Vec<Client>,
}

pub struct BouncerView {
    pub hostmask: HostmaskView,
    pub configs: Seq<Config>,
    pub servers: Seq<ServerView>,
    pub clients: Seq<ClientView>,
}

impl View for Bouncer {
    type V = BouncerView;

    open spec fn view(&self) -> BouncerView {
        BouncerView {
            hostmask: self.hostmask@,
            configs: self.configs@,
            servers: self.servers@.map_values(|s: Server| s@),
            clients: self.clients@.map_values(|c: Client| c@),
        }
    }
}

/// A server-local channel name: a `#` and no other.
pub open spec fn is_local_chan(c: Seq<char>) -> bool {
    c.len() > 0 && c[0] == '#' && hash_count(c) == 1
}

/// A composite channel name `#<server>#<channel>`: exactly two `#`, the first
/// at the start.
pub open spec fn is_composite(c: Seq<char>) -> bool {
    c.len() > 0 && c[0] == '#' && hash_count(c) == 2
}

/// The server name of a composite channel name.
pub open spec fn composite_server(c: Seq<char>) -> Seq<char> {
    let r = c.drop_first();
    r.take(first_hash(r))
}

/// The server-local channel of a composite channel name, `#` included.
pub open spec fn composite_chan(c: Seq<char>) -> Seq<char> {
    let r = c.drop_first();
    r.skip(first_hash(r))
}

/// The composite name of channel `chan` of the server named `name`.
pub open spec fn composite_of(name: Seq<char>, chan: Seq<char>) -> Seq<char> {
    "#"@ + name + chan
}

/// The id of the server named `name`; the latest one wins.
pub open spec fn lookup(servers: Seq<ServerView>, name: Seq<char>) -> Option<nat>
    decreases servers.len(),
{
    if servers.len() == 0 {
        None
    } else if servers.last().config.name == name {
        Some((servers.len() - 1) as nat)
    } else {
        lookup(servers.drop_last(), name)
    }
}

/// The dispatcher's invariants: ids are indices, server channels are local
/// names and client channels are composite names.
pub open spec fn wf(b: BouncerView) -> bool {
    &&& forall|i: int| 0 <= i < b.servers.len() ==> (#[trigger] b.servers[i]).conn.id == i
    &&& forall|i: int| 0 <= i < b.clients.len() ==> (#[trigger] b.clients[i]).conn.id == i
    &&& forall|i: int, j: int|
        0 <= i < b.servers.len() && 0 <= j < b.servers[i].conn.channels.len() ==> is_local_chan(
            #[trigger] b.servers[i].conn.channels[j],
        )
    &&& forall|i: int, j: int|
        0 <= i < b.clients.len() && 0 <= j < b.clients[i].conn.channels.len() ==> is_composite(
            #[trigger] b.clients[i].conn.channels[j],
        )
}

pub open spec fn set_server(b: BouncerView, id: nat, s: ServerView) -> BouncerView {
    BouncerView { servers: b.servers.update(id as int, s), ..b }
}

pub open spec fn set_client(b: BouncerView, id: nat, c: ClientView) -> BouncerView {
    BouncerView { clients: b.clients.update(id as int, c), ..b }
}

/// `line` for each client that has joined `chan`, in id order.
pub open spec fn members(clients: Seq<ClientView>, chan: Seq<char>, line: Seq<char>) -> Seq<
    ActionView,
>
    decreases clients.len(),
{
    if clients.len() == 0 {
        seq![]
    } else {
        let rest = members(clients.drop_last(), chan, line);
        if clients.last().conn.channels.contains(chan) {
            rest.push(ActionView::ToClient((clients.len() - 1) as nat, line))
        } else {
            rest
        }
    }
}

/// The JOIN lines for a server's autojoin list.
pub open spec fn autojoins(id: nat, chans: Seq<Seq<char>>) -> Seq<ActionView> {
    chans.map_values(
        |c: Seq<char>| ActionView::ToServer(id, render(HostmaskView::Empty, CommandView::JOIN(c))),
    )
}

/// What a line from server `id` does.
///
/// The server's own JOIN records the channel only when it is a local channel
/// name, so that server channel sets hold nothing else. QUIT is routed by the
/// channel that the command carries, as `Command::QUIT` models it; the wire
/// protocol gives QUIT no channel, so a real server's QUIT reaches the members
/// of whatever its first parameter names.
pub open spec fn srv_step(b: BouncerView, id: nat, m: MessageView) -> (BouncerView, Seq<ActionView>) {
    let s = b.servers[id as int];
    let name = s.config.name;
    let none = HostmaskView::Empty;
    match m.command {
        CommandView::RPL_WELCOME(params) => (
            set_server(
                b,
                id,
                ServerView {
                    conn: ConnectionView { nick: word_at(tokens(params), 0), ..s.conn },
                    ..s
                },
            ),
            seq![ActionView::StartPing(id)] + autojoins(id, s.config.chans),
        ),
        CommandView::PING(p) => (
            b,
            seq![ActionView::ToServer(id, render(none, CommandView::PONG(p)))],
        ),
        CommandView::PONG(_) => (
            set_server(b, id, ServerView { conn: pong_step(s.conn), ..s }),
            seq![],
        ),
        CommandView::JOIN(chan) => match m.hostmask {
            HostmaskView::User(nick, _, _) => if nick == s.conn.nick {
                if is_local_chan(chan) {
                    (
                        set_server(
                            b,
                            id,
                            ServerView {
                                conn: ConnectionView {
                                    channels: with_channel(s.conn.channels, chan),
                                    ..s.conn
                                },
                                ..s
                            },
                        ),
                        seq![],
                    )
                } else {
                    (b, seq![])
                }
            } else {
                let comp = composite_of(name, chan);
                (b, members(b.clients, comp, render(m.hostmask, CommandView::JOIN(comp))))
            },
            _ => (b, seq![]),
        },
        CommandView::PART(chan, text) => match m.hostmask {
            HostmaskView::User(nick, _, _) => if nick == s.conn.nick {
                (
                    set_server(
                        b,
                        id,
                        ServerView {
                            conn: ConnectionView {
                                channels: without_channel(s.conn.channels, chan),
                                ..s.conn
                            },
                            ..s
                        },
                    ),
                    seq![],
                )
            } else {
                let comp = composite_of(name, chan);
                (b, members(b.clients, comp, render(m.hostmask, CommandView::PART(comp, text))))
            },
            _ => (b, seq![]),
        },
        CommandView::QUIT(chan, text) => match m.hostmask {
            HostmaskView::User(nick, _, _) => if nick == s.conn.nick {
                (b, seq![])
            } else {
                let comp = composite_of(name, chan);
                (b, members(b.clients, comp, render(m.hostmask, CommandView::QUIT(comp, text))))
            },
            _ => (b, seq![]),
        },
        CommandView::PRIVMSG(chan, text) => {
            let comp = composite_of(name, chan);
            (b, members(b.clients, comp, render(m.hostmask, CommandView::PRIVMSG(comp, text))))
        },
        CommandView::NOTICE(chan, text) => {
            let comp = composite_of(name, chan);
            (b, members(b.clients, comp, render(m.hostmask, CommandView::NOTICE(comp, text))))
        },
        _ => (b, seq![]),
    }
}

/// The welcome line for client `c`.
pub open spec fn welcome_line(own: HostmaskView, c: ClientView) -> Seq<char> {
    render(own, CommandView::RPL_WELCOME(welcome_param(c)))
}

/// What one entry of a client's JOIN list does.
pub open spec fn join_one(b: BouncerView, id: nat, e: Seq<char>) -> (BouncerView, Seq<ActionView>) {
    let c = b.clients[id as int];
    if !is_composite(e) {
        (b, seq![])
    } else {
        let chan = composite_chan(e);
        let echo = ActionView::ToClient(id, render(client_hostmask(c), CommandView::JOIN(e)));
        match lookup(b.servers, composite_server(e)) {
            Some(sid) => {
                let send = if b.servers[sid as int].conn.channels.contains(chan) {
                    seq![]
                } else {
                    seq![
                        ActionView::ToServer(
                            sid,
                            render(HostmaskView::Empty, CommandView::JOIN(chan)),
                        ),
                    ]
                };
                (
                    set_client(
                        b,
                        id,
                        ClientView {
                            conn: ConnectionView {
                                channels: with_channel(c.conn.channels, e),
                                ..c.conn
                            },
                            ..c
                        },
                    ),
                    send.push(echo),
                )
            },
            None => (b, seq![echo]),
        }
    }
}

/// What the entries of a client's JOIN list do, in order.
pub open spec fn join_entries(b: BouncerView, id: nat, es: Seq<Seq<char>>) -> (
    BouncerView,
    Seq<ActionView>,
)
    decreases es.len(),
{
    if es.len() == 0 {
        (b, seq![])
    } else {
        let (b1, a1) = join_entries(b, id, es.drop_last());
        let (b2, a2) = join_one(b1, id, es.last());
        (b2, a1 + a2)
    }
}

/// The line that relays a client's PRIVMSG or NOTICE to `chan` upstream, if any.
pub open spec fn relay(b: BouncerView, id: nat, chan: Seq<char>, cmd: CommandView) -> Seq<
    ActionView,
> {
    if is_composite(chan) && b.clients[id as int].conn.channels.contains(chan) {
        match lookup(b.servers, composite_server(chan)) {
            Some(sid) => seq![ActionView::ToServer(sid, render(HostmaskView::Empty, cmd))],
            None => seq![],
        }
    } else {
        seq![]
    }
}

/// What a line from client `id` does.
pub open spec fn clnt_step(b: BouncerView, id: nat, m: MessageView) -> (BouncerView, Seq<ActionView>) {
    let c = b.clients[id as int];
    match m.command {
        CommandView::USER(u, _, _, rn) => {
            let c2 = ClientView { username: u, realname: rn, ..c };
            (
                set_client(b, id, c2),
                if registered(c2) {
                    seq![ActionView::ToClient(id, welcome_line(b.hostmask, c2))]
                } else {
                    seq![]
                },
            )
        },
        CommandView::NICK(n) => {
            let c2 = ClientView { conn: ConnectionView { nick: n, ..c.conn }, ..c };
            (
                set_client(b, id, c2),
                if registered(c2) && !registered(c) {
                    seq![ActionView::ToClient(id, welcome_line(b.hostmask, c2))]
                } else {
                    seq![]
                },
            )
        },
        CommandView::PING(p) => (
            b,
            seq![ActionView::ToClient(id, render(b.hostmask, CommandView::PONG(p)))],
        ),
        CommandView::PONG(_) => (set_client(b, id, ClientView { conn: pong_step(c.conn), ..c }), seq![]),
        CommandView::JOIN(list) => join_entries(b, id, pieces(list, ',')),
        CommandView::PRIVMSG(chan, text) => (
            b,
            relay(b, id, chan, CommandView::PRIVMSG(composite_chan(chan), text)),
        ),
        CommandView::NOTICE(chan, text) => (
            b,
            relay(b, id, chan, CommandView::NOTICE(composite_chan(chan), text)),
        ),
        _ => (b, seq![]),
    }
}

/// The lines that open the session with a new server.
pub open spec fn priming(cfg: ConfigView) -> Seq<Seq<char>> {
    let none = HostmaskView::Empty;
    let first = seq![
        render(none, CommandView::USER(cfg.nick, "*"@, "0"@, "carbon"@)),
        render(none, CommandView::NICK(cfg.nick)),
    ];
    if cfg.pass.len() > 0 {
        first.push(render(none, CommandView::PASS(cfg.pass)))
    } else {
        first
    }
}

/// The line of a keep-alive PING.
pub open spec fn ping_line() -> Seq<char> {
    render(HostmaskView::Empty, CommandView::PING(":carbon"@))
}

} // verus!

verus! {

/// The record of a newly connected server.
pub open spec fn fresh_server(id: nat, cfg: ConfigView) -> ServerView {
    ServerView {
        conn: ConnectionView {
            id,
            name: cfg.name,
            connected: true,
            ping_active: false,
            nick: seq![],
            channels: seq![],
        },
        config: cfg,
        username: seq![],
        hostname: seq![],
    }
}

/// The record of a newly accepted client.
pub open spec fn fresh_client(id: nat, name: Seq<char>, peer_ip: Seq<char>) -> ClientView {
    ClientView {
        conn: ConnectionView {
            id,
            name,
            connected: true,
            ping_active: false,
            nick: seq![],
            channels: seq![],
        },
        username: seq![],
        hostname: peer_ip,
        realname: seq![],
    }
}

pub proof fn lemma_lookup(servers: Seq<ServerView>, name: Seq<char>)
    ensures
        lookup(servers, name) matches Some(i) ==> i < servers.len() && servers[i as int].config.name
            == name,
    decreases servers.len(),
{
    if servers.len() > 0 && servers.last().config.name != name {
        lemma_lookup(servers.drop_last(), name);
    }
}

proof fn lemma_with_channel(chans: Seq<Seq<char>>, c: Seq<char>)
    ensures
        forall|j: int|
            0 <= j < with_channel(chans, c).len() ==> #[trigger] with_channel(chans, c)[j] == c
                || chans.contains(with_channel(chans, c)[j]),
{
    assert forall|j: int| 0 <= j < with_channel(chans, c).len() implies #[trigger] with_channel(
        chans,
        c,
    )[j] == c || chans.contains(with_channel(chans, c)[j]) by {
        if j < chans.len() {
            assert(with_channel(chans, c)[j] == chans[j]);
        }
    }
}

proof fn lemma_without_channel(chans: Seq<Seq<char>>, c: Seq<char>)
    ensures
        forall|j: int|
            0 <= j < without_channel(chans, c).len() ==> chans.contains(
                #[trigger] without_channel(chans, c)[j],
            ),
    decreases chans.len(),
{
    if chans.len() > 0 {
        let rest = chans.drop_first();
        lemma_without_channel(rest, c);
        let w = without_channel(chans, c);
        assert forall|j: int| 0 <= j < w.len() implies chans.contains(#[trigger] w[j]) by {
            if chans[0] == c {
                assert(w[j] == chans[j + 1]);
            } else if j == 0 {
                assert(w[0] == chans[0]);
            } else {
                let x = without_channel(rest, c)[j - 1];
                assert(w[j] == x);
                assert(rest.contains(x));
                let k = choose|k: int| 0 <= k < rest.len() && rest[k] == x;
                assert(chans[k + 1] == x);
            }
        }
    }
}

proof fn lemma_wf_server(b: BouncerView, id: nat, s: ServerView)
    requires
        wf(b),
        id < b.servers.len(),
        s.conn.id == id,
        forall|j: int| 0 <= j < s.conn.channels.len() ==> is_local_chan(#[trigger] s.conn.channels[j]),
    ensures
        wf(set_server(b, id, s)),
{
    let b2 = set_server(b, id, s);
    assert forall|i: int, j: int|
        0 <= i < b2.servers.len() && 0 <= j < b2.servers[i].conn.channels.len() implies is_local_chan(
        #[trigger] b2.servers[i].conn.channels[j],
    ) by {
        if i != id {
            assert(b2.servers[i] == b.servers[i]);
        }
    }
}

proof fn lemma_wf_client(b: BouncerView, id: nat, c: ClientView)
    requires
        wf(b),
        id < b.clients.len(),
        c.conn.id == id,
        forall|j: int| 0 <= j < c.conn.channels.len() ==> is_composite(#[trigger] c.conn.channels[j]),
    ensures
        wf(set_client(b, id, c)),
{
    let b2 = set_client(b, id, c);
    assert forall|i: int, j: int|
        0 <= i < b2.clients.len() && 0 <= j < b2.clients[i].conn.channels.len() implies is_composite(
        #[trigger] b2.clients[i].conn.channels[j],
    ) by {
        if i != id {
            assert(b2.clients[i] == b.clients[i]);
        }
    }
}

/// Whether `c` is a server-local channel name.
fn local_chan(c: &str) -> (r: bool)
    ensures
        r == is_local_chan(c@),
{
    c.unicode_len() > 0 && c.get_char(0) == '#' && count_hashes(c) == 1
}

/// `#<name><chan>`.
fn composite_name(name: &str, chan: &str) -> (r: String)
    ensures
        r@ == composite_of(name@, chan@),
{
    let mut r = String::from_str("#");
    r.append(name);
    r.append(chan);
    r
}

/// Splits a composite channel name into its server name and its
/// server-local channel; `None` unless the name is composite.
pub fn split_composite(c: &str) -> (r: Option<(String, String)>)
    ensures
        r is Some <==> is_composite(c@),
        r matches Some((s, ch)) ==> s@ == composite_server(c@) && ch@ == composite_chan(c@),
{
    let n = c.unicode_len();
    if n == 0 || c.get_char(0) != '#' || count_hashes(c) != 2 {
        return None;
    }
    let rest = c.substring_char(1, n);
    assert(rest@ =~= c@.drop_first());
    let j = find_hash(rest);
    proof {
        lemma_first_hash_bound(rest@);
    }
    let m = rest.unicode_len();
    let server = String::from_str(rest.substring_char(0, j));
    let chan = String::from_str(rest.substring_char(j, m));
    assert(server@ =~= composite_server(c@));
    assert(chan@ =~= composite_chan(c@));
    Some((server, chan))
}

impl Bouncer {
    /// A dispatcher with no connection yet, for the networks of `cfgs`.
    pub fn new(cfgs: Vec<Config>) -> (b: Bouncer)
        ensures
            b@ == (BouncerView {
                hostmask: HostmaskView::Server("carbon.fron.io"@),
                configs: cfgs@,
                servers: seq![],
                clients: seq![],
            }),
            wf(b@),
    {
        let b = Bouncer {
            hostmask: Hostmask::Server(String::from_str("carbon.fron.io")),
            configs: cfgs,
            servers: Vec::new(),
            clients: Vec::new(),
        };
        assert(b@.servers =~= seq![]);
        assert(b@.clients =~= seq![]);
        b
    }

    /// The id of the server named `name`.
    pub fn server_id(&self, name: &str) -> (r: Option<usize>)
        ensures
            r matches Some(i) ==> lookup(self@.servers, name@) == Some(i as nat),
            r is None ==> lookup(self@.servers, name@) is None,
    {
        let mut i = self.servers.len();
        assert(self@.servers.take(i as int) =~= self@.servers);
        while i > 0
            invariant
                i <= self.servers.len(),
                lookup(self@.servers, name@) == lookup(self@.servers.take(i as int), name@),
            decreases i,
        {
            let ghost t = self@.servers.take(i as int);
            assert(t.drop_last() =~= self@.servers.take(i - 1));
            assert(t.last() == self.servers@[i - 1]@);
            if same_text(self.servers[i - 1].config.name.as_str(), name) {
                return Some(i - 1);
            }
            i = i - 1;
        }
        assert(self@.servers.take(0) =~= seq![]);
        None
    }

    /// `line` for each client that has joined `chan`.
    fn broadcast(&self, chan: &str, line: &String) -> (r: Vec<Action>)
        ensures
            actions(r@) == members(self@.clients, chan@, line@),
    {
        let mut r: Vec<Action> = Vec::new();
        let mut i: usize = 0;
        assert(self@.clients.take(0) =~= seq![]);
        assert(actions(r@) =~= seq![]);
        while i < self.clients.len()
            invariant
                i <= self.clients.len(),
                actions(r@) == members(self@.clients.take(i as int), chan@, line@),
            decreases self.clients.len() - i,
        {
            let ghost t = self@.clients.take(i + 1);
            assert(t.drop_last() =~= self@.clients.take(i as int));
            assert(t.last() == self.clients@[i as int]@);
            if self.clients[i].has_channel(chan) {
                let ghost r0 = r@;
                r.push(Action::ToClient(i, line.clone()));
                assert(actions(r@) =~= actions(r0).push(ActionView::ToClient(i as nat, line@)));
            }
            i = i + 1;
        }
        assert(self@.clients.take(i as int) =~= self@.clients);
        r
    }

    /// Registers the server of `cfg`, which has just been reached, under the
    /// next id, and gives the lines that open its session.
    pub fn start_server(&mut self, cfg: Config) -> (lines: Vec<String>)
        requires
            wf(old(self)@),
            old(self).servers.len() < usize::MAX,
        ensures
            wf(final(self)@),
            final(self)@ == (BouncerView {
                servers: old(self)@.servers.push(fresh_server(old(self).servers.len() as nat, cfg@)),
                ..old(self)@
            }),
            strs(lines@) == priming(cfg@),
    {
        let ghost b = self@;
        let id = self.servers.len();
        let mut lines: Vec<String> = Vec::new();
        lines.push(Message::user(Hostmask::Empty, cfg.nick.as_str(), "carbon").to_string());
        lines.push(Message::nick(Hostmask::Empty, cfg.nick.as_str()).to_string());
        if cfg.pass.unicode_len() > 0 {
            lines.push(Message::pass(Hostmask::Empty, cfg.pass.as_str()).to_string());
        }
        assert(strs(lines@) =~= priming(cfg@));
        let s = Server::new(id, cfg);
        assert(s@ == fresh_server(id as nat, s@.config));
        self.servers.push(s);
        assert(self@.servers =~= b.servers.push(s@));
        assert(s@.conn.channels.len() == 0);
        lines
    }

    /// Registers a newly accepted client, labelled `name`, whose peer has the
    /// address `peer_ip`, and gives its id.
    pub fn start_client(&mut self, name: String, peer_ip: String) -> (id: usize)
        requires
            wf(old(self)@),
            old(self).clients.len() < usize::MAX,
        ensures
            wf(final(self)@),
            id == old(self).clients.len(),
            final(self)@ == (BouncerView {
                clients: old(self)@.clients.push(fresh_client(id as nat, name@, peer_ip@)),
                ..old(self)@
            }),
    {
        let ghost b = self@;
        let id = self.clients.len();
        let c = Client::from_peer(id, name, peer_ip);
        assert(c@ == fresh_client(id as nat, c@.conn.name, c@.hostname));
        self.clients.push(c);
        assert(self@.clients =~= b.clients.push(c@));
        id
    }

    /// Makes a ping attempt on server `id`.
    pub fn ping_server(&mut self, id: usize) -> (r: Vec<Action>)
        requires
            wf(old(self)@),
            id < old(self).servers.len(),
        ensures
            wf(final(self)@),
            ({
                let s = old(self)@.servers[id as int];
                let (c2, sent) = ping_step(s.conn);
                &&& final(self)@ == set_server(old(self)@, id as nat, ServerView { conn: c2, ..s })
                &&& actions(r@) == if sent {
                    seq![ActionView::ToServer(id as nat, ping_line())]
                } else {
                    seq![]
                }
            }),
    {
        let ghost b = self@;
        let mut r: Vec<Action> = Vec::new();
        let sent = self.servers[id].try_ping();
        proof {
            assert(self@.servers =~= b.servers.update(id as int, self@.servers[id as int]));
            lemma_wf_server(b, id as nat, self@.servers[id as int]);
        }
        if sent {
            r.push(Action::ToServer(id, Message::ping(Hostmask::Empty, ":carbon").to_string()));
            assert(actions(r@) =~= seq![ActionView::ToServer(id as nat, ping_line())]);
        } else {
            assert(actions(r@) =~= seq![]);
        }
        r
    }

    /// Makes a ping attempt on client `id`.
    pub fn ping_client(&mut self, id: usize) -> (r: Vec<Action>)
        requires
            wf(old(self)@),
            id < old(self).clients.len(),
        ensures
            wf(final(self)@),
            ({
                let c = old(self)@.clients[id as int];
                let (c2, sent) = ping_step(c.conn);
                &&& final(self)@ == set_client(old(self)@, id as nat, ClientView { conn: c2, ..c })
                &&& actions(r@) == if sent {
                    seq![ActionView::ToClient(id as nat, ping_line())]
                } else {
                    seq![]
                }
            }),
    {
        let ghost b = self@;
        let mut r: Vec<Action> = Vec::new();
        let sent = self.clients[id].try_ping();
        proof {
            assert(self@.clients =~= b.clients.update(id as int, self@.clients[id as int]));
            lemma_wf_client(b, id as nat, self@.clients[id as int]);
        }
        if sent {
            r.push(Action::ToClient(id, Message::ping(Hostmask::Empty, ":carbon").to_string()));
            assert(actions(r@) =~= seq![ActionView::ToClient(id as nat, ping_line())]);
        } else {
            assert(actions(r@) =~= seq![]);
        }
        r
    }

    /// Marks server `id` as gone.
    pub fn drop_server(&mut self, id: usize)
        requires
            wf(old(self)@),
            id < old(self).servers.len(),
        ensures
            wf(final(self)@),
            ({
                let s = old(self)@.servers[id as int];
                final(self)@ == set_server(
                    old(self)@,
                    id as nat,
                    ServerView { conn: ConnectionView { connected: false, ..s.conn }, ..s },
                )
            }),
    {
        let ghost b = self@;
        self.servers[id].set_connected(false);
        proof {
            assert(self@.servers =~= b.servers.update(id as int, self@.servers[id as int]));
            lemma_wf_server(b, id as nat, self@.servers[id as int]);
        }
    }

    /// Marks client `id` as gone.
    pub fn drop_client(&mut self, id: usize)
        requires
            wf(old(self)@),
            id < old(self).clients.len(),
        ensures
            wf(final(self)@),
            ({
                let c = old(self)@.clients[id as int];
                final(self)@ == set_client(
                    old(self)@,
                    id as nat,
                    ClientView { conn: ConnectionView { connected: false, ..c.conn }, ..c },
                )
            }),
    {
        let ghost b = self@;
        self.clients[id].set_connected(false);
        proof {
            assert(self@.clients =~= b.clients.update(id as int, self@.clients[id as int]));
            lemma_wf_client(b, id as nat, self@.clients[id as int]);
        }
    }
}

} // verus!

verus! {

impl Bouncer {
    /// What one entry of a client's JOIN list does.
    fn join_entry(&mut self, id: usize, e: &str) -> (r: Vec<Action>)
        requires
            wf(old(self)@),
            id < old(self).clients.len(),
        ensures
            wf(final(self)@),
            final(self).clients.len() == old(self).clients.len(),
            (final(self)@, actions(r@)) == join_one(old(self)@, id as nat, e@),
    {
        let ghost b = self@;
        let mut r: Vec<Action> = Vec::new();
        match split_composite(e) {
            None => {
                assert(actions(r@) =~= seq![]);
                r
            },
            Some((server, chan)) => {
                let echo = Message::join(self.clients[id].hostmask(), e).to_string();
                match self.server_id(server.as_str()) {
                    Some(sid) => {
                        proof {
                            lemma_lookup(b.servers, server@);
                        }
                        if !self.servers[sid].has_channel(chan.as_str()) {
                            r.push(
                                Action::ToServer(
                                    sid,
                                    Message::join(Hostmask::Empty, chan.as_str()).to_string(),
                                ),
                            );
                        }
                        let ghost r0 = r@;
                        self.clients[id].add_channel(e);
                        r.push(Action::ToClient(id, echo));
                        proof {
                            assert(actions(r@) =~= actions(r0).push(
                                ActionView::ToClient(id as nat, echo@),
                            ));
                            let c = b.clients[id as int];
                            assert(self@.clients =~= b.clients.update(
                                id as int,
                                self@.clients[id as int],
                            ));
                            lemma_with_channel(c.conn.channels, e@);
                            let nc = self@.clients[id as int];
                            assert forall|j: int| 0 <= j < nc.conn.channels.len() implies is_composite(
                                #[trigger] nc.conn.channels[j],
                            ) by {
                                if nc.conn.channels[j] != e@ {
                                    let k = choose|k: int|
                                        0 <= k < c.conn.channels.len() && c.conn.channels[k]
                                            == nc.conn.channels[j];
                                    assert(is_composite(b.clients[id as int].conn.channels[k]));
                                }
                            }
                            lemma_wf_client(b, id as nat, nc);
                            if b.servers[sid as int].conn.channels.contains(chan@) {
                                assert(actions(r0) =~= seq![]);
                            } else {
                                assert(actions(r0) =~= seq![
                                    ActionView::ToServer(
                                        sid as nat,
                                        render(HostmaskView::Empty, CommandView::JOIN(chan@)),
                                    ),
                                ]);
                            }
                        }
                        r
                    },
                    None => {
                        r.push(Action::ToClient(id, echo));
                        assert(actions(r@) =~= seq![ActionView::ToClient(id as nat, echo@)]);
                        r
                    },
                }
            },
        }
    }

    /// The line, if any, that relays a client's PRIVMSG (or NOTICE) to `chan`.
    fn relay_upstream(&self, id: usize, chan: &str, text: &str, notice: bool) -> (r: Vec<Action>)
        requires
            id < self.clients.len(),
        ensures
            actions(r@) == relay(
                self@,
                id as nat,
                chan@,
                if notice {
                    CommandView::NOTICE(composite_chan(chan@), text@)
                } else {
                    CommandView::PRIVMSG(composite_chan(chan@), text@)
                },
            ),
    {
        let mut r: Vec<Action> = Vec::new();
        if let Some((server, target)) = split_composite(chan) {
            if self.clients[id].has_channel(chan) {
                if let Some(sid) = self.server_id(server.as_str()) {
                    let m = if notice {
                        Message::notice(Hostmask::Empty, target.as_str(), text)
                    } else {
                        Message::privmsg(Hostmask::Empty, target.as_str(), text)
                    };
                    r.push(Action::ToServer(sid, m.to_string()));
                    assert(actions(r@) =~= seq![ActionView::ToServer(sid as nat, m@.raw)]);
                    return r;
                }
            }
        }
        assert(actions(r@) =~= seq![]);
        r
    }

    /// Handles a line read from server `id`, and gives what to send where.
    pub fn handlesrv(&mut self, id: usize, msg: &Message) -> (r: Vec<Action>)
        requires
            wf(old(self)@),
            id < old(self).servers.len(),
        ensures
            wf(final(self)@),
            (final(self)@, actions(r@)) == srv_step(old(self)@, id as nat, msg@),
    {
        let ghost b = self@;
        let mut r: Vec<Action> = Vec::new();
        match &msg.command {
            Command::RPL_WELCOME(params) => {
                r.push(Action::StartPing(id));
                let n = self.servers[id].config.chans.len();
                let ghost chans = b.servers[id as int].config.chans;
                let mut i: usize = 0;
                assert(actions(r@) =~= seq![ActionView::StartPing(id as nat)] + autojoins(
                    id as nat,
                    chans.take(0),
                ));
                while i < n
                    invariant
                        self@ == b,
                        id < self.servers.len(),
                        n == chans.len(),
                        i <= n,
                        chans == strs(self.servers@[id as int].config.chans@),
                        actions(r@) == seq![ActionView::StartPing(id as nat)] + autojoins(
                            id as nat,
                            chans.take(i as int),
                        ),
                    decreases n - i,
                {
                    let line = Message::join(
                        Hostmask::Empty,
                        self.servers[id].config.chans[i].as_str(),
                    ).to_string();
                    let ghost r0 = r@;
                    r.push(Action::ToServer(id, line));
                    proof {
                        assert(chans.take(i + 1) =~= chans.take(i as int).push(chans[i as int]));
                        assert(autojoins(id as nat, chans.take(i + 1)) =~= autojoins(
                            id as nat,
                            chans.take(i as int),
                        ).push(ActionView::ToServer(id as nat, line@)));
                        assert(actions(r@) =~= actions(r0).push(
                            ActionView::ToServer(id as nat, line@),
                        ));
                    }
                    i = i + 1;
                }
                assert(chans.take(n as int) =~= chans);
                let ws = split_words(params.as_str());
                let nick = word_or_empty(&ws, 0);
                self.servers[id].set_nick(nick);
                proof {
                    assert(self@.servers =~= b.servers.update(id as int, self@.servers[id as int]));
                    lemma_wf_server(b, id as nat, self@.servers[id as int]);
                }
            },
            Command::PING(p) => {
                r.push(Action::ToServer(id, Message::pong(Hostmask::Empty, p.as_str()).to_string()));
                assert(actions(r@) =~= srv_step(b, id as nat, msg@).1);
            },
            Command::PONG(_) => {
                self.servers[id].register_pong();
                proof {
                    assert(self@.servers =~= b.servers.update(id as int, self@.servers[id as int]));
                    lemma_wf_server(b, id as nat, self@.servers[id as int]);
                }
                assert(actions(r@) =~= seq![]);
            },
            Command::JOIN(chan) => {
                if let Hostmask::User(nick, _, _) = &msg.hostmask {
                    if same_text(nick.as_str(), self.servers[id].conn.nick.as_str()) {
                        if local_chan(chan.as_str()) {
                            self.servers[id].add_channel(chan.as_str());
                            proof {
                                let s = b.servers[id as int];
                                assert(self@.servers =~= b.servers.update(
                                    id as int,
                                    self@.servers[id as int],
                                ));
                                lemma_with_channel(s.conn.channels, chan@);
                                let ns = self@.servers[id as int];
                                assert forall|j: int|
                                    0 <= j < ns.conn.channels.len() implies is_local_chan(
                                    #[trigger] ns.conn.channels[j],
                                ) by {
                                    if ns.conn.channels[j] != chan@ {
                                        let k = choose|k: int|
                                            0 <= k < s.conn.channels.len() && s.conn.channels[k]
                                                == ns.conn.channels[j];
                                        assert(is_local_chan(b.servers[id as int].conn.channels[k]));
                                    }
                                }
                                lemma_wf_server(b, id as nat, ns);
                            }
                        }
                    } else {
                        let comp = composite_name(self.servers[id].config.name.as_str(), chan.as_str());
                        let line = Message::join(msg.hostmask.duplicate(), comp.as_str()).to_string();
                        r = self.broadcast(comp.as_str(), &line);
                    }
                }
                assert(actions(r@) =~= srv_step(b, id as nat, msg@).1);
            },
            Command::PART(chan, text) => {
                if let Hostmask::User(nick, _, _) = &msg.hostmask {
                    if same_text(nick.as_str(), self.servers[id].conn.nick.as_str()) {
                        self.servers[id].remove_channel(chan.as_str());
                        proof {
                            let s = b.servers[id as int];
                            assert(self@.servers =~= b.servers.update(
                                id as int,
                                self@.servers[id as int],
                            ));
                            lemma_without_channel(s.conn.channels, chan@);
                            let ns = self@.servers[id as int];
                            assert forall|j: int|
                                0 <= j < ns.conn.channels.len() implies is_local_chan(
                                #[trigger] ns.conn.channels[j],
                            ) by {
                                let k = choose|k: int|
                                    0 <= k < s.conn.channels.len() && s.conn.channels[k]
                                        == ns.conn.channels[j];
                                assert(is_local_chan(b.servers[id as int].conn.channels[k]));
                            }
                            lemma_wf_server(b, id as nat, ns);
                        }
                    } else {
                        let comp = composite_name(self.servers[id].config.name.as_str(), chan.as_str());
                        let line = Message::part(
                            msg.hostmask.duplicate(),
                            comp.as_str(),
                            text.as_str(),
                        ).to_string();
                        r = self.broadcast(comp.as_str(), &line);
                    }
                }
                assert(actions(r@) =~= srv_step(b, id as nat, msg@).1);
            },
            Command::QUIT(chan, text) => {
                if let Hostmask::User(nick, _, _) = &msg.hostmask {
                    if !same_text(nick.as_str(), self.servers[id].conn.nick.as_str()) {
                        let comp = composite_name(self.servers[id].config.name.as_str(), chan.as_str());
                        let line = Message::quit(
                            msg.hostmask.duplicate(),
                            comp.as_str(),
                            text.as_str(),
                        ).to_string();
                        r = self.broadcast(comp.as_str(), &line);
                    }
                }
                assert(actions(r@) =~= srv_step(b, id as nat, msg@).1);
            },
            Command::PRIVMSG(chan, text) => {
                let comp = composite_name(self.servers[id].config.name.as_str(), chan.as_str());
                let line = Message::privmsg(
                    msg.hostmask.duplicate(),
                    comp.as_str(),
                    text.as_str(),
                ).to_string();
                r = self.broadcast(comp.as_str(), &line);
            },
            Command::NOTICE(chan, text) => {
                let comp = composite_name(self.servers[id].config.name.as_str(), chan.as_str());
                let line = Message::notice(
                    msg.hostmask.duplicate(),
                    comp.as_str(),
                    text.as_str(),
                ).to_string();
                r = self.broadcast(comp.as_str(), &line);
            },
            _ => {
                assert(actions(r@) =~= seq![]);
            },
        }
        r
    }

    /// Handles a line read from client `id`, and gives what to send where.
    pub fn handleclnt(&mut self, id: usize, msg: &Message) -> (r: Vec<Action>)
        requires
            wf(old(self)@),
            id < old(self).clients.len(),
        ensures
            wf(final(self)@),
            (final(self)@, actions(r@)) == clnt_step(old(self)@, id as nat, msg@),
    {
        let ghost b = self@;
        let mut r: Vec<Action> = Vec::new();
        match &msg.command {
            Command::USER(username, _, _, realname) => {
                self.clients[id].set_userdata(username.clone(), realname.clone());
                proof {
                    assert(self@.clients =~= b.clients.update(id as int, self@.clients[id as int]));
                    lemma_wf_client(b, id as nat, self@.clients[id as int]);
                }
                if self.clients[id].is_registered() {
                    let line = self.clients[id].welcome_msg(self.hostmask.duplicate()).to_string();
                    r.push(Action::ToClient(id, line));
                }
                assert(actions(r@) =~= clnt_step(b, id as nat, msg@).1);
            },
            Command::NICK(nick) => {
                let was = self.clients[id].is_registered();
                self.clients[id].set_nick(nick.clone());
                proof {
                    assert(b.clients[id as int].conn.id == id);
                    assert(self@.clients =~= b.clients.update(id as int, self@.clients[id as int]));
                    lemma_wf_client(b, id as nat, self@.clients[id as int]);
                }
                if !was && self.clients[id].is_registered() {
                    let line = self.clients[id].welcome_msg(self.hostmask.duplicate()).to_string();
                    r.push(Action::ToClient(id, line));
                }
                assert(actions(r@) =~= clnt_step(b, id as nat, msg@).1);
            },
            Command::PING(p) => {
                let line = Message::pong(self.hostmask.duplicate(), p.as_str()).to_string();
                r.push(Action::ToClient(id, line));
                assert(actions(r@) =~= clnt_step(b, id as nat, msg@).1);
            },
            Command::PONG(_) => {
                self.clients[id].register_pong();
                proof {
                    assert(self@.clients =~= b.clients.update(id as int, self@.clients[id as int]));
                    lemma_wf_client(b, id as nat, self@.clients[id as int]);
                }
                assert(actions(r@) =~= seq![]);
            },
            Command::JOIN(list) => {
                let es = split_on(list.as_str(), ',');
                let ghost entries = strs(es@);
                let mut i: usize = 0;
                assert(entries.take(0) =~= seq![]);
                assert(actions(r@) =~= seq![]);
                while i < es.len()
                    invariant
                        wf(self@),
                        id < self.clients.len(),
                        i <= es.len(),
                        entries == strs(es@),
                        (self@, actions(r@)) == join_entries(b, id as nat, entries.take(i as int)),
                    decreases es.len() - i,
                {
                    let ghost r0 = r@;
                    let mut out = self.join_entry(id, es[i].as_str());
                    let ghost o = out@;
                    r.append(&mut out);
                    proof {
                        let t = entries.take(i + 1);
                        assert(t.drop_last() =~= entries.take(i as int));
                        assert(t.last() == es@[i as int]@);
                        assert(actions(r@) =~= actions(r0) + actions(o));
                    }
                    i = i + 1;
                }
                assert(entries.take(es.len() as int) =~= entries);
            },
            Command::PRIVMSG(chan, text) => {
                r = self.relay_upstream(id, chan.as_str(), text.as_str(), false);
            },
            Command::NOTICE(chan, text) => {
                r = self.relay_upstream(id, chan.as_str(), text.as_str(), true);
            },
            _ => {
                assert(actions(r@) =~= seq![]);
            },
        }
        r
    }
}

} // verus!

verus! {

/// The composite name of a server name and a channel, neither holding `#`
/// past the channel's leading one, is well formed and splits back into them.
pub proof fn lemma_composite_split(name: Seq<char>, chan: Seq<char>)
    requires
        hash_count(name) == 0,
        hash_count(chan) == 0,
    ensures
        is_composite(composite_of(name, seq!['#'] + chan)),
        composite_server(composite_of(name, seq!['#'] + chan)) == name,
        composite_chan(composite_of(name, seq!['#'] + chan)) == seq!['#'] + chan,
{
    reveal_strlit("#");
    assert("#"@ =~= seq!['#']);
    let local = seq!['#'] + chan;
    let c = composite_of(name, local);
    assert(hash_count(seq!['#']) == 1) by {
        let one = seq!['#'];
        assert(one.drop_last() =~= Seq::<char>::empty());
        assert(hash_count(Seq::<char>::empty()) == 0);
        assert(one.last() == '#');
    }
    lemma_hash_count_concat(seq!['#'], chan);
    lemma_hash_count_concat(seq!['#'], name);
    lemma_hash_count_concat(seq!['#'] + name, local);
    assert(c =~= (seq!['#'] + name) + local);
    let r = c.drop_first();
    assert(r =~= name + local);
    lemma_no_hash(name);
    lemma_first_hash_after(name, local);
    assert(first_hash(local) == 0);
    assert(r.take(name.len() as int) =~= name);
    assert(r.skip(name.len() as int) =~= local);
}

/// A composite name is rebuilt from its server name and its channel.
pub proof fn lemma_composite_rebuilt(c: Seq<char>)
    requires
        is_composite(c),
    ensures
        composite_of(composite_server(c), composite_chan(c)) == c,
{
    reveal_strlit("#");
    assert("#"@ =~= seq!['#']);
    let r = c.drop_first();
    lemma_first_hash_bound(r);
    assert(r.take(first_hash(r)) + r.skip(first_hash(r)) =~= r);
    assert(seq!['#'] + r =~= c);
    assert(composite_of(composite_server(c), composite_chan(c)) =~= c);
}

/// A channel name holding one `#`, or more than two, is not taken as a
/// composite name: a client's JOIN entry, PRIVMSG or NOTICE naming it changes
/// nothing and sends nothing.
pub proof fn lemma_malformed_ignored(
    b: BouncerView,
    id: nat,
    h: HostmaskView,
    raw: Seq<char>,
    chan: Seq<char>,
    text: Seq<char>,
)
    requires
        hash_count(chan) == 1 || hash_count(chan) > 2,
    ensures
        join_one(b, id, chan) == (b, Seq::<ActionView>::empty()),
        clnt_step(
            b,
            id,
            MessageView { hostmask: h, command: CommandView::PRIVMSG(chan, text), raw },
        ) == (b, Seq::<ActionView>::empty()),
        clnt_step(
            b,
            id,
            MessageView { hostmask: h, command: CommandView::NOTICE(chan, text), raw },
        ) == (b, Seq::<ActionView>::empty()),
{
}

} // verus!
