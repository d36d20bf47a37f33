use carbon::bouncer::{split_composite, Action, Bouncer};
use carbon::config::Config;
use carbon::message::Message;

fn fn_config(pass: &str) -> Config {
    Config {
        name: "fn".to_string(),
        nick: "me".to_string(),
        host: "irc.example".to_string(),
        port: 6667,
        pass: pass.to_string(),
        ssl: false,
        chans: vec!["#rust".to_string()],
    }
}

fn srv(b: &mut Bouncer, line: &str) -> Vec<Action> {
    b.handlesrv(0, &Message::from_string(line))
}

fn clnt(b: &mut Bouncer, id: usize, line: &str) -> Vec<Action> {
    b.handleclnt(id, &Message::from_string(line))
}

fn to_server(id: usize, line: &str) -> Action {
    Action::ToServer(id, line.to_string())
}

fn to_client(id: usize, line: &str) -> Action {
    Action::ToClient(id, line.to_string())
}

/// One server `fn` (nick `me`, autojoin `#rust`), welcomed, and one client
/// `c0`, registered and in `#fn#rust`.
fn running() -> Bouncer {
    let mut b = Bouncer::new(vec![fn_config("")]);
    b.start_server(fn_config(""));
    srv(&mut b, ":fn.example 001 me :welcome");
    srv(&mut b, ":me!~m@h JOIN #rust");
    let c = b.start_client("peer".to_string(), "1.2.3.4".to_string());
    assert_eq!(c, 0);
    clnt(&mut b, 0, "NICK bob");
    clnt(&mut b, 0, "USER bob * 0 :Bob");
    clnt(&mut b, 0, "JOIN #fn#rust");
    b
}

#[test]
fn priming_lines_open_server_session() {
    let mut b = Bouncer::new(Vec::new());
    assert_eq!(b.start_server(fn_config("")), vec!["USER me * 0 :carbon".to_string(), "NICK me".to_string()]);
    assert_eq!(
        b.start_server(fn_config("pw")),
        vec!["USER me * 0 :carbon".to_string(), "NICK me".to_string(), "PASS pw".to_string()]
    );
    assert_eq!(b.server_id("fn"), Some(1));
    assert_eq!(b.server_id("other"), None);
}

#[test]
fn autojoin_on_welcome() {
    let mut b = Bouncer::new(Vec::new());
    b.start_server(fn_config(""));
    let out = srv(&mut b, ":fn.example 001 me :welcome");
    assert_eq!(out, vec![Action::StartPing(0), to_server(0, "JOIN #rust")]);
    assert_eq!(b.servers[0].get_nick(), "me");
}

#[test]
fn foreign_join_echo() {
    let mut b = running();
    let out = srv(&mut b, ":alice!~a@h JOIN #rust");
    assert_eq!(out, vec![to_client(0, ":alice!~a@h JOIN #fn#rust")]);
}

#[test]
fn self_join_is_absorbed() {
    let mut b = running();
    let out = srv(&mut b, ":me!~m@h JOIN #newchan");
    assert_eq!(out, Vec::<Action>::new());
    assert!(b.servers[0].has_channel("#newchan"));
}

#[test]
fn client_privmsg_goes_upstream() {
    let mut b = running();
    let out = clnt(&mut b, 0, "PRIVMSG #fn#rust :hello");
    assert_eq!(out, vec![to_server(0, "PRIVMSG #rust :hello")]);
    let out = clnt(&mut b, 0, "NOTICE #fn#rust :note");
    assert_eq!(out, vec![to_server(0, "NOTICE #rust :note")]);
}

#[test]
fn server_ping_is_answered() {
    let mut b = running();
    let out = srv(&mut b, "PING :x");
    assert_eq!(out, vec![to_server(0, "PONG :x")]);
}

#[test]
fn client_registration_welcomes_once() {
    let mut b = Bouncer::new(Vec::new());
    let id = b.start_client("peer".to_string(), "1.2.3.4".to_string());
    assert_eq!(clnt(&mut b, id, "NICK bob"), Vec::<Action>::new());
    let out = clnt(&mut b, id, "USER bob * 0 :Bob");
    assert_eq!(
        out,
        vec![to_client(id, ":carbon.fron.io 001 bob :Welcome to the Internet Relay Network bob!bob@1.2.3.4")]
    );
}

#[test]
fn nick_change_after_registration_sends_no_welcome() {
    let mut b = running();
    assert_eq!(clnt(&mut b, 0, "NICK robert"), Vec::<Action>::new());
}

#[test]
fn client_join_resolves_server_and_echoes() {
    let mut b = Bouncer::new(Vec::new());
    b.start_server(fn_config(""));
    let id = b.start_client("peer".to_string(), "1.2.3.4".to_string());
    clnt(&mut b, id, "NICK bob");
    clnt(&mut b, id, "USER bob * 0 :Bob");
    let out = clnt(&mut b, id, "JOIN #fn#rust,#nowhere#x,#bad");
    assert_eq!(
        out,
        vec![
            to_server(0, "JOIN #rust"),
            to_client(id, ":bob!bob@1.2.3.4 JOIN #fn#rust"),
            to_client(id, ":bob!bob@1.2.3.4 JOIN #nowhere#x"),
        ]
    );
    assert!(b.clients[id].has_channel("#fn#rust"));
    assert!(!b.clients[id].has_channel("#nowhere#x"));
}

#[test]
fn join_of_channel_already_held_upstream_is_not_resent() {
    let mut b = running();
    let out = clnt(&mut b, 0, "JOIN #fn#rust");
    assert_eq!(out, vec![to_client(0, ":bob!bob@1.2.3.4 JOIN #fn#rust")]);
}

#[test]
fn malformed_composites_are_dropped() {
    let mut b = running();
    assert_eq!(clnt(&mut b, 0, "PRIVMSG #fnrust :hello"), Vec::<Action>::new());
    assert_eq!(clnt(&mut b, 0, "PRIVMSG #fn#rust#x :hello"), Vec::<Action>::new());
    assert_eq!(clnt(&mut b, 0, "JOIN #fn#a#b"), Vec::<Action>::new());
    assert!(!b.clients[0].has_channel("#fn#a#b"));
}

#[test]
fn privmsg_to_unjoined_channel_is_dropped() {
    let mut b = running();
    assert_eq!(clnt(&mut b, 0, "PRIVMSG #fn#other :hello"), Vec::<Action>::new());
}

#[test]
fn composite_names_split_and_rebuild() {
    let (s, c) = split_composite("#freenode#chat").unwrap();
    assert_eq!(s, "freenode");
    assert_eq!(c, "#chat");
    assert_eq!(format!("#{}{}", s, c), "#freenode#chat");
    assert!(split_composite("#freenode").is_none());
    assert!(split_composite("#a#b#c").is_none());
    assert!(split_composite("a#b").is_none());
    assert!(split_composite("").is_none());
}

#[test]
fn upstream_messages_reach_members_only() {
    let mut b = running();
    let other = b.start_client("peer2".to_string(), "5.6.7.8".to_string());
    let out = srv(&mut b, ":alice!~a@h PRIVMSG #rust :hi all");
    assert_eq!(out, vec![to_client(0, ":alice!~a@h PRIVMSG #fn#rust :hi all")]);
    let out = srv(&mut b, ":alice!~a@h NOTICE #rust :psst");
    assert_eq!(out, vec![to_client(0, ":alice!~a@h NOTICE #fn#rust :psst")]);
    let out = srv(&mut b, ":alice!~a@h PART #rust :later");
    assert_eq!(out, vec![to_client(0, ":alice!~a@h PART #fn#rust :later")]);
    let out = srv(&mut b, ":alice!~a@h QUIT #rust :gone");
    assert_eq!(out, vec![to_client(0, ":alice!~a@h QUIT #fn#rust :gone")]);
    assert_eq!(other, 1);
}

#[test]
fn server_sourced_join_is_ignored() {
    let mut b = running();
    assert_eq!(srv(&mut b, ":fn.example JOIN #rust"), Vec::<Action>::new());
    assert_eq!(srv(&mut b, "MODE #rust +o bob"), Vec::<Action>::new());
}

#[test]
fn self_part_leaves_channel() {
    let mut b = running();
    assert!(b.servers[0].has_channel("#rust"));
    assert_eq!(srv(&mut b, ":me!~m@h PART #rust :bye"), Vec::<Action>::new());
    assert!(!b.servers[0].has_channel("#rust"));
}

#[test]
fn client_ping_gets_pong_from_bouncer() {
    let mut b = running();
    assert_eq!(clnt(&mut b, 0, "PING abc"), vec![to_client(0, ":carbon.fron.io PONG abc")]);
}

#[test]
fn keepalive_pings_and_timeouts() {
    let mut b = running();
    assert_eq!(b.ping_server(0), vec![to_server(0, "PING :carbon")]);
    srv(&mut b, ":fn.example PONG :carbon");
    assert_eq!(b.ping_server(0), vec![to_server(0, "PING :carbon")]);
    assert_eq!(b.ping_server(0), Vec::<Action>::new());
    assert!(!b.servers[0].is_connected());
    assert_eq!(b.ping_client(0), vec![to_client(0, "PING :carbon")]);
    clnt(&mut b, 0, "PONG :carbon");
    assert_eq!(b.ping_client(0), vec![to_client(0, "PING :carbon")]);
    b.drop_client(0);
    assert!(!b.clients[0].is_connected());
}
