use carbon::client::Client;
use carbon::config::Config;
use carbon::connection::Connection;
use carbon::message::Hostmask;
use carbon::server::Server;

fn config() -> Config {
    Config {
        name: "fn".to_string(),
        nick: "me".to_string(),
        host: "irc.example".to_string(),
        port: 6667,
        pass: String::new(),
        ssl: false,
        chans: vec!["#rust".to_string()],
    }
}

#[test]
fn second_unanswered_ping_disconnects() {
    let mut c = Connection::new(0, "x".to_string());
    assert!(c.try_ping());
    assert!(c.is_connected());
    assert!(!c.try_ping());
    assert!(!c.is_connected());
}

#[test]
fn pong_between_pings_keeps_connection() {
    let mut s = Server::new(0, config());
    assert!(s.try_ping());
    s.register_pong();
    assert!(s.try_ping());
    assert!(s.is_connected());
    let mut c = Client::from_peer(0, "peer".to_string(), "1.2.3.4".to_string());
    assert!(c.try_ping());
    c.register_pong();
    assert!(c.try_ping());
    assert!(!c.try_ping());
    assert!(!c.is_connected());
}

#[test]
fn channels_are_a_set() {
    let mut s = Server::new(3, config());
    assert_eq!(s.id(), 3);
    assert_eq!(s.name(), "fn");
    s.add_channel("#a");
    s.add_channel("#a");
    s.add_channel("#b");
    assert!(s.has_channel("#a"));
    s.remove_channel("#a");
    assert!(!s.has_channel("#a"));
    assert!(s.has_channel("#b"));
    s.remove_channel("#zzz");
    assert!(s.has_channel("#b"));
}

#[test]
fn client_registration_and_welcome() {
    let mut c = Client::from_peer(1, "peer".to_string(), "10.0.0.2".to_string());
    assert!(!c.is_registered());
    c.set_nick("bob".to_string());
    assert!(!c.is_registered());
    c.set_userdata("bobu".to_string(), "Bob".to_string());
    assert!(c.is_registered());
    assert_eq!(c.get_nick(), "bob");
    assert_eq!(c.hostmask(), Hostmask::User("bob".to_string(), "bobu".to_string(), "10.0.0.2".to_string()));
    let w = c.welcome_msg(Hostmask::Server("carbon.fron.io".to_string()));
    assert_eq!(w.to_string(), ":carbon.fron.io 001 bob :Welcome to the Internet Relay Network bob!bobu@10.0.0.2");
}

#[test]
fn server_userdata_and_hostmask() {
    let mut s = Server::new(0, config());
    s.set_nick("me".to_string());
    s.set_userdata("u".to_string(), "h".to_string());
    assert_eq!(s.hostmask(), Hostmask::User("me".to_string(), "u".to_string(), "h".to_string()));
    s.set_connected(false);
    assert!(!s.is_connected());
}
