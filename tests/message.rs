use carbon::message::{Command, Hostmask, Message};

fn user(n: &str, u: &str, h: &str) -> Hostmask {
    Hostmask::User(n.to_string(), u.to_string(), h.to_string())
}

#[test]
fn user_line_parses_to_user_command() {
    let m = Message::from_string("USER u * 0 :Real Name");
    assert_eq!(m.hostmask, Hostmask::Empty);
    assert_eq!(
        m.command,
        Command::USER("u".to_string(), "*".to_string(), "0".to_string(), "Real Name".to_string())
    );
    assert_eq!(m.to_string(), "USER u * 0 :Real Name");
}

#[test]
fn constructors_render_wire_lines() {
    assert_eq!(Message::rpl_welcome(Hostmask::Server("srv".to_string()), "bob :hi").to_string(), ":srv 001 bob :hi");
    assert_eq!(Message::ping(Hostmask::Empty, ":carbon").to_string(), "PING :carbon");
    assert_eq!(Message::pong(Hostmask::Empty, "x").to_string(), "PONG x");
    assert_eq!(Message::user(Hostmask::Empty, "me", "carbon").to_string(), "USER me * 0 :carbon");
    assert_eq!(Message::nick(Hostmask::Empty, "me").to_string(), "NICK me");
    assert_eq!(Message::pass(Hostmask::Empty, "pw").to_string(), "PASS pw");
    assert_eq!(Message::join(user("a", "b", "c"), "#x").to_string(), ":a!b@c JOIN #x");
    assert_eq!(Message::part(Hostmask::Empty, "#x", "bye now").to_string(), "PART #x :bye now");
    assert_eq!(Message::quit(Hostmask::Empty, "#x", "gone").to_string(), "QUIT #x :gone");
    assert_eq!(Message::privmsg(Hostmask::Empty, "#x", "hello").to_string(), "PRIVMSG #x :hello");
    assert_eq!(Message::notice(user("n", "u", "h"), "#x", "note").to_string(), ":n!u@h NOTICE #x :note");
}

#[test]
fn every_constructor_round_trips() {
    let hms = vec![user("nick", "~user", "host.example"), Hostmask::Server("irc.example".to_string()), Hostmask::Empty];
    for h in hms {
        let built = vec![
            Message::rpl_welcome(h.clone(), "me :welcome to it"),
            Message::ping(h.clone(), "token"),
            Message::pong(h.clone(), ":x"),
            Message::user(h.clone(), "u", "Real Name"),
            Message::nick(h.clone(), "bob"),
            Message::pass(h.clone(), "secret"),
            Message::join(h.clone(), "#rust"),
            Message::part(h.clone(), "#rust", "see you"),
            Message::quit(h.clone(), "#rust", "bye: all"),
            Message::privmsg(h.clone(), "#rust", "hello there"),
            Message::notice(h.clone(), "#rust", ""),
        ];
        for m in built {
            let p = Message::from_string(m.to_string().as_str());
            assert_eq!(p.hostmask, m.hostmask);
            assert_eq!(p.command, m.command);
        }
    }
}

#[test]
fn source_prefix_decides_hostmask() {
    let m = Message::from_string(":alice!~a@h PRIVMSG #rust :hi");
    assert_eq!(m.hostmask, user("alice", "~a", "h"));
    let m = Message::from_string(":fn.example 001 me :welcome");
    assert_eq!(m.hostmask, Hostmask::Server("fn.example".to_string()));
    assert_eq!(m.command, Command::RPL_WELCOME("me :welcome".to_string()));
    let m = Message::from_string("PING :x");
    assert_eq!(m.hostmask, Hostmask::Empty);
    assert_eq!(m.command, Command::PING(":x".to_string()));
}

#[test]
fn prefix_with_two_sections_is_kept_whole() {
    let m = Message::from_string(":a!b JOIN #c");
    assert_eq!(m.hostmask, Hostmask::Server(":a!b".to_string()));
    assert_eq!(m.command, Command::JOIN("#c".to_string()));
}

#[test]
fn unknown_and_missing_verbs_are_undefined() {
    assert_eq!(Message::from_string("MODE #x +o bob").command, Command::UNDEFINED);
    assert_eq!(Message::from_string("").command, Command::UNDEFINED);
    assert_eq!(Message::from_string(":only.prefix").command, Command::UNDEFINED);
}

#[test]
fn trailing_text_without_colon_is_empty() {
    let m = Message::from_string("PRIVMSG #x hello");
    assert_eq!(m.command, Command::PRIVMSG("#x".to_string(), "".to_string()));
    let m = Message::from_string("PRIVMSG #x :a:b  c");
    assert_eq!(m.command, Command::PRIVMSG("#x".to_string(), "a:b c".to_string()));
}

#[test]
fn missing_parameters_are_empty() {
    assert_eq!(Message::from_string("NICK").command, Command::NICK("".to_string()));
    assert_eq!(
        Message::from_string("USER u").command,
        Command::USER("u".to_string(), "".to_string(), "".to_string(), "".to_string())
    );
}

#[test]
fn read_hostmask_splits_user_and_server() {
    assert_eq!(Message::read_hostmask("n!u@h"), user("n", "u", "h"));
    assert_eq!(Message::read_hostmask("irc.example"), Hostmask::Server("irc.example".to_string()));
    assert_eq!(Message::read_hostmask("a!b"), Hostmask::Server("a".to_string()));
}

#[test]
fn hostmask_text_forms() {
    assert_eq!(user("n", "u", "h").to_string(), "n!u@h");
    assert_eq!(Hostmask::Server("s".to_string()).to_string(), "s");
    assert_eq!(Hostmask::Empty.to_string(), "");
}
