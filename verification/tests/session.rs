use mahou::downloader::irc::{quit_line, Config, Request};
use mahou::downloader::{Error, LineBuffer, SessionState};

fn test_request(packages: Vec<&str>) -> Request {
    Request {
        config: Config {
            server: "irc.example.net:6667".to_owned(),
            channel: "#somewhere".to_owned(),
            nickname: "tester".to_owned(),
        },
        bot: "CoolBot".to_owned(),
        packages: packages.into_iter().map(|p| p.to_owned()).collect(),
        directory: "./".to_owned(),
    }
}

#[test]
fn ping_gets_pong_with_identical_payload() {
    let req = test_request(vec!["123"]);
    let mut state = SessionState::new();
    let step = state.handle_line(&req, "PING :A1B2").expect("ok");
    assert_eq!(step.replies[0], "PONG :A1B2");
}

#[test]
fn first_ping_also_joins_the_channel() {
    let req = test_request(vec!["123"]);
    let mut state = SessionState::new();
    let step = state.handle_line(&req, "PING :12345\r\n").expect("ok");
    assert_eq!(step.replies.len(), 2);
    assert_eq!(step.replies[0], "PONG :12345\r\n");
    assert_eq!(step.replies[1], "JOIN ##somewhere\r\n");
}

#[test]
fn join_sent_once_despite_repeated_pings() {
    let req = test_request(vec!["123"]);
    let mut state = SessionState::new();
    let first = state.handle_line(&req, "PING :1\r\n").expect("ok");
    let second = state.handle_line(&req, "PING :2\r\n").expect("ok");
    let third = state.handle_line(&req, "PING :3\r\n").expect("ok");
    let joins = |step: &mahou::downloader::Step| {
        step.replies
            .iter()
            .filter(|r| r.starts_with("JOIN "))
            .count()
    };
    assert_eq!(joins(&first), 1);
    assert_eq!(joins(&second), 0);
    assert_eq!(joins(&third), 0);
}

#[test]
fn join_ack_requests_each_package_exactly_once() {
    let req = test_request(vec!["111", "222"]);
    let mut state = SessionState::new();
    let step = state
        .handle_line(&req, ":me!user@host JOIN :#somewhere\r\n")
        .expect("ok");
    assert_eq!(step.replies.len(), 2);
    assert_eq!(step.replies[0], "PRIVMSG CoolBot :xdcc send #111\r\n");
    assert_eq!(step.replies[1], "PRIVMSG CoolBot :xdcc send #222\r\n");
    let again = state
        .handle_line(&req, ":me!user@host JOIN :#somewhere\r\n")
        .expect("ok");
    assert_eq!(again.replies.len(), 0);
}

#[test]
fn unrecognized_lines_are_ignored() {
    let req = test_request(vec!["123"]);
    let mut state = SessionState::new();
    let step = state
        .handle_line(&req, ":server 001 tester :Welcome\r\n")
        .expect("ok");
    assert!(step.replies.is_empty());
    assert!(step.offer.is_none());
    assert!(!state.is_done(1));
}

#[test]
fn malformed_offer_aborts_with_offer_error() {
    let req = test_request(vec!["123"]);
    let mut state = SessionState::new();
    let line = ":bot PRIVMSG me :DCC SEND f example.com 1 1\r\n";
    match state.handle_line(&req, line) {
        Err(Error::Offer(l)) => assert_eq!(l, line),
        other => panic!("expected an offer error, got {:?}", other.is_ok()),
    }
    assert!(!state.is_done(1));
}

#[test]
fn two_packages_two_offers_then_quit() {
    let req = test_request(vec!["111", "222"]);
    let total = req.packages.len();
    let lines = vec![
        "PING :42\r\n".to_owned(),
        ":me JOIN :#somewhere\r\n".to_owned(),
        ":bot PRIVMSG me :DCC SEND \"a.mkv\" 16909060 5000 10\r\n".to_owned(),
        ":server NOTICE tester :noise\r\n".to_owned(),
        ":bot PRIVMSG me :DCC SEND \"b.mkv\" 16909061 5001 20\r\n".to_owned(),
        ":late PRIVMSG me :DCC SEND \"c.mkv\" 16909062 5002 30\r\n".to_owned(),
    ];
    let mut state = SessionState::new();
    let mut offers = Vec::new();
    let mut sent = Vec::new();
    let mut consumed = 0;
    for line in &lines {
        if state.is_done(total) {
            break;
        }
        consumed += 1;
        let step = state.handle_line(&req, line).expect("ok");
        sent.extend(step.replies);
        if let Some(offer) = step.offer {
            offers.push(offer);
        }
    }
    assert!(state.is_done(total));
    sent.push(quit_line());
    // The loop stops right at the second offer: the late third offer is
    // never consumed, exactly two workers exist, and one QUIT follows.
    assert_eq!(consumed, 5);
    assert_eq!(offers.len(), 2);
    assert_eq!(offers[0].filename, "a.mkv");
    assert_eq!(offers[1].filename, "b.mkv");
    assert_eq!(
        sent.iter().filter(|l| l.starts_with("QUIT ")).count(),
        1
    );
    assert_eq!(sent.last().unwrap(), "QUIT :my job is done here!\r\n");
}

#[test]
fn line_buffer_reassembles_split_chunks() {
    let mut buf = LineBuffer::new();
    buf.push_text("PING");
    assert!(buf.take_line().is_none());
    buf.push_text(" :77\r\nJOIN");
    assert_eq!(buf.take_line().unwrap(), "PING :77\r\n");
    assert!(buf.take_line().is_none());
    buf.push_text(" :#x\r\n");
    assert_eq!(buf.take_line().unwrap(), "JOIN :#x\r\n");
    assert!(buf.take_line().is_none());
}

#[test]
fn login_lines_register_nick_and_user() {
    let req = test_request(vec!["1"]);
    let lines = mahou::downloader::irc::login_lines(&req.config);
    assert_eq!(lines.len(), 2);
    assert_eq!(lines[0], "NICK tester\r\n");
    assert_eq!(lines[1], "USER tester 0 * tester\r\n");
}
