use zapx::socks::{Socks5, SocksAction, SocksEvent, SocksHost};

/// Plays a client: the bytes it sends, in order; returns the server's
/// writes and the outcome.
fn run(mut input: &[u8]) -> (Vec<u8>, SocksAction) {
    let mut hs = Socks5::new();
    let mut written = Vec::new();
    let mut event = SocksEvent::Written;
    loop {
        match hs.step(event) {
            SocksAction::Read(n) => {
                let (head, rest) = input.split_at(n);
                input = rest;
                event = SocksEvent::Read(head.to_vec());
            }
            SocksAction::Write(b) => {
                written.extend_from_slice(&b);
                event = SocksEvent::Written;
            }
            other => return (written, other),
        }
    }
}

#[test]
fn connect_ipv4_domain_and_ipv6() {
    let (w, r) = run(&[5, 2, 2, 0, 5, 1, 0, 1, 10, 0, 0, 7, 0x1f, 0x90]);
    assert_eq!(w, vec![5, 0]);
    assert_eq!(r, SocksAction::Done(SocksHost::Name("10.0.0.7".into()), 8080));
    let mut req = vec![5, 1, 0, 5, 1, 0, 3, 11];
    req.extend_from_slice(b"example.com");
    req.extend_from_slice(&[0, 80]);
    assert_eq!(run(&req).1, SocksAction::Done(SocksHost::Name("example.com".into()), 80));
    let mut v6 = vec![5, 1, 0, 5, 1, 0, 4];
    v6.extend_from_slice(&[0, 0, 0, 0, 0, 0, 0, 0, 0, 0, 0, 0, 0, 0, 0, 1]);
    v6.extend_from_slice(&[1, 0]);
    match run(&v6).1 {
        SocksAction::Done(SocksHost::Ipv6(b), 256) => assert_eq!(b[15], 1),
        other => panic!("{other:?}"),
    }
}

#[test]
fn refusals() {
    assert_eq!(run(&[4, 1, 0]).1, SocksAction::Fail("not SOCKS5".into()));
    let (w, r) = run(&[5, 1, 2]);
    assert_eq!(w, vec![5, 0xff]);
    assert_eq!(r, SocksAction::Fail("SOCKS5: no acceptable auth method".into()));
    let (w, r) = run(&[5, 1, 0, 5, 2, 0, 1]);
    assert_eq!(w, vec![5, 0, 5, 7, 0, 1, 0, 0, 0, 0, 0, 0]);
    assert_eq!(r, SocksAction::Fail("SOCKS5: only CONNECT supported".into()));
    let (w, r) = run(&[5, 1, 0, 5, 1, 0, 9]);
    assert_eq!(w[2..], [5, 8, 0, 1, 0, 0, 0, 0, 0, 0]);
    assert_eq!(r, SocksAction::Fail("SOCKS5: unsupported ATYP".into()));
    assert_eq!(run(&[5, 1, 0, 4, 1, 0, 1]).1, SocksAction::Fail("SOCKS5 request version".into()));
    assert_eq!(run(&[5, 1, 0, 5, 1, 0, 3, 1, 0xff, 0, 1]).1, SocksAction::Fail("SOCKS5: non-UTF8 hostname".into()));
}
