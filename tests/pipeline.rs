use ntex_redis::client::command_result;
use ntex_redis::cmd::{Auth, BulkOutputCommand, Command, Get, Ping, PingCommand, SetCommand, SetValue};
use ntex_redis::codec::{Text, BulkString, Codec, Response};
use ntex_redis::connector::{AuthStep, Handshake};
use ntex_redis::errors::{CommandError, Error};
use ntex_redis::transport::Inflight;

fn text(s: &str) -> Text {
    Text::new(s.as_bytes().to_vec()).unwrap()
}

fn b(s: &str) -> BulkString {
    BulkString::from_str(s)
}

fn frames(bytes: &[u8]) -> Vec<Response> {
    let mut buf = bytes.to_vec();
    let mut out = Vec::new();
    while let Some(f) = Codec.decode(&mut buf).unwrap() {
        out.push(f);
    }
    out
}

#[test]
fn pipelined_answers_follow_the_queue() {
    let mut q: Inflight<u32> = Inflight::new();
    let mut wire = Vec::new();
    q.submit(SetValue(b("a"), b("1")).to_request(), 1, &mut wire).unwrap();
    q.submit(Get(b("a")).to_request(), 2, &mut wire).unwrap();
    assert_eq!(
        wire,
        b"*3\r\n$3\r\nSET\r\n$1\r\na\r\n$1\r\n1\r\n*2\r\n$3\r\nGET\r\n$1\r\na\r\n".to_vec()
    );
    assert_eq!(q.len(), 2);
    let (answered, extra) = q.dispatch(frames(b"+OK\r\n$1\r\n1\r\n"));
    assert!(extra.is_empty());
    assert_eq!(q.len(), 0);
    let mut it = answered.into_iter();
    let (w, f) = it.next().unwrap();
    assert_eq!(w, 1);
    assert_eq!(command_result::<SetCommand>(Ok(f)).unwrap(), true);
    let (w, f) = it.next().unwrap();
    assert_eq!(w, 2);
    assert_eq!(command_result::<BulkOutputCommand>(Ok(f)).unwrap(), Some(b"1".to_vec()));
}

#[test]
fn server_error_leaves_other_requests_answered() {
    let mut q: Inflight<&str> = Inflight::new();
    let mut wire = Vec::new();
    q.submit(Get(b("x")).to_request(), "get", &mut wire).unwrap();
    q.submit(Ping().to_request(), "ping", &mut wire).unwrap();
    let (answered, _) = q.dispatch(frames(b"-WRONGTYPE Operation\r\n+PONG\r\n"));
    let mut it = answered.into_iter();
    let (_, f) = it.next().unwrap();
    assert!(matches!(
        command_result::<BulkOutputCommand>(Ok(f)),
        Err(CommandError::Error(t)) if t.as_slice() == b"WRONGTYPE Operation"
    ));
    let (w, f) = it.next().unwrap();
    assert_eq!(w, "ping");
    assert_eq!(command_result::<PingCommand>(Ok(f)).unwrap(), text("PONG"));
    assert!(q.is_open());
}

#[test]
fn unexpected_frame_comes_back() {
    let mut q: Inflight<u8> = Inflight::new();
    assert_eq!(q.on_frame(Response::Integer(1)), Err(Response::Integer(1)));
    let (answered, extra) = q.dispatch(vec![Response::Nil]);
    assert!(answered.is_empty());
    assert_eq!(extra, vec![Response::Nil]);
}

#[test]
fn peer_close_drains_every_waiter() {
    let mut q: Inflight<u8> = Inflight::new();
    let mut wire = Vec::new();
    for w in 0..3u8 {
        q.submit(Ping().to_request(), w, &mut wire).unwrap();
    }
    let failed = q.fail(None);
    assert_eq!(failed.len(), 3);
    for (k, (w, e)) in failed.into_iter().enumerate() {
        assert_eq!(w as usize, k);
        assert!(matches!(e, Error::PeerGone(None)));
    }
    assert!(!q.is_open());
    assert_eq!(q.len(), 0);
    let before = wire.len();
    let r = q.submit(Ping().to_request(), 9, &mut wire);
    assert!(matches!(r, Err((9, Error::PeerGone(None)))));
    assert_eq!(wire.len(), before);
}

#[test]
fn decode_error_goes_to_the_head_only() {
    let mut q: Inflight<u8> = Inflight::new();
    let mut wire = Vec::new();
    q.submit(Ping().to_request(), 1, &mut wire).unwrap();
    q.submit(Ping().to_request(), 2, &mut wire).unwrap();
    let failed = q.fail(Some(Error::Parse("bad".to_string())));
    assert!(matches!(&failed[0], (1, Error::Parse(m)) if m == "bad"));
    assert!(matches!(&failed[1], (2, Error::PeerGone(None))));
}

#[test]
fn text_with_a_line_break_cannot_be_built() {
    assert!(Text::new(b"a\nb".to_vec()).is_none());
    assert!(Text::new(vec![0xff]).is_none());
    assert_eq!(Text::new(b"ok".to_vec()).unwrap().as_slice(), b"ok");
}

fn auth_bytes(step: AuthStep) -> Vec<u8> {
    match step {
        AuthStep::Send(cmd) => {
            let mut out = Vec::new();
            Codec.encode(cmd.to_request(), &mut out).unwrap();
            out
        }
        _ => panic!("expected an AUTH to send"),
    }
}

fn auth_reply(bytes: &[u8]) -> Result<bool, CommandError> {
    let mut buf = bytes.to_vec();
    let frame = Codec.decode(&mut buf).unwrap().unwrap();
    command_result::<ntex_redis::cmd::AuthCommand>(Ok(frame))
}

#[test]
fn auth_tries_passwords_in_order() {
    let mut h = Handshake::new(vec![b("bad"), b("good")]);
    assert_eq!(auth_bytes(h.start()), b"*2\r\n$4\r\nAUTH\r\n$3\r\nbad\r\n".to_vec());
    let step = h.on_reply(auth_reply(b"-ERR invalid\r\n"));
    assert_eq!(auth_bytes(step), b"*2\r\n$4\r\nAUTH\r\n$4\r\ngood\r\n".to_vec());
    assert!(matches!(h.on_reply(auth_reply(b"+OK\r\n")), AuthStep::Ready));
}

#[test]
fn auth_without_an_accepted_password_is_unauthorized() {
    let mut h = Handshake::new(vec![b("bad")]);
    let _ = auth_bytes(h.start());
    assert!(matches!(h.on_reply(auth_reply(b"-ERR invalid\r\n")), AuthStep::Unauthorized));
    let mut h = Handshake::new(vec![b("test")]);
    let _ = h.start();
    assert!(matches!(h.on_reply(Ok(false)), AuthStep::Unauthorized));
}

#[test]
fn auth_without_passwords_is_ready_and_protocol_errors_fail() {
    let mut h = Handshake::new(vec![]);
    assert!(matches!(h.start(), AuthStep::Ready));
    let mut h = Handshake::new(vec![b("a"), b("b")]);
    let _ = h.start();
    let step = h.on_reply(Err(CommandError::Protocol(Error::PeerGone(None))));
    assert!(matches!(step, AuthStep::Failed(Error::PeerGone(None))));
    let _ = Auth(b("unused"));
}
