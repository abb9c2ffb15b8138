use ntex_redis::client::{closed_result, command_result};
use ntex_redis::cmd::{
    Auth, Command, Del, Exists, Expire, ExpireAt, Get, HDel, HGet, HLen, HSet, IncrBy, Keys,
    KeysPatternCommand, LIndex, LPop, LPush, LPushCommand, PSubscribe, Ping, PingCommand,
    Publish, RPop, RPush, Reset, SPublish, SSubscribe, Select, SelectCommand, SetCommand,
    SetValue, Subscribe, SubscribeItem, SubscribeOutputCommand, Ttl, TtlCommand, TtlResult,
    UnSubscribe,
};
use ntex_redis::cmd::{AuthCommand, BulkOutputCommand, KeysCommand};
use ntex_redis::codec::{Text, BulkString, Codec, Request, Response};
use ntex_redis::errors::{CommandError, Error};

fn text(s: &str) -> Text {
    Text::new(s.as_bytes().to_vec()).unwrap()
}

fn b(s: &str) -> BulkString {
    BulkString::from_str(s)
}

fn wire(req: Request) -> Vec<u8> {
    let mut out = Vec::new();
    Codec.encode(req, &mut out).unwrap();
    out
}

fn reply(bytes: &[u8]) -> Response {
    let mut buf = bytes.to_vec();
    Codec.decode(&mut buf).unwrap().unwrap()
}

#[test]
fn set_then_get() {
    assert_eq!(
        wire(SetValue(b("k"), b("value")).to_request()),
        b"*3\r\n$3\r\nSET\r\n$1\r\nk\r\n$5\r\nvalue\r\n".to_vec()
    );
    assert_eq!(
        command_result::<SetCommand>(Ok(reply(b"+OK\r\n"))).unwrap(),
        true
    );
    assert_eq!(
        wire(Get(b("k")).to_request()),
        b"*2\r\n$3\r\nGET\r\n$1\r\nk\r\n".to_vec()
    );
    assert_eq!(
        command_result::<BulkOutputCommand>(Ok(reply(b"$5\r\nvalue\r\n"))).unwrap(),
        Some(b"value".to_vec())
    );
}

#[test]
fn get_of_unknown_key_is_none() {
    let _ = Get(b("unknown"));
    assert_eq!(
        command_result::<BulkOutputCommand>(Ok(reply(b"$-1\r\n"))).unwrap(),
        None
    );
}

#[test]
fn server_error_is_a_command_error() {
    let _ = Get(b("x"));
    let r = command_result::<BulkOutputCommand>(Ok(reply(b"-WRONGTYPE Operation against a key\r\n")));
    match r {
        Err(CommandError::Error(t)) => assert_eq!(t.as_slice(), b"WRONGTYPE Operation against a key"),
        other => panic!("unexpected {:?}", other),
    }
    assert_eq!(
        command_result::<PingCommand>(Ok(reply(b"+PONG\r\n"))).unwrap(),
        text("PONG")
    );
}

#[test]
fn protocol_error_and_closed_connection() {
    let r = command_result::<PingCommand>(Err(Error::PeerGone(None)));
    assert!(matches!(r, Err(CommandError::Protocol(Error::PeerGone(None)))));
    let r = closed_result::<SetCommand>();
    assert!(matches!(r, Err(CommandError::Protocol(Error::PeerGone(None)))));
}

#[test]
fn set_options_are_written_in_order() {
    let cmd = SetValue(b("k"), b("v")).expire_secs(10).if_not_exists().keepttl();
    assert_eq!(
        wire(cmd.to_request()),
        b"*7\r\n$3\r\nSET\r\n$1\r\nk\r\n$1\r\nv\r\n$2\r\nEX\r\n$2\r\n10\r\n$2\r\nNX\r\n$7\r\nKEEPTTL\r\n".to_vec()
    );
    let cmd = SetValue(b("k"), b("v")).expire_millis(5).if_exists();
    assert_eq!(
        wire(cmd.to_request()),
        b"*6\r\n$3\r\nSET\r\n$1\r\nk\r\n$1\r\nv\r\n$2\r\nPX\r\n$1\r\n5\r\n$2\r\nXX\r\n".to_vec()
    );
    assert_eq!(SetCommand::to_output(Response::Nil).unwrap(), false);
    assert!(matches!(
        SetCommand::to_output(Response::String(text("NO"))),
        Err(CommandError::Output(_, Response::String(_)))
    ));
    assert!(matches!(
        SetCommand::to_output(Response::Integer(1)),
        Err(CommandError::Output(_, Response::Integer(1)))
    ));
}

#[test]
fn string_and_key_commands_are_encoded() {
    assert_eq!(
        wire(IncrBy(b("n"), -3).to_request()),
        b"*3\r\n$6\r\nINCRBY\r\n$1\r\nn\r\n$2\r\n-3\r\n".to_vec()
    );
    assert_eq!(
        wire(Del(b("a")).key(b("b")).keys(vec![b("c"), b("d")]).to_request()),
        b"*5\r\n$3\r\nDEL\r\n$1\r\na\r\n$1\r\nb\r\n$1\r\nc\r\n$1\r\nd\r\n".to_vec()
    );
    assert_eq!(
        wire(Exists(b("a")).to_request()),
        b"*2\r\n$6\r\nEXISTS\r\n$1\r\na\r\n".to_vec()
    );
    assert_eq!(
        wire(Expire(b("a"), 10).to_request()),
        b"*3\r\n$6\r\nEXPIRE\r\n$1\r\na\r\n$2\r\n10\r\n".to_vec()
    );
    assert_eq!(
        wire(ExpireAt(b("a"), 10350).to_request()),
        b"*3\r\n$8\r\nEXPIREAT\r\n$1\r\na\r\n$5\r\n10350\r\n".to_vec()
    );
    assert_eq!(
        wire(Ttl(b("a")).to_request()),
        b"*2\r\n$3\r\nTTL\r\n$1\r\na\r\n".to_vec()
    );
    assert_eq!(
        wire(Keys(b("*name*")).to_request()),
        b"*2\r\n$4\r\nKEYS\r\n$6\r\n*name*\r\n".to_vec()
    );
}

#[test]
fn key_command_answers() {
    assert_eq!(KeysCommand::to_output(Response::Integer(2)).unwrap(), 2);
    assert!(matches!(
        KeysCommand::to_output(Response::Integer(-1)),
        Err(CommandError::Output(_, Response::Integer(-1)))
    ));
    assert_eq!(TtlCommand::to_output(Response::Integer(-1)).unwrap(), TtlResult::NoExpire);
    assert_eq!(TtlCommand::to_output(Response::Integer(-2)).unwrap(), TtlResult::NotFound);
    assert_eq!(TtlCommand::to_output(Response::Integer(7)).unwrap(), TtlResult::Seconds(7));
    assert!(TtlCommand::to_output(Response::Nil).is_err());
    let keys = KeysPatternCommand::to_output(Response::Array(vec![
        Response::Bytes(b"firstname".to_vec()),
        Response::String(text("lastname")),
    ]))
    .unwrap();
    assert_eq!(keys, vec![b"firstname".to_vec(), b"lastname".to_vec()]);
    assert!(matches!(
        KeysPatternCommand::to_output(Response::Array(vec![
            Response::Bytes(b"a".to_vec()),
            Response::Integer(5),
        ])),
        Err(CommandError::Output(_, Response::Integer(5)))
    ));
    assert!(matches!(
        KeysPatternCommand::to_output(Response::Integer(5)),
        Err(CommandError::Output(_, Response::Integer(5)))
    ));
}

#[test]
fn list_commands_are_encoded() {
    assert_eq!(
        wire(LIndex(b("l"), 0).to_request()),
        b"*3\r\n$6\r\nLINDEX\r\n$1\r\nl\r\n$1\r\n0\r\n".to_vec()
    );
    assert_eq!(
        wire(LPop(b("l")).to_request()),
        b"*2\r\n$4\r\nLPOP\r\n$1\r\nl\r\n".to_vec()
    );
    assert_eq!(
        wire(RPop(b("l")).to_request()),
        b"*2\r\n$4\r\nRPOP\r\n$1\r\nl\r\n".to_vec()
    );
    assert_eq!(
        wire(LPush(b("l"), b("1")).value(b("2")).extend(vec![b("3")]).if_exists().to_request()),
        b"*5\r\n$6\r\nLPUSHX\r\n$1\r\nl\r\n$1\r\n1\r\n$1\r\n2\r\n$1\r\n3\r\n".to_vec()
    );
    assert_eq!(
        wire(RPush(b("l"), b("1")).if_exists().to_request()),
        b"*3\r\n$6\r\nRPUSHX\r\n$1\r\nl\r\n$1\r\n1\r\n".to_vec()
    );
    assert_eq!(LPushCommand::to_output(Response::Integer(3)).unwrap(), 3);
}

#[test]
fn hash_commands_are_encoded() {
    assert_eq!(
        wire(HGet(b("h"), b("f")).to_request()),
        b"*3\r\n$4\r\nHGET\r\n$1\r\nh\r\n$1\r\nf\r\n".to_vec()
    );
    assert_eq!(
        wire(HSet(b("h"), b("f"), b("v")).insert(b("g"), b("w")).to_request()),
        b"*6\r\n$4\r\nHSET\r\n$1\r\nh\r\n$1\r\nf\r\n$1\r\nv\r\n$1\r\ng\r\n$1\r\nw\r\n".to_vec()
    );
    assert_eq!(
        wire(HDel(b("h"), b("f")).remove(b("g")).remove_all(vec![b("x")]).to_request()),
        b"*5\r\n$4\r\nHDEL\r\n$1\r\nh\r\n$1\r\nf\r\n$1\r\ng\r\n$1\r\nx\r\n".to_vec()
    );
    assert_eq!(
        wire(HLen(b("h")).to_request()),
        b"*2\r\n$4\r\nHLEN\r\n$1\r\nh\r\n".to_vec()
    );
}

#[test]
fn connection_commands() {
    assert_eq!(
        wire(Select(1).to_request()),
        b"*2\r\n$6\r\nSELECT\r\n$1\r\n1\r\n".to_vec()
    );
    assert_eq!(SelectCommand::to_output(Response::String(text("OK"))).unwrap(), true);
    assert_eq!(SelectCommand::to_output(Response::Nil).unwrap(), false);
    assert_eq!(wire(Ping().to_request()), b"*1\r\n$4\r\nPING\r\n".to_vec());
    assert_eq!(wire(Reset().to_request()), b"*1\r\n$5\r\nRESET\r\n".to_vec());
    assert!(matches!(
        PingCommand::to_output(Response::Error(text("E"))),
        Err(CommandError::Error(_))
    ));
    assert!(matches!(
        PingCommand::to_output(Response::Integer(1)),
        Err(CommandError::Output(_, Response::Integer(1)))
    ));
    assert_eq!(
        wire(Auth(b("pw")).to_request()),
        b"*2\r\n$4\r\nAUTH\r\n$2\r\npw\r\n".to_vec()
    );
    assert_eq!(AuthCommand::to_output(Response::String(text("OK"))).unwrap(), true);
    assert_eq!(AuthCommand::to_output(Response::Integer(1)).unwrap(), false);
}

#[test]
fn publish_and_subscribe_requests() {
    assert_eq!(
        wire(Publish(b("ch"), b("hello")).to_request()),
        b"*3\r\n$7\r\nPUBLISH\r\n$2\r\nch\r\n$5\r\nhello\r\n".to_vec()
    );
    assert_eq!(
        wire(SPublish(b("ch"), b("1")).to_request()),
        b"*3\r\n$8\r\nSPUBLISH\r\n$2\r\nch\r\n$1\r\n1\r\n".to_vec()
    );
    assert_eq!(
        wire(Subscribe(vec![b("ch")]).to_request()),
        b"*2\r\n$9\r\nSUBSCRIBE\r\n$2\r\nch\r\n".to_vec()
    );
    assert_eq!(
        wire(SSubscribe(vec![b("a"), b("b")]).to_request()),
        b"*3\r\n$10\r\nSSUBSCRIBE\r\n$1\r\na\r\n$1\r\nb\r\n".to_vec()
    );
    assert_eq!(
        wire(UnSubscribe(None).to_request()),
        b"$11\r\nUNSUBSCRIBE\r\n".to_vec()
    );
}

#[test]
fn subscription_items() {
    let _ = Subscribe(vec![b("ch")]);
    let item = SubscribeOutputCommand::to_output(reply(b"*3\r\n$9\r\nsubscribe\r\n$2\r\nch\r\n:1\r\n")).unwrap();
    assert_eq!(item, SubscribeItem::Subscribed(b"ch".to_vec()));
    let item = SubscribeItem::from_response(reply(b"*3\r\n$7\r\nmessage\r\n$2\r\nch\r\n$5\r\nhello\r\n")).unwrap();
    assert_eq!(
        item,
        SubscribeItem::Message { pattern: None, channel: b"ch".to_vec(), payload: b"hello".to_vec() }
    );
    let _ = PSubscribe(vec![b("ch.*")]);
    let item = SubscribeItem::from_response(reply(
        b"*4\r\n$8\r\npmessage\r\n$4\r\nch.*\r\n$4\r\nch.1\r\n$2\r\nhi\r\n",
    ))
    .unwrap();
    assert_eq!(
        item,
        SubscribeItem::Message {
            pattern: Some(b"ch.*".to_vec()),
            channel: b"ch.1".to_vec(),
            payload: b"hi".to_vec()
        }
    );
    let item = SubscribeItem::from_response(reply(b"*3\r\n$11\r\nunsubscribe\r\n$2\r\nch\r\n:0\r\n")).unwrap();
    assert_eq!(item, SubscribeItem::UnSubscribed(b"ch".to_vec()));
}

#[test]
fn malformed_subscription_items() {
    assert!(matches!(
        SubscribeItem::from_response(Response::Array(vec![Response::Nil])),
        Err(CommandError::Output(_, Response::Array(_)))
    ));
    assert!(matches!(
        SubscribeItem::from_response(Response::Integer(1)),
        Err(CommandError::Output(_, Response::Integer(1)))
    ));
    assert!(matches!(
        SubscribeItem::from_response(reply(b"*3\r\n$7\r\nmessage\r\n$2\r\nch\r\n:1\r\n")),
        Err(CommandError::Output(_, Response::Nil))
    ));
    assert!(matches!(
        SubscribeItem::from_response(reply(b"*3\r\n$5\r\nother\r\n$2\r\nch\r\n:1\r\n")),
        Err(CommandError::Output(_, Response::Bytes(_)))
    ));
    assert!(matches!(
        SubscribeItem::from_response(reply(b"*3\r\n:5\r\n$2\r\nch\r\n:1\r\n")),
        Err(CommandError::Output(_, Response::Integer(5)))
    ));
    assert!(matches!(
        SubscribeItem::from_response(reply(b"*3\r\n$9\r\nsubscribe\r\n$2\r\nch\r\n+x\r\n")),
        Err(CommandError::Output(_, Response::String(_)))
    ));
}
