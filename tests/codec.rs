use ntex_redis::codec::{Text, decode_frame, BulkString, Codec, Request, Response};
use ntex_redis::errors::Error;

fn text(s: &str) -> Text {
    Text::new(s.as_bytes().to_vec()).unwrap()
}

fn bulk(s: &str) -> Request {
    Request::BulkString(BulkString::from_str(s))
}

fn obj_to_bytes(obj: Request) -> Vec<u8> {
    let mut bytes = Vec::new();
    Codec.encode(obj, &mut bytes).unwrap();
    bytes
}

fn decode_all(bytes: &[u8]) -> Result<Option<Response>, Error> {
    let mut buf = bytes.to_vec();
    Codec.decode(&mut buf)
}

#[test]
fn test_array_macro() {
    let resp_object = Request::Array(vec![bulk("SET"), bulk("x")]);
    let bytes = obj_to_bytes(resp_object);
    assert_eq!(bytes, b"*2\r\n$3\r\nSET\r\n$1\r\nx\r\n".to_vec());

    let resp_object = Request::Array(vec![bulk("RPUSH"), bulk("wyz")]).extend(vec![bulk("a"), bulk("b")]);
    let bytes = obj_to_bytes(resp_object);
    assert_eq!(
        bytes,
        b"*4\r\n$5\r\nRPUSH\r\n$3\r\nwyz\r\n$1\r\na\r\n$1\r\nb\r\n".to_vec(),
    );

    let vals = vec!["a", "b"];
    let resp_object = Request::Array(vec![bulk("RPUSH"), bulk("xyz")])
        .extend(vals.iter().map(|v| bulk(v)).collect());
    let bytes = obj_to_bytes(resp_object);
    assert_eq!(
        bytes,
        b"*4\r\n$5\r\nRPUSH\r\n$3\r\nxyz\r\n$1\r\na\r\n$1\r\nb\r\n".to_vec(),
    );
}

#[test]
fn test_bulk_string() {
    let req_object = Request::BulkString(BulkString::from_bstatic(b"THISISATEST"));
    let mut bytes = Vec::new();
    let codec = Codec;
    codec.encode(req_object, &mut bytes).unwrap();
    assert_eq!(b"$11\r\nTHISISATEST\r\n".to_vec(), bytes);

    let resp_object = Response::Bytes(b"THISISATEST".to_vec());
    let deserialized = codec.decode(&mut bytes).unwrap().unwrap();
    assert_eq!(deserialized, resp_object);
}

#[test]
fn test_array() {
    let req_object = Request::Array(vec![
        Request::BulkString(BulkString::from_slice(b"TEST1")),
        Request::BulkString(BulkString::from_slice(b"TEST2")),
    ]);
    let mut bytes = Vec::new();
    let codec = Codec;
    codec.encode(req_object, &mut bytes).unwrap();
    assert_eq!(b"*2\r\n$5\r\nTEST1\r\n$5\r\nTEST2\r\n".to_vec(), bytes);

    let resp = Response::Array(vec![
        Response::Bytes(b"TEST1".to_vec()),
        Response::Bytes(b"TEST2".to_vec()),
    ]);
    let deserialized = codec.decode(&mut bytes).unwrap().unwrap();
    assert_eq!(deserialized, resp);
}

#[test]
fn test_nil_string() {
    let mut bytes = Vec::new();
    bytes.extend_from_slice(&b"$-1\r\n"[..]);

    let codec = Codec;
    let deserialized = codec.decode(&mut bytes).unwrap().unwrap();
    assert_eq!(deserialized, Response::Nil);
}

#[test]
fn test_integer_overflow() {
    let resp_object = Response::Integer(i64::max_value());
    let res = resp_object.to_i32();
    assert!(res.is_err());
}

#[test]
fn test_integer_underflow() {
    let resp_object = Response::Integer(-2);
    let res = resp_object.to_u64();
    assert!(res.is_err());
}

#[test]
fn test_integer_convesion() {
    let resp_object = Response::Integer(50);
    assert_eq!(resp_object.to_u32().unwrap(), 50);
}

#[test]
fn nil_array_and_nil_bulk_both_decode_to_nil() {
    assert_eq!(decode_all(b"$-1\r\n").unwrap(), Some(Response::Nil));
    assert_eq!(decode_all(b"*-1\r\n").unwrap(), Some(Response::Nil));
}

#[test]
fn round_trip_of_nested_request() {
    let req = Request::Array(vec![
        bulk("SET"),
        Request::Integer(-7),
        Request::BulkInteger(1234),
        Request::String(text("hello")),
        Request::Array(vec![]),
        Request::Array(vec![Request::BulkStatic(b"in"), Request::Integer(i64::MIN)]),
    ]);
    let bytes = obj_to_bytes(req);
    assert_eq!(
        bytes,
        b"*6\r\n$3\r\nSET\r\n:-7\r\n$4\r\n1234\r\n+hello\r\n*0\r\n*2\r\n$2\r\nin\r\n:-9223372036854775808\r\n".to_vec()
    );
    let mut buf = bytes.clone();
    buf.extend_from_slice(b"+NEXT\r\n");
    let decoded = Codec.decode(&mut buf).unwrap().unwrap();
    assert_eq!(
        decoded,
        Response::Array(vec![
            Response::Bytes(b"SET".to_vec()),
            Response::Integer(-7),
            Response::Bytes(b"1234".to_vec()),
            Response::String(text("hello")),
            Response::Array(vec![]),
            Response::Array(vec![Response::Bytes(b"in".to_vec()), Response::Integer(i64::MIN)]),
        ])
    );
    assert_eq!(buf, b"+NEXT\r\n".to_vec());
}

#[test]
fn every_split_of_a_frame_needs_more_then_decodes() {
    let req = Request::Array(vec![bulk("GET"), Request::Integer(42), Request::String(text("ok"))]);
    let bytes = obj_to_bytes(req);
    for cut in 0..bytes.len() {
        let mut first = bytes[..cut].to_vec();
        assert_eq!(Codec.decode(&mut first).unwrap(), None);
        assert_eq!(first, bytes[..cut].to_vec());
        let mut whole = first.clone();
        whole.extend_from_slice(&bytes[cut..]);
        let frame = Codec.decode(&mut whole).unwrap().unwrap();
        assert_eq!(
            frame,
            Response::Array(vec![
                Response::Bytes(b"GET".to_vec()),
                Response::Integer(42),
                Response::String(text("ok")),
            ])
        );
        assert!(whole.is_empty());
    }
}

#[test]
fn decode_frame_reports_length() {
    let (n, v) = decode_frame(b":12\r\n:13\r\n").unwrap().unwrap();
    assert_eq!(n, 5);
    assert_eq!(v, Response::Integer(12));
    assert_eq!(decode_frame(b"").unwrap(), None);
}

#[test]
fn signed_integers_are_read() {
    assert_eq!(decode_all(b":-123\r\n").unwrap(), Some(Response::Integer(-123)));
    assert_eq!(
        decode_all(b":9223372036854775807\r\n").unwrap(),
        Some(Response::Integer(i64::MAX))
    );
}

#[test]
fn malformed_input_is_a_parse_error() {
    assert!(matches!(decode_all(b"?x\r\n"), Err(Error::Parse(_))));
    assert!(matches!(decode_all(b"$-2\r\n"), Err(Error::Parse(_))));
    assert!(matches!(decode_all(b"*-5\r\n"), Err(Error::Parse(_))));
    assert!(matches!(decode_all(b":abc\r\n"), Err(Error::Parse(_))));
    assert!(matches!(decode_all(b":+5\r\n"), Err(Error::Parse(_))));
    assert!(matches!(decode_all(b"$+3\r\nabc\r\n"), Err(Error::Parse(_))));
    assert!(matches!(decode_all(b"*+1\r\n:1\r\n"), Err(Error::Parse(_))));
    assert!(matches!(decode_all(b":-\r\n"), Err(Error::Parse(_))));
    assert!(matches!(decode_all(b":\r\n"), Err(Error::Parse(_))));
    assert!(matches!(decode_all(b":9223372036854775808\r\n"), Err(Error::Parse(_))));
    assert!(matches!(decode_all(b"$1\r\nabc"), Err(Error::Parse(_))));
    assert!(matches!(decode_all(b"+\xff\xfe\r\n"), Err(Error::Parse(_))));
    assert!(matches!(decode_all(b"-a\rb\r\n"), Err(Error::Parse(_))));
}

#[test]
fn incomplete_input_needs_more() {
    assert_eq!(decode_all(b"$5\r\nval").unwrap(), None);
    assert_eq!(decode_all(b"*2\r\n:1\r\n").unwrap(), None);
    assert_eq!(decode_all(b"+OK\r").unwrap(), None);
    assert_eq!(decode_all(b"*100000000000\r\n").unwrap(), None);
}

#[test]
fn utf8_text_is_accepted() {
    assert_eq!(
        decode_all("+h\u{e9}llo\r\n".as_bytes()).unwrap(),
        Some(Response::String(text("h\u{e9}llo")))
    );
    assert_eq!(
        decode_all(b"-ERR bad\r\n").unwrap(),
        Some(Response::Error(text("ERR bad")))
    );
}

#[test]
fn invalid_simple_string_cannot_be_built() {
    assert!(Text::new(b"a\r\nb".to_vec()).is_none());
    assert!(Text::new(b"a\rb".to_vec()).is_none());
    assert!(Text::new(vec![0xff]).is_none());
    let t = Text::new("h\u{e9}".as_bytes().to_vec()).unwrap();
    assert_eq!(obj_to_bytes(Request::String(t)), "+h\u{e9}\r\n".as_bytes().to_vec());
}

#[test]
fn bulk_integer_is_decimal_text() {
    assert_eq!(obj_to_bytes(Request::BulkInteger(-42)), b"$3\r\n-42\r\n".to_vec());
    assert_eq!(obj_to_bytes(Request::Integer(0)), b":0\r\n".to_vec());
    assert_eq!(
        obj_to_bytes(Request::BulkInteger(i64::MAX)),
        b"$19\r\n9223372036854775807\r\n".to_vec()
    );
}

#[test]
fn add_turns_a_single_value_into_an_array() {
    let r = Request::from_static("SUBSCRIBE").add(bulk("a")).add(bulk("b"));
    assert_eq!(obj_to_bytes(r), b"*3\r\n$9\r\nSUBSCRIBE\r\n$1\r\na\r\n$1\r\nb\r\n".to_vec());
}

#[test]
fn conversions_of_responses() {
    let (a, b2) = Response::Array(vec![Response::Integer(1), Response::Nil]).to_pair().unwrap();
    assert_eq!((a, b2), (Response::Integer(1), Response::Nil));
    assert!(matches!(
        Response::Array(vec![Response::Nil]).to_pair(),
        Err((_, Response::Array(_)))
    ));
    let (a, b2, c) = Response::Array(vec![Response::Integer(1), Response::Nil, Response::Integer(3)])
        .to_triple()
        .unwrap();
    assert_eq!((a, b2, c), (Response::Integer(1), Response::Nil, Response::Integer(3)));
    assert!(Response::Integer(1).to_triple().is_err());
    assert_eq!(
        Response::Array(vec![Response::Integer(4)]).to_array().unwrap(),
        vec![Response::Integer(4)]
    );
    assert!(Response::Nil.to_array().is_err());
    assert!(Response::String(text("OK")).to_unit().is_ok());
    assert!(matches!(
        Response::String(text("NO")).to_unit(),
        Err((_, Response::String(_)))
    ));
    assert!(Response::Integer(0).to_unit().is_err());
    assert_eq!(Response::Integer(1).to_bool().unwrap(), true);
    assert_eq!(Response::Integer(0).to_bool().unwrap(), false);
    let (_, v) = Response::Integer(2).to_bool().unwrap_err();
    assert_eq!(v, Response::Integer(2));
    let (_, v) = Response::Integer(i64::from(i32::MIN) - 1).to_i32().unwrap_err();
    assert_eq!(v, Response::Integer(i64::from(i32::MIN) - 1));
    assert_eq!(Response::Integer(-5).to_isize().unwrap(), -5);
    assert!(Response::Integer(-1).to_usize().is_err());
    assert!(Response::Integer(1 << 40).to_u32().is_err());
    assert_eq!(Response::Bytes(b"x".to_vec()).to_bytes().unwrap(), b"x".to_vec());
    assert_eq!(Response::Bytes(b"x".to_vec()).to_text().unwrap(), b"x".to_vec());
    let (_, v) = Response::Bytes(vec![0xff]).to_text().unwrap_err();
    assert_eq!(v, Response::Nil);
    let (_, v) = Response::Integer(3).to_bytes().unwrap_err();
    assert_eq!(v, Response::Integer(3));
    assert_eq!(
        Response::Error(text("E")).into_result(),
        Err(text("E"))
    );
}

#[test]
fn cloned_errors_keep_only_their_kind() {
    let e = Error::PeerGone(Some(std::io::Error::new(std::io::ErrorKind::Other, "x")));
    assert!(matches!(e.clone_kind(), Error::PeerGone(None)));
    let e = Error::Parse("bad".to_string());
    assert!(matches!(e.clone_kind(), Error::Parse(_)));
}

#[test]
fn bulk_string_constructors() {
    assert_eq!(BulkString::from_static("ab").as_slice(), b"ab");
    assert_eq!(BulkString::from_vec(vec![1, 2]).as_slice(), &[1u8, 2][..]);
    assert_eq!(BulkString::from_str("h\u{e9}").as_slice(), "h\u{e9}".as_bytes());
    assert_eq!(
        obj_to_bytes(Request::from_bstatic(b"xy")),
        b"$2\r\nxy\r\n".to_vec()
    );
}

#[test]
fn test_hashmap_conversion() {
    let mut expected = std::collections::HashMap::new();
    expected.insert(b"KEY1".to_vec(), b"VALUE1".to_vec());
    expected.insert(b"KEY2".to_vec(), b"VALUE2".to_vec());

    let resp_object = Response::Array(vec![
        Response::String(text("KEY1")),
        Response::String(text("VALUE1")),
        Response::String(text("KEY2")),
        Response::String(text("VALUE2")),
    ]);
    let map: std::collections::HashMap<Vec<u8>, Vec<u8>> = resp_object
        .to_pairs()
        .unwrap()
        .into_iter()
        .map(|(k, v)| (k.to_text().unwrap(), v.to_text().unwrap()))
        .collect();
    assert_eq!(map, expected);
}

#[test]
fn test_hashmap_conversion_fails_with_odd_length_array() {
    let resp_object = Response::Array(vec![
        Response::String(text("KEY1")),
        Response::String(text("VALUE1")),
        Response::String(text("KEY2")),
        Response::String(text("VALUE2")),
        Response::String(text("KEY3")),
    ]);
    let res = resp_object.to_pairs();

    match res {
        Err((_, _)) => {}
        _ => panic!("Should not be able to convert an odd number of elements to a hashmap"),
    }
}
