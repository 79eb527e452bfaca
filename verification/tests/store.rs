use gandalf::client::{get_reply, read_response, set_reply, ClientError};
use gandalf::command::{Command, Get, Load, SetCmd, Snap};
use gandalf::db::Db;
use gandalf::frame::{
    get_decimal, get_line, get_u8, peek_u8, skip, take_frame, write_frame, Connection, Cursor,
    Error, Frame,
};
use gandalf::parse::{Parse, ParseError};

fn bulk(s: &str) -> Frame {
    Frame::Bulk(s.as_bytes().to_vec())
}

fn simple(s: &str) -> Frame {
    Frame::Simple(s.to_string())
}

fn encoded(f: &Frame) -> Vec<u8> {
    let mut buf = Vec::new();
    write_frame(&mut buf, f);
    buf
}

fn same(a: &Frame, b: &Frame) -> bool {
    format!("{:?}", a) == format!("{:?}", b)
}

#[test]
fn lib_it_works() {
    assert_eq!(2 + 2, 4);
}

#[test]
fn write_frame_encodes_each_kind() {
    assert_eq!(encoded(&simple("OK")), b"+OK\r\n".to_vec());
    assert_eq!(encoded(&Frame::Error("bad".to_string())), b"-bad\r\n".to_vec());
    assert_eq!(encoded(&Frame::Integer(42)), b":42\r\n".to_vec());
    assert_eq!(encoded(&Frame::Integer(0)), b":0\r\n".to_vec());
    assert_eq!(encoded(&bulk("hi")), b"$2\r\nhi\r\n".to_vec());
    assert_eq!(encoded(&Frame::Null), b"$-1\r\n".to_vec());
    assert_eq!(
        encoded(&Frame::Array(vec![bulk("get"), bulk("k")])),
        b"*2\r\n$3\r\nget\r\n$1\r\nk\r\n".to_vec()
    );
}

#[test]
fn write_then_read_gives_the_frame_back() {
    let frames = vec![
        simple("hello"),
        Frame::Error("oops".to_string()),
        Frame::Integer(18446744073709551615),
        bulk("some bytes"),
        Frame::Null,
        Frame::Array(vec![Frame::Null, bulk("x")]),
        Frame::Array(vec![simple("load"), Frame::Array(vec![Frame::Array(vec![simple("a"), bulk("1")])])]),
    ];
    for f in frames {
        let mut buf = encoded(&f);
        buf.extend_from_slice(b"+next\r\n");
        let got = take_frame(&mut buf).unwrap().unwrap();
        assert!(same(&got, &f));
        assert_eq!(buf, b"+next\r\n".to_vec());
    }
}

#[test]
fn take_frame_waits_for_a_whole_frame() {
    let mut buf = b"+OK".to_vec();
    assert!(matches!(take_frame(&mut buf), Ok(None)));
    assert_eq!(buf, b"+OK".to_vec());
    let mut buf = b"*2\r\n$3\r\nget\r\n".to_vec();
    assert!(matches!(take_frame(&mut buf), Ok(None)));
    assert_eq!(buf.len(), 13);
}

#[test]
fn take_frame_rejects_an_unknown_first_byte() {
    let mut buf = b"!x\r\n".to_vec();
    match take_frame(&mut buf) {
        Err(Error::Other(msg)) => assert_eq!(msg, "Invalid byte `33` for start of frame"),
        other => panic!("unexpected {:?}", other),
    }
    assert_eq!(buf, b"!x\r\n".to_vec());
}

#[test]
fn take_frame_rejects_a_line_without_digits() {
    let mut buf = b":x1\r\n".to_vec();
    assert!(matches!(take_frame(&mut buf), Err(Error::Other(_))));
}

#[test]
fn take_frame_reads_the_leading_digits_of_an_integer() {
    let mut buf = b":12a\r\n".to_vec();
    match take_frame(&mut buf).unwrap().unwrap() {
        Frame::Integer(v) => assert_eq!(v, 12),
        other => panic!("unexpected {:?}", other),
    }
}

#[test]
fn take_frame_reads_an_integer_through_atoi() {
    let mut buf = b":1234\r\n".to_vec();
    match take_frame(&mut buf).unwrap().unwrap() {
        Frame::Integer(v) => assert_eq!(v, 1234),
        other => panic!("unexpected {:?}", other),
    }
    assert!(buf.is_empty());
}

#[test]
fn take_frame_reads_a_simple_line_as_text() {
    let mut buf = "+héllo\r\n".as_bytes().to_vec();
    match take_frame(&mut buf).unwrap().unwrap() {
        Frame::Simple(s) => assert_eq!(s, "héllo"),
        other => panic!("unexpected {:?}", other),
    }
}

#[test]
fn connection_parses_frames_one_after_the_other() {
    let mut c = Connection::new();
    c.buffer.extend_from_slice(b"+a\r\n:7\r\n");
    assert!(!c.parse_would_abort());
    assert!(same(&c.parse_frame().unwrap().unwrap(), &simple("a")));
    assert!(same(&c.parse_frame().unwrap().unwrap(), &Frame::Integer(7)));
    assert!(matches!(c.parse_frame(), Ok(None)));
}

#[test]
fn cursor_reads_bytes_lines_and_decimals() {
    let data = b"ab\r\n123\r\nz".to_vec();
    let mut c = Cursor::new(&data);
    assert_eq!(peek_u8(&mut c).unwrap(), b'a');
    assert_eq!(get_u8(&mut c).unwrap(), b'a');
    assert_eq!(c.position(), 1);
    assert_eq!(get_line(&mut c).unwrap(), b"b");
    assert_eq!(get_decimal(&mut c).unwrap(), 123);
    assert!(skip(&mut c, 1).is_ok());
    assert!(!c.has_remaining());
    assert!(matches!(get_u8(&mut c), Err(Error::Incomplete)));
    assert!(matches!(peek_u8(&mut c), Err(Error::Incomplete)));
}

#[test]
fn get_line_without_an_end_is_incomplete() {
    let data = b"abc".to_vec();
    let mut c = Cursor::new(&data);
    assert!(matches!(get_line(&mut c), Err(Error::Incomplete)));
}

#[test]
fn check_and_parse_agree() {
    let data = b"*2\r\n+a\r\n:5\r\n".to_vec();
    let mut c = Cursor::new(&data);
    assert!(Frame::check(&mut c).is_ok());
    assert_eq!(c.position(), data.len());
    c.set_position(0);
    let f = Frame::parse(&mut c).unwrap();
    assert!(same(&f, &Frame::Array(vec![simple("a"), Frame::Integer(5)])));
}

#[test]
fn duplicate_copies_a_frame() {
    let f = Frame::Array(vec![simple("x"), Frame::Array(vec![bulk("y"), Frame::Null])]);
    assert!(same(&f.duplicate(), &f));
}

#[test]
fn errors_convert_from_text_and_tell_their_message() {
    let e: Error = "boom".to_string().into();
    assert_eq!(e.message(), "boom");
    assert_eq!(Error::Incomplete.message(), "stream ended early");
    let p: ParseError = ParseError::from("bad".to_string());
    assert_eq!(p.message(), "bad");
    assert_eq!(ParseError::EndOfStream.message(), "End of stream");
}

#[test]
fn parse_walks_an_array() {
    let mut p = Parse::new(Frame::Array(vec![bulk("set"), simple("k"), bulk("v")])).unwrap();
    assert_eq!(p.next_string().unwrap(), "set");
    assert_eq!(p.next_string().unwrap(), "k");
    assert_eq!(p.next_bytes().unwrap(), b"v".to_vec());
    assert!(p.finish().is_ok());
    assert!(matches!(p.next(), Err(ParseError::EndOfStream)));
}

#[test]
fn parse_refuses_what_is_not_an_array() {
    match Parse::new(simple("get")) {
        Err(ParseError::Other(m)) => assert_eq!(m, "protocol error; expected array"),
        other => panic!("unexpected {:?}", other),
    }
}

#[test]
fn parse_names_what_it_expected() {
    let mut p = Parse::new(Frame::Array(vec![Frame::Integer(1), Frame::Bulk(vec![0xff]), simple("x")])).unwrap();
    match p.next_string() {
        Err(ParseError::Other(m)) => assert_eq!(m, "protocol error; expected simple frame or bulk frame"),
        other => panic!("unexpected {:?}", other),
    }
    match p.next_string() {
        Err(ParseError::Other(m)) => assert_eq!(m, "protocol error; invalid string"),
        other => panic!("unexpected {:?}", other),
    }
    match p.next_array() {
        Err(ParseError::Other(m)) => assert_eq!(m, "protocol error; expected array frame"),
        other => panic!("unexpected {:?}", other),
    }
    assert!(matches!(p.next_bytes(), Err(ParseError::EndOfStream)));
}

#[test]
fn parse_finish_refuses_leftovers() {
    let mut p = Parse::new(Frame::Array(vec![bulk("a"), bulk("b")])).unwrap();
    p.next_string().unwrap();
    assert!(matches!(p.finish(), Err(ParseError::Other(_))));
}

#[test]
fn command_names_are_read_in_any_case() {
    match Command::from_frame(Frame::Array(vec![bulk("GeT"), bulk("key")])).unwrap() {
        Command::Get(g) => assert_eq!(g.key(), "key"),
        other => panic!("unexpected {:?}", other),
    }
    match Command::from_frame(Frame::Array(vec![bulk("SET"), bulk("k"), bulk("v")])).unwrap() {
        Command::SetCmd(s) => {
            assert_eq!(s.key(), "k");
            assert_eq!(s.value(), &b"v".to_vec());
        }
        other => panic!("unexpected {:?}", other),
    }
    assert!(matches!(
        Command::from_frame(Frame::Array(vec![simple("snap")])).unwrap(),
        Command::Snap(_)
    ));
}

#[test]
fn unknown_and_short_commands_are_errors() {
    match Command::from_frame(Frame::Array(vec![bulk("del"), bulk("k")])) {
        Err(ParseError::Other(msg)) => assert_eq!(msg, "Could not parse the command"),
        other => panic!("unexpected {:?}", other),
    }
    assert!(matches!(
        Command::from_frame(Frame::Array(vec![bulk("get")])),
        Err(ParseError::EndOfStream)
    ));
    assert!(matches!(
        Command::from_frame(Frame::Array(vec![bulk("get"), bulk("a"), bulk("b")])),
        Err(ParseError::Other(_))
    ));
}

#[test]
fn set_then_get_gives_the_value_back() {
    let mut db = Db::new();
    let r = SetCmd::new("k".to_string(), b"v1".to_vec()).apply(&mut db);
    assert!(same(&r, &simple("OK")));
    SetCmd::new("k".to_string(), b"v2".to_vec()).apply(&mut db);
    assert!(same(&Get::new("k".to_string()).apply(&db), &bulk("v2")));
    assert!(same(&Get::new("other".to_string()).apply(&db), &Frame::Null));
    assert_eq!(db.get("k"), Some(b"v2".to_vec()));
}

#[test]
fn load_stores_every_pair_the_last_one_winning() {
    let frame = Frame::Array(vec![
        simple("load"),
        Frame::Array(vec![
            Frame::Array(vec![simple("a"), bulk("1")]),
            Frame::Array(vec![simple("b"), bulk("2")]),
            Frame::Array(vec![simple("a"), bulk("3")]),
        ]),
    ]);
    let mut db = Db::new();
    let reply = Command::from_frame(frame).unwrap().apply(&mut db);
    assert!(same(&reply, &simple("OK")));
    assert_eq!(db.get("a"), Some(b"3".to_vec()));
    assert_eq!(db.get("b"), Some(b"2".to_vec()));
}

#[test]
fn snap_replies_with_a_load_of_the_store() {
    let mut db = Db::new();
    db.set("a".to_string(), b"1".to_vec());
    let reply = Snap.apply(&db);
    let expected = Frame::Array(vec![
        simple("load"),
        Frame::Array(vec![Frame::Array(vec![simple("a"), bulk("1")])]),
    ]);
    assert!(same(&reply, &expected));
    let mut other = Db::new();
    Command::from_frame(reply).unwrap().apply(&mut other);
    assert_eq!(other.get("a"), Some(b"1".to_vec()));
}

#[test]
fn snap_gives_each_entity_an_identifier() {
    let mut db = Db::new();
    db.set("a".to_string(), b"1".to_vec());
    db.set("b".to_string(), b"2".to_vec());
    let kv = db.snap();
    assert_eq!(kv.len(), 2);
    assert_ne!(kv[0].1.id, kv[1].1.id);
}

#[test]
fn load_from_parse_reads_its_pairs() {
    let mut p = Parse::new(Frame::Array(vec![Frame::Array(vec![Frame::Array(vec![
        simple("k"),
        bulk("v"),
    ])])]))
    .unwrap();
    let load = Load::from_parse(&mut p).unwrap();
    let mut db = Db::new();
    load.apply(&mut db);
    assert_eq!(db.get("k"), Some(b"v".to_vec()));
}

#[test]
fn requests_are_written_as_arrays_of_bulks() {
    let g = Get::new("key".to_string()).into_frame();
    assert!(same(&g, &Frame::Array(vec![bulk("get"), bulk("key")])));
    let s = SetCmd::new("k".to_string(), b"v".to_vec()).into_frame();
    assert!(same(&s, &Frame::Array(vec![bulk("set"), bulk("k"), bulk("v")])));
}

#[test]
fn client_reads_replies() {
    assert!(matches!(read_response(None), Err(ClientError::Closed)));
    match read_response(Some(Frame::Error("no".to_string()))) {
        Err(ClientError::Server(m)) => assert_eq!(m, "no"),
        other => panic!("unexpected {:?}", other),
    }
    assert_eq!(get_reply(bulk("v")).unwrap(), Some(b"v".to_vec()));
    assert_eq!(get_reply(simple("v")).unwrap(), Some(b"v".to_vec()));
    assert_eq!(get_reply(Frame::Null).unwrap(), None);
    assert!(matches!(get_reply(Frame::Integer(1)), Err(ClientError::Unexpected(_))));
    assert!(set_reply(simple("OK")).is_ok());
    assert!(matches!(set_reply(simple("NO")), Err(ClientError::Unexpected(_))));
}

#[test]
fn requests_written_are_read_back() {
    match Command::from_frame(Get::new("clé".to_string()).into_frame()).unwrap() {
        Command::Get(g) => assert_eq!(g.key(), "clé"),
        other => panic!("unexpected {:?}", other),
    }
    match Command::from_frame(SetCmd::new("k".to_string(), vec![0, 255]).into_frame()).unwrap() {
        Command::SetCmd(s) => {
            assert_eq!(s.key(), "k");
            assert_eq!(s.value(), &vec![0, 255]);
        }
        other => panic!("unexpected {:?}", other),
    }
}

#[test]
fn the_null_bulk_is_read_back() {
    let data = b"$-1\r\n".to_vec();
    let mut c = Cursor::new(&data);
    assert!(Frame::check(&mut c).is_ok());
    assert_eq!(c.position(), 5);
    let mut buf = b"$-1\r\n$1\r\n-\r\n".to_vec();
    assert!(same(&take_frame(&mut buf).unwrap().unwrap(), &Frame::Null));
    assert!(same(&take_frame(&mut buf).unwrap().unwrap(), &bulk("-")));
}

#[test]
fn peek_reads_the_byte_at_the_cursor() {
    let data = b"xyz".to_vec();
    let mut c = Cursor::new(&data);
    c.set_position(2);
    assert_eq!(peek_u8(&mut c).unwrap(), b'z');
    assert_eq!(c.position(), 2);
}

#[test]
fn every_cut_of_a_written_frame_checks_as_incomplete() {
    let f = Frame::Array(vec![
        simple("set"),
        Frame::Error("no\rpe".to_string()),
        Frame::Integer(1234),
        Frame::Array(vec![simple("a"), Frame::Integer(0)]),
    ]);
    let data = encoded(&f);
    for m in 0..data.len() {
        let cut = data[..m].to_vec();
        let mut c = Cursor::new(&cut);
        assert!(matches!(Frame::check(&mut c), Err(Error::Incomplete)), "cut at {}", m);
    }
    let mut c = Cursor::new(&data);
    assert!(Frame::check(&mut c).is_ok());
}
