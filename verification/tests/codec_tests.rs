//! Tests for the record codec: canonical shapes, escaping, round
//! trips, and agreement with a general-purpose JSON serializer.

use kvs::{decode_command, encode_command, Command};

fn set_cmd(k: &str, v: &str) -> Command {
    Command::Put(k.to_owned(), v.to_owned())
}

#[test]
fn encodes_set_as_one_json_line() {
    let rec = encode_command(&set_cmd("key1", "value1"));
    assert_eq!(
        String::from_utf8(rec).unwrap(),
        "{\"Set\":[\"key1\",\"value1\"]}\n"
    );
}

#[test]
fn encodes_remove_as_one_json_line() {
    let rec = encode_command(&Command::Remove("key1".to_owned()));
    assert_eq!(String::from_utf8(rec).unwrap(), "{\"Remove\":\"key1\"}\n");
}

#[test]
fn escapes_quotes_backslashes_and_controls() {
    let rec = encode_command(&set_cmd("a\"b", "c\\d\ne\tf\u{1}g"));
    assert_eq!(
        String::from_utf8(rec).unwrap(),
        "{\"Set\":[\"a\\\"b\",\"c\\\\d\\ne\\tf\\u0001g\"]}\n"
    );
}

#[test]
fn round_trips_plain_and_awkward_content() {
    let cases = vec![
        set_cmd("k", "v"),
        set_cmd("", ""),
        set_cmd("sp ace", "tab\there"),
        set_cmd("quote\"back\\slash", "new\nline\rreturn"),
        set_cmd("unicode \u{e9}\u{4e16}\u{1f600}", "mixed \u{0} \u{1f} bytes"),
        Command::Remove("gone".to_owned()),
        Command::Remove("with\nnewline".to_owned()),
    ];
    for cmd in cases {
        let rec = encode_command(&cmd);
        let back = decode_command(&rec).unwrap();
        assert_eq!(back, cmd);
    }
}

#[test]
fn record_has_exactly_one_newline_at_the_end() {
    let rec = encode_command(&set_cmd("k\n", "v\nw"));
    assert_eq!(rec.iter().filter(|b| **b == b'\n').count(), 1);
    assert_eq!(*rec.last().unwrap(), b'\n');
}

#[test]
fn matches_general_purpose_json_serializer() {
    let cases = vec![
        ("key1", "value1"),
        ("a\"b", "c\\d"),
        ("ctl\u{1}\u{8}\u{c}", "nl\nret\rtab\t"),
        ("caf\u{e9}", "\u{4e16}\u{754c}"),
    ];
    for (k, v) in cases {
        let mut obj = serde_json::Map::new();
        obj.insert(
            "Set".to_owned(),
            serde_json::Value::Array(vec![
                serde_json::Value::String(k.to_owned()),
                serde_json::Value::String(v.to_owned()),
            ]),
        );
        let expected = serde_json::to_string(&serde_json::Value::Object(obj)).unwrap();
        let rec = encode_command(&set_cmd(k, v));
        assert_eq!(String::from_utf8(rec).unwrap(), format!("{}\n", expected));
    }
}

#[test]
fn rejects_corrupt_lines() {
    let corrupt: Vec<&[u8]> = vec![
        b"",
        b"\n",
        b"{\"Set\":[\"k\",\"v\"]}",
        b"{\"Set\":[\"k\",\"v\"]\n",
        b"{\"Set\":[\"k\"]}\n",
        b"{\"Put\":[\"k\",\"v\"]}\n",
        b"{\"Remove\":\"k\"\n",
        b"{\"Set\":[\"k\",\"v\\x\"]}\n",
        b"{\"Set\":[\"k\",\"v\\u00ZZ\"]}\n",
        b"garbage\n",
    ];
    for line in corrupt {
        let r = decode_command(&line.to_vec());
        assert!(matches!(r, Err(kvs::Error::InvalidData(_))), "accepted: {:?}", line);
    }
}

#[test]
fn decodes_the_exact_canonical_shapes() {
    let set_line = b"{\"Set\":[\"k\",\"v\"]}\n".to_vec();
    assert_eq!(decode_command(&set_line).unwrap(), set_cmd("k", "v"));
    let rm_line = b"{\"Remove\":\"k\"}\n".to_vec();
    assert_eq!(decode_command(&rm_line).unwrap(), Command::Remove("k".to_owned()));
}
