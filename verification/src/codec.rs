//! Record codec: each command is stored as one self-delimited textual
//! line, `{"Set":["<key>","<value>"]}` or `{"Remove":"<key>"}` followed
//! by exactly one newline byte.  Keys and values are escaped with the
//! standard JSON string rules, so a record contains no newline byte
//! before its terminator and recovery can stream the log line by line.

use vstd::prelude::*;

use crate::error::Error;

verus! {

/// A single command recorded in the log.
#[derive(Debug, Clone, PartialEq, Eq)]
pub enum Command {
    /// Asserts `key` maps to `value` from this log position on.
    Put(String, String),
    /// Retires any previous binding for `key`.
    Remove(String),
}

/// The mathematical shape of a command: key and value as character
/// sequences.
pub enum SpecCommand {
    Put { key: Seq<char>, value: Seq<char> },
    Remove { key: Seq<char> },
}

impl View for Command {
    type V = SpecCommand;

    open spec fn view(&self) -> SpecCommand {
        match self {
            Command::Put(k, v) => SpecCommand::Put { key: k@, value: v@ },
            Command::Remove(k) => SpecCommand::Remove { key: k@ },
        }
    }
}

/// Hex digit (lowercase) for a value below 16.
pub open spec fn hex_digit(n: u8) -> u8 {
    if n < 10 {
        (0x30 + n) as u8
    } else {
        (0x61 + (n - 10)) as u8
    }
}

/// The escape sequence one byte of key or value content expands to.
/// Quote and backslash are escaped with a backslash, the common control
/// characters with their short names, the remaining control bytes as
/// `\u00xx`; every other byte stands for itself.
pub open spec fn esc_byte(b: u8) -> Seq<u8> {
    if b == 0x22 {
        seq![0x5c, 0x22]
    } else if b == 0x5c {
        seq![0x5c, 0x5c]
    } else if b == 0x08 {
        seq![0x5c, 0x62]
    } else if b == 0x09 {
        seq![0x5c, 0x74]
    } else if b == 0x0a {
        seq![0x5c, 0x6e]
    } else if b == 0x0c {
        seq![0x5c, 0x66]
    } else if b == 0x0d {
        seq![0x5c, 0x72]
    } else if b < 0x20 {
        seq![0x5c, 0x75, 0x30, 0x30, hex_digit(b / 16), hex_digit(b % 16)]
    } else {
        seq![b]
    }
}

/// Escape a whole byte string.
pub open spec fn esc_bytes(s: Seq<u8>) -> Seq<u8>
    decreases s.len(),
{
    if s.len() == 0 {
        Seq::empty()
    } else {
        esc_byte(s[0]) + esc_bytes(s.drop_first())
    }
}

/// `{"Set":["`
pub open spec fn set_prefix() -> Seq<u8> {
    seq![0x7b, 0x22, 0x53, 0x65, 0x74, 0x22, 0x3a, 0x5b, 0x22]
}

/// `","`
pub open spec fn set_infix() -> Seq<u8> {
    seq![0x22, 0x2c, 0x22]
}

/// `"]}` then newline
pub open spec fn set_suffix() -> Seq<u8> {
    seq![0x22, 0x5d, 0x7d, 0x0a]
}

/// `{"Remove":"`
pub open spec fn remove_prefix() -> Seq<u8> {
    seq![0x7b, 0x22, 0x52, 0x65, 0x6d, 0x6f, 0x76, 0x65, 0x22, 0x3a, 0x22]
}

/// `"}` then newline
pub open spec fn remove_suffix() -> Seq<u8> {
    seq![0x22, 0x7d, 0x0a]
}

/// The encoded record for one command.  The key and value are first
/// encoded as UTF-8 and then escaped byte by byte.
pub open spec fn spec_encode(cmd: SpecCommand) -> Seq<u8> {
    match cmd {
        SpecCommand::Put { key, value } => set_prefix() + esc_bytes(
            vstd::utf8::encode_utf8(key),
        ) + set_infix() + esc_bytes(vstd::utf8::encode_utf8(value)) + set_suffix(),
        SpecCommand::Remove { key } => remove_prefix() + esc_bytes(vstd::utf8::encode_utf8(key))
            + remove_suffix(),
    }
}

/// Value of a lowercase hex digit byte.
pub open spec fn hex_val(b: u8) -> u8 {
    if 0x30 <= b && b <= 0x39 {
        (b - 0x30) as u8
    } else {
        (b - 0x61 + 10) as u8
    }
}

/// Whether a byte is a lowercase hex digit.
pub open spec fn is_hex_lower(b: u8) -> bool {
    (0x30 <= b && b <= 0x39) || (0x61 <= b && b <= 0x66)
}

/// The byte a short escape letter stands for.
pub open spec fn unesc_char(e: u8) -> u8 {
    if e == 0x22 {
        0x22
    } else if e == 0x5c {
        0x5c
    } else if e == 0x62 {
        0x08
    } else if e == 0x74 {
        0x09
    } else if e == 0x6e {
        0x0a
    } else if e == 0x66 {
        0x0c
    } else {
        0x0d
    }
}

/// Whether a byte is one of the short escape letters.
pub open spec fn is_short_escape(e: u8) -> bool {
    e == 0x22 || e == 0x5c || e == 0x62 || e == 0x74 || e == 0x6e || e == 0x66 || e == 0x72
}

/// Parse the body of an escaped string up to and including the closing
/// quote.  Returns the unescaped content and the remainder of the input
/// after the quote, or nothing when the input is exhausted or holds a
/// malformed escape.
pub open spec fn spec_parse_string(s: Seq<u8>) -> Option<(Seq<u8>, Seq<u8>)>
    decreases s.len(),
{
    if s.len() == 0 {
        None
    } else if s[0] == 0x22 {
        Some((Seq::empty(), s.drop_first()))
    } else if s[0] == 0x5c {
        if s.len() < 2 {
            None
        } else if is_short_escape(s[1]) {
            match spec_parse_string(s.skip(2)) {
                Some((content, rest)) => Some((seq![unesc_char(s[1])] + content, rest)),
                None => None,
            }
        } else if s[1] == 0x75 {
            if s.len() >= 6 && s[2] == 0x30 && s[3] == 0x30 && is_hex_lower(s[4]) && is_hex_lower(
                s[5],
            ) {
                match spec_parse_string(s.skip(6)) {
                    Some((content, rest)) => Some(
                        (seq![(16 * hex_val(s[4]) + hex_val(s[5])) as u8] + content, rest),
                    ),
                    None => None,
                }
            } else {
                None
            }
        } else {
            None
        }
    } else {
        match spec_parse_string(s.drop_first()) {
            Some((content, rest)) => Some((seq![s[0]] + content, rest)),
            None => None,
        }
    }
}

/// Decode one record line, terminator included.  The result is the
/// command the line encodes, or nothing when the line is corrupt.
pub open spec fn spec_decode(line: Seq<u8>) -> Option<SpecCommand> {
    if line.len() >= 9 && line.subrange(0, 9) == set_prefix() {
        match spec_parse_string(line.skip(9)) {
            Some((kb, rest)) => {
                if rest.len() >= 2 && rest[0] == 0x2c && rest[1] == 0x22 {
                    match spec_parse_string(rest.skip(2)) {
                        Some((vb, tail)) => {
                            if tail == seq![0x5d as u8, 0x7d as u8, 0x0a as u8]
                                && vstd::utf8::valid_utf8(kb) && vstd::utf8::valid_utf8(vb) {
                                Some(
                                    SpecCommand::Put {
                                        key: vstd::utf8::decode_utf8(kb),
                                        value: vstd::utf8::decode_utf8(vb),
                                    },
                                )
                            } else {
                                None
                            }
                        },
                        None => None,
                    }
                } else {
                    None
                }
            },
            None => None,
        }
    } else if line.len() >= 11 && line.subrange(0, 11) == remove_prefix() {
        match spec_parse_string(line.skip(11)) {
            Some((kb, tail)) => {
                if tail == seq![0x7d as u8, 0x0a as u8] && vstd::utf8::valid_utf8(kb) {
                    Some(SpecCommand::Remove { key: vstd::utf8::decode_utf8(kb) })
                } else {
                    None
                }
            },
            None => None,
        }
    } else {
        None
    }
}

/// Escaping never produces a newline byte, so the terminator is the
/// only newline of a record.
proof fn lemma_esc_bytes_no_newline(s: Seq<u8>)
    ensures
        forall|i: int| 0 <= i < esc_bytes(s).len() ==> esc_bytes(s)[i] != 0x0a,
    decreases s.len(),
{
    if s.len() > 0 {
        lemma_esc_bytes_no_newline(s.drop_first());
        let e0 = esc_byte(s[0]);
        let etail = esc_bytes(s.drop_first());
        assert(forall|i: int| 0 <= i < e0.len() ==> e0[i] != 0x0a);
        assert forall|i: int| 0 <= i < esc_bytes(s).len() implies esc_bytes(s)[i] != 0x0a by {
            assert(esc_bytes(s) == e0 + etail);
            if i < e0.len() {
                assert(esc_bytes(s)[i] == e0[i]);
            } else {
                assert(esc_bytes(s)[i] == etail[i - e0.len()]);
            }
        }
    }
}

/// Parsing an escaped string body followed by a closing quote yields
/// the original content and leaves exactly the input after the quote.
proof fn lemma_parse_esc(content: Seq<u8>, rest: Seq<u8>)
    ensures
        spec_parse_string(esc_bytes(content) + seq![0x22 as u8] + rest) == Some::<(Seq<u8>, Seq<u8>)>(
            (content, rest),
        ),
    decreases content.len(),
{
    let s = esc_bytes(content) + seq![0x22 as u8] + rest;
    if content.len() == 0 {
        assert(s[0] == 0x22);
        assert(s.drop_first() =~= rest);
    } else {
        let b = content[0];
        let tail = content.drop_first();
        lemma_parse_esc(tail, rest);
        let s2 = esc_bytes(tail) + seq![0x22 as u8] + rest;
        assert(esc_bytes(content) == esc_byte(b) + esc_bytes(tail));
        assert(s =~= esc_byte(b) + s2);
        assert(content =~= seq![b] + tail);
        if b == 0x22 || b == 0x5c || b == 0x08 || b == 0x09 || b == 0x0a || b == 0x0c || b
            == 0x0d {
            assert(s[0] == 0x5c && is_short_escape(s[1]) && unesc_char(s[1]) == b);
            assert(s.skip(2) =~= s2);
        } else if b < 0x20 {
            assert(s[0] == 0x5c && s[1] == 0x75 && s[2] == 0x30 && s[3] == 0x30);
            assert(s[4] == hex_digit(b / 16) && s[5] == hex_digit(b % 16));
            assert(b == 16 * (b / 16) + b % 16) by (nonlinear_arith);
            assert(is_hex_lower(hex_digit(b / 16)) && hex_val(hex_digit(b / 16)) == b / 16);
            assert(is_hex_lower(hex_digit(b % 16)) && hex_val(hex_digit(b % 16)) == b % 16);
            assert(!is_short_escape(s[1]));
            assert(s.skip(6) =~= s2);
        } else {
            assert(s[0] == b && b != 0x22 && b != 0x5c);
            assert(s.drop_first() =~= s2);
        }
    }
}

/// Decoding is the inverse of encoding: every record the codec writes
/// is read back as the same command.
pub proof fn lemma_decode_encode(cmd: SpecCommand)
    ensures
        spec_decode(spec_encode(cmd)) == Some(cmd),
{
    broadcast use vstd::utf8::encode_utf8_valid_utf8, vstd::utf8::encode_utf8_decode_utf8;

    match cmd {
        SpecCommand::Put { key, value } => {
            let kb = vstd::utf8::encode_utf8(key);
            let vb = vstd::utf8::encode_utf8(value);
            let line = spec_encode(cmd);
            let tail = seq![0x5d as u8, 0x7d as u8, 0x0a as u8];
            let rest1 = seq![0x2c as u8, 0x22 as u8] + esc_bytes(vb) + seq![0x22 as u8] + tail;
            assert(line.subrange(0, 9) =~= set_prefix());
            assert(line.skip(9) =~= esc_bytes(kb) + seq![0x22 as u8] + rest1);
            lemma_parse_esc(kb, rest1);
            assert(rest1[0] == 0x2c && rest1[1] == 0x22);
            assert(rest1.skip(2) =~= esc_bytes(vb) + seq![0x22 as u8] + tail);
            lemma_parse_esc(vb, tail);
        },
        SpecCommand::Remove { key } => {
            let kb = vstd::utf8::encode_utf8(key);
            let line = spec_encode(cmd);
            let tail = seq![0x7d as u8, 0x0a as u8];
            if line.len() >= 9 && line.subrange(0, 9) == set_prefix() {
                assert(line.subrange(0, 9)[2] == line[2]);
                assert(line[2] == remove_prefix()[2]);
                assert(false);
            }
            assert(line.subrange(0, 11) =~= remove_prefix());
            assert(line.skip(11) =~= esc_bytes(kb) + seq![0x22 as u8] + tail);
            lemma_parse_esc(kb, tail);
        },
    }
}

/// A record is newline-terminated and holds no other newline byte: the
/// log remains a sequence of self-delimited lines.
pub proof fn lemma_encode_line_shape(cmd: SpecCommand)
    ensures
        spec_encode(cmd).len() > 0,
        spec_encode(cmd).last() == 0x0a,
        forall|i: int| 0 <= i < spec_encode(cmd).len() - 1 ==> spec_encode(cmd)[i] != 0x0a,
{
    match cmd {
        SpecCommand::Put { key, value } => {
            lemma_esc_bytes_no_newline(vstd::utf8::encode_utf8(key));
            lemma_esc_bytes_no_newline(vstd::utf8::encode_utf8(value));
        },
        SpecCommand::Remove { key } => {
            lemma_esc_bytes_no_newline(vstd::utf8::encode_utf8(key));
        },
    }
}

/// Declares std's UTF-8 conversion error so it can appear in a result.
#[verifier::external_type_specification]
#[verifier::external_body]
pub struct ExFromUtf8Error(std::string::FromUtf8Error);

/// Relies on String::from_utf8: conversion succeeds exactly on valid
/// UTF-8 input and returns the text those bytes encode.
pub assume_specification[ String::from_utf8 ](v: Vec<u8>) -> (r: Result<
    String,
    std::string::FromUtf8Error,
>)
    ensures
        r is Ok <==> vstd::utf8::valid_utf8(v@),
        r matches Ok(s) ==> s@ == vstd::utf8::decode_utf8(v@),
;

proof fn lemma_esc_bytes_snoc(s: Seq<u8>, b: u8)
    ensures
        esc_bytes(s.push(b)) == esc_bytes(s) + esc_byte(b),
    decreases s.len(),
{
    if s.len() == 0 {
        assert(s.push(b).drop_first() =~= Seq::<u8>::empty());
        assert(s.push(b)[0] == b);
        assert(esc_bytes(s.push(b)) == esc_byte(b) + esc_bytes(Seq::<u8>::empty()));
        assert(esc_bytes(s.push(b)) =~= esc_bytes(s) + esc_byte(b));
    } else {
        lemma_esc_bytes_snoc(s.drop_first(), b);
        assert(s.push(b).drop_first() =~= s.drop_first().push(b));
        assert(s.push(b)[0] == s[0]);
        assert(esc_bytes(s.push(b)) == esc_byte(s[0]) + (esc_bytes(s.drop_first()) + esc_byte(b)));
        assert(esc_bytes(s.push(b)) =~= esc_bytes(s) + esc_byte(b));
    }
}

fn hex_digit_exec(n: u8) -> (r: u8)
    requires
        n < 16,
    ensures
        r == hex_digit(n),
{
    if n < 10 {
        0x30 + n
    } else {
        0x61 + (n - 10)
    }
}

/// Append the escaped form of `bytes` to `out`.
fn escape_into(out: &mut Vec<u8>, bytes: &Vec<u8>)
    ensures
        final(out)@ == old(out)@ + esc_bytes(bytes@),
{
    let ghost base = out@;
    let mut i: usize = 0;
    while i < bytes.len()
        invariant
            i <= bytes.len(),
            out@ == base + esc_bytes(bytes@.subrange(0, i as int)),
        decreases bytes.len() - i,
    {
        let ghost pre = bytes@.subrange(0, i as int);
        let b = bytes[i];
        if b == 0x22 {
            out.push(0x5c);
            out.push(0x22);
        } else if b == 0x5c {
            out.push(0x5c);
            out.push(0x5c);
        } else if b == 0x08 {
            out.push(0x5c);
            out.push(0x62);
        } else if b == 0x09 {
            out.push(0x5c);
            out.push(0x74);
        } else if b == 0x0a {
            out.push(0x5c);
            out.push(0x6e);
        } else if b == 0x0c {
            out.push(0x5c);
            out.push(0x66);
        } else if b == 0x0d {
            out.push(0x5c);
            out.push(0x72);
        } else if b < 0x20 {
            out.push(0x5c);
            out.push(0x75);
            out.push(0x30);
            out.push(0x30);
            out.push(hex_digit_exec(b / 16));
            out.push(hex_digit_exec(b % 16));
        } else {
            out.push(b);
        }
        proof {
            lemma_esc_bytes_snoc(pre, b);
            assert(bytes@.subrange(0, i as int + 1) =~= pre.push(b));
            assert(out@ =~= base + esc_bytes(bytes@.subrange(0, i as int + 1)));
        }
        i = i + 1;
    }
    proof {
        assert(bytes@.subrange(0, bytes@.len() as int) =~= bytes@);
    }
}

/// Encode one command as a record line, terminator included.
pub fn encode_command(cmd: &Command) -> (r: Vec<u8>)
    ensures
        r@ == spec_encode(cmd@),
{
    let mut out: Vec<u8> = Vec::new();
    match cmd {
        Command::Put(k, v) => {
            out.push(0x7b);
            out.push(0x22);
            out.push(0x53);
            out.push(0x65);
            out.push(0x74);
            out.push(0x22);
            out.push(0x3a);
            out.push(0x5b);
            out.push(0x22);
            proof {
                assert(out@ =~= set_prefix());
            }
            let kb = k.as_str().as_bytes_vec();
            escape_into(&mut out, &kb);
            out.push(0x22);
            out.push(0x2c);
            out.push(0x22);
            let vb = v.as_str().as_bytes_vec();
            escape_into(&mut out, &vb);
            out.push(0x22);
            out.push(0x5d);
            out.push(0x7d);
            out.push(0x0a);
            proof {
                assert(out@ =~= spec_encode(cmd@));
            }
        },
        Command::Remove(k) => {
            out.push(0x7b);
            out.push(0x22);
            out.push(0x52);
            out.push(0x65);
            out.push(0x6d);
            out.push(0x6f);
            out.push(0x76);
            out.push(0x65);
            out.push(0x22);
            out.push(0x3a);
            out.push(0x22);
            proof {
                assert(out@ =~= remove_prefix());
            }
            let kb = k.as_str().as_bytes_vec();
            escape_into(&mut out, &kb);
            out.push(0x22);
            out.push(0x7d);
            out.push(0x0a);
            proof {
                assert(out@ =~= spec_encode(cmd@));
            }
        },
    }
    out
}

/// What remains to be parsed at position `i` composes with the content
/// gathered so far into the parse of the whole suffix from `start`.
spec fn parse_cont(full: Seq<u8>, start: int, i: int, acc: Seq<u8>) -> bool {
    spec_parse_string(full.skip(start)) == (match spec_parse_string(full.skip(i)) {
        Some((c, r)) => Some((acc + c, r)),
        None => None::<(Seq<u8>, Seq<u8>)>,
    })
}

fn is_hex_lower_exec(b: u8) -> (r: bool)
    ensures
        r == is_hex_lower(b),
{
    (0x30 <= b && b <= 0x39) || (0x61 <= b && b <= 0x66)
}

fn hex_val_exec(b: u8) -> (r: u8)
    requires
        is_hex_lower(b),
    ensures
        r == hex_val(b),
        r < 16,
{
    if b <= 0x39 {
        b - 0x30
    } else {
        b - 0x61 + 10
    }
}

/// Parse an escaped string body starting at `start`, up to and
/// including the closing quote.  Returns the unescaped content and the
/// position just after the quote.
fn parse_string_from(line: &Vec<u8>, start: usize) -> (r: Option<(Vec<u8>, usize)>)
    requires
        start <= line@.len(),
    ensures
        match r {
            Some(p) => start <= p.1 <= line@.len() && spec_parse_string(
                line@.skip(start as int),
            ) == Some((p.0@, line@.skip(p.1 as int))),
            None => spec_parse_string(line@.skip(start as int)) is None,
        },
{
    let mut i: usize = start;
    let mut acc: Vec<u8> = Vec::new();
    loop
        invariant
            start <= i <= line@.len(),
            parse_cont(line@, start as int, i as int, acc@),
        decreases line@.len() - i,
    {
        if i >= line.len() {
            proof {
                assert(line@.skip(i as int).len() == 0);
            }
            return None;
        }
        let b = line[i];
        proof {
            assert(line@.skip(i as int)[0] == b);
        }
        if b == 0x22 {
            proof {
                assert(line@.skip(i as int).drop_first() =~= line@.skip(i as int + 1));
                assert(acc@ + Seq::<u8>::empty() =~= acc@);
            }
            return Some((acc, i + 1));
        } else if b == 0x5c {
            if i + 1 >= line.len() {
                proof {
                    assert(line@.skip(i as int).len() < 2);
                }
                return None;
            }
            let e = line[i + 1];
            proof {
                assert(line@.skip(i as int)[1] == e);
            }
            if e == 0x22 || e == 0x5c || e == 0x62 || e == 0x74 || e == 0x6e || e == 0x66 || e
                == 0x72 {
                let ub: u8 = if e == 0x22 {
                    0x22
                } else if e == 0x5c {
                    0x5c
                } else if e == 0x62 {
                    0x08
                } else if e == 0x74 {
                    0x09
                } else if e == 0x6e {
                    0x0a
                } else if e == 0x66 {
                    0x0c
                } else {
                    0x0d
                };
                let ghost acc_old = acc@;
                acc.push(ub);
                proof {
                    assert(line@.skip(i as int).skip(2) =~= line@.skip(i as int + 2));
                    match spec_parse_string(line@.skip(i as int + 2)) {
                        Some((c, r)) => {
                            assert(acc_old + (seq![ub] + c) =~= acc@ + c);
                        },
                        None => {},
                    }
                }
                i = i + 2;
            } else if e == 0x75 {
                if line.len() - i < 6 {
                    proof {
                        assert(line@.skip(i as int).len() < 6);
                    }
                    return None;
                }
                let d2 = line[i + 2];
                let d3 = line[i + 3];
                let d4 = line[i + 4];
                let d5 = line[i + 5];
                proof {
                    assert(line@.skip(i as int)[2] == d2);
                    assert(line@.skip(i as int)[3] == d3);
                    assert(line@.skip(i as int)[4] == d4);
                    assert(line@.skip(i as int)[5] == d5);
                }
                if d2 == 0x30 && d3 == 0x30 && is_hex_lower_exec(d4) && is_hex_lower_exec(d5) {
                    let ub: u8 = 16 * hex_val_exec(d4) + hex_val_exec(d5);
                    let ghost acc_old = acc@;
                    acc.push(ub);
                    proof {
                        assert(line@.skip(i as int).skip(6) =~= line@.skip(i as int + 6));
                        match spec_parse_string(line@.skip(i as int + 6)) {
                            Some((c, r)) => {
                                assert(acc_old + (seq![ub] + c) =~= acc@ + c);
                            },
                            None => {},
                        }
                    }
                    i = i + 6;
                } else {
                    return None;
                }
            } else {
                return None;
            }
        } else {
            let ghost acc_old = acc@;
            acc.push(b);
            proof {
                assert(line@.skip(i as int).drop_first() =~= line@.skip(i as int + 1));
                match spec_parse_string(line@.skip(i as int + 1)) {
                    Some((c, r)) => {
                        assert(acc_old + (seq![b] + c) =~= acc@ + c);
                    },
                    None => {},
                }
            }
            i = i + 1;
        }
    }
}

fn corrupt_record_error() -> (r: Error)
    ensures
        r is InvalidData,
{
    Error::InvalidData(String::from_str("corrupt record"))
}

/// Decode one record line, terminator included.
pub fn decode_command(line: &Vec<u8>) -> (r: Result<Command, Error>)
    ensures
        r matches Ok(c) ==> spec_decode(line@) == Some(c@),
        r is Err ==> spec_decode(line@) is None,
        r matches Err(e) ==> e is InvalidData,
{
    proof {
        if line@.len() >= 9 {
            assert(forall|j: int| 0 <= j < 9 ==> line@.subrange(0, 9)[j] == line@[j]);
        }
        if line@.len() >= 11 {
            assert(forall|j: int| 0 <= j < 11 ==> line@.subrange(0, 11)[j] == line@[j]);
        }
    }
    if line.len() >= 9 && line[0] == 0x7b && line[1] == 0x22 && line[2] == 0x53 && line[3] == 0x65
        && line[4] == 0x74 && line[5] == 0x22 && line[6] == 0x3a && line[7] == 0x5b && line[8]
        == 0x22 {
        proof {
            assert(line@.subrange(0, 9) =~= set_prefix());
        }
        match parse_string_from(line, 9) {
            Some((kb, pos)) => {
                if line.len() - pos >= 2 && line[pos] == 0x2c && line[pos + 1] == 0x22 {
                    proof {
                        assert(line@.skip(pos as int)[0] == 0x2c);
                        assert(line@.skip(pos as int)[1] == 0x22);
                        assert(line@.skip(pos as int).skip(2) =~= line@.skip(pos as int + 2));
                    }
                    match parse_string_from(line, pos + 2) {
                        Some((vb, pos2)) => {
                            if line.len() - pos2 == 3 && line[pos2] == 0x5d && line[pos2 + 1]
                                == 0x7d && line[pos2 + 2] == 0x0a {
                                proof {
                                    assert(line@.skip(pos2 as int) =~= seq![
                                        0x5d as u8,
                                        0x7d as u8,
                                        0x0a as u8,
                                    ]);
                                }
                                match String::from_utf8(kb) {
                                    Ok(k) => match String::from_utf8(vb) {
                                        Ok(v) => Ok(Command::Put(k, v)),
                                        Err(_) => Err(corrupt_record_error()),
                                    },
                                    Err(_) => Err(corrupt_record_error()),
                                }
                            } else {
                                proof {
                                    let tail = line@.skip(pos2 as int);
                                    if tail == seq![0x5d as u8, 0x7d as u8, 0x0a as u8] {
                                        assert(tail.len() == 3);
                                        assert(tail[0] == line@[pos2 as int]);
                                        assert(tail[1] == line@[pos2 as int + 1]);
                                        assert(tail[2] == line@[pos2 as int + 2]);
                                    }
                                }
                                Err(corrupt_record_error())
                            }
                        },
                        None => Err(corrupt_record_error()),
                    }
                } else {
                    proof {
                        let rest = line@.skip(pos as int);
                        if rest.len() >= 2 {
                            assert(rest[0] == line@[pos as int]);
                            assert(rest[1] == line@[pos as int + 1]);
                        }
                    }
                    Err(corrupt_record_error())
                }
            },
            None => Err(corrupt_record_error()),
        }
    } else if line.len() >= 11 && line[0] == 0x7b && line[1] == 0x22 && line[2] == 0x52 && line[3]
        == 0x65 && line[4] == 0x6d && line[5] == 0x6f && line[6] == 0x76 && line[7] == 0x65
        && line[8] == 0x22 && line[9] == 0x3a && line[10] == 0x22 {
        proof {
            assert(line@.subrange(0, 11) =~= remove_prefix());
            if line@.len() >= 9 && line@.subrange(0, 9) == set_prefix() {
                assert(line@.subrange(0, 9)[2] == line@[2]);
                assert(false);
            }
        }
        match parse_string_from(line, 11) {
            Some((kb, pos)) => {
                if line.len() - pos == 2 && line[pos] == 0x7d && line[pos + 1] == 0x0a {
                    proof {
                        assert(line@.skip(pos as int) =~= seq![0x7d as u8, 0x0a as u8]);
                    }
                    match String::from_utf8(kb) {
                        Ok(k) => Ok(Command::Remove(k)),
                        Err(_) => Err(corrupt_record_error()),
                    }
                } else {
                    proof {
                        let tail = line@.skip(pos as int);
                        if tail == seq![0x7d as u8, 0x0a as u8] {
                            assert(tail.len() == 2);
                            assert(tail[0] == line@[pos as int]);
                            assert(tail[1] == line@[pos as int + 1]);
                        }
                    }
                    Err(corrupt_record_error())
                }
            },
            None => Err(corrupt_record_error()),
        }
    } else {
        proof {
            if line@.len() >= 9 && line@.subrange(0, 9) == set_prefix() {
                assert(false);
            }
            if line@.len() >= 11 && line@.subrange(0, 11) == remove_prefix() {
                assert(false);
            }
        }
        Err(corrupt_record_error())
    }
}

} // verus!
