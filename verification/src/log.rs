//! The mathematical model of the append-only log: a byte sequence made
//! of newline-terminated record lines.  Replaying the lines from the
//! front rebuilds the keydir; an incomplete trailing line is ignored.

use vstd::prelude::*;

use crate::codec::{spec_decode, spec_encode, SpecCommand};

verus! {

/// Index just past the first newline at or after `off`, if there is
/// one.
pub open spec fn line_end(log: Seq<u8>, off: int) -> Option<int>
    decreases log.len() - off
        when 0 <= off <= log.len()
{
    if off >= log.len() {
        None
    } else if log[off] == 0x0a {
        Some(off + 1)
    } else {
        line_end(log, off + 1)
    }
}

/// Where a line ends: after its offset, within the log, right behind
/// the first newline.
pub proof fn lemma_line_end_bounds(log: Seq<u8>, off: int)
    requires
        0 <= off <= log.len(),
    ensures
        match line_end(log, off) {
            Some(e) => off < e <= log.len() && log[e - 1] == 0x0a && forall|i: int|
                off <= i < e - 1 ==> log[i] != 0x0a,
            None => forall|i: int| off <= i < log.len() ==> log[i] != 0x0a,
        },
    decreases log.len() - off,
{
    if off < log.len() && log[off] != 0x0a {
        lemma_line_end_bounds(log, off + 1);
    }
}

/// The position of the first newline determines the line end.
pub proof fn lemma_line_end_found(log: Seq<u8>, off: int, j: int)
    requires
        0 <= off <= j < log.len(),
        log[j] == 0x0a,
        forall|i: int| off <= i < j ==> log[i] != 0x0a,
    ensures
        line_end(log, off) == Some(j + 1),
    decreases j - off,
{
    if off < j {
        lemma_line_end_found(log, off + 1, j);
    }
}

/// Appending to the log moves no existing line end.
pub proof fn lemma_line_end_extend(log: Seq<u8>, ext: Seq<u8>, off: int)
    requires
        0 <= off <= log.len(),
        line_end(log, off) is Some,
    ensures
        line_end(log + ext, off) == line_end(log, off),
{
    lemma_line_end_bounds(log, off);
    match line_end(log, off) {
        Some(e) => {
            assert((log + ext)[e - 1] == 0x0a);
            assert(forall|i: int| off <= i < e - 1 ==> (log + ext)[i] == log[i]);
            lemma_line_end_found(log + ext, off, e - 1);
        },
        None => {},
    }
}

/// The bytes of the record line starting at `off`, terminator
/// included.
pub open spec fn record_at(log: Seq<u8>, off: int) -> Seq<u8> {
    match line_end(log, off) {
        Some(e) => log.subrange(off, e),
        None => Seq::empty(),
    }
}

/// Every byte from `off` on belongs to a complete, terminated line.
pub open spec fn framed_from(log: Seq<u8>, off: int) -> bool
    decreases log.len() - off
        when 0 <= off <= log.len()
        via framed_from_dec
{
    match line_end(log, off) {
        None => off == log.len(),
        Some(e) => framed_from(log, e),
    }
}

#[via_fn]
proof fn framed_from_dec(log: Seq<u8>, off: int) {
    lemma_line_end_bounds(log, off);
}

/// How one command at one offset changes the keydir.
pub open spec fn apply_cmd(m: Map<Seq<char>, u64>, cmd: SpecCommand, off: u64) -> Map<
    Seq<char>,
    u64,
> {
    match cmd {
        SpecCommand::Put { key, value } => m.insert(key, off),
        SpecCommand::Remove { key } => m.remove(key),
    }
}

/// Replay the log from `off`, starting from the keydir `acc`.  An
/// incomplete trailing line is ignored; a complete line that fails to
/// decode is corruption and yields nothing.
pub open spec fn replay_from(log: Seq<u8>, off: int, acc: Map<Seq<char>, u64>) -> Option<
    Map<Seq<char>, u64>,
>
    decreases log.len() - off
        when 0 <= off <= log.len()
        via replay_from_dec
{
    match line_end(log, off) {
        None => Some(acc),
        Some(e) => match spec_decode(log.subrange(off, e)) {
            None => None,
            Some(cmd) => replay_from(log, e, apply_cmd(acc, cmd, off as u64)),
        },
    }
}

#[via_fn]
proof fn replay_from_dec(log: Seq<u8>, off: int, acc: Map<Seq<char>, u64>) {
    lemma_line_end_bounds(log, off);
}

/// The keydir a full replay of the log rebuilds.
pub open spec fn replay_log(log: Seq<u8>) -> Option<Map<Seq<char>, u64>> {
    replay_from(log, 0, Map::empty())
}

/// A complete set record for key `k` starts at `off`.
pub open spec fn valid_set_at(log: Seq<u8>, off: int, k: Seq<char>) -> bool {
    &&& 0 <= off < log.len()
    &&& line_end(log, off) is Some
    &&& spec_decode(record_at(log, off)) matches Some(SpecCommand::Put { key, value }) && key == k
}

/// The value carried by the set record at `off`.
pub open spec fn value_at(log: Seq<u8>, off: int) -> Seq<char> {
    match spec_decode(record_at(log, off)) {
        Some(SpecCommand::Put { key, value }) => value,
        _ => Seq::empty(),
    }
}

/// A set record keeps its value when the log grows behind it.
pub proof fn lemma_valid_set_extend(log: Seq<u8>, ext: Seq<u8>, off: int, k: Seq<char>)
    requires
        valid_set_at(log, off, k),
    ensures
        valid_set_at(log + ext, off, k),
        value_at(log + ext, off) == value_at(log, off),
{
    lemma_line_end_extend(log, ext, off);
    lemma_line_end_bounds(log, off);
    match line_end(log, off) {
        Some(e) => {
            assert((log + ext).subrange(off, e) =~= log.subrange(off, e));
        },
        None => {},
    }
}

/// Appending one encoded record to a framed log keeps it framed and
/// replays as that one command applied at the old end of the log.
pub proof fn lemma_replay_append(log: Seq<u8>, off: int, acc: Map<Seq<char>, u64>, cmd: SpecCommand)
    requires
        0 <= off <= log.len(),
        framed_from(log, off),
    ensures
        framed_from(log + spec_encode(cmd), off),
        replay_from(log + spec_encode(cmd), off, acc) == (match replay_from(log, off, acc) {
            Some(m) => Some(apply_cmd(m, cmd, log.len() as u64)),
            None => None::<Map<Seq<char>, u64>>,
        }),
    decreases log.len() - off,
{
    let rec = spec_encode(cmd);
    let log2 = log + rec;
    crate::codec::lemma_encode_line_shape(cmd);
    lemma_line_end_bounds(log, off);
    match line_end(log, off) {
        None => {
            assert(off == log.len());
            assert(log2[off + rec.len() - 1] == rec[rec.len() - 1]);
            assert(forall|i: int| off <= i < off + rec.len() - 1 ==> log2[i] == rec[i - off]);
            lemma_line_end_found(log2, off, off + rec.len() - 1);
            assert(line_end(log2, off) == Some(log2.len() as int));
            assert(log2.subrange(off, log2.len() as int) =~= rec);
            crate::codec::lemma_decode_encode(cmd);
            let acc2 = apply_cmd(acc, cmd, off as u64);
            assert(line_end(log2, log2.len() as int) is None);
            assert(replay_from(log2, log2.len() as int, acc2) == Some(acc2));
            assert(replay_from(log2, off, acc) == Some(acc2));
            assert(replay_from(log, off, acc) == Some(acc));
            assert(framed_from(log2, log2.len() as int));
            assert(framed_from(log2, off));
        },
        Some(e) => {
            lemma_line_end_extend(log, rec, off);
            assert(log2.subrange(off, e) =~= log.subrange(off, e));
            match spec_decode(log.subrange(off, e)) {
                None => {
                    assert(replay_from(log2, off, acc) is None);
                    assert(replay_from(log, off, acc) is None);
                    lemma_replay_append(log, e, acc, cmd);
                    assert(framed_from(log2, off));
                },
                Some(c) => {
                    let acc2 = apply_cmd(acc, c, off as u64);
                    lemma_replay_append(log, e, acc2, cmd);
                    assert(replay_from(log2, off, acc) == replay_from(log2, e, acc2));
                    assert(replay_from(log, off, acc) == replay_from(log, e, acc2));
                    assert(framed_from(log2, off));
                },
            }
        },
    }
}

/// A set record appended at the end of the log is found there, with
/// its key and value.
pub proof fn lemma_appended_record(log: Seq<u8>, k: Seq<char>, v: Seq<char>)
    ensures
        valid_set_at(
            log + spec_encode(SpecCommand::Put { key: k, value: v }),
            log.len() as int,
            k,
        ),
        value_at(log + spec_encode(SpecCommand::Put { key: k, value: v }), log.len() as int) == v,
{
    let cmd = SpecCommand::Put { key: k, value: v };
    let rec = spec_encode(cmd);
    let log2 = log + rec;
    let off = log.len() as int;
    crate::codec::lemma_encode_line_shape(cmd);
    assert(log2[off + rec.len() - 1] == rec[rec.len() - 1]);
    assert(forall|i: int| off <= i < off + rec.len() - 1 ==> log2[i] == rec[i - off]);
    lemma_line_end_found(log2, off, off + rec.len() - 1);
    assert(log2.subrange(off, off + rec.len()) =~= rec);
    crate::codec::lemma_decode_encode(cmd);
}

/// Every offset a successful replay records points at a set record for
/// that key.
pub proof fn lemma_replay_records(
    log: Seq<u8>,
    off: int,
    acc: Map<Seq<char>, u64>,
    m: Map<Seq<char>, u64>,
)
    requires
        0 <= off <= log.len(),
        log.len() <= u64::MAX,
        forall|k: Seq<char>| #[trigger]
            acc.contains_key(k) ==> valid_set_at(log, acc[k] as int, k),
        replay_from(log, off, acc) == Some(m),
    ensures
        forall|k: Seq<char>| #[trigger] m.contains_key(k) ==> valid_set_at(log, m[k] as int, k),
    decreases log.len() - off,
{
    lemma_line_end_bounds(log, off);
    match line_end(log, off) {
        None => {},
        Some(e) => {
            match spec_decode(log.subrange(off, e)) {
                None => {},
                Some(cmd) => {
                    let acc2 = apply_cmd(acc, cmd, off as u64);
                    assert forall|k: Seq<char>| #[trigger]
                        acc2.contains_key(k) implies valid_set_at(log, acc2[k] as int, k) by {
                        match cmd {
                            SpecCommand::Put { key, value } => {
                                if k == key {
                                    assert(record_at(log, off) == log.subrange(off, e));
                                    assert(off as u64 as int == off);
                                    assert(valid_set_at(log, off, key));
                                }
                            },
                            SpecCommand::Remove { key } => {},
                        }
                    }
                    lemma_replay_records(log, e, acc2, m);
                },
            }
        },
    }
}

} // verus!
