//! The store core: owns the in-memory image of the append-only log and
//! the keydir, and implements set, get, remove and compaction against
//! them.  Every change to the log is reported as a [`LogAction`] so a
//! host program can mirror it onto the backing file.

use vstd::prelude::*;

use crate::codec::{decode_command, encode_command, spec_encode, Command, SpecCommand};
use crate::error::Error;
use crate::keydir::{lemma_map_of_contains, lemma_map_of_index, Keydir};
use crate::log::{
    framed_from, lemma_appended_record, lemma_line_end_bounds, lemma_line_end_found,
    lemma_replay_append, lemma_replay_records, lemma_valid_set_extend, line_end, record_at,
    replay_from, replay_log, valid_set_at, value_at,
};

verus! {

/// How one operation changed the log, for a host that mirrors the log
/// onto a file.
#[derive(Debug)]
pub enum LogAction {
    /// These bytes were appended at the end of the log.
    Appended(Vec<u8>),
    /// The log was rewritten wholesale; read it afresh.
    Rewritten,
}

/// Find the index just past the newline that ends the line at `off`.
fn find_line_end(log: &Vec<u8>, off: usize) -> (r: Option<usize>)
    requires
        off <= log@.len(),
    ensures
        match r {
            Some(e) => off < e <= log@.len() && line_end(log@, off as int) == Some(e as int),
            None => line_end(log@, off as int) is None,
        },
{
    let mut i: usize = off;
    while i < log.len()
        invariant
            off <= i <= log@.len(),
            forall|j: int| off <= j < i ==> log@[j] != 0x0a,
        decreases log@.len() - i,
    {
        if log[i] == 0x0a {
            proof {
                lemma_line_end_found(log@, off as int, i as int);
            }
            return Some(i + 1);
        }
        i = i + 1;
    }
    proof {
        lemma_line_end_bounds(log@, off as int);
        match line_end(log@, off as int) {
            Some(e) => {
                assert(log@[e - 1] == 0x0a);
                assert(false);
            },
            None => {},
        }
    }
    None
}

/// Copy the bytes of `log` between two positions.
fn copy_range(log: &Vec<u8>, a: usize, b: usize) -> (r: Vec<u8>)
    requires
        a <= b <= log@.len(),
    ensures
        r@ == log@.subrange(a as int, b as int),
{
    let mut r: Vec<u8> = Vec::new();
    let mut i: usize = a;
    while i < b
        invariant
            a <= i <= b <= log@.len(),
            r@ == log@.subrange(a as int, i as int),
        decreases b - i,
    {
        r.push(log[i]);
        proof {
            assert(log@.subrange(a as int, i as int + 1) =~= log@.subrange(a as int, i as int).push(
                log@[i as int],
            ));
        }
        i = i + 1;
    }
    r
}

/// Append the bytes of `ext` to `log`, leaving `ext` intact.
fn append_bytes(log: &mut Vec<u8>, ext: &Vec<u8>)
    ensures
        final(log)@ == old(log)@ + ext@,
{
    let mut i: usize = 0;
    while i < ext.len()
        invariant
            i <= ext@.len(),
            log@ == old(log)@ + ext@.subrange(0, i as int),
        decreases ext@.len() - i,
    {
        log.push(ext[i]);
        proof {
            assert(ext@.subrange(0, i as int + 1) =~= ext@.subrange(0, i as int).push(
                ext@[i as int],
            ));
            assert(log@ =~= old(log)@ + ext@.subrange(0, i as int + 1));
        }
        i = i + 1;
    }
    proof {
        assert(ext@.subrange(0, ext@.len() as int) =~= ext@);
    }
}

/// Read the value of the set record at `off` out of the log image.
fn value_from_log(log: &Vec<u8>, off: u64, Ghost(k): Ghost<Seq<char>>) -> (r: String)
    requires
        valid_set_at(log@, off as int, k),
    ensures
        r@ == value_at(log@, off as int),
{
    let n = log.len();
    proof {
        assert(off < n);
    }
    let off_us = off as usize;
    let e = match find_line_end(log, off_us) {
        Some(e) => e,
        None => vstd::pervasive::unreached(),
    };
    let line = copy_range(log, off_us, e);
    proof {
        assert(line@ == record_at(log@, off as int));
    }
    match decode_command(&line) {
        Ok(Command::Put(_, v)) => v,
        Ok(Command::Remove(_)) => vstd::pervasive::unreached(),
        Err(_) => vstd::pervasive::unreached(),
    }
}

/// The guarded inner state of the store: the log image and the keydir.
pub struct KvStoreInner {
    log: Vec<u8>,
    store: Keydir,
}

impl KvStoreInner {
    /// The bytes of the log.
    pub closed spec fn log_view(&self) -> Seq<u8> {
        self.log@
    }

    /// The keydir as a map from live key to record offset.
    pub closed spec fn keydir_view(&self) -> Map<Seq<char>, u64> {
        self.store@
    }

    /// The keydir entries in storage order, as (key, offset) pairs.
    pub closed spec fn keydir_entries(&self) -> Seq<(Seq<char>, u64)> {
        self.store.entry_seq()
    }

    /// The keydir holds each key at most once.
    pub closed spec fn keydir_wf(&self) -> bool {
        self.store.wf()
    }

    /// Well-formedness: keys are unique and every keydir entry points
    /// at a set record for its key in the log.
    pub open spec fn wf(&self) -> bool {
        &&& self.keydir_wf()
        &&& forall|k: Seq<char>| #[trigger]
            self.keydir_view().contains_key(k) ==> valid_set_at(
                self.log_view(),
                self.keydir_view()[k] as int,
                k,
            )
    }

    /// The store as a map from live key to current value.
    pub open spec fn view(&self) -> Map<Seq<char>, Seq<char>> {
        Map::new(
            |k: Seq<char>| self.keydir_view().contains_key(k),
            |k: Seq<char>| value_at(self.log_view(), self.keydir_view()[k] as int),
        )
    }

    /// The log is fully framed and replaying it rebuilds exactly the
    /// keydir held in memory.  This holds whenever the store was opened
    /// from a fully framed log, and compaction re-establishes it.
    pub open spec fn clean(&self) -> bool {
        &&& framed_from(self.log_view(), 0)
        &&& replay_log(self.log_view()) == Some(self.keydir_view())
    }

    /// Rebuild a store from the bytes of its log, replaying the lines
    /// in order.  An incomplete trailing line is ignored but kept; a
    /// complete line that fails to decode is corruption.
    pub fn open(bytes: Vec<u8>) -> (r: Result<KvStoreInner, Error>)
        ensures
            match r {
                Ok(s) => {
                    &&& s.wf()
                    &&& s.log_view() == bytes@
                    &&& replay_log(bytes@) == Some(s.keydir_view())
                    &&& (framed_from(bytes@, 0) ==> s.clean())
                },
                Err(e) => replay_log(bytes@) is None && e is InvalidData,
            },
    {
        let mut kd = Keydir::new();
        let mut off: usize = 0;
        loop
            invariant
                off <= bytes@.len(),
                kd.wf(),
                replay_from(bytes@, off as int, kd@) == replay_log(bytes@),
            decreases bytes@.len() - off,
        {
            match find_line_end(&bytes, off) {
                None => {
                    let n = bytes.len();
                    proof {
                        assert(bytes@.len() == n <= u64::MAX);
                        assert(replay_log(bytes@) == Some(kd@));
                        lemma_replay_records(bytes@, 0, Map::empty(), kd@);
                    }
                    return Ok(KvStoreInner { log: bytes, store: kd });
                },
                Some(e) => {
                    let line = copy_range(&bytes, off, e);
                    match decode_command(&line) {
                        Err(err) => {
                            proof {
                                assert(replay_from(bytes@, off as int, kd@) is None);
                            }
                            return Err(err);
                        },
                        Ok(cmd) => {
                            let ghost kd0 = kd@;
                            match cmd {
                                Command::Put(k, _) => {
                                    kd.insert(k, off as u64);
                                },
                                Command::Remove(k) => {
                                    kd.remove(&k);
                                },
                            }
                            proof {
                                assert(replay_from(bytes@, off as int, kd0) == replay_from(
                                    bytes@,
                                    e as int,
                                    kd@,
                                ));
                            }
                            off = e;
                        },
                    }
                },
            }
        }
    }

    /// Look a key up; absent keys are not an error.
    pub fn get(&self, key: String) -> (r: Result<Option<String>, Error>)
        requires
            self.wf(),
        ensures
            match r {
                Ok(Some(s)) => self@.contains_key(key@) && s@ == self@[key@],
                Ok(None) => !self@.contains_key(key@),
                Err(_) => false,
            },
    {
        match self.store.get(&key) {
            Some(off) => {
                proof {
                    assert(self.keydir_view().contains_key(key@));
                    assert(valid_set_at(self.log_view(), self.keydir_view()[key@] as int, key@));
                }
                let v = value_from_log(&self.log, off, Ghost(key@));
                Ok(Some(v))
            },
            None => Ok(None),
        }
    }

    /// A copy of the log bytes, for a host that persists them.
    pub fn log_bytes(&self) -> (r: Vec<u8>)
        ensures
            r@ == self.log_view(),
    {
        proof {
            assert(self.log@.subrange(0, self.log@.len() as int) =~= self.log@);
        }
        copy_range(&self.log, 0, self.log.len())
    }

    /// How many live keys the store holds.
    pub fn live_keys(&self) -> (r: usize)
        ensures
            r == self.keydir_entries().len(),
    {
        self.store.len()
    }

    /// Append one set record and point the keydir at it.
    fn append_set(&mut self, key: String, value: String) -> (rec: Vec<u8>)
        requires
            old(self).wf(),
        ensures
            final(self).wf(),
            final(self)@ == old(self)@.insert(key@, value@),
            final(self).log_view() == old(self).log_view() + rec@,
            rec@ == spec_encode(SpecCommand::Put { key: key@, value: value@ }),
            final(self).keydir_view() == old(self).keydir_view().insert(
                key@,
                old(self).log_view().len() as u64,
            ),
            old(self).clean() ==> final(self).clean(),
    {
        let off = self.log.len();
        let key2 = key.clone();
        let ghost kview = key@;
        let ghost vview = value@;
        let cmd = Command::Put(key, value);
        let rec = encode_command(&cmd);
        let ghost oldlog = self.log@;
        let ghost oldkd = self.store@;
        append_bytes(&mut self.log, &rec);
        self.store.insert(key2, off as u64);
        proof {
            lemma_appended_record(oldlog, kview, vview);
            assert forall|k: Seq<char>|
                oldkd.contains_key(k) && k != kview implies valid_set_at(
                self.log@,
                (#[trigger] oldkd[k]) as int,
                k,
            ) && value_at(self.log@, oldkd[k] as int) == value_at(oldlog, oldkd[k] as int) by {
                assert(old(self).keydir_view().contains_key(k));
                assert(valid_set_at(old(self).log_view(), old(self).keydir_view()[k] as int, k));
                lemma_valid_set_extend(oldlog, rec@, oldkd[k] as int, k);
            }
            assert forall|k: Seq<char>| #[trigger]
                self.store@.contains_key(k) implies valid_set_at(
                self.log@,
                self.store@[k] as int,
                k,
            ) by {
                if k != kview {
                    assert(oldkd.contains_key(k));
                }
            }
            assert(self@ =~= old(self)@.insert(kview, vview));
            if old(self).clean() {
                lemma_replay_append(oldlog, 0, Map::empty(), cmd@);
            }
        }
        rec
    }

    /// Bind a key to a value, overwriting any prior binding.  When the
    /// log has grown past the compaction threshold, compaction runs
    /// first and the whole log is rewritten.
    pub fn set(&mut self, key: String, value: String) -> (r: Result<LogAction, Error>)
        requires
            old(self).wf(),
        ensures
            final(self).wf(),
            final(self)@ == old(self)@.insert(key@, value@),
            old(self).clean() ==> final(self).clean(),
            match r {
                Ok(LogAction::Appended(b)) => {
                    &&& old(self).log_view().len() <= crate::COMPACTION_THRESHOLD
                    &&& final(self).log_view() == old(self).log_view() + b@
                    &&& b@ == spec_encode(SpecCommand::Put { key: key@, value: value@ })
                    &&& final(self).keydir_view()[key@] as int == old(self).log_view().len()
                },
                Ok(LogAction::Rewritten) => {
                    &&& old(self).log_view().len() > crate::COMPACTION_THRESHOLD
                    &&& final(self).clean()
                    &&& final(self).log_view().len() >= spec_encode(
                        SpecCommand::Put { key: key@, value: value@ },
                    ).len()
                    &&& final(self).log_view().skip(
                        final(self).log_view().len() - spec_encode(
                            SpecCommand::Put { key: key@, value: value@ },
                        ).len(),
                    ) == spec_encode(SpecCommand::Put { key: key@, value: value@ })
                    &&& final(self).keydir_view()[key@] as int == final(self).log_view().len()
                        - spec_encode(SpecCommand::Put { key: key@, value: value@ }).len()
                },
                Err(_) => false,
            },
    {
        let ghost kview = key@;
        let ghost vview = value@;
        let offset = self.log.len() as u64;
        if offset > crate::COMPACTION_THRESHOLD {
            match self.compact() {
                Ok(_) => {},
                Err(_) => {
                    vstd::pervasive::unreached::<()>();
                },
            }
            let mid_len = self.log.len();
            let ghost mid = *self;
            let rec = self.append_set(key, value);
            proof {
                assert(mid.log_view().len() == mid_len);
                assert(self.log_view().skip(mid.log_view().len() as int) =~= rec@);
                assert(self.keydir_view()[kview] == mid.log_view().len() as u64);
                assert(mid.log_view().len() as u64 as int == mid.log_view().len());
            }
            Ok(LogAction::Rewritten)
        } else {
            let ghost pre = *self;
            let rec = self.append_set(key, value);
            proof {
                assert(self.keydir_view()[kview] == pre.log_view().len() as u64);
                assert(pre.log_view().len() as u64 as int == pre.log_view().len());
            }
            Ok(LogAction::Appended(rec))
        }
    }

    /// Retire a key.  Removing an absent key is an error and changes
    /// nothing.
    pub fn remove(&mut self, key: String) -> (r: Result<LogAction, Error>)
        requires
            old(self).wf(),
        ensures
            final(self).wf(),
            old(self)@.contains_key(key@) ==> match r {
                Ok(LogAction::Appended(b)) => {
                    &&& b@ == spec_encode(SpecCommand::Remove { key: key@ })
                    &&& final(self).log_view() == old(self).log_view() + b@
                    &&& final(self)@ == old(self)@.remove(key@)
                    &&& (old(self).clean() ==> final(self).clean())
                },
                _ => false,
            },
            !old(self)@.contains_key(key@) ==> match r {
                Err(e) => {
                    &&& e matches Error::NoKey(m) && m@ == "Key not found"@
                    &&& final(self).log_view() == old(self).log_view()
                    &&& final(self)@ == old(self)@
                    &&& final(self).keydir_view() == old(self).keydir_view()
                },
                _ => false,
            },
    {
        match self.store.get(&key) {
            Some(_off) => {
                let ghost kview = key@;
                let ghost oldlog = self.log@;
                let ghost oldkd = self.store@;
                self.store.remove(&key);
                let cmd = Command::Remove(key);
                let rec = encode_command(&cmd);
                proof {
                    if old(self).clean() {
                        lemma_replay_append(oldlog, 0, Map::empty(), cmd@);
                    }
                }
                append_bytes(&mut self.log, &rec);
                proof {
                    assert forall|k: Seq<char>|
                        oldkd.contains_key(k) implies valid_set_at(
                        self.log@,
                        (#[trigger] oldkd[k]) as int,
                        k,
                    ) && value_at(self.log@, oldkd[k] as int) == value_at(
                        oldlog,
                        oldkd[k] as int,
                    ) by {
                        lemma_valid_set_extend(oldlog, rec@, oldkd[k] as int, k);
                    }
                    assert forall|k: Seq<char>| #[trigger]
                        self.store@.contains_key(k) implies valid_set_at(
                        self.log@,
                        self.store@[k] as int,
                        k,
                    ) by {
                        assert(oldkd.contains_key(k));
                    }
                    assert(self@ =~= old(self)@.remove(kview));
                }
                Ok(LogAction::Appended(rec))
            },
            None => Err(Error::NoKey(String::from_str("Key not found"))),
        }
    }

    /// Rewrite the log so that it holds exactly one set record per
    /// live key, in keydir order, and point the keydir at the new
    /// records.  The set of bindings does not change.
    pub fn compact(&mut self) -> (r: Result<LogAction, Error>)
        requires
            old(self).wf(),
        ensures
            final(self).wf(),
            final(self).clean(),
            final(self)@ == old(self)@,
            final(self).log_view() == concat_live_records(
                final(self).keydir_entries(),
                old(self)@,
            ),
            final(self).keydir_entries().len() == old(self).keydir_entries().len(),
            match r {
                Ok(a) => a is Rewritten,
                Err(_) => false,
            },
    {
        let n = self.store.len();
        let mut new_log: Vec<u8> = Vec::new();
        let mut new_kd = Keydir::new();
        let ghost sk = self.store.entry_seq();
        let ghost oldlog = self.log@;
        let ghost oldview = self@;
        let mut i: usize = 0;
        while i < n
            invariant
                i <= n,
                n == sk.len(),
                sk == self.store.entry_seq(),
                oldlog == self.log@,
                oldview == self@,
                self.wf(),
                new_kd.wf(),
                new_kd.entry_seq().len() == i,
                forall|j: int| 0 <= j < i ==> (#[trigger] new_kd.entry_seq()[j]).0 == sk[j].0,
                framed_from(new_log@, 0),
                replay_from(new_log@, 0, Map::empty()) == Some(new_kd@),
                forall|k: Seq<char>| #[trigger]
                    new_kd@.contains_key(k) ==> exists|j: int| 0 <= j < i && (#[trigger] sk[j]).0
                        == k,
                forall|j: int|
                    0 <= j < i ==> {
                        &&& new_kd@.contains_key((#[trigger] sk[j]).0)
                        &&& valid_set_at(new_log@, new_kd@[sk[j].0] as int, sk[j].0)
                        &&& value_at(new_log@, new_kd@[sk[j].0] as int) == oldview[sk[j].0]
                    },
                new_log@ == concat_live_records(new_kd.entry_seq(), oldview),
            decreases n - i,
        {
            let (key_ref, off) = self.store.entry_at(i);
            let key = key_ref.clone();
            proof {
                lemma_map_of_index(sk, i as int);
                assert(self.store@[key@] == off);
                assert(valid_set_at(oldlog, off as int, key@));
            }
            let value = value_from_log(&self.log, off, Ghost(key@));
            let off2 = new_log.len();
            let ghost kview = key@;
            let ghost vview = value@;
            let cmd = Command::Put(key.clone(), value);
            let rec = encode_command(&cmd);
            let ghost prev_log = new_log@;
            let ghost prev_kd = new_kd@;
            let ghost prev_entries = new_kd.entry_seq();
            proof {
                lemma_replay_append(prev_log, 0, Map::empty(), cmd@);
                lemma_appended_record(prev_log, kview, vview);
                if prev_kd.contains_key(kview) {
                    let j = choose|j: int| 0 <= j < i && (#[trigger] sk[j]).0 == kview;
                    assert(sk[j].0 == sk[i as int].0);
                    assert(false);
                }
            }
            append_bytes(&mut new_log, &rec);
            new_kd.insert(key, off2 as u64);
            proof {
                assert(new_kd.entry_seq() == prev_entries.push((kview, off2 as u64)));
                assert(new_kd@ == prev_kd.insert(kview, off2 as u64));
                assert forall|j: int|
                    0 <= j < i implies valid_set_at(
                    new_log@,
                    prev_kd[(#[trigger] sk[j]).0] as int,
                    sk[j].0,
                ) && value_at(new_log@, prev_kd[sk[j].0] as int) == value_at(
                    prev_log,
                    prev_kd[sk[j].0] as int,
                ) by {
                    lemma_valid_set_extend(prev_log, rec@, prev_kd[sk[j].0] as int, sk[j].0);
                }
                assert(oldview[kview] == vview);
                assert(concat_live_records(new_kd.entry_seq(), oldview) == concat_live_records(
                    prev_entries,
                    oldview,
                ) + spec_encode(SpecCommand::Put { key: kview, value: oldview[kview] })) by {
                    assert(new_kd.entry_seq().drop_last() =~= prev_entries);
                }
                assert(new_log@ == concat_live_records(new_kd.entry_seq(), oldview));
            }
            i = i + 1;
        }
        self.log = new_log;
        self.store = new_kd;
        proof {
            assert forall|k: Seq<char>| #[trigger]
                self.store@.contains_key(k) implies valid_set_at(
                self.log@,
                self.store@[k] as int,
                k,
            ) by {
                let j = choose|j: int| 0 <= j < n && (#[trigger] sk[j]).0 == k;
            }
            assert forall|k: Seq<char>| #[trigger]
                oldview.contains_key(k) == self@.contains_key(k) by {
                lemma_map_of_contains(sk, k);
            }
            assert forall|k: Seq<char>|
                self@.contains_key(k) implies #[trigger] self@[k] == oldview[k] by {
                let j = choose|j: int| 0 <= j < n && (#[trigger] sk[j]).0 == k;
            }
            assert(self@ =~= oldview);
        }
        Ok(LogAction::Rewritten)
    }
}

/// How one command changes the value map.
pub open spec fn apply_one(
    m: Map<Seq<char>, Seq<char>>,
    cmd: SpecCommand,
) -> Map<Seq<char>, Seq<char>> {
    match cmd {
        SpecCommand::Put { key, value } => m.insert(key, value),
        SpecCommand::Remove { key } => m.remove(key),
    }
}

/// The value map after a whole sequence of commands, first first.
pub open spec fn apply_commands(
    m: Map<Seq<char>, Seq<char>>,
    cmds: Seq<SpecCommand>,
) -> Map<Seq<char>, Seq<char>>
    decreases cmds.len(),
{
    if cmds.len() == 0 {
        m
    } else {
        apply_commands(apply_one(m, cmds[0]), cmds.drop_first())
    }
}

/// The binding a command sequence leaves for one key: the value of the
/// last set of that key, unless a later remove of it follows.
pub open spec fn last_binding(cmds: Seq<SpecCommand>, k: Seq<char>) -> Option<Seq<char>>
    decreases cmds.len(),
{
    if cmds.len() == 0 {
        None
    } else {
        match cmds.last() {
            SpecCommand::Put { key, value } => if key == k {
                Some(value)
            } else {
                last_binding(cmds.drop_last(), k)
            },
            SpecCommand::Remove { key } => if key == k {
                None
            } else {
                last_binding(cmds.drop_last(), k)
            },
        }
    }
}

proof fn lemma_apply_commands_snoc(
    m: Map<Seq<char>, Seq<char>>,
    cmds: Seq<SpecCommand>,
    c: SpecCommand,
)
    ensures
        apply_commands(m, cmds.push(c)) == apply_one(apply_commands(m, cmds), c),
    decreases cmds.len(),
{
    if cmds.len() == 0 {
        assert(cmds.push(c)[0] == c);
        assert(cmds.push(c).drop_first() =~= Seq::<SpecCommand>::empty());
        assert(apply_commands(apply_one(m, c), Seq::<SpecCommand>::empty()) == apply_one(m, c));
    } else {
        assert(cmds.push(c)[0] == cmds[0]);
        assert(cmds.push(c).drop_first() =~= cmds.drop_first().push(c));
        lemma_apply_commands_snoc(apply_one(m, cmds[0]), cmds.drop_first(), c);
    }
}

/// Last write wins: after any sequence of commands applied to an empty
/// store, a key reads as the value of its last set, unless a later
/// remove of the key follows; with no surviving set the key is absent.
/// The store operations' contracts tie each engine operation to
/// [`apply_one`], so this law carries over to any run of operations.
pub proof fn lemma_last_write_wins(cmds: Seq<SpecCommand>, k: Seq<char>)
    ensures
        match last_binding(cmds, k) {
            Some(v) => apply_commands(Map::empty(), cmds).contains_key(k) && apply_commands(
                Map::empty(),
                cmds,
            )[k] == v,
            None => !apply_commands(Map::empty(), cmds).contains_key(k),
        },
    decreases cmds.len(),
{
    if cmds.len() > 0 {
        lemma_last_write_wins(cmds.drop_last(), k);
        assert(cmds.drop_last().push(cmds.last()) =~= cmds);
        lemma_apply_commands_snoc(Map::empty(), cmds.drop_last(), cmds.last());
    }
}

/// A remove that reports an absent key can only happen when no set of
/// that key survives: every earlier set was retired by a later remove.
pub proof fn lemma_no_key_means_no_live_set(cmds: Seq<SpecCommand>, k: Seq<char>)
    requires
        !apply_commands(Map::empty(), cmds).contains_key(k),
    ensures
        last_binding(cmds, k) is None,
{
    lemma_last_write_wins(cmds, k);
}

impl KvStoreInner {
    /// Recovery round trip: replaying the log of a clean store
    /// rebuilds exactly the keydir the store holds, and any
    /// well-formed store with that log and keydir reads every key the
    /// same.
    pub proof fn lemma_recovery_round_trip(&self, other: &KvStoreInner)
        requires
            self.wf(),
            self.clean(),
            other.wf(),
            other.log_view() == self.log_view(),
            other.keydir_view() == self.keydir_view(),
        ensures
            replay_log(self.log_view()) == Some(self.keydir_view()),
            other@ == self@,
    {
        assert(other@ =~= self@);
    }
}

/// The concatenation of one fresh set record per entry, in entry
/// order, each carrying the entry key's current value.
pub open spec fn concat_live_records(
    entries: Seq<(Seq<char>, u64)>,
    m: Map<Seq<char>, Seq<char>>,
) -> Seq<u8>
    decreases entries.len(),
{
    if entries.len() == 0 {
        Seq::empty()
    } else {
        concat_live_records(entries.drop_last(), m) + spec_encode(
            SpecCommand::Put { key: entries.last().0, value: m[entries.last().0] },
        )
    }
}

/// The sum of the encoded sizes of one set record per entry.
pub open spec fn record_size_sum(
    entries: Seq<(Seq<char>, u64)>,
    m: Map<Seq<char>, Seq<char>>,
) -> nat
    decreases entries.len(),
{
    if entries.len() == 0 {
        0
    } else {
        record_size_sum(entries.drop_last(), m) + spec_encode(
            SpecCommand::Put { key: entries.last().0, value: m[entries.last().0] },
        ).len()
    }
}

/// A compacted log is no larger than the sum of the encoded sizes of
/// one set record per live key: compaction leaves no dead bytes.
/// Compaction's own contract says the log is exactly the record
/// concatenation; this law states its length.
pub proof fn lemma_compacted_log_size(
    entries: Seq<(Seq<char>, u64)>,
    m: Map<Seq<char>, Seq<char>>,
)
    ensures
        concat_live_records(entries, m).len() == record_size_sum(entries, m),
    decreases entries.len(),
{
    if entries.len() > 0 {
        lemma_compacted_log_size(entries.drop_last(), m);
    }
}

} // verus!

