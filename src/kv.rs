//! The log-structured storage engine.
//!
//! The engine keeps the index of the active log segment in memory and
//! decides what is written; the caller owns the segment files. Each
//! mutation returns the bytes to append, [`KvStore::locate`] says where a
//! value's record lies, and [`KvStore::compact`] lists the records to copy
//! into the next segment. What the engine holds is given by replaying the
//! segment it believes to be on disk.
use crate::codec::{
    decode_command, encode_command, encode_op, lemma_decode_canonical, lemma_decode_encode,
    lemma_decode_extend, lemma_encode_len, op_fits, decode_op, Command, Op,
};
use crate::error::KvError;
use crate::index::{lemma_len_sum_prefix, lemma_len_sum_update, len_sum, KeyDir, LogPointer};
use vstd::prelude::*;
use vstd::slice::slice_subrange;

verus! {

/// Once the active segment is larger than this many bytes, it is compacted.
pub const COMPACT_THRESHOLD: u64 = 1024 * 256;

pub open spec fn pointer(offset: int, len: int) -> LogPointer {
    LogPointer { offset: offset as u64, len: len as u64 }
}

/// The index after the mutation `op`, whose record lies at `offset` and is
/// `len` bytes long.
pub open spec fn apply_op(
    idx: Map<Seq<char>, LogPointer>,
    op: Op,
    offset: int,
    len: int,
) -> Map<Seq<char>, LogPointer> {
    match op {
        Op::Put(k, _) => idx.insert(k, pointer(offset, len)),
        Op::Remove(k) => idx.remove(k),
    }
}

/// Replays the records of `log` from `pos` on, starting from the index `idx`;
/// `None` where a record there does not decode.
pub open spec fn replay_from(log: Seq<u8>, pos: int, idx: Map<Seq<char>, LogPointer>) -> Option<
    Map<Seq<char>, LogPointer>,
>
    decreases log.len() - pos,
{
    if pos < 0 || pos >= log.len() {
        Some(idx)
    } else {
        match decode_op(log.subrange(pos, log.len() as int)) {
            Some((op, n)) => if 0 < n {
                replay_from(log, pos + n, apply_op(idx, op, pos, n))
            } else {
                None
            },
            None => None,
        }
    }
}

/// The index rebuilt by replaying `log` from its start.
pub open spec fn replay(log: Seq<u8>) -> Option<Map<Seq<char>, LogPointer>> {
    replay_from(log, 0, Map::empty())
}

/// The value in the `Put` record that `p` points to in `log`.
pub open spec fn value_at(log: Seq<u8>, p: LogPointer) -> Seq<char> {
    match decode_op(log.subrange(p.offset as int, p.offset + p.len)) {
        Some((Op::Put(_, v), _)) => v,
        _ => Seq::empty(),
    }
}

/// What a log segment holds: each key of its replayed index, with the value
/// of the record that the index points to.
pub open spec fn contents(log: Seq<u8>) -> Map<Seq<char>, Seq<char>> {
    match replay(log) {
        Some(idx) => Map::new(
            |k: Seq<char>| idx.contains_key(k),
            |k: Seq<char>| value_at(log, idx[k]),
        ),
        None => Map::empty(),
    }
}

/// The key/value map after the mutation `op`.
pub open spec fn apply_value(c: Map<Seq<char>, Seq<char>>, op: Op) -> Map<Seq<char>, Seq<char>> {
    match op {
        Op::Put(k, v) => c.insert(k, v),
        Op::Remove(k) => c.remove(k),
    }
}

/// Each pointer of `idx` lies inside `log` on a `Put` record of its own key.
pub open spec fn pointers_valid(log: Seq<u8>, idx: Map<Seq<char>, LogPointer>) -> bool {
    forall|k: Seq<char>|
        #![trigger idx[k]]
        idx.contains_key(k) ==> {
            let p = idx[k];
            &&& p.offset + p.len <= log.len()
            &&& decode_op(log.subrange(p.offset as int, p.offset + p.len)) == Some(
                (Op::Put(k, value_at(log, p)), p.len as int),
            )
        }
}

/// The segment made of one `Put` record per key of `order`, in that order,
/// each with the key's value in `m`.
pub open spec fn compacted(order: Seq<Seq<char>>, m: Map<Seq<char>, Seq<char>>) -> Seq<u8>
    decreases order.len(),
{
    if order.len() == 0 {
        Seq::empty()
    } else {
        compacted(order.drop_last(), m) + encode_op(Op::Put(order.last(), m[order.last()]))
    }
}

/// The bytes that `ptrs` point to in `log`, one after another.
pub open spec fn copied(log: Seq<u8>, ptrs: Seq<LogPointer>) -> Seq<u8>
    decreases ptrs.len(),
{
    if ptrs.len() == 0 {
        Seq::empty()
    } else {
        copied(log, ptrs.drop_last()) + log.subrange(
            ptrs.last().offset as int,
            ptrs.last().offset + ptrs.last().len,
        )
    }
}

/// The log made of the records of `ops`, in that order.
pub open spec fn log_of(ops: Seq<Op>) -> Seq<u8>
    decreases ops.len(),
{
    if ops.len() == 0 {
        Seq::empty()
    } else {
        log_of(ops.drop_last()) + encode_op(ops.last())
    }
}

/// The index built in memory by applying `ops` one after another, each
/// record placed at the end of the log written so far.
pub open spec fn apply_ops(ops: Seq<Op>) -> Map<Seq<char>, LogPointer>
    decreases ops.len(),
{
    if ops.len() == 0 {
        Map::empty()
    } else {
        apply_op(
            apply_ops(ops.drop_last()),
            ops.last(),
            log_of(ops.drop_last()).len() as int,
            encode_op(ops.last()).len() as int,
        )
    }
}

proof fn lemma_replay_from_append(
    log: Seq<u8>,
    op: Op,
    pos: int,
    idx: Map<Seq<char>, LogPointer>,
)
    requires
        op_fits(op),
        0 <= pos <= log.len(),
        replay_from(log, pos, idx) is Some,
    ensures
        replay_from(log + encode_op(op), pos, idx) == Some(
            apply_op(
                replay_from(log, pos, idx)->Some_0,
                op,
                log.len() as int,
                encode_op(op).len() as int,
            ),
        ),
    decreases log.len() - pos,
{
    let e = encode_op(op);
    let full = log + e;
    lemma_decode_encode(op, Seq::empty());
    if pos == log.len() {
        assert(full.subrange(pos, full.len() as int) =~= e + Seq::empty());
        assert(replay_from(full, pos + e.len(), apply_op(idx, op, pos, e.len() as int)) == Some(
            apply_op(idx, op, pos, e.len() as int),
        ));
    } else {
        let rest = log.subrange(pos, log.len() as int);
        let (op1, n) = decode_op(rest)->Some_0;
        lemma_decode_canonical(rest);
        assert(full.subrange(pos, full.len() as int) =~= rest + e);
        lemma_decode_extend(rest, e);
        lemma_replay_from_append(log, op, pos + n, apply_op(idx, op1, pos, n));
    }
}

proof fn lemma_replay_from_valid(log: Seq<u8>, pos: int, idx: Map<Seq<char>, LogPointer>)
    requires
        log.len() <= u64::MAX,
        0 <= pos <= log.len(),
        pointers_valid(log, idx),
        replay_from(log, pos, idx) is Some,
    ensures
        pointers_valid(log, replay_from(log, pos, idx)->Some_0),
    decreases log.len() - pos,
{
    if pos < log.len() {
        let rest = log.subrange(pos, log.len() as int);
        let (op, n) = decode_op(rest)->Some_0;
        lemma_decode_canonical(rest);
        let next = apply_op(idx, op, pos, n);
        assert(log.subrange(pos, pos + n) =~= rest.subrange(0, n));
        assert(log.subrange(pos, pos + n) =~= encode_op(op) + Seq::empty());
        lemma_decode_encode(op, Seq::empty());
        assert forall|k: Seq<char>| #[trigger] next.contains_key(k) implies {
            let p = next[k];
            &&& p.offset + p.len <= log.len()
            &&& decode_op(log.subrange(p.offset as int, p.offset + p.len)) == Some(
                (Op::Put(k, value_at(log, p)), p.len as int),
            )
        } by {
            if let Op::Put(k1, v1) = op {
                if k == k1 {
                    assert(next[k] == pointer(pos, n));
                }
            }
        }
        lemma_replay_from_valid(log, pos + n, next);
    }
}

/// Every pointer that replay leaves in the index lies inside the log, on a
/// `Put` record of its own key.
pub proof fn lemma_replay_valid(log: Seq<u8>)
    requires
        log.len() <= u64::MAX,
        replay(log) is Some,
    ensures
        pointers_valid(log, replay(log)->Some_0),
{
    lemma_replay_from_valid(log, 0, Map::empty());
}

/// Appending a record to a log that replays extends the replayed index by
/// that record, and what the log holds by its mutation.
pub proof fn lemma_append_record(log: Seq<u8>, op: Op)
    requires
        replay(log) is Some,
        op_fits(op),
        log.len() + encode_op(op).len() <= u64::MAX,
    ensures
        replay(log + encode_op(op)) == Some(
            apply_op(replay(log)->Some_0, op, log.len() as int, encode_op(op).len() as int),
        ),
        contents(log + encode_op(op)) == apply_value(contents(log), op),
{
    let e = encode_op(op);
    let full = log + e;
    let idx = replay(log)->Some_0;
    lemma_replay_from_append(log, op, 0, Map::empty());
    lemma_replay_valid(log);
    lemma_decode_encode(op, Seq::empty());
    let next = apply_op(idx, op, log.len() as int, e.len() as int);
    assert forall|k: Seq<char>| #[trigger] next.contains_key(k) implies value_at(full, next[k])
        == apply_value(contents(log), op)[k] by {
        let is_new = match op {
            Op::Put(k1, _) => k1 == k,
            Op::Remove(_) => false,
        };
        if is_new {
            assert(full.subrange(log.len() as int, full.len() as int) =~= e + Seq::empty());
        } else {
            let p = idx[k];
            assert(full.subrange(p.offset as int, p.offset + p.len) =~= log.subrange(
                p.offset as int,
                p.offset + p.len,
            ));
        }
    }
    assert(contents(full) =~= apply_value(contents(log), op));
}

/// Replaying the log written by a sequence of mutations rebuilds exactly
/// the index that applying those mutations in memory builds.
pub proof fn lemma_replay_matches_direct(ops: Seq<Op>)
    requires
        forall|i: int| 0 <= i < ops.len() ==> op_fits(#[trigger] ops[i]),
    ensures
        replay(log_of(ops)) == Some(apply_ops(ops)),
    decreases ops.len(),
{
    if ops.len() > 0 {
        let prefix = ops.drop_last();
        assert forall|i: int| 0 <= i < prefix.len() implies op_fits(#[trigger] prefix[i]) by {
            assert(prefix[i] == ops[i]);
        }
        lemma_replay_matches_direct(prefix);
        assert(op_fits(ops[ops.len() - 1]));
        lemma_replay_from_append(log_of(prefix), ops.last(), 0, Map::empty());
    }
}

/// Persistence: a segment that ends with the record of a `Put`, when it is
/// opened again, holds the key with the value put.
pub proof fn lemma_reopen_after_put(log: Seq<u8>, k: Seq<char>, v: Seq<char>)
    requires
        replay(log) is Some,
        op_fits(Op::Put(k, v)),
        log.len() + encode_op(Op::Put(k, v)).len() <= u64::MAX,
    ensures
        contents(log + encode_op(Op::Put(k, v))).contains_key(k),
        contents(log + encode_op(Op::Put(k, v)))[k] == v,
{
    lemma_append_record(log, Op::Put(k, v));
}

proof fn lemma_compacted_restrict(order: Seq<Seq<char>>, m: Map<Seq<char>, Seq<char>>)
    requires
        forall|i: int|
            0 <= i < order.len() ==> m.contains_key(#[trigger] order[i]) && op_fits(
                Op::Put(order[i], m[order[i]]),
            ),
        compacted(order, m).len() <= u64::MAX,
    ensures
        replay(compacted(order, m)) is Some,
        contents(compacted(order, m)) == Map::new(
            |k: Seq<char>| order.contains(k),
            |k: Seq<char>| m[k],
        ),
    decreases order.len(),
{
    let target = Map::new(|k: Seq<char>| order.contains(k), |k: Seq<char>| m[k]);
    if order.len() == 0 {
        assert(contents(compacted(order, m)) =~= target);
    } else {
        let prefix = order.drop_last();
        let last = order.last();
        assert(m.contains_key(order[order.len() - 1]));
        assert forall|i: int| 0 <= i < prefix.len() implies m.contains_key(#[trigger] prefix[i])
            && op_fits(Op::Put(prefix[i], m[prefix[i]])) by {
            assert(prefix[i] == order[i]);
        }
        lemma_compacted_restrict(prefix, m);
        lemma_append_record(compacted(prefix, m), Op::Put(last, m[last]));
        assert forall|k: Seq<char>| order.contains(k) <==> (prefix.contains(k) || k == last) by {
            if order.contains(k) && k != last {
                let i = choose|i: int| 0 <= i < order.len() && order[i] == k;
                assert(prefix[i] == k);
            }
            if prefix.contains(k) {
                let i = choose|i: int| 0 <= i < prefix.len() && prefix[i] == k;
                assert(order[i] == k);
            }
            if k == last {
                assert(order[order.len() - 1] == k);
            }
        }
        assert(contents(compacted(order, m)) =~= target);
    }
}

/// Compaction keeps what the store holds: a segment rewritten with one
/// `Put` record per key, in any order that lists each key once, holds the
/// same key/value map, and compacting that segment again in the same order
/// writes the same bytes.
pub proof fn lemma_compaction_preserves(order: Seq<Seq<char>>, m: Map<Seq<char>, Seq<char>>)
    requires
        order.no_duplicates(),
        forall|k: Seq<char>| m.contains_key(k) <==> order.contains(k),
        forall|k: Seq<char>| #[trigger] m.contains_key(k) ==> op_fits(Op::Put(k, m[k])),
        compacted(order, m).len() <= u64::MAX,
    ensures
        replay(compacted(order, m)) is Some,
        contents(compacted(order, m)) == m,
        compacted(order, contents(compacted(order, m))) == compacted(order, m),
{
    assert forall|i: int| 0 <= i < order.len() implies m.contains_key(#[trigger] order[i])
        && op_fits(Op::Put(order[i], m[order[i]])) by {
        assert(order.contains(order[i]));
    }
    lemma_compacted_restrict(order, m);
    assert(contents(compacted(order, m)) =~= m);
}

spec fn q_of(size: u64, p: LogPointer) -> LogPointer {
    LogPointer { offset: size, len: p.len }
}

proof fn lemma_take_to_set(o: Seq<Seq<char>>, i: int)
    requires
        0 <= i < o.len(),
    ensures
        o.take(i + 1).to_set() == o.take(i).to_set().insert(o[i]),
{
    let a = o.take(i + 1);
    let b = o.take(i);
    assert forall|k: Seq<char>| a.contains(k) <==> (b.contains(k) || k == o[i]) by {
        if a.contains(k) && k != o[i] {
            let j = choose|j: int| 0 <= j < a.len() && a[j] == k;
            assert(b[j] == k);
        }
        if b.contains(k) {
            let j = choose|j: int| 0 <= j < b.len() && b[j] == k;
            assert(a[j] == k);
        }
        if k == o[i] {
            assert(o.take(i + 1)[i] == k);
        }
    }
    assert(o.take(i + 1).to_set() =~= o.take(i).to_set().insert(o[i]));
}

/// One step of compaction: the record of the `i`-th key of `o` in `log` is
/// that key's `Put` record, and appending it to the segment built so far
/// extends both the compacted segment and its replayed index by that key.
proof fn lemma_compact_step(
    log: Seq<u8>,
    idx: Map<Seq<char>, LogPointer>,
    o: Seq<Seq<char>>,
    ps: Seq<LogPointer>,
    i: int,
    new_log: Seq<u8>,
)
    requires
        log.len() <= u64::MAX,
        replay(log) == Some(idx),
        o.len() == ps.len(),
        0 <= i < o.len(),
        forall|j: int| 0 <= j < o.len() ==> #[trigger] ps[j] == idx[o[j]],
        forall|j: int| 0 <= j < o.len() ==> idx.contains_key(#[trigger] o[j]),
        new_log == compacted(o.take(i), contents(log)),
        new_log.len() + ps[i].len <= u64::MAX,
        replay(new_log) is Some,
    ensures
        ({
            let p = ps[i];
            let k = o[i];
            let rec = log.subrange(p.offset as int, p.offset + p.len);
            let op = Op::Put(k, contents(log)[k]);
            &&& p.offset + p.len <= log.len()
            &&& rec == encode_op(op)
            &&& compacted(o.take(i + 1), contents(log)) == new_log + rec
            &&& replay(new_log + rec) == Some(
                apply_op(replay(new_log)->Some_0, op, new_log.len() as int, p.len as int),
            )
        }),
{
    let p = ps[i];
    let k = o[i];
    lemma_replay_valid(log);
    assert(ps[i] == idx[o[i]]);
    assert(idx.contains_key(o[i]));
    let rec = log.subrange(p.offset as int, p.offset + p.len);
    lemma_decode_canonical(rec);
    assert(rec.subrange(0, p.len as int) =~= rec);
    assert(o.take(i + 1).drop_last() =~= o.take(i));
    lemma_append_record(new_log, Op::Put(k, contents(log)[k]));
}

/// What a mutation leaves for the caller to write.
pub struct Written {
    /// The record to append to the active segment.
    pub record: Vec<u8>,
    /// Where the segment, with the record, grew past [`COMPACT_THRESHOLD`]:
    /// the records of it to copy, in order, into the segment of the next
    /// generation, before the old segment is deleted.
    pub compaction: Option<Vec<LogPointer>>,
}

/// The log engine: the index of the active segment, the segment's
/// generation number and size, and the segment's bytes as they were written.
pub struct KvStore {
    index: KeyDir,
    log_file_id: u64,
    log_file_size: u64,
    log: Ghost<Seq<u8>>,
}

impl View for KvStore {
    type V = Map<Seq<char>, Seq<char>>;

    /// Each key that the store holds, with its value.
    open spec fn view(&self) -> Map<Seq<char>, Seq<char>> {
        contents(self.log())
    }
}

impl KvStore {
    /// The bytes of the active segment.
    pub closed spec fn log(&self) -> Seq<u8> {
        self.log@
    }

    /// Each key's place in the active segment.
    pub closed spec fn index(&self) -> Map<Seq<char>, LogPointer> {
        self.index@
    }

    /// The order in which compaction copies the keys.
    pub closed spec fn order(&self) -> Seq<Seq<char>> {
        self.index.order()
    }

    /// The generation number of the active segment.
    pub closed spec fn generation(&self) -> u64 {
        self.log_file_id
    }

    pub closed spec fn inv(&self) -> bool {
        &&& self.index.wf()
        &&& self.log@.len() == self.log_file_size
        &&& self.index.total() <= self.log@.len()
    }

    pub open spec fn wf(&self) -> bool {
        &&& self.inv()
        &&& replay(self.log()) == Some(self.index())
    }

    proof fn lemma_facts(&self)
        requires
            self.wf(),
        ensures
            self.log().len() <= u64::MAX,
            pointers_valid(self.log(), self.index()),
            self@.dom() == self.index().dom(),
            self.order().no_duplicates(),
            forall|k: Seq<char>| self.index().contains_key(k) <==> self.order().contains(k),
            forall|k: Seq<char>| #[trigger] self@.contains_key(k) ==> op_fits(Op::Put(k, self@[k])),
    {
        lemma_replay_valid(self.log());
        assert forall|k: Seq<char>| #[trigger] self@.contains_key(k) implies op_fits(
            Op::Put(k, self@[k]),
        ) by {
            let p = self.index()[k];
            lemma_decode_canonical(self.log().subrange(p.offset as int, p.offset + p.len));
        }
        self.index.lemma_order();
        assert(self@.dom() =~= self.index().dom());
    }

    /// Rebuilds the index of the segment of generation `log_file_id` whose
    /// bytes are `log`, replaying every record from the start.
    fn replay_segment(log_file_id: u64, log: &[u8]) -> (r: Result<KvStore, KvError>)
        ensures
            replay(log@) is Some <==> r is Ok,
            r matches Ok(s) ==> s.wf() && s.log() == log@ && s.generation() == log_file_id,
            r matches Err(e) ==> e is Encoding,
    {
        let mut index = KeyDir::new();
        let mut pos: usize = 0;
        while pos < log.len()
            invariant
                index.wf(),
                pos <= log@.len(),
                index.total() <= pos,
                replay(log@) == replay_from(log@, pos as int, index@),
            decreases log@.len() - pos,
        {
            let rest = slice_subrange(log, pos, log.len());
            match decode_command(rest) {
                None => {
                    return Err(KvError::Encoding("malformed log record".to_string()));
                },
                Some((cmd, n)) => {
                    proof {
                        lemma_decode_canonical(rest@);
                    }
                    match cmd {
                        Command::Put { key, .. } => {
                            index.insert(key, LogPointer { offset: pos as u64, len: n as u64 });
                        },
                        Command::Remove { key } => {
                            index.remove(key.as_str());
                        },
                    }
                    pos = pos + n;
                },
            }
        }
        Ok(KvStore { index, log_file_id, log_file_size: log.len() as u64, log: Ghost(log@) })
    }

    /// The generation number of the active segment.
    pub fn log_file_id(&self) -> (r: u64)
        ensures
            r == self.generation(),
    {
        self.log_file_id
    }

    /// The size in bytes of the active segment.
    pub fn log_file_size(&self) -> (r: u64)
        requires
            self.wf(),
        ensures
            r == self.log().len(),
    {
        self.log_file_size
    }

    /// Whether the active segment has grown past [`COMPACT_THRESHOLD`].
    pub fn needs_compaction(&self) -> (r: bool)
        requires
            self.wf(),
        ensures
            r == (self.log().len() > COMPACT_THRESHOLD),
    {
        self.log_file_size > COMPACT_THRESHOLD
    }

    /// Where the record of `key`'s value lies; `None` where the store does
    /// not hold `key`.
    pub fn locate(&self, key: &str) -> (r: Option<LogPointer>)
        requires
            self.wf(),
        ensures
            r is None <==> !self@.contains_key(key@),
            r matches Some(p) ==> p == self.index()[key@] && p.offset + p.len <= self.log().len()
                && self.log().subrange(p.offset as int, p.offset + p.len) == encode_op(
                Op::Put(key@, self@[key@]),
            ),
    {
        proof {
            self.lemma_facts();
        }
        let r = self.index.get(key);
        proof {
            if let Some(p) = r {
                let rec = self.log().subrange(p.offset as int, p.offset + p.len);
                lemma_decode_canonical(rec);
                assert(rec.subrange(0, p.len as int) =~= rec);
            }
        }
        r
    }

    /// Whether a `Put` of `key` and `value` still leaves the segment's size
    /// within a `u64`.
    pub fn put_fits(&self, key: &str, value: &str) -> (r: bool)
        requires
            self.wf(),
        ensures
            r == (self.log().len() + encode_op(Op::Put(key@, value@)).len() <= u64::MAX),
    {
        proof {
            lemma_encode_len(Op::Put(key@, value@));
        }
        let k = key.as_bytes().len() as u64;
        let v = value.as_bytes().len() as u64;
        let room = u64::MAX - self.log_file_size;
        room >= 17 && k <= room - 17 && v <= room - 17 - k
    }

    /// Whether a `Remove` of `key` still leaves the segment's size within a `u64`.
    pub fn remove_fits(&self, key: &str) -> (r: bool)
        requires
            self.wf(),
        ensures
            r == (self.log().len() + encode_op(Op::Remove(key@)).len() <= u64::MAX),
    {
        proof {
            lemma_encode_len(Op::Remove(key@));
        }
        let k = key.as_bytes().len() as u64;
        let room = u64::MAX - self.log_file_size;
        room >= 9 && k <= room - 9
    }

    fn append_put(&mut self, key: String, value: String) -> (record: Vec<u8>)
        requires
            old(self).wf(),
            old(self).log().len() + encode_op(Op::Put(key@, value@)).len() <= u64::MAX,
        ensures
            final(self).wf(),
            record@ == encode_op(Op::Put(key@, value@)),
            final(self).log() == old(self).log() + record@,
            final(self).index() == apply_op(
                old(self).index(),
                Op::Put(key@, value@),
                old(self).log().len() as int,
                record@.len() as int,
            ),
            final(self)@ == old(self)@.insert(key@, value@),
            final(self).generation() == old(self).generation(),
    {
        let ghost op = Op::Put(key@, value@);
        let ghost before = self.log@;
        let cmd = Command::Put { key, value };
        let record = encode_command(&cmd);
        let key = match cmd {
            Command::Put { key, .. } => key,
            Command::Remove { key } => key,
        };
        proof {
            lemma_append_record(before, op);
        }
        let offset = self.log_file_size;
        let len = record.len() as u64;
        self.index.insert(key, LogPointer { offset, len });
        self.log_file_size = offset + len;
        self.log = Ghost(before + record@);
        record
    }

    fn append_remove(&mut self, key: String) -> (r: Result<Vec<u8>, KvError>)
        requires
            old(self).wf(),
            old(self).log().len() + encode_op(Op::Remove(key@)).len() <= u64::MAX,
        ensures
            final(self).wf(),
            r is Err <==> !old(self)@.contains_key(key@),
            r matches Err(e) ==> e is KeyNotFound && final(self).log() == old(self).log()
                && final(self).index() == old(self).index(),
            r matches Ok(record) ==> {
                &&& record@ == encode_op(Op::Remove(key@))
                &&& final(self).log() == old(self).log() + record@
                &&& final(self).index() == apply_op(
                    old(self).index(),
                    Op::Remove(key@),
                    old(self).log().len() as int,
                    record@.len() as int,
                )
            },
            final(self)@ == old(self)@.remove(key@),
            final(self).generation() == old(self).generation(),
    {
        proof {
            self.lemma_facts();
        }
        if !self.index.contains_key(key.as_str()) {
            proof {
                assert(self@ =~= self@.remove(key@));
            }
            return Err(KvError::KeyNotFound);
        }
        let ghost op = Op::Remove(key@);
        let ghost before = self.log@;
        let cmd = Command::Remove { key };
        let record = encode_command(&cmd);
        let key = match cmd {
            Command::Put { key, .. } => key,
            Command::Remove { key } => key,
        };
        proof {
            lemma_append_record(before, op);
        }
        let len = record.len() as u64;
        self.index.remove(key.as_str());
        self.log_file_size = self.log_file_size + len;
        self.log = Ghost(before + record@);
        Ok(record)
    }

    /// `self` is what compacting the segment `log` of generation `generation`
    /// left: the next generation, holding what `log` held, one `Put` record
    /// per key in the walk order, which are the records `plan` points to in `log`.
    pub open spec fn compacted_from(&self, log: Seq<u8>, generation: u64, plan: Seq<LogPointer>) -> bool {
        &&& self.generation() == generation + 1
        &&& self@ == contents(log)
        &&& self.log() == compacted(self.order(), self@)
        &&& self.log() == copied(log, plan)
        &&& self.order().no_duplicates()
        &&& forall|k: Seq<char>| self@.contains_key(k) <==> self.order().contains(k)
    }

    /// `self` is the store after its segment became `log` in generation
    /// `generation`: compacted, with the copy plan in `compaction`, where `log`
    /// is larger than [`COMPACT_THRESHOLD`]; otherwise left as it is.
    pub open spec fn settled(&self, log: Seq<u8>, generation: u64, compaction: Option<Vec<LogPointer>>) -> bool {
        if log.len() > COMPACT_THRESHOLD {
            compaction matches Some(plan) && self.compacted_from(log, generation, plan@)
        } else {
            compaction is None && self.generation() == generation && self.log() == log
        }
    }

    fn settle(&mut self) -> (compaction: Option<Vec<LogPointer>>)
        requires
            old(self).wf(),
            old(self).generation() < u64::MAX,
        ensures
            final(self).wf(),
            final(self)@ == old(self)@,
            final(self).settled(old(self).log(), old(self).generation(), compaction),
    {
        if self.needs_compaction() {
            Some(self.compact())
        } else {
            None
        }
    }

    /// Opens the segment of generation `log_file_id` whose bytes are `log`,
    /// rebuilding the index by replaying every record from the start; a
    /// segment larger than [`COMPACT_THRESHOLD`] is compacted at once, and
    /// the plan of the records to copy into the next generation comes back
    /// with the store.
    pub fn open(log_file_id: u64, log: &[u8]) -> (r: Result<(KvStore, Option<Vec<LogPointer>>), KvError>)
        requires
            log_file_id < u64::MAX,
        ensures
            replay(log@) is Some <==> r is Ok,
            r matches Ok((s, compaction)) ==> s.wf() && s@ == contents(log@) && s.settled(
                log@,
                log_file_id,
                compaction,
            ),
            r matches Err(e) ==> e is Encoding,
    {
        let mut store = KvStore::replay_segment(log_file_id, log)?;
        let compaction = store.settle();
        Ok((store, compaction))
    }

    /// Sets `key` to `value`. The record in the result is appended to the
    /// active segment; where the segment then passes [`COMPACT_THRESHOLD`],
    /// the store has moved on to the next generation, and the result also
    /// holds the records to copy into it.
    pub fn set(&mut self, key: String, value: String) -> (w: Written)
        requires
            old(self).wf(),
            old(self).log().len() + encode_op(Op::Put(key@, value@)).len() <= u64::MAX,
            old(self).generation() < u64::MAX,
        ensures
            final(self).wf(),
            w.record@ == encode_op(Op::Put(key@, value@)),
            final(self)@ == old(self)@.insert(key@, value@),
            final(self).settled(old(self).log() + w.record@, old(self).generation(), w.compaction),
    {
        let record = self.append_put(key, value);
        let compaction = self.settle();
        Written { record, compaction }
    }

    /// Removes `key`: fails with `KeyNotFound`, appending nothing and changing
    /// nothing, exactly when the store does not hold `key`. Otherwise the
    /// record in the result is appended to the active segment, which is
    /// compacted as after [`KvStore::set`].
    pub fn remove(&mut self, key: String) -> (r: Result<Written, KvError>)
        requires
            old(self).wf(),
            old(self).log().len() + encode_op(Op::Remove(key@)).len() <= u64::MAX,
            old(self).generation() < u64::MAX,
        ensures
            final(self).wf(),
            r is Err <==> !old(self)@.contains_key(key@),
            r matches Err(e) ==> e is KeyNotFound && final(self).log() == old(self).log()
                && final(self).index() == old(self).index() && final(self).generation() == old(
                self,
            ).generation(),
            r matches Ok(w) ==> w.record@ == encode_op(Op::Remove(key@)) && final(self).settled(
                old(self).log() + w.record@,
                old(self).generation(),
                w.compaction,
            ),
            final(self)@ == old(self)@.remove(key@),
    {
        match self.append_remove(key) {
            Ok(record) => {
                let compaction = self.settle();
                Ok(Written { record, compaction })
            },
            Err(e) => Err(e),
        }
    }

    /// The value of `key`. Where the store holds `key`, `read` is handed the
    /// place of its record in the active segment and returns those bytes; a
    /// failure of `read` is passed on.
    pub fn get<F: FnOnce(LogPointer) -> Result<Vec<u8>, KvError>>(&self, key: &str, read: F) -> (r:
        Result<Option<String>, KvError>)
        requires
            self.wf(),
            forall|p: LogPointer| read.requires((p,)),
        ensures
            !self@.contains_key(key@) ==> r matches Ok(None),
            self@.contains_key(key@) ==> exists|b: Result<Vec<u8>, KvError>|
                #[trigger] read.ensures((self.index()[key@],), b) && (b is Err ==> r is Err) && (
                b matches Ok(bytes) ==> (bytes@ == self.log().subrange(
                    self.index()[key@].offset as int,
                    self.index()[key@].offset + self.index()[key@].len,
                ) ==> (r matches Ok(Some(v)) && v@ == self@[key@]))),
    {
        match self.locate(key) {
            None => Ok(None),
            Some(p) => {
                let b = read(p);
                match b {
                    Ok(bytes) => {
                        proof {
                            if bytes@ == self.log().subrange(p.offset as int, p.offset + p.len) {
                                lemma_decode_encode(Op::Put(key@, self@[key@]), Seq::empty());
                                assert(bytes@ =~= encode_op(Op::Put(key@, self@[key@])) + Seq::empty());
                            }
                        }
                        let v = read_value(bytes.as_slice());
                        match v {
                            Ok(s) => Ok(Some(s)),
                            Err(e) => Err(e),
                        }
                    },
                    Err(e) => Err(e),
                }
            },
        }
    }

    /// Moves the store to a fresh segment of the next generation that holds
    /// one `Put` record per live key. Returns, in order, the records of the
    /// old segment that the caller copies, byte for byte, into the new one
    /// before it deletes the old segment.
    pub fn compact(&mut self) -> (plan: Vec<LogPointer>)
        requires
            old(self).wf(),
            old(self).generation() < u64::MAX,
        ensures
            final(self).wf(),
            final(self).generation() == old(self).generation() + 1,
            final(self)@ == old(self)@,
            final(self).order() == old(self).order(),
            final(self).log() == compacted(old(self).order(), old(self)@),
            plan@.len() == old(self).order().len(),
            forall|i: int|
                0 <= i < plan@.len() ==> #[trigger] plan@[i] == old(self).index()[old(
                    self,
                ).order()[i]],
            final(self).log() == copied(old(self).log(), plan@),
            old(self).order().no_duplicates(),
            forall|k: Seq<char>| old(self)@.contains_key(k) <==> old(self).order().contains(k),
            final(self).compacted_from(old(self).log(), old(self).generation(), plan@),
    {
        proof {
            self.lemma_facts();
            self.index.lemma_order();
        }
        let ghost old_log = self.log@;
        let ghost idx = self.index@;
        let ghost m = self@;
        let ghost o = self.order();
        let ghost ps = self.index.pointers();
        let n = self.index.len();
        let mut plan: Vec<LogPointer> = Vec::new();
        let mut size: u64 = 0;
        let ghost mut new_log: Seq<u8> = Seq::empty();
        proof {
            lemma_len_sum_prefix(ps, 0);
            assert(o.take(0) =~= Seq::<Seq<char>>::empty());
            assert(ps.take(0) =~= Seq::<LogPointer>::empty());
            assert(self.index@.restrict(o.take(0).to_set()) =~= Map::empty());
        }
        let mut i: usize = 0;
        while i < n
            invariant
                self.index.wf(),
                self.log_file_id == old(self).log_file_id,
                self.index.order() == o,
                n == o.len(),
                n == ps.len(),
                i <= n,
                replay(old_log) == Some(idx),
                old_log.len() <= u64::MAX,
                len_sum(ps) <= old_log.len(),
                m == contents(old_log),
                forall|j: int| 0 <= j < n ==> #[trigger] ps[j] == idx[o[j]],
                forall|j: int| 0 <= j < n ==> idx.contains_key(#[trigger] o[j]),
                self.index.pointers().len() == n,
                self.index.total() == len_sum(ps),
                forall|j: int| i <= j < n ==> #[trigger] self.index.pointers()[j] == ps[j],
                size == new_log.len(),
                size == len_sum(ps.take(i as int)),
                new_log == compacted(o.take(i as int), m),
                new_log == copied(old_log, plan@),
                plan@ == ps.take(i as int),
                replay(new_log) == Some(self.index@.restrict(o.take(i as int).to_set())),
            decreases n - i,
        {
            proof {
                self.index.lemma_order();
            }
            let p = self.index.pointer_at(i);
            let ghost k = o[i as int];
            let ghost rec = old_log.subrange(p.offset as int, p.offset + p.len);
            let ghost before = self.index@;
            proof {
                assert(self.index.pointers()[i as int] == ps[i as int]);
                assert(p == ps[i as int]);
                lemma_len_sum_prefix(ps, i + 1);
                assert(ps.take(i + 1).drop_last() =~= ps.take(i as int));
                assert(ps.take(i + 1).last() == ps[i as int]);
                lemma_len_sum_update(self.index.pointers(), i as int, q_of(size, p));
                lemma_compact_step(old_log, idx, o, ps, i as int, new_log);
                lemma_take_to_set(o, i as int);
            }
            let q = LogPointer { offset: size, len: p.len };
            assert(q == q_of(size, p));
            self.index.set_pointer_at(i, q);
            plan.push(p);
            size = size + p.len;
            proof {
                new_log = new_log + rec;
                assert(plan@ =~= ps.take(i + 1));
                assert(self.index@.restrict(o.take(i + 1).to_set()) =~= before.restrict(
                    o.take(i as int).to_set(),
                ).insert(k, q));
            }
            i = i + 1;
        }
        proof {
            self.index.lemma_order();
            assert(o.take(n as int) =~= o);
            assert(ps.take(n as int) =~= ps);
            assert(self.index@.restrict(o.to_set()) =~= self.index@);
            lemma_compaction_preserves(o, m);
        }
        self.log_file_id = self.log_file_id + 1;
        self.log_file_size = size;
        self.log = Ghost(new_log);
        plan
    }
}

/// The value in a `Put` record read back from a segment: `UnKnownCommandType`
/// where the record is a `Remove`, and `Encoding` where `record` is not
/// exactly one well-formed record.
pub fn read_value(record: &[u8]) -> (r: Result<String, KvError>)
    ensures
        match decode_op(record@) {
            Some((Op::Put(_, v), n)) => if n == record@.len() {
                r matches Ok(s) && s@ == v
            } else {
                r matches Err(e) && e is Encoding
            },
            Some((Op::Remove(_), n)) => if n == record@.len() {
                r matches Err(e) && e is UnKnownCommandType
            } else {
                r matches Err(e) && e is Encoding
            },
            None => r matches Err(e) && e is Encoding,
        },
{
    match decode_command(record) {
        Some((cmd, n)) => {
            if n != record.len() {
                return Err(KvError::Encoding("trailing bytes after a log record".to_string()));
            }
            match cmd {
                Command::Put { value, .. } => Ok(value),
                Command::Remove { .. } => Err(KvError::UnKnownCommandType),
            }
        },
        None => Err(KvError::Encoding("malformed log record".to_string())),
    }
}

} // verus!
