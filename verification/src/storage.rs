//! The frame store: a write buffer (the memtable, whose frames are also in the
//! write-ahead log), a list of immutable sorted tables, and the device
//! registry. Writing, flushing the buffer into a table, merging the tables
//! and answering range queries are decided here; keeping the log and the
//! tables on disk is left to the caller, guided by each write's outcome.

use vstd::prelude::*;
use vstd::seq_lib::*;
use crate::config::{opt_view, StorageConfig};
use crate::frames::{frame_application, frame_dev_eui, frame_device_name, frame_time, Frame};
use crate::lorawan::DevEui;
use crate::registry::{registered, DeviceRecord, DeviceRegistry};

verus! {

broadcast use vstd::seq_lib::group_seq_properties;

pub open spec fn deref_all(v: Seq<&Frame>) -> Seq<Frame> {
    v.map_values(|r: &Frame| *r)
}

/// Frames recorded at instant `t`.
pub open spec fn at_time(t: i64) -> spec_fn(Frame) -> bool {
    |f: Frame| frame_time(f) == t
}

pub open spec fn time_sorted(s: Seq<Frame>) -> bool {
    forall|i: int, j: int| 0 <= i < j < s.len() ==> frame_time(#[trigger] s[i]) <= frame_time(#[trigger] s[j])
}

/// `r` is `s` stably sorted by instant: ordered by instant, and the frames
/// of each instant come in the order they had in `s`.
pub open spec fn stably_sorted_from(r: Seq<Frame>, s: Seq<Frame>) -> bool {
    &&& time_sorted(r)
    &&& forall|t: i64| #[trigger] r.filter(at_time(t)) == s.filter(at_time(t))
}

/// A query's selection: frames of `dev`, recorded within the bounds, both
/// bounds included.
pub open spec fn in_range(dev: Seq<char>, start: Option<i64>, end: Option<i64>) -> spec_fn(Frame) -> bool {
    |f: Frame|
        frame_dev_eui(f) == dev && (match start {
            Some(s) => s <= frame_time(f),
            None => true,
        }) && (match end {
            Some(e) => frame_time(f) <= e,
            None => true,
        })
}

pub proof fn lemma_filter_none<A>(s: Seq<A>, p: spec_fn(A) -> bool)
    requires
        forall|i: int| 0 <= i < s.len() ==> !p(#[trigger] s[i]),
    ensures
        s.filter(p) == Seq::<A>::empty(),
    decreases s.len(),
{
    if s.len() == 0 {
        reveal(Seq::filter);
        assert(s.filter(p) =~= Seq::<A>::empty());
    } else {
        let d = s.drop_last();
        assert forall|i: int| 0 <= i < d.len() implies !p(#[trigger] d[i]) by {
            assert(d[i] == s[i]);
        }
        lemma_filter_none(d, p);
        assert(d.push(s.last()) =~= s);
        d.lemma_filter_push(s.last(), p);
    }
}

/// Sorts frames by instant, keeping the order of frames of equal instant.
pub fn sort_by_time<'a>(input: Vec<&'a Frame>) -> (out: Vec<&'a Frame>)
    ensures
        stably_sorted_from(deref_all(out@), deref_all(input@)),
{
    let ghost ins = deref_all(input@);
    let mut out: Vec<&'a Frame> = Vec::new();
    let mut i: usize = 0;
    assert(ins.take(0) =~= Seq::<Frame>::empty());
    assert(deref_all(out@) =~= Seq::<Frame>::empty());
    while i < input.len()
        invariant
            0 <= i <= input@.len(),
            ins == deref_all(input@),
            time_sorted(deref_all(out@)),
            forall|t: i64| #[trigger] deref_all(out@).filter(at_time(t)) == ins.take(i as int).filter(at_time(t)),
        decreases input@.len() - i,
    {
        let x = input[i];
        let tx = x.timestamp();
        let ghost o = deref_all(out@);
        let mut p: usize = 0;
        while p < out.len() && out[p].timestamp() <= tx
            invariant
                0 <= p <= out@.len(),
                o == deref_all(out@),
                time_sorted(o),
                tx == frame_time(*x),
                forall|j: int| 0 <= j < p ==> frame_time(#[trigger] o[j]) <= tx,
            decreases out@.len() - p,
        {
            p = p + 1;
        }
        assert forall|j: int| p <= j < o.len() implies frame_time(#[trigger] o[j]) > tx by {
            assert(frame_time(o[p as int]) > tx);
            if j > p {
                assert(frame_time(o[p as int]) <= frame_time(o[j]));
            }
        }
        out.insert(p, x);
        let ghost o2 = deref_all(out@);
        assert(o2 =~= o.take(p as int) + seq![*x] + o.skip(p as int));
        assert(ins.take(i + 1) =~= ins.take(i as int).push(*x));
        assert(o.take(p as int) + o.skip(p as int) =~= o);
        assert(time_sorted(o2)) by {
            assert forall|a: int, b: int| 0 <= a < b < o2.len() implies frame_time(#[trigger] o2[a])
                <= frame_time(#[trigger] o2[b]) by {
                if b < p {
                    assert(o2[a] == o[a] && o2[b] == o[b]);
                } else if b == p {
                    assert(o2[a] == o[a]);
                } else if a == p {
                    assert(o2[b] == o[b - 1]);
                } else if a < p {
                    assert(o2[a] == o[a] && o2[b] == o[b - 1]);
                } else {
                    assert(o2[a] == o[a - 1] && o2[b] == o[b - 1]);
                }
            }
        }
        assert forall|t: i64| #[trigger] o2.filter(at_time(t)) == ins.take(i + 1).filter(at_time(t)) by {
            let pr = at_time(t);
            let lo = o.take(p as int);
            let hi = o.skip(p as int);
            Seq::filter_distributes_over_add(lo + seq![*x], hi, pr);
            Seq::filter_distributes_over_add(lo, seq![*x], pr);
            Seq::filter_distributes_over_add(lo, hi, pr);
            ins.take(i as int).lemma_filter_push(*x, pr);
            lo.lemma_filter_push(*x, pr);
            assert(lo + seq![*x] =~= lo.push(*x));
            if t == tx {
                assert forall|j: int| 0 <= j < hi.len() implies !pr(#[trigger] hi[j]) by {
                    assert(hi[j] == o[p + j]);
                }
                lemma_filter_none(hi, pr);
                assert(lo.filter(pr) + hi.filter(pr) =~= lo.filter(pr));
                assert(lo.filter(pr).push(*x) + hi.filter(pr) =~= lo.filter(pr).push(*x));
            } else {
                assert(lo.push(*x).filter(pr) == lo.filter(pr));
            }
        }
        i = i + 1;
    }
    assert(ins.take(input@.len() as int) =~= ins);
    out
}

proof fn lemma_filter_count<A>(s: Seq<A>, p: spec_fn(A) -> bool, x: A)
    requires
        p(x),
    ensures
        s.filter(p).to_multiset().count(x) == s.to_multiset().count(x),
    decreases s.len(),
{
    broadcast use vstd::multiset::group_multiset_axioms;

    if s.len() == 0 {
        reveal(Seq::filter);
        assert(s.filter(p) =~= Seq::<A>::empty());
        assert(s =~= Seq::<A>::empty());
    } else {
        let d = s.drop_last();
        let l = s.last();
        lemma_filter_count(d, p, x);
        assert(d.push(l) =~= s);
        d.lemma_filter_push(l, p);
        d.to_multiset_ensures();
        d.filter(p).to_multiset_ensures();
    }
}

/// A stable sort by instant is a rearrangement: the result holds exactly the
/// frames it was given, each as often.
pub proof fn lemma_stable_sort_keeps_frames(r: Seq<Frame>, s: Seq<Frame>)
    requires
        stably_sorted_from(r, s),
    ensures
        r.to_multiset() == s.to_multiset(),
{
    assert forall|x: Frame| r.to_multiset().count(x) == s.to_multiset().count(x) by {
        let t = frame_time(x);
        lemma_filter_count(r, at_time(t), x);
        lemma_filter_count(s, at_time(t), x);
        assert(r.filter(at_time(t)) == s.filter(at_time(t)));
    }
    assert(r.to_multiset() =~= s.to_multiset());
}

/// Read your writes: a stored frame is among the answers to a query for its
/// device with no time bounds.
pub proof fn lemma_stored_frame_is_found(engine: StorageEngine, f: Frame, answer: Seq<Frame>)
    requires
        engine.stored().contains(f),
        stably_sorted_from(answer, engine.stored().filter(in_range(frame_dev_eui(f), None, None))),
    ensures
        answer.contains(f),
{
    let sel = in_range(frame_dev_eui(f), None, None);
    let s = engine.stored();
    lemma_stable_sort_keeps_frames(answer, s.filter(sel));
    s.to_multiset_ensures();
    lemma_filter_count(s, sel, f);
    answer.to_multiset_ensures();
}

/// What a write did beyond buffering the frame.
#[derive(Debug, PartialEq, Eq, Structural)]
pub enum WriteOutcome {
    /// The frame is in the memtable.
    Buffered,
    /// The memtable became the newest table and was emptied.
    Flushed,
    /// The memtable became a table, and then all tables were merged into one.
    FlushedAndCompacted,
}

pub struct StorageEngine {
    config: StorageConfig,
    memtable: Vec<Frame>,
    memtable_bytes: usize,
    sstables: Vec<Vec<Frame>>,
    device_registry: DeviceRegistry,
}

/// The frames a store holds with memtable `mem` and tables `tables`: the
/// memtable's, then each table's in turn.
pub open spec fn stored_of(mem: Seq<Frame>, tables: Seq<Seq<Frame>>) -> Seq<Frame> {
    mem + tables.flatten()
}

/// What each table yields to a scan with `p`, table by table.
pub open spec fn table_scans(tables: Seq<Seq<Frame>>, p: spec_fn(Frame) -> bool) -> Seq<Seq<Frame>> {
    tables.map_values(|t: Seq<Frame>| t.filter(p))
}

pub open spec fn tables_view(t: Seq<Vec<Frame>>) -> Seq<Seq<Frame>> {
    t.map_values(|v: Vec<Frame>| v@)
}

/// `rec` is what a write of `frame` at `seen_at` records of its device: the
/// frame's device, its device name (uplinks carry one), its application (the
/// empty text when it names none) and the instant.
pub open spec fn record_of(rec: DeviceRecord, frame: Frame, seen_at: i64) -> bool {
    &&& rec.dev_eui@ == frame_dev_eui(frame)
    &&& opt_view(rec.device_name) == frame_device_name(frame)
    &&& rec.application_id@ == match frame_application(frame) {
        Some(a) => a,
        None => Seq::<char>::empty(),
    }
    &&& rec.last_seen == Some(seen_at)
}

/// The bytes past which the memtable is flushed.
pub open spec fn flush_limit(memtable_size_mb: usize) -> int {
    memtable_size_mb * 1048576
}

impl StorageEngine {
    /// The memtable's frames, oldest first.
    pub closed spec fn spec_memtable(&self) -> Seq<Frame> {
        self.memtable@
    }

    /// The tables' frames, oldest table first.
    pub closed spec fn spec_tables(&self) -> Seq<Seq<Frame>> {
        tables_view(self.sstables@)
    }

    pub closed spec fn spec_memtable_bytes(&self) -> nat {
        self.memtable_bytes as nat
    }

    pub closed spec fn spec_memtable_size_mb(&self) -> usize {
        self.config.memtable_size_mb
    }

    pub closed spec fn spec_compaction_threshold(&self) -> usize {
        self.config.compaction_threshold
    }

    pub closed spec fn spec_devices(&self) -> Seq<DeviceRecord> {
        self.device_registry@
    }

    /// Every stored frame: the memtable's, then each table's in turn.
    pub open spec fn stored(&self) -> Seq<Frame> {
        stored_of(self.spec_memtable(), self.spec_tables())
    }

    /// Opens the store on what recovery found: the frames replayed from the
    /// write-ahead log (taking `recovered_bytes` there) and the tables on
    /// disk. The device registry starts empty.
    pub fn new(
        config: StorageConfig,
        recovered: Vec<Frame>,
        recovered_bytes: usize,
        sstables: Vec<Vec<Frame>>,
    ) -> (r: StorageEngine)
        ensures
            r.spec_memtable() == recovered@,
            r.spec_tables() == tables_view(sstables@),
            r.spec_memtable_bytes() == recovered_bytes,
            r.spec_memtable_size_mb() == config.memtable_size_mb,
            r.spec_compaction_threshold() == config.compaction_threshold,
            r.spec_devices() == Seq::<DeviceRecord>::empty(),
    {
        StorageEngine {
            config,
            memtable: recovered,
            memtable_bytes: recovered_bytes,
            sstables,
            device_registry: DeviceRegistry::new(),
        }
    }

    pub fn device_registry(&self) -> (r: &DeviceRegistry)
        ensures
            r@ == self.spec_devices(),
    {
        &self.device_registry
    }

    /// The frames of the write-ahead log, which are the memtable's.
    pub fn memtable(&self) -> (r: &Vec<Frame>)
        ensures
            r@ == self.spec_memtable(),
    {
        &self.memtable
    }

    pub fn sstables(&self) -> (r: &Vec<Vec<Frame>>)
        ensures
            tables_view(r@) == self.spec_tables(),
    {
        &self.sstables
    }

    /// Moves every table's frames, in order, into a single table.
    fn compact(&mut self)
        ensures
            final(self).spec_tables() == seq![old(self).spec_tables().flatten()],
            final(self).stored() == old(self).stored(),
            final(self).spec_memtable() == old(self).spec_memtable(),
            final(self).spec_memtable_bytes() == old(self).spec_memtable_bytes(),
            final(self).config == old(self).config,
            final(self).spec_devices() == old(self).spec_devices(),
    {
        let ghost all = tables_view(self.sstables@);
        let count = self.sstables.len();
        assert(all.len() == count);
        let mut old_tables: Vec<Vec<Frame>> = Vec::new();
        old_tables.append(&mut self.sstables);
        let mut merged: Vec<Frame> = Vec::new();
        assert(all.skip(0) =~= all);
        assert(all.take(0).flatten() =~= Seq::<Frame>::empty());
        let mut k: usize = 0;
        while old_tables.len() > 0
            invariant
                all.len() == k + old_tables@.len(),
                all.len() <= usize::MAX,
                tables_view(old_tables@) == all.skip(k as int),
                merged@ == all.take(k as int).flatten(),
            decreases old_tables@.len(),
        {
            let ghost before = tables_view(old_tables@);
            let mut t = old_tables.remove(0);
            assert(t@ == all[k as int]);
            assert(tables_view(old_tables@) =~= all.skip(k + 1));
            merged.append(&mut t);
            assert(all.take(k + 1) =~= all.take(k as int).push(all[k as int]));
            proof { all.take(k as int).lemma_flatten_push(all[k as int]); }
            k = k + 1;
        }
        assert(all.take(k as int) =~= all);
        self.sstables.push(merged);
        assert(tables_view(self.sstables@) =~= seq![all.flatten()]);
        proof {
            lemma_merge_keeps_frames(self.memtable@, all);
        }
    }

    /// Moves the memtable's frames into a new newest table; merges the
    /// tables when there are at least `compaction_threshold` of them.
    fn flush_memtable(&mut self) -> (compacted: bool)
        ensures
            final(self).spec_memtable() == Seq::<Frame>::empty(),
            final(self).spec_memtable_bytes() == 0,
            final(self).stored().to_multiset() == old(self).stored().to_multiset(),
            final(self).config == old(self).config,
            final(self).spec_devices() == old(self).spec_devices(),
            compacted == (old(self).spec_tables().len() + 1 >= old(self).config.compaction_threshold),
            compacted ==> final(self).spec_tables() == seq![
                old(self).spec_tables().push(old(self).spec_memtable()).flatten(),
            ],
            !compacted ==> final(self).spec_tables() == old(self).spec_tables().push(
                old(self).spec_memtable(),
            ),
    {
        let ghost tables_before = tables_view(self.sstables@);
        let mut table: Vec<Frame> = Vec::new();
        table.append(&mut self.memtable);
        self.memtable_bytes = 0;
        self.sstables.push(table);
        assert(tables_view(self.sstables@) =~= tables_before.push(old(self).memtable@));
        proof {
            lemma_flush_keeps_frames(old(self).memtable@, tables_before);
        }
        if self.sstables.len() >= self.config.compaction_threshold {
            self.compact();
            true
        } else {
            false
        }
    }

    /// Records in the device registry that `frame`'s device was heard from
    /// at `seen_at`, storing nothing. A write does this first; a write whose
    /// frame cannot be logged still leaves its device registered.
    pub fn register_device(&mut self, frame: &Frame, seen_at: i64)
        ensures
            exists|rec: DeviceRecord|
                record_of(rec, *frame, seen_at) && final(self).spec_devices() == registered(
                    old(self).spec_devices(),
                    rec,
                ),
            final(self).spec_memtable() == old(self).spec_memtable(),
            final(self).spec_tables() == old(self).spec_tables(),
            final(self).spec_memtable_bytes() == old(self).spec_memtable_bytes(),
            final(self).spec_memtable_size_mb() == old(self).spec_memtable_size_mb(),
            final(self).spec_compaction_threshold() == old(self).spec_compaction_threshold(),
    {
        let dev = frame.dev_eui().as_str().to_owned();
        let name = match frame.device_name() {
            Some(n) => Some(n.clone()),
            None => None,
        };
        let app = match frame.application_id() {
            Some(a) => a.as_str().to_owned(),
            None => String::new(),
        };
        let ghost rec = DeviceRecord { dev_eui: dev, device_name: name, application_id: app, last_seen: Some(seen_at) };
        assert(record_of(rec, *frame, seen_at));
        self.device_registry.register_or_update(dev, name, app, seen_at);
    }

    /// Stores `frame`, whose encoded form takes `encoded_len` bytes in the
    /// write-ahead log, heard at `seen_at`: registers its device, buffers it,
    /// and flushes the memtable once it holds the configured size.
    pub fn write(&mut self, frame: Frame, encoded_len: usize, seen_at: i64) -> (outcome: WriteOutcome)
        ensures
            exists|rec: DeviceRecord|
                record_of(rec, frame, seen_at) && final(self).spec_devices() == registered(
                    old(self).spec_devices(),
                    rec,
                ),
            final(self).stored().to_multiset() == old(self).stored().to_multiset().insert(frame),
            final(self).stored().contains(frame),
            final(self).spec_memtable_size_mb() == old(self).spec_memtable_size_mb(),
            final(self).spec_compaction_threshold() == old(self).spec_compaction_threshold(),
            ({
                let bytes = if old(self).spec_memtable_bytes() + encoded_len > usize::MAX {
                    usize::MAX as int
                } else {
                    old(self).spec_memtable_bytes() + encoded_len
                };
                let buffered = old(self).spec_memtable().push(frame);
                let tables = old(self).spec_tables();
                if bytes < flush_limit(old(self).spec_memtable_size_mb()) {
                    &&& outcome == WriteOutcome::Buffered
                    &&& final(self).spec_memtable() == buffered
                    &&& final(self).spec_memtable_bytes() == bytes
                    &&& final(self).spec_tables() == tables
                } else if tables.len() + 1 >= old(self).spec_compaction_threshold() {
                    &&& outcome == WriteOutcome::FlushedAndCompacted
                    &&& final(self).spec_memtable() == Seq::<Frame>::empty()
                    &&& final(self).spec_memtable_bytes() == 0
                    &&& final(self).spec_tables() == seq![tables.push(buffered).flatten()]
                } else {
                    &&& outcome == WriteOutcome::Flushed
                    &&& final(self).spec_memtable() == Seq::<Frame>::empty()
                    &&& final(self).spec_memtable_bytes() == 0
                    &&& final(self).spec_tables() == tables.push(buffered)
                }
            }),
    {
        self.register_device(&frame, seen_at);
        self.memtable.push(frame);
        self.memtable_bytes = self.memtable_bytes.saturating_add(encoded_len);
        let limit: u128 = (self.config.memtable_size_mb as u128) * 1048576;
        let ghost mem0 = old(self).memtable@;
        let ghost tabs0 = tables_view(old(self).sstables@);
        proof {
            lemma_multiset_commutative(mem0.push(frame), tabs0.flatten());
            lemma_multiset_commutative(mem0, tabs0.flatten());
            mem0.to_multiset_ensures();
            tabs0.lemma_flatten_push(mem0.push(frame));
            lemma_multiset_commutative(tabs0.flatten(), mem0.push(frame));
            seq![tabs0.push(mem0.push(frame)).flatten()].lemma_flatten_singleton();
            assert(Seq::<Frame>::empty() + tabs0.push(mem0.push(frame)).flatten() =~= tabs0.push(mem0.push(frame)).flatten());
            assert(Seq::<Frame>::empty() + seq![tabs0.push(mem0.push(frame)).flatten()].flatten() =~= tabs0.push(mem0.push(frame)).flatten());
            lemma_seq_union_to_multiset_commutative(mem0.push(frame), tabs0.flatten());
        }
        let outcome = if (self.memtable_bytes as u128) < limit {
            WriteOutcome::Buffered
        } else if self.flush_memtable() {
            WriteOutcome::FlushedAndCompacted
        } else {
            WriteOutcome::Flushed
        };
        proof {
            broadcast use vstd::multiset::group_multiset_axioms;
            self.stored().to_multiset_ensures();
        }
        outcome
    }

    /// The stored frames of `dev_eui` recorded within `start..=end` (a missing
    /// bound does not limit), ordered by instant; frames of equal instant
    /// keep their stored order.
    pub fn query<'a>(&'a self, dev_eui: &DevEui, start: Option<i64>, end: Option<i64>) -> (r: Vec<&'a Frame>)
        ensures
            stably_sorted_from(deref_all(r@), self.stored().filter(in_range(dev_eui@, start, end))),
            forall|i: int|
                0 <= i < r@.len() ==> {
                    &&& frame_dev_eui(*#[trigger] r@[i]) == dev_eui@
                    &&& (start matches Some(s) ==> s <= frame_time(*r@[i]))
                    &&& (end matches Some(e) ==> frame_time(*r@[i]) <= e)
                },
    {
        let ghost pred = in_range(dev_eui@, start, end);
        let ghost mem = self.memtable@;
        let ghost tabs = tables_view(self.sstables@);
        let mut found: Vec<&'a Frame> = Vec::new();
        let mut i: usize = 0;
        assert(mem.take(0).filter(pred) =~= Seq::<Frame>::empty());
        assert(deref_all(found@) =~= Seq::<Frame>::empty());
        while i < self.memtable.len()
            invariant
                0 <= i <= mem.len(),
                mem == self.memtable@,
                pred == in_range(dev_eui@, start, end),
                deref_all(found@) == mem.take(i as int).filter(pred),
            decreases mem.len() - i,
        {
            let f = &self.memtable[i];
            assert(mem.take(i + 1) =~= mem.take(i as int).push(*f));
            proof { mem.take(i as int).lemma_filter_push(*f, pred); }
            if in_range_exec(f, dev_eui, start, end) {
                found.push(f);
                assert(deref_all(found@) =~= mem.take(i as int).filter(pred).push(*f));
            }
            i = i + 1;
        }
        assert(mem.take(mem.len() as int) =~= mem);
        let mut k: usize = 0;
        assert(tabs.take(0).flatten() =~= Seq::<Frame>::empty());
        assert(mem + tabs.take(0).flatten() =~= mem);
        while k < self.sstables.len()
            invariant
                0 <= k <= tabs.len(),
                mem == self.memtable@,
                tabs == tables_view(self.sstables@),
                pred == in_range(dev_eui@, start, end),
                deref_all(found@) == (mem + tabs.take(k as int).flatten()).filter(pred),
            decreases tabs.len() - k,
        {
            let table = &self.sstables[k];
            let ghost prefix = mem + tabs.take(k as int).flatten();
            assert(table@ == tabs[k as int]);
            let mut j: usize = 0;
            assert(prefix + table@.take(0) =~= prefix);
            while j < table.len()
                invariant
                    0 <= j <= table@.len(),
                    pred == in_range(dev_eui@, start, end),
                    deref_all(found@) == (prefix + table@.take(j as int)).filter(pred),
                decreases table@.len() - j,
            {
                let f = &table[j];
                assert(prefix + table@.take(j + 1) =~= (prefix + table@.take(j as int)).push(*f));
                proof { (prefix + table@.take(j as int)).lemma_filter_push(*f, pred); }
                if in_range_exec(f, dev_eui, start, end) {
                    found.push(f);
                    assert(deref_all(found@) =~= (prefix + table@.take(j as int)).filter(pred).push(*f));
                }
                j = j + 1;
            }
            assert(table@.take(table@.len() as int) =~= table@);
            assert(tabs.take(k + 1) =~= tabs.take(k as int).push(tabs[k as int]));
            proof { tabs.take(k as int).lemma_flatten_push(tabs[k as int]); }
            assert(prefix + table@ =~= mem + tabs.take(k + 1).flatten());
            k = k + 1;
        }
        assert(tabs.take(tabs.len() as int) =~= tabs);
        let sorted = sort_by_time(found);
        proof {
            lemma_answer_frames_belong(self.stored(), dev_eui@, start, end, deref_all(sorted@));
            assert forall|i: int| 0 <= i < sorted@.len() implies deref_all(sorted@)[i] == *sorted@[i] by {}
        }
        sorted
    }
}

/// Whether `f` is selected by a query for `dev_eui` within `start..=end`.
pub fn in_range_exec(f: &Frame, dev_eui: &DevEui, start: Option<i64>, end: Option<i64>) -> (r: bool)
    ensures
        r == in_range(dev_eui@, start, end)(*f),
{
    let d = f.dev_eui().as_str().to_owned();
    let want = dev_eui.as_str().to_owned();
    if !(d == want) {
        return false;
    }
    let t = f.timestamp();
    let after_start = match start {
        Some(s) => s <= t,
        None => true,
    };
    let before_end = match end {
        Some(e) => t <= e,
        None => true,
    };
    after_start && before_end
}

} // verus!

verus! {

proof fn lemma_filter_count_other<A>(s: Seq<A>, p: spec_fn(A) -> bool, x: A)
    requires
        !p(x),
    ensures
        s.filter(p).to_multiset().count(x) == 0,
{
    broadcast use vstd::multiset::group_multiset_axioms;

    s.filter(p).to_multiset_ensures();
    if s.filter(p).to_multiset().count(x) > 0 {
        let i = choose|i: int| 0 <= i < s.filter(p).len() && s.filter(p)[i] == x;
        s.lemma_filter_pred(p, i);
    }
}

/// Filtering two arrangements of the same frames gives arrangements of the
/// same frames.
proof fn lemma_filter_same_frames<A>(s1: Seq<A>, s2: Seq<A>, p: spec_fn(A) -> bool)
    requires
        s1.to_multiset() == s2.to_multiset(),
    ensures
        s1.filter(p).to_multiset() == s2.filter(p).to_multiset(),
{
    assert forall|x: A| s1.filter(p).to_multiset().count(x) == s2.filter(p).to_multiset().count(x) by {
        if p(x) {
            lemma_filter_count(s1, p, x);
            lemma_filter_count(s2, p, x);
        } else {
            lemma_filter_count_other(s1, p, x);
            lemma_filter_count_other(s2, p, x);
        }
    }
    assert(s1.filter(p).to_multiset() =~= s2.filter(p).to_multiset());
}

/// Two stores that hold the same frames, in whatever order, give every query
/// the same frames (frames of one instant may come in another order).
pub proof fn lemma_same_frames_same_answers(
    s1: Seq<Frame>,
    s2: Seq<Frame>,
    dev: Seq<char>,
    start: Option<i64>,
    end: Option<i64>,
    a1: Seq<Frame>,
    a2: Seq<Frame>,
)
    requires
        s1.to_multiset() == s2.to_multiset(),
        stably_sorted_from(a1, s1.filter(in_range(dev, start, end))),
        stably_sorted_from(a2, s2.filter(in_range(dev, start, end))),
    ensures
        a1.to_multiset() == a2.to_multiset(),
{
    let p = in_range(dev, start, end);
    lemma_stable_sort_keeps_frames(a1, s1.filter(p));
    lemma_stable_sort_keeps_frames(a2, s2.filter(p));
    lemma_filter_same_frames(s1, s2, p);
}

/// Flushing the memtable into a new newest table keeps the stored frames.
pub proof fn lemma_flush_keeps_frames(mem: Seq<Frame>, tables: Seq<Seq<Frame>>)
    ensures
        stored_of(Seq::<Frame>::empty(), tables.push(mem)).to_multiset() == stored_of(mem, tables).to_multiset(),
{
    tables.lemma_flatten_push(mem);
    assert(Seq::<Frame>::empty() + tables.push(mem).flatten() =~= tables.flatten() + mem);
    lemma_seq_union_to_multiset_commutative(tables.flatten(), mem);
}

/// Merging the tables into one keeps the stored frames and their order.
pub proof fn lemma_merge_keeps_frames(mem: Seq<Frame>, tables: Seq<Seq<Frame>>)
    ensures
        stored_of(mem, seq![tables.flatten()]) == stored_of(mem, tables),
{
    seq![tables.flatten()].lemma_flatten_singleton();
}

/// A flush leaves every query with the same frames.
pub proof fn lemma_flush_keeps_answers(
    mem: Seq<Frame>,
    tables: Seq<Seq<Frame>>,
    dev: Seq<char>,
    start: Option<i64>,
    end: Option<i64>,
    before: Seq<Frame>,
    after: Seq<Frame>,
)
    requires
        stably_sorted_from(before, stored_of(mem, tables).filter(in_range(dev, start, end))),
        stably_sorted_from(
            after,
            stored_of(Seq::<Frame>::empty(), tables.push(mem)).filter(in_range(dev, start, end)),
        ),
    ensures
        after.to_multiset() == before.to_multiset(),
{
    lemma_flush_keeps_frames(mem, tables);
    lemma_same_frames_same_answers(
        stored_of(Seq::<Frame>::empty(), tables.push(mem)),
        stored_of(mem, tables),
        dev,
        start,
        end,
        after,
        before,
    );
}

proof fn lemma_filter_at_time_push(s: Seq<Frame>, x: Frame, t: i64)
    ensures
        s.push(x).filter(at_time(t)) == if frame_time(x) == t {
            s.filter(at_time(t)).push(x)
        } else {
            s.filter(at_time(t))
        },
{
    s.lemma_filter_push(x, at_time(t));
}

/// A time-sorted sequence is fixed by the frames of each instant, in order.
proof fn lemma_sorted_by_groups(r1: Seq<Frame>, r2: Seq<Frame>)
    requires
        time_sorted(r1),
        time_sorted(r2),
        forall|t: i64| #[trigger] r1.filter(at_time(t)) == r2.filter(at_time(t)),
    ensures
        r1 == r2,
    decreases r1.len() + r2.len(),
{
    if r1.len() == 0 && r2.len() == 0 {
        assert(r1 =~= r2);
    } else if r1.len() == 0 {
        let x = r2.last();
        let t = frame_time(x);
        r2.lemma_filter_contains(at_time(t), r2.len() - 1);
        reveal(Seq::filter);
        assert(r1.filter(at_time(t)) =~= Seq::<Frame>::empty());
        assert(r2.filter(at_time(t)).contains(x));
    } else if r2.len() == 0 {
        let x = r1.last();
        let t = frame_time(x);
        r1.lemma_filter_contains(at_time(t), r1.len() - 1);
        reveal(Seq::filter);
        assert(r2.filter(at_time(t)) =~= Seq::<Frame>::empty());
        assert(r1.filter(at_time(t)).contains(x));
    } else {
        let x1 = r1.last();
        let x2 = r2.last();
        let t1 = frame_time(x1);
        let t2 = frame_time(x2);
        r1.lemma_filter_contains(at_time(t1), r1.len() - 1);
        r2.lemma_filter_contains(at_time(t2), r2.len() - 1);
        assert(r2.filter(at_time(t1)).contains(x1));
        r2.lemma_filter_contains_rev(at_time(t1), x1);
        let i2 = choose|i: int| 0 <= i < r2.len() && r2[i] == x1;
        assert(frame_time(r2[i2]) <= frame_time(r2[r2.len() - 1]));
        assert(r1.filter(at_time(t2)).contains(x2));
        r1.lemma_filter_contains_rev(at_time(t2), x2);
        let i1 = choose|i: int| 0 <= i < r1.len() && r1[i] == x2;
        assert(frame_time(r1[i1]) <= frame_time(r1[r1.len() - 1]));
        assert(t1 == t2);
        let d1 = r1.drop_last();
        let d2 = r2.drop_last();
        assert(d1.push(x1) =~= r1);
        assert(d2.push(x2) =~= r2);
        lemma_filter_at_time_push(d1, x1, t1);
        lemma_filter_at_time_push(d2, x2, t1);
        assert(x1 == r1.filter(at_time(t1)).last());
        assert(x2 == r2.filter(at_time(t1)).last());
        assert(x1 == x2);
        assert forall|t: i64| #[trigger] d1.filter(at_time(t)) == d2.filter(at_time(t)) by {
            lemma_filter_at_time_push(d1, x1, t);
            lemma_filter_at_time_push(d2, x2, t);
            if t == t1 {
                assert(d1.filter(at_time(t)) =~= r1.filter(at_time(t)).drop_last());
                assert(d2.filter(at_time(t)) =~= r2.filter(at_time(t)).drop_last());
            }
        }
        assert(time_sorted(d1)) by {
            assert forall|i: int, j: int| 0 <= i < j < d1.len() implies frame_time(#[trigger] d1[i])
                <= frame_time(#[trigger] d1[j]) by {
                assert(d1[i] == r1[i] && d1[j] == r1[j]);
            }
        }
        assert(time_sorted(d2)) by {
            assert forall|i: int, j: int| 0 <= i < j < d2.len() implies frame_time(#[trigger] d2[i])
                <= frame_time(#[trigger] d2[j]) by {
                assert(d2[i] == r2[i] && d2[j] == r2[j]);
            }
        }
        lemma_sorted_by_groups(d1, d2);
    }
}

/// A stable sort by instant has one result: asking the same query of the
/// same frames twice gives the same answer.
pub proof fn lemma_stable_sort_unique(r1: Seq<Frame>, r2: Seq<Frame>, s: Seq<Frame>)
    requires
        stably_sorted_from(r1, s),
        stably_sorted_from(r2, s),
    ensures
        r1 == r2,
{
    lemma_sorted_by_groups(r1, r2);
}

/// A merge of the tables leaves every query's answer as it was.
pub proof fn lemma_merge_keeps_answers(
    mem: Seq<Frame>,
    tables: Seq<Seq<Frame>>,
    dev: Seq<char>,
    start: Option<i64>,
    end: Option<i64>,
    before: Seq<Frame>,
    after: Seq<Frame>,
)
    requires
        stably_sorted_from(before, stored_of(mem, tables).filter(in_range(dev, start, end))),
        stably_sorted_from(after, stored_of(mem, seq![tables.flatten()]).filter(in_range(dev, start, end))),
    ensures
        after == before,
{
    lemma_merge_keeps_frames(mem, tables);
    lemma_stable_sort_unique(after, before, stored_of(mem, tables).filter(in_range(dev, start, end)));
}

/// Recovery loses nothing: a store opened on the frames of another's
/// write-ahead log (its memtable) and on its tables answers every query
/// exactly as that store does.
pub proof fn lemma_recovery_restores(
    running: StorageEngine,
    reopened: StorageEngine,
    dev: Seq<char>,
    start: Option<i64>,
    end: Option<i64>,
    a_running: Seq<Frame>,
    a_reopened: Seq<Frame>,
)
    requires
        reopened.spec_memtable() == running.spec_memtable(),
        reopened.spec_tables() == running.spec_tables(),
        stably_sorted_from(a_running, running.stored().filter(in_range(dev, start, end))),
        stably_sorted_from(a_reopened, reopened.stored().filter(in_range(dev, start, end))),
    ensures
        a_reopened == a_running,
{
    lemma_stable_sort_unique(a_reopened, a_running, running.stored().filter(in_range(dev, start, end)));
}

/// A write adds exactly the written frame to the queries that select it
/// and leaves every other query with the frames it had, also when the
/// write flushed the memtable or merged the tables.
pub proof fn lemma_write_answers(
    before: StorageEngine,
    after: StorageEngine,
    f: Frame,
    dev: Seq<char>,
    start: Option<i64>,
    end: Option<i64>,
    a_before: Seq<Frame>,
    a_after: Seq<Frame>,
)
    requires
        after.stored().to_multiset() == before.stored().to_multiset().insert(f),
        stably_sorted_from(a_before, before.stored().filter(in_range(dev, start, end))),
        stably_sorted_from(a_after, after.stored().filter(in_range(dev, start, end))),
    ensures
        a_after.to_multiset() == if in_range(dev, start, end)(f) {
            a_before.to_multiset().insert(f)
        } else {
            a_before.to_multiset()
        },
{
    broadcast use vstd::multiset::group_multiset_axioms;

    let p = in_range(dev, start, end);
    let sb = before.stored();
    let sa = after.stored();
    lemma_stable_sort_keeps_frames(a_before, sb.filter(p));
    lemma_stable_sort_keeps_frames(a_after, sa.filter(p));
    let want = if p(f) {
        sb.filter(p).to_multiset().insert(f)
    } else {
        sb.filter(p).to_multiset()
    };
    assert forall|x: Frame| sa.filter(p).to_multiset().count(x) == want.count(x) by {
        if p(x) {
            lemma_filter_count(sa, p, x);
            lemma_filter_count(sb, p, x);
        } else {
            lemma_filter_count_other(sa, p, x);
            lemma_filter_count_other(sb, p, x);
        }
    }
    assert(sa.filter(p).to_multiset() =~= want);
}

proof fn lemma_flatten_filter(tables: Seq<Seq<Frame>>, p: spec_fn(Frame) -> bool)
    ensures
        tables.flatten().filter(p) == table_scans(tables, p).flatten(),
    decreases tables.len(),
{
    if tables.len() == 0 {
        reveal(Seq::filter);
        assert(table_scans(tables, p) =~= Seq::<Seq<Frame>>::empty());
        assert(tables.flatten() =~= Seq::<Frame>::empty());
        assert(table_scans(tables, p).flatten() =~= Seq::<Frame>::empty());
        assert(tables.flatten().filter(p) =~= Seq::<Frame>::empty());
    } else {
        let d = tables.drop_last();
        let l = tables.last();
        lemma_flatten_filter(d, p);
        assert(d.push(l) =~= tables);
        d.lemma_flatten_push(l);
        Seq::filter_distributes_over_add(d.flatten(), l, p);
        assert(table_scans(tables, p) =~= table_scans(d, p).push(l.filter(p)));
        table_scans(d, p).lemma_flatten_push(l.filter(p));
    }
}

/// A query's selection is the memtable's scan followed by each table's
/// scan in turn; the answer holds exactly the frames of those scans.
pub proof fn lemma_query_is_merged_scans(
    mem: Seq<Frame>,
    tables: Seq<Seq<Frame>>,
    dev: Seq<char>,
    start: Option<i64>,
    end: Option<i64>,
    answer: Seq<Frame>,
)
    requires
        stably_sorted_from(answer, stored_of(mem, tables).filter(in_range(dev, start, end))),
    ensures
        stored_of(mem, tables).filter(in_range(dev, start, end)) == mem.filter(in_range(dev, start, end))
            + table_scans(tables, in_range(dev, start, end)).flatten(),
        answer.to_multiset() == (mem.filter(in_range(dev, start, end)) + table_scans(
            tables,
            in_range(dev, start, end),
        ).flatten()).to_multiset(),
{
    let p = in_range(dev, start, end);
    Seq::filter_distributes_over_add(mem, tables.flatten(), p);
    lemma_flatten_filter(tables, p);
    lemma_stable_sort_keeps_frames(answer, stored_of(mem, tables).filter(p));
}

/// A query selects a frame exactly when the frame is the queried device's
/// (its whole DevEUI) and its instant lies within the bounds, both
/// included; a missing bound does not limit.
pub proof fn lemma_selection_is_device_and_window(dev: Seq<char>, start: Option<i64>, end: Option<i64>, f: Frame)
    ensures
        in_range(dev, start, end)(f) <==> {
            &&& frame_dev_eui(f) == dev
            &&& (start matches Some(s) ==> s <= frame_time(f))
            &&& (end matches Some(e) ==> frame_time(f) <= e)
        },
{
}

/// Every frame in a query's answer is a stored frame of the queried device,
/// recorded within the bounds.
pub proof fn lemma_answer_frames_belong(
    stored: Seq<Frame>,
    dev: Seq<char>,
    start: Option<i64>,
    end: Option<i64>,
    answer: Seq<Frame>,
)
    requires
        stably_sorted_from(answer, stored.filter(in_range(dev, start, end))),
    ensures
        forall|i: int|
            0 <= i < answer.len() ==> {
                &&& frame_dev_eui(#[trigger] answer[i]) == dev
                &&& (start matches Some(s) ==> s <= frame_time(answer[i]))
                &&& (end matches Some(e) ==> frame_time(answer[i]) <= e)
                &&& stored.contains(answer[i])
            },
{
    broadcast use vstd::multiset::group_multiset_axioms;

    let p = in_range(dev, start, end);
    let sel = stored.filter(p);
    lemma_stable_sort_keeps_frames(answer, sel);
    answer.to_multiset_ensures();
    sel.to_multiset_ensures();
    assert forall|i: int| 0 <= i < answer.len() implies {
        &&& frame_dev_eui(#[trigger] answer[i]) == dev
        &&& (start matches Some(s) ==> s <= frame_time(answer[i]))
        &&& (end matches Some(e) ==> frame_time(answer[i]) <= e)
        &&& stored.contains(answer[i])
    } by {
        let x = answer[i];
        assert(answer.contains(x));
        assert(answer.to_multiset().count(x) > 0);
        assert(sel.to_multiset().count(x) > 0);
        assert(sel.contains(x));
        let j = choose|j: int| 0 <= j < sel.len() && sel[j] == x;
        stored.lemma_filter_pred(p, j);
        stored.lemma_filter_contains_rev(p, x);
    }
}


/// What a write records of its frame's device: the frame's whole DevEUI,
/// the device name an uplink carries (other frames carry none), the
/// frame's application (none for a join request, recorded as empty), and
/// the instant the write was made at as the time last seen.
pub proof fn lemma_written_record(rec: DeviceRecord, f: Frame, seen_at: i64)
    requires
        record_of(rec, f, seen_at),
    ensures
        rec.dev_eui@ == frame_dev_eui(f),
        rec.last_seen == Some(seen_at),
        f matches Frame::Uplink(u) ==> opt_view(rec.device_name) == opt_view(u.device_name),
        !(f is Uplink) ==> rec.device_name is None,
        f matches Frame::Uplink(u) ==> rec.application_id@ == u.application_id.value@,
        f matches Frame::Downlink(d) ==> rec.application_id@ == d.application_id.value@,
        f matches Frame::JoinAccept(j) ==> rec.application_id@ == j.application_id.value@,
        f is JoinRequest ==> rec.application_id@ == Seq::<char>::empty(),
{
}

} // verus!
