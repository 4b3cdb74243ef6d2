//! Queries over the frame store: selecting a device's frames in a time
//! window, keeping the kinds of frame asked for, and projecting the members
//! asked for out of their JSON form.

use vstd::prelude::*;
use vstd::string::*;
use crate::decoded::JsonValue;
use crate::error::LoraDbError;
use crate::frames::{frame_time, Frame};
use crate::lorawan::{valid_dev_eui, DevEui};
use crate::storage::{at_time, deref_all, in_range, stably_sorted_from, time_sorted, StorageEngine};

verus! {

broadcast use vstd::seq_lib::group_seq_properties;

/// Which frames, or which members of each frame, a query asks for.
pub enum SelectClause {
    All,
    Uplink,
    Downlink,
    Join,
    Fields(Vec<String>),
}

/// The device a query reads.
pub struct FromClause {
    pub dev_eui: String,
}

/// A time window relative to the moment the query runs.
pub enum FilterClause {
    /// The last so many milliseconds.
    Last(i64),
}

pub struct Query {
    pub select: SelectClause,
    pub from: FromClause,
    pub filter: Option<FilterClause>,
}

/// The window a query reads when run at `now`.
pub open spec fn query_window(q: Query, now: i64) -> (Option<i64>, Option<i64>) {
    match q.filter {
        Some(FilterClause::Last(d)) => (Some((now - d) as i64), None),
        None => (None, None),
    }
}

pub open spec fn window_fits(q: Query, now: i64) -> bool {
    match q.filter {
        Some(FilterClause::Last(d)) => i64::MIN <= now - d <= i64::MAX,
        None => true,
    }
}

/// Whether a frame is of a kind that `sel` keeps.
pub open spec fn selects(sel: SelectClause) -> spec_fn(Frame) -> bool {
    |f: Frame|
        match sel {
            SelectClause::Uplink => f is Uplink,
            SelectClause::Downlink => f is Downlink,
            SelectClause::Join => f is JoinRequest || f is JoinAccept,
            _ => true,
        }
}

impl Query {
    pub fn new(select: SelectClause, from: FromClause, filter: Option<FilterClause>) -> (r: Query)
        ensures
            r == (Query { select, from, filter }),
    {
        Query { select, from, filter }
    }

    /// The window to read when run at `now`: from `now` minus the duration
    /// of a `Last` filter on, or unbounded.
    pub fn time_range(&self, now: i64) -> (r: (Option<i64>, Option<i64>))
        requires
            window_fits(*self, now),
        ensures
            r == query_window(*self, now),
    {
        match &self.filter {
            Some(FilterClause::Last(d)) => (Some(now - *d), None),
            None => (None, None),
        }
    }
}

/// Whether a frame is of a kind that `sel` keeps.
pub fn frame_selected(f: &Frame, select: &SelectClause) -> (r: bool)
    ensures
        r == selects(*select)(*f),
{
    match select {
        SelectClause::Uplink => matches!(f, Frame::Uplink(_)),
        SelectClause::Downlink => matches!(f, Frame::Downlink(_)),
        SelectClause::Join => matches!(f, Frame::JoinRequest(_)) || matches!(f, Frame::JoinAccept(_)),
        _ => true,
    }
}

/// Keeping the frames that satisfy `q` out of those of instant `t` is taking
/// the frames of instant `t` out of those that satisfy `q`.
proof fn lemma_filters_commute(s: Seq<Frame>, p: spec_fn(Frame) -> bool, q: spec_fn(Frame) -> bool)
    ensures
        s.filter(p).filter(q) == s.filter(q).filter(p),
    decreases s.len(),
{
    if s.len() == 0 {
        reveal(Seq::filter);
        assert(s.filter(p) =~= Seq::<Frame>::empty());
        assert(s.filter(q) =~= Seq::<Frame>::empty());
        assert(s.filter(p).filter(q) =~= Seq::<Frame>::empty());
        assert(s.filter(q).filter(p) =~= Seq::<Frame>::empty());
    } else {
        let d = s.drop_last();
        let l = s.last();
        lemma_filters_commute(d, p, q);
        assert(d.push(l) =~= s);
        d.lemma_filter_push(l, p);
        d.lemma_filter_push(l, q);
        d.filter(p).lemma_filter_push(l, q);
        d.filter(q).lemma_filter_push(l, p);
    }
}

proof fn lemma_filter_keeps_sorted(s: Seq<Frame>, p: spec_fn(Frame) -> bool)
    requires
        time_sorted(s),
    ensures
        time_sorted(s.filter(p)),
    decreases s.len(),
{
    if s.len() == 0 {
        reveal(Seq::filter);
        assert(s.filter(p) =~= Seq::<Frame>::empty());
    } else {
        let d = s.drop_last();
        let l = s.last();
        assert(d.push(l) =~= s);
        assert(time_sorted(d));
        lemma_filter_keeps_sorted(d, p);
        d.lemma_filter_push(l, p);
        if p(l) {
            let fd = d.filter(p);
            assert forall|i: int| 0 <= i < fd.len() implies frame_time(#[trigger] fd[i]) <= frame_time(l) by {
                d.lemma_filter_contains_rev(p, fd[i]);
                assert(d.contains(fd[i]));
                let k = choose|k: int| 0 <= k < d.len() && d[k] == fd[i];
                assert(s[k] == d[k]);
                assert(s[s.len() - 1] == l);
            }
            assert(time_sorted(fd.push(l)));
        }
    }
}

/// Filtering a stable sort is the stable sort of the filtered input.
pub proof fn lemma_filter_stable_sort(r: Seq<Frame>, s: Seq<Frame>, p: spec_fn(Frame) -> bool)
    requires
        stably_sorted_from(r, s),
    ensures
        stably_sorted_from(r.filter(p), s.filter(p)),
{
    lemma_filter_keeps_sorted(r, p);
    assert forall|t: i64| #[trigger] r.filter(p).filter(at_time(t)) == s.filter(p).filter(at_time(t)) by {
        lemma_filters_commute(r, p, at_time(t));
        lemma_filters_commute(s, p, at_time(t));
        assert(r.filter(at_time(t)) == s.filter(at_time(t)));
    }
}

proof fn lemma_filter_twice<A>(s: Seq<A>, p: spec_fn(A) -> bool)
    ensures
        s.filter(p).filter(p) == s.filter(p),
    decreases s.len(),
{
    if s.len() == 0 {
        reveal(Seq::filter);
        assert(s.filter(p) =~= Seq::<A>::empty());
        assert(s.filter(p).filter(p) =~= Seq::<A>::empty());
    } else {
        let d = s.drop_last();
        let l = s.last();
        lemma_filter_twice(d, p);
        assert(d.push(l) =~= s);
        d.lemma_filter_push(l, p);
        d.filter(p).lemma_filter_push(l, p);
    }
}

/// Every frame is of exactly one kind: the uplinks, downlinks and joins
/// among some frames are as many as the frames.
pub proof fn lemma_kinds_partition(s: Seq<Frame>)
    ensures
        s.filter(selects(SelectClause::Uplink)).len() + s.filter(selects(SelectClause::Downlink)).len()
            + s.filter(selects(SelectClause::Join)).len() == s.len(),
        s.filter(selects(SelectClause::All)) == s,
    decreases s.len(),
{
    if s.len() == 0 {
        reveal(Seq::filter);
        assert(s.filter(selects(SelectClause::Uplink)) =~= Seq::<Frame>::empty());
        assert(s.filter(selects(SelectClause::Downlink)) =~= Seq::<Frame>::empty());
        assert(s.filter(selects(SelectClause::Join)) =~= Seq::<Frame>::empty());
        assert(s.filter(selects(SelectClause::All)) =~= s);
    } else {
        let d = s.drop_last();
        let l = s.last();
        lemma_kinds_partition(d);
        assert(d.push(l) =~= s);
        d.lemma_filter_push(l, selects(SelectClause::Uplink));
        d.lemma_filter_push(l, selects(SelectClause::Downlink));
        d.lemma_filter_push(l, selects(SelectClause::Join));
        d.lemma_filter_push(l, selects(SelectClause::All));
    }
}

/// Runs queries against a store.
pub struct QueryExecutor;

impl QueryExecutor {
    pub fn new() -> (r: QueryExecutor)
        ensures
            r == QueryExecutor,
    {
        QueryExecutor
    }

    /// Keeps the frames of a kind that `select` asks for, in order.
    pub fn filter_frames<'a>(&self, frames: Vec<&'a Frame>, select: &SelectClause) -> (r: Vec<&'a Frame>)
        ensures
            deref_all(r@) == deref_all(frames@).filter(selects(*select)),
    {
        let ghost ins = deref_all(frames@);
        let ghost pr = selects(*select);
        let mut out: Vec<&'a Frame> = Vec::new();
        let mut i: usize = 0;
        assert(ins.take(0).filter(pr) =~= Seq::<Frame>::empty());
        assert(deref_all(out@) =~= Seq::<Frame>::empty());
        while i < frames.len()
            invariant
                0 <= i <= ins.len(),
                ins == deref_all(frames@),
                pr == selects(*select),
                deref_all(out@) == ins.take(i as int).filter(pr),
            decreases ins.len() - i,
        {
            let f = frames[i];
            assert(ins.take(i + 1) =~= ins.take(i as int).push(*f));
            proof {
                ins.take(i as int).lemma_filter_push(*f, pr);
            }
            if frame_selected(f, select) {
                out.push(f);
                assert(deref_all(out@) =~= ins.take(i as int).filter(pr).push(*f));
            }
            i = i + 1;
        }
        assert(ins.take(ins.len() as int) =~= ins);
        out
    }

    /// Runs `query` at `now`: the device's stored frames within the query's
    /// window and of the kinds it asks for, ordered by instant (frames of
    /// equal instant in stored order). A device id that is not a DevEUI
    /// fails the query.
    pub fn execute<'a>(&self, storage: &'a StorageEngine, query: &Query, now: i64) -> (r: Result<
        Vec<&'a Frame>,
        LoraDbError,
    >)
        requires
            window_fits(*query, now),
        ensures
            match r {
                Ok(v) => valid_dev_eui(query.from.dev_eui@) && stably_sorted_from(
                    deref_all(v@),
                    storage.stored().filter(
                        in_range(query.from.dev_eui@, query_window(*query, now).0, query_window(*query, now).1),
                    ).filter(selects(query.select)),
                ),
                Err(e) => !valid_dev_eui(query.from.dev_eui@) && (e matches LoraDbError::QueryExecutionError(m)
                    && m@ == "Invalid DevEUI: "@ + query.from.dev_eui@),
            },
    {
        let dev_eui = match DevEui::new(query.from.dev_eui.clone()) {
            Ok(d) => d,
            Err(e) => {
                let text = String::from_str("Invalid DevEUI: ").concat(e.detail().as_str());
                return Err(LoraDbError::QueryExecutionError(text));
            },
        };
        let (start, end) = query.time_range(now);
        let frames = storage.query(&dev_eui, start, end);
        let ghost sorted = deref_all(frames@);
        let selected = self.filter_frames(frames, &query.select);
        proof {
            lemma_filter_stable_sort(
                sorted,
                storage.stored().filter(in_range(dev_eui@, start, end)),
                selects(query.select),
            );
        }
        Ok(selected)
    }
}

/// Whether `name` is one of `fields`.
fn is_listed(fields: &Vec<String>, name: &String) -> (r: bool)
    ensures
        r == fields@.map_values(|s: String| s@).contains(name@),
{
    let ghost names = fields@.map_values(|s: String| s@);
    let mut i: usize = 0;
    while i < fields.len()
        invariant
            0 <= i <= fields@.len(),
            names == fields@.map_values(|s: String| s@),
            forall|j: int| 0 <= j < i ==> names[j] != name@,
        decreases fields@.len() - i,
    {
        if fields[i] == *name {
            assert(names[i as int] == name@);
            return true;
        }
        i = i + 1;
    }
    false
}

/// The member names a `Fields` selection keeps.
pub open spec fn keeps_member(sel: SelectClause) -> spec_fn((String, JsonValue)) -> bool {
    |e: (String, JsonValue)|
        match sel {
            SelectClause::Fields(fields) => fields@.map_values(|s: String| s@).contains(e.0@),
            _ => true,
        }
}

/// `out` is `json` with only the members that `sel` names, when `sel`
/// names members and `json` is an object; otherwise `out` is `json`.
pub open spec fn projected(out: JsonValue, json: JsonValue, sel: SelectClause) -> bool {
    match (sel, json) {
        (SelectClause::Fields(_), JsonValue::Object(entries)) => match out {
            JsonValue::Object(kept) => kept@ == entries@.filter(keeps_member(sel)),
            _ => false,
        },
        _ => out == json,
    }
}

/// Keeps, of a frame's JSON object, the members that a `Fields` selection
/// names, in their order.
pub fn project_fields(json: JsonValue, select: &SelectClause) -> (r: JsonValue)
    ensures
        projected(r, json, *select),
        ({
            match (*select, json) {
                (SelectClause::Fields(fs), JsonValue::Object(entries)) => match r {
                    JsonValue::Object(kept) => fields_kept(kept@, entries@, fs@),
                    _ => false,
                },
                _ => r == json,
            }
        }),
{
    let ghost sel = *select;
    let ghost input = json;
    let r = project_fields_in(json, select);
    proof {
        match (sel, input) {
            (SelectClause::Fields(fs), JsonValue::Object(_)) => {
                lemma_fields_projection(r, input, fs);
            },
            _ => {},
        }
    }
    r
}

/// `kept` holds the members of `entries` whose names are among `fields`,
/// and only those: each kept member is one of `entries` and has a listed
/// name, and each member of `entries` with a listed name is kept.
pub open spec fn fields_kept(
    kept: Seq<(String, JsonValue)>,
    entries: Seq<(String, JsonValue)>,
    fields: Seq<String>,
) -> bool {
    &&& forall|i: int|
        0 <= i < kept.len() ==> (exists|k: int| 0 <= k < fields.len() && fields[k]@ == (#[trigger] kept[i]).0@)
            && entries.contains(kept[i])
    &&& forall|j: int, k: int|
        #![trigger entries[j], fields[k]]
        0 <= j < entries.len() && 0 <= k < fields.len() && fields[k]@ == entries[j].0@ ==> kept.contains(
            entries[j],
        )
}

/// A `Fields` projection of an object keeps exactly its members whose names
/// the selection lists: no other member is kept, and none listed is lost.
pub proof fn lemma_fields_projection(out: JsonValue, json: JsonValue, fs: Vec<String>)
    requires
        projected(out, json, SelectClause::Fields(fs)),
        json is Object,
    ensures
        match (json, out) {
            (JsonValue::Object(entries), JsonValue::Object(kept)) => fields_kept(kept@, entries@, fs@),
            _ => false,
        },
{
    let sel = SelectClause::Fields(fs);
    let pr = keeps_member(sel);
    let names = fs@.map_values(|s: String| s@);
    match (json, out) {
        (JsonValue::Object(entries), JsonValue::Object(kept)) => {
            let es = entries@;
            let ks = kept@;
            assert(ks == es.filter(pr));
            assert forall|i: int| 0 <= i < ks.len() implies (exists|k: int|
                0 <= k < fs@.len() && fs@[k]@ == (#[trigger] ks[i]).0@) && es.contains(ks[i]) by {
                es.lemma_filter_pred(pr, i);
                assert(names.contains(ks[i].0@));
                let k = choose|k: int| 0 <= k < names.len() && names[k] == ks[i].0@;
                assert(fs@[k]@ == names[k]);
                assert(ks.contains(ks[i]));
                es.lemma_filter_contains_rev(pr, ks[i]);
            }
            assert forall|j: int, k: int|
                #![trigger es[j], fs@[k]]
                0 <= j < es.len() && 0 <= k < fs@.len() && fs@[k]@ == es[j].0@ implies ks.contains(es[j]) by {
                assert(names[k] == fs@[k]@);
                assert(names.contains(es[j].0@));
                assert(pr(es[j]));
                es.lemma_filter_contains(pr, j);
            }
        },
        _ => {},
    }
}

fn project_fields_in(json: JsonValue, select: &SelectClause) -> (r: JsonValue)
    ensures
        projected(r, json, *select),
{
    match select {
        SelectClause::Fields(fields) => match json {
            JsonValue::Object(entries) => {
                let ghost ins = entries@;
                let ghost pr = keeps_member(*select);
                let mut rest = entries;
                let mut kept: Vec<(String, JsonValue)> = Vec::new();
                let mut k: usize = 0;
                let count = rest.len();
                assert(ins.skip(0) =~= ins);
                assert(ins.take(0).filter(pr) =~= Seq::<(String, JsonValue)>::empty());
                while rest.len() > 0
                    invariant
                        ins.len() == k + rest@.len(),
                        ins.len() == count,
                        rest@ == ins.skip(k as int),
                        pr == keeps_member(*select),
                        *select == SelectClause::Fields(*fields),
                        kept@ == ins.take(k as int).filter(pr),
                    decreases rest@.len(),
                {
                    let e = rest.remove(0);
                    assert(e == ins[k as int]);
                    assert(rest@ =~= ins.skip(k as int + 1));
                    assert(ins.take(k as int + 1) =~= ins.take(k as int).push(e));
                    proof {
                        ins.take(k as int).lemma_filter_push(e, pr);
                    }
                    if is_listed(fields, &e.0) {
                        kept.push(e);
                    }
                    k = k + 1;
                }
                assert(ins.take(k as int) =~= ins);
                JsonValue::Object(kept)
            },
            other => other,
        },
        _ => json,
    }
}

/// Projecting twice keeps what projecting once keeps.
pub proof fn lemma_projection_idempotent(once: JsonValue, twice: JsonValue, json: JsonValue, sel: SelectClause)
    requires
        projected(once, json, sel),
        projected(twice, once, sel),
    ensures
        match (once, twice) {
            (JsonValue::Object(a), JsonValue::Object(b)) => b@ == a@,
            _ => twice == once,
        },
{
    match (sel, json) {
        (SelectClause::Fields(_), JsonValue::Object(entries)) => {
            lemma_filter_twice(entries@, keeps_member(sel));
        },
        _ => {},
    }
}

/// The answer to a query: the device asked for, and its frames in JSON form.
pub struct QueryResult {
    pub dev_eui: String,
    pub total_frames: usize,
    pub frames: Vec<JsonValue>,
}

impl QueryResult {
    /// Assembles the answer to `query` from the JSON form of the frames it
    /// selected, projecting each onto the members the query names.
    pub fn from_frames(query: &Query, frames: Vec<JsonValue>) -> (r: QueryResult)
        ensures
            r.dev_eui == query.from.dev_eui,
            r.total_frames == frames@.len(),
            r.frames@.len() == frames@.len(),
            forall|i: int| 0 <= i < frames@.len() ==> projected(#[trigger] r.frames@[i], frames@[i], query.select),
    {
        let ghost ins = frames@;
        let total = frames.len();
        let mut rest = frames;
        let mut out: Vec<JsonValue> = Vec::new();
        while rest.len() > 0
            invariant
                ins.len() == out@.len() + rest@.len(),
                rest@ == ins.skip(out@.len() as int),
                forall|i: int| 0 <= i < out@.len() ==> projected(#[trigger] out@[i], ins[i], query.select),
            decreases rest@.len(),
        {
            let j = rest.remove(0);
            assert(j == ins[out@.len() as int]);
            assert(rest@ =~= ins.skip(out@.len() as int + 1));
            out.push(project_fields(j, &query.select));
        }
        QueryResult { dev_eui: query.from.dev_eui.clone(), total_frames: total, frames: out }
    }
}


/// Each selection keeps the kinds of frame it names: `uplink` the uplinks,
/// `downlink` the downlinks, `join` the join requests and accepts, and the
/// others every frame.
pub proof fn lemma_selection_kinds(f: Frame, fields: Vec<String>)
    ensures
        selects(SelectClause::Uplink)(f) <==> f is Uplink,
        selects(SelectClause::Downlink)(f) <==> f is Downlink,
        selects(SelectClause::Join)(f) <==> (f is JoinRequest || f is JoinAccept),
        selects(SelectClause::All)(f),
        selects(SelectClause::Fields(fields))(f),
{
}

/// A `Last(d)` filter run at `now` reads from `now - d` on with no end; no
/// filter reads every instant.
pub proof fn lemma_window_of_last(q: Query, now: i64)
    requires
        window_fits(q, now),
    ensures
        q.filter matches Some(FilterClause::Last(d)) ==> query_window(q, now) == (Some((now - d) as i64), None::<i64>),
        q.filter is None ==> query_window(q, now) == (None::<i64>, None::<i64>),
{
}

} // verus!
