//! The decisions of the registration timer tracker. The tracker's task owns
//! one timer per key; inserting a key again starts a new timer and cancels
//! the old one, and a finished timer is announced only while it is still
//! the key's live timer. Timers are named by ids handed out in increasing
//! order, so a finished timer can be told apart from its replacement.
use vstd::prelude::*;

verus! {

/// The live timer of each key.
pub open spec fn live_after_insert(m: Map<Seq<char>, u64>, key: Seq<char>, timer: u64) -> Map<
    Seq<char>,
    u64,
> {
    m.insert(key, timer)
}

/// Whether a finished timer is announced: only the live timer of its key is.
pub open spec fn announces(m: Map<Seq<char>, u64>, key: Seq<char>, timer: u64) -> bool {
    m.contains_key(key) && m[key] == timer
}

/// The live timers after a timer of `key` finished.
pub open spec fn live_after_expiry(m: Map<Seq<char>, u64>, key: Seq<char>, timer: u64) -> Map<
    Seq<char>,
    u64,
> {
    if announces(m, key, timer) {
        m.remove(key)
    } else {
        m
    }
}

/// What to do after an insert: start `timer`, and cancel the key's former
/// timer if it had one.
#[derive(Debug, Clone, Copy, PartialEq, Eq, Structural)]
pub struct InsertAction {
    pub timer: u64,
    pub cancel: Option<u64>,
}

/// A map from keys to timer ids, held in std's `HashMap<String, u64>`.
#[verifier::external_body]
pub struct TimerTable {
    map: std::collections::HashMap<String, u64>,
}

/// What a timer table holds.
pub uninterp spec fn table_contents(t: TimerTable) -> Map<Seq<char>, u64>;

impl TimerTable {
    /// Relies on `HashMap::new`: an empty map.
    #[verifier::external_body]
    fn new() -> (r: TimerTable)
        ensures
            table_contents(r).dom().len() == 0,
            table_contents(r).dom().finite(),
    {
        TimerTable { map: std::collections::HashMap::new() }
    }

    /// Relies on `HashMap::get`, with `String` keys compared by their
    /// characters: the value stored under `key`.
    #[verifier::external_body]
    fn get(&self, key: &str) -> (r: Option<u64>)
        ensures
            match r {
                Some(v) => table_contents(*self).contains_key(key@) && table_contents(*self)[key@]
                    == v,
                None => !table_contents(*self).contains_key(key@),
            },
    {
        self.map.get(key).copied()
    }

    /// Relies on `HashMap::insert`: stores `value` under `key`, replacing
    /// what was there.
    #[verifier::external_body]
    fn insert(&mut self, key: String, value: u64)
        ensures
            table_contents(*final(self)) == table_contents(*old(self)).insert(key@, value),
    {
        self.map.insert(key, value);
    }

    /// Relies on `HashMap::remove`: nothing is stored under `key` after.
    #[verifier::external_body]
    fn remove(&mut self, key: &str)
        ensures
            table_contents(*final(self)) == table_contents(*old(self)).remove(key@),
    {
        self.map.remove(key);
    }
}

/// The tracker's state: the live timer of each key, and the next timer id.
pub struct TrackerState {
    timers: TimerTable,
    next_id: u64,
}

impl View for TrackerState {
    type V = Map<Seq<char>, u64>;

    closed spec fn view(&self) -> Map<Seq<char>, u64> {
        table_contents(self.timers)
    }
}

impl TrackerState {
    /// Every live timer id was handed out.
    pub closed spec fn wf(&self) -> bool {
        forall|k: Seq<char>| #[trigger] self@.contains_key(k) ==> self@[k] < self.next_id
    }

    /// The id the next insert will hand out.
    pub closed spec fn next_timer(&self) -> u64 {
        self.next_id
    }

    /// The id the next insert will hand out.
    pub fn next_timer_id(&self) -> (r: u64)
        ensures
            r == self.next_timer(),
    {
        self.next_id
    }

    /// No timers yet.
    pub fn new() -> (r: Self)
        ensures
            r.wf(),
            r@ == Map::<Seq<char>, u64>::empty(),
            r.next_timer() == 0,
    {
        let r = TrackerState { timers: TimerTable::new(), next_id: 0 };
        proof {
            vstd::set_lib::lemma_set_empty_equivalency_len(r@.dom());
        }
        assert(r@ =~= Map::<Seq<char>, u64>::empty());
        r
    }

    /// A key was inserted (or refreshed): hands out a new timer for it and
    /// names the timer it replaces.
    pub fn insert(&mut self, key: String) -> (r: InsertAction)
        requires
            old(self).wf(),
            old(self).next_timer() < u64::MAX,
        ensures
            final(self).wf(),
            r.timer == old(self).next_timer(),
            final(self).next_timer() == old(self).next_timer() + 1,
            r.cancel == (if old(self)@.contains_key(key@) {
                Some(old(self)@[key@])
            } else {
                None
            }),
            final(self)@ == live_after_insert(old(self)@, key@, r.timer),
    {
        let ghost before = self@;
        let timer = self.next_id;
        let cancel = self.timers.get(key.as_str());
        self.timers.insert(key, timer);
        self.next_id = timer + 1;
        assert forall|k: Seq<char>| #[trigger] self@.contains_key(k) implies self@[k] < self.next_id by {
            if before.contains_key(k) {
                assert(before[k] < timer);
            }
        }
        InsertAction { timer, cancel }
    }

    /// The timer `timer` of `key` finished. Returns whether to announce the
    /// key's expiry: only when that timer is still the key's live timer, which
    /// then is no longer live.
    pub fn expire(&mut self, key: &str, timer: u64) -> (announce: bool)
        requires
            old(self).wf(),
        ensures
            final(self).wf(),
            final(self).next_timer() == old(self).next_timer(),
            announce == announces(old(self)@, key@, timer),
            final(self)@ == live_after_expiry(old(self)@, key@, timer),
    {
        let ghost before = self@;
        match self.timers.get(key) {
            Some(live) => {
                if live == timer {
                    self.timers.remove(key);
                    assert forall|k: Seq<char>| #[trigger] self@.contains_key(k) implies self@[k]
                        < self.next_id by {
                        assert(before.contains_key(k));
                    }
                    true
                } else {
                    false
                }
            },
            None => false,
        }
    }
}

/// An event the tracker processes: an insert of a key, or the end of a
/// timer of a key.
pub enum TrackerEvent {
    Insert(Seq<char>),
    Finish(Seq<char>, u64),
}

/// The live timers and the next timer id after one event.
pub open spec fn apply_event(m: Map<Seq<char>, u64>, next: u64, e: TrackerEvent) -> (
    Map<Seq<char>, u64>,
    u64,
) {
    match e {
        TrackerEvent::Insert(k) => (live_after_insert(m, k, next), (next + 1) as u64),
        TrackerEvent::Finish(k, t) => (live_after_expiry(m, k, t), next),
    }
}

/// The live timers and the next timer id after a sequence of events.
pub open spec fn run_events(m: Map<Seq<char>, u64>, next: u64, events: Seq<TrackerEvent>) -> (
    Map<Seq<char>, u64>,
    u64,
)
    decreases events.len(),
{
    if events.len() == 0 {
        (m, next)
    } else {
        let before = run_events(m, next, events.drop_last());
        apply_event(before.0, before.1, events.last())
    }
}

/// Whether the `i`-th event is the end of a timer of `key` that is
/// announced.
pub open spec fn announced_at(
    m: Map<Seq<char>, u64>,
    next: u64,
    events: Seq<TrackerEvent>,
    i: int,
    key: Seq<char>,
) -> bool {
    match events[i] {
        TrackerEvent::Finish(k, t) => k == key && announces(
            run_events(m, next, events.take(i)).0,
            k,
            t,
        ),
        TrackerEvent::Insert(_) => false,
    }
}

pub open spec fn inserts_key(events: Seq<TrackerEvent>, key: Seq<char>) -> bool {
    exists|i: int| 0 <= i < events.len() && #[trigger] events[i] == TrackerEvent::Insert(key)
}

proof fn lemma_run_without_insert(
    m: Map<Seq<char>, u64>,
    next: u64,
    events: Seq<TrackerEvent>,
    key: Seq<char>,
    n: int,
)
    requires
        0 <= n <= events.len(),
        !inserts_key(events, key),
    ensures
        ({
            let live = run_events(m, next, events.take(n)).0;
            live.contains_key(key) ==> m.contains_key(key) && live[key] == m[key] && forall|i: int|
                0 <= i < n ==> !#[trigger] announced_at(m, next, events, i, key)
        }),
    decreases n,
{
    if n > 0 {
        lemma_run_without_insert(m, next, events, key, n - 1);
        assert(events.take(n).drop_last() =~= events.take(n - 1));
        assert(events.take(n).last() == events[n - 1]);
        if events[n - 1] == TrackerEvent::Insert(key) {
            assert(inserts_key(events, key));
        }
    }
}

/// After a key's last insert, its expiry is announced at most once, and
/// only by the timer that insert started: whatever other keys do, when no
/// event inserts `key` again, every announced end of a timer of `key` is
/// the end of its live timer in `m`, and no two events announce `key`.
pub proof fn lemma_one_expiry_per_insert(
    m: Map<Seq<char>, u64>,
    next: u64,
    events: Seq<TrackerEvent>,
    key: Seq<char>,
)
    requires
        !inserts_key(events, key),
    ensures
        forall|i: int|
            0 <= i < events.len() && #[trigger] announced_at(m, next, events, i, key) ==> m.contains_key(key)
                && events[i] == TrackerEvent::Finish(key, m[key]),
        forall|i: int, j: int|
            0 <= i < j < events.len() ==> !(#[trigger] announced_at(m, next, events, i, key)
                && #[trigger] announced_at(m, next, events, j, key)),
{
    assert forall|i: int| 0 <= i < events.len() && #[trigger] announced_at(m, next, events, i, key) implies m.contains_key(key)
        && events[i] == TrackerEvent::Finish(key, m[key]) by {
        lemma_run_without_insert(m, next, events, key, i);
    }
    assert forall|i: int, j: int|
        0 <= i < j < events.len() implies !(#[trigger] announced_at(m, next, events, i, key)
        && #[trigger] announced_at(m, next, events, j, key)) by {
        lemma_run_without_insert(m, next, events, key, j);
    }
}

/// A timer replaced before it ends never announces its key: after `key` is
/// inserted (starting timer `next`) and at once inserted again, no later
/// event announces the end of the first timer, whatever other keys do, as
/// long as `key` is not inserted a third time; only the second timer can
/// announce it.
pub proof fn lemma_replaced_timer_is_silent(
    m: Map<Seq<char>, u64>,
    next: u64,
    events: Seq<TrackerEvent>,
    key: Seq<char>,
)
    requires
        next < u64::MAX,
        !inserts_key(events, key),
    ensures
        ({
            let s = run_events(m, next, seq![TrackerEvent::Insert(key), TrackerEvent::Insert(key)]);
            forall|i: int|
                0 <= i < events.len() && #[trigger] announced_at(s.0, s.1, events, i, key) ==> events[i]
                    == TrackerEvent::Finish(key, (next + 1) as u64) && events[i]
                    != TrackerEvent::Finish(key, next)
        }),
{
    let two = seq![TrackerEvent::Insert(key), TrackerEvent::Insert(key)];
    assert(two.drop_last() =~= seq![TrackerEvent::Insert(key)]);
    assert(two.drop_last().drop_last() =~= Seq::<TrackerEvent>::empty());
    let one = seq![TrackerEvent::Insert(key)];
    assert(one.drop_last() =~= Seq::<TrackerEvent>::empty());
    assert(run_events(m, next, Seq::<TrackerEvent>::empty()) == (m, next));
    assert(one.last() == TrackerEvent::Insert(key));
    let s1 = run_events(m, next, one);
    assert(s1 == (m.insert(key, next), (next + 1) as u64));
    assert(two.last() == TrackerEvent::Insert(key));
    let s = run_events(m, next, two);
    assert(s.0 == s1.0.insert(key, s1.1));
    assert(s.0.contains_key(key) && s.0[key] == (next + 1) as u64);
    lemma_one_expiry_per_insert(s.0, s.1, events, key);
}

} // verus!
