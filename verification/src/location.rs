//! The location worker: reporting the vessel's position to the location
//! sinks, and keeping what could not be delivered.
//!
//! A report that a sink did not take is stored under the time and the name
//! of the sink. What is stored is replayed, first key first: each report
//! is sent to every sink and then taken out of the store. The store tells
//! of a failed read without the key that it failed on, so there is no
//! entry to step over: the replay ends there, and what it could not read
//! waits for the next replay.
//!
//! The worker sends nothing itself. It names the sink and the payload, the
//! program sends and tells with [`Location::send_result`] whether the sink
//! took it, and the worker names the next step.

use vstd::prelude::*;
use crate::cache::{bytes_lt, empty_store, is_first, Persistence, PersistenceError};
use crate::lines::views;
use crate::message::{ParsedMessage, UtcTime};
use crate::nmea::{format_location, location_sentence};
use crate::text::push_bytes;

verus! {

/// Seconds that the worker waits for a position before it replays what
/// is stored.
pub const MESSAGE_TIMEOUT_SECS: u64 = 60;

/// The text that chrono shows for a point in time on the UTC calendar,
/// such as `2025-06-01 12:00:00.250 UTC`, or nothing where the calendar
/// has no such point.
pub uninterp spec fn utc_display(
    year: i32,
    month: u32,
    day: u32,
    hour: u32,
    minute: u32,
    second: u32,
    nanosecond: u32,
) -> Option<Seq<u8>>;

/// The text that a store key begins with: the time, as chrono shows it.
pub open spec fn utc_text(at: UtcTime) -> Option<Seq<u8>> {
    utc_display(at.year, at.month, at.day, at.hour, at.minute, at.second, at.nanosecond)
}

/// The key that begins with the text of a time and names a sink: the
/// text, a hyphen, and the name of the sink.
pub open spec fn key_of(stamp: Seq<u8>, sink: Seq<u8>) -> Seq<u8> {
    stamp + seq!['-' as u8] + sink
}

/// The key under which a report is stored: the time, a hyphen, and the
/// name of the sink that did not take the report.
pub open spec fn key_text(at: UtcTime, sink: Seq<u8>) -> Option<Seq<u8>> {
    match utc_text(at) {
        Some(stamp) => Some(key_of(stamp, sink)),
        None => None,
    }
}

/// Shows a point in time as chrono does: builds the date with
/// `NaiveDate::from_ymd_opt` and the time of day with
/// `NaiveDate::and_hms_nano_opt`, and takes the text that `Display` gives
/// for the `DateTime<Utc>` made of them. Where chrono takes the fields for
/// no date or no time of day, nothing comes back. The text depends on the
/// fields alone, and carries the name [`utc_display`].
#[verifier::external_body]
fn display_utc(at: &UtcTime) -> (r: Option<Vec<u8>>)
    ensures
        match r {
            Some(text) => utc_display(
                at.year,
                at.month,
                at.day,
                at.hour,
                at.minute,
                at.second,
                at.nanosecond,
            ) == Some(text@),
            None => utc_display(
                at.year,
                at.month,
                at.day,
                at.hour,
                at.minute,
                at.second,
                at.nanosecond,
            ) is None,
        },
{
    let date = chrono::NaiveDate::from_ymd_opt(at.year, at.month, at.day)?;
    let time = date.and_hms_nano_opt(at.hour, at.minute, at.second, at.nanosecond)?;
    Some(time.and_utc().to_string().into_bytes())
}

/// The key that begins with the text of a time and names a sink.
pub fn key_from(stamp: &[u8], sink: &[u8]) -> (key: Vec<u8>)
    ensures
        key@ == key_of(stamp@, sink@),
{
    let mut key: Vec<u8> = Vec::new();
    push_bytes(&mut key, stamp);
    key.push('-' as u8);
    push_bytes(&mut key, sink);
    assert(key@ =~= key_of(stamp@, sink@));
    key
}

/// The text of a time, for the keys of the reports of that time. A time
/// that the calendar does not have has no text.
pub fn time_stamp(at: &UtcTime) -> (stamp: Option<Vec<u8>>)
    ensures
        match stamp {
            Some(text) => utc_text(*at) == Some(text@),
            None => utc_text(*at) is None,
        },
{
    display_utc(at)
}

/// The key under which a report is stored for a sink. A time that the
/// calendar does not have gives no key.
pub fn storage_key(at: &UtcTime, sink: &[u8]) -> (key: Option<Vec<u8>>)
    ensures
        match key {
            Some(k) => key_text(*at, sink@) == Some(k@),
            None => key_text(*at, sink@) is None,
        },
{
    match display_utc(at) {
        Some(stamp) => Some(key_from(stamp.as_slice(), sink)),
        None => None,
    }
}

/// What the worker is busy with.
#[derive(Clone, Copy, Debug, PartialEq, Eq, Structural)]
pub enum Phase {
    /// Nothing: it waits for a position or for the timeout.
    Idle,
    /// It replays what is stored, and waits to hear whether a sink took a
    /// stored report.
    Resending,
    /// It reports a position, and waits to hear whether a sink took it.
    Delivering,
}

/// What the worker asks for next.
#[derive(Debug, PartialEq, Eq)]
pub enum Step {
    /// Send `payload` to the sink with the index `sink`, and tell with
    /// [`Location::send_result`] whether the sink took it.
    Send { sink: usize, payload: Vec<u8> },
    /// Nothing is left to do for now.
    Done,
    /// The store failed. The worker cannot go on.
    Failed(PersistenceError),
}

/// Why the worker woke up.
#[derive(Clone, Copy, Debug, PartialEq, Eq)]
pub enum Wake {
    /// A position came in.
    Message(ParsedMessage),
    /// No position came in for [`MESSAGE_TIMEOUT_SECS`] seconds.
    Timeout,
    /// No position will come in any more.
    Disconnected,
}

/// What the worker does after it woke up.
#[derive(Clone, Copy, Debug, PartialEq, Eq)]
pub enum Plan {
    /// Replay what is stored, then report the position.
    ResendThenHandle(ParsedMessage),
    /// Report the position.
    Handle(ParsedMessage),
    /// Replay what is stored.
    Resend,
    /// End the worker.
    Stop,
}

/// The news that a sink took the report that is stored under a key.
pub struct Delivery {
    pub sink: int,
    pub key: Seq<u8>,
    pub payload: Seq<u8>,
}

/// The worker as its contracts see it.
#[verifier::ext_equal]
pub struct LocationView {
    /// The names of the location sinks, in the order in which they were configured.
    pub sinks: Seq<Seq<u8>>,
    /// The reports that wait for delivery.
    pub store: Map<Seq<u8>, Seq<u8>>,
    /// The MMSI of the own vessel.
    pub mmsi: u32,
    /// Whether the sinks took what was last sent to them.
    pub connection_ok: bool,
    /// Whether the last replay had to leave entries behind because the
    /// store could not be read.
    pub unread: bool,
    pub phase: Phase,
    /// The key of the stored report that is replayed.
    pub key: Seq<u8>,
    /// The report that is replayed or delivered.
    pub value: Seq<u8>,
    /// The sink that was asked last.
    pub sink: int,
    /// The text of the time of the position that is delivered.
    pub stamp: Seq<u8>,
    /// Whether a sink has refused the position that is delivered.
    pub failed: bool,
    /// What the store held when the replay began.
    pub cycle_start: Map<Seq<u8>, Seq<u8>>,
    /// What the sinks took since the replay began.
    pub delivered: Seq<Delivery>,
}

/// Whether the sink took the report under the key, as far as the log tells.
pub open spec fn confirmed(log: Seq<Delivery>, sink: int, key: Seq<u8>, payload: Seq<u8>) -> bool {
    log.contains(Delivery { sink, key, payload })
}

/// The store after a report was stored for each of the first `count` sinks.
pub open spec fn stored_for(
    store: Map<Seq<u8>, Seq<u8>>,
    sinks: Seq<Seq<u8>>,
    count: int,
    stamp: Seq<u8>,
    payload: Seq<u8>,
) -> Map<Seq<u8>, Seq<u8>>
    decreases count,
{
    if count <= 0 {
        store
    } else {
        stored_for(store, sinks, count - 1, stamp, payload).insert(
            key_of(stamp, sinks[count - 1]),
            payload,
        )
    }
}

/// Whether the step asks to send `payload` to the sink `sink`.
pub open spec fn asks_to_send(step: Step, sink: int, payload: Seq<u8>) -> bool {
    step matches Step::Send { sink: s, payload: p } && s == sink && p@ == payload
}

impl LocationView {
    /// Whether every sink took the report under the key since the replay
    /// began.
    pub open spec fn sent_to_all(self, key: Seq<u8>, payload: Seq<u8>) -> bool {
        forall|s: int|
            0 <= s < self.sinks.len() ==> #[trigger] confirmed(self.delivered, s, key, payload)
    }

    /// Whether the report under the key is stored as it was when the replay
    /// began.
    pub open spec fn still_stored(self, key: Seq<u8>) -> bool {
        self.store.contains_key(key) && self.store[key] == self.cycle_start[key]
    }

    /// What a replay keeps to. Every report that the store held when the
    /// replay began is still stored, or every sink took it. Nothing is
    /// stored that was not stored then. The reports that are gone are those
    /// whose keys come before the keys that are left.
    pub open spec fn cycle_invariant(self) -> bool {
        &&& forall|k: Seq<u8>| #[trigger]
            self.cycle_start.contains_key(k) ==> self.still_stored(k) || self.sent_to_all(
                k,
                self.cycle_start[k],
            )
        &&& forall|k: Seq<u8>| #[trigger]
            self.store.contains_key(k) ==> self.cycle_start.contains_key(k) && self.still_stored(k)
        &&& forall|k: Seq<u8>, later: Seq<u8>|
            #[trigger] self.cycle_start.contains_key(k) && !self.store.contains_key(k)
                && #[trigger] self.store.contains_key(later) ==> bytes_lt(k, later)
    }

    /// Whatever the sinks took since the replay began was a report that
    /// the store held then, and it is stored no longer, unless it is the
    /// one under the key `current`.
    pub open spec fn log_concerns(self, current: Option<Seq<u8>>) -> bool {
        forall|i: int|
            0 <= i < self.delivered.len() ==> {
                let d = #[trigger] self.delivered[i];
                &&& self.cycle_start.contains_key(d.key)
                &&& d.payload == self.cycle_start[d.key]
                &&& self.store.contains_key(d.key) ==> current == Some(d.key)
            }
    }

    /// What holds of the worker between two steps.
    pub open spec fn wf(self) -> bool {
        &&& self.store.dom().finite()
        &&& self.phase is Resending ==> {
            &&& !self.unread
            &&& 0 <= self.sink < self.sinks.len()
            &&& is_first(self.store, self.key, self.value)
            &&& forall|s: int|
                0 <= s < self.sink ==> #[trigger] confirmed(
                    self.delivered,
                    s,
                    self.key,
                    self.value,
                )
            &&& self.cycle_invariant()
            &&& self.log_concerns(Some(self.key))
        }
        &&& self.phase is Delivering ==> self.connection_ok && 0 <= self.sink < self.sinks.len()
    }

    /// The worker at the beginning of a replay.
    pub open spec fn at_cycle_start(self) -> LocationView {
        LocationView {
            cycle_start: self.store,
            delivered: Seq::empty(),
            unread: false,
            ..self
        }
    }

    /// The worker after the sink that was asked took the stored report.
    pub open spec fn after_confirmation(self) -> LocationView {
        LocationView {
            delivered: self.delivered.push(
                Delivery { sink: self.sink, key: self.key, payload: self.value },
            ),
            ..self
        }
    }

    /// The worker after the stored report that every sink took was taken
    /// out of the store.
    pub open spec fn after_removal(self) -> LocationView {
        LocationView { store: self.store.remove(self.key), ..self.after_confirmation() }
    }

    /// The worker after it heard whether the sink took the position.
    pub open spec fn after_delivery(self, delivered: bool) -> LocationView {
        LocationView {
            store: if delivered {
                self.store
            } else {
                self.store.insert(key_of(self.stamp, self.sinks[self.sink]), self.value)
            },
            failed: self.failed || !delivered,
            ..self
        }
    }

    /// How a replay goes on from `self`: with the first stored report, to
    /// the first sink; or not at all, because nothing is stored any more,
    /// or because the store cannot be read.
    pub open spec fn replay_goes_on(self, next: LocationView, step: Step) -> bool {
        match step {
            Step::Send { sink, payload } => {
                &&& self.sinks.len() > 0
                &&& self.store.len() > 0
                &&& is_first(self.store, next.key, next.value)
                &&& asks_to_send(step, 0, next.value)
                &&& next == (LocationView {
                    phase: Phase::Resending,
                    key: next.key,
                    value: next.value,
                    sink: 0,
                    ..self
                })
            },
            Step::Done => {
                &&& next.unread ==> self.store.len() > 0
                &&& next == (LocationView {
                    phase: Phase::Idle,
                    connection_ok: true,
                    unread: next.unread,
                    store: if next.unread {
                        self.store.restrict(next.store.dom())
                    } else {
                        Map::empty()
                    },
                    ..self
                })
                &&& next.store.dom().subset_of(self.store.dom())
                &&& self.sinks.len() > 0 ==> if next.unread {
                    next.store == self.store
                } else {
                    self.store.len() == 0
                }
            },
            Step::Failed(_) => self.store.len() > 0,
        }
    }

    /// What [`Location::resend_messages`] leads to.
    pub open spec fn replay_begun(self, next: LocationView, step: Step) -> bool {
        self.at_cycle_start().replay_goes_on(next, step)
    }

    /// What [`Location::send_result`] leads to.
    pub open spec fn result_taken(self, delivered: bool, next: LocationView, step: Step) -> bool {
        match self.phase {
            Phase::Idle => step is Done && next == self,
            Phase::Resending => if !delivered {
                step is Done && next == (LocationView {
                    phase: Phase::Idle,
                    connection_ok: false,
                    ..self
                })
            } else if self.sink + 1 < self.sinks.len() {
                asks_to_send(step, self.sink + 1, self.value) && next == (LocationView {
                    sink: self.sink + 1,
                    ..self.after_confirmation()
                })
            } else {
                step is Failed || self.after_removal().replay_goes_on(next, step)
            },
            Phase::Delivering => step is Failed && !delivered || if self.sink + 1
                < self.sinks.len() {
                asks_to_send(step, self.sink + 1, self.value) && next == (LocationView {
                    sink: self.sink + 1,
                    ..self.after_delivery(delivered)
                })
            } else {
                step is Done && next == (LocationView {
                    phase: Phase::Idle,
                    connection_ok: !self.after_delivery(delivered).failed,
                    ..self.after_delivery(delivered)
                })
            },
        }
    }

    /// What [`Location::handle_message`] leads to.
    pub open spec fn message_handled(
        self,
        message: ParsedMessage,
        now: UtcTime,
        next: LocationView,
        step: Step,
    ) -> bool {
        self.report_begun(message, now, utc_text(now), next, step)
    }

    /// What [`Location::begin_report`] leads to, where `stamp` is the
    /// text of the time `now`.
    pub open spec fn report_begun(
        self,
        message: ParsedMessage,
        now: UtcTime,
        stamp: Option<Seq<u8>>,
        next: LocationView,
        step: Step,
    ) -> bool {
        match (location_sentence(self.mmsi, message, now), stamp) {
            (Some(payload), Some(stamp)) => if self.sinks.len() == 0 {
                step is Done && next == (LocationView { phase: Phase::Idle, ..self })
            } else if !self.connection_ok {
                step is Failed || (step is Done && next == (LocationView {
                    phase: Phase::Idle,
                    store: stored_for(self.store, self.sinks, self.sinks.len() as int, stamp, payload),
                    ..self
                }))
            } else {
                asks_to_send(step, 0, payload) && next == (LocationView {
                    phase: Phase::Delivering,
                    value: payload,
                    stamp,
                    sink: 0,
                    failed: false,
                    ..self
                })
            },
            _ => step is Done && next == (LocationView { phase: Phase::Idle, ..self }),
        }
    }
}

/// What a sink took, it has taken, whatever is taken afterwards.
pub proof fn lemma_confirmed_stays(
    log: Seq<Delivery>,
    more: Delivery,
    sink: int,
    key: Seq<u8>,
    payload: Seq<u8>,
)
    ensures
        confirmed(log, sink, key, payload) ==> confirmed(log.push(more), sink, key, payload),
        confirmed(log.push(more), more.sink, more.key, more.payload),
{
    if confirmed(log, sink, key, payload) {
        let i = choose|i: int| 0 <= i < log.len() && log[i] == (Delivery { sink, key, payload });
        assert(log.push(more)[i] == (Delivery { sink, key, payload }));
    }
    assert(log.push(more)[log.len() as int] == more);
}

/// What every sink took, every sink has taken, whatever is taken afterwards.
pub proof fn lemma_sent_to_all_stays(v: LocationView, key: Seq<u8>, payload: Seq<u8>)
    requires
        v.sent_to_all(key, payload),
    ensures
        v.after_confirmation().sent_to_all(key, payload),
{
    let w = v.after_confirmation();
    let more = Delivery { sink: v.sink, key: v.key, payload: v.value };
    assert forall|s: int| 0 <= s < w.sinks.len() implies #[trigger] confirmed(
        w.delivered,
        s,
        key,
        payload,
    ) by {
        assert(confirmed(v.delivered, s, key, payload));
        lemma_confirmed_stays(v.delivered, more, s, key, payload);
    }
}

/// When a sink has taken the report that is replayed, the replay still
/// keeps to what it kept to before.
pub proof fn lemma_confirmation_keeps(v: LocationView)
    requires
        v.wf(),
        v.phase is Resending,
    ensures
        v.after_confirmation().cycle_invariant(),
        v.after_confirmation().log_concerns(Some(v.key)),
        forall|s: int|
            0 <= s <= v.sink ==> #[trigger] confirmed(
                v.after_confirmation().delivered,
                s,
                v.key,
                v.value,
            ),
{
    let w = v.after_confirmation();
    let more = Delivery { sink: v.sink, key: v.key, payload: v.value };
    assert forall|k: Seq<u8>| #[trigger] w.cycle_start.contains_key(k) implies w.still_stored(k)
        || w.sent_to_all(k, w.cycle_start[k]) by {
        assert(v.cycle_start.contains_key(k));
        if !v.still_stored(k) {
            lemma_sent_to_all_stays(v, k, v.cycle_start[k]);
        }
    }
    assert forall|i: int| 0 <= i < w.delivered.len() implies ({
        let d = #[trigger] w.delivered[i];
        &&& w.cycle_start.contains_key(d.key)
        &&& d.payload == w.cycle_start[d.key]
        &&& w.store.contains_key(d.key) ==> Some(v.key) == Some(d.key)
    }) by {
        if i < v.delivered.len() {
            assert(w.delivered[i] == v.delivered[i]);
        } else {
            assert(w.delivered[i] == more);
            assert(v.store.contains_key(v.key));
        }
    }
    assert forall|s: int| 0 <= s <= v.sink implies #[trigger] confirmed(
        w.delivered,
        s,
        v.key,
        v.value,
    ) by {
        lemma_confirmed_stays(v.delivered, more, s, v.key, v.value);
        if s < v.sink {
            assert(confirmed(v.delivered, s, v.key, v.value));
        }
    }
}

/// When the last sink has taken a stored report, every sink has, and the
/// report can leave the store: the replay keeps to what it kept to before,
/// and nothing that a sink took is stored any longer.
pub proof fn lemma_removal_is_due(v: LocationView)
    requires
        v.wf(),
        v.phase is Resending,
        v.sink + 1 >= v.sinks.len(),
    ensures
        v.after_removal().sent_to_all(v.key, v.value),
        v.after_removal().cycle_invariant(),
        v.after_removal().log_concerns(None),
        v.after_removal().store.dom().finite(),
{
    let c = v.after_confirmation();
    let w = v.after_removal();
    lemma_confirmation_keeps(v);
    assert(w.delivered == c.delivered);
    assert forall|s: int| 0 <= s < w.sinks.len() implies #[trigger] confirmed(
        w.delivered,
        s,
        v.key,
        v.value,
    ) by {
        assert(confirmed(c.delivered, s, v.key, v.value));
    }
    assert(v.cycle_start.contains_key(v.key) && v.cycle_start[v.key] == v.value) by {
        assert(v.store.contains_key(v.key));
    }
    assert forall|k: Seq<u8>| #[trigger] w.cycle_start.contains_key(k) implies w.still_stored(k)
        || w.sent_to_all(k, w.cycle_start[k]) by {
        assert(c.cycle_start.contains_key(k));
        if k != v.key {
            if !c.still_stored(k) {
                assert(c.sent_to_all(k, c.cycle_start[k]));
                assert forall|s: int| 0 <= s < w.sinks.len() implies #[trigger] confirmed(
                    w.delivered,
                    s,
                    k,
                    w.cycle_start[k],
                ) by {
                    assert(confirmed(c.delivered, s, k, c.cycle_start[k]));
                }
            }
        }
    }
    assert forall|k: Seq<u8>| #[trigger] w.store.contains_key(k) implies w.cycle_start.contains_key(
        k,
    ) && w.still_stored(k) by {
        assert(v.store.contains_key(k));
    }
    assert forall|k: Seq<u8>, later: Seq<u8>|
        #[trigger] w.cycle_start.contains_key(k) && !w.store.contains_key(k)
            && #[trigger] w.store.contains_key(later) implies bytes_lt(k, later) by {
        assert(v.store.contains_key(later));
        if k == v.key {
        } else {
            assert(v.cycle_start.contains_key(k) && !v.store.contains_key(k));
        }
    }
    assert forall|i: int| 0 <= i < w.delivered.len() implies ({
        let d = #[trigger] w.delivered[i];
        &&& w.cycle_start.contains_key(d.key)
        &&& d.payload == w.cycle_start[d.key]
        &&& w.store.contains_key(d.key) ==> None::<Seq<u8>> == Some(d.key)
    }) by {
        let d = c.delivered[i];
        assert(c.store.contains_key(d.key) ==> Some(v.key) == Some(d.key));
    }
}

/// No report leaves the store during a replay unless every sink took it.
pub proof fn lemma_nothing_leaves_unsent(
    v: LocationView,
    delivered: bool,
    next: LocationView,
    step: Step,
)
    requires
        v.wf(),
        v.result_taken(delivered, next, step),
        !(step is Failed),
    ensures
        forall|k: Seq<u8>|
            v.store.contains_key(k) && !(#[trigger] next.store.contains_key(k)) ==> next.sent_to_all(
                k,
                v.store[k],
            ),
{
    if v.phase is Resending && delivered && v.sink + 1 >= v.sinks.len() {
        lemma_removal_is_due(v);
        let w = v.after_removal();
        assert(w.replay_goes_on(next, step));
        assert(next.delivered == w.delivered);
        assert(next.sinks == w.sinks);
        assert forall|k: Seq<u8>|
            v.store.contains_key(k) && !(#[trigger] next.store.contains_key(k)) implies next.sent_to_all(
            k,
            v.store[k],
        ) by {
            if k != v.key {
                assert(w.store.contains_key(k));
                assert(w.store.dom().contains(k));
                if w.store.len() == 0 {
                    w.store.dom().lemma_len0_is_empty();
                }
            }
        }
    }
}

/// A replay that comes to its end, with nothing left unread, leaves the
/// store empty, and every sink took every report that was stored when the
/// replay began. The sinks then count as reachable.
pub proof fn lemma_replay_at_least_once(v: LocationView, next: LocationView, step: Step)
    requires
        v.wf(),
        v.phase is Resending,
        v.result_taken(true, next, step),
        step is Done,
        !next.unread,
    ensures
        next.store == empty_store(),
        next.connection_ok,
        next.cycle_start == v.cycle_start,
        forall|k: Seq<u8>| #[trigger]
            v.cycle_start.contains_key(k) ==> next.sent_to_all(k, v.cycle_start[k]),
{
    lemma_removal_is_due(v);
    let w = v.after_removal();
    assert(w.replay_goes_on(next, step));
    assert(w.store.len() == 0);
    w.store.dom().lemma_len0_is_empty();
    assert forall|k: Seq<u8>| #[trigger] v.cycle_start.contains_key(k) implies next.sent_to_all(
        k,
        v.cycle_start[k],
    ) by {
        assert(w.cycle_start.contains_key(k));
        assert(!w.store.dom().contains(k));
        assert(!w.still_stored(k));
        assert(w.sent_to_all(k, w.cycle_start[k]));
    }
}

/// A sink that refuses a stored report ends the replay. The report that
/// was refused and every report behind it stay stored as they were; the
/// reports before it are gone, and every sink took each of them. Nothing
/// that comes behind the refused report was sent to any sink.
pub proof fn lemma_refusal_keeps_the_rest(v: LocationView, next: LocationView, step: Step)
    requires
        v.wf(),
        v.phase is Resending,
        v.result_taken(false, next, step),
    ensures
        step is Done,
        next.phase is Idle,
        !next.connection_ok,
        next.store == v.store,
        next.delivered == v.delivered,
        forall|k: Seq<u8>| #[trigger]
            v.cycle_start.contains_key(k) ==> if bytes_lt(k, v.key) {
                !next.store.contains_key(k) && next.sent_to_all(k, v.cycle_start[k])
            } else {
                next.store.contains_key(k) && next.store[k] == v.cycle_start[k]
            },
        forall|i: int|
            0 <= i < next.delivered.len() ==> (#[trigger] next.delivered[i]).key == v.key || bytes_lt(
                next.delivered[i].key,
                v.key,
            ),
{
    crate::cache::lemma_bytes_lt_irreflexive(v.key);
    assert forall|k: Seq<u8>| #[trigger] v.cycle_start.contains_key(k) implies if bytes_lt(
        k,
        v.key,
    ) {
        !next.store.contains_key(k) && next.sent_to_all(k, v.cycle_start[k])
    } else {
        next.store.contains_key(k) && next.store[k] == v.cycle_start[k]
    } by {
        assert(v.store.contains_key(v.key));
        if v.store.contains_key(k) {
            assert(v.still_stored(k));
            if k != v.key {
                assert(bytes_lt(v.key, k));
                lemma_bytes_lt_asymmetric(v.key, k);
            }
        } else {
            assert(bytes_lt(k, v.key));
            assert(v.still_stored(k) || v.sent_to_all(k, v.cycle_start[k]));
        }
    }
    assert forall|i: int| 0 <= i < next.delivered.len() implies (#[trigger] next.delivered[i]).key
        == v.key || bytes_lt(next.delivered[i].key, v.key) by {
        let d = v.delivered[i];
        assert(v.cycle_start.contains_key(d.key));
        if d.key != v.key {
            assert(!v.store.contains_key(d.key));
            assert(v.store.contains_key(v.key));
        }
    }
}

/// Of two byte strings, only one comes before the other.
pub proof fn lemma_bytes_lt_asymmetric(a: Seq<u8>, b: Seq<u8>)
    requires
        bytes_lt(a, b),
    ensures
        !bytes_lt(b, a),
    decreases a.len(),
{
    if a.len() > 0 && b.len() > 0 && a[0] == b[0] {
        lemma_bytes_lt_asymmetric(a.skip(1), b.skip(1));
    }
}

/// A replay starts from what is stored, and forgets what the sinks took
/// before. If nothing is stored it is over at once, without a word to any
/// sink, and the sinks count as reachable.
pub proof fn lemma_replay_begins(v: LocationView, next: LocationView, step: Step)
    requires
        v.wf(),
        v.replay_begun(next, step),
    ensures
        step is Send ==> next.cycle_start == v.store && next.delivered.len() == 0 && next.store
            == v.store,
        v.store.len() == 0 ==> step is Done && next.connection_ok && !next.unread && next.store
            == v.store,
{
    if v.store.len() == 0 && step is Done {
        v.store.dom().lemma_len0_is_empty();
        assert(next.store =~= v.store);
    }
}

/// What the worker does after it woke up: a position is reported, after
/// a replay if the sinks did not take what was last sent to them; a timeout
/// leads to a replay; the end of the channel ends the worker.
pub open spec fn plan_for(connection_ok: bool, wake: Wake) -> Plan {
    match wake {
        Wake::Message(message) => if connection_ok {
            Plan::Handle(message)
        } else {
            Plan::ResendThenHandle(message)
        },
        Wake::Timeout => Plan::Resend,
        Wake::Disconnected => Plan::Stop,
    }
}

/// What the text holds, if there is one.
pub open spec fn text_of(stamp: Option<Vec<u8>>) -> Option<Seq<u8>> {
    match stamp {
        Some(text) => Some(text@),
        None => None,
    }
}

/// A copy of the bytes.
fn copy_of(bytes: &Vec<u8>) -> (r: Vec<u8>)
    ensures
        r@ == bytes@,
{
    vstd::slice::slice_to_vec(bytes.as_slice())
}

/// The worker that reports the vessel's position.
pub struct Location {
    sinks: Vec<Vec<u8>>,
    persistence: Persistence,
    mmsi: u32,
    connection_ok: bool,
    unread: bool,
    phase: Phase,
    key: Vec<u8>,
    value: Vec<u8>,
    sink: usize,
    stamp: Vec<u8>,
    failed: bool,
    cycle_start: Ghost<Map<Seq<u8>, Seq<u8>>>,
    delivered: Ghost<Seq<Delivery>>,
}

impl View for Location {
    type V = LocationView;

    closed spec fn view(&self) -> LocationView {
        LocationView {
            sinks: views(self.sinks@),
            store: self.persistence@,
            mmsi: self.mmsi,
            connection_ok: self.connection_ok,
            unread: self.unread,
            phase: self.phase,
            key: self.key@,
            value: self.value@,
            sink: self.sink as int,
            stamp: self.stamp@,
            failed: self.failed,
            cycle_start: self.cycle_start@,
            delivered: self.delivered@,
        }
    }
}

impl Location {
    /// What holds of the worker between two steps, unless the store failed.
    pub closed spec fn wf(&self) -> bool {
        &&& self.persistence.wf()
        &&& self@.wf()
    }

    /// The worker is in the middle of a replay: its store is sound, of
    /// what the store held when the replay began everything is still
    /// stored or was taken by every sink, and nothing was left unread.
    pub closed spec fn replaying(&self) -> bool {
        &&& self.persistence.wf()
        &&& self@.store.dom().finite()
        &&& self@.cycle_invariant()
        &&& self@.log_concerns(None)
        &&& !self@.unread
    }

    /// What holds of the worker holds of it as its contracts see it.
    pub proof fn lemma_wf_view(&self)
        requires
            self.wf(),
        ensures
            self@.wf(),
    {
    }

    /// A worker for the sinks with these names, in this order, over this
    /// store, for the vessel with this MMSI. Nothing was sent yet, so the
    /// sinks do not count as reachable. A replay can begin.
    pub fn new(sinks: Vec<Vec<u8>>, persistence: Persistence, mmsi: u32) -> (r: Self)
        requires
            persistence.wf(),
        ensures
            r.wf(),
            r.replaying(),
            r@.sinks == views(sinks@),
            r@.store == persistence@,
            r@.mmsi == mmsi,
            r@.phase is Idle,
            !r@.connection_ok,
            !r@.unread,
    {
        let ghost stored = persistence@;
        Location {
            sinks,
            persistence,
            mmsi,
            connection_ok: false,
            unread: false,
            phase: Phase::Idle,
            key: Vec::new(),
            value: Vec::new(),
            sink: 0,
            stamp: Vec::new(),
            failed: false,
            cycle_start: Ghost(stored),
            delivered: Ghost(Seq::empty()),
        }
    }

    /// Whether the sinks took what was last sent to them.
    pub fn connection_ok(&self) -> (r: bool)
        ensures
            r == self@.connection_ok,
    {
        self.connection_ok
    }

    /// Whether the last replay had to leave entries behind because the
    /// store could not be read.
    pub fn unread(&self) -> (r: bool)
        ensures
            r == self@.unread,
    {
        self.unread
    }

    /// What the worker is busy with.
    pub fn phase(&self) -> (r: Phase)
        ensures
            r == self@.phase,
    {
        self.phase
    }

    /// The number of the location sinks.
    pub fn sink_count(&self) -> (n: usize)
        ensures
            n == self@.sinks.len(),
    {
        self.sinks.len()
    }

    /// The number of reports that wait for delivery.
    pub fn count(&self) -> (n: usize)
        requires
            self.wf(),
        ensures
            n == self@.store.len(),
    {
        self.persistence.count()
    }

    /// The store of the reports that wait for delivery.
    pub fn persistence(&self) -> (r: &Persistence)
        ensures
            r@ == self@.store,
    {
        &self.persistence
    }

    /// Decides what is to be done after the worker woke up.
    pub fn wake(&self, wake: Wake) -> (plan: Plan)
        ensures
            plan == plan_for(self@.connection_ok, wake),
    {
        match wake {
            Wake::Message(message) => if self.connection_ok {
                Plan::Handle(message)
            } else {
                Plan::ResendThenHandle(message)
            },
            Wake::Timeout => Plan::Resend,
            Wake::Disconnected => Plan::Stop,
        }
    }

    /// Takes in what the store answered when it was asked for its first
    /// entry, during a replay to at least one sink.
    ///
    /// The entry that the store named is replayed: the worker asks to send
    /// its value to the first sink. Where the store could not be read, or
    /// named nothing, the replay is over; what is stored stays stored, is
    /// marked as left unread, and the sinks count as reachable.
    pub fn replay_step(&mut self, first: Result<Option<(Vec<u8>, Vec<u8>)>, PersistenceError>) -> (step:
        Step)
        requires
            old(self).replaying(),
            old(self)@.sinks.len() > 0,
            old(self)@.store.len() > 0,
            first matches Ok(Some(e)) ==> is_first(old(self)@.store, e.0@, e.1@),
        ensures
            match first {
                Ok(Some(e)) => asks_to_send(step, 0, e.1@) && final(self)@ == (LocationView {
                    phase: Phase::Resending,
                    key: e.0@,
                    value: e.1@,
                    sink: 0,
                    ..old(self)@
                }),
                _ => step is Done && final(self)@ == (LocationView {
                    phase: Phase::Idle,
                    connection_ok: true,
                    unread: true,
                    ..old(self)@
                }),
            },
            final(self).wf(),
    {
        match first {
            Ok(Some(entry)) => {
                let payload = copy_of(&entry.1);
                self.key = entry.0;
                self.value = entry.1;
                self.sink = 0;
                self.phase = Phase::Resending;
                proof {
                    let v = old(self)@;
                    let w = self@;
                    assert(w.cycle_invariant());
                    assert forall|i: int| 0 <= i < w.delivered.len() implies ({
                        let d = #[trigger] w.delivered[i];
                        &&& w.cycle_start.contains_key(d.key)
                        &&& d.payload == w.cycle_start[d.key]
                        &&& w.store.contains_key(d.key) ==> Some(w.key) == Some(d.key)
                    }) by {
                        let d = v.delivered[i];
                        assert(v.store.contains_key(d.key) ==> None::<Seq<u8>> == Some(d.key));
                    }
                }
                Step::Send { sink: 0, payload }
            },
            _ => {
                self.unread = true;
                self.phase = Phase::Idle;
                self.connection_ok = true;
                Step::Done
            },
        }
    }

    /// Takes in what the store answered when it was asked for its first
    /// entry, during a replay to no sink at all.
    ///
    /// With no sink to take it, the entry that the store named leaves the
    /// store at once, and the replay goes on: nothing comes back. Where the
    /// store could not be read, or named nothing, the replay is over as
    /// [`replay_step`](Self::replay_step) says. Where the store fails to
    /// take the entry out, the worker cannot go on.
    pub fn discard_step(&mut self, first: Result<Option<(Vec<u8>, Vec<u8>)>, PersistenceError>) -> (step:
        Option<Step>)
        requires
            old(self).replaying(),
            old(self)@.sinks.len() == 0,
            old(self)@.store.len() > 0,
            first matches Ok(Some(e)) ==> is_first(old(self)@.store, e.0@, e.1@),
        ensures
            match first {
                Ok(Some(e)) => match step {
                    None => final(self).replaying() && final(self)@ == (LocationView {
                        store: old(self)@.store.remove(e.0@),
                        ..old(self)@
                    }) && final(self)@.store.len() == old(self)@.store.len() - 1,
                    Some(s) => s is Failed,
                },
                _ => step == Some(Step::Done) && final(self).wf() && final(self)@ == (LocationView {
                    phase: Phase::Idle,
                    connection_ok: true,
                    unread: true,
                    ..old(self)@
                }),
            },
    {
        match first {
            Ok(Some(entry)) => {
                match self.persistence.remove(entry.0.as_slice()) {
                    Ok(_) => {},
                    Err(e) => {
                        return Some(Step::Failed(e));
                    },
                }
                match self.persistence.flush() {
                    Ok(_) => {},
                    Err(e) => {
                        return Some(Step::Failed(e));
                    },
                }
                proof {
                    let v = old(self)@;
                    let w = self@;
                    assert(v.store.dom().contains(entry.0@));
                    assert forall|k: Seq<u8>| #[trigger] w.cycle_start.contains_key(k) implies w.still_stored(
                        k,
                    ) || w.sent_to_all(k, w.cycle_start[k]) by {
                        assert(v.cycle_start.contains_key(k));
                    }
                    assert forall|k: Seq<u8>| #[trigger] w.store.contains_key(k) implies w.cycle_start.contains_key(
                    k) && w.still_stored(k) by {
                        assert(v.store.contains_key(k));
                    }
                    assert forall|k: Seq<u8>, later: Seq<u8>|
                        #[trigger] w.cycle_start.contains_key(k) && !w.store.contains_key(k)
                            && #[trigger] w.store.contains_key(later) implies bytes_lt(k, later) by {
                        assert(v.store.contains_key(later));
                        if k != entry.0@ {
                            assert(v.cycle_start.contains_key(k) && !v.store.contains_key(k));
                        }
                    }
                    assert forall|i: int| 0 <= i < w.delivered.len() implies ({
                        let d = #[trigger] w.delivered[i];
                        &&& w.cycle_start.contains_key(d.key)
                        &&& d.payload == w.cycle_start[d.key]
                        &&& w.store.contains_key(d.key) ==> None::<Seq<u8>> == Some(d.key)
                    }) by {
                        let d = v.delivered[i];
                        assert(v.store.contains_key(d.key) ==> None::<Seq<u8>> == Some(d.key));
                    }
                }
                None
            },
            _ => {
                self.unread = true;
                self.phase = Phase::Idle;
                self.connection_ok = true;
                Some(Step::Done)
            },
        }
    }

    /// Goes on with a replay: asks to send the first stored report to the
    /// first sink, or ends the replay if nothing is stored any more.
    fn advance(&mut self) -> (step: Step)
        requires
            old(self).replaying(),
        ensures
            old(self)@.replay_goes_on(final(self)@, step),
            !(step is Failed) ==> final(self).wf(),
    {
        if self.persistence.count() == 0 {
            self.phase = Phase::Idle;
            self.connection_ok = true;
            proof {
                old(self)@.store.dom().lemma_len0_is_empty();
                assert(self@.store =~= Map::empty());
            }
            return Step::Done;
        }
        if self.sinks.len() == 0 {
            while self.persistence.count() > 0
                invariant
                    self.replaying(),
                    self@.store.dom().subset_of(old(self)@.store.dom()),
                    self@ == (LocationView {
                        store: old(self)@.store.restrict(self@.store.dom()),
                        ..old(self)@
                    }),
                    self@.sinks.len() == 0,
                    old(self)@.store.len() > 0,
                decreases self@.store.len(),
            {
                let first = self.persistence.first();
                let ghost before = self@;
                match self.discard_step(first) {
                    None => {
                        assert(self@.store =~= old(self)@.store.restrict(self@.store.dom()));
                    },
                    Some(step) => {
                        proof {
                            if step is Done {
                                assert(self@.store =~= old(self)@.store.restrict(self@.store.dom()));
                                assert(self@ =~= (LocationView {
                                    phase: Phase::Idle,
                                    connection_ok: true,
                                    unread: true,
                                    store: old(self)@.store.restrict(self@.store.dom()),
                                    ..old(self)@
                                }));
                            }
                        }
                        return step;
                    },
                }
            }
            self.phase = Phase::Idle;
            self.connection_ok = true;
            proof {
                self@.store.dom().lemma_len0_is_empty();
                assert(self@.store =~= Map::empty());
            }
            return Step::Done;
        }
        let first = self.persistence.first();
        let step = self.replay_step(first);
        proof {
            if step is Done {
                assert(self@.store =~= old(self)@.store.restrict(self@.store.dom()));
            }
        }
        step
    }

    /// Begins to replay what is stored.
    ///
    /// The stored reports are sent first key first, each to every sink in
    /// turn. A report that every sink took leaves the store, and what was
    /// written is forced to the disk. The replay ends when nothing is
    /// stored any more: the sinks then count as reachable. It ends too when
    /// the store cannot be read; what it could not read stays stored.
    pub fn resend_messages(&mut self) -> (step: Step)
        requires
            old(self).wf(),
        ensures
            old(self)@.replay_begun(final(self)@, step),
            !(step is Failed) ==> final(self).wf(),
    {
        self.cycle_start = Ghost(self.persistence@);
        self.delivered = Ghost(Seq::empty());
        self.unread = false;
        assert(self@ =~= old(self)@.at_cycle_start());
        assert(self@.cycle_invariant());
        self.advance()
    }

    /// Takes in whether the sink took what the worker asked to send to it,
    /// and names the next step.
    ///
    /// During a replay, a sink that does not take a stored report ends
    /// the replay, and the sinks count as unreachable; the report stays
    /// stored. While a position is reported, it is stored for each sink
    /// that does not take it, under the time and the name of that sink,
    /// and the other sinks are still asked; in the end the sinks count as
    /// reachable if all of them took it.
    pub fn send_result(&mut self, delivered: bool) -> (step: Step)
        requires
            old(self).wf(),
        ensures
            old(self)@.result_taken(delivered, final(self)@, step),
            !(step is Failed) ==> final(self).wf(),
    {
        let n = self.sinks.len();
        assert(self@.sinks.len() == n);
        match self.phase {
            Phase::Idle => Step::Done,
            Phase::Resending => {
                if !delivered {
                    self.phase = Phase::Idle;
                    self.connection_ok = false;
                    return Step::Done;
                }
                let ghost more = Delivery {
                    sink: self.sink as int,
                    key: self.key@,
                    payload: self.value@,
                };
                self.delivered = Ghost(self.delivered@.push(more));
                assert(self@ =~= old(self)@.after_confirmation());
                proof {
                    lemma_confirmation_keeps(old(self)@);
                }
                if self.sink + 1 < n {
                    self.sink = self.sink + 1;
                    let payload = copy_of(&self.value);
                    return Step::Send { sink: self.sink, payload };
                }
                proof {
                    lemma_removal_is_due(old(self)@);
                }
                match self.persistence.remove(self.key.as_slice()) {
                    Ok(_) => {},
                    Err(e) => {
                        return Step::Failed(e);
                    },
                }
                match self.persistence.flush() {
                    Ok(_) => {},
                    Err(e) => {
                        return Step::Failed(e);
                    },
                }
                assert(self@ =~= old(self)@.after_removal());
                self.advance()
            },
            Phase::Delivering => {
                if !delivered {
                    let key = key_from(self.stamp.as_slice(), self.sinks[self.sink].as_slice());
                    match self.persistence.store(key.as_slice(), self.value.as_slice()) {
                        Ok(_) => {},
                        Err(e) => {
                            return Step::Failed(e);
                        },
                    }
                    match self.persistence.flush() {
                        Ok(_) => {},
                        Err(e) => {
                            return Step::Failed(e);
                        },
                    }
                    self.failed = true;
                }
                assert(self@ =~= old(self)@.after_delivery(delivered));
                if self.sink + 1 < n {
                    self.sink = self.sink + 1;
                    let payload = copy_of(&self.value);
                    Step::Send { sink: self.sink, payload }
                } else {
                    self.phase = Phase::Idle;
                    if self.failed {
                        self.connection_ok = false;
                    }
                    Step::Done
                }
            },
        }
    }

    /// Begins to report a position that was decoded at the time `now`.
    ///
    /// The report is worded as [`location_sentence`] says. While the sinks
    /// count as reachable it is sent to each of them in turn. While they do
    /// not, it is stored for each of them, under the time and the name of
    /// the sink, and nothing is sent. A sentence that holds no position is
    /// passed over, and so is a position at a time that the calendar does
    /// not have.
    pub fn handle_message(&mut self, message: &ParsedMessage, now: &UtcTime) -> (step: Step)
        requires
            old(self).wf(),
        ensures
            old(self)@.message_handled(*message, *now, final(self)@, step),
            !(step is Failed) ==> final(self).wf(),
    {
        let stamp = time_stamp(now);
        self.begin_report(message, now, stamp)
    }

    /// Begins to report a position that was decoded at the time `now`,
    /// where `stamp` is the text of that time for the keys of the store, or
    /// nothing if the time has no text.
    pub fn begin_report(&mut self, message: &ParsedMessage, now: &UtcTime, stamp: Option<Vec<u8>>) -> (step:
        Step)
        requires
            old(self).wf(),
        ensures
            old(self)@.report_begun(*message, *now, text_of(stamp), final(self)@, step),
            !(step is Failed) ==> final(self).wf(),
    {
        self.phase = Phase::Idle;
        let payload = match format_location(self.mmsi, message, now) {
            Some(payload) => payload,
            None => {
                return Step::Done;
            },
        };
        let ghost given = text_of(stamp);
        let text = match stamp {
            Some(text) => text,
            None => {
                return Step::Done;
            },
        };
        let n = self.sinks.len();
        if n == 0 {
            return Step::Done;
        }
        if !self.connection_ok {
            let mut i: usize = 0;
            while i < n
                invariant
                    i <= n,
                    0 < n == self.sinks@.len(),
                    n == old(self)@.sinks.len(),
                    !old(self)@.connection_ok,
                    location_sentence(old(self)@.mmsi, *message, *now) == Some(payload@),
                    given == Some(text@),
                    given == text_of(stamp),
                    self.persistence.wf(),
                    self@ == (LocationView {
                        phase: Phase::Idle,
                        store: stored_for(old(self)@.store, old(self)@.sinks, i as int, text@, payload@),
                        ..old(self)@
                    }),
                decreases n - i,
            {
                let key = key_from(text.as_slice(), self.sinks[i].as_slice());
                match self.persistence.store(key.as_slice(), payload.as_slice()) {
                    Ok(_) => {},
                    Err(e) => {
                        return Step::Failed(e);
                    },
                }
                match self.persistence.flush() {
                    Ok(_) => {},
                    Err(e) => {
                        return Step::Failed(e);
                    },
                }
                i = i + 1;
                assert(self@ =~= (LocationView {
                    phase: Phase::Idle,
                    store: stored_for(old(self)@.store, old(self)@.sinks, i as int, text@, payload@),
                    ..old(self)@
                }));
            }
            return Step::Done;
        }
        let copy = copy_of(&payload);
        self.value = payload;
        self.stamp = text;
        self.sink = 0;
        self.failed = false;
        self.phase = Phase::Delivering;
        Step::Send { sink: 0, payload: copy }
    }
}

} // verus!
