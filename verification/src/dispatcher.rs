//! The dispatcher: which sentences go to the AIS sinks, and when the
//! vessel's own position is reported.
//!
//! Every line that the provider delivers is decoded and then handed to
//! [`Dispatcher::handle_line`] together with the time on a clock that counts
//! seconds and never runs backwards. The answer says what is to be sent to
//! the AIS sinks and which sentence, if any, is to be reported as the
//! vessel's position.

use vstd::prelude::*;
use std::collections::HashMap;
use crate::message::ParsedMessage;
use crate::text::push_bytes;

verus! {

/// Seconds between two sentences of one kind from one vessel, unless the
/// configuration says otherwise.
pub const DEFAULT_INTERVAL: u64 = 60;

/// Seconds between two reports of the own position while the vessel moves,
/// unless the configuration says otherwise.
pub const DEFAULT_LOCATION_INTERVAL: u64 = 600;

/// Seconds after which the own position is reported even if the vessel
/// lies still, unless the configuration says otherwise.
pub const DEFAULT_LOCATION_ANCHOR_INTERVAL: u64 = 86_400;

/// A thousandth of a degree: the vessel moves when its latitude or its
/// longitude has changed by more than this.
pub const MOTION_THRESHOLD: i64 = 6_000;

/// When sentences of a vessel were last passed on, in seconds on the
/// dispatcher's clock.
#[derive(Clone, Copy, Debug, PartialEq, Eq, Structural)]
pub struct LastSent {
    /// The last position report.
    pub vessel_dynamic_data: i128,
    /// The last report of name and dimensions.
    pub vessel_static_data: i128,
}

/// What is to be done with a line.
#[derive(Debug, PartialEq, Eq)]
pub struct Dispatch {
    /// What is to be sent to every AIS sink, in the order in which the
    /// sinks were configured. If a sink fails, the dispatcher is to be
    /// given up and the position is not reported.
    pub broadcast: Option<Vec<u8>>,
    /// The sentence that is to be reported as the vessel's position.
    pub location: Option<ParsedMessage>,
}

/// A dispatcher as its contracts see it.
pub struct DispatcherView {
    pub interval: u64,
    pub location_interval: u64,
    pub location_anchor_interval: u64,
    pub last_sent: Map<u32, LastSent>,
    pub last_sent_location: int,
    pub fragments: Seq<u8>,
    pub allow_ais_for_location: bool,
    pub prev_lat: i64,
    pub prev_long: i64,
}

/// The outcome of a line as the contracts see it.
pub struct Dispatched {
    pub state: DispatcherView,
    pub broadcast: Option<Seq<u8>>,
    pub location: Option<ParsedMessage>,
}

/// Whether the vessel has moved: both coordinates are known, and one of
/// them differs from the last reported one by more than a thousandth of a
/// degree.
pub open spec fn moving(lat: Option<i64>, long: Option<i64>, prev_lat: i64, prev_long: i64) -> bool {
    &&& lat matches Some(a)
    &&& long matches Some(b)
    &&& (a - prev_lat > 6_000 || prev_lat - a > 6_000 || b - prev_long > 6_000 || prev_long - b
        > 6_000)
}

/// The vessel, whether it is the own one, and whether the sentence is a
/// position report, for the sentences whose rate is limited.
pub open spec fn limited(message: ParsedMessage) -> Option<(u32, bool, bool)> {
    match message {
        ParsedMessage::VesselDynamicData { mmsi, own_vessel, .. } => Some((mmsi, own_vessel, true)),
        ParsedMessage::VesselStaticData { mmsi, own_vessel } => Some((mmsi, own_vessel, false)),
        _ => None,
    }
}

/// Whether the sentence is of this kind and from this vessel.
pub open spec fn concerns(message: ParsedMessage, mmsi: u32, dynamic: bool) -> bool {
    match limited(message) {
        Some((m, own_vessel, d)) => m == mmsi && d == dynamic,
        None => false,
    }
}

/// The interval that applies to a sentence, if its rate is limited.
pub open spec fn interval_of(message: ParsedMessage, interval: u64, location_interval: u64) -> u64 {
    match limited(message) {
        Some((mmsi, own_vessel, dynamic)) => interval_for(own_vessel, interval, location_interval),
        None => 0,
    }
}

/// The interval that applies to a vessel.
pub open spec fn interval_for(own_vessel: bool, interval: u64, location_interval: u64) -> u64 {
    if own_vessel {
        location_interval
    } else {
        interval
    }
}

/// The row of a vessel that is seen for the first time: both kinds of
/// sentence count as sent one interval ago.
pub open spec fn seeded(now: u64, interval: u64) -> LastSent {
    LastSent {
        vessel_dynamic_data: (now - interval) as i128,
        vessel_static_data: (now - interval) as i128,
    }
}

/// The row of a vessel, seeded if the vessel is new.
pub open spec fn row_of(table: Map<u32, LastSent>, mmsi: u32, now: u64, interval: u64) -> LastSent {
    if table.contains_key(mmsi) {
        table[mmsi]
    } else {
        seeded(now, interval)
    }
}

/// When a sentence of this kind was last passed on.
pub open spec fn stamp(row: LastSent, dynamic: bool) -> int {
    if dynamic {
        row.vessel_dynamic_data as int
    } else {
        row.vessel_static_data as int
    }
}

/// The row after a sentence of this kind was passed on at `now`.
pub open spec fn stamped(row: LastSent, dynamic: bool, now: u64) -> LastSent {
    if dynamic {
        LastSent { vessel_dynamic_data: now as i128, vessel_static_data: row.vessel_static_data }
    } else {
        LastSent { vessel_dynamic_data: row.vessel_dynamic_data, vessel_static_data: now as i128 }
    }
}

/// Whether a sentence may be passed on: at least `interval` seconds have
/// gone by since the last one of its kind from this vessel.
pub open spec fn passes(
    table: Map<u32, LastSent>,
    mmsi: u32,
    dynamic: bool,
    interval: u64,
    now: u64,
) -> bool {
    now - stamp(row_of(table, mmsi, now, interval), dynamic) >= interval
}

/// The table after a sentence was looked at.
pub open spec fn checked(
    table: Map<u32, LastSent>,
    mmsi: u32,
    dynamic: bool,
    interval: u64,
    now: u64,
) -> Map<u32, LastSent> {
    let row = row_of(table, mmsi, now, interval);
    table.insert(
        mmsi,
        if passes(table, mmsi, dynamic, interval, now) {
            stamped(row, dynamic, now)
        } else {
            row
        },
    )
}

/// Whether the own position is due: the anchor interval has gone by since
/// the last report, or the location interval has and the vessel has moved.
pub open spec fn location_due(
    last: int,
    location_interval: u64,
    location_anchor_interval: u64,
    now: u64,
    has_moved: bool,
) -> bool {
    now >= last + location_anchor_interval || (now >= last + location_interval && has_moved)
}

/// Whether the sentence may serve as the own position, and the position it
/// holds. `None` for the sentences that the dispatcher passes over.
pub open spec fn classify(message: ParsedMessage, allow_ais: bool) -> Option<
    (bool, Option<i64>, Option<i64>),
> {
    match message {
        ParsedMessage::VesselDynamicData { mmsi, own_vessel, latitude, longitude } => Some(
            (allow_ais && own_vessel, latitude, longitude),
        ),
        ParsedMessage::VesselStaticData { .. } => Some((false, None, None)),
        ParsedMessage::Rmc { latitude, longitude, .. } => Some((true, latitude, longitude)),
        _ => None,
    }
}

/// The value, or zero if there is none.
pub open spec fn or_zero(value: Option<i64>) -> i64 {
    match value {
        Some(v) => v,
        None => 0,
    }
}

impl DispatcherView {
    /// The instant from which on a moving vessel reports its position.
    pub open spec fn next_location_instant(self) -> int {
        self.last_sent_location + self.location_interval
    }

    /// The instant from which on the vessel reports its position even if
    /// it lies still.
    pub open spec fn next_location_anchor_instant(self) -> int {
        self.last_sent_location + self.location_anchor_interval
    }

    /// The table after the dispatcher looked at a sentence, and whether the
    /// sentence may be passed on.
    pub open spec fn check(self, message: ParsedMessage, now: u64) -> (Map<u32, LastSent>, bool) {
        match limited(message) {
            Some((mmsi, own_vessel, dynamic)) => {
                let interval = interval_for(own_vessel, self.interval, self.location_interval);
                (
                    checked(self.last_sent, mmsi, dynamic, interval, now),
                    passes(self.last_sent, mmsi, dynamic, interval, now),
                )
            },
            None => (self.last_sent, false),
        }
    }

    /// What a line leads to. `parsed` is what the decoder made of the line,
    /// or `None` if it rejected the line.
    pub open spec fn dispatch(self, line: Seq<u8>, parsed: Option<ParsedMessage>, now: u64) -> Dispatched {
        match parsed {
            None => Dispatched {
                state: DispatcherView { fragments: Seq::empty(), ..self },
                broadcast: None,
                location: None,
            },
            Some(ParsedMessage::Incomplete) => Dispatched {
                state: DispatcherView { fragments: self.fragments + line, ..self },
                broadcast: None,
                location: None,
            },
            Some(message) => match classify(message, self.allow_ais_for_location) {
                None => Dispatched { state: self, broadcast: None, location: None },
                Some((eligible, lat, long)) => {
                    let (table, passed) = self.check(message, now);
                    let due = eligible && location_due(
                        self.last_sent_location,
                        self.location_interval,
                        self.location_anchor_interval,
                        now,
                        moving(lat, long, self.prev_lat, self.prev_long),
                    );
                    Dispatched {
                        state: DispatcherView {
                            last_sent: table,
                            fragments: Seq::empty(),
                            allow_ais_for_location: self.allow_ais_for_location && !(message is Rmc),
                            last_sent_location: if due {
                                now as int
                            } else {
                                self.last_sent_location
                            },
                            prev_lat: if due {
                                or_zero(lat)
                            } else {
                                self.prev_lat
                            },
                            prev_long: if due {
                                or_zero(long)
                            } else {
                                self.prev_long
                            },
                            ..self
                        },
                        broadcast: if passed {
                            Some(self.fragments + line)
                        } else {
                            None
                        },
                        location: if due {
                            Some(message)
                        } else {
                            None
                        },
                    }
                },
            },
        }
    }
}

/// Whether the vessel has moved by more than a thousandth of a degree
/// since its position was last reported.
pub fn is_moving(lat: Option<i64>, long: Option<i64>, prev_lat: i64, prev_long: i64) -> (r: bool)
    ensures
        r == moving(lat, long, prev_lat, prev_long),
{
    match (lat, long) {
        (Some(a), Some(b)) => {
            let lat_diff: i128 = a as i128 - prev_lat as i128;
            let long_diff: i128 = b as i128 - prev_long as i128;
            let limit: i128 = MOTION_THRESHOLD as i128;
            lat_diff > limit || lat_diff < -limit || long_diff > limit || long_diff < -limit
        },
        _ => false,
    }
}

/// Whether a stamp lies where the clock can have put it.
pub open spec fn in_range(stamp: int) -> bool {
    -0x1_0000_0000_0000_0000 <= stamp <= 0x1_0000_0000_0000_0000
}

/// The state of the forwarding between a provider and the sinks.
pub struct Dispatcher {
    interval: u64,
    location_interval: u64,
    location_anchor_interval: u64,
    last_sent: HashMap<u32, LastSent>,
    last_sent_location: i128,
    fragments: Vec<u8>,
    allow_ais_for_location: bool,
    prev_lat: i64,
    prev_long: i64,
}

impl View for Dispatcher {
    type V = DispatcherView;

    closed spec fn view(&self) -> DispatcherView {
        DispatcherView {
            interval: self.interval,
            location_interval: self.location_interval,
            location_anchor_interval: self.location_anchor_interval,
            last_sent: self.last_sent@,
            last_sent_location: self.last_sent_location as int,
            fragments: self.fragments@,
            allow_ais_for_location: self.allow_ais_for_location,
            prev_lat: self.prev_lat,
            prev_long: self.prev_long,
        }
    }
}

impl Dispatcher {
    /// Every stamp that the dispatcher holds lies where the clock can
    /// have put it. This holds of every dispatcher that [`new`](Self::new)
    /// made, whatever was done with it since.
    pub closed spec fn wf(&self) -> bool {
        &&& in_range(self.last_sent_location as int)
        &&& forall|mmsi: u32| #[trigger]
            self.last_sent@.contains_key(mmsi) ==> in_range(
                self.last_sent@[mmsi].vessel_dynamic_data as int,
            ) && in_range(self.last_sent@[mmsi].vessel_static_data as int)
    }

    /// A dispatcher that has seen nothing yet.
    ///
    /// The own position counts as reported one location interval before
    /// `now`, at latitude and longitude zero, so that a first position is
    /// due at once unless the vessel lies there. Positions from the
    /// transponder are accepted until the GNSS receiver has spoken.
    pub fn new(interval: u64, location_interval: u64, location_anchor_interval: u64, now: u64) -> (r:
        Self)
        ensures
            r.wf(),
            r@ == (DispatcherView {
                interval,
                location_interval,
                location_anchor_interval,
                last_sent: Map::empty(),
                last_sent_location: now - location_interval,
                fragments: Seq::empty(),
                allow_ais_for_location: true,
                prev_lat: 0,
                prev_long: 0,
            }),
    {
        Dispatcher {
            interval,
            location_interval,
            location_anchor_interval,
            last_sent: HashMap::new(),
            last_sent_location: now as i128 - location_interval as i128,
            fragments: Vec::new(),
            allow_ais_for_location: true,
            prev_lat: 0,
            prev_long: 0,
        }
    }

    /// The instant from which on a moving vessel reports its position.
    pub fn next_location_instant(&self) -> (r: i128)
        requires
            self.wf(),
        ensures
            r == self@.next_location_instant(),
    {
        self.last_sent_location + self.location_interval as i128
    }

    /// The instant from which on the vessel reports its position even if
    /// it lies still.
    pub fn next_location_anchor_instant(&self) -> (r: i128)
        requires
            self.wf(),
        ensures
            r == self@.next_location_anchor_instant(),
    {
        self.last_sent_location + self.location_anchor_interval as i128
    }

    /// When sentences of a vessel were last passed on, if the vessel was
    /// seen.
    pub fn last_sent(&self, mmsi: u32) -> (r: Option<LastSent>)
        ensures
            r == if self@.last_sent.contains_key(mmsi) {
                Some(self@.last_sent[mmsi])
            } else {
                None
            },
    {
        broadcast use vstd::std_specs::hash::group_hash_axioms;

        match self.last_sent.get(&mmsi) {
            Some(row) => Some(*row),
            None => None,
        }
    }

    /// Whether positions from the transponder still serve as the own
    /// position.
    pub fn allows_ais_for_location(&self) -> (r: bool)
        ensures
            r == self@.allow_ais_for_location,
    {
        self.allow_ais_for_location
    }

    /// Decides whether a sentence is passed on to the AIS sinks, and notes
    /// it if so.
    ///
    /// A position report, or a report of name and dimensions, is passed on
    /// if none of its kind from the same vessel was passed on within the
    /// interval: the location interval for the own vessel, the general one
    /// for others. A vessel that is new counts as having sent both kinds
    /// one interval ago. Sentences of other kinds are not passed on.
    pub fn check_last_sent(&mut self, message: &ParsedMessage, now: u64) -> (passed: bool)
        requires
            old(self).wf(),
        ensures
            final(self).wf(),
            passed == old(self)@.check(*message, now).1,
            final(self)@ == (DispatcherView {
                last_sent: old(self)@.check(*message, now).0,
                ..old(self)@
            }),
    {
        broadcast use vstd::std_specs::hash::group_hash_axioms;

        let (mmsi, own_vessel, dynamic) = match message {
            ParsedMessage::VesselDynamicData { mmsi, own_vessel, .. } => (*mmsi, *own_vessel, true),
            ParsedMessage::VesselStaticData { mmsi, own_vessel } => (*mmsi, *own_vessel, false),
            _ => {
                return false;
            },
        };
        let interval = if own_vessel {
            self.location_interval
        } else {
            self.interval
        };
        let seed: i128 = now as i128 - interval as i128;
        let row = match self.last_sent.get(&mmsi) {
            Some(row) => *row,
            None => LastSent { vessel_dynamic_data: seed, vessel_static_data: seed },
        };
        let last = if dynamic {
            row.vessel_dynamic_data
        } else {
            row.vessel_static_data
        };
        let passed = now as i128 - last >= interval as i128;
        let next = if !passed {
            row
        } else if dynamic {
            LastSent { vessel_dynamic_data: now as i128, vessel_static_data: row.vessel_static_data }
        } else {
            LastSent { vessel_dynamic_data: row.vessel_dynamic_data, vessel_static_data: now as i128 }
        };
        self.last_sent.insert(mmsi, next);
        passed
    }

    /// Takes in a line of the provider and says what is to be done with it.
    ///
    /// `parsed` is what the decoder made of the line, or `None` if it
    /// rejected the line. A part of a sentence is kept until the sentence
    /// is whole. A whole sentence is passed on to the AIS sinks, with the
    /// parts before it, if [`check_last_sent`](Self::check_last_sent) lets
    /// it pass. It is reported as the own position if it comes from the
    /// GNSS receiver, or from the own transponder while no GNSS receiver
    /// has spoken, and if the position is due.
    pub fn handle_line(&mut self, line: &[u8], parsed: Option<ParsedMessage>, now: u64) -> (out:
        Dispatch)
        requires
            old(self).wf(),
        ensures
            final(self).wf(),
            final(self)@ == old(self)@.dispatch(line@, parsed, now).state,
            out.location == old(self)@.dispatch(line@, parsed, now).location,
            match old(self)@.dispatch(line@, parsed, now).broadcast {
                Some(payload) => out.broadcast matches Some(bytes) && bytes@ == payload,
                None => out.broadcast is None,
            },
    {
        let message = match parsed {
            None => {
                self.fragments.clear();
                return Dispatch { broadcast: None, location: None };
            },
            Some(ParsedMessage::Incomplete) => {
                push_bytes(&mut self.fragments, line);
                return Dispatch { broadcast: None, location: None };
            },
            Some(message) => message,
        };
        let (eligible, lat, long) = match message {
            ParsedMessage::VesselDynamicData { mmsi, own_vessel, latitude, longitude } => (
                self.allow_ais_for_location && own_vessel,
                latitude,
                longitude,
            ),
            ParsedMessage::VesselStaticData { .. } => (false, None, None),
            ParsedMessage::Rmc { latitude, longitude, .. } => {
                self.allow_ais_for_location = false;
                (true, latitude, longitude)
            },
            _ => {
                return Dispatch { broadcast: None, location: None };
            },
        };
        push_bytes(&mut self.fragments, line);
        let passed = self.check_last_sent(&message, now);
        let mut payload: Vec<u8> = Vec::new();
        core::mem::swap(&mut self.fragments, &mut payload);
        let broadcast = if passed {
            Some(payload)
        } else {
            None
        };
        let mut location: Option<ParsedMessage> = None;
        if eligible {
            let t: i128 = now as i128;
            if t >= self.last_sent_location + self.location_anchor_interval as i128 || (t
                >= self.last_sent_location + self.location_interval as i128 && is_moving(
                lat,
                long,
                self.prev_lat,
                self.prev_long,
            )) {
                self.prev_lat = match lat {
                    Some(v) => v,
                    None => 0,
                };
                self.prev_long = match long {
                    Some(v) => v,
                    None => 0,
                };
                self.last_sent_location = t;
                location = Some(message);
            }
        }
        Dispatch { broadcast, location }
    }
}

/// A line as it reaches the dispatcher: the line, what the decoder made
/// of it, and the time.
pub struct Arrival {
    pub line: Seq<u8>,
    pub parsed: Option<ParsedMessage>,
    pub now: u64,
}

/// The vessel and the kind of the sentence that an arrival holds, if its
/// rate is limited.
pub open spec fn subject(arrival: Arrival) -> Option<(u32, bool)> {
    match arrival.parsed {
        Some(message) => match limited(message) {
            Some((mmsi, own_vessel, dynamic)) => Some((mmsi, dynamic)),
            None => None,
        },
        None => None,
    }
}

/// Whether the arrival comes from the own vessel, as far as its sentence says.
pub open spec fn from_own_vessel(arrival: Arrival) -> bool {
    match arrival.parsed {
        Some(message) => match limited(message) {
            Some((mmsi, own_vessel, dynamic)) => own_vessel,
            None => false,
        },
        None => false,
    }
}

impl DispatcherView {
    /// The dispatcher after a run of arrivals.
    pub open spec fn after(self, arrivals: Seq<Arrival>) -> DispatcherView
        decreases arrivals.len(),
    {
        if arrivals.len() == 0 {
            self
        } else {
            let last = arrivals.last();
            self.after(arrivals.drop_last()).dispatch(last.line, last.parsed, last.now).state
        }
    }

    /// What the arrival at position `i` of a run leads to.
    pub open spec fn outcome(self, arrivals: Seq<Arrival>, i: int) -> Dispatched {
        let arrival = arrivals[i];
        self.after(arrivals.take(i)).dispatch(arrival.line, arrival.parsed, arrival.now)
    }
}

/// A sentence of a vessel that was never seen is passed on.
pub proof fn lemma_first_sight_passes(v: DispatcherView, message: ParsedMessage, now: u64)
    requires
        limited(message) matches Some((mmsi, own_vessel, dynamic)) && !v.last_sent.contains_key(mmsi),
    ensures
        v.check(message, now).1,
{
}

/// After a vessel was first seen, the first sentence of its other kind is
/// passed on too, unless time ran backwards or a longer interval applies to it.
pub proof fn lemma_first_of_other_kind_passes(
    v: DispatcherView,
    first: ParsedMessage,
    at: u64,
    second: ParsedMessage,
    now: u64,
    mmsi: u32,
    dynamic: bool,
)
    requires
        !v.last_sent.contains_key(mmsi),
        concerns(first, mmsi, dynamic),
        concerns(second, mmsi, !dynamic),
        interval_of(second, v.interval, v.location_interval) <= interval_of(
            first,
            v.interval,
            v.location_interval,
        ),
        at <= now,
    ensures
        v.check(first, at).1,
        (DispatcherView { last_sent: v.check(first, at).0, ..v }).check(second, now).1,
{
}

/// What looking at a sentence does to the stamp of a vessel and a kind.
/// If the sentence is of that vessel and kind and passes, its time is
/// noted, and it lies at least one interval behind the time noted before.
/// Otherwise the stamp stays as it is. The vessel does not leave the table.
pub proof fn lemma_check(v: DispatcherView, message: ParsedMessage, now: u64, mmsi: u32, dynamic: bool)
    ensures
        v.check(message, now).1 ==> limited(message) is Some,
        v.check(message, now).1 && concerns(message, mmsi, dynamic) ==> {
            &&& v.check(message, now).0.contains_key(mmsi)
            &&& stamp(v.check(message, now).0[mmsi], dynamic) == now
            &&& v.last_sent.contains_key(mmsi) ==> now - stamp(v.last_sent[mmsi], dynamic)
                >= interval_of(message, v.interval, v.location_interval)
        },
        v.last_sent.contains_key(mmsi) && !(v.check(message, now).1 && concerns(
            message,
            mmsi,
            dynamic,
        )) ==> v.check(message, now).0.contains_key(mmsi) && stamp(
            v.check(message, now).0[mmsi],
            dynamic,
        ) == stamp(v.last_sent[mmsi], dynamic),
{
}

/// No stamp in the table ever goes back, and no vessel ever leaves it.
pub proof fn lemma_table_monotonic(
    v: DispatcherView,
    message: ParsedMessage,
    now: u64,
    mmsi: u32,
    dynamic: bool,
)
    requires
        v.last_sent.contains_key(mmsi),
    ensures
        v.check(message, now).0.contains_key(mmsi),
        stamp(v.check(message, now).0[mmsi], dynamic) >= stamp(v.last_sent[mmsi], dynamic),
{
}

/// A run of arrivals taken one further is the run followed by one step.
pub proof fn lemma_after_step(v: DispatcherView, arrivals: Seq<Arrival>, k: int)
    requires
        0 <= k < arrivals.len(),
    ensures
        v.after(arrivals.take(k + 1)) == v.outcome(arrivals, k).state,
{
    assert(arrivals.take(k + 1).drop_last() =~= arrivals.take(k));
    assert(arrivals.take(k + 1).last() == arrivals[k]);
}

/// The intervals of a dispatcher stay as they were configured.
pub proof fn lemma_intervals_stay(v: DispatcherView, arrivals: Seq<Arrival>)
    ensures
        v.after(arrivals).interval == v.interval,
        v.after(arrivals).location_interval == v.location_interval,
        v.after(arrivals).location_anchor_interval == v.location_anchor_interval,
    decreases arrivals.len(),
{
    if arrivals.len() > 0 {
        lemma_intervals_stay(v, arrivals.drop_last());
    }
}

/// What is sent to the AIS sinks is sent because the sentence passed the
/// check of the table.
pub proof fn lemma_broadcast_is_checked(
    v: DispatcherView,
    line: Seq<u8>,
    parsed: Option<ParsedMessage>,
    now: u64,
)
    ensures
        v.dispatch(line, parsed, now).broadcast is Some <==> (parsed matches Some(message)
            && v.check(message, now).1),
        forall|message: ParsedMessage|
            parsed == Some(message) && limited(message) is Some ==> v.dispatch(
                line,
                parsed,
                now,
            ).state.last_sent == v.check(message, now).0,
        (parsed matches Some(message) ==> limited(message) is None) ==> v.dispatch(
            line,
            parsed,
            now,
        ).state.last_sent == v.last_sent,
{
}

/// From the arrival at `i`, which was sent to the AIS sinks, until the
/// arrival at `k`, before which no sentence of the same vessel and kind was
/// sent, the table holds the time of the arrival at `i`.
proof fn lemma_stamp_persists(v: DispatcherView, arrivals: Seq<Arrival>, i: int, k: int)
    requires
        0 <= i < k <= arrivals.len(),
        subject(arrivals[i]) is Some,
        v.outcome(arrivals, i).broadcast is Some,
        forall|n: int|
            i < n < k ==> !(subject(arrivals[n]) == subject(arrivals[i]) && (#[trigger] v.outcome(
                arrivals,
                n,
            )).broadcast is Some),
    ensures
        subject(arrivals[i]) matches Some((mmsi, dynamic)) && v.after(
            arrivals.take(k),
        ).last_sent.contains_key(mmsi) && stamp(v.after(arrivals.take(k)).last_sent[mmsi], dynamic)
            == arrivals[i].now,
    decreases k - i,
{
    let (mmsi, dynamic) = subject(arrivals[i])->Some_0;
    if k == i + 1 {
        let before = v.after(arrivals.take(i));
        let arrival = arrivals[i];
        lemma_after_step(v, arrivals, i);
        lemma_broadcast_is_checked(before, arrival.line, arrival.parsed, arrival.now);
        let message = arrival.parsed->Some_0;
        lemma_check(before, message, arrival.now, mmsi, dynamic);
        assert(concerns(message, mmsi, dynamic));
        assert(before.check(message, arrival.now).0.contains_key(mmsi));
    } else {
        lemma_stamp_persists(v, arrivals, i, k - 1);
        let before = v.after(arrivals.take(k - 1));
        let arrival = arrivals[k - 1];
        lemma_after_step(v, arrivals, k - 1);
        lemma_broadcast_is_checked(before, arrival.line, arrival.parsed, arrival.now);
        assert(!(subject(arrival) == subject(arrivals[i]) && v.outcome(arrivals, k - 1).broadcast is Some));
        match arrival.parsed {
            Some(message) => {
                lemma_check(before, message, arrival.now, mmsi, dynamic);
                if limited(message) is Some {
                    assert(!(before.check(message, arrival.now).1 && concerns(
                        message,
                        mmsi,
                        dynamic,
                    )));
                    assert(before.check(message, arrival.now).0.contains_key(mmsi));
                }
            },
            None => {},
        }
    }
}

/// Two sentences of one kind from one vessel that are sent to the AIS
/// sinks one after the other, with none of that kind from that vessel sent
/// between them, lie at least one interval apart: the location interval if
/// the later one is from the own vessel, the general one otherwise.
pub proof fn lemma_broadcasts_lie_apart(v: DispatcherView, arrivals: Seq<Arrival>, i: int, j: int)
    requires
        0 <= i < j < arrivals.len(),
        subject(arrivals[i]) is Some,
        subject(arrivals[j]) == subject(arrivals[i]),
        v.outcome(arrivals, i).broadcast is Some,
        v.outcome(arrivals, j).broadcast is Some,
        forall|n: int|
            i < n < j ==> !(subject(arrivals[n]) == subject(arrivals[i]) && (#[trigger] v.outcome(
                arrivals,
                n,
            )).broadcast is Some),
    ensures
        arrivals[j].now - arrivals[i].now >= interval_for(
            from_own_vessel(arrivals[j]),
            v.interval,
            v.location_interval,
        ),
{
    lemma_stamp_persists(v, arrivals, i, j);
    let (mmsi, dynamic) = subject(arrivals[i])->Some_0;
    let before = v.after(arrivals.take(j));
    let arrival = arrivals[j];
    lemma_intervals_stay(v, arrivals.take(j));
    lemma_broadcast_is_checked(before, arrival.line, arrival.parsed, arrival.now);
    let message = arrival.parsed->Some_0;
    lemma_check(before, message, arrival.now, mmsi, dynamic);
    assert(concerns(message, mmsi, dynamic));
    assert(before.check(message, arrival.now).0.contains_key(mmsi));
}

/// The first sentence of a vessel in a run, if the vessel was not known
/// before the run, is sent to the AIS sinks.
pub proof fn lemma_first_sight_is_broadcast(v: DispatcherView, line: Seq<u8>, message: ParsedMessage, now: u64)
    requires
        limited(message) matches Some((mmsi, own_vessel, dynamic)) && !v.last_sent.contains_key(mmsi),
    ensures
        v.dispatch(line, Some(message), now).broadcast == Some(v.fragments + line),
{
}

/// A sentence that lacks a coordinate is no sign of motion.
pub proof fn lemma_no_motion_without_position(
    lat: Option<i64>,
    long: Option<i64>,
    prev_lat: i64,
    prev_long: i64,
)
    requires
        lat is None || long is None,
    ensures
        !moving(lat, long, prev_lat, prev_long),
{
}

/// When the anchor interval has gone by since the own position was last
/// reported, the next sentence that may serve as the own position is
/// reported, whether the vessel has moved or not.
pub proof fn lemma_anchor_bound(v: DispatcherView, line: Seq<u8>, message: ParsedMessage, now: u64)
    requires
        classify(message, v.allow_ais_for_location) matches Some((eligible, lat, long)) && eligible,
        now >= v.last_sent_location + v.location_anchor_interval,
    ensures
        v.dispatch(line, Some(message), now).location == Some(message),
        v.dispatch(line, Some(message), now).state.last_sent_location == now,
{
}

/// A position that is reported before the anchor interval has gone by is
/// reported because the vessel has moved by more than a thousandth of a
/// degree, and the location interval has gone by.
pub proof fn lemma_motion_gate(
    v: DispatcherView,
    line: Seq<u8>,
    parsed: Option<ParsedMessage>,
    now: u64,
)
    requires
        v.dispatch(line, parsed, now).location is Some,
        now < v.last_sent_location + v.location_anchor_interval,
    ensures
        parsed matches Some(message) && classify(message, v.allow_ais_for_location) matches Some(
            (eligible, lat, long),
        ) && eligible && moving(lat, long, v.prev_lat, v.prev_long) && now >= v.last_sent_location
            + v.location_interval,
{
}

/// The time of the last report changes only when a position is reported,
/// and is then the time of that report.
pub proof fn lemma_report_is_noted(
    v: DispatcherView,
    line: Seq<u8>,
    parsed: Option<ParsedMessage>,
    now: u64,
)
    ensures
        v.dispatch(line, parsed, now).state.last_sent_location == if v.dispatch(
            line,
            parsed,
            now,
        ).location is Some {
            now as int
        } else {
            v.last_sent_location
        },
{
}

/// Once positions from the transponder no longer serve as the own
/// position, they never do again.
pub proof fn lemma_latch_holds(v: DispatcherView, arrivals: Seq<Arrival>)
    requires
        !v.allow_ais_for_location,
    ensures
        !v.after(arrivals).allow_ais_for_location,
    decreases arrivals.len(),
{
    if arrivals.len() > 0 {
        lemma_latch_holds(v, arrivals.drop_last());
    }
}

/// After a sentence of the GNSS receiver was seen, no position report of
/// the transponder is reported as the own position, however many lines
/// arrive.
pub proof fn lemma_gnss_latches(v: DispatcherView, arrivals: Seq<Arrival>, i: int, j: int)
    requires
        0 <= i < j < arrivals.len(),
        arrivals[i].parsed matches Some(message) && message is Rmc,
        arrivals[j].parsed matches Some(message) && message is VesselDynamicData,
    ensures
        v.outcome(arrivals, j).location is None,
{
    lemma_after_step(v, arrivals, i);
    let latched = v.after(arrivals.take(i + 1));
    assert(!latched.allow_ais_for_location);
    let rest = arrivals.subrange(i + 1, j);
    lemma_after_append(v, arrivals.take(i + 1), rest);
    assert(arrivals.take(i + 1) + rest =~= arrivals.take(j));
    lemma_latch_holds(latched, rest);
}

/// Two runs one after the other lead where the joined run leads.
pub proof fn lemma_after_append(v: DispatcherView, first: Seq<Arrival>, second: Seq<Arrival>)
    ensures
        v.after(first + second) == v.after(first).after(second),
    decreases second.len(),
{
    if second.len() == 0 {
        assert(first + second =~= first);
    } else {
        lemma_after_append(v, first, second.drop_last());
        assert((first + second).drop_last() =~= first + second.drop_last());
        assert((first + second).last() == second.last());
    }
}

} // verus!
