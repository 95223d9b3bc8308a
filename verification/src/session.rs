use vstd::prelude::*;

use crate::category::Category;
use crate::classifier::{is_browser, is_browser_name};
use crate::text::same_text;
use crate::totals::{elapsed, lemma_add_raises_sum, CategoryTotals};

verus! {

/// The text held by an optional string.
pub open spec fn text_of(o: Option<String>) -> Option<Seq<char>> {
    match o {
        Some(s) => Some(s@),
        None => None,
    }
}

fn copy_text(o: &Option<String>) -> (r: Option<String>)
    ensures
        r == *o,
{
    match o {
        Some(s) => Some(s.clone()),
        None => None,
    }
}

/// The current time in whole seconds since the Unix epoch (zero when the
/// clock is set before the epoch). Wraps `SystemTime::elapsed` on
/// `UNIX_EPOCH`; the reading depends on the machine's clock, so nothing is
/// stated of it.
#[verifier::external_body]
fn now() -> u64 {
    std::time::UNIX_EPOCH.elapsed().unwrap_or_default().as_secs()
}

/// A clock reading in seconds as a timestamp: the same number, capped at
/// `i64::MAX` (a reading that far off lies beyond the year 292 billion).
fn timestamp(secs: u64) -> (ts: i64)
    ensures
        ts >= 0,
        secs <= i64::MAX ==> ts == secs,
        secs > i64::MAX ==> ts == i64::MAX,
{
    if secs <= 0x7fff_ffff_ffff_ffffu64 {
        secs as i64
    } else {
        i64::MAX
    }
}

/// A finished span of foreground use: one row for the `usage_events` table.
#[derive(Debug)]
pub struct ClosedEvent {
    pub session_id: i64,
    pub process_name: String,
    pub domain: Option<String>,
    pub category: Category,
    pub started_at: i64,
    pub ended_at: i64,
}

/// Snapshot broadcast to the frontend roughly once a second.
#[derive(Debug)]
pub struct LiveState {
    pub process_name: String,
    pub domain: Option<String>,
    pub category: Category,
    pub elapsed_seconds: i64,
    pub totals: CategoryTotals,
}

/// The state of a running session: what is in the foreground since when, and
/// the time already closed into each category.
#[derive(Debug)]
pub struct ActiveSession {
    pub session_id: i64,
    pub profile_id: i64,
    pub session_start: i64,
    pub current_process: String,
    pub current_category: Category,
    pub current_domain: Option<String>,
    pub event_start: i64,
    pub totals: CategoryTotals,
}

impl ActiveSession {
    /// Closing the open event at `ts` stays within `i64`.
    pub open spec fn close_fits(self, ts: int) -> bool {
        &&& i64::MIN <= ts - self.event_start <= i64::MAX
        &&& self.totals.can_add(self.current_category, elapsed(self.event_start as int, ts))
    }

    /// A live snapshot at `ts` stays within `i64`.
    pub open spec fn live_fits(self, ts: int) -> bool {
        &&& self.close_fits(ts)
        &&& i64::MIN <= ts - self.session_start <= i64::MAX
    }

    /// `ev` is the open event of this session, ended at `ts`.
    pub open spec fn closes(self, ev: ClosedEvent, ts: int) -> bool {
        &&& ev.session_id == self.session_id
        &&& ev.process_name@ == self.current_process@
        &&& text_of(ev.domain) == text_of(self.current_domain)
        &&& ev.category == self.current_category
        &&& ev.started_at == self.event_start
        &&& ev.ended_at == ts
    }

    /// `next` is the same session with the open event's time up to `ts`
    /// added to the category it was classified as.
    pub open spec fn closed_into(self, next: ActiveSession, ts: int) -> bool {
        &&& next.session_id == self.session_id
        &&& next.profile_id == self.profile_id
        &&& next.session_start == self.session_start
        &&& self.totals.adds(next.totals, self.current_category, elapsed(self.event_start as int, ts))
    }

    /// `next` follows a switch at `ts` to the process `name`, classified as
    /// `category`.
    pub open spec fn switched_process(self, next: ActiveSession, name: Seq<char>, category: Category, ts: int) -> bool {
        &&& self.closed_into(next, ts)
        &&& next.current_process@ == name
        &&& next.current_category == category
        &&& next.current_domain is None
        &&& next.event_start == ts
    }

    /// `next` follows a switch at `ts` to the tab domain `domain`, classified
    /// as `category`, in the same browser process.
    pub open spec fn switched_domain(self, next: ActiveSession, domain: Seq<char>, category: Category, ts: int) -> bool {
        &&& self.closed_into(next, ts)
        &&& next.current_process@ == self.current_process@
        &&& next.current_category == category
        &&& text_of(next.current_domain) == Some(domain)
        &&& next.event_start == ts
    }

    /// `live` is the snapshot of this session at `ts`: the open event's time
    /// folded into the totals.
    pub open spec fn shows(self, live: LiveState, ts: int) -> bool {
        &&& live.process_name@ == self.current_process@
        &&& text_of(live.domain) == text_of(self.current_domain)
        &&& live.category == self.current_category
        &&& live.elapsed_seconds == elapsed(self.session_start as int, ts)
        &&& self.totals.adds(live.totals, self.current_category, elapsed(self.event_start as int, ts))
    }

    /// A session that has just begun at `started_at` with `name` in the
    /// foreground, classified as `category`.
    pub open spec fn is_fresh(self, session_id: int, profile_id: int, started_at: int, name: Seq<char>, category: Category) -> bool {
        &&& self.session_id == session_id
        &&& self.profile_id == profile_id
        &&& self.session_start == started_at
        &&& self.current_process@ == name
        &&& self.current_category == category
        &&& self.current_domain is None
        &&& self.event_start == started_at
        &&& forall|k: Category| #[trigger] self.totals.get(k) == 0
    }

    /// The closed totals account for all of the session's time up to the
    /// open event's start.
    pub open spec fn accounted(self) -> bool {
        &&& self.session_start <= self.event_start
        &&& self.totals.sum() == self.event_start - self.session_start
    }

    /// A session begun at a time after the epoch, whose totals are never
    /// negative and account for all its time up to the open event.
    pub open spec fn well_kept(self) -> bool {
        &&& 0 <= self.session_start
        &&& self.accounted()
        &&& forall|c: Category| #[trigger] self.totals.get(c) >= 0
    }

    /// `next` follows by a step at `ts`: the open event closed at `ts` and a
    /// new one opened at `ts`.
    pub open spec fn steps_to(self, next: ActiveSession, ts: int) -> bool {
        &&& self.closed_into(next, ts)
        &&& next.event_start == ts
    }

    /// Ends the open event at `ended_at`: its time (zero if the clock ran
    /// backwards) is added to its category, and its row is returned.
    fn close_event(&mut self, ended_at: i64) -> (ev: ClosedEvent)
        requires
            old(self).close_fits(ended_at as int),
        ensures
            old(self).closes(ev, ended_at as int),
            old(self).closed_into(*final(self), ended_at as int),
            final(self).current_process == old(self).current_process,
            final(self).current_category == old(self).current_category,
            final(self).current_domain == old(self).current_domain,
            final(self).event_start == old(self).event_start,
    {
        let span = ended_at - self.event_start;
        let duration: i64 = if span > 0 {
            span
        } else {
            0
        };
        self.totals.add(self.current_category, duration);
        ClosedEvent {
            session_id: self.session_id,
            process_name: self.current_process.clone(),
            domain: copy_text(&self.current_domain),
            category: self.current_category,
            started_at: self.event_start,
            ended_at,
        }
    }

    /// The row of the open event ended at `ended_at`, without touching the
    /// totals.
    fn final_event(&self, ended_at: i64) -> (ev: ClosedEvent)
        ensures
            self.closes(ev, ended_at as int),
    {
        ClosedEvent {
            session_id: self.session_id,
            process_name: self.current_process.clone(),
            domain: copy_text(&self.current_domain),
            category: self.current_category,
            started_at: self.event_start,
            ended_at,
        }
    }

    /// Whether closing the open event at `ts` stays within `i64`.
    fn check_close_fits(&self, ts: i64) -> (r: bool)
        ensures
            r == self.close_fits(ts as int),
    {
        match ts.checked_sub(self.event_start) {
            None => false,
            Some(span) => {
                let duration: i64 = if span > 0 {
                    span
                } else {
                    0
                };
                self.totals.total_of(self.current_category).checked_add(duration).is_some()
            },
        }
    }
}

/// What a domain report from the browser leads to.
#[derive(Debug, Clone, Copy, PartialEq, Eq, Structural)]
pub enum DomainUpdate {
    /// No session is running: the report is dropped.
    NoSession,
    /// The tracked process is not a browser: the report is stale and dropped.
    NotBrowser,
    /// The tab's domain is the one already tracked: nothing changes.
    Unchanged,
    /// The tab's domain changed: the open event is closed and a new one opens.
    Switch,
}

/// Holds the state of the currently running tracking session (if any), plus
/// the flag the poller checks to know when to stop.
#[derive(Debug)]
pub struct SessionEngine {
    pub inner: Option<ActiveSession>,
    pub running: bool,
}

impl SessionEngine {
    /// A process report of `name` closes the open event.
    pub open spec fn needs_switch(self, name: Seq<char>) -> bool {
        match self.inner {
            Some(s) => s.current_process@ != name,
            None => false,
        }
    }

    /// What a domain report of `domain` leads to.
    pub open spec fn domain_decision(self, domain: Seq<char>) -> DomainUpdate {
        match self.inner {
            None => DomainUpdate::NoSession,
            Some(s) => if !is_browser_name(s.current_process@) {
                DomainUpdate::NotBrowser
            } else if text_of(s.current_domain) == Some(domain) {
                DomainUpdate::Unchanged
            } else {
                DomainUpdate::Switch
            },
        }
    }

    /// What a poll of `name` (classified as `category`) at `ts` does, taking
    /// the engine from `self` to `next` and giving `closed`: a switch when
    /// another process is tracked and the open event's time fits, otherwise
    /// nothing.
    pub open spec fn tick_outcome(
        self,
        next: SessionEngine,
        name: Seq<char>,
        category: Category,
        ts: int,
        closed: Option<ClosedEvent>,
    ) -> bool {
        if self.needs_switch(name) && self.inner->0.close_fits(ts) {
            &&& next.running == self.running
            &&& closed matches Some(ev) && self.inner->0.closes(ev, ts)
            &&& next.inner matches Some(s) && self.inner->0.switched_process(s, name, category, ts)
        } else {
            closed is None && next == self
        }
    }

    /// What a report of `domain` (classified as `category`) at `ts` does: a
    /// switch when the decision is `Switch` and the open event's time fits,
    /// otherwise nothing.
    pub open spec fn domain_outcome(
        self,
        next: SessionEngine,
        domain: Seq<char>,
        category: Category,
        ts: int,
        closed: Option<ClosedEvent>,
    ) -> bool {
        if self.domain_decision(domain) == DomainUpdate::Switch && self.inner->0.close_fits(ts) {
            &&& next.running == self.running
            &&& closed matches Some(ev) && self.inner->0.closes(ev, ts)
            &&& next.inner matches Some(s) && self.inner->0.switched_domain(s, domain, category, ts)
        } else {
            closed is None && next == self
        }
    }

    /// The snapshot at `ts`: present exactly when a session runs and the
    /// snapshot fits `i64`, and then showing the session at `ts`.
    pub open spec fn live_outcome(self, ts: int, live: Option<LiveState>) -> bool {
        &&& (live is Some <==> (self.inner matches Some(s) && s.live_fits(ts)))
        &&& (live matches Some(l) ==> self.inner->0.shows(l, ts))
    }

    /// An engine with no session.
    pub fn new() -> (e: SessionEngine)
        ensures
            e.inner is None,
            !e.running,
    {
        SessionEngine { inner: None, running: false }
    }

    /// Starts a new session `session_id` for `profile_id` at `started_at`,
    /// with `process_name` (classified as `category`) in the foreground, and
    /// opens its first usage event. Returns the session id.
    pub fn start(
        &mut self,
        session_id: i64,
        profile_id: i64,
        started_at: i64,
        process_name: String,
        category: Category,
    ) -> (id: i64)
        ensures
            id == session_id,
            final(self).running,
            final(self).inner matches Some(s) && s.is_fresh(
                session_id as int,
                profile_id as int,
                started_at as int,
                process_name@,
                category,
            ),
    {
        self.inner = Some(
            ActiveSession {
                session_id,
                profile_id,
                session_start: started_at,
                current_process: process_name,
                current_category: category,
                current_domain: None,
                event_start: started_at,
                totals: CategoryTotals::zero(),
            },
        );
        self.running = true;
        session_id
    }

    /// Whether the poller should keep running.
    pub fn running_flag(&self) -> (r: bool)
        ensures
            r == self.running,
    {
        self.running
    }

    /// Whether a poll that found `process_name` in the foreground closes the
    /// open event (a session runs and tracks another process).
    pub fn tick_needs_switch(&self, process_name: &str) -> (r: bool)
        ensures
            r == self.needs_switch(process_name@),
    {
        match &self.inner {
            Some(s) => !same_text(s.current_process.as_str(), process_name),
            None => false,
        }
    }

    /// A poll at `ts` found `process_name` in the foreground, classified as
    /// `category`. If it differs from the tracked process and the open
    /// event's time up to `ts` fits the totals, the open event is closed (and
    /// returned, for the `usage_events` table) and a new one is opened;
    /// otherwise nothing changes.
    pub fn on_tick_at(&mut self, process_name: &str, category: Category, ts: i64) -> (closed: Option<ClosedEvent>)
        ensures
            old(self).tick_outcome(*final(self), process_name@, category, ts as int, closed),
    {
        if !self.tick_needs_switch(process_name) {
            return None;
        }
        let fits = match &self.inner {
            Some(s) => s.check_close_fits(ts),
            None => false,
        };
        if !fits {
            return None;
        }
        match self.inner.take() {
            Some(mut inner) => {
                let ev = inner.close_event(ts);
                inner.current_process = String::from_str(process_name);
                inner.current_category = category;
                inner.current_domain = None;
                inner.event_start = ts;
                self.inner = Some(inner);
                Some(ev)
            },
            None => None,
        }
    }

    /// A poll found `process_name` in the foreground, classified as
    /// `category`; `on_tick_at` at the time read from the clock.
    pub fn on_tick(&mut self, process_name: &str, category: Category) -> (closed: Option<ClosedEvent>)
        ensures
            exists|ts: i64| ts >= 0 && old(self).tick_outcome(*final(self), process_name@, category, ts as int, closed),
            !old(self).needs_switch(process_name@) ==> closed is None && *final(self) == *old(self),
    {
        let ts = timestamp(now());
        self.on_tick_at(process_name, category, ts)
    }

    /// What a report of the active tab's `domain` leads to.
    pub fn domain_update_action(&self, domain: &str) -> (r: DomainUpdate)
        ensures
            r == self.domain_decision(domain@),
    {
        match &self.inner {
            None => DomainUpdate::NoSession,
            Some(s) => {
                if !is_browser(s.current_process.as_str()) {
                    DomainUpdate::NotBrowser
                } else {
                    let same = match &s.current_domain {
                        Some(d) => same_text(d.as_str(), domain),
                        None => false,
                    };
                    if same {
                        DomainUpdate::Unchanged
                    } else {
                        DomainUpdate::Switch
                    }
                }
            },
        }
    }

    /// The browser reported at `ts` that the active tab shows `domain`,
    /// classified as `category`. Only while a browser is the tracked process,
    /// the domain differs from the tracked one and the open event's time up
    /// to `ts` fits the totals is the open event closed (and returned) and a
    /// new one opened for the domain; otherwise nothing changes.
    pub fn on_domain_update_at(&mut self, domain: &str, category: Category, ts: i64) -> (closed: Option<ClosedEvent>)
        ensures
            old(self).domain_outcome(*final(self), domain@, category, ts as int, closed),
    {
        if self.domain_update_action(domain) != DomainUpdate::Switch {
            return None;
        }
        let fits = match &self.inner {
            Some(s) => s.check_close_fits(ts),
            None => false,
        };
        if !fits {
            return None;
        }
        match self.inner.take() {
            Some(mut inner) => {
                let ev = inner.close_event(ts);
                inner.current_category = category;
                inner.current_domain = Some(String::from_str(domain));
                inner.event_start = ts;
                self.inner = Some(inner);
                Some(ev)
            },
            None => None,
        }
    }

    /// The browser reported that the active tab shows `domain`, classified as
    /// `category`; `on_domain_update_at` at the time read from the clock.
    pub fn on_domain_update(&mut self, domain: &str, category: Category) -> (closed: Option<ClosedEvent>)
        ensures
            exists|ts: i64| ts >= 0 && old(self).domain_outcome(*final(self), domain@, category, ts as int, closed),
            old(self).domain_decision(domain@) != DomainUpdate::Switch ==> closed is None && *final(self)
                == *old(self),
    {
        let ts = timestamp(now());
        self.on_domain_update_at(domain, category, ts)
    }

    /// Ends the session at `ts`: the poller flag drops, and the session's
    /// final event is returned (its row and the session's `ended_at` are then
    /// written), or `None` if no session was running.
    pub fn stop_at(&mut self, ts: i64) -> (closed: Option<ClosedEvent>)
        ensures
            !final(self).running,
            final(self).inner is None,
            closed is Some <==> old(self).inner is Some,
            closed matches Some(ev) ==> old(self).inner->0.closes(ev, ts as int),
    {
        self.running = false;
        match self.inner.take() {
            Some(inner) => Some(inner.final_event(ts)),
            None => None,
        }
    }

    /// Ends the session now; as `stop_at` with the time read from the clock.
    pub fn stop(&mut self) -> (closed: Option<ClosedEvent>)
        ensures
            !final(self).running,
            final(self).inner is None,
            closed is Some <==> old(self).inner is Some,
            closed matches Some(ev) ==> old(self).inner->0.closes(ev, ev.ended_at as int) && ev.ended_at >= 0,
    {
        self.running = false;
        if self.inner.is_none() {
            return None;
        }
        let ts = timestamp(now());
        self.stop_at(ts)
    }

    /// The live snapshot at `ts`, with the open event's time folded into the
    /// totals: there is one exactly when a session runs and the snapshot at
    /// `ts` fits `i64`.
    pub fn live_state_at(&self, ts: i64) -> (live: Option<LiveState>)
        ensures
            self.live_outcome(ts as int, live),
    {
        match &self.inner {
            None => None,
            Some(inner) => {
                if !inner.check_close_fits(ts) || ts.checked_sub(inner.session_start).is_none() {
                    return None;
                }
                let mut totals = inner.totals;
                let span = ts - inner.event_start;
                let open_time: i64 = if span > 0 {
                    span
                } else {
                    0
                };
                totals.add(inner.current_category, open_time);
                let since_start = ts - inner.session_start;
                let elapsed_seconds: i64 = if since_start > 0 {
                    since_start
                } else {
                    0
                };
                Some(
                    LiveState {
                        process_name: inner.current_process.clone(),
                        domain: copy_text(&inner.current_domain),
                        category: inner.current_category,
                        elapsed_seconds,
                        totals,
                    },
                )
            },
        }
    }

    /// Snapshot for the `live-state-update` event: `live_state_at` at the
    /// time read from the clock.
    pub fn live_state(&self) -> (live: Option<LiveState>)
        ensures
            exists|ts: i64| ts >= 0 && self.live_outcome(ts as int, live),
            self.inner is None ==> live is None,
    {
        let ts = timestamp(now());
        self.live_state_at(ts)
    }
}

impl Default for SessionEngine {
    fn default() -> (e: SessionEngine)
        ensures
            e.inner is None,
            !e.running,
    {
        SessionEngine::new()
    }
}

/// Closing an event never lowers a total, and raises their sum by exactly the
/// event's time.
pub proof fn lemma_close_raises_totals(before: ActiveSession, after: ActiveSession, ts: int)
    requires
        before.closed_into(after, ts),
    ensures
        forall|c: Category| #[trigger] after.totals.get(c) >= before.totals.get(c),
        after.totals.sum() == before.totals.sum() + elapsed(before.event_start as int, ts),
{
    lemma_add_raises_sum(before.totals, after.totals, before.current_category, elapsed(before.event_start as int, ts));
}

/// The live totals are the closed totals plus the open event's time so far.
pub proof fn lemma_live_totals(s: ActiveSession, live: LiveState, ts: int)
    requires
        s.shows(live, ts),
    ensures
        live.totals.sum() == s.totals.sum() + elapsed(s.event_start as int, ts),
        forall|c: Category| #[trigger] live.totals.get(c) >= s.totals.get(c),
{
    lemma_add_raises_sum(s.totals, live.totals, s.current_category, elapsed(s.event_start as int, ts));
}

/// A poll that finds the process just switched to changes nothing.
pub proof fn lemma_repeated_tick_changes_nothing(
    before: ActiveSession,
    engine: SessionEngine,
    name: Seq<char>,
    category: Category,
    ts: int,
)
    requires
        engine.inner matches Some(s) && before.switched_process(s, name, category, ts),
    ensures
        !engine.needs_switch(name),
{
}

/// After a switch to a browser, the first report of the tab's domain always
/// opens a domain event, since no domain is tracked yet.
pub proof fn lemma_first_domain_after_switch(
    before: ActiveSession,
    engine: SessionEngine,
    name: Seq<char>,
    category: Category,
    ts: int,
    domain: Seq<char>,
)
    requires
        engine.inner matches Some(s) && before.switched_process(s, name, category, ts),
        is_browser_name(name),
    ensures
        engine.domain_decision(domain) == DomainUpdate::Switch,
{
}

/// A report of the domain just switched to changes nothing.
pub proof fn lemma_repeated_domain_changes_nothing(
    before: ActiveSession,
    engine: SessionEngine,
    domain: Seq<char>,
    category: Category,
    ts: int,
)
    requires
        is_browser_name(before.current_process@),
        engine.inner matches Some(s) && before.switched_domain(s, domain, category, ts),
    ensures
        engine.domain_decision(domain) == DomainUpdate::Unchanged,
{
}

/// Reports of a domain while a non-browser is tracked are always dropped,
/// whatever the domain.
pub proof fn lemma_domain_ignored_outside_browser(engine: SessionEngine, domain: Seq<char>)
    requires
        engine.inner matches Some(s) && !is_browser_name(s.current_process@),
    ensures
        engine.domain_decision(domain) == DomainUpdate::NotBrowser,
{
}

/// A report of a domain while a browser is tracked leaves the engine tracking
/// that domain, so the same report again changes nothing; the one exception
/// is a report at a time the totals cannot take, which changes nothing.
pub proof fn lemma_domain_report_settles(
    before: SessionEngine,
    after: SessionEngine,
    domain: Seq<char>,
    category: Category,
    ts: int,
    closed: Option<ClosedEvent>,
)
    requires
        before.domain_outcome(after, domain, category, ts, closed),
        before.inner matches Some(s) && is_browser_name(s.current_process@),
    ensures
        after.domain_decision(domain) == DomainUpdate::Unchanged || (closed is None && after == before
            && !before.inner->0.close_fits(ts)),
{
}

/// Every step of a session keeps its time accounted: if the clock did not run
/// backwards, the closed totals then sum to the time from the session's start
/// to the new event's start.
pub proof fn lemma_step_keeps_accounting(before: ActiveSession, after: ActiveSession, ts: int)
    requires
        before.accounted(),
        before.steps_to(after, ts),
        before.event_start <= ts,
    ensures
        after.accounted(),
        after.session_start == before.session_start,
        after.session_id == before.session_id,
{
    lemma_add_raises_sum(before.totals, after.totals, before.current_category, elapsed(before.event_start as int, ts));
}

/// A session that has just begun has accounted for all its time.
pub proof fn lemma_fresh_is_accounted(
    s: ActiveSession,
    session_id: int,
    profile_id: int,
    started_at: int,
    name: Seq<char>,
    category: Category,
)
    requires
        s.is_fresh(session_id, profile_id, started_at, name, category),
    ensures
        s.accounted(),
{
    assert(s.totals.get(Category::Work) == 0);
    assert(s.totals.get(Category::Entertainment) == 0);
    assert(s.totals.get(Category::Distraction) == 0);
    assert(s.totals.get(Category::Unclassified) == 0);
}

proof fn lemma_accounted_upto(states: Seq<ActiveSession>, times: Seq<int>, k: int)
    requires
        states.len() == times.len() + 1,
        0 <= k < states.len(),
        states[0].accounted(),
        forall|j: int| #![trigger times[j]] 0 <= j < times.len() ==> states[j].steps_to(states[j + 1], times[j]),
        forall|j: int| 0 <= j < times.len() ==> states[j].event_start <= #[trigger] times[j],
    ensures
        states[k].accounted(),
        states[k].session_start == states[0].session_start,
        states[k].session_id == states[0].session_id,
    decreases k,
{
    if k > 0 {
        lemma_accounted_upto(states, times, k - 1);
        assert(states[k - 1].steps_to(states[k], times[k - 1]));
        assert(states[k - 1].event_start <= times[k - 1]);
        lemma_step_keeps_accounting(states[k - 1], states[k], times[k - 1]);
    }
}

/// For a session begun at `t0` and stepped at times that never go
/// backwards, the closed totals sum to the time from `t0` to the last step;
/// and a live snapshot at any later `t` has totals summing to `t - t0`, which
/// is its elapsed time.
pub proof fn lemma_session_time_accounted(
    states: Seq<ActiveSession>,
    times: Seq<int>,
    t: int,
    live: LiveState,
)
    requires
        states.len() == times.len() + 1,
        states[0].event_start == states[0].session_start,
        forall|c: Category| #[trigger] states[0].totals.get(c) == 0,
        forall|j: int| #![trigger times[j]] 0 <= j < times.len() ==> states[j].steps_to(states[j + 1], times[j]),
        forall|j: int| 0 <= j < times.len() ==> states[j].event_start <= #[trigger] times[j],
        states.last().event_start <= t,
        states.last().shows(live, t),
    ensures
        states.last().totals.sum() == states.last().event_start - states[0].session_start,
        live.totals.sum() == t - states[0].session_start,
        live.elapsed_seconds == t - states[0].session_start,
{
    assert(states[0].totals.get(Category::Work) == 0);
    assert(states[0].totals.get(Category::Entertainment) == 0);
    assert(states[0].totals.get(Category::Distraction) == 0);
    assert(states[0].totals.get(Category::Unclassified) == 0);
    lemma_accounted_upto(states, times, states.len() - 1);
    let last = states.last();
    lemma_live_totals(last, live, t);
}

/// The seconds a run of rows covers (each row never negative).
pub open spec fn rows_time(rows: Seq<ClosedEvent>) -> int
    decreases rows.len(),
{
    if rows.len() == 0 {
        0
    } else {
        rows_time(rows.drop_last()) + elapsed(rows.last().started_at as int, rows.last().ended_at as int)
    }
}

/// Each row starts where the one before ended.
pub open spec fn rows_chain(rows: Seq<ClosedEvent>) -> bool {
    forall|k: int| 0 <= k < rows.len() - 1 ==> rows[k + 1].started_at == #[trigger] rows[k].ended_at
}

proof fn lemma_rows_upto(states: Seq<ActiveSession>, times: Seq<int>, rows: Seq<ClosedEvent>, k: int)
    requires
        states.len() == times.len() + 1,
        rows.len() == states.len(),
        0 <= k < states.len(),
        forall|j: int|
            #![trigger times[j]]
            0 <= j < times.len() ==> states[j].steps_to(states[j + 1], times[j]) && states[j].closes(
                rows[j],
                times[j],
            ),
    ensures
        states[k].session_id == states[0].session_id,
        states[k].session_start == states[0].session_start,
    decreases k,
{
    if k > 0 {
        lemma_rows_upto(states, times, rows, k - 1);
        assert(states[k - 1].steps_to(states[k], times[k - 1]));
    }
}

/// The rows a session stores from its start to its stop chain: the first
/// starts at the session's start, each next one starts where the previous
/// ended, the last ends at the stop time, and all belong to the session.
pub proof fn lemma_rows_chain(states: Seq<ActiveSession>, times: Seq<int>, rows: Seq<ClosedEvent>, stop: int)
    requires
        states.len() == times.len() + 1,
        rows.len() == states.len(),
        states[0].event_start == states[0].session_start,
        forall|j: int|
            #![trigger times[j]]
            0 <= j < times.len() ==> states[j].steps_to(states[j + 1], times[j]) && states[j].closes(
                rows[j],
                times[j],
            ),
        states.last().closes(rows.last(), stop),
    ensures
        rows[0].started_at == states[0].session_start,
        rows_chain(rows),
        rows.last().ended_at == stop,
        forall|k: int| 0 <= k < rows.len() ==> #[trigger] rows[k].session_id == states[0].session_id,
{
    let n = times.len() as int;
    if n > 0 {
        assert(states[0].closes(rows[0], times[0]));
    }
    assert forall|k: int| 0 <= k < rows.len() - 1 implies rows[k + 1].started_at == #[trigger] rows[k].ended_at by {
        assert(states[k].steps_to(states[k + 1], times[k]) && states[k].closes(rows[k], times[k]));
        if k + 1 < n {
            assert(states[k + 1].closes(rows[k + 1], times[k + 1]));
        }
    }
    assert forall|k: int| 0 <= k < rows.len() implies #[trigger] rows[k].session_id == states[0].session_id by {
        lemma_rows_upto(states, times, rows, k);
        if k < n {
            assert(states[k].closes(rows[k], times[k]));
        }
    }
}

/// Chained rows whose times never go backwards cover exactly the time from
/// the first row's start to the last row's end.
pub proof fn lemma_chained_rows_cover(rows: Seq<ClosedEvent>)
    requires
        rows.len() > 0,
        rows_chain(rows),
        forall|k: int| 0 <= k < rows.len() ==> #[trigger] rows[k].started_at <= rows[k].ended_at,
    ensures
        rows_time(rows) == rows.last().ended_at - rows[0].started_at,
    decreases rows.len(),
{
    let prev = rows.drop_last();
    assert(rows[rows.len() - 1].started_at <= rows[rows.len() - 1].ended_at);
    if rows.len() > 1 {
        assert forall|k: int| 0 <= k < prev.len() - 1 implies prev[k + 1].started_at == #[trigger] prev[k].ended_at by {
            assert(rows[k + 1].started_at == rows[k].ended_at);
        }
        assert forall|k: int| 0 <= k < prev.len() implies #[trigger] prev[k].started_at <= prev[k].ended_at by {
            assert(rows[k].started_at <= rows[k].ended_at);
        }
        lemma_chained_rows_cover(prev);
        assert(rows[rows.len() - 1].started_at == rows[rows.len() - 2].ended_at);
    } else {
        assert(rows_time(prev) == 0);
    }
}

/// A well-kept session can take any clock reading: closing its open event,
/// and a live snapshot, fit `i64` at every non-negative time.
pub proof fn lemma_well_kept_fits(s: ActiveSession, ts: int)
    requires
        s.well_kept(),
        0 <= ts <= i64::MAX,
    ensures
        s.close_fits(ts),
        s.live_fits(ts),
{
    let c = s.current_category;
    assert(s.totals.get(Category::Work) >= 0);
    assert(s.totals.get(Category::Entertainment) >= 0);
    assert(s.totals.get(Category::Distraction) >= 0);
    assert(s.totals.get(Category::Unclassified) >= 0);
    assert(s.totals.get(c) <= s.totals.sum());
}

/// A session begun after the epoch is well kept.
pub proof fn lemma_fresh_is_well_kept(
    s: ActiveSession,
    session_id: int,
    profile_id: int,
    started_at: int,
    name: Seq<char>,
    category: Category,
)
    requires
        s.is_fresh(session_id, profile_id, started_at, name, category),
        started_at >= 0,
    ensures
        s.well_kept(),
{
    lemma_fresh_is_accounted(s, session_id, profile_id, started_at, name, category);
}

/// A step at a time not before the open event's start keeps a session well
/// kept.
pub proof fn lemma_step_keeps_well_kept(before: ActiveSession, after: ActiveSession, ts: int)
    requires
        before.well_kept(),
        before.steps_to(after, ts),
        before.event_start <= ts,
    ensures
        after.well_kept(),
{
    lemma_step_keeps_accounting(before, after, ts);
    assert forall|c: Category| #[trigger] after.totals.get(c) >= 0 by {
        assert(before.totals.get(c) >= 0);
    }
}

/// While a well-kept session runs, a clock-driven poll that finds another
/// process in the foreground always closes the open event (handing back its
/// row, ended at a non-negative reading) and tracks the new process from that
/// reading on, with the closed event's time added to its category.
pub proof fn lemma_poll_of_other_process_switches(
    before: SessionEngine,
    after: SessionEngine,
    name: Seq<char>,
    category: Category,
    closed: Option<ClosedEvent>,
)
    requires
        exists|ts: i64| ts >= 0 && before.tick_outcome(after, name, category, ts as int, closed),
        before.needs_switch(name),
        before.inner->0.well_kept(),
    ensures
        closed matches Some(ev) && {
            &&& ev.ended_at >= 0
            &&& before.inner->0.closes(ev, ev.ended_at as int)
            &&& after.inner matches Some(s) && before.inner->0.switched_process(s, name, category, ev.ended_at as int)
        },
        after.running == before.running,
{
    let ts = choose|ts: i64| ts >= 0 && before.tick_outcome(after, name, category, ts as int, closed);
    lemma_well_kept_fits(before.inner->0, ts as int);
}

/// While a well-kept session tracks a browser, a clock-driven report of a new
/// tab domain always closes the open event (handing back its row, ended at a
/// non-negative reading) and tracks the domain from that reading on.
pub proof fn lemma_new_domain_switches(
    before: SessionEngine,
    after: SessionEngine,
    domain: Seq<char>,
    category: Category,
    closed: Option<ClosedEvent>,
)
    requires
        exists|ts: i64| ts >= 0 && before.domain_outcome(after, domain, category, ts as int, closed),
        before.domain_decision(domain) == DomainUpdate::Switch,
        before.inner->0.well_kept(),
    ensures
        closed matches Some(ev) && {
            &&& ev.ended_at >= 0
            &&& before.inner->0.closes(ev, ev.ended_at as int)
            &&& after.inner matches Some(s) && before.inner->0.switched_domain(s, domain, category, ev.ended_at as int)
        },
        after.running == before.running,
{
    let ts = choose|ts: i64| ts >= 0 && before.domain_outcome(after, domain, category, ts as int, closed);
    lemma_well_kept_fits(before.inner->0, ts as int);
}

/// While a well-kept session runs, the clock-driven snapshot always exists:
/// it shows the tracked process at a non-negative reading, its elapsed time
/// never negative and its totals no lower than the closed ones.
pub proof fn lemma_live_snapshot_present(engine: SessionEngine, live: Option<LiveState>)
    requires
        exists|ts: i64| ts >= 0 && engine.live_outcome(ts as int, live),
        engine.inner is Some,
        engine.inner->0.well_kept(),
    ensures
        live matches Some(l) && {
            &&& l.process_name@ == engine.inner->0.current_process@
            &&& l.category == engine.inner->0.current_category
            &&& l.elapsed_seconds >= 0
            &&& forall|c: Category| #[trigger] l.totals.get(c) >= engine.inner->0.totals.get(c)
            &&& exists|ts: i64| ts >= 0 && engine.inner->0.shows(l, ts as int)
        },
{
    let ts = choose|ts: i64| ts >= 0 && engine.live_outcome(ts as int, live);
    lemma_well_kept_fits(engine.inner->0, ts as int);
    let l = live->0;
    lemma_live_totals(engine.inner->0, l, ts as int);
}

} // verus!
