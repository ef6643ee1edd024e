//! Poll-race-safe alert lifecycle state.
//!
//! A held alert keeps one stable key (its first message's id) for its whole
//! life, while the id of its latest message rotates with every update; a
//! secondary index from latest message id to stable key resolves the
//! `references` of incoming updates and cancels. An explicit `Cancel` is
//! the only immediate removal; an alert's own `expires` lapsing removes it
//! at ingest time or on `expire_stale`; a bare absence from the polled set
//! removes it only after `absence_limit` consecutive polls agree.
//!
//! Held alerts and the index are kept as insertion-ordered association
//! lists, so every operation below is a deterministic function of the
//! store's content; the order of reported changes follows that order.

use vstd::prelude::*;
use crate::alerts_model::{opt_string_view, Alert, AlertReference, AlertReferenceView, AlertView, MessageType};
use crate::radar_types::Timestamp;
use crate::text::{str_eq, strings_view};

verus! {

/// A stable identity for a held alert: its first message's own id.
pub type AlertKey = String;

/// Consecutive absent polls after which an alert is dropped by default.
pub const DEFAULT_ABSENCE_LIMIT: u32 = 3;

/// Why a held alert was removed without an explicit cancel.
#[derive(Debug, Clone, Copy, PartialEq, Eq)]
pub enum ExpiryReason {
    /// Its `expires` time is no longer in the future.
    TimeExpired,
    /// It was absent from `absence_limit` consecutive polls.
    AbsentFromPolls,
}

/// One lifecycle event.
#[derive(Debug, Clone, PartialEq)]
pub enum AlertChange {
    New { key: AlertKey, alert: Alert },
    Updated { key: AlertKey, alert: Alert },
    Cancelled { key: AlertKey, alert: Alert },
    Expired { key: AlertKey, alert: Alert, reason: ExpiryReason },
}

/// The content of an [`AlertChange`].
pub ghost enum ChangeView {
    New { key: Seq<char>, alert: AlertView },
    Updated { key: Seq<char>, alert: AlertView },
    Cancelled { key: Seq<char>, alert: AlertView },
    Expired { key: Seq<char>, alert: AlertView, reason: ExpiryReason },
}

impl View for AlertChange {
    type V = ChangeView;

    open spec fn view(&self) -> ChangeView {
        match self {
            AlertChange::New { key, alert } => ChangeView::New { key: key@, alert: alert@ },
            AlertChange::Updated { key, alert } => ChangeView::Updated { key: key@, alert: alert@ },
            AlertChange::Cancelled { key, alert } => ChangeView::Cancelled { key: key@, alert: alert@ },
            AlertChange::Expired { key, alert, reason } => ChangeView::Expired {
                key: key@,
                alert: alert@,
                reason: *reason,
            },
        }
    }
}

pub open spec fn change_key(c: ChangeView) -> Seq<char> {
    match c {
        ChangeView::New { key, .. } => key,
        ChangeView::Updated { key, .. } => key,
        ChangeView::Cancelled { key, .. } => key,
        ChangeView::Expired { key, .. } => key,
    }
}

impl AlertChange {
    /// The stable key this change concerns.
    pub fn key(&self) -> (k: &AlertKey)
        ensures
            k@ == change_key(self@),
    {
        match self {
            AlertChange::New { key, .. } => key,
            AlertChange::Updated { key, .. } => key,
            AlertChange::Cancelled { key, .. } => key,
            AlertChange::Expired { key, .. } => key,
        }
    }

    fn duplicate(&self) -> (c: AlertChange)
        ensures
            c@ == self@,
    {
        match self {
            AlertChange::New { key, alert } => AlertChange::New { key: key.clone(), alert: alert.duplicate() },
            AlertChange::Updated { key, alert } => AlertChange::Updated {
                key: key.clone(),
                alert: alert.duplicate(),
            },
            AlertChange::Cancelled { key, alert } => AlertChange::Cancelled {
                key: key.clone(),
                alert: alert.duplicate(),
            },
            AlertChange::Expired { key, alert, reason } => AlertChange::Expired {
                key: key.clone(),
                alert: alert.duplicate(),
                reason: *reason,
            },
        }
    }
}

pub open spec fn changes_view(cs: Seq<AlertChange>) -> Seq<ChangeView> {
    cs.map_values(|c: AlertChange| c@)
}

/// One held alert's bookkeeping.
struct HeldAlert {
    key: AlertKey,
    latest_message_id: String,
    alert: Alert,
    consecutive_absences: u32,
}

/// The content of one held alert.
pub ghost struct HeldView {
    pub key: Seq<char>,
    /// The id a future `references[].identifier` will name.
    pub latest_message_id: Seq<char>,
    pub alert: AlertView,
    /// Consecutive polls in which `latest_message_id` was not seen.
    pub consecutive_absences: nat,
}

impl View for HeldAlert {
    type V = HeldView;

    closed spec fn view(&self) -> HeldView {
        HeldView {
            key: self.key@,
            latest_message_id: self.latest_message_id@,
            alert: self.alert@,
            consecutive_absences: self.consecutive_absences as nat,
        }
    }
}

/// An index entry: latest message id, then stable key.
pub type IndexEntry = (Seq<char>, Seq<char>);

/// The content of an [`AlertStore`].
pub ghost struct StoreView {
    /// Held alerts, in insertion order.
    pub held: Seq<HeldView>,
    /// Latest message id -> stable key, in insertion order.
    pub index: Seq<IndexEntry>,
    pub absence_limit: nat,
    /// Changes not yet drained.
    pub pending: Seq<ChangeView>,
}

/// Poll-race-safe holder of currently-active NWS alerts.
pub struct AlertStore {
    held: Vec<HeldAlert>,
    index_by_latest_message_id: Vec<(String, AlertKey)>,
    absence_limit: u32,
    pending_changes: Vec<AlertChange>,
}

impl View for AlertStore {
    type V = StoreView;

    closed spec fn view(&self) -> StoreView {
        StoreView {
            held: self.held@.map_values(|h: HeldAlert| h@),
            index: self.index_by_latest_message_id@.map_values(|e: (String, AlertKey)| (e.0@, e.1@)),
            absence_limit: self.absence_limit as nat,
            pending: changes_view(self.pending_changes@),
        }
    }
}

// ---------------------------------------------------------------------------
// The model: association lists with first-match semantics.

/// The stable key recorded for message id `id`.
pub open spec fn index_get(index: Seq<IndexEntry>, id: Seq<char>) -> Option<Seq<char>>
    decreases index.len(),
{
    if index.len() == 0 {
        None
    } else if index[0].0 == id {
        Some(index[0].1)
    } else {
        index_get(index.drop_first(), id)
    }
}

/// `index` without the entry for `id`.
pub open spec fn index_remove(index: Seq<IndexEntry>, id: Seq<char>) -> Seq<IndexEntry>
    decreases index.len(),
{
    if index.len() == 0 {
        index
    } else if index[0].0 == id {
        index.drop_first()
    } else {
        seq![index[0]] + index_remove(index.drop_first(), id)
    }
}

/// `index` with `id` now mapped to `key` (in place when `id` is present).
pub open spec fn index_insert(index: Seq<IndexEntry>, id: Seq<char>, key: Seq<char>) -> Seq<IndexEntry>
    decreases index.len(),
{
    if index.len() == 0 {
        seq![(id, key)]
    } else if index[0].0 == id {
        index.update(0, (id, key))
    } else {
        seq![index[0]] + index_insert(index.drop_first(), id, key)
    }
}

/// Position of the held alert with stable key `key`.
pub open spec fn held_pos(held: Seq<HeldView>, key: Seq<char>) -> Option<int>
    decreases held.len(),
{
    if held.len() == 0 {
        None
    } else if held[0].key == key {
        Some(0)
    } else {
        match held_pos(held.drop_first(), key) {
            Some(i) => Some(i + 1),
            None => None,
        }
    }
}

/// Remove the held alert with key `key` (and its index entry).
pub open spec fn remove_held(st: StoreView, key: Seq<char>) -> (StoreView, Option<HeldView>) {
    match held_pos(st.held, key) {
        Some(i) => (
            StoreView {
                held: st.held.remove(i),
                index: index_remove(st.index, st.held[i].latest_message_id),
                ..st
            },
            Some(st.held[i]),
        ),
        None => (st, None),
    }
}

pub proof fn lemma_held_pos(held: Seq<HeldView>, key: Seq<char>)
    ensures
        held_pos(held, key) matches Some(i) ==> 0 <= i < held.len() && held[i].key == key
            && forall|j: int| 0 <= j < i ==> held[j].key != key,
        held_pos(held, key) is None ==> forall|j: int| 0 <= j < held.len() ==> held[j].key != key,
    decreases held.len(),
{
    if held.len() > 0 {
        lemma_held_pos(held.drop_first(), key);
        if held[0].key != key {
            assert forall|j: int| 0 < j < held.len() implies held[j] == held.drop_first()[j - 1] by {}
        }
    }
}


pub proof fn lemma_index_first(index: Seq<IndexEntry>, id: Seq<char>, key: Seq<char>, i: int)
    requires
        0 <= i <= index.len(),
        forall|j: int| 0 <= j < i ==> index[j].0 != id,
        i < index.len() ==> index[i].0 == id,
    ensures
        index_get(index, id) == (if i < index.len() { Some(index[i].1) } else { None::<Seq<char>> }),
        index_remove(index, id) == (if i < index.len() { index.remove(i) } else { index }),
        index_insert(index, id, key) == (if i < index.len() {
            index.update(i, (id, key))
        } else {
            index.push((id, key))
        }),
    decreases index.len(),
{
    if index.len() > 0 && i > 0 {
        let rest = index.drop_first();
        assert forall|j: int| 0 <= j < i - 1 implies rest[j].0 != id by {
            assert(rest[j] == index[j + 1]);
        }
        lemma_index_first(rest, id, key, i - 1);
        if i < index.len() {
            assert(seq![index[0]] + rest.remove(i - 1) =~= index.remove(i));
            assert(seq![index[0]] + rest.update(i - 1, (id, key)) =~= index.update(i, (id, key)));
        } else {
            assert(seq![index[0]] + rest =~= index);
            assert(seq![index[0]] + rest.push((id, key)) =~= index.push((id, key)));
        }
    } else if index.len() == 0 {
        assert(seq![(id, key)] =~= index.push((id, key)));
    }
}

/// Held alerts whose `expires` is still after `now`, in order.
pub open spec fn active_of(held: Seq<HeldView>, now: int) -> Seq<HeldView>
    decreases held.len(),
{
    if held.len() == 0 {
        Seq::empty()
    } else {
        active_of(held.drop_last(), now) + (if held.last().alert.expires > now {
            seq![held.last()]
        } else {
            Seq::empty()
        })
    }
}

/// Keys of held alerts whose `expires` is at or before `now`, in order.
pub open spec fn expired_keys(held: Seq<HeldView>, now: int) -> Seq<Seq<char>>
    decreases held.len(),
{
    if held.len() == 0 {
        Seq::empty()
    } else {
        expired_keys(held.drop_last(), now) + (if held.last().alert.expires <= now {
            seq![held.last().key]
        } else {
            Seq::empty()
        })
    }
}

/// Remove each of `keys` in turn, reporting each actual removal as expired
/// for `reason`.
pub open spec fn remove_keys(st: StoreView, keys: Seq<Seq<char>>, changes: Seq<ChangeView>, reason: ExpiryReason) -> (StoreView, Seq<ChangeView>)
    decreases keys.len(),
{
    if keys.len() == 0 {
        (st, changes)
    } else {
        let (st2, removed) = remove_held(st, keys[0]);
        let changes2 = match removed {
            Some(h) => changes.push(ChangeView::Expired { key: keys[0], alert: h.alert, reason }),
            None => changes,
        };
        remove_keys(st2, keys.drop_first(), changes2, reason)
    }
}

/// The time-based sweep: remove every held alert expired as of `now`.
pub open spec fn expire_sweep(st: StoreView, now: int, changes: Seq<ChangeView>) -> (StoreView, Seq<ChangeView>) {
    remove_keys(st, expired_keys(st.held, now), changes, ExpiryReason::TimeExpired)
}


/// The first of `refs` whose identifier the index knows, as the stable key
/// it maps to.
pub open spec fn matched_key(index: Seq<IndexEntry>, refs: Seq<AlertReferenceView>) -> Option<Seq<char>>
    decreases refs.len(),
{
    if refs.len() == 0 {
        None
    } else {
        match index_get(index, refs[0].identifier) {
            Some(k) => Some(k),
            None => matched_key(index, refs.drop_first()),
        }
    }
}

/// Remove, in order, every held alert that one of `refs` names, reporting
/// each as cancelled.
pub open spec fn apply_cancel(st: StoreView, refs: Seq<AlertReferenceView>, changes: Seq<ChangeView>) -> (StoreView, Seq<ChangeView>)
    decreases refs.len(),
{
    if refs.len() == 0 {
        (st, changes)
    } else {
        let (st2, changes2) = match index_get(st.index, refs[0].identifier) {
            Some(key) => {
                let (s, removed) = remove_held(st, key);
                match removed {
                    Some(h) => (s, changes.push(ChangeView::Cancelled { key, alert: h.alert })),
                    None => (s, changes),
                }
            },
            None => (st, changes),
        };
        apply_cancel(st2, refs.drop_first(), changes2)
    }
}

/// A held entry for `a` under `key`, seen just now.
pub open spec fn fresh_held(key: Seq<char>, a: AlertView) -> HeldView {
    HeldView { key, latest_message_id: a.id, alert: a, consecutive_absences: 0 }
}

/// Hold `a` under `key`, replacing whatever is already held under `key`.
pub open spec fn insert_new(st: StoreView, key: Seq<char>, a: AlertView) -> StoreView {
    StoreView {
        index: index_insert(st.index, a.id, key),
        held: match held_pos(st.held, key) {
            Some(j) => st.held.update(j, fresh_held(key, a)),
            None => st.held.push(fresh_held(key, a)),
        },
        ..st
    }
}

/// Apply an `Alert`- or `Update`-type message: a replacement of the held
/// alert one of its references names, an idempotent repeat of the latest
/// message of a held alert, or a new alert.
pub open spec fn apply_new_or_update(st: StoreView, a: AlertView, changes: Seq<ChangeView>) -> (StoreView, Seq<ChangeView>) {
    let target = match matched_key(st.index, a.references) {
        Some(key) => match held_pos(st.held, key) {
            Some(i) => Some((key, i)),
            None => None,
        },
        None => None,
    };
    match target {
        Some((key, i)) => (
            StoreView {
                index: index_insert(index_remove(st.index, st.held[i].latest_message_id), a.id, key),
                held: st.held.update(i, fresh_held(key, a)),
                ..st
            },
            changes.push(ChangeView::Updated { key, alert: a }),
        ),
        None => match index_get(st.index, a.id) {
            Some(existing) => (
                match held_pos(st.held, existing) {
                    Some(j) => StoreView {
                        held: st.held.update(j, HeldView { alert: a, consecutive_absences: 0, ..st.held[j] }),
                        ..st
                    },
                    None => st,
                },
                changes,
            ),
            None => (insert_new(st, a.id, a), changes.push(ChangeView::New { key: a.id, alert: a })),
        },
    }
}

/// Apply one incoming message.
pub open spec fn apply_message(st: StoreView, a: AlertView, changes: Seq<ChangeView>) -> (StoreView, Seq<ChangeView>) {
    if a.message_type == MessageType::Cancel {
        apply_cancel(st, a.references, changes)
    } else {
        apply_new_or_update(st, a, changes)
    }
}

/// Apply the messages of one poll in order.
pub open spec fn apply_messages(st: StoreView, alerts: Seq<AlertView>, changes: Seq<ChangeView>) -> (StoreView, Seq<ChangeView>)
    decreases alerts.len(),
{
    if alerts.len() == 0 {
        (st, changes)
    } else {
        let (st2, changes2) = apply_message(st, alerts[0], changes);
        apply_messages(st2, alerts.drop_first(), changes2)
    }
}

/// One poll's absence bookkeeping for one held alert.
pub open spec fn aged(h: HeldView, seen: Seq<Seq<char>>) -> HeldView {
    if seen.contains(h.latest_message_id) {
        HeldView { consecutive_absences: 0, ..h }
    } else {
        HeldView { consecutive_absences: h.consecutive_absences + 1, ..h }
    }
}

pub open spec fn age_all(held: Seq<HeldView>, seen: Seq<Seq<char>>) -> Seq<HeldView> {
    held.map_values(|h: HeldView| aged(h, seen))
}

/// Keys of the held alerts that this poll did not see and whose absence
/// count reaches `limit` with it, in order.
pub open spec fn absent_keys(held: Seq<HeldView>, seen: Seq<Seq<char>>, limit: nat) -> Seq<Seq<char>>
    decreases held.len(),
{
    if held.len() == 0 {
        Seq::empty()
    } else {
        absent_keys(held.drop_last(), seen, limit) + (if !seen.contains(held.last().latest_message_id)
            && held.last().consecutive_absences + 1 >= limit {
            seq![held.last().key]
        } else {
            Seq::empty()
        })
    }
}

/// The ids of one poll's messages.
pub open spec fn message_ids(alerts: Seq<AlertView>) -> Seq<Seq<char>> {
    alerts.map_values(|a: AlertView| a.id)
}

/// One whole poll: messages, then absence bookkeeping and removal, then the
/// time-based sweep; the changes are also appended to the pending ones.
pub open spec fn ingest(st: StoreView, alerts: Seq<AlertView>, now: int) -> (StoreView, Seq<ChangeView>) {
    let (s1, c1) = apply_messages(st, alerts, Seq::empty());
    let seen = message_ids(alerts);
    let s2 = StoreView { held: age_all(s1.held, seen), ..s1 };
    let (s3, c3) = remove_keys(s2, absent_keys(s1.held, seen, s1.absence_limit), c1, ExpiryReason::AbsentFromPolls);
    let (s4, c4) = expire_sweep(s3, now, c3);
    (StoreView { pending: s4.pending + c4, ..s4 }, c4)
}

/// The time-based sweep on its own; the changes are also appended to the
/// pending ones.
pub open spec fn expire_stale_model(st: StoreView, now: int) -> (StoreView, Seq<ChangeView>) {
    let (s, c) = expire_sweep(st, now, Seq::empty());
    (StoreView { pending: s.pending + c, ..s }, c)
}

/// No two held alerts share a stable key.
pub open spec fn keys_distinct(held: Seq<HeldView>) -> bool {
    forall|i: int, j: int| 0 <= i < j < held.len() ==> held[i].key != held[j].key
}

/// Every absence counter is below the limit, or zero.
pub open spec fn counters_below(held: Seq<HeldView>, limit: nat) -> bool {
    forall|i: int| 0 <= i < held.len() ==> #[trigger] held[i].consecutive_absences < limit
        || held[i].consecutive_absences == 0
}

/// The invariant every store keeps.
pub open spec fn store_valid(st: StoreView) -> bool {
    keys_distinct(st.held) && counters_below(st.held, st.absence_limit)
}

/// Removing one held alert keeps the keys distinct.
pub proof fn lemma_remove_keeps_distinct(held: Seq<HeldView>, i: int)
    requires
        0 <= i < held.len(),
        keys_distinct(held),
    ensures
        keys_distinct(held.remove(i)),
{
    let r = held.remove(i);
    assert forall|a: int, b: int| 0 <= a < b < r.len() implies r[a].key != r[b].key by {
        let a2 = if a < i { a } else { a + 1 };
        let b2 = if b < i { b } else { b + 1 };
        assert(r[a] == held[a2]);
        assert(r[b] == held[b2]);
    }
}

/// Removing one held alert keeps the invariant.
pub proof fn lemma_remove_keeps_valid(held: Seq<HeldView>, limit: nat, i: int)
    requires
        0 <= i < held.len(),
        keys_distinct(held),
        counters_below(held, limit),
    ensures
        keys_distinct(held.remove(i)),
        counters_below(held.remove(i), limit),
{
    lemma_remove_keeps_distinct(held, i);
    let r = held.remove(i);
    assert forall|a: int| 0 <= a < r.len() implies #[trigger] r[a].consecutive_absences < limit
        || r[a].consecutive_absences == 0 by {
        let a2 = if a < i { a } else { a + 1 };
        assert(r[a] == held[a2]);
    }
}

/// Removing the held alert with key `key` keeps distinct keys, and keeps
/// exactly the held alerts with another key.
pub proof fn lemma_remove_held_contents(st: StoreView, key: Seq<char>)
    requires
        keys_distinct(st.held),
    ensures
        keys_distinct(remove_held(st, key).0.held),
        remove_held(st, key).0.absence_limit == st.absence_limit,
        remove_held(st, key).0.pending == st.pending,
        forall|h: HeldView| #[trigger] remove_held(st, key).0.held.contains(h)
            <==> (st.held.contains(h) && h.key != key),
{
    lemma_held_pos(st.held, key);
    let r = remove_held(st, key).0.held;
    match held_pos(st.held, key) {
        Some(i) => {
            lemma_remove_keeps_distinct(st.held, i);
            assert forall|h: HeldView| #[trigger] r.contains(h) implies st.held.contains(h) && h.key != key by {
                let a = choose|a: int| 0 <= a < r.len() && r[a] == h;
                let a2 = if a < i { a } else { a + 1 };
                assert(r[a] == st.held[a2]);
                assert(st.held[a2].key != st.held[i].key);
            }
            assert forall|h: HeldView| st.held.contains(h) && h.key != key implies #[trigger] r.contains(h) by {
                let b = choose|b: int| 0 <= b < st.held.len() && st.held[b] == h;
                assert(b != i);
                let b2 = if b < i { b } else { b - 1 };
                assert(r[b2] == h);
            }
        },
        None => {
            assert forall|h: HeldView| #[trigger] r.contains(h) implies st.held.contains(h) && h.key != key by {
                let a = choose|a: int| 0 <= a < r.len() && r[a] == h;
                assert(st.held[a].key != key);
            }
        },
    }
}

/// Removing a list of keys keeps distinct keys, and keeps exactly the held
/// alerts whose key is not in the list.
pub proof fn lemma_remove_keys_contents(st: StoreView, keys: Seq<Seq<char>>, changes: Seq<ChangeView>, reason: ExpiryReason)
    requires
        keys_distinct(st.held),
    ensures
        keys_distinct(remove_keys(st, keys, changes, reason).0.held),
        remove_keys(st, keys, changes, reason).0.absence_limit == st.absence_limit,
        remove_keys(st, keys, changes, reason).0.pending == st.pending,
        forall|h: HeldView| #[trigger] remove_keys(st, keys, changes, reason).0.held.contains(h)
            <==> (st.held.contains(h) && !keys.contains(h.key)),
    decreases keys.len(),
{
    if keys.len() > 0 {
        let (st2, removed) = remove_held(st, keys[0]);
        let changes2 = match removed {
            Some(h) => changes.push(ChangeView::Expired { key: keys[0], alert: h.alert, reason }),
            None => changes,
        };
        lemma_remove_held_contents(st, keys[0]);
        lemma_remove_keys_contents(st2, keys.drop_first(), changes2, reason);
        let r = remove_keys(st, keys, changes, reason).0.held;
        assert forall|h: HeldView| #[trigger] r.contains(h) <==> (st.held.contains(h) && !keys.contains(h.key)) by {
            if keys.contains(h.key) {
                let a = choose|a: int| 0 <= a < keys.len() && keys[a] == h.key;
                if a > 0 {
                    assert(keys.drop_first()[a - 1] == h.key);
                }
            }
            if keys.drop_first().contains(h.key) {
                let a = choose|a: int| 0 <= a < keys.drop_first().len() && keys.drop_first()[a] == h.key;
                assert(keys[a + 1] == h.key);
            }
        }
    }
}

/// Every held alert expired as of `now` has its key listed.
pub proof fn lemma_expired_keys_complete(held: Seq<HeldView>, now: int)
    ensures
        forall|h: HeldView| held.contains(h) && h.alert.expires <= now ==> #[trigger] expired_keys(held, now).contains(h.key),
    decreases held.len(),
{
    if held.len() > 0 {
        lemma_expired_keys_complete(held.drop_last(), now);
        let e = expired_keys(held, now);
        let e0 = expired_keys(held.drop_last(), now);
        assert forall|h: HeldView| held.contains(h) && h.alert.expires <= now implies #[trigger] e.contains(h.key) by {
            let a = choose|a: int| 0 <= a < held.len() && held[a] == h;
            if a < held.len() - 1 {
                assert(held.drop_last()[a] == h);
                assert(held.drop_last().contains(h));
                assert(e0.contains(h.key));
                let b = choose|b: int| 0 <= b < e0.len() && e0[b] == h.key;
                assert(e[b] == e0[b]);
            } else {
                assert(e[e.len() - 1] == h.key);
            }
        }
    }
}

/// Every held alert unseen in this poll whose absence count reaches the
/// limit has its key listed.
pub proof fn lemma_absent_keys_complete(held: Seq<HeldView>, seen: Seq<Seq<char>>, limit: nat)
    ensures
        forall|h: HeldView| held.contains(h) && !seen.contains(h.latest_message_id)
            && h.consecutive_absences + 1 >= limit ==> #[trigger] absent_keys(held, seen, limit).contains(h.key),
    decreases held.len(),
{
    if held.len() > 0 {
        lemma_absent_keys_complete(held.drop_last(), seen, limit);
        let e = absent_keys(held, seen, limit);
        let e0 = absent_keys(held.drop_last(), seen, limit);
        assert forall|h: HeldView| held.contains(h) && !seen.contains(h.latest_message_id)
            && h.consecutive_absences + 1 >= limit implies #[trigger] e.contains(h.key) by {
            let a = choose|a: int| 0 <= a < held.len() && held[a] == h;
            if a < held.len() - 1 {
                assert(held.drop_last()[a] == h);
                assert(held.drop_last().contains(h));
                assert(e0.contains(h.key));
                let b = choose|b: int| 0 <= b < e0.len() && e0[b] == h.key;
                assert(e[b] == e0[b]);
            } else {
                assert(e[e.len() - 1] == h.key);
            }
        }
    }
}

/// After the time-based sweep, every held alert still expires after `now`,
/// and every held alert that does was kept.
pub proof fn lemma_sweep_keeps_only_unexpired(st: StoreView, now: int, changes: Seq<ChangeView>)
    requires
        keys_distinct(st.held),
    ensures
        keys_distinct(expire_sweep(st, now, changes).0.held),
        forall|h: HeldView| #[trigger] expire_sweep(st, now, changes).0.held.contains(h) ==> st.held.contains(h)
            && h.alert.expires > now,
{
    lemma_remove_keys_contents(st, expired_keys(st.held, now), changes, ExpiryReason::TimeExpired);
    lemma_expired_keys_complete(st.held, now);
}

/// Aging every counter and then removing the alerts whose counter reached
/// the limit restores the invariant.
pub proof fn lemma_age_then_remove_valid(s1: StoreView, seen: Seq<Seq<char>>, changes: Seq<ChangeView>, reason: ExpiryReason)
    requires
        store_valid(s1),
    ensures
        store_valid(
            remove_keys(
                StoreView { held: age_all(s1.held, seen), ..s1 },
                absent_keys(s1.held, seen, s1.absence_limit),
                changes,
                reason,
            ).0,
        ),
{
    let s2 = StoreView { held: age_all(s1.held, seen), ..s1 };
    let keys = absent_keys(s1.held, seen, s1.absence_limit);
    assert(keys_distinct(s2.held)) by {
        assert forall|a: int, b: int| 0 <= a < b < s2.held.len() implies s2.held[a].key != s2.held[b].key by {
            assert(s2.held[a].key == s1.held[a].key);
            assert(s2.held[b].key == s1.held[b].key);
        }
    }
    lemma_remove_keys_contents(s2, keys, changes, reason);
    lemma_absent_keys_complete(s1.held, seen, s1.absence_limit);
    let r = remove_keys(s2, keys, changes, reason).0;
    assert forall|a: int| 0 <= a < r.held.len() implies #[trigger] r.held[a].consecutive_absences < r.absence_limit
        || r.held[a].consecutive_absences == 0 by {
        let h = r.held[a];
        assert(r.held.contains(h));
        let b = choose|b: int| 0 <= b < s2.held.len() && s2.held[b] == h;
        let h1 = s1.held[b];
        assert(s1.held.contains(h1));
        assert(h == aged(h1, seen));
    }
}

/// Only alerts this poll did not see, and whose count of consecutive
/// absences reaches the limit with it, are listed for removal: an alert
/// seen in a poll, or missed fewer than `limit` polls in a row, stays.
pub proof fn lemma_absent_keys_sound(held: Seq<HeldView>, seen: Seq<Seq<char>>, limit: nat)
    ensures
        forall|k: Seq<char>| #[trigger] absent_keys(held, seen, limit).contains(k) ==> exists|i: int|
            0 <= i < held.len() && held[i].key == k && !seen.contains(held[i].latest_message_id)
                && held[i].consecutive_absences + 1 >= limit,
    decreases held.len(),
{
    if held.len() > 0 {
        let rest = held.drop_last();
        lemma_absent_keys_sound(rest, seen, limit);
        let e0 = absent_keys(rest, seen, limit);
        let e = absent_keys(held, seen, limit);
        assert forall|k: Seq<char>| #[trigger] e.contains(k) implies exists|i: int|
            0 <= i < held.len() && held[i].key == k && !seen.contains(held[i].latest_message_id)
                && held[i].consecutive_absences + 1 >= limit by {
            let a = choose|a: int| 0 <= a < e.len() && e[a] == k;
            if a < e0.len() {
                assert(e0[a] == k);
                assert(e0.contains(k));
                let i = choose|i: int| 0 <= i < rest.len() && rest[i].key == k && !seen.contains(
                    rest[i].latest_message_id,
                ) && rest[i].consecutive_absences + 1 >= limit;
                assert(held[i] == rest[i]);
            } else {
                assert(held[held.len() - 1].key == k);
            }
        }
    }
}

/// An update keeps the stable key: the held alert a message's references
/// resolve to stays at its place under the same key, now holding the new
/// content with the new message id as its latest, and nothing else held
/// changes.
pub proof fn lemma_update_keeps_stable_key(st: StoreView, a: AlertView, changes: Seq<ChangeView>, k: Seq<char>, i: int)
    requires
        matched_key(st.index, a.references) == Some(k),
        held_pos(st.held, k) == Some(i),
    ensures
        apply_new_or_update(st, a, changes).0.held.len() == st.held.len(),
        apply_new_or_update(st, a, changes).0.held[i] == fresh_held(k, a),
        forall|j: int| 0 <= j < st.held.len() && j != i ==> #[trigger] apply_new_or_update(st, a, changes).0.held[j] == st.held[j],
        apply_new_or_update(st, a, changes).1 == changes.push(ChangeView::Updated { key: k, alert: a }),
{
    lemma_held_pos(st.held, k);
}

/// Every held alert's latest message id resolves, through the index, to
/// that alert's own key.
pub open spec fn index_consistent(st: StoreView) -> bool {
    forall|i: int| 0 <= i < st.held.len() ==> #[trigger] index_get(st.index, st.held[i].latest_message_id) == Some(
        st.held[i].key,
    )
}

/// Dropping the index entry for `x` leaves every other lookup unchanged.
pub proof fn lemma_index_get_after_remove(index: Seq<IndexEntry>, x: Seq<char>, l: Seq<char>)
    requires
        x != l,
    ensures
        index_get(index_remove(index, x), l) == index_get(index, l),
    decreases index.len(),
{
    if index.len() > 0 {
        lemma_index_get_after_remove(index.drop_first(), x, l);
        if index[0].0 != x {
            let r = seq![index[0]] + index_remove(index.drop_first(), x);
            assert(r[0] == index[0]);
            assert(r.drop_first() =~= index_remove(index.drop_first(), x));
        }
    }
}

/// Cancelling only ever removes held alerts.
pub proof fn lemma_cancel_shrinks(st: StoreView, refs: Seq<AlertReferenceView>, changes: Seq<ChangeView>)
    requires
        keys_distinct(st.held),
    ensures
        keys_distinct(apply_cancel(st, refs, changes).0.held),
        forall|h: HeldView| #[trigger] apply_cancel(st, refs, changes).0.held.contains(h) ==> st.held.contains(h),
    decreases refs.len(),
{
    if refs.len() > 0 {
        match index_get(st.index, refs[0].identifier) {
            Some(key) => {
                let (s, removed) = remove_held(st, key);
                let c2 = match removed {
                    Some(h) => changes.push(ChangeView::Cancelled { key, alert: h.alert }),
                    None => changes,
                };
                lemma_remove_held_contents(st, key);
                lemma_cancel_shrinks(s, refs.drop_first(), c2);
            },
            None => {
                lemma_cancel_shrinks(st, refs.drop_first(), changes);
            },
        }
    }
}

/// A cancel whose references include a message id that resolves to key `k`
/// leaves no held alert under `k`.
pub proof fn lemma_cancel_removes(
    st: StoreView,
    refs: Seq<AlertReferenceView>,
    changes: Seq<ChangeView>,
    k: Seq<char>,
    l: Seq<char>,
)
    requires
        keys_distinct(st.held),
        index_consistent(st),
        index_get(st.index, l) == Some(k),
        exists|j: int| 0 <= j < refs.len() && refs[j].identifier == l,
    ensures
        forall|h: HeldView| #[trigger] apply_cancel(st, refs, changes).0.held.contains(h) ==> h.key != k,
    decreases refs.len(),
{
    let j = choose|j: int| 0 <= j < refs.len() && refs[j].identifier == l;
    match index_get(st.index, refs[0].identifier) {
        Some(key0) => {
            let (s2, removed) = remove_held(st, key0);
            let c2 = match removed {
                Some(h) => changes.push(ChangeView::Cancelled { key: key0, alert: h.alert }),
                None => changes,
            };
            assert(apply_cancel(st, refs, changes) == apply_cancel(s2, refs.drop_first(), c2));
            lemma_remove_held_contents(st, key0);
            lemma_cancel_shrinks(s2, refs.drop_first(), c2);
            lemma_held_pos(st.held, key0);
            if key0 != k {
                assert(j > 0);
                assert(refs.drop_first()[j - 1].identifier == l);
                match held_pos(st.held, key0) {
                    Some(p) => {
                        let x = st.held[p].latest_message_id;
                        assert(index_get(st.index, x) == Some(key0));
                        lemma_index_get_after_remove(st.index, x, l);
                        assert forall|a: int| 0 <= a < s2.held.len() implies #[trigger] index_get(
                            s2.index,
                            s2.held[a].latest_message_id,
                        ) == Some(s2.held[a].key) by {
                            let a2 = if a < p { a } else { a + 1 };
                            assert(s2.held[a] == st.held[a2]);
                            assert(index_get(st.index, st.held[a2].latest_message_id) == Some(st.held[a2].key));
                            assert(st.held[a2].key != st.held[p].key);
                            lemma_index_get_after_remove(st.index, x, st.held[a2].latest_message_id);
                        }
                        lemma_cancel_removes(s2, refs.drop_first(), c2, k, l);
                    },
                    None => {
                        lemma_cancel_removes(s2, refs.drop_first(), c2, k, l);
                    },
                }
            }
        },
        None => {
            assert(j > 0);
            assert(refs.drop_first()[j - 1].identifier == l);
            assert(apply_cancel(st, refs, changes) == apply_cancel(st, refs.drop_first(), changes));
            lemma_cancel_removes(st, refs.drop_first(), changes, k, l);
        },
    }
}

/// An explicit `Cancel` is authoritative: ingesting a poll made of one
/// cancel that references a held alert's latest message id leaves nothing
/// held under that alert's key (given that every held alert's latest id
/// resolves to it through the index).
pub proof fn lemma_cancel_is_authoritative(st: StoreView, c: AlertView, now: int, i: int)
    requires
        store_valid(st),
        index_consistent(st),
        c.message_type == MessageType::Cancel,
        0 <= i < st.held.len(),
        exists|j: int| 0 <= j < c.references.len() && c.references[j].identifier == st.held[i].latest_message_id,
    ensures
        forall|a: int| 0 <= a < ingest(st, seq![c], now).0.held.len() ==> ingest(st, seq![c], now).0.held[a].key
            != st.held[i].key,
{
    let k = st.held[i].key;
    let l = st.held[i].latest_message_id;
    let alerts = seq![c];
    assert(alerts.drop_first() =~= Seq::<AlertView>::empty());
    assert(alerts[0] == c);
    let r = apply_message(st, c, Seq::empty());
    assert(r == apply_cancel(st, c.references, Seq::empty()));
    assert(apply_messages(r.0, alerts.drop_first(), r.1) == r);
    assert(apply_messages(st, alerts, Seq::empty()) == r);
    let (s1, c1) = apply_messages(st, alerts, Seq::empty());
    assert(s1 == apply_cancel(st, c.references, Seq::empty()).0);
    lemma_cancel_shrinks(st, c.references, Seq::empty());
    lemma_cancel_removes(st, c.references, Seq::empty(), k, l);
    let seen = message_ids(alerts);
    let s2 = StoreView { held: age_all(s1.held, seen), ..s1 };
    assert(keys_distinct(s2.held)) by {
        assert forall|a: int, b: int| 0 <= a < b < s2.held.len() implies s2.held[a].key != s2.held[b].key by {
            assert(s2.held[a].key == s1.held[a].key);
            assert(s2.held[b].key == s1.held[b].key);
        }
    }
    let keys = absent_keys(s1.held, seen, s1.absence_limit);
    lemma_remove_keys_contents(s2, keys, c1, ExpiryReason::AbsentFromPolls);
    let (s3, c3) = remove_keys(s2, keys, c1, ExpiryReason::AbsentFromPolls);
    lemma_sweep_keeps_only_unexpired(s3, now, c3);
    let s4 = expire_sweep(s3, now, c3).0;
    assert forall|a: int| 0 <= a < s4.held.len() implies s4.held[a].key != k by {
        let h = s4.held[a];
        assert(s4.held.contains(h));
        assert(s3.held.contains(h));
        assert(s2.held.contains(h));
        let b = choose|b: int| 0 <= b < s2.held.len() && s2.held[b] == h;
        assert(s1.held.contains(s1.held[b]));
        assert(h.key == s1.held[b].key);
    }
}

/// No held alert holds the content of a `Cancel` message.
pub open spec fn holds_no_cancel(held: Seq<HeldView>) -> bool {
    forall|i: int| 0 <= i < held.len() ==> (#[trigger] held[i]).alert.message_type != MessageType::Cancel
}

proof fn lemma_remove_held_no_cancel(st: StoreView, key: Seq<char>)
    requires
        holds_no_cancel(st.held),
    ensures
        holds_no_cancel(remove_held(st, key).0.held),
{
    lemma_held_pos(st.held, key);
    if let Some(i) = held_pos(st.held, key) {
        let r = st.held.remove(i);
        assert forall|a: int| 0 <= a < r.len() implies (#[trigger] r[a]).alert.message_type != MessageType::Cancel by {
            let a2 = if a < i { a } else { a + 1 };
            assert(r[a] == st.held[a2]);
        }
    }
}

proof fn lemma_remove_keys_no_cancel(st: StoreView, keys: Seq<Seq<char>>, changes: Seq<ChangeView>, reason: ExpiryReason)
    requires
        holds_no_cancel(st.held),
    ensures
        holds_no_cancel(remove_keys(st, keys, changes, reason).0.held),
    decreases keys.len(),
{
    if keys.len() > 0 {
        let (st2, removed) = remove_held(st, keys[0]);
        let changes2 = match removed {
            Some(h) => changes.push(ChangeView::Expired { key: keys[0], alert: h.alert, reason }),
            None => changes,
        };
        lemma_remove_held_no_cancel(st, keys[0]);
        lemma_remove_keys_no_cancel(st2, keys.drop_first(), changes2, reason);
    }
}

proof fn lemma_apply_cancel_no_cancel(st: StoreView, refs: Seq<AlertReferenceView>, changes: Seq<ChangeView>)
    requires
        holds_no_cancel(st.held),
    ensures
        holds_no_cancel(apply_cancel(st, refs, changes).0.held),
    decreases refs.len(),
{
    if refs.len() > 0 {
        match index_get(st.index, refs[0].identifier) {
            Some(key) => {
                let (s, removed) = remove_held(st, key);
                let c2 = match removed {
                    Some(h) => changes.push(ChangeView::Cancelled { key, alert: h.alert }),
                    None => changes,
                };
                lemma_remove_held_no_cancel(st, key);
                lemma_apply_cancel_no_cancel(s, refs.drop_first(), c2);
            },
            None => {
                lemma_apply_cancel_no_cancel(st, refs.drop_first(), changes);
            },
        }
    }
}

/// Holding `a` in place of slot `i` (or appended) keeps out cancels when
/// `a` is not one.
proof fn lemma_replace_no_cancel(held: Seq<HeldView>, i: int, h: HeldView)
    requires
        holds_no_cancel(held),
        h.alert.message_type != MessageType::Cancel,
    ensures
        0 <= i < held.len() ==> holds_no_cancel(held.update(i, h)),
        holds_no_cancel(held.push(h)),
{
    if 0 <= i < held.len() {
        let u = held.update(i, h);
        assert forall|a: int| 0 <= a < u.len() implies (#[trigger] u[a]).alert.message_type != MessageType::Cancel by {
            if a != i {
                assert(u[a] == held[a]);
            }
        }
    }
    let p = held.push(h);
    assert forall|a: int| 0 <= a < p.len() implies (#[trigger] p[a]).alert.message_type != MessageType::Cancel by {
        if a < held.len() {
            assert(p[a] == held[a]);
        }
    }
}

proof fn lemma_new_or_update_no_cancel(st: StoreView, a: AlertView, changes: Seq<ChangeView>)
    requires
        holds_no_cancel(st.held),
        a.message_type != MessageType::Cancel,
    ensures
        holds_no_cancel(apply_new_or_update(st, a, changes).0.held),
{
    let target = match matched_key(st.index, a.references) {
        Some(key) => match held_pos(st.held, key) {
            Some(i) => Some((key, i)),
            None => None,
        },
        None => None,
    };
    match target {
        Some((key, i)) => {
            lemma_held_pos(st.held, key);
            lemma_replace_no_cancel(st.held, i, fresh_held(key, a));
        },
        None => match index_get(st.index, a.id) {
            Some(existing) => {
                lemma_held_pos(st.held, existing);
                if let Some(j) = held_pos(st.held, existing) {
                    lemma_replace_no_cancel(st.held, j, HeldView { alert: a, consecutive_absences: 0, ..st.held[j] });
                }
            },
            None => {
                lemma_held_pos(st.held, a.id);
                let j = match held_pos(st.held, a.id) {
                    Some(j) => j,
                    None => -1,
                };
                lemma_replace_no_cancel(st.held, j, fresh_held(a.id, a));
            },
        },
    }
}

proof fn lemma_apply_messages_no_cancel(st: StoreView, alerts: Seq<AlertView>, changes: Seq<ChangeView>)
    requires
        holds_no_cancel(st.held),
    ensures
        holds_no_cancel(apply_messages(st, alerts, changes).0.held),
    decreases alerts.len(),
{
    if alerts.len() > 0 {
        let a = alerts[0];
        let (st2, changes2) = apply_message(st, a, changes);
        if a.message_type == MessageType::Cancel {
            lemma_apply_cancel_no_cancel(st, a.references, changes);
        } else {
            lemma_new_or_update_no_cancel(st, a, changes);
        }
        lemma_apply_messages_no_cancel(st2, alerts.drop_first(), changes2);
    }
}

/// A `Cancel` message is never itself held: a poll ingested into a store
/// that holds no cancel's content leaves a store that holds none.
pub proof fn lemma_cancel_never_held(st: StoreView, alerts: Seq<AlertView>, now: int)
    requires
        holds_no_cancel(st.held),
    ensures
        holds_no_cancel(ingest(st, alerts, now).0.held),
{
    lemma_apply_messages_no_cancel(st, alerts, Seq::empty());
    let (s1, c1) = apply_messages(st, alerts, Seq::empty());
    let seen = message_ids(alerts);
    let s2 = StoreView { held: age_all(s1.held, seen), ..s1 };
    assert forall|i: int| 0 <= i < s2.held.len() implies (#[trigger] s2.held[i]).alert.message_type
        != MessageType::Cancel by {
        assert(s2.held[i].alert == s1.held[i].alert);
    }
    let keys = absent_keys(s1.held, seen, s1.absence_limit);
    lemma_remove_keys_no_cancel(s2, keys, c1, ExpiryReason::AbsentFromPolls);
    let (s3, c3) = remove_keys(s2, keys, c1, ExpiryReason::AbsentFromPolls);
    lemma_remove_keys_no_cancel(s3, expired_keys(s3.held, now), c3, ExpiryReason::TimeExpired);
}

/// Only alerts expired as of `now` are listed by the time-based sweep.
proof fn lemma_expired_keys_sound(held: Seq<HeldView>, now: int)
    ensures
        forall|k: Seq<char>| #[trigger] expired_keys(held, now).contains(k) ==> exists|i: int|
            0 <= i < held.len() && held[i].key == k && held[i].alert.expires <= now,
    decreases held.len(),
{
    if held.len() > 0 {
        let rest = held.drop_last();
        lemma_expired_keys_sound(rest, now);
        let e0 = expired_keys(rest, now);
        let e = expired_keys(held, now);
        assert forall|k: Seq<char>| #[trigger] e.contains(k) implies exists|i: int|
            0 <= i < held.len() && held[i].key == k && held[i].alert.expires <= now by {
            let a = choose|a: int| 0 <= a < e.len() && e[a] == k;
            if a < e0.len() {
                assert(e0[a] == k);
                assert(e0.contains(k));
                let i = choose|i: int| 0 <= i < rest.len() && rest[i].key == k && rest[i].alert.expires <= now;
                assert(held[i] == rest[i]);
            } else {
                assert(held[held.len() - 1].key == k);
            }
        }
    }
}

/// Removing keys only appends to the changes.
proof fn lemma_remove_keys_extends(st: StoreView, keys: Seq<Seq<char>>, changes: Seq<ChangeView>, reason: ExpiryReason)
    ensures
        remove_keys(st, keys, changes, reason).1.len() >= changes.len(),
        remove_keys(st, keys, changes, reason).1.take(changes.len() as int) == changes,
    decreases keys.len(),
{
    if keys.len() > 0 {
        let (st2, removed) = remove_held(st, keys[0]);
        let changes2 = match removed {
            Some(h) => changes.push(ChangeView::Expired { key: keys[0], alert: h.alert, reason }),
            None => changes,
        };
        lemma_remove_keys_extends(st2, keys.drop_first(), changes2, reason);
        let r = remove_keys(st, keys, changes, reason).1;
        assert(r.take(changes.len() as int) =~= changes2.take(changes.len() as int));
        assert(changes2.take(changes.len() as int) =~= changes);
    }
}

/// A held alert whose key is the only one of its kind, and which the
/// listed keys do not name, survives their removal.
proof fn lemma_kept_unless_listed(st: StoreView, keys: Seq<Seq<char>>, changes: Seq<ChangeView>, reason: ExpiryReason, h: HeldView)
    requires
        keys_distinct(st.held),
        st.held.contains(h),
        !keys.contains(h.key),
    ensures
        remove_keys(st, keys, changes, reason).0.held.contains(h),
        keys_distinct(remove_keys(st, keys, changes, reason).0.held),
{
    lemma_remove_keys_contents(st, keys, changes, reason);
}

/// A genuinely new alert becomes held: ingesting a poll made of one `Alert`
/// or `Update` message whose references resolve to no held alert, whose own
/// id the index does not know, and which has not expired, holds it under
/// its own id, with its content and a zero absence count, and reports it
/// as new.
pub proof fn lemma_new_alert_is_held(st: StoreView, a: AlertView, now: int)
    requires
        store_valid(st),
        a.message_type != MessageType::Cancel,
        match matched_key(st.index, a.references) {
            Some(k) => held_pos(st.held, k) is None,
            None => true,
        },
        index_get(st.index, a.id) is None,
        a.expires > now,
    ensures
        ingest(st, seq![a], now).0.held.contains(fresh_held(a.id, a)),
        ingest(st, seq![a], now).1.contains(ChangeView::New { key: a.id, alert: a }),
{
    let alerts = seq![a];
    let f = fresh_held(a.id, a);
    let c0 = seq![ChangeView::New { key: a.id, alert: a }];
    assert(alerts.drop_first() =~= Seq::<AlertView>::empty());
    assert(apply_new_or_update(st, a, Seq::empty()) == (insert_new(st, a.id, a), Seq::<ChangeView>::empty().push(
        ChangeView::New { key: a.id, alert: a },
    )));
    assert(Seq::<ChangeView>::empty().push(ChangeView::New { key: a.id, alert: a }) =~= c0);
    let s1 = insert_new(st, a.id, a);
    assert(alerts[0] == a);
    let r = apply_message(st, a, Seq::empty());
    assert(r == (s1, c0));
    assert(apply_messages(r.0, alerts.drop_first(), r.1) == r);
    assert(apply_messages(st, alerts, Seq::empty()) == (s1, c0));
    lemma_held_pos(st.held, a.id);
    // The new entry is held, and keys stay distinct.
    let p: int = match held_pos(st.held, a.id) {
        Some(j) => j,
        None => st.held.len() as int,
    };
    assert(s1.held[p] == f);
    assert(keys_distinct(s1.held)) by {
        assert forall|x: int, y: int| 0 <= x < y < s1.held.len() implies s1.held[x].key != s1.held[y].key by {
            if x != p && y != p {
                assert(s1.held[x] == st.held[x]);
                assert(s1.held[y] == st.held[y]);
            } else if x == p {
                assert(s1.held[y] == st.held[y]);
            } else {
                assert(s1.held[x] == st.held[x]);
            }
        }
    }
    // Aging: the new entry was seen, so it is unchanged.
    let seen = message_ids(alerts);
    assert(seen[0] == a.id);
    assert(seen.contains(a.id));
    let s2 = StoreView { held: age_all(s1.held, seen), ..s1 };
    assert(s2.held[p] == aged(f, seen));
    assert(aged(f, seen) == f);
    assert(s2.held.contains(f));
    assert(keys_distinct(s2.held)) by {
        assert forall|x: int, y: int| 0 <= x < y < s2.held.len() implies s2.held[x].key != s2.held[y].key by {
            assert(s2.held[x].key == s1.held[x].key);
            assert(s2.held[y].key == s1.held[y].key);
        }
    }
    // Absence: the only entry under the new id was seen, so it is not listed.
    let keys = absent_keys(s1.held, seen, s1.absence_limit);
    lemma_absent_keys_sound(s1.held, seen, s1.absence_limit);
    if keys.contains(a.id) {
        let i = choose|i: int| 0 <= i < s1.held.len() && s1.held[i].key == a.id && !seen.contains(
            s1.held[i].latest_message_id,
        ) && s1.held[i].consecutive_absences + 1 >= s1.absence_limit;
        assert(i == p);
    }
    lemma_kept_unless_listed(s2, keys, c0, ExpiryReason::AbsentFromPolls, f);
    lemma_remove_keys_extends(s2, keys, c0, ExpiryReason::AbsentFromPolls);
    let (s3, c3) = remove_keys(s2, keys, c0, ExpiryReason::AbsentFromPolls);
    // Expiry: the only entry under the new id has not expired.
    let ek = expired_keys(s3.held, now);
    lemma_expired_keys_sound(s3.held, now);
    if ek.contains(a.id) {
        let i = choose|i: int| 0 <= i < s3.held.len() && s3.held[i].key == a.id && s3.held[i].alert.expires <= now;
        let q = choose|q: int| 0 <= q < s3.held.len() && s3.held[q] == f;
        assert(i == q);
    }
    lemma_kept_unless_listed(s3, ek, c3, ExpiryReason::TimeExpired, f);
    lemma_remove_keys_extends(s3, ek, c3, ExpiryReason::TimeExpired);
    let c4 = remove_keys(s3, ek, c3, ExpiryReason::TimeExpired).1;
    assert(c3.take(1)[0] == c0[0]);
    assert(c4.take(c3.len() as int)[0] == c3[0]);
    assert(c4[0] == ChangeView::New { key: a.id, alert: a });
}

/// Removing keys keeps only alerts that were held before.
proof fn lemma_remove_keys_subset(st: StoreView, keys: Seq<Seq<char>>, changes: Seq<ChangeView>, reason: ExpiryReason)
    ensures
        forall|h: HeldView| #[trigger] remove_keys(st, keys, changes, reason).0.held.contains(h) ==> st.held.contains(h),
    decreases keys.len(),
{
    if keys.len() > 0 {
        let (st2, removed) = remove_held(st, keys[0]);
        let changes2 = match removed {
            Some(h) => changes.push(ChangeView::Expired { key: keys[0], alert: h.alert, reason }),
            None => changes,
        };
        lemma_remove_keys_subset(st2, keys.drop_first(), changes2, reason);
        assert(remove_keys(st, keys, changes, reason) == remove_keys(st2, keys.drop_first(), changes2, reason));
        lemma_held_pos(st.held, keys[0]);
        assert forall|h: HeldView| #[trigger] st2.held.contains(h) implies st.held.contains(h) by {
            if let Some(i) = held_pos(st.held, keys[0]) {
                let a = choose|a: int| 0 <= a < st2.held.len() && st2.held[a] == h;
                let a2 = if a < i { a } else { a + 1 };
                assert(st2.held[a] == st.held[a2]);
            }
        }
    }
}

/// A poll resets the absence count of every alert it saw: after ingesting
/// it, each held alert whose latest message id is among the poll's message
/// ids has a zero count.
pub proof fn lemma_seen_alerts_reset(st: StoreView, alerts: Seq<AlertView>, now: int)
    ensures
        forall|h: HeldView| #[trigger] ingest(st, alerts, now).0.held.contains(h) && message_ids(alerts).contains(
            h.latest_message_id,
        ) ==> h.consecutive_absences == 0,
{
    let (s1, c1) = apply_messages(st, alerts, Seq::empty());
    let seen = message_ids(alerts);
    let s2 = StoreView { held: age_all(s1.held, seen), ..s1 };
    let keys = absent_keys(s1.held, seen, s1.absence_limit);
    lemma_remove_keys_subset(s2, keys, c1, ExpiryReason::AbsentFromPolls);
    let (s3, c3) = remove_keys(s2, keys, c1, ExpiryReason::AbsentFromPolls);
    lemma_remove_keys_subset(s3, expired_keys(s3.held, now), c3, ExpiryReason::TimeExpired);
    let s4 = ingest(st, alerts, now).0;
    assert forall|h: HeldView| #[trigger] s4.held.contains(h) && seen.contains(h.latest_message_id) implies h.consecutive_absences == 0 by {
        assert(s2.held.contains(h));
        let b = choose|b: int| 0 <= b < s2.held.len() && s2.held[b] == h;
        assert(h == aged(s1.held[b], seen));
    }
}

proof fn lemma_remove_keys_pending(st: StoreView, keys: Seq<Seq<char>>, changes: Seq<ChangeView>, reason: ExpiryReason)
    ensures
        remove_keys(st, keys, changes, reason).0.pending == st.pending,
        remove_keys(st, keys, changes, reason).0.absence_limit == st.absence_limit,
    decreases keys.len(),
{
    if keys.len() > 0 {
        let (st2, removed) = remove_held(st, keys[0]);
        let changes2 = match removed {
            Some(h) => changes.push(ChangeView::Expired { key: keys[0], alert: h.alert, reason }),
            None => changes,
        };
        lemma_remove_keys_pending(st2, keys.drop_first(), changes2, reason);
    }
}

proof fn lemma_apply_cancel_pending(st: StoreView, refs: Seq<AlertReferenceView>, changes: Seq<ChangeView>)
    ensures
        apply_cancel(st, refs, changes).0.pending == st.pending,
    decreases refs.len(),
{
    if refs.len() > 0 {
        match index_get(st.index, refs[0].identifier) {
            Some(key) => {
                let (s, removed) = remove_held(st, key);
                let c2 = match removed {
                    Some(h) => changes.push(ChangeView::Cancelled { key, alert: h.alert }),
                    None => changes,
                };
                lemma_apply_cancel_pending(s, refs.drop_first(), c2);
            },
            None => {
                lemma_apply_cancel_pending(st, refs.drop_first(), changes);
            },
        }
    }
}

proof fn lemma_apply_messages_pending(st: StoreView, alerts: Seq<AlertView>, changes: Seq<ChangeView>)
    ensures
        apply_messages(st, alerts, changes).0.pending == st.pending,
    decreases alerts.len(),
{
    if alerts.len() > 0 {
        let a = alerts[0];
        let (st2, changes2) = apply_message(st, a, changes);
        if a.message_type == MessageType::Cancel {
            lemma_apply_cancel_pending(st, a.references, changes);
        }
        lemma_apply_messages_pending(st2, alerts.drop_first(), changes2);
    }
}

/// One poll's changes are appended, in order, to the changes not yet
/// drained.
pub proof fn lemma_ingest_appends_pending(st: StoreView, alerts: Seq<AlertView>, now: int)
    ensures
        ingest(st, alerts, now).0.pending == st.pending + ingest(st, alerts, now).1,
{
    lemma_apply_messages_pending(st, alerts, Seq::empty());
    let (s1, c1) = apply_messages(st, alerts, Seq::empty());
    let seen = message_ids(alerts);
    let s2 = StoreView { held: age_all(s1.held, seen), ..s1 };
    let keys = absent_keys(s1.held, seen, s1.absence_limit);
    lemma_remove_keys_pending(s2, keys, c1, ExpiryReason::AbsentFromPolls);
    let (s3, c3) = remove_keys(s2, keys, c1, ExpiryReason::AbsentFromPolls);
    lemma_remove_keys_pending(s3, expired_keys(s3.held, now), c3, ExpiryReason::TimeExpired);
}

/// A time-based sweep's changes are appended, in order, to the changes not
/// yet drained.
pub proof fn lemma_expire_appends_pending(st: StoreView, now: int)
    ensures
        expire_stale_model(st, now).0.pending == st.pending + expire_stale_model(st, now).1,
{
    lemma_remove_keys_pending(st, expired_keys(st.held, now), Seq::empty(), ExpiryReason::TimeExpired);
}

/// One mutating call on a store: a poll or a time-based sweep.
pub ghost enum StoreCall {
    Ingest { alerts: Seq<AlertView>, now: int },
    ExpireStale { now: int },
}

/// The store after `call`, and the changes it returns.
pub open spec fn apply_call(st: StoreView, call: StoreCall) -> (StoreView, Seq<ChangeView>) {
    match call {
        StoreCall::Ingest { alerts, now } => ingest(st, alerts, now),
        StoreCall::ExpireStale { now } => expire_stale_model(st, now),
    }
}

/// The store after `calls` in order, and the concatenation, in call order,
/// of the changes each returned.
pub open spec fn run_calls(st: StoreView, calls: Seq<StoreCall>) -> (StoreView, Seq<ChangeView>)
    decreases calls.len(),
{
    if calls.len() == 0 {
        (st, Seq::empty())
    } else {
        let (s1, c1) = apply_call(st, calls[0]);
        let (s2, c2) = run_calls(s1, calls.drop_first());
        (s2, c1 + c2)
    }
}

/// Draining gives back every change since the last drain: after any
/// sequence of polls and sweeps, the changes not yet drained are the ones
/// pending before, followed by the concatenation, in call order, of what
/// each call returned (so, right after a drain, exactly that concatenation).
pub proof fn lemma_pending_is_every_change_since_drain(st: StoreView, calls: Seq<StoreCall>)
    ensures
        run_calls(st, calls).0.pending == st.pending + run_calls(st, calls).1,
    decreases calls.len(),
{
    if calls.len() > 0 {
        let (s1, c1) = apply_call(st, calls[0]);
        match calls[0] {
            StoreCall::Ingest { alerts, now } => lemma_ingest_appends_pending(st, alerts, now),
            StoreCall::ExpireStale { now } => lemma_expire_appends_pending(st, now),
        }
        lemma_pending_is_every_change_since_drain(s1, calls.drop_first());
        let (s2, c2) = run_calls(s1, calls.drop_first());
        assert(st.pending + (c1 + c2) =~= (st.pending + c1) + c2);
    }
}

proof fn lemma_remove_held_from(st: StoreView, key: Seq<char>)
    ensures
        forall|h: HeldView| #[trigger] remove_held(st, key).0.held.contains(h) ==> st.held.contains(h),
        remove_held(st, key).1 matches Some(h) ==> st.held.contains(h) && h.key == key,
{
    lemma_held_pos(st.held, key);
    if let Some(i) = held_pos(st.held, key) {
        let r = st.held.remove(i);
        assert forall|h: HeldView| #[trigger] r.contains(h) implies st.held.contains(h) by {
            let a = choose|a: int| 0 <= a < r.len() && r[a] == h;
            let a2 = if a < i { a } else { a + 1 };
            assert(r[a] == st.held[a2]);
        }
        assert(st.held.contains(st.held[i]));
    }
}

/// A cancel reports each alert it removes under that alert's stable key:
/// it only appends to the changes, every change it appends is `Cancelled`,
/// and each names a key under which the store held an alert, with that
/// alert's content as held.
pub proof fn lemma_cancel_reports_held_keys(st: StoreView, refs: Seq<AlertReferenceView>, changes: Seq<ChangeView>)
    ensures
        ({
            let r = apply_cancel(st, refs, changes).1;
            &&& r.len() >= changes.len()
            &&& r.take(changes.len() as int) == changes
            &&& forall|i: int| changes.len() <= i < r.len() ==> (#[trigger] r[i] matches ChangeView::Cancelled {
                key,
                alert,
            } && exists|j: int| 0 <= j < st.held.len() && st.held[j].key == key && st.held[j].alert == alert)
        }),
    decreases refs.len(),
{
    if refs.len() > 0 {
        match index_get(st.index, refs[0].identifier) {
            Some(key) => {
                let (s2, removed) = remove_held(st, key);
                let c2 = match removed {
                    Some(h) => changes.push(ChangeView::Cancelled { key, alert: h.alert }),
                    None => changes,
                };
                lemma_remove_held_from(st, key);
                lemma_cancel_reports_held_keys(s2, refs.drop_first(), c2);
                let r = apply_cancel(st, refs, changes).1;
                assert(r == apply_cancel(s2, refs.drop_first(), c2).1);
                assert(r.take(changes.len() as int) =~= c2.take(changes.len() as int));
                assert(c2.take(changes.len() as int) =~= changes);
                assert forall|i: int| changes.len() <= i < r.len() implies (#[trigger] r[i] matches ChangeView::Cancelled {
                    key,
                    alert,
                } && exists|j: int| 0 <= j < st.held.len() && st.held[j].key == key && st.held[j].alert == alert) by {
                    if i < c2.len() {
                        assert(r[i] == r.take(c2.len() as int)[i]);
                        let h = removed->Some_0;
                        assert(r[i] == ChangeView::Cancelled { key, alert: h.alert });
                        let j = choose|j: int| 0 <= j < st.held.len() && st.held[j] == h;
                    } else {
                        if let ChangeView::Cancelled { key: k2, alert: a2 } = r[i] {
                            let j = choose|j: int| 0 <= j < s2.held.len() && s2.held[j].key == k2 && s2.held[j].alert == a2;
                            assert(s2.held.contains(s2.held[j]));
                            let j2 = choose|j2: int| 0 <= j2 < st.held.len() && st.held[j2] == s2.held[j];
                        }
                    }
                }
            },
            None => {
                lemma_cancel_reports_held_keys(st, refs.drop_first(), changes);
            },
        }
    } else {
        assert(changes.take(changes.len() as int) =~= changes);
    }
}

/// Whether `v` holds a string equal to `s`.
fn contains_str(v: &Vec<String>, s: &str) -> (r: bool)
    ensures
        r == strings_view(v@).contains(s@),
{
    let n = v.len();
    let mut i: usize = 0;
    while i < n
        invariant
            n == v@.len(),
            i <= n,
            forall|j: int| 0 <= j < i ==> v@[j]@ != s@,
        decreases n - i,
    {
        if str_eq(v[i].as_str(), s) {
            assert(strings_view(v@)[i as int] == s@);
            return true;
        }
        i = i + 1;
    }
    assert forall|j: int| 0 <= j < strings_view(v@).len() implies strings_view(v@)[j] != s@ by {
        assert(strings_view(v@)[j] == v@[j]@);
    }
    false
}

impl AlertStore {
    /// A new, empty store using [`DEFAULT_ABSENCE_LIMIT`].
    pub fn new() -> (store: Self)
        ensures
            store@ == (StoreView { held: Seq::empty(), index: Seq::empty(), absence_limit: DEFAULT_ABSENCE_LIMIT as nat, pending: Seq::empty() }),
            store.wf(),
    {
        Self::with_absence_limit(DEFAULT_ABSENCE_LIMIT)
    }

    /// A new, empty store with an explicit absence limit.
    pub fn with_absence_limit(absence_limit: u32) -> (store: Self)
        ensures
            store@ == (StoreView { held: Seq::empty(), index: Seq::empty(), absence_limit: absence_limit as nat, pending: Seq::empty() }),
            store.wf(),
    {
        let store = AlertStore {
            held: Vec::new(),
            index_by_latest_message_id: Vec::new(),
            absence_limit,
            pending_changes: Vec::new(),
        };
        assert(store@.held =~= Seq::<HeldView>::empty());
        assert(store@.index =~= Seq::<IndexEntry>::empty());
        assert(store@.pending =~= Seq::<ChangeView>::empty());
        store
    }

    /// The store invariant: distinct keys, counters below the limit, and
    /// no held alert with the content of a `Cancel` message.
    pub open spec fn wf(&self) -> bool {
        store_valid(self@) && holds_no_cancel(self@.held)
    }

    /// The part of [`AlertStore::wf`] that every internal step keeps.
    pub open spec fn valid(&self) -> bool {
        store_valid(self@)
    }

    /// The number of alerts currently held (not filtered by time).
    pub fn held_count(&self) -> (n: usize)
        ensures
            n == self@.held.len(),
    {
        self.held.len()
    }

    fn held_position(&self, key: &str) -> (r: Option<usize>)
        ensures
            held_pos(self@.held, key@) == (match r {
                Some(i) => Some(i as int),
                None => None::<int>,
            }),
            r matches Some(i) ==> i < self@.held.len(),
    {
        let mut i: usize = 0;
        let n = self.held.len();
        while i < n
            invariant
                n == self.held@.len(),
                i <= n,
                forall|j: int| 0 <= j < i ==> self@.held[j].key != key@,
            decreases n - i,
        {
            if str_eq(self.held[i].key.as_str(), key) {
                proof {
                    lemma_held_pos(self@.held, key@);
                    assert(self@.held[i as int].key == key@);
                }
                return Some(i);
            }
            i = i + 1;
        }
        proof {
            lemma_held_pos(self@.held, key@);
        }
        None
    }

    fn index_position(&self, id: &str) -> (r: Option<usize>)
        ensures
            r matches Some(i) ==> i < self@.index.len() && self@.index[i as int].0 == id@,
            forall|j: int|
                0 <= j < (match r {
                    Some(i) => i as int,
                    None => self@.index.len() as int,
                }) ==> self@.index[j].0 != id@,
    {
        let mut i: usize = 0;
        let n = self.index_by_latest_message_id.len();
        while i < n
            invariant
                n == self.index_by_latest_message_id@.len(),
                i <= n,
                forall|j: int| 0 <= j < i ==> self@.index[j].0 != id@,
            decreases n - i,
        {
            if str_eq(self.index_by_latest_message_id[i].0.as_str(), id) {
                return Some(i);
            }
            i = i + 1;
        }
        None
    }

    /// The stable key recorded for message id `id`.
    fn index_lookup(&self, id: &str) -> (r: Option<String>)
        ensures
            index_get(self@.index, id@) == (match r {
                Some(k) => Some(k@),
                None => None::<Seq<char>>,
            }),
    {
        let p = self.index_position(id);
        match p {
            Some(i) => {
                proof {
                    lemma_index_first(self@.index, id@, Seq::empty(), i as int);
                }
                Some(self.index_by_latest_message_id[i].1.clone())
            },
            None => {
                proof {
                    lemma_index_first(self@.index, id@, Seq::empty(), self@.index.len() as int);
                }
                None
            },
        }
    }

    fn index_remove_id(&mut self, id: &str)
        ensures
            final(self)@ == (StoreView { index: index_remove(old(self)@.index, id@), ..old(self)@ }),
            final(self).held@ == old(self).held@,
            final(self).absence_limit == old(self).absence_limit,
    {
        let p = self.index_position(id);
        let ghost before = self.index_by_latest_message_id@;
        match p {
            Some(i) => {
                proof {
                    lemma_index_first(self@.index, id@, Seq::empty(), i as int);
                }
                self.index_by_latest_message_id.remove(i);
                assert(self@.index =~= old(self)@.index.remove(i as int));
            },
            None => {
                proof {
                    lemma_index_first(self@.index, id@, Seq::empty(), self@.index.len() as int);
                }
            },
        }
        assert(self@.pending == old(self)@.pending);
    }

    fn index_insert_id(&mut self, id: String, key: String)
        ensures
            final(self)@ == (StoreView { index: index_insert(old(self)@.index, id@, key@), ..old(self)@ }),
            final(self).held@ == old(self).held@,
            final(self).absence_limit == old(self).absence_limit,
    {
        let p = self.index_position(id.as_str());
        match p {
            Some(i) => {
                proof {
                    lemma_index_first(self@.index, id@, key@, i as int);
                }
                self.index_by_latest_message_id.remove(i);
                self.index_by_latest_message_id.insert(i, (id, key));
                assert(self@.index =~= old(self)@.index.update(i as int, (id@, key@)));
            },
            None => {
                proof {
                    lemma_index_first(self@.index, id@, key@, self@.index.len() as int);
                }
                self.index_by_latest_message_id.push((id, key));
                assert(self@.index =~= old(self)@.index.push((id@, key@)));
            },
        }
    }

    /// Remove the held alert with key `key`, with its index entry.
    fn remove_held(&mut self, key: &str) -> (r: Option<HeldAlert>)
        ensures
            final(self)@ == remove_held(old(self)@, key@).0,
            (match r {
                Some(h) => Some(h@),
                None => None::<HeldView>,
            }) == remove_held(old(self)@, key@).1,
            final(self).absence_limit == old(self).absence_limit,
            old(self).valid() ==> final(self).valid(),
    {
        let p = self.held_position(key);
        match p {
            Some(i) => {
                let held = self.held.remove(i);
                assert(self@.held =~= old(self)@.held.remove(i as int));
                proof {
                    if old(self).valid() {
                        lemma_remove_keeps_valid(old(self)@.held, old(self)@.absence_limit, i as int);
                    }
                }
                self.index_remove_id(held.latest_message_id.as_str());
                Some(held)
            },
            None => {
                None
            },
        }
    }

    /// The stable key of the first reference the index knows.
    fn matched_key_of(&self, refs: &Vec<AlertReference>) -> (r: Option<String>)
        ensures
            opt_string_view(r) == matched_key(self@.index, refs@.map_values(|x: AlertReference| x@)),
    {
        let ghost rv = refs@.map_values(|x: AlertReference| x@);
        assert(rv.skip(0) =~= rv);
        let n = refs.len();
        let mut i: usize = 0;
        while i < n
            invariant
                n == refs@.len(),
                i <= n,
                rv == refs@.map_values(|x: AlertReference| x@),
                matched_key(self@.index, rv) == matched_key(self@.index, rv.skip(i as int)),
            decreases n - i,
        {
            proof {
                assert(rv.skip(i as int).drop_first() =~= rv.skip(i as int + 1));
                assert(rv.skip(i as int)[0] == refs@[i as int]@);
            }
            let k = self.index_lookup(refs[i].identifier.as_str());
            if k.is_some() {
                return k;
            }
            i = i + 1;
        }
        assert(rv.skip(n as int) =~= Seq::<AlertReferenceView>::empty());
        None
    }

    /// Hold `alert` under `key`, replacing whatever is held under `key`.
    fn insert_new(&mut self, key: String, alert: Alert)
        requires
            old(self).valid(),
        ensures
            final(self)@ == insert_new(old(self)@, key@, alert@),
            final(self).valid(),
    {
        let latest = alert.id.clone();
        self.index_insert_id(latest.clone(), key.clone());
        let p = self.held_position(key.as_str());
        let entry = HeldAlert { key, latest_message_id: latest, alert, consecutive_absences: 0 };
        proof {
            lemma_held_pos(self@.held, entry@.key);
        }
        match p {
            Some(j) => {
                self.held.set(j, entry);
                assert(self@.held =~= old(self)@.held.update(j as int, entry@));
            },
            None => {
                self.held.push(entry);
                assert(self@.held =~= old(self)@.held.push(entry@));
            },
        }
        assert(keys_distinct(self@.held)) by {
            assert forall|a: int, b: int| 0 <= a < b < self@.held.len() implies self@.held[a].key != self@.held[b].key by {
                if p.is_some() {
                    assert(old(self)@.held[p.unwrap() as int].key == entry@.key);
                }
            }
        }
        assert(counters_below(self@.held, self@.absence_limit)) by {
            assert forall|a: int| 0 <= a < self@.held.len() implies #[trigger] self@.held[a].consecutive_absences
                < self@.absence_limit || self@.held[a].consecutive_absences == 0 by {
                if a < old(self)@.held.len() && !(p == Some(a as usize)) {
                    assert(self@.held[a] == old(self)@.held[a]);
                }
            }
        }
    }

    /// Remove each of `keys` in turn, reporting each removal as expired for
    /// `reason`.
    fn remove_keys(&mut self, keys: &Vec<String>, reason: ExpiryReason, changes: &mut Vec<AlertChange>)
        ensures
            (final(self)@, changes_view(final(changes)@)) == remove_keys(
                old(self)@,
                strings_view(keys@),
                changes_view(old(changes)@),
                reason,
            ),
            old(self).valid() ==> final(self).valid(),
    {
        let ghost kv = strings_view(keys@);
        assert(kv.skip(0) =~= kv);
        let n = keys.len();
        let mut i: usize = 0;
        while i < n
            invariant
                n == keys@.len(),
                i <= n,
                kv == strings_view(keys@),
                remove_keys(old(self)@, kv, changes_view(old(changes)@), reason) == remove_keys(
                    self@,
                    kv.skip(i as int),
                    changes_view(changes@),
                    reason,
                ),
                old(self).valid() ==> self.valid(),
            decreases n - i,
        {
            proof {
                assert(kv.skip(i as int).drop_first() =~= kv.skip(i as int + 1));
                assert(kv.skip(i as int)[0] == keys@[i as int]@);
            }
            let ghost cv0 = changes_view(changes@);
            let r = self.remove_held(keys[i].as_str());
            match r {
                Some(h) => {
                    let c = AlertChange::Expired { key: keys[i].clone(), alert: h.alert, reason };
                    changes.push(c);
                    assert(changes_view(changes@) =~= cv0.push(c@));
                },
                None => {},
            }
            i = i + 1;
        }
        assert(kv.skip(n as int) =~= Seq::<Seq<char>>::empty());
    }

    /// Keys of held alerts expired as of `now`, in order.
    fn expired_keys_of(&self, now: Timestamp) -> (keys: Vec<String>)
        ensures
            strings_view(keys@) == expired_keys(self@.held, now@),
    {
        let mut keys: Vec<String> = Vec::new();
        let n = self.held.len();
        let mut i: usize = 0;
        while i < n
            invariant
                n == self.held@.len(),
                i <= n,
                strings_view(keys@) == expired_keys(self@.held.take(i as int), now@),
            decreases n - i,
        {
            let ghost k0 = strings_view(keys@);
            proof {
                assert(self@.held.take(i as int + 1).drop_last() =~= self@.held.take(i as int));
                assert(self@.held.take(i as int + 1).last() == self@.held[i as int]);
            }
            if self.held[i].alert.expires.epoch_millis() <= now.epoch_millis() {
                keys.push(self.held[i].key.clone());
                assert(strings_view(keys@) =~= k0.push(self@.held[i as int].key));
            } else {
                assert(strings_view(keys@) =~= k0);
            }
            i = i + 1;
        }
        assert(self@.held.take(n as int) =~= self@.held);
        keys
    }

    /// The time-based sweep, appending its changes to `changes`.
    fn expire_stale_without_draining(&mut self, now: Timestamp, changes: &mut Vec<AlertChange>)
        ensures
            (final(self)@, changes_view(final(changes)@)) == expire_sweep(old(self)@, now@, changes_view(old(changes)@)),
            old(self).valid() ==> final(self).valid(),
    {
        let keys = self.expired_keys_of(now);
        self.remove_keys(&keys, ExpiryReason::TimeExpired, changes);
    }

    /// Apply an `Alert`- or `Update`-type message.
    fn apply_new_or_update(&mut self, incoming: Alert, changes: &mut Vec<AlertChange>)
        requires
            old(self).valid(),
        ensures
            (final(self)@, changes_view(final(changes)@)) == apply_new_or_update(
                old(self)@,
                incoming@,
                changes_view(old(changes)@),
            ),
            final(self).valid(),
    {
        let ghost cv0 = changes_view(changes@);
        let matched = self.matched_key_of(&incoming.references);
        if let Some(key) = matched {
            let p = self.held_position(key.as_str());
            if let Some(i) = p {
                proof {
                    lemma_held_pos(self@.held, key@);
                }
                let old_latest = self.held[i].latest_message_id.clone();
                self.index_remove_id(old_latest.as_str());
                self.index_insert_id(incoming.id.clone(), key.clone());
                let entry = HeldAlert {
                    key: key.clone(),
                    latest_message_id: incoming.id.clone(),
                    alert: incoming.duplicate(),
                    consecutive_absences: 0,
                };
                self.held.set(i, entry);
                assert(self@.held =~= old(self)@.held.update(i as int, fresh_held(key@, incoming@)));
                assert(keys_distinct(self@.held)) by {
                    assert forall|a: int, b: int| 0 <= a < b < self@.held.len() implies self@.held[a].key
                        != self@.held[b].key by {
                        assert(old(self)@.held[i as int].key == key@);
                    }
                }
                assert(counters_below(self@.held, self@.absence_limit)) by {
                    assert forall|a: int| 0 <= a < self@.held.len() implies #[trigger] self@.held[a].consecutive_absences
                        < self@.absence_limit || self@.held[a].consecutive_absences == 0 by {
                        if a != i {
                            assert(self@.held[a] == old(self)@.held[a]);
                        }
                    }
                }
                let c = AlertChange::Updated { key, alert: incoming };
                changes.push(c);
                assert(changes_view(changes@) =~= cv0.push(c@));
                return;
            }
        }
        let existing = self.index_lookup(incoming.id.as_str());
        match existing {
            Some(ek) => {
                let p = self.held_position(ek.as_str());
                if let Some(j) = p {
                    proof {
                        lemma_held_pos(self@.held, ek@);
                    }
                    let entry = HeldAlert {
                        key: self.held[j].key.clone(),
                        latest_message_id: self.held[j].latest_message_id.clone(),
                        alert: incoming,
                        consecutive_absences: 0,
                    };
                    self.held.set(j, entry);
                    assert(self@.held =~= old(self)@.held.update(
                        j as int,
                        HeldView { alert: incoming@, consecutive_absences: 0, ..old(self)@.held[j as int] },
                    ));
                    assert(keys_distinct(self@.held)) by {
                        assert forall|a: int, b: int| 0 <= a < b < self@.held.len() implies self@.held[a].key
                            != self@.held[b].key by {
                            assert(self@.held[a].key == old(self)@.held[a].key);
                            assert(self@.held[b].key == old(self)@.held[b].key);
                        }
                    }
                    assert(counters_below(self@.held, self@.absence_limit)) by {
                        assert forall|a: int| 0 <= a < self@.held.len() implies #[trigger] self@.held[a].consecutive_absences
                            < self@.absence_limit || self@.held[a].consecutive_absences == 0 by {
                            if a != j {
                                assert(self@.held[a] == old(self)@.held[a]);
                            }
                        }
                    }
                }
                assert(changes_view(changes@) == cv0);
            },
            None => {
                let key = incoming.id.clone();
                self.insert_new(key.clone(), incoming.duplicate());
                let c = AlertChange::New { key, alert: incoming };
                changes.push(c);
                assert(changes_view(changes@) =~= cv0.push(c@));
            },
        }
    }

    /// Apply a `Cancel` message: remove every held alert it references.
    fn apply_cancel(&mut self, incoming: &Alert, changes: &mut Vec<AlertChange>)
        ensures
            (final(self)@, changes_view(final(changes)@)) == apply_cancel(
                old(self)@,
                incoming@.references,
                changes_view(old(changes)@),
            ),
            old(self).valid() ==> final(self).valid(),
    {
        let ghost rv = incoming@.references;
        assert(rv.skip(0) =~= rv);
        let n = incoming.references.len();
        let mut i: usize = 0;
        while i < n
            invariant
                n == incoming.references@.len(),
                i <= n,
                rv == incoming@.references,
                apply_cancel(old(self)@, rv, changes_view(old(changes)@)) == apply_cancel(
                    self@,
                    rv.skip(i as int),
                    changes_view(changes@),
                ),
                old(self).valid() ==> self.valid(),
            decreases n - i,
        {
            proof {
                assert(rv.skip(i as int).drop_first() =~= rv.skip(i as int + 1));
                assert(rv.skip(i as int)[0] == incoming.references@[i as int]@);
            }
            let ghost cv0 = changes_view(changes@);
            let found = self.index_lookup(incoming.references[i].identifier.as_str());
            match found {
                Some(key) => {
                    let r = self.remove_held(key.as_str());
                    match r {
                        Some(h) => {
                            let c = AlertChange::Cancelled { key, alert: h.alert };
                            changes.push(c);
                            assert(changes_view(changes@) =~= cv0.push(c@));
                        },
                        None => {},
                    }
                },
                None => {},
            }
            i = i + 1;
        }
        assert(rv.skip(n as int) =~= Seq::<AlertReferenceView>::empty());
    }

    /// Advance or reset every absence counter for this poll's `seen` ids and
    /// list the keys whose counter reached the limit.
    fn age_counters(&mut self, seen: &Vec<String>) -> (absent: Vec<String>)
        requires
            old(self).valid(),
        ensures
            final(self)@ == (StoreView { held: age_all(old(self)@.held, strings_view(seen@)), ..old(self)@ }),
            strings_view(absent@) == absent_keys(
                old(self)@.held,
                strings_view(seen@),
                old(self)@.absence_limit,
            ),
    {
        let ghost sv = strings_view(seen@);
        let ghost h0 = old(self)@.held;
        let mut absent: Vec<String> = Vec::new();
        let n = self.held.len();
        let mut i: usize = 0;
        while i < n
            invariant
                n == self.held@.len(),
                n == h0.len(),
                i <= n,
                h0 == old(self)@.held,
                sv == strings_view(seen@),
                counters_below(h0, old(self)@.absence_limit),
                self.absence_limit == old(self).absence_limit,
                self.index_by_latest_message_id == old(self).index_by_latest_message_id,
                self.pending_changes == old(self).pending_changes,
                forall|j: int| 0 <= j < i ==> self@.held[j] == aged(h0[j], sv),
                forall|j: int| i <= j < n ==> self@.held[j] == h0[j],
                strings_view(absent@) == absent_keys(h0.take(i as int), sv, old(self)@.absence_limit),
            decreases n - i,
        {
            let ghost a0 = strings_view(absent@);
            let ghost prev = self@.held;
            proof {
                assert(h0.take(i as int + 1).drop_last() =~= h0.take(i as int));
                assert(h0.take(i as int + 1).last() == h0[i as int]);
            }
            let seen_now = contains_str(seen, self.held[i].latest_message_id.as_str());
            let mut h = self.held.remove(i);
            if seen_now {
                h.consecutive_absences = 0;
                assert(strings_view(absent@) =~= a0);
            } else {
                assert(h0[i as int].consecutive_absences < old(self)@.absence_limit || h0[i as int].consecutive_absences == 0);
                h.consecutive_absences = h.consecutive_absences + 1;
                if h.consecutive_absences >= self.absence_limit {
                    absent.push(h.key.clone());
                    assert(strings_view(absent@) =~= a0.push(h0[i as int].key));
                } else {
                    assert(strings_view(absent@) =~= a0);
                }
            }
            self.held.insert(i, h);
            assert(self@.held =~= prev.update(i as int, aged(h0[i as int], sv)));
            i = i + 1;
        }
        assert(h0.take(n as int) =~= h0);
        assert(self@.held =~= age_all(h0, sv));
        absent
    }

    /// Append copies of `changes` to the pending changes.
    fn record_pending(&mut self, changes: &Vec<AlertChange>)
        ensures
            final(self)@ == (StoreView { pending: old(self)@.pending + changes_view(changes@), ..old(self)@ }),
            final(self).held@ == old(self).held@,
            final(self).absence_limit == old(self).absence_limit,
    {
        let n = changes.len();
        let mut i: usize = 0;
        while i < n
            invariant
                n == changes@.len(),
                i <= n,
                self.held == old(self).held,
                self.index_by_latest_message_id == old(self).index_by_latest_message_id,
                self.absence_limit == old(self).absence_limit,
                changes_view(self.pending_changes@) == old(self)@.pending + changes_view(changes@.take(i as int)),
            decreases n - i,
        {
            let ghost p0 = changes_view(self.pending_changes@);
            let c = changes[i].duplicate();
            self.pending_changes.push(c);
            assert(changes_view(self.pending_changes@) =~= p0.push(c@));
            assert(changes_view(changes@.take(i as int + 1)) =~= changes_view(changes@.take(i as int)).push(
                changes@[i as int]@,
            ));
            i = i + 1;
        }
        assert(changes@.take(n as int) =~= changes@);
    }

    /// Reconcile every held alert whose `expires` has passed as of `now`:
    /// remove it and report it as expired, both here and for
    /// [`drain_changes`](Self::drain_changes). Afterwards every held alert
    /// expires after `now`.
    pub fn expire_stale(&mut self, now: Timestamp) -> (changes: Vec<AlertChange>)
        requires
            old(self).wf(),
        ensures
            (final(self)@, changes_view(changes@)) == expire_stale_model(old(self)@, now@),
            final(self)@.pending == old(self)@.pending + changes_view(changes@),
            final(self).wf(),
            forall|i: int| 0 <= i < final(self)@.held.len() ==> final(self)@.held[i].alert.expires > now@,
    {
        let mut changes: Vec<AlertChange> = Vec::new();
        assert(changes_view(changes@) =~= Seq::<ChangeView>::empty());
        proof {
            lemma_sweep_keeps_only_unexpired(self@, now@, Seq::empty());
            lemma_remove_keys_no_cancel(self@, expired_keys(self@.held, now@), Seq::empty(), ExpiryReason::TimeExpired);
            lemma_expire_appends_pending(self@, now@);
        }
        self.expire_stale_without_draining(now, &mut changes);
        self.record_pending(&changes);
        assert forall|i: int| 0 <= i < self@.held.len() implies self@.held[i].alert.expires > now@ by {
            assert(self@.held.contains(self@.held[i]));
        }
        changes
    }

    /// Ingest one successful poll's parsed alerts (the full active set, not
    /// a delta): cancels, replacements and new alerts in message order, then
    /// absence bookkeeping with removal at the absence limit, then the
    /// time-based sweep. Returns this call's changes, which are also kept
    /// for [`drain_changes`](Self::drain_changes). Afterwards every held
    /// alert expires after `now`.
    pub fn ingest_poll(&mut self, alerts: Vec<Alert>, now: Timestamp) -> (changes: Vec<AlertChange>)
        requires
            old(self).wf(),
        ensures
            (final(self)@, changes_view(changes@)) == ingest(
                old(self)@,
                alerts@.map_values(|a: Alert| a@),
                now@,
            ),
            final(self)@.pending == old(self)@.pending + changes_view(changes@),
            final(self).wf(),
            forall|i: int| 0 <= i < final(self)@.held.len() ==> final(self)@.held[i].alert.expires > now@,
    {
        let ghost av = alerts@.map_values(|a: Alert| a@);
        let mut seen: Vec<String> = Vec::new();
        let n = alerts.len();
        let mut i: usize = 0;
        while i < n
            invariant
                n == alerts@.len(),
                i <= n,
                av == alerts@.map_values(|a: Alert| a@),
                strings_view(seen@) == message_ids(av).take(i as int),
            decreases n - i,
        {
            let ghost s0 = strings_view(seen@);
            seen.push(alerts[i].id.clone());
            assert(av[i as int] == alerts@[i as int]@);
            assert(strings_view(seen@) =~= s0.push(av[i as int].id));
            assert(message_ids(av).take(i as int + 1) =~= message_ids(av).take(i as int).push(message_ids(av)[i as int]));
            i = i + 1;
        }
        assert(message_ids(av).take(n as int) =~= message_ids(av));

        let mut changes: Vec<AlertChange> = Vec::new();
        assert(changes_view(changes@) =~= Seq::<ChangeView>::empty());
        let mut rest = alerts;
        while rest.len() > 0
            invariant
                apply_messages(old(self)@, av, Seq::empty()) == apply_messages(
                    self@,
                    rest@.map_values(|a: Alert| a@),
                    changes_view(changes@),
                ),
                self.valid(),
            decreases rest.len(),
        {
            let ghost rv = rest@.map_values(|a: Alert| a@);
            let incoming = rest.remove(0);
            assert(rest@.map_values(|a: Alert| a@) =~= rv.drop_first());
            assert(rv[0] == incoming@);
            match incoming.message_type {
                MessageType::Cancel => {
                    self.apply_cancel(&incoming, &mut changes);
                },
                _ => {
                    self.apply_new_or_update(incoming, &mut changes);
                },
            }
        }
        assert(rest@.map_values(|a: Alert| a@) =~= Seq::<AlertView>::empty());

        let ghost s1 = self@;
        let ghost c1 = changes_view(changes@);
        let absent = self.age_counters(&seen);
        proof {
            lemma_age_then_remove_valid(s1, strings_view(seen@), c1, ExpiryReason::AbsentFromPolls);
        }
        self.remove_keys(&absent, ExpiryReason::AbsentFromPolls, &mut changes);
        assert(self.valid());
        proof {
            lemma_sweep_keeps_only_unexpired(self@, now@, changes_view(changes@));
        }
        self.expire_stale_without_draining(now, &mut changes);
        self.record_pending(&changes);
        proof {
            lemma_cancel_never_held(old(self)@, av, now@);
            lemma_ingest_appends_pending(old(self)@, av, now@);
        }
        assert forall|i: int| 0 <= i < self@.held.len() implies self@.held[i].alert.expires > now@ by {
            assert(self@.held.contains(self@.held[i]));
        }
        changes
    }

    /// Drain and return every change accumulated since the last call.
    pub fn drain_changes(&mut self) -> (drained: Vec<AlertChange>)
        ensures
            changes_view(drained@) == old(self)@.pending,
            final(self)@ == (StoreView { pending: Seq::empty(), ..old(self)@ }),
            old(self).wf() ==> final(self).wf(),
    {
        let mut drained: Vec<AlertChange> = Vec::new();
        std::mem::swap(&mut drained, &mut self.pending_changes);
        assert(changes_view(self.pending_changes@) =~= Seq::<ChangeView>::empty());
        drained
    }

    /// The content currently held under `key`, whether or not it has
    /// expired as of any particular time.
    pub fn get(&self, key: &str) -> (r: Option<&Alert>)
        ensures
            match held_pos(self@.held, key@) {
                Some(i) => r matches Some(a) && a@ == self@.held[i].alert,
                None => r is None,
            },
    {
        match self.held_position(key) {
            Some(i) => Some(&self.held[i].alert),
            None => None,
        }
    }

    /// Every held alert whose `expires` is still after `now`, in holding
    /// order; nothing is removed.
    pub fn active_alerts(&self, now: Timestamp) -> (v: Vec<&Alert>)
        ensures
            v@.map_values(|a: &Alert| a@) == active_of(self@.held, now@).map_values(|h: HeldView| h.alert),
    {
        let mut v: Vec<&Alert> = Vec::new();
        let n = self.held.len();
        let mut i: usize = 0;
        while i < n
            invariant
                n == self.held@.len(),
                i <= n,
                v@.map_values(|a: &Alert| a@) == active_of(self@.held.take(i as int), now@).map_values(
                    |h: HeldView| h.alert,
                ),
            decreases n - i,
        {
            let ghost v0 = v@.map_values(|a: &Alert| a@);
            proof {
                assert(self@.held.take(i as int + 1).drop_last() =~= self@.held.take(i as int));
                assert(self@.held.take(i as int + 1).last() == self@.held[i as int]);
            }
            let ghost act0 = active_of(self@.held.take(i as int), now@);
            if self.held[i].alert.expires.epoch_millis() > now.epoch_millis() {
                v.push(&self.held[i].alert);
                let ghost hv = self@.held[i as int];
                assert(active_of(self@.held.take(i as int + 1), now@) == act0.push(hv));
                assert(act0.push(hv).map_values(|h: HeldView| h.alert) =~= act0.map_values(|h: HeldView| h.alert).push(
                    hv.alert,
                ));
                assert(v@.map_values(|a: &Alert| a@) =~= v0.push(hv.alert));
            } else {
                assert(active_of(self@.held.take(i as int + 1), now@) =~= act0);
                assert(v@.map_values(|a: &Alert| a@) =~= v0);
            }
            i = i + 1;
        }
        assert(self@.held.take(n as int) =~= self@.held);
        v
    }

    /// Same selection as [`active_alerts`](Self::active_alerts), each paired
    /// with its stable key.
    pub fn active_alerts_with_keys(&self, now: Timestamp) -> (v: Vec<(&AlertKey, &Alert)>)
        ensures
            v@.map_values(|p: (&AlertKey, &Alert)| (p.0@, p.1@)) == active_of(self@.held, now@).map_values(
                |h: HeldView| (h.key, h.alert),
            ),
    {
        let mut v: Vec<(&AlertKey, &Alert)> = Vec::new();
        let n = self.held.len();
        let mut i: usize = 0;
        while i < n
            invariant
                n == self.held@.len(),
                i <= n,
                v@.map_values(|p: (&AlertKey, &Alert)| (p.0@, p.1@)) == active_of(self@.held.take(i as int), now@).map_values(
                    |h: HeldView| (h.key, h.alert),
                ),
            decreases n - i,
        {
            let ghost v0 = v@.map_values(|p: (&AlertKey, &Alert)| (p.0@, p.1@));
            proof {
                assert(self@.held.take(i as int + 1).drop_last() =~= self@.held.take(i as int));
                assert(self@.held.take(i as int + 1).last() == self@.held[i as int]);
            }
            let ghost act0 = active_of(self@.held.take(i as int), now@);
            if self.held[i].alert.expires.epoch_millis() > now.epoch_millis() {
                v.push((&self.held[i].key, &self.held[i].alert));
                let ghost hv = self@.held[i as int];
                assert(active_of(self@.held.take(i as int + 1), now@) == act0.push(hv));
                assert(act0.push(hv).map_values(|h: HeldView| (h.key, h.alert)) =~= act0.map_values(
                    |h: HeldView| (h.key, h.alert),
                ).push((hv.key, hv.alert)));
                assert(v@.map_values(|p: (&AlertKey, &Alert)| (p.0@, p.1@)) =~= v0.push((hv.key, hv.alert)));
            } else {
                assert(active_of(self@.held.take(i as int + 1), now@) =~= act0);
                assert(v@.map_values(|p: (&AlertKey, &Alert)| (p.0@, p.1@)) =~= v0);
            }
            i = i + 1;
        }
        assert(self@.held.take(n as int) =~= self@.held);
        v
    }
}

impl Default for AlertStore {
    fn default() -> (store: Self)
        ensures
            store@ == (StoreView {
                held: Seq::empty(),
                index: Seq::empty(),
                absence_limit: DEFAULT_ABSENCE_LIMIT as nat,
                pending: Seq::empty(),
            }),
            store.wf(),
    {
        Self::new()
    }
}

} // verus!
