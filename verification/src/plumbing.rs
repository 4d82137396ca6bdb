//! Event emission, arena and zone lookups, and the basic player, object and
//! zone mutators.

use vstd::prelude::*;

use crate::characteristics::BaseCreatureCharacteristics;
use crate::combat::CombatDamageTarget;
use crate::events::{EventRecord, GameEvent, PendingTriggeredAbility, EVENT_RING_CAPACITY};
use crate::triggers::{firing_fits, queued_for};
use crate::ids::{CardId, ObjectId, PlayerId};
use crate::mana::{
    capped, enumerate_payment_plans, generic_requirement, colored_requirement, is_valid_payment,
    lemma_pool_sum, payment_plans_in_order, pool_add, pool_add_overflows, validate_payment_plan,
    ManaCost, ManaPool, PaymentEnumeration, PaymentError, PaymentPlan, PAYMENT_PLAN_LIMIT,
};
use crate::state::{
    same_but_events, DamageReplacementEvent, GameState, ObjectArena, ObjectRecord, ObjectView,
    PlayerState, PlayerView, StateError, Zone, ZoneConservation, ZoneView,
};
use crate::setup::{first_zone_len, has_zone, lemma_first_zone_len};
use crate::sba::{ids_match_positions, owners_have_graveyards};
use crate::replacement::{replaced_damage, replacement_ids_distinct};
use crate::turn::{ZoneId, ZoneKind};

verus! {

/// The event ring after recording `record`: appended, and the oldest record
/// dropped once the ring holds more than its capacity.
pub open spec fn ring_push(events: Seq<EventRecord>, record: EventRecord) -> Seq<EventRecord> {
    if events.len() + 1 > EVENT_RING_CAPACITY {
        events.push(record).drop_first()
    } else {
        events.push(record)
    }
}

/// The event sequence after one more record, saturating at `u64::MAX`.
pub open spec fn next_sequence_after(next: u64) -> u64 {
    if next < u64::MAX {
        (next + 1) as u64
    } else {
        u64::MAX
    }
}

/// The event ring and next sequence after logging, in order, that each of
/// `queued` was queued, starting from `events` and sequence `next`.
pub open spec fn queued_log(
    events: Seq<EventRecord>,
    next: u64,
    turn: u32,
    queued: Seq<PendingTriggeredAbility>,
) -> (Seq<EventRecord>, u64)
    decreases queued.len(),
{
    if queued.len() == 0 {
        (events, next)
    } else {
        let (logged, n) = queued_log(events, next, turn, queued.drop_last());
        let t = queued.last();
        let record = EventRecord {
            sequence: n,
            turn,
            event: GameEvent::TriggeredAbilityQueued {
                trigger: t.trigger,
                controller: t.controller,
                event_sequence: t.event_sequence,
            },
        };
        (ring_push(logged, record), next_sequence_after(n))
    }
}

/// The record the next emitted `event` gets.
pub open spec fn event_record(state: GameState, event: GameEvent) -> EventRecord {
    EventRecord { sequence: state.next_event_sequence, turn: state.turn_number, event }
}

/// `after` is `before` with `event` emitted: the event is appended to the
/// turn's log and queues one pending ability per firing subscription, in
/// subscription order.
pub open spec fn event_logged(before: GameState, after: GameState, event: GameEvent) -> bool {
    &&& exists|fired: Seq<bool>|
        fired.len() == before.trigger_subscriptions@.len() && after.pending_triggers@
            == before.pending_triggers@ + queued_for(
            before.trigger_subscriptions@,
            fired,
            event_record(before, event),
        ) && forall|k: int|
            0 <= k < fired.len() ==> firing_fits(
                before.trigger_subscriptions@[k],
                event,
                after.resolution_log@,
                #[trigger] fired[k],
            )
    &&& exists|fired: Seq<bool>|
        fired.len() == before.trigger_subscriptions@.len() && after.pending_triggers@
            == before.pending_triggers@ + queued_for(
            before.trigger_subscriptions@,
            fired,
            event_record(before, event),
        ) && (after.turn_events@, after.next_event_sequence) == queued_log(
            ring_push(before.turn_events@, event_record(before, event)),
            next_sequence_after(before.next_event_sequence),
            before.turn_number,
            queued_for(before.trigger_subscriptions@, fired, event_record(before, event)),
        )
    &&& before.trigger_subscriptions@.len() == 0 ==> after.trigger_subscriptions@
        == before.trigger_subscriptions@
}

/// Emitting an event reads of the state before it only the event ring, the
/// trigger tables, the event sequence and the turn number.
pub proof fn lemma_event_logged_frame(a: GameState, b: GameState, c: GameState, event: GameEvent)
    requires
        event_logged(b, c, event),
        b.turn_events@ == a.turn_events@,
        b.pending_triggers@ == a.pending_triggers@,
        b.trigger_subscriptions@ == a.trigger_subscriptions@,
        b.next_event_sequence == a.next_event_sequence,
        b.turn_number == a.turn_number,
    ensures
        event_logged(a, c, event),
{
    assert(event_record(a, event) == event_record(b, event));
}

/// The current-turn event ring holds at most its capacity.
pub open spec fn events_bounded(state: GameState) -> bool {
    state.turn_events@.len() <= EVENT_RING_CAPACITY
}

/// Records in the ring carry consecutive sequences ending just before
/// `next_sequence`.
pub open spec fn ring_sequenced(events: Seq<EventRecord>, next_sequence: int) -> bool {
    forall|i: int|
        0 <= i < events.len() ==> #[trigger] events[i].sequence == next_sequence - events.len() + i
}

/// The event ring never grows past its capacity, and the record just
/// recorded is always its newest entry.
pub proof fn lemma_ring_push_bounded(events: Seq<EventRecord>, record: EventRecord)
    requires
        events.len() <= EVENT_RING_CAPACITY,
    ensures
        ring_push(events, record).len() <= EVENT_RING_CAPACITY,
        events.len() < EVENT_RING_CAPACITY ==> ring_push(events, record).len() == events.len() + 1,
        events.len() == EVENT_RING_CAPACITY ==> ring_push(events, record).len() == events.len(),
        ring_push(events, record).last() == record,
{
}

/// Recording the event numbered `next_sequence` keeps the ring's sequences
/// consecutive, now ending before `next_sequence + 1`.
pub proof fn lemma_ring_push_sequenced(
    events: Seq<EventRecord>,
    next_sequence: int,
    record: EventRecord,
)
    requires
        events.len() <= EVENT_RING_CAPACITY,
        ring_sequenced(events, next_sequence),
        record.sequence == next_sequence,
    ensures
        ring_sequenced(ring_push(events, record), next_sequence + 1),
{
    let pushed = events.push(record);
    assert(ring_sequenced(pushed, next_sequence + 1)) by {
        assert forall|i: int| 0 <= i < pushed.len() implies #[trigger] pushed[i].sequence
            == next_sequence + 1 - pushed.len() + i by {
            if i < events.len() {
                assert(pushed[i] == events[i]);
            }
        }
    }
    if events.len() + 1 > EVENT_RING_CAPACITY {
        let dropped = pushed.drop_first();
        assert forall|i: int| 0 <= i < dropped.len() implies #[trigger] dropped[i].sequence
            == next_sequence + 1 - dropped.len() + i by {
            assert(dropped[i] == pushed[i + 1]);
        }
    }
}

/// On a ring with consecutive sequences, the records at or after a cursor
/// that the ring still covers are exactly the last `next_sequence - cursor`
/// records: a cursor taken `n` events ago reads back those `n` events.
pub proof fn lemma_sequenced_cursor_reads_suffix(
    events: Seq<EventRecord>,
    next_sequence: int,
    cursor: int,
    k: int,
)
    requires
        ring_sequenced(events, next_sequence),
        next_sequence - events.len() <= cursor <= next_sequence,
        0 <= k <= events.len(),
        forall|j: int| 0 <= j < k ==> #[trigger] events[j].sequence < cursor,
        k < events.len() ==> events[k].sequence >= cursor,
    ensures
        k == events.len() - (next_sequence - cursor),
        events.subrange(k, events.len() as int).len() == next_sequence - cursor,
{
    let want = events.len() - (next_sequence - cursor);
    if k < want {
        assert(events[k].sequence == next_sequence - events.len() + k);
    }
    if k > want {
        assert(events[want].sequence < cursor);
    }
}

/// `zone` is a well-formed zone ID for a game with `player_count` players:
/// player-owned kinds name an existing owner and shared kinds name none.
pub open spec fn zone_id_valid(zone: ZoneId, player_count: int) -> bool {
    if zone.kind.spec_requires_owner() {
        zone.owner matches Some(owner) && owner.0 < player_count
    } else {
        zone.owner is None
    }
}

/// `i` is the first zone holding `object`.
pub open spec fn first_zone_holding(zones: Seq<Zone>, object: ObjectId, i: int) -> bool {
    &&& 0 <= i < zones.len()
    &&& zones[i].objects@.contains(object)
    &&& forall|j: int| 0 <= j < i ==> !(#[trigger] zones[j].objects@.contains(object))
}

/// The ID of the first zone holding `object`, if any.
pub open spec fn zone_of(zones: Seq<Zone>, object: ObjectId) -> Option<ZoneId> {
    if exists|i: int| first_zone_holding(zones, object, i) {
        Some(zones[choose|i: int| first_zone_holding(zones, object, i)].id)
    } else {
        None
    }
}

/// Index of the first zone with this ID, if any.
#[verifier::opaque]
pub open spec fn zone_position(zones: Seq<Zone>, id: ZoneId) -> Option<int> {
    if exists|i: int| 0 <= i < zones.len() && zones[i].id == id {
        Some(choose|i: int| 0 <= i < zones.len() && zones[i].id == id && (forall|j: int| 0 <= j < i ==> zones[j].id != id))
    } else {
        None
    }
}

/// `after` is `before` with `object` taken from position `pos` of zone `fi`
/// and put on top of zone `ti`, whose ID is `to`; when the object already is
/// in `to` nothing changes.
pub open spec fn zone_move(
    before: Seq<Zone>,
    after: Seq<Zone>,
    object: ObjectId,
    to: ZoneId,
    fi: int,
    ti: int,
    pos: int,
) -> bool {
    &&& 0 <= fi < before.len() && 0 <= pos < before[fi].objects@.len()
    &&& before[fi].objects@[pos] == object
    &&& forall|j: int| 0 <= j < fi ==> !(#[trigger] before[j].objects@.contains(object))
    &&& if before[fi].id == to {
        after == before
    } else {
        &&& 0 <= ti < before.len() && ti != fi && before[ti].id == to
        &&& after.len() == before.len()
        &&& after[fi].id == before[fi].id
        &&& after[fi].objects@ == before[fi].objects@.remove(pos)
        &&& after[ti].id == before[ti].id
        &&& after[ti].objects@ == before[ti].objects@.push(object)
        &&& forall|j: int| 0 <= j < before.len() && j != fi && j != ti ==> #[trigger] after[j] == before[j]
    }
}

/// How many entries of `objects` name arena slot `slot`.
pub open spec fn count_in(objects: Seq<ObjectId>, slot: int) -> nat
    decreases objects.len(),
{
    if objects.len() == 0 {
        0
    } else {
        count_in(objects.drop_last(), slot) + if objects.last().0 == slot {
            1nat
        } else {
            0nat
        }
    }
}

/// How many zone entries, over all `zones`, name arena slot `slot`.
pub open spec fn zone_occurrences(zones: Seq<Zone>, slot: int) -> nat
    decreases zones.len(),
{
    if zones.len() == 0 {
        0
    } else {
        zone_occurrences(zones.drop_last(), slot) + count_in(zones.last().objects@, slot)
    }
}

/// Zone conservation: every zone ID is well formed, every zone entry names
/// an arena slot, and every arena slot sits in exactly one zone, once.
pub open spec fn zones_conserved(state: GameState) -> bool {
    let n = state.objects.records@.len();
    &&& forall|i: int|
        0 <= i < state.zones@.len() ==> zone_id_valid(
            #[trigger] state.zones@[i].id,
            state.players@.len() as int,
        )
    &&& forall|i: int, j: int|
        0 <= i < state.zones@.len() && 0 <= j < state.zones@[i].objects@.len() ==> (
        #[trigger] state.zones@[i].objects@[j]).0 < n
    &&& forall|q: int| 0 <= q < n ==> #[trigger] zone_occurrences(state.zones@, q) == 1
}

proof fn lemma_count_in_prefix(objects: Seq<ObjectId>, k: int, slot: int)
    requires
        0 <= k < objects.len(),
    ensures
        count_in(objects.subrange(0, k + 1), slot) == count_in(objects.subrange(0, k), slot) + if
        objects[k].0 == slot {
            1nat
        } else {
            0nat
        },
{
    assert(objects.subrange(0, k + 1).drop_last() =~= objects.subrange(0, k));
}

proof fn lemma_count_in_prefix_le(objects: Seq<ObjectId>, k: int, slot: int)
    requires
        0 <= k <= objects.len(),
    ensures
        count_in(objects.subrange(0, k), slot) <= count_in(objects, slot),
    decreases objects.len() - k,
{
    if k < objects.len() {
        lemma_count_in_prefix(objects, k, slot);
        lemma_count_in_prefix_le(objects, k + 1, slot);
    } else {
        assert(objects.subrange(0, k) =~= objects);
    }
}

proof fn lemma_zone_occurrences_prefix(zones: Seq<Zone>, i: int, slot: int)
    requires
        0 <= i < zones.len(),
    ensures
        zone_occurrences(zones.subrange(0, i + 1), slot) == zone_occurrences(zones.subrange(0, i), slot)
            + count_in(zones[i].objects@, slot),
{
    assert(zones.subrange(0, i + 1).drop_last() =~= zones.subrange(0, i));
}

proof fn lemma_zone_occurrences_prefix_le(zones: Seq<Zone>, i: int, slot: int)
    requires
        0 <= i <= zones.len(),
    ensures
        zone_occurrences(zones.subrange(0, i), slot) <= zone_occurrences(zones, slot),
    decreases zones.len() - i,
{
    if i < zones.len() {
        lemma_zone_occurrences_prefix(zones, i, slot);
        lemma_zone_occurrences_prefix_le(zones, i + 1, slot);
    } else {
        assert(zones.subrange(0, i) =~= zones);
    }
}

/// The object lists of `zones`, in zone order.
pub open spec fn zone_lists(zones: Seq<Zone>) -> Seq<Seq<ObjectId>> {
    Seq::new(zones.len(), |i: int| zones[i].objects@)
}

/// How many entries, over all `lists`, name arena slot `slot`.
pub open spec fn lists_count(lists: Seq<Seq<ObjectId>>, slot: int) -> nat
    decreases lists.len(),
{
    if lists.len() == 0 {
        0
    } else {
        lists_count(lists.drop_last(), slot) + count_in(lists.last(), slot)
    }
}

proof fn lemma_zone_occurrences_lists(zones: Seq<Zone>, slot: int)
    ensures
        zone_occurrences(zones, slot) == lists_count(zone_lists(zones), slot),
    decreases zones.len(),
{
    if zones.len() > 0 {
        lemma_zone_occurrences_lists(zones.drop_last(), slot);
        assert(zone_lists(zones).drop_last() =~= zone_lists(zones.drop_last()));
    }
}

proof fn lemma_lists_count_update(lists: Seq<Seq<ObjectId>>, i: int, list: Seq<ObjectId>, slot: int)
    requires
        0 <= i < lists.len(),
    ensures
        lists_count(lists.update(i, list), slot) + count_in(lists[i], slot) == lists_count(lists, slot)
            + count_in(list, slot),
    decreases lists.len(),
{
    if i == lists.len() - 1 {
        assert(lists.update(i, list).drop_last() =~= lists.drop_last());
    } else {
        lemma_lists_count_update(lists.drop_last(), i, list, slot);
        assert(lists.update(i, list).drop_last() =~= lists.drop_last().update(i, list));
    }
}

pub(crate) proof fn lemma_count_in_concat(a: Seq<ObjectId>, b: Seq<ObjectId>, slot: int)
    ensures
        count_in(a + b, slot) == count_in(a, slot) + count_in(b, slot),
    decreases b.len(),
{
    if b.len() > 0 {
        lemma_count_in_concat(a, b.drop_last(), slot);
        assert((a + b).drop_last() =~= a + b.drop_last());
    } else {
        assert(a + b =~= a);
    }
}

pub(crate) proof fn lemma_count_in_push(objects: Seq<ObjectId>, object: ObjectId, slot: int)
    ensures
        count_in(objects.push(object), slot) == count_in(objects, slot) + if object.0 == slot {
            1nat
        } else {
            0nat
        },
{
    assert(objects.push(object).drop_last() =~= objects);
}

pub(crate) proof fn lemma_count_in_remove(objects: Seq<ObjectId>, pos: int, slot: int)
    requires
        0 <= pos < objects.len(),
    ensures
        count_in(objects.remove(pos), slot) + (if objects[pos].0 == slot {
            1nat
        } else {
            0nat
        }) == count_in(objects, slot),
{
    let left = objects.subrange(0, pos);
    let right = objects.subrange(pos + 1, objects.len() as int);
    let middle = seq![objects[pos]];
    assert(objects.remove(pos) =~= left + right);
    assert(objects =~= (left + middle) + right);
    lemma_count_in_concat(left, right, slot);
    lemma_count_in_concat(left + middle, right, slot);
    lemma_count_in_concat(left, middle, slot);
    lemma_count_in_push(Seq::empty(), objects[pos], slot);
    assert(Seq::<ObjectId>::empty().push(objects[pos]) =~= middle);
}

/// Under conservation an arena slot is named in one zone at most.
pub(crate) proof fn lemma_conserved_one_zone(zones: Seq<Zone>, slot: int, i: int, j: int)
    requires
        zone_occurrences(zones, slot) <= 1,
        0 <= i < zones.len(),
        0 <= j < zones.len(),
        i != j,
        count_in(zones[i].objects@, slot) > 0,
    ensures
        count_in(zones[j].objects@, slot) == 0,
{
    lemma_zone_occurrences_lists(zones, slot);
    let lists = zone_lists(zones);
    let none = Seq::<ObjectId>::empty();
    lemma_lists_count_update(lists, i, none, slot);
    let l1 = lists.update(i, none);
    lemma_lists_count_update(l1, j, none, slot);
    assert(lists[i] == zones[i].objects@);
    assert(l1[j] == zones[j].objects@);
    assert(count_in(none, slot) == 0);
}

proof fn lemma_zone_occurrences_above(zones: Seq<Zone>, bound: int)
    requires
        forall|i: int, j: int|
            0 <= i < zones.len() && 0 <= j < zones[i].objects@.len() ==> (
            #[trigger] zones[i].objects@[j]).0 < bound,
    ensures
        zone_occurrences(zones, bound) == 0,
    decreases zones.len(),
{
    if zones.len() > 0 {
        lemma_zone_occurrences_above(zones.drop_last(), bound);
        let last = zones.last().objects@;
        assert forall|k: int| 0 <= k <= last.len() implies count_in(#[trigger] last.subrange(0, k), bound)
            == 0 by {
            lemma_count_in_zero_prefix(last, k, bound);
        }
        assert(last.subrange(0, last.len() as int) =~= last);
    }
}

proof fn lemma_count_in_zero_prefix(objects: Seq<ObjectId>, k: int, slot: int)
    requires
        0 <= k <= objects.len(),
        forall|j: int| 0 <= j < objects.len() ==> (#[trigger] objects[j]).0 < slot,
    ensures
        count_in(objects.subrange(0, k), slot) == 0,
    decreases k,
{
    if k > 0 {
        lemma_count_in_zero_prefix(objects, k - 1, slot);
        lemma_count_in_prefix(objects, k - 1, slot);
    }
}

/// Taking the entry at `pos` of zone `fi` and pushing it onto zone `ti`
/// keeps zone conservation: every slot is still held exactly once.
pub proof fn lemma_zone_transfer_keeps_conservation(
    before: GameState,
    after: GameState,
    fi: int,
    ti: int,
    pos: int,
)
    requires
        zones_conserved(before),
        0 <= fi < before.zones@.len() && 0 <= ti < before.zones@.len() && fi != ti,
        0 <= pos < before.zones@[fi].objects@.len(),
        after.zones@.len() == before.zones@.len(),
        after.zones@[fi].id == before.zones@[fi].id,
        after.zones@[ti].id == before.zones@[ti].id,
        after.zones@[fi].objects@ == before.zones@[fi].objects@.remove(pos),
        after.zones@[ti].objects@ == before.zones@[ti].objects@.push(before.zones@[fi].objects@[pos]),
        forall|j: int|
            0 <= j < before.zones@.len() && j != fi && j != ti ==> #[trigger] after.zones@[j]
                == before.zones@[j],
        after.objects.records@.len() == before.objects.records@.len(),
        after.players@.len() == before.players@.len(),
    ensures
        zones_conserved(after),
{
    let a = before.zones@;
    let b = after.zones@;
    let n = before.objects.records@.len();
    let object = a[fi].objects@[pos];
    assert forall|i: int| 0 <= i < b.len() implies zone_id_valid(
        #[trigger] b[i].id,
        after.players@.len() as int,
    ) by {
        assert(b[i].id == a[i].id);
    }
    assert forall|i: int, j: int| 0 <= i < b.len() && 0 <= j < b[i].objects@.len() implies (
    #[trigger] b[i].objects@[j]).0 < n by {
        if i == fi {
            if j < pos {
                assert(b[i].objects@[j] == a[fi].objects@[j]);
            } else {
                assert(b[i].objects@[j] == a[fi].objects@[j + 1]);
            }
        } else if i == ti {
            if j < a[ti].objects@.len() {
                assert(b[i].objects@[j] == a[ti].objects@[j]);
            }
        } else {
            assert(b[i] == a[i]);
        }
    }
    let la = zone_lists(a);
    let mid = la.update(fi, la[fi].remove(pos));
    let lb = mid.update(ti, la[ti].push(object));
    assert(zone_lists(b) =~= lb);
    assert forall|q: int| 0 <= q < n implies #[trigger] zone_occurrences(b, q) == 1 by {
        lemma_zone_occurrences_lists(a, q);
        lemma_zone_occurrences_lists(b, q);
        lemma_lists_count_update(la, fi, la[fi].remove(pos), q);
        lemma_lists_count_update(mid, ti, la[ti].push(object), q);
        lemma_count_in_remove(la[fi], pos, q);
        lemma_count_in_push(la[ti], object, q);
        assert(zone_occurrences(a, q) == 1);
    }
}

proof fn lemma_count_in_multiset(objects: Seq<ObjectId>, slot: int)
    ensures
        0 <= slot <= u32::MAX ==> count_in(objects, slot) == objects.to_multiset().count(
            ObjectId(slot as u32),
        ),
        !(0 <= slot <= u32::MAX) ==> count_in(objects, slot) == 0,
    decreases objects.len(),
{
    broadcast use vstd::multiset::group_multiset_axioms;

    if objects.len() == 0 {
        if 0 <= slot <= u32::MAX {
            vstd::seq_lib::to_multiset_contains(objects, ObjectId(slot as u32));
        }
    } else {
        let rest = objects.drop_last();
        lemma_count_in_multiset(rest, slot);
        assert(rest.push(objects.last()) =~= objects);
        vstd::seq_lib::to_multiset_build(rest, objects.last());
        if 0 <= slot <= u32::MAX {
            assert((objects.last() == ObjectId(slot as u32)) == (objects.last().0 == slot));
        }
    }
}

/// Reordering the entries of one zone keeps zone conservation.
pub proof fn lemma_zone_permute_keeps_conservation(before: GameState, after: GameState, zi: int)
    requires
        zones_conserved(before),
        0 <= zi < before.zones@.len(),
        after.zones@.len() == before.zones@.len(),
        after.zones@[zi].id == before.zones@[zi].id,
        after.zones@[zi].objects@.to_multiset() == before.zones@[zi].objects@.to_multiset(),
        forall|j: int|
            0 <= j < before.zones@.len() && j != zi ==> #[trigger] after.zones@[j] == before.zones@[j],
        after.objects.records@.len() == before.objects.records@.len(),
        after.players@.len() == before.players@.len(),
    ensures
        zones_conserved(after),
{
    broadcast use vstd::seq_lib::group_to_multiset_ensures;

    let a = before.zones@;
    let b = after.zones@;
    let n = before.objects.records@.len();
    assert forall|i: int| 0 <= i < b.len() implies zone_id_valid(
        #[trigger] b[i].id,
        after.players@.len() as int,
    ) by {
        assert(b[i].id == a[i].id);
    }
    assert forall|i: int, j: int| 0 <= i < b.len() && 0 <= j < b[i].objects@.len() implies (
    #[trigger] b[i].objects@[j]).0 < n by {
        if i == zi {
            let x = b[i].objects@[j];
            assert(b[i].objects@.contains(x));
            assert(a[zi].objects@.to_multiset().count(x) > 0);
            assert(a[zi].objects@.contains(x));
            let k = choose|k: int| 0 <= k < a[zi].objects@.len() && a[zi].objects@[k] == x;
            assert(a[zi].objects@[k].0 < n);
        } else {
            assert(b[i] == a[i]);
        }
    }
    let la = zone_lists(a);
    let lb = la.update(zi, b[zi].objects@);
    assert(zone_lists(b) =~= lb);
    assert forall|q: int| 0 <= q < n implies #[trigger] zone_occurrences(b, q) == 1 by {
        lemma_zone_occurrences_lists(a, q);
        lemma_zone_occurrences_lists(b, q);
        lemma_lists_count_update(la, zi, b[zi].objects@, q);
        lemma_count_in_multiset(a[zi].objects@, q);
        lemma_count_in_multiset(b[zi].objects@, q);
        assert(zone_occurrences(a, q) == 1);
    }
}

pub(crate) proof fn lemma_count_in_positive(objects: Seq<ObjectId>, j: int)
    requires
        0 <= j < objects.len(),
    ensures
        count_in(objects, objects[j].0 as int) > 0,
    decreases objects.len(),
{
    if j < objects.len() - 1 {
        lemma_count_in_positive(objects.drop_last(), j);
        assert(objects.drop_last()[j] == objects[j]);
    }
}

proof fn lemma_count_in_witness(objects: Seq<ObjectId>, slot: int)
    requires
        count_in(objects, slot) > 0,
    ensures
        exists|j: int| 0 <= j < objects.len() && (#[trigger] objects[j]).0 == slot,
    decreases objects.len(),
{
    if objects.last().0 != slot {
        lemma_count_in_witness(objects.drop_last(), slot);
        let j = choose|j: int|
            0 <= j < objects.drop_last().len() && (#[trigger] objects.drop_last()[j]).0 == slot;
        assert(objects[j] == objects.drop_last()[j]);
    } else {
        assert(objects[objects.len() - 1].0 == slot);
    }
}

/// Redistributing the entries of two zones between them, so that every
/// slot is named as often as before over the pair, keeps zone conservation.
pub proof fn lemma_zone_pair_keeps_conservation(before: GameState, after: GameState, x: int, y: int)
    requires
        zones_conserved(before),
        0 <= x < before.zones@.len() && 0 <= y < before.zones@.len() && x != y,
        after.zones@.len() == before.zones@.len(),
        after.zones@[x].id == before.zones@[x].id,
        after.zones@[y].id == before.zones@[y].id,
        forall|slot: int|
            #[trigger] count_in(after.zones@[x].objects@, slot) + count_in(after.zones@[y].objects@, slot)
                == count_in(before.zones@[x].objects@, slot) + count_in(before.zones@[y].objects@, slot),
        forall|j: int|
            0 <= j < before.zones@.len() && j != x && j != y ==> #[trigger] after.zones@[j]
                == before.zones@[j],
        after.objects.records@.len() == before.objects.records@.len(),
        after.players@.len() == before.players@.len(),
    ensures
        zones_conserved(after),
{
    let a = before.zones@;
    let b = after.zones@;
    let n = before.objects.records@.len();
    assert forall|i: int| 0 <= i < b.len() implies zone_id_valid(
        #[trigger] b[i].id,
        after.players@.len() as int,
    ) by {
        assert(b[i].id == a[i].id);
    }
    assert forall|i: int, j: int| 0 <= i < b.len() && 0 <= j < b[i].objects@.len() implies (
    #[trigger] b[i].objects@[j]).0 < n by {
        if i == x || i == y {
            let slot = b[i].objects@[j].0 as int;
            lemma_count_in_positive(b[i].objects@, j);
            assert(count_in(after.zones@[x].objects@, slot) + count_in(after.zones@[y].objects@, slot)
                == count_in(before.zones@[x].objects@, slot) + count_in(before.zones@[y].objects@, slot));
            assert(count_in(a[x].objects@, slot) + count_in(a[y].objects@, slot) > 0);
            if count_in(a[x].objects@, slot) > 0 {
                lemma_count_in_witness(a[x].objects@, slot);
                let k = choose|k: int| 0 <= k < a[x].objects@.len() && (#[trigger] a[x].objects@[k]).0 == slot;
                assert(a[x].objects@[k].0 < n);
            } else {
                lemma_count_in_witness(a[y].objects@, slot);
                let k = choose|k: int| 0 <= k < a[y].objects@.len() && (#[trigger] a[y].objects@[k]).0 == slot;
                assert(a[y].objects@[k].0 < n);
            }
        } else {
            assert(b[i] == a[i]);
        }
    }
    let la = zone_lists(a);
    let mid = la.update(x, b[x].objects@);
    let lb = mid.update(y, b[y].objects@);
    assert(zone_lists(b) =~= lb);
    assert forall|q: int| 0 <= q < n implies #[trigger] zone_occurrences(b, q) == 1 by {
        lemma_zone_occurrences_lists(a, q);
        lemma_zone_occurrences_lists(b, q);
        lemma_lists_count_update(la, x, b[x].objects@, q);
        lemma_lists_count_update(mid, y, b[y].objects@, q);
        assert(count_in(b[x].objects@, q) + count_in(b[y].objects@, q) == count_in(a[x].objects@, q)
            + count_in(a[y].objects@, q));
        assert(zone_occurrences(a, q) == 1);
    }
}

/// Moving an object between zones keeps zone conservation: the object
/// leaves one list and joins another, so every slot is still held once.
pub proof fn lemma_zone_move_keeps_conservation(
    before: GameState,
    after: GameState,
    object: ObjectId,
    to: ZoneId,
    fi: int,
    ti: int,
    pos: int,
)
    requires
        zones_conserved(before),
        zone_move(before.zones@, after.zones@, object, to, fi, ti, pos),
        after.objects.records@.len() == before.objects.records@.len(),
        after.players@.len() == before.players@.len(),
    ensures
        zones_conserved(after),
{
    if before.zones@[fi].id == to {
        assert(after.zones@ == before.zones@);
    } else {
        lemma_zone_transfer_keeps_conservation(before, after, fi, ti, pos);
    }
}

/// Creating an object in an existing zone keeps zone conservation: the new
/// arena slot is held by exactly the one entry pushed for it.
pub proof fn lemma_zone_create_keeps_conservation(
    before: GameState,
    after: GameState,
    zi: int,
    object: ObjectId,
)
    requires
        zones_conserved(before),
        object.0 == before.objects.records@.len(),
        after.objects.records@.len() == before.objects.records@.len() + 1,
        after.players@.len() == before.players@.len(),
        after.zones@.len() == before.zones@.len(),
        0 <= zi < before.zones@.len(),
        after.zones@[zi].id == before.zones@[zi].id,
        after.zones@[zi].objects@ == before.zones@[zi].objects@.push(object),
        forall|j: int| 0 <= j < before.zones@.len() && j != zi ==> after.zones@[j] == before.zones@[j],
    ensures
        zones_conserved(after),
{
    let a = before.zones@;
    let b = after.zones@;
    let n = before.objects.records@.len();
    assert forall|i: int| 0 <= i < b.len() implies zone_id_valid(
        #[trigger] b[i].id,
        after.players@.len() as int,
    ) by {
        assert(b[i].id == a[i].id);
    }
    assert forall|i: int, j: int| 0 <= i < b.len() && 0 <= j < b[i].objects@.len() implies (
    #[trigger] b[i].objects@[j]).0 < n + 1 by {
        if i == zi {
            if j < a[zi].objects@.len() {
                assert(b[i].objects@[j] == a[zi].objects@[j]);
            }
        } else {
            assert(b[i] == a[i]);
        }
    }
    let la = zone_lists(a);
    let lb = la.update(zi, la[zi].push(object));
    assert(zone_lists(b) =~= lb);
    lemma_zone_occurrences_above(a, n as int);
    assert forall|q: int| 0 <= q < n + 1 implies #[trigger] zone_occurrences(b, q) == 1 by {
        lemma_zone_occurrences_lists(a, q);
        lemma_zone_occurrences_lists(b, q);
        lemma_lists_count_update(la, zi, la[zi].push(object), q);
        lemma_count_in_push(la[zi], object, q);
        if q < n {
            assert(zone_occurrences(a, q) == 1);
        }
    }
}

/// Whether an observer sees the identity of objects in `zone`: libraries are
/// hidden from everyone and hands from everyone but their owner.
pub open spec fn hidden_from(zone: ZoneId, observer: PlayerId) -> bool {
    match zone.kind {
        ZoneKind::Hand => zone.owner != Some(observer),
        ZoneKind::Library => true,
        _ => false,
    }
}

impl GameState {
    /// Records an event in the ring, then queues the triggers it matches.
    pub(crate) fn emit_event(&mut self, event: GameEvent)
        ensures
            same_but_events(*old(self), *final(self)),
            event_logged(*old(self), *final(self), event),
    {
        let record = self.append_event(event);
        self.queue_triggered_abilities(record);
    }

    /// Records an event in the ring without checking triggers.
    pub(crate) fn emit_event_without_triggers(&mut self, event: GameEvent)
        ensures
            same_but_events(*old(self), *final(self)),
            final(self).turn_events@ == ring_push(old(self).turn_events@, event_record(*old(self), event)),
            final(self).next_event_sequence == next_sequence_after(old(self).next_event_sequence),
            final(self).pending_triggers@ == old(self).pending_triggers@,
            final(self).trigger_subscriptions@ == old(self).trigger_subscriptions@,
    {
        self.append_event(event);
    }

    /// Appends one sequenced record to the bounded current-turn ring.
    pub(crate) fn append_event(&mut self, event: GameEvent) -> (r: EventRecord)
        ensures
            r == (EventRecord {
                sequence: old(self).next_event_sequence,
                turn: old(self).turn_number,
                event,
            }),
            final(self).turn_events@ == ring_push(old(self).turn_events@, r),
            final(self).next_event_sequence == (if old(self).next_event_sequence < u64::MAX {
                (old(self).next_event_sequence + 1) as u64
            } else {
                u64::MAX
            }),
            same_but_events(*old(self), *final(self)),
            final(self).pending_triggers@ == old(self).pending_triggers@,
            final(self).trigger_subscriptions@ == old(self).trigger_subscriptions@,
    {
        let record = EventRecord {
            sequence: self.next_event_sequence,
            turn: self.turn_number,
            event,
        };
        self.next_event_sequence = self.next_event_sequence.saturating_add(1);
        self.turn_events.push(record);
        if self.turn_events.len() > EVENT_RING_CAPACITY {
            self.turn_events.remove(0);
            assert(self.turn_events@ =~= ring_push(old(self).turn_events@, record));
        }
        record
    }

    /// Empties the event ring at a turn boundary.
    pub(crate) fn reset_turn_events(&mut self)
        ensures
            final(self).turn_events@.len() == 0,
            final(self).next_event_sequence == old(self).next_event_sequence,
            same_but_events(*old(self), *final(self)),
            final(self).pending_triggers@ == old(self).pending_triggers@,
            final(self).trigger_subscriptions@ == old(self).trigger_subscriptions@,
    {
        self.turn_events.clear();
    }

    /// Fails unless `id` names an existing player.
    pub(crate) fn require_player(&self, id: PlayerId) -> (r: Result<(), StateError>)
        ensures
            r is Ok <==> id.0 < self.players@.len(),
            r is Err ==> r == Err::<(), StateError>(StateError::UnknownPlayer(id)),
    {
        if id.index() < self.players.len() {
            Ok(())
        } else {
            Err(StateError::UnknownPlayer(id))
        }
    }

    /// Fails unless `id` is well formed for the current players.
    pub(crate) fn validate_zone_id(&self, id: ZoneId) -> (r: Result<(), StateError>)
        ensures
            r is Ok <==> zone_id_valid(id, self.players@.len() as int),
            r matches Err(e) ==> e == StateError::InvalidZoneOwner(id) || e is UnknownPlayer,
    {
        match (id.kind.requires_owner(), id.owner) {
            (true, Some(owner)) => self.require_player(owner),
            (true, None) => Err(StateError::InvalidZoneOwner(id)),
            (false, Some(_)) => Err(StateError::InvalidZoneOwner(id)),
            (false, None) => Ok(()),
        }
    }

    /// Returns the position of the first zone with this ID.
    pub(crate) fn zone_index(&self, id: ZoneId) -> (r: Option<usize>)
        ensures
            r matches Some(i) ==> i < self.zones@.len() && self.zones@[i as int].id == id
                && forall|j: int| 0 <= j < i ==> #[trigger] self.zones@[j].id != id,
            r is None ==> forall|j: int| 0 <= j < self.zones@.len() ==> #[trigger] self.zones@[j].id != id,
            r matches Some(i) ==> zone_position(self.zones@, id) == Some(i as int),
            r is None ==> zone_position(self.zones@, id) is None,
    {
        let mut i: usize = 0;
        while i < self.zones.len()
            invariant
                i <= self.zones@.len(),
                forall|j: int| 0 <= j < i ==> #[trigger] self.zones@[j].id != id,
            decreases self.zones@.len() - i,
        {
            if self.zones[i].id == id {
                proof {
                    reveal(zone_position);
                    let zones = self.zones@;
                    let w = choose|w: int|
                        0 <= w < zones.len() && zones[w].id == id && (forall|j: int|
                            0 <= j < w ==> zones[j].id != id);
                    assert(zones[i as int].id == id);
                    if w < i {
                        assert(zones[w].id != id);
                    }
                    if w > i {
                        assert(zones[i as int].id != id);
                    }
                }
                return Some(i);
            }
            i = i + 1;
        }
        proof {
            reveal(zone_position);
        }
        None
    }

    /// Fails unless `id` is well formed and the zone exists.
    pub(crate) fn require_zone(&self, id: ZoneId) -> (r: Result<(), StateError>)
        ensures
            r is Ok ==> zone_id_valid(id, self.players@.len() as int) && exists|j: int|
                0 <= j < self.zones@.len() && #[trigger] self.zones@[j].id == id,
            zone_id_valid(id, self.players@.len() as int) && (exists|j: int|
                0 <= j < self.zones@.len() && #[trigger] self.zones@[j].id == id) ==> r is Ok,
    {
        match self.validate_zone_id(id) {
            Ok(()) => {},
            Err(e) => return Err(e),
        }
        match self.zone_index(id) {
            Some(_) => Ok(()),
            None => Err(StateError::UnknownZone(id)),
        }
    }

    /// Returns the number of objects in an existing zone.
    pub(crate) fn zone_len(&self, id: ZoneId) -> (r: Result<usize, StateError>)
        ensures
            r matches Ok(n) ==> exists|j: int|
                0 <= j < self.zones@.len() && self.zones@[j].id == id && self.zones@[j].objects@.len() == n,
            r is Ok <==> zone_id_valid(id, self.players@.len() as int) && exists|j: int|
                0 <= j < self.zones@.len() && #[trigger] self.zones@[j].id == id,
            r matches Ok(n) ==> n == first_zone_len(self.zones@, id),
    {
        match self.require_zone(id) {
            Ok(()) => {},
            Err(e) => return Err(e),
        }
        match self.zone_index(id) {
            Some(i) => {
                proof {
                    lemma_first_zone_len(self.zones@, id, i as int);
                }
                Ok(self.zones[i].objects.len())
            },
            None => Err(StateError::UnknownZone(id)),
        }
    }

    /// Returns the zone currently containing an object.
    pub fn object_zone(&self, object: ObjectId) -> (r: Option<ZoneId>)
        ensures
            r matches Some(z) ==> exists|i: int|
                0 <= i < self.zones@.len() && self.zones@[i].id == z
                    && #[trigger] self.zones@[i].objects@.contains(object),
            r is None ==> forall|i: int|
                0 <= i < self.zones@.len() ==> !(#[trigger] self.zones@[i].objects@.contains(object)),
            r == zone_of(self.zones@, object),
    {
        let mut i: usize = 0;
        while i < self.zones.len()
            invariant
                i <= self.zones@.len(),
                forall|j: int| 0 <= j < i ==> !(#[trigger] self.zones@[j].objects@.contains(object)),
            decreases self.zones@.len() - i,
        {
            if contains_object(&self.zones[i].objects, object) {
                proof {
                    assert(first_zone_holding(self.zones@, object, i as int));
                    assert forall|i2: int| first_zone_holding(self.zones@, object, i2) implies i2 == i by {
                        if i2 < i {
                        } else if i2 > i {
                            assert(self.zones@[i as int].objects@.contains(object));
                        }
                    }
                }
                return Some(self.zones[i].id);
            }
            i = i + 1;
        }
        proof {
            assert forall|i2: int| !first_zone_holding(self.zones@, object, i2) by {
                if 0 <= i2 < self.zones@.len() {
                    assert(!self.zones@[i2].objects@.contains(object));
                }
            }
        }
        None
    }

    /// Returns the player after `player` in turn order, wrapping around.
    pub(crate) fn next_player_after(&self, player: PlayerId) -> (r: Result<PlayerId, StateError>)
        ensures
            self.players@.len() == 0 ==> r == Err::<PlayerId, StateError>(StateError::NoPlayers),
            self.players@.len() > 0 && player.0 >= self.players@.len() ==> r == Err::<
                PlayerId,
                StateError,
            >(StateError::UnknownPlayer(player)),
            r is Ok ==> player.0 < self.players@.len(),
            r matches Ok(p) ==> (player.0 + 1) % (self.players@.len() as int) <= u32::MAX ==> p.0
                == (player.0 + 1) % (self.players@.len() as int),
            self.players@.len() > 0 && player.0 < self.players@.len() ==> r is Ok,
    {
        if self.players.len() == 0 {
            return Err(StateError::NoPlayers);
        }
        match self.require_player(player) {
            Ok(()) => {},
            Err(e) => return Err(e),
        }
        let next_index = (player.index() + 1) % self.players.len();
        Ok(PlayerId(next_index as u32))
    }

    /// Returns every player once, starting with `active` and continuing in turn order.
    pub(crate) fn apnap_players(&self, active: PlayerId) -> (r: Result<Vec<PlayerId>, StateError>)
        ensures
            self.players@.len() == 0 ==> r is Err,
            self.players@.len() > 0 && active.0 < self.players@.len() && self.players@.len()
                <= u32::MAX + 1 ==> r is Ok,
            r matches Ok(v) ==> v@.len() == self.players@.len() && forall|i: int|
                0 <= i < v@.len() ==> (#[trigger] v@[i]).0 == (active.0 + i) % (
                self.players@.len() as int),
            r is Ok ==> active.0 < self.players@.len(),
    {
        if self.players.len() == 0 {
            return Err(StateError::NoPlayers);
        }
        match self.require_player(active) {
            Ok(()) => {},
            Err(e) => return Err(e),
        }
        let n = self.players.len();
        if n - 1 > u32::MAX as usize {
            return Err(StateError::NoPlayers);
        }
        let mut order: Vec<PlayerId> = Vec::new();
        let mut player = active;
        let mut k: usize = 0;
        proof {
            vstd::arithmetic::div_mod::lemma_small_mod(active.0 as nat, n as nat);
        }
        while k < n
            invariant
                n == self.players@.len(),
                n > 0,
                n <= u32::MAX + 1,
                k <= n,
                order@.len() == k,
                player.0 < n,
                player.0 == (active.0 + k) % (n as int),
                forall|i: int| 0 <= i < k ==> (#[trigger] order@[i]).0 == (active.0 + i) % (n as int),
            decreases n - k,
        {
            order.push(player);
            proof {
                let a = active.0 as int;
                let m = n as int;
                assert(((a + k) % m + 1) % m == (a + k + 1) % m) by {
                    vstd::arithmetic::div_mod::lemma_add_mod_noop_right(1, a + k, m);
                }
            }
            player = match self.next_player_after(player) {
                Ok(p) => p,
                Err(e) => return Err(e),
            };
            k = k + 1;
        }
        Ok(order)
    }

    /// Converts a payment error into the matching state error.
    pub(crate) fn map_payment_error(error: PaymentError) -> (r: StateError)
        ensures
            error == PaymentError::ManaValueOverflow ==> r == StateError::ManaValueOverflow,
            error == PaymentError::InsufficientMana ==> r == StateError::InsufficientMana,
            error == PaymentError::InvalidPaymentPlan ==> r == StateError::InvalidPaymentPlan,
    {
        match error {
            PaymentError::ManaValueOverflow => StateError::ManaValueOverflow,
            PaymentError::InsufficientMana => StateError::InsufficientMana,
            PaymentError::InvalidPaymentPlan => StateError::InvalidPaymentPlan,
        }
    }

    /// Returns the players in arena order.
    pub fn players(&self) -> (r: &[PlayerState])
        ensures
            r@ == self.players@,
    {
        self.players.as_slice()
    }

    /// Returns object arena storage.
    pub fn objects(&self) -> (r: &ObjectArena)
        ensures
            *r == self.objects,
    {
        &self.objects
    }

    /// Returns one object record by ID.
    pub fn object(&self, object: ObjectId) -> (r: Option<ObjectRecord>)
        ensures
            r == self.objects.spec_get(object),
    {
        self.objects.get(object)
    }

    /// Returns one zone by ID.
    pub fn zone(&self, id: ZoneId) -> (r: Option<&Zone>)
        ensures
            r matches Some(z) ==> z.id == id,
            r is None ==> forall|j: int| 0 <= j < self.zones@.len() ==> #[trigger] self.zones@[j].id != id,
    {
        match self.zone_index(id) {
            Some(i) => Some(&self.zones[i]),
            None => None,
        }
    }

    /// Adds a player together with that player's library, hand and graveyard.
    pub fn add_player(&mut self) -> (id: PlayerId)
        ensures
            events_bounded(*old(self)) ==> events_bounded(*final(self)),
            id.0 == old(self).players@.len() as u32,
            final(self).players@ == old(self).players@.push(PlayerState {
                id,
                life: 20,
                poison: 0,
                lost: false,
                max_hand_size: 7,
                mulligans_taken: 0,
                opening_hand_kept: false,
                mana_pool: ManaPool::zero(),
            }),
            final(self).zones@.len() == old(self).zones@.len() + 3,
            final(self).zones@.subrange(0, old(self).zones@.len() as int) == old(self).zones@,
            final(self).zones@[old(self).zones@.len() as int].id == (ZoneId {
                owner: Some(id),
                kind: ZoneKind::Library,
            }),
            final(self).zones@[old(self).zones@.len() + 1int].id == (ZoneId {
                owner: Some(id),
                kind: ZoneKind::Hand,
            }),
            final(self).zones@[old(self).zones@.len() + 2int].id == (ZoneId {
                owner: Some(id),
                kind: ZoneKind::Graveyard,
            }),
            final(self).objects.records@ == old(self).objects.records@,
            zones_conserved(*old(self)) && old(self).players@.len() <= u32::MAX ==> zones_conserved(
                *final(self),
            ),
            event_logged(*old(self), *final(self), GameEvent::PlayerAdded { player: id }),
            ids_match_positions(*old(self)) && old(self).players@.len() < u32::MAX ==> ids_match_positions(
                *final(self),
            ),
            owners_have_graveyards(*old(self)) ==> owners_have_graveyards(*final(self)),
    {
        let id = PlayerId(self.players.len() as u32);
        self.players.push(PlayerState::new(id));
        let ghost before = self.zones@;
        self.zones.push(Zone { id: ZoneId::new(Some(id), ZoneKind::Library), objects: Vec::new() });
        let ghost one = self.zones@;
        assert(one.last().objects@.len() == 0);
        self.zones.push(Zone { id: ZoneId::new(Some(id), ZoneKind::Hand), objects: Vec::new() });
        let ghost two = self.zones@;
        assert(two.last().objects@.len() == 0);
        self.zones.push(Zone { id: ZoneId::new(Some(id), ZoneKind::Graveyard), objects: Vec::new() });
        assert(self.zones@.subrange(0, before.len() as int) =~= before);
        proof {
            assert(one.drop_last() =~= before);
            assert(two.drop_last() =~= one);
            assert(self.zones@.drop_last() =~= two);
            assert forall|q: int| #[trigger] zone_occurrences(self.zones@, q) == zone_occurrences(
                before,
                q,
            ) by {
                assert(zone_occurrences(one, q) == zone_occurrences(before, q));
                assert(zone_occurrences(two, q) == zone_occurrences(one, q));
            }
        }
        let ghost changed = *self;
        proof {
            if zones_conserved(*old(self)) && old(self).players@.len() <= u32::MAX {
                assert forall|i: int| 0 <= i < changed.zones@.len() implies zone_id_valid(
                    #[trigger] changed.zones@[i].id,
                    changed.players@.len() as int,
                ) by {
                    if i < before.len() {
                        assert(changed.zones@[i] == before[i]);
                        assert(zone_id_valid(before[i].id, old(self).players@.len() as int));
                    }
                }
                assert forall|i: int, j: int|
                    0 <= i < changed.zones@.len() && 0 <= j < changed.zones@[i].objects@.len() implies (
                    #[trigger] changed.zones@[i].objects@[j]).0 < changed.objects.records@.len() by {
                    if i < before.len() {
                        assert(changed.zones@[i] == before[i]);
                    } else if i == before.len() {
                        assert(changed.zones@[i] == one.last());
                    } else if i == before.len() + 1 {
                        assert(changed.zones@[i] == two.last());
                    }
                }
                assert(zones_conserved(changed));
            }
        }
        self.emit_event(GameEvent::PlayerAdded { player: id });
        proof {
            lemma_event_logged_frame(*old(self), changed, *self, GameEvent::PlayerAdded { player: id });
            assert(self.zones@ == changed.zones@ && self.objects.records@ == changed.objects.records@
                && self.players@ == changed.players@);
        }
        id
    }

    /// Sets a player's maximum hand size.
    pub fn set_player_max_hand_size(&mut self, player: PlayerId, max_hand_size: u32) -> (r: Result<
        (),
        StateError,
    >)
        ensures
            final(self).players@.len() == old(self).players@.len(),
            r is Ok ==> same_but_events(*old(self), (GameState { players: old(self).players, ..*final(self) })),
            r is Err ==> *final(self) == *old(self),
            r is Ok <==> player.0 < old(self).players@.len(),
            r is Err ==> r == Err::<(), StateError>(StateError::UnknownPlayer(player)),
            r is Ok ==> final(self).players@ == old(self).players@.update(
                player.0 as int,
                PlayerState { max_hand_size, ..old(self).players@[player.0 as int] },
            ),
            r is Ok ==> event_logged(*old(self), *final(self), GameEvent::PlayerMaxHandSizeSet { player, max_hand_size }),
    {
        let i = player.index();
        if i >= self.players.len() {
            return Err(StateError::UnknownPlayer(player));
        }
        self.players[i].max_hand_size = max_hand_size;
        let ghost changed = *self;
        self.emit_event(GameEvent::PlayerMaxHandSizeSet { player, max_hand_size });
        proof {
            lemma_event_logged_frame(*old(self), changed, *self, GameEvent::PlayerMaxHandSizeSet { player, max_hand_size });
        }
        Ok(())
    }

    /// Sets a player's life total.
    pub fn set_player_life(&mut self, player: PlayerId, life: i32) -> (r: Result<(), StateError>)
        ensures
            final(self).players@.len() == old(self).players@.len(),
            r is Ok ==> same_but_events(*old(self), (GameState { players: old(self).players, ..*final(self) })),
            r is Err ==> *final(self) == *old(self),
            r is Ok <==> player.0 < old(self).players@.len(),
            r is Err ==> r == Err::<(), StateError>(StateError::UnknownPlayer(player)),
            r is Ok ==> final(self).players@ == old(self).players@.update(
                player.0 as int,
                PlayerState { life, ..old(self).players@[player.0 as int] },
            ),
            r is Ok ==> event_logged(*old(self), *final(self), GameEvent::LifeTotalSet { player, life }),
    {
        let i = player.index();
        if i >= self.players.len() {
            return Err(StateError::UnknownPlayer(player));
        }
        self.players[i].life = life;
        let ghost changed = *self;
        self.emit_event(GameEvent::LifeTotalSet { player, life });
        proof {
            lemma_event_logged_frame(*old(self), changed, *self, GameEvent::LifeTotalSet { player, life });
        }
        Ok(())
    }

    /// Makes a player lose life; amounts beyond `i32::MAX` count as `i32::MAX`.
    pub fn lose_life(&mut self, player: PlayerId, amount: u32) -> (r: Result<(), StateError>)
        ensures
            final(self).players@.len() == old(self).players@.len(),
            r is Ok ==> same_but_events(*old(self), (GameState { players: old(self).players, ..*final(self) })),
            r is Err ==> *final(self) == *old(self),
            player.0 >= old(self).players@.len() ==> r == Err::<(), StateError>(
                StateError::UnknownPlayer(player),
            ),
            player.0 < old(self).players@.len() ==> {
                let before = old(self).players@[player.0 as int];
                let delta = if amount <= i32::MAX {
                    amount as int
                } else {
                    i32::MAX as int
                };
                &&& before.life - delta < i32::MIN ==> r == Err::<(), StateError>(
                    StateError::LifeTotalOverflow,
                )
                &&& before.life - delta >= i32::MIN ==> r is Ok
                    && final(self).players@ == old(self).players@.update(
                    player.0 as int,
                    PlayerState { life: (before.life - delta) as i32, ..before },
                ) && event_logged(
                    *old(self),
                    *final(self),
                    GameEvent::LifeLost { player, amount, life: (before.life - delta) as i32 },
                )
            },
    {
        let i = player.index();
        if i >= self.players.len() {
            return Err(StateError::UnknownPlayer(player));
        }
        let delta: i32 = if amount <= i32::MAX as u32 {
            amount as i32
        } else {
            i32::MAX
        };
        let life = match self.players[i].life.checked_sub(delta) {
            Some(v) => v,
            None => return Err(StateError::LifeTotalOverflow),
        };
        self.players[i].life = life;
        let ghost changed = *self;
        self.emit_event(GameEvent::LifeLost { player, amount, life });
        proof {
            lemma_event_logged_frame(*old(self), changed, *self, GameEvent::LifeLost { player, amount, life });
        }
        Ok(())
    }

    /// Makes a player gain life; amounts beyond `i32::MAX` count as `i32::MAX`.
    pub fn gain_life(&mut self, player: PlayerId, amount: u32) -> (r: Result<(), StateError>)
        ensures
            final(self).players@.len() == old(self).players@.len(),
            r is Ok ==> same_but_events(*old(self), (GameState { players: old(self).players, ..*final(self) })),
            r is Err ==> *final(self) == *old(self),
            player.0 >= old(self).players@.len() ==> r == Err::<(), StateError>(
                StateError::UnknownPlayer(player),
            ),
            player.0 < old(self).players@.len() ==> {
                let before = old(self).players@[player.0 as int];
                let delta = if amount <= i32::MAX {
                    amount as int
                } else {
                    i32::MAX as int
                };
                &&& before.life + delta > i32::MAX ==> r == Err::<(), StateError>(
                    StateError::LifeTotalOverflow,
                )
                &&& before.life + delta <= i32::MAX ==> r is Ok
                    && final(self).players@ == old(self).players@.update(
                    player.0 as int,
                    PlayerState { life: (before.life + delta) as i32, ..before },
                )
            },
            r is Ok ==> event_logged(
                *old(self),
                *final(self),
                GameEvent::LifeGained { player, amount, life: final(self).players@[player.0 as int].life },
            ),
    {
        let i = player.index();
        if i >= self.players.len() {
            return Err(StateError::UnknownPlayer(player));
        }
        let delta: i32 = if amount <= i32::MAX as u32 {
            amount as i32
        } else {
            i32::MAX
        };
        let life = match self.players[i].life.checked_add(delta) {
            Some(v) => v,
            None => return Err(StateError::LifeTotalOverflow),
        };
        self.players[i].life = life;
        let ghost changed = *self;
        self.emit_event(GameEvent::LifeGained { player, amount, life });
        proof {
            lemma_event_logged_frame(*old(self), changed, *self, GameEvent::LifeGained { player, amount, life });
        }
        Ok(())
    }

    /// Adds poison counters to a player.
    pub fn add_poison_counters(&mut self, player: PlayerId, amount: u32) -> (r: Result<
        (),
        StateError,
    >)
        ensures
            final(self).players@.len() == old(self).players@.len(),
            r is Ok ==> same_but_events(*old(self), (GameState { players: old(self).players, ..*final(self) })),
            r is Err ==> *final(self) == *old(self),
            player.0 >= old(self).players@.len() ==> r == Err::<(), StateError>(
                StateError::UnknownPlayer(player),
            ),
            player.0 < old(self).players@.len() ==> {
                let before = old(self).players@[player.0 as int];
                &&& before.poison + amount > u32::MAX ==> r == Err::<(), StateError>(
                    StateError::PoisonCounterOverflow,
                )
                &&& before.poison + amount <= u32::MAX ==> r is Ok
                    && final(self).players@ == old(self).players@.update(
                    player.0 as int,
                    PlayerState { poison: (before.poison + amount) as u32, ..before },
                )
            },
            r is Ok ==> event_logged(
                *old(self),
                *final(self),
                GameEvent::PoisonCountersAdded { player, amount, poison: final(self).players@[player.0 as int].poison },
            ),
    {
        let i = player.index();
        if i >= self.players.len() {
            return Err(StateError::UnknownPlayer(player));
        }
        let poison = match self.players[i].poison.checked_add(amount) {
            Some(v) => v,
            None => return Err(StateError::PoisonCounterOverflow),
        };
        self.players[i].poison = poison;
        let ghost changed = *self;
        self.emit_event(GameEvent::PoisonCountersAdded { player, amount, poison });
        proof {
            lemma_event_logged_frame(*old(self), changed, *self, GameEvent::PoisonCountersAdded { player, amount, poison });
        }
        Ok(())
    }

    /// Returns a player's current mana pool.
    pub fn mana_pool(&self, player: PlayerId) -> (r: Result<ManaPool, StateError>)
        ensures
            player.0 < self.players@.len() ==> r == Ok::<ManaPool, StateError>(
                self.players@[player.0 as int].mana_pool,
            ),
            player.0 >= self.players@.len() ==> r == Err::<ManaPool, StateError>(
                StateError::UnknownPlayer(player),
            ),
    {
        let i = player.index();
        if i < self.players.len() {
            Ok(self.players[i].mana_pool)
        } else {
            Err(StateError::UnknownPlayer(player))
        }
    }

    /// Adds mana to a player's pool.
    pub fn add_mana_to_pool(&mut self, player: PlayerId, mana: ManaPool) -> (r: Result<
        (),
        StateError,
    >)
        ensures
            final(self).players@.len() == old(self).players@.len(),
            r is Ok ==> same_but_events(*old(self), (GameState { players: old(self).players, ..*final(self) })),
            r is Ok ==> final(self).players@ == old(self).players@.update(
                player.0 as int,
                PlayerState { mana_pool: final(self).players@[player.0 as int].mana_pool, ..old(self).players@[player.0 as int] },
            ),
            r is Err ==> *final(self) == *old(self),
            player.0 >= old(self).players@.len() ==> r == Err::<(), StateError>(
                StateError::UnknownPlayer(player),
            ),
            r is Ok ==> player.0 < old(self).players@.len()
                && final(self).players@[player.0 as int].mana_pool.is_sum_of(
                old(self).players@[player.0 as int].mana_pool,
                mana,
            ),
            r is Err && player.0 < old(self).players@.len() ==> r == Err::<(), StateError>(
                StateError::ManaValueOverflow,
            ),
            player.0 < old(self).players@.len() && !pool_add_overflows(
                old(self).players@[player.0 as int].mana_pool,
                mana,
            ) ==> r is Ok && event_logged(
                *old(self),
                *final(self),
                GameEvent::ManaPoolChanged {
                    player,
                    mana_pool: pool_add(old(self).players@[player.0 as int].mana_pool, mana),
                },
            ),
    {
        let i = player.index();
        if i >= self.players.len() {
            return Err(StateError::UnknownPlayer(player));
        }
        let mana_pool = match self.players[i].mana_pool.checked_add(mana) {
            Some(p) => p,
            None => return Err(StateError::ManaValueOverflow),
        };
        proof {
            lemma_pool_sum(mana_pool, self.players@[i as int].mana_pool, mana);
        }
        self.players[i].mana_pool = mana_pool;
        let ghost changed = *self;
        self.emit_event(GameEvent::ManaPoolChanged { player, mana_pool });
        proof {
            lemma_event_logged_frame(*old(self), changed, *self, GameEvent::ManaPoolChanged { player, mana_pool });
        }
        Ok(())
    }

    /// Clears one player's mana pool.
    pub fn clear_mana_pool(&mut self, player: PlayerId) -> (r: Result<(), StateError>)
        ensures
            final(self).players@.len() == old(self).players@.len(),
            r is Ok ==> same_but_events(*old(self), (GameState { players: old(self).players, ..*final(self) })),
            r is Err ==> *final(self) == *old(self),
            r is Ok <==> player.0 < old(self).players@.len(),
            r is Ok ==> final(self).players@[player.0 as int].mana_pool == ManaPool::zero(),
            r is Ok ==> event_logged(
                *old(self),
                *final(self),
                GameEvent::ManaPoolChanged { player, mana_pool: ManaPool::zero() },
            ),
    {
        let i = player.index();
        if i >= self.players.len() {
            return Err(StateError::UnknownPlayer(player));
        }
        self.players[i].mana_pool = ManaPool::empty();
        let ghost changed = *self;
        self.emit_event(GameEvent::ManaPoolChanged { player, mana_pool: ManaPool::empty() });
        proof {
            lemma_event_logged_frame(*old(self), changed, *self, GameEvent::ManaPoolChanged { player, mana_pool: ManaPool::zero() });
        }
        Ok(())
    }

    /// Enumerates payment plans for one player's current mana pool.
    pub fn payment_plans_for_player(&self, player: PlayerId, cost: ManaCost) -> (r: Result<
        PaymentEnumeration,
        StateError,
    >)
        ensures
            player.0 >= self.players@.len() ==> r == Err::<PaymentEnumeration, StateError>(
                StateError::UnknownPlayer(player),
            ),
            r matches Ok(e) ==> forall|i: int|
                0 <= i < e.plans@.len() ==> is_valid_payment(
                    self.players@[player.0 as int].mana_pool,
                    cost,
                    #[trigger] e.plans@[i],
                ),
            player.0 < self.players@.len() ==> {
                let pool = self.players@[player.0 as int].mana_pool;
                &&& !pool.covers(colored_requirement(cost)) || generic_requirement(cost) <= u32::MAX ==> (
                r matches Ok(e) && e.plans@ == capped(payment_plans_in_order(pool, cost)) && e.truncated == (
                payment_plans_in_order(pool, cost).len() > PAYMENT_PLAN_LIMIT))
                &&& pool.covers(colored_requirement(cost)) && generic_requirement(cost) > u32::MAX ==> r
                    == Err::<PaymentEnumeration, StateError>(StateError::ManaValueOverflow)
            },
    {
        let pool = match self.mana_pool(player) {
            Ok(p) => p,
            Err(e) => return Err(e),
        };
        match enumerate_payment_plans(pool, cost) {
            Ok(e) => Ok(e),
            Err(e) => Err(Self::map_payment_error(e)),
        }
    }

    /// Applies one explicit payment plan to a player's mana pool.
    ///
    /// The plan must be exactly the plan that validation produces for its
    /// paid pool, so a plan handed out by enumeration is always accepted.
    pub fn pay_mana(&mut self, player: PlayerId, cost: ManaCost, plan: PaymentPlan) -> (r: Result<
        (),
        StateError,
    >)
        ensures
            r is Ok ==> same_but_events(*old(self), (GameState { players: old(self).players, ..*final(self) })),
            r is Err ==> *final(self) == *old(self),
            player.0 >= old(self).players@.len() ==> r == Err::<(), StateError>(
                StateError::UnknownPlayer(player),
            ),
            player.0 < old(self).players@.len() && generic_requirement(cost) <= u32::MAX
                && is_valid_payment(old(self).players@[player.0 as int].mana_pool, cost, plan)
                ==> r is Ok,
            r is Ok ==> player.0 < old(self).players@.len() && is_valid_payment(
                old(self).players@[player.0 as int].mana_pool,
                cost,
                plan,
            ) && final(self).players@[player.0 as int].mana_pool.is_diff_of(
                old(self).players@[player.0 as int].mana_pool,
                plan.paid(),
            ) && final(self).players@.len() == old(self).players@.len(),
            r is Err ==> final(self).players@ == old(self).players@,
            r is Ok ==> final(self).players@ == old(self).players@.update(
                player.0 as int,
                PlayerState {
                    mana_pool: final(self).players@[player.0 as int].mana_pool,
                    ..old(self).players@[player.0 as int]
                },
            ),
    {
        let i = player.index();
        if i >= self.players.len() {
            return Err(StateError::UnknownPlayer(player));
        }
        let pool = self.players[i].mana_pool;
        proof {
            if is_valid_payment(pool, cost, plan) {
                ManaPool::lemma_sum_fields(plan.paid(), colored_requirement(cost), plan.generic_paid());
                assert(plan.paid().covers(colored_requirement(cost)));
            }
        }
        let canonical = match validate_payment_plan(pool, cost, plan.paid()) {
            Ok(p) => p,
            Err(e) => return Err(Self::map_payment_error(e)),
        };
        proof {
            if is_valid_payment(pool, cost, plan) {
                ManaPool::lemma_sum_fields(plan.paid(), colored_requirement(cost), plan.generic_paid());
                ManaPool::lemma_sum_fields(canonical.paid(), colored_requirement(cost), canonical.generic_paid());
                assert(canonical.generic_paid().white == plan.generic_paid().white);
                assert(canonical.generic_paid().colorless == plan.generic_paid().colorless);
                assert(canonical == plan);
            }
        }
        if canonical != plan {
            return Err(StateError::InvalidPaymentPlan);
        }
        let next = match pool.pay(plan) {
            Ok(p) => p,
            Err(e) => return Err(Self::map_payment_error(e)),
        };
        self.players[i].mana_pool = next;
        self.emit_event(GameEvent::ManaPaid { player, payment: plan, mana_pool: next });
        Ok(())
    }

    /// Sets or clears an object's loyalty value.
    pub fn set_object_loyalty(&mut self, object: ObjectId, loyalty: Option<i32>) -> (r: Result<
        (),
        StateError,
    >)
        ensures
            r is Ok ==> final(self).objects.records@.len() == old(self).objects.records@.len(),
            r is Ok ==> same_but_events(*old(self), (GameState { objects: old(self).objects, ..*final(self) })),
            r is Err ==> *final(self) == *old(self),
            r is Ok <==> old(self).objects.spec_get(object) is Some,
            r is Ok ==> final(self).objects.spec_get(object) == Some(
                ObjectRecord { loyalty, ..old(self).objects.spec_get(object)->0 },
            ),
            r is Ok ==> event_logged(*old(self), *final(self), GameEvent::ObjectLoyaltySet { object, loyalty }),
    {
        let i = object.index();
        if i >= self.objects.records.len() {
            return Err(StateError::UnknownObject(object));
        }
        self.objects.records[i].loyalty = loyalty;
        let ghost changed = *self;
        self.emit_event(GameEvent::ObjectLoyaltySet { object, loyalty });
        proof {
            lemma_event_logged_frame(*old(self), changed, *self, GameEvent::ObjectLoyaltySet { object, loyalty });
        }
        Ok(())
    }

    /// Sets or replaces base printed creature characteristics for one object.
    pub fn set_base_creature_characteristics(
        &mut self,
        object: ObjectId,
        base: BaseCreatureCharacteristics,
    ) -> (r: Result<(), StateError>)
        ensures
            r is Ok ==> final(self).objects.records@.len() == old(self).objects.records@.len(),
            r is Ok ==> same_but_events(*old(self), (GameState { objects: old(self).objects, ..*final(self) })),
            r is Err ==> *final(self) == *old(self),
            r is Ok <==> old(self).objects.spec_get(object) is Some,
            r is Ok ==> final(self).objects.spec_get(object) == Some(
                ObjectRecord { base_creature: Some(base), ..old(self).objects.spec_get(object)->0 },
            ),
    {
        let i = object.index();
        if i >= self.objects.records.len() {
            return Err(StateError::UnknownObject(object));
        }
        self.objects.records[i].base_creature = Some(base);
        self.emit_event(GameEvent::BaseCreatureCharacteristicsSet { object, base });
        Ok(())
    }

    /// Clears base printed creature characteristics from one object and
    /// removes it from combat.
    pub fn clear_base_creature_characteristics(&mut self, object: ObjectId) -> (r: Result<
        (),
        StateError,
    >)
        ensures
            r is Ok ==> final(self).objects.records@.len() == old(self).objects.records@.len(),
            r is Ok ==> same_but_events(*old(self), (GameState { objects: old(self).objects, combat: old(self).combat, ..*final(self) })),
            r is Err ==> *final(self) == *old(self),
            r is Ok <==> old(self).objects.spec_get(object) is Some,
            r is Ok ==> final(self).objects.spec_get(object) == Some(
                ObjectRecord { base_creature: None, ..old(self).objects.spec_get(object)->0 },
            ),
    {
        let i = object.index();
        if i >= self.objects.records.len() {
            return Err(StateError::UnknownObject(object));
        }
        self.objects.records[i].base_creature = None;
        self.remove_object_from_combat(object);
        self.emit_event(GameEvent::BaseCreatureCharacteristicsCleared { object });
        Ok(())
    }

    /// Sets an object's tapped status.
    pub fn set_object_tapped(&mut self, object: ObjectId, tapped: bool) -> (r: Result<
        (),
        StateError,
    >)
        ensures
            r is Ok ==> same_but_events(*old(self), (GameState { objects: old(self).objects, ..*final(self) })),
            r is Err ==> *final(self) == *old(self),
            r is Ok <==> old(self).objects.spec_get(object) is Some,
            r is Ok ==> final(self).objects.spec_get(object) == Some(
                ObjectRecord { tapped, ..old(self).objects.spec_get(object)->0 },
            ),
            r is Ok ==> final(self).objects.records@.len() == old(self).objects.records@.len(),
            r is Ok ==> event_logged(*old(self), *final(self), GameEvent::ObjectTapped { object, tapped }),
    {
        let i = object.index();
        if i >= self.objects.records.len() {
            return Err(StateError::UnknownObject(object));
        }
        self.objects.records[i].tapped = tapped;
        let ghost changed = *self;
        self.emit_event(GameEvent::ObjectTapped { object, tapped });
        proof {
            lemma_event_logged_frame(*old(self), changed, *self, GameEvent::ObjectTapped { object, tapped });
        }
        Ok(())
    }

    /// Marks damage on a creature object after replacement and prevention effects.
    pub fn mark_damage_on_object(&mut self, object: ObjectId, amount: u32) -> (r: Result<
        (),
        StateError,
    >)
        ensures
            zones_conserved(*old(self)) ==> zones_conserved(*final(self)),
            events_bounded(*old(self)) ==> events_bounded(*final(self)),
            old(self).objects.spec_get(object) is None ==> r == Err::<(), StateError>(
                StateError::UnknownObject(object),
            ),
            old(self).objects.spec_get(object) matches Some(rec) && rec.base_creature is None
                ==> r == Err::<(), StateError>(StateError::NotACreature(object)),
            old(self).replacement_effects@.len() == 0 && old(self).objects.spec_get(object) is Some
                && old(self).objects.spec_get(object)->0.base_creature is Some && old(self).objects.spec_get(
                object,
            )->0.damage_marked + amount <= u32::MAX ==> r is Ok && final(self).objects.spec_get(object) == Some(
                ObjectRecord {
                    damage_marked: (old(self).objects.spec_get(object)->0.damage_marked + amount) as u32,
                    ..old(self).objects.spec_get(object)->0
                },
            ),
            old(self).objects.spec_get(object) is Some && old(self).objects.spec_get(object)->0.base_creature is Some
                && replacement_ids_distinct(old(self).replacement_effects@) ==> ({
                let rec = old(self).objects.spec_get(object)->0;
                let folded = replaced_damage(
                    *old(self),
                    DamageReplacementEvent {
                        source: None,
                        target: CombatDamageTarget::Object(object),
                        amount,
                        combat: false,
                    },
                    rec.controller,
                    Seq::empty(),
                    old(self).replacement_effects@.len() as nat,
                );
                &&& folded is None ==> r == Err::<(), StateError>(StateError::CombatDamageOverflow)
                &&& folded is Some && u32::MAX < rec.damage_marked + folded->0 ==> r == Err::<(), StateError>(
                    StateError::CombatDamageOverflow,
                )
                &&& folded is Some && rec.damage_marked + folded->0 <= u32::MAX ==> r is Ok && final(self).objects.spec_get(
                    object,
                ) == Some(ObjectRecord { damage_marked: (rec.damage_marked + folded->0) as u32, ..rec })
            }),
    {
        let record = match self.objects.get(object) {
            Some(r) => r,
            None => return Err(StateError::UnknownObject(object)),
        };
        if record.base_creature.is_none() {
            return Err(StateError::NotACreature(object));
        }
        let replaced = match self.apply_damage_replacement_effects(
            DamageReplacementEvent {
                source: None,
                target: CombatDamageTarget::Object(object),
                amount,
                combat: false,
            },
        ) {
            Ok(e) => e,
            Err(e) => return Err(e),
        };
        if amount > 0 && replaced.amount == 0 {
            proof {
                let rec = old(self).objects.spec_get(object)->0;
                assert(self.objects.records@ == old(self).objects.records@);
                assert((ObjectRecord { damage_marked: (rec.damage_marked + 0) as u32, ..rec }) == rec);
            }
            return Ok(());
        }
        self.mark_damage_on_object_unreplaced(object, replaced.amount)
    }

    /// Adds damage to a creature object's marked damage.
    pub(crate) fn mark_damage_on_object_unreplaced(&mut self, object: ObjectId, amount: u32) -> (r:
        Result<(), StateError>)
        ensures
            r is Ok ==> same_but_events(*old(self), (GameState { objects: old(self).objects, ..*final(self) })),
            r is Err ==> *final(self) == *old(self),
            r is Ok ==> (old(self).objects.spec_get(object) matches Some(rec)
                && rec.base_creature is Some && rec.damage_marked + amount <= u32::MAX
                && final(self).objects.spec_get(object) == Some(
                ObjectRecord { damage_marked: (rec.damage_marked + amount) as u32, ..rec },
            )),
            r is Ok ==> final(self).objects.records@.len() == old(self).objects.records@.len(),
            r is Ok ==> forall|j: int|
                0 <= j < old(self).objects.records@.len() && j != object.0 ==> #[trigger] final(self).objects.records@[j]
                    == old(self).objects.records@[j],
            r is Err ==> final(self).objects.records@ == old(self).objects.records@,
            old(self).objects.spec_get(object) is None ==> r == Err::<(), StateError>(
                StateError::UnknownObject(object),
            ),
            old(self).objects.spec_get(object) matches Some(rec) && rec.base_creature is None ==> r == Err::<
                (),
                StateError,
            >(StateError::NotACreature(object)),
            old(self).objects.spec_get(object) matches Some(rec) && rec.base_creature is Some
                && rec.damage_marked + amount > u32::MAX ==> r == Err::<(), StateError>(
                StateError::CombatDamageOverflow,
            ),
            old(self).objects.spec_get(object) matches Some(rec) && rec.base_creature is Some
                && rec.damage_marked + amount <= u32::MAX ==> r is Ok,
    {
        let i = object.index();
        if i >= self.objects.records.len() {
            return Err(StateError::UnknownObject(object));
        }
        if self.objects.records[i].base_creature.is_none() {
            return Err(StateError::NotACreature(object));
        }
        let total_damage = match self.objects.records[i].damage_marked.checked_add(amount) {
            Some(v) => v,
            None => return Err(StateError::CombatDamageOverflow),
        };
        self.objects.records[i].damage_marked = total_damage;
        self.emit_event(GameEvent::DamageMarked { object, amount, total_damage });
        Ok(())
    }

    /// Creates one object and places it on top of a zone.
    pub fn create_object(&mut self, card: CardId, owner: PlayerId, controller: PlayerId, zone: ZoneId) -> (r:
        Result<ObjectId, StateError>)
        ensures
            events_bounded(*old(self)) ==> events_bounded(*final(self)),
            r is Ok ==> same_but_events(*old(self), (GameState { objects: old(self).objects, zones: old(self).zones, ..*final(self) })),
            r is Err ==> *final(self) == *old(self),
            owner.0 >= old(self).players@.len() ==> r == Err::<ObjectId, StateError>(
                StateError::UnknownPlayer(owner),
            ),
            r is Ok && ids_match_positions(*old(self)) && old(self).objects.records@.len() < u32::MAX
                ==> ids_match_positions(*final(self)),
            r is Ok && owners_have_graveyards(*old(self)) && has_zone(
                old(self).zones@,
                ZoneId { owner: Some(owner), kind: ZoneKind::Graveyard },
            ) ==> owners_have_graveyards(*final(self)),
            r matches Ok(object) ==> object.0 == old(self).objects.records@.len() as u32
                && final(self).objects.records@ == old(self).objects.records@.push(
                ObjectRecord {
                    id: object,
                    card,
                    owner,
                    controller,
                    tapped: false,
                    base_creature: None,
                    damage_marked: 0,
                    deathtouch_damage_marked: false,
                    loyalty: None,
                    controlled_since_turn: old(self).turn_number,
                },
            ) && exists|i: int|
                0 <= i < final(self).zones@.len() && final(self).zones@[i].id == zone
                    && final(self).zones@[i].objects@ == old(self).zones@[i].objects@.push(object),
            r is Ok ==> final(self).zones@.len() == old(self).zones@.len(),
            zones_conserved(*old(self)) && old(self).objects.records@.len() <= u32::MAX
                ==> zones_conserved(*final(self)),
            r is Err ==> final(self).objects.records@ == old(self).objects.records@
                && final(self).zones@ == old(self).zones@,
            r is Ok <==> owner.0 < old(self).players@.len() && controller.0 < old(self).players@.len()
                && zone_id_valid(zone, old(self).players@.len() as int) && exists|j: int|
                0 <= j < old(self).zones@.len() && #[trigger] old(self).zones@[j].id == zone,
    {
        match self.require_player(owner) {
            Ok(()) => {},
            Err(e) => return Err(e),
        }
        match self.require_player(controller) {
            Ok(()) => {},
            Err(e) => return Err(e),
        }
        match self.require_zone(zone) {
            Ok(()) => {},
            Err(e) => return Err(e),
        }
        let zi = match self.zone_index(zone) {
            Some(i) => i,
            None => return Err(StateError::UnknownZone(zone)),
        };
        let object = self.objects.push(card, owner, controller, self.turn_number);
        self.zones[zi].objects.push(object);
        proof {
            if zones_conserved(*old(self)) && old(self).objects.records@.len() <= u32::MAX {
                lemma_zone_create_keeps_conservation(*old(self), *self, zi as int, object);
            }
        }
        let ghost made = *self;
        self.emit_event(
            GameEvent::ObjectCreated { object, card, owner, controller, zone },
        );
        proof {
            let gy = ZoneId { owner: Some(owner), kind: ZoneKind::Graveyard };
            if owners_have_graveyards(*old(self)) && has_zone(old(self).zones@, gy) {
                assert forall|j: int| 0 <= j < old(self).zones@.len() implies #[trigger] self.zones@[j].id
                    == old(self).zones@[j].id by {
                    assert(made.zones@[j].id == old(self).zones@[j].id);
                }
                assert forall|i: int| 0 <= i < self.objects.records@.len() implies {
                    let o = (#[trigger] self.objects.records@[i]).owner;
                    &&& o.0 < self.players@.len()
                    &&& exists|j: int|
                        0 <= j < self.zones@.len() && #[trigger] self.zones@[j].id == (ZoneId {
                            owner: Some(o),
                            kind: ZoneKind::Graveyard,
                        })
                } by {
                    let o = self.objects.records@[i].owner;
                    let w = if i < old(self).objects.records@.len() {
                        assert(self.objects.records@[i] == old(self).objects.records@[i]);
                        choose|j: int|
                            0 <= j < old(self).zones@.len() && #[trigger] old(self).zones@[j].id == (ZoneId {
                                owner: Some(o),
                                kind: ZoneKind::Graveyard,
                            })
                    } else {
                        choose|j: int| 0 <= j < old(self).zones@.len() && #[trigger] old(self).zones@[j].id == gy
                    };
                    assert(self.zones@[w].id == old(self).zones@[w].id);
                }
            }
        }
        Ok(object)
    }

    /// Moves an object from its current zone to the top of another zone.
    pub fn move_object(&mut self, object: ObjectId, to: ZoneId) -> (r: Result<(), StateError>)
        ensures
            old(self).objects.spec_get(object) is Some && zone_id_valid(
                to,
                old(self).players@.len() as int,
            ) && (exists|j: int| 0 <= j < old(self).zones@.len() && #[trigger] old(self).zones@[j].id == to)
                && (exists|j: int|
                0 <= j < old(self).zones@.len() && #[trigger] old(self).zones@[j].objects@.contains(object))
                ==> r is Ok,
            old(self).objects.spec_get(object) is None ==> r == Err::<(), StateError>(
                StateError::UnknownObject(object),
            ),
            r is Ok ==> exists|i: int|
                0 <= i < final(self).zones@.len() && final(self).zones@[i].id == to
                    && #[trigger] final(self).zones@[i].objects@.contains(object),
            r is Ok ==> exists|fi: int, ti: int, pos: int|
                #[trigger] zone_move(old(self).zones@, final(self).zones@, object, to, fi, ti, pos),
            r is Ok ==> final(self).zones@.len() == old(self).zones@.len(),
            r is Ok ==> final(self).objects.records@.len() == old(self).objects.records@.len(),
            r is Ok ==> forall|j: int|
                0 <= j < old(self).objects.records@.len() ==> #[trigger] final(self).objects.records@[j].tapped
                    == old(self).objects.records@[j].tapped && final(self).objects.records@[j].id
                    == old(self).objects.records@[j].id && final(self).objects.records@[j].owner
                    == old(self).objects.records@[j].owner,
            r is Ok ==> forall|j: int|
                0 <= j < old(self).objects.records@.len() && j != object.0 ==> #[trigger] final(self).objects.records@[j]
                    == old(self).objects.records@[j],
            r is Ok ==> same_but_events(
                *old(self),
                (GameState {
                    zones: old(self).zones,
                    objects: old(self).objects,
                    combat: old(self).combat,
                    ..*final(self)
                }),
            ),
            r is Err ==> *final(self) == *old(self),
            zones_conserved(*old(self)) ==> zones_conserved(*final(self)),
            events_bounded(*old(self)) ==> events_bounded(*final(self)),
            r is Ok && zone_of(old(self).zones@, object) != Some(
                ZoneId { owner: None, kind: ZoneKind::Battlefield },
            ) && to != (ZoneId { owner: None, kind: ZoneKind::Battlefield }) ==> final(self).objects.records@
                == old(self).objects.records@,
    {
        if self.objects.get(object).is_none() {
            return Err(StateError::UnknownObject(object));
        }
        match self.require_zone(to) {
            Ok(()) => {},
            Err(e) => return Err(e),
        }
        let mut from_index: usize = 0;
        let mut found = false;
        while from_index < self.zones.len() && !found
            invariant
                from_index <= self.zones@.len(),
                found ==> from_index < self.zones@.len()
                    && self.zones@[from_index as int].objects@.contains(object),
                forall|j: int| 0 <= j < from_index ==> !(#[trigger] self.zones@[j].objects@.contains(object)),
            decreases self.zones@.len() - from_index + (if found {
                0int
            } else {
                1int
            }),
        {
            if contains_object(&self.zones[from_index].objects, object) {
                found = true;
            } else {
                from_index = from_index + 1;
            }
        }
        if !found {
            return Err(StateError::MissingZoneMembership(object));
        }
        let from_zone_id = self.zones[from_index].id;
        proof {
            assert(first_zone_holding(self.zones@, object, from_index as int));
            let w = choose|w: int| first_zone_holding(self.zones@, object, w);
            if w < from_index {
                assert(!self.zones@[w].objects@.contains(object));
            } else if w > from_index {
                assert(!self.zones@[from_index as int].objects@.contains(object));
            }
            assert(zone_of(self.zones@, object) == Some(from_zone_id));
        }
        if from_zone_id == to {
            proof {
                let pos = choose|pos: int|
                    0 <= pos < self.zones@[from_index as int].objects@.len()
                        && self.zones@[from_index as int].objects@[pos] == object;
                assert(zone_move(old(self).zones@, self.zones@, object, to, from_index as int, from_index as int, pos));
            }
            return Ok(());
        }
        let to_index = match self.zone_index(to) {
            Some(i) => i,
            None => return Err(StateError::UnknownZone(to)),
        };
        let position = match position_of_object(&self.zones[from_index].objects, object) {
            Some(p) => p,
            None => return Err(StateError::MissingZoneMembership(object)),
        };
        let ghost before = self.zones@;
        self.zones[from_index].objects.remove(position);
        self.zones[to_index].objects.push(object);
        assert(self.zones@[to_index as int].objects@.last() == object);
        assert(zone_move(before, self.zones@, object, to, from_index as int, to_index as int, position as int));
        proof {
            if zones_conserved(*old(self)) {
                lemma_zone_move_keeps_conservation(
                    *old(self),
                    *self,
                    object,
                    to,
                    from_index as int,
                    to_index as int,
                    position as int,
                );
            }
        }
        let ghost moved = *self;
        let battlefield = ZoneId::new(None, ZoneKind::Battlefield);
        let i = object.index();
        if from_zone_id == battlefield && to != battlefield {
            self.remove_object_from_combat(object);
            if i < self.objects.records.len() {
                self.objects.records[i].damage_marked = 0;
                self.objects.records[i].deathtouch_damage_marked = false;
            }
        }
        if from_zone_id != battlefield && to == battlefield {
            if i < self.objects.records.len() {
                self.objects.records[i].controlled_since_turn = self.turn_number;
                self.objects.records[i].damage_marked = 0;
                self.objects.records[i].deathtouch_damage_marked = false;
            }
        }
        self.emit_event(GameEvent::ObjectMoved { object, from: from_zone_id, to });
        assert(self.zones@[to_index as int].objects@.contains(object));
        assert(self.zones@ == moved.zones@ && self.players@.len() == moved.players@.len()
            && self.objects.records@.len() == moved.objects.records@.len());
        Ok(())
    }

    /// Validates that every zone ID is well formed, that zones hold only
    /// arena objects, and that every object appears in exactly one zone.
    pub fn validate_zone_conservation(&self) -> (r: Result<ZoneConservation, StateError>)
        ensures
            r is Ok <==> zones_conserved(*self),
            r matches Ok(c) ==> c.object_count == self.objects.records@.len(),
            r matches Err(StateError::DuplicateZoneMembership(o)) ==> zone_occurrences(
                self.zones@,
                o.0 as int,
            ) > 1,
            r matches Err(StateError::InvalidZoneObject { zone, object }) ==> object.0
                >= self.objects.records@.len() && exists|i: int|
                0 <= i < self.zones@.len() && self.zones@[i].id == zone
                    && #[trigger] self.zones@[i].objects@.contains(object),
            r matches Err(StateError::MissingZoneMembership(id)) ==> exists|q: int|
                0 <= q < self.objects.records@.len() && self.objects.records@[q].id == id
                    && #[trigger] zone_occurrences(self.zones@, q) == 0,
    {
        let n = self.objects.records.len();
        let ghost zones = self.zones@;
        let mut memberships: Vec<u8> = Vec::new();
        let mut k: usize = 0;
        while k < n
            invariant
                k <= n,
                memberships@.len() == k,
                forall|q: int| 0 <= q < k ==> memberships@[q] == 0,
            decreases n - k,
        {
            memberships.push(0);
            k = k + 1;
        }
        let mut zi: usize = 0;
        while zi < self.zones.len()
            invariant
                zi <= zones.len(),
                zones == self.zones@,
                n == self.objects.records@.len(),
                memberships@.len() == n,
                forall|i: int|
                    0 <= i < zi ==> zone_id_valid(#[trigger] zones[i].id, self.players@.len() as int),
                forall|i: int, j: int|
                    0 <= i < zi && 0 <= j < zones[i].objects@.len() ==> (
                    #[trigger] zones[i].objects@[j]).0 < n,
                forall|q: int|
                    0 <= q < n ==> #[trigger] memberships@[q] == zone_occurrences(
                        zones.subrange(0, zi as int),
                        q,
                    ) && memberships@[q] <= 1,
            decreases zones.len() - zi,
        {
            let zone_id = self.zones[zi].id;
            match self.validate_zone_id(zone_id) {
                Ok(()) => {},
                Err(e) => return Err(e),
            }
            let mut oi: usize = 0;
            while oi < self.zones[zi].objects.len()
                invariant
                    zi < zones.len(),
                    zones == self.zones@,
                    oi <= zones[zi as int].objects@.len(),
                    zone_id == zones[zi as int].id,
                    n == self.objects.records@.len(),
                    memberships@.len() == n,
                    forall|i: int|
                        0 <= i <= zi ==> zone_id_valid(#[trigger] zones[i].id, self.players@.len() as int),
                    forall|i: int, j: int|
                        0 <= i < zi && 0 <= j < zones[i].objects@.len() ==> (
                        #[trigger] zones[i].objects@[j]).0 < n,
                    forall|j: int|
                        0 <= j < oi ==> (#[trigger] zones[zi as int].objects@[j]).0 < n,
                    forall|q: int|
                        0 <= q < n ==> #[trigger] memberships@[q] == zone_occurrences(
                            zones.subrange(0, zi as int),
                            q,
                        ) + count_in(zones[zi as int].objects@.subrange(0, oi as int), q)
                            && memberships@[q] <= 1,
                decreases zones[zi as int].objects@.len() - oi,
            {
                let object = self.zones[zi].objects[oi];
                let idx = object.index();
                proof {
                    assert forall|q: int| 0 <= q < n implies count_in(
                        zones[zi as int].objects@.subrange(0, oi + 1),
                        q,
                    ) == count_in(zones[zi as int].objects@.subrange(0, oi as int), q) + if q
                        == idx {
                        1nat
                    } else {
                        0nat
                    } by {
                        lemma_count_in_prefix(zones[zi as int].objects@, oi as int, q);
                    }
                }
                if idx >= n {
                    proof {
                        assert(zones[zi as int].objects@[oi as int] == object);
                        assert(self.zones@[zi as int].objects@.contains(object));
                        assert(self.zones@[zi as int].id == zone_id);
                        assert(object.0 >= self.objects.records@.len());
                    }
                    return Err(StateError::InvalidZoneObject { zone: zone_id, object });
                }
                let count = memberships[idx];
                let next: u8 = if count < 255 {
                    count + 1
                } else {
                    255
                };
                memberships.set(idx, next);
                if next > 1 {
                    proof {
                        let slot = idx as int;
                        lemma_count_in_prefix_le(zones[zi as int].objects@, oi + 1, slot);
                        lemma_zone_occurrences_prefix(zones, zi as int, slot);
                        lemma_zone_occurrences_prefix_le(zones, zi + 1, slot);
                        assert(zone_occurrences(zones, slot) >= zone_occurrences(
                            zones.subrange(0, zi as int),
                            slot,
                        ) + count_in(zones[zi as int].objects@.subrange(0, oi + 1), slot));
                    }
                    return Err(StateError::DuplicateZoneMembership(object));
                }
                oi = oi + 1;
            }
            proof {
                assert(zones[zi as int].objects@.subrange(0, oi as int) =~= zones[zi as int].objects@);
                assert forall|q: int| 0 <= q < n implies #[trigger] memberships@[q] == zone_occurrences(
                    zones.subrange(0, zi + 1),
                    q,
                ) by {
                    lemma_zone_occurrences_prefix(zones, zi as int, q);
                }
            }
            zi = zi + 1;
        }
        proof {
            assert(zones.subrange(0, zi as int) =~= zones);
        }
        let mut q: usize = 0;
        while q < n
            invariant
                q <= n,
                zones == self.zones@,
                zi == zones.len(),
                n == self.objects.records@.len(),
                memberships@.len() == n,
                forall|p: int|
                    0 <= p < n ==> #[trigger] memberships@[p] == zone_occurrences(zones, p)
                        && memberships@[p] <= 1,
                forall|p: int| 0 <= p < q ==> #[trigger] zone_occurrences(zones, p) == 1,
            decreases n - q,
        {
            if memberships[q] == 0 {
                return Err(StateError::MissingZoneMembership(self.objects.records[q].id));
            }
            q = q + 1;
        }
        Ok(ZoneConservation { object_count: n })
    }

    /// Returns the redacted state projection visible to one observing player.
    ///
    /// Libraries are hidden from everyone and hands from everyone but their
    /// owner; every other object slot shows its record.
    pub fn player_view(&self, observer: PlayerId) -> (r: Result<PlayerView, StateError>)
        ensures
            observer.0 >= self.players@.len() ==> r == Err::<PlayerView, StateError>(
                StateError::UnknownPlayer(observer),
            ),
            observer.0 < self.players@.len() && zones_conserved(*self) ==> r is Ok,
            r matches Ok(v) ==> {
                &&& v.observer == observer
                &&& v.players@ == self.players@
                &&& v.turn_number == self.turn_number && v.outcome == self.outcome
                &&& v.active_player == self.active_player && v.priority_player == self.priority_player
                &&& v.current_step == self.current_step
                &&& v.zones@.len() == self.zones@.len()
                &&& forall|i: int|
                    0 <= i < v.zones@.len() ==> {
                        &&& (#[trigger] v.zones@[i]).id == self.zones@[i].id
                        &&& v.zones@[i].objects@.len() == self.zones@[i].objects@.len()
                        &&& forall|j: int|
                            0 <= j < v.zones@[i].objects@.len() ==> (
                            #[trigger] v.zones@[i].objects@[j] == if hidden_from(self.zones@[i].id, observer) {
                                ObjectView::Hidden
                            } else {
                                ObjectView::Known {
                                    object: self.objects.records@[self.zones@[i].objects@[j].0 as int],
                                }
                            })
                    }
            },
    {
        match self.require_player(observer) {
            Ok(()) => {},
            Err(e) => return Err(e),
        }
        let ghost conserved = zones_conserved(*self);
        let mut zones: Vec<ZoneView> = Vec::new();
        let mut zi: usize = 0;
        while zi < self.zones.len()
            invariant
                zi <= self.zones@.len(),
                observer.0 < self.players@.len(),
                conserved == zones_conserved(*self),
                zones@.len() == zi,
                forall|i: int|
                    0 <= i < zi ==> {
                        &&& (#[trigger] zones@[i]).id == self.zones@[i].id
                        &&& zones@[i].objects@.len() == self.zones@[i].objects@.len()
                        &&& forall|j: int|
                            0 <= j < zones@[i].objects@.len() ==> (
                            #[trigger] zones@[i].objects@[j] == if hidden_from(self.zones@[i].id, observer) {
                                ObjectView::Hidden
                            } else {
                                ObjectView::Known {
                                    object: self.objects.records@[self.zones@[i].objects@[j].0 as int],
                                }
                            })
                    },
            decreases self.zones@.len() - zi,
        {
            let zone_id = self.zones[zi].id;
            let hidden = match zone_id.kind {
                ZoneKind::Hand => zone_id.owner != Some(observer),
                ZoneKind::Library => true,
                _ => false,
            };
            assert(hidden == hidden_from(zone_id, observer));
            let mut objects: Vec<ObjectView> = Vec::new();
            let mut oi: usize = 0;
            while oi < self.zones[zi].objects.len()
                invariant
                    zi < self.zones@.len(),
                    observer.0 < self.players@.len(),
                    conserved == zones_conserved(*self),
                    zone_id == self.zones@[zi as int].id,
                    hidden == hidden_from(zone_id, observer),
                    oi <= self.zones@[zi as int].objects@.len(),
                    objects@.len() == oi,
                    forall|j: int|
                        0 <= j < oi ==> (#[trigger] objects@[j] == if hidden {
                            ObjectView::Hidden
                        } else {
                            ObjectView::Known {
                                object: self.objects.records@[self.zones@[zi as int].objects@[j].0 as int],
                            }
                        }),
                decreases self.zones@[zi as int].objects@.len() - oi,
            {
                let object = self.zones[zi].objects[oi];
                let record = match self.objects.get(object) {
                    Some(rec) => rec,
                    None => return Err(StateError::InvalidZoneObject { zone: zone_id, object }),
                };
                if hidden {
                    objects.push(ObjectView::Hidden);
                } else {
                    objects.push(ObjectView::Known { object: record });
                }
                oi = oi + 1;
            }
            zones.push(ZoneView { id: zone_id, objects });
            zi = zi + 1;
        }
        Ok(
            PlayerView {
                observer,
                turn_number: self.turn_number,
                outcome: self.outcome,
                starting_player: self.starting_player,
                opening_hands_drawn: self.opening_hands_drawn,
                active_player: self.active_player,
                priority_player: self.priority_player,
                current_step: self.current_step,
                players: copy_players(&self.players),
                zones,
            },
        )
    }
}

/// Returns true when `object` occurs in `objects`.
pub(crate) fn contains_object(objects: &Vec<ObjectId>, object: ObjectId) -> (r: bool)
    ensures
        r == objects@.contains(object),
{
    let mut i: usize = 0;
    while i < objects.len()
        invariant
            i <= objects@.len(),
            forall|j: int| 0 <= j < i ==> objects@[j] != object,
        decreases objects@.len() - i,
    {
        if objects[i] == object {
            return true;
        }
        i = i + 1;
    }
    false
}

/// Returns the first position of `object` in `objects`.
pub(crate) fn position_of_object(objects: &Vec<ObjectId>, object: ObjectId) -> (r: Option<usize>)
    ensures
        r matches Some(p) ==> p < objects@.len() && objects@[p as int] == object && forall|j: int|
            0 <= j < p ==> objects@[j] != object,
        r is None ==> !objects@.contains(object),
{
    let mut i: usize = 0;
    while i < objects.len()
        invariant
            i <= objects@.len(),
            forall|j: int| 0 <= j < i ==> objects@[j] != object,
        decreases objects@.len() - i,
    {
        if objects[i] == object {
            return Some(i);
        }
        i = i + 1;
    }
    None
}

/// Returns true when `player` occurs in `players`.
pub(crate) fn contains_player(players: &Vec<PlayerId>, player: PlayerId) -> (r: bool)
    ensures
        r == players@.contains(player),
{
    let mut i: usize = 0;
    while i < players.len()
        invariant
            i <= players@.len(),
            forall|j: int| 0 <= j < i ==> players@[j] != player,
        decreases players@.len() - i,
    {
        if players[i] == player {
            return true;
        }
        i = i + 1;
    }
    false
}

/// Copies the player scalar states.
fn copy_players(v: &Vec<PlayerState>) -> (r: Vec<PlayerState>)
    ensures
        r@ == v@,
{
    let mut r: Vec<PlayerState> = Vec::new();
    let mut i: usize = 0;
    while i < v.len()
        invariant
            i <= v@.len(),
            r@ == v@.subrange(0, i as int),
        decreases v@.len() - i,
    {
        r.push(v[i]);
        i = i + 1;
        assert(r@ =~= v@.subrange(0, i as int));
    }
    assert(r@ =~= v@);
    r
}

} // verus!
