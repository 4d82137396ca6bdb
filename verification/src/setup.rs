//! Game setup and zone-level card movement: the seeded generator, turn
//! order, opening hands, mulligans, drawing, and moving or shuffling whole
//! zones.

use vstd::prelude::*;

use crate::events::GameEvent;
use crate::ids::{ObjectId, PlayerId};
use crate::plumbing::{
    contains_object, contains_player, count_in, lemma_count_in_concat, lemma_count_in_push,
    lemma_count_in_remove, lemma_zone_pair_keeps_conservation, lemma_zone_permute_keeps_conservation,
    lemma_zone_transfer_keeps_conservation, position_of_object,
    events_bounded, first_zone_holding, zone_id_valid, zone_of, zones_conserved,
};
use crate::state::{GameState, StateError, Zone, same_but_events};
use crate::turn::{OPENING_HAND_SIZE, ZoneId, ZoneKind};

verus! {

/// The generator's state after one step.
pub open spec fn rng_advance(state: u64) -> u64 {
    vstd::wrapping::u64_specs::wrapping_add(state, 0x9e37_79b9_7f4a_7c15u64)
}

/// The generator's output once its state has advanced to `state`: the
/// SplitMix64 finishing steps.
pub open spec fn rng_output(state: u64) -> u64 {
    let a = vstd::wrapping::u64_specs::wrapping_mul(state ^ (state >> 30u64), 0xbf58_476d_1ce4_e5b9u64);
    let b = vstd::wrapping::u64_specs::wrapping_mul(a ^ (a >> 27u64), 0x94d0_49bb_1331_11ebu64);
    b ^ (b >> 31u64)
}

/// A value below `upper` drawn from the generator output `value`: the high
/// half of their product.
pub open spec fn scaled_below(value: u64, upper: int) -> int {
    (value as int * upper) / 0x1_0000_0000_0000_0000int
}

/// `b` differs from `a` at most in its zones, its event ring and the
/// trigger tables events feed.
pub open spec fn same_but_zones(a: GameState, b: GameState) -> bool {
    same_but_events(a, GameState { zones: a.zones, ..b })
}

/// Some zone of `zones` has ID `id`.
pub open spec fn has_zone(zones: Seq<Zone>, id: ZoneId) -> bool {
    exists|j: int| 0 <= j < zones.len() && #[trigger] zones[j].id == id
}

/// The player in seat `p` has a library and a hand among `zones`.
pub open spec fn has_library_and_hand(zones: Seq<Zone>, p: int) -> bool {
    &&& has_zone(zones, ZoneId { owner: Some(PlayerId(p as u32)), kind: ZoneKind::Library })
    &&& has_zone(zones, ZoneId { owner: Some(PlayerId(p as u32)), kind: ZoneKind::Hand })
}

/// The ID of seat `p`'s zone of `kind`.
pub open spec fn seat_zone(p: int, kind: ZoneKind) -> ZoneId {
    ZoneId { owner: Some(PlayerId(p as u32)), kind }
}

/// Between `before` and `after`, the library at `li` lost its top cards, up
/// to the opening hand size, and the hand at `hi` gained them, top card first.
pub open spec fn opening_draw_at(before: Seq<Zone>, after: Seq<Zone>, li: int, hi: int) -> bool {
    let library = before[li].objects@;
    let d = if OPENING_HAND_SIZE <= library.len() {
        OPENING_HAND_SIZE as int
    } else {
        library.len() as int
    };
    &&& after[li].objects@ == library.take(library.len() - d)
    &&& after[hi].objects@ == before[hi].objects@ + drawn_cards(library, d)
}

/// Seat `p` drew its opening hand from the top of its library.
pub open spec fn drew_opening_hand(before: Seq<Zone>, after: Seq<Zone>, p: int) -> bool {
    forall|li: int, hi: int|
        #![trigger zone_at(before, seat_zone(p, ZoneKind::Library), li), zone_at(before, seat_zone(p, ZoneKind::Hand), hi)]
        zone_at(before, seat_zone(p, ZoneKind::Library), li) && zone_at(before, seat_zone(p, ZoneKind::Hand), hi)
            ==> opening_draw_at(before, after, li, hi)
}

/// No zone owned by seat `p` changed between `before` and `after`.
pub open spec fn seat_zones_untouched(before: Seq<Zone>, after: Seq<Zone>, p: int) -> bool {
    forall|j: int|
        0 <= j < before.len() && before[j].id.owner == Some(PlayerId(p as u32)) ==> #[trigger] after[j]
            == before[j]
}

/// Each of the first `n` players has a library and a hand.
pub open spec fn player_zones_present(zones: Seq<Zone>, n: int) -> bool {
    forall|p: int| 0 <= p < n ==> #[trigger] has_library_and_hand(zones, p)
}

/// The first zone with ID `id` is at `i`.
pub open spec fn zone_at(zones: Seq<Zone>, id: ZoneId, i: int) -> bool {
    &&& 0 <= i < zones.len()
    &&& zones[i].id == id
    &&& forall|j: int| 0 <= j < i ==> #[trigger] zones[j].id != id
}

impl GameState {
    /// Advances the seeded generator and returns its next output.
    pub(crate) fn next_random_u64(&mut self) -> (r: u64)
        ensures
            final(self).rng_state == rng_advance(old(self).rng_state),
            *final(self) == (GameState { rng_state: final(self).rng_state, ..*old(self) }),
            r == rng_output(rng_advance(old(self).rng_state)),
    {
        self.rng_state = self.rng_state.wrapping_add(0x9e37_79b9_7f4a_7c15);
        let mut value = self.rng_state;
        value = (value ^ (value >> 30u64)).wrapping_mul(0xbf58_476d_1ce4_e5b9);
        value = (value ^ (value >> 27u64)).wrapping_mul(0x94d0_49bb_1331_11eb);
        value ^ (value >> 31u64)
    }

    /// A generator-drawn value below `upper`.
    pub(crate) fn random_below(&mut self, upper: usize) -> (r: usize)
        requires
            upper > 0,
        ensures
            r < upper,
            r == scaled_below(rng_output(rng_advance(old(self).rng_state)), upper as int),
            final(self).rng_state == rng_advance(old(self).rng_state),
            *final(self) == (GameState { rng_state: final(self).rng_state, ..*old(self) }),
    {
        let random = self.next_random_u64();
        let wide_random = random as u128;
        let wide_upper = upper as u128;
        proof {
            assert(wide_random <= 0xffff_ffff_ffff_ffffu128);
            assert(wide_upper <= 0xffff_ffff_ffff_ffffu128);
            assert(wide_random * wide_upper <= 0xffff_ffff_ffff_ffffu128 * 0xffff_ffff_ffff_ffffu128)
                by (nonlinear_arith)
                requires
                    wide_random <= 0xffff_ffff_ffff_ffffu128,
                    wide_upper <= 0xffff_ffff_ffff_ffffu128,
            ;
        }
        let product: u128 = wide_random * wide_upper;
        let scaled: u128 = product >> 64u128;
        proof {
            assert(product >> 64u128 == product / 0x1_0000_0000_0000_0000u128) by (bit_vector);
            assert(product / 0x1_0000_0000_0000_0000u128 < wide_upper) by (nonlinear_arith)
                requires
                    product == wide_random * wide_upper,
                    wide_random <= 0xffff_ffff_ffff_ffffu128,
                    wide_upper > 0,
            ;
        }
        scaled as usize
    }

    /// Moves the top object of `from` onto `to`; `None` when `from` is empty.
    pub(crate) fn move_last_between_zones(&mut self, from: ZoneId, to: ZoneId) -> (r: Result<
        Option<ObjectId>,
        StateError,
    >)
        requires
            from != to,
        ensures
            r is Err ==> *final(self) == *old(self),
            r is Ok ==> same_but_zones(*old(self), *final(self)),
            r is Ok ==> final(self).zones@.len() == old(self).zones@.len(),
            zones_conserved(*old(self)) ==> zones_conserved(*final(self)),
            events_bounded(*old(self)) ==> events_bounded(*final(self)),
            r is Ok ==> zone_id_valid(from, old(self).players@.len() as int) && zone_id_valid(
                to,
                old(self).players@.len() as int,
            ),
            r matches Ok(None) ==> final(self).zones@ == old(self).zones@,
            r matches Ok(Some(object)) ==> exists|fi: int, ti: int|
                zone_at(old(self).zones@, from, fi) && zone_at(old(self).zones@, to, ti) && {
                    &&& old(self).zones@[fi].objects@.len() > 0
                    &&& object == old(self).zones@[fi].objects@.last()
                    &&& fi != ti
                    &&& final(self).zones@[fi].objects@ == old(self).zones@[fi].objects@.drop_last()
                    &&& final(self).zones@[ti].objects@ == old(self).zones@[ti].objects@.push(object)
                    &&& forall|j: int|
                        0 <= j < old(self).zones@.len() && j != fi && j != ti ==> #[trigger] final(self).zones@[j] == old(self).zones@[j]
                    &&& final(self).zones@[fi].id == from && final(self).zones@[ti].id == to
                },
            r matches Ok(None) ==> exists|fi: int|
                zone_at(old(self).zones@, from, fi) && #[trigger] old(self).zones@[fi].objects@.len() == 0,
            r is Ok <==> zone_id_valid(from, old(self).players@.len() as int) && zone_id_valid(
                to,
                old(self).players@.len() as int,
            ) && (exists|j: int| 0 <= j < old(self).zones@.len() && #[trigger] old(self).zones@[j].id == from)
                && (exists|j: int| 0 <= j < old(self).zones@.len() && #[trigger] old(self).zones@[j].id == to),
    {
        match self.require_zone(from) {
            Ok(()) => {},
            Err(e) => return Err(e),
        }
        match self.require_zone(to) {
            Ok(()) => {},
            Err(e) => return Err(e),
        }
        let fi = match self.zone_index(from) {
            Some(i) => i,
            None => return Err(StateError::UnknownZone(from)),
        };
        let ti = match self.zone_index(to) {
            Some(i) => i,
            None => return Err(StateError::UnknownZone(to)),
        };
        assert(zone_at(self.zones@, from, fi as int));
        assert(zone_at(self.zones@, to, ti as int));
        if self.zones[fi].objects.len() == 0 {
            return Ok(None);
        }
        let ghost start = *self;
        let object = match self.zones[fi].objects.pop() {
            Some(o) => o,
            None => return Err(StateError::UnknownZone(from)),
        };
        self.zones[ti].objects.push(object);
        proof {
            let last = start.zones@[fi as int].objects@.len() - 1;
            assert(start.zones@[fi as int].objects@.remove(last) =~= self.zones@[fi as int].objects@);
            if zones_conserved(start) {
                lemma_zone_transfer_keeps_conservation(start, *self, fi as int, ti as int, last);
            }
        }
        self.emit_event(GameEvent::ObjectMoved { object, from, to });
        Ok(Some(object))
    }

    /// Moves every object of `from` onto `to`, top first.
    pub(crate) fn move_all_between_zones(&mut self, from: ZoneId, to: ZoneId) -> (r: Result<
        (),
        StateError,
    >)
        requires
            from != to,
        ensures
            r is Ok ==> same_but_zones(*old(self), *final(self)),
            r is Ok ==> final(self).zones@.len() == old(self).zones@.len(),
            zones_conserved(*old(self)) ==> zones_conserved(*final(self)),
            events_bounded(*old(self)) ==> events_bounded(*final(self)),
            r is Ok <==> zone_id_valid(from, old(self).players@.len() as int) && zone_id_valid(
                to,
                old(self).players@.len() as int,
            ) && (exists|j: int| 0 <= j < old(self).zones@.len() && #[trigger] old(self).zones@[j].id == from)
                && (exists|j: int| 0 <= j < old(self).zones@.len() && #[trigger] old(self).zones@[j].id == to),
            r is Ok ==> exists|fi: int, ti: int|
                zone_at(old(self).zones@, from, fi) && zone_at(old(self).zones@, to, ti) && {
                    &&& final(self).zones@[fi].objects@.len() == 0
                    &&& final(self).zones@[ti].objects@ == old(self).zones@[ti].objects@
                        + old(self).zones@[fi].objects@.reverse()
                    &&& final(self).zones@[fi].id == from && final(self).zones@[ti].id == to
                    &&& forall|j: int|
                        0 <= j < old(self).zones@.len() && j != fi && j != ti
                            ==> #[trigger] final(self).zones@[j] == old(self).zones@[j]
                },
    {
        let ghost start = *self;
        let ghost valid = zone_id_valid(from, start.players@.len() as int) && zone_id_valid(
            to,
            start.players@.len() as int,
        ) && (exists|j: int| 0 <= j < start.zones@.len() && #[trigger] start.zones@[j].id == from)
            && (exists|j: int| 0 <= j < start.zones@.len() && #[trigger] start.zones@[j].id == to);
        let ghost fi: int = choose|i: int| zone_at(start.zones@, from, i);
        let ghost ti: int = choose|i: int| zone_at(start.zones@, to, i);
        proof {
            if valid {
                lemma_first_zone_exists(start.zones@, from);
                lemma_first_zone_exists(start.zones@, to);
            }
        }
        let ghost n: int = if valid {
            start.zones@[fi].objects@.len() as int
        } else {
            0
        };
        let ghost mut k: int = 0;
        let mut done = false;
        assert(valid ==> start.zones@[fi].objects@.take(n) =~= start.zones@[fi].objects@);
        assert(valid ==> start.zones@[fi].objects@.skip(n).reverse() =~= Seq::<ObjectId>::empty());
        assert(valid ==> start.zones@[ti].objects@ + Seq::<ObjectId>::empty() =~= start.zones@[ti].objects@);
        while !done
            invariant
                start == *old(self),
                from != to,
                same_but_zones(start, *self),
                self.zones@.len() == start.zones@.len(),
                zones_conserved(start) ==> zones_conserved(*self),
                events_bounded(start) ==> events_bounded(*self),
                forall|j: int| 0 <= j < self.zones@.len() ==> #[trigger] self.zones@[j].id == start.zones@[j].id,
                valid == (zone_id_valid(from, start.players@.len() as int) && zone_id_valid(
                    to,
                    start.players@.len() as int,
                ) && (exists|j: int| 0 <= j < start.zones@.len() && #[trigger] start.zones@[j].id == from)
                    && (exists|j: int| 0 <= j < start.zones@.len() && #[trigger] start.zones@[j].id == to)),
                valid ==> zone_at(start.zones@, from, fi) && zone_at(start.zones@, to, ti) && fi != ti,
                valid ==> n == start.zones@[fi].objects@.len() && 0 <= k <= n,
                valid ==> self.zones@[fi].objects@ == start.zones@[fi].objects@.take(n - k),
                valid ==> self.zones@[ti].objects@ == start.zones@[ti].objects@ + start.zones@[fi].objects@.skip(
                    n - k,
                ).reverse(),
                valid ==> forall|j: int|
                    0 <= j < start.zones@.len() && j != fi && j != ti ==> #[trigger] self.zones@[j]
                        == start.zones@[j],
                done ==> valid && k == n,
            decreases first_zone_len(self.zones@, from) + (if done {
                0int
            } else {
                1int
            }),
        {
            let ghost before = self.zones@;
            proof {
                if valid {
                    lemma_zone_at_same_ids(start.zones@, before, from, fi);
                    lemma_zone_at_same_ids(start.zones@, before, to, ti);
                }
                if exists|j: int| 0 <= j < before.len() && #[trigger] before[j].id == from {
                    let w = choose|j: int| 0 <= j < before.len() && #[trigger] before[j].id == from;
                    assert(start.zones@[w].id == from);
                }
                if exists|j: int| 0 <= j < before.len() && #[trigger] before[j].id == to {
                    let w = choose|j: int| 0 <= j < before.len() && #[trigger] before[j].id == to;
                    assert(start.zones@[w].id == to);
                }
                if valid {
                    assert(before[fi].id == from && before[ti].id == to);
                }
            }
            match self.move_last_between_zones(from, to) {
                Ok(Some(_)) => {
                    proof {
                        let (a, b) = choose|a: int, b: int|
                            zone_at(before, from, a) && zone_at(before, to, b) && {
                                &&& before[a].objects@.len() > 0
                                &&& a != b
                                &&& self.zones@[a].objects@ == before[a].objects@.drop_last()
                                &&& self.zones@[b].objects@ == before[b].objects@.push(before[a].objects@.last())
                                &&& forall|j: int|
                                    0 <= j < before.len() && j != a && j != b ==> #[trigger] self.zones@[j] == before[j]
                                &&& self.zones@[a].id == from && self.zones@[b].id == to
                            };
                        lemma_zone_at_unique(before, from, a, fi);
                        lemma_zone_at_unique(before, to, b, ti);
                        assert forall|j: int| 0 <= j < self.zones@.len() implies #[trigger] self.zones@[j].id
                            == start.zones@[j].id by {
                            if j != a && j != b {
                                assert(self.zones@[j] == before[j]);
                            }
                        }
                        assert(zone_at(self.zones@, from, fi)) by {
                            assert forall|j: int| 0 <= j < fi implies #[trigger] self.zones@[j].id != from by {
                                assert(self.zones@[j].id == start.zones@[j].id);
                            }
                        }
                        lemma_first_zone_len(before, from, fi);
                        lemma_first_zone_len(self.zones@, from, fi);
                        let orig = start.zones@[fi].objects@;
                        assert(k < n);
                        assert(orig.take(n - k).drop_last() =~= orig.take(n - k - 1));
                        assert(orig.take(n - k).last() == orig[n - k - 1]);
                        assert(orig.skip(n - k - 1).reverse() =~= orig.skip(n - k).reverse().push(orig[n - k - 1]));
                        assert(start.zones@[ti].objects@ + orig.skip(n - k - 1).reverse() =~= (
                        start.zones@[ti].objects@ + orig.skip(n - k).reverse()).push(orig[n - k - 1]));
                        k = k + 1;
                    }
                },
                Ok(None) => {
                    proof {
                        let a = choose|a: int|
                            zone_at(before, from, a) && #[trigger] before[a].objects@.len() == 0;
                        lemma_zone_at_unique(before, from, a, fi);
                        assert(start.zones@[fi].objects@.take(n - k).len() == 0);
                    }
                    done = true;
                },
                Err(e) => return Err(e),
            }
        }
        proof {
            let orig = start.zones@[fi].objects@;
            assert(orig.skip(0) =~= orig);
        }
        Ok(())
    }
}

/// The first zone with an ID, when some zone has it, exists.
proof fn lemma_first_zone_exists(zones: Seq<Zone>, id: ZoneId)
    requires
        exists|j: int| 0 <= j < zones.len() && #[trigger] zones[j].id == id,
    ensures
        exists|i: int| zone_at(zones, id, i),
{
    let w = choose|j: int| 0 <= j < zones.len() && #[trigger] zones[j].id == id;
    lemma_first_zone_at_or_before(zones, id, w);
}

/// Some zone at or before `w`, which has the ID, is the first with it.
proof fn lemma_first_zone_at_or_before(zones: Seq<Zone>, id: ZoneId, w: int)
    requires
        0 <= w < zones.len(),
        zones[w].id == id,
    ensures
        exists|i: int| zone_at(zones, id, i),
    decreases w,
{
    if exists|j: int| 0 <= j < w && #[trigger] zones[j].id == id {
        let v = choose|j: int| 0 <= j < w && #[trigger] zones[j].id == id;
        lemma_first_zone_at_or_before(zones, id, v);
    } else {
        assert(zone_at(zones, id, w));
    }
}

/// The first zone with an ID stays first while every zone keeps its ID.
proof fn lemma_zone_at_same_ids(a: Seq<Zone>, b: Seq<Zone>, id: ZoneId, i: int)
    requires
        zone_at(a, id, i),
        a.len() == b.len(),
        forall|j: int| 0 <= j < b.len() ==> #[trigger] b[j].id == a[j].id,
    ensures
        zone_at(b, id, i),
{
    assert forall|j: int| 0 <= j < i implies #[trigger] b[j].id != id by {
        assert(b[j].id == a[j].id);
    }
}

/// Objects in the first zone with ID `id`; zero when there is none.
pub open spec fn first_zone_len(zones: Seq<Zone>, id: ZoneId) -> int {
    if exists|i: int| zone_at(zones, id, i) {
        zones[choose|i: int| zone_at(zones, id, i)].objects@.len() as int
    } else {
        0
    }
}

/// The first zone with an ID is unique, so its length is read there.
pub proof fn lemma_first_zone_len(zones: Seq<Zone>, id: ZoneId, i: int)
    requires
        zone_at(zones, id, i),
    ensures
        first_zone_len(zones, id) == zones[i].objects@.len(),
{
    let k = choose|k: int| zone_at(zones, id, k);
    if k < i {
        assert(zones[k].id != id);
    } else if k > i {
        assert(zones[i].id != id);
    }
}

/// The cards drawn by `d` draws from a library: its top card first.
pub open spec fn drawn_cards(library: Seq<ObjectId>, d: int) -> Seq<ObjectId> {
    Seq::new(d as nat, |k: int| library[library.len() - 1 - k])
}

/// The first zone with an ID is unique.
pub proof fn lemma_zone_at_unique(zones: Seq<Zone>, id: ZoneId, i: int, j: int)
    requires
        zone_at(zones, id, i),
        zone_at(zones, id, j),
    ensures
        i == j,
{
    if i < j {
        assert(zones[i].id != id);
    } else if j < i {
        assert(zones[j].id != id);
    }
}

/// Exchanging two entries keeps the same multiset of entries.
pub proof fn lemma_swap_multiset(s: Seq<ObjectId>, i: int, j: int)
    requires
        0 <= i < s.len(),
        0 <= j < s.len(),
    ensures
        s.update(i, s[j]).update(j, s[i]).to_multiset() == s.to_multiset(),
{
    broadcast use vstd::seq_lib::to_multiset_update, vstd::multiset::group_multiset_properties,
        vstd::multiset::group_multiset_axioms;
    let s1 = s.update(i, s[j]);
    s.to_multiset_ensures();
    assert(s.contains(s[i]));
    assert(s.to_multiset().count(s[i]) > 0);
    assert(s1.to_multiset() == s.to_multiset().insert(s[j]).remove(s[i]));
    assert(s1.update(j, s[i]).to_multiset() == s1.to_multiset().insert(s[i]).remove(s1[j]));
    if i == j {
        assert(s1 =~= s);
        assert(s1.update(j, s[i]) =~= s);
    } else {
        assert(s1[j] == s[j]);
        let m = s.to_multiset();
        assert(m.insert(s[j]).remove(s[i]).insert(s[i]) =~= m.insert(s[j]));
        assert(m.insert(s[j]).remove(s[j]) =~= m);
    }
}

impl GameState {
    /// Shuffles one zone with the seeded generator (Fisher-Yates from the top).
    pub(crate) fn shuffle_zone(&mut self, zone: ZoneId) -> (r: Result<(), StateError>)
        ensures
            r is Err ==> *final(self) == *old(self),
            r is Ok ==> same_but_events(
                *old(self),
                (GameState { zones: old(self).zones, rng_state: old(self).rng_state, ..*final(self) }),
            ),
            r is Ok ==> exists|i: int|
                zone_at(old(self).zones@, zone, i) && #[trigger] final(self).zones@[i].objects@.to_multiset()
                    == old(self).zones@[i].objects@.to_multiset() && final(self).zones@[i].id == zone
                    && forall|j: int|
                    0 <= j < old(self).zones@.len() && j != i ==> #[trigger] final(self).zones@[j]
                        == old(self).zones@[j],
            r is Ok ==> final(self).zones@.len() == old(self).zones@.len(),
            zones_conserved(*old(self)) ==> zones_conserved(*final(self)),
            events_bounded(*old(self)) ==> events_bounded(*final(self)),
            r is Ok <==> zone_id_valid(zone, old(self).players@.len() as int) && exists|j: int|
                0 <= j < old(self).zones@.len() && #[trigger] old(self).zones@[j].id == zone,
    {
        match self.require_zone(zone) {
            Ok(()) => {},
            Err(e) => return Err(e),
        }
        let zi = match self.zone_index(zone) {
            Some(i) => i,
            None => return Err(StateError::UnknownZone(zone)),
        };
        let ghost start = *self;
        let len = self.zones[zi].objects.len();
        let mut index: usize = len;
        while index > 1
            invariant
                zi < self.zones@.len(),
                index <= len,
                len == self.zones@[zi as int].objects@.len(),
                self.zones@.len() == start.zones@.len(),
                self.zones@[zi as int].id == zone,
                self.zones@[zi as int].objects@.to_multiset() == start.zones@[zi as int].objects@.to_multiset(),
                forall|j: int| 0 <= j < start.zones@.len() && j != zi ==> #[trigger] self.zones@[j] == start.zones@[j],
                *self == (GameState { zones: self.zones, rng_state: self.rng_state, ..start }),
            decreases index,
        {
            let top = index - 1;
            let swap_with = self.random_below(index);
            let a = self.zones[zi].objects[top];
            let b = self.zones[zi].objects[swap_with];
            let ghost before = self.zones@[zi as int].objects@;
            self.zones[zi].objects.set(top, b);
            self.zones[zi].objects.set(swap_with, a);
            proof {
                lemma_swap_multiset(before, top as int, swap_with as int);
                assert(self.zones@[zi as int].objects@ == before.update(top as int, before[swap_with as int]).update(
                    swap_with as int,
                    before[top as int],
                ));
            }
            index = index - 1;
        }
        proof {
            if zones_conserved(start) {
                lemma_zone_permute_keeps_conservation(start, *self, zi as int);
            }
        }
        self.emit_event(GameEvent::ZoneShuffled { zone });
        assert(zone_at(start.zones@, zone, zi as int));
        Ok(())
    }

    /// Draws `count` cards for `player`, one at a time from the top of the
    /// library; each draw from an empty library is recorded for the next
    /// state-based-action check.
    pub(crate) fn draw_cards(&mut self, player: PlayerId, count: u32) -> (r: Result<(), StateError>)
        ensures
            player.0 >= old(self).players@.len() ==> r == Err::<(), StateError>(
                StateError::UnknownPlayer(player),
            ),
            r is Ok ==> same_but_events(
                *old(self),
                (GameState {
                    zones: old(self).zones,
                    empty_library_draws_since_sba: old(self).empty_library_draws_since_sba,
                    ..*final(self)
                }),
            ),
            r is Ok ==> final(self).zones@.len() == old(self).zones@.len(),
            r is Ok ==> forall|j: int|
                0 <= j < old(self).zones@.len() ==> #[trigger] final(self).zones@[j].id == old(
                    self,
                ).zones@[j].id,
            player.0 < old(self).players@.len() && has_zone(
                old(self).zones@,
                ZoneId { owner: Some(player), kind: ZoneKind::Library },
            ) && has_zone(old(self).zones@, ZoneId { owner: Some(player), kind: ZoneKind::Hand })
                ==> r is Ok,
            zones_conserved(*old(self)) ==> zones_conserved(*final(self)),
            events_bounded(*old(self)) ==> events_bounded(*final(self)),
            r is Ok ==> exists|li: int, hi: int|
                zone_at(old(self).zones@, ZoneId { owner: Some(player), kind: ZoneKind::Library }, li)
                    && zone_at(old(self).zones@, ZoneId { owner: Some(player), kind: ZoneKind::Hand }, hi)
                    && {
                    let library = old(self).zones@[li].objects@;
                    let d = if count <= library.len() {
                        count as int
                    } else {
                        library.len() as int
                    };
                    &&& final(self).zones@[li].objects@ == library.take(library.len() - d)
                    &&& final(self).zones@[hi].objects@ == old(self).zones@[hi].objects@ + drawn_cards(
                        library,
                        d,
                    )
                    &&& forall|j: int|
                        0 <= j < old(self).zones@.len() && j != li && j != hi ==> #[trigger] final(self).zones@[j]
                            == old(self).zones@[j]
                },
            r is Ok && (forall|li: int|
                zone_at(old(self).zones@, ZoneId { owner: Some(player), kind: ZoneKind::Library }, li)
                    ==> old(self).zones@[li].objects@.len() >= count)
                ==> final(self).empty_library_draws_since_sba@ == old(self).empty_library_draws_since_sba@,
    {
        match self.require_player(player) {
            Ok(()) => {},
            Err(e) => return Err(e),
        }
        let library = ZoneId::new(Some(player), ZoneKind::Library);
        let hand = ZoneId::new(Some(player), ZoneKind::Hand);
        let li = match self.zone_index(library) {
            Some(i) => i,
            None => return Err(StateError::UnknownZone(library)),
        };
        let hi = match self.zone_index(hand) {
            Some(i) => i,
            None => return Err(StateError::UnknownZone(hand)),
        };
        assert(zone_at(self.zones@, library, li as int));
        assert(zone_at(self.zones@, hand, hi as int));
        let ghost start = *self;
        let ghost lib0 = self.zones@[li as int].objects@;
        let ghost hand0 = self.zones@[hi as int].objects@;
        let mut k: u32 = 0;
        while k < count
            invariant
                k <= count,
                start == *old(self),
                player.0 < start.players@.len(),
                library == (ZoneId { owner: Some(player), kind: ZoneKind::Library }),
                hand == (ZoneId { owner: Some(player), kind: ZoneKind::Hand }),
                zone_at(self.zones@, library, li as int),
                zone_at(self.zones@, hand, hi as int),
                li != hi,
                self.zones@.len() == start.zones@.len(),
                forall|j: int| 0 <= j < start.zones@.len() ==> #[trigger] self.zones@[j].id == start.zones@[j].id,
                forall|j: int|
                    0 <= j < start.zones@.len() && j != li && j != hi ==> #[trigger] self.zones@[j]
                        == start.zones@[j],
                lib0 == start.zones@[li as int].objects@,
                hand0 == start.zones@[hi as int].objects@,
                zones_conserved(start) ==> zones_conserved(*self),
                events_bounded(start) ==> events_bounded(*self),
                ({
                    let d = if k <= lib0.len() {
                        k as int
                    } else {
                        lib0.len() as int
                    };
                    &&& self.zones@[li as int].objects@ == lib0.take(lib0.len() - d)
                    &&& self.zones@[hi as int].objects@ == hand0 + drawn_cards(lib0, d)
                }),
                same_but_events(
                    start,
                    (GameState {
                        zones: start.zones,
                        empty_library_draws_since_sba: start.empty_library_draws_since_sba,
                        ..*self
                    }),
                ),
                k <= lib0.len() ==> self.empty_library_draws_since_sba@ == start.empty_library_draws_since_sba@,
            decreases count - k,
        {
            let ghost before = self.zones@;
            match self.move_last_between_zones(library, hand) {
                Ok(Some(object)) => {
                    proof {
                        let (fi, ti) = choose|fi: int, ti: int|
                            zone_at(before, library, fi) && zone_at(before, hand, ti) && {
                                &&& before[fi].objects@.len() > 0
                                &&& object == before[fi].objects@.last()
                                &&& fi != ti
                                &&& self.zones@[fi].objects@ == before[fi].objects@.drop_last()
                                &&& self.zones@[ti].objects@ == before[ti].objects@.push(object)
                                &&& forall|j: int|
                                    0 <= j < before.len() && j != fi && j != ti ==> #[trigger] self.zones@[j] == before[j]
                                &&& self.zones@[fi].id == library && self.zones@[ti].id == hand
                            };
                        lemma_zone_at_unique(before, library, fi, li as int);
                        lemma_zone_at_unique(before, hand, ti, hi as int);
                        let d = if k <= lib0.len() {
                            k as int
                        } else {
                            lib0.len() as int
                        };
                        assert(d < lib0.len());
                        assert(k < lib0.len());
                        assert(self.zones@[li as int].objects@ =~= lib0.take(lib0.len() - (d + 1)));
                        assert(drawn_cards(lib0, d + 1) =~= drawn_cards(lib0, d).push(object));
                        assert(self.zones@[hi as int].objects@ =~= hand0 + drawn_cards(lib0, d + 1));
                        assert forall|j: int| 0 <= j < li implies #[trigger] self.zones@[j].id != library by {
                            if j != ti {
                                assert(self.zones@[j] == before[j]);
                            }
                        }
                        assert forall|j: int| 0 <= j < hi implies #[trigger] self.zones@[j].id != hand by {
                            if j != fi {
                                assert(self.zones@[j] == before[j]);
                            }
                        }
                    }
                },
                Ok(None) => {
                    proof {
                        let fi = choose|fi: int|
                            zone_at(before, library, fi) && #[trigger] before[fi].objects@.len() == 0;
                        lemma_zone_at_unique(before, library, fi, li as int);
                    }
                    self.emit_event(GameEvent::EmptyLibraryDraw { player });
                    if !contains_player(&self.empty_library_draws_since_sba, player) {
                        self.empty_library_draws_since_sba.push(player);
                    }
                },
                Err(e) => return Err(e),
            }
            k = k + 1;
        }
        Ok(())
    }

    /// Draws one card for the active player.
    pub(crate) fn draw_turn_card(&mut self) -> (r: Result<(), StateError>)
        ensures
            zones_conserved(*old(self)) ==> zones_conserved(*final(self)),
            events_bounded(*old(self)) ==> events_bounded(*final(self)),
            old(self).active_player is None ==> r == Err::<(), StateError>(StateError::TurnNotStarted),
            r is Ok ==> same_but_events(
                *old(self),
                (GameState {
                    zones: old(self).zones,
                    empty_library_draws_since_sba: old(self).empty_library_draws_since_sba,
                    ..*final(self)
                }),
            ),
            r is Ok ==> crate::turns::drew_turn_card(
                old(self).zones@,
                final(self).zones@,
                old(self).active_player->0,
            ) && final(self).zones@.len() == old(self).zones@.len(),
            r is Ok ==> forall|j: int|
                0 <= j < old(self).zones@.len() ==> #[trigger] final(self).zones@[j].id == old(self).zones@[j].id,
            r is Ok ==> forall|j: int|
                0 <= j < old(self).zones@.len() && old(self).zones@[j].id.kind != ZoneKind::Library
                    && old(self).zones@[j].id.kind != ZoneKind::Hand ==> #[trigger] final(self).zones@[j]
                    == old(self).zones@[j],
            old(self).active_player matches Some(a) && a.0 < old(self).players@.len() && has_zone(
                old(self).zones@,
                ZoneId { owner: Some(a), kind: ZoneKind::Library },
            ) && has_zone(old(self).zones@, ZoneId { owner: Some(a), kind: ZoneKind::Hand }) ==> r is Ok,
            r is Ok && (forall|li: int|
                zone_at(
                    old(self).zones@,
                    ZoneId { owner: Some(old(self).active_player->0), kind: ZoneKind::Library },
                    li,
                ) ==> old(self).zones@[li].objects@.len() > 0) ==> final(self).empty_library_draws_since_sba@
                == old(self).empty_library_draws_since_sba@,
    {
        let active = match self.active_player {
            Some(a) => a,
            None => return Err(StateError::TurnNotStarted),
        };
        let ghost z0 = self.zones@;
        let r = self.draw_cards(active, 1);
        proof {
            if r is Ok {
                let library = ZoneId { owner: Some(active), kind: ZoneKind::Library };
                let hand = ZoneId { owner: Some(active), kind: ZoneKind::Hand };
                let (li, hi) = choose|li: int, hi: int|
                    zone_at(z0, library, li) && zone_at(z0, hand, hi) && {
                        let lib = z0[li].objects@;
                        let d = if 1 <= lib.len() {
                            1int
                        } else {
                            lib.len() as int
                        };
                        &&& self.zones@[li].objects@ == lib.take(lib.len() - d)
                        &&& self.zones@[hi].objects@ == z0[hi].objects@ + drawn_cards(lib, d)
                        &&& forall|j: int|
                            0 <= j < z0.len() && j != li && j != hi ==> #[trigger] self.zones@[j] == z0[j]
                    };
                let lib = z0[li].objects@;
                if lib.len() > 0 {
                    assert(lib.take(lib.len() - 1) =~= lib.drop_last());
                    assert(z0[hi].objects@ + drawn_cards(lib, 1) =~= z0[hi].objects@.push(lib.last()));
                } else {
                    assert(lib.take(0) =~= lib);
                    assert(z0[hi].objects@ + drawn_cards(lib, 0) =~= z0[hi].objects@);
                }
                assert forall|li2: int, hi2: int|
                    zone_at(z0, library, li2) && zone_at(z0, hand, hi2) implies {
                        let lib2 = z0[li2].objects@;
                        if lib2.len() > 0 {
                            &&& self.zones@[li2].objects@ == lib2.drop_last()
                            &&& self.zones@[hi2].objects@ == z0[hi2].objects@.push(lib2.last())
                        } else {
                            &&& self.zones@[li2].objects@ == lib2
                            &&& self.zones@[hi2].objects@ == z0[hi2].objects@
                        }
                    } by {
                    lemma_zone_at_unique(z0, library, li, li2);
                    lemma_zone_at_unique(z0, hand, hi, hi2);
                }
                assert forall|j: int|
                    0 <= j < z0.len() && z0[j].id.kind != ZoneKind::Library && z0[j].id.kind
                        != ZoneKind::Hand implies #[trigger] self.zones@[j] == z0[j] by {
                    assert(z0[li].id == library && z0[hi].id == hand);
                }
            }
        }
        r
    }

    /// Chooses the starting player with the seeded generator.
    pub fn decide_turn_order(&mut self) -> (r: Result<PlayerId, StateError>)
        ensures
            zones_conserved(*old(self)) ==> zones_conserved(*final(self)),
            events_bounded(*old(self)) ==> events_bounded(*final(self)),
            old(self).players@.len() == 0 ==> r == Err::<PlayerId, StateError>(StateError::NoPlayers),
            old(self).players@.len() > 0 && old(self).starting_player is Some ==> r == Err::<
                PlayerId,
                StateError,
            >(StateError::TurnOrderAlreadyDecided),
            old(self).players@.len() > 0 && old(self).players@.len() <= u32::MAX + 1
                && old(self).starting_player is None ==> r is Ok,
            r matches Ok(p) ==> p.0 < old(self).players@.len() && final(self).starting_player == Some(p)
                && final(self).rng_state == rng_advance(old(self).rng_state),
            r matches Ok(p) ==> p.0 == scaled_below(
                rng_output(rng_advance(old(self).rng_state)),
                old(self).players@.len() as int,
            ),
    {
        if self.players.len() == 0 {
            return Err(StateError::NoPlayers);
        }
        if self.starting_player.is_some() {
            return Err(StateError::TurnOrderAlreadyDecided);
        }
        let n = self.players.len();
        let index = self.random_below(n);
        if index > u32::MAX as usize {
            return Err(StateError::NoPlayers);
        }
        let player = PlayerId(index as u32);
        self.starting_player = Some(player);
        self.emit_event(GameEvent::TurnOrderDecided { starting_player: player });
        Ok(player)
    }
}

impl GameState {
    /// Draws the opening hand of every player, starting player first.
    pub fn draw_opening_hands(&mut self) -> (r: Result<(), StateError>)
        ensures
            old(self).opening_hands_drawn ==> r == Err::<(), StateError>(
                StateError::OpeningHandsAlreadyDrawn,
            ),
            !old(self).opening_hands_drawn && old(self).starting_player is None ==> r == Err::<
                (),
                StateError,
            >(StateError::TurnOrderNotDecided),
            r is Ok ==> final(self).opening_hands_drawn,
            r is Ok ==> final(self).players@ == old(self).players@,
            zones_conserved(*old(self)) ==> zones_conserved(*final(self)),
            events_bounded(*old(self)) ==> events_bounded(*final(self)),
            !old(self).opening_hands_drawn && old(self).starting_player is Some && (old(
                self,
            ).starting_player->0).0 < old(self).players@.len() && old(self).players@.len() <= u32::MAX + 1 && player_zones_present(
                old(self).zones@,
                old(self).players@.len() as int,
            ) ==> r is Ok,
            r is Ok ==> forall|p: int|
                0 <= p < old(self).players@.len() ==> #[trigger] drew_opening_hand(
                    old(self).zones@,
                    final(self).zones@,
                    p,
                ),
    {
        if self.opening_hands_drawn {
            return Err(StateError::OpeningHandsAlreadyDrawn);
        }
        let starting = match self.starting_player {
            Some(p) => p,
            None => return Err(StateError::TurnOrderNotDecided),
        };
        let order = match self.apnap_players(starting) {
            Ok(o) => o,
            Err(e) => return Err(e),
        };
        proof {
            let n = self.players@.len() as int;
            let s0 = starting.0 as int;
            assert forall|a: int, b: int| 0 <= a < b < order@.len() implies #[trigger] order@[a]
                != #[trigger] order@[b] by {
                assert((s0 + a) % n != (s0 + b) % n) by (nonlinear_arith)
                    requires
                        0 <= a < b < n,
                        0 <= s0 < n,
                ;
            }
        }
        let ghost start = *self;
        let mut i: usize = 0;
        while i < order.len()
            invariant
                i <= order@.len(),
                start == *old(self),
                !start.opening_hands_drawn,
                start.starting_player is Some,
                self.players@ == start.players@,
                zones_conserved(start) ==> zones_conserved(*self),
                events_bounded(start) ==> events_bounded(*self),
                order@.len() == start.players@.len(),
                forall|k: int| 0 <= k < order@.len() ==> (#[trigger] order@[k]).0 < start.players@.len(),
                player_zones_present(start.zones@, start.players@.len() as int) ==> player_zones_present(
                    self.zones@,
                    start.players@.len() as int,
                ),
                self.zones@.len() == start.zones@.len(),
                forall|j: int| 0 <= j < start.zones@.len() ==> #[trigger] self.zones@[j].id == start.zones@[j].id,
                forall|a: int, b: int|
                    0 <= a < b < order@.len() ==> #[trigger] order@[a] != #[trigger] order@[b],
                starting.0 < start.players@.len(),
                forall|k: int|
                    0 <= k < order@.len() ==> (#[trigger] order@[k]).0 == (starting.0 + k) % (
                    start.players@.len() as int),
                forall|k: int| 0 <= k < i ==> drew_opening_hand(start.zones@, self.zones@, #[trigger] order@[k].0 as int),
                forall|k: int|
                    i <= k < order@.len() ==> seat_zones_untouched(
                        start.zones@,
                        self.zones@,
                        #[trigger] order@[k].0 as int,
                    ),
            decreases order@.len() - i,
        {
            proof {
                if player_zones_present(self.zones@, start.players@.len() as int) {
                    assert(has_library_and_hand(self.zones@, order@[i as int].0 as int));
                    assert(PlayerId((order@[i as int].0 as int) as u32) == order@[i as int]);
                }
            }
            let ghost before = self.zones@;
            match self.draw_cards(order[i], OPENING_HAND_SIZE) {
                Ok(()) => {},
                Err(e) => return Err(e),
            }
            proof {
                let q = order@[i as int];
                let lib = ZoneId { owner: Some(q), kind: ZoneKind::Library };
                let hand = ZoneId { owner: Some(q), kind: ZoneKind::Hand };
                let (li, hi) = choose|li: int, hi: int|
                    zone_at(before, lib, li) && zone_at(before, hand, hi) && {
                        let library = before[li].objects@;
                        let d = if OPENING_HAND_SIZE <= library.len() {
                            OPENING_HAND_SIZE as int
                        } else {
                            library.len() as int
                        };
                        &&& self.zones@[li].objects@ == library.take(library.len() - d)
                        &&& self.zones@[hi].objects@ == before[hi].objects@ + drawn_cards(library, d)
                        &&& forall|j: int|
                            0 <= j < before.len() && j != li && j != hi ==> #[trigger] self.zones@[j]
                                == before[j]
                    };
                assert(PlayerId((q.0 as int) as u32) == q);
                lemma_zone_at_same_ids(before, start.zones@, lib, li);
                lemma_zone_at_same_ids(before, start.zones@, hand, hi);
                assert(before[li] == start.zones@[li]);
                assert(before[hi] == start.zones@[hi]);
                assert forall|k: int| 0 <= k < i + 1 implies drew_opening_hand(
                    start.zones@,
                    self.zones@,
                    #[trigger] order@[k].0 as int,
                ) by {
                    if k == i {
                        assert forall|li2: int, hi2: int|
                            zone_at(start.zones@, seat_zone(q.0 as int, ZoneKind::Library), li2) && zone_at(
                                start.zones@,
                                seat_zone(q.0 as int, ZoneKind::Hand),
                                hi2,
                            ) implies opening_draw_at(start.zones@, self.zones@, li2, hi2) by {
                            lemma_zone_at_unique(start.zones@, lib, li, li2);
                            lemma_zone_at_unique(start.zones@, hand, hi, hi2);
                        }
                    } else {
                        let r = order@[k];
                        assert(r != q);
                        assert(PlayerId((r.0 as int) as u32) == r);
                        assert forall|li2: int, hi2: int|
                            zone_at(start.zones@, seat_zone(r.0 as int, ZoneKind::Library), li2) && zone_at(
                                start.zones@,
                                seat_zone(r.0 as int, ZoneKind::Hand),
                                hi2,
                            ) implies opening_draw_at(start.zones@, self.zones@, li2, hi2) by {
                            assert(drew_opening_hand(start.zones@, before, r.0 as int));
                            assert(opening_draw_at(start.zones@, before, li2, hi2));
                            assert(li2 != li && li2 != hi && hi2 != li && hi2 != hi);
                            assert(self.zones@[li2] == before[li2]);
                            assert(self.zones@[hi2] == before[hi2]);
                        }
                    }
                }
                assert forall|k: int| i + 1 <= k < order@.len() implies seat_zones_untouched(
                    start.zones@,
                    self.zones@,
                    #[trigger] order@[k].0 as int,
                ) by {
                    let r = order@[k];
                    assert(r != q);
                    assert(PlayerId((r.0 as int) as u32) == r);
                    assert(seat_zones_untouched(start.zones@, before, r.0 as int));
                    assert forall|j: int|
                        0 <= j < start.zones@.len() && start.zones@[j].id.owner == Some(
                            PlayerId((r.0 as int) as u32),
                        ) implies #[trigger] self.zones@[j] == start.zones@[j] by {
                        assert(j != li && j != hi);
                    }
                }
            }
            proof {
                if player_zones_present(start.zones@, start.players@.len() as int) {
                    assert forall|p: int| 0 <= p < start.players@.len() implies #[trigger] has_library_and_hand(
                        self.zones@,
                        p,
                    ) by {
                        assert(has_library_and_hand(before, p));
                        let lib = ZoneId { owner: Some(PlayerId(p as u32)), kind: ZoneKind::Library };
                        let hand = ZoneId { owner: Some(PlayerId(p as u32)), kind: ZoneKind::Hand };
                        let j = choose|j: int| 0 <= j < before.len() && #[trigger] before[j].id == lib;
                        assert(self.zones@[j].id == before[j].id);
                        let h = choose|h: int| 0 <= h < before.len() && #[trigger] before[h].id == hand;
                        assert(self.zones@[h].id == before[h].id);
                    }
                }
            }
            i = i + 1;
        }
        proof {
            let n = start.players@.len() as int;
            let s0 = starting.0 as int;
            assert forall|p: int| 0 <= p < n implies #[trigger] drew_opening_hand(start.zones@, self.zones@, p) by {
                let k = (p + n - s0) % n;
                assert(0 <= k < n && (s0 + k) % n == p) by (nonlinear_arith)
                    requires
                        0 <= p < n,
                        0 <= s0 < n,
                        k == (p + n - s0) % n,
                ;
                assert(order@[k].0 == p);
            }
        }
        let ghost drawn = self.zones@;
        self.opening_hands_drawn = true;
        self.emit_event(GameEvent::OpeningHandsDrawn);
        assert(self.zones@ == drawn);
        Ok(())
    }

    /// Takes a mulligan: the hand goes back into the library, the library is
    /// shuffled and a new opening hand is drawn.
    pub fn take_mulligan(&mut self, player: PlayerId) -> (r: Result<(), StateError>)
        ensures
            player.0 >= old(self).players@.len() ==> r == Err::<(), StateError>(
                StateError::UnknownPlayer(player),
            ),
            player.0 < old(self).players@.len() && !old(self).opening_hands_drawn ==> r == Err::<
                (),
                StateError,
            >(StateError::OpeningHandsNotDrawn),
            player.0 < old(self).players@.len() && old(self).opening_hands_drawn && old(
                self,
            ).players@[player.0 as int].opening_hand_kept ==> r == Err::<(), StateError>(
                StateError::MulliganAfterKeep(player),
            ),
            r is Ok ==> final(self).players@.len() == old(self).players@.len()
                && old(self).players@[player.0 as int].mulligans_taken < u32::MAX
                && final(self).players@[player.0 as int].mulligans_taken == old(
                self,
            ).players@[player.0 as int].mulligans_taken + 1,
            zones_conserved(*old(self)) ==> zones_conserved(*final(self)),
            events_bounded(*old(self)) ==> events_bounded(*final(self)),
            player.0 < old(self).players@.len() && old(self).opening_hands_drawn && !old(
                self,
            ).players@[player.0 as int].opening_hand_kept && old(self).players@[player.0 as int].mulligans_taken
                < u32::MAX && has_library_and_hand(old(self).zones@, player.0 as int) ==> r is Ok,
    {
        match self.require_player(player) {
            Ok(()) => {},
            Err(e) => return Err(e),
        }
        if !self.opening_hands_drawn {
            return Err(StateError::OpeningHandsNotDrawn);
        }
        let i = player.index();
        if self.players[i].opening_hand_kept {
            return Err(StateError::MulliganAfterKeep(player));
        }
        let next_mulligans = match self.players[i].mulligans_taken.checked_add(1) {
            Some(n) => n,
            None => return Err(StateError::MulliganCountOverflow),
        };
        let library = ZoneId::new(Some(player), ZoneKind::Library);
        let hand = ZoneId::new(Some(player), ZoneKind::Hand);
        let ghost zones_present = has_library_and_hand(self.zones@, player.0 as int);
        proof {
            assert(PlayerId((player.0 as int) as u32) == player);
        }
        let ghost z0 = self.zones@;
        match self.move_all_between_zones(hand, library) {
            Ok(()) => {},
            Err(e) => return Err(e),
        }
        proof {
            if zones_present {
                let (fi, ti) = choose|fi: int, ti: int|
                    zone_at(z0, hand, fi) && zone_at(z0, library, ti) && {
                        &&& self.zones@[fi].objects@.len() == 0
                        &&& self.zones@[ti].objects@ == z0[ti].objects@ + z0[fi].objects@.reverse()
                        &&& self.zones@[fi].id == hand && self.zones@[ti].id == library
                        &&& forall|j: int|
                            0 <= j < z0.len() && j != fi && j != ti ==> #[trigger] self.zones@[j] == z0[j]
                    };
                assert(self.zones@[fi].id == hand);
                assert(self.zones@[ti].id == library);
            }
        }
        let ghost z1 = self.zones@;
        match self.shuffle_zone(library) {
            Ok(()) => {},
            Err(e) => return Err(e),
        }
        proof {
            if zones_present {
                let li = choose|i: int|
                    zone_at(z1, library, i) && #[trigger] self.zones@[i].objects@.to_multiset()
                        == z1[i].objects@.to_multiset() && self.zones@[i].id == library && forall|j: int|
                        0 <= j < z1.len() && j != i ==> #[trigger] self.zones@[j] == z1[j];
                assert(self.zones@[li].id == library);
                let hj = choose|j: int| 0 <= j < z1.len() && #[trigger] z1[j].id == hand;
                assert(self.zones@[hj].id == hand);
            }
        }
        match self.draw_cards(player, OPENING_HAND_SIZE) {
            Ok(()) => {},
            Err(e) => return Err(e),
        }
        self.players[i].mulligans_taken = next_mulligans;
        self.emit_event(GameEvent::MulliganTaken { player, mulligans_taken: next_mulligans });
        Ok(())
    }

    /// Keeps the opening hand, putting one chosen card per mulligan taken on
    /// the bottom of the library in the given order.
    pub fn keep_opening_hand(&mut self, player: PlayerId, bottom: &[ObjectId]) -> (r: Result<
        (),
        StateError,
    >)
        ensures
            events_bounded(*old(self)) ==> events_bounded(*final(self)),
            player.0 >= old(self).players@.len() ==> r == Err::<(), StateError>(
                StateError::UnknownPlayer(player),
            ),
            player.0 < old(self).players@.len() && !old(self).opening_hands_drawn ==> r == Err::<
                (),
                StateError,
            >(StateError::OpeningHandsNotDrawn),
            player.0 < old(self).players@.len() && old(self).opening_hands_drawn && old(
                self,
            ).players@[player.0 as int].opening_hand_kept ==> r == Err::<(), StateError>(
                StateError::OpeningHandAlreadyKept(player),
            ),
            r is Ok ==> final(self).players@.len() == old(self).players@.len()
                && final(self).players@[player.0 as int].opening_hand_kept
                && old(self).players@[player.0 as int].mulligans_taken == (if bottom@.len() <= u32::MAX {
                    bottom@.len() as int
                } else {
                    u32::MAX as int
                }),
            r is Ok ==> exists|hi: int, li: int|
                #[trigger] zone_at(old(self).zones@, ZoneId { owner: Some(player), kind: ZoneKind::Hand }, hi)
                    && #[trigger] zone_at(
                    old(self).zones@,
                    ZoneId { owner: Some(player), kind: ZoneKind::Library },
                    li,
                ) && {
                    &&& final(self).zones@[hi].objects@ == without_each(old(self).zones@[hi].objects@, bottom@)
                    &&& final(self).zones@[li].objects@ == bottom@ + old(self).zones@[li].objects@
                },
            r is Ok && zones_conserved(*old(self)) ==> zones_conserved(*final(self)),
            r is Err && zone_ids_distinct(old(self).zones@) ==> *final(self) == *old(self),
            player.0 < old(self).players@.len() && old(self).opening_hands_drawn && !old(
                self,
            ).players@[player.0 as int].opening_hand_kept && old(self).players@[player.0 as int].mulligans_taken
                == (if bottom@.len() <= u32::MAX {
                bottom@.len() as int
            } else {
                u32::MAX as int
            }) && (forall|a: int, b: int| 0 <= a < b < bottom@.len() ==> bottom@[a] != bottom@[b])
                && (forall|q: int|
                0 <= q < bottom@.len() ==> zone_of(old(self).zones@, #[trigger] bottom@[q]) == Some(
                    ZoneId { owner: Some(player), kind: ZoneKind::Hand },
                )) && has_library_and_hand(old(self).zones@, player.0 as int) && zone_ids_distinct(
                old(self).zones@,
            ) ==> r is Ok,
    {
        match self.require_player(player) {
            Ok(()) => {},
            Err(e) => return Err(e),
        }
        if !self.opening_hands_drawn {
            return Err(StateError::OpeningHandsNotDrawn);
        }
        let i = player.index();
        if self.players[i].opening_hand_kept {
            return Err(StateError::OpeningHandAlreadyKept(player));
        }
        let actual: u32 = if bottom.len() > u32::MAX as usize {
            u32::MAX
        } else {
            bottom.len() as u32
        };
        if self.players[i].mulligans_taken != actual {
            return Err(
                StateError::InvalidOpeningHandBottomCount {
                    expected: self.players[i].mulligans_taken,
                    actual,
                },
            );
        }
        let hand = ZoneId::new(Some(player), ZoneKind::Hand);
        let mut seen: Vec<ObjectId> = Vec::new();
        let mut k: usize = 0;
        while k < bottom.len()
            invariant
                k <= bottom@.len(),
                *self == *old(self),
                player.0 < self.players@.len(),
                i == player.0,
                self.opening_hands_drawn,
                !self.players@[i as int].opening_hand_kept,
                hand == (ZoneId { owner: Some(player), kind: ZoneKind::Hand }),
                seen@ == bottom@.take(k as int),
                forall|q: int| 0 <= q < k ==> !bottom@.take(q).contains(#[trigger] bottom@[q]),
                forall|q: int| 0 <= q < k ==> zone_of(self.zones@, #[trigger] bottom@[q]) == Some(hand),
            decreases bottom@.len() - k,
        {
            let object = bottom[k];
            proof {
                assert(bottom@.take(k as int + 1).drop_last() =~= bottom@.take(k as int));
            }
            if contains_object(&seen, object) {
                proof {
                    let w = choose|w: int| 0 <= w < seen@.len() && seen@[w] == object;
                    assert(bottom@[w] == bottom@[k as int]);
                }
                return Err(StateError::DuplicateOpeningHandBottomCard(object));
            }
            seen.push(object);
            if self.object_zone(object) != Some(hand) {
                return Err(StateError::OpeningHandBottomCardNotInHand { player, object });
            }
            proof {
                assert(seen@ =~= bottom@.take(k as int + 1));
            }
            k = k + 1;
        }
        proof {
            assert(PlayerId((player.0 as int) as u32) == player);
            if zone_ids_distinct(self.zones@) && has_library_and_hand(self.zones@, player.0 as int) {
                let j = choose|j: int| 0 <= j < self.zones@.len() && #[trigger] self.zones@[j].id == hand;
                assert(zone_at(self.zones@, hand, j));
            }
            if zone_ids_distinct(self.zones@) {
                assert forall|hi: int| #[trigger] zone_at(self.zones@, hand, hi) implies bottom_cards_in_hand(
                    self.zones@[hi].objects@,
                    bottom@,
                ) by {
                    assert forall|q: int| 0 <= q < bottom@.len() implies #[trigger] without_each(
                        self.zones@[hi].objects@,
                        bottom@.take(q),
                    ).contains(bottom@[q]) by {
                        lemma_zone_of_distinct(self.zones@, bottom@[q], hand, hi);
                        lemma_without_each_keeps(self.zones@[hi].objects@, bottom@.take(q), bottom@[q]);
                    }
                }
            }
        }
        let ghost before = self.players@;
        match self.put_hand_cards_on_library_bottom(player, bottom) {
            Ok(()) => {},
            Err(e) => return Err(e),
        }
        self.players[i].opening_hand_kept = true;
        self.emit_event(GameEvent::OpeningHandKept { player });
        Ok(())
    }

    /// Takes the chosen cards out of the hand and puts them on the bottom of
    /// the library, the first chosen card lowest.
    pub(crate) fn put_hand_cards_on_library_bottom(&mut self, player: PlayerId, bottom: &[ObjectId]) -> (r:
        Result<(), StateError>)
        ensures
            events_bounded(*old(self)) ==> events_bounded(*final(self)),
            r is Ok ==> exists|hi: int, li: int|
                #[trigger] zone_at(old(self).zones@, ZoneId { owner: Some(player), kind: ZoneKind::Hand }, hi)
                    && #[trigger] zone_at(
                    old(self).zones@,
                    ZoneId { owner: Some(player), kind: ZoneKind::Library },
                    li,
                ) && {
                    &&& final(self).zones@[hi].id == old(self).zones@[hi].id
                    &&& final(self).zones@[li].id == old(self).zones@[li].id
                    &&& final(self).zones@[hi].objects@ == without_each(old(self).zones@[hi].objects@, bottom@)
                    &&& final(self).zones@[li].objects@ == bottom@ + old(self).zones@[li].objects@
                    &&& forall|j: int|
                        0 <= j < old(self).zones@.len() && j != hi && j != li ==> #[trigger] final(self).zones@[j]
                            == old(self).zones@[j]
                },
            r is Ok ==> final(self).zones@.len() == old(self).zones@.len(),
            r is Ok ==> same_but_zones(*old(self), *final(self)),
            r is Ok && zones_conserved(*old(self)) ==> zones_conserved(*final(self)),
            r is Ok <==> can_bottom(*old(self), player, bottom@),
            r is Err && (forall|hi: int|
                #[trigger] zone_at(old(self).zones@, ZoneId { owner: Some(player), kind: ZoneKind::Hand }, hi)
                    ==> bottom_cards_in_hand(old(self).zones@[hi].objects@, bottom@)) ==> *final(self)
                == *old(self),
    {
        let hand = ZoneId::new(Some(player), ZoneKind::Hand);
        let library = ZoneId::new(Some(player), ZoneKind::Library);
        assert(hand == ZoneId { owner: Some(player), kind: ZoneKind::Hand });
        assert(library == ZoneId { owner: Some(player), kind: ZoneKind::Library });
        match self.require_zone(hand) {
            Ok(()) => {},
            Err(e) => {
                proof {
                    if exists|hi: int| zone_at(self.zones@, hand, hi) {
                        let w = choose|hi: int| zone_at(self.zones@, hand, hi);
                        assert(self.zones@[w].id == hand);
                    }
                }
                return Err(e);
            },
        }
        match self.require_zone(library) {
            Ok(()) => {},
            Err(e) => return Err(e),
        }
        let hi = match self.zone_index(hand) {
            Some(i) => i,
            None => return Err(StateError::UnknownZone(hand)),
        };
        let li = match self.zone_index(library) {
            Some(i) => i,
            None => return Err(StateError::UnknownZone(library)),
        };
        assert(zone_at(self.zones@, hand, hi as int));
        assert(zone_at(self.zones@, library, li as int));
        let ghost start = *self;
        let ghost hand0 = self.zones@[hi as int].objects@;
        let ghost lib0 = self.zones@[li as int].objects@;
        let mut moved: Vec<ObjectId> = Vec::new();
        let mut k: usize = 0;
        while k < bottom.len()
            invariant
                k <= bottom@.len(),
                start == *old(self),
                hi != li,
                hi < start.zones@.len() && li < start.zones@.len(),
                hand0 == start.zones@[hi as int].objects@,
                self.zones@.len() == start.zones@.len(),
                self.zones@[hi as int].id == start.zones@[hi as int].id,
                self.zones@[hi as int].objects@ == without_each(hand0, bottom@.take(k as int)),
                forall|j: int| 0 <= j < start.zones@.len() && j != hi ==> #[trigger] self.zones@[j] == start.zones@[j],
                moved@ == bottom@.take(k as int),
                *self == (GameState { zones: self.zones, ..start }),
                forall|slot: int|
                    #[trigger] count_in(self.zones@[hi as int].objects@, slot) + count_in(moved@, slot)
                        == count_in(hand0, slot),
                forall|q: int|
                    0 <= q < k ==> #[trigger] without_each(hand0, bottom@.take(q)).contains(bottom@[q]),
                zone_at(start.zones@, hand, hi as int),
                hand == (ZoneId { owner: Some(player), kind: ZoneKind::Hand }),
            decreases bottom@.len() - k,
        {
            let object = bottom[k];
            let position = match position_of_object(&self.zones[hi].objects, object) {
                Some(p) => p,
                None => {
                    proof {
                        assert forall|h: int| zone_at(old(self).zones@, hand, h) implies !bottom_cards_in_hand(
                            #[trigger] old(self).zones@[h].objects@,
                            bottom@,
                        ) by {
                            lemma_zone_at_unique(start.zones@, hand, h, hi as int);
                            if bottom_cards_in_hand(hand0, bottom@) {
                                assert(without_each(hand0, bottom@.take(k as int)).contains(bottom@[k as int]));
                                assert(self.zones@[hi as int].objects@.contains(object));
                                assert(false);
                            }
                        }
                        assert(!can_bottom(*old(self), player, bottom@));
                        assert(!bottom_cards_in_hand(old(self).zones@[hi as int].objects@, bottom@));
                    }
                    return Err(StateError::OpeningHandBottomCardNotInHand { player, object });
                },
            };
            assert(self.zones@[hi as int].objects@[position as int] == object);
            let ghost held = self.zones@[hi as int].objects@;
            let ghost carried = moved@;
            let taken = self.zones[hi].objects.remove(position);
            moved.push(taken);
            proof {
                lemma_remove_first(held, position as int, object);
                assert(bottom@.take(k + 1).drop_last() =~= bottom@.take(k as int));
                assert(bottom@.take(k + 1).last() == object);
                assert(moved@ =~= bottom@.take(k + 1));
                assert forall|slot: int|
                    #[trigger] count_in(self.zones@[hi as int].objects@, slot) + count_in(moved@, slot)
                        == count_in(hand0, slot) by {
                    lemma_count_in_remove(held, position as int, slot);
                    lemma_count_in_push(carried, object, slot);
                    assert(count_in(held, slot) + count_in(carried, slot) == count_in(hand0, slot));
                }
            }
            k = k + 1;
        }
        assert(bottom@.take(bottom@.len() as int) =~= bottom@);
        assert(bottom_cards_in_hand(start.zones@[hi as int].objects@, bottom@));
        let ghost hand_final = self.zones@[hi as int].objects@;
        let ghost picked = *self;
        let mut offset: usize = 0;
        while offset < moved.len()
            invariant
                offset <= moved@.len(),
                start == *old(self),
                moved@ == bottom@,
                hi != li,
                hi < start.zones@.len() && li < start.zones@.len(),
                lib0 == start.zones@[li as int].objects@,
                self.zones@.len() == start.zones@.len(),
                self.zones@[hi as int] == picked.zones@[hi as int],
                self.zones@[li as int].id == start.zones@[li as int].id,
                self.zones@[li as int].objects@ == moved@.take(offset as int) + lib0,
                forall|j: int|
                    0 <= j < start.zones@.len() && j != hi && j != li ==> #[trigger] self.zones@[j]
                        == start.zones@[j],
                same_but_zones(picked, *self),
            decreases moved@.len() - offset,
        {
            let object = moved[offset];
            let ghost shelf = self.zones@[li as int].objects@;
            if offset <= self.zones[li].objects.len() {
                self.zones[li].objects.insert(offset, object);
            } else {
                self.zones[li].objects.push(object);
            }
            proof {
                assert(shelf.insert(offset as int, object) =~= moved@.take(offset + 1) + lib0);
            }
            self.emit_event(GameEvent::ObjectMoved { object, from: hand, to: library });
            self.emit_event(GameEvent::OpeningHandCardBottomed { player, object });
            offset = offset + 1;
        }
        assert(moved@.take(moved@.len() as int) =~= moved@);
        proof {
            if zones_conserved(start) {
                assert forall|slot: int|
                    #[trigger] count_in(self.zones@[hi as int].objects@, slot) + count_in(
                        self.zones@[li as int].objects@,
                        slot,
                    ) == count_in(hand0, slot) + count_in(lib0, slot) by {
                    lemma_count_in_concat(bottom@, lib0, slot);
                }
                lemma_zone_pair_keeps_conservation(start, *self, hi as int, li as int);
            }
        }
        Ok(())
    }
}

/// No two zones share an ID.
pub open spec fn zone_ids_distinct(zones: Seq<Zone>) -> bool {
    forall|i: int, j: int| 0 <= i < j < zones.len() ==> #[trigger] zones[i].id != #[trigger] zones[j].id
}

/// With distinct zone IDs, an object whose zone is `id` is held by the zone
/// with that ID.
proof fn lemma_zone_of_distinct(zones: Seq<Zone>, object: ObjectId, id: ZoneId, hi: int)
    requires
        zone_ids_distinct(zones),
        zone_of(zones, object) == Some(id),
        zone_at(zones, id, hi),
    ensures
        zones[hi].objects@.contains(object),
{
    let i = choose|i: int| first_zone_holding(zones, object, i);
    assert(zones[i].id == id);
    if i < hi {
        assert(zones[i].id != zones[hi].id);
    } else if i > hi {
        assert(zones[hi].id != zones[i].id);
    }
}

/// Taking out the first copy of another object keeps `object`.
proof fn lemma_without_first_keeps(objects: Seq<ObjectId>, taken: ObjectId, object: ObjectId)
    requires
        objects.contains(object),
        taken != object,
    ensures
        without_first(objects, taken).contains(object),
    decreases objects.len(),
{
    if objects[0] == taken {
        let w = choose|w: int| 0 <= w < objects.len() && objects[w] == object;
        assert(objects.drop_first()[w - 1] == object);
    } else if objects[0] == object {
        assert(without_first(objects, taken)[0] == object);
    } else {
        let w = choose|w: int| 0 <= w < objects.len() && objects[w] == object;
        assert(objects.drop_first()[w - 1] == object);
        lemma_without_first_keeps(objects.drop_first(), taken, object);
        let rest = without_first(objects.drop_first(), taken);
        let v = choose|v: int| 0 <= v < rest.len() && rest[v] == object;
        assert((seq![objects[0]] + rest)[v + 1] == object);
    }
}

/// Taking out copies of other objects keeps `object`.
proof fn lemma_without_each_keeps(objects: Seq<ObjectId>, taken: Seq<ObjectId>, object: ObjectId)
    requires
        objects.contains(object),
        !taken.contains(object),
    ensures
        without_each(objects, taken).contains(object),
    decreases taken.len(),
{
    if taken.len() > 0 {
        assert(!taken.drop_last().contains(object)) by {
            if taken.drop_last().contains(object) {
                let w = choose|w: int| 0 <= w < taken.drop_last().len() && taken.drop_last()[w] == object;
                assert(taken[w] == object);
            }
        }
        lemma_without_each_keeps(objects, taken.drop_last(), object);
        assert(taken.last() != object) by {
            if taken.last() == object {
                assert(taken[taken.len() - 1] == object);
            }
        }
        lemma_without_first_keeps(without_each(objects, taken.drop_last()), taken.last(), object);
    }
}

/// `player` has a hand and a library, and every card of `bottom` can be
/// taken from that hand in turn.
pub open spec fn can_bottom(state: GameState, player: PlayerId, bottom: Seq<ObjectId>) -> bool {
    let hand = ZoneId { owner: Some(player), kind: ZoneKind::Hand };
    let library = ZoneId { owner: Some(player), kind: ZoneKind::Library };
    &&& zone_id_valid(hand, state.players@.len() as int)
    &&& zone_id_valid(library, state.players@.len() as int)
    &&& exists|j: int| 0 <= j < state.zones@.len() && #[trigger] state.zones@[j].id == library
    &&& exists|hi: int|
        zone_at(state.zones@, hand, hi) && bottom_cards_in_hand(#[trigger] state.zones@[hi].objects@, bottom)
}

/// Each card of `bottom`, in turn, is still in `hand` once the cards before
/// it are taken out.
pub open spec fn bottom_cards_in_hand(hand: Seq<ObjectId>, bottom: Seq<ObjectId>) -> bool {
    forall|k: int| 0 <= k < bottom.len() ==> #[trigger] without_each(hand, bottom.take(k)).contains(bottom[k])
}

/// `objects` without its first entry equal to `object`.
pub open spec fn without_first(objects: Seq<ObjectId>, object: ObjectId) -> Seq<ObjectId>
    decreases objects.len(),
{
    if objects.len() == 0 {
        objects
    } else if objects[0] == object {
        objects.drop_first()
    } else {
        seq![objects[0]] + without_first(objects.drop_first(), object)
    }
}

/// `objects` after taking out, in turn, the first entry equal to each of
/// `taken`.
pub open spec fn without_each(objects: Seq<ObjectId>, taken: Seq<ObjectId>) -> Seq<ObjectId>
    decreases taken.len(),
{
    if taken.len() == 0 {
        objects
    } else {
        without_first(without_each(objects, taken.drop_last()), taken.last())
    }
}

proof fn lemma_remove_first(objects: Seq<ObjectId>, p: int, object: ObjectId)
    requires
        0 <= p < objects.len(),
        objects[p] == object,
        forall|j: int| 0 <= j < p ==> objects[j] != object,
    ensures
        objects.remove(p) == without_first(objects, object),
    decreases p,
{
    if p == 0 {
        assert(objects.remove(0) =~= objects.drop_first());
    } else {
        let rest = objects.drop_first();
        assert forall|j: int| 0 <= j < p - 1 implies rest[j] != object by {
            assert(rest[j] == objects[j + 1]);
        }
        lemma_remove_first(rest, p - 1, object);
        assert(objects.remove(p) =~= seq![objects[0]] + rest.remove(p - 1));
    }
}

} // verus!
