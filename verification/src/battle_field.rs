use vstd::prelude::*;

use crate::hex::{hex_wf, spec_dist, spec_to_oddr, Hex, OddrPos};

verus! {

/// The battle field: a rectangular hex grid of tiles, each holding at most
/// one combatant. Tiles are named by their index in row-major order; the
/// mapping between tiles and hexes is fixed once the field is built.
#[derive(Debug)]
pub struct BattleField {
    pub width: usize,
    pub height: usize,
    /// Per-tile occupancy: the combatant index on the tile, if any.
    pub occupants: Vec<Option<usize>>,
}

/// The secondary sort key of the distance enumeration: the distance to the
/// tie-break hex, or a constant when none is given.
pub open spec fn spec_tie_key(close_to: Option<Hex>, h: Hex) -> int {
    match close_to {
        Option::None => 0,
        Option::Some(c) => spec_dist(c, h),
    }
}

/// Ordering of two enumeration results: ascending primary distance, ties by
/// ascending tie-break distance.
pub open spec fn dist_pair_le(close_to: Option<Hex>, a: (i32, Hex), b: (i32, Hex)) -> bool {
    a.0 < b.0 || (a.0 == b.0 && spec_tie_key(close_to, a.1) <= spec_tie_key(close_to, b.1))
}

/// Lexicographic order on the first two components of a sort entry.
pub open spec fn triple_le(a: (i32, i32, Hex), b: (i32, i32, Hex)) -> bool {
    a.0 < b.0 || (a.0 == b.0 && a.1 <= b.1)
}

/// Whether some listed pair carries the given hex.
pub open spec fn hex_listed(s: Seq<(i32, Hex)>, h: Hex) -> bool {
    exists|i: int| 0 <= i < s.len() && #[trigger] s[i].1 == h
}

/// Whether some sort entry carries the given hex.
spec fn entry_hex_listed(s: Seq<(i32, i32, Hex)>, h: Hex) -> bool {
    exists|i: int| 0 <= i < s.len() && #[trigger] s[i].2 == h
}

/// Strict lexicographic order on the first two components.
fn triple_lt(a: (i32, i32, Hex), b: (i32, i32, Hex)) -> (r: bool)
    ensures
        r == !triple_le(b, a),
{
    a.0 < b.0 || (a.0 == b.0 && a.1 < b.1)
}

/// Swapping two adjacent entries leaves the contents unchanged.
proof fn lemma_swap_adjacent_multiset<T>(s: Seq<T>, i: int)
    requires
        0 <= i,
        i + 1 < s.len(),
    ensures
        s.update(i, s[i + 1]).update(i + 1, s[i]).to_multiset() == s.to_multiset(),
{
    broadcast use vstd::seq_lib::group_to_multiset_ensures;

    let s2 = s.update(i, s[i + 1]).update(i + 1, s[i]);
    let pre = s.subrange(0, i);
    let mid1 = seq![s[i], s[i + 1]];
    let mid2 = seq![s[i + 1], s[i]];
    let post = s.subrange(i + 2, s.len() as int);
    assert(s =~= pre + (mid1 + post));
    assert(s2 =~= pre + (mid2 + post));
    vstd::seq_lib::lemma_multiset_commutative(pre, mid1 + post);
    vstd::seq_lib::lemma_multiset_commutative(mid1, post);
    vstd::seq_lib::lemma_multiset_commutative(pre, mid2 + post);
    vstd::seq_lib::lemma_multiset_commutative(mid2, post);
    assert(mid1 =~= Seq::empty().push(s[i]).push(s[i + 1]));
    assert(mid2 =~= Seq::empty().push(s[i + 1]).push(s[i]));
    assert(mid1.to_multiset() =~= mid2.to_multiset());
}

/// Sorts the entries in place: ascending primary key, ties by the second
/// key, contents untouched.
#[verifier::loop_isolation(false)]
fn sort_dist_entries(v: &mut Vec<(i32, i32, Hex)>)
    ensures
        final(v)@.len() == old(v)@.len(),
        final(v)@.to_multiset() == old(v)@.to_multiset(),
        forall|k1: int, k2: int|
            0 <= k1 < k2 < final(v)@.len() ==> triple_le(final(v)@[k1], final(v)@[k2]),
{
    let n: usize = v.len();
    if n == 0 {
        return ;
    }
    let mut i: usize = 1;
    while i < n
        invariant
            1 <= i <= n,
            v@.len() == n,
            v@.to_multiset() == old(v)@.to_multiset(),
            forall|k1: int, k2: int| 0 <= k1 < k2 < i ==> triple_le(v@[k1], v@[k2]),
        decreases n - i,
    {
        let mut j: usize = i;
        while j > 0 && triple_lt(v[j], v[j - 1])
            invariant
                0 <= j <= i,
                v@.len() == n,
                v@.to_multiset() == old(v)@.to_multiset(),
                forall|k1: int, k2: int|
                    0 <= k1 < k2 <= i && k2 != j ==> triple_le(v@[k1], v@[k2]),
            decreases j,
        {
            let ghost before = v@;
            let a = v[j - 1];
            let b = v[j];
            v.set(j - 1, b);
            v.set(j, a);
            proof {
                assert(v@ =~= before.update(j - 1, before[j as int]).update(
                    j as int,
                    before[j - 1],
                ));
                lemma_swap_adjacent_multiset(before, j - 1);
                assert forall|k1: int, k2: int|
                    0 <= k1 < k2 <= i && k2 != j - 1 implies triple_le(v@[k1], v@[k2]) by {
                    if k2 == j {
                        if k1 == j - 1 {
                            assert(v@[k1] == before[j as int]);
                            assert(v@[k2] == before[j - 1]);
                        } else {
                            assert(v@[k1] == before[k1]);
                            assert(v@[k2] == before[j - 1]);
                        }
                    } else if k1 == j - 1 || k1 == j {
                        assert(triple_le(before[k1], v@[k2]));
                        assert(triple_le(v@[j - 1], v@[k2]));
                        assert(triple_le(v@[j as int], v@[k2]));
                    } else {
                        assert(v@[k1] == before[k1]);
                        assert(v@[k2] == before[k2]);
                    }
                }
            }
            j = j - 1;
        }
        proof {
            assert forall|k1: int, k2: int| 0 <= k1 < k2 <= i implies triple_le(
                v@[k1],
                v@[k2],
            ) by {
                if k2 == j && j > 0 {
                    assert(triple_le(v@[j - 1], v@[j as int]));
                    if k1 < j - 1 {
                        assert(triple_le(v@[k1], v@[j - 1]));
                    }
                }
            }
        }
        i = i + 1;
    }
}

impl BattleField {
    /// One occupancy slot per grid cell; sides small enough that every
    /// coordinate stays a well-formed hex coordinate.
    pub open spec fn wf(self) -> bool {
        &&& self.occupants@.len() == self.width * self.height
        &&& self.width <= 0x800_0000
        &&& self.height <= 0x800_0000
    }

    /// How many tiles the field has.
    pub open spec fn tile_count(self) -> int {
        self.width * self.height
    }

    /// Whether offset coordinates lie on the grid.
    pub open spec fn spec_on_grid(self, x: int, y: int) -> bool {
        0 <= x < self.width && 0 <= y < self.height
    }

    /// The tile index of on-grid offset coordinates.
    pub open spec fn spec_tile_index(self, x: int, y: int) -> int {
        y * self.width + x
    }

    /// The hex sitting at a tile index.
    pub open spec fn spec_hex_of(self, t: int) -> Hex {
        Hex::Oddr(
            OddrPos { x: (t % self.width as int) as i32, y: (t / self.width as int) as i32 },
        )
    }

    /// The tile a hex denotes, if it lies on the grid.
    pub open spec fn spec_tile(self, h: Hex) -> Option<int> {
        let o = spec_to_oddr(h);
        if self.spec_on_grid(o.0, o.1) {
            Option::Some(self.spec_tile_index(o.0, o.1))
        } else {
            Option::None
        }
    }

    /// The combatant on a tile, if any.
    pub open spec fn spec_occupant(self, t: int) -> Option<usize> {
        self.occupants@[t]
    }

    /// Whether the combatant stands on some tile.
    pub open spec fn spec_placed(self, who: usize) -> bool {
        exists|t: int|
            0 <= t < self.tile_count() && #[trigger] self.spec_occupant(t) == Option::Some(who)
    }

    /// The tile the combatant stands on; meaningful when it is placed, and
    /// unique when occupancy is injective.
    pub open spec fn spec_tile_of(self, who: usize) -> int {
        choose|t: int|
            0 <= t < self.tile_count() && #[trigger] self.spec_occupant(t) == Option::Some(who)
    }

    /// No combatant stands on two tiles at once.
    pub open spec fn occupancy_injective(self) -> bool {
        forall|t1: int, t2: int|
            0 <= t1 < t2 < self.occupants@.len() ==> !(self.occupants@[t1] is Some
                && self.occupants@[t1] == self.occupants@[t2])
    }

    /// On-grid coordinates, their tile index and the hex there belong
    /// together.
    pub proof fn lemma_grid_round_trip(self, x: int, y: int)
        requires
            self.wf(),
            self.spec_on_grid(x, y),
        ensures
            0 <= self.spec_tile_index(x, y) < self.tile_count(),
            self.spec_hex_of(self.spec_tile_index(x, y)) == Hex::Oddr(
                OddrPos { x: x as i32, y: y as i32 },
            ),
            self.spec_tile(Hex::Oddr(OddrPos { x: x as i32, y: y as i32 })) == Option::Some(
                self.spec_tile_index(x, y),
            ),
    {
        let w = self.width as int;
        let h = self.height as int;
        let t = y * w + x;
        assert(0 <= t) by (nonlinear_arith)
            requires
                0 <= x,
                0 <= y,
                0 <= w,
                t == y * w + x,
        ;
        assert(t < w * h) by (nonlinear_arith)
            requires
                0 <= x < w,
                0 <= y,
                y + 1 <= h,
                t == y * w + x,
        ;
        vstd::arithmetic::div_mod::lemma_fundamental_div_mod_converse_div(t, w, y, x);
        vstd::arithmetic::div_mod::lemma_fundamental_div_mod_converse_mod(t, w, y, x);
    }

    /// Every tile index denotes an on-grid hex, and that hex maps back to
    /// the same tile.
    pub proof fn lemma_tile_round_trip(self, t: int)
        requires
            self.wf(),
            0 <= t < self.tile_count(),
        ensures
            hex_wf(self.spec_hex_of(t)),
            self.spec_on_grid(t % self.width as int, t / self.width as int),
            self.spec_tile(self.spec_hex_of(t)) == Option::Some(t),
    {
        let w = self.width as int;
        let h = self.height as int;
        assert(w > 0) by (nonlinear_arith)
            requires
                0 <= t < w * h,
                0 <= w,
                0 <= h,
        ;
        vstd::arithmetic::div_mod::lemma_mod_division_less_than_divisor(t, w);
        vstd::arithmetic::div_mod::lemma_div_pos_is_pos(t, w);
        assert(t / w < h) by {
            vstd::arithmetic::div_mod::lemma_multiply_divide_lt(t, w, h);
        }
        vstd::arithmetic::div_mod::lemma_fundamental_div_mod(t, w);
        assert((t / w) * w + t % w == t) by (nonlinear_arith)
            requires
                t == w * (t / w) + t % w,
        ;
    }

    /// Builds an empty field of the given size.
    pub fn new(width: usize, height: usize) -> (r: BattleField)
        requires
            width <= 0x800_0000,
            height <= 0x800_0000,
            width * height <= usize::MAX,
        ensures
            r.wf(),
            r.width == width,
            r.height == height,
            forall|t: int| 0 <= t < r.tile_count() ==> r.spec_occupant(t) is None,
    {
        let total: usize = width * height;
        let mut occupants: Vec<Option<usize>> = Vec::new();
        let mut t: usize = 0;
        while t < total
            invariant
                0 <= t <= total,
                occupants@.len() == t,
                forall|k: int| 0 <= k < t ==> occupants@[k] is None,
            decreases total - t,
        {
            occupants.push(Option::None);
            t = t + 1;
        }
        BattleField { width, height, occupants }
    }

    /// The tile at a hex position, or `None` off the grid.
    pub fn tile(&self, pos: &Hex) -> (r: Option<usize>)
        requires
            self.wf(),
            hex_wf(*pos),
        ensures
            match self.spec_tile(*pos) {
                Option::None => r is None,
                Option::Some(t) => r == Option::Some(t as usize),
            },
    {
        let o = pos.to_oddr();
        let total: usize = self.occupants.len();
        if o.x >= 0 && o.y >= 0 && (o.x as usize) < self.width && (o.y as usize) < self.height {
            proof {
                self.lemma_grid_round_trip(o.x as int, o.y as int);
                assert((o.x as usize) as int == o.x as int);
                assert((o.y as usize) as int == o.y as int);
                assert((o.y as int) * (self.width as int) + (o.x as int) < total);
            }
            Option::Some((o.y as usize) * self.width + (o.x as usize))
        } else {
            Option::None
        }
    }

    /// The hex of a tile index, or `None` past the field's end.
    pub fn hex(&self, tile: usize) -> (r: Option<Hex>)
        requires
            self.wf(),
        ensures
            tile < self.tile_count() ==> r == Option::Some(self.spec_hex_of(tile as int))
                && hex_wf(self.spec_hex_of(tile as int)),
            tile >= self.tile_count() ==> r is None,
    {
        if tile < self.occupants.len() {
            proof {
                self.lemma_tile_round_trip(tile as int);
            }
            let x: usize = tile % self.width;
            let y: usize = tile / self.width;
            Option::Some(Hex::Oddr(OddrPos { x: x as i32, y: y as i32 }))
        } else {
            Option::None
        }
    }

    /// The per-tile occupancy slots, in tile order.
    pub fn tiles(&self) -> (r: &Vec<Option<usize>>)
        ensures
            r == &self.occupants,
    {
        &self.occupants
    }

    /// The combatant on a tile.
    pub fn occupant(&self, tile: usize) -> (r: Option<usize>)
        requires
            self.wf(),
            tile < self.tile_count(),
        ensures
            r == self.spec_occupant(tile as int),
    {
        self.occupants[tile]
    }

    /// Puts a combatant on an empty tile.
    pub fn place(&mut self, tile: usize, who: usize)
        requires
            old(self).wf(),
            tile < old(self).tile_count(),
            old(self).spec_occupant(tile as int) is None,
        ensures
            final(self).wf(),
            final(self).width == old(self).width,
            final(self).height == old(self).height,
            final(self).occupants@ == old(self).occupants@.update(
                tile as int,
                Option::Some(who),
            ),
    {
        self.occupants.set(tile, Option::Some(who));
    }

    /// All grid hexes with their distance from `pos`, ascending; ties are
    /// broken by ascending distance from `close_to` when one is given.
    /// Among entries equal in both keys the order is left open.
    pub fn hexes_by_dist(&self, pos: &Hex, close_to: Option<Hex>) -> (r: Vec<(i32, Hex)>)
        requires
            self.wf(),
            hex_wf(*pos),
            close_to is Some ==> hex_wf(close_to->0),
        ensures
            r@.len() == self.tile_count(),
            forall|i: int|
                0 <= i < r@.len() ==> self.spec_tile(#[trigger] r@[i].1) is Some && r@[i].0
                    == spec_dist(*pos, r@[i].1) && hex_wf(r@[i].1) && self.spec_hex_of(
                    self.spec_tile(r@[i].1)->0,
                ) == r@[i].1,
            forall|i: int, j: int| 0 <= i < j < r@.len() ==> dist_pair_le(close_to, r@[i], r@[j]),
            forall|t: int|
                0 <= t < self.tile_count() ==> hex_listed(r@, #[trigger] self.spec_hex_of(t)),
            forall|i: int, j: int| 0 <= i < j < r@.len() ==> r@[i].1 != r@[j].1,
    {
        let total: usize = self.occupants.len();
        let mut items: Vec<(i32, i32, Hex)> = Vec::new();
        let mut t: usize = 0;
        while t < total
            invariant
                self.wf(),
                hex_wf(*pos),
                close_to is Some ==> hex_wf(close_to->0),
                total == self.tile_count(),
                0 <= t <= total,
                items@.len() == t,
                forall|k: int| 0 <= k < t ==> #[trigger] items@[k] == self.spec_entry(
                    *pos,
                    close_to,
                    k,
                ),
            decreases total - t,
        {
            proof {
                self.lemma_tile_round_trip(t as int);
            }
            let h = self.hex(t).unwrap();
            let d1: i32 = pos.dist(h);
            let d2: i32 = match close_to {
                Option::Some(c) => c.dist(h),
                Option::None => 0,
            };
            items.push((d1, d2, h));
            t = t + 1;
        }
        let ghost orig = items@;
        proof {
            self.lemma_entries_distinct(*pos, close_to, orig);
        }
        sort_dist_entries(&mut items);
        proof {
            self.lemma_sorted_entries_props(*pos, close_to, orig, items@);
        }
        let mut out: Vec<(i32, Hex)> = Vec::new();
        let mut k: usize = 0;
        while k < total
            invariant
                0 <= k <= total,
                items@.len() == total,
                out@.len() == k,
                forall|i: int| 0 <= i < k ==> #[trigger] out@[i] == (items@[i].0, items@[i].2),
            decreases total - k,
        {
            let e = items[k];
            out.push((e.0, e.2));
            k = k + 1;
        }
        proof {
            assert forall|i: int|
                0 <= i < items@.len() implies self.spec_tile(#[trigger] items@[i].2) is Some
                && items@[i].0 == spec_dist(*pos, items@[i].2) && items@[i].1 == spec_tie_key(
                close_to,
                items@[i].2,
            ) && hex_wf(items@[i].2) && self.spec_hex_of(self.spec_tile(items@[i].2)->0)
                == items@[i].2 by {
                assert(self.entry_from_grid(*pos, close_to, items@[i]));
                let te = choose|t: int|
                    0 <= t < self.tile_count() && items@[i] == #[trigger] self.spec_entry(
                        *pos,
                        close_to,
                        t,
                    );
                self.lemma_tile_round_trip(te);
                crate::hex::lemma_dist_bounds(*pos, self.spec_hex_of(te));
                if close_to is Some {
                    crate::hex::lemma_dist_bounds(close_to->0, self.spec_hex_of(te));
                }
            }
            assert forall|tt: int| 0 <= tt < self.tile_count() implies hex_listed(
                out@,
                #[trigger] self.spec_hex_of(tt),
            ) by {
                assert(entry_hex_listed(items@, self.spec_hex_of(tt)));
                let i = choose|i: int|
                    0 <= i < items@.len() && #[trigger] items@[i].2 == self.spec_hex_of(tt);
                assert(out@[i].1 == self.spec_hex_of(tt));
            }
            assert forall|i: int, j: int| 0 <= i < j < out@.len() implies dist_pair_le(
                close_to,
                out@[i],
                out@[j],
            ) by {
                assert(triple_le(items@[i], items@[j]));
                assert(out@[i] == (items@[i].0, items@[i].2));
                assert(out@[j] == (items@[j].0, items@[j].2));
            }
            assert forall|i: int, j: int| 0 <= i < j < out@.len() implies out@[i].1
                != out@[j].1 by {
                assert(items@[i].2 != items@[j].2);
            }
        }
        out
    }

    /// The entry the enumeration builds for tile `t`: primary key, tie key,
    /// hex.
    pub open spec fn spec_entry(self, pos: Hex, close_to: Option<Hex>, t: int) -> (i32, i32, Hex) {
        (
            spec_dist(pos, self.spec_hex_of(t)) as i32,
            spec_tie_key(close_to, self.spec_hex_of(t)) as i32,
            self.spec_hex_of(t),
        )
    }

    /// Entries of different tiles hold different hexes, so the freshly built
    /// entry list has no duplicates.
    proof fn lemma_entries_distinct(self, pos: Hex, close_to: Option<Hex>, s: Seq<(i32, i32, Hex)>)
        requires
            self.wf(),
            s.len() == self.tile_count(),
            forall|k: int| 0 <= k < s.len() ==> #[trigger] s[k] == self.spec_entry(
                pos,
                close_to,
                k,
            ),
        ensures
            s.no_duplicates(),
    {
        assert forall|t1: int, t2: int|
            0 <= t1 < s.len() && 0 <= t2 < s.len() && t1 != t2 implies s[t1] != s[t2] by {
            self.lemma_hex_of_injective(t1, t2);
        }
    }

    /// Different tiles sit at different hexes.
    proof fn lemma_hex_of_injective(self, t1: int, t2: int)
        requires
            self.wf(),
            0 <= t1 < self.tile_count(),
            0 <= t2 < self.tile_count(),
            t1 != t2,
        ensures
            self.spec_hex_of(t1) != self.spec_hex_of(t2),
    {
        self.lemma_tile_round_trip(t1);
        self.lemma_tile_round_trip(t2);
    }

    /// Whether an entry is the one built for some tile of the grid.
    spec fn entry_from_grid(self, pos: Hex, close_to: Option<Hex>, e: (i32, i32, Hex)) -> bool {
        exists|t: int| 0 <= t < self.tile_count() && e == #[trigger] self.spec_entry(
            pos,
            close_to,
            t,
        )
    }

    /// Carries the per-entry facts and completeness across the sort: every
    /// sorted entry is one of the built entries, every tile's entry is
    /// present, and no hex repeats.
    proof fn lemma_sorted_entries_props(
        self,
        pos: Hex,
        close_to: Option<Hex>,
        orig: Seq<(i32, i32, Hex)>,
        sorted: Seq<(i32, i32, Hex)>,
    )
        requires
            self.wf(),
            orig.len() == self.tile_count(),
            forall|k: int| 0 <= k < orig.len() ==> #[trigger] orig[k] == self.spec_entry(
                pos,
                close_to,
                k,
            ),
            orig.no_duplicates(),
            sorted.len() == orig.len(),
            sorted.to_multiset() == orig.to_multiset(),
        ensures
            forall|i: int|
                0 <= i < sorted.len() ==> self.entry_from_grid(pos, close_to, #[trigger] sorted[i]),
            forall|t: int|
                0 <= t < self.tile_count() ==> entry_hex_listed(
                    sorted,
                    #[trigger] self.spec_hex_of(t),
                ),
            forall|i: int, j: int| 0 <= i < j < sorted.len() ==> sorted[i].2 != sorted[j].2,
    {
        broadcast use vstd::seq_lib::group_to_multiset_ensures;

        assert forall|i: int| 0 <= i < sorted.len() implies self.entry_from_grid(
            pos,
            close_to,
            #[trigger] sorted[i],
        ) by {
            assert(sorted.to_multiset().count(sorted[i]) > 0);
            assert(orig.contains(sorted[i]));
            let t = choose|t: int| 0 <= t < orig.len() && orig[t] == sorted[i];
            assert(sorted[i] == self.spec_entry(pos, close_to, t));
        }
        assert forall|t: int| 0 <= t < self.tile_count() implies entry_hex_listed(
            sorted,
            #[trigger] self.spec_hex_of(t),
        ) by {
            assert(orig[t] == self.spec_entry(pos, close_to, t));
            assert(orig.contains(orig[t]));
            assert(orig.to_multiset().count(orig[t]) > 0);
            assert(sorted.contains(orig[t]));
            let i = choose|i: int| 0 <= i < sorted.len() && sorted[i] == orig[t];
            assert(sorted[i].2 == self.spec_hex_of(t));
        }
        orig.lemma_multiset_has_no_duplicates();
        sorted.lemma_multiset_has_no_duplicates_conv();
        assert forall|i: int, j: int| 0 <= i < j < sorted.len() implies sorted[i].2
            != sorted[j].2 by {
            if sorted[i].2 == sorted[j].2 {
                assert(sorted.to_multiset().count(sorted[i]) > 0);
                assert(orig.contains(sorted[i]));
                assert(sorted.to_multiset().count(sorted[j]) > 0);
                assert(orig.contains(sorted[j]));
                let ti = choose|t: int| 0 <= t < orig.len() && orig[t] == sorted[i];
                let tj = choose|t: int| 0 <= t < orig.len() && orig[t] == sorted[j];
                assert(sorted[i].2 == self.spec_hex_of(ti));
                assert(sorted[j].2 == self.spec_hex_of(tj));
                if ti != tj {
                    self.lemma_hex_of_injective(ti, tj);
                }
                assert(sorted[i] == sorted[j]);
                assert(false);
            }
        }
    }

    /// A tile that a combatant at `caster` could move to: empty and within
    /// `range` of the caster.
    pub open spec fn valid_close_tile(self, caster: Hex, range: i32, t: int) -> bool {
        &&& 0 <= t < self.tile_count()
        &&& self.spec_occupant(t) is None
        &&& spec_dist(caster, self.spec_hex_of(t)) <= range
    }

    /// Tile `t1` is at least as good an approach spot as `t2`: closer to the
    /// target, ties broken by distance to the caster.
    pub open spec fn approach_key_le(self, target: Hex, caster: Hex, t1: int, t2: int) -> bool {
        ||| spec_dist(target, self.spec_hex_of(t1)) < spec_dist(target, self.spec_hex_of(t2))
        ||| (spec_dist(target, self.spec_hex_of(t1)) == spec_dist(target, self.spec_hex_of(t2))
            && spec_dist(caster, self.spec_hex_of(t1)) <= spec_dist(
            caster,
            self.spec_hex_of(t2),
        ))
    }

    /// The tile under `hex`, if it is within `range` of `from` and empty.
    pub fn in_range_and_empty(&self, from: Hex, hex: Hex, range: i32) -> (r: Option<usize>)
        requires
            self.wf(),
            hex_wf(from),
            hex_wf(hex),
            self.spec_tile(hex) is Some,
        ensures
            ({
                let t = self.spec_tile(hex)->0;
                if spec_dist(from, hex) <= range && self.spec_occupant(t) is None {
                    r == Option::Some(t as usize)
                } else {
                    r is None
                }
            }),
    {
        let total: usize = self.occupants.len();
        proof {
            let o = spec_to_oddr(hex);
            self.lemma_grid_round_trip(o.0, o.1);
            assert(0 <= self.spec_tile(hex)->0 < total);
        }
        let tile = self.tile(&hex).unwrap();
        let empty = self.occupants[tile].is_none();
        if from.dist(hex) <= range && empty {
            Option::Some(tile)
        } else {
            Option::None
        }
    }

    /// Searches for an empty tile within `range` of `caster_hex`, preferring
    /// tiles near `target_hex` and, among those, tiles near the caster.
    /// `None` means no empty tile lies within range of the caster at all.
    #[verifier::loop_isolation(false)]
    pub fn get_in_range_and_empty(
        &self,
        target_hex: Hex,
        caster_hex: Hex,
        range: i32,
    ) -> (r: Option<usize>)
        requires
            self.wf(),
            hex_wf(target_hex),
            hex_wf(caster_hex),
        ensures
            match r {
                Option::Some(t) => self.valid_close_tile(caster_hex, range, t as int)
                    && forall|t2: int|
                    #[trigger] self.valid_close_tile(caster_hex, range, t2)
                        ==> self.approach_key_le(target_hex, caster_hex, t as int, t2),
                Option::None => forall|t2: int|
                    !(#[trigger] self.valid_close_tile(caster_hex, range, t2)),
            },
    {
        let order = self.hexes_by_dist(&target_hex, Option::Some(caster_hex));
        let n: usize = order.len();
        let mut k: usize = 0;
        while k < n
            invariant
                0 <= k <= n,
                forall|j: int|
                    0 <= j < k ==> !(self.spec_occupant(
                        self.spec_tile(#[trigger] order@[j].1)->0,
                    ) is None && spec_dist(caster_hex, order@[j].1) <= range),
            decreases n - k,
        {
            let h = order[k].1;
            let found = self.in_range_and_empty(caster_hex, h, range);
            if let Option::Some(tile) = found {
                proof {
                    let tt = self.spec_tile(h)->0;
                    let o = spec_to_oddr(h);
                    self.lemma_grid_round_trip(o.0, o.1);
                    assert(self.spec_hex_of(tt) == h);
                    assert(self.valid_close_tile(caster_hex, range, tile as int));
                    assert forall|t2: int|
                        #[trigger] self.valid_close_tile(caster_hex, range, t2)
                            implies self.approach_key_le(
                        target_hex,
                        caster_hex,
                        tile as int,
                        t2,
                    ) by {
                        assert(hex_listed(order@, self.spec_hex_of(t2)));
                        let i2 = choose|i: int|
                            0 <= i < order@.len() && #[trigger] order@[i].1 == self.spec_hex_of(
                                t2,
                            );
                        assert(self.spec_tile(order@[i2].1)->0 == t2) by {
                            self.lemma_tile_round_trip(t2);
                        }
                        if i2 < k {
                            assert(false);
                        } else if i2 > k {
                            assert(dist_pair_le(
                                Option::Some(caster_hex),
                                order@[k as int],
                                order@[i2],
                            ));
                        }
                    }
                }
                return Option::Some(tile);
            }
            k = k + 1;
        }
        proof {
            assert forall|t2: int| !(#[trigger] self.valid_close_tile(
                caster_hex,
                range,
                t2,
            )) by {
                if self.valid_close_tile(caster_hex, range, t2) {
                    assert(hex_listed(order@, self.spec_hex_of(t2)));
                    let i2 = choose|i: int|
                        0 <= i < order@.len() && #[trigger] order@[i].1 == self.spec_hex_of(t2);
                    assert(self.spec_tile(order@[i2].1)->0 == t2) by {
                        self.lemma_tile_round_trip(t2);
                    }
                    assert(false);
                }
            }
        }
        Option::None
    }

    /// Clears a tile.
    pub fn vacate(&mut self, tile: usize)
        requires
            old(self).wf(),
            tile < old(self).tile_count(),
        ensures
            final(self).wf(),
            final(self).width == old(self).width,
            final(self).height == old(self).height,
            final(self).occupants@ == old(self).occupants@.update(
                tile as int,
                Option::None::<usize>,
            ),
    {
        self.occupants.set(tile, Option::None);
    }
}

} // verus!
