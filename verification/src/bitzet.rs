//! A sparse set of signed 2D coordinates backed by four fixed-size bit
//! arrays, one per quadrant of the plane.  A coordinate's bit position is the
//! Morton index of its magnitudes; a per-quadrant high-water mark (the
//! largest index ever set, never decreased by deletion) bounds counting and
//! iteration to the words actually used.
//!
//! The mathematical model of a set is the `Set<Vec2>` of its member
//! coordinates, reached through the `@` view.

use vstd::prelude::*;
use crate::Error;
use crate::bits::{
    bit_at,
    bits_below,
    bit_indices,
    bit_test,
    bit_set,
    bit_reset,
    bit_andnot,
    count_bits,
    zero_words,
    lemma_bits_below_finite,
    lemma_bit_indices_is_bits_below,
};
use crate::math::Vec2;
use crate::zorder::{
    in_domain,
    quad_of,
    zidx,
    recon,
    valid_slot,
    lemma_slot_of_coord,
    lemma_coord_of_slot,
    quadrant_index,
    zorder_abs,
};

verus! {

/// A bounded sparse set of signed 2D coordinates.
pub struct Bitzet {
    w0: Vec<u32>,
    w1: Vec<u32>,
    w2: Vec<u32>,
    w3: Vec<u32>,
    m0: usize,
    m1: usize,
    m2: usize,
    m3: usize,
}

impl Bitzet {
    /// The bit-array words of quadrant `q`.
    pub closed spec fn quad_words(self, q: int) -> Seq<u32> {
        if q == 0 {
            self.w0@
        } else if q == 1 {
            self.w1@
        } else if q == 2 {
            self.w2@
        } else {
            self.w3@
        }
    }

    /// The high-water mark of quadrant `q`.
    pub closed spec fn quad_mark(self, q: int) -> int {
        (if q == 0 {
            self.m0
        } else if q == 1 {
            self.m1
        } else if q == 2 {
            self.m2
        } else {
            self.m3
        }) as int
    }

    /// The per-quadrant capacity, in 32-bit words.
    pub closed spec fn spec_capacity(&self) -> usize {
        self.w0@.len() as usize
    }

    /// Well-formedness: the four quadrants have the same capacity, every set
    /// bit lies at or below its quadrant's high-water mark, and every set
    /// bit names an actual coordinate of that quadrant.
    pub closed spec fn wf(self) -> bool {
        &&& self.w1@.len() == self.w0@.len()
        &&& self.w2@.len() == self.w0@.len()
        &&& self.w3@.len() == self.w0@.len()
        &&& self.w0@.len() <= usize::MAX as int / 128
        &&& forall|q: int, z: int|
            0 <= q < 4 && #[trigger] bit_at(self.quad_words(q), z) ==> z <= self.quad_mark(q)
                && valid_slot(q, z as u32)
        &&& forall|q: int| 0 <= q < 4 ==> 0 <= #[trigger] self.quad_mark(q) < 0x1_0000_0000
    }

    /// Whether the Morton index of `v` falls within the configured capacity.
    pub open spec fn fits(self, v: Vec2) -> bool {
        zidx(v) / 32 < self.spec_capacity()
    }

    /// The per-quadrant capacity, in 32-bit words.
    #[verifier::when_used_as_spec(spec_capacity)]
    pub fn capacity(&self) -> (r: usize)
        ensures
            r == self.spec_capacity(),
    {
        self.w0.len()
    }

    /// The all-empty set, with `words` 32-bit words (so `words * 32` Morton
    /// indices) per quadrant.
    pub fn new(words: usize) -> (r: Bitzet)
        requires
            words <= usize::MAX / 128,
        ensures
            r.wf(),
            r@ == Set::<Vec2>::empty(),
            r.spec_capacity() == words,
    {
        let r = Bitzet {
            w0: zero_words(words),
            w1: zero_words(words),
            w2: zero_words(words),
            w3: zero_words(words),
            m0: 0,
            m1: 0,
            m2: 0,
            m3: 0,
        };
        proof {
            assert(r@ =~= Set::<Vec2>::empty());
        }
        r
    }

    /// A set of the given capacity holding every representable coordinate
    /// of `coords`; the rest (out of the codec's domain, or beyond the
    /// capacity) are left out.
    #[verifier::loop_isolation(false)]
    pub fn from_coords(words: usize, coords: &Vec<Vec2>) -> (r: Bitzet)
        requires
            words <= usize::MAX / 128,
        ensures
            r.wf(),
            r.spec_capacity() == words,
            forall|u: Vec2| #[trigger] r@.contains(u) <==> (coords@.contains(u) && in_domain(u)
                && zidx(u) / 32 < words),
    {
        let mut r = Bitzet::new(words);
        let mut i: usize = 0;
        while i < coords.len()
            invariant
                r.wf(),
                r.spec_capacity() == words,
                i <= coords@.len(),
                forall|u: Vec2| #[trigger] r@.contains(u) <==> ((exists|j: int|
                    0 <= j < i && coords@[j] == u) && in_domain(u) && zidx(u) / 32 < words),
            decreases coords@.len() - i,
        {
            let c = coords[i];
            let ghost r_before = r@;
            let res = r.insert(c);
            proof {
                assert forall|u: Vec2| #[trigger] r@.contains(u) <==> ((exists|j: int|
                    0 <= j < i + 1 && coords@[j] == u) && in_domain(u) && zidx(u) / 32
                    < words) by {
                    if u == c {
                        if res is Ok {
                            assert(coords@[i as int] == u);
                        } else {
                            assert(!(in_domain(u) && zidx(u) / 32 < words));
                            assert(r@.contains(u) == r_before.contains(u));
                        }
                    } else {
                        assert(r@.contains(u) == r_before.contains(u));
                    }
                }
            }
            i = i + 1;
        }
        r
    }

    /// Membership test on the model, total over all coordinates: a
    /// coordinate whose Morton index cannot be stored is never a member.
    fn test_member(&self, v: &Vec2) -> (r: bool)
        requires
            self.wf(),
        ensures
            r == self@.contains(*v),
    {
        if !(v.x > -65536 && v.x < 65536 && v.y > -65536 && v.y < 65536) {
            return false;
        }
        let z = zorder_abs(v);
        if z / 32 >= self.capacity() {
            return false;
        }
        let q = quadrant_index(v);
        let r = match q {
            0 => bit_test(&self.w0, z),
            1 => bit_test(&self.w1, z),
            2 => bit_test(&self.w2, z),
            _ => bit_test(&self.w3, z),
        };
        r
    }

    /// The bit for `v`, as a checked result: out-of-range coordinates are
    /// rejected rather than silently wrapped into some other bit.
    pub fn get(&self, v: &Vec2) -> (r: Result<bool, Error>)
        requires
            self.wf(),
        ensures
            match r {
                Ok(b) => in_domain(*v) && self.fits(*v) && b == self@.contains(*v),
                Err(Error::OutOfDomain) => !in_domain(*v) && !self@.contains(*v),
                Err(Error::CapacityExceeded) => in_domain(*v) && !self.fits(*v)
                    && !self@.contains(*v),
                Err(_) => false,
            },
    {
        if !(v.x > -65536 && v.x < 65536 && v.y > -65536 && v.y < 65536) {
            return Err(Error::OutOfDomain);
        }
        let z = zorder_abs(v);
        if z / 32 >= self.capacity() {
            return Err(Error::CapacityExceeded);
        }
        Ok(self.test_member(v))
    }

    /// Membership test; same contract as `get`.
    pub fn contains(&self, v: &Vec2) -> (r: Result<bool, Error>)
        requires
            self.wf(),
        ensures
            match r {
                Ok(b) => in_domain(*v) && self.fits(*v) && b == self@.contains(*v),
                Err(Error::OutOfDomain) => !in_domain(*v) && !self@.contains(*v),
                Err(Error::CapacityExceeded) => in_domain(*v) && !self.fits(*v)
                    && !self@.contains(*v),
                Err(_) => false,
            },
    {
        self.get(v)
    }

    /// Insert `v`.  A no-op (also on the stored words and marks) if `v` is
    /// already a member; an error, leaving the set unchanged, if `v` cannot
    /// be represented.
    pub fn insert(&mut self, v: Vec2) -> (r: Result<(), Error>)
        requires
            old(self).wf(),
        ensures
            final(self).wf(),
            final(self).spec_capacity() == old(self).spec_capacity(),
            match r {
                Ok(()) => in_domain(v) && old(self).fits(v)
                    && final(self)@ == old(self)@.insert(v),
                Err(Error::OutOfDomain) => !in_domain(v) && *final(self) == *old(self),
                Err(Error::CapacityExceeded) => in_domain(v) && !old(self).fits(v) && *final(self)
                    == *old(self),
                Err(_) => false,
            },
            old(self)@.contains(v) ==> *final(self) == *old(self),
    {
        if !(v.x > -65536 && v.x < 65536 && v.y > -65536 && v.y < 65536) {
            return Err(Error::OutOfDomain);
        }
        let z = zorder_abs(&v);
        if z / 32 >= self.capacity() {
            return Err(Error::CapacityExceeded);
        }
        if self.test_member(&v) {
            proof {
                assert(self@ =~= old(self)@.insert(v));
            }
            return Ok(());
        }
        let q = quadrant_index(&v);
        proof {
            lemma_slot_of_coord(v);
        }
        match q {
            0 => {
                bit_set(&mut self.w0, z);
                if z > self.m0 {
                    self.m0 = z;
                }
            },
            1 => {
                bit_set(&mut self.w1, z);
                if z > self.m1 {
                    self.m1 = z;
                }
            },
            2 => {
                bit_set(&mut self.w2, z);
                if z > self.m2 {
                    self.m2 = z;
                }
            },
            _ => {
                bit_set(&mut self.w3, z);
                if z > self.m3 {
                    self.m3 = z;
                }
            },
        }
        proof {
            let s0 = *old(self);
            let s1 = *self;
            let q0 = quad_of(v);
            assert forall|qq: int, zz: int|
                0 <= qq < 4 && #[trigger] bit_at(s1.quad_words(qq), zz) implies zz
                <= s1.quad_mark(qq) && valid_slot(qq, zz as u32) by {
                if qq == q0 && zz == zidx(v) {
                } else {
                    assert(bit_at(s0.quad_words(qq), zz));
                }
            }
            assert forall|qq: int| 0 <= qq < 4 implies 0 <= #[trigger] s1.quad_mark(qq)
                < 0x1_0000_0000 by {
                assert(0 <= s0.quad_mark(qq) < 0x1_0000_0000);
            }
            assert forall|u: Vec2| s1@.contains(u) == s0@.insert(v).contains(u) by {
                if in_domain(u) {
                    if quad_of(u) == q0 {
                        if zidx(u) == zidx(v) {
                            lemma_slot_of_coord(u);
                            assert(u == v);
                        }
                    }
                } else {
                    assert(u != v);
                }
            }
            assert(s1@ =~= s0@.insert(v));
        }
        Ok(())
    }

    /// Remove `v`.  A no-op (also on the stored words and marks, which keep
    /// their high-water values) if `v` is not a member; an error, leaving
    /// the set unchanged, if `v` cannot be represented.
    pub fn remove(&mut self, v: &Vec2) -> (r: Result<(), Error>)
        requires
            old(self).wf(),
        ensures
            final(self).wf(),
            final(self).spec_capacity() == old(self).spec_capacity(),
            match r {
                Ok(()) => in_domain(*v) && old(self).fits(*v)
                    && final(self)@ == old(self)@.remove(*v),
                Err(Error::OutOfDomain) => !in_domain(*v) && *final(self) == *old(self),
                Err(Error::CapacityExceeded) => in_domain(*v) && !old(self).fits(*v)
                    && *final(self) == *old(self),
                Err(_) => false,
            },
            !old(self)@.contains(*v) ==> *final(self) == *old(self),
    {
        if !(v.x > -65536 && v.x < 65536 && v.y > -65536 && v.y < 65536) {
            return Err(Error::OutOfDomain);
        }
        let z = zorder_abs(v);
        if z / 32 >= self.capacity() {
            return Err(Error::CapacityExceeded);
        }
        if !self.test_member(v) {
            proof {
                assert(self@ =~= old(self)@.remove(*v));
            }
            return Ok(());
        }
        let q = quadrant_index(v);
        proof {
            lemma_slot_of_coord(*v);
        }
        match q {
            0 => bit_reset(&mut self.w0, z),
            1 => bit_reset(&mut self.w1, z),
            2 => bit_reset(&mut self.w2, z),
            _ => bit_reset(&mut self.w3, z),
        }
        proof {
            let s0 = *old(self);
            let s1 = *self;
            let q0 = quad_of(*v);
            assert forall|qq: int, zz: int|
                0 <= qq < 4 && #[trigger] bit_at(s1.quad_words(qq), zz) implies zz
                <= s1.quad_mark(qq) && valid_slot(qq, zz as u32) by {
                assert(bit_at(s0.quad_words(qq), zz));
            }
            assert forall|qq: int| 0 <= qq < 4 implies 0 <= #[trigger] s1.quad_mark(qq)
                < 0x1_0000_0000 by {
                assert(0 <= s0.quad_mark(qq) < 0x1_0000_0000);
            }
            assert forall|u: Vec2| s1@.contains(u) == s0@.remove(*v).contains(u) by {
                if in_domain(u) {
                    if quad_of(u) == q0 {
                        if zidx(u) == zidx(*v) {
                            lemma_slot_of_coord(u);
                            assert(u == *v);
                        }
                    }
                } else {
                    assert(u != *v);
                }
            }
            assert(s1@ =~= s0@.remove(*v));
        }
        Ok(())
    }
}

/// The members of a single quadrant.
closed spec fn quad_view(s: Bitzet, q: int) -> Set<Vec2> {
    Set::new(|v: Vec2| s@.contains(v) && quad_of(v) == q)
}

/// The union of two disjoint finite sets has the sum of their sizes.
proof fn lemma_disjoint_union_len<A>(a: Set<A>, b: Set<A>)
    requires
        a.finite(),
        b.finite(),
        a.disjoint(b),
    ensures
        a.union(b).finite(),
        a.union(b).len() == a.len() + b.len(),
    decreases a.len(),
{
    broadcast use vstd::set::group_set_axioms;

    if a.is_empty() {
        assert(a.union(b) =~= b);
    } else {
        let e = a.choose();
        let a2 = a.remove(e);
        lemma_disjoint_union_len(a2, b);
        assert(a.union(b) =~= a2.union(b).insert(e));
        assert(!a2.union(b).contains(e));
    }
}

/// A quadrant holds exactly as many members as its bit array has set bits.
proof fn lemma_quad_count(s: Bitzet, q: int)
    requires
        s.wf(),
        0 <= q < 4,
    ensures
        quad_view(s, q).finite(),
        quad_view(s, q).len() == bit_indices(s.quad_words(q)).len(),
{
    let x = bit_indices(s.quad_words(q));
    let y = quad_view(s, q);
    let f = |z: int| recon(q, z as u32);
    lemma_bit_indices_is_bits_below(s.quad_words(q));
    assert forall|z1: int, z2: int|
        x.contains(z1) && x.contains(z2) && #[trigger] f(z1) == #[trigger] f(z2) implies z1
        == z2 by {
        lemma_coord_of_slot(q, z1 as u32);
        lemma_coord_of_slot(q, z2 as u32);
    }
    assert forall|v: Vec2| #[trigger] y.contains(v) implies x.map(f).contains(v) by {
        lemma_slot_of_coord(v);
        assert(x.contains(zidx(v)) && f(zidx(v)) == v);
    }
    assert forall|v: Vec2| #[trigger] x.map(f).contains(v) implies y.contains(v) by {
        let z = choose|z: int| x.contains(z) && f(z) == v;
        lemma_coord_of_slot(q, z as u32);
    }
    assert(x.map(f) =~= y);
    assert(vstd::relations::injective_on(f, x));
    vstd::set_lib::lemma_map_size(x, y, f);
}

impl Bitzet {
    /// The number of set bits in one quadrant, scanning only the words at
    /// or below the high-water mark.
    fn count_quadrant(words: &Vec<u32>, mark: usize) -> (r: usize)
        requires
            words@.len() <= usize::MAX / 128,
            forall|z: int| #[trigger] bit_at(words@, z) ==> z <= mark,
        ensures
            r == bit_indices(words@).len(),
            r <= 32 * words@.len(),
    {
        let wl = if mark / 32 + 1 <= words.len() {
            mark / 32 + 1
        } else {
            words.len()
        };
        let c = count_bits(words, wl);
        proof {
            lemma_bit_indices_is_bits_below(words@);
            assert forall|z: int| #[trigger] bit_at(words@, z) implies 0 <= z < 32 * wl by {
                assert(z == 32 * (z / 32) + z % 32);
                assert(mark as int == 32 * (mark as int / 32) + mark as int % 32);
            }
            assert(bits_below(words@, 32 * wl as int) =~= bit_indices(words@));
            lemma_bits_below_finite(words@, 32 * wl as int);
        }
        c
    }

    /// The number of member coordinates.
    pub fn len(&self) -> (r: usize)
        requires
            self.wf(),
        ensures
            r == self@.len(),
    {
        proof {
            assert forall|z: int| #[trigger] bit_at(self.w0@, z) implies z <= self.m0 by {
                assert(bit_at(self.quad_words(0), z));
            }
            assert forall|z: int| #[trigger] bit_at(self.w1@, z) implies z <= self.m1 by {
                assert(bit_at(self.quad_words(1), z));
            }
            assert forall|z: int| #[trigger] bit_at(self.w2@, z) implies z <= self.m2 by {
                assert(bit_at(self.quad_words(2), z));
            }
            assert forall|z: int| #[trigger] bit_at(self.w3@, z) implies z <= self.m3 by {
                assert(bit_at(self.quad_words(3), z));
            }
        }
        let t0 = Self::count_quadrant(&self.w0, self.m0);
        let t1 = Self::count_quadrant(&self.w1, self.m1);
        let t2 = Self::count_quadrant(&self.w2, self.m2);
        let t3 = Self::count_quadrant(&self.w3, self.m3);
        proof {
            lemma_quad_count(*self, 0);
            lemma_quad_count(*self, 1);
            lemma_quad_count(*self, 2);
            lemma_quad_count(*self, 3);
            let v0 = quad_view(*self, 0);
            let v1 = quad_view(*self, 1);
            let v2 = quad_view(*self, 2);
            let v3 = quad_view(*self, 3);
            lemma_disjoint_union_len(v0, v1);
            lemma_disjoint_union_len(v0.union(v1), v2);
            lemma_disjoint_union_len(v0.union(v1).union(v2), v3);
            assert(v0.union(v1).union(v2).union(v3) =~= self@);
        }
        t0 + t1 + t2 + t3
    }

    /// The set of coordinates in `self` but not in `other`: a per-quadrant
    /// bitwise and-not.  The result keeps `self`'s capacity and high-water
    /// marks, which stay valid upper bounds since bits are only cleared.
    pub fn difference(&self, other: &Bitzet) -> (r: Bitzet)
        requires
            self.wf(),
            other.wf(),
        ensures
            r.wf(),
            r@ == self@.difference(other@),
            r.spec_capacity() == self.spec_capacity(),
    {
        let r = Bitzet {
            w0: bit_andnot(&self.w0, &other.w0),
            w1: bit_andnot(&self.w1, &other.w1),
            w2: bit_andnot(&self.w2, &other.w2),
            w3: bit_andnot(&self.w3, &other.w3),
            m0: self.m0,
            m1: self.m1,
            m2: self.m2,
            m3: self.m3,
        };
        proof {
            assert forall|qq: int, zz: int|
                0 <= qq < 4 && #[trigger] bit_at(r.quad_words(qq), zz) implies zz <= r.quad_mark(
                qq,
            ) && valid_slot(qq, zz as u32) by {
                assert(bit_at(self.quad_words(qq), zz));
            }
            assert forall|qq: int| 0 <= qq < 4 implies 0 <= #[trigger] r.quad_mark(qq)
                < 0x1_0000_0000 by {
                assert(0 <= self.quad_mark(qq) < 0x1_0000_0000);
            }
            assert(r@ =~= self@.difference(other@));
        }
        r
    }
}

/// A well-formed set's capacity leaves room for the bit arithmetic on
/// indices and counts.
pub proof fn lemma_wf_capacity(s: Bitzet)
    requires
        s.wf(),
    ensures
        s.spec_capacity() <= usize::MAX / 128,
{
}

/// Every member coordinate is representable: it lies in the codec's domain
/// and its Morton index falls within the capacity.
pub proof fn lemma_member_represented(s: Bitzet, v: Vec2)
    requires
        s.wf(),
        s@.contains(v),
    ensures
        in_domain(v),
        s.fits(v),
        0 <= zidx(v),
{
    lemma_slot_of_coord(v);
}

/// Membership after a mutation: immediately after an insert the coordinate
/// is a member, and immediately after a remove it is not.
pub proof fn lemma_membership(s: Set<Vec2>, c: Vec2)
    ensures
        s.insert(c).contains(c),
        !s.remove(c).contains(c),
{
}

/// Idempotence: inserting a member again changes nothing, and removing an
/// absent coordinate changes nothing.  (`insert` and `remove` also promise
/// that the stored words and marks are untouched in those cases.)
pub proof fn lemma_insert_remove_idempotent(s: Set<Vec2>, c: Vec2)
    ensures
        s.insert(c).insert(c) == s.insert(c),
        !s.contains(c) ==> s.remove(c) == s,
        s.contains(c) ==> s.insert(c) == s,
{
    assert(s.insert(c).insert(c) =~= s.insert(c));
    if !s.contains(c) {
        assert(s.remove(c) =~= s);
    }
    if s.contains(c) {
        assert(s.insert(c) =~= s);
    }
}

/// The difference of a set with itself is empty; together with
/// `difference`'s own contract, a set's difference holds exactly the
/// coordinates of the first set that are not in the second.
pub proof fn lemma_self_difference_empty(s: Set<Vec2>)
    ensures
        s.difference(s) == Set::<Vec2>::empty(),
{
    assert(s.difference(s) =~= Set::<Vec2>::empty());
}

/// Lexicographic order on traversal positions: quadrant first, then Morton
/// index within the quadrant (the Z-order curve).
pub open spec fn key_le(q1: int, z1: int, q2: int, z2: int) -> bool {
    q1 < q2 || (q1 == q2 && z1 <= z2)
}

/// Strict lexicographic order on traversal positions.
pub open spec fn key_lt(q1: int, z1: int, q2: int, z2: int) -> bool {
    q1 < q2 || (q1 == q2 && z1 < z2)
}

/// A restartable cursor over the members of a `Bitzet`, visiting quadrants
/// in order and, within a quadrant, Morton indices in ascending order.
pub struct ZOrderIterator<'a> {
    z: usize,
    quadrant: usize,
    s: &'a Bitzet,
}

impl<'a> ZOrderIterator<'a> {
    /// The set being traversed.
    pub closed spec fn src(self) -> Bitzet {
        *self.s
    }

    /// The quadrant the cursor stands in.
    pub closed spec fn cur_q(self) -> int {
        self.quadrant as int
    }

    /// The Morton index the cursor stands at.
    pub closed spec fn cur_z(self) -> int {
        self.z as int
    }

    /// Well-formedness of the cursor.
    pub closed spec fn wf(self) -> bool {
        &&& (*self.s).wf()
        &&& self.quadrant <= 4
        &&& self.z <= 32 * (*self.s).spec_capacity()
    }

    /// Advance to the next member at or after the cursor, if any: the
    /// returned coordinate is a member, no member lies between the old
    /// cursor and it, and the cursor moves just past it.  `None` exactly
    /// when no member remains at or after the cursor.
    pub fn next(&mut self) -> (r: Option<Vec2>)
        requires
            old(self).wf(),
        ensures
            final(self).wf(),
            final(self).src() == old(self).src(),
            match r {
                Some(v) => {
                    &&& old(self).src()@.contains(v)
                    &&& key_le(old(self).cur_q(), old(self).cur_z(), quad_of(v), zidx(v))
                    &&& forall|u: Vec2|
                        old(self).src()@.contains(u) && key_le(
                            old(self).cur_q(),
                            old(self).cur_z(),
                            quad_of(u),
                            zidx(u),
                        ) && u != v ==> key_le(
                            final(self).cur_q(),
                            final(self).cur_z(),
                            quad_of(u),
                            zidx(u),
                        )
                    &&& final(self).cur_q() == quad_of(v)
                    &&& final(self).cur_z() == zidx(v) + 1
                },
                None => {
                    &&& forall|u: Vec2|
                        old(self).src()@.contains(u) ==> !key_le(
                            old(self).cur_q(),
                            old(self).cur_z(),
                            quad_of(u),
                            zidx(u),
                        )
                    &&& final(self).cur_q() >= 4
                },
            },
    {
        let ghost it0 = *self;
        let s = self.s;
        loop
            invariant
                it0 == *old(self),
                self.wf(),
                self.s == it0.s,
                s == it0.s,
                it0.wf(),
                key_le(it0.cur_q(), it0.cur_z(), self.cur_q(), self.cur_z()),
                forall|u: Vec2|
                    it0.src()@.contains(u) && key_le(
                        it0.cur_q(),
                        it0.cur_z(),
                        quad_of(u),
                        zidx(u),
                    ) ==> key_le(self.cur_q(), self.cur_z(), quad_of(u), zidx(u)),
            ensures
                self.wf(),
                self.s == it0.s,
                key_le(it0.cur_q(), it0.cur_z(), self.cur_q(), self.cur_z()),
                forall|u: Vec2|
                    it0.src()@.contains(u) && key_le(
                        it0.cur_q(),
                        it0.cur_z(),
                        quad_of(u),
                        zidx(u),
                    ) ==> key_le(self.cur_q(), self.cur_z(), quad_of(u), zidx(u)),
                self.quadrant < 4,
                self.z / 32 < (*self.s).spec_capacity(),
                bit_at((*self.s).quad_words(self.cur_q()), self.cur_z()),
            decreases 4 - self.quadrant as int, 32 * (*self.s).spec_capacity() + 1 - self.z as int,
        {
            if self.quadrant >= 4 {
                proof {
                    assert forall|u: Vec2| it0.src()@.contains(u) implies !key_le(
                        it0.cur_q(),
                        it0.cur_z(),
                        quad_of(u),
                        zidx(u),
                    ) by {
                        assert(quad_of(u) < 4);
                    }
                }
                return None;
            }
            let cap = s.capacity();
            let (mark, words): (usize, &Vec<u32>) = match self.quadrant {
                0 => (s.m0, &s.w0),
                1 => (s.m1, &s.w1),
                2 => (s.m2, &s.w2),
                _ => (s.m3, &s.w3),
            };
            proof {
                assert(mark == s.quad_mark(self.cur_q()) && words@ == s.quad_words(self.cur_q()));
            }
            if self.z > mark || self.z / 32 >= cap {
                proof {
                    let q = self.cur_q();
                    let z = self.cur_z();
                    assert forall|u: Vec2|
                        it0.src()@.contains(u) && key_le(
                            it0.cur_q(),
                            it0.cur_z(),
                            quad_of(u),
                            zidx(u),
                        ) implies key_le(q + 1, 0, quad_of(u), zidx(u)) by {
                        if quad_of(u) == q {
                            assert(bit_at(s.quad_words(q), zidx(u)));
                            if self.z as int / 32 >= cap {
                                vstd::arithmetic::div_mod::lemma_div_is_ordered(
                                    z,
                                    zidx(u),
                                    32,
                                );
                                assert(zidx(u) == 32 * (zidx(u) / 32) + zidx(u) % 32);
                            }
                        }
                    }
                }
                self.quadrant = self.quadrant + 1;
                self.z = 0;
                continue;
            }
            if bit_test(words, self.z) {
                break;
            }
            proof {
                let q = self.cur_q();
                let z = self.cur_z();
                assert forall|u: Vec2|
                    it0.src()@.contains(u) && key_le(
                        it0.cur_q(),
                        it0.cur_z(),
                        quad_of(u),
                        zidx(u),
                    ) implies key_le(q, z + 1, quad_of(u), zidx(u)) by {
                    if quad_of(u) == q && zidx(u) == z {
                        assert(bit_at(s.quad_words(q), zidx(u)));
                    }
                }
            }
            self.z = self.z + 1;
        }
        let z = self.z;
        let q = self.quadrant;
        proof {
            assert(bit_at(s.quad_words(q as int), z as int));
            assert(z as int <= s.quad_mark(q as int));
            lemma_coord_of_slot(q as int, z as u32);
        }
        let ret = crate::zorder::zorder_inverse(z as u32);
        let v = match q {
            0 => Vec2::new(ret.x, ret.y),
            1 => Vec2::new(-ret.x, ret.y),
            2 => Vec2::new(ret.x, -ret.y),
            _ => Vec2::new(-ret.x, -ret.y),
        };
        proof {
            assert(v == recon(q as int, z as u32));
            assert(it0.src()@.contains(v));
            assert forall|u: Vec2|
                it0.src()@.contains(u) && key_le(it0.cur_q(), it0.cur_z(), quad_of(u), zidx(u))
                    && u != v implies key_le(q as int, z as int + 1, quad_of(u), zidx(u)) by {
                if quad_of(u) == q as int && zidx(u) == z as int {
                    lemma_slot_of_coord(u);
                    assert(u == v);
                }
            }
        }
        self.z = z + 1;
        Some(v)
    }
}

impl Bitzet {
    /// A restartable cursor over the members, quadrant by quadrant and in
    /// ascending Morton order within each quadrant.
    pub fn iter<'a>(&'a self) -> (r: ZOrderIterator<'a>)
        requires
            self.wf(),
        ensures
            r.wf(),
            r.src() == *self,
            r.cur_q() == 0,
            r.cur_z() == 0,
    {
        ZOrderIterator { s: self, quadrant: 0, z: 0 }
    }

    /// All members, in traversal order: along the Z-order curve of each
    /// quadrant in turn, each member exactly once.
    pub fn to_vec(&self) -> (r: Vec<Vec2>)
        requires
            self.wf(),
        ensures
            forall|v: Vec2| #[trigger] r@.contains(v) <==> self@.contains(v),
            r@.no_duplicates(),
            forall|i: int, j: int|
                0 <= i < j < r@.len() ==> key_lt(
                    quad_of(r@[i]),
                    zidx(r@[i]),
                    quad_of(r@[j]),
                    zidx(r@[j]),
                ),
    {
        let mut out: Vec<Vec2> = Vec::new();
        let mut it = self.iter();
        loop
            invariant
                it.wf(),
                it.src() == *self,
                self.wf(),
                forall|v: Vec2| #[trigger] out@.contains(v) <==> (self@.contains(v) && key_lt(
                    quad_of(v),
                    zidx(v),
                    it.cur_q(),
                    it.cur_z(),
                )),
                forall|i: int, j: int|
                    0 <= i < j < out@.len() ==> key_lt(
                        quad_of(out@[i]),
                        zidx(out@[i]),
                        quad_of(out@[j]),
                        zidx(out@[j]),
                    ),
            ensures
                forall|v: Vec2| #[trigger] out@.contains(v) <==> self@.contains(v),
                forall|i: int, j: int|
                    0 <= i < j < out@.len() ==> key_lt(
                        quad_of(out@[i]),
                        zidx(out@[i]),
                        quad_of(out@[j]),
                        zidx(out@[j]),
                    ),
            decreases 4 - it.cur_q(), 32 * it.src().spec_capacity() + 1 - it.cur_z(),
        {
            let ghost it_before = it;
            let ghost out_before = out@;
            match it.next() {
                Some(v) => {
                    proof {
                        assert(self@.contains(v));
                        assert(bit_at(self.quad_words(quad_of(v)), zidx(v)));
                    }
                    out.push(v);
                    proof {
                        assert forall|u: Vec2| #[trigger] out@.contains(u) implies (
                        self@.contains(u) && key_lt(
                            quad_of(u),
                            zidx(u),
                            it.cur_q(),
                            it.cur_z(),
                        )) by {
                            let i = choose|i: int| 0 <= i < out@.len() && out@[i] == u;
                            if i < out_before.len() {
                                assert(out_before.contains(u));
                            } else {
                                assert(u == v);
                            }
                        }
                        assert forall|u: Vec2|
                            self@.contains(u) && key_lt(
                                quad_of(u),
                                zidx(u),
                                it.cur_q(),
                                it.cur_z(),
                            ) implies #[trigger] out@.contains(u) by {
                            if u == v {
                                assert(out@[out@.len() - 1] == v);
                            } else if key_le(
                                it_before.cur_q(),
                                it_before.cur_z(),
                                quad_of(u),
                                zidx(u),
                            ) {
                                assert(key_le(it.cur_q(), it.cur_z(), quad_of(u), zidx(u)));
                            } else {
                                assert(out_before.contains(u));
                                let i = choose|i: int|
                                    0 <= i < out_before.len() && out_before[i] == u;
                                assert(out@[i] == u);
                            }
                        }
                        assert forall|i: int, j: int| 0 <= i < j < out@.len() implies key_lt(
                            quad_of(out@[i]),
                            zidx(out@[i]),
                            quad_of(out@[j]),
                            zidx(out@[j]),
                        ) by {
                            if j == out@.len() - 1 {
                                assert(out_before.contains(out_before[i]));
                            }
                        }
                    }
                },
                None => {
                    break;
                },
            }
        }
        proof {
            assert forall|i: int, j: int|
                0 <= i < out@.len() && 0 <= j < out@.len() && i != j implies out@[i] != out@[j] by {
                if i < j {
                    assert(key_lt(
                        quad_of(out@[i]),
                        zidx(out@[i]),
                        quad_of(out@[j]),
                        zidx(out@[j]),
                    ));
                } else {
                    assert(key_lt(
                        quad_of(out@[j]),
                        zidx(out@[j]),
                        quad_of(out@[i]),
                        zidx(out@[i]),
                    ));
                }
            }
        }
        out
    }
}

impl View for Bitzet {
    type V = Set<Vec2>;

    /// The set of member coordinates.
    closed spec fn view(&self) -> Set<Vec2> {
        Set::new(|v: Vec2| in_domain(v) && bit_at(self.quad_words(quad_of(v)), zidx(v)))
    }
}

} // verus!
