//! The hexagonal neighbour rule and the cellular-automaton step.
//!
//! Coordinates live on an axial "even-row offset" hex layout: a cell has six
//! neighbours, and the `x` offset of the four diagonal ones depends on the
//! parity of `|y|`.  One step of the automaton keeps every live cell with a
//! neighbour count in the survive range and gives birth to every adjacent
//! empty cell with exactly the birth count, clamped to a bounded arena.

use vstd::prelude::*;
use crate::bitzet::{Bitzet, key_le, key_lt, lemma_member_represented, lemma_wf_capacity};
use crate::math::{abs_val, Vec2};
use crate::zorder::{in_domain, quad_of, zidx};

verus! {

/// The parity shift of a row: diagonal neighbours of odd rows sit one cell
/// to the right of those of even rows.
pub open spec fn row_shift(v: Vec2) -> int {
    abs_val(v.y as int) % 2
}

/// The six neighbours of `v` under the offset hex layout, in a fixed order.
pub open spec fn neighbors_spec(v: Vec2) -> Seq<Vec2> {
    seq![
        Vec2 { x: (v.x + 1) as i32, y: v.y },
        Vec2 { x: (v.x - 1) as i32, y: v.y },
        Vec2 { x: (v.x - 1 + row_shift(v)) as i32, y: (v.y + 1) as i32 },
        Vec2 { x: (v.x + row_shift(v)) as i32, y: (v.y + 1) as i32 },
        Vec2 { x: (v.x - 1 + row_shift(v)) as i32, y: (v.y - 1) as i32 },
        Vec2 { x: (v.x + row_shift(v)) as i32, y: (v.y - 1) as i32 },
    ]
}

/// The six neighbours of `v`, in the order of `neighbors_spec`.
pub fn adjacent(v: Vec2) -> (r: [Vec2; 6])
    requires
        i32::MIN < v.x < i32::MAX,
        i32::MIN < v.y < i32::MAX,
    ensures
        r@ == neighbors_spec(v),
{
    let ay: i32 = if v.y < 0 {
        -v.y
    } else {
        v.y
    };
    let xshift: i32 = ay % 2;
    let r = [
        Vec2::new(v.x + 1, v.y),
        Vec2::new(v.x - 1, v.y),
        Vec2::new(v.x - 1 + xshift, v.y + 1),
        Vec2::new(v.x + xshift, v.y + 1),
        Vec2::new(v.x - 1 + xshift, v.y - 1),
        Vec2::new(v.x + xshift, v.y - 1),
    ];
    proof {
        assert(r@ =~= neighbors_spec(v));
    }
    r
}

/// How many of the first `n` entries of `s` are members of `g`.
pub open spec fn count_live_prefix(g: Set<Vec2>, s: Seq<Vec2>, n: int) -> int
    decreases n,
{
    if n <= 0 {
        0
    } else {
        count_live_prefix(g, s, n - 1) + if g.contains(s[n - 1]) {
            1int
        } else {
            0int
        }
    }
}

/// The number of live neighbours of `v` in generation `g`.
pub open spec fn live_neighbors(g: Set<Vec2>, v: Vec2) -> int {
    count_live_prefix(g, neighbors_spec(v), 6)
}

/// Count the live neighbours of `v` in `g`.  A neighbour that cannot be
/// represented in `g` is not a member and counts as dead.
pub fn count_live(g: &Bitzet, v: Vec2) -> (n: usize)
    requires
        g.wf(),
        i32::MIN < v.x < i32::MAX,
        i32::MIN < v.y < i32::MAX,
    ensures
        n == live_neighbors(g@, v),
{
    let ns = adjacent(v);
    let mut n: usize = 0;
    let mut i: usize = 0;
    while i < 6
        invariant
            i <= 6,
            n <= i,
            g.wf(),
            ns@ == neighbors_spec(v),
            n == count_live_prefix(g@, neighbors_spec(v), i as int),
        decreases 6 - i,
    {
        let u = ns[i];
        let live = match g.contains(&u) {
            Ok(b) => b,
            Err(_) => false,
        };
        if live {
            n = n + 1;
        }
        i = i + 1;
    }
    n
}

/// The automaton's configuration: a live cell survives with a neighbour
/// count in `survive_min ..= survive_max`; an empty cell is born with
/// exactly `birth` live neighbours, and only strictly inside the square
/// arena `|x|, |y| < clamp`.
#[derive(Clone, Copy, Debug, PartialEq, Eq, Structural)]
pub struct Rule {
    pub survive_min: usize,
    pub survive_max: usize,
    pub birth: usize,
    pub clamp: i32,
}

impl Rule {
    /// The rule the LED panel runs: survive on 1 or 2 neighbours, birth on
    /// exactly 2, births clamped to `|x|, |y| < 15`.
    pub fn hex_default() -> (r: Rule)
        ensures
            r == (Rule { survive_min: 1, survive_max: 2, birth: 2, clamp: 15 }),
    {
        Rule { survive_min: 1, survive_max: 2, birth: 2, clamp: 15 }
    }
}

/// Whether `u` is adjacent to at least one live cell of `g`.
pub open spec fn reachable(g: Set<Vec2>, u: Vec2) -> bool {
    exists|d: Vec2| #[trigger] g.contains(d) && neighbors_spec(d).contains(u)
}

/// The rows `y` and `y + 1` have opposite parities.
proof fn lemma_parity_adjacent(y: int)
    ensures
        abs_val(y) % 2 + abs_val(y + 1) % 2 == 1,
{
    if y >= 0 {
        assert((y + 1) % 2 + y % 2 == 1) by (nonlinear_arith);
    } else {
        assert((-(y + 1)) % 2 + (-y) % 2 == 1) by (nonlinear_arith);
    }
}

/// Hex adjacency is symmetric: if `u` is a neighbour of `v`, then `v` is a
/// neighbour of `u`.
pub proof fn lemma_neighbors_symmetric(v: Vec2, u: Vec2)
    requires
        in_domain(v),
        neighbors_spec(v).contains(u),
    ensures
        neighbors_spec(u).contains(v),
{
    let i = choose|i: int| 0 <= i < 6 && neighbors_spec(v)[i] == u;
    lemma_parity_adjacent(v.y as int);
    lemma_parity_adjacent(v.y as int - 1);
    if i == 0 {
        assert(neighbors_spec(u)[1] == v);
    } else if i == 1 {
        assert(neighbors_spec(u)[0] == v);
    } else if i == 2 {
        assert(neighbors_spec(u)[5] == v);
    } else if i == 3 {
        assert(neighbors_spec(u)[4] == v);
    } else if i == 4 {
        assert(neighbors_spec(u)[3] == v);
    } else {
        assert(neighbors_spec(u)[2] == v);
    }
}

/// The neighbour count of a prefix is non-negative, and positive exactly
/// when the prefix holds a member.
proof fn lemma_count_live_prefix_pos(g: Set<Vec2>, s: Seq<Vec2>, n: int)
    ensures
        count_live_prefix(g, s, n) >= 0,
        (count_live_prefix(g, s, n) >= 1) <==> (exists|i: int| 0 <= i < n && g.contains(s[i])),
    decreases n,
{
    if n > 0 {
        lemma_count_live_prefix_pos(g, s, n - 1);
        if count_live_prefix(g, s, n) >= 1 && !g.contains(s[n - 1]) {
            let i = choose|i: int| 0 <= i < n - 1 && g.contains(s[i]);
            assert(0 <= i < n && g.contains(s[i]));
        }
        if g.contains(s[n - 1]) {
            assert(0 <= n - 1 < n && g.contains(s[n - 1]));
        }
    }
}

/// For a generation of representable cells, being adjacent to a live cell
/// is the same as having at least one live neighbour: the candidate set
/// the step builds from the live cells' neighbourhoods misses no birth.
pub proof fn lemma_reachable_iff_live_neighbors(g: Set<Vec2>, v: Vec2)
    requires
        in_domain(v),
        forall|d: Vec2| #[trigger] g.contains(d) ==> in_domain(d),
    ensures
        reachable(g, v) <==> live_neighbors(g, v) >= 1,
{
    lemma_count_live_prefix_pos(g, neighbors_spec(v), 6);
    if reachable(g, v) {
        let d = choose|d: Vec2| #[trigger] g.contains(d) && neighbors_spec(d).contains(v);
        lemma_neighbors_symmetric(d, v);
        let i = choose|i: int| 0 <= i < 6 && neighbors_spec(v)[i] == d;
        assert(g.contains(neighbors_spec(v)[i]));
    }
    if live_neighbors(g, v) >= 1 {
        let i = choose|i: int| 0 <= i < 6 && g.contains(neighbors_spec(v)[i]);
        let d = neighbors_spec(v)[i];
        lemma_neighbors_symmetric(v, d);
        assert(g.contains(d) && neighbors_spec(d).contains(v));
    }
}

/// Whether the live cell `v` of `g` survives the step.
pub open spec fn survives(g: Set<Vec2>, rule: Rule, v: Vec2) -> bool {
    &&& g.contains(v)
    &&& rule.survive_min <= live_neighbors(g, v) <= rule.survive_max
}

/// Whether the empty cell `v` is born by the step, given the capacity (in
/// words per quadrant) of the generation sets: a birth that cannot be
/// stored is clipped, like one outside the arena.
pub open spec fn born(g: Set<Vec2>, cap: int, rule: Rule, v: Vec2) -> bool {
    &&& !g.contains(v)
    &&& in_domain(v)
    &&& zidx(v) / 32 < cap
    &&& reachable(g, v)
    &&& live_neighbors(g, v) == rule.birth
    &&& abs_val(v.x as int) < rule.clamp
    &&& abs_val(v.y as int) < rule.clamp
}

/// Whether `v` is live in the next generation.
pub open spec fn step_spec(g: Set<Vec2>, cap: int, rule: Rule, v: Vec2) -> bool {
    survives(g, rule, v) || born(g, cap, rule, v)
}

/// The cells of `g` that survive into the next generation.
#[verifier::loop_isolation(false)]
fn survivors(g: &Bitzet, rule: &Rule) -> (r: Bitzet)
    requires
        g.wf(),
    ensures
        r.wf(),
        r.spec_capacity() == g.spec_capacity(),
        forall|v: Vec2| #[trigger] r@.contains(v) <==> survives(g@, *rule, v),
{
    proof {
        lemma_wf_capacity(*g);
    }
    let mut r = Bitzet::new(g.capacity());
    let mut it = g.iter();
    loop
        invariant
            it.wf(),
            it.src() == *g,
            r.wf(),
            r.spec_capacity() == g.spec_capacity(),
            forall|u: Vec2| #[trigger] r@.contains(u) <==> (survives(g@, *rule, u) && key_lt(
                quad_of(u),
                zidx(u),
                it.cur_q(),
                it.cur_z(),
            )),
        decreases 4 - it.cur_q(), 32 * g.spec_capacity() + 1 - it.cur_z(),
    {
        let ghost it_before = it;
        match it.next() {
            Some(v) => {
                proof {
                    lemma_member_represented(*g, v);
                }
                let n = count_live(g, v);
                let ghost r_before = r@;
                if rule.survive_min <= n && n <= rule.survive_max {
                    let res = r.insert(v);
                    proof {
                        assert(res is Ok);
                    }
                }
                proof {
                    assert forall|u: Vec2| #[trigger] r@.contains(u) <==> (survives(g@, *rule, u)
                        && key_lt(quad_of(u), zidx(u), it.cur_q(), it.cur_z())) by {
                        if u != v {
                            if survives(g@, *rule, u) && key_lt(
                                quad_of(u),
                                zidx(u),
                                it.cur_q(),
                                it.cur_z(),
                            ) && !key_lt(
                                quad_of(u),
                                zidx(u),
                                it_before.cur_q(),
                                it_before.cur_z(),
                            ) {
                                assert(key_le(
                                    it_before.cur_q(),
                                    it_before.cur_z(),
                                    quad_of(u),
                                    zidx(u),
                                ));
                                assert(key_le(it.cur_q(), it.cur_z(), quad_of(u), zidx(u)));
                            }
                        }
                    }
                }
            },
            None => {
                proof {
                    assert forall|u: Vec2| #[trigger] r@.contains(u) <==> survives(
                        g@,
                        *rule,
                        u,
                    ) by {
                        if survives(g@, *rule, u) {
                            assert(g@.contains(u));
                        }
                    }
                }
                break;
            },
        }
    }
    r
}

/// The set of representable cells adjacent to at least one live cell of
/// `g`, whether themselves live or not.
#[verifier::loop_isolation(false)]
fn neighbor_union(g: &Bitzet) -> (r: Bitzet)
    requires
        g.wf(),
    ensures
        r.wf(),
        r.spec_capacity() == g.spec_capacity(),
        forall|u: Vec2| #[trigger] r@.contains(u) <==> (in_domain(u) && zidx(u) / 32
            < g.spec_capacity() && reachable(g@, u)),
{
    proof {
        lemma_wf_capacity(*g);
    }
    let mut r = Bitzet::new(g.capacity());
    let mut it = g.iter();
    loop
        invariant
            it.wf(),
            it.src() == *g,
            r.wf(),
            r.spec_capacity() == g.spec_capacity(),
            forall|u: Vec2| #[trigger] r@.contains(u) <==> (in_domain(u) && zidx(u) / 32
                < g.spec_capacity() && exists|d: Vec2|
                #[trigger] g@.contains(d) && key_lt(quad_of(d), zidx(d), it.cur_q(), it.cur_z())
                    && neighbors_spec(d).contains(u)),
        decreases 4 - it.cur_q(), 32 * g.spec_capacity() + 1 - it.cur_z(),
    {
        let ghost it_before = it;
        match it.next() {
            Some(v) => {
                proof {
                    lemma_member_represented(*g, v);
                }
                let ns = adjacent(v);
                let mut i: usize = 0;
                while i < 6
                    invariant
                        i <= 6,
                        ns@ == neighbors_spec(v),
                        r.wf(),
                        r.spec_capacity() == g.spec_capacity(),
                        forall|u: Vec2| #[trigger] r@.contains(u) <==> (in_domain(u) && zidx(u)
                            / 32 < g.spec_capacity() && ((exists|d: Vec2|
                            #[trigger] g@.contains(d) && key_lt(
                                quad_of(d),
                                zidx(d),
                                it_before.cur_q(),
                                it_before.cur_z(),
                            ) && neighbors_spec(d).contains(u)) || (exists|k: int|
                            0 <= k < i && neighbors_spec(v)[k] == u))),
                    decreases 6 - i,
                {
                    let u = ns[i];
                    let ghost r_before = r@;
                    let res = r.insert(u);
                    proof {
                        assert(neighbors_spec(v)[i as int] == u);
                        assert forall|w: Vec2| #[trigger] r@.contains(w) <==> (in_domain(w)
                            && zidx(w) / 32 < g.spec_capacity() && ((exists|d: Vec2|
                            #[trigger] g@.contains(d) && key_lt(
                                quad_of(d),
                                zidx(d),
                                it_before.cur_q(),
                                it_before.cur_z(),
                            ) && neighbors_spec(d).contains(w)) || (exists|k: int|
                            0 <= k < i + 1 && neighbors_spec(v)[k] == w))) by {
                            if w == u {
                                if res is Ok {
                                    assert(r@.contains(w));
                                    assert(0 <= i < i + 1 && neighbors_spec(v)[i as int] == w);
                                } else {
                                    assert(!(in_domain(w) && zidx(w) / 32 < g.spec_capacity()));
                                }
                            } else {
                                assert(r@.contains(w) == r_before.contains(w));
                                if r_before.contains(w) {
                                    assert(in_domain(w) && zidx(w) / 32 < g.spec_capacity());
                                }
                            }
                        }
                    }
                    i = i + 1;
                }
                proof {
                    assert forall|u: Vec2| #[trigger] r@.contains(u) <==> (in_domain(u) && zidx(u)
                        / 32 < g.spec_capacity() && exists|d: Vec2|
                        #[trigger] g@.contains(d) && key_lt(
                            quad_of(d),
                            zidx(d),
                            it.cur_q(),
                            it.cur_z(),
                        ) && neighbors_spec(d).contains(u)) by {
                        if r@.contains(u) {
                            if exists|k: int| 0 <= k < 6 && neighbors_spec(v)[k] == u {
                                assert(g@.contains(v) && key_lt(
                                    quad_of(v),
                                    zidx(v),
                                    it.cur_q(),
                                    it.cur_z(),
                                ) && neighbors_spec(v).contains(u));
                            } else {
                                let d = choose|d: Vec2|
                                    #[trigger] g@.contains(d) && key_lt(
                                        quad_of(d),
                                        zidx(d),
                                        it_before.cur_q(),
                                        it_before.cur_z(),
                                    ) && neighbors_spec(d).contains(u);
                                assert(key_lt(quad_of(d), zidx(d), it.cur_q(), it.cur_z()));
                            }
                        } else {
                            if in_domain(u) && zidx(u) / 32 < g.spec_capacity() {
                                if exists|d: Vec2|
                                    #[trigger] g@.contains(d) && key_lt(
                                        quad_of(d),
                                        zidx(d),
                                        it.cur_q(),
                                        it.cur_z(),
                                    ) && neighbors_spec(d).contains(u) {
                                    let d = choose|d: Vec2|
                                        #[trigger] g@.contains(d) && key_lt(
                                            quad_of(d),
                                            zidx(d),
                                            it.cur_q(),
                                            it.cur_z(),
                                        ) && neighbors_spec(d).contains(u);
                                    if d == v {
                                        let k = choose|k: int|
                                            0 <= k < 6 && neighbors_spec(v)[k] == u;
                                        assert(0 <= k < 6 && neighbors_spec(v)[k] == u);
                                    } else {
                                        assert(key_le(
                                            it_before.cur_q(),
                                            it_before.cur_z(),
                                            quad_of(d),
                                            zidx(d),
                                        ) ==> key_le(it.cur_q(), it.cur_z(), quad_of(d), zidx(d)));
                                    }
                                }
                            }
                        }
                    }
                }
            },
            None => {
                proof {
                    assert forall|u: Vec2| #[trigger] r@.contains(u) <==> (in_domain(u) && zidx(u)
                        / 32 < g.spec_capacity() && reachable(g@, u)) by {
                        if in_domain(u) && zidx(u) / 32 < g.spec_capacity() && reachable(g@, u) {
                            let d = choose|d: Vec2|
                                #[trigger] g@.contains(d) && neighbors_spec(d).contains(u);
                            assert(g@.contains(d) && key_lt(
                                quad_of(d),
                                zidx(d),
                                it.cur_q(),
                                it.cur_z(),
                            ) && neighbors_spec(d).contains(u));
                        }
                    }
                }
                break;
            },
        }
    }
    r
}

/// One step of the automaton with an explicit rule: the next generation is
/// a brand-new set holding the survivors of `g` and the clamped births,
/// while `g` itself is left untouched.
#[verifier::loop_isolation(false)]
pub fn step_with(g: &Bitzet, rule: &Rule) -> (r: Bitzet)
    requires
        g.wf(),
    ensures
        r.wf(),
        r.spec_capacity() == g.spec_capacity(),
        forall|v: Vec2| #[trigger] r@.contains(v) <==> step_spec(
            g@,
            g.spec_capacity() as int,
            *rule,
            v,
        ),
{
    let mut next = survivors(g, rule);
    let union = neighbor_union(g);
    let white = union.difference(g);
    let mut it = white.iter();
    loop
        invariant
            it.wf(),
            it.src() == white,
            next.wf(),
            next.spec_capacity() == g.spec_capacity(),
            forall|u: Vec2| #[trigger] next@.contains(u) <==> (survives(g@, *rule, u) || (
            white@.contains(u) && live_neighbors(g@, u) == rule.birth && abs_val(u.x as int)
                < rule.clamp && abs_val(u.y as int) < rule.clamp && key_lt(
                quad_of(u),
                zidx(u),
                it.cur_q(),
                it.cur_z(),
            ))),
        decreases 4 - it.cur_q(), 32 * white.spec_capacity() + 1 - it.cur_z(),
    {
        let ghost it_before = it;
        match it.next() {
            Some(c) => {
                proof {
                    lemma_member_represented(white, c);
                }
                let n = count_live(g, c);
                let ax: i32 = if c.x < 0 {
                    -c.x
                } else {
                    c.x
                };
                let ay: i32 = if c.y < 0 {
                    -c.y
                } else {
                    c.y
                };
                let ghost next_before = next@;
                if n == rule.birth && ax < rule.clamp && ay < rule.clamp {
                    let res = next.insert(c);
                    proof {
                        assert(res is Ok);
                    }
                }
                proof {
                    assert forall|u: Vec2| #[trigger] next@.contains(u) <==> (survives(
                        g@,
                        *rule,
                        u,
                    ) || (white@.contains(u) && live_neighbors(g@, u) == rule.birth && abs_val(
                        u.x as int,
                    ) < rule.clamp && abs_val(u.y as int) < rule.clamp && key_lt(
                        quad_of(u),
                        zidx(u),
                        it.cur_q(),
                        it.cur_z(),
                    ))) by {
                        if u != c {
                            if white@.contains(u) && key_lt(
                                quad_of(u),
                                zidx(u),
                                it.cur_q(),
                                it.cur_z(),
                            ) && !key_lt(
                                quad_of(u),
                                zidx(u),
                                it_before.cur_q(),
                                it_before.cur_z(),
                            ) {
                                assert(key_le(
                                    it_before.cur_q(),
                                    it_before.cur_z(),
                                    quad_of(u),
                                    zidx(u),
                                ));
                                assert(key_le(it.cur_q(), it.cur_z(), quad_of(u), zidx(u)));
                            }
                        }
                    }
                }
            },
            None => {
                break;
            },
        }
    }
    proof {
        assert forall|v: Vec2| #[trigger] next@.contains(v) <==> step_spec(
            g@,
            g.spec_capacity() as int,
            *rule,
            v,
        ) by {
            if white@.contains(v) {
                assert(key_lt(quad_of(v), zidx(v), it.cur_q(), it.cur_z()));
            }
        }
    }
    next
}

/// One step of the automaton under the default rule.
pub fn step(g: &Bitzet) -> (r: Bitzet)
    requires
        g.wf(),
    ensures
        r.wf(),
        r.spec_capacity() == g.spec_capacity(),
        forall|v: Vec2| #[trigger] r@.contains(v) <==> step_spec(
            g@,
            g.spec_capacity() as int,
            Rule { survive_min: 1, survive_max: 2, birth: 2, clamp: 15 },
            v,
        ),
{
    let rule = Rule::hex_default();
    step_with(g, &rule)
}

} // verus!
