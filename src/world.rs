use vstd::prelude::*;
use crate::direction::{Direction, step, pos, fits};
use crate::stage::{Stage, Tile, StageImpl, StageView, lemma_set_then_get};
use crate::bomb::{
    Blast, Bomb, Flame, BlastImpl, BlastView, BombImpl, BombView, blast_new, blast_tick, blast_next_positions,
    bomb_tick, blast_can_tick, flame_can_tick, FlameView, FlameImpl, start_flame, flame_next, flame_tick,
};

verus! {

/// The mathematical content of a world: its stage, its players, its
/// bombs and its blasts.
pub struct WorldView<P> {
    pub stage: StageView,
    pub players: Seq<P>,
    pub bombs: Seq<BombView>,
    pub blasts: Seq<BlastView>,
}

/// A bomb on the stage with a non-negative range and a fuse of at least
/// `min_fuse`.
pub open spec fn bomb_ok(s: StageView, b: BombView, min_fuse: int) -> bool {
    s.in_bounds(b.position) && b.lifetime >= min_fuse && b.range >= 0
}

/// A flame that ends on the stage with a non-negative range.
pub open spec fn flame_ok(s: StageView, f: FlameView) -> bool {
    s.in_bounds(f.end) && f.spread_range >= 0
}

/// A live blast centred on the stage whose flames all satisfy `flame_ok`.
pub open spec fn blast_ok(s: StageView, b: BlastView) -> bool {
    &&& b.lifetime >= 1
    &&& s.in_bounds(b.center)
    &&& forall|i: int| 0 <= i < b.flames.len() ==> flame_ok(s, #[trigger] b.flames[i])
}

/// The world's invariant, with every bomb fuse at least `min_fuse`.
pub open spec fn world_ok<P>(w: WorldView<P>, min_fuse: int) -> bool {
    &&& w.stage.valid()
    &&& forall|i: int| 0 <= i < w.bombs.len() ==> bomb_ok(w.stage, #[trigger] w.bombs[i], min_fuse)
    &&& forall|i: int| 0 <= i < w.blasts.len() ==> blast_ok(w.stage, #[trigger] w.blasts[i])
}

/// The wall flags a blast gets from the stage: a flame is stopped when its
/// look-ahead cell is a wall or off the stage.
pub open spec fn hits_for(s: StageView, b: BlastView) -> Seq<bool> {
    blast_next_positions(b).map_values(|p: (int, int)| s.blocked(p))
}

/// Every blast ticked against the stage, keeping those still alive.
pub open spec fn ticked_blasts(s: StageView, blasts: Seq<BlastView>) -> Seq<BlastView>
    decreases blasts.len(),
{
    if blasts.len() == 0 {
        seq![]
    } else {
        let prev = ticked_blasts(s, blasts.drop_last());
        let t = blast_tick(blasts.last(), hits_for(s, blasts.last()));
        if t.lifetime > 0 {
            prev.push(t)
        } else {
            prev
        }
    }
}

/// The bombs whose fuse has not run out, in order.
pub open spec fn surviving(bombs: Seq<BombView>) -> Seq<BombView>
    decreases bombs.len(),
{
    if bombs.len() == 0 {
        seq![]
    } else if bombs.last().lifetime != 0 {
        surviving(bombs.drop_last()).push(bombs.last())
    } else {
        surviving(bombs.drop_last())
    }
}

/// The blast a bomb leaves: a neighbour is free when it is neither a wall
/// nor off the stage.
pub open spec fn blast_for(s: StageView, b: BombView) -> BlastView {
    blast_new(
        b.position,
        b.range,
        !s.blocked(step(b.position, Direction::North)),
        !s.blocked(step(b.position, Direction::South)),
        !s.blocked(step(b.position, Direction::West)),
        !s.blocked(step(b.position, Direction::East)),
    )
}

/// The blasts of the bombs whose fuse has run out, in order.
pub open spec fn detonations(s: StageView, bombs: Seq<BombView>) -> Seq<BlastView>
    decreases bombs.len(),
{
    if bombs.len() == 0 {
        seq![]
    } else if bombs.last().lifetime == 0 {
        detonations(s, bombs.drop_last()).push(blast_for(s, bombs.last()))
    } else {
        detonations(s, bombs.drop_last())
    }
}

/// `cur` with the cell at `c` turned to ground when it is a wall of `orig`.
pub open spec fn clear_cell(cur: StageView, orig: StageView, c: (int, int)) -> StageView {
    if orig.in_bounds(c) && orig.tile_at(c).spec_is_wall() {
        cur.set(c, Tile::Ground)
    } else {
        cur
    }
}

/// `cur` with every wall of `orig` next to `p` turned to ground.
pub open spec fn clear_around(cur: StageView, orig: StageView, p: (int, int)) -> StageView {
    clear_cell(
        clear_cell(
            clear_cell(clear_cell(cur, orig, step(p, Direction::North)), orig, step(p, Direction::South)),
            orig,
            step(p, Direction::West),
        ),
        orig,
        step(p, Direction::East),
    )
}

/// The stage once every bomb whose fuse has run out has destroyed the walls
/// next to it.
pub open spec fn cleared(orig: StageView, bombs: Seq<BombView>) -> StageView
    decreases bombs.len(),
{
    if bombs.len() == 0 {
        orig
    } else if bombs.last().lifetime == 0 {
        clear_around(cleared(orig, bombs.drop_last()), orig, bombs.last().position)
    } else {
        cleared(orig, bombs.drop_last())
    }
}

/// First step of a tick: every bomb's fuse shortens.
pub open spec fn world_tick_bombs<P>(w: WorldView<P>) -> WorldView<P> {
    WorldView { bombs: w.bombs.map_values(|b: BombView| bomb_tick(b)), ..w }
}

/// Second step: every blast spreads or ages, and spent blasts leave.
pub open spec fn world_tick_blasts<P>(w: WorldView<P>) -> WorldView<P> {
    WorldView { blasts: ticked_blasts(w.stage, w.blasts), ..w }
}

/// Third step: bombs whose fuse ran out leave, walls next to them become
/// ground, and their blasts join the others.
pub open spec fn world_check_bombs<P>(w: WorldView<P>) -> WorldView<P> {
    WorldView {
        stage: cleared(w.stage, w.bombs),
        players: w.players,
        bombs: surviving(w.bombs),
        blasts: w.blasts + detonations(w.stage, w.bombs),
    }
}

/// One full tick.
pub open spec fn world_tick<P>(w: WorldView<P>) -> WorldView<P> {
    world_check_bombs(world_tick_blasts(world_tick_bombs(w)))
}

/// A world after `n` ticks.
pub open spec fn world_after<P>(w: WorldView<P>, n: nat) -> WorldView<P>
    decreases n,
{
    if n == 0 {
        w
    } else {
        world_tick(world_after(w, (n - 1) as nat))
    }
}

/// A whole simulation snapshot. Each step consumes a world and hands back
/// the next one; nothing is changed in place.
pub struct WorldImpl<P> {
    stage: StageImpl,
    players: Vec<P>,
    bombs: Vec<BombImpl>,
    blasts: Vec<BlastImpl>,
}

/// A blast that satisfies the invariant can take a tick against the stage,
/// and keeps the invariant if it is still alive afterwards.
proof fn lemma_blast_tick_ok(s: StageView, b: BlastView)
    requires
        s.valid(),
        blast_ok(s, b),
    ensures
        blast_can_tick(b, hits_for(s, b)),
        blast_tick(b, hits_for(s, b)).lifetime >= 0,
        blast_tick(b, hits_for(s, b)).lifetime > 0 ==> blast_ok(s, blast_tick(b, hits_for(s, b))),
{
    let h = hits_for(s, b);
    let t = blast_tick(b, h);
    assert forall|i: int| 0 <= i < b.flames.len() implies #[trigger] h[i] == s.blocked(
        flame_next(b.flames[i]),
    ) by {
        assert(blast_next_positions(b)[i] == flame_next(b.flames[i]));
    }
    assert forall|i: int| 0 <= i < b.flames.len() implies flame_can_tick(#[trigger] b.flames[i], h[i]) by {
        assert(h[i] == s.blocked(flame_next(b.flames[i])));
    }
    if t.lifetime > 0 {
        assert forall|i: int| 0 <= i < t.flames.len() implies flame_ok(s, #[trigger] t.flames[i]) by {
            assert(h[i] == s.blocked(flame_next(b.flames[i])));
            assert(t.flames[i] == flame_tick(b.flames[i], h[i]));
        }
    }
}

/// Every flame of a blast that satisfies the invariant looks ahead to a cell
/// that fits `i8`.
proof fn lemma_next_fits(s: StageView, b: BlastView)
    requires
        s.valid(),
        blast_ok(s, b),
    ensures
        forall|i: int| 0 <= i < b.flames.len() ==> fits(flame_next(#[trigger] b.flames[i])),
{
    assert forall|i: int| 0 <= i < b.flames.len() implies fits(flame_next(#[trigger] b.flames[i])) by {
        assert(flame_ok(s, b.flames[i]));
    }
}

/// Clearing walls keeps a stage well formed and keeps its dimensions.
proof fn lemma_clear_around_valid(cur: StageView, orig: StageView, p: (int, int))
    requires
        cur.valid(),
        cur.width == orig.width,
        cur.height == orig.height,
    ensures
        clear_around(cur, orig, p).valid(),
        clear_around(cur, orig, p).width == orig.width,
        clear_around(cur, orig, p).height == orig.height,
{
    let c1 = clear_cell(cur, orig, step(p, Direction::North));
    lemma_clear_cell_valid(cur, orig, step(p, Direction::North));
    let c2 = clear_cell(c1, orig, step(p, Direction::South));
    lemma_clear_cell_valid(c1, orig, step(p, Direction::South));
    let c3 = clear_cell(c2, orig, step(p, Direction::West));
    lemma_clear_cell_valid(c2, orig, step(p, Direction::West));
    lemma_clear_cell_valid(c3, orig, step(p, Direction::East));
}

proof fn lemma_clear_cell_valid(cur: StageView, orig: StageView, c: (int, int))
    requires
        cur.valid(),
        cur.width == orig.width,
        cur.height == orig.height,
    ensures
        clear_cell(cur, orig, c).valid(),
        clear_cell(cur, orig, c).width == orig.width,
        clear_cell(cur, orig, c).height == orig.height,
{
    if orig.in_bounds(c) && orig.tile_at(c).spec_is_wall() {
        lemma_set_then_get(cur, c, Tile::Ground);
    }
}

/// The blast of a bomb on the stage satisfies the invariant: its flames
/// start on free cells, which lie on the stage.
proof fn lemma_blast_for_ok(s: StageView, b: BombView)
    requires
        s.valid(),
        bomb_ok(s, b, 0),
    ensures
        blast_ok(s, blast_for(s, b)),
{
    let bl = blast_for(s, b);
    let c = b.position;
    let r = b.range;
    let one = |free: bool, d: Direction|
        if free { seq![start_flame(c, d, r)] } else { Seq::<FlameView>::empty() };
    let un = !s.blocked(step(c, Direction::North));
    let us = !s.blocked(step(c, Direction::South));
    let uw = !s.blocked(step(c, Direction::West));
    let ue = !s.blocked(step(c, Direction::East));
    assert(bl.flames =~= one(un, Direction::North) + one(us, Direction::South) + one(uw, Direction::West)
        + one(ue, Direction::East));
    assert forall|i: int| 0 <= i < bl.flames.len() implies flame_ok(s, #[trigger] bl.flames[i]) by {
        let a = one(un, Direction::North);
        let ab = a + one(us, Direction::South);
        let abc = ab + one(uw, Direction::West);
        if i < a.len() {
            assert(bl.flames[i] == a[i]);
        } else if i < ab.len() {
            assert(bl.flames[i] == ab[i]);
        } else if i < abc.len() {
            assert(bl.flames[i] == abc[i]);
        }
    }
}

/// The cell `c` is one of the four neighbours of `p`.
pub open spec fn adjacent(c: (int, int), p: (int, int)) -> bool {
    c == step(p, Direction::North) || c == step(p, Direction::South) || c == step(p, Direction::West)
        || c == step(p, Direction::East)
}

/// Some bomb of `bombs` whose fuse has run out lies next to `c`.
pub open spec fn next_to_detonation(c: (int, int), bombs: Seq<BombView>) -> bool {
    exists|i: int| 0 <= i < bombs.len() && bombs[i].lifetime == 0 && adjacent(c, #[trigger] bombs[i].position)
}

proof fn lemma_clear_cell_tile(cur: StageView, orig: StageView, cell: (int, int), c: (int, int))
    requires
        cur.valid(),
        cur.width == orig.width,
        cur.height == orig.height,
        orig.in_bounds(c),
    ensures
        clear_cell(cur, orig, cell).tile_at(c) == if c == cell && orig.tile_at(c).spec_is_wall() {
            Tile::Ground
        } else {
            cur.tile_at(c)
        },
{
    if orig.in_bounds(cell) && orig.tile_at(cell).spec_is_wall() {
        lemma_set_then_get(cur, cell, Tile::Ground);
    }
}

proof fn lemma_clear_around_tile(cur: StageView, orig: StageView, p: (int, int), c: (int, int))
    requires
        cur.valid(),
        cur.width == orig.width,
        cur.height == orig.height,
        orig.in_bounds(c),
    ensures
        clear_around(cur, orig, p).tile_at(c) == if adjacent(c, p) && orig.tile_at(c).spec_is_wall() {
            Tile::Ground
        } else {
            cur.tile_at(c)
        },
{
    let c1 = clear_cell(cur, orig, step(p, Direction::North));
    lemma_clear_cell_valid(cur, orig, step(p, Direction::North));
    lemma_clear_cell_tile(cur, orig, step(p, Direction::North), c);
    let c2 = clear_cell(c1, orig, step(p, Direction::South));
    lemma_clear_cell_valid(c1, orig, step(p, Direction::South));
    lemma_clear_cell_tile(c1, orig, step(p, Direction::South), c);
    let c3 = clear_cell(c2, orig, step(p, Direction::West));
    lemma_clear_cell_valid(c2, orig, step(p, Direction::West));
    lemma_clear_cell_tile(c2, orig, step(p, Direction::West), c);
    lemma_clear_cell_tile(c3, orig, step(p, Direction::East), c);
}

/// Detonation damage, cell by cell: the stage keeps its size, a cell
/// becomes ground exactly when it was a wall next to a bomb whose fuse ran
/// out, and every other cell keeps its tile.
pub proof fn lemma_cleared_cells(orig: StageView, bombs: Seq<BombView>, c: (int, int))
    requires
        orig.valid(),
        orig.in_bounds(c),
    ensures
        cleared(orig, bombs).valid(),
        cleared(orig, bombs).width == orig.width,
        cleared(orig, bombs).height == orig.height,
        cleared(orig, bombs).tile_at(c) == if orig.tile_at(c).spec_is_wall() && next_to_detonation(
            c,
            bombs,
        ) {
            Tile::Ground
        } else {
            orig.tile_at(c)
        },
    decreases bombs.len(),
{
    if bombs.len() > 0 {
        let prev = bombs.drop_last();
        lemma_cleared_cells(orig, prev, c);
        let last = bombs.last();
        if last.lifetime == 0 {
            lemma_clear_around_valid(cleared(orig, prev), orig, last.position);
            lemma_clear_around_tile(cleared(orig, prev), orig, last.position, c);
        }
        if next_to_detonation(c, bombs) {
            let i = choose|i: int|
                0 <= i < bombs.len() && bombs[i].lifetime == 0 && adjacent(c, #[trigger] bombs[i].position);
            if i < prev.len() {
                assert(prev[i] == bombs[i]);
            }
        }
        if next_to_detonation(c, prev) {
            let i = choose|i: int|
                0 <= i < prev.len() && prev[i].lifetime == 0 && adjacent(c, #[trigger] prev[i].position);
            assert(bombs[i] == prev[i]);
        }
    }
}

/// `cur` with the cell at `p` turned to ground when it is a wall of `orig`.
fn clear_if_wall(orig: &StageImpl, cur: StageImpl, p: &(i8, i8)) -> (r: StageImpl)
    requires
        orig.wf(),
        cur.wf(),
        cur.view().width == orig.view().width,
        cur.view().height == orig.view().height,
    ensures
        r.wf(),
        r.view() == clear_cell(cur.view(), orig.view(), pos(*p)),
{
    proof {
        lemma_clear_cell_valid(cur.view(), orig.view(), pos(*p));
    }
    match orig.get_tile(p) {
        Ok(t) => {
            if t.is_wall() {
                cur.set_tile(p, Tile::Ground)
            } else {
                cur
            }
        },
        Err(_) => cur,
    }
}

impl<P> View for WorldImpl<P> {
    type V = WorldView<P>;

    closed spec fn view(&self) -> WorldView<P> {
        WorldView {
            stage: self.stage.view(),
            players: self.players@,
            bombs: self.bombs@.map_values(|b: BombImpl| b@),
            blasts: self.blasts@.map_values(|b: BlastImpl| b@),
        }
    }
}

/// A world: one tick at a time, through the fixed pipeline of bombs, then
/// blasts, then detonations.
pub trait World<P>: View<V = WorldView<P>> + Sized {
    /// Every bomb's fuse shortens by one; the rest passes through.
    fn tick_bombs(self) -> (r: Self)
        requires
            world_ok(self@, 1),
        ensures
            r@ == world_tick_bombs(self@),
            world_ok(r@, 0),
    ;

    /// Every blast spreads or ages by one tick; spent blasts leave.
    fn tick_blasts(self) -> (r: Self)
        requires
            world_ok(self@, 0),
        ensures
            r@ == world_tick_blasts(self@),
            world_ok(r@, 0),
    ;

    /// Bombs whose fuse has run out detonate: each leaves a blast with a
    /// flame toward every free neighbour and turns every neighbouring wall
    /// to ground. The other bombs stay.
    fn check_bombs(self) -> (r: Self)
        requires
            world_ok(self@, 0),
        ensures
            r@ == world_check_bombs(self@),
            world_ok(r@, 1),
    ;

    /// One full tick: bombs age, then blasts spread or age, then bombs
    /// whose fuse ran out detonate.
    fn tick(self) -> (r: Self)
        requires
            world_ok(self@, 1),
        ensures
            r@ == world_tick(self@),
            world_ok(r@, 1),
    ;

    /// `dt` ticks in a row; none when `dt` is not positive.
    fn update(self, dt: i8) -> (r: Self)
        requires
            world_ok(self@, 1),
        ensures
            r@ == world_after(self@, if dt > 0 { dt as nat } else { 0 }),
            world_ok(r@, 1),
    ;
}

impl<P> WorldImpl<P> {
    /// A world of the given parts.
    pub fn new(stage: StageImpl, players: Vec<P>, bombs: Vec<BombImpl>, blasts: Vec<BlastImpl>) -> (r:
        WorldImpl<P>)
        ensures
            r@ == (WorldView {
                stage: stage.view(),
                players: players@,
                bombs: bombs@.map_values(|b: BombImpl| b@),
                blasts: blasts@.map_values(|b: BlastImpl| b@),
            }),
    {
        WorldImpl { stage, players, bombs, blasts }
    }

    /// The same world with its players replaced.
    pub fn with_players(self, players: Vec<P>) -> (r: WorldImpl<P>)
        ensures
            r@ == (WorldView { players: players@, ..self@ }),
    {
        WorldImpl { players, ..self }
    }

    pub fn get_stage(&self) -> (r: &StageImpl)
        ensures
            r.view() == self@.stage,
    {
        &self.stage
    }

    pub fn get_players(&self) -> (r: &Vec<P>)
        ensures
            r@ == self@.players,
    {
        &self.players
    }

    pub fn get_bombs(&self) -> (r: &Vec<BombImpl>)
        ensures
            r@.map_values(|b: BombImpl| b@) == self@.bombs,
    {
        &self.bombs
    }

    pub fn get_blasts(&self) -> (r: &Vec<BlastImpl>)
        ensures
            r@.map_values(|b: BlastImpl| b@) == self@.blasts,
    {
        &self.blasts
    }

    /// Whether this world satisfies the invariant that `tick` and `update`
    /// need.
    pub fn is_well_formed(&self) -> (r: bool)
        ensures
            r == world_ok(self@, 1),
    {
        if !self.stage.is_well_formed() {
            return false;
        }
        let mut i: usize = 0;
        while i < self.bombs.len()
            invariant
                self.stage.wf(),
                i <= self.bombs@.len(),
                forall|j: int| 0 <= j < i ==> bomb_ok(self@.stage, #[trigger] self.bombs@[j]@, 1),
            decreases self.bombs@.len() - i,
        {
            let b = &self.bombs[i];
            if !(self.stage.in_bounds(b.get_position()) && *b.get_lifetime() >= 1 && *b.get_range() >= 0) {
                assert(self@.bombs[i as int] == self.bombs@[i as int]@);
                return false;
            }
            i = i + 1;
        }
        let mut k: usize = 0;
        while k < self.blasts.len()
            invariant
                self.stage.wf(),
                k <= self.blasts@.len(),
                forall|j: int| 0 <= j < k ==> blast_ok(self@.stage, #[trigger] self.blasts@[j]@),
            decreases self.blasts@.len() - k,
        {
            let b = &self.blasts[k];
            if !(*b.get_lifetime() >= 1 && self.stage.in_bounds(b.get_center())) {
                assert(self@.blasts[k as int] == self.blasts@[k as int]@);
                return false;
            }
            let flames = b.get_flames();
            let mut m: usize = 0;
            assert(self@.blasts[k as int] == self.blasts@[k as int]@);
            while m < flames.len()
                invariant
                    self.stage.wf(),
                    k < self.blasts@.len(),
                    self@.blasts[k as int] == b@,
                    m <= flames@.len(),
                    flames@.map_values(|f: FlameImpl| f@) == b@.flames,
                    forall|j: int| 0 <= j < m ==> flame_ok(self@.stage, #[trigger] b@.flames[j]),
                decreases flames@.len() - m,
            {
                let f = &flames[m];
                assert(b@.flames[m as int] == f@);
                if !(self.stage.in_bounds(f.get_end()) && *f.get_spread_range() >= 0) {
                    return false;
                }
                assert(flame_ok(self@.stage, b@.flames[m as int]));
                m = m + 1;
            }
            k = k + 1;
        }
        proof {
            assert forall|j: int| 0 <= j < self@.bombs.len() implies bomb_ok(self@.stage, #[trigger] self@.bombs[j], 1) by {
                assert(self@.bombs[j] == self.bombs@[j]@);
            }
            assert forall|j: int| 0 <= j < self@.blasts.len() implies blast_ok(self@.stage, #[trigger] self@.blasts[j]) by {
                assert(self@.blasts[j] == self.blasts@[j]@);
            }
        }
        true
    }

    /// For each flame of `blast`, whether its look-ahead cell is blocked.
    fn flames_hit_wall(&self, blast: &BlastImpl) -> (r: Vec<bool>)
        requires
            self.stage.wf(),
            blast_ok(self.stage.view(), blast@),
        ensures
            r@ == hits_for(self.stage.view(), blast@),
    {
        proof {
            lemma_next_fits(self.stage.view(), blast@);
        }
        let positions = blast.next_positions();
        let mut hit_wall: Vec<bool> = Vec::new();
        let mut i: usize = 0;
        while i < positions.len()
            invariant
                self.stage.wf(),
                i <= positions@.len(),
                hit_wall@.len() == i,
                positions@.map_values(|p: (i8, i8)| pos(p)) == blast_next_positions(blast@),
                forall|j: int| 0 <= j < i ==> #[trigger] hit_wall@[j] == self.stage.view().blocked(
                    pos(positions@[j]),
                ),
            decreases positions@.len() - i,
        {
            hit_wall.push(self.stage.is_wall_or_oob(&positions[i]));
            i = i + 1;
        }
        proof {
            let bn = blast_next_positions(blast@);
            assert forall|j: int| 0 <= j < bn.len() implies pos(positions@[j]) == #[trigger] bn[j] by {
                assert(positions@.map_values(|p: (i8, i8)| pos(p))[j] == pos(positions@[j]));
            }
            assert(hit_wall@ =~= hits_for(self.stage.view(), blast@));
        }
        hit_wall
    }

    /// Every blast ticked against the stage; spent blasts are left out.
    fn tick_all_blasts(&self) -> (r: Vec<BlastImpl>)
        requires
            world_ok(self@, 0),
        ensures
            r@.map_values(|b: BlastImpl| b@) == ticked_blasts(self@.stage, self@.blasts),
            forall|j: int| 0 <= j < r@.len() ==> blast_ok(self@.stage, #[trigger] r@[j]@),
    {
        let ghost s = self@.stage;
        let ghost all = self@.blasts;
        let mut out: Vec<BlastImpl> = Vec::new();
        let mut i: usize = 0;
        while i < self.blasts.len()
            invariant
                world_ok(self@, 0),
                s == self@.stage,
                all == self@.blasts,
                i <= self.blasts@.len(),
                out@.map_values(|b: BlastImpl| b@) == ticked_blasts(s, all.take(i as int)),
                forall|j: int| 0 <= j < out@.len() ==> blast_ok(s, #[trigger] out@[j]@),
            decreases self.blasts@.len() - i,
        {
            let blast = &self.blasts[i];
            proof {
                assert(all[i as int] == blast@);
                lemma_blast_tick_ok(s, blast@);
                assert(all.take(i + 1).drop_last() =~= all.take(i as int));
                assert(all.take(i + 1).last() == blast@);
            }
            let hit_wall = self.flames_hit_wall(blast);
            let t = blast.tick(hit_wall);
            let ghost before = out@;
            if *t.get_lifetime() > 0 {
                out.push(t);
                proof {
                    assert(out@.map_values(|b: BlastImpl| b@) =~= before.map_values(|b: BlastImpl| b@).push(t@));
                }
            }
            i = i + 1;
        }
        proof {
            assert(all.take(i as int) =~= all);
        }
        out
    }
}

impl<P> World<P> for WorldImpl<P> {
    fn tick_bombs(self) -> (r: WorldImpl<P>) {
        let mut bombs: Vec<BombImpl> = Vec::new();
        let mut i: usize = 0;
        while i < self.bombs.len()
            invariant
                world_ok(self@, 1),
                i <= self.bombs@.len(),
                bombs@.len() == i,
                forall|j: int| 0 <= j < i ==> (#[trigger] bombs@[j])@ == bomb_tick(self.bombs@[j]@),
            decreases self.bombs@.len() - i,
        {
            proof {
                assert(self@.bombs[i as int] == self.bombs@[i as int]@);
            }
            bombs.push(self.bombs[i].tick());
            i = i + 1;
        }
        let r = WorldImpl { bombs, ..self };
        proof {
            assert(r@.bombs =~= world_tick_bombs(self@).bombs);
            assert forall|j: int| 0 <= j < r@.bombs.len() implies bomb_ok(r@.stage, #[trigger] r@.bombs[j], 0) by {
                assert(self@.bombs[j] == self.bombs@[j]@);
            }
        }
        r
    }

    fn tick_blasts(self) -> (r: WorldImpl<P>) {
        let blasts = self.tick_all_blasts();
        let r = WorldImpl { blasts, ..self };
        proof {
            assert forall|j: int| 0 <= j < r@.blasts.len() implies blast_ok(r@.stage, #[trigger] r@.blasts[j]) by {
                assert(r@.blasts[j] == r.blasts@[j]@);
            }
        }
        r
    }

    #[verifier::rlimit(30)]
    fn check_bombs(self) -> (r: WorldImpl<P>) {
        let ghost orig = self@.stage;
        let ghost all = self@.bombs;
        let mut new_stage = self.stage.copy();
        let mut new_bombs: Vec<BombImpl> = Vec::new();
        let mut new_blasts: Vec<BlastImpl> = Vec::new();
        let mut i: usize = 0;
        while i < self.bombs.len()
            invariant
                world_ok(self@, 0),
                orig == self@.stage,
                all == self@.bombs,
                i <= self.bombs@.len(),
                new_stage.wf(),
                new_stage.view().width == orig.width,
                new_stage.view().height == orig.height,
                new_stage.view() == cleared(orig, all.take(i as int)),
                new_bombs@.map_values(|b: BombImpl| b@) == surviving(all.take(i as int)),
                new_blasts@.map_values(|b: BlastImpl| b@) == detonations(orig, all.take(i as int)),
                forall|j: int| 0 <= j < new_bombs@.len() ==> bomb_ok(orig, #[trigger] new_bombs@[j]@, 1),
                forall|j: int| 0 <= j < new_blasts@.len() ==> blast_ok(orig, #[trigger] new_blasts@[j]@),
            decreases self.bombs@.len() - i,
        {
            let bomb = self.bombs[i];
            proof {
                assert(all[i as int] == bomb@);
                assert(all.take(i + 1).drop_last() =~= all.take(i as int));
                assert(all.take(i + 1).last() == bomb@);
            }
            if bomb.can_detonate() {
                let center: (i8, i8) = *bomb.get_position();
                let up_point: (i8, i8) = (center.0, center.1 + 1);
                let down_point: (i8, i8) = (center.0, center.1 - 1);
                let left_point: (i8, i8) = (center.0 - 1, center.1);
                let right_point: (i8, i8) = (center.0 + 1, center.1);
                let up_free = !self.stage.is_wall_or_oob(&up_point);
                let down_free = !self.stage.is_wall_or_oob(&down_point);
                let left_free = !self.stage.is_wall_or_oob(&left_point);
                let right_free = !self.stage.is_wall_or_oob(&right_point);
                let ghost before = new_stage.view();
                proof {
                    lemma_clear_around_valid(before, orig, bomb@.position);
                }
                new_stage = clear_if_wall(&self.stage, new_stage, &up_point);
                new_stage = clear_if_wall(&self.stage, new_stage, &down_point);
                new_stage = clear_if_wall(&self.stage, new_stage, &left_point);
                new_stage = clear_if_wall(&self.stage, new_stage, &right_point);
                let blast = BlastImpl::new(
                    center,
                    *bomb.get_range(),
                    up_free,
                    down_free,
                    left_free,
                    right_free,
                );
                proof {
                    lemma_blast_for_ok(orig, bomb@);
                    assert(blast@ == blast_for(orig, bomb@));
                }
                let ghost bl_before = new_blasts@;
                new_blasts.push(blast);
                proof {
                    assert(new_blasts@.map_values(|b: BlastImpl| b@) =~= bl_before.map_values(
                        |b: BlastImpl| b@,
                    ).push(blast@));
                }
            } else {
                let ghost bo_before = new_bombs@;
                new_bombs.push(bomb);
                proof {
                    assert(new_bombs@.map_values(|b: BombImpl| b@) =~= bo_before.map_values(
                        |b: BombImpl| b@,
                    ).push(bomb@));
                }
            }
            i = i + 1;
        }
        proof {
            assert(all.take(i as int) =~= all);
        }
        let ghost old_blasts = self.blasts@;
        let mut blasts = self.blasts;
        blasts.append(&mut new_blasts);
        let r = WorldImpl { stage: new_stage, players: self.players, bombs: new_bombs, blasts };
        proof {
            assert(r@.blasts =~= self@.blasts + detonations(orig, all));
            assert forall|j: int| 0 <= j < r@.blasts.len() implies blast_ok(r@.stage, #[trigger] r@.blasts[j]) by {
                if j < self@.blasts.len() {
                    assert(r@.blasts[j] == self@.blasts[j]);
                } else {
                    assert(r@.blasts[j] == blasts@[j]@);
                }
            }
            assert forall|j: int| 0 <= j < r@.bombs.len() implies bomb_ok(r@.stage, #[trigger] r@.bombs[j], 1) by {
                assert(r@.bombs[j] == new_bombs@[j]@);
            }
        }
        r
    }

    fn tick(self) -> (r: WorldImpl<P>) {
        self.tick_bombs().tick_blasts().check_bombs()
    }

    fn update(self, dt: i8) -> (r: WorldImpl<P>) {
        let ghost start = self@;
        let mut world = self;
        let mut i: i8 = 0;
        while i < dt
            invariant
                0 <= i,
                dt > 0 ==> i <= dt,
                dt <= 0 ==> i == 0,
                world@ == world_after(start, i as nat),
                world_ok(world@, 1),
            decreases dt - i,
        {
            world = world.tick();
            i = i + 1;
        }
        world
    }
}

/// Ticking once and then `n` times is ticking `n + 1` times.
pub proof fn lemma_tick_then_after<P>(w: WorldView<P>, n: nat)
    ensures
        world_after(world_tick(w), n) == world_after(w, n + 1),
    decreases n,
{
    if n > 0 {
        lemma_tick_then_after(w, (n - 1) as nat);
        assert(world_after(world_tick(w), n) == world_tick(world_after(world_tick(w), (n - 1) as nat)));
        assert(world_after(w, n + 1) == world_tick(world_after(w, n)));
    } else {
        assert(world_after(w, 0) == w);
        assert(world_after(w, 1) == world_tick(world_after(w, 0)));
    }
}

/// Ticking `a` times and then `b` times is ticking `a + b` times: an update
/// by `a + b` equals an update by `a` followed by an update by `b`.
pub proof fn lemma_after_add<P>(w: WorldView<P>, a: nat, b: nat)
    ensures
        world_after(world_after(w, a), b) == world_after(w, a + b),
    decreases b,
{
    if b > 0 {
        lemma_after_add(w, a, (b - 1) as nat);
    }
}

} // verus!
