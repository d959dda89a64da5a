use vstd::prelude::*;
use crate::direction::{Direction, step, pos, fits};

verus! {

/// The mathematical content of a flame: the segment from `start` to `end`,
/// the direction it grows in, and how many more cells it may still grow.
pub struct FlameView {
    pub start: (int, int),
    pub end: (int, int),
    pub direction: Direction,
    pub spread_range: int,
}

/// One tick of a flame. A flame that hits a wall, or has no range left,
/// freezes; otherwise its end moves one cell on and its range drops by one.
pub open spec fn flame_tick(f: FlameView, hit_wall: bool) -> FlameView {
    if hit_wall || f.spread_range == 0 {
        FlameView { spread_range: 0, ..f }
    } else {
        FlameView { end: step(f.end, f.direction), spread_range: f.spread_range - 1, ..f }
    }
}

/// The cell a flame would reach next.
pub open spec fn flame_next(f: FlameView) -> (int, int) {
    step(f.end, f.direction)
}

/// A flame can take a tick with this wall flag without leaving `i8`.
pub open spec fn flame_can_tick(f: FlameView, hit_wall: bool) -> bool {
    !hit_wall && f.spread_range != 0 ==> fits(flame_next(f)) && f.spread_range > i8::MIN
}

/// One directional ray of a blast.
#[derive(Clone, Copy, Debug)]
pub struct FlameImpl {
    start: (i8, i8),
    end: (i8, i8),
    direction: Direction,
    spread_range: i8,
}

impl View for FlameImpl {
    type V = FlameView;

    closed spec fn view(&self) -> FlameView {
        FlameView {
            start: pos(self.start),
            end: pos(self.end),
            direction: self.direction,
            spread_range: self.spread_range as int,
        }
    }
}

/// A flame: it advances one cell per tick until a wall or its range stops
/// it.
pub trait Flame: View<V = FlameView> + Sized {
    /// The flame after one tick; `hit_wall` says whether the cell beyond its
    /// end blocks it.
    fn tick(&self, hit_wall: bool) -> (r: Self)
        requires
            flame_can_tick(self@, hit_wall),
        ensures
            r@ == flame_tick(self@, hit_wall),
    ;

    /// The cell one step beyond the end, in the flame's direction; an
    /// intermediate direction gives the end itself.
    fn next_position(&self) -> (r: (i8, i8))
        requires
            fits(flame_next(self@)),
        ensures
            pos(r) == flame_next(self@),
    ;

    fn get_start(&self) -> (r: &(i8, i8))
        ensures
            pos(*r) == self@.start,
    ;

    fn get_end(&self) -> (r: &(i8, i8))
        ensures
            pos(*r) == self@.end,
    ;

    fn get_direction(&self) -> (r: Direction)
        ensures
            r == self@.direction,
    ;

    fn get_spread_range(&self) -> (r: &i8)
        ensures
            *r == self@.spread_range,
    ;
}

impl FlameImpl {
    pub fn new(start: (i8, i8), end: (i8, i8), direction: Direction, spread_range: i8) -> (r:
        FlameImpl)
        ensures
            r@ == (FlameView {
                start: pos(start),
                end: pos(end),
                direction,
                spread_range: spread_range as int,
            }),
    {
        FlameImpl { start, end, direction, spread_range }
    }
}

impl Flame for FlameImpl {
    fn tick(&self, hit_wall: bool) -> (r: FlameImpl) {
        if hit_wall || self.spread_range == 0 {
            FlameImpl { spread_range: 0, ..*self }
        } else {
            FlameImpl { end: self.next_position(), spread_range: self.spread_range - 1, ..*self }
        }
    }

    fn next_position(&self) -> (r: (i8, i8)) {
        match self.direction {
            Direction::North => (self.end.0, self.end.1 + 1),
            Direction::South => (self.end.0, self.end.1 - 1),
            Direction::West => (self.end.0 - 1, self.end.1),
            Direction::East => (self.end.0 + 1, self.end.1),
            _ => self.end,
        }
    }

    fn get_start(&self) -> (r: &(i8, i8)) {
        &self.start
    }

    fn get_end(&self) -> (r: &(i8, i8)) {
        &self.end
    }

    fn get_direction(&self) -> (r: Direction) {
        self.direction
    }

    fn get_spread_range(&self) -> (r: &i8) {
        &self.spread_range
    }
}

/// How long a blast lasts once it has finished spreading, in ticks.
pub const BLAST_LIFETIME: i8 = 60;

/// The mathematical content of a blast.
pub struct BlastView {
    pub center: (int, int),
    pub flames: Seq<FlameView>,
    pub spread_done: bool,
    pub lifetime: int,
}

/// A fresh flame on the cell next to `center` in direction `d`.
pub open spec fn start_flame(center: (int, int), d: Direction, range: int) -> FlameView {
    FlameView { start: step(center, d), end: step(center, d), direction: d, spread_range: range }
}

/// The flames of a new blast: one for each free neighbour, in the order
/// north, south, west, east.
pub open spec fn initial_flames(
    center: (int, int),
    range: int,
    up_free: bool,
    down_free: bool,
    left_free: bool,
    right_free: bool,
) -> Seq<FlameView> {
    (if up_free { seq![start_flame(center, Direction::North, range)] } else { seq![] }) + (
    if down_free { seq![start_flame(center, Direction::South, range)] } else { seq![] }) + (
    if left_free { seq![start_flame(center, Direction::West, range)] } else { seq![] }) + (
    if right_free { seq![start_flame(center, Direction::East, range)] } else { seq![] })
}

/// A blast just created at `center`.
pub open spec fn blast_new(
    center: (int, int),
    range: int,
    up_free: bool,
    down_free: bool,
    left_free: bool,
    right_free: bool,
) -> BlastView {
    BlastView {
        center,
        flames: initial_flames(center, range, up_free, down_free, left_free, right_free),
        spread_done: false,
        lifetime: BLAST_LIFETIME as int,
    }
}

/// Every flame has stopped spreading.
pub open spec fn all_spread(flames: Seq<FlameView>) -> bool {
    forall|i: int| 0 <= i < flames.len() ==> (#[trigger] flames[i]).spread_range == 0
}

/// One tick of a blast. Spreading counts as done once it was done before or
/// every flame had stopped before this tick; the lifetime drops only when
/// spreading was already done before this tick; each flame takes the wall
/// flag at its own index.
pub open spec fn blast_tick(b: BlastView, hit_wall: Seq<bool>) -> BlastView {
    BlastView {
        center: b.center,
        flames: Seq::new(b.flames.len(), |i: int| flame_tick(b.flames[i], hit_wall[i])),
        spread_done: b.spread_done || all_spread(b.flames),
        lifetime: if b.spread_done { b.lifetime - 1 } else { b.lifetime },
    }
}

/// A blast can take a tick with these wall flags: one flag per flame, and
/// no coordinate, range or lifetime leaves its integer type.
pub open spec fn blast_can_tick(b: BlastView, hit_wall: Seq<bool>) -> bool {
    &&& hit_wall.len() == b.flames.len()
    &&& forall|i: int| 0 <= i < b.flames.len() ==> flame_can_tick(#[trigger] b.flames[i], hit_wall[i])
    &&& b.spread_done ==> b.lifetime > i8::MIN
}

/// The look-ahead cell of every flame, in flame order.
pub open spec fn blast_next_positions(b: BlastView) -> Seq<(int, int)> {
    Seq::new(b.flames.len(), |i: int| flame_next(b.flames[i]))
}

/// The flames of a blast together with their centre, spread flag and
/// lifetime.
#[derive(Debug)]
pub struct BlastImpl {
    center: (i8, i8),
    flames: Vec<FlameImpl>,
    spread_done: bool,
    lifetime: i8,
}

impl View for BlastImpl {
    type V = BlastView;

    closed spec fn view(&self) -> BlastView {
        BlastView {
            center: pos(self.center),
            flames: self.flames@.map_values(|f: FlameImpl| f@),
            spread_done: self.spread_done,
            lifetime: self.lifetime as int,
        }
    }
}

/// A blast: a family of flames that spread together and then expire
/// together.
pub trait Blast: View<V = BlastView> + Sized {
    /// The blast after one tick; `hit_wall` holds one flag per flame, in
    /// the order of the flames.
    fn tick(&self, hit_wall: Vec<bool>) -> (r: Self)
        requires
            blast_can_tick(self@, hit_wall@),
        ensures
            r@ == blast_tick(self@, hit_wall@),
    ;

    /// The cell each flame would reach next, in flame order.
    fn next_positions(&self) -> (r: Vec<(i8, i8)>)
        requires
            forall|i: int| 0 <= i < self@.flames.len() ==> fits(flame_next(#[trigger] self@.flames[i])),
        ensures
            r@.map_values(|p: (i8, i8)| pos(p)) == blast_next_positions(self@),
    ;

    fn get_center(&self) -> (r: &(i8, i8))
        ensures
            pos(*r) == self@.center,
    ;

    fn get_flames(&self) -> (r: &Vec<FlameImpl>)
        ensures
            r@.map_values(|f: FlameImpl| f@) == self@.flames,
    ;

    fn get_spread_done(&self) -> (r: bool)
        ensures
            r == self@.spread_done,
    ;

    fn get_lifetime(&self) -> (r: &i8)
        ensures
            *r == self@.lifetime,
    ;
}

impl BlastImpl {
    /// A blast at `center` with one flame of `range` cells for each free
    /// neighbour; a blocked neighbour never gets a flame.
    pub fn new(
        center: (i8, i8),
        range: i8,
        up_free: bool,
        down_free: bool,
        left_free: bool,
        right_free: bool,
    ) -> (r: BlastImpl)
        requires
            i8::MIN < center.0 < i8::MAX,
            i8::MIN < center.1 < i8::MAX,
        ensures
            r@ == blast_new(pos(center), range as int, up_free, down_free, left_free, right_free),
    {
        let up_point: (i8, i8) = (center.0, center.1 + 1);
        let down_point: (i8, i8) = (center.0, center.1 - 1);
        let left_point: (i8, i8) = (center.0 - 1, center.1);
        let right_point: (i8, i8) = (center.0 + 1, center.1);
        let mut flames: Vec<FlameImpl> = Vec::new();
        if up_free {
            flames.push(FlameImpl::new(up_point, up_point, Direction::North, range));
        }
        let ghost s1 = flames@;
        if down_free {
            flames.push(FlameImpl::new(down_point, down_point, Direction::South, range));
        }
        let ghost s2 = flames@;
        if left_free {
            flames.push(FlameImpl::new(left_point, left_point, Direction::West, range));
        }
        let ghost s3 = flames@;
        if right_free {
            flames.push(FlameImpl::new(right_point, right_point, Direction::East, range));
        }
        let r = BlastImpl { center, flames, spread_done: false, lifetime: BLAST_LIFETIME };
        proof {
            let c = pos(center);
            let rg = range as int;
            let one = |free: bool, d: Direction|
                if free { seq![start_flame(c, d, rg)] } else { Seq::<FlameView>::empty() };
            assert(s1.map_values(|f: FlameImpl| f@) =~= one(up_free, Direction::North));
            assert(s2.map_values(|f: FlameImpl| f@) =~= one(up_free, Direction::North) + one(
                down_free,
                Direction::South,
            ));
            assert(s3.map_values(|f: FlameImpl| f@) =~= one(up_free, Direction::North) + one(
                down_free,
                Direction::South,
            ) + one(left_free, Direction::West));
            assert(r@.flames =~= initial_flames(c, rg, up_free, down_free, left_free, right_free));
        }
        r
    }

    /// Every flame after one tick, each with the wall flag at its index.
    fn calc_flames(&self, hit_wall: &Vec<bool>) -> (r: Vec<FlameImpl>)
        requires
            blast_can_tick(self@, hit_wall@),
        ensures
            r@.map_values(|f: FlameImpl| f@) == blast_tick(self@, hit_wall@).flames,
    {
        let mut flames: Vec<FlameImpl> = Vec::new();
        let mut i: usize = 0;
        while i < self.flames.len()
            invariant
                blast_can_tick(self@, hit_wall@),
                i <= self.flames@.len(),
                flames@.len() == i,
                forall|j: int| 0 <= j < i ==> (#[trigger] flames@[j])@ == flame_tick(
                    self.flames@[j]@,
                    hit_wall@[j],
                ),
            decreases self.flames@.len() - i,
        {
            proof {
                assert(self@.flames[i as int] == self.flames@[i as int]@);
            }
            flames.push(self.flames[i].tick(hit_wall[i]));
            i = i + 1;
        }
        assert(flames@.map_values(|f: FlameImpl| f@) =~= blast_tick(self@, hit_wall@).flames);
        flames
    }

    /// The lifetime after one tick: it drops only once spreading is done.
    fn calc_lifetime(&self) -> (r: i8)
        requires
            self@.spread_done ==> self@.lifetime > i8::MIN,
        ensures
            r == blast_tick(self@, seq![]).lifetime,
    {
        if self.spread_done {
            self.lifetime - 1
        } else {
            self.lifetime
        }
    }

    /// Whether spreading is done after this tick.
    fn calc_spread_done(&self) -> (r: bool)
        ensures
            r == blast_tick(self@, seq![]).spread_done,
    {
        if self.spread_done {
            return true;
        }
        let mut all_done = true;
        let mut i: usize = 0;
        while i < self.flames.len()
            invariant
                i <= self.flames@.len(),
                all_done <==> forall|j: int| 0 <= j < i ==> (#[trigger] self.flames@[j])@.spread_range == 0,
            decreases self.flames@.len() - i,
        {
            all_done = all_done && self.flames[i].spread_range == 0;
            i = i + 1;
        }
        proof {
            if all_done {
                assert forall|j: int| 0 <= j < self@.flames.len() implies (
                #[trigger] self@.flames[j]).spread_range == 0 by {
                    assert(self@.flames[j] == self.flames@[j]@);
                }
            } else {
                let j = choose|j: int| 0 <= j < i && !((#[trigger] self.flames@[j])@.spread_range == 0);
                assert(self@.flames[j] == self.flames@[j]@);
            }
        }
        all_done
    }
}

impl Blast for BlastImpl {
    fn tick(&self, hit_wall: Vec<bool>) -> (r: BlastImpl) {
        let new_lifetime = self.calc_lifetime();
        let new_spread_done = self.calc_spread_done();
        let new_flames = self.calc_flames(&hit_wall);
        BlastImpl {
            center: self.center,
            flames: new_flames,
            spread_done: new_spread_done,
            lifetime: new_lifetime,
        }
    }

    fn next_positions(&self) -> (r: Vec<(i8, i8)>) {
        let mut positions: Vec<(i8, i8)> = Vec::new();
        let mut i: usize = 0;
        while i < self.flames.len()
            invariant
                i <= self.flames@.len(),
                positions@.len() == i,
                forall|j: int| 0 <= j < self@.flames.len() ==> fits(flame_next(#[trigger] self@.flames[j])),
                forall|j: int| 0 <= j < i ==> pos(#[trigger] positions@[j]) == flame_next(self.flames@[j]@),
            decreases self.flames@.len() - i,
        {
            proof {
                assert(self@.flames[i as int] == self.flames@[i as int]@);
            }
            positions.push(self.flames[i].next_position());
            i = i + 1;
        }
        assert(positions@.map_values(|p: (i8, i8)| pos(p)) =~= blast_next_positions(self@));
        positions
    }

    fn get_center(&self) -> (r: &(i8, i8)) {
        &self.center
    }

    fn get_flames(&self) -> (r: &Vec<FlameImpl>) {
        &self.flames
    }

    fn get_spread_done(&self) -> (r: bool) {
        self.spread_done
    }

    fn get_lifetime(&self) -> (r: &i8) {
        &self.lifetime
    }
}

/// The fuse of a freshly planted bomb, in ticks.
pub const BOMB_LIFETIME: i16 = 300;

/// The mathematical content of a bomb.
pub struct BombView {
    pub position: (int, int),
    pub lifetime: int,
    pub piercing: bool,
    pub range: int,
}

/// One tick of a bomb: its fuse shortens by one.
pub open spec fn bomb_tick(b: BombView) -> BombView {
    BombView { lifetime: b.lifetime - 1, ..b }
}

/// A bomb after `n` ticks.
pub open spec fn bomb_after(b: BombView, n: nat) -> BombView
    decreases n,
{
    if n == 0 {
        b
    } else {
        bomb_tick(bomb_after(b, (n - 1) as nat))
    }
}

/// A placed bomb: where it lies, how many ticks remain before it goes off,
/// whether its blast pierces soft walls, and how far its flames reach.
#[derive(Clone, Copy, Debug)]
pub struct BombImpl {
    position: (i8, i8),
    lifetime: i16,
    piercing: bool,
    range: i8,
}

impl View for BombImpl {
    type V = BombView;

    closed spec fn view(&self) -> BombView {
        BombView {
            position: pos(self.position),
            lifetime: self.lifetime as int,
            piercing: self.piercing,
            range: self.range as int,
        }
    }
}

/// A bomb: a fuse that shortens each tick until it can detonate.
pub trait Bomb: View<V = BombView> + Sized {
    /// The bomb one tick later.
    fn tick(&self) -> (r: Self)
        requires
            self@.lifetime > i16::MIN,
        ensures
            r@ == bomb_tick(self@),
    ;

    /// The fuse has run out.
    fn can_detonate(&self) -> (r: bool)
        ensures
            r == (self@.lifetime == 0),
    ;

    fn get_position(&self) -> (r: &(i8, i8))
        ensures
            pos(*r) == self@.position,
    ;

    fn get_lifetime(&self) -> (r: &i16)
        ensures
            *r == self@.lifetime,
    ;

    fn get_piercing(&self) -> (r: &bool)
        ensures
            *r == self@.piercing,
    ;

    fn get_range(&self) -> (r: &i8)
        ensures
            *r == self@.range,
    ;
}

impl BombImpl {
    /// A bomb just planted, with a full fuse.
    pub fn new(position: (i8, i8), piercing: bool, range: i8) -> (r: BombImpl)
        ensures
            r@ == (BombView {
                position: pos(position),
                lifetime: BOMB_LIFETIME as int,
                piercing,
                range: range as int,
            }),
    {
        BombImpl { position, lifetime: BOMB_LIFETIME, piercing, range }
    }
}

impl Bomb for BombImpl {
    fn tick(&self) -> (r: BombImpl) {
        BombImpl { lifetime: self.lifetime - 1, ..*self }
    }

    fn can_detonate(&self) -> (r: bool) {
        self.lifetime == 0
    }

    fn get_position(&self) -> (r: &(i8, i8)) {
        &self.position
    }

    fn get_lifetime(&self) -> (r: &i16) {
        &self.lifetime
    }

    fn get_piercing(&self) -> (r: &bool) {
        &self.piercing
    }

    fn get_range(&self) -> (r: &i8) {
        &self.range
    }
}

/// A bomb with a fuse of `L` ticks cannot go off after fewer than `L`
/// ticks, and can after exactly `L`.
pub proof fn lemma_bomb_detonates_at_lifetime(b: BombView, n: nat)
    requires
        b.lifetime >= 1,
        n <= b.lifetime,
    ensures
        bomb_after(b, n).lifetime == b.lifetime - n,
        (bomb_after(b, n).lifetime == 0) <==> n == b.lifetime,
    decreases n,
{
    if n > 0 {
        lemma_bomb_detonates_at_lifetime(b, (n - 1) as nat);
    }
}

/// Wall flags that never block.
pub open spec fn no_walls(n: nat) -> Seq<bool> {
    Seq::new(n, |i: int| false)
}

/// A blast after `n` ticks in which no flame ever meets a wall.
pub open spec fn blast_after_open(b: BlastView, n: nat) -> BlastView
    decreases n,
{
    if n == 0 {
        b
    } else {
        let prev = blast_after_open(b, (n - 1) as nat);
        blast_tick(prev, no_walls(prev.flames.len()))
    }
}

/// Proof of the spreading phase: for `n <= range` ticks every flame has
/// `range - n` cells left and the blast keeps its full lifetime.
proof fn lemma_open_spread(center: (int, int), range: int, n: nat)
    requires
        0 <= n <= range,
    ensures
        ({
            let b = blast_after_open(blast_new(center, range, true, true, true, true), n);
            &&& b.flames.len() == 4
            &&& forall|i: int| 0 <= i < 4 ==> (#[trigger] b.flames[i]).spread_range == range - n
            &&& !b.spread_done
            &&& b.lifetime == BLAST_LIFETIME
        }),
    decreases n,
{
    let b0 = blast_new(center, range, true, true, true, true);
    if n == 0 {
        assert(b0.flames[0].spread_range == range);
        assert(b0.flames[1].spread_range == range);
        assert(b0.flames[2].spread_range == range);
        assert(b0.flames[3].spread_range == range);
    } else {
        lemma_open_spread(center, range, (n - 1) as nat);
        let prev = blast_after_open(b0, (n - 1) as nat);
        assert(prev.flames[0].spread_range != 0);
    }
}

/// Proof of the dying phase: `k` ticks after spreading is done every flame
/// is spent and the lifetime is `60 - k`.
proof fn lemma_open_die(center: (int, int), range: int, k: nat)
    requires
        0 <= range,
    ensures
        ({
            let b = blast_after_open(
                blast_new(center, range, true, true, true, true),
                (range + 1 + k) as nat,
            );
            &&& b.flames.len() == 4
            &&& all_spread(b.flames)
            &&& b.spread_done
            &&& b.lifetime == BLAST_LIFETIME - k
        }),
    decreases k,
{
    let b0 = blast_new(center, range, true, true, true, true);
    if k == 0 {
        lemma_open_spread(center, range, range as nat);
    } else {
        lemma_open_die(center, range, (k - 1) as nat);
    }
}

/// A blast free on all four sides has four flames. With no walls in the way,
/// after `range` ticks every flame is spent while the blast keeps its full
/// lifetime; the tick after that marks spreading done, still at full
/// lifetime; from then on the lifetime drops by one each tick, reaching 0
/// sixty ticks later.
pub proof fn lemma_open_blast_lifecycle(center: (int, int), range: int, k: nat)
    requires
        0 <= range,
    ensures
        blast_new(center, range, true, true, true, true).flames.len() == 4,
        all_spread(blast_after_open(blast_new(center, range, true, true, true, true), range as nat).flames),
        blast_after_open(blast_new(center, range, true, true, true, true), range as nat).lifetime
            == BLAST_LIFETIME,
        blast_after_open(blast_new(center, range, true, true, true, true), (range + 1) as nat).spread_done,
        blast_after_open(
            blast_new(center, range, true, true, true, true),
            (range + 1 + k) as nat,
        ).lifetime == BLAST_LIFETIME - k,
        blast_after_open(
            blast_new(center, range, true, true, true, true),
            (range + 1 + BLAST_LIFETIME) as nat,
        ).lifetime == 0,
{
    lemma_open_spread(center, range, range as nat);
    lemma_open_die(center, range, 0);
    lemma_open_die(center, range, k);
    lemma_open_die(center, range, BLAST_LIFETIME as nat);
}

/// A flame whose look-ahead cell is blocked is frozen by the next tick:
/// no range left and its segment unchanged, whatever range it had.
pub proof fn lemma_blocked_flame_freezes(b: BlastView, hit_wall: Seq<bool>, i: int)
    requires
        hit_wall.len() == b.flames.len(),
        0 <= i < b.flames.len(),
        hit_wall[i],
    ensures
        blast_tick(b, hit_wall).flames[i].spread_range == 0,
        blast_tick(b, hit_wall).flames[i].end == b.flames[i].end,
        blast_tick(b, hit_wall).flames[i].start == b.flames[i].start,
{
}

} // verus!
