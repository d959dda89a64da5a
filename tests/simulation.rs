use bomberman_core::bomb::{Blast, BlastImpl, Bomb, BombImpl, Flame, FlameImpl};
use bomberman_core::direction::Direction;
use bomberman_core::stage::{Stage, StageError, StageImpl, Tile};
use bomberman_core::world::{World, WorldImpl};

fn ground_stage() -> StageImpl {
    StageImpl::filled(15, 9, Tile::Ground).unwrap()
}

fn primed_bomb(position: (i8, i8), range: i8) -> BombImpl {
    let mut bomb = BombImpl::new(position, false, range);
    for _ in 0..299 {
        bomb = bomb.tick();
    }
    assert_eq!(*bomb.get_lifetime(), 1);
    bomb
}

fn flame_directions(blast: &BlastImpl) -> Vec<Direction> {
    blast.get_flames().iter().map(|f| f.get_direction()).collect()
}

#[test]
fn tile_walls() {
    assert!(!Tile::Ground.is_wall());
    assert!(Tile::SoftWall.is_wall());
    assert!(Tile::HardWall.is_wall());
}

#[test]
fn stage_dimensions_and_limits() {
    let stage = ground_stage();
    assert_eq!(stage.get_dimensions(), (15, 9));
    assert!(StageImpl::filled(15, 10, Tile::Ground).is_none());
    assert!(StageImpl::filled(16, 9, Tile::Ground).is_none());
    let walls = StageImpl::filled(4, 3, Tile::HardWall).unwrap();
    assert_eq!(walls.get_dimensions(), (4, 3));
    assert_eq!(walls.get_tile(&(3, 2)), Ok(Tile::HardWall));
    assert_eq!(walls.get_tile(&(4, 2)), Err(StageError::OutOfBounds));
    let empty = StageImpl::filled(12, 0, Tile::Ground).unwrap();
    assert_eq!(empty.get_dimensions(), (0, 0));
}

#[test]
fn stage_get_tile_bounds() {
    let stage = ground_stage();
    assert_eq!(stage.get_tile(&(0, 0)), Ok(Tile::Ground));
    assert_eq!(stage.get_tile(&(14, 8)), Ok(Tile::Ground));
    assert_eq!(stage.get_tile(&(15, 0)), Err(StageError::OutOfBounds));
    assert_eq!(stage.get_tile(&(0, 9)), Err(StageError::OutOfBounds));
    assert_eq!(stage.get_tile(&(-1, 3)), Err(StageError::OutOfBounds));
    assert!(stage.is_wall_or_oob(&(3, -1)));
    assert!(!stage.is_wall_or_oob(&(3, 1)));
}

#[test]
fn stage_set_then_get() {
    let stage = ground_stage();
    let changed = stage.set_tile(&(13, 2), Tile::SoftWall);
    assert_eq!(changed.get_tile(&(13, 2)), Ok(Tile::SoftWall));
    assert_eq!(changed.get_tile(&(12, 2)), Ok(Tile::Ground));
    assert_eq!(changed.get_tile(&(13, 3)), Ok(Tile::Ground));
    // The original stage is a separate value and is left as it was.
    assert_eq!(stage.get_tile(&(13, 2)), Ok(Tile::Ground));
    assert!(changed.is_wall_or_oob(&(13, 2)));
    let copy = changed.copy();
    assert_eq!(copy.get_tile(&(13, 2)), Ok(Tile::SoftWall));
}

#[test]
fn flame_spreads_and_freezes() {
    let flame = FlameImpl::new((3, 4), (3, 4), Direction::North, 2);
    assert_eq!(flame.next_position(), (3, 5));
    let once = flame.tick(false);
    assert_eq!(*once.get_end(), (3, 5));
    assert_eq!(*once.get_start(), (3, 4));
    assert_eq!(*once.get_spread_range(), 1);
    let twice = once.tick(false);
    assert_eq!(*twice.get_end(), (3, 6));
    assert_eq!(*twice.get_spread_range(), 0);
    let thrice = twice.tick(false);
    assert_eq!(*thrice.get_end(), (3, 6));
    assert_eq!(*thrice.get_spread_range(), 0);
    let blocked = flame.tick(true);
    assert_eq!(*blocked.get_end(), (3, 4));
    assert_eq!(*blocked.get_spread_range(), 0);
}

#[test]
fn flame_next_positions_by_direction() {
    let at = (5, 5);
    assert_eq!(FlameImpl::new(at, at, Direction::South, 1).next_position(), (5, 4));
    assert_eq!(FlameImpl::new(at, at, Direction::West, 1).next_position(), (4, 5));
    assert_eq!(FlameImpl::new(at, at, Direction::East, 1).next_position(), (6, 5));
    assert_eq!(FlameImpl::new(at, at, Direction::Northeast, 1).next_position(), (5, 5));
}

#[test]
fn bomb_detonates_exactly_at_lifetime() {
    let mut bomb = BombImpl::new((1, 1), true, 3);
    assert_eq!(*bomb.get_lifetime(), 300);
    assert!(*bomb.get_piercing());
    assert_eq!(*bomb.get_range(), 3);
    assert_eq!(*bomb.get_position(), (1, 1));
    for _ in 1..300 {
        bomb = bomb.tick();
        assert!(!bomb.can_detonate());
    }
    bomb = bomb.tick();
    assert!(bomb.can_detonate());
    assert_eq!(*bomb.get_lifetime(), 0);
}

#[test]
fn blast_open_lifecycle() {
    let range: i8 = 3;
    let mut blast = BlastImpl::new((7, 4), range, true, true, true, true);
    assert_eq!(blast.get_flames().len(), 4);
    assert_eq!(*blast.get_center(), (7, 4));
    assert_eq!(
        flame_directions(&blast),
        vec![Direction::North, Direction::South, Direction::West, Direction::East]
    );
    assert_eq!(*blast.get_flames()[0].get_start(), (7, 5));
    assert_eq!(blast.next_positions(), vec![(7, 6), (7, 2), (5, 4), (9, 4)]);
    for _ in 0..range {
        blast = blast.tick(vec![false; 4]);
        assert_eq!(*blast.get_lifetime(), 60);
    }
    assert!(blast.get_flames().iter().all(|f| *f.get_spread_range() == 0));
    assert_eq!(*blast.get_flames()[3].get_end(), (11, 4));
    // Spreading is seen to be done on the tick after the last flame stopped.
    assert!(!blast.get_spread_done());
    blast = blast.tick(vec![false; 4]);
    assert!(blast.get_spread_done());
    assert_eq!(*blast.get_lifetime(), 60);
    blast = blast.tick(vec![false; 4]);
    assert_eq!(*blast.get_lifetime(), 59);
    for _ in 0..59 {
        blast = blast.tick(vec![false; 4]);
    }
    assert_eq!(*blast.get_lifetime(), 0);
}

#[test]
fn blast_blocked_flame_freezes_at_once() {
    let blast = BlastImpl::new((2, 2), 9, true, false, false, false);
    assert_eq!(flame_directions(&blast), vec![Direction::North]);
    let next = blast.tick(vec![true]);
    assert_eq!(*next.get_flames()[0].get_spread_range(), 0);
    assert_eq!(*next.get_flames()[0].get_end(), (2, 3));
    assert_eq!(*next.get_lifetime(), 60);
}

#[test]
fn blast_without_free_sides_has_no_flames() {
    let blast = BlastImpl::new((2, 2), 2, false, false, false, false);
    assert!(blast.get_flames().is_empty());
    let next = blast.tick(vec![]);
    assert!(next.get_spread_done());
}

#[test]
fn detonation_on_open_ground() {
    let world: WorldImpl<u32> =
        WorldImpl::new(ground_stage(), vec![1], vec![primed_bomb((5, 4), 2)], vec![]);
    let world = world.tick();
    assert!(world.get_bombs().is_empty());
    assert_eq!(world.get_blasts().len(), 1);
    let blast = &world.get_blasts()[0];
    assert_eq!(*blast.get_center(), (5, 4));
    assert_eq!(blast.get_flames().len(), 4);
    assert!(blast.get_flames().iter().all(|f| *f.get_spread_range() == 2));
    for x in 0..15 {
        for y in 0..9 {
            assert_eq!(world.get_stage().get_tile(&(x, y)), Ok(Tile::Ground));
        }
    }
    assert_eq!(world.get_players(), &vec![1]);
}

#[test]
fn detonation_next_to_soft_wall() {
    let stage = ground_stage().set_tile(&(6, 4), Tile::SoftWall);
    let world: WorldImpl<u32> = WorldImpl::new(stage, vec![], vec![primed_bomb((5, 4), 2)], vec![]);
    let world = world.tick();
    assert_eq!(world.get_stage().get_tile(&(6, 4)), Ok(Tile::Ground));
    assert_eq!(world.get_blasts().len(), 1);
    let dirs = flame_directions(&world.get_blasts()[0]);
    assert_eq!(dirs, vec![Direction::North, Direction::South, Direction::West]);
}

#[test]
fn detonation_breaks_hard_wall_and_ignores_edge() {
    let stage = ground_stage().set_tile(&(0, 1), Tile::HardWall);
    let world: WorldImpl<u32> = WorldImpl::new(stage, vec![], vec![primed_bomb((0, 0), 1)], vec![]);
    let world = world.tick();
    assert_eq!(world.get_stage().get_tile(&(0, 1)), Ok(Tile::Ground));
    assert_eq!(flame_directions(&world.get_blasts()[0]), vec![Direction::East]);
}

#[test]
fn world_bombs_age_without_detonating() {
    let world: WorldImpl<u32> =
        WorldImpl::new(ground_stage(), vec![], vec![BombImpl::new((3, 3), false, 1)], vec![]);
    let world = world.update(10);
    assert_eq!(*world.get_bombs()[0].get_lifetime(), 290);
    assert!(world.get_blasts().is_empty());
    let world = world.update(-4);
    assert_eq!(*world.get_bombs()[0].get_lifetime(), 290);
}

#[test]
fn world_flames_stop_at_walls_and_edges() {
    let stage = ground_stage().set_tile(&(5, 7), Tile::SoftWall);
    let world: WorldImpl<u32> = WorldImpl::new(stage, vec![], vec![primed_bomb((5, 4), 5)], vec![]);
    let world = world.update(8);
    let blast = &world.get_blasts()[0];
    let ends: Vec<(i8, i8)> = blast.get_flames().iter().map(|f| *f.get_end()).collect();
    // North stops below the wall, south and west stop at the stage edge.
    assert_eq!(ends, vec![(5, 6), (5, 0), (0, 4), (11, 4)]);
    assert_eq!(world.get_stage().get_tile(&(5, 7)), Ok(Tile::SoftWall));
}

#[test]
fn world_spent_blast_leaves() {
    let world: WorldImpl<u32> =
        WorldImpl::new(ground_stage(), vec![], vec![primed_bomb((5, 4), 0)], vec![]);
    let world = world.tick();
    assert_eq!(world.get_blasts().len(), 1);
    // One tick to see spreading done, then sixty ticks of lifetime.
    let world = world.update(60);
    assert_eq!(world.get_blasts().len(), 1);
    assert_eq!(*world.get_blasts()[0].get_lifetime(), 1);
    let world = world.tick();
    assert!(world.get_blasts().is_empty());
}

#[test]
fn world_update_equals_repeated_tick() {
    let make = || -> WorldImpl<u32> {
        let stage = ground_stage().set_tile(&(6, 4), Tile::SoftWall);
        WorldImpl::new(
            stage,
            vec![4, 5],
            vec![primed_bomb((5, 4), 2), BombImpl::new((9, 2), false, 1)],
            vec![],
        )
    };
    let by_update = make().update(7);
    let mut by_tick = make();
    for _ in 0..7 {
        by_tick = by_tick.tick();
    }
    let summary = |w: &WorldImpl<u32>| {
        let bombs: Vec<i16> = w.get_bombs().iter().map(|b| *b.get_lifetime()).collect();
        let blasts: Vec<(i8, Vec<(i8, i8)>)> = w
            .get_blasts()
            .iter()
            .map(|b| (*b.get_lifetime(), b.get_flames().iter().map(|f| *f.get_end()).collect()))
            .collect();
        let tiles: Vec<Result<Tile, StageError>> =
            (0..15).flat_map(|x| (0..9).map(move |y| (x, y))).map(|p| w.get_stage().get_tile(&p)).collect();
        (bombs, blasts, tiles, w.get_players().clone())
    };
    assert_eq!(summary(&by_update), summary(&by_tick));
    let mut split = make().update(3).update(4);
    assert_eq!(summary(&split), summary(&by_tick));
    split = split.with_players(vec![9]);
    assert_eq!(split.get_players(), &vec![9]);
}

#[test]
fn well_formedness_checks() {
    assert!(ground_stage().is_well_formed());
    let world: WorldImpl<u32> =
        WorldImpl::new(ground_stage(), vec![], vec![BombImpl::new((14, 8), false, 2)], vec![]);
    assert!(world.is_well_formed());
    let off_stage: WorldImpl<u32> =
        WorldImpl::new(ground_stage(), vec![], vec![BombImpl::new((15, 8), false, 2)], vec![]);
    assert!(!off_stage.is_well_formed());
    let negative_range: WorldImpl<u32> =
        WorldImpl::new(ground_stage(), vec![], vec![BombImpl::new((1, 1), false, -1)], vec![]);
    assert!(!negative_range.is_well_formed());
    let mut spent = BombImpl::new((1, 1), false, 1);
    for _ in 0..300 {
        spent = spent.tick();
    }
    let spent_world: WorldImpl<u32> = WorldImpl::new(ground_stage(), vec![], vec![spent], vec![]);
    assert!(!spent_world.is_well_formed());
    let with_blast: WorldImpl<u32> = WorldImpl::new(
        ground_stage(),
        vec![],
        vec![],
        vec![BlastImpl::new((0, 0), 1, true, false, false, true)],
    );
    assert!(with_blast.is_well_formed());
    let blast_off_stage: WorldImpl<u32> = WorldImpl::new(
        ground_stage(),
        vec![],
        vec![],
        vec![BlastImpl::new((0, 0), 1, false, true, false, false)],
    );
    assert!(!blast_off_stage.is_well_formed());
}
