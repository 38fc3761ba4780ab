use bomby::bomb::{
    Bomb, CameraTrauma, CountBombs, PlaySfx, Rejected, BOMB_TIMER_NANOS, BOMB_TRAUMA,
    EXPLOSION_TIMER_NANOS, MAX_BOMBS_PER_PLAYER,
};
use bomby::collision::{CollisionBounds, Velocity};
use bomby::grid::{GridCell, ToWorld, WorldPos};
use bomby::tiles::{Tile, TileCategory};
use bomby::timer::Timer;
use bomby::world::{count_owned, World};

const BOUNDS: CollisionBounds = CollisionBounds { x: (-8, 8), y: (0, 8) };

fn cell(x: i32, y: i32) -> GridCell {
    GridCell { x, y }
}

fn centre(x: i32, y: i32) -> WorldPos {
    cell(x, y).to_world()
}

fn tile(x: i32, y: i32, category: TileCategory) -> Tile {
    Tile { cell: cell(x, y), category }
}

fn count_of(world: &World, id: u64) -> u8 {
    let i = world.find_player(id).unwrap();
    world.players()[i].bombs.0
}

#[test]
fn constants_of_the_rules() {
    assert_eq!(MAX_BOMBS_PER_PLAYER, 2);
    assert_eq!(BOMB_TIMER_NANOS, 1_500_000_000);
    assert_eq!(EXPLOSION_TIMER_NANOS, 600_000_000);
    assert_eq!(BOMB_TRAUMA, 300);
    assert_eq!(BOMB_TRAUMA as f32 / 1000.0, 0.3);
    assert_eq!(BOMB_TIMER_NANOS as f64 / 1e9, 1.5);
}

#[test]
fn a_new_world_is_empty() {
    let world = World::new();
    assert!(world.players().is_empty());
    assert!(world.bombs().is_empty());
    assert!(world.tiles().is_empty());
    assert!(world.explosions().is_empty());
}

#[test]
fn count_bombs_goes_up_and_down() {
    let mut count = CountBombs::default();
    assert_eq!(count, CountBombs(0));
    assert!(!count.is_full());
    count.increment();
    count.increment();
    assert_eq!(count, CountBombs(2));
    assert!(count.is_full());
    count.decrement();
    assert_eq!(count, CountBombs(1));
    assert!(!count.is_full());
}

#[test]
fn an_actor_enters_at_rest_with_no_bomb() {
    let mut world = World::new();
    assert!(world.spawn_player(7, centre(2, 2), BOUNDS));
    let players = world.players();
    assert_eq!(players.len(), 1);
    assert_eq!(players[0].id, 7);
    assert_eq!(players[0].position, WorldPos { x: 80, y: 80 });
    assert_eq!(players[0].velocity, Velocity { x: 0, y: 0 });
    assert_eq!(players[0].bounds, BOUNDS);
    assert_eq!(players[0].bombs, CountBombs(0));
    assert_eq!(world.find_player(7), Some(0));
    assert_eq!(world.find_player(8), None);
}

#[test]
fn an_id_enters_once() {
    let mut world = World::new();
    assert!(world.spawn_player(7, centre(2, 2), BOUNDS));
    assert!(!world.spawn_player(7, centre(5, 5), BOUNDS));
    assert_eq!(world.players().len(), 1);
    assert_eq!(world.players()[0].position, centre(2, 2));
}

#[test]
fn an_id_with_a_live_bomb_is_not_free() {
    let mut world = World::new();
    world.spawn_player(1, centre(2, 2), BOUNDS);
    world.spawn_player(2, centre(2, 3), BOUNDS);
    world.place_bomb(2, centre(8, 8)).unwrap();
    world.place_bomb(1, centre(2, 2)).unwrap();
    // The bomb of actor 1 takes actor 2 out; the bomb of actor 2 burns on.
    world.update_bombs(BOMB_TIMER_NANOS);
    assert_eq!(world.find_player(2), None);
    assert!(world.bombs().is_empty());
    assert!(world.spawn_player(2, centre(9, 9), BOUNDS));
    let mut other = World::new();
    other.spawn_player(1, centre(2, 2), BOUNDS);
    other.spawn_player(2, centre(2, 3), BOUNDS);
    other.place_bomb(1, centre(2, 2)).unwrap();
    other.update_bombs(BOMB_TIMER_NANOS - 1);
    other.place_bomb(2, centre(8, 8)).unwrap();
    other.update_bombs(1);
    assert_eq!(other.find_player(2), None);
    assert_eq!(count_owned(other.bombs(), 2), 1);
    assert!(!other.spawn_player(2, centre(9, 9), BOUNDS));
}

#[test]
fn placing_a_bomb_snaps_it_to_the_cell_centre() {
    let mut world = World::new();
    world.spawn_player(1, centre(0, 0), BOUNDS);
    assert_eq!(world.place_bomb(1, WorldPos { x: 70, y: 95 }), Ok(cell(2, 2)));
    assert_eq!(
        world.bombs(),
        &vec![Bomb {
            spawner: 1,
            position: WorldPos { x: 80, y: 80 },
            timer: Timer::new(BOMB_TIMER_NANOS),
        }]
    );
    assert_eq!(count_of(&world, 1), 1);
    assert_eq!(world.drain_sfx(), vec![PlaySfx::BombFuse]);
    assert!(world.drain_sfx().is_empty());
    assert!(world.bomb_at(cell(2, 2)));
    assert!(!world.bomb_at(cell(2, 3)));
}

#[test]
fn capacity_is_never_exceeded() {
    let mut world = World::new();
    world.spawn_player(1, centre(0, 0), BOUNDS);
    assert_eq!(world.place_bomb(1, centre(1, 1)), Ok(cell(1, 1)));
    assert_eq!(world.place_bomb(1, centre(2, 1)), Ok(cell(2, 1)));
    let before = world.bombs().clone();
    world.drain_sfx();
    for x in 3..20 {
        assert_eq!(world.place_bomb(1, centre(x, 1)), Err(Rejected::CapacityReached));
        assert_eq!(count_of(&world, 1), 2);
        assert_eq!(count_owned(world.bombs(), 1), 2);
    }
    assert_eq!(world.bombs(), &before);
    assert!(world.drain_sfx().is_empty());
}

#[test]
fn capacity_is_counted_for_each_actor() {
    let mut world = World::new();
    world.spawn_player(1, centre(0, 0), BOUNDS);
    world.spawn_player(2, centre(0, 1), BOUNDS);
    world.place_bomb(1, centre(1, 1)).unwrap();
    world.place_bomb(1, centre(2, 1)).unwrap();
    assert_eq!(world.place_bomb(2, centre(3, 1)), Ok(cell(3, 1)));
    assert_eq!(count_of(&world, 1), 2);
    assert_eq!(count_of(&world, 2), 1);
}

#[test]
fn no_two_bombs_in_one_cell() {
    let mut world = World::new();
    world.spawn_player(1, centre(0, 0), BOUNDS);
    world.spawn_player(2, centre(0, 1), BOUNDS);
    assert_eq!(world.place_bomb(1, WorldPos { x: 65, y: 65 }), Ok(cell(2, 2)));
    assert_eq!(world.place_bomb(2, WorldPos { x: 95, y: 64 }), Err(Rejected::CellOccupied));
    assert_eq!(world.place_bomb(1, WorldPos { x: 80, y: 80 }), Err(Rejected::CellOccupied));
    assert_eq!(world.bombs().len(), 1);
    assert_eq!(count_of(&world, 1), 1);
    assert_eq!(count_of(&world, 2), 0);
    assert_eq!(world.drain_sfx(), vec![PlaySfx::BombFuse]);
}

#[test]
fn an_unknown_actor_places_nothing() {
    let mut world = World::new();
    assert_eq!(world.place_bomb(9, centre(1, 1)), Err(Rejected::UnknownActor));
    assert!(world.bombs().is_empty());
    assert!(world.drain_sfx().is_empty());
}

#[test]
fn capacity_is_looked_at_before_the_cell() {
    let mut world = World::new();
    world.spawn_player(1, centre(0, 0), BOUNDS);
    world.place_bomb(1, centre(1, 1)).unwrap();
    world.place_bomb(1, centre(2, 1)).unwrap();
    assert_eq!(world.place_bomb(1, centre(1, 1)), Err(Rejected::CapacityReached));
}

#[test]
fn spawn_bombs_drops_where_each_actor_stands() {
    let mut world = World::new();
    world.spawn_player(1, centre(2, 2), BOUNDS);
    world.spawn_player(2, WorldPos { x: 70, y: 70 }, BOUNDS);
    world.spawn_player(3, centre(4, 4), BOUNDS);
    // Actor 2 stands in the cell of actor 1 and comes second; 9 is no actor.
    world.spawn_bombs(&vec![1, 2, 9, 3]);
    let cells: Vec<WorldPos> = world.bombs().iter().map(|b| b.position).collect();
    assert_eq!(cells, vec![centre(2, 2), centre(4, 4)]);
    assert_eq!(count_of(&world, 1), 1);
    assert_eq!(count_of(&world, 2), 0);
    assert_eq!(count_of(&world, 3), 1);
    assert_eq!(world.drain_sfx(), vec![PlaySfx::BombFuse, PlaySfx::BombFuse]);
}

#[test]
fn a_bomb_goes_off_once_when_its_fuse_runs_out() {
    let mut world = World::new();
    world.spawn_player(1, centre(9, 9), BOUNDS);
    world.place_bomb(1, centre(2, 2)).unwrap();
    world.drain_sfx();
    let tick: u64 = 16_666_667;
    let mut explosions: usize = 0;
    let mut ticks: u64 = 0;
    for _ in 0..200 {
        world.update_bombs(tick);
        ticks += 1;
        let heard = world.drain_sfx();
        if !heard.is_empty() {
            assert_eq!(heard, vec![PlaySfx::BombExplosion]);
            explosions += 1;
            // The first tick on which the time counted reaches the fuse.
            assert_eq!(ticks, 90);
            assert!(world.bombs().is_empty());
        } else if ticks < 90 {
            assert_eq!(world.bombs().len(), 1);
            assert_eq!(world.bombs()[0].timer.elapsed(), ticks * tick);
        }
    }
    assert_eq!(explosions, 1);
    assert_eq!(world.drain_trauma(), vec![CameraTrauma(300)]);
    assert_eq!(count_of(&world, 1), 0);
}

#[test]
fn one_tick_short_of_the_fuse_nothing_happens() {
    let mut world = World::new();
    world.spawn_player(1, centre(2, 2), BOUNDS);
    world.place_bomb(1, centre(2, 2)).unwrap();
    world.drain_sfx();
    world.update_bombs(BOMB_TIMER_NANOS - 1);
    assert_eq!(world.bombs().len(), 1);
    assert_eq!(world.players().len(), 1);
    assert!(world.drain_sfx().is_empty());
    assert!(world.drain_trauma().is_empty());
    world.update_bombs(1);
    assert!(world.bombs().is_empty());
    assert!(world.players().is_empty());
}

#[test]
fn tile_destruction_is_selective() {
    let mut world = World::new();
    world.spawn_player(1, centre(9, 9), BOUNDS);
    world.insert_tile(tile(5, 5, TileCategory::Permanent));
    world.insert_tile(tile(4, 5, TileCategory::Destructible));
    world.insert_tile(tile(4, 4, TileCategory::Destructible));
    world.insert_tile(tile(7, 5, TileCategory::Destructible));
    world.insert_tile(tile(5, 6, TileCategory::Empty));
    world.place_bomb(1, centre(5, 5)).unwrap();
    world.update_bombs(BOMB_TIMER_NANOS);
    assert_eq!(
        world.tiles(),
        &vec![
            tile(5, 5, TileCategory::Permanent),
            tile(4, 4, TileCategory::Destructible),
            tile(7, 5, TileCategory::Destructible),
            tile(5, 6, TileCategory::Empty),
        ]
    );
    assert_eq!(world.classify(cell(5, 5)), TileCategory::Permanent);
    assert_eq!(world.classify(cell(4, 5)), TileCategory::Empty);
    assert_eq!(world.classify(cell(6, 5)), TileCategory::Empty);
    let marks: Vec<WorldPos> = world.explosions().iter().map(|e| e.position).collect();
    assert_eq!(marks, vec![centre(4, 5)]);
    assert_eq!(world.explosions()[0].timer, Timer::new(EXPLOSION_TIMER_NANOS));
}

#[test]
fn a_permanent_wall_in_the_cell_saves_the_destructible_tile() {
    let mut world = World::new();
    world.spawn_player(1, centre(9, 9), BOUNDS);
    world.insert_tile(tile(4, 5, TileCategory::Destructible));
    world.insert_tile(tile(4, 5, TileCategory::Permanent));
    world.insert_tile(tile(6, 5, TileCategory::Destructible));
    world.insert_tile(tile(6, 5, TileCategory::Destructible));
    world.place_bomb(1, centre(5, 5)).unwrap();
    world.update_bombs(BOMB_TIMER_NANOS);
    assert_eq!(
        world.tiles(),
        &vec![tile(4, 5, TileCategory::Destructible), tile(4, 5, TileCategory::Permanent)]
    );
    // One mark for the cell that was cleared, though two tiles stood in it.
    assert_eq!(world.explosions().len(), 1);
    assert_eq!(world.explosions()[0].position, centre(6, 5));
}

#[test]
fn a_blast_does_not_stop_at_a_permanent_wall() {
    // The shape is fixed: a wall in the centre shields nothing next to it.
    let mut world = World::new();
    world.spawn_player(1, centre(9, 9), BOUNDS);
    world.insert_tile(tile(5, 5, TileCategory::Permanent));
    world.insert_tile(tile(5, 6, TileCategory::Destructible));
    world.place_bomb(1, centre(5, 5)).unwrap();
    world.update_bombs(BOMB_TIMER_NANOS);
    assert_eq!(world.tiles(), &vec![tile(5, 5, TileCategory::Permanent)]);
}

#[test]
fn players_in_reach_are_eliminated() {
    let mut world = World::new();
    world.spawn_player(1, centre(9, 9), BOUNDS);
    world.spawn_player(2, centre(4, 5), BOUNDS);
    world.spawn_player(3, centre(4, 4), BOUNDS);
    world.spawn_player(4, WorldPos { x: 5 * 32 + 31, y: 6 * 32 }, BOUNDS);
    world.place_bomb(1, centre(5, 5)).unwrap();
    world.drain_sfx();
    world.update_bombs(BOMB_TIMER_NANOS);
    let left: Vec<u64> = world.players().iter().map(|p| p.id).collect();
    assert_eq!(left, vec![1, 3]);
    assert_eq!(
        world.drain_sfx(),
        vec![PlaySfx::PlayerDeath, PlaySfx::PlayerDeath, PlaySfx::BombExplosion]
    );
    assert_eq!(world.drain_trauma(), vec![CameraTrauma(BOMB_TRAUMA)]);
}

#[test]
fn the_owner_gets_its_bomb_back() {
    let mut world = World::new();
    world.spawn_player(1, centre(9, 9), BOUNDS);
    world.spawn_player(2, centre(9, 8), BOUNDS);
    world.place_bomb(1, centre(1, 1)).unwrap();
    world.place_bomb(2, centre(3, 3)).unwrap();
    world.update_bombs(1_000_000_000);
    world.place_bomb(1, centre(5, 5)).unwrap();
    assert_eq!(count_of(&world, 1), 2);
    world.update_bombs(500_000_000);
    // The two bombs placed first went off; the third burns on.
    assert_eq!(count_of(&world, 1), 1);
    assert_eq!(count_of(&world, 2), 0);
    assert_eq!(world.bombs().len(), 1);
    assert_eq!(world.bombs()[0].position, centre(5, 5));
    assert_eq!(world.bombs()[0].timer.elapsed(), 500_000_000);
    assert_eq!(world.drain_trauma().len(), 2);
    assert_eq!(world.place_bomb(1, centre(1, 1)), Ok(cell(1, 1)));
}

#[test]
fn a_bomb_outlives_its_owner() {
    let mut world = World::new();
    world.spawn_player(1, centre(2, 2), BOUNDS);
    world.spawn_player(2, centre(2, 3), BOUNDS);
    world.place_bomb(2, centre(2, 3)).unwrap();
    world.update_bombs(500_000_000);
    world.place_bomb(2, centre(7, 7)).unwrap();
    world.drain_sfx();
    world.update_bombs(1_000_000_000);
    // The first bomb took out both actors; the second has no owner left.
    assert!(world.players().is_empty());
    assert_eq!(world.bombs().len(), 1);
    assert_eq!(
        world.drain_sfx(),
        vec![PlaySfx::PlayerDeath, PlaySfx::PlayerDeath, PlaySfx::BombExplosion]
    );
    world.update_bombs(500_000_000);
    assert!(world.bombs().is_empty());
    assert_eq!(world.drain_sfx(), vec![PlaySfx::BombExplosion]);
    assert_eq!(world.drain_trauma(), vec![CameraTrauma(300), CameraTrauma(300)]);
}

#[test]
fn bombs_due_on_one_tick_go_off_in_the_order_placed() {
    let mut world = World::new();
    world.spawn_player(1, centre(9, 9), BOUNDS);
    world.spawn_player(2, centre(5, 5), BOUNDS);
    world.insert_tile(tile(4, 5, TileCategory::Destructible));
    world.place_bomb(1, centre(3, 5)).unwrap();
    world.place_bomb(1, centre(5, 5)).unwrap();
    world.drain_sfx();
    world.update_bombs(BOMB_TIMER_NANOS);
    // The first blast clears the tile; the second finds the cell empty.
    assert_eq!(world.explosions().len(), 1);
    assert!(world.tiles().is_empty());
    assert_eq!(
        world.drain_sfx(),
        vec![PlaySfx::BombExplosion, PlaySfx::PlayerDeath, PlaySfx::BombExplosion]
    );
    assert_eq!(count_of(&world, 1), 0);
}

#[test]
fn detonate_resolves_one_bomb() {
    let mut world = World::new();
    world.spawn_player(1, centre(9, 9), BOUNDS);
    world.place_bomb(1, centre(1, 1)).unwrap();
    world.place_bomb(1, centre(3, 3)).unwrap();
    world.detonate(0);
    assert_eq!(world.bombs().len(), 1);
    assert_eq!(world.bombs()[0].position, centre(3, 3));
    assert_eq!(count_of(&world, 1), 1);
}

#[test]
fn marks_fade_on_their_own() {
    let mut world = World::new();
    world.spawn_player(1, centre(9, 9), BOUNDS);
    world.insert_tile(tile(4, 5, TileCategory::Destructible));
    world.place_bomb(1, centre(5, 5)).unwrap();
    world.update_bombs(BOMB_TIMER_NANOS);
    world.decay_explosion(599_999_999);
    assert_eq!(world.explosions().len(), 1);
    assert_eq!(world.explosions()[0].timer.elapsed(), 599_999_999);
    world.decay_explosion(1);
    assert!(world.explosions().is_empty());
}

#[test]
fn walls_and_bombs_block() {
    let mut world = World::new();
    world.spawn_player(1, centre(0, 0), BOUNDS);
    world.insert_tile(tile(1, 1, TileCategory::Permanent));
    world.insert_tile(tile(2, 1, TileCategory::Destructible));
    world.insert_tile(tile(3, 1, TileCategory::Empty));
    world.place_bomb(1, centre(4, 1)).unwrap();
    assert!(world.is_blocked(cell(1, 1)));
    assert!(world.is_blocked(cell(2, 1)));
    assert!(!world.is_blocked(cell(3, 1)));
    assert!(world.is_blocked(cell(4, 1)));
    assert!(!world.is_blocked(cell(5, 1)));
    assert_eq!(world.blocked_cells(), vec![cell(1, 1), cell(2, 1), cell(4, 1)]);
    world.destroy_tile(cell(2, 1));
    world.destroy_tile(cell(1, 1));
    assert_eq!(world.blocked_cells(), vec![cell(1, 1), cell(4, 1)]);
}

#[test]
fn collision_stops_an_actor_at_a_wall_and_at_a_bomb() {
    let mut world = World::new();
    world.spawn_player(1, centre(2, 2), BOUNDS);
    world.spawn_player(2, centre(2, 6), BOUNDS);
    world.insert_tile(tile(3, 2, TileCategory::Permanent));
    world.place_bomb(1, centre(2, 7)).unwrap();
    assert!(world.set_velocity(1, Velocity { x: 10, y: 10 }));
    assert!(world.set_velocity(2, Velocity { x: -3, y: 30 }));
    assert!(!world.set_velocity(3, Velocity { x: 1, y: 1 }));
    world.player_collisions();
    assert_eq!(world.players()[0].velocity, Velocity { x: 0, y: 10 });
    assert_eq!(world.players()[1].velocity, Velocity { x: -3, y: 0 });
    world.update_position();
    assert_eq!(world.players()[0].position, WorldPos { x: 80, y: 90 });
    assert_eq!(world.players()[1].position, WorldPos { x: 77, y: 208 });
}

#[test]
fn an_actor_walks_off_its_own_bomb() {
    let mut world = World::new();
    world.spawn_player(1, centre(2, 2), BOUNDS);
    world.spawn_bombs(&vec![1]);
    world.set_velocity(1, Velocity { x: 0, y: 40 });
    world.player_collisions();
    assert_eq!(world.players()[0].velocity, Velocity { x: 0, y: 40 });
    world.update_position();
    // Once off the bomb's cell, the way back is closed.
    world.set_velocity(1, Velocity { x: 0, y: -40 });
    world.player_collisions();
    assert_eq!(world.players()[0].velocity, Velocity { x: 0, y: 0 });
}

#[test]
fn positions_stop_at_the_end_of_the_world() {
    let mut world = World::new();
    world.spawn_player(1, WorldPos { x: i64::MAX - 1, y: i64::MIN + 1 }, BOUNDS);
    world.set_velocity(1, Velocity { x: 5, y: -5 });
    world.update_position();
    assert_eq!(world.players()[0].position, WorldPos { x: i64::MAX, y: i64::MIN });
}

#[test]
fn end_to_end() {
    let mut world = World::new();
    assert!(world.spawn_player(1, centre(2, 2), BOUNDS));
    world.insert_tile(tile(3, 2, TileCategory::Destructible));
    world.insert_tile(tile(2, 0, TileCategory::Permanent));
    assert_eq!(count_of(&world, 1), 0);

    assert_eq!(world.place_bomb(1, world.players()[0].position), Ok(cell(2, 2)));
    assert_eq!(world.bombs().len(), 1);
    assert_eq!(world.bombs()[0].position, centre(2, 2));
    assert_eq!(world.bombs()[0].spawner, 1);
    assert_eq!(count_of(&world, 1), 1);
    assert_eq!(world.drain_sfx(), vec![PlaySfx::BombFuse]);

    // The actor walks up and out of reach while the fuse burns: 1.5 s in 100 ticks.
    let tick: u64 = 15_000_000;
    for n in 0..100 {
        world.set_velocity(1, Velocity { x: 0, y: if n < 40 { 2 } else { 0 } });
        world.step(&Vec::new(), tick);
        if n < 99 {
            assert_eq!(world.bombs().len(), 1);
            assert!(world.drain_sfx().is_empty());
            assert!(world.drain_trauma().is_empty());
            assert_eq!(world.classify(cell(3, 2)), TileCategory::Destructible);
        }
    }
    assert!(world.bombs().is_empty());
    assert_eq!(world.players().len(), 1);
    assert_eq!(world.players()[0].position, WorldPos { x: 80, y: 160 });
    assert_eq!(count_of(&world, 1), 0);
    assert_eq!(world.classify(cell(3, 2)), TileCategory::Empty);
    assert_eq!(world.tiles(), &vec![tile(2, 0, TileCategory::Permanent)]);
    assert_eq!(world.drain_sfx(), vec![PlaySfx::BombExplosion]);
    let trauma = world.drain_trauma();
    assert_eq!(trauma, vec![CameraTrauma(300)]);
    assert_eq!(trauma[0].0 as f32 / 1000.0, 0.3);
    // The mark left by the blast faded for the length of the last tick.
    assert_eq!(world.explosions().len(), 1);
    assert_eq!(world.explosions()[0].position, centre(3, 2));
    assert_eq!(world.explosions()[0].timer.elapsed(), tick);
}

#[test]
fn step_places_bombs_before_it_moves_the_actors() {
    let mut world = World::new();
    world.spawn_player(1, centre(2, 2), BOUNDS);
    world.set_velocity(1, Velocity { x: 64, y: 0 });
    world.step(&vec![1], 1);
    assert_eq!(world.bombs()[0].position, centre(2, 2));
    assert_eq!(world.players()[0].position, centre(4, 2));
}
