use oicana::bullets::Bullet;
use oicana::enemies::{
    create_enemy, nearest_refuge, remove_enemies, spawn_enemies, spawn_enemy, spawn_health,
    update_enemies, update_tamable_enemies, Enemy, EnemyColor, EnemyForm, Rgb, Trees, WaveState,
    BONUS_LIMIT, COLOR_COUNT, ENEMY_SPEED, FLEE_SPEED, FORM_COUNT, GRAY_LEVEL, SPAWN_INTERVAL_MS,
};
use oicana::map::{Coordinate, GameMap};
use oicana::puzzle::{CurrentPiece, Piece};
use oicana::ui::GameState;

fn at(x: i32, y: i32) -> Coordinate {
    Coordinate { x, y }
}

fn field(waypoints: Vec<Coordinate>) -> GameMap {
    GameMap {
        height: 0,
        width: 0,
        tiles: vec![],
        tile_size: 64_000,
        spawn: at(-5000, 0),
        sink: at(0, 0),
        waypoints,
    }
}

fn walker(position: Coordinate) -> Enemy {
    Enemy { position, ..Enemy::new(EnemyForm::Triangle, EnemyColor::Blue, 100, at(0, 0)) }
}

fn tamed(position: Coordinate) -> Enemy {
    Enemy { tameable: true, ..walker(position) }
}

fn empty_hand() -> CurrentPiece {
    CurrentPiece { entity: None, piece: None }
}

#[test]
fn forms_are_drawn_by_number() {
    assert_eq!(FORM_COUNT, 3);
    assert_eq!(EnemyForm::from_draw(0), EnemyForm::Circle);
    assert_eq!(EnemyForm::from_draw(1), EnemyForm::Triangle);
    assert_eq!(EnemyForm::from_draw(2), EnemyForm::Quadratic);
    assert_eq!(EnemyForm::from_draw(3), EnemyForm::Quadratic);
    assert_eq!(EnemyForm::from_draw(u32::MAX), EnemyForm::Quadratic);
}

#[test]
fn colors_are_drawn_by_number() {
    assert_eq!(COLOR_COUNT, 5);
    assert_eq!(EnemyColor::from_draw(0), EnemyColor::Red);
    assert_eq!(EnemyColor::from_draw(1), EnemyColor::Green);
    assert_eq!(EnemyColor::from_draw(2), EnemyColor::Blue);
    assert_eq!(EnemyColor::from_draw(3), EnemyColor::Pink);
    assert_eq!(EnemyColor::from_draw(4), EnemyColor::Lilac);
    assert_eq!(EnemyColor::from_draw(5), EnemyColor::Lilac);
}

#[test]
fn every_form_and_color_has_a_draw_below_the_count() {
    let forms: Vec<EnemyForm> = (0..FORM_COUNT).map(EnemyForm::from_draw).collect();
    assert!(forms.contains(&EnemyForm::Circle));
    assert!(forms.contains(&EnemyForm::Triangle));
    assert!(forms.contains(&EnemyForm::Quadratic));
    let colors: Vec<EnemyColor> = (0..COLOR_COUNT).map(EnemyColor::from_draw).collect();
    assert!(colors.contains(&EnemyColor::Red));
    assert!(colors.contains(&EnemyColor::Lilac));
    assert!(colors.contains(&EnemyColor::Green));
    assert!(colors.contains(&EnemyColor::Blue));
    assert!(colors.contains(&EnemyColor::Pink));
}

#[test]
fn forms_have_their_number_of_sides() {
    assert_eq!(EnemyForm::Circle.sides(), 5);
    assert_eq!(EnemyForm::Triangle.sides(), 3);
    assert_eq!(EnemyForm::Quadratic.sides(), 4);
}

#[test]
fn colors_have_their_paint() {
    assert_eq!(EnemyColor::Lilac.to_color(), Rgb { r: 84, g: 13, b: 110 });
    assert_eq!(EnemyColor::Red.to_color(), Rgb { r: 235, g: 66, b: 102 });
    assert_eq!(EnemyColor::Green.to_color(), Rgb { r: 83, g: 145, b: 126 });
    assert_eq!(EnemyColor::Pink.to_color(), Rgb { r: 217, g: 154, b: 197 });
    assert_eq!(EnemyColor::Blue.to_color(), Rgb { r: 88, g: 84, b: 129 });
}

#[test]
fn a_newborn_enemy_is_alive_and_in_full_health_at_the_start() {
    let e = Enemy::new(EnemyForm::Circle, EnemyColor::Pink, 77, at(3, 4));
    assert_eq!(
        e,
        Enemy {
            form: EnemyForm::Circle,
            color: EnemyColor::Pink,
            max_health: 77,
            health: 77,
            current_waypoint_index: 0,
            travelled: 0,
            tameable: false,
            position: at(3, 4),
        }
    );
}

#[test]
fn a_stride_short_of_the_waypoint_is_walked_in_full() {
    let path = vec![at(1000, 0)];
    let e = walker(at(0, 0)).march(&path, 250);
    assert_eq!(e.position, at(250, 0));
    assert_eq!(e.travelled, 250);
    assert_eq!(e.current_waypoint_index, 0);
}

#[test]
fn a_stride_past_the_waypoint_ends_on_it() {
    let path = vec![at(1000, 0), at(1000, 5000)];
    let e = walker(at(0, 0)).march(&path, 1500);
    assert_eq!(e.position, at(1000, 0));
    assert_eq!(e.travelled, 1000);
    assert_eq!(e.current_waypoint_index, 1);
}

#[test]
fn a_stride_that_just_reaches_the_waypoint_ticks_it_off_a_tick_later() {
    let path = vec![at(1000, 0), at(1000, 5000)];
    let e = walker(at(0, 0)).march(&path, 1000);
    assert_eq!(e.position, at(1000, 0));
    assert_eq!(e.travelled, 1000);
    assert_eq!(e.current_waypoint_index, 0);
    let e = e.march(&path, 1000);
    assert_eq!(e.position, at(1000, 1000));
    assert_eq!(e.travelled, 2000);
    assert_eq!(e.current_waypoint_index, 1);
}

#[test]
fn waypoints_underfoot_do_not_stall_the_walk() {
    let path = vec![at(0, 0), at(0, 0), at(500, 0)];
    let e = walker(at(0, 0)).march(&path, 100);
    assert_eq!(e.position, at(100, 0));
    assert_eq!(e.travelled, 100);
    assert_eq!(e.current_waypoint_index, 2);
}

#[test]
fn waypoints_underfoot_at_the_end_of_the_road_use_it_up() {
    let path = vec![at(700, 0), at(0, 0), at(0, 0)];
    let e = Enemy { current_waypoint_index: 1, ..walker(at(0, 0)) }.march(&path, 100);
    assert_eq!(e.position, at(0, 0));
    assert_eq!(e.travelled, 0);
    assert_eq!(e.current_waypoint_index, 3);
}

#[test]
fn an_enemy_out_of_road_stays_put() {
    let path = vec![at(700, 0)];
    let done = Enemy { current_waypoint_index: 1, ..walker(at(5, 5)) };
    assert_eq!(done.march(&path, 100), done);
    let beyond = Enemy { current_waypoint_index: 9, ..walker(at(5, 5)) };
    assert_eq!(beyond.march(&path, 100), beyond);
    assert_eq!(walker(at(5, 5)).march(&vec![], 100), walker(at(5, 5)));
}

#[test]
fn a_tameable_enemy_does_not_walk_the_road() {
    let path = vec![at(700, 0)];
    assert_eq!(tamed(at(0, 0)).march(&path, 100), tamed(at(0, 0)));
}

#[test]
fn a_walk_along_a_diagonal_moves_both_ways() {
    let path = vec![at(3000, 4000)];
    let e = walker(at(0, 0)).march(&path, 2500);
    assert_eq!(e.position, at(1500, 2000));
    assert_eq!(e.travelled, 2500);
}

#[test]
fn the_length_left_counts_rounded_down_when_a_stride_would_carry_past() {
    let path = vec![at(1000, 1000)];
    let e = walker(at(0, 0)).march(&path, 2000);
    assert_eq!(e.position, at(1000, 1000));
    assert_eq!(e.travelled, 1414);
    assert_eq!(e.current_waypoint_index, 1);
}

#[test]
fn no_time_means_no_walk() {
    let path = vec![at(1000, 0)];
    assert_eq!(walker(at(0, 0)).march(&path, 0), walker(at(0, 0)));
}

#[test]
fn the_length_walked_stops_at_the_largest_value() {
    let path = vec![at(1000, 0)];
    let tired = Enemy { travelled: u64::MAX - 10, ..walker(at(0, 0)) };
    assert_eq!(tired.march(&path, 100).travelled, u64::MAX);
    assert_eq!(tired.march(&path, 10).travelled, u64::MAX);
    assert_eq!(tired.march(&path, 9).travelled, u64::MAX - 1);
    assert_eq!(tired.march(&path, 5000).travelled, u64::MAX);
}

#[test]
fn walking_never_undoes_progress() {
    let map = GameMap::load_map();
    let mut e = walker(map.spawn);
    let mut ticks = 0;
    while e.current_waypoint_index < map.waypoints.len() && ticks < 100_000 {
        let next = e.march(&map.waypoints, 1600);
        assert!(next.current_waypoint_index >= e.current_waypoint_index);
        assert!(next.travelled >= e.travelled);
        assert_eq!(next.health, e.health);
        assert!(!next.tameable);
        e = next;
        ticks += 1;
    }
    assert_eq!(e.current_waypoint_index, map.waypoints.len());
    assert_eq!(e.position, map.sink);
    // The road of the shipped map has thirty stretches of one square each.
    assert_eq!(e.travelled, 30 * 64_000);
}

#[test]
fn the_refuge_is_the_nearest_cloud() {
    let trees = Trees { coordinates: vec![at(100, 0), at(10, 0), at(-50, 0)] };
    assert_eq!(nearest_refuge(&trees, at(0, 0)), at(10, 0));
    assert_eq!(nearest_refuge(&trees, at(-40, 0)), at(-50, 0));
    assert_eq!(nearest_refuge(&trees, at(1000, 1000)), at(100, 0));
}

#[test]
fn of_clouds_equally_near_the_first_is_the_refuge() {
    let trees = Trees { coordinates: vec![at(10, 0), at(-10, 0), at(0, 10)] };
    assert_eq!(nearest_refuge(&trees, at(0, 0)), at(10, 0));
    let trees = Trees { coordinates: vec![at(0, 10), at(-10, 0), at(10, 0)] };
    assert_eq!(nearest_refuge(&trees, at(0, 0)), at(0, 10));
}

#[test]
fn far_clouds_are_refuges_too() {
    let trees = Trees { coordinates: vec![at(2_000_000_000, 2_000_000_000)] };
    assert_eq!(nearest_refuge(&trees, at(-2_000_000_000, 0)), at(2_000_000_000, 2_000_000_000));
}

#[test]
fn without_clouds_the_refuge_is_the_origin() {
    let trees = Trees { coordinates: vec![] };
    assert_eq!(nearest_refuge(&trees, at(123, -456)), at(0, 0));
}

#[test]
fn a_tamed_creature_flees_towards_its_refuge() {
    let trees = Trees { coordinates: vec![at(0, 10_000), at(0, -400_000)] };
    let e = tamed(at(0, 0));
    assert_eq!(e.flee(&trees, 800), Some(tamed(at(0, 800))));
}

#[test]
fn a_tamed_creature_that_gets_to_its_refuge_is_gone() {
    let trees = Trees { coordinates: vec![at(0, 800)] };
    assert_eq!(tamed(at(0, 0)).flee(&trees, 800), None);
    assert_eq!(tamed(at(0, 0)).flee(&trees, 801), None);
    assert_eq!(tamed(at(0, 0)).flee(&trees, 799), Some(tamed(at(0, 799))));
}

#[test]
fn a_tamed_creature_on_its_refuge_is_gone_even_in_no_time() {
    let trees = Trees { coordinates: vec![at(7, 7)] };
    assert_eq!(tamed(at(7, 7)).flee(&trees, 0), None);
    assert_eq!(tamed(at(7, 8)).flee(&trees, 0), Some(tamed(at(7, 8))));
}

#[test]
fn enemies_walk_at_a_hundred_units_a_second() {
    assert_eq!(ENEMY_SPEED, 100);
    let map = field(vec![at(10_000, 0)]);
    let mut enemies = vec![Some(walker(at(0, 0))), None, Some(tamed(at(0, 0)))];
    update_enemies(&mut enemies, &map, 16);
    assert_eq!(
        enemies,
        vec![
            Some(Enemy { position: at(1600, 0), travelled: 1600, ..walker(at(0, 0)) }),
            None,
            Some(tamed(at(0, 0))),
        ]
    );
}

#[test]
fn the_tamed_flee_at_fifty_units_a_second() {
    assert_eq!(FLEE_SPEED, 50);
    let trees = Trees { coordinates: vec![at(0, 10_000)] };
    let mut enemies = vec![
        Some(walker(at(0, 0))),
        Some(tamed(at(0, 0))),
        None,
        Some(tamed(at(0, 9500))),
    ];
    update_tamable_enemies(&mut enemies, &trees, &empty_hand(), 16);
    assert_eq!(enemies, vec![Some(walker(at(0, 0))), Some(tamed(at(0, 800))), None, None]);
}

#[test]
fn a_held_creature_does_not_flee() {
    let trees = Trees { coordinates: vec![at(0, 100)] };
    let mut enemies = vec![Some(tamed(at(0, 0))), Some(tamed(at(0, 0)))];
    let hand = CurrentPiece {
        entity: Some(1),
        piece: Some(Piece { color: EnemyColor::Blue, form: EnemyForm::Triangle }),
    };
    update_tamable_enemies(&mut enemies, &trees, &hand, 16);
    assert_eq!(enemies, vec![None, Some(tamed(at(0, 0)))]);
}

#[test]
fn an_enemy_is_due_once_a_second() {
    assert_eq!(SPAWN_INTERVAL_MS, 1000);
    let mut wave = WaveState { last_spawn: 5000 };
    assert!(!wave.tick(Some(5999)));
    assert_eq!(wave, WaveState { last_spawn: 5000 });
    assert!(wave.tick(Some(6000)));
    assert_eq!(wave, WaveState { last_spawn: 6000 });
    assert!(!wave.tick(Some(6016)));
    assert!(wave.tick(Some(9000)));
    assert_eq!(wave, WaveState { last_spawn: 9000 });
}

#[test]
fn a_clock_that_has_not_ticked_yet_makes_an_enemy_due() {
    let mut wave = WaveState { last_spawn: 5000 };
    assert!(wave.tick(None));
    assert_eq!(wave, WaveState { last_spawn: 5000 });
}

#[test]
fn a_clock_behind_the_last_spawn_makes_no_enemy_due() {
    let mut wave = WaveState { last_spawn: 5000 };
    assert!(!wave.tick(Some(0)));
    assert!(!wave.tick(Some(4999)));
    assert_eq!(wave, WaveState { last_spawn: 5000 });
}

#[test]
fn wave_health_is_the_baseline_and_its_hundredths() {
    assert_eq!(spawn_health(1, 0), 1);
    assert_eq!(spawn_health(1, 49), 1);
    assert_eq!(spawn_health(99, 49), 99);
    assert_eq!(spawn_health(100, 0), 100);
    assert_eq!(spawn_health(100, 1), 101);
    assert_eq!(spawn_health(100, 49), 149);
    assert_eq!(spawn_health(250, 49), 348);
    assert_eq!(spawn_health(1000, 30), 1300);
    assert_eq!(
        spawn_health(u32::MAX, u32::MAX),
        4_294_967_295 + 42_949_672 * 4_294_967_295
    );
}

#[test]
fn an_enemy_is_sent_out_on_the_draws_given() {
    let map = field(vec![at(0, 0)]);
    let mut enemies = vec![None];
    let mut state = GameState { health: 20, score: 7, enemy_health: 199 };
    let id = spawn_enemy(&mut enemies, &map, &mut state, 1, 4, 10);
    assert_eq!(id, 1);
    assert_eq!(state, GameState { health: 20, score: 7, enemy_health: 200 });
    assert_eq!(
        enemies,
        vec![None, Some(Enemy::new(EnemyForm::Triangle, EnemyColor::Lilac, 220, at(-5000, 0)))]
    );
}

#[test]
fn the_wave_baseline_stops_at_the_largest_value() {
    let map = field(vec![]);
    let mut enemies = vec![];
    let mut state = GameState { health: 1, score: 0, enemy_health: u32::MAX };
    spawn_enemy(&mut enemies, &map, &mut state, 0, 0, 0);
    assert_eq!(state.enemy_health, u32::MAX);
    assert_eq!(enemies[0].unwrap().max_health, 4_294_967_295);
}

#[test]
fn create_enemy_takes_a_new_slot() {
    let map = field(vec![]);
    let mut enemies = vec![Some(walker(at(1, 1))), None];
    let id = create_enemy(&mut enemies, EnemyColor::Green, &map, 33, EnemyForm::Quadratic);
    assert_eq!(id, 2);
    assert_eq!(enemies.len(), 3);
    assert_eq!(enemies[0], Some(walker(at(1, 1))));
    assert_eq!(enemies[1], None);
    assert_eq!(
        enemies[2],
        Some(Enemy::new(EnemyForm::Quadratic, EnemyColor::Green, 33, at(-5000, 0)))
    );
}

#[test]
fn the_first_enemy_has_a_health_of_two() {
    let map = field(vec![]);
    let mut enemies = vec![];
    let mut state = GameState::default();
    let mut wave = WaveState { last_spawn: 0 };
    assert_eq!(spawn_enemies(&mut enemies, &map, Some(1000), &mut state, &mut wave), Some(0));
    assert_eq!(state, GameState { health: 20, score: 0, enemy_health: 2 });
    assert_eq!(wave, WaveState { last_spawn: 1000 });
    let e = enemies[0].unwrap();
    assert_eq!(e.max_health, 2);
    assert_eq!(e.health, 2);
    assert_eq!(e.position, at(-5000, 0));
    assert_eq!(e.current_waypoint_index, 0);
    assert_eq!(e.travelled, 0);
    assert!(!e.tameable);
}

#[test]
fn no_enemy_is_sent_out_before_it_is_due() {
    let map = field(vec![]);
    let mut enemies = vec![];
    let mut state = GameState::default();
    let mut wave = WaveState { last_spawn: 0 };
    assert_eq!(spawn_enemies(&mut enemies, &map, Some(999), &mut state, &mut wave), None);
    assert_eq!(enemies, vec![]);
    assert_eq!(state, GameState::default());
    assert_eq!(wave, WaveState { last_spawn: 0 });
}

#[test]
fn a_fallen_castle_holds_the_wave_back() {
    let map = field(vec![]);
    let mut enemies = vec![Some(walker(at(0, 0)))];
    let mut state = GameState { health: 0, score: 5, enemy_health: 40 };
    let mut wave = WaveState { last_spawn: 0 };
    let mut now = 1000;
    while now < 20_000 {
        assert_eq!(spawn_enemies(&mut enemies, &map, Some(now), &mut state, &mut wave), None);
        assert_eq!(enemies, vec![Some(walker(at(0, 0)))]);
        assert_eq!(state, GameState { health: 0, score: 5, enemy_health: 40 });
        now += 500;
    }
    // The interval ran on all the while.
    assert_eq!(wave, WaveState { last_spawn: 19_000 });
    state.health = 1;
    assert_eq!(spawn_enemies(&mut enemies, &map, Some(20_000), &mut state, &mut wave), Some(1));
    assert_eq!(state.enemy_health, 41);
}

#[test]
fn the_bonus_on_a_newborn_is_drawn_below_its_limit() {
    assert_eq!(BONUS_LIMIT, 50);
    let map = field(vec![]);
    let mut round = 0;
    while round < 500 {
        let mut enemies = vec![];
        let mut state = GameState { health: 20, score: 0, enemy_health: 999 };
        let mut wave = WaveState { last_spawn: 0 };
        spawn_enemies(&mut enemies, &map, None, &mut state, &mut wave);
        let e = enemies[0].unwrap();
        assert!(e.max_health >= 1000);
        assert!(e.max_health < 1000 + 10 * 50);
        assert_eq!((e.max_health - 1000) % 10, 0);
        assert_eq!(e.health, e.max_health);
        round += 1;
    }
}

#[test]
fn newborns_come_in_every_form_and_color() {
    let map = field(vec![]);
    let mut enemies = vec![];
    let mut state = GameState::default();
    let mut wave = WaveState { last_spawn: 0 };
    let mut round = 0;
    while round < 2000 {
        spawn_enemies(&mut enemies, &map, None, &mut state, &mut wave);
        round += 1;
    }
    assert_eq!(enemies.len(), 2000);
    for form in [EnemyForm::Circle, EnemyForm::Triangle, EnemyForm::Quadratic] {
        assert!(enemies.iter().any(|e| e.unwrap().form == form));
    }
    for color in [
        EnemyColor::Red,
        EnemyColor::Lilac,
        EnemyColor::Green,
        EnemyColor::Blue,
        EnemyColor::Pink,
    ] {
        assert!(enemies.iter().any(|e| e.unwrap().color == color));
    }
}

#[test]
fn an_enemy_shot_down_turns_tameable_and_scores_its_full_health() {
    let map = field(vec![at(100, 0)]);
    let hurt = Enemy { health: -1, ..walker(at(0, 0)) };
    let mut enemies = vec![Some(hurt)];
    let mut bullets = vec![];
    let mut state = GameState { health: 3, score: 10, enemy_health: 9 };
    assert_eq!(remove_enemies(&mut enemies, &mut bullets, &map, &mut state), 0);
    assert_eq!(enemies, vec![Some(Enemy { tameable: true, ..hurt })]);
    assert_eq!(state, GameState { health: 3, score: 110, enemy_health: 9 });
}

#[test]
fn an_enemy_at_zero_health_is_not_shot_down() {
    let map = field(vec![at(100, 0)]);
    let hurt = Enemy { health: 0, ..walker(at(0, 0)) };
    let mut enemies = vec![Some(hurt)];
    let mut bullets = vec![];
    let mut state = GameState::default();
    remove_enemies(&mut enemies, &mut bullets, &map, &mut state);
    assert_eq!(enemies, vec![Some(hurt)]);
    assert_eq!(state, GameState::default());
}

#[test]
fn an_enemy_that_got_through_costs_health_and_is_removed() {
    let map = field(vec![at(100, 0)]);
    let arrived = Enemy { current_waypoint_index: 1, ..walker(at(100, 0)) };
    let mut enemies = vec![Some(arrived)];
    let mut bullets = vec![];
    let mut state = GameState { health: 5, score: 10, enemy_health: 9 };
    assert_eq!(remove_enemies(&mut enemies, &mut bullets, &map, &mut state), 1);
    assert_eq!(enemies, vec![None]);
    assert_eq!(state, GameState { health: 4, score: 10, enemy_health: 9 });
}

#[test]
fn being_shot_down_comes_before_getting_through() {
    let map = field(vec![at(100, 0)]);
    let both = Enemy { health: -5, current_waypoint_index: 1, ..walker(at(100, 0)) };
    let mut enemies = vec![Some(both)];
    let mut bullets = vec![];
    let mut state = GameState { health: 5, score: 0, enemy_health: 9 };
    assert_eq!(remove_enemies(&mut enemies, &mut bullets, &map, &mut state), 0);
    assert_eq!(enemies, vec![Some(Enemy { tameable: true, ..both })]);
    assert_eq!(state, GameState { health: 5, score: 100, enemy_health: 9 });
}

#[test]
fn a_fallen_castle_neither_scores_nor_loses_health() {
    let map = field(vec![at(100, 0)]);
    let hurt = Enemy { health: -1, ..walker(at(0, 0)) };
    let arrived = Enemy { current_waypoint_index: 1, ..walker(at(100, 0)) };
    let mut enemies = vec![Some(hurt), Some(arrived)];
    let mut bullets = vec![];
    let mut state = GameState { health: 0, score: 10, enemy_health: 9 };
    assert_eq!(remove_enemies(&mut enemies, &mut bullets, &map, &mut state), 1);
    assert_eq!(enemies, vec![Some(Enemy { tameable: true, ..hurt }), None]);
    assert_eq!(state, GameState { health: 0, score: 10, enemy_health: 9 });
}

#[test]
fn a_breach_of_a_fallen_castle_is_still_a_breach() {
    let map = field(vec![at(100, 0)]);
    let arrived = Enemy { health: 0, current_waypoint_index: 1, ..walker(at(100, 0)) };
    let mut enemies = vec![Some(arrived)];
    let mut state = GameState { health: 0, score: 77, enemy_health: 9 };
    assert_eq!(remove_enemies(&mut enemies, &mut vec![], &map, &mut state), 1);
    assert_eq!(enemies, vec![None]);
    assert_eq!(state, GameState { health: 0, score: 77, enemy_health: 9 });
}

#[test]
fn the_roster_is_judged_in_order() {
    // The breach in the first slot takes the castle's last health, so the
    // defeat in the second slot scores nothing.
    let map = field(vec![at(100, 0)]);
    let hurt = Enemy { health: -1, ..walker(at(0, 0)) };
    let arrived = Enemy { current_waypoint_index: 1, ..walker(at(100, 0)) };
    let mut enemies = vec![Some(arrived), Some(hurt)];
    let mut state = GameState { health: 1, score: 10, enemy_health: 9 };
    assert_eq!(remove_enemies(&mut enemies, &mut vec![], &map, &mut state), 1);
    assert_eq!(state, GameState { health: 0, score: 10, enemy_health: 9 });
    // The other way round the defeat scores first.
    let mut enemies = vec![Some(hurt), Some(arrived)];
    let mut state = GameState { health: 1, score: 10, enemy_health: 9 };
    assert_eq!(remove_enemies(&mut enemies, &mut vec![], &map, &mut state), 1);
    assert_eq!(state, GameState { health: 0, score: 110, enemy_health: 9 });
}

#[test]
fn every_breach_is_counted_and_health_stops_at_zero() {
    let map = field(vec![]);
    let arrived = walker(at(0, 0));
    let mut enemies = vec![Some(arrived), Some(arrived), None, Some(arrived)];
    let mut state = GameState { health: 2, score: 0, enemy_health: 9 };
    assert_eq!(remove_enemies(&mut enemies, &mut vec![], &map, &mut state), 3);
    assert_eq!(enemies, vec![None, None, None, None]);
    assert_eq!(state, GameState { health: 0, score: 0, enemy_health: 9 });
}

#[test]
fn only_those_who_got_through_are_counted() {
    let map = field(vec![at(100, 0)]);
    let hurt = Enemy { health: -1, current_waypoint_index: 1, ..walker(at(0, 0)) };
    let arrived = Enemy { current_waypoint_index: 1, ..walker(at(100, 0)) };
    let roaming = Enemy { current_waypoint_index: 1, ..tamed(at(0, 0)) };
    let mut enemies = vec![Some(hurt), Some(walker(at(0, 0))), Some(arrived), Some(roaming), None];
    let mut state = GameState { health: 5, score: 0, enemy_health: 9 };
    assert_eq!(remove_enemies(&mut enemies, &mut vec![], &map, &mut state), 1);
    assert_eq!(state, GameState { health: 4, score: 100, enemy_health: 9 });
}

#[test]
fn the_tamed_and_the_walking_are_left_alone() {
    let map = field(vec![at(100, 0)]);
    let roaming = Enemy { health: -30, current_waypoint_index: 1, ..tamed(at(0, 0)) };
    let mut enemies = vec![Some(roaming), Some(walker(at(0, 0))), None];
    let mut state = GameState::default();
    assert_eq!(remove_enemies(&mut enemies, &mut vec![], &map, &mut state), 0);
    assert_eq!(enemies, vec![Some(roaming), Some(walker(at(0, 0))), None]);
    assert_eq!(state, GameState::default());
}

#[test]
fn the_projectiles_of_those_who_leave_play_are_destroyed() {
    let map = field(vec![at(100, 0)]);
    let hurt = Enemy { health: -1, ..walker(at(0, 0)) };
    let arrived = Enemy { current_waypoint_index: 1, ..walker(at(100, 0)) };
    let mut enemies = vec![Some(hurt), Some(walker(at(0, 0))), Some(arrived), None];
    let shot = |target| Some(Bullet { damage: 1, speed: 1, target, position: at(9, 9) });
    let mut bullets = vec![shot(0), shot(1), None, shot(2), shot(3), shot(0), shot(99)];
    let mut state = GameState::default();
    remove_enemies(&mut enemies, &mut bullets, &map, &mut state);
    assert_eq!(bullets, vec![None, shot(1), None, None, shot(3), None, shot(99)]);
}

#[test]
fn the_score_stops_at_the_largest_value() {
    let map = field(vec![at(100, 0)]);
    let hurt = Enemy { health: -1, ..walker(at(0, 0)) };
    let mut enemies = vec![Some(hurt)];
    let mut state = GameState { health: 1, score: u64::MAX - 50, enemy_health: 1 };
    remove_enemies(&mut enemies, &mut vec![], &map, &mut state);
    assert_eq!(state.score, u64::MAX);
}

#[test]
fn an_unhurt_enemy_is_grey() {
    assert_eq!(GRAY_LEVEL, 128);
    let e = walker(at(0, 0));
    assert_eq!(e.get_color(100), Rgb { r: 128, g: 128, b: 128 });
    assert_eq!(e.get_color(101), Rgb { r: 128, g: 128, b: 128 });
    assert_eq!(e.get_color(i64::MAX), Rgb { r: 128, g: 128, b: 128 });
}

#[test]
fn an_enemy_without_health_shows_its_color() {
    let e = walker(at(0, 0));
    assert_eq!(e.get_color(0), Rgb { r: 88, g: 84, b: 129 });
    assert_eq!(e.get_color(-20), Rgb { r: 88, g: 84, b: 129 });
    assert_eq!(e.get_color(i64::MIN), Rgb { r: 88, g: 84, b: 129 });
}

#[test]
fn a_hurt_enemy_is_painted_a_mix() {
    let e = walker(at(0, 0));
    // Half grey, half blue: (128 + 88) / 2, (128 + 84) / 2, (128 + 129) / 2.
    assert_eq!(e.get_color(50), Rgb { r: 108, g: 106, b: 128 });
    // A quarter grey: (128 * 25 + 88 * 75) / 100 and so on, rounded down.
    assert_eq!(e.get_color(25), Rgb { r: 98, g: 95, b: 128 });
    assert_eq!(e.get_color(1), Rgb { r: 88, g: 84, b: 128 });
    assert_eq!(e.get_color(99), Rgb { r: 127, g: 127, b: 128 });
}

#[test]
fn an_enemy_born_without_health_is_never_divided_by() {
    let e = Enemy { max_health: 0, health: 0, ..walker(at(0, 0)) };
    assert_eq!(e.get_color(0), Rgb { r: 88, g: 84, b: 129 });
    assert_eq!(e.get_color(5), Rgb { r: 128, g: 128, b: 128 });
    let e = Enemy { max_health: -7, health: -7, ..walker(at(0, 0)) };
    assert_eq!(e.get_color(-7), Rgb { r: 88, g: 84, b: 129 });
    assert_eq!(e.get_color(3), Rgb { r: 128, g: 128, b: 128 });
}
