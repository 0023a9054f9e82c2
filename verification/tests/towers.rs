use oicana::bullets::Bullet;
use oicana::enemies::{Enemy, EnemyColor, EnemyForm};
use oicana::map::{Coordinate, GameMap};
use oicana::puzzle::CompletePuzzle;
use oicana::towers::{
    build_and_upgrade_towers, build_or_upgrade, shoot, spawn_map_tower, Cooldown, Tower,
    BASE_DAMAGE, BASE_INTERVAL_MS, BASE_RANGE, BASE_SPEED, DAMAGE_GAIN, RANGE_GAIN,
    SECOND_LEVEL_INTERVAL_MS, SPEED_GAIN,
};

fn at(x: i32, y: i32) -> Coordinate {
    Coordinate { x, y }
}

fn enemy(travelled: u64, position: Coordinate) -> Enemy {
    Enemy {
        travelled,
        position,
        ..Enemy::new(EnemyForm::Circle, EnemyColor::Red, 100, at(0, 0))
    }
}

fn done(coordinate: Coordinate) -> CompletePuzzle {
    CompletePuzzle { coordinate, puzzle_id: 0 }
}

#[test]
fn a_new_tower_has_its_starting_numbers() {
    assert_eq!(BASE_RANGE, 100_000);
    assert_eq!(BASE_DAMAGE, 15);
    assert_eq!(BASE_SPEED, 200);
    assert_eq!(BASE_INTERVAL_MS, 300);
    assert_eq!(
        Tower::new(at(5, 6)),
        Tower {
            level: 1,
            range: 100_000,
            damage: 15,
            speed: 200,
            coordinate: at(5, 6),
            timer: Cooldown { interval_ms: 300, elapsed_ms: 0 },
        }
    );
}

#[test]
fn a_timer_goes_off_when_its_interval_has_passed() {
    let mut timer = Cooldown::from_millis(300);
    assert_eq!(timer, Cooldown { interval_ms: 300, elapsed_ms: 0 });
    assert!(!timer.tick(100));
    assert!(!timer.tick(199));
    assert_eq!(timer.elapsed_ms, 299);
    assert!(timer.tick(1));
    assert_eq!(timer.elapsed_ms, 0);
}

#[test]
fn a_timer_keeps_what_is_left_of_the_tick_in_which_it_went_off() {
    let mut timer = Cooldown { interval_ms: 300, elapsed_ms: 250 };
    assert!(timer.tick(100));
    assert_eq!(timer.elapsed_ms, 50);
    assert!(timer.tick(700));
    assert_eq!(timer.elapsed_ms, 150);
    assert!(!timer.tick(0));
    assert_eq!(timer.elapsed_ms, 150);
}

#[test]
fn a_timer_survives_the_longest_tick() {
    let mut timer = Cooldown { interval_ms: u32::MAX, elapsed_ms: u32::MAX - 1 };
    assert!(timer.tick(u32::MAX));
    assert_eq!(timer.elapsed_ms, u32::MAX - 1);
    let mut timer = Cooldown { interval_ms: 7, elapsed_ms: u32::MAX };
    assert!(timer.tick(u32::MAX));
    assert_eq!(timer.elapsed_ms as u64, (2 * (u32::MAX as u64)) % 7);
}

#[test]
fn a_timer_without_interval_goes_off_on_every_tick() {
    let mut timer = Cooldown { interval_ms: 0, elapsed_ms: 5 };
    assert!(timer.tick(0));
    assert_eq!(timer.elapsed_ms, 0);
    assert!(timer.tick(16));
    assert_eq!(timer.elapsed_ms, 0);
}

#[test]
fn an_upgrade_raises_every_number() {
    assert_eq!(RANGE_GAIN, 5_000);
    assert_eq!(DAMAGE_GAIN, 5);
    assert_eq!(SPEED_GAIN, 20);
    assert_eq!(SECOND_LEVEL_INTERVAL_MS, 200);
    let mut tower = Tower::new(at(1, 1));
    tower.timer.elapsed_ms = 123;
    tower.upgrade();
    assert_eq!(
        tower,
        Tower {
            level: 2,
            range: 105_000,
            damage: 20,
            speed: 220,
            coordinate: at(1, 1),
            timer: Cooldown { interval_ms: 200, elapsed_ms: 0 },
        }
    );
    tower.upgrade();
    assert_eq!(
        tower,
        Tower {
            level: 3,
            range: 110_000,
            damage: 25,
            speed: 240,
            coordinate: at(1, 1),
            timer: Cooldown { interval_ms: 200, elapsed_ms: 0 },
        }
    );
    tower.upgrade();
    assert_eq!(tower.level, 4);
    assert_eq!(tower.timer, Cooldown { interval_ms: 200, elapsed_ms: 0 });
}

#[test]
fn only_the_upgrade_to_the_second_level_touches_the_timer() {
    let mut tower = Tower {
        level: 2,
        range: 105_000,
        damage: 20,
        speed: 220,
        coordinate: at(192_000, 128_000),
        timer: Cooldown { interval_ms: 200, elapsed_ms: 150 },
    };
    tower.upgrade();
    assert_eq!(
        tower,
        Tower {
            level: 3,
            range: 110_000,
            damage: 25,
            speed: 240,
            coordinate: at(192_000, 128_000),
            timer: Cooldown { interval_ms: 200, elapsed_ms: 150 },
        }
    );
    // A timer of any other interval is left alone as well.
    let mut odd = Tower { level: 7, timer: Cooldown { interval_ms: 55, elapsed_ms: 5 }, ..tower };
    odd.upgrade();
    assert_eq!(odd.level, 8);
    assert_eq!(odd.timer, Cooldown { interval_ms: 55, elapsed_ms: 5 });
    // The upgrade to the second level starts the faster timer anew.
    let mut young = Tower { timer: Cooldown { interval_ms: 300, elapsed_ms: 299 }, ..Tower::new(at(0, 0)) };
    young.upgrade();
    assert_eq!(young.timer, Cooldown { interval_ms: 200, elapsed_ms: 0 });
}

#[test]
fn the_numbers_of_a_tower_stop_at_their_largest_values() {
    let mut tower = Tower {
        level: usize::MAX,
        range: u32::MAX - 1,
        damage: u32::MAX - 5,
        speed: u32::MAX,
        coordinate: at(0, 0),
        timer: Cooldown::from_millis(100),
    };
    tower.upgrade();
    assert_eq!(tower.level, usize::MAX);
    assert_eq!(tower.range, u32::MAX);
    assert_eq!(tower.damage, u32::MAX);
    assert_eq!(tower.speed, u32::MAX);
    assert_eq!(tower.timer.interval_ms, 100);
}

#[test]
fn a_tower_sees_what_is_nearer_than_its_reach() {
    let tower = Tower::new(at(0, 0));
    assert!(tower.in_range(&enemy(0, at(99_999, 0))));
    assert!(!tower.in_range(&enemy(0, at(100_000, 0))));
    assert!(tower.in_range(&enemy(0, at(60_000, 79_999))));
    assert!(!tower.in_range(&enemy(0, at(60_000, 80_000))));
    assert!(tower.in_range(&enemy(0, at(0, 0))));
    assert!(!tower.in_range(&Enemy { tameable: true, ..enemy(0, at(1, 1)) }));
}

#[test]
fn a_tower_without_reach_sees_nothing() {
    let tower = Tower { range: 0, ..Tower::new(at(0, 0)) };
    assert!(!tower.in_range(&enemy(0, at(0, 0))));
}

#[test]
fn a_tower_picks_the_enemy_that_has_walked_furthest() {
    let tower = Tower::new(at(0, 0));
    let roster = vec![Some(enemy(10, at(10, 0))), Some(enemy(20, at(20, 0)))];
    assert_eq!(tower.select_target(&roster), Some(1));
    let roster = vec![Some(enemy(20, at(20, 0))), Some(enemy(10, at(10, 0)))];
    assert_eq!(tower.select_target(&roster), Some(0));
}

#[test]
fn a_tower_picks_from_those_in_reach_only() {
    let tower = Tower::new(at(0, 0));
    let roster = vec![
        Some(enemy(500, at(200_000, 0))),
        None,
        Some(enemy(10, at(10, 0))),
        Some(Enemy { tameable: true, ..enemy(900, at(5, 5)) }),
        Some(enemy(20, at(20, 0))),
        Some(enemy(15, at(0, 7))),
    ];
    assert_eq!(tower.select_target(&roster), Some(4));
}

#[test]
fn of_enemies_that_have_walked_equally_far_the_lowest_slot_is_picked() {
    let tower = Tower::new(at(0, 0));
    let roster = vec![
        Some(enemy(5, at(1, 0))),
        Some(enemy(20, at(2, 0))),
        Some(enemy(20, at(3, 0))),
        Some(enemy(20, at(4, 0))),
    ];
    assert_eq!(tower.select_target(&roster), Some(1));
}

#[test]
fn a_tower_with_nothing_in_reach_picks_nothing() {
    let tower = Tower::new(at(0, 0));
    assert_eq!(tower.select_target(&vec![]), None);
    assert_eq!(tower.select_target(&vec![None, None]), None);
    let roster = vec![
        Some(enemy(500, at(200_000, 0))),
        Some(Enemy { tameable: true, ..enemy(900, at(5, 5)) }),
    ];
    assert_eq!(tower.select_target(&roster), None);
}

#[test]
fn an_enemy_that_has_not_walked_yet_can_be_picked() {
    let tower = Tower::new(at(0, 0));
    assert_eq!(tower.select_target(&vec![None, Some(enemy(0, at(1, 1)))]), Some(1));
}

#[test]
fn a_tower_fires_when_its_timer_goes_off() {
    let mut towers = vec![Tower::new(at(1000, 2000))];
    let enemies = vec![Some(enemy(10, at(0, 0))), Some(enemy(20, at(3000, 0)))];
    let mut bullets = vec![];
    assert_eq!(shoot(&mut towers, &enemies, &mut bullets, 299), 0);
    assert_eq!(bullets, vec![]);
    assert_eq!(towers[0].timer, Cooldown { interval_ms: 300, elapsed_ms: 299 });
    assert_eq!(shoot(&mut towers, &enemies, &mut bullets, 16), 1);
    assert_eq!(
        bullets,
        vec![Some(Bullet { damage: 15, speed: 200, target: 1, position: at(1000, 2000) })]
    );
    assert_eq!(towers[0].timer, Cooldown { interval_ms: 300, elapsed_ms: 15 });
    assert_eq!(towers[0], Tower { timer: towers[0].timer, ..Tower::new(at(1000, 2000)) });
}

#[test]
fn a_tower_with_nothing_to_shoot_at_forfeits_its_shot() {
    let mut towers = vec![Tower::new(at(0, 0))];
    let enemies = vec![Some(enemy(10, at(500_000, 0)))];
    let mut bullets = vec![];
    assert_eq!(shoot(&mut towers, &enemies, &mut bullets, 300), 0);
    assert_eq!(bullets, vec![]);
    assert_eq!(towers[0].timer, Cooldown { interval_ms: 300, elapsed_ms: 0 });
    // The enemy comes into reach, but the timer has started over.
    let enemies = vec![Some(enemy(10, at(500, 0)))];
    assert_eq!(shoot(&mut towers, &enemies, &mut bullets, 16), 0);
    assert_eq!(bullets, vec![]);
}

#[test]
fn every_tower_has_its_own_timer_and_its_own_pick() {
    let strong = Tower {
        level: 2,
        range: 105_000,
        damage: 20,
        speed: 220,
        coordinate: at(400_000, 0),
        timer: Cooldown { interval_ms: 200, elapsed_ms: 190 },
    };
    let mut towers = vec![
        Tower { timer: Cooldown { interval_ms: 300, elapsed_ms: 290 }, ..Tower::new(at(0, 0)) },
        Tower::new(at(0, 50_000)),
        strong,
    ];
    let enemies = vec![Some(enemy(10, at(10_000, 0))), Some(enemy(5, at(390_000, 0)))];
    let mut bullets = vec![None, Some(Bullet { damage: 1, speed: 1, target: 0, position: at(0, 0) })];
    assert_eq!(shoot(&mut towers, &enemies, &mut bullets, 16), 2);
    assert_eq!(
        bullets,
        vec![
            Some(Bullet { damage: 15, speed: 200, target: 0, position: at(0, 0) }),
            Some(Bullet { damage: 1, speed: 1, target: 0, position: at(0, 0) }),
            Some(Bullet { damage: 20, speed: 220, target: 1, position: at(400_000, 0) }),
        ]
    );
    assert_eq!(towers[0].timer.elapsed_ms, 6);
    assert_eq!(towers[1].timer.elapsed_ms, 16);
    assert_eq!(towers[2].timer.elapsed_ms, 6);
}

#[test]
fn the_first_completed_puzzle_on_a_plot_builds_the_tower() {
    let mut towers = vec![];
    build_or_upgrade(&mut towers, at(64_000, 128_000));
    assert_eq!(towers, vec![Tower::new(at(64_000, 128_000))]);
    assert_eq!(towers[0].level, 1);
    assert_eq!(towers[0].damage, 15);
}

#[test]
fn a_later_completed_puzzle_improves_the_tower() {
    let mut towers = vec![Tower::new(at(0, 0)), Tower::new(at(64_000, 0))];
    build_or_upgrade(&mut towers, at(64_000, 0));
    assert_eq!(towers.len(), 2);
    assert_eq!(towers[0], Tower::new(at(0, 0)));
    assert_eq!(towers[1].level, 2);
    assert_eq!(towers[1].damage, 20);
    assert_eq!(towers[1].coordinate, at(64_000, 0));
}

#[test]
fn completions_are_acted_on_in_order() {
    let mut towers = vec![Tower::new(at(0, 0))];
    let completed = vec![done(at(5, 5)), done(at(0, 0)), done(at(5, 5)), done(at(5, 5))];
    build_and_upgrade_towers(&mut towers, &completed);
    assert_eq!(towers.len(), 2);
    assert_eq!(towers[0].level, 2);
    assert_eq!(towers[0].timer.interval_ms, 200);
    assert_eq!(towers[1].coordinate, at(5, 5));
    assert_eq!(towers[1].level, 3);
    assert_eq!(towers[1].damage, 25);
    assert_eq!(towers[1].range, 110_000);
    assert_eq!(towers[1].speed, 240);
    assert_eq!(towers[1].timer.interval_ms, 200);
}

#[test]
fn a_completed_puzzle_takes_a_tower_of_the_second_level_to_the_third() {
    let mut towers = vec![Tower {
        level: 2,
        range: 105_000,
        damage: 20,
        speed: 220,
        coordinate: at(192_000, 128_000),
        timer: Cooldown { interval_ms: 200, elapsed_ms: 0 },
    }];
    build_and_upgrade_towers(&mut towers, &vec![done(at(192_000, 128_000))]);
    assert_eq!(
        towers,
        vec![Tower {
            level: 3,
            range: 110_000,
            damage: 25,
            speed: 240,
            coordinate: at(192_000, 128_000),
            timer: Cooldown { interval_ms: 200, elapsed_ms: 0 },
        }]
    );
}

#[test]
fn no_completions_leave_the_towers_alone() {
    let mut towers = vec![Tower::new(at(0, 0))];
    build_and_upgrade_towers(&mut towers, &vec![]);
    assert_eq!(towers, vec![Tower::new(at(0, 0))]);
}

#[test]
fn no_two_towers_come_to_stand_in_one_place() {
    let mut towers = vec![];
    let places = [at(0, 0), at(1, 0), at(0, 0), at(2, 2), at(1, 0), at(0, 0)];
    for place in places {
        build_or_upgrade(&mut towers, place);
    }
    assert_eq!(towers.len(), 3);
    assert_eq!(towers[0].coordinate, at(0, 0));
    assert_eq!(towers[0].level, 3);
    assert_eq!(towers[1].coordinate, at(1, 0));
    assert_eq!(towers[1].level, 2);
    assert_eq!(towers[2].coordinate, at(2, 2));
    assert_eq!(towers[2].level, 1);
}

#[test]
fn the_shipped_map_comes_with_one_tower() {
    let map = GameMap::load_map();
    assert_eq!(spawn_map_tower(&map), vec![Tower::new(at(6 * 64_000, 7 * 64_000))]);
}
