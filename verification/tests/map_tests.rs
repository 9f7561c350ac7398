use pfinder::rng::Dice;
use pfinder::map::{GameMap, EXIT, GRID_H, GRID_W, OPEN, WALL};
use std::collections::VecDeque;

fn reachable_from(m: &GameMap, start: (usize, usize)) -> Vec<Vec<bool>> {
    let mut seen = vec![vec![false; m.width]; m.height];
    let mut q = VecDeque::new();
    seen[start.1][start.0] = true;
    q.push_back(start);
    while let Some((x, y)) = q.pop_front() {
        let dirs: [(i32, i32); 4] = [(1, 0), (-1, 0), (0, 1), (0, -1)];
        for (dx, dy) in dirs {
            let nx = x as i32 + dx;
            let ny = y as i32 + dy;
            if !m.is_wall(nx, ny) {
                let (nx, ny) = (nx as usize, ny as usize);
                if !seen[ny][nx] {
                    seen[ny][nx] = true;
                    q.push_back((nx, ny));
                }
            }
        }
    }
    seen
}

#[test]
fn generated_maze_has_the_stated_shape() {
    let mut rng = Dice::new(rand::thread_rng());
    for _ in 0..20 {
        let m = GameMap::generate(&mut rng);
        assert_eq!((m.width, m.height), (GRID_W, GRID_H));
        assert_eq!(m.grid.len(), 25);
        assert!(m.grid.iter().all(|r| r.len() == 25));
        assert_eq!(m.spawn, (1, 1));
        assert_eq!(m.exit, (23, 23));
        assert_eq!(m.grid[23][23], EXIT);
        for y in 0..25 {
            for x in 0..25 {
                let v = m.grid[y][x];
                assert!(v == OPEN || v == WALL || v == EXIT);
                if x == 0 || y == 0 || x == 24 || y == 24 || (x % 2 == 0 && y % 2 == 0) {
                    assert_eq!(v, WALL, "cell ({x},{y}) must be solid");
                }
                if x % 2 == 1 && y % 2 == 1 {
                    assert_ne!(v, WALL, "room ({x},{y}) must be open");
                }
            }
        }
    }
}

#[test]
fn generated_maze_is_fully_connected() {
    let mut rng = Dice::new(rand::thread_rng());
    for _ in 0..20 {
        let m = GameMap::generate(&mut rng);
        let seen = reachable_from(&m, m.spawn);
        for y in 0..25 {
            for x in 0..25 {
                if m.grid[y][x] != WALL {
                    assert!(seen[y][x], "open cell ({x},{y}) not reachable");
                }
            }
        }
        assert!(seen[23][23]);
    }
}

#[test]
fn generated_maze_is_a_perfect_maze() {
    // 144 rooms joined by exactly 143 passages: one way between any two rooms
    let mut rng = Dice::new(rand::thread_rng());
    for _ in 0..20 {
        let m = GameMap::generate(&mut rng);
        let open = m.grid.iter().flatten().filter(|&&v| v != WALL).count();
        assert_eq!(open, 144 + 143);
    }
}

#[test]
fn enemy_spawns_are_open_rooms_away_from_the_start() {
    let mut rng = Dice::new(rand::thread_rng());
    for _ in 0..50 {
        let m = GameMap::generate(&mut rng);
        assert!(m.enemy_spawns.len() >= 3);
        for &(x, y) in &m.enemy_spawns {
            assert!(x % 2 == 1 && y % 2 == 1);
            assert_eq!(m.grid[y][x], OPEN);
            assert!(x / 2 + y / 2 >= 4);
        }
    }
}

#[test]
fn enemy_spawn_count_varies_between_runs() {
    let mut rng = Dice::new(rand::thread_rng());
    let counts: Vec<usize> = (0..30).map(|_| GameMap::generate(&mut rng).enemy_spawns.len()).collect();
    assert!(counts.iter().any(|&c| c != counts[0]));
    // about 22% of the 134 far rooms: far more than the fallback of three
    let mean = counts.iter().sum::<usize>() as f64 / counts.len() as f64;
    assert!(mean > 15.0 && mean < 45.0, "mean {mean}");
}

#[test]
fn mazes_differ_between_runs() {
    let mut rng = Dice::new(rand::thread_rng());
    let a = GameMap::generate(&mut rng);
    let b = GameMap::generate(&mut rng);
    let c = GameMap::generate(&mut rng);
    assert!(a.grid != b.grid || b.grid != c.grid);
}

fn small_map() -> GameMap {
    GameMap {
        grid: vec![vec![1, 1, 1], vec![1, 0, 3], vec![1, 1, 1]],
        width: 3,
        height: 3,
        spawn: (1, 1),
        exit: (2, 1),
        enemy_spawns: vec![],
    }
}

#[test]
fn queries_outside_the_grid_read_as_wall() {
    let m = small_map();
    for &(x, y) in &[(-1, 0), (0, -1), (3, 0), (0, 3), (i32::MIN, i32::MAX), (100, 1)] {
        assert!(m.is_wall(x, y));
        assert!(!m.is_exit(x, y));
        assert_eq!(m.cell(x, y), WALL);
    }
}

#[test]
fn queries_inside_the_grid_read_the_cell() {
    let m = small_map();
    assert!(!m.is_wall(1, 1));
    assert!(m.is_wall(0, 1));
    assert!(!m.is_wall(2, 1));
    assert!(m.is_exit(2, 1));
    assert!(!m.is_exit(1, 1));
    assert_eq!(m.cell(1, 1), OPEN);
    assert_eq!(m.cell(2, 1), EXIT);
    assert_eq!(m.cell(1, 0), WALL);
}

#[test]
fn dice_picks_stay_below_the_bound_and_ratios_hit_their_ends() {
    let mut d = Dice::new(rand::thread_rng());
    let mut seen = [false; 5];
    for _ in 0..500 {
        let p = d.below(5);
        assert!(p < 5);
        seen[p] = true;
    }
    assert!(seen.iter().all(|&s| s));
    for _ in 0..50 {
        assert!(!d.ratio(0, 7));
        assert!(d.ratio(7, 7));
    }
}
