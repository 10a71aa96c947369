use wasm_game_of_life::{Cell, Universe};

fn alive_set(u: &Universe) -> Vec<(u32, u32)> {
    let w = u.width();
    let mut out = Vec::new();
    for (i, c) in u.get_cells().iter().enumerate() {
        if *c == Cell::Alive {
            out.push((i as u32 / w, i as u32 % w));
        }
    }
    out
}

#[test]
fn new_universe_is_all_dead() {
    for (h, w) in [(1, 1), (1, 7), (7, 1), (3, 5), (64, 64)] {
        let u = Universe::new(h, w);
        assert_eq!(u.height(), h);
        assert_eq!(u.width(), w);
        assert_eq!(u.get_cells().len(), (h * w) as usize);
        assert!(u.get_cells().iter().all(|c| *c == Cell::Dead));
    }
}

#[test]
fn tick_is_deterministic() {
    let seed = [(0, 1), (1, 2), (2, 0), (2, 1), (2, 2), (4, 4), (5, 4)];
    let mut a = Universe::new(7, 9);
    let mut b = Universe::new(7, 9);
    a.set_cells(&seed);
    b.set_cells(&seed);
    for _ in 0..6 {
        a.tick();
        b.tick();
        assert_eq!(a.get_cells(), b.get_cells());
    }
}

#[test]
fn neighbours_wrap_across_corners() {
    let mut u = Universe::new(4, 4);
    u.set_cells(&[(0, 0), (0, 3), (3, 0)]);
    u.tick();
    // The fourth corner sees the other three across both edges.
    assert_eq!(alive_set(&u), vec![(0, 0), (0, 3), (3, 0), (3, 3)]);
}

#[test]
fn single_cell_grid_sees_itself_eight_times() {
    let mut u = Universe::new(1, 1);
    u.toggle_cell(0, 0);
    u.tick();
    assert_eq!(u.get_cells(), &[Cell::Dead]);
}

#[test]
fn one_row_grid_wraps() {
    // On a 1x5 torus a cell sees itself twice (above and below) and each of
    // its two side neighbours three times.
    let mut u = Universe::new(1, 5);
    u.set_cells(&[(0, 0)]);
    u.tick();
    assert_eq!(alive_set(&u), vec![(0, 0), (0, 1), (0, 4)]);
    let mut v = Universe::new(1, 5);
    v.set_cells(&[(0, 4)]);
    v.tick();
    assert_eq!(alive_set(&v), vec![(0, 0), (0, 3), (0, 4)]);
}

#[test]
fn block_is_a_still_life() {
    for (h, w, r, c) in [(4, 4, 1, 1), (4, 4, 0, 0), (6, 5, 4, 3)] {
        let mut u = Universe::new(h, w);
        u.set_cells(&[(r, c), (r, c + 1), (r + 1, c), (r + 1, c + 1)]);
        let before = u.get_cells().to_vec();
        u.tick();
        assert_eq!(u.get_cells(), before.as_slice());
        u.tick();
        assert_eq!(u.get_cells(), before.as_slice());
    }
}

#[test]
fn blinker_has_period_two() {
    let mut u = Universe::new(5, 5);
    u.set_cells(&[(2, 1), (2, 2), (2, 3)]);
    let start = u.get_cells().to_vec();
    u.tick();
    assert_eq!(alive_set(&u), vec![(1, 2), (2, 2), (3, 2)]);
    assert_ne!(u.get_cells(), start.as_slice());
    u.tick();
    assert_eq!(u.get_cells(), start.as_slice());
}

#[test]
fn blinker_on_a_three_by_three_torus_fills_it() {
    // Every cell of a 3x3 torus neighbours all eight others, so each dead cell
    // sees the three live ones and comes alive.
    let mut u = Universe::new(3, 3);
    u.set_cells(&[(1, 0), (1, 1), (1, 2)]);
    u.tick();
    assert!(u.get_cells().iter().all(|c| *c == Cell::Alive));
}

#[test]
fn horizontal_blinker_turns_vertical() {
    let mut u = Universe::new(5, 5);
    u.set_cells(&[(2, 1), (2, 2), (2, 3)]);
    u.tick();
    assert_eq!(alive_set(&u), vec![(1, 2), (2, 2), (3, 2)]);
}

#[test]
fn toggle_cell_flips_in_range_and_ignores_out_of_range() {
    let mut u = Universe::new(3, 4);
    u.toggle_cell(1, 2);
    assert_eq!(u.get_cells()[6], Cell::Alive);
    assert_eq!(alive_set(&u), vec![(1, 2)]);
    u.toggle_cell(1, 2);
    assert_eq!(u.get_cells()[6], Cell::Dead);
    u.toggle_cell(2, 3);
    let before = u.get_cells().to_vec();
    u.toggle_cell(3, 0);
    u.toggle_cell(0, 4);
    u.toggle_cell(u32::MAX, u32::MAX);
    assert_eq!(u.get_cells(), before.as_slice());
}

#[test]
fn glider_cells() {
    let mut u = Universe::new(6, 6);
    u.make_glider(2, 2);
    assert_eq!(alive_set(&u), vec![(1, 2), (2, 3), (3, 1), (3, 2), (3, 3)]);
}

#[test]
fn glider_wraps_when_placed_at_the_corner() {
    let mut u = Universe::new(5, 6);
    u.make_glider(0, 0);
    assert_eq!(alive_set(&u), vec![(0, 1), (1, 0), (1, 1), (1, 5), (4, 0)]);
}

fn shifted(cells: &[(u32, u32)], dr: u32, dc: u32, h: u32, w: u32) -> Vec<(u32, u32)> {
    let mut v: Vec<(u32, u32)> = cells.iter().map(|&(r, c)| ((r + dr) % h, (c + dc) % w)).collect();
    v.sort();
    v
}

#[test]
fn glider_moves_one_cell_diagonally_every_four_ticks() {
    let (h, w) = (8, 10);
    let mut u = Universe::new(h, w);
    u.make_glider(2, 2);
    let start = alive_set(&u);
    for step in 1..=40u32 {
        u.tick();
        assert_eq!(alive_set(&u).len(), 5);
        if step % 4 == 0 {
            let k = step / 4;
            assert_eq!(alive_set(&u), shifted(&start, k, k, h, w));
        }
    }
}

#[test]
fn pulsar_has_48_cells_and_period_three() {
    let mut u = Universe::new(21, 21);
    u.make_pulsar(8, 8);
    let start = u.get_cells().to_vec();
    assert_eq!(alive_set(&u).len(), 48);
    assert!(alive_set(&u).contains(&(2, 4)));
    assert!(alive_set(&u).contains(&(12, 14)));
    assert!(!alive_set(&u).contains(&(8, 8)));
    u.tick();
    assert_ne!(u.get_cells(), start.as_slice());
    u.tick();
    u.tick();
    assert_eq!(u.get_cells(), start.as_slice());
}

#[test]
fn pulsar_wraps_around_edges() {
    let mut u = Universe::new(13, 13);
    u.make_pulsar(0, 0);
    let cells = alive_set(&u);
    assert_eq!(cells.len(), 48);
    assert!(cells.contains(&(7, 9)));
    assert!(cells.contains(&(1, 4)));
    assert!(cells.contains(&(12, 11)));
}

#[test]
fn set_cells_scenario_then_tick() {
    let mut u = Universe::new(3, 3);
    u.set_cells(&[(1, 0), (1, 1), (1, 2)]);
    assert_eq!(alive_set(&u), vec![(1, 0), (1, 1), (1, 2)]);
}

#[test]
fn cell_bytes_of_an_empty_two_by_two_grid() {
    let u = Universe::new(2, 2);
    let bytes: Vec<u8> = u.get_cells().iter().map(|c| c.as_byte()).collect();
    assert_eq!(bytes, vec![0u8, 0, 0, 0]);
    let mut v = Universe::new(2, 2);
    v.toggle_cell(1, 0);
    let bytes: Vec<u8> = v.get_cells().iter().map(|c| c.as_byte()).collect();
    assert_eq!(bytes, vec![0u8, 0, 1, 0]);
}

#[test]
fn render_draws_one_line_per_row() {
    let mut u = Universe::new(2, 3);
    u.set_cells(&[(0, 1), (1, 2)]);
    assert_eq!(u.render(), "\u{25fb}\u{25fc}\u{25fb}\n\u{25fb}\u{25fb}\u{25fc}\n");
}

#[test]
fn try_set_cells_checks_every_coordinate() {
    let mut u = Universe::new(3, 4);
    assert!(!u.try_set_cells(&[(0, 0), (3, 0)]));
    assert!(!u.try_set_cells(&[(0, 4)]));
    assert_eq!(alive_set(&u), Vec::<(u32, u32)>::new());
    assert!(u.try_set_cells(&[(0, 0), (2, 3), (0, 0)]));
    assert_eq!(alive_set(&u), vec![(0, 0), (2, 3)]);
    assert!(u.try_set_cells(&[]));
    assert_eq!(alive_set(&u), vec![(0, 0), (2, 3)]);
}

#[test]
fn set_cells_keeps_live_cells_alive() {
    let mut u = Universe::new(2, 2);
    u.toggle_cell(0, 0);
    u.set_cells(&[(0, 0), (1, 1)]);
    assert_eq!(u.get_cells(), &[Cell::Alive, Cell::Dead, Cell::Dead, Cell::Alive]);
}

#[test]
fn lone_cell_dies_and_crowded_cell_dies() {
    let mut u = Universe::new(5, 5);
    u.set_cells(&[(2, 2)]);
    u.tick();
    assert!(u.get_cells().iter().all(|c| *c == Cell::Dead));
    // A plus shape: the centre has four live neighbours and dies.
    let mut v = Universe::new(5, 5);
    v.set_cells(&[(2, 2), (1, 2), (3, 2), (2, 1), (2, 3)]);
    v.tick();
    assert_eq!(v.get_cells()[12], Cell::Dead);
}

#[test]
fn as_byte_values() {
    assert_eq!(Cell::Dead.as_byte(), 0);
    assert_eq!(Cell::Alive.as_byte(), 1);
}
