use bus_sign::universe::{
    draws_for_populate, hue_to_rgb, neighbor, next_cell, Cell, Pixel, Universe, ALIVE, DEAD,
};

/// A small deterministic generator standing in for the hardware source.
struct Lcg(u64);

impl Lcg {
    fn next_u32(&mut self) -> u32 {
        self.0 = self.0.wrapping_mul(6364136223846793005).wrapping_add(1442695040888963407);
        (self.0 >> 33) as u32
    }

    fn draws(&mut self, n: usize) -> Vec<u32> {
        (0..n).map(|_| self.next_u32()).collect()
    }
}

/// Draws that give every cell hue `hue` and place all seeds on `targets`
/// (cycled), as (column, row) pairs.
fn placing(w: usize, h: usize, hue: u32, targets: &[(usize, usize)]) -> Vec<u32> {
    let n = w * h;
    let mut d = vec![hue; 2 * n];
    for s in 0..n / 2 {
        let (x, y) = targets[s % targets.len()];
        d.push(x as u32);
        d.push(y as u32);
    }
    assert_eq!(d.len(), draws_for_populate(w, h));
    d
}

fn alive_cells(u: &Universe, g: usize) -> usize {
    let mut count = 0;
    for x in 0..u.width() {
        for y in 0..u.height() {
            if u.cell(g, x, y).light > DEAD {
                count += 1;
            }
        }
    }
    count
}

#[test]
fn lone_live_cell_dies() {
    let c = Cell { hue: 10, light: 100 };
    let (next, born, died) = next_cell(c, 1, 200);
    assert_eq!(next, Cell { hue: 10, light: 50 });
    assert!(!born);
    assert!(died);
}

#[test]
fn crowded_live_cell_dies() {
    let (next, born, died) = next_cell(Cell { hue: 7, light: 100 }, 4, 0);
    assert_eq!(next.light, DEAD);
    assert!(died && !born);
}

#[test]
fn live_cell_with_two_or_three_survives() {
    for live in [2, 3] {
        let c = Cell { hue: 33, light: 100 };
        assert_eq!(next_cell(c, live, 5), (c, false, false));
    }
}

#[test]
fn dead_cell_with_three_or_four_is_born() {
    for live in [3, 4] {
        let (next, born, died) = next_cell(Cell { hue: 1, light: 20 }, live, 370);
        assert_eq!(next, Cell { hue: 10, light: ALIVE });
        assert!(born && !died);
    }
}

#[test]
fn dead_cell_with_five_decays_by_two_floored_at_one() {
    assert_eq!(next_cell(Cell { hue: 3, light: 40 }, 5, 0), (Cell { hue: 3, light: 38 }, false, false));
    assert_eq!(next_cell(Cell { hue: 3, light: 50 }, 5, 0).0.light, 48);
    assert_eq!(next_cell(Cell { hue: 3, light: 2 }, 5, 0).0.light, 1);
    assert_eq!(next_cell(Cell { hue: 3, light: 1 }, 5, 0).0.light, 1);
    assert_eq!(next_cell(Cell { hue: 3, light: 0 }, 5, 0).0.light, 0);
}

#[test]
fn corners_wrap_diagonally() {
    let (w, h) = (53, 11);
    assert_eq!(neighbor(w, h, 0, 0, 0), (w - 1, h - 1));
    assert_eq!(neighbor(w, h, w - 1, 0, 6), (0, h - 1));
    assert_eq!(neighbor(w, h, 0, h - 1, 2), (w - 1, 0));
    assert_eq!(neighbor(w, h, w - 1, h - 1, 5), (0, 0));
    let all: Vec<(usize, usize)> = (0..8).map(|n| neighbor(w, h, 0, 0, n)).collect();
    assert_eq!(
        all,
        vec![(52, 10), (52, 0), (52, 1), (0, 1), (0, 10), (1, 1), (1, 10), (1, 0)]
    );
}

#[test]
fn corner_cell_sees_the_opposite_corner() {
    let (w, h) = (6, 5);
    let mut u = Universe::new(w, h);
    u.populate(&placing(w, h, 90, &[(w - 1, h - 1)]));
    let (hues, count) = u.live_neighbors(0, 0);
    assert_eq!(count, 1);
    assert_eq!(hues.as_slice(), &[90u16][..]);
    let (_, count) = u.live_neighbors(2, 2);
    assert_eq!(count, 0);
}

#[test]
fn birth_hues_lists_live_neighbours() {
    let (w, h) = (6, 6);
    let mut u = Universe::new(w, h);
    let mut d = placing(w, h, 0, &[(1, 1), (2, 1), (3, 1)]);
    // give the three seeded cells of generation zero distinct hues
    d[2 * (1 * h + 1)] = 0;
    d[2 * (2 * h + 1)] = 120;
    d[2 * (3 * h + 1)] = 240;
    u.populate(&d);
    let hues = u.birth_hues(2, 2).expect("three live neighbours");
    assert_eq!(hues.as_slice(), &[0u16, 120, 240][..]);
    assert!(u.birth_hues(2, 1).is_none());
    assert!(u.birth_hues(5, 5).is_none());
}

#[test]
fn lone_cell_on_grid_dies_in_a_step() {
    let (w, h) = (5, 5);
    let mut u = Universe::new(w, h);
    u.populate(&placing(w, h, 30, &[(2, 2)]));
    assert_eq!(alive_cells(&u, 0), 1);
    let blended = vec![0u16; w * h];
    let reseed = vec![0u32; draws_for_populate(w, h)];
    let pixels = u.step(&blended, &reseed);
    assert_eq!(u.page(), 1);
    assert_eq!(u.born(), 0);
    assert_eq!(u.died(), 1);
    assert_eq!(u.stall_count(), 0);
    assert_eq!(u.cell(1, 2, 2), Cell { hue: 30, light: DEAD });
    assert_eq!(alive_cells(&u, 1), 0);
    assert_eq!(pixels.len(), w * h);
    let (r, g, b) = hue_to_rgb(30, DEAD);
    assert_eq!(pixels[2 * h + 2], Pixel { x: 2, y: 2, r, g, b });
}

#[test]
fn blinker_turns_and_uses_blended_hue() {
    let (w, h) = (6, 6);
    let mut u = Universe::new(w, h);
    u.populate(&placing(w, h, 200, &[(1, 2), (2, 2), (3, 2)]));
    let mut blended = vec![0u16; w * h];
    blended[2 * h + 1] = 365;
    blended[2 * h + 3] = 17;
    let reseed = vec![0u32; draws_for_populate(w, h)];
    u.step(&blended, &reseed);
    assert_eq!(u.born(), 2);
    assert_eq!(u.died(), 2);
    assert_eq!(u.cell(1, 2, 1), Cell { hue: 5, light: ALIVE });
    assert_eq!(u.cell(1, 2, 3), Cell { hue: 17, light: ALIVE });
    assert_eq!(u.cell(1, 2, 2), Cell { hue: 200, light: ALIVE });
    assert_eq!(u.cell(1, 1, 2), Cell { hue: 200, light: DEAD });
}

#[test]
fn same_inputs_give_same_generations() {
    let (w, h) = (12, 7);
    let mut rng = Lcg(42);
    let seed = rng.draws(draws_for_populate(w, h));
    let mut a = Universe::new(w, h);
    let mut b = Universe::new(w, h);
    a.populate(&seed);
    b.populate(&seed);
    for _ in 0..20 {
        let blended: Vec<u16> = rng.draws(w * h).iter().map(|v| (v % 360) as u16).collect();
        let reseed = rng.draws(draws_for_populate(w, h));
        let pa = a.step(&blended, &reseed);
        let pb = b.step(&blended, &reseed);
        assert_eq!(pa, pb);
        assert_eq!(a.page(), b.page());
        for g in 0..2 {
            for x in 0..w {
                for y in 0..h {
                    assert_eq!(a.cell(g, x, y), b.cell(g, x, y));
                }
            }
        }
    }
}

#[test]
fn fifth_balanced_step_reseeds() {
    let (w, h) = (5, 5);
    let mut u = Universe::new(w, h);
    let blended = vec![0u16; w * h];
    let mut rng = Lcg(7);
    let reseed = rng.draws(draws_for_populate(w, h));
    for i in 1..5 {
        u.step(&blended, &reseed);
        assert_eq!(u.stall_count(), i);
        assert_eq!(u.page(), i % 2);
    }
    let mut before = std::collections::BTreeSet::new();
    for x in 0..w {
        for y in 0..h {
            before.insert(u.cell(0, x, y).hue);
        }
    }
    assert_eq!(before.len(), 1);
    u.step(&blended, &reseed);
    assert_eq!(u.stall_count(), 0);
    assert_eq!(u.page(), 0);
    assert_eq!(u.born(), 0);
    assert_eq!(u.died(), 0);
    let mut after = std::collections::BTreeSet::new();
    for x in 0..w {
        for y in 0..h {
            let k = x * h + y;
            assert_eq!(u.cell(0, x, y).hue as u32, reseed[2 * k] % 360);
            assert_eq!(u.cell(1, x, y).hue as u32, reseed[2 * k + 1] % 360);
            assert_eq!(u.cell(1, x, y).light, 0);
            after.insert(u.cell(0, x, y).hue);
        }
    }
    assert!(after.len() > 10);
    assert!(alive_cells(&u, 0) >= 1);
}

#[test]
fn unbalanced_step_resets_stall_count() {
    let (w, h) = (5, 5);
    let mut u = Universe::new(w, h);
    let blended = vec![0u16; w * h];
    let reseed = vec![0u32; draws_for_populate(w, h)];
    u.step(&blended, &reseed);
    u.step(&blended, &reseed);
    assert_eq!(u.stall_count(), 2);
    u.populate(&placing(w, h, 0, &[(2, 2)]));
    assert_eq!(u.stall_count(), 0);
    u.step(&blended, &reseed);
    u.step(&blended, &reseed);
    assert_eq!(u.stall_count(), 1);
}

#[test]
fn primary_hues_at_full_light() {
    assert_eq!(hue_to_rgb(0, 100), (255, 0, 0));
    assert_eq!(hue_to_rgb(120, 100), (0, 255, 0));
    assert_eq!(hue_to_rgb(240, 100), (0, 0, 255));
}

#[test]
fn dark_cells_are_black_for_any_hue() {
    for hue in [0u16, 59, 60, 119, 180, 299, 359, 360, 1000] {
        assert_eq!(hue_to_rgb(hue, 0), (0, 0, 0));
    }
}

#[test]
fn color_sectors_and_truncation() {
    assert_eq!(hue_to_rgb(60, 100), (255, 255, 0));
    assert_eq!(hue_to_rgb(180, 100), (0, 255, 255));
    assert_eq!(hue_to_rgb(300, 100), (255, 0, 255));
    assert_eq!(hue_to_rgb(30, 50), (127, 63, 0));
    assert_eq!(hue_to_rgb(90, 100), (127, 255, 0));
    assert_eq!(hue_to_rgb(330, 1), (2, 0, 1));
    assert_eq!(hue_to_rgb(360, 100), (0, 0, 0));
}

#[test]
fn populate_places_at_most_half_the_cells() {
    let (w, h) = (53, 11);
    assert_eq!(draws_for_populate(w, h), 2 * 583 + 2 * 291);
    let mut u = Universe::new(w, h);
    let mut rng = Lcg(3);
    let d = rng.draws(draws_for_populate(w, h));
    u.populate(&d);
    let live = alive_cells(&u, 0);
    assert!(live <= 291);
    assert!(live > 150);
    assert_eq!(alive_cells(&u, 1), 0);
    let distinct: Vec<(usize, usize)> = (0..291).map(|s| (s % w, s / w)).collect();
    u.populate(&placing(w, h, 0, &distinct));
    assert_eq!(alive_cells(&u, 0), 291);
    u.populate(&placing(w, h, 0, &[(4, 4), (5, 5)]));
    assert_eq!(alive_cells(&u, 0), 2);
}

#[test]
fn lights_stay_in_range_and_lit_cells_stay_lit() {
    let (w, h) = (16, 8);
    let mut rng = Lcg(11);
    let mut u = Universe::new(w, h);
    u.populate(&rng.draws(draws_for_populate(w, h)));
    let mut lit = vec![false; w * h];
    for _ in 0..60 {
        let blended: Vec<u16> = rng.draws(w * h).iter().map(|v| (v % 360) as u16).collect();
        let reseed = rng.draws(draws_for_populate(w, h));
        let cur = u.page();
        for x in 0..w {
            for y in 0..h {
                if u.cell(cur, x, y).light >= 1 {
                    lit[x * h + y] = true;
                }
            }
        }
        u.step(&blended, &reseed);
        let reseeded = u.page() == 0 && cur == 0;
        for x in 0..w {
            for y in 0..h {
                let c = u.cell(u.page(), x, y);
                assert!(c.light <= 100);
                assert!(c.hue < 360);
                if !reseeded && lit[x * h + y] {
                    assert!(c.light >= 1);
                }
            }
        }
        if reseeded {
            lit = vec![false; w * h];
        }
    }
}
