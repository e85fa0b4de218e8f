use shadowcast::{ShadowMap, BLOCK, EMPTY, VISIBLE};

// A plain sweep with single-precision slopes, to hold the library against.

struct Plain {
    cells: Vec<Vec<u8>>,
}

impl Plain {
    fn get(&self, x: isize, y: isize) -> u8 {
        if x < 0 || y < 0 || y as usize >= self.cells.len() || x as usize >= self.cells[0].len() {
            return EMPTY;
        }
        self.cells[y as usize][x as usize]
    }

    fn set(&mut self, x: isize, y: isize, value: u8) {
        if x >= 0 && y >= 0 && (y as usize) < self.cells.len() && (x as usize) < self.cells[0].len()
        {
            self.cells[y as usize][x as usize] = value;
        }
    }

    fn sweep(
        &mut self,
        center: (f32, f32),
        distance: f32,
        mut min: f32,
        max: f32,
        rotate: fn(f32, f32) -> (f32, f32),
        radius: f32,
    ) {
        if distance > radius || min >= max {
            return;
        }
        let mut i = (distance * min).ceil();
        while i <= distance * max {
            let x = (center.0 + rotate(distance, i).0) as isize;
            let y = (center.1 + rotate(distance, i).1) as isize;
            if self.get(x, y) == BLOCK {
                self.sweep(center, distance + 1.0, min, (i - 0.5) / distance, rotate, radius);
                min = (i + 0.5) / distance;
            } else {
                self.set(x, y, VISIBLE);
            }
            i += 1.0;
        }
        self.sweep(center, distance + 1.0, min, max, rotate, radius);
    }

    fn scan(&mut self, center: (f32, f32), radius: f32) {
        self.sweep(center, 0.0, -1.0, 1.0, |x, y| (x, y), radius);
        self.sweep(center, 0.0, -1.0, 1.0, |x, y| (y, -x), radius);
        self.sweep(center, 0.0, -1.0, 1.0, |x, y| (-x, -y), radius);
        self.sweep(center, 0.0, -1.0, 1.0, |x, y| (-y, x), radius);
    }
}

struct Dice(u64);

impl Dice {
    fn roll(&mut self, sides: u64) -> u64 {
        self.0 = self.0.wrapping_mul(6364136223846793005).wrapping_add(1442695040888963407);
        (self.0 >> 33) % sides
    }
}

fn both_scans(dice: &mut Dice, radius: u32) -> (Vec<Vec<u8>>, Vec<Vec<u8>>) {
    let width = 1 + dice.roll(48) as usize;
    let height = 1 + dice.roll(48) as usize;
    let one_in = 3 + dice.roll(40);
    let mut map = ShadowMap::new_with_empty_cells(width, height);
    let mut plain = Plain { cells: vec![vec![EMPTY; width]; height] };
    for y in 0..height as isize {
        for x in 0..width as isize {
            if dice.roll(one_in) == 0 {
                map.set(x, y, BLOCK);
                plain.set(x, y, BLOCK);
            }
        }
    }
    let cx = dice.roll(width as u64 + 6) as isize - 3;
    let cy = dice.roll(height as u64 + 6) as isize - 3;
    map.full_scan((cx, cy), radius);
    plain.scan((cx as f32, cy as f32), radius as f32);
    (map.rows(), plain.cells)
}

#[test]
fn agrees_with_single_precision_slopes_at_the_default_radius() {
    let mut dice = Dice(2024);
    for _ in 0..400 {
        let (exact, rounded) = both_scans(&mut dice, 20);
        assert_eq!(exact, rounded);
    }
}

#[test]
fn agrees_with_single_precision_slopes_at_small_radii() {
    let mut dice = Dice(7);
    for round in 0..420 {
        let (exact, rounded) = both_scans(&mut dice, round % 22);
        assert_eq!(exact, rounded);
    }
}

#[test]
fn sees_the_edge_cell_that_rounded_slopes_miss() {
    let mut map = ShadowMap::new_with_empty_cells(24, 16);
    let mut plain = Plain { cells: vec![vec![EMPTY; 24]; 16] };
    map.set(11, 7, BLOCK);
    plain.set(11, 7, BLOCK);
    map.full_scan((0, 0), 30);
    plain.scan((0.0, 0.0), 30.0);
    let mut exact = map.rows();
    assert_eq!(exact[13][22], VISIBLE);
    assert_eq!(plain.cells[13][22], EMPTY);
    exact[13][22] = EMPTY;
    assert_eq!(exact, plain.cells);
}
