use rand::rngs::StdRng;
use rand::SeedableRng;
use terrain_gen::cell::{Cell, CellType, Rgba};
use terrain_gen::grid::GenError;
use terrain_gen::map_generator::{
    calculate_neighbours, generate_features, generate_map, generate_trees, generate_walls,
    generate_water, paint_by_threshold, paint_features, plant_trees, smooth_logic, smooth_map,
};
use terrain_gen::noise::UNIT;

fn grid_of(w: usize, h: usize, t: CellType) -> Vec<Vec<Cell>> {
    vec![vec![Cell::new(t); h]; w]
}

fn checkerboard(n: usize) -> Vec<Vec<Cell>> {
    let mut m = grid_of(n, n, CellType::Water);
    for x in 0..n {
        for y in 0..n {
            if (x + y) % 2 == 0 {
                m[x][y].cell_type = CellType::Grass;
            }
        }
    }
    m
}

fn is_border(x: usize, y: usize, w: usize, h: usize) -> bool {
    x == 0 || y == 0 || x == w - 1 || y == h - 1
}

#[test]
fn new_and_default_cells() {
    let c = Cell::new(CellType::Sand);
    assert_eq!(c.cell_type, CellType::Sand);
    assert_eq!(c.value, 100);
    let d = Cell::default();
    assert_eq!(d.cell_type, CellType::Empty);
    assert_eq!(d.value, 100);
}

#[test]
fn cell_colors() {
    let rgba = |r, g, b| Rgba { r, g, b, a: 255 };
    assert_eq!(Cell::new(CellType::Empty).get_cell_color(), rgba(255, 255, 255));
    assert_eq!(Cell::new(CellType::Grass).get_cell_color(), rgba(0, 255, 0));
    assert_eq!(Cell::new(CellType::Sand).get_cell_color(), rgba(255, 255, 0));
    assert_eq!(Cell::new(CellType::Water).get_cell_color(), rgba(0, 0, 255));
    assert_eq!(Cell::new(CellType::Structure).get_cell_color(), rgba(64, 64, 64));
    assert_eq!(Cell::new(CellType::Wood).get_cell_color(), rgba(165, 42, 42));
    assert_eq!(Cell::new(CellType::Floor).get_cell_color(), rgba(188, 143, 143));
    let dim = Cell { cell_type: CellType::Grass, value: 40 };
    assert_eq!(dim.get_cell_color(), rgba(0, 135, 0));
}

#[test]
fn neighbours_wrap_on_three_by_three() {
    let mut m = grid_of(3, 3, CellType::Water);
    m[2][2].cell_type = CellType::Grass;
    m[2][0].cell_type = CellType::Grass;
    m[0][2].cell_type = CellType::Grass;
    assert_eq!(calculate_neighbours(&m, 0, 0), 3);
    m[0][0].cell_type = CellType::Grass;
    assert_eq!(calculate_neighbours(&m, 0, 0), 3);
    assert_eq!(calculate_neighbours(&m, 1, 1), 4);
    let all = grid_of(3, 3, CellType::Grass);
    assert_eq!(calculate_neighbours(&all, 0, 0), 8);
}

#[test]
fn smooth_logic_thresholds() {
    // Centre of a 3x3 with k vegetated neighbours.
    let mut m = grid_of(3, 3, CellType::Water);
    let ring = [(0, 0), (0, 1), (0, 2), (1, 0), (1, 2), (2, 0), (2, 1), (2, 2)];
    for &(x, y) in ring.iter().take(4) {
        m[x][y].cell_type = CellType::Grass;
    }
    assert!(!smooth_logic(&m, 1, 1));
    m[1][1].cell_type = CellType::Grass;
    assert!(smooth_logic(&m, 1, 1));
    m[1][1].cell_type = CellType::Sand;
    let (x, y) = ring[4];
    m[x][y].cell_type = CellType::Grass;
    assert!(smooth_logic(&m, 1, 1));
}

#[test]
fn smooth_checkerboard_five_by_five() {
    let mut m = checkerboard(5);
    smooth_map(&mut m);
    // Centre (2, 2): vegetated, its four diagonal neighbours are vegetated.
    assert_eq!(m[2][2].cell_type, CellType::Grass);
    // (2, 1): liquid with four vegetated neighbours stays liquid.
    assert_eq!(m[2][1].cell_type, CellType::Water);
    // (0, 0) reaches (4, 4), (0, 4), (4, 0) and (1, 1) across the edges.
    assert_eq!(m[0][0].cell_type, CellType::Grass);
    // (4, 4): vegetated neighbours (3, 3), (0, 4), (4, 0) and (0, 0).
    assert_eq!(m[4][4].cell_type, CellType::Grass);
    for col in &m {
        for c in col {
            assert!(c.cell_type == CellType::Grass || c.cell_type == CellType::Water);
            assert_eq!(c.value, 100);
        }
    }
}

#[test]
fn smooth_folds_other_kinds_into_two() {
    let mut m = grid_of(4, 4, CellType::Structure);
    m[1][1].cell_type = CellType::Wood;
    smooth_map(&mut m);
    for col in &m {
        for c in col {
            assert_eq!(c.cell_type, CellType::Water);
        }
    }
    let mut g = grid_of(4, 4, CellType::Grass);
    smooth_map(&mut g);
    assert_eq!(g, grid_of(4, 4, CellType::Grass));
}

#[test]
fn paint_threshold_zero_changes_nothing() {
    let mut m = checkerboard(4);
    let before = m.clone();
    let noise = vec![vec![0u32; 4]; 4];
    paint_by_threshold(&mut m, &noise, 0, CellType::Sand);
    assert_eq!(m, before);
}

#[test]
fn paint_threshold_one_repaints_everything() {
    let mut m = checkerboard(4);
    let noise = vec![vec![UNIT - 1; 4], vec![0; 4], vec![12345; 4], vec![UNIT / 2; 4]];
    paint_by_threshold(&mut m, &noise, UNIT, CellType::Sand);
    for col in &m {
        for c in col {
            assert_eq!(c.cell_type, CellType::Sand);
        }
    }
}

#[test]
fn paint_only_strictly_below_threshold() {
    let mut m = grid_of(1, 3, CellType::Water);
    let noise = vec![vec![499_999, 500_000, 500_001]];
    paint_by_threshold(&mut m, &noise, 500_000, CellType::Grass);
    assert_eq!(m[0][0].cell_type, CellType::Grass);
    assert_eq!(m[0][1].cell_type, CellType::Water);
    assert_eq!(m[0][2].cell_type, CellType::Water);
}

#[test]
fn water_resets_every_cell() {
    let mut m = checkerboard(3);
    m[1][1].value = 7;
    generate_water(&mut m);
    assert_eq!(m, grid_of(3, 3, CellType::Water));
}

#[test]
fn walls_cover_the_ring_only() {
    let mut m = grid_of(5, 4, CellType::Grass);
    generate_walls(&mut m);
    for x in 0..5 {
        for y in 0..4 {
            let expected = if is_border(x, y, 5, 4) { CellType::Structure } else { CellType::Grass };
            assert_eq!(m[x][y].cell_type, expected);
        }
    }
}

#[test]
fn walls_on_a_single_row() {
    let mut m = grid_of(3, 1, CellType::Sand);
    generate_walls(&mut m);
    assert_eq!(m, grid_of(3, 1, CellType::Structure));
}

#[test]
fn trees_respect_quota() {
    let mut rng = StdRng::seed_from_u64(5);
    let mut m = grid_of(20, 15, CellType::Grass);
    generate_trees(&mut m, &mut rng);
    let wood = m.iter().flatten().filter(|c| c.cell_type == CellType::Wood).count();
    assert!(wood <= 20 * 15 / 100);
    assert!(wood >= 1);
    assert!(m.iter().flatten().all(|c| c.cell_type == CellType::Wood || c.cell_type == CellType::Grass));
}

#[test]
fn trees_only_grow_on_grass() {
    let mut rng = StdRng::seed_from_u64(9);
    let mut m = grid_of(12, 12, CellType::Water);
    generate_trees(&mut m, &mut rng);
    assert_eq!(m, grid_of(12, 12, CellType::Water));
}

#[test]
fn trees_on_a_small_grid_make_no_draw() {
    let mut rng = StdRng::seed_from_u64(1);
    let mut m = grid_of(9, 11, CellType::Grass);
    generate_trees(&mut m, &mut rng);
    assert_eq!(m, grid_of(9, 11, CellType::Grass));
}

#[test]
fn features_only_paint_the_target() {
    let mut rng = StdRng::seed_from_u64(21);
    let mut m = grid_of(16, 16, CellType::Water);
    generate_features(&mut m, 500_000, CellType::Grass, &mut rng);
    assert!(m.iter().flatten().all(|c| c.cell_type == CellType::Water || c.cell_type == CellType::Grass));
    let mut n = grid_of(8, 8, CellType::Water);
    generate_features(&mut n, 0, CellType::Grass, &mut rng);
    assert_eq!(n, grid_of(8, 8, CellType::Water));
    generate_features(&mut n, UNIT, CellType::Sand, &mut rng);
    assert_eq!(n, grid_of(8, 8, CellType::Sand));
}

#[test]
fn map_rejects_zero_dimensions() {
    let mut rng = StdRng::seed_from_u64(0);
    assert_eq!(generate_map(0, 5, &mut rng), Err(GenError::InvalidDimensions));
    assert_eq!(generate_map(5, 0, &mut rng), Err(GenError::InvalidDimensions));
}

#[test]
fn map_border_and_interior() {
    let mut rng = StdRng::seed_from_u64(42);
    let (w, h) = (40, 30);
    let m = generate_map(w, h, &mut rng).unwrap();
    assert_eq!(m.len(), w);
    for x in 0..w {
        assert_eq!(m[x].len(), h);
        for y in 0..h {
            let t = m[x][y].cell_type;
            assert_eq!(m[x][y].value, 100);
            if is_border(x, y, w, h) {
                assert_eq!(t, CellType::Structure);
            } else {
                assert!(matches!(
                    t,
                    CellType::Grass | CellType::Water | CellType::Sand | CellType::Wood
                ));
            }
        }
    }
}

#[test]
fn map_of_one_cell_is_a_wall() {
    let mut rng = StdRng::seed_from_u64(8);
    let m = generate_map(1, 1, &mut rng).unwrap();
    assert_eq!(m, vec![vec![Cell { cell_type: CellType::Structure, value: 100 }]]);
}

#[test]
fn unshaded_colors_ignore_intensity() {
    let bright = Cell { cell_type: CellType::Water, value: 5000 };
    assert_eq!(bright.get_cell_color(), Rgba { r: 0, g: 0, b: 255, a: 255 });
    let wall = Cell { cell_type: CellType::Structure, value: 101 };
    assert_eq!(wall.get_cell_color(), Rgba { r: 64, g: 64, b: 64, a: 255 });
}

#[test]
fn plant_trees_converts_drawn_grass_only() {
    let mut m = grid_of(3, 2, CellType::Grass);
    m[1][0].cell_type = CellType::Sand;
    let draws = vec![(0, 1), (1, 0), (0, 1), (2, 1)];
    plant_trees(&mut m, &draws);
    assert_eq!(m[0][1].cell_type, CellType::Wood);
    assert_eq!(m[1][0].cell_type, CellType::Sand);
    assert_eq!(m[2][1].cell_type, CellType::Wood);
    assert_eq!(m[0][0].cell_type, CellType::Grass);
    assert_eq!(m[1][1].cell_type, CellType::Grass);
    assert_eq!(m[2][0].cell_type, CellType::Grass);
    assert!(m.iter().flatten().all(|c| c.value == 100));
}

#[test]
fn plant_trees_without_draws_changes_nothing() {
    let mut m = grid_of(4, 4, CellType::Grass);
    plant_trees(&mut m, &Vec::new());
    assert_eq!(m, grid_of(4, 4, CellType::Grass));
}

#[test]
fn paint_features_uses_the_composed_noise() {
    // A constant base composes to the same constant.
    let base = vec![vec![400_000u32; 3]; 2];
    let mut m = grid_of(2, 3, CellType::Water);
    paint_features(&mut m, &base, 400_000, CellType::Grass);
    assert_eq!(m, grid_of(2, 3, CellType::Water));
    paint_features(&mut m, &base, 400_001, CellType::Grass);
    assert_eq!(m, grid_of(2, 3, CellType::Grass));
}

#[test]
fn map_wood_within_quota() {
    let mut rng = StdRng::seed_from_u64(77);
    let (w, h) = (50, 40);
    let m = generate_map(w, h, &mut rng).unwrap();
    let wood = m.iter().flatten().filter(|c| c.cell_type == CellType::Wood).count();
    assert!(wood <= w * h / 100);
}
