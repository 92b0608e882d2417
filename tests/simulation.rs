use snad_stack::api::{iter_axis, CellsApi};
use snad_stack::cells::{Cell, CellType};
use snad_stack::input::CenterLocation;
use snad_stack::logic::{simulate_steps, step_with, Rolls};
use snad_stack::world::{dims_ok_exec, plan_columns, ColumnRange, ScanOrder, World, MAX_SIDE};

fn world_with(width: i32, height: i32, cells: &[(usize, usize, CellType)]) -> World {
    let mut w = World::new(width, height, 1);
    for &(x, y, m) in cells {
        let i = y * w.width + x;
        w.grid[i] = Cell::new(m);
    }
    w
}

fn material_at(w: &World, x: usize, y: usize) -> CellType {
    w.grid[y * w.width + x].material
}

fn no_rolls() -> Rolls {
    Rolls {
        side: 0,
        dx: 0,
        dy: 0,
        coin_a: false,
        coin_b: false,
        chance: 0,
        threshold: 0,
        ignite: 0,
        shade: 0,
        ring_shades: [0; 9],
    }
}

#[test]
fn new_world_is_air_of_scaled_size() {
    let w = World::new(30, 20, 10);
    assert_eq!(w.width, 3);
    assert_eq!(w.height, 2);
    assert_eq!(w.grid.len(), 6);
    assert_eq!(w.time, 0);
    assert!(w.grid.iter().all(|c| c.material == CellType::Air));
}

#[test]
fn lava_turns_adjacent_water_to_stone() {
    let mut w = world_with(3, 1, &[(0, 0, CellType::Lava), (1, 0, CellType::Water), (2, 0, CellType::Stone)]);
    let mut pixels = vec![0u8; 3 * 4];
    w.simulate(1, &mut pixels);
    assert_eq!(material_at(&w, 1, 0), CellType::Stone);
    assert_eq!(material_at(&w, 0, 0), CellType::Lava);
}

#[test]
fn sand_falls_straight_down_into_air() {
    let mut w = world_with(3, 3, &[(1, 0, CellType::Sand)]);
    let mut pixels = vec![0u8; 9 * 4];
    w.simulate(1, &mut pixels);
    assert_eq!(material_at(&w, 1, 1), CellType::Sand);
    assert_eq!(material_at(&w, 1, 0), CellType::Air);
    assert_eq!(w.grid[4].updated, w.time);
    // The pixel of the moved cell now shows sand's colour.
    assert_eq!(&pixels[16..19], &w.grid[4].rgb[..]);
}

#[test]
fn overaged_fire_burns_out_into_gas() {
    let mut w = world_with(1, 1, &[(0, 0, CellType::Fire)]);
    w.grid[0].health = 3000;
    let mut pixels = vec![0u8; 4];
    w.simulate(1, &mut pixels);
    assert_eq!(material_at(&w, 0, 0), CellType::Gas);
}

#[test]
fn cloner_fills_air_with_first_copyable_neighbour() {
    let mut w = world_with(
        3,
        3,
        &[(1, 1, CellType::Cloner), (0, 0, CellType::Stone), (1, 0, CellType::Sand)],
    );
    let mut pixels = vec![0u8; 9 * 4];
    w.simulate(1, &mut pixels);
    assert_eq!(material_at(&w, 0, 0), CellType::Stone);
    assert_eq!(material_at(&w, 1, 1), CellType::Cloner);
    for (x, y) in [(1, 0), (2, 0), (0, 1), (2, 1), (0, 2), (1, 2), (2, 2)] {
        assert_eq!(material_at(&w, x, y), CellType::Sand, "cell ({x}, {y})");
    }
}

#[test]
fn simulate_advances_time_with_wrap() {
    let mut w = World::new(2, 2, 1);
    w.time = 250;
    let mut pixels = vec![0u8; 16];
    w.simulate(10, &mut pixels);
    assert_eq!(w.time, 4);
}

#[test]
fn wide_grid_simulates_through_column_ranges() {
    let mut w = world_with(120, 4, &[(60, 0, CellType::Sand), (119, 0, CellType::Sand)]);
    let mut pixels = vec![0u8; 120 * 4 * 4];
    w.simulate(1, &mut pixels);
    assert_eq!(material_at(&w, 60, 1), CellType::Sand);
    assert_eq!(material_at(&w, 119, 1), CellType::Sand);
}

#[test]
fn resize_keeps_overlap_and_fills_air() {
    let mut w = world_with(4, 3, &[(1, 2, CellType::Stone), (3, 0, CellType::Water), (0, 1, CellType::Sand)]);
    let before: Vec<Cell> = w.grid.clone();
    w.resize(2, 5, CenterLocation::new());
    assert_eq!(w.width, 2);
    assert_eq!(w.height, 5);
    assert_eq!(w.grid.len(), 10);
    for y in 0..3 {
        for x in 0..2 {
            assert_eq!(w.grid[y * 2 + x].material, before[y * 4 + x].material);
            assert_eq!(w.grid[y * 2 + x].rgb, before[y * 4 + x].rgb);
        }
    }
    assert_eq!(material_at(&w, 1, 2), CellType::Stone);
    assert_eq!(material_at(&w, 0, 1), CellType::Sand);
    for y in 3..5 {
        for x in 0..2 {
            assert_eq!(material_at(&w, x, y), CellType::Air);
        }
    }
}

#[test]
fn render_writes_colour_and_alpha_then_clears_hover() {
    let mut w = world_with(2, 1, &[(0, 0, CellType::Stone)]);
    w.grid[1].selected = true;
    let mut first = vec![0u8; 8];
    w.render(&mut first);
    assert_eq!(&first[0..3], &w.grid[0].rgb[..]);
    assert_eq!(first[3], 255);
    assert_eq!(first[7], 200);
    assert!(!w.grid[1].selected);
    let mut second = vec![0u8; 8];
    let mut third = vec![1u8; 8];
    w.render(&mut second);
    w.render(&mut third);
    assert_eq!(second, third);
    assert_eq!(second[7], 255);
}

#[test]
fn render_is_idempotent_without_hover() {
    let mut w = world_with(2, 2, &[(1, 1, CellType::Water)]);
    let mut a = vec![0u8; 16];
    let mut b = vec![9u8; 16];
    w.render(&mut a);
    w.render(&mut b);
    assert_eq!(a, b);
}

#[test]
fn plan_columns_tiles_width_with_remainder_last() {
    let r = plan_columns(110, 5, 6);
    assert_eq!(r.len(), 7);
    assert_eq!(r[0], ColumnRange { start: 0, end: 5 });
    for i in 1..6 {
        assert_eq!(r[i].end - r[i].start, 17);
        assert_eq!(r[i].start, r[i - 1].end);
    }
    assert_eq!(r[6], ColumnRange { start: 90, end: 110 });
}

#[test]
fn swap_moves_cells_and_keeps_materials() {
    let w = world_with(2, 2, &[(0, 0, CellType::Sand), (1, 1, CellType::Water)]);
    let mut api = CellsApi::new(w, vec![0u8; 16]);
    api.advance_time();
    api.set_position(0, 0);
    let sand = api.current();
    api.swap_offset(0, -1);
    let (w, pixels) = api.into_parts();
    assert_eq!(material_at(&w, 0, 1), CellType::Sand);
    assert_eq!(material_at(&w, 0, 0), CellType::Air);
    assert_eq!(w.grid[2].updated, 1);
    assert_eq!(w.grid[0].updated, 1);
    assert_eq!(&pixels[8..11], &sand.rgb[..]);
    let mut counts = [0usize; 3];
    for c in &w.grid {
        match c.material {
            CellType::Sand => counts[0] += 1,
            CellType::Water => counts[1] += 1,
            CellType::Air => counts[2] += 1,
            _ => panic!("unexpected material"),
        }
    }
    assert_eq!(counts, [1, 1, 2]);
}

#[test]
fn a_moved_cell_does_not_move_again_in_the_same_tick() {
    let w = world_with(1, 3, &[(0, 0, CellType::Sand)]);
    let mut api = CellsApi::new(w, vec![0u8; 12]);
    api.advance_time();
    api.set_position(0, 0);
    api.swap_offset(0, -1);
    api.set_position(0, 1);
    api.swap_offset(0, -1);
    let (w, _) = api.into_parts();
    assert_eq!(material_at(&w, 0, 1), CellType::Sand);
    assert_eq!(material_at(&w, 0, 2), CellType::Air);
}

#[test]
fn offsets_past_the_edge_read_outside() {
    let w = world_with(2, 2, &[]);
    let mut api = CellsApi::new(w, vec![0u8; 16]);
    api.set_position(0, 0);
    assert_eq!(api.cell_by_offset(-1, 0).material, CellType::Outside);
    assert_eq!(api.cell_by_offset(0, 1).material, CellType::Outside);
    assert_eq!(api.cell_by_offset(1, -1).material, CellType::Air);
    api.set_cell(0, 1, CellType::Stone);
    let (w, _) = api.into_parts();
    assert!(w.grid.iter().all(|c| c.material == CellType::Air));
}

#[test]
fn step_with_sand_sinks_into_water_on_coin() {
    let w = world_with(1, 2, &[(0, 0, CellType::Sand), (0, 1, CellType::Water)]);
    let mut api = CellsApi::new(w, vec![0u8; 8]);
    api.advance_time();
    api.set_position(0, 0);
    let mut r = no_rolls();
    r.side = 1;
    step_with(&mut api, &r);
    assert_eq!(api.world.grid[0].material, CellType::Sand);
    r.coin_a = true;
    step_with(&mut api, &r);
    assert_eq!(api.world.grid[0].material, CellType::Water);
    assert_eq!(api.world.grid[1].material, CellType::Sand);
}

#[test]
fn step_with_fire_ignites_wood_past_heat() {
    let w = world_with(2, 1, &[(0, 0, CellType::Fire), (1, 0, CellType::Wood)]);
    let mut api = CellsApi::new(w, vec![0u8; 8]);
    api.advance_time();
    api.set_position(0, 0);
    let mut r = no_rolls();
    r.threshold = 2000;
    r.dx = 1;
    r.ignite = 100;
    step_with(&mut api, &r);
    assert_eq!(api.world.grid[0].health, 1);
    assert_eq!(api.world.grid[1].material, CellType::Wood);
    assert_eq!(api.world.grid[1].health, 5);
    assert!(api.world.grid[1].discolored);
    r.ignite = 1;
    step_with(&mut api, &r);
    assert_eq!(api.world.grid[1].material, CellType::Fire);
}

#[test]
fn step_with_gas_dissipates_and_fire_meets_water() {
    let w = world_with(2, 1, &[(0, 0, CellType::Gas), (1, 0, CellType::Water)]);
    let mut api = CellsApi::new(w, vec![0u8; 8]);
    api.advance_time();
    api.set_position(0, 0);
    let mut r = no_rolls();
    r.threshold = 0;
    step_with(&mut api, &r);
    assert_eq!(api.world.grid[0].material, CellType::Air);
    api.world.grid[0] = Cell::new(CellType::Fire);
    r.threshold = 2000;
    r.dx = 1;
    step_with(&mut api, &r);
    assert_eq!(api.world.grid[0].material, CellType::Gas);
}

#[test]
fn step_with_water_spreads_sideways() {
    let w = world_with(4, 1, &[(0, 0, CellType::Water)]);
    let mut api = CellsApi::new(w, vec![0u8; 16]);
    api.advance_time();
    api.set_position(0, 0);
    let mut r = no_rolls();
    r.side = 3;
    step_with(&mut api, &r);
    assert_eq!(api.world.grid[3].material, CellType::Water);
    assert_eq!(api.world.grid[0].material, CellType::Air);
}

#[test]
fn cell_colour_lies_in_material_range() {
    for _ in 0..50 {
        let c = Cell::new(CellType::Sand);
        assert!(c.rgb[0] <= 220 && c.rgb[0] >= 204);
        assert!(c.rgb[1] <= 180 && c.rgb[1] >= 164);
        assert!(c.rgb[2] <= 116 && c.rgb[2] >= 100);
    }
    let c = Cell::with_shade(CellType::Fire, 50);
    assert_eq!(c.rgb, [186, 96, 71]);
    let c = Cell::with_shade(CellType::Water, 100);
    assert_eq!(c.rgb, [104, 175, 253]);
}

#[test]
fn center_location_difference() {
    let mut a = CenterLocation { x: 5, y: -2 };
    let d = a.difference(CenterLocation { x: 7, y: 3 });
    assert_eq!(d, CenterLocation { x: -2, y: -5 });
}

#[test]
fn grid_size_limits() {
    assert!(dims_ok_exec(0, 0));
    assert!(dims_ok_exec(600, 400));
    assert!(dims_ok_exec(MAX_SIDE, 1));
    assert!(!dims_ok_exec(MAX_SIDE + 1, 1));
    assert!(!dims_ok_exec(1, MAX_SIDE + 1));
}

#[test]
fn step_with_lava_lights_the_air_below_when_it_cannot_fall() {
    let w = world_with(1, 2, &[(0, 0, CellType::Lava)]);
    let mut api = CellsApi::new(w, vec![0u8; 8]);
    api.advance_time();
    api.world.grid[0].updated = api.world.time;
    api.set_position(0, 0);
    let mut r = no_rolls();
    r.chance = 5;
    step_with(&mut api, &r);
    assert_eq!(api.world.grid[1].material, CellType::Air);
    r.chance = 0;
    step_with(&mut api, &r);
    assert_eq!(api.world.grid[1].material, CellType::Fire);
    assert_eq!(api.world.grid[1].health, 100);
    assert_eq!(api.world.grid[0].material, CellType::Lava);
}

#[test]
fn inert_grid_is_a_fixed_point() {
    let mut w = world_with(4, 3, &[(1, 1, CellType::Stone), (3, 2, CellType::Stone)]);
    let mut pixels: Vec<u8> = (0..48).map(|i| i as u8).collect();
    let before_pixels = pixels.clone();
    let before: Vec<(CellType, [u8; 3], u8)> = w.grid.iter().map(|c| (c.material, c.rgb, c.updated)).collect();
    w.simulate(5, &mut pixels);
    let after: Vec<(CellType, [u8; 3], u8)> = w.grid.iter().map(|c| (c.material, c.rgb, c.updated)).collect();
    assert_eq!(before, after);
    assert_eq!(pixels, before_pixels);
}

#[test]
fn scan_orders() {
    let linear = iter_axis(ScanOrder::Linear, 3, 8);
    assert_eq!(linear, vec![3, 4, 5, 6, 7]);
    let reversed = iter_axis(ScanOrder::Reversed, 0, 4);
    assert_eq!(reversed, vec![3, 2, 1, 0]);
    let mut differs = false;
    for _ in 0..20 {
        let mut s = iter_axis(ScanOrder::LinearShuffled, 0, 50);
        if s != (0..50).collect::<Vec<usize>>() {
            differs = true;
        }
        s.sort();
        assert_eq!(s, (0..50).collect::<Vec<usize>>());
    }
    assert!(differs);
    let mut s = iter_axis(ScanOrder::ReversedShuffled, 10, 12);
    s.sort();
    assert_eq!(s, vec![10, 11]);
}

#[test]
fn drawn_colours_and_air_reset() {
    for _ in 0..20 {
        let rgb = Cell::rgb_ranges(CellType::Stone);
        assert!((110..=131).contains(&rgb[0]));
        assert!((122..=143).contains(&rgb[1]));
        assert!((113..=134).contains(&rgb[2]));
    }
    let mut c = Cell::new(CellType::Lava);
    c.health = 9;
    c.cfg_switch(true);
    assert_eq!(c.material, CellType::Air);
    assert_eq!(c.health, 0);
    assert_eq!(CellType::Air.color(), [[125, 201, 255], [125, 201, 255]]);
}

#[test]
fn new_tick_clears_stale_stamps() {
    let w = world_with(2, 1, &[(0, 0, CellType::Sand)]);
    let mut api = CellsApi::new(w, vec![0u8; 8]);
    api.world.time = 9;
    api.world.grid[0].updated = 10;
    api.world.grid[1].updated = 3;
    api.advance_time();
    assert_eq!(api.world.time, 10);
    assert_eq!(api.world.grid[0].updated, 9);
    assert_eq!(api.world.grid[1].updated, 3);
    api.world.time = 255;
    api.world.grid[1].updated = 0;
    api.advance_time();
    assert_eq!(api.world.time, 0);
    assert_eq!(api.world.grid[1].updated, 255);
}

#[test]
fn a_moved_lava_still_petrifies_water() {
    // Lava stamped by an earlier move this tick cannot move again, but still
    // turns the water beside it into stone.
    let w = world_with(2, 1, &[(0, 0, CellType::Lava), (1, 0, CellType::Water)]);
    let mut api = CellsApi::new(w, vec![0u8; 8]);
    api.advance_time();
    api.world.grid[0].updated = api.world.time;
    api.set_position(0, 0);
    simulate_steps(&mut api);
    assert_eq!(api.world.grid[1].material, CellType::Stone);
    assert_eq!(api.world.grid[1].updated, 0);
    assert_eq!(api.world.grid[0].material, CellType::Lava);
}

#[test]
fn a_moved_fire_still_burns_out() {
    let w = world_with(1, 1, &[(0, 0, CellType::Fire)]);
    let mut api = CellsApi::new(w, vec![0u8; 4]);
    api.advance_time();
    api.world.grid[0].updated = api.world.time;
    api.world.grid[0].health = 5000;
    api.set_position(0, 0);
    simulate_steps(&mut api);
    assert_eq!(api.world.grid[0].material, CellType::Gas);
}

#[test]
fn cloned_cells_take_palette_colours() {
    let mut w = world_with(3, 3, &[(1, 1, CellType::Cloner), (1, 0, CellType::Sand)]);
    w.palette.ranges[2] = [[1, 2, 3], [1, 2, 3]];
    let mut pixels = vec![0u8; 36];
    w.simulate(1, &mut pixels);
    assert_eq!(w.grid[6].material, CellType::Sand);
    assert_eq!(w.grid[6].rgb, [1, 2, 3]);
    assert_eq!(&pixels[24..27], &[1, 2, 3]);
}
