use snad_stack::cells::{Cell, CellType};
use snad_stack::place::{
    Admission, BoundingBox, LineDrawTask, LineDrawTasks, PlaceLineTask, PlaceLineType, Point,
    TaskPlaceAction, TaskState,
};
use snad_stack::sharing::ObjectPool;
use snad_stack::world::World;

fn bx(x0: isize, y0: isize, x1: isize, y1: isize) -> BoundingBox {
    BoundingBox::new(Point::new(x0, y0), Point::new(x1, y1))
}

fn task(variant: PlaceLineType, m: CellType) -> PlaceLineTask {
    PlaceLineTask::new(variant, TaskPlaceAction::PlaceCell(Cell::with_shade(m, 0)))
}

#[test]
fn intersection_is_symmetric_and_strict_at_edges() {
    let a = bx(0, 0, 4, 4);
    let cases = [
        (bx(4, 0, 8, 4), false),
        (bx(0, 4, 4, 8), false),
        (bx(4, 4, 6, 6), false),
        (bx(-2, -2, 0, 0), false),
        (bx(3, 3, 6, 6), true),
        (bx(1, 1, 2, 2), true),
        (bx(-5, 2, 1, 3), true),
    ];
    for (b, expected) in cases {
        assert_eq!(a.intersects(&b), expected, "{:?}", b);
        assert_eq!(b.intersects(&a), expected, "{:?}", b);
    }
    assert!(a.intersects(&a));
    let empty = bx(2, 2, 2, 5);
    assert!(!empty.intersects(&empty));
}

#[test]
fn box_merge_expand_clamp_and_area() {
    let mut a = BoundingBox::point(Point::new(3, 4));
    assert_eq!(a, bx(3, 4, 4, 5));
    a.merge(&BoundingBox::point(Point::new(-1, 7)));
    assert_eq!(a, bx(-1, 4, 4, 8));
    assert_eq!(a.area(), 20);
    let e = a.expand(2);
    assert_eq!(e, bx(-3, 2, 6, 10));
    assert!(e.verify_corners());
    assert!(!bx(2, 0, 1, 0).verify_corners());
    let mut c = e;
    assert!(c.clamp(&bx(0, 0, 5, 5)));
    assert_eq!(c, bx(0, 2, 5, 5));
    assert!(!c.clamp(&bx(0, 0, 5, 5)));
    let huge = bx(isize::MIN, 0, isize::MAX, 4);
    assert_eq!(huge.area(), usize::MAX);
    assert_eq!(bx(isize::MAX - 1, 0, isize::MAX, 1).expand(5).top_right.x, isize::MAX);
}

#[test]
fn shape_boxes_cover_the_shape() {
    let circle = PlaceLineType::Circle(Point::new(5, 5), 2);
    assert_eq!(circle.bounding_box(), bx(3, 3, 8, 8));
    assert_eq!(circle.estimate_compute_work(), 25);
    let lines = PlaceLineType::Lines(vec![Point::new(1, 1), Point::new(6, 3)], 1);
    assert_eq!(lines.bounding_box(), bx(0, 0, 8, 5));
    let rect = PlaceLineType::Rectangle(bx(1, 1, 3, 2));
    assert_eq!(rect.bounding_box(), bx(1, 1, 3, 2));
}

#[test]
fn admission_blocks_overlapping_tasks_until_completion() {
    let mut q = LineDrawTasks::new();
    q.add_task(task(PlaceLineType::Rectangle(bx(0, 0, 4, 4)), CellType::Sand));
    q.add_task(task(PlaceLineType::Rectangle(bx(2, 2, 6, 6)), CellType::Water));
    q.add_task(task(PlaceLineType::Rectangle(bx(10, 10, 12, 12)), CellType::Stone));
    assert_eq!(q.estimate_work(), 16 + 16 + 4);
    let first = match q.remove_task() {
        Admission::Admitted(t) => t,
        _ => panic!("first task should start"),
    };
    assert_eq!(first.index, 0);
    let third = match q.remove_task() {
        Admission::Admitted(t) => t,
        _ => panic!("disjoint task should start"),
    };
    assert_eq!(third.index, 2);
    assert!(matches!(q.remove_task(), Admission::Blocked));
    q.complete(&first);
    let second = match q.remove_task() {
        Admission::Admitted(t) => t,
        _ => panic!("second task should start once the first completes"),
    };
    assert_eq!(second.index, 1);
    assert!(matches!(q.remove_task(), Admission::Idle));
    q.complete(&second);
    q.delete_completed();
    assert_eq!(q.tasks.len(), 1);
    assert_eq!(q.tasks[0].state(), TaskState::InProgress);
}

#[test]
fn in_progress_tasks_never_intersect() {
    let mut q = LineDrawTasks::new();
    for i in 0..6 {
        let x = (i % 3) as isize * 3;
        q.add_task(task(PlaceLineType::Rectangle(bx(x, 0, x + 4, 4)), CellType::Sand));
    }
    while let Admission::Admitted(_) = q.remove_task() {}
    let active: Vec<&PlaceLineTask> =
        q.tasks.iter().filter(|t| t.state() == TaskState::InProgress).collect();
    assert!(!active.is_empty());
    for (i, a) in active.iter().enumerate() {
        for b in active.iter().skip(i + 1) {
            assert!(!a.intersects(b));
        }
    }
}

#[test]
fn running_a_circle_task_writes_the_disc() {
    let mut world = World::new(7, 7, 1);
    let mut pixels = vec![0u8; 7 * 7 * 4];
    let mut q = LineDrawTasks::new();
    q.add_task(task(PlaceLineType::Circle(Point::new(3, 3), 2), CellType::Stone));
    let t = match q.remove_task() {
        Admission::Admitted(t) => t,
        _ => panic!("task should start"),
    };
    t.execute(&mut q, &mut world, &mut pixels);
    assert_eq!(q.tasks[0].state(), TaskState::Completed);
    for y in 0..7i32 {
        for x in 0..7i32 {
            let inside = (x - 3) * (x - 3) + (y - 3) * (y - 3) <= 4;
            let m = world.grid[(y * 7 + x) as usize].material;
            assert_eq!(m == CellType::Stone, inside, "({x}, {y})");
        }
    }
    let stone = Cell::with_shade(CellType::Stone, 0);
    assert_eq!(&pixels[(3 * 7 + 3) * 4..(3 * 7 + 3) * 4 + 3], &stone.rgb[..]);
}

#[test]
fn running_a_line_task_writes_a_stroke() {
    let mut world = World::new(10, 5, 1);
    let mut pixels = vec![0u8; 10 * 5 * 4];
    let mut t = task(PlaceLineType::Lines(vec![Point::new(1, 2), Point::new(8, 2)], 0), CellType::Wood);
    t.set_state(TaskState::InProgress);
    t.run(&mut world, &mut pixels);
    for x in 0..10 {
        for y in 0..5 {
            let m = world.grid[y * 10 + x].material;
            assert_eq!(m == CellType::Wood, y == 2 && (1..=8).contains(&x), "({x}, {y})");
        }
    }
    assert_eq!(t.state(), TaskState::Completed);
}

#[test]
fn rectangle_task_clips_to_the_grid() {
    let mut world = World::new(4, 4, 1);
    let mut pixels = vec![0u8; 64];
    let mut t = task(PlaceLineType::Rectangle(bx(-2, 2, 2, 9)), CellType::Sand);
    t.set_state(TaskState::InProgress);
    t.run(&mut world, &mut pixels);
    let sand: Vec<usize> = (0..16).filter(|&i| world.grid[i].material == CellType::Sand).collect();
    assert_eq!(sand, vec![8, 9, 12, 13]);
}

#[test]
fn place_circle_commits_or_highlights() {
    let mut world = World::new(5, 5, 1);
    let mut pixels = vec![0u8; 100];
    world.place_circle(2, 2, 1, CellType::Water, true, &mut pixels);
    let water: Vec<usize> = (0..25).filter(|&i| world.grid[i].material == CellType::Water).collect();
    assert_eq!(water, vec![7, 11, 12, 13, 17]);
    assert_eq!(pixels[12 * 4 + 3], 255);
    world.place_circle(0, 0, 1, CellType::Sand, false, &mut pixels);
    assert_eq!(world.grid[0].material, CellType::Air);
    assert_eq!(pixels[3], 200);
    assert_eq!(pixels[4 + 3], 200);
    assert_eq!(pixels[5 * 4 + 3], 200);
    assert_eq!(pixels[6 * 4 + 3], 0);
}

#[test]
fn thick_line_stamps_along_the_walked_line() {
    let mut world = World::new(12, 5, 1);
    let mut pixels = vec![0u8; 12 * 5 * 4];
    world.draw_thick_line(1, 2, 9, 2, 1, CellType::Sand, true, false, &mut pixels);
    for x in 1..=9 {
        assert_eq!(world.grid[2 * 12 + x].material, CellType::Sand, "x = {x}");
    }
    assert_eq!(world.grid[2 * 12 + 11].material, CellType::Air);
    assert_eq!(world.grid[0].material, CellType::Air);
}

#[test]
fn thick_line_hover_only_changes_alpha() {
    let mut world = World::new(6, 6, 1);
    let mut pixels = vec![0u8; 6 * 6 * 4];
    let before: Vec<CellType> = world.grid.iter().map(|c| c.material).collect();
    world.draw_thick_line(3, 3, 3, 3, 2, CellType::Stone, false, true, &mut pixels);
    let after: Vec<CellType> = world.grid.iter().map(|c| c.material).collect();
    assert_eq!(before, after);
    assert_eq!(pixels[(3 * 6 + 3) * 4 + 3], 200);
    assert_eq!(pixels[(3 * 6 + 3) * 4], 0);
}

#[test]
fn thick_line_clamps_to_the_edge() {
    let mut world = World::new(3, 3, 1);
    let mut pixels = vec![0u8; 36];
    world.draw_thick_line(-5, 1, -5, 1, 1, CellType::Stone, true, false, &mut pixels);
    assert_eq!(world.grid[3].material, CellType::Stone);
    assert_eq!(world.grid[4].material, CellType::Air);
}

#[test]
fn object_pool_reuses_returned_objects() {
    let mut pool = ObjectPool::new(2, || vec![0u8; 4]);
    let mut a = pool.pop();
    a.data[0] = 7;
    let b = pool.pop();
    let c = pool.pop();
    assert_eq!(c.data, vec![0u8; 4]);
    pool.give_back(a);
    let again = pool.pop();
    assert_eq!(again.data[0], 7);
    let mut held = b;
    held.data[1] = 3;
    pool.give_back(again);
    let old = held.take_and_realloc(&mut pool);
    assert_eq!(old.data[1], 3);
    assert_eq!(held.data[0], 7);
    let _ = LineDrawTask::new(0);
}

#[test]
fn box_cells_run_row_by_row() {
    let cells = bx(2, -1, 4, 2).iter_2d();
    assert_eq!(cells, vec![(2, -1), (3, -1), (2, 0), (3, 0), (2, 1), (3, 1)]);
    assert!(bx(1, 1, 1, 5).iter_2d().is_empty());
}

#[test]
fn running_a_stroke_along_given_points() {
    let mut world = World::new(6, 6, 1);
    let mut pixels = vec![0u8; 6 * 6 * 4];
    let mut t = task(PlaceLineType::Lines(vec![Point::new(0, 0), Point::new(5, 5)], 0), CellType::Stone);
    t.set_state(TaskState::InProgress);
    // Only the given points are stamped, not the diagonal the shape names.
    t.run_along(&vec![(1, 4), (4, 1)], &mut world, &mut pixels);
    let stone: Vec<usize> = (0..36).filter(|&i| world.grid[i].material == CellType::Stone).collect();
    assert_eq!(stone, vec![6 + 4, 4 * 6 + 1]);
    assert_eq!(t.state(), TaskState::Completed);
}
