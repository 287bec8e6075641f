use falling_sand::{
    fall_at, is_free, update_sand, user_input_sand, BitArray2D, BoolSource, Fall, Mouse, UserMode,
};
use rand::Rng;

struct ThreadSource(rand::rngs::ThreadRng);

impl BoolSource for ThreadSource {
    fn next_bool(&mut self) -> bool {
        self.0.gen::<bool>()
    }
}

struct Fixed(bool);

impl BoolSource for Fixed {
    fn next_bool(&mut self) -> bool {
        self.0
    }
}

struct Counting {
    calls: usize,
    answer: bool,
}

impl BoolSource for Counting {
    fn next_bool(&mut self) -> bool {
        self.calls += 1;
        self.answer
    }
}

fn grid_of(width: usize, height: usize, cells: &[(usize, usize)]) -> BitArray2D {
    let mut grid = BitArray2D::new(width, height);
    for &(x, y) in cells {
        grid.set(x, y, true);
    }
    grid
}

fn cells_of(grid: &BitArray2D) -> Vec<(usize, usize)> {
    let mut cursor = grid.iter_true();
    let mut cells = Vec::new();
    while let Some(cell) = cursor.next() {
        cells.push(cell);
    }
    cells
}

#[test]
fn grain_with_free_cell_below_falls_straight_down() {
    let sand = grid_of(3, 3, &[(1, 1)]);
    let mut rng = Counting { calls: 0, answer: true };
    let next = update_sand(&sand, &mut rng);
    assert_eq!(cells_of(&next), vec![(1, 0)]);
    assert_eq!(next.get(1, 1), Some(false));
    assert_eq!(rng.calls, 0);
    assert_eq!(next.width(), 3);
    assert_eq!(next.height(), 3);
}

#[test]
fn blocked_grain_slides_left_when_the_toss_says_left() {
    let sand = grid_of(3, 3, &[(1, 1), (1, 0)]);
    let next = update_sand(&sand, &mut Fixed(true));
    assert_eq!(cells_of(&next), vec![(0, 0), (1, 0)]);
    assert_eq!(next.get(1, 1), Some(false));
}

#[test]
fn blocked_grain_slides_right_when_the_toss_says_right() {
    let sand = grid_of(3, 3, &[(1, 1), (1, 0)]);
    let next = update_sand(&sand, &mut Fixed(false));
    assert_eq!(cells_of(&next), vec![(1, 0), (2, 0)]);
    assert_eq!(next.get(1, 1), Some(false));
}

#[test]
fn blocked_grain_slides_to_one_side_with_the_thread_generator() {
    let sand = grid_of(3, 3, &[(1, 1), (1, 0)]);
    let mut rng = ThreadSource(rand::thread_rng());
    for _ in 0..50 {
        let next = update_sand(&sand, &mut rng);
        let left = next.get(0, 0) == Some(true);
        let right = next.get(2, 0) == Some(true);
        assert!(left != right);
        assert_eq!(next.get(1, 1), Some(false));
        assert_eq!(next.get(1, 0), Some(true));
        assert_eq!(cells_of(&next).len(), 2);
    }
}

#[test]
fn the_source_is_asked_once_for_each_contested_grain() {
    let sand = grid_of(7, 3, &[(1, 0), (1, 1), (5, 0), (5, 1), (3, 2)]);
    let mut rng = Counting { calls: 0, answer: false };
    let next = update_sand(&sand, &mut rng);
    assert_eq!(rng.calls, 2);
    assert_eq!(cells_of(&next), vec![(1, 0), (2, 0), (5, 0), (6, 0), (3, 1)]);
}

#[test]
fn update_leaves_the_grid_it_reads_as_it_is() {
    let sand = grid_of(3, 3, &[(1, 1), (1, 0), (2, 2)]);
    let before = cells_of(&sand);
    let _ = update_sand(&sand, &mut Fixed(true));
    assert_eq!(cells_of(&sand), before);
}

#[test]
fn sand_on_the_floor_does_not_move() {
    let sand = grid_of(4, 3, &[(0, 0), (2, 0), (3, 0)]);
    let next = update_sand(&sand, &mut Fixed(true));
    assert_eq!(cells_of(&next), vec![(0, 0), (2, 0), (3, 0)]);
    let again = update_sand(&next, &mut Fixed(false));
    assert_eq!(cells_of(&again), vec![(0, 0), (2, 0), (3, 0)]);
}

#[test]
fn empty_grid_stays_empty() {
    let sand = BitArray2D::new(3, 3);
    let next = update_sand(&sand, &mut Fixed(true));
    assert_eq!(cells_of(&next), Vec::<(usize, usize)>::new());
}

#[test]
fn grains_that_do_not_collide_are_all_kept() {
    let sand = grid_of(5, 4, &[(0, 0), (1, 0), (1, 1), (3, 2), (4, 3), (2, 3)]);
    let next = update_sand(&sand, &mut Fixed(false));
    assert_eq!(cells_of(&next), vec![(0, 0), (1, 0), (2, 0), (3, 1), (2, 2), (4, 2)]);
    assert_eq!(cells_of(&next).len(), cells_of(&sand).len());
}

#[test]
fn two_grains_that_move_to_one_cell_become_one() {
    let sand = grid_of(2, 2, &[(0, 0), (0, 1), (1, 1)]);
    let next = update_sand(&sand, &mut Fixed(true));
    assert_eq!(cells_of(&next), vec![(0, 0), (1, 0)]);
}

#[test]
fn single_grain_at_the_left_edge_falls_straight_down() {
    for y in 1..4 {
        let sand = grid_of(3, 4, &[(0, y)]);
        let next = update_sand(&sand, &mut Fixed(true));
        assert_eq!(cells_of(&next), vec![(0, y - 1)]);
    }
}

#[test]
fn blocked_grain_at_the_left_edge_slides_right() {
    let sand = grid_of(3, 3, &[(0, 0), (0, 1)]);
    let mut rng = Counting { calls: 0, answer: true };
    let next = update_sand(&sand, &mut rng);
    assert_eq!(cells_of(&next), vec![(0, 0), (1, 0)]);
    assert_eq!(rng.calls, 0);
}

#[test]
fn blocked_grain_at_the_left_edge_rests_when_the_diagonal_is_taken() {
    let sand = grid_of(3, 3, &[(0, 0), (1, 0), (0, 1)]);
    let next = update_sand(&sand, &mut Fixed(true));
    assert_eq!(cells_of(&next), vec![(0, 0), (1, 0), (0, 1)]);
}

#[test]
fn blocked_grain_at_the_right_edge_slides_left() {
    let sand = grid_of(3, 3, &[(2, 0), (2, 1)]);
    let mut rng = Counting { calls: 0, answer: false };
    let next = update_sand(&sand, &mut rng);
    assert_eq!(cells_of(&next), vec![(1, 0), (2, 0)]);
    assert_eq!(rng.calls, 0);
}

#[test]
fn blocked_grain_at_the_right_edge_rests_when_the_diagonal_is_taken() {
    let sand = grid_of(3, 3, &[(1, 0), (2, 0), (2, 1)]);
    let next = update_sand(&sand, &mut Fixed(false));
    assert_eq!(cells_of(&next), vec![(1, 0), (2, 0), (2, 1)]);
}

#[test]
fn interior_grain_takes_the_only_free_diagonal() {
    let left_free = grid_of(3, 2, &[(1, 0), (2, 0), (1, 1)]);
    assert_eq!(cells_of(&update_sand(&left_free, &mut Fixed(false))), vec![(0, 0), (1, 0), (2, 0)]);
    let right_free = grid_of(3, 2, &[(0, 0), (1, 0), (1, 1)]);
    assert_eq!(cells_of(&update_sand(&right_free, &mut Fixed(true))), vec![(0, 0), (1, 0), (2, 0)]);
}

#[test]
fn interior_grain_rests_when_nothing_below_is_free() {
    let sand = grid_of(3, 2, &[(0, 0), (1, 0), (2, 0), (1, 1)]);
    let next = update_sand(&sand, &mut Fixed(true));
    assert_eq!(cells_of(&next), vec![(0, 0), (1, 0), (2, 0), (1, 1)]);
}

#[test]
fn column_of_width_one_only_falls_straight() {
    let sand = grid_of(1, 4, &[(0, 0), (0, 1), (0, 3)]);
    let next = update_sand(&sand, &mut Fixed(true));
    assert_eq!(cells_of(&next), vec![(0, 0), (0, 1), (0, 2)]);
}

#[test]
fn grid_of_height_one_is_all_floor() {
    let sand = grid_of(4, 1, &[(0, 0), (3, 0)]);
    let next = update_sand(&sand, &mut Fixed(true));
    assert_eq!(cells_of(&next), vec![(0, 0), (3, 0)]);
}

#[test]
fn step_without_contested_grain_does_not_depend_on_the_source() {
    let sand = grid_of(4, 4, &[(0, 0), (0, 1), (3, 0), (3, 1), (1, 3), (2, 2)]);
    let mut lefts = Counting { calls: 0, answer: true };
    let mut rights = Counting { calls: 0, answer: false };
    let a = update_sand(&sand, &mut lefts);
    let b = update_sand(&sand, &mut rights);
    let c = update_sand(&sand, &mut ThreadSource(rand::thread_rng()));
    assert_eq!(lefts.calls, 0);
    assert_eq!(rights.calls, 0);
    assert_eq!(cells_of(&a), cells_of(&b));
    assert_eq!(cells_of(&a), cells_of(&c));
    assert_eq!(cells_of(&a), vec![(0, 0), (1, 0), (2, 0), (3, 0), (2, 1), (1, 2)]);
}

#[test]
fn a_pile_settles_over_several_steps() {
    let mut sand = grid_of(3, 4, &[(1, 0), (1, 1), (1, 3)]);
    sand = update_sand(&sand, &mut Fixed(true));
    assert_eq!(cells_of(&sand), vec![(0, 0), (1, 0), (1, 2)]);
    sand = update_sand(&sand, &mut Fixed(true));
    assert_eq!(cells_of(&sand), vec![(0, 0), (1, 0), (1, 1)]);
    sand = update_sand(&sand, &mut Fixed(true));
    assert_eq!(cells_of(&sand), vec![(0, 0), (1, 0), (2, 0)]);
    sand = update_sand(&sand, &mut Fixed(true));
    assert_eq!(cells_of(&sand), vec![(0, 0), (1, 0), (2, 0)]);
}

#[test]
fn fall_at_names_the_move_of_each_grain() {
    let sand = grid_of(5, 3, &[(0, 0), (0, 1), (2, 0), (2, 1), (4, 0), (4, 1), (3, 0), (1, 2)]);
    assert_eq!(fall_at(&sand, 0, 0), Fall::Rest);
    assert_eq!(fall_at(&sand, 0, 1), Fall::Right);
    assert_eq!(fall_at(&sand, 2, 1), Fall::Left);
    assert_eq!(fall_at(&sand, 4, 1), Fall::Rest);
    assert_eq!(fall_at(&sand, 1, 2), Fall::Down);
    let pile = grid_of(3, 2, &[(1, 0), (1, 1)]);
    assert_eq!(fall_at(&pile, 1, 1), Fall::Either);
    let right_only = grid_of(3, 2, &[(0, 0), (1, 0), (1, 1)]);
    assert_eq!(fall_at(&right_only, 1, 1), Fall::Right);
    let right_edge = grid_of(3, 2, &[(2, 0), (2, 1)]);
    assert_eq!(fall_at(&right_edge, 2, 1), Fall::Left);
}

#[test]
fn destination_of_each_move() {
    assert_eq!(Fall::Rest.destination(4, 7, true), (4, 7));
    assert_eq!(Fall::Rest.destination(0, 0, false), (0, 0));
    assert_eq!(Fall::Down.destination(4, 7, true), (4, 6));
    assert_eq!(Fall::Left.destination(4, 7, false), (3, 6));
    assert_eq!(Fall::Right.destination(4, 7, true), (5, 6));
    assert_eq!(Fall::Either.destination(4, 7, true), (3, 6));
    assert_eq!(Fall::Either.destination(4, 7, false), (5, 6));
}

#[test]
fn is_free_wants_a_cell_of_the_grid_that_is_empty() {
    let sand = grid_of(3, 3, &[(1, 1)]);
    assert!(is_free(&sand, 0, 0));
    assert!(!is_free(&sand, 1, 1));
    assert!(!is_free(&sand, 3, 0));
    assert!(!is_free(&sand, 0, 3));
    assert!(!is_free(&sand, usize::MAX, 0));
}

#[test]
fn add_mode_fills_the_cell_under_the_pointer() {
    let mut sand = BitArray2D::new(3, 3);
    let mouse = Mouse { grid_pos: (2, 1), left_button_pressed: true };
    user_input_sand(&mut sand, &mouse, &UserMode::Add);
    assert_eq!(cells_of(&sand), vec![(2, 1)]);
    user_input_sand(&mut sand, &mouse, &UserMode::Add);
    assert_eq!(cells_of(&sand), vec![(2, 1)]);
}

#[test]
fn subtract_mode_empties_the_cell_under_the_pointer() {
    let mut sand = grid_of(3, 3, &[(2, 1), (0, 0)]);
    let mouse = Mouse { grid_pos: (2, 1), left_button_pressed: true };
    user_input_sand(&mut sand, &mouse, &UserMode::Subtract);
    assert_eq!(cells_of(&sand), vec![(0, 0)]);
    user_input_sand(&mut sand, &mouse, &UserMode::Subtract);
    assert_eq!(cells_of(&sand), vec![(0, 0)]);
}

#[test]
fn released_button_changes_nothing() {
    let mut sand = grid_of(3, 3, &[(2, 1)]);
    let over_sand = Mouse { grid_pos: (2, 1), left_button_pressed: false };
    let over_air = Mouse { grid_pos: (0, 0), left_button_pressed: false };
    user_input_sand(&mut sand, &over_sand, &UserMode::Subtract);
    user_input_sand(&mut sand, &over_air, &UserMode::Add);
    assert_eq!(cells_of(&sand), vec![(2, 1)]);
}

#[test]
fn pointer_outside_the_grid_changes_nothing() {
    let mut sand = grid_of(3, 3, &[(0, 1)]);
    for pos in [(3, 0), (0, 3), (3, 3), (usize::MAX, 0), (0, usize::MAX)] {
        let mouse = Mouse { grid_pos: pos, left_button_pressed: true };
        user_input_sand(&mut sand, &mouse, &UserMode::Add);
        user_input_sand(&mut sand, &mouse, &UserMode::Subtract);
        assert_eq!(cells_of(&sand), vec![(0, 1)]);
    }
}

#[test]
fn edit_is_seen_by_the_step_that_follows() {
    let mut sand = BitArray2D::new(3, 3);
    let mouse = Mouse { grid_pos: (1, 2), left_button_pressed: true };
    user_input_sand(&mut sand, &mouse, &UserMode::Add);
    let next = update_sand(&sand, &mut Fixed(true));
    assert_eq!(cells_of(&next), vec![(1, 1)]);
}

#[test]
fn default_mouse_is_released_over_the_origin() {
    let mouse = Mouse::default();
    assert_eq!(mouse.grid_pos, (0, 0));
    assert!(!mouse.left_button_pressed);
}
