use piet::direction::Direction;

#[test]
fn to_vector_points_with_y_downward() {
    assert_eq!(Direction::Right.to_vector(), (1, 0));
    assert_eq!(Direction::Down.to_vector(), (0, 1));
    assert_eq!(Direction::Left.to_vector(), (-1, 0));
    assert_eq!(Direction::Up.to_vector(), (0, -1));
}

#[test]
fn rotations_go_round_the_four_directions() {
    let cycle = [Direction::Right, Direction::Down, Direction::Left, Direction::Up];
    for i in 0..4 {
        assert_eq!(cycle[i].rotate_clockwise(), cycle[(i + 1) % 4]);
        assert_eq!(cycle[i].rotate_anticlockwise(), cycle[(i + 3) % 4]);
        assert_eq!(cycle[i].rotate_clockwise().rotate_anticlockwise(), cycle[i]);
    }
}

#[test]
fn rotate_by_a_number_counts_quarter_turns() {
    assert_eq!(Direction::Right.rotate(1), Direction::Down);
    assert_eq!(Direction::Up.rotate(1), Direction::Right);
    assert_eq!(Direction::Down.rotate(-2), Direction::Up);
    assert_eq!(Direction::Left.rotate(-7), Direction::Up);
    assert_eq!(Direction::Left.rotate(i32::MIN), Direction::Left);
    assert_eq!(Direction::Left.rotate(i32::MAX), Direction::Down);
    for n in [-9, -4, 0, 3, 1000] {
        assert_eq!(Direction::Down.rotate(n).rotate(-n), Direction::Down);
    }
}

#[test]
fn toggle_counts_by_parity() {
    assert_eq!(Direction::Left.toggle(1), Direction::Right);
    assert_eq!(Direction::Right.toggle(1), Direction::Left);
    assert_eq!(Direction::Left.toggle(2), Direction::Left);
    assert_eq!(Direction::Left.toggle(-3), Direction::Right);
    assert_eq!(Direction::Right.toggle(0), Direction::Right);
}
