use piet::block::{choose_codel, exit_codel, find_block};
use piet::color::{ColorName, PietColor};
use piet::command::{Command, Effect};
use piet::grid::is_valid_grid;
use piet::interpreter::{Direction, PietProgram, Status, Step};
use piet::translator::Translator;

fn name_of(code: &str) -> ColorName {
    match code {
        "K" => ColorName::Black,
        "W" => ColorName::White,
        "R" => ColorName::Red,
        "Y" => ColorName::Yellow,
        "G" => ColorName::Green,
        "C" => ColorName::Cyan,
        "B" => ColorName::Blue,
        "M" => ColorName::Magenta,
        "dR" => ColorName::DarkRed,
        "dY" => ColorName::DarkYellow,
        "dG" => ColorName::DarkGreen,
        "dC" => ColorName::DarkCyan,
        "dB" => ColorName::DarkBlue,
        "dM" => ColorName::DarkMagenta,
        "lR" => ColorName::LightRed,
        "lY" => ColorName::LightYellow,
        "lG" => ColorName::LightGreen,
        "lC" => ColorName::LightCyan,
        "lB" => ColorName::LightBlue,
        "lM" => ColorName::LightMagenta,
        _ => panic!("no such colour: {}", code),
    }
}

fn grid(rows: &[&str]) -> Vec<Vec<PietColor>> {
    rows.iter()
        .map(|row| row.split_whitespace().map(|code| PietColor::of_name(name_of(code))).collect())
        .collect()
}

fn program(rows: &[&str]) -> PietProgram {
    let g = grid(rows);
    assert!(is_valid_grid(&g));
    PietProgram::new(g, String::new())
}

fn sorted(mut cells: Vec<(i32, i32)>) -> Vec<(i32, i32)> {
    cells.sort();
    cells
}

#[test]
fn is_valid_grid_wants_a_full_rectangle_of_well_formed_colours() {
    assert!(is_valid_grid(&grid(&["R"])));
    assert!(is_valid_grid(&grid(&["R Y", "K W"])));
    assert!(!is_valid_grid(&Vec::new()));
    assert!(!is_valid_grid(&vec![Vec::new()]));
    assert!(!is_valid_grid(&grid(&["R Y", "K"])));
    assert!(!is_valid_grid(&grid(&["R", "K W"])));
    assert!(!is_valid_grid(&vec![vec![PietColor::new(ColorName::Red, 0, 0)]]));
    assert!(!is_valid_grid(&vec![vec![PietColor::new(ColorName::Red, 1, 1)]]));
    assert!(!is_valid_grid(&vec![vec![PietColor::new(ColorName::White, 1, 0)]]));
}

#[test]
fn find_block_gives_the_connected_region() {
    let g = grid(&[
        "R R K R",
        "K R K R",
        "R R R K",
        "Y K R R",
    ]);
    let block = sorted(find_block(&g, (0, 0)));
    assert_eq!(block, vec![(0, 0), (0, 2), (1, 0), (1, 1), (1, 2), (2, 2), (2, 3), (3, 3)]);
    assert_eq!(sorted(find_block(&g, (3, 3))), block);
    assert_eq!(sorted(find_block(&g, (3, 0))), vec![(3, 0), (3, 1)]);
    assert_eq!(sorted(find_block(&g, (0, 3))), vec![(0, 3)]);
    assert_eq!(sorted(find_block(&g, (2, 0))), vec![(2, 0), (2, 1)]);
    assert_eq!(sorted(find_block(&g, (1, 3))), vec![(1, 3)]);
}

#[test]
fn find_block_does_not_join_across_a_corner() {
    let g = grid(&["R K", "K R"]);
    assert_eq!(find_block(&g, (0, 0)), vec![(0, 0)]);
    assert_eq!(find_block(&g, (1, 1)), vec![(1, 1)]);
}

#[test]
fn find_block_tells_shades_apart() {
    let g = grid(&["R dR lR R"]);
    assert_eq!(find_block(&g, (0, 0)), vec![(0, 0)]);
    assert_eq!(find_block(&g, (3, 0)), vec![(3, 0)]);
}

#[test]
fn find_block_is_the_same_on_every_call() {
    let g = grid(&["G G G", "G K G", "G G G"]);
    let first = find_block(&g, (1, 0));
    assert_eq!(first.len(), 8);
    assert_eq!(find_block(&g, (1, 0)), first);
    assert_eq!(sorted(find_block(&g, (2, 2))), sorted(first));
}

#[test]
fn find_block_covers_a_whole_grid_of_one_colour() {
    let g = vec![vec![PietColor::of_name(ColorName::Blue); 40]; 30];
    assert_eq!(find_block(&g, (17, 11)).len(), 1200);
}

#[test]
fn choose_codel_follows_the_table() {
    assert_eq!(choose_codel(Direction::Right, Direction::Left), Direction::Up);
    assert_eq!(choose_codel(Direction::Right, Direction::Right), Direction::Down);
    assert_eq!(choose_codel(Direction::Down, Direction::Left), Direction::Right);
    assert_eq!(choose_codel(Direction::Down, Direction::Right), Direction::Left);
    assert_eq!(choose_codel(Direction::Left, Direction::Left), Direction::Down);
    assert_eq!(choose_codel(Direction::Left, Direction::Right), Direction::Up);
    assert_eq!(choose_codel(Direction::Up, Direction::Left), Direction::Left);
    assert_eq!(choose_codel(Direction::Up, Direction::Right), Direction::Right);
}

#[test]
fn exit_codel_is_the_furthest_on_the_furthest_edge() {
    // A plus sign with one arm longer to the right and one longer downward.
    let block = vec![(2, 0), (2, 1), (0, 2), (1, 2), (2, 2), (3, 2), (4, 2), (2, 3), (2, 4), (4, 1), (1, 4)];
    assert_eq!(exit_codel(&block, Direction::Right, Direction::Left), (4, 1));
    assert_eq!(exit_codel(&block, Direction::Right, Direction::Right), (4, 2));
    assert_eq!(exit_codel(&block, Direction::Down, Direction::Left), (2, 4));
    assert_eq!(exit_codel(&block, Direction::Down, Direction::Right), (1, 4));
    assert_eq!(exit_codel(&block, Direction::Left, Direction::Left), (0, 2));
    assert_eq!(exit_codel(&block, Direction::Left, Direction::Right), (0, 2));
    assert_eq!(exit_codel(&block, Direction::Up, Direction::Left), (2, 0));
    assert_eq!(exit_codel(&block, Direction::Up, Direction::Right), (2, 0));
    let square = vec![(1, 1), (0, 0), (1, 0), (0, 1)];
    assert_eq!(exit_codel(&square, Direction::Right, Direction::Left), (1, 0));
    assert_eq!(exit_codel(&square, Direction::Right, Direction::Right), (1, 1));
    assert_eq!(exit_codel(&square, Direction::Down, Direction::Left), (1, 1));
    assert_eq!(exit_codel(&square, Direction::Down, Direction::Right), (0, 1));
    assert_eq!(exit_codel(&square, Direction::Left, Direction::Left), (0, 1));
    assert_eq!(exit_codel(&square, Direction::Left, Direction::Right), (0, 0));
    assert_eq!(exit_codel(&square, Direction::Up, Direction::Left), (0, 0));
    assert_eq!(exit_codel(&square, Direction::Up, Direction::Right), (1, 0));
}

#[test]
fn a_new_program_starts_in_the_corner() {
    let p = program(&["R Y", "G B"]);
    assert_eq!(p.position(), (0, 0));
    assert_eq!(p.direction_pointer(), Direction::Right);
    assert_eq!(p.codel_chooser(), Direction::Left);
    assert_eq!(p.get_current_value(), 0);
    assert_eq!(p.steps(), 0);
    assert!(p.stack.is_empty());
    assert!(p.translator().is_none());
    assert_eq!(p.get_color(&(1, 0)).name, ColorName::Yellow);
    assert_eq!(p.get_color(&(0, 1)), PietColor::of_name(ColorName::Green));
}

#[test]
fn a_new_program_holds_its_input_on_the_stack() {
    let p = PietProgram::new(grid(&["R"]), String::from("Hi\u{e9}"));
    assert_eq!(p.stack.to_vec(), vec![72, 105, 233]);
}

#[test]
fn the_pointer_and_the_chooser_can_be_moved_by_hand() {
    let mut p = program(&["R"]);
    p.move_pointer_clockwise();
    assert_eq!(p.direction_pointer(), Direction::Down);
    p.move_pointer_anticlockwise();
    p.move_pointer_anticlockwise();
    assert_eq!(p.direction_pointer(), Direction::Up);
    p.toggle_codel_chooser();
    assert_eq!(p.codel_chooser(), Direction::Right);
    p.toggle_codel_chooser();
    assert_eq!(p.codel_chooser(), Direction::Left);
    p.turn_pointer(-3);
    assert_eq!(p.direction_pointer(), Direction::Right);
    p.switch_chooser(5);
    assert_eq!(p.codel_chooser(), Direction::Right);
    assert_eq!(p.choose_codel(), Direction::Down);
}

#[test]
fn next_position_and_edge_look_one_codel_ahead() {
    let mut p = program(&["R K", "Y W"]);
    assert_eq!(p.get_next_position(), Some((1, 0)));
    assert!(p.next_is_edge());
    p.move_pointer_clockwise();
    assert_eq!(p.get_next_position(), Some((0, 1)));
    assert!(!p.next_is_edge());
    p.move_pointer_clockwise();
    assert_eq!(p.get_next_position(), Some((-1, 0)));
    assert!(p.next_is_edge());
    p.move_pointer_clockwise();
    assert_eq!(p.get_next_position(), Some((0, -1)));
    assert!(p.next_is_edge());
}

#[test]
fn a_single_codel_ends_the_program_at_once() {
    let mut p = program(&["R"]);
    assert_eq!(p.step(), Step::Halt);
    assert_eq!(p.get_current_value(), 1);
    assert_eq!(p.direction_pointer(), Direction::Right);
    assert_eq!(p.codel_chooser(), Direction::Left);
    let mut p = program(&["R"]);
    assert_eq!(p.run(100), Status::Finished);
    assert!(p.stack.is_empty());
    assert_eq!(p.steps(), 0);
    assert_eq!(p.position(), (0, 0));
}

#[test]
fn red_to_yellow_adds_on_an_empty_stack() {
    let mut p = program(&["R Y"]);
    assert_eq!(p.step(), Step::Run(Command::Add, Effect::Nothing));
    assert!(p.stack.is_empty());
    assert_eq!(p.position(), (1, 0));
    assert_eq!(p.get_current_value(), 1);
    let mut p = program(&["R Y"]);
    assert_eq!(p.execute(None, 1, 100), Status::CapReached);
    assert!(p.stack.is_empty());
    assert_eq!(p.steps(), 1);
}

#[test]
fn a_new_program_starts_in_the_corner_even_on_white() {
    let p = program(&["W W R Y"]);
    assert_eq!(p.position(), (0, 0));
    assert_eq!(p.direction_pointer(), Direction::Right);
    assert_eq!(p.codel_chooser(), Direction::Left);
    assert!(p.stack.is_empty());
    let p = program(&["W"]);
    assert_eq!(p.position(), (0, 0));
}

#[test]
fn a_white_start_is_glided_over_without_an_instruction() {
    let mut p = program(&["W W R Y"]);
    let t = Translator::new(String::from("out.f"), "");
    // With no budget the run only makes its start: the glide.
    assert_eq!(p.execute(Some(t), -1, 0), Status::Paused);
    assert_eq!(p.position(), (2, 0));
    assert!(p.stack.is_empty());
    assert_eq!(p.steps(), 0);
    assert_eq!(p.get_current_value(), 0);
    assert_eq!(p.translator().as_ref().unwrap().text(), "\n");
    // Then the program continues from the red codel.
    assert_eq!(p.step(), Step::Run(Command::Add, Effect::Nothing));
    assert_eq!(p.position(), (3, 0));
}

#[test]
fn a_start_that_is_not_white_is_not_glided_over() {
    let mut p = program(&["R W Y"]);
    assert_eq!(p.execute(None, -1, 0), Status::Paused);
    assert_eq!(p.position(), (0, 0));
    let mut p = program(&["K W Y"]);
    assert_eq!(p.execute(None, -1, 5), Status::Finished);
    assert_eq!(p.position(), (0, 0));
}

#[test]
fn a_run_without_a_start_leaves_a_white_corner_as_it_leaves_a_block() {
    let mut p = program(&["W W R Y"]);
    assert_eq!(p.step(), Step::Glide);
    assert_eq!(p.position(), (2, 0));
    assert!(p.stack.is_empty());
}

#[test]
fn entering_white_glides_to_the_next_colour_without_an_instruction() {
    let mut p = program(&["R W W dR"]);
    p.stack.push(9);
    assert_eq!(p.step(), Step::Glide);
    assert_eq!(p.position(), (3, 0));
    assert_eq!(p.stack.to_vec(), vec![9]);
    assert_eq!(p.get_current_value(), 1);
}

#[test]
fn a_glide_that_strikes_black_stays_on_white() {
    let mut p = program(&["R W W K", "K K Y K"]);
    assert_eq!(p.step(), Step::Glide);
    assert_eq!(p.position(), (2, 0));
    // From white the fourth attempt finds the way down; leaving white runs
    // nothing.
    assert_eq!(p.step(), Step::Glide);
    assert_eq!(p.position(), (2, 1));
    assert_eq!(p.direction_pointer(), Direction::Down);
    assert_eq!(p.codel_chooser(), Direction::Left);
    assert!(p.stack.is_empty());
}

#[test]
fn a_glide_that_strikes_the_border_stays_on_white() {
    let mut p = program(&["W W W"]);
    assert_eq!(p.execute(None, -1, 0), Status::Paused);
    assert_eq!(p.position(), (2, 0));
    assert_eq!(p.step(), Step::Halt);
    assert_eq!(p.run(10), Status::Finished);
    let mut p = program(&["W W W"]);
    assert_eq!(p.execute(None, -1, 10), Status::Finished);
    assert_eq!(p.position(), (2, 0));
    assert_eq!(p.steps(), 0);
}

#[test]
fn glide_can_be_called_from_any_codel() {
    let mut p = program(&["R W K"]);
    p.glide();
    assert_eq!(p.position(), (1, 0));
    let mut p = program(&["R Y"]);
    p.glide();
    assert_eq!(p.position(), (1, 0));
    let mut p = program(&["R K"]);
    p.glide();
    assert_eq!(p.position(), (0, 0));
}

#[test]
fn a_black_start_ends_the_program() {
    let mut p = program(&["K R"]);
    assert_eq!(p.step(), Step::Halt);
    assert_eq!(p.position(), (0, 0));
    assert_eq!(p.get_current_value(), 0);
}

#[test]
fn recovery_toggles_the_chooser_first() {
    let mut p = program(&["R K", "R Y"]);
    assert_eq!(p.step(), Step::Run(Command::Add, Effect::Nothing));
    assert_eq!(p.position(), (1, 1));
    assert_eq!(p.direction_pointer(), Direction::Right);
    assert_eq!(p.codel_chooser(), Direction::Right);
    assert_eq!(p.get_current_value(), 2);
}

#[test]
fn recovery_then_turns_the_pointer_clockwise() {
    let mut p = program(&["R K", "Y K"]);
    assert_eq!(p.step(), Step::Run(Command::Add, Effect::Nothing));
    assert_eq!(p.position(), (0, 1));
    assert_eq!(p.direction_pointer(), Direction::Down);
    assert_eq!(p.codel_chooser(), Direction::Right);
}

#[test]
fn recovery_gives_up_after_eight_attempts() {
    let g = grid(&["R R K", "K K K"]);
    let mut p = PietProgram::new(g.clone(), String::new());
    p.turn_pointer(2);
    p.toggle_codel_chooser();
    assert_eq!(p.encounter_edge(&find_block(&g, (0, 0))), None);
    assert_eq!(p.direction_pointer(), Direction::Left);
    assert_eq!(p.codel_chooser(), Direction::Right);
    assert_eq!(p.position(), (0, 0));
    assert_eq!(p.step(), Step::Halt);
    assert_eq!(p.get_current_value(), 2);
}

#[test]
fn encounter_edge_gives_the_exit_of_the_first_attempt_that_works() {
    let g = grid(&["R R K", "K R K", "K Y K"]);
    let mut p = PietProgram::new(g.clone(), String::new());
    let block = find_block(&g, (0, 0));
    assert_eq!(p.encounter_edge(&block), Some((1, 1)));
    assert_eq!(p.direction_pointer(), Direction::Down);
    assert_eq!(p.codel_chooser(), Direction::Right);
    let g = grid(&["R R R", "K K Y"]);
    let mut p = PietProgram::new(g.clone(), String::new());
    let block = find_block(&g, (0, 0));
    assert_eq!(p.encounter_edge(&block), Some((2, 0)));
    assert_eq!(p.direction_pointer(), Direction::Down);
}

#[test]
fn the_eighth_attempt_is_still_tried() {
    // With the pointer down and the chooser left, the attempts go
    // down/left, down/right, left/right, left/left, up/left, up/right,
    // right/right and at last right/left, the only one with a way out.
    let g = grid(&["R Y", "R K"]);
    let mut p = PietProgram::new(g.clone(), String::new());
    p.turn_pointer(1);
    let block = find_block(&g, (0, 0));
    assert_eq!(p.encounter_edge(&block), Some((0, 0)));
    assert_eq!(p.direction_pointer(), Direction::Right);
    assert_eq!(p.codel_chooser(), Direction::Left);
    let mut p = PietProgram::new(g, String::new());
    p.turn_pointer(1);
    assert_eq!(p.step(), Step::Run(Command::Add, Effect::Nothing));
    assert_eq!(p.position(), (1, 0));
}

#[test]
fn push_pushes_the_size_of_the_block_left() {
    let mut p = program(&["R R dR", "R K K"]);
    assert_eq!(p.step(), Step::Run(Command::Push, Effect::Nothing));
    assert_eq!(p.stack.to_vec(), vec![3]);
    assert_eq!(p.get_current_value(), 3);
    assert_eq!(p.position(), (2, 0));
}

#[test]
fn a_small_program_prints_a_number_and_ends() {
    let mut p = program(&["R R dR lM", "K K lM lM"]);
    assert_eq!(p.run(100), Status::Needs(Effect::OutNumber(2)));
    assert!(p.stack.is_empty());
    assert_eq!(p.steps(), 2);
    assert_eq!(p.run(100), Status::Finished);
    assert_eq!(p.steps(), 2);
    assert_eq!(p.position(), (3, 0));
    assert!(p.stack.is_empty());
}

#[test]
fn a_program_prints_a_letter() {
    let mut top = vec![PietColor::of_name(ColorName::Red); 72];
    top.push(PietColor::of_name(ColorName::DarkRed));
    top.push(PietColor::of_name(ColorName::Magenta));
    let mut bottom = vec![PietColor::of_name(ColorName::Black); 72];
    bottom.push(PietColor::of_name(ColorName::Magenta));
    bottom.push(PietColor::of_name(ColorName::Magenta));
    let mut p = PietProgram::new(vec![top, bottom], String::new());
    let mut printed = Vec::new();
    loop {
        match p.run(1000) {
            Status::Needs(Effect::OutChar(byte)) => printed.push(byte),
            Status::Finished => break,
            other => panic!("unexpected: {:?}", other),
        }
    }
    assert_eq!(printed, b"H".to_vec());
    assert!(p.stack.is_empty());
}

#[test]
fn a_program_that_reads_goes_on_after_the_input() {
    // Red to magenta asks for a character, magenta to dark magenta pushes,
    // dark magenta to light blue prints a number.
    let mut p = program(&["R M dM lB", "K K lB lB"]);
    assert_eq!(p.run(100), Status::Needs(Effect::InChar));
    p.stack.in_char(b'7');
    assert_eq!(p.run(100), Status::Needs(Effect::OutNumber(1)));
    assert_eq!(p.stack.to_vec(), vec![55]);
    assert_eq!(p.run(100), Status::Finished);
}

#[test]
fn the_budget_pauses_a_run() {
    let mut p = program(&["R Y", "B G"]);
    assert_eq!(p.run(0), Status::Paused);
    assert_eq!(p.steps(), 0);
    assert_eq!(p.run(1), Status::Paused);
    assert_eq!(p.steps(), 1);
    assert_eq!(p.position(), (1, 0));
}

#[test]
fn the_step_cap_ends_a_run_that_would_go_on() {
    // Four colours in a ring; each change is an addition, on an empty stack.
    let mut p = program(&["R Y", "B G"]);
    assert_eq!(p.execute(None, 10, 1000), Status::CapReached);
    assert_eq!(p.steps(), 10);
    assert_eq!(p.run(1000), Status::CapReached);
    assert_eq!(p.steps(), 10);
    let mut p = program(&["R Y", "B G"]);
    assert_eq!(p.execute(None, 0, 1000), Status::CapReached);
    assert_eq!(p.steps(), 0);
    assert_eq!(p.position(), (0, 0));
    let mut p = program(&["R Y", "B G"]);
    assert_eq!(p.execute(None, -1, 1000), Status::Paused);
    assert_eq!(p.steps(), 1000);
}

#[test]
fn the_chooser_stays_left_or_right_throughout_a_run() {
    let mut p = program(&["R dY lG", "dB K M", "C lR dG"]);
    for _ in 0..200 {
        match p.run(1) {
            Status::Finished => break,
            Status::Needs(Effect::InChar) => p.stack.in_char(3),
            Status::Needs(Effect::InNumber) => p.stack.in_number("-5"),
            _ => {}
        }
        let cc = p.codel_chooser();
        assert!(cc == Direction::Left || cc == Direction::Right);
        let (x, y) = p.position();
        assert!(0 <= x && x < 3 && 0 <= y && y < 3);
        assert_ne!(p.get_color(&(x, y)).name, ColorName::Black);
    }
}

#[test]
fn a_translated_run_writes_a_token_for_each_instruction() {
    let mut p = program(&["R R dR lM", "K K lM lM"]);
    let t = Translator::new(String::from("out.f"), ": PIET ;");
    assert_eq!(p.execute(Some(t), -1, 100), Status::Needs(Effect::OutNumber(2)));
    assert_eq!(p.run(100), Status::Finished);
    assert_eq!(p.translator().as_ref().unwrap().output_file(), "out.f");
    let t = p.take_translator().unwrap();
    assert_eq!(t.text(), ": PIET ;\n2 .\n");
    assert_eq!(t.output_file(), "out.f");
    assert!(p.translator().is_none());
}

#[test]
fn a_glide_writes_no_token() {
    let mut p = program(&["R W dR"]);
    let t = Translator::new(String::from("out.f"), "");
    assert_eq!(p.execute(Some(t), 1, 100), Status::CapReached);
    assert_eq!(p.position(), (2, 0));
    let t = p.take_translator().unwrap();
    assert_eq!(t.text(), "\n");
    assert_eq!(t.output_file(), "out.f");
}
