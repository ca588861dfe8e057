use game_of_life::engine::{ConwayEngine, GridCommand};
use game_of_life::grid::GridType;
use game_of_life::shape::Shape;

fn err(r: Result<GridCommand, String>) -> String {
    match r {
        Err(e) => e,
        Ok(c) => panic!("expected an error, got {:?}", c),
    }
}

#[test]
fn bare_commands() {
    assert!(matches!(ConwayEngine::handle_input(String::from("help")), Ok(GridCommand::Help)));
    assert!(matches!(ConwayEngine::handle_input(String::from("  CLEAR ")), Ok(GridCommand::Clear)));
    assert!(matches!(ConwayEngine::handle_input(String::from("Resize")), Ok(GridCommand::Resize)));
    assert!(matches!(ConwayEngine::handle_input(String::from("start")), Ok(GridCommand::Start)));
    for q in ["quit", "exit", "e", "Q"] {
        assert!(matches!(ConwayEngine::handle_input(String::from(q)), Ok(GridCommand::Quit)));
    }
}

#[test]
fn empty_line_is_rejected() {
    assert_eq!(err(ConwayEngine::handle_input(String::from("   "))), "No command specified.");
}

#[test]
fn extra_arguments_are_listed() {
    assert_eq!(
        err(ConwayEngine::handle_input(String::from("help Me now"))),
        "Unexpected arguments: [\"me\", \"now\"]"
    );
    assert_eq!(
        err(ConwayEngine::handle_input(String::from("random 0.5 x"))),
        "Unexpected arguments: [\"x\"]"
    );
}

#[test]
fn random_keeps_its_chance_text() {
    match ConwayEngine::handle_input(String::from("random 0.25")) {
        Ok(GridCommand::Random(Some(t))) => assert_eq!(t, "0.25"),
        other => panic!("unexpected {:?}", other),
    }
    assert!(matches!(
        ConwayEngine::handle_input(String::from("random")),
        Ok(GridCommand::Random(None))
    ));
}

#[test]
fn coordinates_make_a_toggle() {
    match ConwayEngine::handle_input(String::from("3,4")) {
        Ok(GridCommand::Toggle(rr, cr)) => assert_eq!((rr, cr), ((3, 3), (4, 4))),
        other => panic!("unexpected {:?}", other),
    }
    match ConwayEngine::handle_input(String::from("5-2,1-7")) {
        Ok(GridCommand::Toggle(rr, cr)) => assert_eq!((rr, cr), ((5, 2), (1, 7))),
        other => panic!("unexpected {:?}", other),
    }
}

#[test]
fn shapes_need_coordinates() {
    match ConwayEngine::handle_input(String::from("glider 2,3")) {
        Ok(GridCommand::Shape(at, s)) => {
            assert_eq!(at, ((2, 2), (3, 3)));
            assert_eq!(s, Shape::Glider);
        }
        other => panic!("unexpected {:?}", other),
    }
    assert_eq!(err(ConwayEngine::handle_input(String::from("circle"))), "Not enough arguments.");
    assert_eq!(
        err(ConwayEngine::handle_input(String::from("square 1,1"))),
        "Invalid shape square"
    );
    assert_eq!(
        err(ConwayEngine::handle_input(String::from("glider x,1"))),
        "Invalid row x"
    );
}

#[test]
fn get_ranges_reads_spans() {
    assert_eq!(ConwayEngine::get_ranges(" 1 , 2 "), Ok(((1, 1), (2, 2))));
    assert_eq!(ConwayEngine::get_ranges("1-3,4-2"), Ok(((1, 3), (4, 2))));
    assert_eq!(ConwayEngine::get_ranges("1-3-9,4"), Ok(((1, 3), (4, 4))));
    assert_eq!(ConwayEngine::get_ranges("+7,-2"), Ok(((7, 7), (2, 2))));
}

#[test]
fn get_ranges_errors() {
    assert_eq!(ConwayEngine::get_ranges("1,2, 3 "), Err(String::from("Unexpected position '3'")));
    assert_eq!(ConwayEngine::get_ranges("12"), Err(String::from("Not enough co-ordinates.")));
    assert_eq!(ConwayEngine::get_ranges("a,2"), Err(String::from("Invalid row a")));
    assert_eq!(ConwayEngine::get_ranges("1,2-b"), Err(String::from("Invalid column b")));
    assert_eq!(ConwayEngine::get_ranges(",2"), Err(String::from("Not enough co-ordinates.")));
    assert_eq!(
        ConwayEngine::get_ranges("99999999999999999999,1"),
        Err(String::from("Invalid row 99999999999999999999"))
    );
}

#[test]
fn shape_names() {
    assert_eq!(Shape::from_name("glider"), Ok(Shape::Glider));
    assert_eq!(Shape::from_name("circle"), Ok(Shape::Circle));
    assert_eq!(Shape::from_name("sqaure"), Ok(Shape::Square));
    assert_eq!(Shape::from_name("box"), Err(String::from("Invalid shape box")));
    assert_eq!("circle".parse::<Shape>(), Ok(Shape::Circle));
}

fn setup_err(line: &str) -> String {
    match ConwayEngine::from_line(line) {
        Err(e) => e,
        Ok(e) => panic!("expected an error, got {:?}", e),
    }
}

#[test]
fn setup_line_builds_engine() {
    let e = ConwayEngine::from_line("10, 20 - OPEN\n").unwrap();
    assert_eq!(e.grid().rows, 10);
    assert_eq!(e.grid().columns, 20);
    assert_eq!(e.grid().grid_type, GridType::Open);
    assert_eq!(e.generation(), 0);
    let e = ConwayEngine::from_line("3,3-closed").unwrap();
    assert_eq!(e.grid().grid_type, GridType::Closed);
}

#[test]
fn setup_line_errors() {
    assert_eq!(setup_err("  "), "No command specified.");
    assert_eq!(setup_err(", - open"), "No grid row specified.");
    assert_eq!(setup_err("5 - open"), "No grid column specified.");
    assert_eq!(setup_err("x,5 - open"), "Invalid row 'x'.");
    assert_eq!(setup_err("5,y - open"), "Invalid column 'y'.");
    assert_eq!(setup_err("0,5 - open"), "Grid cannot have less than one row/column.");
    assert_eq!(setup_err("5,5"), "No grid type specified.");
    assert_eq!(setup_err("5,5 - round"), "Invalid grid type.");
    assert_eq!(setup_err("9223372036854775807,2 - open"), "Grid is too large.");
}
