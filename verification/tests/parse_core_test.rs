use jumpcut::hunks::lines_to_hunks;
use jumpcut::normalize::{prepare_text, remove_boneyard, remove_problematic_unicode};
use jumpcut::{blank_attributes, p, parse, Element};

fn hunk(lines: Vec<&str>) -> Vec<String> {
    lines.into_iter().map(|s| s.to_string()).collect()
}

#[test]
fn test_lines_to_hunks() {
    let mut lines = "hello hello hello\n\nwelcome back\ngoodbye";
    let mut expected = vec![hunk(vec!["hello hello hello"]), hunk(vec!["welcome back", "goodbye"])];
    assert_eq!(lines_to_hunks(lines), expected, "it should handle simple line spacing");

    lines = "";
    expected = vec![hunk(vec![""])];
    assert_eq!(lines_to_hunks(lines), expected, "it should handle an empty string");

    lines = "# Act 1\nINT. HOUSE\n\nAn ugly place.";
    expected = vec![hunk(vec!["# Act 1"]), hunk(vec!["INT. HOUSE"]), hunk(vec!["An ugly place."])];
    assert_eq!(lines_to_hunks(lines), expected, "it should put sections in their own vec");

    lines = "SALLY\nYou're screwed!\n\n# Act 1\nINT. HOUSE\n\nAn ugly place.";
    expected = vec![
        hunk(vec!["SALLY", "You're screwed!"]),
        hunk(vec!["# Act 1"]),
        hunk(vec!["INT. HOUSE"]),
        hunk(vec!["An ugly place."]),
    ];
    assert_eq!(lines_to_hunks(lines), expected, "it should handle sections in middle of content");

    lines = "# Act 1\n## John finds the horse\n\nJOHN\nWhoa!";
    expected = vec![
        hunk(vec!["# Act 1"]),
        hunk(vec!["## John finds the horse"]),
        hunk(vec!["JOHN", "Whoa!"]),
    ];
    assert_eq!(lines_to_hunks(lines), expected, "it should handle two newlines after a section");

    lines = "John examines the gun.\n\n\n\n\n\n\n\n\n\nBANG!";
    expected = vec![
        hunk(vec!["John examines the gun."]),
        hunk(vec![""]),
        hunk(vec![""]),
        hunk(vec![""]),
        hunk(vec![""]),
        hunk(vec!["BANG!"]),
    ];
    assert_eq!(
        lines_to_hunks(lines),
        expected,
        "it should create blank lines from multiple newlines in a row"
    );
}

#[test]
fn test_lines_to_hunks_intentional_blanks() {
    let lines = "hello hello hello\n\nwelcome back\n  \ngoodbye";
    let expected = vec![
        hunk(vec!["hello hello hello"]),
        hunk(vec!["welcome back", "  ", "goodbye"]),
    ];
    assert_eq!(lines_to_hunks(lines), expected);
}

#[test]
fn lib_test_remove_problematic_unicode() {
    let unicode_string = "Hello\u{200B}, \u{200D}\u{FEFF}World!";
    assert_eq!(prepare_text(unicode_string), "Hello, World!");
}

#[test]
fn lib_test_remove_boneyard() {
    let boneyard = "/* boneyard */Hello, World!\n\n/* More bones \n Lower bones*/Goodbye!";
    assert_eq!(prepare_text(boneyard), "Hello, World!\n\nGoodbye!");
}

#[test]
fn main_test_remove_problematic_unicode() {
    let unicode_string = "Hello\u{200B}, \u{200D}\u{FEFF}World!".to_string();
    assert_eq!(remove_problematic_unicode(unicode_string), "Hello, World!");
}

#[test]
fn main_test_remove_boneyard() {
    let boneyard =
        "/* boneyard */Hello, World!\n\n/* More bones \n Lower bones*/Goodbye!".to_string();
    assert_eq!(remove_boneyard(boneyard), "Hello, World!\n\nGoodbye!");
}

#[test]
fn parse_test_it_handles_empty_action() {
    let text = "";
    let expected = vec![Element::Action(p(""), blank_attributes())];
    assert_eq!(parse(text).elements, expected, "it should handle an empty string");
}

#[test]
fn parse_test_it_handles_basic_action() {
    let text = "John drives the car.";
    let expected = vec![Element::Action(p("John drives the car."), blank_attributes())];
    assert_eq!(parse(text).elements, expected, "it should handle a simple action element");
}

#[test]
fn parse_test_it_handles_multiline_action() {
    let text = "\nDavid looks around the room cautiously.\nShe's gone. He heads for the drawer, tip-toeing.\nThis is it. The moment he's been waiting for.";
    let expected = vec![Element::Action(p("David looks around the room cautiously.\nShe's gone. He heads for the drawer, tip-toeing.\nThis is it. The moment he's been waiting for."), blank_attributes())];
    assert_eq!(parse(text).elements, expected, "it should handle multi-line action");
}

#[test]
fn parse_test_it_handles_shane_black() {
    let text = "Murtaugh, springing hell bent for leather -- and folks, grab your hats ... because just then, a BELL COBRA HELICOPTER crests the edge of the bluff.\n\nAn explosion of sound...\nAs it rises like an avenging angel ...\nHovers, shattering the air with turbo-throb, sandblasting the hillside with a roto-wash of loose dirt, tables, chairs, everything that's not nailed down ...\n\nScreaming, chaos, frenzy.\nThree words that apply to this scene.";
    let expected = vec![Element::Action(p("Murtaugh, springing hell bent for leather -- and folks, grab your hats ... because just then, a BELL COBRA HELICOPTER crests the edge of the bluff."), blank_attributes()), Element::Action(p("An explosion of sound...\nAs it rises like an avenging angel ...\nHovers, shattering the air with turbo-throb, sandblasting the hillside with a roto-wash of loose dirt, tables, chairs, everything that's not nailed down ..."), blank_attributes()), Element::Action(p("Screaming, chaos, frenzy.\nThree words that apply to this scene."), blank_attributes())];
    assert_eq!(parse(text).elements, expected, "it should handle Shane Black");
}

#[test]
fn parse_test_it_handles_forced_action() {
    let text = "THE DEALER eyes the new player warily.\n\n!SCANNING THE AISLES...\nWhere is that pit boss?\n\nNo luck. He has no choice to deal the cards.";
    let expected = vec![
        Element::Action(p("THE DEALER eyes the new player warily."), blank_attributes()),
        Element::Action(p("SCANNING THE AISLES...\nWhere is that pit boss?"), blank_attributes()),
        Element::Action(p("No luck. He has no choice to deal the cards."), blank_attributes()),
    ];
    assert_eq!(parse(text).elements, expected, "it should handle Shane Black");
}

#[test]
fn parse_test_it_retains_vertical_space() {
    let text = "John examines the gun.\n\n\n\n\n\n\n\n\n\nBANG!";
    let expected = vec![
        Element::Action(p("John examines the gun."), blank_attributes()),
        Element::Action(p(""), blank_attributes()),
        Element::Action(p(""), blank_attributes()),
        Element::Action(p(""), blank_attributes()),
        Element::Action(p(""), blank_attributes()),
        Element::Action(p("BANG!"), blank_attributes()),
    ];
    assert_eq!(parse(text).elements, expected, "it should handle Shane Black");
}

#[test]
fn parse_test_it_retains_horizontal_space() {
    let text = "          Jacob Billups\n          Palace Hotel, RM 412\n          1:00 pm tomorrow";
    let expected = vec![Element::Action(p(text), blank_attributes())];
    assert_eq!(parse(text).elements, expected, "it should handle Shane Black");
}

#[test]
fn normalizing_twice_changes_nothing() {
    let docs: [&str; 4] = [
        "INT. HOUSE - DAY\n\nJohn drives the car.   \n",
        "/* a comment */Hello\u{200B} there\n\nBANG!",
        "",
        "Title: X\n\nEXT. LOT - NIGHT/* gone */",
    ];
    for doc in docs.iter() {
        let once = prepare_text(doc);
        let twice = prepare_text(once.as_str());
        assert_eq!(twice, once, "normalizing already-normalized text is a no-op");
    }
}
