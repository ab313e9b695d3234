use jumpcut::classify::{
    has_note, is_centered, is_character, is_dual_dialogue, is_end_act, is_lyric, is_new_act,
    is_parenthetical, is_scene, is_transition, make_forced, remove_notes, retrieve_notes,
    trim_centered_marks, ForcedKind,
};
use jumpcut::metadata::has_key_value;
use jumpcut::Element;

#[test]
fn predicates_match_their_lines() {
    assert!(is_scene("INT. HOUSE - DAY"));
    assert!(is_scene("ext. observatory - day"));
    assert!(!is_scene("INTERCUT HOUSE / BARN"));
    assert!(is_transition("CUT TO:"));
    assert!(is_transition("  fade to:  "));
    assert!(!is_transition("alto:"));
    assert!(is_centered("> DUMBO <"));
    assert!(!is_centered("> Fade to black."));
    assert!(is_character("STEEL ^"));
    assert!(!is_character("McGregor"));
    assert!(is_parenthetical("(sniffing)"));
    assert!(is_lyric("~Willy Wonka!"));
    assert!(is_dual_dialogue("STEEL ^"));
    assert!(has_note("a [[note]] here"));
    assert!(!has_note("no note here"));
}

#[test]
fn forced_markers_dispatch() {
    assert_eq!(make_forced("!bang"), Some(ForcedKind::Action));
    assert_eq!(make_forced("@NAME"), Some(ForcedKind::Character));
    assert_eq!(make_forced("~la la"), Some(ForcedKind::Lyric));
    assert_eq!(make_forced(".inside"), Some(ForcedKind::Scene));
    assert_eq!(make_forced("..ellipsis"), None);
    assert_eq!(make_forced("> cut"), Some(ForcedKind::Transition));
    assert_eq!(make_forced("> centered <"), None);
    assert_eq!(make_forced("# Act"), Some(ForcedKind::Section));
    assert_eq!(make_forced("= synopsis"), Some(ForcedKind::Synopsis));
    assert_eq!(make_forced("==="), Some(ForcedKind::PageBreak));
    assert_eq!(make_forced("plain"), None);
}

#[test]
fn notes_are_collected_and_stripped() {
    let line = "Jack smells the liquor. [[Or should he taste it?]] Not good. [[Or bad?]]";
    assert_eq!(remove_notes(line), "Jack smells the liquor.  Not good. ");
    assert_eq!(
        retrieve_notes(line),
        Some(vec!["Or should he taste it?".to_string(), "Or bad?".to_string()])
    );
    assert_eq!(remove_notes("unclosed [[note"), "unclosed [[note");
    assert_eq!(retrieve_notes("unclosed [[note"), Some(vec![]));
}

#[test]
fn centered_marks_are_trimmed() {
    assert_eq!(trim_centered_marks("> DUMBO <"), "DUMBO");
    assert_eq!(trim_centered_marks(">THE END<"), "THE END");
}

#[test]
fn act_phrases_are_recognized() {
    assert!(is_end_act("END ACT ONE"));
    assert!(is_end_act("end of act 2"));
    assert!(is_end_act("END OF COLD OPEN"));
    assert!(!is_end_act("ACT THREE"));
    assert!(is_new_act("ACT THREE"));
    assert!(is_new_act("TEASER"));
    assert!(!is_new_act("INTERMISSION"));
}

#[test]
fn key_value_lines_are_detected() {
    assert!(has_key_value("Title: X"));
    assert!(has_key_value("Title:\nmore"));
    assert!(!has_key_value(" Title: X"));
    assert!(!has_key_value("T: X"));
    assert!(!has_key_value("no colon"));
}

#[test]
fn element_names_follow_their_kind() {
    let e = Element::PageBreak;
    assert_eq!(e.name(), "Page Break");
    let a = Element::Action(jumpcut::p(""), jumpcut::blank_attributes());
    assert_eq!(a.name(), "Action");
}
