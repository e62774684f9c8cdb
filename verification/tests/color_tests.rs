use crane_front::color::{colorize, underline, ColorGreen, ColorRed, ColorWhite, ColorYellow};

#[test]
fn colorize_red_wraps_in_escape_codes() {
    assert_eq!(colorize::<ColorRed>("boom".to_string()), "\x1b[31mboom\x1b[0m");
}

#[test]
fn colorize_green_wraps_in_escape_codes() {
    assert_eq!(colorize::<ColorGreen>("ok".to_string()), "\x1b[32mok\x1b[0m");
}

#[test]
fn colorize_white_wraps_in_escape_codes() {
    assert_eq!(colorize::<ColorWhite>("text".to_string()), "\x1b[37mtext\x1b[0m");
}

#[test]
fn colorize_yellow_wraps_in_escape_codes() {
    assert_eq!(colorize::<ColorYellow>("warn".to_string()), "\x1b[33mwarn\x1b[0m");
}

#[test]
fn underline_marks_characters_of_the_section() {
    assert_eq!(underline("hello".to_string(), "lo".to_string()), "  ^^^");
}

#[test]
fn underline_of_disjoint_section_is_blank() {
    assert_eq!(underline("abc".to_string(), "xyz".to_string()), "   ");
}

#[test]
fn underline_is_as_long_as_the_code() {
    assert_eq!(underline("12345".to_string(), "".to_string()).len(), 5);
}
