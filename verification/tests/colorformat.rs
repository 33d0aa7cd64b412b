use vertex::errors::colorformat::{format_color, format_color_with_delim};

#[test]
fn test_rgb_default_delim() {
    let s = format_color("$.255/0/0|").unwrap();
    assert!(s.contains("\x1b[38;2;255;0;0m"));
}

#[test]
fn test_rgba_rejected_default_delim() {
    assert!(format_color("$.255/0/0/0.5|").is_err());
}

#[test]
fn test_unknown_builtin_default_delim() {
    assert!(format_color("$unknown|").is_err());
}

#[test]
fn test_hold_context_default_delim() {
    let s = format_color("$red| hello $green| world").unwrap();
    let red_seq = "\x1b[38;2;255;0;0m";
    let green_seq = "\x1b[38;2;0;255;0m";
    let i_red = s.find(red_seq).expect("red seq present");
    let i_green = s.find(green_seq).expect("green seq present");
    assert!(i_red < i_green, "red must come before green");
    // ensure text between them exists (hello)
    let between = &s[i_red + red_seq.len()..i_green];
    assert!(between.contains("hello"));
}

#[test]
fn test_escape_dollar_default_delim() {
    assert_eq!(format_color("$$").unwrap(), "$");
    assert_eq!(format_color("$$dollar").unwrap(), "$dollar");
    // combining escape with a tag: $$red| should be treated as a literal "$red|"
    let s = format_color("$$red|").unwrap();
    assert_eq!(s, "$red|");
}

#[test]
fn test_unterminated_dollar_default_delim() {
    assert!(format_color("$").is_err());
    assert!(format_color("$red").is_err());
}

#[test]
fn test_reset_builtin_default_delim() {
    // red applied, then reset, then plain world
    let s = format_color("$red|hello$reset|world").unwrap();
    let red_seq = "\x1b[38;2;255;0;0m";
    let reset_seq = "\x1b[0m";
    let i_red = s.find(red_seq).expect("red seq present");
    let i_reset = s.find(reset_seq).expect("reset seq present");
    assert!(i_red < i_reset, "reset should come after red");
    // after reset there should be the plain text 'world' without a following color sequence
    let after_reset = &s[i_reset + reset_seq.len()..];
    assert!(after_reset.contains("world"));
    // ensure no trailing color sequence after reset and before world
    assert!(!after_reset.starts_with("\x1b[38;2;"));
}

#[test]
fn test_custom_delimiter_hash() {
    // use '#' as delimiter: tags like $red#
    let s = format_color_with_delim("$red# hello $green# world", '#').unwrap();
    assert!(s.contains("\x1b[38;2;255;0;0m"));
    assert!(s.contains("\x1b[38;2;0;255;0m"));

    // rgb with custom delimiter
    let s2 = format_color_with_delim("$.0/128/255# test", '#').unwrap();
    assert!(s2.contains("\x1b[38;2;0;128;255m"));
}

#[test]
fn test_escape_with_custom_delim() {
    // $$ escapes dollar; with custom delim the literal is not re-parsed as tag
    let s = format_color_with_delim("$$red#", '#').unwrap();
    assert_eq!(s, "$red#");
}

#[test]
fn color_error_messages_name_the_tag() {
    let e = format_color("$unknown|").unwrap_err();
    assert_eq!(e.message(), "unknown builtin color: unknown");
    let e = format_color("$.300/0/0|").unwrap_err();
    assert!(e.message().starts_with("out of range"));
}

#[test]
fn plain_text_passes_through() {
    assert_eq!(format_color("no tags here").unwrap(), "no tags here");
}

#[test]
fn every_rgb_tag_gives_its_truecolor_sequence() {
    for (r, g, b) in [(0u8, 0u8, 0u8), (12, 0, 255), (255, 255, 255), (7, 99, 100)] {
        for d in ['|', '#', ' ', 'x'] {
            let input = format!("$.{}/{}/{}{}", r, g, b, d);
            assert_eq!(
                format_color_with_delim(&input, d).unwrap(),
                format!("\x1b[38;2;{};{};{}m", r, g, b)
            );
        }
    }
}
