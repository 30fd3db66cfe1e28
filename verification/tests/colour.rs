use color_roles::colour::is_color_name_text;
use color_roles::{Colour, Handler};
use regex::Regex;

fn rgb(red: u8, green: u8, blue: u8) -> Colour {
    Colour { red, green, blue }
}

#[test]
fn parses_a_colour_name() {
    assert_eq!(Colour::parse("#1a2b3c"), Some(rgb(0x1a, 0x2b, 0x3c)));
    assert_eq!(Colour::parse("#000000"), Some(rgb(0, 0, 0)));
    assert_eq!(Colour::parse("#ffffff"), Some(rgb(255, 255, 255)));
    assert_eq!(Colour::parse("#36393e"), Some(rgb(0x36, 0x39, 0x3e)));
}

#[test]
fn parses_digits_of_either_case() {
    assert_eq!(Colour::parse("#1A2B3C"), Some(rgb(0x1a, 0x2b, 0x3c)));
    assert_eq!(Colour::parse("#FFFFFF"), Some(rgb(255, 255, 255)));
    assert_eq!(Colour::parse("#aBcDeF"), Some(rgb(0xab, 0xcd, 0xef)));
    assert_eq!(Colour::parse("#AbCdEf"), Some(rgb(0xab, 0xcd, 0xef)));
}

#[test]
fn handler_reads_a_message_as_the_codec_does() {
    let handler = Handler::new(2.0f32);
    assert_eq!(handler.parse_color("#4d4d4d"), Some(rgb(0x4d, 0x4d, 0x4d)));
    assert_eq!(handler.parse_color("#4D4D4D"), Some(rgb(0x4d, 0x4d, 0x4d)));
    assert_eq!(handler.parse_color("4d4d4d"), None);
    assert_eq!(handler.parse_color("hello"), None);
}

#[test]
fn rejects_a_missing_hash() {
    assert_eq!(Colour::parse("1a2b3c"), None);
    assert_eq!(Colour::parse("01a2b3c"), None);
    assert_eq!(Colour::parse("a1a2b3c"), None);
    assert_eq!(Colour::parse("$1a2b3c"), None);
}

#[test]
fn rejects_a_wrong_digit_count() {
    assert_eq!(Colour::parse(""), None);
    assert_eq!(Colour::parse("#"), None);
    assert_eq!(Colour::parse("#1"), None);
    assert_eq!(Colour::parse("#1a2"), None);
    assert_eq!(Colour::parse("#1a2b3"), None);
    assert_eq!(Colour::parse("#1a2b3c4"), None);
    assert_eq!(Colour::parse("#1a2b3c4d"), None);
}

#[test]
fn rejects_anything_before_or_after_the_name() {
    assert_eq!(Colour::parse(" #1a2b3c"), None);
    assert_eq!(Colour::parse("#1a2b3c "), None);
    assert_eq!(Colour::parse("x#1a2b3c"), None);
    assert_eq!(Colour::parse("#1a2b3c\n"), None);
    assert_eq!(Colour::parse("\n#1a2b3c"), None);
    assert_eq!(Colour::parse("##1a2b3c"), None);
    assert_eq!(Colour::parse("my colour is #1a2b3c"), None);
    assert_eq!(Colour::parse("#1a2b3c please"), None);
    assert_eq!(Colour::parse("#1a2b3c#1a2b3c"), None);
}

#[test]
fn rejects_what_is_no_hexadecimal_digit() {
    assert_eq!(Colour::parse("#1a2b3g"), None);
    assert_eq!(Colour::parse("#g a2b3c"), None);
    assert_eq!(Colour::parse("#1a2b3-"), None);
    assert_eq!(Colour::parse("#1a 2b3"), None);
    assert_eq!(Colour::parse("#1a2b3@"), None);
    assert_eq!(Colour::parse("#1a2b3G"), None);
    assert_eq!(Colour::parse("#1a2b3`"), None);
    assert_eq!(Colour::parse("#1a2b3/"), None);
    assert_eq!(Colour::parse("#1a2b3:"), None);
}

#[test]
fn rejects_digits_outside_ascii() {
    // Seven characters each, but not seven bytes.
    assert_eq!(Colour::parse("#1a2b3\u{e9}"), None);
    assert_eq!(Colour::parse("#\u{ff11}a2b3c"), None);
    assert_eq!(Colour::parse("\u{ff03}1a2b3c"), None);
    assert_eq!(Colour::parse("#1a2b\u{0663}c"), None);
}

#[test]
fn name_is_lower_case_and_zero_padded() {
    assert_eq!(rgb(0x1a, 0x2b, 0x3c).name(), "#1a2b3c");
    assert_eq!(rgb(0, 0, 0).name(), "#000000");
    assert_eq!(rgb(255, 255, 255).name(), "#ffffff");
    assert_eq!(rgb(0, 0x0a, 0xff).name(), "#000aff");
    assert_eq!(rgb(0xab, 0xcd, 0xef).name(), "#abcdef");
    assert_eq!(rgb(0x09, 0x90, 0x10).name(), "#099010");
}

#[test]
fn name_of_every_channel_value_reads_back() {
    for v in 0..=255u8 {
        let w = v.wrapping_mul(7).wrapping_add(3);
        for c in [rgb(v, 0, 0), rgb(0, v, 0), rgb(0, 0, v), rgb(v, w, 255 - v)] {
            let name = c.name();
            assert_eq!(name.len(), 7);
            assert_eq!(name, name.to_lowercase());
            assert_eq!(Colour::parse(&name), Some(c));
            assert_eq!(Colour::parse(&name.to_uppercase()), Some(c));
        }
    }
}

#[test]
fn name_of_a_parsed_colour_is_the_text_in_lower_case() {
    for text in ["#1A2B3C", "#FfFfFf", "#00aB0c", "#4d4d4d", "#DEADBE"] {
        let c = Colour::parse(text).unwrap();
        assert_eq!(c.name(), text.to_lowercase());
    }
}

#[test]
fn value_has_red_in_the_highest_byte() {
    assert_eq!(rgb(0x36, 0x39, 0x3e).value(), 0x36393E);
    assert_eq!(rgb(0x1a, 0x2b, 0x3c).value(), 0x1A2B3C);
    assert_eq!(rgb(255, 0, 0).value(), 0xFF0000);
    assert_eq!(rgb(0, 255, 0).value(), 0x00FF00);
    assert_eq!(rgb(0, 0, 255).value(), 0x0000FF);
    assert_eq!(rgb(0, 0, 0).value(), 0);
    assert_eq!(rgb(255, 255, 255).value(), 0xFFFFFF);
}

#[test]
fn from_value_takes_the_low_three_bytes() {
    assert_eq!(Colour::from_value(0x36393E), rgb(0x36, 0x39, 0x3e));
    assert_eq!(Colour::from_value(0xFF1A2B3C), rgb(0x1a, 0x2b, 0x3c));
    assert_eq!(Colour::from_value(0), rgb(0, 0, 0));
    for c in [rgb(1, 2, 3), rgb(255, 254, 253), rgb(0x80, 0, 0x7f)] {
        assert_eq!(Colour::from_value(c.value()), c);
    }
}

#[test]
fn from_rgb_keeps_the_channels() {
    assert_eq!(Colour::from_rgb(1, 2, 3), rgb(1, 2, 3));
    assert_eq!(Colour::from_rgb(0x1a, 0x2b, 0x3c).name(), "#1a2b3c");
}

#[test]
fn background_is_the_fixed_dark_colour() {
    assert_eq!(Colour::background(), rgb(0x36, 0x39, 0x3E));
    assert_eq!(Colour::background().value(), 0x36393E);
}

#[test]
fn colour_names_are_told_from_other_role_names() {
    assert!(is_color_name_text("#1a2b3c"));
    assert!(is_color_name_text("#1A2B3C"));
    assert!(!is_color_name_text("colors"));
    assert!(!is_color_name_text("@everyone"));
    assert!(!is_color_name_text("#1a2b3"));
    assert!(!is_color_name_text("#1a2b3c "));
}

/// The text at `n` of a fixed, repeatable sequence of short texts over the
/// characters that matter to the pattern.
fn sample(n: u64) -> String {
    let alphabet = ['#', '0', '9', 'a', 'f', 'A', 'F', 'g', 'G', ' ', '\n', '3', 'c', '\u{e9}'];
    let mut state = n.wrapping_mul(6364136223846793005).wrapping_add(1442695040888963407);
    let len = 5 + (state >> 60) as usize % 5;
    let mut text = String::new();
    for i in 0..len {
        state = state.wrapping_mul(6364136223846793005).wrapping_add(1442695040888963407);
        let pick = (state >> 33) as usize;
        // Most texts begin with `#`, so that many reach the digits.
        if i == 0 && pick % 4 != 0 {
            text.push('#');
        } else if pick % 3 == 0 {
            text.push(alphabet[(pick / 3) % alphabet.len()]);
        } else {
            text.push(alphabet[1 + (pick / 3) % 6]);
        }
    }
    text
}

#[test]
fn agrees_with_the_anchored_pattern() {
    let pattern = Regex::new(r"^#([A-Fa-f0-9]{2})([A-Fa-f0-9]{2})([A-Fa-f0-9]{2})$").unwrap();
    let mut fixed: Vec<String> = vec![
        "#1a2b3c", "#1A2B3C", "#1a2b3c\n", " #1a2b3c", "#1a2b3c ", "1a2b3c", "#1a2b3", "#1a2b3c4",
        "", "#", "#gggggg", "#00000g", "#\u{ff11}a2b3c", "say #1a2b3c",
    ]
    .into_iter()
    .map(String::from)
    .collect();
    for n in 0..40_000u64 {
        fixed.push(sample(n));
    }
    let mut accepted = 0;
    for text in &fixed {
        let expected = pattern.captures(text).map(|found| {
            let channel = |i: usize| u8::from_str_radix(found.get(i).unwrap().as_str(), 16).unwrap();
            rgb(channel(1), channel(2), channel(3))
        });
        assert_eq!(Colour::parse(text), expected, "on {:?}", text);
        assert_eq!(is_color_name_text(text), pattern.is_match(text), "on {:?}", text);
        if expected.is_some() {
            accepted += 1;
        }
    }
    // The sample holds texts of both kinds.
    assert!(accepted > 100);
    assert!(fixed.len() - accepted > 100);
}
