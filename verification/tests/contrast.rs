use color_roles::Colour;
use contrast::contrast;
use rgb::RGB8;

fn pixel(c: Colour) -> RGB8 {
    RGB8::from((c.red, c.green, c.blue))
}

fn ratio(a: Colour, b: Colour) -> f32 {
    contrast(pixel(a), pixel(b))
}

#[test]
fn contrast_does_not_depend_on_which_colour_comes_first() {
    let background = Colour::background();
    for text in ["#000000", "#ffffff", "#1a2b3c", "#4d4d4d", "#36393e", "#ff0000", "#00ff7f"] {
        let c = Colour::parse(text).unwrap();
        assert_eq!(ratio(background, c), ratio(c, background));
        assert!(ratio(background, c) >= 1.0);
    }
}

#[test]
fn contrast_of_the_background_with_itself_is_one() {
    let background = Colour::background();
    assert_eq!(ratio(background, background), 1.0);
}

#[test]
fn white_stands_out_against_the_background_and_near_black_does_not() {
    let background = Colour::background();
    assert!(ratio(background, Colour::parse("#FFFFFF").unwrap()) > 2.0);
    assert!(!(ratio(background, Colour::parse("#1a2b3c").unwrap()) > 2.0));
}
