use atma::color::Color;
use atma::color::Rgb;
use atma::parse::cmyk_functional;
use atma::parse::color;
use atma::parse::expand;
use atma::parse::hsl_functional;
use atma::parse::hsv_functional;
use atma::parse::rgb_functional;
use atma::parse::rgb_hex;
use atma::parse::rgb_hex_3;
use atma::parse::rgb_hex_6;
use atma::parse::uint_digits_value;
use atma::parse::xyz_functional;
use atma::parse::Failure;
use atma::parse::FailureOwned;
use atma::parse::FailureSource;
use atma::parse::Parser;

fn parse_source<'a>(failure: &'a Failure<'_>) -> &'a FailureOwned {
    match failure.source.as_deref() {
        Some(FailureSource::Parse(owned)) => owned,
        _ => panic!("the source is a parse failure"),
    }
}

fn hex_of(rgb: Rgb<'_>) -> u32 {
    match rgb {
        Rgb::Hex(hex) => hex,
        _ => panic!("a hex code"),
    }
}

fn ratios_of(rgb: Rgb<'_>) -> (f32, f32, f32) {
    match rgb {
        Rgb::Ratios { r, g, b } => (r.parse().unwrap(), g.parse().unwrap(), b.parse().unwrap()),
        _ => panic!("ratios"),
    }
}

#[test]
fn rgb_hex_6_parses_six_hex_digits() {
    let success = rgb_hex_6("#12aBcD rest").unwrap();
    assert_eq!(hex_of(success.value), 0x12ABCD);
    assert_eq!(success.token, "#12aBcD");
    assert_eq!(success.rest, " rest");
    assert_eq!(success.value.hex_octets(), Some((0x12, 0xAB, 0xCD)));
    let failure = rgb_hex_6("#12345").unwrap_err();
    assert_eq!(failure.context, "#12345");
    assert_eq!(failure.rest, "#12345");
    let failure = rgb_hex_6("123456").unwrap_err();
    assert_eq!(failure.context, "");
    assert_eq!(failure.expected.as_str(), "#");
}

#[test]
fn rgb_hex_agrees_with_the_three_pairs_of_digits() {
    let steps: [u32; 16] = [0, 1, 2, 9, 10, 15, 16, 17, 99, 127, 128, 160, 200, 254, 255, 171];
    for &r in steps.iter() {
        for &g in steps.iter() {
            for &b in steps.iter() {
                for upper in [false, true].iter() {
                    let text = if *upper {
                        format!("#{:02X}{:02X}{:02X}", r, g, b)
                    } else {
                        format!("#{:02x}{:02x}{:02x}", r, g, b)
                    };
                    let success = rgb_hex(text.as_str()).unwrap();
                    assert_eq!(success.token, text.as_str());
                    assert_eq!(success.rest, "");
                    let pair = uint_digits_value::<u8>("u8", 2, Some(2), 16);
                    let red = pair.parse(&text[1..3]).unwrap().value;
                    let green = pair.parse(&text[3..5]).unwrap().value;
                    let blue = pair.parse(&text[5..7]).unwrap().value;
                    assert_eq!((red as u32, green as u32, blue as u32), (r, g, b));
                    assert_eq!(hex_of(success.value), (r << 16) | (g << 8) | b);
                    assert_eq!(success.value.hex_octets(), Some((red, green, blue)));
                }
            }
        }
    }
}

#[test]
fn rgb_hex_3_doubles_every_digit() {
    let success = rgb_hex_3("#abc").unwrap();
    assert_eq!(hex_of(success.value), 0xAABBCC);
    assert_eq!(success.token, "#abc");
    assert_eq!(success.rest, "");
    let mut v: u32 = 0;
    while v < 0x1000 {
        let short = format!("#{:03x}", v);
        let digits: Vec<char> = short.chars().collect();
        let long =
            format!("#{0}{0}{1}{1}{2}{2}", digits[1], digits[2], digits[3]);
        let from_short = hex_of(rgb_hex(short.as_str()).unwrap().value);
        let from_long = hex_of(rgb_hex(long.as_str()).unwrap().value);
        assert_eq!(from_short, from_long);
        assert_eq!(expand(v), from_long);
        v += 1;
    }
}

#[test]
fn rgb_hex_takes_six_digits_before_three() {
    assert_eq!(hex_of(rgb_hex("#123456").unwrap().value), 0x123456);
    let success = rgb_hex("#12345").unwrap();
    assert_eq!(hex_of(success.value), 0x112233);
    assert_eq!(success.token, "#123");
    assert_eq!(success.rest, "45");
    let success = rgb_hex("#1234567").unwrap();
    assert_eq!(hex_of(success.value), 0x123456);
    assert_eq!(success.rest, "7");
    let failure = rgb_hex("#12").unwrap_err();
    assert_eq!(failure.context, "#12");
    assert_eq!(failure.rest, "#12");
    assert!(rgb_hex("#xyz").is_err());
}

#[test]
fn rgb_functional_parses_three_floats() {
    let success = rgb_functional("rgb(1.0, 0.5, 0.0)").unwrap();
    assert_eq!(ratios_of(success.value), (1.0, 0.5, 0.0));
    assert_eq!(success.token, "rgb(1.0, 0.5, 0.0)");
    assert_eq!(success.rest, "");
    let success = rgb_functional("RGB( 1 ,2,3 ) rest").unwrap();
    assert_eq!(ratios_of(success.value), (1.0, 2.0, 3.0));
    assert_eq!(success.token, "RGB( 1 ,2,3 )");
    assert_eq!(success.rest, " rest");
}

#[test]
fn rgb_functional_fails_on_another_number_of_floats() {
    let failure = rgb_functional("rgb(1, 2)").unwrap_err();
    assert_eq!(failure.context, "rgb(1, 2");
    assert_eq!(failure.rest, "rgb(1, 2)");
    let failure = rgb_functional("rgb(1, 2, 3, 4)").unwrap_err();
    assert_eq!(failure.context, "rgb(1, 2, 3");
    assert_eq!(failure.expected.as_str(), ")");
    let failure = rgb_functional("rgb 1, 2, 3").unwrap_err();
    assert_eq!(failure.context, "rgb");
    assert_eq!(failure.expected.as_str(), "(");
    let failure = rgb_functional("rgx(1, 2, 3)").unwrap_err();
    assert_eq!(failure.context, "rg");
}

#[test]
fn the_other_color_spaces_parse_their_floats() {
    let cmyk = cmyk_functional("cmyk(0.1, 0.2, 0.3, 0.4)").unwrap().value;
    assert_eq!((cmyk.c, cmyk.m, cmyk.y, cmyk.k), ("0.1", "0.2", "0.3", "0.4"));
    let hsv = hsv_functional("hsv(120, 0.5, 1)").unwrap().value;
    assert_eq!((hsv.h, hsv.s, hsv.v), ("120", "0.5", "1"));
    let hsl = hsl_functional("HSL(240,1,.5)").unwrap().value;
    assert_eq!((hsl.h, hsl.s, hsl.l), ("240", "1", ".5"));
    let xyz = xyz_functional("xyz(-1e2, +3., inf)").unwrap().value;
    assert_eq!((xyz.x, xyz.y, xyz.z), ("-1e2", "+3.", "inf"));
    assert!(cmyk_functional("cmyk(0.1, 0.2, 0.3)").is_err());
    assert!(hsv_functional("hsl(1, 2, 3)").is_err());
}

#[test]
fn color_parses_an_rgb_value_in_functional_notation() {
    let success = color("rgb(1.0, 0.5, 0.0)").unwrap();
    match success.value {
        Color::Rgb(rgb) => assert_eq!(ratios_of(rgb), (1.0, 0.5, 0.0)),
        _ => panic!("an rgb color"),
    }
    assert_eq!(success.token, "rgb(1.0, 0.5, 0.0)");
    assert_eq!(success.rest, "");
}

#[test]
fn color_parses_every_notation() {
    assert!(matches!(color("#FFF").unwrap().value, Color::Rgb(Rgb::Hex(0xFFFFFF))));
    assert!(matches!(color("#abc").unwrap().value, Color::Rgb(Rgb::Hex(0xAABBCC))));
    assert!(matches!(color("#123456;").unwrap().value, Color::Rgb(Rgb::Hex(0x123456))));
    assert!(matches!(color("rgb(0,0,0)").unwrap().value, Color::Rgb(Rgb::Ratios { .. })));
    assert!(matches!(color("CMYK( 0, 0, 0, 1 )").unwrap().value, Color::Cmyk(_)));
    assert!(matches!(color("hsv(0,0,0)").unwrap().value, Color::Hsv(_)));
    assert!(matches!(color("hsl(0,0,0)").unwrap().value, Color::Hsl(_)));
    assert!(matches!(color("xyz(0,0,0)").unwrap().value, Color::Xyz(_)));
    let success = color("hsl(0.1,0.2,0.3) rest").unwrap();
    assert_eq!(success.token, "hsl(0.1,0.2,0.3)");
    assert_eq!(success.rest, " rest");
}

#[test]
fn color_reports_the_notation_that_got_furthest() {
    let text = "rgb(1.0 0.5, 0.0)";
    let failure = color(text).unwrap_err();
    assert_eq!(failure.expected.as_str(), "color value");
    assert_eq!(failure.context, "rgb(1.0 ");
    assert_eq!(failure.rest, text);
    let cause = parse_source(&failure);
    assert_eq!(cause.context, "rgb(1.0 ");
    assert_eq!(cause.expected.as_str(), ",");
    let contexts = [
        rgb_hex(text).unwrap_err().context.len(),
        rgb_functional(text).unwrap_err().context.len(),
        cmyk_functional(text).unwrap_err().context.len(),
        hsv_functional(text).unwrap_err().context.len(),
        hsl_functional(text).unwrap_err().context.len(),
        xyz_functional(text).unwrap_err().context.len(),
    ];
    for &len in contexts.iter() {
        assert!(failure.context.len() >= len);
    }
    assert_eq!(failure.context.len(), contexts[1]);
}

#[test]
fn color_reports_the_earliest_of_the_notations_that_got_as_far() {
    let failure = color("hsx(1)").unwrap_err();
    assert_eq!(failure.context, "hs");
    assert_eq!(parse_source(&failure).expected.as_str(), "ignore case literal hsv");
    let failure = color("?").unwrap_err();
    assert_eq!(failure.context, "");
    assert_eq!(parse_source(&failure).expected.as_str(), "#");
    let failure = color("#12").unwrap_err();
    assert_eq!(failure.context, "#12");
    assert_eq!(failure.rest, "#12");
    assert_eq!(parse_source(&failure).expected.as_str(), "u32 integer digits with radix 16");
}
