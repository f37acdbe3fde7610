use pixit::palette::parse_palette;
use pixit::Rgb;

#[test]
fn parses_hex_function_and_named_colors() {
    let lines = vec![
        String::from("#ff0000"),
        String::from("rgb(0,255,0)"),
        String::from("blue"),
        String::from("#9a6348"),
    ];
    let palette = parse_palette(&lines).unwrap();
    assert_eq!(
        palette,
        vec![
            Rgb { r: 255, g: 0, b: 0 },
            Rgb { r: 0, g: 255, b: 0 },
            Rgb { r: 0, g: 0, b: 255 },
            Rgb { r: 154, g: 99, b: 72 },
        ]
    );
}

#[test]
fn reports_the_first_bad_line() {
    let lines = vec![
        String::from("#ffffff"),
        String::from("not a color at all"),
        String::from("#000000"),
    ];
    assert_eq!(parse_palette(&lines), Err(1));
}

#[test]
fn empty_input_gives_empty_palette() {
    let lines: Vec<String> = Vec::new();
    assert_eq!(parse_palette(&lines), Ok(Vec::new()));
}
