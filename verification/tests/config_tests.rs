use rt::config::{Arg, CliAction, Config, DEFAULT_BRIGHTNESS_BITS};

fn args(texts: &[&str]) -> Vec<Arg> {
    texts
        .iter()
        .map(|t| Arg { text: t.to_string(), float_bits: t.parse::<f64>().ok().map(f64::to_bits) })
        .collect()
}

fn render(texts: &[&str]) -> Config {
    match Config::from_args(args(texts)) {
        CliAction::Render(c) => c,
        CliAction::Help => panic!("help was not asked for"),
    }
}

#[test]
fn no_arguments_give_the_defaults() {
    let c = render(&[]);
    assert_eq!(c.width, 800);
    assert_eq!(c.height, 600);
    assert_eq!(c.scene, "sphere");
    assert_eq!(f64::from_bits(c.brightness_bits), 1.0);
    assert_eq!(c.brightness_bits, 1.0f64.to_bits());
    assert_eq!(DEFAULT_BRIGHTNESS_BITS, 1.0f64.to_bits());
}

#[test]
fn every_flag_sets_its_setting() {
    let c = render(&["--scene", "plane-cube", "--width", "320", "--height", "240", "--brightness", "0.6"]);
    assert_eq!(c.width, 320);
    assert_eq!(c.height, 240);
    assert_eq!(c.scene, "plane-cube");
    assert_eq!(f64::from_bits(c.brightness_bits), 0.6);
}

#[test]
fn scene_names_are_lowercased() {
    let c = render(&["--scene", "All-Objects-ALT"]);
    assert_eq!(c.scene, "all-objects-alt");
}

#[test]
fn invalid_numbers_keep_the_previous_value() {
    let c = render(&["--width", "640", "--width", "wide", "--height", "-5", "--brightness", "bright"]);
    assert_eq!(c.width, 640);
    assert_eq!(c.height, 600);
    assert_eq!(c.brightness_bits, 1.0f64.to_bits());
}

#[test]
fn the_last_valid_value_wins() {
    let c = render(&["--width", "100", "--width", "200", "--brightness", "1.4", "--brightness", "0.5"]);
    assert_eq!(c.width, 200);
    assert_eq!(f64::from_bits(c.brightness_bits), 0.5);
}

#[test]
fn unknown_arguments_are_skipped() {
    let c = render(&["render", "--fast", "--height", "10", "extra"]);
    assert_eq!(c.height, 10);
    assert_eq!(c.width, 800);
}

#[test]
fn a_flag_without_value_is_ignored() {
    let c = render(&["--width"]);
    assert_eq!(c.width, 800);
    let c = render(&["--scene"]);
    assert_eq!(c.scene, "sphere");
}

#[test]
fn help_is_recognised_in_both_spellings() {
    assert!(matches!(Config::from_args(args(&["--help"])), CliAction::Help));
    assert!(matches!(Config::from_args(args(&["--width", "5", "-h"])), CliAction::Help));
}

#[test]
fn help_taken_as_a_value_is_no_help() {
    let c = render(&["--scene", "--help"]);
    assert_eq!(c.scene, "--help");
    let c = render(&["--width", "-h", "--height", "7"]);
    assert_eq!(c.width, 800);
    assert_eq!(c.height, 7);
}

#[test]
fn widths_may_carry_a_plus_sign() {
    let c = render(&["--width", "+12"]);
    assert_eq!(c.width, 12);
}

#[test]
fn widths_that_overflow_are_rejected() {
    let c = render(&["--width", "99999999999999999999999"]);
    assert_eq!(c.width, 800);
}

#[test]
fn zero_sizes_are_accepted() {
    let c = render(&["--width", "0", "--height", "000"]);
    assert_eq!(c.width, 0);
    assert_eq!(c.height, 0);
}

#[test]
fn non_ascii_scene_names_are_lowercased_too() {
    let c = render(&["--scene", "ÉCLAIR"]);
    assert_eq!(c.scene, "éclair");
}

#[test]
fn later_arguments_are_read_on_top_of_earlier_ones() {
    let c = render(&["--width", "10", "--height", "5", "--scene", "x", "--width", "20"]);
    assert_eq!(c.width, 20);
    assert_eq!(c.height, 5);
    assert_eq!(c.scene, "x");
}

#[test]
fn help_before_other_arguments_wins() {
    assert!(matches!(Config::from_args(args(&["-h", "--width", "20"])), CliAction::Help));
}
