use eqgraph::ast::CalcError;
use eqgraph::canvas::{add_color_change, set_color_change, subtract_color_change, Pixel};
use eqgraph::commands::handle_cmds;
use eqgraph::text::{eq_ignore_ascii_case, parse_channel_values, sanitize_input, split_cmd_line};

fn grid(height: usize, width: usize, p: Pixel) -> Vec<Vec<Pixel>> {
    let mut g = Vec::new();
    for _ in 0..height {
        let mut row = Vec::new();
        for _ in 0..width {
            row.push(p);
        }
        g.push(row);
    }
    g
}

fn px(r: u8, g: u8, b: u8) -> Pixel {
    Pixel { r, g, b }
}

#[test]
fn default_pixel_is_white() {
    assert_eq!(Pixel::default(), px(255, 255, 255));
}

#[test]
fn sanitize_keeps_allowed_and_drops_the_rest() {
    assert_eq!(sanitize_input(&String::from("a!b@c")), "abc");
    assert_eq!(sanitize_input(&String::from("2x + 1,%.")), "2x + 1,%.");
    assert_eq!(sanitize_input(&String::from("\"x'=\t3\"")), "x3");
}

#[test]
fn case_insensitive_action_match() {
    assert!(eq_ignore_ascii_case(&String::from("AdD"), "add"));
    assert!(eq_ignore_ascii_case(&String::from("subtract"), "subtract"));
    assert!(!eq_ignore_ascii_case(&String::from("ad"), "add"));
    assert!(!eq_ignore_ascii_case(&String::from("set!"), "set"));
}

#[test]
fn channel_values_parse_and_skip_invalid_tokens() {
    assert_eq!(parse_channel_values(&String::from("12 +34 999 abc 255")), vec![12, 34, 255]);
    assert_eq!(parse_channel_values(&String::from("")), Vec::<u8>::new());
    assert_eq!(parse_channel_values(&String::from("0 00 007")), vec![0, 0, 7]);
}

#[test]
fn split_line_splits_on_commas_and_sanitizes() {
    let fields = split_cmd_line(&String::from("set,x!,0 0 0"));
    assert_eq!(fields, vec!["set", "x", "0 0 0"]);
    assert_eq!(split_cmd_line(&String::from("add")), vec!["add"]);
}

#[test]
fn add_saturates_at_the_channel_maximum() {
    let g = grid(2, 2, px(200, 10, 0));
    let range = vec![1, 0];
    let out = add_color_change(2, range, px(100, 5, 1), &g);
    assert_eq!(out[1][0], px(255, 15, 1));
    assert_eq!(out[0][1], px(255, 15, 1));
    assert_eq!(out[0][0], px(200, 10, 0));
    assert_eq!(out[1][1], px(200, 10, 0));
}

#[test]
fn subtract_saturates_at_zero() {
    let g = grid(1, 1, px(10, 200, 0));
    let out = subtract_color_change(1, vec![0], px(30, 50, 1), &g);
    assert_eq!(out[0][0], px(0, 150, 0));
}

#[test]
fn set_replaces_the_cell() {
    let g = grid(2, 1, px(1, 2, 3));
    let out = set_color_change(1, vec![0], px(9, 8, 7), &g);
    assert_eq!(out[0][0], px(9, 8, 7));
    assert_eq!(out[1][0], px(1, 2, 3));
}

#[test]
fn negative_row_index_paints_nothing() {
    let g = grid(2, 2, px(5, 5, 5));
    let out = set_color_change(2, vec![-1, 0], px(0, 0, 0), &g);
    assert_eq!(out[0][0], px(5, 5, 5));
    assert_eq!(out[1][0], px(5, 5, 5));
    assert_eq!(out[0][1], px(0, 0, 0));
}

#[test]
fn handle_cmds_paints_the_sampled_curve() {
    let g = grid(2, 2, px(0, 0, 0));
    let cmds = vec![String::from("set"), String::from("x"), String::from("255 0 0")];
    let out = handle_cmds(cmds, 2, 2, &g).unwrap();
    // sample 0 maps to the bottom row, sample 1 to the row above it
    assert_eq!(out[1][0], px(255, 0, 0));
    assert_eq!(out[0][1], px(255, 0, 0));
    assert_eq!(out[0][0], px(0, 0, 0));
    assert_eq!(out[1][1], px(0, 0, 0));
}

#[test]
fn handle_cmds_clamps_offscreen_samples() {
    let g = grid(2, 2, px(0, 0, 0));
    let cmds = vec![String::from("set"), String::from("x*9"), String::from("1 2 3")];
    let out = handle_cmds(cmds, 2, 2, &g).unwrap();
    // sample 0 hits the bottom row; sample 9 leaves the grid upward and is
    // clamped off the canvas
    assert_eq!(out[1][0], px(1, 2, 3));
    assert_eq!(out[0][1], px(0, 0, 0));
    assert_eq!(out[1][1], px(0, 0, 0));
}

#[test]
fn handle_cmds_unknown_action_changes_nothing() {
    let g = grid(2, 2, px(7, 7, 7));
    let cmds = vec![String::from("erase"), String::from("x"), String::from("1 1 1")];
    let out = handle_cmds(cmds, 2, 2, &g).unwrap();
    assert_eq!(out, g);
}

#[test]
fn handle_cmds_defaults_to_white_without_three_channels() {
    let g = grid(1, 1, px(0, 0, 0));
    let cmds = vec![String::from("set"), String::from("0"), String::from("1 2")];
    let out = handle_cmds(cmds, 1, 1, &g).unwrap();
    assert_eq!(out[0][0], px(255, 255, 255));
}

#[test]
fn handle_cmds_propagates_equation_errors() {
    let g = grid(1, 1, px(0, 0, 0));
    let cmds = vec![String::from("set"), String::from("2+"), String::from("1 2 3")];
    assert_eq!(handle_cmds(cmds, 1, 1, &g), Err(CalcError::MalformedExpression));
}
