use wgpu_voxels::config::{parse_runtime_config, parse_u64_decimal, str_equals, LaunchMode, RuntimeConfig};
use wgpu_voxels::debug_view::DebugView;

#[test]
fn headless_mode_accepts_path_and_delay() {
    let config = parse_runtime_config(&["--headless-png", "capture.png", "--delay-ms", "1500"])
        .expect("headless launch config");
    assert_eq!(
        config,
        RuntimeConfig {
            launch_mode: LaunchMode::HeadlessCapture {
                output_path: String::from("capture.png"),
                delay_ms: 1500,
                debug_view: DebugView::Default,
            },
        }
    );
}

#[test]
fn headless_mode_requires_delay() {
    let error =
        parse_runtime_config(&["--headless-png", "capture.png"]).expect_err("missing delay");
    assert!(error.contains("--delay-ms is required when using --headless-png"));
}

#[test]
fn delay_requires_headless_mode() {
    let error = parse_runtime_config(&["--delay-ms", "1000"]).expect_err("missing output path");
    assert!(error.contains("--headless-png is required when using --delay-ms"));
}

#[test]
fn no_arguments_runs_in_a_window() {
    let config = parse_runtime_config(&[]).expect("windowed launch config");
    assert_eq!(config, RuntimeConfig { launch_mode: LaunchMode::Windowed });
}

#[test]
fn flags_may_come_in_any_order_and_the_last_value_wins() {
    let config = parse_runtime_config(&[
        "--delay-ms",
        "10",
        "--headless-png",
        "a.png",
        "--delay-ms",
        "20",
        "--headless-png",
        "b.png",
    ])
    .expect("headless launch config");
    assert_eq!(
        config.launch_mode,
        LaunchMode::HeadlessCapture {
            output_path: String::from("b.png"),
            delay_ms: 20,
            debug_view: DebugView::Default,
        }
    );
}

#[test]
fn debug_view_selects_the_view_of_a_headless_capture() {
    let config = parse_runtime_config(&[
        "--headless-png",
        "screenshot-headless.png",
        "--delay-ms",
        "1000",
        "--debug-view",
        "interpolated",
    ])
    .expect("headless launch config");
    assert_eq!(
        config.launch_mode,
        LaunchMode::HeadlessCapture {
            output_path: String::from("screenshot-headless.png"),
            delay_ms: 1000,
            debug_view: DebugView::Interpolated,
        }
    );
}

#[test]
fn debug_view_alone_is_refused() {
    let error = parse_runtime_config(&["--debug-view", "depth"]).expect_err("no capture");
    assert_eq!(error, "--headless-png is required when using --debug-view");
}

#[test]
fn unknown_debug_view_is_refused() {
    let error = parse_runtime_config(&["--debug-view", "wireframe"]).expect_err("bad view");
    assert_eq!(error, "invalid --debug-view value: wireframe");
}

#[test]
fn invalid_delay_is_refused_with_its_text() {
    let error = parse_runtime_config(&["--headless-png", "x.png", "--delay-ms", "soon"])
        .expect_err("bad delay");
    assert_eq!(error, "invalid --delay-ms value: soon");
}

#[test]
fn negative_or_overflowing_delay_is_refused() {
    assert_eq!(
        parse_runtime_config(&["--delay-ms", "-5"]).expect_err("negative"),
        "invalid --delay-ms value: -5"
    );
    assert_eq!(
        parse_runtime_config(&["--delay-ms", "18446744073709551616"]).expect_err("too big"),
        "invalid --delay-ms value: 18446744073709551616"
    );
}

#[test]
fn missing_flag_values_are_refused() {
    assert_eq!(
        parse_runtime_config(&["--headless-png"]).expect_err("no path"),
        "expected a file path after --headless-png"
    );
    assert_eq!(
        parse_runtime_config(&["--headless-png", "x.png", "--delay-ms"]).expect_err("no delay"),
        "expected a millisecond value after --delay-ms"
    );
    assert_eq!(
        parse_runtime_config(&["--debug-view"]).expect_err("no view"),
        "expected a view name after --debug-view"
    );
}

#[test]
fn unrecognized_argument_is_refused() {
    assert_eq!(
        parse_runtime_config(&["--fullscreen"]).expect_err("unknown flag"),
        "unrecognized argument: --fullscreen"
    );
}

#[test]
fn decimal_parsing_follows_u64_from_str() {
    for text in ["0", "1500", "+7", "007", "18446744073709551615", "", "+", "-0", "1 ", "1_000",
        "18446744073709551616", "99999999999999999999", "٣"]
    {
        assert_eq!(parse_u64_decimal(text), text.parse::<u64>().ok(), "text {text:?}");
    }
}

#[test]
fn string_comparison_is_by_characters() {
    assert!(str_equals("--delay-ms", "--delay-ms"));
    assert!(!str_equals("--delay-ms", "--delay-m"));
    assert!(!str_equals("é", "e"));
    assert!(str_equals("", ""));
}
