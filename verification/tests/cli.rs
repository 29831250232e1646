use showcase::args::{
    apply_flag_with, finish_args, parse_renderer_args, parse_u32, ArgsError, ParsedArgs, RendererArgs,
};
use showcase::origin::UriSummary;

fn argv(items: &[&str]) -> Vec<String> {
    items.iter().map(|item| item.to_string()).collect()
}

fn run(items: &[&str]) -> RendererArgs {
    match parse_renderer_args(&argv(items)) {
        Ok(ParsedArgs::Run(args)) => args,
        other => panic!("unexpected outcome {other:?}"),
    }
}

#[test]
fn u32_text_is_read_like_from_str() {
    assert_eq!(parse_u32("0"), Some(0));
    assert_eq!(parse_u32("+7"), Some(7));
    assert_eq!(parse_u32("0042"), Some(42));
    assert_eq!(parse_u32("4294967295"), Some(u32::MAX));
    assert_eq!(parse_u32("4294967296"), None);
    assert_eq!(parse_u32(""), None);
    assert_eq!(parse_u32("+"), None);
    assert_eq!(parse_u32("-1"), None);
    assert_eq!(parse_u32("12a"), None);
    assert_eq!(parse_u32(" 1"), None);
    for value in ["1", "+1", "99999999999", "x", "-0", "18446744073709551616"] {
        assert_eq!(parse_u32(value), value.parse::<u32>().ok(), "{value}");
    }
}

#[test]
fn defaults_apply_without_flags() {
    let args = run(&[]);
    assert_eq!(args.worker, "http://127.0.0.1:8080");
    assert_eq!((args.width, args.height, args.tile_size, args.max_iterations), (1024, 1024, 128, 500));
    assert_eq!(args.output, "target/mandelbrot.png");
}

#[test]
fn flags_set_their_values() {
    let args = run(&[
        "--worker", "http://10.0.0.2:9000", "--width", "640", "--height", "+480",
        "--tile-size", "64", "--max-iterations", "200", "--output", "out/x.png",
    ]);
    assert_eq!(args.worker, "http://10.0.0.2:9000");
    assert_eq!((args.width, args.height, args.tile_size, args.max_iterations), (640, 480, 64, 200));
    assert_eq!(args.output, "out/x.png");
}

#[test]
fn help_stops_parsing() {
    assert!(matches!(parse_renderer_args(&argv(&["--help"])), Ok(ParsedArgs::Help)));
    assert!(matches!(parse_renderer_args(&argv(&["--width", "3", "-h", "--bogus"])), Ok(ParsedArgs::Help)));
}

#[test]
fn bad_command_lines_are_refused() {
    let outcome = |items: &[&str]| parse_renderer_args(&argv(items)).unwrap_err();
    assert!(matches!(outcome(&["--width"]), ArgsError::MissingValue(flag) if flag == "--width"));
    assert!(matches!(outcome(&["--bogus"]), ArgsError::MissingValue(flag) if flag == "--bogus"));
    assert!(matches!(outcome(&["--bogus", "1"]), ArgsError::UnknownArgument(flag) if flag == "--bogus"));
    assert!(matches!(outcome(&["--width", "wide"]), ArgsError::InvalidWidth));
    assert!(matches!(outcome(&["--height", "-2"]), ArgsError::InvalidHeight));
    assert!(matches!(outcome(&["--tile-size", ""]), ArgsError::InvalidTileSize));
    assert!(matches!(outcome(&["--max-iterations", "1e3"]), ArgsError::InvalidIterations));
    assert!(matches!(outcome(&["--worker", "http://bad host"]), ArgsError::InvalidWorker));
    assert!(matches!(outcome(&["--worker", "/render"]), ArgsError::WorkerNotAbsolute));
    assert!(matches!(outcome(&["--width", "x", "--bogus", "1"]), ArgsError::InvalidWidth));
}

fn settings() -> RendererArgs {
    RendererArgs {
        worker: "http://127.0.0.1:8080".to_owned(),
        width: 1024,
        height: 1024,
        tile_size: 128,
        max_iterations: 500,
        output: "target/mandelbrot.png".to_owned(),
    }
}

fn uri(scheme: Option<&str>, authority: Option<&str>) -> UriSummary {
    UriSummary {
        scheme: scheme.map(str::to_owned),
        authority: authority.map(str::to_owned),
        query: None,
        text: String::new(),
    }
}

#[test]
fn one_flag_applies_given_the_parsed_worker() {
    let parsed = Some(uri(Some("http"), Some("w:1")));
    let next = apply_flag_with(settings(), "--worker", "http://w:1", &parsed).unwrap();
    assert_eq!(next.worker, "http://w:1");
    assert!(matches!(
        apply_flag_with(settings(), "--worker", "http://w:1", &None),
        Err(ArgsError::InvalidWorker)
    ));
    let next = apply_flag_with(settings(), "--tile-size", "32", &None).unwrap();
    assert_eq!((next.tile_size, next.width), (32, 1024));
    let next = apply_flag_with(settings(), "--output", "a.png", &parsed).unwrap();
    assert_eq!(next.output, "a.png");
    assert!(matches!(
        apply_flag_with(settings(), "--depth", "8", &None),
        Err(ArgsError::UnknownArgument(flag)) if flag == "--depth"
    ));
}

#[test]
fn settings_finish_only_with_an_absolute_worker() {
    assert!(finish_args(settings(), &uri(Some("http"), Some("w:1"))).is_ok());
    assert!(matches!(
        finish_args(settings(), &uri(None, Some("w:1"))),
        Err(ArgsError::WorkerNotAbsolute)
    ));
    assert!(matches!(
        finish_args(settings(), &uri(Some("http"), None)),
        Err(ArgsError::WorkerNotAbsolute)
    ));
}
