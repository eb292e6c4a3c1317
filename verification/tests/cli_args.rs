use vcat_cli::cli::{build_parameters, is_float_text, parse_args, CliError, CliOutcome};
use vcat_cli::shared::SampleFormat;

fn args(list: &[&str]) -> Vec<String> {
    list.iter().map(|s| s.to_string()).collect()
}

#[test]
fn expression_and_width() {
    let r = parse_args(&args(&["-E", "x+y", "--width", "640"]));
    match r {
        Ok(CliOutcome::Config(cfg)) => {
            assert_eq!(cfg.expression.as_deref(), Some(b"x+y" as &[u8]));
            assert_eq!(cfg.file_name, None);
            assert_eq!(cfg.width, 640);
            assert_eq!(cfg.height, 720);
            assert!(cfg.lossless);
            assert!(cfg.fixed_fps);
            assert_eq!(cfg.fps, "60");
            assert_eq!(cfg.sample_rate, 48000);
            assert_eq!(cfg.sample_format, SampleFormat::s16);
        }
        other => panic!("unexpected outcome: {:?}", other.is_ok()),
    }
}

#[test]
fn expression_and_file_conflict() {
    let r = parse_args(&args(&["-E", "a", "file.vcat"]));
    assert!(matches!(r, Err(CliError::ConflictingSource)));
    let r = parse_args(&args(&["file.vcat", "-E", "a"]));
    assert!(matches!(r, Err(CliError::ConflictingSource)));
    let r = parse_args(&args(&["one.vcat", "two.vcat"]));
    assert!(matches!(r, Err(CliError::ConflictingSource)));
}

#[test]
fn empty_arguments_use_default_file() {
    let r = parse_args(&Vec::new());
    match r {
        Ok(CliOutcome::Config(cfg)) => {
            assert_eq!(cfg.expression, None);
            assert_eq!(cfg.file_name, None);
            let file = cfg.file_to_load();
            assert_eq!(file.as_deref(), Some("default.vcat"));
        }
        _ => panic!("expected a configuration"),
    }
}

#[test]
fn named_file_is_loaded() {
    let r = parse_args(&args(&["clip.vcat", "--height", "480"]));
    match r {
        Ok(CliOutcome::Config(cfg)) => {
            assert_eq!(cfg.file_name.as_deref(), Some("clip.vcat"));
            assert_eq!(cfg.height, 480);
            assert_eq!(cfg.file_to_load().as_deref(), Some("clip.vcat"));
        }
        _ => panic!("expected a configuration"),
    }
}

#[test]
fn expression_needs_no_file() {
    let r = parse_args(&args(&["-E", "a"]));
    match r {
        Ok(CliOutcome::Config(cfg)) => {
            assert_eq!(cfg.file_to_load(), None);
        }
        _ => panic!("expected a configuration"),
    }
}

#[test]
fn help_wins_immediately() {
    assert!(matches!(parse_args(&args(&["--help"])), Ok(CliOutcome::Help)));
    assert!(matches!(parse_args(&args(&["-h", "--bogus"])), Ok(CliOutcome::Help)));
}

#[test]
fn unknown_flag_is_an_error() {
    let r = parse_args(&args(&["--bogus"]));
    match r {
        Err(CliError::InvalidFlag { flag }) => assert_eq!(flag, "--bogus"),
        _ => panic!("expected an invalid-flag error"),
    }
}

#[test]
fn missing_value_is_an_error() {
    let r = parse_args(&args(&["--width"]));
    match r {
        Err(CliError::MissingValue { flag }) => assert_eq!(flag, "--width"),
        _ => panic!("expected a missing-value error"),
    }
    assert!(matches!(parse_args(&args(&["-E"])), Err(CliError::MissingValue { .. })));
    assert!(matches!(parse_args(&args(&["--sr"])), Err(CliError::MissingValue { .. })));
}

#[test]
fn width_and_height_validation() {
    let r = parse_args(&args(&["-w", "2147483647"]));
    match r {
        Ok(CliOutcome::Config(cfg)) => assert_eq!(cfg.width, 2147483647),
        _ => panic!("expected a configuration"),
    }
    assert!(matches!(
        parse_args(&args(&["-w", "2147483648"])),
        Err(CliError::InvalidWidth { .. })
    ));
    match parse_args(&args(&["--height", "abc"])) {
        Err(CliError::InvalidHeight { text }) => assert_eq!(text, "abc"),
        _ => panic!("expected an invalid-height error"),
    }
    assert!(matches!(parse_args(&args(&["-w", "-3"])), Err(CliError::InvalidWidth { .. })));
}

#[test]
fn boolean_flags_toggle() {
    let r = parse_args(&args(&["--no-lossless", "--mixed-fps"]));
    match r {
        Ok(CliOutcome::Config(cfg)) => {
            assert!(!cfg.lossless);
            assert!(!cfg.fixed_fps);
        }
        _ => panic!("expected a configuration"),
    }
    let r = parse_args(&args(&["--no-lossless", "--lossless", "--fixed-framerate"]));
    match r {
        Ok(CliOutcome::Config(cfg)) => {
            assert!(cfg.lossless);
            assert!(cfg.fixed_fps);
        }
        _ => panic!("expected a configuration"),
    }
}

#[test]
fn framerate_text_is_validated() {
    let r = parse_args(&args(&["--fps", "29.97"]));
    match r {
        Ok(CliOutcome::Config(cfg)) => assert_eq!(cfg.fps, "29.97"),
        _ => panic!("expected a configuration"),
    }
    match parse_args(&args(&["--framerate", "abc"])) {
        Err(CliError::InvalidFramerate { text }) => assert_eq!(text, "abc"),
        _ => panic!("expected an invalid-framerate error"),
    }
}

#[test]
fn sample_rate_flag_parses_frequency() {
    let r = parse_args(&args(&["--sample-rate", "44.1khz"]));
    match r {
        Ok(CliOutcome::Config(cfg)) => assert_eq!(cfg.sample_rate, 44100),
        _ => panic!("expected a configuration"),
    }
    match parse_args(&args(&["--sr", "fast"])) {
        Err(CliError::InvalidSampleRate { text }) => assert_eq!(text, "fast"),
        _ => panic!("expected an invalid-sample-rate error"),
    }
}

#[test]
fn first_violation_wins() {
    // The scan is left to right and fails fast: the width error comes before
    // the unknown flag is ever seen.
    assert!(matches!(
        parse_args(&args(&["--width", "abc", "--bogus"])),
        Err(CliError::InvalidWidth { .. })
    ));
    assert!(matches!(
        parse_args(&args(&["--bogus", "--width", "abc"])),
        Err(CliError::InvalidFlag { .. })
    ));
}

#[test]
fn repeated_expression_conflicts() {
    assert!(matches!(
        parse_args(&args(&["-E", "a", "-E", "b"])),
        Err(CliError::ConflictingSource)
    ));
}

#[test]
fn later_flag_value_wins() {
    let r = parse_args(&args(&["--sr", "48khz", "--sr", "44100", "-w", "1", "-w", "2"]));
    match r {
        Ok(CliOutcome::Config(cfg)) => {
            assert_eq!(cfg.sample_rate, 44100);
            assert_eq!(cfg.width, 2);
        }
        _ => panic!("expected a configuration"),
    }
}

#[test]
fn float_literals_follow_the_grammar() {
    for ok in ["0", "60", "29.97", ".5", "5.", "1e3", "1.5E-3", "+2.25", "-0.0", "inf",
        "-Infinity", "NaN", "1.e2", "3e+7"] {
        assert!(is_float_text(ok), "{} should be accepted", ok);
        assert!(ok.parse::<f64>().is_ok(), "{} should parse", ok);
    }
    for bad in ["", ".", "+", "-", "e3", "1e", "1e+", "1.2.3", "1,5", "abc", "0x1p3", "1 "] {
        assert!(!is_float_text(bad), "{} should be rejected", bad);
        assert!(bad.parse::<f64>().is_err(), "{} should not parse", bad);
    }
}

#[test]
fn record_is_built_from_the_configuration() {
    let r = parse_args(&args(&["-E", "x+y", "--width", "640", "--sr", "48khz"]));
    match r {
        Ok(CliOutcome::Config(cfg)) => {
            let script = cfg.expression.clone().unwrap();
            let p = build_parameters(cfg, script);
            assert_eq!(p.expression.as_slice(), b"x+y");
            assert_eq!(p.width, 640);
            assert_eq!(p.height, 720);
            assert!(p.lossless);
            assert!(p.fixed_fps);
            assert_eq!(p.fps, "60");
            assert_eq!(p.sample_rate, 48000);
            assert_eq!(p.sample_format, SampleFormat::s16);
            p.destroy();
        }
        _ => panic!("expected a configuration"),
    }
}
