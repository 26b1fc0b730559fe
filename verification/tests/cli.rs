use libafix::cli::{is_image_extension, parse_convert_args, ConvertCommand, DepthModel, Models, SemanticModel};
use libafix::encoder::EncodeOptions;
use libafix::Profile;

fn args(a: &[&str]) -> Vec<String> {
    a.iter().map(|s| s.to_string()).collect()
}

fn default_models() -> Models {
    Models { semantic_model: SemanticModel::Auto, depth_model: DepthModel::Disabled, sign_key: None }
}

fn parse(a: &[&str]) -> Result<ConvertCommand, String> {
    parse_convert_args(&args(a))
}

#[test]
fn single_file_with_defaults() {
    assert_eq!(
        parse(&["photo.jpg"]),
        Ok(ConvertCommand::Single {
            input: "photo.jpg".to_string(),
            output: None,
            options: EncodeOptions::default(),
            models: default_models(),
        })
    );
}

#[test]
fn second_argument_is_the_output() {
    assert_eq!(
        parse(&["photo.png", "photo.afix", "ignored"]),
        Ok(ConvertCommand::Single {
            input: "photo.png".to_string(),
            output: Some("photo.afix".to_string()),
            options: EncodeOptions::default(),
            models: default_models(),
        })
    );
}

#[test]
fn output_flag_wins_over_second_argument() {
    assert_eq!(
        parse(&["-o", "x.afix", "in.png", "y.afix"]),
        Ok(ConvertCommand::Single {
            input: "in.png".to_string(),
            output: Some("x.afix".to_string()),
            options: EncodeOptions::default(),
            models: default_models(),
        })
    );
}

#[test]
fn all_options_are_read() {
    let expected = EncodeOptions {
        profile: Profile::Full,
        quality: 90,
        semantic: false,
        preview: false,
        preview_quality: 10,
    };
    assert_eq!(
        parse(&[
            "--profile",
            "full",
            "-q",
            "90",
            "--no-semantic",
            "--no-preview",
            "--preview-quality",
            "10",
            "in.jpg",
        ]),
        Ok(ConvertCommand::Single {
            input: "in.jpg".to_string(),
            output: None,
            options: expected,
            models: default_models(),
        })
    );
}

#[test]
fn later_flags_override_earlier_ones() {
    let r = parse(&["-p", "spatial", "--profile", "trusted", "-q", "1", "-q", "2", "a.png"]);
    match r {
        Ok(ConvertCommand::Single { options, .. }) => {
            assert_eq!(options.profile, Profile::Trusted);
            assert_eq!(options.quality, 2);
        }
        other => panic!("unexpected {other:?}"),
    }
}

#[test]
fn batch_mode() {
    assert_eq!(
        parse(&["--batch", "./images/", "--output", "./out/", "--profile", "web-lossless"]),
        Ok(ConvertCommand::Batch {
            input_dir: "./images/".to_string(),
            output_dir: "./out/".to_string(),
            options: EncodeOptions { profile: Profile::WebLossless, ..EncodeOptions::default() },
            models: default_models(),
        })
    );
}

#[test]
fn command_line_errors() {
    assert_eq!(parse(&[]), Err("missing input file".to_string()));
    assert_eq!(parse(&["--batch"]), Err("batch mode requires an input directory".to_string()));
    assert_eq!(parse(&["--batch", "dir"]), Err("batch mode requires --output <DIR>".to_string()));
    assert_eq!(parse(&["--profile"]), Err("--profile requires a value".to_string()));
    assert_eq!(parse(&["a.png", "-q"]), Err("--quality requires a value".to_string()));
    assert_eq!(parse(&["--preview-quality"]), Err("--preview-quality requires a value".to_string()));
    assert_eq!(parse(&["-o"]), Err("--output requires a value".to_string()));
    assert_eq!(parse(&["--profile", "bogus"]), Err("unknown profile 'bogus'".to_string()));
    assert_eq!(parse(&["--frobnicate", "a.png"]), Err("unknown flag '--frobnicate'".to_string()));
    assert_eq!(parse(&["-"]), Err("unknown flag '-'".to_string()));
}

#[test]
fn number_errors_carry_the_parse_message() {
    let too_big = "300".parse::<u8>().unwrap_err().to_string();
    assert_eq!(parse(&["--quality", "300"]), Err(format!("invalid quality: {too_big}")));
    let not_a_number = "high".parse::<u8>().unwrap_err().to_string();
    assert_eq!(
        parse(&["--preview-quality", "high"]),
        Err(format!("invalid preview-quality: {not_a_number}"))
    );
    assert_ne!(parse(&["--quality", "300"]), Err("invalid quality: ".to_string()));
}

#[test]
fn help_stops_reading() {
    assert_eq!(parse(&["--help", "--bogus"]), Ok(ConvertCommand::Help));
    assert_eq!(parse(&["-h"]), Ok(ConvertCommand::Help));
    assert_eq!(parse(&["--bogus", "--help"]), Err("unknown flag '--bogus'".to_string()));
}

#[test]
fn profile_flag_takes_every_name() {
    for p in [Profile::WebLossy, Profile::WebLossless, Profile::Spatial, Profile::Trusted, Profile::Full] {
        let r = parse(&["--profile", p.name(), "a.png"]);
        match r {
            Ok(ConvertCommand::Single { options, .. }) => assert_eq!(options.profile, p),
            other => panic!("unexpected {other:?}"),
        }
    }
}

#[test]
fn batch_extensions() {
    for e in ["jpg", "JPG", "jpeg", "JpEg", "png", "PNG", "webp", "WEBP"] {
        assert!(is_image_extension(e), "{e}");
    }
    for e in ["", "gif", "jp", "jpgg", "afix", "pngx", "wébp"] {
        assert!(!is_image_extension(e), "{e}");
    }
}

#[test]
fn model_and_signing_options_are_accepted() {
    assert_eq!(
        parse(&["--depth-model", "none", "in.jpg", "out.afix"]),
        Ok(ConvertCommand::Single {
            input: "in.jpg".to_string(),
            output: Some("out.afix".to_string()),
            options: EncodeOptions::default(),
            models: default_models(),
        })
    );
    let r = parse(&[
        "--profile",
        "full",
        "--sign",
        "./my-key.pem",
        "--depth-model",
        "auto",
        "--semantic-model",
        "accurate",
        "input.jpg",
        "output.afix",
    ]);
    match r {
        Ok(ConvertCommand::Single { input, output, options, models }) => {
            assert_eq!(input, "input.jpg");
            assert_eq!(output.as_deref(), Some("output.afix"));
            assert_eq!(options.profile, Profile::Full);
            assert!(options.semantic);
            assert_eq!(models.semantic_model, SemanticModel::Accurate);
            assert_eq!(models.depth_model, DepthModel::Auto);
            assert_eq!(models.sign_key.as_deref(), Some("./my-key.pem"));
        }
        other => panic!("unexpected {other:?}"),
    }
}

#[test]
fn semantic_model_none_turns_detection_off() {
    match parse(&["--semantic-model", "none", "a.png"]) {
        Ok(ConvertCommand::Single { options, models, .. }) => {
            assert!(!options.semantic);
            assert_eq!(models.semantic_model, SemanticModel::Disabled);
        }
        other => panic!("unexpected {other:?}"),
    }
    match parse(&["--semantic-model", "fast", "a.png"]) {
        Ok(ConvertCommand::Single { options, models, .. }) => {
            assert!(options.semantic);
            assert_eq!(models.semantic_model, SemanticModel::Fast);
        }
        other => panic!("unexpected {other:?}"),
    }
}

#[test]
fn model_option_errors() {
    assert_eq!(parse(&["--semantic-model"]), Err("--semantic-model requires a value".to_string()));
    assert_eq!(parse(&["--depth-model"]), Err("--depth-model requires a value".to_string()));
    assert_eq!(parse(&["--sign"]), Err("--sign requires a value".to_string()));
    assert_eq!(
        parse(&["--semantic-model", "huge", "a.png"]),
        Err("unknown semantic model 'huge'".to_string())
    );
    assert_eq!(parse(&["--depth-model", "fast", "a.png"]), Err("unknown depth model 'fast'".to_string()));
}

#[test]
fn qualities_must_lie_in_their_documented_ranges() {
    assert_eq!(parse(&["-q", "101", "a.png"]), Err("invalid quality: must be 0-100".to_string()));
    assert!(parse(&["-q", "0", "a.png"]).is_ok());
    assert!(parse(&["-q", "100", "a.png"]).is_ok());
    assert_eq!(
        parse(&["--preview-quality", "0", "a.png"]),
        Err("invalid preview-quality: must be 1-100".to_string())
    );
    assert_eq!(
        parse(&["--preview-quality", "200", "a.png"]),
        Err("invalid preview-quality: must be 1-100".to_string())
    );
    assert!(parse(&["--preview-quality", "1", "a.png"]).is_ok());
}
