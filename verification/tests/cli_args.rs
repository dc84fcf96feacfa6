use apple_matting_cli::cli::{parse_args, CliArgs, DEFAULT_BATCH_JOBS, DEFAULT_SERVER_PORT, USAGE};
use apple_matting_cli::matting::Background;


#[test]
fn parses_input_only() {
    let args = vec!["apple-matting-cli".to_string(), "input.jpg".to_string()];

    assert_eq!(
        parse_args(&args),
        Ok(CliArgs::Run {
            input_path: "input.jpg".to_string(),
            output_path: None,
            crop_to_subject: false,
            background: Background::Transparent,
        })
    );
}

#[test]
fn parses_input_and_output() {
    let args = vec![
        "apple-matting-cli".to_string(),
        "input.jpg".to_string(),
        "output.png".to_string(),
    ];

    assert_eq!(
        parse_args(&args),
        Ok(CliArgs::Run {
            input_path: "input.jpg".to_string(),
            output_path: Some("output.png".to_string()),
            crop_to_subject: false,
            background: Background::Transparent,
        })
    );
}

#[test]
fn parses_short_output_flag() {
    let args = vec![
        "apple-matting-cli".to_string(),
        "input.jpg".to_string(),
        "-o".to_string(),
        "output.png".to_string(),
    ];

    assert_eq!(
        parse_args(&args),
        Ok(CliArgs::Run {
            input_path: "input.jpg".to_string(),
            output_path: Some("output.png".to_string()),
            crop_to_subject: false,
            background: Background::Transparent,
        })
    );
}

#[test]
fn parses_long_output_flag() {
    let args = vec![
        "apple-matting-cli".to_string(),
        "input.jpg".to_string(),
        "--output".to_string(),
        "output.png".to_string(),
    ];

    assert_eq!(
        parse_args(&args),
        Ok(CliArgs::Run {
            input_path: "input.jpg".to_string(),
            output_path: Some("output.png".to_string()),
            crop_to_subject: false,
            background: Background::Transparent,
        })
    );
}

#[test]
fn parses_crop_flag() {
    let args = vec![
        "apple-matting-cli".to_string(),
        "input.jpg".to_string(),
        "--crop".to_string(),
    ];

    assert_eq!(
        parse_args(&args),
        Ok(CliArgs::Run {
            input_path: "input.jpg".to_string(),
            output_path: None,
            crop_to_subject: true,
            background: Background::Transparent,
        })
    );
}

#[test]
fn parses_crop_with_output() {
    let args = vec![
        "apple-matting-cli".to_string(),
        "input.jpg".to_string(),
        "--crop".to_string(),
        "-o".to_string(),
        "output.png".to_string(),
    ];

    assert_eq!(
        parse_args(&args),
        Ok(CliArgs::Run {
            input_path: "input.jpg".to_string(),
            output_path: Some("output.png".to_string()),
            crop_to_subject: true,
            background: Background::Transparent,
        })
    );
}

#[test]
fn parses_server_with_default_port() {
    let args = vec!["apple-matting-cli".to_string(), "--server".to_string()];

    assert_eq!(
        parse_args(&args),
        Ok(CliArgs::Server {
            port: DEFAULT_SERVER_PORT,
        })
    );
}

#[test]
fn parses_server_with_port() {
    let args = vec![
        "apple-matting-cli".to_string(),
        "--server".to_string(),
        "--port".to_string(),
        "9090".to_string(),
    ];

    assert_eq!(parse_args(&args), Ok(CliArgs::Server { port: 9090 }));
}

#[test]
fn parses_server_with_short_port() {
    let args = vec![
        "apple-matting-cli".to_string(),
        "--server".to_string(),
        "-p".to_string(),
        "9090".to_string(),
    ];

    assert_eq!(parse_args(&args), Ok(CliArgs::Server { port: 9090 }));
}

#[test]
fn parses_batch_with_defaults() {
    let args = vec![
        "apple-matting-cli".to_string(),
        "--batch".to_string(),
        "input".to_string(),
        "-o".to_string(),
        "output".to_string(),
    ];

    assert_eq!(
        parse_args(&args),
        Ok(CliArgs::Batch {
            input_dir: "input".to_string(),
            output_dir: "output".to_string(),
            crop_to_subject: false,
            recursive: false,
            jobs: DEFAULT_BATCH_JOBS,
            background: Background::Transparent,
        })
    );
}

#[test]
fn parses_batch_options() {
    let args = vec![
        "apple-matting-cli".to_string(),
        "--batch".to_string(),
        "input".to_string(),
        "--output".to_string(),
        "output".to_string(),
        "--crop".to_string(),
        "--recursive".to_string(),
        "--jobs".to_string(),
        "5".to_string(),
    ];

    assert_eq!(
        parse_args(&args),
        Ok(CliArgs::Batch {
            input_dir: "input".to_string(),
            output_dir: "output".to_string(),
            crop_to_subject: true,
            recursive: true,
            jobs: 5,
            background: Background::Transparent,
        })
    );
}

#[test]
fn rejects_batch_without_output_directory() {
    let args = vec![
        "apple-matting-cli".to_string(),
        "--batch".to_string(),
        "input".to_string(),
    ];

    assert_eq!(parse_args(&args), Err(USAGE.to_string()));
}

#[test]
fn rejects_zero_batch_jobs() {
    let args = vec![
        "apple-matting-cli".to_string(),
        "--batch".to_string(),
        "input".to_string(),
        "-o".to_string(),
        "output".to_string(),
        "--jobs".to_string(),
        "0".to_string(),
    ];

    assert_eq!(
        parse_args(&args),
        Err("Jobs count must be between 1 and 64".to_string())
    );
}

#[test]
fn parses_help() {
    let args = vec!["apple-matting-cli".to_string(), "--help".to_string()];

    assert_eq!(parse_args(&args), Ok(CliArgs::Help));
}

#[test]
fn parses_version() {
    let args = vec!["apple-matting-cli".to_string(), "--version".to_string()];

    assert_eq!(parse_args(&args), Ok(CliArgs::Version));
}

#[test]
fn rejects_invalid_argument_count() {
    let args = vec![
        "apple-matting-cli".to_string(),
        "input.jpg".to_string(),
        "output.png".to_string(),
        "extra".to_string(),
    ];

    assert_eq!(parse_args(&args), Err(USAGE.to_string()));
}

#[test]
fn rejects_output_flag_without_value() {
    let args = vec![
        "apple-matting-cli".to_string(),
        "input.jpg".to_string(),
        "-o".to_string(),
    ];

    assert_eq!(parse_args(&args), Err(USAGE.to_string()));
}

#[test]
fn rejects_output_flag_before_input() {
    let args = vec![
        "apple-matting-cli".to_string(),
        "-o".to_string(),
        "output.png".to_string(),
        "input.jpg".to_string(),
    ];

    assert_eq!(parse_args(&args), Err(USAGE.to_string()));
}

#[test]
fn rejects_invalid_server_port() {
    let args = vec![
        "apple-matting-cli".to_string(),
        "--server".to_string(),
        "--port".to_string(),
        "not-a-port".to_string(),
    ];

    assert_eq!(
        parse_args(&args),
        Err("Invalid port: not-a-port".to_string())
    );
}
