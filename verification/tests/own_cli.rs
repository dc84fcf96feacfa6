use apple_matting_cli::cli::{
    exit_code, input_extension, parse_args, parse_background, run_exit_code, CliArgs,
    CommandOutcome, USAGE,
};
use apple_matting_cli::matting::Background;

fn strings(values: &[&str]) -> Vec<String> {
    values.iter().map(|value| (*value).to_string()).collect()
}

#[test]
fn server_and_batch_together_are_refused() {
    let parsed = parse_args(&strings(&["apple-matting-cli", "--server", "--batch", "in"]));
    assert_eq!(parsed, Err(USAGE.to_string()));
}

#[test]
fn help_needs_to_stand_alone() {
    assert_eq!(parse_args(&strings(&["apple-matting-cli", "-h"])), Ok(CliArgs::Help));
    assert_eq!(parse_args(&strings(&["apple-matting-cli", "-V"])), Ok(CliArgs::Version));
    assert_eq!(
        parse_args(&strings(&["apple-matting-cli", "--help", "x"])),
        Err(USAGE.to_string())
    );
}

#[test]
fn empty_command_line_is_refused() {
    assert_eq!(parse_args(&strings(&["apple-matting-cli"])), Err(USAGE.to_string()));
    assert_eq!(parse_args(&[]), Err(USAGE.to_string()));
}

#[test]
fn jobs_outside_range_are_refused() {
    let parsed = parse_args(&strings(&[
        "apple-matting-cli", "--batch", "in", "-o", "out", "-j", "65",
    ]));
    assert_eq!(parsed, Err("Jobs count must be between 1 and 64".to_string()));
    let parsed = parse_args(&strings(&[
        "apple-matting-cli", "--batch", "in", "-o", "out", "-j", "many",
    ]));
    assert_eq!(parsed, Err("Invalid jobs count: many".to_string()));
    let parsed = parse_args(&strings(&[
        "apple-matting-cli", "--batch", "in", "-o", "out", "-j", "99999999999999999999999",
    ]));
    assert_eq!(parsed, Err("Invalid jobs count: 99999999999999999999999".to_string()));
    let parsed = parse_args(&strings(&[
        "apple-matting-cli", "--batch", "in", "-o", "out", "-j", "+64",
    ]));
    assert!(matches!(parsed, Ok(CliArgs::Batch { jobs: 64, .. })));
}

#[test]
fn batch_value_that_looks_like_a_flag_is_refused() {
    let parsed = parse_args(&strings(&["apple-matting-cli", "--batch", "-o", "out"]));
    assert_eq!(parsed, Err(USAGE.to_string()));
}

#[test]
fn port_bounds() {
    let parsed = parse_args(&strings(&["apple-matting-cli", "--server", "-p", "65535"]));
    assert_eq!(parsed, Ok(CliArgs::Server { port: 65535 }));
    let parsed = parse_args(&strings(&["apple-matting-cli", "--server", "-p", "65536"]));
    assert_eq!(parsed, Err("Invalid port: 65536".to_string()));
    let parsed = parse_args(&strings(&["apple-matting-cli", "--server", "-p"]));
    assert_eq!(parsed, Err(USAGE.to_string()));
    let parsed = parse_args(&strings(&["apple-matting-cli", "--server", "extra"]));
    assert_eq!(parsed, Err(USAGE.to_string()));
}

#[test]
fn single_image_with_background_and_crop() {
    let parsed = parse_args(&strings(&[
        "apple-matting-cli", "in.jpg", "--background", "white", "--crop", "-o", "out.png",
    ]));
    assert_eq!(
        parsed,
        Ok(CliArgs::Run {
            input_path: "in.jpg".to_string(),
            output_path: Some("out.png".to_string()),
            crop_to_subject: true,
            background: Background::Solid { red: 255, green: 255, blue: 255 },
        })
    );
}

#[test]
fn unknown_flag_in_single_image_mode_is_refused() {
    let parsed = parse_args(&strings(&["apple-matting-cli", "in.jpg", "--fast"]));
    assert_eq!(parsed, Err(USAGE.to_string()));
}

#[test]
fn background_names_and_colors() {
    assert_eq!(parse_background("transparent"), Ok(Background::Transparent));
    assert_eq!(
        parse_background("black"),
        Ok(Background::Solid { red: 0, green: 0, blue: 0 })
    );
    assert_eq!(
        parse_background("#FFCC00"),
        Ok(Background::Solid { red: 0xff, green: 0xcc, blue: 0x00 })
    );
    assert_eq!(
        parse_background("#12345"),
        Err("Invalid background color: #12345. Use transparent, white, black, or #RRGGBB".to_string())
    );
    assert_eq!(
        parse_background("#12345g"),
        Err("Invalid background color: #12345g. Use transparent, white, black, or #RRGGBB".to_string())
    );
}

#[test]
fn batch_background_is_applied() {
    let parsed = parse_args(&strings(&[
        "apple-matting-cli", "--batch", "in", "-o", "out", "--background", "#000001",
    ]));
    assert!(matches!(
        parsed,
        Ok(CliArgs::Batch { background: Background::Solid { red: 0, green: 0, blue: 1 }, .. })
    ));
}

#[test]
fn upload_extensions() {
    assert_eq!(input_extension(None), "jpg");
    assert_eq!(input_extension(Some("photo.PNG")), "png");
    assert_eq!(input_extension(Some("dir/photo.WebP")), "webp");
    assert_eq!(input_extension(Some("photo.bmp")), "bmp");
    assert_eq!(input_extension(Some("photo.gif")), "jpg");
    assert_eq!(input_extension(Some(".png")), "jpg");
    assert_eq!(input_extension(Some("noext")), "jpg");
}

#[test]
fn exit_codes() {
    assert_eq!(exit_code(CommandOutcome::Completed), 0);
    assert_eq!(exit_code(CommandOutcome::Failed), 1);
    assert_eq!(exit_code(CommandOutcome::BatchFinished { failed: 0 }), 0);
    assert_eq!(exit_code(CommandOutcome::BatchFinished { failed: 2 }), 1);
    assert_eq!(exit_code(CommandOutcome::InvalidArguments), 2);
}

#[test]
fn whole_run_exit_codes() {
    let refused = parse_args(&strings(&["apple-matting-cli"]));
    assert_eq!(run_exit_code(&refused, true, Some(0), true), 2);
    let help = parse_args(&strings(&["apple-matting-cli", "--help"]));
    assert_eq!(run_exit_code(&help, false, None, false), 0);
    let image = parse_args(&strings(&["apple-matting-cli", "in.jpg"]));
    assert_eq!(run_exit_code(&image, true, None, false), 0);
    assert_eq!(run_exit_code(&image, false, None, true), 1);
    let batch = parse_args(&strings(&["apple-matting-cli", "--batch", "in", "-o", "out"]));
    assert_eq!(run_exit_code(&batch, false, Some(0), false), 0);
    assert_eq!(run_exit_code(&batch, true, Some(3), true), 1);
    assert_eq!(run_exit_code(&batch, true, None, true), 1);
    let server = parse_args(&strings(&["apple-matting-cli", "--server"]));
    assert_eq!(run_exit_code(&server, false, None, true), 0);
    assert_eq!(run_exit_code(&server, true, Some(0), false), 1);
}
