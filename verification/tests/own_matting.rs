use apple_matting_cli::matting::{derive_output_path, matting_result, resolve_output_path, MattingError};

#[test]
fn derives_nobg_sibling() {
    assert_eq!(
        derive_output_path("/some/dir/photo.jpg"),
        Some("/some/dir/photo_nobg.png".to_string())
    );
    assert_eq!(derive_output_path("photo.jpg"), Some("photo_nobg.png".to_string()));
    assert_eq!(derive_output_path("/photo.tar.gz"), Some("/photo.tar_nobg.png".to_string()));
    assert_eq!(derive_output_path("/"), None);
    assert_eq!(derive_output_path(""), None);
}

#[test]
fn resolves_output_paths() {
    assert_eq!(resolve_output_path("in.jpg", Some("out.png")), Ok("out.png".to_string()));
    assert_eq!(resolve_output_path("dir/in.jpg", None), Ok("dir/in_nobg.png".to_string()));
    assert_eq!(resolve_output_path("in\0.jpg", Some("out.png")), Err(MattingError::InvalidPath));
    assert_eq!(resolve_output_path("..", None), Err(MattingError::InvalidPath));
}

#[test]
fn bridge_codes() {
    assert_eq!(matting_result(0, "in.jpg", "out.png".to_string()), Ok("out.png".to_string()));
    assert_eq!(
        matting_result(-1, "in.jpg", "out.png".to_string()),
        Err(MattingError::LoadFailed("in.jpg".to_string()))
    );
    assert_eq!(
        matting_result(-3, "in.jpg", "out.png".to_string()),
        Err(MattingError::NoForeground)
    );
    assert_eq!(
        matting_result(-99, "in.jpg", "out.png".to_string()),
        Err(MattingError::UnsupportedOs)
    );
    assert_eq!(
        matting_result(-42, "in.jpg", "out.png".to_string()),
        Err(MattingError::Unknown(-42))
    );
}
