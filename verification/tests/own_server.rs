use apple_matting_cli::matting::Background;
use apple_matting_cli::server::{field_role, parse_crop_field, trim, ApiError, FieldRole, UploadForm};

#[test]
fn field_roles() {
    assert_eq!(field_role(Some("crop")), FieldRole::Crop);
    assert_eq!(field_role(Some("background")), FieldRole::Background);
    assert_eq!(field_role(Some("file")), FieldRole::File);
    assert_eq!(field_role(Some("other")), FieldRole::Ignored);
    assert_eq!(field_role(None), FieldRole::Ignored);
}

#[test]
fn crop_values() {
    for text in ["true", " TRUE ", "1", "Yes\n"] {
        assert!(parse_crop_field(text), "{text}");
    }
    for text in ["false", "0", "", "y"] {
        assert!(!parse_crop_field(text), "{text}");
    }
    assert_eq!(trim("\u{3000} a b \t"), "a b");
}

#[test]
fn upload_form_flow() {
    let mut form = UploadForm::new();
    form.accept_crop("yes");
    assert_eq!(
        form.accept_background("red"),
        Err(ApiError {
            status: 400,
            message: "Invalid background color: red. Use transparent, white, black, or #RRGGBB"
                .to_string()
        })
    );
    assert_eq!(form.accept_background("#FFFFFF"), Ok(()));
    form.accept_file(Some("photo.PNG"), vec![1, 2, 3]);
    let request = form.into_request().unwrap();
    assert!(request.crop_to_subject);
    assert_eq!(request.background, Background::Solid { red: 255, green: 255, blue: 255 });
    assert_eq!(request.file.extension, "png");
    assert_eq!(request.file.bytes, vec![1, 2, 3]);
}

#[test]
fn upload_without_file_is_refused() {
    let error = UploadForm::new().into_request().unwrap_err();
    assert_eq!(error.status, 400);
    assert_eq!(error.message, "Missing multipart field `file`");
    assert_eq!(ApiError::matting("x".to_string()).status, 422);
    assert_eq!(ApiError::internal("x".to_string()).status, 500);
}
