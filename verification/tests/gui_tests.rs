use quickstitch::io_section::{
    IOSection, IOSectionMessage, ImageFile, ImageFileMessage, ImageFormat, InputType, SortMethod,
};
use quickstitch::limit_section::{LimitSection, LimitSectionMessage, WidthType};
use quickstitch::message::Message;
use quickstitch::pixel_field::{PixelField, PixelFieldMessage};
use quickstitch::setting_section::{SettingSection, SettingSectionMessage};
use quickstitch::simple_screen::SimpleScreen;
use quickstitch::sorting::Sort;

#[test]
fn image_format_limits() {
    assert_eq!(ImageFormat::JPEG.limit(), 65_535);
    assert_eq!(ImageFormat::WebP.limit(), 16_383);
    assert_eq!(ImageFormat::PNG.limit(), u32::MAX);
}

#[test]
fn io_section_defaults() {
    let section = IOSection::default();
    assert!(matches!(section.input_type, InputType::Directory));
    assert!(section.input_directory.is_none());
    assert_eq!(section.sort_method, SortMethod::Natural);
    assert!(section.input_files.is_empty());
    assert!(section.output_directory.is_none());
    assert_eq!(section.output_format, ImageFormat::JPEG);
    assert_eq!(section.quality_field, "100");
    assert_eq!(section.quality, Some(100));
}

#[test]
fn io_section_quality_field_updates() {
    let mut section = IOSection::default();
    section.update(IOSectionMessage::SetQualityField("50".to_string()));
    assert_eq!(section.quality, Some(50));
    assert_eq!(section.quality_field, "50");
    // Zero and values above 100 are rejected; the state stays as it was.
    section.update(IOSectionMessage::SetQualityField("0".to_string()));
    assert_eq!(section.quality, Some(50));
    section.update(IOSectionMessage::SetQualityField("101".to_string()));
    assert_eq!(section.quality, Some(50));
    section.update(IOSectionMessage::SetQualityField("abc".to_string()));
    assert_eq!(section.quality_field, "50");
    // Leading zeros are normalized away by the round trip through the value.
    section.update(IOSectionMessage::SetQualityField("007".to_string()));
    assert_eq!(section.quality, Some(7));
    assert_eq!(section.quality_field, "7");
    // Emptying the field clears the value.
    section.update(IOSectionMessage::SetQualityField(String::new()));
    assert_eq!(section.quality, None);
    assert_eq!(section.quality_field, "");
}

#[test]
fn io_section_files_and_dialog_results() {
    let mut section = IOSection::default();
    section.update(IOSectionMessage::SetInputType(InputType::Images));
    section.update(IOSectionMessage::AddImage(Some("a.png".to_string())));
    section.update(IOSectionMessage::AddImage(None));
    section.update(IOSectionMessage::AddImage(Some("b.png".to_string())));
    assert_eq!(section.input_files.len(), 2);
    assert_eq!(section.input_files[0].path, "a.png");
    section.update(IOSectionMessage::ImageFileMessage(0, ImageFileMessage::Delete));
    assert_eq!(section.input_files.len(), 1);
    assert_eq!(section.input_files[0].path, "b.png");
    section.update(IOSectionMessage::SetInputDirectory(Some("/in".to_string())));
    assert_eq!(section.input_directory.as_deref(), Some("/in"));
    // A dismissed dialog leaves the directory untouched.
    section.update(IOSectionMessage::SetInputDirectory(None));
    assert_eq!(section.input_directory.as_deref(), Some("/in"));
    section.update(IOSectionMessage::SetOutputDirectory(Some("/out".to_string())));
    assert_eq!(section.output_directory.as_deref(), Some("/out"));
    section.update(IOSectionMessage::SetOutputFormat(ImageFormat::PNG));
    assert_eq!(section.get_output_format(), ImageFormat::PNG);
    section.update(IOSectionMessage::SetSortMethod(SortMethod::Logical));
    assert_eq!(section.sort_method, SortMethod::Logical);
}

#[test]
fn image_file_with_path() {
    let file = ImageFile::with_path("x.webp".to_string());
    assert_eq!(file.path, "x.webp");
}

#[test]
fn sort_method_maps_to_engine_policy() {
    assert_eq!(SortMethod::Natural.to_sort(), Sort::Natural);
    assert_eq!(SortMethod::Logical.to_sort(), Sort::Logical);
}

#[test]
fn pixel_field_accepts_below_limit_only() {
    let mut field = PixelField::new("w", "e.g. 800", Some(800), ImageFormat::WebP);
    assert_eq!(field.number(), Some(800));
    assert_eq!(field.field, "800");
    field.update(PixelFieldMessage::UpdateField("16383".to_string()));
    // The WebP limit itself is not strictly below the limit: rejected.
    assert_eq!(field.number(), Some(800));
    field.update(PixelFieldMessage::UpdateField("12000".to_string()));
    assert_eq!(field.number(), Some(12000));
    assert_eq!(field.field, "12000");
    field.update(PixelFieldMessage::UpdateField("007".to_string()));
    assert_eq!(field.number(), Some(7));
    assert_eq!(field.field, "7");
    field.update(PixelFieldMessage::UpdateField(String::new()));
    assert_eq!(field.number(), None);
    assert_eq!(field.field, "");
}

#[test]
fn limit_section_prefills_and_getters() {
    let section = LimitSection::new(ImageFormat::PNG);
    assert_eq!(section.width_type(), WidthType::Fixed);
    assert_eq!(section.fixed_width(), Some(800));
    assert_eq!(section.max_height(), Some(15000));
    assert_eq!(section.min_height(), Some(10000));
}

#[test]
fn limit_section_routes_updates() {
    let mut section = LimitSection::new(ImageFormat::PNG);
    section.update(LimitSectionMessage::SetWidthType(WidthType::Auto));
    assert_eq!(section.width_type(), WidthType::Auto);
    section.update(LimitSectionMessage::FixedWidthMessage(PixelFieldMessage::UpdateField(
        "640".to_string(),
    )));
    assert_eq!(section.fixed_width(), Some(640));
    section.update(LimitSectionMessage::MaxHeightMessage(PixelFieldMessage::UpdateField(
        "9000".to_string(),
    )));
    assert_eq!(section.max_height(), Some(9000));
    section.update(LimitSectionMessage::MinHeightMessage(PixelFieldMessage::UpdateField(
        "100".to_string(),
    )));
    assert_eq!(section.min_height(), Some(100));
}

#[test]
fn setting_section_defaults_and_updates() {
    let mut section = SettingSection::default();
    assert!(!section.debug);
    assert_eq!(section.scan_interval, Some(5));
    assert_eq!(section.scan_interval_field, "5");
    assert_eq!(section.sensitivity, Some(255));
    assert_eq!(section.sensitivity_field, "255");
    section.update(SettingSectionMessage::SetDebugMode(true));
    assert!(section.debug);
    section.update(SettingSectionMessage::SetScanInterval("42".to_string()));
    assert_eq!(section.scan_interval, Some(42));
    section.update(SettingSectionMessage::SetScanInterval("x".to_string()));
    assert_eq!(section.scan_interval, Some(42));
    section.update(SettingSectionMessage::SetScanInterval(String::new()));
    assert_eq!(section.scan_interval, None);
    section.update(SettingSectionMessage::SetSensitivity("220".to_string()));
    assert_eq!(section.sensitivity, Some(220));
    assert_eq!(section.sensitivity_field, "220");
    section.update(SettingSectionMessage::SetSensitivity("256".to_string()));
    assert_eq!(section.sensitivity, Some(220));
}

#[test]
fn simple_screen_update_is_inert() {
    let mut screen = SimpleScreen;
    screen.update();
}

#[test]
fn top_level_messages_wrap_section_events() {
    let m = Message::SettingSection(SettingSectionMessage::SetDebugMode(true));
    assert!(matches!(m, Message::SettingSection(_)));
    assert!(matches!(Message::Stitch, Message::Stitch));
}
