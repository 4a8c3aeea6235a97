use bar_data::log_message::MessageVisitor;

#[test]
fn message_field_replaces_text() {
    let mut v = MessageVisitor::new();
    v.record_str("message", "S3O loaded");
    assert_eq!(v.message, "S3O loaded");
}

#[test]
fn other_fields_append_name_value() {
    let mut v = MessageVisitor::new();
    v.record_str("message", "S3O loaded");
    v.record_str("feature", "arbor1");
    v.record_debug("bytes", "4096");
    assert_eq!(v.message, "S3O loaded feature=arbor1 bytes=4096");
}

#[test]
fn first_field_has_no_leading_space() {
    let mut v = MessageVisitor::new();
    v.record_str("path", "objects3d/a.s3o");
    assert_eq!(v.message, "path=objects3d/a.s3o");
}

#[test]
fn debug_message_loses_quotes() {
    let mut v = MessageVisitor::new();
    v.record_debug("message", "\"bitmaps.sdz not found\"");
    assert_eq!(v.message, "bitmaps.sdz not found");
}

#[test]
fn debug_message_without_quotes_is_kept() {
    let mut v = MessageVisitor::new();
    v.record_debug("message", "Some(3)");
    assert_eq!(v.message, "Some(3)");
    v.record_debug("message", "\"");
    assert_eq!(v.message, "\"");
}
