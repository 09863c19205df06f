use figma_extract::api::ImageFormat;
use figma_extract::filter::{FilterCriteria, Pattern};

#[test]
fn test_filter_criteria_matches_page() {
    let filter = FilterCriteria::new().with_pages(vec!["Page1".to_string(), "Page2".to_string()]);

    assert!(filter.matches_page("Page1"));
    assert!(filter.matches_page("Page2"));
    assert!(!filter.matches_page("Page3"));
}

#[test]
fn test_filter_criteria_page_pattern() {
    let pattern = Pattern::compile(r"^Design").unwrap();
    let filter = FilterCriteria::new().with_page_pattern(pattern);

    assert!(filter.matches_page("Design System"));
    assert!(filter.matches_page("Design Components"));
    assert!(!filter.matches_page("Other Page"));
}

#[test]
fn test_filter_criteria_matches_frame() {
    let pattern = Pattern::compile(r"Button").unwrap();
    let filter = FilterCriteria::new().with_frame_pattern(pattern);

    assert!(filter.matches_frame("Primary Button"));
    assert!(filter.matches_frame("Button Group"));
    assert!(!filter.matches_frame("Input Field"));
}

#[test]
fn test_filter_criteria_is_empty() {
    let empty_filter = FilterCriteria::new();
    assert!(empty_filter.is_empty());

    let with_pages = FilterCriteria::new().with_pages(vec!["Page1".to_string()]);
    assert!(!with_pages.is_empty());

    let with_hidden = FilterCriteria::new().with_include_hidden(true);
    assert!(!with_hidden.is_empty());
}

#[test]
fn test_empty_filter_accepts_everything() {
    let empty_filter = FilterCriteria::new();
    assert!(empty_filter.matches_page("anything at all"));
    assert!(empty_filter.matches_page(""));
    assert!(empty_filter.matches_page_id("9:99"));
    assert!(empty_filter.matches_frame("any frame"));
}

#[test]
fn test_image_format_extension() {
    assert_eq!(ImageFormat::Png.extension(), "png");
    assert_eq!(ImageFormat::Jpg.extension(), "jpg");
    assert_eq!(ImageFormat::Svg.extension(), "svg");
    assert_eq!(ImageFormat::Pdf.extension(), "pdf");
}

#[test]
fn test_image_format_mime_type() {
    assert_eq!(ImageFormat::Png.mime_type(), "image/png");
    assert_eq!(ImageFormat::Jpg.mime_type(), "image/jpeg");
    assert_eq!(ImageFormat::Svg.mime_type(), "image/svg+xml");
    assert_eq!(ImageFormat::Pdf.mime_type(), "application/pdf");
}
