use memoire::web::{page_bounds, parse_range_header, relative_path_stays_inside, ApiError};

#[test]
fn range_header_forms() {
    assert_eq!(parse_range_header("bytes=0-99", 1000), Some((0, 99)));
    assert_eq!(parse_range_header("bytes=100-", 1000), Some((100, 999)));
    assert_eq!(parse_range_header("bytes=900-5000", 1000), Some((900, 999)));
    assert_eq!(parse_range_header("bytes=+5-6", 10), Some((5, 6)));
}

#[test]
fn range_header_refusals() {
    assert_eq!(parse_range_header("bytes=1000-", 1000), None);
    assert_eq!(parse_range_header("bytes=5-2", 1000), None);
    assert_eq!(parse_range_header("bytes=-5", 1000), None);
    assert_eq!(parse_range_header("items=0-1", 1000), None);
    assert_eq!(parse_range_header("bytes=0", 1000), None);
    assert_eq!(parse_range_header("bytes=a-1", 1000), None);
    assert_eq!(parse_range_header("bytes=0-", 0), None);
}

#[test]
fn paging_limits() {
    assert_eq!(page_bounds(None, None), (50, 0));
    assert_eq!(page_bounds(Some(0), Some(-3)), (1, 0));
    assert_eq!(page_bounds(Some(500), Some(20)), (100, 20));
}

#[test]
fn api_error_codes() {
    assert_eq!(ApiError::NotFound("x".into()).status_code(), 404);
    assert_eq!(ApiError::BadRequest("x".into()).status_code(), 400);
    assert_eq!(ApiError::Forbidden("x".into()).status_code(), 403);
    assert_eq!(ApiError::RangeNotSatisfiable.status_code(), 416);
    assert_eq!(ApiError::Database("x".into()).status_code(), 500);
    assert_eq!(ApiError::Internal("x".into()).error_name(), "InternalServerError");
}

#[test]
fn chunk_paths_stay_inside_data_dir() {
    assert!(relative_path_stays_inside("videos/m/2024-01-01/chunk_00-00-00_0.mp4"));
    assert!(relative_path_stays_inside("videos/./a/../b.mp4"));
    assert!(!relative_path_stays_inside("../secret"));
    assert!(!relative_path_stays_inside("videos/../../etc/passwd"));
    assert!(!relative_path_stays_inside("/etc/passwd"));
    assert!(!relative_path_stays_inside("C:\\Windows"));
    assert!(!relative_path_stays_inside("a\\..\\..\\b"));
}
