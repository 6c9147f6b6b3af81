use cert_registry::indexer::ApiError;
use cert_registry::paging::{get_response_paging_info, PagingInfo, DEFAULT_LIMIT, DEFAULT_OFFSET};

const TEST_LINK: &str = "/api/test?";

fn create_test_paging_response(
    offset: i64,
    limit: i64,
    next_offset: i64,
    previous_offset: i64,
    last_offset: i64,
) -> Result<PagingInfo, ApiError> {
    let base_link = format!("{}limit={}&", TEST_LINK, limit);
    Ok(PagingInfo {
        link: format!("{}offset={}", base_link, offset),
        offset,
        limit,
        total: 1000,
        first: format!("{}offset=0", base_link),
        prev: format!("{}offset={}", base_link, previous_offset),
        next: format!("{}offset={}", base_link, next_offset),
        last: format!("{}offset={}", base_link, last_offset),
    })
}

#[test]
fn test_default_paging_response() {
    let test_paging_response =
        get_response_paging_info(None, None, String::from(TEST_LINK), 1000).unwrap();
    let generated_paging_response =
        create_test_paging_response(DEFAULT_OFFSET, DEFAULT_LIMIT, 100, 0, 900).unwrap();
    assert_eq!(test_paging_response.link, generated_paging_response.link);
    assert_eq!(test_paging_response, generated_paging_response);
}

#[test]
fn test_50offset_paging_response() {
    let test_paging_response =
        get_response_paging_info(None, Some(50), String::from(TEST_LINK), 1000).unwrap();
    let generated_paging_response =
        create_test_paging_response(50, DEFAULT_LIMIT, 150, 0, 900).unwrap();
    assert_eq!(test_paging_response.link, generated_paging_response.link);
    assert_eq!(test_paging_response, generated_paging_response);
}

#[test]
fn test_550offset_paging_response() {
    let test_paging_response =
        get_response_paging_info(None, Some(550), String::from(TEST_LINK), 1000).unwrap();
    let generated_paging_response =
        create_test_paging_response(550, DEFAULT_LIMIT, 650, 450, 900).unwrap();
    assert_eq!(test_paging_response.link, generated_paging_response.link);
    assert_eq!(test_paging_response, generated_paging_response);
}

#[test]
fn test_950offset_paging_response() {
    let test_paging_response =
        get_response_paging_info(None, Some(950), String::from(TEST_LINK), 1000).unwrap();
    let generated_paging_response =
        create_test_paging_response(950, DEFAULT_LIMIT, 900, 850, 900).unwrap();
    assert_eq!(test_paging_response.link, generated_paging_response.link);
    assert_eq!(test_paging_response, generated_paging_response);
}

#[test]
fn test_50limit_paging_response() {
    let test_paging_response =
        get_response_paging_info(Some(50), None, String::from(TEST_LINK), 1000).unwrap();
    let generated_paging_response =
        create_test_paging_response(DEFAULT_OFFSET, 50, 50, 0, 950).unwrap();
    assert_eq!(test_paging_response.link, generated_paging_response.link);
    assert_eq!(test_paging_response, generated_paging_response);
}

#[test]
fn test_50limit_150offset_paging_response() {
    let test_paging_response =
        get_response_paging_info(Some(50), Some(150), String::from(TEST_LINK), 1000).unwrap();
    let generated_paging_response =
        create_test_paging_response(150, 50, 200, 100, 950).unwrap();
    assert_eq!(test_paging_response.link, generated_paging_response.link);
    assert_eq!(test_paging_response, generated_paging_response);
}

#[test]
fn paging_edge_cases() {
    let none = get_response_paging_info(Some(10), None, String::from(TEST_LINK), 0).unwrap();
    assert_eq!(none.last, "/api/test?limit=10&offset=0");
    assert_eq!(none.next, "/api/test?limit=10&offset=0");
    let one = get_response_paging_info(Some(1), None, String::from(TEST_LINK), 0).unwrap();
    assert_eq!(one.last, "/api/test?limit=1&offset=-1");
    assert!(matches!(
        get_response_paging_info(Some(0), None, String::from(TEST_LINK), 10),
        Err(ApiError::BadRequest(_))
    ));
    assert!(matches!(
        get_response_paging_info(None, Some(-1), String::from(TEST_LINK), 10),
        Err(ApiError::BadRequest(_))
    ));
    let big = get_response_paging_info(Some(i64::MAX), Some(i64::MAX), String::from(""), i64::MAX).unwrap();
    assert_eq!(big.link, format!("limit={}&offset={}", i64::MAX, i64::MAX));
    assert_eq!(big.prev, format!("limit={}&offset=0", i64::MAX));
}
