use certstore::http::{http_request, parse_path, HttpResponse, ReadTarget};
use certstore::principal::Principal;
use certstore::storage::Storage;
use certstore::text::quote_base64;

fn download(file_id: &str) -> ReadTarget {
    ReadTarget::Download { file_id: file_id.to_string() }
}

fn chunk(file_id: &str, index: u32) -> ReadTarget {
    ReadTarget::Chunk { file_id: file_id.to_string(), index }
}

fn not_found() -> HttpResponse {
    HttpResponse { status_code: 404, headers: vec![], body: b"not found".to_vec() }
}

fn uploaded() -> Storage {
    let mut storage = Storage::new("us".to_string());
    let caller = Principal::try_from_slice(&[1]).unwrap();
    storage.start_upload(&caller, None, "f1".to_string(), 6, 3, 2, 0).unwrap();
    storage.put_chunk("f1".to_string(), 0, b"abc".to_vec(), vec![]);
    storage.put_chunk("f1".to_string(), 1, b"def".to_vec(), vec![]);
    storage
}

#[test]
fn path_outside_file_is_unmatched() {
    assert_eq!(parse_path(""), ReadTarget::Unmatched);
    assert_eq!(parse_path("/"), ReadTarget::Unmatched);
    assert_eq!(parse_path("/file"), ReadTarget::Unmatched);
    assert_eq!(parse_path("/files/f1"), ReadTarget::Unmatched);
    assert_eq!(parse_path("file/f1"), ReadTarget::Unmatched);
}

#[test]
fn path_with_chunk_query_names_the_chunk() {
    assert_eq!(parse_path("/file/f1?chunk=0"), chunk("f1", 0));
    assert_eq!(parse_path("/file/f1?chunk=17"), chunk("f1", 17));
    assert_eq!(parse_path("/file/f1?chunk=+4"), chunk("f1", 4));
    assert_eq!(parse_path("/file/f1?chunk=4294967295"), chunk("f1", u32::MAX));
}

#[test]
fn path_without_usable_chunk_query_is_unmatched() {
    assert_eq!(parse_path("/file/f1"), ReadTarget::Unmatched);
    assert_eq!(parse_path("/file/f1?"), ReadTarget::Unmatched);
    assert_eq!(parse_path("/file/f1?chunk="), ReadTarget::Unmatched);
    assert_eq!(parse_path("/file/f1?chunk=x"), ReadTarget::Unmatched);
    assert_eq!(parse_path("/file/f1?chunk=-1"), ReadTarget::Unmatched);
    assert_eq!(parse_path("/file/f1?chunk=4294967296"), ReadTarget::Unmatched);
    assert_eq!(parse_path("/file/f1?chunk=1=2"), ReadTarget::Unmatched);
    assert_eq!(parse_path("/file/f1?Chunk=1"), ReadTarget::Unmatched);
    assert_eq!(parse_path("/file/f1?chunks=1"), ReadTarget::Unmatched);
    assert_eq!(parse_path("/file/f1?a=b&c"), ReadTarget::Unmatched);
    assert_eq!(parse_path("/file/"), ReadTarget::Unmatched);
}

#[test]
fn last_usable_chunk_pair_counts() {
    assert_eq!(parse_path("/file/f1?chunk=1&chunk=2"), chunk("f1", 2));
    assert_eq!(parse_path("/file/f1?chunk=1&chunk=x"), chunk("f1", 1));
    assert_eq!(parse_path("/file/f1?a=b&chunk=3&c"), chunk("f1", 3));
    assert_eq!(parse_path("/file/f1?&&chunk=5&"), chunk("f1", 5));
}

#[test]
fn query_starts_at_the_first_question_mark() {
    assert_eq!(parse_path("/file/f1?chunk=1?chunk=2"), ReadTarget::Unmatched);
    assert_eq!(parse_path("/file/a?b?chunk=1"), ReadTarget::Unmatched);
    assert_eq!(parse_path("/file/f1?x?&chunk=2"), chunk("f1", 2));
    assert_eq!(parse_path("/file/a/b?chunk=2"), chunk("a/b", 2));
    assert_eq!(parse_path("/file/?chunk=0"), chunk("", 0));
}

#[test]
fn route_that_ends_in_download_names_the_file() {
    assert_eq!(parse_path("/file/f1/download"), download("f1"));
    assert_eq!(parse_path("/file/f1/download?chunk=3"), download("f1"));
    assert_eq!(parse_path("/file/a/b/download"), download("a/b"));
    assert_eq!(parse_path("/file//download"), download(""));
}

#[test]
fn one_download_ending_is_taken_off() {
    assert_eq!(parse_path("/file/f1/download/download"), download("f1/download"));
    assert_eq!(
        parse_path("/file/f1/download/download/download"),
        download("f1/download/download")
    );
    assert_eq!(parse_path("/file/f1/downloadx/download"), download("f1/downloadx"));
}

#[test]
fn download_has_to_end_the_route() {
    assert_eq!(parse_path("/file/download"), ReadTarget::Unmatched);
    assert_eq!(parse_path("/file/download?chunk=1"), chunk("download", 1));
    assert_eq!(parse_path("/file/f1/download/"), ReadTarget::Unmatched);
    assert_eq!(parse_path("/file/f1/download/?chunk=0"), chunk("f1/download/", 0));
    assert_eq!(parse_path("/file/f1?x=/download"), ReadTarget::Unmatched);
    assert_eq!(parse_path("/file/f1?chunk=2&x=/download"), chunk("f1", 2));
}

#[test]
fn file_id_may_hold_any_character() {
    assert_eq!(parse_path("/file/é ü?chunk=1"), chunk("é ü", 1));
    assert_eq!(parse_path("/file/日本/download"), download("日本"));
}

#[test]
fn unmatched_path_is_not_found() {
    let storage = uploaded();
    assert_eq!(http_request(&storage, "/other", Some(vec![1, 2, 3])), not_found());
    assert_eq!(http_request(&storage, "", None), not_found());
}

#[test]
fn chunk_read_carries_certificate_and_witness() {
    let storage = uploaded();
    let response = http_request(&storage, "/file/f1?chunk=1", Some(b"hello world".to_vec()));
    assert_eq!(response.status_code, 200);
    assert_eq!(response.body, b"def".to_vec());
    assert_eq!(
        response.headers,
        vec![
            ("IC-Certificate".to_string(), "certificate=\"aGVsbG8gd29ybGQ=\"".to_string()),
            (
                "IC-Certificate".to_string(),
                quote_base64("tree", &storage.witness(b"chunk:f1:1")),
            ),
        ]
    );
    assert!(!storage.witness(b"chunk:f1:1").is_empty());
}

#[test]
fn chunk_read_without_certificate_carries_the_witness_only() {
    let storage = uploaded();
    let response = http_request(&storage, "/file/f1?chunk=0", None);
    assert_eq!(response.status_code, 200);
    assert_eq!(response.body, b"abc".to_vec());
    assert_eq!(
        response.headers,
        vec![("IC-Certificate".to_string(), quote_base64("tree", &storage.witness(b"chunk:f1:0")))]
    );
}

#[test]
fn read_without_chunk_query_is_not_found() {
    let storage = uploaded();
    assert_eq!(http_request(&storage, "/file/f1", Some(vec![1])), not_found());
    assert_eq!(http_request(&storage, "/file/f1?", None), not_found());
    assert_eq!(http_request(&storage, "/file/f1?chunk=x", None), not_found());
    assert_eq!(http_request(&storage, "/file/f1?chunk=-1", None), not_found());
    assert_eq!(http_request(&storage, "/file/f1?chunk=4294967296", None), not_found());
}

#[test]
fn read_with_a_second_question_mark_does_not_fall_back_to_chunk_zero() {
    let mut storage = uploaded();
    storage.put_chunk("a".to_string(), 0, b"zero".to_vec(), vec![]);
    assert_eq!(http_request(&storage, "/file/a?b?chunk=1", None), not_found());
}

#[test]
fn read_of_a_missing_chunk_is_not_found() {
    let storage = uploaded();
    assert_eq!(http_request(&storage, "/file/f1?chunk=2", Some(vec![1])), not_found());
    assert_eq!(http_request(&storage, "/file/f2?chunk=0", None), not_found());
}

#[test]
fn download_serves_the_assembled_file() {
    let storage = uploaded();
    let response = http_request(&storage, "/file/f1/download", Some(b"hello world".to_vec()));
    assert_eq!(
        response,
        HttpResponse {
            status_code: 200,
            headers: vec![("Content-Type".to_string(), "application/octet-stream".to_string())],
            body: b"abcdef".to_vec(),
        }
    );
}

#[test]
fn download_without_certificate_is_the_same() {
    let storage = uploaded();
    let response = http_request(&storage, "/file/f1/download", None);
    assert_eq!(
        response.headers,
        vec![("Content-Type".to_string(), "application/octet-stream".to_string())]
    );
    assert_eq!(response.body, b"abcdef".to_vec());
}

#[test]
fn download_of_an_incomplete_or_unknown_file_is_not_found() {
    let mut storage = Storage::new("us".to_string());
    let caller = Principal::try_from_slice(&[1]).unwrap();
    storage.start_upload(&caller, None, "f1".to_string(), 6, 3, 2, 0).unwrap();
    storage.put_chunk("f1".to_string(), 0, b"abc".to_vec(), vec![]);
    assert_eq!(http_request(&storage, "/file/f1/download", Some(vec![1])), not_found());
    assert_eq!(http_request(&storage, "/file/f2/download", None), not_found());
}
