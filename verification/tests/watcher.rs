use inscription_verifier::error::CapabilityFailure;
use inscription_verifier::watcher::resolved_inscription_id;

const ID: &str = "ff06f3370b5393c990533baefd80bef08d47cdaff8088246c1359db1366d60fei0";

#[test]
fn inscription_id_is_read_from_the_answer() {
    let answer = format!("{{\"block_hash\":\"{}\"}}", ID);
    assert_eq!(resolved_inscription_id(answer.as_bytes()), Ok(ID.to_string()));
    let answer = format!(" {{ \"height\": 7, \"block_hash\" : \"{}\", \"more\": [1, 2] }}\n", ID);
    assert_eq!(resolved_inscription_id(answer.as_bytes()), Ok(ID.to_string()));
}

#[test]
fn escapes_in_the_answer_are_resolved() {
    assert_eq!(
        resolved_inscription_id(b"{\"block_hash\":\"a\\u0062c\\n\"}"),
        Ok("abc\n".to_string())
    );
}

#[test]
fn answer_without_the_text_means_not_found() {
    let not_found = Err(CapabilityFailure::NotFound);
    assert_eq!(resolved_inscription_id(b"{}"), not_found);
    assert_eq!(resolved_inscription_id(b"{\"block\":\"abc\"}"), not_found);
    assert_eq!(resolved_inscription_id(b"{\"block_hash\":7}"), not_found);
    assert_eq!(resolved_inscription_id(b"{\"block_hash\":null}"), not_found);
    assert_eq!(resolved_inscription_id(b"[\"block_hash\"]"), not_found);
    assert_eq!(resolved_inscription_id(b"\"block_hash\""), not_found);
}

#[test]
fn answer_that_is_no_json_means_not_found() {
    let not_found = Err(CapabilityFailure::NotFound);
    assert_eq!(resolved_inscription_id(b""), not_found);
    assert_eq!(resolved_inscription_id(b"{\"block_hash\":\"abc\""), not_found);
    assert_eq!(resolved_inscription_id(b"block_hash"), not_found);
    assert_eq!(resolved_inscription_id(&[0xff, 0xfe]), not_found);
}
