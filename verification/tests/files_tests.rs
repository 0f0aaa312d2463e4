use s3_decrypt::open_file::{key_from_lines, open_public_key, open_secret_key};
use s3_decrypt::paths::{
    backup_object_key, copy_request, copy_source, decrypted_file_path, downloaded_file_path, holding_object_path,
    BUCKET_NAME, FILE_NAME_UUID,
};

#[test]
fn key_is_last_line_without_quotes() {
    let lines = vec!["\"first\"".to_string(), "\"ab\"c\"d\"".to_string()];
    assert_eq!(open_public_key(&lines), "abcd");
    assert_eq!(open_secret_key(&lines), "abcd");
    assert_eq!(key_from_lines(&vec!["x\"y".to_string()], "z"), "xy");
}

#[test]
fn empty_key_file_keeps_placeholder() {
    assert_eq!(open_public_key(&vec![]), "public key");
    assert_eq!(open_secret_key(&vec![]), "secret key");
}

#[test]
fn local_paths() {
    assert_eq!(
        downloaded_file_path(FILE_NAME_UUID),
        "C:/Users/M7/Desktop/decrypt_file/downloaded_encrypted_files/710f5eca-010c-472e-9260-afc70dfd7a60"
    );
    assert_eq!(
        decrypted_file_path("abc"),
        "C:/Users/M7/Desktop/decrypt_file/decrypted_files/abc"
    );
}

#[test]
fn bucket_paths() {
    assert_eq!(holding_object_path("abc"), "/holding/abc");
    assert_eq!(backup_object_key("abc"), "backup/abc");
}

#[test]
fn copy_source_is_percent_encoded() {
    assert_eq!(
        copy_source(BUCKET_NAME, FILE_NAME_UUID),
        "YOUR%20BUCKET%20NAME/holding/710f5eca-010c-472e-9260-afc70dfd7a60"
    );
    assert_eq!(copy_source("b", "a+b~c_d.é"), "b/holding/a%2Bb~c_d.%C3%A9");
}

#[test]
fn copy_request_fields() {
    let req = copy_request("bucket", "k1");
    assert_eq!(req.bucket, "bucket");
    assert_eq!(req.key, "backup/k1");
    assert_eq!(req.copy_source, "bucket/holding/k1");
    assert_eq!(req.content_type, "application/json");
}
