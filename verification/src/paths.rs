//! Where things are: the object keys in the bucket, the local files, and the
//! copy request that keeps a backup of a held object.
use vstd::prelude::*;
use vstd::string::StringExecFns;
use vstd::utf8::encode_utf8;

verus! {

/// The object the tool works on, by its name in the bucket folders.
pub const FILE_NAME_UUID: &'static str = "710f5eca-010c-472e-9260-afc70dfd7a60";

/// The bucket that holds the `holding/` and `backup/` folders.
pub const BUCKET_NAME: &'static str = "YOUR BUCKET NAME";

/// The prefix under which new encrypted objects wait.
pub const HOLDING_PREFIX: &'static str = "holding/";

/// The content type given to the backup copy.
pub const BACKUP_CONTENT_TYPE: &'static str = "application/json";

/// The folder where downloaded encrypted files are kept.
pub const DOWNLOADED_DIR: &'static str = "C:/Users/M7/Desktop/decrypt_file/downloaded_encrypted_files/";

/// The folder where decrypted files are written.
pub const DECRYPTED_DIR: &'static str = "C:/Users/M7/Desktop/decrypt_file/decrypted_files/";

/// The file that holds the recipient's public key.
pub const PUBLIC_KEY_PATH: &'static str = "C:/Users/M7/Desktop/encrypt_file/public_key/pk";

/// The file that holds the recipient's secret key.
pub const SECRET_KEY_PATH: &'static str = "C:/Users/M7/Desktop/encrypt_file/secret_key/sk";

/// The request that copies a held object into the backup folder.
#[derive(Debug)]
pub struct CopyRequest {
    /// The bucket that receives the copy.
    pub bucket: String,
    /// The key of the copy.
    pub key: String,
    /// The URL-encoded `bucket/key` of the object copied.
    pub copy_source: String,
    /// The content type given to the copy.
    pub content_type: String,
}

/// Whether a byte stays as it is in an S3 key path: an ASCII letter or
/// digit, or one of `-`, `.`, `_`, `~`, `/`.
pub open spec fn key_path_safe(b: u8) -> bool {
    ||| 48 <= b <= 57
    ||| 65 <= b <= 90
    ||| 97 <= b <= 122
    ||| b == 45 || b == 46 || b == 95 || b == 126 || b == 47
}

/// The upper-case hexadecimal digit for `n < 16`.
pub open spec fn hex_digit(n: u8) -> char {
    if n < 10 {
        (48 + n) as char
    } else {
        (55 + n) as char
    }
}

/// Percent-encodes the bytes: safe bytes stay, every other byte becomes
/// `%` and two upper-case hexadecimal digits.
pub open spec fn percent_encode_path(bytes: Seq<u8>) -> Seq<char>
    decreases bytes.len(),
{
    if bytes.len() == 0 {
        Seq::empty()
    } else {
        let b = bytes[0];
        let head = if key_path_safe(b) {
            seq![b as char]
        } else {
            seq!['%', hex_digit(b / 16), hex_digit(b % 16)]
        };
        head + percent_encode_path(bytes.drop_first())
    }
}

/// Calls `rusoto_s3::util::encode_key`, which percent-encodes the UTF-8
/// bytes of the key with the strict path set (everything but ASCII
/// alphanumerics and `-._~/`), writing hexadecimal digits in upper case.
#[verifier::external_body]
fn encode_key(key: &str) -> (r: String)
    ensures
        r@ == percent_encode_path(encode_utf8(key@)),
{
    rusoto_s3::util::encode_key(key)
}

fn joined(prefix: &str, rest: &str) -> (r: String)
    ensures
        r@ == prefix@ + rest@,
{
    let mut s = prefix.to_owned();
    s.append(rest);
    s
}

/// The local path of the downloaded encrypted file `uuid`.
pub fn downloaded_file_path(uuid: &str) -> (r: String)
    ensures
        r@ == DOWNLOADED_DIR@ + uuid@,
{
    joined(DOWNLOADED_DIR, uuid)
}

/// The local path of the decrypted file `uuid`.
pub fn decrypted_file_path(uuid: &str) -> (r: String)
    ensures
        r@ == DECRYPTED_DIR@ + uuid@,
{
    joined(DECRYPTED_DIR, uuid)
}

/// The path of the object `uuid` in the holding folder, as the bucket
/// client takes it for a download or a delete.
pub fn holding_object_path(uuid: &str) -> (r: String)
    ensures
        r@ == "/holding/"@ + uuid@,
{
    joined("/holding/", uuid)
}

/// The key of the backup copy of the object `uuid`.
pub fn backup_object_key(uuid: &str) -> (r: String)
    ensures
        r@ == "backup/"@ + uuid@,
{
    joined("backup/", uuid)
}

/// The URL-encoded source `bucket/holding/uuid` of the backup copy.
pub fn copy_source(bucket: &str, uuid: &str) -> (r: String)
    ensures
        r@ == percent_encode_path(encode_utf8(bucket@ + "/holding/"@ + uuid@)),
{
    let bucket_slash = joined(bucket, "/holding/");
    let source = joined(bucket_slash.as_str(), uuid);
    encode_key(source.as_str())
}

/// The request that copies `holding/uuid` of `bucket` to `backup/uuid` of
/// the same bucket.
pub fn copy_request(bucket: &str, uuid: &str) -> (r: CopyRequest)
    ensures
        r.bucket@ == bucket@,
        r.key@ == "backup/"@ + uuid@,
        r.copy_source@ == percent_encode_path(encode_utf8(bucket@ + "/holding/"@ + uuid@)),
        r.content_type@ == BACKUP_CONTENT_TYPE@,
{
    CopyRequest {
        bucket: bucket.to_owned(),
        key: backup_object_key(uuid),
        copy_source: copy_source(bucket, uuid),
        content_type: BACKUP_CONTENT_TYPE.to_owned(),
    }
}

} // verus!
