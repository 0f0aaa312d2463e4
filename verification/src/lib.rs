//! Library behind the holding-folder decryption tool: the record schema of
//! decrypted payloads, sealed-box decryption of downloaded files, key-file
//! handling, object and file naming, and the workflow that ties the S3 bucket
//! steps together.
pub mod decrypt;
pub mod json;
pub mod open_file;
pub mod paths;
pub mod record;
pub mod scan;
pub mod workflow;
