# s3_decrypt

A tool that takes an encrypted telemetry file out of an S3 bucket's
`holding/` folder, keeps a copy in `backup/`, downloads and decrypts it
(a libsodium sealed box opened with a base64-encoded Curve25519 key pair),
checks that the plaintext is a JSON array of M7 records, and then removes the
file from `holding/` and from the local download folder.

Layout:

- `src/` — the verified library (Verus):
  - `workflow.rs`: the run as a state machine (`step`), the keys taken from the
    holding-folder listing, the event a decryption attempt reports
    (`decryption_event`: decrypted only where the sealed box opened), and the
    laws of a run (the held object is deleted only after its backup, its
    download and an opened sealed box; pipeline order; bounded length).
  - `decrypt.rs`: key decoding, opening the sealed box, and what a
    decryption comes to.
  - `record.rs`: the record schema and `convert_from_str`, read in text
    order, with its laws: a repeated field is rejected, a member that names
    no field is ignored, the order of the members does not decide, and the
    first bad element is the one reported.
  - `scan.rs`: where the elements of an array and the members of an object
    lie in a JSON text.
  - `json.rs`: what serde_json reads in a JSON text.
  - `paths.rs`: object keys, local paths, and the backup copy request.
  - `open_file.rs`: the key text of a key file.
- `app/main.rs`: the program — bucket requests, files and console output,
  driven by `workflow::step`.
- `tests/`: tests of the library on concrete values.
