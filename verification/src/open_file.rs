//! The text of a key file: the key is the file's last line, with every
//! double quote taken out.
use vstd::prelude::*;

verus! {

/// The public key text kept when the key file has no lines.
pub const PUBLIC_KEY_PLACEHOLDER: &'static str = "public key";

/// The secret key text kept when the key file has no lines.
pub const SECRET_KEY_PLACEHOLDER: &'static str = "secret key";

/// The characters of `s` without its double quotes.
pub open spec fn unquoted(s: Seq<char>) -> Seq<char> {
    s.filter(|c: char| c != '"')
}

/// The key text read from a file with these lines: the last line without
/// its double quotes, or `placeholder` where there are no lines.
pub open spec fn key_text(lines: Seq<String>, placeholder: Seq<char>) -> Seq<char> {
    if lines.len() == 0 {
        placeholder
    } else {
        unquoted(lines.last()@)
    }
}

/// Calls `str::replace` with the pattern `"` and an empty replacement,
/// which removes every double quote and keeps the other characters in
/// order.
#[verifier::external_body]
fn remove_quotes(s: &str) -> (r: String)
    ensures
        r@ == unquoted(s@),
{
    s.replace("\"", "")
}

/// The key text of a key file with these lines, `placeholder` where it has
/// none.
pub fn key_from_lines(lines: &Vec<String>, placeholder: &str) -> (r: String)
    ensures
        r@ == key_text(lines@, placeholder@),
{
    let mut key = placeholder.to_owned();
    let mut i: usize = 0;
    while i < lines.len()
        invariant
            i <= lines@.len(),
            key@ == key_text(lines@.take(i as int), placeholder@),
        decreases lines@.len() - i,
    {
        key = remove_quotes(lines[i].as_str());
        proof {
            assert(lines@.take(i + 1).last() == lines@[i as int]);
        }
        i = i + 1;
    }
    proof {
        assert(lines@.take(lines@.len() as int) =~= lines@);
    }
    key
}

/// The public key text of a key file with these lines.
pub fn open_public_key(lines: &Vec<String>) -> (r: String)
    ensures
        r@ == key_text(lines@, PUBLIC_KEY_PLACEHOLDER@),
{
    key_from_lines(lines, PUBLIC_KEY_PLACEHOLDER)
}

/// The secret key text of a key file with these lines.
pub fn open_secret_key(lines: &Vec<String>) -> (r: String)
    ensures
        r@ == key_text(lines@, SECRET_KEY_PLACEHOLDER@),
{
    key_from_lines(lines, SECRET_KEY_PLACEHOLDER)
}

} // verus!
