//! File paths: joining a repository-relative path onto a directory, and the
//! name of the sibling file that a rewrite goes through.

use vstd::prelude::*;
use vstd::string::*;
use std::hash::{Hash, Hasher};

verus! {

/// `rel` pushed onto `base` with POSIX separators: an absolute `rel` replaces
/// `base`, an empty `base` gives `rel`, and a separator is put between the two
/// unless `base` already ends in one.
pub open spec fn joined(base: Seq<char>, rel: Seq<char>) -> Seq<char> {
    if rel.len() > 0 && rel[0] == '/' {
        rel
    } else if base.len() == 0 {
        rel
    } else if base.last() == '/' {
        base + rel
    } else {
        base + seq!['/'] + rel
    }
}

/// Joins a path onto a directory, as pushing it onto a path buffer does.
pub fn path_combine(path1: &str, path2: &str) -> (r: String)
    ensures
        r@ == joined(path1@, path2@),
{
    let n1 = path1.unicode_len();
    let n2 = path2.unicode_len();
    if n2 > 0 && path2.get_char(0) == '/' {
        return String::from_str(path2);
    }
    if n1 == 0 {
        return String::from_str(path2);
    }
    let base = String::from_str(path1);
    if path1.get_char(n1 - 1) == '/' {
        base.concat(path2)
    } else {
        let sep = "/";
        proof {
            reveal_strlit("/");
        }
        assert(sep@ =~= seq!['/']);
        base.concat(sep).concat(path2)
    }
}

/// What the standard library's default hasher gives for a string.
pub uninterp spec fn default_hash_of(s: Seq<char>) -> u64;

/// Relies on std's DefaultHasher: every hasher made by `DefaultHasher::new`
/// is the same, so the hash of a string depends on the string alone.
#[verifier::external_body]
fn default_hash(s: &str) -> (r: u64)
    ensures
        r == default_hash_of(s@),
{
    let mut h = std::collections::hash_map::DefaultHasher::new();
    s.hash(&mut h);
    h.finish()
}

/// The hash that names the sibling file of a rewrite.
pub fn calculate_hash(t: &str) -> (r: u64)
    ensures
        r == default_hash_of(t@),
{
    default_hash(t)
}

/// The decimal digit for `d`.
pub open spec fn digit_char(d: nat) -> char {
    if d == 0 { '0' } else if d == 1 { '1' } else if d == 2 { '2' } else if d == 3 { '3' }
    else if d == 4 { '4' } else if d == 5 { '5' } else if d == 6 { '6' } else if d == 7 { '7' }
    else if d == 8 { '8' } else { '9' }
}

/// The decimal digits of `n`, with no leading zero.
pub open spec fn decimal(n: nat) -> Seq<char>
    decreases n,
{
    if n < 10 {
        seq![digit_char(n)]
    } else {
        decimal(n / 10).push(digit_char(n % 10))
    }
}

/// Relies on u64's `to_string`: an integer is written in decimal digits with
/// no sign and no leading zero.
#[verifier::external_body]
fn decimal_string(n: u64) -> (r: String)
    ensures
        r@ == decimal(n as nat),
{
    n.to_string()
}

/// The name of the sibling file that a rewrite of `file_name` writes first:
/// the name followed by the decimal hash of the name.
pub fn temp_file_name(file_name: &str) -> (r: String)
    ensures
        r@ == file_name@ + decimal(default_hash_of(file_name@) as nat),
{
    let digits = decimal_string(calculate_hash(file_name));
    String::from_str(file_name).concat(digits.as_str())
}

} // verus!
