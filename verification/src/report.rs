//! What the user is told of failures, and where failed attempts are
//! written down.

use vstd::prelude::*;
use crate::registry::RegistryError;
use crate::retry::RunError;
use crate::text::{append_chars, chars_of, string_of};

verus! {

/// The character of a decimal digit.
pub open spec fn digit(d: int) -> char {
    ((48 + d) as u8) as char
}

/// `n` written in decimal.
pub open spec fn decimal(n: nat) -> Seq<char>
    decreases n,
{
    if n < 10 {
        seq![digit(n as int)]
    } else {
        decimal(n / 10).push(digit((n % 10) as int))
    }
}

/// `n` written in decimal.
pub fn decimal_chars(n: u32) -> (out: Vec<char>)
    ensures
        out@ == decimal(n as nat),
    decreases n,
{
    if n < 10 {
        let c = ((48 + n) as u8) as char;
        let out: Vec<char> = vec![c];
        assert(out@ =~= seq![digit(n as int)]);
        out
    } else {
        let mut out = decimal_chars(n / 10);
        out.push(((48 + n % 10) as u8) as char);
        out
    }
}

/// How the name of an error file begins.
pub open spec fn error_prefix() -> Seq<char> {
    seq!['e', 'r', 'r', 'o', 'r', '_']
}

/// How the name of an error file ends.
pub open spec fn error_suffix() -> Seq<char> {
    seq!['.', 't', 'x', 't']
}

/// The name of the file that holds the report of the attempt with the
/// retry index `retry`, failed at the instant written `stamp`.
pub open spec fn error_file(stamp: Seq<char>, retry: u32) -> Seq<char> {
    error_prefix() + stamp + seq!['_'] + decimal(retry as nat) + error_suffix()
}

/// A number in decimal has at least one digit, and more than one from
/// ten on.
pub proof fn lemma_decimal_len(n: nat)
    ensures
        decimal(n).len() >= 1,
        n >= 10 ==> decimal(n).len() >= 2,
    decreases n,
{
    if n >= 10 {
        lemma_decimal_len(n / 10);
    }
}

/// Different numbers are written differently.
pub proof fn lemma_decimal_injective(a: nat, b: nat)
    requires
        decimal(a) == decimal(b),
    ensures
        a == b,
    decreases a,
{
    lemma_decimal_len(a);
    lemma_decimal_len(b);
    if a < 10 || b < 10 {
        assert(a < 10 && b < 10);
        assert(decimal(a)[0] == digit(a as int));
        assert(decimal(b)[0] == digit(b as int));
        assert(digit(a as int) as u32 == 48 + a);
        assert(digit(b as int) as u32 == 48 + b);
    } else {
        let x = decimal(a / 10).push(digit((a % 10) as int));
        let y = decimal(b / 10).push(digit((b % 10) as int));
        assert(x.drop_last() =~= decimal(a / 10));
        assert(y.drop_last() =~= decimal(b / 10));
        assert(x.last() == digit((a % 10) as int));
        assert(y.last() == digit((b % 10) as int));
        assert(digit((a % 10) as int) as u32 == 48 + a % 10);
        assert(digit((b % 10) as int) as u32 == 48 + b % 10);
        lemma_decimal_injective(a / 10, b / 10);
    }
}

/// Two failures give two files: error files of stamps of one length have
/// the same name only where stamp and retry index are the same. Within a
/// run every failure has a retry index of its own.
pub proof fn lemma_error_files_differ(s1: Seq<char>, r1: u32, s2: Seq<char>, r2: u32)
    requires
        s1.len() == s2.len(),
        error_file(s1, r1) == error_file(s2, r2),
    ensures
        s1 == s2,
        r1 == r2,
{
    let a = error_file(s1, r1);
    let b = error_file(s2, r2);
    let d1 = decimal(r1 as nat);
    let d2 = decimal(r2 as nat);
    let n = s1.len() as int;
    assert(a.subrange(6, 6 + n) =~= s1);
    assert(b.subrange(6, 6 + n) =~= s2);
    assert(a.len() == 6 + n + 1 + d1.len() + 4);
    assert(b.len() == 6 + n + 1 + d2.len() + 4);
    assert(a.subrange(7 + n, 7 + n + d1.len()) =~= d1);
    assert(b.subrange(7 + n, 7 + n + d2.len()) =~= d2);
    lemma_decimal_injective(r1 as nat, r2 as nat);
}

/// The report of a failed attempt on the entry `name`.
pub open spec fn error_text(name: Seq<char>, cause: Seq<char>) -> Seq<char> {
    "Error processing '"@ + name + "': "@ + cause
}

/// What is said when every attempt failed.
pub open spec fn exhausted_text(retries: u32, cause: Seq<char>) -> Seq<char> {
    "Failed to process entry after "@ + decimal(retries as nat) + " retries: "@ + cause
}

/// What is said of a refused change to the registry.
pub open spec fn registry_text(error: RegistryError, name: Seq<char>) -> Seq<char> {
    match error {
        RegistryError::InvalidUrl => "Invalid URL format"@,
        RegistryError::AlreadyExists => "Entry with name '"@ + name + "' already exists"@,
        RegistryError::NotFound => "Entry with name '"@ + name + "' does not exist"@,
    }
}

/// What is said of an entry that cannot be run.
pub open spec fn run_text(error: RunError, name: Seq<char>) -> Seq<char> {
    match error {
        RunError::NotFound => "Entry with name '"@ + name + "' does not exist"@,
        RunError::Disabled => "Entry '"@ + name + "' is disabled"@,
    }
}

/// The three texts in a row.
fn three(a: &str, b: &Vec<char>, c: &str) -> (out: Vec<char>)
    ensures
        out@ == a@ + b@ + c@,
{
    let mut out = chars_of(a);
    append_chars(&mut out, b);
    append_chars(&mut out, &chars_of(c));
    out
}

/// The name of the file that holds the report of the attempt with the
/// retry index `retry`, failed at the instant written `stamp`.
pub fn error_file_name(stamp: &str, retry: u32) -> (out: String)
    ensures
        out@ == error_file(stamp@, retry),
{
    let mut out: Vec<char> = vec!['e', 'r', 'r', 'o', 'r', '_'];
    append_chars(&mut out, &chars_of(stamp));
    out.push('_');
    append_chars(&mut out, &decimal_chars(retry));
    let suffix: Vec<char> = vec!['.', 't', 'x', 't'];
    append_chars(&mut out, &suffix);
    assert(out@ =~= error_file(stamp@, retry));
    string_of(&out)
}

/// The report of a failed attempt on the entry `name`.
pub fn error_report(name: &str, cause: &str) -> (out: String)
    ensures
        out@ == error_text(name@, cause@),
{
    let mut out = three("Error processing '", &chars_of(name), "': ");
    append_chars(&mut out, &chars_of(cause));
    string_of(&out)
}

/// What is said when every attempt failed.
pub fn exhausted_message(retries: u32, cause: &str) -> (out: String)
    ensures
        out@ == exhausted_text(retries, cause@),
{
    let mut out = three("Failed to process entry after ", &decimal_chars(retries), " retries: ");
    append_chars(&mut out, &chars_of(cause));
    string_of(&out)
}

/// What is said of a refused change to the registry.
pub fn registry_message(error: RegistryError, name: &str) -> (out: String)
    ensures
        out@ == registry_text(error, name@),
{
    match error {
        RegistryError::InvalidUrl => "Invalid URL format".to_owned(),
        RegistryError::AlreadyExists => string_of(
            &three("Entry with name '", &chars_of(name), "' already exists"),
        ),
        RegistryError::NotFound => string_of(
            &three("Entry with name '", &chars_of(name), "' does not exist"),
        ),
    }
}

/// What is said of an entry that cannot be run.
pub fn run_message(error: RunError, name: &str) -> (out: String)
    ensures
        out@ == run_text(error, name@),
{
    match error {
        RunError::NotFound => string_of(
            &three("Entry with name '", &chars_of(name), "' does not exist"),
        ),
        RunError::Disabled => string_of(&three("Entry '", &chars_of(name), "' is disabled")),
    }
}

} // verus!
