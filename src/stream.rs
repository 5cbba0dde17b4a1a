//! Resolving a path token into the stream that it names: a standard stream
//! or a file.

use vstd::prelude::*;
use vstd::string::StrSliceExecFns;

verus! {

/// Where a stream is bound.
#[derive(Debug)]
pub enum Stream {
    /// The process's standard input, or standard output.
    Standard,
    /// The file at this path.
    File(String),
}

impl View for Stream {
    /// `None` for the standard stream, the path of a file otherwise.
    type V = Option<Seq<char>>;

    open spec fn view(&self) -> Option<Seq<char>> {
        match self {
            Stream::Standard => None,
            Stream::File(path) => Some(path@),
        }
    }
}

/// Whether `token` names the standard stream whose device path is `device`:
/// the empty token, the sentinel `-`, or the device path itself.
pub open spec fn names_standard(token: Seq<char>, device: Seq<char>) -> bool {
    token.len() == 0 || token == "-"@ || token == device
}

/// The stream that an input token names.
pub open spec fn input_choice(token: Seq<char>) -> Option<Seq<char>> {
    if names_standard(token, "/dev/stdin"@) {
        None
    } else {
        Some(token)
    }
}

/// The stream that an output token names.
pub open spec fn output_choice(token: Seq<char>) -> Option<Seq<char>> {
    if names_standard(token, "/dev/stdout"@) {
        None
    } else {
        Some(token)
    }
}

/// Whether two strings hold the same characters.
fn same_text(a: &str, b: &str) -> (r: bool)
    ensures
        r == (a@ == b@),
{
    let n = a.unicode_len();
    if n != b.unicode_len() {
        return false;
    }
    let mut i: usize = 0;
    while i < n
        invariant
            n == a@.len(),
            n == b@.len(),
            0 <= i <= n,
            forall|j: int| 0 <= j < i ==> a@[j] == b@[j],
        decreases n - i,
    {
        if a.get_char(i) != b.get_char(i) {
            return false;
        }
        i = i + 1;
    }
    assert(a@ =~= b@);
    true
}

/// Resolves `token` with `device` as the standard stream's device path.
fn resolve(token: &str, device: &str) -> (r: Stream)
    ensures
        r@ == (if names_standard(token@, device@) {
            None
        } else {
            Some(token@)
        }),
{
    if token.unicode_len() == 0 || same_text(token, "-") || same_text(token, device) {
        Stream::Standard
    } else {
        Stream::File(token.to_owned())
    }
}

/// The input stream that `path` names: standard input for the empty path,
/// `-` and `/dev/stdin`; the file at `path` otherwise.
pub fn istream_from_path(path: &str) -> (r: Stream)
    ensures
        r@ == input_choice(path@),
{
    resolve(path, "/dev/stdin")
}

/// The output stream that `path` names: standard output for the empty path,
/// `-` and `/dev/stdout`; the file at `path` otherwise.
pub fn ostream_from_path(path: &str) -> (r: Stream)
    ensures
        r@ == output_choice(path@),
{
    resolve(path, "/dev/stdout")
}

/// The empty token and the sentinel name the same input stream as the
/// explicit standard-input path, and likewise for output.
pub proof fn lemma_standard_tokens_agree()
    ensures
        input_choice(Seq::empty()) == input_choice("/dev/stdin"@),
        input_choice("-"@) == input_choice("/dev/stdin"@),
        input_choice("/dev/stdin"@) is None,
        output_choice(Seq::empty()) == output_choice("/dev/stdout"@),
        output_choice("-"@) == output_choice("/dev/stdout"@),
        output_choice("/dev/stdout"@) is None,
{
}

} // verus!
