//! The filter engine: the lines of an input in which a pattern finds a match,
//! in input order, and the bytes that emit them.

use crate::lines::{contents, joined, lines_of, split_lines, NEWLINE};
use crate::pattern::{finds_match, Pattern};
use vstd::prelude::*;
use vstd::utf8::{decode_utf8, encode_utf8, valid_utf8};

verus! {

/// A line of the input is not valid UTF-8; `line` is its index, from 0.
#[derive(Debug, PartialEq, Eq)]
pub enum ReadError {
    InvalidUtf8 { line: usize },
}

/// Whether every line is valid UTF-8.
pub open spec fn all_utf8(lines: Seq<Seq<u8>>) -> bool {
    forall|i: int| 0 <= i < lines.len() ==> valid_utf8(#[trigger] lines[i])
}

/// The text of each line.
pub open spec fn texts_of(lines: Seq<Seq<u8>>) -> Seq<Seq<char>> {
    lines.map_values(|l: Seq<u8>| decode_utf8(l))
}

/// The characters of each string.
pub open spec fn strings(v: Seq<String>) -> Seq<Seq<char>> {
    v.map_values(|s: String| s@)
}

/// The texts in which the pattern compiled from `expr` finds a match, in order.
pub open spec fn matching(expr: Seq<char>, texts: Seq<Seq<char>>) -> Seq<Seq<char>>
    decreases texts.len(),
{
    if texts.len() == 0 {
        seq![]
    } else if finds_match(expr, texts.last()) {
        matching(expr, texts.drop_last()).push(texts.last())
    } else {
        matching(expr, texts.drop_last())
    }
}

/// The texts whose verdict, at the same index, is true, in order.
pub open spec fn kept(texts: Seq<Seq<char>>, verdicts: Seq<bool>) -> Seq<Seq<char>>
    recommends
        texts.len() == verdicts.len(),
    decreases texts.len(),
{
    if texts.len() == 0 {
        seq![]
    } else if verdicts.last() {
        kept(texts.drop_last(), verdicts.drop_last()).push(texts.last())
    } else {
        kept(texts.drop_last(), verdicts.drop_last())
    }
}

/// The bytes that emit `texts`: each one in UTF-8, followed by one newline.
pub open spec fn emitted(texts: Seq<Seq<char>>) -> Seq<u8> {
    joined(texts.map_values(|t: Seq<char>| encode_utf8(t)))
}

/// The output of one pass of the filter over `input`, when every line of it
/// is valid UTF-8.
pub open spec fn filter_output(expr: Seq<char>, input: Seq<u8>) -> Seq<u8> {
    emitted(matching(expr, texts_of(lines_of(input))))
}

/// Whether `k` is the index of the first line that is not valid UTF-8.
pub open spec fn first_invalid(lines: Seq<Seq<u8>>, k: int) -> bool {
    &&& 0 <= k < lines.len()
    &&& !valid_utf8(lines[k])
    &&& forall|j: int| 0 <= j < k ==> valid_utf8(#[trigger] lines[j])
}

/// Verdicts given one by one select the same texts as the pattern does.
pub proof fn lemma_kept_matching(expr: Seq<char>, texts: Seq<Seq<char>>, verdicts: Seq<bool>)
    requires
        texts.len() == verdicts.len(),
        forall|j: int| 0 <= j < texts.len() ==> verdicts[j] == finds_match(expr, #[trigger] texts[j]),
    ensures
        kept(texts, verdicts) == matching(expr, texts),
    decreases texts.len(),
{
    if texts.len() > 0 {
        let n = texts.len() - 1;
        assert(verdicts.last() == finds_match(expr, texts[n as int]));
        lemma_kept_matching(expr, texts.drop_last(), verdicts.drop_last());
    }
}

/// Relies on std::str::from_utf8: it succeeds exactly on valid UTF-8, and the
/// text is what the bytes encode.
#[verifier::external_body]
fn utf8_text(b: &[u8]) -> (r: Option<&str>)
    ensures
        r is Some <==> valid_utf8(b@),
        r matches Some(t) ==> t@ == decode_utf8(b@),
{
    std::str::from_utf8(b).ok()
}

/// The texts whose verdict, at the same index, is true, in their order.
pub fn select_lines(texts: &Vec<String>, verdicts: &Vec<bool>) -> (r: Vec<String>)
    requires
        texts@.len() == verdicts@.len(),
    ensures
        strings(r@) == kept(strings(texts@), verdicts@),
{
    let mut out: Vec<String> = Vec::new();
    let mut i: usize = 0;
    while i < texts.len()
        invariant
            0 <= i <= texts@.len(),
            texts@.len() == verdicts@.len(),
            strings(out@) == kept(
                strings(texts@).subrange(0, i as int),
                verdicts@.subrange(0, i as int),
            ),
        decreases texts@.len() - i,
    {
        let ghost before = out@;
        assert(strings(texts@).subrange(0, i + 1).drop_last() =~= strings(texts@).subrange(0, i as int));
        assert(verdicts@.subrange(0, i + 1).drop_last() =~= verdicts@.subrange(0, i as int));
        if verdicts[i] {
            out.push(texts[i].clone());
            assert(strings(out@) =~= strings(before).push(texts@[i as int]@));
        }
        i = i + 1;
    }
    assert(strings(texts@).subrange(0, texts@.len() as int) =~= strings(texts@));
    assert(verdicts@.subrange(0, texts@.len() as int) =~= verdicts@);
    out
}

/// The lines of `input` in which `pattern` finds a match, in input order.
/// Fails, with nothing returned, where a line is not valid UTF-8.
pub fn get_matches(pattern: &Pattern, input: &[u8]) -> (r: Result<Vec<String>, ReadError>)
    ensures
        r is Ok <==> all_utf8(lines_of(input@)),
        r matches Ok(v) ==> strings(v@) == matching(pattern.expr(), texts_of(lines_of(input@))),
        r matches Err(ReadError::InvalidUtf8 { line }) ==> first_invalid(
            lines_of(input@),
            line as int,
        ),
{
    let lines = split_lines(input);
    let ghost ls = lines_of(input@);
    let mut texts: Vec<String> = Vec::new();
    let mut verdicts: Vec<bool> = Vec::new();
    let mut k: usize = 0;
    while k < lines.len()
        invariant
            ls == lines_of(input@),
            contents(lines@) == ls,
            0 <= k <= lines@.len(),
            texts@.len() == k,
            verdicts@.len() == k,
            forall|j: int| 0 <= j < k ==> valid_utf8(#[trigger] ls[j]),
            strings(texts@) == texts_of(ls).subrange(0, k as int),
            forall|j: int|
                0 <= j < k ==> verdicts@[j] == finds_match(pattern.expr(), #[trigger] strings(texts@)[j]),
        decreases lines@.len() - k,
    {
        assert(lines@[k as int]@ == ls[k as int]);
        match utf8_text(lines[k].as_slice()) {
            Some(t) => {
                let ghost before = texts@;
                verdicts.push(pattern.is_match(t));
                texts.push(t.to_owned());
                assert(strings(texts@) =~= strings(before).push(t@));
                assert(texts_of(ls).subrange(0, k + 1) =~= texts_of(ls).subrange(0, k as int).push(t@));
            },
            None => {
                assert(!valid_utf8(ls[k as int]));
                assert(!all_utf8(ls));
                return Err(ReadError::InvalidUtf8 { line: k });
            },
        }
        k = k + 1;
    }
    assert(texts_of(ls).subrange(0, k as int) =~= texts_of(ls));
    let r = select_lines(&texts, &verdicts);
    proof {
        lemma_kept_matching(pattern.expr(), strings(texts@), verdicts@);
    }
    Ok(r)
}

/// The bytes that write `lines` out: each line followed by one newline, in order.
pub fn put_matches(lines: &Vec<String>) -> (r: Vec<u8>)
    ensures
        r@ == emitted(strings(lines@)),
{
    let mut out: Vec<u8> = Vec::new();
    let mut i: usize = 0;
    while i < lines.len()
        invariant
            0 <= i <= lines@.len(),
            out@ == emitted(strings(lines@).subrange(0, i as int)),
        decreases lines@.len() - i,
    {
        let bytes = lines[i].as_str().as_bytes();
        let ghost start = out@;
        let mut j: usize = 0;
        while j < bytes.len()
            invariant
                0 <= j <= bytes@.len(),
                out@ == start + bytes@.subrange(0, j as int),
            decreases bytes@.len() - j,
        {
            out.push(bytes[j]);
            assert(bytes@.subrange(0, j + 1) =~= bytes@.subrange(0, j as int).push(bytes@[j as int]));
            j = j + 1;
        }
        out.push(NEWLINE);
        proof {
            let ts = strings(lines@).subrange(0, i + 1);
            assert(bytes@.subrange(0, bytes@.len() as int) =~= bytes@);
            assert(ts.drop_last() =~= strings(lines@).subrange(0, i as int));
            assert(ts.map_values(|t: Seq<char>| encode_utf8(t)).drop_last() =~= ts.drop_last().map_values(
                |t: Seq<char>| encode_utf8(t),
            ));
        }
        i = i + 1;
    }
    assert(strings(lines@).subrange(0, lines@.len() as int) =~= strings(lines@));
    out
}

/// One pass of the filter: the bytes that emit the lines of `input` in which
/// `pattern` finds a match. Fails, with nothing emitted, where a line is not
/// valid UTF-8.
pub fn filter_lines(pattern: &Pattern, input: &[u8]) -> (r: Result<Vec<u8>, ReadError>)
    ensures
        r is Ok <==> all_utf8(lines_of(input@)),
        r matches Ok(out) ==> out@ == filter_output(pattern.expr(), input@),
        r matches Err(ReadError::InvalidUtf8 { line }) ==> first_invalid(
            lines_of(input@),
            line as int,
        ),
{
    match get_matches(pattern, input) {
        Ok(lines) => Ok(put_matches(&lines)),
        Err(e) => Err(e),
    }
}

} // verus!
