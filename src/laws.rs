//! Properties of the filter that relate its parts, proved over the same spec
//! functions that the executable functions' contracts use.

use crate::filter::{all_utf8, emitted, filter_output, matching, texts_of};
use crate::lines::{joined, lines_from, lines_of, strip_cr, CARRIAGE_RETURN, NEWLINE};
use crate::pattern::finds_match;
use vstd::prelude::*;
use vstd::utf8::{
    decode_utf8, decode_utf8_encode_utf8, encode_utf8, encode_utf8_decode_utf8,
    encode_utf8_valid_utf8, valid_utf8,
};

verus! {

/// No byte of `l` is a newline.
pub open spec fn no_newline(l: Seq<u8>) -> bool {
    forall|j: int| 0 <= j < l.len() ==> l[j] != NEWLINE
}

/// No newline in `s` comes right after a carriage return.
pub open spec fn no_crlf(s: Seq<u8>) -> bool {
    forall|j: int| 0 <= j && j + 1 < s.len() && #[trigger] s[j + 1] == NEWLINE ==> s[j] != CARRIAGE_RETURN
}

/// `s` with a newline added at its end, unless it is empty or has one there.
pub open spec fn normalized(s: Seq<u8>) -> Seq<u8> {
    if s.len() == 0 || s.last() == NEWLINE {
        s
    } else {
        s.push(NEWLINE)
    }
}

/// `idx` gives, in increasing order, the positions in `full` of the items of
/// `sub`.
pub open spec fn picks<A>(idx: Seq<int>, sub: Seq<A>, full: Seq<A>) -> bool {
    &&& idx.len() == sub.len()
    &&& forall|k: int| 0 <= k < idx.len() ==> 0 <= #[trigger] idx[k] < full.len() && full[idx[k]] == sub[k]
    &&& forall|k: int, m: int| #![trigger idx[k], idx[m]] 0 <= k < m < idx.len() ==> idx[k] < idx[m]
}

/// `sub` is `full` with some items left out, the rest in their order.
pub open spec fn is_subsequence<A>(sub: Seq<A>, full: Seq<A>) -> bool {
    exists|idx: Seq<int>| picks(idx, sub, full)
}

proof fn lemma_matching_picks(expr: Seq<char>, texts: Seq<Seq<char>>) -> (idx: Seq<int>)
    ensures
        picks(idx, matching(expr, texts), texts),
        forall|k: int| 0 <= k < matching(expr, texts).len() ==> finds_match(expr, #[trigger] matching(expr, texts)[k]),
    decreases texts.len(),
{
    if texts.len() == 0 {
        seq![]
    } else {
        let sub = texts.drop_last();
        let i0 = lemma_matching_picks(expr, sub);
        if finds_match(expr, texts.last()) {
            let idx = i0.push(texts.len() - 1);
            assert forall|k: int| 0 <= k < idx.len() implies 0 <= #[trigger] idx[k] < texts.len() && texts[idx[k]] == matching(expr, texts)[k] by {
                if k < i0.len() {
                    assert(sub[i0[k]] == texts[i0[k]]);
                }
            }
            idx
        } else {
            assert forall|k: int| 0 <= k < i0.len() implies 0 <= #[trigger] i0[k] < texts.len() && texts[i0[k]] == matching(expr, texts)[k] by {
                assert(sub[i0[k]] == texts[i0[k]]);
            }
            i0
        }
    }
}

proof fn lemma_matching_none(expr: Seq<char>, texts: Seq<Seq<char>>)
    requires
        forall|i: int| 0 <= i < texts.len() ==> !finds_match(expr, #[trigger] texts[i]),
    ensures
        matching(expr, texts) == Seq::<Seq<char>>::empty(),
    decreases texts.len(),
{
    if texts.len() > 0 {
        assert(!finds_match(expr, texts[texts.len() - 1]));
        lemma_matching_none(expr, texts.drop_last());
    }
}

proof fn lemma_matching_all(expr: Seq<char>, texts: Seq<Seq<char>>)
    requires
        forall|i: int| 0 <= i < texts.len() ==> finds_match(expr, #[trigger] texts[i]),
    ensures
        matching(expr, texts) == texts,
    decreases texts.len(),
{
    if texts.len() > 0 {
        assert(finds_match(expr, texts[texts.len() - 1]));
        lemma_matching_all(expr, texts.drop_last());
        assert(texts.drop_last().push(texts.last()) =~= texts);
    }
}

proof fn lemma_lines_from_no_newline(cur: Seq<u8>, rest: Seq<u8>)
    requires
        no_newline(cur),
    ensures
        forall|i: int| 0 <= i < lines_from(cur, rest).len() ==> no_newline(#[trigger] lines_from(cur, rest)[i]),
    decreases rest.len(),
{
    if rest.len() == 0 {
        if cur.len() > 0 {
            assert(lines_from(cur, rest) =~= seq![cur]);
        }
    } else if rest[0] == NEWLINE {
        assert(no_newline(strip_cr(cur)));
        lemma_lines_from_no_newline(seq![], rest.drop_first());
        let tail = lines_from(seq![], rest.drop_first());
        assert forall|i: int| 0 <= i < lines_from(cur, rest).len() implies no_newline(#[trigger] lines_from(cur, rest)[i]) by {
            assert(lines_from(cur, rest) == seq![strip_cr(cur)] + tail);
            if i > 0 {
                assert(lines_from(cur, rest)[i] == tail[i - 1]);
            }
        }
    } else {
        assert(no_newline(cur.push(rest[0])));
        assert(lines_from(cur, rest) == lines_from(cur.push(rest[0]), rest.drop_first()));
        lemma_lines_from_no_newline(cur.push(rest[0]), rest.drop_first());
    }
}

/// No line of a byte stream holds a newline.
pub proof fn lemma_lines_have_no_newline(s: Seq<u8>)
    ensures
        forall|i: int| 0 <= i < lines_of(s).len() ==> no_newline(#[trigger] lines_of(s)[i]),
{
    lemma_lines_from_no_newline(seq![], s);
}

proof fn lemma_joined_front(ls: Seq<Seq<u8>>)
    requires
        ls.len() > 0,
    ensures
        joined(ls) == ls[0] + seq![NEWLINE] + joined(ls.drop_first()),
    decreases ls.len(),
{
    if ls.len() == 1 {
        assert(ls.drop_last() =~= Seq::<Seq<u8>>::empty());
        assert(ls.drop_first() =~= Seq::<Seq<u8>>::empty());
        assert(joined(ls) =~= ls[0] + seq![NEWLINE]);
    } else {
        let front = ls.drop_last();
        lemma_joined_front(front);
        assert(front.drop_first() =~= ls.drop_first().drop_last());
        assert(ls.drop_first().last() == ls.last());
        assert(joined(ls) =~= ls[0] + seq![NEWLINE] + joined(ls.drop_first()));
    }
}

proof fn lemma_lines_from_line(cur: Seq<u8>, l: Seq<u8>, rest: Seq<u8>)
    requires
        no_newline(l),
    ensures
        lines_from(cur, l + seq![NEWLINE] + rest) == seq![strip_cr(cur + l)] + lines_from(seq![], rest),
    decreases l.len(),
{
    let s = l + seq![NEWLINE] + rest;
    if l.len() == 0 {
        assert(s.drop_first() =~= rest);
        assert(cur + l =~= cur);
    } else {
        assert(s[0] == l[0]);
        assert(s.drop_first() =~= l.drop_first() + seq![NEWLINE] + rest);
        lemma_lines_from_line(cur.push(l[0]), l.drop_first(), rest);
        assert(cur.push(l[0]) + l.drop_first() =~= cur + l);
    }
}

/// Lines without a newline, none of which ends with a carriage return, are
/// the lines of the bytes that emit them.
pub proof fn lemma_lines_of_joined(ls: Seq<Seq<u8>>)
    requires
        forall|i: int| 0 <= i < ls.len() ==> no_newline(#[trigger] ls[i]) && strip_cr(ls[i]) == ls[i],
    ensures
        lines_of(joined(ls)) == ls,
    decreases ls.len(),
{
    if ls.len() == 0 {
        assert(lines_of(joined(ls)) =~= ls);
    } else {
        lemma_joined_front(ls);
        let rest = ls.drop_first();
        assert(no_newline(ls[0]) && strip_cr(ls[0]) == ls[0]);
        lemma_lines_from_line(seq![], ls[0], joined(rest));
        assert(Seq::<u8>::empty() + ls[0] =~= ls[0]);
        assert forall|i: int| 0 <= i < rest.len() implies no_newline(#[trigger] rest[i]) && strip_cr(rest[i]) == rest[i] by {
            assert(rest[i] == ls[i + 1]);
        }
        lemma_lines_of_joined(rest);
        assert(seq![ls[0]] + rest =~= ls);
    }
}

proof fn lemma_joined_lines_from(cur: Seq<u8>, rest: Seq<u8>)
    requires
        no_newline(cur),
        no_crlf(cur + rest),
    ensures
        joined(lines_from(cur, rest)) == normalized(cur + rest),
    decreases rest.len(),
{
    let s = cur + rest;
    if rest.len() == 0 {
        assert(s =~= cur);
        if cur.len() == 0 {
            assert(joined(lines_from(cur, rest)) =~= normalized(s));
        } else {
            let ls = seq![cur];
            assert(ls.drop_last() =~= Seq::<Seq<u8>>::empty());
            assert(cur[cur.len() - 1] != NEWLINE);
            assert(joined(ls) == joined(ls.drop_last()) + ls.last() + seq![NEWLINE]);
            assert(joined(ls) =~= normalized(s));
        }
    } else if rest[0] == NEWLINE {
        let tail = rest.drop_first();
        if cur.len() > 0 {
            let j = cur.len() - 1;
            assert(s[j + 1] == NEWLINE);
            assert(s[j] != CARRIAGE_RETURN);
        }
        assert(strip_cr(cur) == cur);
        assert forall|j: int| 0 <= j && j + 1 < tail.len() && #[trigger] tail[j + 1] == NEWLINE implies tail[j] != CARRIAGE_RETURN by {
            assert(tail[j] == s[cur.len() + 1 + j]);
            assert(tail[j + 1] == s[cur.len() + 1 + j + 1]);
        }
        lemma_joined_lines_from(seq![], tail);
        let ls = lines_from(cur, rest);
        assert(ls == seq![cur] + lines_from(seq![], tail));
        lemma_joined_front(ls);
        assert(ls.drop_first() =~= lines_from(seq![], tail));
        assert(Seq::<u8>::empty() + tail =~= tail);
        assert(s =~= cur + seq![NEWLINE] + tail);
        if tail.len() > 0 {
            assert(s.last() == tail.last());
        }
        assert(joined(ls) =~= normalized(s));
    } else {
        assert(cur.push(rest[0]) + rest.drop_first() =~= s);
        lemma_joined_lines_from(cur.push(rest[0]), rest.drop_first());
    }
}

proof fn lemma_encode_texts(lines: Seq<Seq<u8>>)
    requires
        all_utf8(lines),
    ensures
        texts_of(lines).map_values(|t: Seq<char>| encode_utf8(t)) == lines,
{
    assert forall|i: int| 0 <= i < lines.len() implies #[trigger] encode_utf8(decode_utf8(lines[i])) == lines[i] by {
        decode_utf8_encode_utf8(lines[i]);
    }
    assert(texts_of(lines).map_values(|t: Seq<char>| encode_utf8(t)) =~= lines);
}

/// When the pattern finds a match in no line, the filter emits no byte.
pub proof fn lemma_no_match_no_output(expr: Seq<char>, input: Seq<u8>)
    requires
        forall|i: int| 0 <= i < texts_of(lines_of(input)).len() ==> !finds_match(expr, #[trigger] texts_of(lines_of(input))[i]),
    ensures
        filter_output(expr, input) == Seq::<u8>::empty(),
{
    lemma_matching_none(expr, texts_of(lines_of(input)));
    let none = Seq::<Seq<char>>::empty();
    assert(none.map_values(|t: Seq<char>| encode_utf8(t)) =~= Seq::<Seq<u8>>::empty());
}

/// The lines that the filter keeps are the input's lines with some left out
/// and the rest in their input order; each one is emitted as its own bytes,
/// which hold no newline, followed by exactly one newline.
pub proof fn lemma_output_is_ordered_selection(expr: Seq<char>, input: Seq<u8>)
    requires
        all_utf8(lines_of(input)),
    ensures
        is_subsequence(matching(expr, texts_of(lines_of(input))), texts_of(lines_of(input))),
        filter_output(expr, input) == joined(
            matching(expr, texts_of(lines_of(input))).map_values(|t: Seq<char>| encode_utf8(t)),
        ),
        forall|k: int|
            0 <= k < matching(expr, texts_of(lines_of(input))).len() ==> no_newline(
                encode_utf8(#[trigger] matching(expr, texts_of(lines_of(input)))[k]),
            ),
{
    let lines = lines_of(input);
    let texts = texts_of(lines);
    let m = matching(expr, texts);
    let idx = lemma_matching_picks(expr, texts);
    lemma_lines_have_no_newline(input);
    assert forall|k: int| 0 <= k < m.len() implies no_newline(encode_utf8(#[trigger] m[k])) by {
        let i = idx[k];
        assert(m[k] == texts[i]);
        assert(m[k] == decode_utf8(lines[i]));
        decode_utf8_encode_utf8(lines[i]);
    }
}

/// Filtering the output of the filter again with the same pattern changes
/// nothing, where no line of the input ends with a carriage return.
pub proof fn lemma_filter_idempotent(expr: Seq<char>, input: Seq<u8>)
    requires
        all_utf8(lines_of(input)),
        forall|i: int| 0 <= i < lines_of(input).len() ==> strip_cr(#[trigger] lines_of(input)[i]) == lines_of(input)[i],
    ensures
        all_utf8(lines_of(filter_output(expr, input))),
        filter_output(expr, filter_output(expr, input)) == filter_output(expr, input),
{
    let lines = lines_of(input);
    let texts = texts_of(lines);
    let m = matching(expr, texts);
    let idx = lemma_matching_picks(expr, texts);
    let enc = m.map_values(|t: Seq<char>| encode_utf8(t));
    let out = filter_output(expr, input);
    lemma_lines_have_no_newline(input);
    assert forall|k: int| 0 <= k < enc.len() implies no_newline(#[trigger] enc[k]) && strip_cr(enc[k]) == enc[k] by {
        let i = idx[k];
        assert(m[k] == decode_utf8(lines[i]));
        decode_utf8_encode_utf8(lines[i]);
        assert(enc[k] == lines[i]);
    }
    lemma_lines_of_joined(enc);
    assert(lines_of(out) == enc);
    assert forall|k: int| 0 <= k < enc.len() implies valid_utf8(#[trigger] enc[k]) by {
        encode_utf8_valid_utf8(m[k]);
    }
    assert forall|k: int| 0 <= k < m.len() implies #[trigger] texts_of(enc)[k] == m[k] by {
        encode_utf8_decode_utf8(m[k]);
    }
    assert(texts_of(enc) =~= m);
    lemma_matching_all(expr, m);
}

/// Empty input is no error, and the filter emits nothing for it.
pub proof fn lemma_empty_input(expr: Seq<char>)
    ensures
        all_utf8(lines_of(Seq::empty())),
        filter_output(expr, Seq::empty()) == Seq::<u8>::empty(),
{
    let none = Seq::<Seq<char>>::empty();
    assert(texts_of(lines_of(Seq::empty())) =~= none);
    assert(none.map_values(|t: Seq<char>| encode_utf8(t)) =~= Seq::<Seq<u8>>::empty());
}

/// When the pattern finds a match in every line, the filter emits every line
/// followed by one newline; where no newline of the input follows a carriage
/// return, that is the input with a newline added at its end if it lacks one.
pub proof fn lemma_all_matching_reproduces(expr: Seq<char>, input: Seq<u8>)
    requires
        all_utf8(lines_of(input)),
        forall|i: int| 0 <= i < texts_of(lines_of(input)).len() ==> finds_match(expr, #[trigger] texts_of(lines_of(input))[i]),
    ensures
        filter_output(expr, input) == joined(lines_of(input)),
        no_crlf(input) ==> filter_output(expr, input) == normalized(input),
{
    let lines = lines_of(input);
    lemma_matching_all(expr, texts_of(lines));
    lemma_encode_texts(lines);
    if no_crlf(input) {
        assert(Seq::<u8>::empty() + input =~= input);
        lemma_joined_lines_from(seq![], input);
    }
}

} // verus!
