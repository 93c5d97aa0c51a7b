//! Cutting one line of input into the stages of a pipeline.
//!
//! Stages are separated by a pipe with a space on either side.  The
//! delimiters are found from left to right and do not overlap, as with
//! `str::split`.

use crate::text::{
    chars_of, is_space, lemma_trim_is_trimmed, padded, string_of, texts, trim, trim_bounds,
};
use vstd::prelude::*;

verus! {

/// Whether `s` begins with the stage delimiter: a space, a pipe and a space.
pub open spec fn at_delimiter(s: Seq<char>) -> bool {
    s.len() >= 3 && s[0] == ' ' && s[1] == '|' && s[2] == ' '
}

/// The number of characters of `s` before its first delimiter; the length of
/// `s` where it holds none.
pub open spec fn segment_len(s: Seq<char>) -> nat
    decreases s.len(),
{
    if s.len() == 0 || at_delimiter(s) {
        0
    } else {
        1 + segment_len(s.skip(1))
    }
}

/// `segment_len` stops at the first delimiter, and nowhere else.
pub proof fn lemma_segment_len(s: Seq<char>)
    ensures
        segment_len(s) <= s.len(),
        forall|i: int| 0 <= i < segment_len(s) ==> !at_delimiter(#[trigger] s.skip(i)),
        segment_len(s) < s.len() ==> at_delimiter(s.skip(segment_len(s) as int)),
    decreases s.len(),
{
    if s.len() == 0 || at_delimiter(s) {
        assert(s.skip(0) == s);
    } else {
        let t = s.skip(1);
        lemma_segment_len(t);
        assert forall|i: int| 0 <= i < segment_len(s) implies !at_delimiter(
            #[trigger] s.skip(i),
        ) by {
            if i == 0 {
                assert(s.skip(0) == s);
            } else {
                assert(s.skip(i) == t.skip(i - 1));
            }
        }
        if segment_len(s) < s.len() {
            assert(s.skip(segment_len(s) as int) == t.skip(segment_len(t) as int));
        }
    }
}

/// A length `n` that stops at the first delimiter is the segment length.
pub proof fn lemma_segment_len_is(s: Seq<char>, n: int)
    requires
        0 <= n <= s.len(),
        forall|i: int| 0 <= i < n ==> !at_delimiter(#[trigger] s.skip(i)),
        n < s.len() ==> at_delimiter(s.skip(n)),
    ensures
        segment_len(s) == n,
    decreases s.len(),
{
    assert(s.skip(0) == s);
    if n > 0 {
        let t = s.skip(1);
        assert forall|i: int| 0 <= i < n - 1 implies !at_delimiter(#[trigger] t.skip(i)) by {
            assert(t.skip(i) == s.skip(i + 1));
        }
        assert(t.skip(n - 1) == s.skip(n));
        lemma_segment_len_is(t, n - 1);
    }
}

/// The pieces of `s` between its delimiters, found from left to right
/// without overlap.  A line without delimiter is one segment.
pub open spec fn segments(s: Seq<char>) -> Seq<Seq<char>>
    decreases s.len(),
{
    let n = segment_len(s);
    if n >= s.len() {
        seq![s]
    } else {
        proof {
            lemma_segment_len(s);
        }
        seq![s.take(n as int)] + segments(s.skip(n as int + 3))
    }
}

/// The stages of the line `s`: its segments, each without the white space
/// around it, and without those that are then empty.
pub open spec fn stages(s: Seq<char>) -> Seq<Seq<char>> {
    segments(s).map_values(|segment: Seq<char>| trim(segment)).filter(
        |stage: Seq<char>| stage.len() > 0,
    )
}

/// The stages of a line as it comes from the terminal: the stages of the
/// line without the white space around it and with one space before and
/// one behind it.  So a pipe that begins or ends the line is a delimiter
/// like any other, and what stands before or behind it is an empty stage,
/// which is left out.
pub open spec fn line_stages(line: Seq<char>) -> Seq<Seq<char>> {
    stages(seq![' '] + trim(line) + seq![' '])
}

/// The stages of segments: each without the white space around it, and
/// without those that are then empty.
proof fn lemma_stages_of_parts(first: Seq<Seq<char>>, second: Seq<Seq<char>>)
    ensures
        (first + second).map_values(|segment: Seq<char>| trim(segment)).filter(
            |stage: Seq<char>| stage.len() > 0,
        ) == first.map_values(|segment: Seq<char>| trim(segment)).filter(
            |stage: Seq<char>| stage.len() > 0,
        ) + second.map_values(|segment: Seq<char>| trim(segment)).filter(
            |stage: Seq<char>| stage.len() > 0,
        ),
{
    let cut = |segment: Seq<char>| trim(segment);
    let keep = |stage: Seq<char>| stage.len() > 0;
    assert((first + second).map_values(cut) == first.map_values(cut) + second.map_values(cut));
    Seq::filter_distributes_over_add(first.map_values(cut), second.map_values(cut), keep);
}

/// An empty segment is no stage.
proof fn lemma_empty_segment_is_no_stage()
    ensures
        seq![Seq::<char>::empty()].map_values(|segment: Seq<char>| trim(segment)).filter(
            |stage: Seq<char>| stage.len() > 0,
        ) == Seq::<Seq<char>>::empty(),
{
    let cut = |segment: Seq<char>| trim(segment);
    let keep = |stage: Seq<char>| stage.len() > 0;
    let one = seq![Seq::<char>::empty()].map_values(cut);
    reveal_with_fuel(Seq::filter, 2);
    assert(one.drop_last() == Seq::<Seq<char>>::empty());
    assert(one.last() == trim(Seq::<char>::empty()));
    assert(trim(Seq::<char>::empty()).len() == 0);
}

/// A delimiter at the start of a text has an empty stage before it, which
/// is left out: the stages are those of what follows the delimiter.
pub proof fn lemma_leading_delimiter(rest: Seq<char>)
    ensures
        stages(seq![' ', '|', ' '] + rest) == stages(rest),
{
    let s = seq![' ', '|', ' '] + rest;
    assert(at_delimiter(s));
    assert(s.take(0) == Seq::<char>::empty());
    assert(s.skip(3) == rest);
    assert(segments(s) == seq![Seq::<char>::empty()] + segments(rest));
    lemma_stages_of_parts(seq![Seq::<char>::empty()], segments(rest));
    lemma_empty_segment_is_no_stage();
    assert(Seq::<Seq<char>>::empty() + stages(rest) == stages(rest));
}

/// A delimiter at the end of a text without other pipe has an empty stage
/// behind it, which is left out: the stages are those of what stands
/// before the delimiter.
pub proof fn lemma_trailing_delimiter(body: Seq<char>)
    requires
        !body.contains('|'),
    ensures
        stages(body + seq![' ', '|', ' ']) == stages(body),
{
    let s = body + seq![' ', '|', ' '];
    let n = body.len() as int;
    assert forall|i: int| 0 <= i < n implies !at_delimiter(#[trigger] s.skip(i)) by {
        if i + 1 < n {
            assert(s.skip(i)[1] == body[i + 1]);
            assert(body.contains(body[i + 1]));
        } else {
            assert(s.skip(i)[1] == ' ');
        }
    }
    assert(at_delimiter(s.skip(n)));
    lemma_segment_len_is(s, n);
    assert forall|i: int| 0 <= i < n implies !at_delimiter(#[trigger] body.skip(i)) by {
        if body.skip(i).len() >= 3 {
            assert(body.skip(i)[1] == body[i + 1]);
            assert(body.contains(body[i + 1]));
        }
    }
    lemma_segment_len_is(body, n);
    assert(s.take(n) == body);
    assert(s.skip(n + 3) == Seq::<char>::empty());
    assert(segments(s.skip(n + 3)) == seq![Seq::<char>::empty()]);
    assert(segments(s) == seq![body] + seq![Seq::<char>::empty()]);
    assert(segments(body) == seq![body]);
    lemma_stages_of_parts(seq![body], seq![Seq::<char>::empty()]);
    lemma_empty_segment_is_no_stage();
    assert(stages(body) + Seq::<Seq<char>>::empty() == stages(body));
}

/// A line that is a pipe and nothing else asks for no stage.
pub proof fn lemma_pipe_alone(line: Seq<char>)
    requires
        trim(line) == seq!['|'],
    ensures
        line_stages(line).len() == 0,
{
    let padded = seq![' '] + trim(line) + seq![' '];
    assert(padded == seq![' ', '|', ' '] + Seq::<char>::empty());
    lemma_leading_delimiter(Seq::empty());
    assert(segments(Seq::<char>::empty()) == seq![Seq::<char>::empty()]);
    lemma_empty_segment_is_no_stage();
}

/// A pipe that begins a line is dropped: the stages are those of what
/// follows it.
pub proof fn lemma_pipe_at_the_start(line: Seq<char>, rest: Seq<char>)
    requires
        trim(line) == seq!['|', ' '] + rest,
    ensures
        line_stages(line) == stages(rest + seq![' ']),
{
    assert(seq![' '] + trim(line) + seq![' '] == seq![' ', '|', ' '] + (rest + seq![' ']));
    lemma_leading_delimiter(rest + seq![' ']);
}

/// A pipe that ends a line is dropped, where the line holds no other: the
/// stages are those of what stands before it.
pub proof fn lemma_pipe_at_the_end(line: Seq<char>, body: Seq<char>)
    requires
        trim(line) == body + seq![' ', '|'],
        !body.contains('|'),
    ensures
        line_stages(line) == stages(seq![' '] + body),
{
    let front = seq![' '] + body;
    assert(seq![' '] + trim(line) + seq![' '] == front + seq![' ', '|', ' ']);
    assert forall|i: int| 0 <= i < front.len() implies front[i] != '|' by {
        if i > 0 {
            assert(front[i] == body[i - 1]);
            assert(body.contains(body[i - 1]));
        }
    }
    lemma_trailing_delimiter(front);
}

/// No stage is empty, and none begins or ends with white space.
pub proof fn lemma_stages_are_trimmed(s: Seq<char>, i: int)
    requires
        0 <= i < stages(s).len(),
    ensures
        stages(s)[i].len() > 0,
        !is_space(stages(s)[i].first()),
        !is_space(stages(s)[i].last()),
{
    let cut = |segment: Seq<char>| trim(segment);
    let keep = |stage: Seq<char>| stage.len() > 0;
    let trimmed = segments(s).map_values(cut);
    let stage = stages(s)[i];
    trimmed.lemma_filter_pred(keep, i);
    assert(trimmed.filter(keep).contains(stage));
    trimmed.lemma_filter_contains_rev(keep, stage);
    let j = choose|j: int| 0 <= j < trimmed.len() && trimmed[j] == stage;
    lemma_trim_is_trimmed(segments(s)[j]);
}

/// The position of the first delimiter of `chars` at or after `from`; the
/// length of `chars` where there is none.
fn find_delimiter(chars: &Vec<char>, from: usize) -> (end: usize)
    requires
        from <= chars.len(),
    ensures
        from <= end <= chars.len(),
        end == from + segment_len(chars@.skip(from as int)),
        end < chars.len() ==> end + 3 <= chars.len(),
{
    let n = chars.len();
    let mut i: usize = from;
    while i < n && !(n - i >= 3 && chars[i] == ' ' && chars[i + 1] == '|' && chars[i + 2] == ' ')
        invariant
            n == chars.len(),
            from <= i <= n,
            forall|j: int| from <= j < i ==> !at_delimiter(#[trigger] chars@.skip(j)),
        decreases n - i,
    {
        i = i + 1;
    }
    proof {
        let s = chars@.skip(from as int);
        assert forall|j: int| 0 <= j < i - from implies !at_delimiter(#[trigger] s.skip(j)) by {
            assert(s.skip(j) == chars@.skip(from + j));
        }
        assert(s.skip(i - from) == chars@.skip(i as int));
        lemma_segment_len_is(s, i - from);
    }
    i
}

/// Splits one line of input into the stages of its pipeline.
///
/// The line is cut at every ` | `; each piece loses the white space around
/// it, and a piece that is then empty is left out.
pub fn split_pipeline(line: &str) -> (out: Vec<String>)
    ensures
        texts(out@) == stages(line@),
{
    let chars = chars_of(line);
    let n = chars.len();
    let mut out: Vec<String> = Vec::new();
    let mut start: usize = 0;
    let mut more = true;
    let ghost keep = |stage: Seq<char>| stage.len() > 0;
    let ghost cut = |segment: Seq<char>| trim(segment);
    let ghost mut done: Seq<Seq<char>> = Seq::empty();
    proof {
        assert(chars@.skip(0) == chars@);
        reveal(Seq::filter);
        assert(done.map_values(cut).filter(keep) == Seq::<Seq<char>>::empty());
    }
    while more
        invariant
            n == chars.len(),
            chars@ == line@,
            start <= n,
            more ==> segments(chars@) == done + segments(chars@.skip(start as int)),
            !more ==> segments(chars@) == done,
            texts(out@) == done.map_values(cut).filter(keep),
            keep == |stage: Seq<char>| stage.len() > 0,
            cut == |segment: Seq<char>| trim(segment),
        decreases n - start + if more { 1int } else { 0int },
    {
        let end = find_delimiter(&chars, start);
        let bounds = trim_bounds(&chars, start, end);
        let ghost rest = chars@.skip(start as int);
        let ghost segment = chars@.subrange(start as int, end as int);
        proof {
            assert(rest.take(end - start) == segment);
            reveal(Seq::filter);
            assert(done.push(segment).map_values(cut) == done.map_values(cut).push(trim(segment)));
            assert(done.push(segment).map_values(cut).drop_last() == done.map_values(cut));
        }
        if bounds.0 < bounds.1 {
            let stage = string_of(&chars, bounds.0, bounds.1);
            proof {
                assert(texts(out@.push(stage)) == texts(out@).push(stage@));
            }
            out.push(stage);
        }
        proof {
            done = done.push(segment);
        }
        if end < n {
            proof {
                assert(rest.skip(end - start + 3) == chars@.skip(end + 3));
                assert(done + segments(chars@.skip(end + 3)) == done.drop_last() + segments(rest));
            }
            start = end + 3;
        } else {
            proof {
                assert(rest == segment);
                assert(done == done.drop_last() + segments(rest));
            }
            more = false;
        }
    }
    out
}

/// Splits a line as it comes from the terminal into the stages of its
/// pipeline.
///
/// The line is cut as `split_pipeline` cuts it, and a pipe that begins or
/// ends the line, white space aside, is a delimiter too: `a |` is the one
/// stage `a`, and `|` alone is none.
pub fn split_line(line: &str) -> (out: Vec<String>)
    ensures
        texts(out@) == line_stages(line@),
{
    let whole = padded(line);
    split_pipeline(whole.as_str())
}

} // verus!
