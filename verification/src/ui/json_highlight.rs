//! How JSON text is coloured.

use std::ops::Range;

use vstd::prelude::*;
use vstd::utf8::encode_utf8;

use crate::model::json::{token_views, tokenize, tokens_are_in_order, tokens_from, JsonToken, Token};
use crate::text::same_ignoring_case;

verus! {

/// The name of a token's style. Punctuation has none.
pub open spec fn style_of(token: JsonToken) -> Option<Seq<char>> {
    match token {
        JsonToken::Key => Some("property"@),
        JsonToken::Str => Some("string"@),
        JsonToken::Number => Some("number"@),
        JsonToken::Boolean => Some("boolean"@),
        JsonToken::Null => Some("constant"@),
        JsonToken::Punctuation => None,
    }
}

pub fn style_name(token: JsonToken) -> (name: Option<&'static str>)
    ensures
        match name {
            Some(n) => style_of(token) == Some(n@),
            None => style_of(token) is None,
        },
{
    match token {
        JsonToken::Key => Some("property"),
        JsonToken::Str => Some("string"),
        JsonToken::Number => Some("number"),
        JsonToken::Boolean => Some("boolean"),
        JsonToken::Null => Some("constant"),
        JsonToken::Punctuation => None,
    }
}

/// A run of text in a style, or in none.
pub struct Run {
    pub start: int,
    pub end: int,
    pub style: Option<Seq<char>>,
}

/// The runs of a text: its tokens that have a style.
pub struct JsonHighlighter {
    pub runs: Vec<(Range<usize>, &'static str)>,
}

/// Styled runs as values.
pub open spec fn run_views(runs: Seq<(Range<usize>, &'static str)>) -> Seq<Run> {
    runs.map_values(
        |r: (Range<usize>, &'static str)| Run { start: r.0.start as int, end: r.0.end as int, style: Some(r.1@) },
    )
}

/// Runs with or without a style as values.
pub open spec fn styled_views(runs: Seq<(Range<usize>, Option<&'static str>)>) -> Seq<Run> {
    runs.map_values(
        |r: (Range<usize>, Option<&'static str>)|
            Run {
                start: r.0.start as int,
                end: r.0.end as int,
                style: match r.1 {
                    Some(name) => Some(name@),
                    None => None,
                },
            },
    )
}

/// The runs of the first tokens.
pub open spec fn styled_tokens(tokens: Seq<Token>) -> Seq<Run>
    decreases tokens.len(),
{
    if tokens.len() == 0 {
        Seq::empty()
    } else {
        let before = styled_tokens(tokens.drop_last());
        let token = tokens.last();
        match style_of(token.kind) {
            Some(style) => before.push(Run { start: token.start, end: token.end, style: Some(style) }),
            None => before,
        }
    }
}

/// Whether runs are not empty, stand in order and do not overlap.
pub open spec fn in_order(runs: Seq<Run>) -> bool {
    &&& forall|i: int| 0 <= i < runs.len() ==> (#[trigger] runs[i]).start < runs[i].end
    &&& forall|i: int, j: int|
        #![trigger runs[i], runs[j]]
        0 <= i < j < runs.len() ==> runs[i].end <= runs[j].start
}

pub open spec fn larger(a: int, b: int) -> int {
    if a >= b {
        a
    } else {
        b
    }
}

pub open spec fn smaller(a: int, b: int) -> int {
    if a <= b {
        a
    } else {
        b
    }
}

/// The text without a style between two places, where there is any.
pub open spec fn gap(from: int, to: int) -> Seq<Run> {
    if from < to {
        seq![Run { start: from, end: to, style: None }]
    } else {
        Seq::empty()
    }
}

/// What is coloured between a cursor and an end, by the runs from a place on: runs that
/// reach into it are cut to it, and what lies between them has no style.
pub open spec fn styles_from(runs: Seq<Run>, i: int, start: int, cursor: int, end: int) -> Seq<Run>
    decreases runs.len() - i,
{
    if i >= runs.len() || runs[i].start >= end {
        gap(cursor, end)
    } else if runs[i].end <= start {
        styles_from(runs, i + 1, start, cursor, end)
    } else {
        let a = larger(runs[i].start, start);
        let b = smaller(runs[i].end, end);
        gap(cursor, a) + seq![Run { start: a, end: b, style: runs[i].style }] + styles_from(runs, i + 1, start, b, end)
    }
}

proof fn styled_tokens_are_in_order(tokens: Seq<Token>)
    requires
        forall|k: int| 0 <= k < tokens.len() ==> (#[trigger] tokens[k]).start < tokens[k].end,
        forall|k: int, l: int|
            #![trigger tokens[k], tokens[l]]
            0 <= k < l < tokens.len() ==> tokens[k].end <= tokens[l].start,
    ensures
        in_order(styled_tokens(tokens)),
        tokens.len() > 0 ==> forall|i: int|
            0 <= i < styled_tokens(tokens).len() ==> (#[trigger] styled_tokens(tokens)[i]).end <= tokens.last().end,
    decreases tokens.len(),
{
    if tokens.len() > 0 {
        let rest = tokens.drop_last();
        styled_tokens_are_in_order(rest);
        let before = styled_tokens(rest);
        let after = styled_tokens(tokens);
        assert forall|i: int| 0 <= i < after.len() implies (#[trigger] after[i]).end <= tokens.last().end by {
            if i < before.len() {
                assert(after[i] == before[i]);
                assert(rest.len() > 0) by {
                    if rest.len() == 0 {
                        assert(before.len() == 0);
                    }
                }
                assert(rest.last() == tokens[tokens.len() - 2]);
                assert(tokens[tokens.len() - 2].end <= tokens[tokens.len() - 1].start);
            }
        }
        assert forall|i: int, j: int| #![trigger after[i], after[j]] 0 <= i < j < after.len() implies after[i].end
            <= after[j].start by {
            assert(after[i] == before[i]);
            if j < before.len() {
                assert(after[j] == before[j]);
            } else {
                assert(rest.len() > 0) by {
                    if rest.len() == 0 {
                        assert(before.len() == 0);
                    }
                }
                assert(rest.last() == tokens[tokens.len() - 2]);
                assert(tokens[tokens.len() - 2].end <= tokens[tokens.len() - 1].start);
            }
        }
    }
}

impl JsonHighlighter {
    pub open spec fn wf(&self) -> bool {
        in_order(run_views(self.runs@))
    }

    pub fn new() -> (highlighter: Self)
        ensures
            highlighter.wf(),
            highlighter.runs@.len() == 0,
    {
        JsonHighlighter { runs: Vec::new() }
    }

    /// Takes a new text.
    pub fn update(&mut self, text: &str)
        ensures
            final(self).wf(),
            run_views(final(self).runs@) == styled_tokens(tokens_from(encode_utf8(text@), 0)),
    {
        let tokens = tokenize(text);
        let ghost all = token_views(tokens@);
        let mut runs: Vec<(Range<usize>, &'static str)> = Vec::new();
        let mut i: usize = 0;
        assert(all.take(0) =~= Seq::empty());
        assert(run_views(runs@) =~= Seq::empty());
        while i < tokens.len()
            invariant
                i <= tokens@.len(),
                all == token_views(tokens@),
                run_views(runs@) == styled_tokens(all.take(i as int)),
            decreases tokens.len() - i,
        {
            let ghost before = runs@;
            let start: usize = tokens[i].0.start;
            let end: usize = tokens[i].0.end;
            assert(all.take(i + 1).drop_last() =~= all.take(i as int));
            assert(all.take(i + 1).last() == all[i as int]);
            match style_name(tokens[i].1) {
                Some(name) => {
                    runs.push((start..end, name));
                    assert(run_views(runs@) =~= run_views(before).push(
                        Run { start: start as int, end: end as int, style: Some(name@) },
                    ));
                },
                None => {},
            }
            i = i + 1;
        }
        assert(all.take(i as int) =~= all);
        self.runs = runs;
        proof {
            tokens_are_in_order(encode_utf8(text@), 0);
            styled_tokens_are_in_order(all);
        }
    }

    /// The styles of a range of the text, from its start to its end.
    pub fn styles(&self, range: &Range<usize>) -> (styled: Vec<(Range<usize>, Option<&'static str>)>)
        requires
            self.wf(),
        ensures
            styled_views(styled@) == styles_from(
                run_views(self.runs@),
                0,
                range.start as int,
                range.start as int,
                range.end as int,
            ),
    {
        let ghost runs = run_views(self.runs@);
        let mut out: Vec<(Range<usize>, Option<&'static str>)> = Vec::new();
        let mut cursor: usize = range.start;
        let mut i: usize = 0;
        let ghost whole = styles_from(runs, 0, range.start as int, range.start as int, range.end as int);
        assert(styled_views(out@) + whole =~= whole);
        while i < self.runs.len() && self.runs[i].0.start < range.end
            invariant
                i <= self.runs@.len(),
                runs == run_views(self.runs@),
                styled_views(out@) + styles_from(
                    runs,
                    i as int,
                    range.start as int,
                    cursor as int,
                    range.end as int,
                ) == whole,
            decreases self.runs.len() - i,
        {
            let ghost from = styles_from(runs, i as int, range.start as int, cursor as int, range.end as int);
            let ghost before = styled_views(out@);
            let run_start: usize = self.runs[i].0.start;
            let run_end: usize = self.runs[i].0.end;
            let name: &'static str = self.runs[i].1;
            assert(runs[i as int] == (Run { start: run_start as int, end: run_end as int, style: Some(name@) }));
            if run_end > range.start {
                let start: usize = if run_start >= range.start { run_start } else { range.start };
                let end: usize = if run_end <= range.end { run_end } else { range.end };
                let ghost blank = gap(cursor as int, start as int);
                if start > cursor {
                    out.push((cursor..start, None));
                }
                assert(styled_views(out@) =~= before + blank);
                let ghost middle = styled_views(out@);
                out.push((start..end, Some(name)));
                proof {
                    let run = Run { start: start as int, end: end as int, style: Some(name@) };
                    let rest = styles_from(runs, i + 1, range.start as int, end as int, range.end as int);
                    assert(styled_views(out@) =~= middle.push(run));
                    assert(before + (blank + seq![run] + rest) =~= styled_views(out@) + rest);
                }
                cursor = end;
            }
            i = i + 1;
        }
        let ghost before = styled_views(out@);
        if cursor < range.end {
            out.push((cursor..range.end, None));
        }
        assert(styled_views(out@) =~= before + gap(cursor as int, range.end as int));
        out
    }
}

/// Whether runs cover the text between two places without a hole.
pub open spec fn covers(runs: Seq<Run>, from: int, to: int) -> bool
    decreases runs.len(),
{
    if runs.len() == 0 {
        from == to
    } else {
        runs[0].start == from && from < runs[0].end && covers(runs.skip(1), runs[0].end, to)
    }
}

proof fn covers_adds_up(a: Seq<Run>, b: Seq<Run>, from: int, mid: int, to: int)
    requires
        covers(a, from, mid),
        covers(b, mid, to),
    ensures
        covers(a + b, from, to),
    decreases a.len(),
{
    if a.len() > 0 {
        covers_adds_up(a.skip(1), b, a[0].end, mid, to);
        assert((a + b).skip(1) =~= a.skip(1) + b);
    } else {
        assert(a + b =~= b);
    }
}

proof fn a_gap_covers(from: int, to: int)
    requires
        from <= to,
    ensures
        covers(gap(from, to), from, to),
{
    reveal_with_fuel(covers, 2);
}

proof fn styles_cover_from(runs: Seq<Run>, i: int, start: int, cursor: int, end: int)
    requires
        in_order(runs),
        0 <= i <= runs.len(),
        start <= cursor <= end,
        start < end,
        forall|k: int| i <= k < runs.len() ==> cursor <= larger((#[trigger] runs[k]).start, start),
    ensures
        covers(styles_from(runs, i, start, cursor, end), cursor, end),
    decreases runs.len() - i,
{
    if i >= runs.len() || runs[i].start >= end {
        a_gap_covers(cursor, end);
    } else if runs[i].end <= start {
        styles_cover_from(runs, i + 1, start, cursor, end);
    } else {
        let a = larger(runs[i].start, start);
        let b = smaller(runs[i].end, end);
        assert(cursor <= larger(runs[i].start, start));
        let run = seq![Run { start: a, end: b, style: runs[i].style }];
        let rest = styles_from(runs, i + 1, start, b, end);
        assert forall|k: int| i + 1 <= k < runs.len() implies b <= larger((#[trigger] runs[k]).start, start) by {
            assert(runs[i].end <= runs[k].start);
        }
        styles_cover_from(runs, i + 1, start, b, end);
        a_gap_covers(cursor, a);
        assert(covers(run, a, b)) by {
            reveal_with_fuel(covers, 2);
        }
        covers_adds_up(gap(cursor, a), run, cursor, a, b);
        covers_adds_up(gap(cursor, a) + run, rest, cursor, b, end);
    }
}

/// The styles of a range cover it from its start to its end, without a hole and without
/// an overlap.
pub proof fn styles_cover_the_range(runs: Seq<Run>, start: int, end: int)
    requires
        in_order(runs),
        start < end,
    ensures
        covers(styles_from(runs, 0, start, start, end), start, end),
{
    styles_cover_from(runs, 0, start, start, end);
}

/// Whether there is a highlighter for a language: for JSON, in any case.
pub fn highlights(language: &str) -> (known: bool)
    ensures
        known == (crate::text::ascii_lowered(language@) == crate::text::ascii_lowered("json"@)),
{
    same_ignoring_case(language, "json")
}

/// Kinds of tokens have styles of their own, but for punctuation, which has none.
pub proof fn styles_tell_tokens_apart(a: JsonToken, b: JsonToken)
    ensures
        style_of(a) is None <==> a is Punctuation,
        style_of(a) == style_of(b) <==> a == b,
        a is Key <==> style_of(a) == Some("property"@),
        a is Str <==> style_of(a) == Some("string"@),
        a is Number <==> style_of(a) == Some("number"@),
        a is Boolean <==> style_of(a) == Some("boolean"@),
        a is Null <==> style_of(a) == Some("constant"@),
{
    reveal_strlit("property");
    reveal_strlit("string");
    reveal_strlit("number");
    reveal_strlit("boolean");
    reveal_strlit("constant");
    assert("property"@.len() == 8 && "string"@.len() == 6 && "number"@.len() == 6 && "boolean"@.len() == 7
        && "constant"@.len() == 8);
    assert("property"@[0] != "constant"@[0]);
    assert("string"@[0] != "number"@[0]);
}

/// Each token with a style is coloured where it stands: of two rows of tokens the coloured
/// ones are those of the first, and behind them those of the second.
pub proof fn tokens_are_coloured_where_they_stand(first: Seq<Token>, second: Seq<Token>, token: Token)
    ensures
        styled_tokens(first + second) == styled_tokens(first) + styled_tokens(second),
        style_of(token.kind) is None ==> styled_tokens(seq![token]).len() == 0,
        style_of(token.kind) is Some ==> styled_tokens(seq![token]).len() == 1 && ({
            let run = styled_tokens(seq![token])[0];
            run.start == token.start && run.end == token.end && run.style == style_of(token.kind)
        }),
    decreases second.len(),
{
    assert(seq![token].drop_last() =~= Seq::empty());
    assert(styled_tokens(seq![token].drop_last()) =~= Seq::empty());
    if second.len() == 0 {
        assert(first + second =~= first);
        assert(styled_tokens(first) + styled_tokens(second) =~= styled_tokens(first));
    } else {
        tokens_are_coloured_where_they_stand(first, second.drop_last(), token);
        assert((first + second).drop_last() =~= first + second.drop_last());
        assert(styled_tokens(first + second) =~= styled_tokens(first) + styled_tokens(second));
    }
}

/// A run that lies in a range is coloured as it is: it stands among the styles of the range.
pub proof fn a_run_in_the_range_keeps_its_style(runs: Seq<Run>, i: int, start: int, cursor: int, end: int, k: int)
    requires
        in_order(runs),
        0 <= i <= k < runs.len(),
        start <= runs[k].start,
        runs[k].end <= end,
    ensures
        styles_from(runs, i, start, cursor, end).contains(runs[k]),
    decreases k - i,
{
    let all = styles_from(runs, i, start, cursor, end);
    assert(runs[k].start < runs[k].end);
    if i < k {
        assert(runs[i].end <= runs[k].start);
        assert(runs[i].start < runs[i].end);
    }
    if i == k {
        let before = gap(cursor, runs[k].start);
        assert(all[before.len() as int] == runs[k]);
    } else if runs[i].end <= start {
        a_run_in_the_range_keeps_its_style(runs, i + 1, start, cursor, end, k);
    } else {
        let a = larger(runs[i].start, start);
        let b = smaller(runs[i].end, end);
        a_run_in_the_range_keeps_its_style(runs, i + 1, start, b, end, k);
        let rest = styles_from(runs, i + 1, start, b, end);
        let n = choose|n: int| 0 <= n < rest.len() && rest[n] == runs[k];
        let before = gap(cursor, a) + seq![Run { start: a, end: b, style: runs[i].style }];
        assert(all[before.len() + n] == runs[k]);
    }
}

/// The styles of a range lie one behind the other and cover it; JSON is what is highlighted,
/// however it is written.
pub proof fn a_range_is_styled_whole(
    highlighter: &JsonHighlighter,
    range: &Range<usize>,
    styled: Vec<(Range<usize>, Option<&'static str>)>,
    language: &str,
    known: bool,
    token: JsonToken,
    name: Option<&'static str>,
)
    requires
        highlighter.wf(),
        range.start < range.end,
        call_ensures(JsonHighlighter::styles, (highlighter, range), styled),
        call_ensures(highlights, (language,), known),
        call_ensures(style_name, (token,), name),
    ensures
        covers(styled_views(styled@), range.start as int, range.end as int),
        language@ == "json"@ || language@ == "JSON"@ ==> known,
        language@ == "text"@ ==> !known,
        name is None <==> token is Punctuation,
        name matches Some(n) ==> (token is Key <==> n@ == "property"@) && (token is Str <==> n@ == "string"@) && (
        token is Number <==> n@ == "number"@),
{
    styles_cover_the_range(run_views(highlighter.runs@), range.start as int, range.end as int);
    reveal_strlit("json");
    reveal_strlit("JSON");
    reveal_strlit("text");
    assert(crate::text::ascii_lowered("JSON"@) =~= crate::text::ascii_lowered("json"@));
    assert(crate::text::ascii_lowered("text"@)[0] == 't');
    assert(crate::text::ascii_lowered("json"@)[0] == 'j');
    styles_tell_tokens_apart(token, token);
}

} // verus!
