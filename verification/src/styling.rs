//! The inline style tokenizer: decomposes marked-up text into styled runs.
//! Delimiter matching carries explicit mark tokens alongside the characters
//! rather than in-band marker characters.
use crate::text::chars_to_string;
use crate::{
    elem_view, elems_view, lemma_elems_view, runs_view, style_none, text_view, Element,
    ElementText, ElemV, RunV, StyleSet, TextRun, TextV,
};
use vstd::prelude::*;

verus! {

/// What a scanner token is: a plain character, or the opening/closing mark
/// of one style combination (bold-italic, bold, italic, underline).
#[derive(Clone, Copy, Debug)]
pub enum Kind {
    Chr,
    BoldItalic,
    Bold,
    Italic,
    Underline,
}

/// A token of the style scanner: its character (meaningful only for plain
/// characters) paired with its kind.
pub type Tok = (char, Kind);

/// The token carrying the plain character `c`.
pub open spec fn ch_tok(c: char) -> Tok {
    (c, Kind::Chr)
}

pub open spec fn inject(s: Seq<char>) -> Seq<Tok> {
    Seq::new(s.len(), |i: int| ch_tok(s[i]))
}

/// `n` copies of the delimiter character `d` stand at `i`.
pub open spec fn delims_at(t: Seq<Tok>, i: int, d: char, n: int) -> bool {
    0 <= i && i + n <= t.len() && (forall|k: int| i <= k < i + n ==> t[k] == ch_tok(d))
}

/// First position at or after `j` holding the delimiter `d`, or `t.len()`.
pub open spec fn find_delim(t: Seq<Tok>, j: int, d: char) -> int
    decreases t.len() - j,
{
    if !(0 <= j < t.len()) {
        t.len() as int
    } else if t[j] == ch_tok(d) {
        j
    } else {
        find_delim(t, j + 1, d)
    }
}

pub proof fn lemma_find_delim(t: Seq<Tok>, j: int, d: char)
    requires
        0 <= j <= t.len(),
    ensures
        j <= find_delim(t, j, d) <= t.len(),
        find_delim(t, j, d) < t.len() ==> t[find_delim(t, j, d)] == ch_tok(d),
        forall|m: int| j <= m < find_delim(t, j, d) ==> t[m] != ch_tok(d),
    decreases t.len() - j,
{
    if j < t.len() && t[j] != ch_tok(d) {
        lemma_find_delim(t, j + 1, d);
    }
}

/// A valid emphasis body `t[b..e)`: nonempty, free of newlines, and not
/// ending in a space or a backslash.
pub open spec fn body_ok(t: Seq<Tok>, b: int, e: int) -> bool {
    b < e <= t.len() && (forall|k: int| b <= k < e ==> t[k] != ch_tok('\n')) && t[e - 1] != ch_tok(
        ' ',
    ) && t[e - 1] != ch_tok('\\')
}

/// An `n`-fold delimiter match at `i`: `n` delimiters, a valid body running
/// to the next delimiter, and `n` closing delimiters there.
pub open spec fn rep_match_at(t: Seq<Tok>, i: int, d: char, n: int) -> bool {
    1 <= n && delims_at(t, i, d, n) && {
        let e = find_delim(t, i + n, d);
        e < t.len() && body_ok(t, i + n, e) && delims_at(t, e, d, n)
    }
}

/// One pass replacing each `n`-fold delimiter pair by `mark` around its body.
pub open spec fn pass_rep_from(t: Seq<Tok>, i: int, d: char, n: int, mark: Tok) -> Seq<Tok>
    decreases t.len() - i,
        via pass_rep_from_dec
{
    if !(0 <= i < t.len()) {
        Seq::empty()
    } else if rep_match_at(t, i, d, n) {
        let e = find_delim(t, i + n, d);
        seq![mark] + t.subrange(i + n, e) + seq![mark] + pass_rep_from(t, e + n, d, n, mark)
    } else {
        seq![t[i]] + pass_rep_from(t, i + 1, d, n, mark)
    }
}

#[via_fn]
proof fn pass_rep_from_dec(t: Seq<Tok>, i: int, d: char, n: int, mark: Tok) {
    if 0 <= i < t.len() && rep_match_at(t, i, d, n) {
        lemma_find_delim(t, i + n, d);
    }
}

/// A single-delimiter match anchored at the start of the text.
pub open spec fn one_anchor_at(t: Seq<Tok>, d: char) -> bool {
    t.len() >= 1 && t[0] == ch_tok(d) && {
        let e = find_delim(t, 1, d);
        e < t.len() && body_ok(t, 1, e)
    }
}

/// A single-delimiter match whose guard character at `i` is kept: anything
/// but a backslash may precede the opening delimiter.
pub open spec fn one_guard_at(t: Seq<Tok>, i: int, d: char) -> bool {
    0 <= i && i + 2 <= t.len() && t[i] != ch_tok('\\') && t[i + 1] == ch_tok(d) && {
        let e = find_delim(t, i + 2, d);
        e < t.len() && body_ok(t, i + 2, e)
    }
}

/// One pass replacing each single-delimiter pair (guarded against escapes)
/// by `mark` around its body.
pub open spec fn pass_one_from(t: Seq<Tok>, i: int, d: char, mark: Tok) -> Seq<Tok>
    decreases t.len() - i,
        via pass_one_from_dec
{
    if !(0 <= i < t.len()) {
        Seq::empty()
    } else if i == 0 && one_anchor_at(t, d) {
        let e = find_delim(t, 1, d);
        seq![mark] + t.subrange(1, e) + seq![mark] + pass_one_from(t, e + 1, d, mark)
    } else if one_guard_at(t, i, d) {
        let e = find_delim(t, i + 2, d);
        seq![t[i], mark] + t.subrange(i + 2, e) + seq![mark] + pass_one_from(t, e + 1, d, mark)
    } else {
        seq![t[i]] + pass_one_from(t, i + 1, d, mark)
    }
}

#[via_fn]
proof fn pass_one_from_dec(t: Seq<Tok>, i: int, d: char, mark: Tok) {
    if 0 <= i < t.len() {
        if i == 0 && one_anchor_at(t, d) {
            lemma_find_delim(t, 1, d);
        } else if one_guard_at(t, i, d) {
            lemma_find_delim(t, i + 2, d);
        }
    }
}

/// Turn each escaped delimiter `\d` back into the literal delimiter.
pub open spec fn unescape_from(t: Seq<Tok>, i: int, d: char) -> Seq<Tok>
    decreases t.len() - i,
{
    if !(0 <= i < t.len()) {
        Seq::empty()
    } else if i + 2 <= t.len() && t[i] == ch_tok('\\') && t[i + 1] == ch_tok(d) {
        seq![ch_tok(d)] + unescape_from(t, i + 2, d)
    } else {
        seq![t[i]] + unescape_from(t, i + 1, d)
    }
}

/// Flip the styles named by a mark: off when all of them are active, else on.
pub open spec fn toggle(st: StyleSet, m: Tok) -> StyleSet {
    match m.1 {
        Kind::BoldItalic => if st.bold && st.italic {
            StyleSet { bold: false, italic: false, ..st }
        } else {
            StyleSet { bold: true, italic: true, ..st }
        },
        Kind::Bold => StyleSet { bold: !st.bold, ..st },
        Kind::Italic => StyleSet { italic: !st.italic, ..st },
        Kind::Underline => StyleSet { underline: !st.underline, ..st },
        Kind::Chr => st,
    }
}

/// Walk the token stream, flushing the buffered text as one run whenever a
/// mark changes the active style set.
pub open spec fn build_runs(t: Seq<Tok>, i: int, buf: Seq<char>, st: StyleSet, acc: Seq<RunV>)
    -> Seq<RunV>
    decreases t.len() - i,
{
    if !(0 <= i < t.len()) {
        if buf.len() > 0 {
            acc.push(RunV { content: buf, style: st })
        } else {
            acc
        }
    } else {
        match t[i].1 {
            Kind::Chr => build_runs(t, i + 1, buf.push(t[i].0), st, acc),
            _ => build_runs(
                t,
                i + 1,
                Seq::empty(),
                toggle(st, t[i]),
                if buf.len() > 0 {
                    acc.push(RunV { content: buf, style: st })
                } else {
                    acc
                },
            ),
        }
    }
}

/// The styled runs of a text: the three asterisk passes (most specific
/// first), the underscore pass, unescaping, then the run builder.
#[verifier::opaque]
pub open spec fn styled_runs_spec(s: Seq<char>) -> Seq<RunV> {
    let t1 = pass_rep_from(inject(s), 0, '*', 3, ('*', Kind::BoldItalic));
    let t2 = pass_rep_from(t1, 0, '*', 2, ('*', Kind::Bold));
    let t3 = pass_one_from(t2, 0, '*', ('*', Kind::Italic));
    let t4 = pass_one_from(t3, 0, '_', ('_', Kind::Underline));
    let t5 = unescape_from(t4, 0, '*');
    let t6 = unescape_from(t5, 0, '_');
    build_runs(t6, 0, Seq::empty(), style_none(), Seq::empty())
}

pub open spec fn all_unstyled(runs: Seq<RunV>) -> bool {
    forall|k: int| 0 <= k < runs.len() ==> (#[trigger] runs[k]).style == style_none()
}

pub open spec fn concat_runs(runs: Seq<RunV>) -> Seq<char>
    decreases runs.len(),
{
    if runs.len() == 0 {
        Seq::empty()
    } else {
        runs[0].content + concat_runs(runs.subrange(1, runs.len() as int))
    }
}

/// The final text of an element: styled runs where some style fired, else
/// the unescaped plain text unchanged.
pub open spec fn styled_text_spec(s: Seq<char>) -> TextV {
    let runs = styled_runs_spec(s);
    if all_unstyled(runs) {
        TextV::Plain(concat_runs(runs))
    } else {
        TextV::Styled(runs)
    }
}

// ---------------------------------------------------------------------------
// Executable scanner
// ---------------------------------------------------------------------------

fn tok_is(t: Tok, c: char) -> (r: bool)
    ensures
        r == (t == ch_tok(c)),
{
    match t.1 {
        Kind::Chr => t.0 == c,
        _ => false,
    }
}

fn inject_exec(s: &Vec<char>) -> (r: Vec<Tok>)
    ensures
        r@ == inject(s@),
{
    let mut out: Vec<Tok> = Vec::new();
    let mut i: usize = 0;
    while i < s.len()
        invariant
            0 <= i <= s@.len(),
            out@.len() == i,
            forall|m: int| 0 <= m < i ==> out@[m] == ch_tok(s@[m]),
        decreases s@.len() - i,
    {
        out.push((s[i], Kind::Chr));
        i = i + 1;
    }
    proof {
        assert(out@ =~= inject(s@));
    }
    out
}

fn delims_at_exec(t: &Vec<Tok>, i: usize, d: char, n: usize) -> (r: bool)
    ensures
        r == delims_at(t@, i as int, d, n as int),
{
    let nlen = t.len();
    if i > nlen || n > nlen - i {
        return false;
    }
    let end = i + n;
    let mut k: usize = i;
    while k < end
        invariant
            i <= k <= end,
            end == i + n,
            end <= t@.len(),
            forall|m: int| i <= m < k ==> t@[m] == ch_tok(d),
        decreases end - k,
    {
        if !tok_is(t[k], d) {
            return false;
        }
        k = k + 1;
    }
    true
}

fn find_delim_exec(t: &Vec<Tok>, from: usize, d: char) -> (r: usize)
    requires
        from <= t@.len(),
    ensures
        r == find_delim(t@, from as int, d),
{
    let mut i: usize = from;
    while i < t.len()
        invariant
            from <= i <= t@.len(),
            find_delim(t@, from as int, d) == find_delim(t@, i as int, d),
        decreases t@.len() - i,
    {
        if tok_is(t[i], d) {
            return i;
        }
        i = i + 1;
    }
    i
}

fn body_ok_exec(t: &Vec<Tok>, b: usize, e: usize) -> (r: bool)
    requires
        b <= e <= t@.len(),
    ensures
        r == body_ok(t@, b as int, e as int),
{
    if e <= b {
        return false;
    }
    if tok_is(t[e - 1], ' ') || tok_is(t[e - 1], '\\') {
        return false;
    }
    let mut k: usize = b;
    while k < e
        invariant
            b <= k <= e <= t@.len(),
            forall|m: int| b <= m < k ==> t@[m] != ch_tok('\n'),
        decreases e - k,
    {
        if tok_is(t[k], '\n') {
            return false;
        }
        k = k + 1;
    }
    true
}

fn push_range(out: &mut Vec<Tok>, t: &Vec<Tok>, b: usize, e: usize) -> (nothing: ())
    requires
        b <= e <= t@.len(),
    ensures
        final(out)@ == old(out)@ + t@.subrange(b as int, e as int),
{
    let ghost o0 = out@;
    let mut k: usize = b;
    while k < e
        invariant
            b <= k <= e <= t@.len(),
            out@ == o0 + t@.subrange(b as int, k as int),
        decreases e - k,
    {
        out.push(t[k]);
        proof {
            assert(out@ =~= o0 + t@.subrange(b as int, k + 1));
        }
        k = k + 1;
    }
}

fn pass_rep(t: &Vec<Tok>, d: char, n: usize, mark: Tok) -> (r: Vec<Tok>)
    requires
        1 <= n,
    ensures
        r@ == pass_rep_from(t@, 0, d, n as int, mark),
{
    let mut out: Vec<Tok> = Vec::new();
    let mut i: usize = 0;
    while i < t.len()
        invariant
            0 <= i <= t@.len(),
            1 <= n,
            pass_rep_from(t@, 0, d, n as int, mark) == out@ + pass_rep_from(
                t@,
                i as int,
                d,
                n as int,
                mark,
            ),
        decreases t@.len() - i,
    {
        let ghost o0 = out@;
        let mut matched = false;
        if delims_at_exec(t, i, d, n) {
            let e = find_delim_exec(t, i + n, d);
            proof {
                lemma_find_delim(t@, i + n, d);
            }
            if e < t.len() && body_ok_exec(t, i + n, e) && delims_at_exec(t, e, d, n) {
                assert(rep_match_at(t@, i as int, d, n as int));
                out.push(mark);
                push_range(&mut out, t, i + n, e);
                out.push(mark);
                proof {
                    assert(out@ =~= o0 + (seq![mark] + t@.subrange(i + n, e as int) + seq![mark]));
                    assert(o0 + (seq![mark] + t@.subrange(i + n, e as int) + seq![mark]
                        + pass_rep_from(t@, e + n, d, n as int, mark)) =~= (o0 + (seq![mark]
                        + t@.subrange(i + n, e as int) + seq![mark])) + pass_rep_from(
                        t@,
                        e + n,
                        d,
                        n as int,
                        mark,
                    ));
                }
                i = e + n;
                matched = true;
            }
        }
        if !matched {
            proof {
                assert(!rep_match_at(t@, i as int, d, n as int));
            }
            out.push(t[i]);
            proof {
                assert(out@ =~= o0 + seq![t@[i as int]]);
                assert(o0 + (seq![t@[i as int]] + pass_rep_from(t@, i + 1, d, n as int, mark))
                    =~= (o0 + seq![t@[i as int]]) + pass_rep_from(t@, i + 1, d, n as int, mark));
            }
            i = i + 1;
        }
    }
    proof {
        assert(out@ + pass_rep_from(t@, i as int, d, n as int, mark) =~= out@);
    }
    out
}

fn pass_one(t: &Vec<Tok>, d: char, mark: Tok) -> (r: Vec<Tok>)
    ensures
        r@ == pass_one_from(t@, 0, d, mark),
{
    let mut out: Vec<Tok> = Vec::new();
    let mut i: usize = 0;
    while i < t.len()
        invariant
            0 <= i <= t@.len(),
            pass_one_from(t@, 0, d, mark) == out@ + pass_one_from(t@, i as int, d, mark),
        decreases t@.len() - i,
    {
        let ghost o0 = out@;
        let mut matched = false;
        if i == 0 && tok_is(t[0], d) {
            let e = find_delim_exec(t, 1, d);
            proof {
                lemma_find_delim(t@, 1, d);
            }
            if e < t.len() && body_ok_exec(t, 1, e) {
                assert(one_anchor_at(t@, d));
                out.push(mark);
                push_range(&mut out, t, 1, e);
                out.push(mark);
                proof {
                    assert(out@ =~= o0 + (seq![mark] + t@.subrange(1, e as int) + seq![mark]));
                    assert(o0 + (seq![mark] + t@.subrange(1, e as int) + seq![mark] + pass_one_from(
                        t@,
                        e + 1,
                        d,
                        mark,
                    )) =~= (o0 + (seq![mark] + t@.subrange(1, e as int) + seq![mark]))
                        + pass_one_from(t@, e + 1, d, mark));
                }
                i = e + 1;
                matched = true;
            } else {
                proof {
                    assert(!one_anchor_at(t@, d));
                }
            }
        }
        if !matched && i + 1 < t.len() && !tok_is(t[i], '\\') && tok_is(t[i + 1], d) {
            let e = find_delim_exec(t, i + 2, d);
            proof {
                lemma_find_delim(t@, i + 2, d);
            }
            if e < t.len() && body_ok_exec(t, i + 2, e) {
                assert(one_guard_at(t@, i as int, d));
                assert(!(i == 0 && one_anchor_at(t@, d)));
                out.push(t[i]);
                out.push(mark);
                push_range(&mut out, t, i + 2, e);
                out.push(mark);
                proof {
                    assert(out@ =~= o0 + (seq![t@[i as int], mark] + t@.subrange(i + 2, e as int)
                        + seq![mark]));
                    assert(o0 + (seq![t@[i as int], mark] + t@.subrange(i + 2, e as int)
                        + seq![mark] + pass_one_from(t@, e + 1, d, mark)) =~= (o0 + (seq![
                        t@[i as int],
                        mark,
                    ] + t@.subrange(i + 2, e as int) + seq![mark])) + pass_one_from(
                        t@,
                        e + 1,
                        d,
                        mark,
                    ));
                }
                i = e + 1;
                matched = true;
            }
        }
        if !matched {
            proof {
                assert(!(i == 0 && one_anchor_at(t@, d)));
                assert(!one_guard_at(t@, i as int, d));
            }
            out.push(t[i]);
            proof {
                assert(out@ =~= o0 + seq![t@[i as int]]);
                assert(o0 + (seq![t@[i as int]] + pass_one_from(t@, i + 1, d, mark)) =~= (o0
                    + seq![t@[i as int]]) + pass_one_from(t@, i + 1, d, mark));
            }
            i = i + 1;
        }
    }
    proof {
        assert(out@ + pass_one_from(t@, i as int, d, mark) =~= out@);
    }
    out
}

fn unescape(t: &Vec<Tok>, d: char) -> (r: Vec<Tok>)
    ensures
        r@ == unescape_from(t@, 0, d),
{
    let mut out: Vec<Tok> = Vec::new();
    let mut i: usize = 0;
    while i < t.len()
        invariant
            0 <= i <= t@.len(),
            unescape_from(t@, 0, d) == out@ + unescape_from(t@, i as int, d),
        decreases t@.len() - i,
    {
        let ghost o0 = out@;
        if i + 1 < t.len() && tok_is(t[i], '\\') && tok_is(t[i + 1], d) {
            out.push((d, Kind::Chr));
            proof {
                assert(out@ =~= o0 + seq![ch_tok(d)]);
                assert(o0 + (seq![ch_tok(d)] + unescape_from(t@, i + 2, d)) =~= (o0 + seq![
                    ch_tok(d),
                ]) + unescape_from(t@, i + 2, d));
            }
            i = i + 2;
        } else {
            out.push(t[i]);
            proof {
                assert(out@ =~= o0 + seq![t@[i as int]]);
                assert(o0 + (seq![t@[i as int]] + unescape_from(t@, i + 1, d)) =~= (o0 + seq![
                    t@[i as int],
                ]) + unescape_from(t@, i + 1, d));
            }
            i = i + 1;
        }
    }
    proof {
        assert(out@ + unescape_from(t@, i as int, d) =~= out@);
    }
    out
}

fn toggle_exec(st: StyleSet, m: Tok) -> (r: StyleSet)
    ensures
        r == toggle(st, m),
{
    match m.1 {
        Kind::BoldItalic => {
            if st.bold && st.italic {
                StyleSet { bold: false, italic: false, ..st }
            } else {
                StyleSet { bold: true, italic: true, ..st }
            }
        },
        Kind::Bold => StyleSet { bold: !st.bold, ..st },
        Kind::Italic => StyleSet { italic: !st.italic, ..st },
        Kind::Underline => StyleSet { underline: !st.underline, ..st },
        Kind::Chr => st,
    }
}

fn build_runs_exec(t: &Vec<Tok>) -> (r: Vec<TextRun>)
    ensures
        runs_view(r) == build_runs(t@, 0, Seq::empty(), style_none(), Seq::empty()),
{
    let mut out: Vec<TextRun> = Vec::new();
    let mut buf: Vec<char> = Vec::new();
    let mut st = StyleSet::none();
    let mut i: usize = 0;
    proof {
        assert(runs_view(out) =~= Seq::<RunV>::empty());
    }
    while i < t.len()
        invariant
            0 <= i <= t@.len(),
            build_runs(t@, 0, Seq::empty(), style_none(), Seq::empty()) == build_runs(
                t@,
                i as int,
                buf@,
                st,
                runs_view(out),
            ),
        decreases t@.len() - i,
    {
        let tok = t[i];
        match tok.1 {
            Kind::Chr => {
                buf.push(tok.0);
            },
            _ => {
                let ghost rv0 = runs_view(out);
                if buf.len() > 0 {
                    let run = TextRun { content: chars_to_string(&buf), text_style: st };
                    out.push(run);
                    proof {
                        assert(runs_view(out) =~= rv0.push(RunV { content: buf@, style: st }));
                    }
                }
                buf = Vec::new();
                st = toggle_exec(st, tok);
            },
        }
        i = i + 1;
    }
    let ghost rv0 = runs_view(out);
    if buf.len() > 0 {
        let run = TextRun { content: chars_to_string(&buf), text_style: st };
        out.push(run);
        proof {
            assert(runs_view(out) =~= rv0.push(RunV { content: buf@, style: st }));
        }
    }
    out
}

/// The styled runs of a text, executed end to end.
fn styled_runs(s: &Vec<char>) -> (r: Vec<TextRun>)
    ensures
        runs_view(r) == styled_runs_spec(s@),
{
    proof {
        reveal(styled_runs_spec);
    }
    let t0 = inject_exec(s);
    let t1 = pass_rep(&t0, '*', 3, ('*', Kind::BoldItalic));
    let t2 = pass_rep(&t1, '*', 2, ('*', Kind::Bold));
    let t3 = pass_one(&t2, '*', ('*', Kind::Italic));
    let t4 = pass_one(&t3, '_', ('_', Kind::Underline));
    let t5 = unescape(&t4, '*');
    let t6 = unescape(&t5, '_');
    build_runs_exec(&t6)
}

/// Decompose a text into styled runs, unconditionally.
pub fn create_styled_from_string(txt: &str) -> (r: ElementText)
    ensures
        text_view(r) == TextV::Styled(styled_runs_spec(txt@)),
{
    let chars = crate::text::str_to_chars(txt);
    let runs = styled_runs(&chars);
    ElementText::Styled(runs)
}

proof fn lemma_concat_runs_push(runs: Seq<RunV>, x: RunV)
    ensures
        concat_runs(runs.push(x)) == concat_runs(runs) + x.content,
    decreases runs.len(),
{
    if runs.len() == 0 {
        assert(runs.push(x)[0] == x);
        assert(runs.push(x).subrange(1, 1) =~= Seq::<RunV>::empty());
        assert(concat_runs(Seq::<RunV>::empty()) == Seq::<char>::empty());
        assert(concat_runs(runs.push(x)) == x.content + Seq::<char>::empty());
        assert(x.content + Seq::<char>::empty() =~= x.content);
        assert(concat_runs(runs) + x.content =~= x.content);
    } else {
        assert(runs.push(x).subrange(1, runs.len() as int + 1) =~= runs.subrange(
            1,
            runs.len() as int,
        ).push(x));
        lemma_concat_runs_push(runs.subrange(1, runs.len() as int), x);
        assert(runs[0].content + (concat_runs(runs.subrange(1, runs.len() as int)) + x.content)
            =~= (runs[0].content + concat_runs(runs.subrange(1, runs.len() as int))) + x.content);
    }
}

/// Tokenize a plain text and keep the runs only where some style fired,
/// else keep the (unescaped) text plain.
pub fn style_plain_text(s: &Vec<char>) -> (r: ElementText)
    ensures
        text_view(r) == styled_text_spec(s@),
{
    let runs = styled_runs(s);
    let mut any_styled = false;
    let mut k: usize = 0;
    while k < runs.len()
        invariant
            0 <= k <= runs@.len(),
            runs_view(runs) == styled_runs_spec(s@),
            any_styled == !(forall|m: int|
                0 <= m < k ==> (#[trigger] runs_view(runs)[m]).style == style_none()),
        decreases runs@.len() - k,
    {
        let stk = runs[k].text_style;
        if stk.bold || stk.italic || stk.underline {
            proof {
                assert(runs_view(runs)[k as int].style == stk);
            }
            any_styled = true;
        } else {
            proof {
                assert(runs_view(runs)[k as int].style == style_none());
            }
        }
        k = k + 1;
    }
    if any_styled {
        proof {
            assert(!all_unstyled(styled_runs_spec(s@)));
        }
        ElementText::Styled(runs)
    } else {
        proof {
            assert(all_unstyled(styled_runs_spec(s@)));
        }
        let mut text = String::new();
        let mut k: usize = 0;
        while k < runs.len()
            invariant
                0 <= k <= runs@.len(),
                runs_view(runs) == styled_runs_spec(s@),
                text@ == concat_runs(runs_view(runs).take(k as int)),
            decreases runs@.len() - k,
        {
            proof {
                lemma_concat_runs_push(
                    runs_view(runs).take(k as int),
                    runs_view(runs)[k as int],
                );
                assert(runs_view(runs).take(k as int).push(runs_view(runs)[k as int]) =~= runs_view(
                    runs,
                ).take(k + 1));
            }
            text.append(runs[k].content.as_str());
            k = k + 1;
        }
        proof {
            assert(runs_view(runs).take(runs@.len() as int) =~= runs_view(runs));
        }
        ElementText::Plain(text)
    }
}

/// Convert a plain element text into its styled decomposition.
pub fn convert_plain_to_styled(plain: &ElementText) -> (r: ElementText)
    requires
        plain is Plain,
    ensures
        text_view(r) == TextV::Styled(styled_runs_spec(plain->Plain_0@)),
{
    match plain {
        ElementText::Plain(s) => create_styled_from_string(s.as_str()),
        ElementText::Styled(_) => ElementText::Styled(Vec::new()),
    }
}

} // verus!

verus! {

broadcast use vstd::std_specs::vec::group_vec_axioms;

/// The finalization of one element text: plain text is tokenized and kept
/// plain unless some style fired; already-styled text is left untouched.
pub open spec fn style_text_of(t: TextV) -> TextV {
    match t {
        TextV::Plain(s) => styled_text_spec(s),
        TextV::Styled(r) => TextV::Styled(r),
    }
}

/// The finalization pass over one element: its text is styled, and block
/// elements are finalized child by child.
pub open spec fn style_elem_spec(e: ElemV) -> ElemV
    decreases e,
{
    match e {
        ElemV::Action(t, a) => ElemV::Action(style_text_of(t), a),
        ElemV::Character(t, a) => ElemV::Character(style_text_of(t), a),
        ElemV::SceneHeading(t, a) => ElemV::SceneHeading(style_text_of(t), a),
        ElemV::Lyric(t, a) => ElemV::Lyric(style_text_of(t), a),
        ElemV::Parenthetical(t, a) => ElemV::Parenthetical(style_text_of(t), a),
        ElemV::Dialogue(t, a) => ElemV::Dialogue(style_text_of(t), a),
        ElemV::DialogueBlock(ch) => ElemV::DialogueBlock(style_elems_spec(ch)),
        ElemV::DualDialogueBlock(ch) => ElemV::DualDialogueBlock(style_elems_spec(ch)),
        ElemV::Transition(t, a) => ElemV::Transition(style_text_of(t), a),
        ElemV::Section(t, a, l) => ElemV::Section(style_text_of(t), a, l),
        ElemV::Synopsis(t) => ElemV::Synopsis(style_text_of(t)),
        ElemV::ColdOpening(t, a) => ElemV::ColdOpening(style_text_of(t), a),
        ElemV::NewAct(t, a) => ElemV::NewAct(style_text_of(t), a),
        ElemV::EndOfAct(t, a) => ElemV::EndOfAct(style_text_of(t), a),
        ElemV::PageBreak => ElemV::PageBreak,
    }
}

pub open spec fn style_elems_spec(s: Seq<ElemV>) -> Seq<ElemV>
    decreases s,
{
    if s.len() == 0 {
        Seq::empty()
    } else {
        seq![style_elem_spec(s[0])] + style_elems_spec(s.subrange(1, s.len() as int))
    }
}

pub proof fn lemma_style_elems(s: Seq<ElemV>)
    ensures
        style_elems_spec(s).len() == s.len(),
        forall|i: int| 0 <= i < s.len() ==> style_elems_spec(s)[i] == style_elem_spec(s[i]),
    decreases s,
{
    if s.len() > 0 {
        lemma_style_elems(s.subrange(1, s.len() as int));
    }
}

fn style_text_exec(t: ElementText) -> (r: ElementText)
    ensures
        text_view(r) == style_text_of(text_view(t)),
{
    match t {
        ElementText::Plain(s) => {
            let chars = crate::text::str_to_chars(s.as_str());
            style_plain_text(&chars)
        },
        ElementText::Styled(v) => ElementText::Styled(v),
    }
}

#[verifier::loop_isolation(false)]
pub(crate) fn style_children(v: Vec<Element>) -> (r: Vec<Element>)
    ensures
        elems_view(r@) == style_elems_spec(elems_view(v@)),
    decreases v,
{
    let ghost vv = v;
    let ghost v0 = v@;
    let mut rest = v;
    let mut out: Vec<Element> = Vec::new();
    while rest.len() > 0
        invariant
            vv@ == v0,
            out@.len() + rest@.len() == v0.len(),
            rest@ == v0.subrange(out@.len() as int, v0.len() as int),
            forall|m: int|
                0 <= m < out@.len() ==> elem_view(#[trigger] out@[m]) == style_elem_spec(
                    elem_view(v0[m]),
                ),
        decreases rest@.len(),
    {
        let ghost restv = rest@;
        let ghost outv = out@;
        let e = rest.remove(0);
        proof {
            assert(rest@ =~= v0.subrange(outv.len() as int + 1, v0.len() as int));
            assert(e == v0[outv.len() as int]);
            assert(vv@ == v0);
            assert(decreases_to!(vv => e));
        }
        let fe = style_element(e);
        out.push(fe);
    }
    proof {
        lemma_elems_view(out@);
        lemma_elems_view(v0);
        lemma_style_elems(elems_view(v0));
        assert(elems_view(out@) =~= style_elems_spec(elems_view(v0)));
    }
    out
}

/// Finalize one element: tokenize its plain text, recursing into blocks.
pub fn style_element(e: Element) -> (r: Element)
    ensures
        elem_view(r) == style_elem_spec(elem_view(e)),
    decreases e,
{
    match e {
        Element::Action(t, a) => Element::Action(style_text_exec(t), a),
        Element::Character(t, a) => Element::Character(style_text_exec(t), a),
        Element::SceneHeading(t, a) => Element::SceneHeading(style_text_exec(t), a),
        Element::Lyric(t, a) => Element::Lyric(style_text_exec(t), a),
        Element::Parenthetical(t, a) => Element::Parenthetical(style_text_exec(t), a),
        Element::Dialogue(t, a) => Element::Dialogue(style_text_exec(t), a),
        Element::DialogueBlock(v) => Element::DialogueBlock(style_children(v)),
        Element::DualDialogueBlock(v) => Element::DualDialogueBlock(style_children(v)),
        Element::Transition(t, a) => Element::Transition(style_text_exec(t), a),
        Element::Section(t, a, l) => Element::Section(style_text_exec(t), a, l),
        Element::Synopsis(t) => Element::Synopsis(style_text_exec(t)),
        Element::ColdOpening(t, a) => Element::ColdOpening(style_text_exec(t), a),
        Element::NewAct(t, a) => Element::NewAct(style_text_exec(t), a),
        Element::EndOfAct(t, a) => Element::EndOfAct(style_text_exec(t), a),
        Element::PageBreak => Element::PageBreak,
    }
}

impl Element {
    /// Decompose this action element's plain text into styled runs.
    pub fn parse_and_convert_markup(&mut self) -> (nothing: ())
        requires
            *old(self) matches Element::Action(t, _) && t is Plain,
        ensures
            elem_view(*final(self)) == (match elem_view(*old(self)) {
                ElemV::Action(TextV::Plain(s), a) => ElemV::Action(
                    TextV::Styled(styled_runs_spec(s)),
                    a,
                ),
                x => x,
            }),
    {
        let mut tmp = Element::PageBreak;
        core::mem::swap(self, &mut tmp);
        match tmp {
            Element::Action(t, a) => {
                let styled = convert_plain_to_styled(&t);
                *self = Element::Action(styled, a);
            },
            other => {
                proof {
                    assert(false);
                }
                *self = other;
            },
        }
    }
}

} // verus!
