//! The element classifier: maps each hunk to one typed element through
//! prioritized pattern rules, resolving dual-dialogue pairing, synopsis
//! attachment and page-break absorption in one backward pass.
use crate::text::{
    at_pos, chars_to_string, ends_with_lit, eq_chars, eq_lit, find_char, find_char_from, find_pair,
    find_pair_from, has_prefix, has_suffix, is_space_char, join_lines, join_with_newlines,
    lemma_find_char_from, space_char, starts_with_lit, str_to_chars, subvec, trim_end_in,
    trim_end_in_spec, trim_in, trim_in_spec, trim_start_in, trim_start_in_spec, trim_start_ws,
    trim_start_ws_spec, trim_ws, trim_ws_spec,
};
use crate::unicode::{lower_chars, lower_of, upper_chars, upper_of};
use crate::{
    attr_view, blank_attr, blank_attributes, elem_view, elems_view, lemma_elems_view, text_view,
    AttrV, Attributes, Element, ElementText, ElemV, TextV,
};
use vstd::prelude::*;

verus! {

broadcast use vstd::std_specs::vec::group_vec_axioms, crate::text::lemma_chars_deep_view;

// ---------------------------------------------------------------------------
// Line predicates
// ---------------------------------------------------------------------------

/// The sixteen scene-location prefixes, checked on the uppercased line.
pub open spec fn scene_prefixed(u: Seq<char>) -> bool {
    has_prefix(u, "INT "@) || has_prefix(u, "INT."@) || has_prefix(u, "EXT "@) || has_prefix(
        u,
        "EXT."@,
    ) || has_prefix(u, "EST."@) || has_prefix(u, "EST "@) || has_prefix(u, "INT./EXT."@)
        || has_prefix(u, "INT./EXT "@) || has_prefix(u, "INT/EXT."@) || has_prefix(u, "INT/EXT "@)
        || has_prefix(u, "I/E."@) || has_prefix(u, "I/E "@) || has_prefix(u, "EXT./INT."@)
        || has_prefix(u, "EXT./INT "@) || has_prefix(u, "EXT/INT."@) || has_prefix(u, "EXT/INT "@)
}

pub open spec fn is_scene_spec(line: Seq<char>) -> bool {
    scene_prefixed(upper_of(line))
}

/// A transition line: its trimmed, uppercased form ends in the transition
/// suffix standing as its own word (so a word merely ending in the same
/// letters does not qualify).
pub open spec fn is_transition_spec(line: Seq<char>) -> bool {
    let u = upper_of(trim_ws_spec(line));
    has_suffix(u, " TO:"@) || u == "TO:"@
}

pub open spec fn is_centered_spec(line: Seq<char>) -> bool {
    let t = trim_ws_spec(line);
    t.len() > 0 && t[0] == '>' && t.last() == '<'
}

pub open spec fn angle_set() -> Seq<char> {
    seq!['>', '<']
}

/// Strip the centering marks: angle characters at the very ends, then
/// surrounding whitespace.
pub open spec fn trim_centered_spec(line: Seq<char>) -> Seq<char> {
    trim_ws_spec(trim_in_spec(line, angle_set()))
}

pub open spec fn is_character_spec(line: Seq<char>) -> bool {
    line == upper_of(line)
}

pub open spec fn is_parenthetical_spec(line: Seq<char>) -> bool {
    let t = trim_ws_spec(line);
    t.len() > 0 && t[0] == '(' && t.last() == ')'
}

pub open spec fn is_lyric_spec(line: Seq<char>) -> bool {
    let t = trim_ws_spec(line);
    t.len() > 0 && t[0] == '~'
}

pub open spec fn is_dual_dialogue_spec(line: Seq<char>) -> bool {
    let t = trim_ws_spec(line);
    t.len() > 0 && t.last() == '^'
}

pub open spec fn has_note_spec(s: Seq<char>) -> bool {
    find_pair_from(s, 0, '[', '[') < s.len()
}

fn is_scene_chars(v: &Vec<char>) -> (r: bool)
    ensures
        r == is_scene_spec(v@),
{
    let u = upper_chars(v);
    starts_with_lit(&u, "INT ") || starts_with_lit(&u, "INT.") || starts_with_lit(&u, "EXT ")
        || starts_with_lit(&u, "EXT.") || starts_with_lit(&u, "EST.") || starts_with_lit(&u, "EST ")
        || starts_with_lit(&u, "INT./EXT.") || starts_with_lit(&u, "INT./EXT ") || starts_with_lit(
        &u,
        "INT/EXT.",
    ) || starts_with_lit(&u, "INT/EXT ") || starts_with_lit(&u, "I/E.") || starts_with_lit(
        &u,
        "I/E ",
    ) || starts_with_lit(&u, "EXT./INT.") || starts_with_lit(&u, "EXT./INT ") || starts_with_lit(
        &u,
        "EXT/INT.",
    ) || starts_with_lit(&u, "EXT/INT ")
}

/// Does the line open with one of the scene-location prefixes, up to case?
pub fn is_scene(line: &str) -> (r: bool)
    ensures
        r == is_scene_spec(line@),
{
    let v = str_to_chars(line);
    is_scene_chars(&v)
}

fn is_transition_chars(v: &Vec<char>) -> (r: bool)
    ensures
        r == is_transition_spec(v@),
{
    let t = trim_ws(v);
    let u = upper_chars(&t);
    ends_with_lit(&u, " TO:") || eq_lit(&u, "TO:")
}

/// Does the trimmed, uppercased line end in the transition suffix?
pub fn is_transition(line: &str) -> (r: bool)
    ensures
        r == is_transition_spec(line@),
{
    let v = str_to_chars(line);
    is_transition_chars(&v)
}

fn is_centered_chars(v: &Vec<char>) -> (r: bool)
    ensures
        r == is_centered_spec(v@),
{
    let t = trim_ws(v);
    t.len() > 0 && t[0] == '>' && t[t.len() - 1] == '<'
}

/// Is the trimmed line wrapped in centering marks?
pub fn is_centered(line: &str) -> (r: bool)
    ensures
        r == is_centered_spec(line@),
{
    let v = str_to_chars(line);
    is_centered_chars(&v)
}

fn angle_set_exec() -> (r: Vec<char>)
    ensures
        r@ == angle_set(),
{
    let mut s: Vec<char> = Vec::new();
    s.push('>');
    s.push('<');
    proof {
        assert(s@ =~= angle_set());
    }
    s
}

fn trim_centered_chars(v: &Vec<char>) -> (r: Vec<char>)
    ensures
        r@ == trim_centered_spec(v@),
{
    let set = angle_set_exec();
    let t = trim_in(v, &set);
    trim_ws(&t)
}

/// Strip the centering marks from a line.
pub fn trim_centered_marks(line: &str) -> (r: String)
    ensures
        r@ == trim_centered_spec(line@),
{
    let v = str_to_chars(line);
    let t = trim_centered_chars(&v);
    chars_to_string(&t)
}

fn is_character_chars(v: &Vec<char>) -> (r: bool)
    ensures
        r == is_character_spec(v@),
{
    let u = upper_chars(v);
    eq_chars(v, &u)
}

/// Is the line its own uppercase form (a character cue)?
pub fn is_character(line: &str) -> (r: bool)
    ensures
        r == is_character_spec(line@),
{
    let v = str_to_chars(line);
    is_character_chars(&v)
}

fn is_parenthetical_chars(v: &Vec<char>) -> (r: bool)
    ensures
        r == is_parenthetical_spec(v@),
{
    let t = trim_ws(v);
    t.len() > 0 && t[0] == '(' && t[t.len() - 1] == ')'
}

/// Is the trimmed line wrapped in parentheses?
pub fn is_parenthetical(line: &str) -> (r: bool)
    ensures
        r == is_parenthetical_spec(line@),
{
    let v = str_to_chars(line);
    is_parenthetical_chars(&v)
}

fn is_lyric_chars(v: &Vec<char>) -> (r: bool)
    ensures
        r == is_lyric_spec(v@),
{
    let t = trim_ws(v);
    t.len() > 0 && t[0] == '~'
}

/// Does the trimmed line open with the lyric marker?
pub fn is_lyric(line: &str) -> (r: bool)
    ensures
        r == is_lyric_spec(line@),
{
    let v = str_to_chars(line);
    is_lyric_chars(&v)
}

fn is_dual_dialogue_chars(v: &Vec<char>) -> (r: bool)
    ensures
        r == is_dual_dialogue_spec(v@),
{
    let t = trim_ws(v);
    t.len() > 0 && t[t.len() - 1] == '^'
}

/// Does the trimmed line end in the dual-dialogue caret?
pub fn is_dual_dialogue(line: &str) -> (r: bool)
    ensures
        r == is_dual_dialogue_spec(line@),
{
    let v = str_to_chars(line);
    is_dual_dialogue_chars(&v)
}

fn has_note_chars(v: &Vec<char>) -> (r: bool)
    ensures
        r == has_note_spec(v@),
{
    let p = find_pair(v, 0, '[', '[');
    p < v.len()
}

/// Does the text hold an opening note bracket?
pub fn has_note(line: &str) -> (r: bool)
    ensures
        r == has_note_spec(line@),
{
    let v = str_to_chars(line);
    has_note_chars(&v)
}

// ---------------------------------------------------------------------------
// Notes
// ---------------------------------------------------------------------------

/// A bracketed note at `i`: a double opening bracket, a nonempty body free
/// of closing brackets, and a double closing bracket.
pub open spec fn note_at(s: Seq<char>, i: int) -> bool {
    0 <= i && i + 2 <= s.len() && s[i] == '[' && s[i + 1] == '[' && {
        let j = find_char_from(s, i + 2, ']');
        j > i + 2 && j + 1 < s.len() && s[j + 1] == ']'
    }
}

/// The text with every bracketed note removed, scanning from `i`.
pub open spec fn remove_notes_from(s: Seq<char>, i: int) -> Seq<char>
    decreases s.len() - i,
        via remove_notes_from_dec
{
    if !(0 <= i < s.len()) {
        Seq::empty()
    } else if note_at(s, i) {
        remove_notes_from(s, find_char_from(s, i + 2, ']') + 2)
    } else {
        seq![s[i]] + remove_notes_from(s, i + 1)
    }
}

#[via_fn]
proof fn remove_notes_from_dec(s: Seq<char>, i: int) {
    if 0 <= i < s.len() && note_at(s, i) {
        lemma_find_char_from(s, i + 2, ']');
    }
}

pub open spec fn remove_notes_spec(s: Seq<char>) -> Seq<char> {
    remove_notes_from(s, 0)
}

/// The bodies of the bracketed notes, in order, scanning from `i`.
pub open spec fn notes_from(s: Seq<char>, i: int) -> Seq<Seq<char>>
    decreases s.len() - i,
        via notes_from_dec
{
    if !(0 <= i < s.len()) {
        Seq::empty()
    } else if note_at(s, i) {
        let j = find_char_from(s, i + 2, ']');
        seq![s.subrange(i + 2, j)] + notes_from(s, j + 2)
    } else {
        notes_from(s, i + 1)
    }
}

#[via_fn]
proof fn notes_from_dec(s: Seq<char>, i: int) {
    if 0 <= i < s.len() && note_at(s, i) {
        lemma_find_char_from(s, i + 2, ']');
    }
}

fn note_at_exec(v: &Vec<char>, i: usize) -> (r: bool)
    requires
        i <= v@.len(),
    ensures
        r == note_at(v@, i as int),
{
    let nlen = v.len();
    if nlen - i < 2 || !(v[i] == '[' && v[i + 1] == '[') {
        return false;
    }
    proof {
        lemma_find_char_from(v@, i + 2, ']');
    }
    let j = find_char(v, i + 2, ']');
    j > i + 2 && nlen - j > 1 && v[j + 1] == ']'
}

fn remove_notes_chars(v: &Vec<char>) -> (r: Vec<char>)
    ensures
        r@ == remove_notes_spec(v@),
{
    let mut out: Vec<char> = Vec::new();
    let mut i: usize = 0;
    while i < v.len()
        invariant
            0 <= i <= v@.len(),
            remove_notes_spec(v@) == out@ + remove_notes_from(v@, i as int),
        decreases v@.len() - i,
    {
        if note_at_exec(v, i) {
            proof {
                lemma_find_char_from(v@, i + 2, ']');
            }
            let j = find_char(v, i + 2, ']');
            proof {
                assert(out@ + remove_notes_from(v@, i as int) =~= out@ + remove_notes_from(
                    v@,
                    j + 2,
                ));
            }
            i = j + 2;
            if i > v.len() {
                i = v.len();
            }
        } else {
            out.push(v[i]);
            proof {
                assert(out@ + remove_notes_from(v@, i + 1) =~= (out@.drop_last() + (seq![
                    v@[i as int],
                ] + remove_notes_from(v@, i + 1))));
            }
            i = i + 1;
        }
    }
    proof {
        assert(out@ + remove_notes_from(v@, i as int) =~= out@);
    }
    out
}

/// The line with every bracketed note removed.
pub fn remove_notes(line: &str) -> (r: String)
    ensures
        r@ == remove_notes_spec(line@),
{
    let v = str_to_chars(line);
    let out = remove_notes_chars(&v);
    chars_to_string(&out)
}

fn notes_chars(v: &Vec<char>) -> (r: Vec<String>)
    ensures
        crate::strings_view(r) == notes_from(v@, 0),
{
    let mut out: Vec<String> = Vec::new();
    let mut i: usize = 0;
    while i < v.len()
        invariant
            0 <= i <= v@.len(),
            notes_from(v@, 0) == crate::strings_view(out) + notes_from(v@, i as int),
        decreases v@.len() - i,
    {
        let ghost o0 = crate::strings_view(out);
        if note_at_exec(v, i) {
            proof {
                lemma_find_char_from(v@, i + 2, ']');
            }
            let j = find_char(v, i + 2, ']');
            let body = subvec(v, i + 2, j);
            out.push(chars_to_string(&body));
            proof {
                assert(crate::strings_view(out) =~= o0.push(v@.subrange(i + 2, j as int)));
                assert(o0 + (seq![v@.subrange(i + 2, j as int)] + notes_from(v@, j + 2)) =~= o0.push(
                    v@.subrange(i + 2, j as int),
                ) + notes_from(v@, j + 2));
            }
            i = j + 2;
            if i > v.len() {
                i = v.len();
            }
        } else {
            i = i + 1;
        }
    }
    proof {
        assert(crate::strings_view(out) + notes_from(v@, i as int) =~= crate::strings_view(out));
    }
    out
}

/// The bodies of the line's bracketed notes, in order.
pub fn retrieve_notes(line: &str) -> (r: Option<Vec<String>>)
    ensures
        r matches Some(ns) && crate::strings_view(ns) == notes_from(line@, 0),
{
    let v = str_to_chars(line);
    Some(notes_chars(&v))
}

// ---------------------------------------------------------------------------
// Scene numbers
// ---------------------------------------------------------------------------

/// Index of the last occurrence of `c`, or -1 if none.
pub open spec fn rfind_char(s: Seq<char>, c: char) -> int
    decreases s.len(),
{
    if s.len() == 0 {
        -1
    } else if s.last() == c {
        s.len() - 1
    } else {
        rfind_char(s.drop_last(), c)
    }
}

pub proof fn lemma_rfind_char(s: Seq<char>, c: char)
    ensures
        -1 <= rfind_char(s, c) < s.len(),
        rfind_char(s, c) >= 0 ==> s[rfind_char(s, c)] == c,
        forall|m: int| rfind_char(s, c) < m < s.len() ==> s[m] != c,
    decreases s.len(),
{
    if s.len() > 0 && s.last() != c {
        lemma_rfind_char(s.drop_last(), c);
        assert forall|m: int| rfind_char(s, c) < m < s.len() implies s[m] != c by {
            if m < s.len() - 1 {
                assert(s.drop_last()[m] == s[m]);
            }
        }
    }
}

fn rfind_char_exec(v: &Vec<char>) -> (r: usize)
    ensures
        r == rfind_char(v@, '#') + 1,
{
    let mut j: usize = v.len();
    proof {
        assert(v@.take(v@.len() as int) =~= v@);
    }
    while j > 0
        invariant
            0 <= j <= v@.len(),
            rfind_char(v@, '#') == rfind_char(v@.take(j as int), '#'),
        decreases j,
    {
        if v[j - 1] == '#' {
            proof {
                assert(v@.take(j as int).last() == v@[j - 1]);
            }
            return j;
        }
        proof {
            assert(v@.take(j as int).drop_last() =~= v@.take(j - 1));
        }
        j = j - 1;
    }
    proof {
        assert(v@.take(0).len() == 0);
    }
    0
}

/// A scene-number opening at `k`: a hash after whitespace, with another
/// hash later in the line.
pub open spec fn sn_open_at(s: Seq<char>, k: int) -> bool {
    0 < k < s.len() && s[k] == '#' && is_space_char(s[k - 1]) && rfind_char(s, '#') > k
}

/// The first scene-number opening at or after `k`, or `s.len()`.
pub open spec fn sn_find(s: Seq<char>, k: int) -> int
    decreases s.len() - k,
{
    if !(0 <= k < s.len()) {
        s.len() as int
    } else if sn_open_at(s, k) {
        k
    } else {
        sn_find(s, k + 1)
    }
}

pub proof fn lemma_sn_find(s: Seq<char>, k: int)
    requires
        0 <= k <= s.len(),
    ensures
        k <= sn_find(s, k) <= s.len(),
        sn_find(s, k) < s.len() ==> sn_open_at(s, sn_find(s, k)),
        forall|m: int| k <= m < sn_find(s, k) ==> !sn_open_at(s, m),
    decreases s.len() - k,
{
    if k < s.len() && !sn_open_at(s, k) {
        lemma_sn_find(s, k + 1);
    }
}

pub open spec fn has_scene_number(s: Seq<char>) -> bool {
    sn_find(s, 0) < s.len()
}

/// Start of the whitespace run that precedes position `k`.
pub open spec fn ws_run_start(s: Seq<char>, k: int) -> int
    decreases k,
{
    if 0 < k <= s.len() && is_space_char(s[k - 1]) {
        ws_run_start(s, k - 1)
    } else {
        k
    }
}

pub proof fn lemma_ws_run_start(s: Seq<char>, k: int)
    requires
        0 <= k <= s.len(),
    ensures
        0 <= ws_run_start(s, k) <= k,
        forall|m: int| ws_run_start(s, k) <= m < k ==> is_space_char(s[m]),
        ws_run_start(s, k) > 0 ==> !is_space_char(s[ws_run_start(s, k) - 1]),
    decreases k,
{
    if 0 < k && is_space_char(s[k - 1]) {
        lemma_ws_run_start(s, k - 1);
    }
}

pub open spec fn hash_space_set() -> Seq<char> {
    seq![' ', '#']
}

/// The scene number carried by the line: the matched span trimmed of spaces
/// and hashes.
pub open spec fn scene_number_of(s: Seq<char>) -> Seq<char> {
    let k = sn_find(s, 0);
    let a = ws_run_start(s, k);
    let e = rfind_char(s, '#');
    trim_in_spec(s.subrange(a, e + 1), hash_space_set())
}

/// The line with its scene-number span removed.
pub open spec fn without_scene_number(s: Seq<char>) -> Seq<char> {
    let k = sn_find(s, 0);
    let a = ws_run_start(s, k);
    let e = rfind_char(s, '#');
    s.subrange(0, a) + s.subrange(e + 1, s.len() as int)
}

fn hash_space_set_exec() -> (r: Vec<char>)
    ensures
        r@ == hash_space_set(),
{
    let mut s: Vec<char> = Vec::new();
    s.push(' ');
    s.push('#');
    proof {
        assert(s@ =~= hash_space_set());
    }
    s
}

/// Find the scene-number opening, if any: its index plus the closing hash.
#[verifier::loop_isolation(false)]
fn sn_find_exec(v: &Vec<char>) -> (r: usize)
    ensures
        r == sn_find(v@, 0),
{
    let e1 = rfind_char_exec(v);
    let mut k: usize = 0;
    while k < v.len()
        invariant
            0 <= k <= v@.len(),
            sn_find(v@, 0) == sn_find(v@, k as int),
        decreases v@.len() - k,
    {
        if k > 0 && v[k] == '#' && space_char(v[k - 1]) && e1 > k + 1 {
            proof {
                lemma_rfind_char(v@, '#');
            }
            return k;
        }
        proof {
            lemma_rfind_char(v@, '#');
            assert(!sn_open_at(v@, k as int));
        }
        k = k + 1;
    }
    k
}

/// Extract the scene number and the remaining text of a heading line.
#[verifier::loop_isolation(false)]
fn split_scene_number(v: &Vec<char>) -> (r: (bool, Vec<char>, Vec<char>))
    ensures
        r.0 == has_scene_number(v@),
        r.0 ==> r.1@ == scene_number_of(v@) && r.2@ == without_scene_number(v@),
{
    let k = sn_find_exec(v);
    proof {
        lemma_sn_find(v@, 0);
    }
    if k >= v.len() {
        return (false, Vec::new(), Vec::new());
    }
    // walk back over the whitespace run before the opening hash
    let mut a: usize = k;
    while a > 0 && space_char(v[a - 1])
        invariant
            0 <= a <= k,
            ws_run_start(v@, k as int) == ws_run_start(v@, a as int),
        decreases a,
    {
        a = a - 1;
    }
    let e1 = rfind_char_exec(v);
    proof {
        lemma_rfind_char(v@, '#');
        assert(e1 > k + 1);
    }
    let span = subvec(v, a, e1);
    let set = hash_space_set_exec();
    let num = trim_in(&span, &set);
    let mut rest = subvec(v, 0, a);
    let tail = subvec(v, e1, v.len());
    let mut ti: usize = 0;
    while ti < tail.len()
        invariant
            0 <= ti <= tail@.len(),
            rest@ == v@.subrange(0, a as int) + tail@.take(ti as int),
        decreases tail@.len() - ti,
    {
        rest.push(tail[ti]);
        proof {
            assert(rest@ =~= v@.subrange(0, a as int) + tail@.take(ti + 1));
        }
        ti = ti + 1;
    }
    proof {
        assert(tail@.take(tail@.len() as int) =~= tail@);
        assert(rest@ =~= without_scene_number(v@));
    }
    (true, num, rest)
}

// ---------------------------------------------------------------------------
// Act boundaries
// ---------------------------------------------------------------------------

pub open spec fn is_digit_char(c: char) -> bool {
    0x30 <= (c as u32) && (c as u32) <= 0x39
}

/// A spelled-out or numeric act number at `j`.
pub open spec fn act_num_at(s: Seq<char>, j: int) -> bool {
    (0 <= j < s.len() && is_digit_char(s[j])) || at_pos(s, j, "one"@) || at_pos(s, j, "two"@)
        || at_pos(s, j, "three"@) || at_pos(s, j, "four"@) || at_pos(s, j, "five"@) || at_pos(
        s,
        j,
        "six"@,
    ) || at_pos(s, j, "seven"@) || at_pos(s, j, "eight"@) || at_pos(s, j, "nine"@) || at_pos(
        s,
        j,
        "ten"@,
    )
}

/// An act phrase at `j`: an act with its number, a cold open, or a teaser.
pub open spec fn act_tail_at(s: Seq<char>, j: int) -> bool {
    at_pos(s, j, "cold open"@) || at_pos(s, j, "teaser"@) || (at_pos(s, j, "act "@) && act_num_at(
        s,
        j + 4,
    ))
}

/// A run of `k` copies of "of " at `j`.
pub open spec fn of_run_at(s: Seq<char>, j: int, k: int) -> bool {
    forall|m: int| 0 <= m < k ==> #[trigger] at_pos(s, j + 3 * m, "of "@)
}

/// An end-of-act phrase at `i`: "end ", any number of "of ", an act phrase.
pub open spec fn end_act_at(s: Seq<char>, i: int) -> bool {
    at_pos(s, i, "end "@) && exists|k: int|
        0 <= k && #[trigger] of_run_at(s, i + 4, k) && act_tail_at(s, i + 4 + 3 * k)
}

/// The lowercased text holds an end-of-act phrase somewhere.
pub open spec fn is_end_act_spec(t: Seq<char>) -> bool {
    exists|i: int| #[trigger] end_act_at(lower_of(t), i)
}

/// The lowercased text holds an act phrase somewhere.
pub open spec fn is_new_act_spec(t: Seq<char>) -> bool {
    exists|i: int| #[trigger] act_tail_at(lower_of(t), i)
}

fn act_num_at_exec(v: &Vec<char>, j: usize) -> (r: bool)
    ensures
        r == act_num_at(v@, j as int),
{
    (j < v.len() && {
        let u = v[j] as u32;
        0x30 <= u && u <= 0x39
    }) || crate::text::contains_at(v, j, "one") || crate::text::contains_at(v, j, "two")
        || crate::text::contains_at(v, j, "three") || crate::text::contains_at(v, j, "four")
        || crate::text::contains_at(v, j, "five") || crate::text::contains_at(v, j, "six")
        || crate::text::contains_at(v, j, "seven") || crate::text::contains_at(v, j, "eight")
        || crate::text::contains_at(v, j, "nine") || crate::text::contains_at(v, j, "ten")
}

fn act_tail_at_exec(v: &Vec<char>, j: usize) -> (r: bool)
    ensures
        r == act_tail_at(v@, j as int),
{
    if crate::text::contains_at(v, j, "cold open") || crate::text::contains_at(v, j, "teaser") {
        return true;
    }
    if !crate::text::contains_at(v, j, "act ") {
        return false;
    }
    if v.len() < 4 || j > v.len() - 4 {
        proof {
            reveal_strlit("act ");
        }
        return false;
    }
    act_num_at_exec(v, j + 4)
}

/// Scan for the tail of an end-of-act phrase: any run of "of " repetitions
/// followed by an act phrase, starting right after the "end " at `i`.
#[verifier::loop_isolation(false)]
fn end_act_tail_scan(v: &Vec<char>, i: usize) -> (r: bool)
    requires
        i + 4 <= v@.len(),
        "of "@.len() == 3,
        "act "@.len() == 4,
        "cold open"@.len() == 9,
        "teaser"@.len() == 6,
    ensures
        r == exists|k: int|
            0 <= k && #[trigger] of_run_at(v@, i + 4, k) && act_tail_at(v@, i + 4 + 3 * k),
{
    let _n = v.len();
    let mut j: usize = i + 4;
    let ghost mut k: int = 0;
    while j <= v.len()
        invariant
            i + 4 <= j,
            j == i + 4 + 3 * k,
            0 <= k,
            of_run_at(v@, i + 4, k),
            forall|m: int| 0 <= m < k ==> !#[trigger] act_tail_at(v@, i + 4 + 3 * m),
        decreases v@.len() + 1 - j,
    {
        if act_tail_at_exec(v, j) {
            proof {
                assert(0 <= k && of_run_at(v@, i + 4, k) && act_tail_at(v@, i + 4 + 3 * k));
            }
            return true;
        }
        if crate::text::contains_at(v, j, "of ") {
            proof {
                assert(of_run_at(v@, i + 4, k + 1)) by {
                    assert(forall|m: int|
                        0 <= m < k + 1 ==> #[trigger] at_pos(v@, i + 4 + 3 * m, "of "@));
                }
                k = k + 1;
            }
            j = j + 3;
        } else {
            proof {
                assert forall|kk: int|
                    !(0 <= kk && #[trigger] of_run_at(v@, i + 4, kk) && act_tail_at(
                        v@,
                        i + 4 + 3 * kk,
                    )) by {
                    if 0 <= kk <= k {
                        assert(!act_tail_at(v@, i + 4 + 3 * kk));
                    } else if kk > k {
                        if of_run_at(v@, i + 4, kk) {
                            assert(at_pos(v@, i + 4 + 3 * k, "of "@));
                        }
                    }
                }
            }
            return false;
        }
    }
    proof {
        assert forall|kk: int|
            !(0 <= kk && #[trigger] of_run_at(v@, i + 4, kk) && act_tail_at(
                v@,
                i + 4 + 3 * kk,
            )) by {
            if 0 <= kk < k {
                assert(!act_tail_at(v@, i + 4 + 3 * kk));
            } else if kk >= k {
                assert(i + 4 + 3 * kk > v@.len() - 4);
                assert(!at_pos(v@, i + 4 + 3 * kk, "act "@));
                assert(!at_pos(v@, i + 4 + 3 * kk, "cold open"@));
                assert(!at_pos(v@, i + 4 + 3 * kk, "teaser"@));
            }
        }
    }
    false
}

/// Does the text name the end of an act, a cold open or a teaser?
#[verifier::loop_isolation(false)]
pub fn is_end_act(text: &str) -> (r: bool)
    ensures
        r == is_end_act_spec(text@),
{
    let t = str_to_chars(text);
    let low = lower_chars(&t);
    let v = &low;
    proof {
        reveal_strlit("end ");
        reveal_strlit("of ");
        reveal_strlit("act ");
        reveal_strlit("cold open");
        reveal_strlit("teaser");
    }
    let mut i: usize = 0;
    while i < v.len()
        invariant
            0 <= i <= v@.len(),
            forall|m: int| 0 <= m < i ==> !end_act_at(v@, m),
        decreases v@.len() - i,
    {
        if crate::text::contains_at(v, i, "end ") {
            if end_act_tail_scan(v, i) {
                proof {
                    assert(end_act_at(v@, i as int));
                }
                return true;
            }
            proof {
                assert(!end_act_at(v@, i as int));
            }
        } else {
            proof {
                assert(!end_act_at(v@, i as int));
            }
        }
        i = i + 1;
    }
    proof {
        assert forall|m: int| !end_act_at(v@, m) by {
            if 0 <= m < v@.len() {
            } else {
                assert(!at_pos(v@, m, "end "@));
            }
        }
    }
    false
}

/// Does the text name an act, a cold open or a teaser?
pub fn is_new_act(text: &str) -> (r: bool)
    ensures
        r == is_new_act_spec(text@),
{
    let t = str_to_chars(text);
    let low = lower_chars(&t);
    let v = &low;
    proof {
        reveal_strlit("act ");
        reveal_strlit("cold open");
        reveal_strlit("teaser");
    }
    let mut i: usize = 0;
    while i < v.len()
        invariant
            0 <= i <= v@.len(),
            v@ == lower_of(text@),
            "act "@.len() == 4,
            "cold open"@.len() == 9,
            "teaser"@.len() == 6,
            forall|m: int| 0 <= m < i ==> !act_tail_at(v@, m),
        decreases v@.len() - i,
    {
        if act_tail_at_exec(v, i) {
            return true;
        }
        i = i + 1;
    }
    proof {
        assert forall|m: int| !act_tail_at(v@, m) by {
            if 0 <= m < v@.len() {
            } else {
                assert(!at_pos(v@, m, "cold open"@));
                assert(!at_pos(v@, m, "teaser"@));
                assert(!at_pos(v@, m, "act "@));
            }
        }
    }
    false
}

} // verus!

verus! {

// ---------------------------------------------------------------------------
// Forced markers and element construction
// ---------------------------------------------------------------------------

/// The forced element kind named by a leading marker character.
#[derive(Clone, Copy, Debug, PartialEq, Eq, Structural)]
pub enum ForcedKind {
    Action,
    Character,
    Lyric,
    Scene,
    Transition,
    Section,
    Synopsis,
    PageBreak,
}

pub open spec fn markers_seq() -> Seq<char> {
    seq!['!', '@', '~', '.', '>', '=']
}

pub open spec fn at_set() -> Seq<char> {
    seq!['@']
}

pub open spec fn tilde_set() -> Seq<char> {
    seq!['~']
}

pub open spec fn caret_set() -> Seq<char> {
    seq!['^']
}

/// Which forced kind a line's first character selects, if any: an ellipsis
/// is no forced scene heading, and a centered line is no forced transition.
pub open spec fn forced_kind_spec(line: Seq<char>) -> Option<ForcedKind> {
    if line.len() == 0 {
        None
    } else if line[0] == '!' {
        Some(ForcedKind::Action)
    } else if line[0] == '@' {
        Some(ForcedKind::Character)
    } else if line[0] == '~' {
        Some(ForcedKind::Lyric)
    } else if line[0] == '.' {
        if line.len() >= 2 && line[1] == '.' {
            None
        } else {
            Some(ForcedKind::Scene)
        }
    } else if line[0] == '>' {
        if line.last() == '<' {
            None
        } else {
            Some(ForcedKind::Transition)
        }
    } else if line[0] == '#' {
        Some(ForcedKind::Section)
    } else if line[0] == '=' {
        if has_prefix(trim_ws_spec(line), "==="@) {
            Some(ForcedKind::PageBreak)
        } else {
            Some(ForcedKind::Synopsis)
        }
    } else {
        None
    }
}

fn forced_kind_chars(v: &Vec<char>) -> (r: Option<ForcedKind>)
    ensures
        r == forced_kind_spec(v@),
{
    if v.len() == 0 {
        return None;
    }
    let c = v[0];
    if c == '!' {
        Some(ForcedKind::Action)
    } else if c == '@' {
        Some(ForcedKind::Character)
    } else if c == '~' {
        Some(ForcedKind::Lyric)
    } else if c == '.' {
        if v.len() >= 2 && v[1] == '.' {
            None
        } else {
            Some(ForcedKind::Scene)
        }
    } else if c == '>' {
        if v[v.len() - 1] == '<' {
            None
        } else {
            Some(ForcedKind::Transition)
        }
    } else if c == '#' {
        Some(ForcedKind::Section)
    } else if c == '=' {
        let t = trim_ws(v);
        if starts_with_lit(&t, "===") {
            Some(ForcedKind::PageBreak)
        } else {
            Some(ForcedKind::Synopsis)
        }
    } else {
        None
    }
}

/// Which forced kind a line's first character selects, if any.
pub fn make_forced(line: &str) -> (r: Option<ForcedKind>)
    ensures
        r == forced_kind_spec(line@),
{
    let v = str_to_chars(line);
    forced_kind_chars(&v)
}

/// First index at or after `j` whose character differs from `c`.
pub open spec fn skip_char_run(s: Seq<char>, j: int, c: char) -> int
    decreases s.len() - j,
{
    if 0 <= j < s.len() && s[j] == c {
        skip_char_run(s, j + 1, c)
    } else {
        j
    }
}

pub proof fn lemma_skip_char_run(s: Seq<char>, j: int, c: char)
    requires
        0 <= j <= s.len(),
    ensures
        j <= skip_char_run(s, j, c) <= s.len(),
        forall|m: int| j <= m < skip_char_run(s, j, c) ==> s[m] == c,
        skip_char_run(s, j, c) < s.len() ==> s[skip_char_run(s, j, c)] != c,
    decreases s.len() - j,
{
    if j < s.len() && s[j] == c {
        lemma_skip_char_run(s, j + 1, c);
    }
}

#[verifier::loop_isolation(false)]
fn skip_char_run_exec(v: &Vec<char>, c: char) -> (r: usize)
    ensures
        r == skip_char_run(v@, 0, c),
{
    let mut j: usize = 0;
    while j < v.len() && v[j] == c
        invariant
            0 <= j <= v@.len(),
            skip_char_run(v@, 0, c) == skip_char_run(v@, j as int, c),
        decreases v@.len() - j,
    {
        j = j + 1;
    }
    j
}

/// A section from the marker line: its level is the run of leading hashes
/// (capped at the type's maximum) and its text is what follows, trimmed.
pub open spec fn make_section_spec(text: Seq<char>) -> ElemV {
    let t = trim_ws_spec(text);
    let h = skip_char_run(t, 0, '#');
    let level: u8 = if h > 255 {
        255u8
    } else {
        h as u8
    };
    ElemV::Section(
        TextV::Plain(trim_ws_spec(t.subrange(h, t.len() as int))),
        blank_attr(),
        level,
    )
}

/// A synopsis from the marker line: the text after the leading equals signs.
pub open spec fn make_synopsis_spec(text: Seq<char>) -> ElemV {
    let t = trim_ws_spec(text);
    let h = skip_char_run(t, 0, '=');
    ElemV::Synopsis(TextV::Plain(trim_ws_spec(t.subrange(h, t.len() as int))))
}

fn make_section_chars(v: &Vec<char>) -> (r: Element)
    ensures
        elem_view(r) == make_section_spec(v@),
{
    let t = trim_ws(v);
    proof {
        lemma_skip_char_run(t@, 0, '#');
    }
    let h = skip_char_run_exec(&t, '#');
    let level: u8 = if h > 255 {
        255
    } else {
        h as u8
    };
    let rest = subvec(&t, h, t.len());
    let content = trim_ws(&rest);
    Element::Section(
        ElementText::Plain(chars_to_string(&content)),
        blank_attributes(),
        level,
    )
}

fn make_synopsis_chars(v: &Vec<char>) -> (r: Element)
    ensures
        elem_view(r) == make_synopsis_spec(v@),
{
    let t = trim_ws(v);
    proof {
        lemma_skip_char_run(t@, 0, '=');
    }
    let h = skip_char_run_exec(&t, '=');
    let rest = subvec(&t, h, t.len());
    let content = trim_ws(&rest);
    Element::Synopsis(ElementText::Plain(chars_to_string(&content)))
}

/// Build a section element from a marker line.
pub fn make_section(line: ElementText, _attr: Attributes) -> (r: Element)
    requires
        line is Plain,
    ensures
        line matches ElementText::Plain(s) ==> elem_view(r) == make_section_spec(s@),
{
    match line {
        ElementText::Plain(s) => {
            let v = str_to_chars(s.as_str());
            make_section_chars(&v)
        },
        ElementText::Styled(_) => {
            proof {
                assert(false);
            }
            Element::PageBreak
        },
    }
}

/// Build a synopsis element from a marker line.
pub fn make_synopsis(line: ElementText, _attr: Attributes) -> (r: Element)
    requires
        line is Plain,
    ensures
        line matches ElementText::Plain(s) ==> elem_view(r) == make_synopsis_spec(s@),
{
    match line {
        ElementText::Plain(s) => {
            let v = str_to_chars(s.as_str());
            make_synopsis_chars(&v)
        },
        ElementText::Styled(_) => {
            proof {
                assert(false);
            }
            Element::PageBreak
        },
    }
}

/// The transient page-break sentinel.
pub fn make_page_break(_line: ElementText, _attr: Attributes) -> (r: Element)
    ensures
        elem_view(r) == ElemV::PageBreak,
{
    Element::PageBreak
}

/// The attributes a line starts out with: blank, except for its notes.
pub open spec fn noted_attr(line: Seq<char>) -> AttrV {
    AttrV {
        centered: false,
        starts_new_page: false,
        scene_number: None,
        notes: if has_note_spec(line) {
            Some(notes_from(line, 0))
        } else {
            None
        },
    }
}

fn noted_attributes(v: &Vec<char>) -> (r: Attributes)
    ensures
        attr_view(r) == noted_attr(v@),
{
    if has_note_chars(v) {
        let ns = notes_chars(v);
        Attributes { notes: Some(ns), ..Attributes::default() }
    } else {
        Attributes::default()
    }
}

/// The element a forced kind constructs over the given text.
pub open spec fn mk_forced_spec(k: ForcedKind, text: Seq<char>, attr: AttrV) -> ElemV {
    match k {
        ForcedKind::Action => ElemV::Action(TextV::Plain(text), attr),
        ForcedKind::Character => ElemV::Character(TextV::Plain(text), attr),
        ForcedKind::Lyric => ElemV::Lyric(TextV::Plain(text), attr),
        ForcedKind::Scene => ElemV::SceneHeading(TextV::Plain(text), attr),
        ForcedKind::Transition => ElemV::Transition(TextV::Plain(text), attr),
        ForcedKind::Section => make_section_spec(text),
        ForcedKind::Synopsis => make_synopsis_spec(text),
        ForcedKind::PageBreak => ElemV::PageBreak,
    }
}

fn mk_forced_exec(k: ForcedKind, text: Vec<char>, attr: Attributes) -> (r: Element)
    ensures
        elem_view(r) == mk_forced_spec(k, text@, attr_view(attr)),
{
    match k {
        ForcedKind::Action => Element::Action(ElementText::Plain(chars_to_string(&text)), attr),
        ForcedKind::Character => Element::Character(
            ElementText::Plain(chars_to_string(&text)),
            attr,
        ),
        ForcedKind::Lyric => Element::Lyric(ElementText::Plain(chars_to_string(&text)), attr),
        ForcedKind::Scene => Element::SceneHeading(
            ElementText::Plain(chars_to_string(&text)),
            attr,
        ),
        ForcedKind::Transition => Element::Transition(
            ElementText::Plain(chars_to_string(&text)),
            attr,
        ),
        ForcedKind::Section => make_section_chars(&text),
        ForcedKind::Synopsis => make_synopsis_chars(&text),
        ForcedKind::PageBreak => Element::PageBreak,
    }
}

fn marker_set_exec() -> (r: Vec<char>)
    ensures
        r@ == markers_seq(),
{
    let mut s: Vec<char> = Vec::new();
    s.push('!');
    s.push('@');
    s.push('~');
    s.push('.');
    s.push('>');
    s.push('=');
    proof {
        assert(s@ =~= markers_seq());
    }
    s
}

// ---------------------------------------------------------------------------
// Single-line classification
// ---------------------------------------------------------------------------

/// What one single-line hunk becomes: forced markers first, then scene
/// headings, transitions, centered lines (acts checked before plain
/// centered text), and plain action last.
#[verifier::opaque]
pub open spec fn make_single_spec(line: Seq<char>) -> ElemV {
    let attr = noted_attr(line);
    match forced_kind_spec(line) {
        Some(k) => {
            let stripped = trim_start_ws_spec(trim_start_in_spec(line, markers_seq()));
            if k == ForcedKind::Scene && has_scene_number(stripped) {
                ElemV::SceneHeading(
                    TextV::Plain(remove_notes_spec(without_scene_number(stripped))),
                    AttrV { scene_number: Some(scene_number_of(stripped)), ..attr },
                )
            } else {
                mk_forced_spec(k, remove_notes_spec(stripped), attr)
            }
        },
        None => {
            if is_scene_spec(line) {
                if has_scene_number(line) {
                    ElemV::SceneHeading(
                        TextV::Plain(remove_notes_spec(without_scene_number(line))),
                        AttrV { scene_number: Some(scene_number_of(line)), ..attr },
                    )
                } else {
                    ElemV::SceneHeading(TextV::Plain(remove_notes_spec(line)), attr)
                }
            } else if is_transition_spec(line) {
                ElemV::Transition(TextV::Plain(remove_notes_spec(line)), attr)
            } else if is_centered_spec(line) {
                let ft = remove_notes_spec(trim_centered_spec(line));
                let cattr = AttrV { centered: true, ..attr };
                if is_end_act_spec(ft) {
                    ElemV::EndOfAct(TextV::Plain(ft), cattr)
                } else if is_new_act_spec(ft) {
                    ElemV::NewAct(TextV::Plain(ft), cattr)
                } else {
                    ElemV::Action(TextV::Plain(ft), cattr)
                }
            } else {
                ElemV::Action(TextV::Plain(remove_notes_spec(line)), attr)
            }
        },
    }
}

fn make_single_line_chars(v: &Vec<char>) -> (r: Element)
    ensures
        elem_view(r) == make_single_spec(v@),
{
    proof {
        reveal(make_single_spec);
    }
    let attr = noted_attributes(v);
    match forced_kind_chars(v) {
        Some(k) => {
            let set = marker_set_exec();
            let s0 = trim_start_in(v, &set);
            let stripped = trim_start_ws(&s0);
            let (has_sn, num, rest) = split_scene_number(&stripped);
            if k == ForcedKind::Scene && has_sn {
                let txt = remove_notes_chars(&rest);
                Element::SceneHeading(
                    ElementText::Plain(chars_to_string(&txt)),
                    Attributes { scene_number: Some(chars_to_string(&num)), ..attr },
                )
            } else {
                let txt = remove_notes_chars(&stripped);
                mk_forced_exec(k, txt, attr)
            }
        },
        None => {
            if is_scene_chars(v) {
                let (has_sn, num, rest) = split_scene_number(v);
                if has_sn {
                    let txt = remove_notes_chars(&rest);
                    Element::SceneHeading(
                        ElementText::Plain(chars_to_string(&txt)),
                        Attributes { scene_number: Some(chars_to_string(&num)), ..attr },
                    )
                } else {
                    let txt = remove_notes_chars(v);
                    Element::SceneHeading(ElementText::Plain(chars_to_string(&txt)), attr)
                }
            } else if is_transition_chars(v) {
                let txt = remove_notes_chars(v);
                Element::Transition(ElementText::Plain(chars_to_string(&txt)), attr)
            } else if is_centered_chars(v) {
                let tc = trim_centered_chars(v);
                let ft = remove_notes_chars(&tc);
                let fts = chars_to_string(&ft);
                let cattr = Attributes { centered: true, ..attr };
                if is_end_act(fts.as_str()) {
                    Element::EndOfAct(ElementText::Plain(fts), cattr)
                } else if is_new_act(fts.as_str()) {
                    Element::NewAct(ElementText::Plain(fts), cattr)
                } else {
                    Element::Action(ElementText::Plain(fts), cattr)
                }
            } else {
                let txt = remove_notes_chars(v);
                Element::Action(ElementText::Plain(chars_to_string(&txt)), attr)
            }
        },
    }
}

/// Classify one single-line hunk.
pub fn make_single_line_element(line: &str) -> (r: Element)
    ensures
        elem_view(r) == make_single_spec(line@),
{
    let v = str_to_chars(line);
    make_single_line_chars(&v)
}

} // verus!

verus! {

// ---------------------------------------------------------------------------
// Dialogue blocks
// ---------------------------------------------------------------------------

/// A character cue stripped of its surrounding space and dual-dialogue caret.
pub open spec fn clean_name(raw: Seq<char>) -> Seq<char> {
    trim_ws_spec(trim_end_in_spec(trim_ws_spec(raw), caret_set()))
}

/// How one line extends a dialogue block: a parenthetical starts fresh, a
/// lyric extends a preceding lyric, and anything else extends a preceding
/// dialogue or starts a new one.
pub open spec fn dlg_step(elems: Seq<ElemV>, line: Seq<char>) -> Seq<ElemV>
    recommends
        elems.len() > 0,
{
    let attr = noted_attr(line);
    let processed = if has_note_spec(line) {
        remove_notes_spec(line)
    } else {
        line
    };
    if is_parenthetical_spec(processed) {
        elems.push(ElemV::Parenthetical(TextV::Plain(processed), attr))
    } else if is_lyric_spec(processed) {
        let stripped = trim_ws_spec(trim_start_in_spec(trim_ws_spec(processed), tilde_set()));
        match elems.last() {
            ElemV::Lyric(TextV::Plain(prev), a) => elems.update(
                elems.len() - 1,
                ElemV::Lyric(TextV::Plain(prev + seq!['\n'] + stripped), a),
            ),
            _ => elems.push(ElemV::Lyric(TextV::Plain(stripped), attr)),
        }
    } else {
        match elems.last() {
            ElemV::Dialogue(TextV::Plain(prev), a) => elems.update(
                elems.len() - 1,
                ElemV::Dialogue(TextV::Plain(prev + seq!['\n'] + processed), a),
            ),
            _ => elems.push(ElemV::Dialogue(TextV::Plain(processed), attr)),
        }
    }
}

/// The dialogue block's children after folding the first `i` lines.
pub open spec fn dlg_fold(hunk: Seq<Seq<char>>, i: int) -> Seq<ElemV>
    decreases i,
{
    if i <= 1 {
        seq![ElemV::Character(TextV::Plain(clean_name(hunk[0])), blank_attr())]
    } else {
        dlg_step(dlg_fold(hunk, i - 1), hunk[i - 1])
    }
}

/// What a dialogue hunk becomes: a block of its lines, wrapped once in a
/// dual-dialogue block when the cue line carries the caret.
pub open spec fn make_dialogue_spec(hunk: Seq<Seq<char>>) -> ElemV
    recommends
        hunk.len() >= 1,
{
    let elems = dlg_fold(hunk, hunk.len() as int);
    if is_dual_dialogue_spec(hunk[0]) {
        ElemV::DualDialogueBlock(seq![ElemV::DialogueBlock(elems)])
    } else {
        ElemV::DialogueBlock(elems)
    }
}

fn tilde_set_exec() -> (r: Vec<char>)
    ensures
        r@ == tilde_set(),
{
    let mut s: Vec<char> = Vec::new();
    s.push('~');
    proof {
        assert(s@ =~= tilde_set());
    }
    s
}

fn caret_set_exec() -> (r: Vec<char>)
    ensures
        r@ == caret_set(),
{
    let mut s: Vec<char> = Vec::new();
    s.push('^');
    proof {
        assert(s@ =~= caret_set());
    }
    s
}

#[verifier::loop_isolation(false)]
fn make_dialogue_chars(hunk: &Vec<Vec<char>>) -> (r: Element)
    requires
        hunk@.len() >= 1,
    ensures
        elem_view(r) == make_dialogue_spec(hunk.deep_view()),
{
    let ghost hv = hunk.deep_view();
    proof {
        reveal_strlit("\n");
        assert("\n"@ =~= seq!['\n']);
        assert(hv[0] == hunk@[0]@);
    }
    let raw_name = &hunk[0];
    let t0 = trim_ws(raw_name);
    let set = caret_set_exec();
    let t1 = trim_end_in(&t0, &set);
    let name = trim_ws(&t1);
    let mut elements: Vec<Element> = Vec::new();
    elements.push(
        Element::Character(ElementText::Plain(chars_to_string(&name)), blank_attributes()),
    );
    proof {
        lemma_elems_view(elements@);
        assert(elems_view(elements@) =~= dlg_fold(hv, 1));
    }
    let mut li: usize = 1;
    while li < hunk.len()
        invariant
            1 <= li <= hunk@.len(),
            elements@.len() > 0,
            elems_view(elements@) == dlg_fold(hv, li as int),
        decreases hunk@.len() - li,
    {
        let ghost ev0 = elems_view(elements@);
        let line = &hunk[li];
        proof {
            assert(hv[li as int] == line@);
            lemma_elems_view(elements@);
        }
        let attr = noted_attributes(line);
        let processed = if has_note_chars(line) {
            remove_notes_chars(line)
        } else {
            crate::text::subvec(line, 0, line.len())
        };
        proof {
            assert(line@.subrange(0, line@.len() as int) =~= line@);
        }
        if is_parenthetical_chars(&processed) {
            elements.push(
                Element::Parenthetical(ElementText::Plain(chars_to_string(&processed)), attr),
            );
            proof {
                lemma_elems_view(elements@);
                assert(elems_view(elements@) =~= dlg_fold(hv, li + 1));
            }
        } else if is_lyric_chars(&processed) {
            let p0 = trim_ws(&processed);
            let tset = tilde_set_exec();
            let p1 = trim_start_in(&p0, &tset);
            let stripped = trim_ws(&p1);
            let last = elements.pop().unwrap();
            match last {
                Element::Lyric(ElementText::Plain(prev), a) => {
                    let mut ns = prev;
                    ns.append("\n");
                    ns.append(chars_to_string(&stripped).as_str());
                    elements.push(Element::Lyric(ElementText::Plain(ns), a));
                    proof {
                        lemma_elems_view(elements@);
                        assert(elems_view(elements@) =~= dlg_fold(hv, li + 1));
                    }
                },
                other => {
                    elements.push(other);
                    proof {
                        lemma_elems_view(elements@);
                        assert(elems_view(elements@) =~= ev0);
                    }
                    elements.push(
                        Element::Lyric(ElementText::Plain(chars_to_string(&stripped)), attr),
                    );
                    proof {
                        lemma_elems_view(elements@);
                        assert(elems_view(elements@) =~= dlg_fold(hv, li + 1));
                    }
                },
            }
        } else {
            let last = elements.pop().unwrap();
            match last {
                Element::Dialogue(ElementText::Plain(prev), a) => {
                    let mut ns = prev;
                    ns.append("\n");
                    ns.append(chars_to_string(&processed).as_str());
                    elements.push(Element::Dialogue(ElementText::Plain(ns), a));
                    proof {
                        lemma_elems_view(elements@);
                        assert(elems_view(elements@) =~= dlg_fold(hv, li + 1));
                    }
                },
                other => {
                    elements.push(other);
                    proof {
                        lemma_elems_view(elements@);
                        assert(elems_view(elements@) =~= ev0);
                    }
                    elements.push(
                        Element::Dialogue(ElementText::Plain(chars_to_string(&processed)), attr),
                    );
                    proof {
                        lemma_elems_view(elements@);
                        assert(elems_view(elements@) =~= dlg_fold(hv, li + 1));
                    }
                },
            }
        }
        li = li + 1;
    }
    if is_dual_dialogue_chars(raw_name) {
        let mut blocks: Vec<Element> = Vec::new();
        blocks.push(Element::DialogueBlock(elements));
        let r = Element::DualDialogueBlock(blocks);
        proof {
            lemma_elems_view(blocks@);
            assert(elems_view(blocks@) =~= seq![
                ElemV::DialogueBlock(dlg_fold(hv, hv.len() as int)),
            ]);
        }
        r
    } else {
        Element::DialogueBlock(elements)
    }
}

/// Build a dialogue block from a hunk whose first line is the cue.
pub fn make_dialogue_block(hunk: Vec<String>) -> (r: Element)
    requires
        hunk@.len() >= 1,
    ensures
        elem_view(r) == make_dialogue_spec(hunk.deep_view()),
{
    let cv = strings_to_charses(&hunk);
    make_dialogue_chars(&cv)
}

/// Convert a list of strings to their character vectors.
fn strings_to_charses(v: &Vec<String>) -> (r: Vec<Vec<char>>)
    ensures
        r.deep_view() == v.deep_view(),
        r@.len() == v@.len(),
{
    let mut out: Vec<Vec<char>> = Vec::new();
    let mut i: usize = 0;
    while i < v.len()
        invariant
            0 <= i <= v@.len(),
            out@.len() == i,
            forall|m: int| 0 <= m < i ==> #[trigger] out@[m]@ == v@[m]@,
        decreases v@.len() - i,
    {
        out.push(str_to_chars(v[i].as_str()));
        i = i + 1;
    }
    proof {
        assert(out.deep_view() =~= v.deep_view());
    }
    out
}

} // verus!

verus! {

// ---------------------------------------------------------------------------
// Multi-line classification
// ---------------------------------------------------------------------------

/// What a multi-line hunk becomes: a forced character cue builds a dialogue
/// block; another forced marker builds its element over the joined stripped
/// lines; a centered line anywhere makes a centered action; an uppercase
/// first line makes a dialogue block; anything else is plain action.
#[verifier::opaque]
pub open spec fn make_multi_spec(hunk: Seq<Seq<char>>) -> ElemV
    recommends
        hunk.len() >= 1,
{
    let joined = join_lines(hunk);
    let attr = noted_attr(joined);
    match forced_kind_spec(hunk[0]) {
        Some(k) => {
            if k == ForcedKind::Character {
                make_dialogue_spec(hunk.map_values(|l: Seq<char>| trim_start_in_spec(l, at_set())))
            } else {
                mk_forced_spec(
                    k,
                    remove_notes_spec(
                        join_lines(
                            hunk.map_values(|l: Seq<char>| trim_start_in_spec(l, markers_seq())),
                        ),
                    ),
                    attr,
                )
            }
        },
        None => {
            if exists|i: int| 0 <= i < hunk.len() && is_centered_spec(#[trigger] hunk[i]) {
                ElemV::Action(
                    TextV::Plain(
                        remove_notes_spec(
                            join_lines(hunk.map_values(|l: Seq<char>| trim_centered_spec(l))),
                        ),
                    ),
                    AttrV { centered: true, ..attr },
                )
            } else if is_character_spec(hunk[0]) {
                make_dialogue_spec(hunk)
            } else {
                ElemV::Action(TextV::Plain(remove_notes_spec(joined)), attr)
            }
        },
    }
}

fn at_set_exec() -> (r: Vec<char>)
    ensures
        r@ == at_set(),
{
    let mut s: Vec<char> = Vec::new();
    s.push('@');
    proof {
        assert(s@ =~= at_set());
    }
    s
}

#[verifier::loop_isolation(false)]
fn strip_each_start_in(hunk: &Vec<Vec<char>>, set: &Vec<char>) -> (r: Vec<Vec<char>>)
    ensures
        r.deep_view() == hunk.deep_view().map_values(
            |l: Seq<char>| trim_start_in_spec(l, set@),
        ),
{
    let mut out: Vec<Vec<char>> = Vec::new();
    let mut i: usize = 0;
    while i < hunk.len()
        invariant
            0 <= i <= hunk@.len(),
            out@.len() == i,
            forall|m: int|
                0 <= m < i ==> #[trigger] out@[m]@ == trim_start_in_spec(hunk@[m]@, set@),
        decreases hunk@.len() - i,
    {
        out.push(trim_start_in(&hunk[i], set));
        i = i + 1;
    }
    proof {
        assert(out.deep_view() =~= hunk.deep_view().map_values(
            |l: Seq<char>| trim_start_in_spec(l, set@),
        ));
    }
    out
}

#[verifier::loop_isolation(false)]
fn trim_each_centered(hunk: &Vec<Vec<char>>) -> (r: Vec<Vec<char>>)
    ensures
        r.deep_view() == hunk.deep_view().map_values(|l: Seq<char>| trim_centered_spec(l)),
{
    let mut out: Vec<Vec<char>> = Vec::new();
    let mut i: usize = 0;
    while i < hunk.len()
        invariant
            0 <= i <= hunk@.len(),
            out@.len() == i,
            forall|m: int| 0 <= m < i ==> #[trigger] out@[m]@ == trim_centered_spec(hunk@[m]@),
        decreases hunk@.len() - i,
    {
        out.push(trim_centered_chars(&hunk[i]));
        i = i + 1;
    }
    proof {
        assert(out.deep_view() =~= hunk.deep_view().map_values(
            |l: Seq<char>| trim_centered_spec(l),
        ));
    }
    out
}

#[verifier::loop_isolation(false)]
fn any_centered(hunk: &Vec<Vec<char>>) -> (r: bool)
    ensures
        r == exists|i: int|
            0 <= i < hunk.deep_view().len() && is_centered_spec(#[trigger] hunk.deep_view()[i]),
{
    let mut i: usize = 0;
    while i < hunk.len()
        invariant
            0 <= i <= hunk@.len(),
            forall|m: int| 0 <= m < i ==> !is_centered_spec(#[trigger] hunk.deep_view()[m]),
        decreases hunk@.len() - i,
    {
        if is_centered_chars(&hunk[i]) {
            proof {
                assert(is_centered_spec(hunk.deep_view()[i as int]));
            }
            return true;
        }
        i = i + 1;
    }
    false
}

#[verifier::loop_isolation(false)]
fn make_multi_chars(hunk: &Vec<Vec<char>>) -> (r: Element)
    requires
        hunk@.len() >= 1,
    ensures
        elem_view(r) == make_multi_spec(hunk.deep_view()),
{
    proof {
        reveal(make_multi_spec);
    }
    let ghost hv = hunk.deep_view();
    let joined = join_with_newlines(hunk);
    let attr = noted_attributes(&joined);
    proof {
        assert(hv[0] == hunk@[0]@);
    }
    match forced_kind_chars(&hunk[0]) {
        Some(k) => {
            if k == ForcedKind::Character {
                let set = at_set_exec();
                let stripped = strip_each_start_in(hunk, &set);
                proof {
                    assert(stripped@.len() == hunk@.len());
                }
                make_dialogue_chars(&stripped)
            } else {
                let set = marker_set_exec();
                let stripped = strip_each_start_in(hunk, &set);
                let js = join_with_newlines(&stripped);
                let txt = remove_notes_chars(&js);
                mk_forced_exec(k, txt, attr)
            }
        },
        None => {
            if any_centered(hunk) {
                let cleaned = trim_each_centered(hunk);
                let js = join_with_newlines(&cleaned);
                let txt = remove_notes_chars(&js);
                Element::Action(
                    ElementText::Plain(chars_to_string(&txt)),
                    Attributes { centered: true, ..attr },
                )
            } else if is_character_chars(&hunk[0]) {
                make_dialogue_chars(hunk)
            } else {
                let txt = remove_notes_chars(&joined);
                Element::Action(ElementText::Plain(chars_to_string(&txt)), attr)
            }
        },
    }
}

/// Classify one multi-line hunk.
pub fn make_multi_line_element(hunk: Vec<String>) -> (r: Element)
    requires
        hunk@.len() >= 1,
    ensures
        elem_view(r) == make_multi_spec(hunk.deep_view()),
{
    let cv = strings_to_charses(&hunk);
    make_multi_chars(&cv)
}

} // verus!

verus! {

// ---------------------------------------------------------------------------
// The backward fold
// ---------------------------------------------------------------------------

/// The element one hunk classifies to.
pub open spec fn elem_of_hunk(h: Seq<Seq<char>>) -> ElemV {
    if h.len() == 1 {
        make_single_spec(h[0])
    } else {
        make_multi_spec(h)
    }
}

/// Can this element carry attribute flags?
pub open spec fn is_attr_elem(e: ElemV) -> bool {
    match e {
        ElemV::DialogueBlock(..) => false,
        ElemV::DualDialogueBlock(..) => false,
        ElemV::Synopsis(..) => false,
        ElemV::PageBreak => false,
        _ => true,
    }
}

/// The element with its `starts_new_page` flag set, where it has one.
pub open spec fn mark_one(e: ElemV) -> ElemV {
    match e {
        ElemV::Action(t, a) => ElemV::Action(t, AttrV { starts_new_page: true, ..a }),
        ElemV::Character(t, a) => ElemV::Character(t, AttrV { starts_new_page: true, ..a }),
        ElemV::SceneHeading(t, a) => ElemV::SceneHeading(t, AttrV { starts_new_page: true, ..a }),
        ElemV::Lyric(t, a) => ElemV::Lyric(t, AttrV { starts_new_page: true, ..a }),
        ElemV::Parenthetical(t, a) => ElemV::Parenthetical(
            t,
            AttrV { starts_new_page: true, ..a },
        ),
        ElemV::Dialogue(t, a) => ElemV::Dialogue(t, AttrV { starts_new_page: true, ..a }),
        ElemV::Transition(t, a) => ElemV::Transition(t, AttrV { starts_new_page: true, ..a }),
        ElemV::Section(t, a, l) => ElemV::Section(t, AttrV { starts_new_page: true, ..a }, l),
        ElemV::ColdOpening(t, a) => ElemV::ColdOpening(t, AttrV { starts_new_page: true, ..a }),
        ElemV::NewAct(t, a) => ElemV::NewAct(t, AttrV { starts_new_page: true, ..a }),
        ElemV::EndOfAct(t, a) => ElemV::EndOfAct(t, AttrV { starts_new_page: true, ..a }),
        _ => e,
    }
}

/// How one classified element joins the accumulator: a page break marks the
/// most recently pushed element instead of appearing; a dialogue block
/// completes a half-filled dual-dialogue block; a section absorbs a synopsis
/// standing right after it; everything else is pushed.
pub open spec fn push_elem(acc: Seq<ElemV>, e: ElemV) -> Seq<ElemV> {
    match e {
        ElemV::PageBreak => if acc.len() == 0 {
            acc
        } else {
            acc.update(acc.len() - 1, mark_one(acc.last()))
        },
        ElemV::DialogueBlock(ch) => if acc.len() == 0 {
            acc.push(e)
        } else {
            match acc.last() {
                ElemV::DualDialogueBlock(blocks) => if blocks.len() == 1 {
                    acc.update(acc.len() - 1, ElemV::DualDialogueBlock(seq![e] + blocks))
                } else {
                    acc.push(e)
                },
                _ => acc.push(e),
            }
        },
        ElemV::Section(t, a, l) => if acc.len() == 0 {
            acc.push(e)
        } else {
            match acc.last() {
                ElemV::Synopsis(TextV::Plain(txt)) => acc.update(
                    acc.len() - 1,
                    ElemV::Section(t, AttrV { notes: Some(seq![txt]), ..a }, l),
                ),
                _ => acc.push(e),
            }
        },
        _ => acc.push(e),
    }
}

/// The accumulator after processing the hunks from `j` on (the fold runs
/// backward, so these are the elements after position `j`, in reverse).
pub open spec fn classify_acc(hunks: Seq<Seq<Seq<char>>>, j: int) -> Seq<ElemV>
    decreases hunks.len() - j,
{
    if !(0 <= j < hunks.len()) {
        Seq::empty()
    } else if hunks[j].len() == 0 {
        classify_acc(hunks, j + 1)
    } else {
        push_elem(classify_acc(hunks, j + 1), elem_of_hunk(hunks[j]))
    }
}

/// What the classifier yields for a hunk list, in document order.
pub open spec fn hunks_to_elements_spec(hunks: Seq<Seq<Seq<char>>>) -> Seq<ElemV> {
    classify_acc(hunks, 0).reverse()
}

fn set_new_page(e: Element) -> (r: Element)
    ensures
        elem_view(r) == mark_one(elem_view(e)),
{
    match e {
        Element::Action(t, a) => Element::Action(t, Attributes { starts_new_page: true, ..a }),
        Element::Character(t, a) => Element::Character(
            t,
            Attributes { starts_new_page: true, ..a },
        ),
        Element::SceneHeading(t, a) => Element::SceneHeading(
            t,
            Attributes { starts_new_page: true, ..a },
        ),
        Element::Lyric(t, a) => Element::Lyric(t, Attributes { starts_new_page: true, ..a }),
        Element::Parenthetical(t, a) => Element::Parenthetical(
            t,
            Attributes { starts_new_page: true, ..a },
        ),
        Element::Dialogue(t, a) => Element::Dialogue(t, Attributes { starts_new_page: true, ..a }),
        Element::Transition(t, a) => Element::Transition(
            t,
            Attributes { starts_new_page: true, ..a },
        ),
        Element::Section(t, a, l) => Element::Section(
            t,
            Attributes { starts_new_page: true, ..a },
            l,
        ),
        Element::ColdOpening(t, a) => Element::ColdOpening(
            t,
            Attributes { starts_new_page: true, ..a },
        ),
        Element::NewAct(t, a) => Element::NewAct(t, Attributes { starts_new_page: true, ..a }),
        Element::EndOfAct(t, a) => Element::EndOfAct(t, Attributes { starts_new_page: true, ..a }),
        other => other,
    }
}

fn push_elem_exec(acc: &mut Vec<Element>, e: Element) -> (nothing: ())
    ensures
        elems_view(final(acc)@) == push_elem(elems_view(old(acc)@), elem_view(e)),
{
    let ghost a0 = elems_view(acc@);
    let ghost ev0 = elem_view(e);
    proof {
        lemma_elems_view(acc@);
    }
    match e {
        Element::PageBreak => {
            if acc.len() > 0 {
                let last = acc.pop().unwrap();
                let marked = set_new_page(last);
                acc.push(marked);
                proof {
                    lemma_elems_view(acc@);
                    assert(elems_view(acc@) =~= a0.update(a0.len() - 1, mark_one(a0.last())));
                }
            }
        },
        Element::DialogueBlock(ch) => {
            let ghost chv = elems_view(ch@);
            proof {
                assert(ev0 == ElemV::DialogueBlock(chv));
            }
            if acc.len() == 0 {
                acc.push(Element::DialogueBlock(ch));
                proof {
                    lemma_elems_view(acc@);
                    assert(elems_view(acc@) =~= a0.push(ev0));
                }
            } else {
                let last = acc.pop().unwrap();
                match last {
                    Element::DualDialogueBlock(mut blocks) => {
                        if blocks.len() == 1 {
                            let ghost b0 = blocks@;
                            proof {
                                lemma_elems_view(b0);
                                assert(a0.last() == ElemV::DualDialogueBlock(elems_view(b0)));
                                assert(elems_view(b0).len() == 1);
                            }
                            blocks.insert(0, Element::DialogueBlock(ch));
                            proof {
                                assert(blocks@ =~= seq![Element::DialogueBlock(ch)] + b0);
                                lemma_elems_view(blocks@);
                                assert(elems_view(blocks@) =~= seq![ev0] + elems_view(b0));
                            }
                            let ghost bv = elems_view(blocks@);
                            let nd = Element::DualDialogueBlock(blocks);
                            acc.push(nd);
                            proof {
                                lemma_elems_view(acc@);
                                assert(elems_view(acc@) =~= a0.update(
                                    a0.len() - 1,
                                    ElemV::DualDialogueBlock(seq![ev0] + elems_view(b0)),
                                ));
                                assert(elems_view(acc@) == push_elem(a0, ev0));
                            }
                        } else {
                            proof {
                                lemma_elems_view(blocks@);
                                assert(a0.last() == ElemV::DualDialogueBlock(elems_view(blocks@)));
                                assert(elems_view(blocks@).len() != 1);
                            }
                            let back = Element::DualDialogueBlock(blocks);
                            acc.push(back);
                            acc.push(Element::DialogueBlock(ch));
                            proof {
                                lemma_elems_view(acc@);
                                assert(elems_view(acc@) =~= a0.push(ev0));
                            }
                        }
                    },
                    other => {
                        proof {
                            assert(a0.last() == elem_view(other));
                        }
                        acc.push(other);
                        acc.push(Element::DialogueBlock(ch));
                        proof {
                            lemma_elems_view(acc@);
                            assert(elems_view(acc@) =~= a0.push(ev0));
                        }
                    },
                }
            }
        },
        Element::Section(t, a, l) => {
            let ghost tv = text_view(t);
            let ghost av = attr_view(a);
            proof {
                assert(ev0 == ElemV::Section(tv, av, l));
            }
            if acc.len() == 0 {
                acc.push(Element::Section(t, a, l));
                proof {
                    lemma_elems_view(acc@);
                    assert(elems_view(acc@) =~= a0.push(ev0));
                }
            } else {
                let last = acc.pop().unwrap();
                match last {
                    Element::Synopsis(ElementText::Plain(txt)) => {
                        proof {
                            assert(a0.last() == ElemV::Synopsis(TextV::Plain(txt@)));
                        }
                        let mut notes: Vec<String> = Vec::new();
                        let ghost txtv = txt@;
                        notes.push(txt);
                        proof {
                            assert(crate::strings_view(notes) =~= seq![txtv]);
                        }
                        let ns = Element::Section(t, Attributes { notes: Some(notes), ..a }, l);
                        acc.push(ns);
                        proof {
                            lemma_elems_view(acc@);
                            assert(elems_view(acc@) =~= a0.update(
                                a0.len() - 1,
                                ElemV::Section(tv, AttrV { notes: Some(seq![txtv]), ..av }, l),
                            ));
                            assert(elems_view(acc@) == push_elem(a0, ev0));
                        }
                    },
                    other => {
                        proof {
                            assert(a0.last() == elem_view(other));
                        }
                        acc.push(other);
                        acc.push(Element::Section(t, a, l));
                        proof {
                            lemma_elems_view(acc@);
                            assert(elems_view(acc@) =~= a0.push(ev0));
                        }
                    },
                }
            }
        },
        other => {
            acc.push(other);
            proof {
                lemma_elems_view(acc@);
                assert(elems_view(acc@) =~= a0.push(ev0));
            }
        },
    }
}

fn reverse_elements(v: Vec<Element>) -> (r: Vec<Element>)
    ensures
        elems_view(r@) == elems_view(v@).reverse(),
{
    let ghost v0 = v@;
    let mut src = v;
    let mut out: Vec<Element> = Vec::new();
    while src.len() > 0
        invariant
            src@ == v0.take(src@.len() as int),
            out@.len() + src@.len() == v0.len(),
            forall|m: int| 0 <= m < out@.len() ==> #[trigger] out@[m] == v0[v0.len() - 1 - m],
        decreases src@.len(),
    {
            let e = src.pop().unwrap();
        proof {
            assert(src@ =~= v0.take(src@.len() as int));
            assert(e == v0[src@.len() as int]);
        }
        out.push(e);
    }
    proof {
        lemma_elems_view(out@);
        lemma_elems_view(v0);
        assert(elems_view(out@) =~= elems_view(v0).reverse());
    }
    out
}

#[verifier::loop_isolation(false)]
pub(crate) fn hunks_to_elements_chars(hunks: &Vec<Vec<Vec<char>>>) -> (r: Vec<Element>)
    ensures
        elems_view(r@) == hunks_to_elements_spec(hunks.deep_view()),
{
    let ghost hv = hunks.deep_view();
    let mut acc: Vec<Element> = Vec::new();
    let mut i: usize = hunks.len();
    proof {
        lemma_elems_view(acc@);
        assert(elems_view(acc@) =~= classify_acc(hv, hunks@.len() as int));
    }
    while i > 0
        invariant
            0 <= i <= hunks@.len(),
            elems_view(acc@) == classify_acc(hv, i as int),
        decreases i,
    {
        i = i - 1;
        let h = &hunks[i];
        proof {
            assert(h.deep_view() == hv[i as int]);
        }
        if h.len() > 0 {
            let e = if h.len() == 1 {
                proof {
                    assert(h.deep_view()[0] == h@[0]@);
                }
                make_single_line_chars(&h[0])
            } else {
                make_multi_chars(h)
            };
            proof {
                assert(elem_view(e) == elem_of_hunk(hv[i as int]));
            }
            push_elem_exec(&mut acc, e);
        }
    }
    reverse_elements(acc)
}

/// Classify every hunk, resolving pairing, attachment and page breaks.
pub fn hunks_to_elements(hunks: Vec<Vec<String>>) -> (r: Vec<Element>)
    ensures
        elems_view(r@) == hunks_to_elements_spec(hunks.deep_view()),
{
    let mut cv: Vec<Vec<Vec<char>>> = Vec::new();
    let mut i: usize = 0;
    while i < hunks.len()
        invariant
            0 <= i <= hunks@.len(),
            cv@.len() == i,
            forall|m: int| 0 <= m < i ==> #[trigger] cv@[m].deep_view() == hunks@[m].deep_view(),
        decreases hunks@.len() - i,
    {
        cv.push(strings_to_charses(&hunks[i]));
        i = i + 1;
    }
    proof {
        assert(cv.deep_view() =~~= hunks.deep_view());
    }
    hunks_to_elements_chars(&cv)
}

} // verus!

verus! {

// ---------------------------------------------------------------------------
// The page-break law
// ---------------------------------------------------------------------------

/// The sequence with the element at `p` carrying its page flag.
pub open spec fn mark_at(s: Seq<ElemV>, p: int) -> Seq<ElemV> {
    s.update(p, mark_one(s[p]))
}

/// Folding one element preserves a set page flag at a fixed position: the
/// fold inspects only variants, which the flag does not change, and never
/// replaces a flag-bearing element.
proof fn lemma_push_flag_commute(acc: Seq<ElemV>, e: ElemV, p: int)
    requires
        0 <= p < acc.len(),
        is_attr_elem(acc[p]),
    ensures
        push_elem(acc, e).len() >= acc.len(),
        p < push_elem(acc, e).len(),
        is_attr_elem(push_elem(acc, e)[p]),
        push_elem(mark_at(acc, p), e) == mark_at(push_elem(acc, e), p),
{
    let accm = mark_at(acc, p);
    assert(accm.len() == acc.len());
    assert(accm[p] == mark_one(acc[p]));
    if p < acc.len() - 1 {
        assert(accm.last() == acc.last());
    }
    match e {
        ElemV::PageBreak => {
            if p == acc.len() - 1 {
                assert(mark_one(mark_one(acc[p])) == mark_one(acc[p]));
                assert(push_elem(accm, e) =~= mark_at(push_elem(acc, e), p));
            } else {
                assert(push_elem(accm, e) =~= mark_at(push_elem(acc, e), p));
            }
        },
        ElemV::DialogueBlock(ch) => {
            if p == acc.len() - 1 {
                assert(!(accm.last() is DualDialogueBlock));
                assert(!(acc.last() is DualDialogueBlock));
                assert(push_elem(accm, e) =~= mark_at(push_elem(acc, e), p));
            } else {
                assert(push_elem(accm, e) =~= mark_at(push_elem(acc, e), p));
            }
        },
        ElemV::Section(t, a, l) => {
            if p == acc.len() - 1 {
                assert(!(accm.last() is Synopsis));
                assert(!(acc.last() is Synopsis));
                assert(push_elem(accm, e) =~= mark_at(push_elem(acc, e), p));
            } else {
                assert(push_elem(accm, e) =~= mark_at(push_elem(acc, e), p));
            }
        },
        _ => {
            assert(push_elem(accm, e) =~= mark_at(push_elem(acc, e), p));
        },
    }
}

/// Removing one hunk shifts the fold's suffix accumulators by one.
proof fn lemma_classify_suffix(h: Seq<Seq<Seq<char>>>, i: int, j: int)
    requires
        0 <= i < h.len(),
        i <= j <= h.len() - 1,
    ensures
        classify_acc(h, j + 1) == classify_acc(h.remove(i), j),
    decreases h.len() - j,
{
    let h2 = h.remove(i);
    assert(h2.len() == h.len() - 1);
    if j == h.len() - 1 {
        assert(classify_acc(h, j + 1) =~= Seq::<ElemV>::empty());
        assert(classify_acc(h2, j) =~= Seq::<ElemV>::empty());
    } else {
        lemma_classify_suffix(h, i, j + 1);
        assert(h2[j] =~~= h[j + 1]) by {
            assert(h2[j] == h.subrange(0, i).add(h.subrange(i + 1, h.len() as int))[j]);
        }
    }
}

/// Below the removed hunk, the fold on the document with the page break is
/// the fold without it, with the flag carried at position `k`.
proof fn lemma_classify_prefix_mark(h: Seq<Seq<Seq<char>>>, i: int, j: int, k: int)
    requires
        0 <= j <= i < h.len(),
        h[i].len() > 0,
        elem_of_hunk(h[i]) is PageBreak,
        classify_acc(h.remove(i), i).len() > 0,
        k == classify_acc(h.remove(i), i).len() - 1,
        is_attr_elem(classify_acc(h.remove(i), i)[k]),
    ensures
        classify_acc(h.remove(i), j).len() > k,
        is_attr_elem(classify_acc(h.remove(i), j)[k]),
        classify_acc(h, j) == mark_at(classify_acc(h.remove(i), j), k),
    decreases i - j,
{
    let h2 = h.remove(i);
    if j == i {
        lemma_classify_suffix(h, i, i);
        assert(classify_acc(h, i) == push_elem(classify_acc(h, i + 1), ElemV::PageBreak));
        assert(classify_acc(h, i) == mark_at(classify_acc(h2, i), k));
    } else {
        lemma_classify_prefix_mark(h, i, j + 1, k);
        assert(h2[j] =~~= h[j]) by {
            assert(h2[j] == h.subrange(0, i).add(h.subrange(i + 1, h.len() as int))[j]);
        }
        if h[j].len() == 0 {
        } else {
            lemma_push_flag_commute(classify_acc(h2, j + 1), elem_of_hunk(h[j]), k);
        }
    }
}

/// Below the removed hunk, when the break found nothing to mark, the two
/// folds agree.
proof fn lemma_classify_prefix_same(h: Seq<Seq<Seq<char>>>, i: int, j: int)
    requires
        0 <= j <= i < h.len(),
        h[i].len() > 0,
        elem_of_hunk(h[i]) is PageBreak,
        classify_acc(h, i) == classify_acc(h.remove(i), i),
    ensures
        classify_acc(h, j) == classify_acc(h.remove(i), j),
    decreases i - j,
{
    let h2 = h.remove(i);
    if j < i {
        lemma_classify_prefix_same(h, i, j + 1);
        assert(h2[j] =~~= h[j]) by {
            assert(h2[j] == h.subrange(0, i).add(h.subrange(i + 1, h.len() as int))[j]);
        }
    }
}

/// Every lone mid-document page-break hunk sets `starts_new_page` on exactly
/// the next flag-bearing element and changes nothing else; one that no such
/// element follows has no effect.  The classified elements of the document
/// equal those of the document without the break, except that one flag.
pub proof fn lemma_page_break_absorption(hunks: Seq<Seq<Seq<char>>>, i: int)
    requires
        0 <= i < hunks.len(),
        hunks[i].len() > 0,
        elem_of_hunk(hunks[i]) is PageBreak,
    ensures
        ({
            let with_pb = hunks_to_elements_spec(hunks);
            let without = hunks_to_elements_spec(hunks.remove(i));
            let rest = classify_acc(hunks.remove(i), i);
            if rest.len() > 0 && is_attr_elem(rest.last()) {
                let p = without.len() - rest.len();
                &&& with_pb == without.update(p, mark_one(without[p]))
                &&& 0 <= p < without.len()
            } else {
                with_pb == without
            }
        }),
{
    let h2 = hunks.remove(i);
    let rest = classify_acc(h2, i);
    lemma_classify_suffix(hunks, i, i);
    assert(classify_acc(hunks, i + 1) == rest);
    let b = classify_acc(h2, 0);
    let a = classify_acc(hunks, 0);
    lemma_classify_len_monotone(h2, 0, i);
    if rest.len() > 0 && is_attr_elem(rest.last()) {
        let k = rest.len() - 1;
        lemma_classify_prefix_mark(hunks, i, 0, k);
        assert(a == mark_at(b, k));
        let p = b.len() - 1 - k;
        assert(a.reverse() =~= b.reverse().update(p, mark_one(b.reverse()[p])));
        assert(hunks_to_elements_spec(hunks) == hunks_to_elements_spec(h2).update(
            p,
            mark_one(hunks_to_elements_spec(h2)[p]),
        ));
    } else {
        assert(classify_acc(hunks, i) == push_elem(rest, ElemV::PageBreak));
        if rest.len() == 0 {
            assert(classify_acc(hunks, i) == rest);
        } else {
            assert(mark_one(rest.last()) == rest.last());
            assert(push_elem(rest, ElemV::PageBreak) =~= rest);
        }
        lemma_classify_prefix_same(hunks, i, 0);
        assert(a.reverse() =~= b.reverse());
    }
}

/// The fold's accumulator never shrinks as more hunks are processed.
proof fn lemma_classify_len_monotone(h: Seq<Seq<Seq<char>>>, j: int, j2: int)
    requires
        0 <= j <= j2,
    ensures
        classify_acc(h, j).len() >= classify_acc(h, j2).len(),
    decreases j2 - j,
{
    if j < j2 {
        lemma_classify_len_monotone(h, j + 1, j2);
        if 0 <= j < h.len() && h[j].len() > 0 {
            let acc = classify_acc(h, j + 1);
            let e = elem_of_hunk(h[j]);
            assert(push_elem(acc, e).len() >= acc.len());
        }
    }
}

} // verus!
