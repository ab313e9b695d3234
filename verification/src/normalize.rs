//! Normalization: strips comment blocks and invisible Unicode format
//! characters, and trims whitespace at the very end of the document.
use crate::text::{
    chars_to_string, find_pair, find_pair_from, is_space_char, lemma_find_pair_from, skip_ws_back,
    str_to_chars, trim_end_ws, trim_end_ws_spec,
};
use crate::unicode::{char_is_format, format_char};
use vstd::prelude::*;

verus! {

/// One left-to-right scan from position `i` that drops each comment region
/// (a `/*` with a later `*/`) and each format character, keeping the rest.
pub open spec fn scrub_from(s: Seq<char>, i: int) -> Seq<char>
    decreases s.len() - i,
        via scrub_from_dec
{
    if !(0 <= i < s.len()) {
        Seq::empty()
    } else if i + 2 <= s.len() && s[i] == '/' && s[i + 1] == '*' && find_pair_from(
        s,
        i + 2,
        '*',
        '/',
    ) < s.len() {
        scrub_from(s, find_pair_from(s, i + 2, '*', '/') + 2)
    } else if format_char(s[i]) {
        scrub_from(s, i + 1)
    } else {
        seq![s[i]] + scrub_from(s, i + 1)
    }
}

#[via_fn]
proof fn scrub_from_dec(s: Seq<char>, i: int) {
    if 0 <= i < s.len() && i + 2 <= s.len() {
        lemma_find_pair_from(s, i + 2, '*', '/');
    }
}

/// The comment-dropping scan alone, without the format-character rule.
pub open spec fn boneyard_from(s: Seq<char>, i: int) -> Seq<char>
    decreases s.len() - i,
        via boneyard_from_dec
{
    if !(0 <= i < s.len()) {
        Seq::empty()
    } else if i + 2 <= s.len() && s[i] == '/' && s[i + 1] == '*' && find_pair_from(
        s,
        i + 2,
        '*',
        '/',
    ) < s.len() {
        boneyard_from(s, find_pair_from(s, i + 2, '*', '/') + 2)
    } else {
        seq![s[i]] + boneyard_from(s, i + 1)
    }
}

#[via_fn]
proof fn boneyard_from_dec(s: Seq<char>, i: int) {
    if 0 <= i < s.len() && i + 2 <= s.len() {
        lemma_find_pair_from(s, i + 2, '*', '/');
    }
}

/// The format-character filter alone.
pub open spec fn unformat_from(s: Seq<char>, i: int) -> Seq<char>
    decreases s.len() - i,
{
    if !(0 <= i < s.len()) {
        Seq::empty()
    } else if format_char(s[i]) {
        unformat_from(s, i + 1)
    } else {
        seq![s[i]] + unformat_from(s, i + 1)
    }
}

/// What normalization produces: the document with trailing whitespace
/// removed, then scrubbed of comments and format characters.
pub open spec fn prepare_text_spec(s: Seq<char>) -> Seq<char> {
    scrub_from(trim_end_ws_spec(s), 0)
}

pub fn scrub_chars(v: &Vec<char>) -> (r: Vec<char>)
    ensures
        r@ == scrub_from(v@, 0),
{
    let mut out: Vec<char> = Vec::new();
    let mut i: usize = 0;
    while i < v.len()
        invariant
            0 <= i <= v@.len(),
            scrub_from(v@, 0) == out@ + scrub_from(v@, i as int),
        decreases v@.len() - i,
    {
        let mut handled = false;
        if v.len() - i >= 2 && v[i] == '/' && v[i + 1] == '*' {
            let p = find_pair(v, i + 2, '*', '/');
            if p < v.len() {
                proof {
                    lemma_find_pair_from(v@, i + 2, '*', '/');
                    assert(out@ + scrub_from(v@, i as int) =~= out@ + scrub_from(v@, p + 2));
                }
                i = p + 2;
                handled = true;
            }
        }
        if !handled {
            if char_is_format(v[i]) {
                proof {
                    assert(out@ + scrub_from(v@, i as int) =~= out@ + scrub_from(v@, i + 1));
                }
                i = i + 1;
            } else {
                out.push(v[i]);
                proof {
                    assert(out@ + scrub_from(v@, i + 1) =~= (out@.drop_last() + (seq![
                        v@[i as int],
                    ] + scrub_from(v@, i + 1))));
                }
                i = i + 1;
            }
        }
    }
    proof {
        assert(out@ + scrub_from(v@, i as int) =~= out@);
    }
    out
}

/// Strip comment blocks and invisible format characters, trimming
/// whitespace at the very end of the whole document only.
pub fn prepare_text(text: &str) -> (r: String)
    ensures
        r@ == prepare_text_spec(text@),
{
    let chars = str_to_chars(text);
    let trimmed = trim_end_ws(&chars);
    let scrubbed = scrub_chars(&trimmed);
    chars_to_string(&scrubbed)
}

/// Remove every Unicode format character, keeping everything else.
pub fn remove_problematic_unicode(text: String) -> (r: String)
    ensures
        r@ == unformat_from(text@, 0),
{
    let v = str_to_chars(text.as_str());
    let mut out: Vec<char> = Vec::new();
    let mut i: usize = 0;
    while i < v.len()
        invariant
            0 <= i <= v@.len(),
            unformat_from(v@, 0) == out@ + unformat_from(v@, i as int),
        decreases v@.len() - i,
    {
        if char_is_format(v[i]) {
            proof {
                assert(out@ + unformat_from(v@, i as int) =~= out@ + unformat_from(v@, i + 1));
            }
        } else {
            out.push(v[i]);
            proof {
                assert(out@ + unformat_from(v@, i + 1) =~= (out@.drop_last() + (seq![v@[i as int]]
                    + unformat_from(v@, i + 1))));
            }
        }
        i = i + 1;
    }
    proof {
        assert(out@ + unformat_from(v@, i as int) =~= out@);
    }
    chars_to_string(&out)
}

/// Remove every comment block, keeping everything else.
pub fn remove_boneyard(text: String) -> (r: String)
    ensures
        r@ == boneyard_from(text@, 0),
{
    let v = str_to_chars(text.as_str());
    let mut out: Vec<char> = Vec::new();
    let mut i: usize = 0;
    while i < v.len()
        invariant
            0 <= i <= v@.len(),
            boneyard_from(v@, 0) == out@ + boneyard_from(v@, i as int),
        decreases v@.len() - i,
    {
        let mut handled = false;
        if v.len() - i >= 2 && v[i] == '/' && v[i + 1] == '*' {
            let p = find_pair(&v, i + 2, '*', '/');
            if p < v.len() {
                proof {
                    lemma_find_pair_from(v@, i + 2, '*', '/');
                    assert(out@ + boneyard_from(v@, i as int) =~= out@ + boneyard_from(v@, p + 2));
                }
                i = p + 2;
                handled = true;
            }
        }
        if !handled {
            out.push(v[i]);
            proof {
                assert(out@ + boneyard_from(v@, i + 1) =~= (out@.drop_last() + (seq![v@[i as int]]
                    + boneyard_from(v@, i + 1))));
            }
            i = i + 1;
        }
    }
    proof {
        assert(out@ + boneyard_from(v@, i as int) =~= out@);
    }
    chars_to_string(&out)
}

// ---------------------------------------------------------------------------
// Idempotence of normalization
// ---------------------------------------------------------------------------

/// A comment opening that the scan would remove: a `/*` with a later `*/`.
pub open spec fn has_live_comment(s: Seq<char>) -> bool {
    exists|i: int|
        0 <= i && i + 2 <= s.len() && #[trigger] s[i] == '/' && s[i + 1] == '*' && find_pair_from(
            s,
            i + 2,
            '*',
            '/',
        ) < s.len()
}

/// The scan's output never holds a format character.
pub proof fn lemma_scrub_no_format(s: Seq<char>, i: int)
    requires
        0 <= i,
    ensures
        forall|k: int|
            0 <= k < scrub_from(s, i).len() ==> !format_char(#[trigger] scrub_from(s, i)[k]),
    decreases s.len() - i,
{
    if i < s.len() {
        if i + 2 <= s.len() && s[i] == '/' && s[i + 1] == '*' && find_pair_from(s, i + 2, '*', '/')
            < s.len() {
            lemma_find_pair_from(s, i + 2, '*', '/');
            let p = find_pair_from(s, i + 2, '*', '/');
            lemma_scrub_no_format(s, p + 2);
            assert(scrub_from(s, i) == scrub_from(s, p + 2));
            assert forall|k: int| 0 <= k < scrub_from(s, i).len() implies !format_char(
                scrub_from(s, i)[k],
            ) by {
                assert(scrub_from(s, i)[k] == scrub_from(s, p + 2)[k]);
            }
        } else if format_char(s[i]) {
            lemma_scrub_no_format(s, i + 1);
            assert(scrub_from(s, i) == scrub_from(s, i + 1));
            assert forall|k: int| 0 <= k < scrub_from(s, i).len() implies !format_char(
                scrub_from(s, i)[k],
            ) by {
                assert(scrub_from(s, i)[k] == scrub_from(s, i + 1)[k]);
            }
        } else {
            lemma_scrub_no_format(s, i + 1);
            assert forall|k: int| 0 <= k < scrub_from(s, i).len() implies !format_char(
                scrub_from(s, i)[k],
            ) by {
                if k == 0 {
                    assert(scrub_from(s, i)[k] == s[i]);
                } else {
                    assert(scrub_from(s, i)[k] == scrub_from(s, i + 1)[k - 1]);
                }
            }
        }
    }
}

/// On text with no removable comment and no format character, the scan is
/// the identity.
pub proof fn lemma_scrub_fixed(s: Seq<char>, i: int)
    requires
        0 <= i <= s.len(),
        !has_live_comment(s),
        forall|k: int| 0 <= k < s.len() ==> !format_char(#[trigger] s[k]),
    ensures
        scrub_from(s, i) == s.subrange(i, s.len() as int),
    decreases s.len() - i,
{
    if i < s.len() {
        if i + 2 <= s.len() && s[i] == '/' && s[i + 1] == '*' && find_pair_from(s, i + 2, '*', '/')
            < s.len() {
            assert(has_live_comment(s));
        }
        lemma_scrub_fixed(s, i + 1);
        assert(scrub_from(s, i) =~= s.subrange(i, s.len() as int));
    } else {
        assert(scrub_from(s, i) =~= s.subrange(i, s.len() as int));
    }
}

/// Normalizing already-normalized text is a no-op: running the normalizer
/// on its own output returns that output unchanged.  The two premises name
/// the outputs on which this fails: a first pass may itself assemble a new
/// comment opening out of removed text, or expose trailing whitespace that
/// a comment had covered; such an output is normalized further by a second
/// pass.
pub proof fn lemma_prepare_text_idempotent(s: Seq<char>)
    requires
        !has_live_comment(prepare_text_spec(s)),
        prepare_text_spec(s).len() > 0 ==> !is_space_char(prepare_text_spec(s).last()),
    ensures
        prepare_text_spec(prepare_text_spec(s)) == prepare_text_spec(s),
{
    let y = prepare_text_spec(s);
    lemma_scrub_no_format(trim_end_ws_spec(s), 0);
    assert(trim_end_ws_spec(y) == y) by {
        if y.len() > 0 {
            assert(skip_ws_back(y, y.len() as int) == y.len() as int);
        }
        assert(trim_end_ws_spec(y) =~= y);
    }
    lemma_scrub_fixed(y, 0);
    assert(y.subrange(0, y.len() as int) =~= y);
}

} // verus!
