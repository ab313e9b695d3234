//! Title-page metadata: detecting `key: value` lines and folding a leading
//! metadata block into a key-to-values map with lower-cased keys.
use crate::text::{
    find_char, find_char_from, is_space_char, lemma_find_char_from, space_char, split_lines,
    split_lines_spec, str_to_chars, subvec, trim_ws, trim_ws_spec, chars_to_string,
};
use crate::unicode::{lower_chars, lower_of};
use crate::{meta_append, meta_insert, Metadata, MetaV};
use vstd::prelude::*;

verus! {

/// Split a key line: `Some((key, value))` when the line starts with a
/// non-whitespace character and at least two characters stand before the
/// first colon, none of them a line break.
/// No line break stands strictly between position 1 and `j`.
pub open spec fn unbroken_to(line: Seq<char>, j: int) -> bool {
    forall|m: int| 1 <= m < j ==> line[m] != '\r' && line[m] != '\n'
}

pub open spec fn key_split(line: Seq<char>) -> Option<(Seq<char>, Seq<char>)> {
    let j = find_char_from(line, 0, ':');
    if line.len() > 0 && !is_space_char(line[0]) && 2 <= j < line.len() && unbroken_to(line, j) {
        Some((line.subrange(0, j), line.subrange(j + 1, line.len() as int)))
    } else {
        None
    }
}

/// Whether a text opens with a key line: a colon after at least two
/// characters, before any line break.
pub open spec fn has_key_value_spec(txt: Seq<char>) -> bool {
    key_split(txt) is Some
}

/// Does `txt` open with a `key: value` line, making it a title-page block?
pub fn has_key_value(txt: &str) -> (r: bool)
    ensures
        r == has_key_value_spec(txt@),
{
    let v = str_to_chars(txt);
    let (ok, _, _) = key_split_chars(&v);
    ok
}

/// Split one line at its key's colon; the first component tells whether the
/// line is a key line at all.
fn key_split_chars(v: &Vec<char>) -> (r: (bool, Vec<char>, Vec<char>))
    ensures
        r.0 == (key_split(v@) is Some),
        r.0 ==> key_split(v@) == Some((r.1@, r.2@)),
{
    proof {
        lemma_find_char_from(v@, 0, ':');
    }
    if v.len() == 0 || space_char(v[0]) {
        return (false, Vec::new(), Vec::new());
    }
    let j = find_char(v, 0, ':');
    if j < 2 || j >= v.len() {
        return (false, Vec::new(), Vec::new());
    }
    let mut m: usize = 1;
    while m < j
        invariant
            1 <= m <= j,
            2 <= j < v@.len(),
            j == find_char_from(v@, 0, ':'),
            v@.len() > 0,
            !is_space_char(v@[0]),
            forall|k: int| 1 <= k < m ==> v@[k] != '\r' && v@[k] != '\n',
        decreases j - m,
    {
        if v[m] == '\r' || v[m] == '\n' {
            proof {
                assert(!unbroken_to(v@, j as int));
            }
            return (false, Vec::new(), Vec::new());
        }
        m = m + 1;
    }
    proof {
        assert(unbroken_to(v@, j as int));
    }
    let key = subvec(v, 0, j);
    let value = subvec(v, j + 1, v.len());
    (true, key, value)
}

/// The metadata map after folding the lines from `i` on, given the map so
/// far and the key currently collecting values.
pub open spec fn meta_fold(lines: Seq<Seq<char>>, i: int, m: MetaV, ck: Seq<char>) -> MetaV
    decreases lines.len() - i,
{
    if !(0 <= i < lines.len()) {
        m
    } else {
        match key_split(lines[i]) {
            Some((k, v)) => {
                let ckey = lower_of(k);
                let m2 = if v.len() == 0 {
                    meta_insert(m, ckey, Seq::empty())
                } else {
                    meta_insert(m, ckey, seq![trim_ws_spec(v)])
                };
                meta_fold(lines, i + 1, m2, ckey)
            },
            None => meta_fold(lines, i + 1, meta_append(m, ck, trim_ws_spec(lines[i])), ck),
        }
    }
}

/// What processing a title-page block adds to a map: each key line starts a
/// lower-cased key (its same-line value, trimmed, first), and every other
/// line appends its trimmed text to the key last started.
pub open spec fn process_metadata_spec(m0: MetaV, text: Seq<char>) -> MetaV {
    meta_fold(split_lines_spec(text), 0, m0, Seq::empty())
}

/// Fold a title-page block into the metadata map.
pub fn process_metadata(metadata: &mut Metadata, text: &str) -> (nothing: ())
    ensures
        final(metadata)@ == process_metadata_spec(old(metadata)@, text@),
{
    let ghost m0 = metadata@;
    let chars = str_to_chars(text);
    let lines = split_lines(&chars);
    let ghost lv = lines.deep_view();
    let mut current_key = String::new();
    let mut i: usize = 0;
    while i < lines.len()
        invariant
            0 <= i <= lines@.len(),
            lv == lines.deep_view(),
            lv == split_lines_spec(text@),
            process_metadata_spec(m0, text@) == meta_fold(lv, i as int, metadata@, current_key@),
        decreases lines@.len() - i,
    {
        let line = &lines[i];
        proof {
            crate::text::lemma_chars_deep_view(*line);
            assert(lv[i as int] == line@);
        }
        let (is_key, key, value) = key_split_chars(line);
        if is_key {
            let lower_key = lower_chars(&key);
            current_key = chars_to_string(&lower_key);
            if value.len() == 0 {
                let vals: Vec<String> = Vec::new();
                proof {
                    assert(crate::strings_view(vals) =~= Seq::<Seq<char>>::empty());
                }
                metadata.insert(current_key.clone(), vals);
            } else {
                let trimmed = trim_ws(&value);
                let mut vals: Vec<String> = Vec::new();
                vals.push(chars_to_string(&trimmed));
                proof {
                    assert(crate::strings_view(vals) =~= seq![trim_ws_spec(value@)]);
                }
                metadata.insert(current_key.clone(), vals);
            }
        } else {
            let trimmed = trim_ws(line);
            metadata.append_value(&current_key, chars_to_string(&trimmed));
        }
        i = i + 1;
    }
}

} // verus!
