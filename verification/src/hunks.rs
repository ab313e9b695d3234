//! The hunk segmenter: groups the document's lines into ordered line-groups
//! ("hunks"), the atomic units that the classifier works on.
use crate::text::{
    chars_to_string, split_lines, split_lines_spec, str_to_chars, subvec, trim_ws, trim_ws_spec,
};
use vstd::prelude::*;

verus! {

broadcast use crate::text::lemma_chars_deep_view;

/// Append `line` to the accumulator's current (last) hunk.
pub open spec fn upd_last_line(acc: Seq<Seq<Seq<char>>>, line: Seq<char>) -> Seq<Seq<Seq<char>>>
    recommends
        acc.len() > 0,
{
    acc.update(acc.len() - 1, acc.last().push(line))
}

/// How one line extends the hunk accumulator: blank lines close or pad
/// hunks, section lines are isolated, and content lines extend the current
/// hunk unless it holds a section line.
pub open spec fn hunk_step(acc: Seq<Seq<Seq<char>>>, line: Seq<char>) -> Seq<Seq<Seq<char>>>
    recommends
        acc.len() > 0,
{
    let t = trim_ws_spec(line);
    if t.len() == 0 {
        if line == seq![' ', ' '] {
            upd_last_line(acc, line)
        } else if acc.last().len() == 0 && acc.len() == 1 {
            acc
        } else if acc.last().len() == 0 {
            upd_last_line(acc, Seq::empty())
        } else {
            acc.push(Seq::empty())
        }
    } else if t[0] == '#' {
        if acc.last().len() == 0 {
            upd_last_line(acc, line)
        } else {
            acc.push(seq![line])
        }
    } else {
        if acc.last().len() > 0 && acc.last()[0].len() > 0 && acc.last()[0][0] == '#' {
            acc.push(seq![line])
        } else {
            upd_last_line(acc, line)
        }
    }
}

/// The accumulator after folding the first `i` lines.
pub open spec fn hunks_fold(lines: Seq<Seq<char>>, i: int) -> Seq<Seq<Seq<char>>>
    decreases i,
{
    if i <= 0 {
        seq![Seq::empty()]
    } else {
        hunk_step(hunks_fold(lines, i - 1), lines[i - 1])
    }
}

/// The hunks of a line sequence: the fold over all lines, with an empty
/// document replaced by one hunk holding a single empty line.
pub open spec fn lines_to_hunks_spec(lines: Seq<Seq<char>>) -> Seq<Seq<Seq<char>>> {
    let h = hunks_fold(lines, lines.len() as int);
    if h.len() == 1 && h[0].len() == 0 {
        seq![seq![Seq::<char>::empty()]]
    } else {
        h
    }
}

pub proof fn lemma_hunks_fold_shape(lines: Seq<Seq<char>>, i: int)
    ensures
        hunks_fold(lines, i).len() > 0,
        forall|j: int|
            0 <= j < hunks_fold(lines, i).len() - 1 ==> (#[trigger] hunks_fold(lines, i)[j]).len()
                > 0,
    decreases i,
{
    if i > 0 {
        lemma_hunks_fold_shape(lines, i - 1);
        let acc = hunks_fold(lines, i - 1);
        let next = hunk_step(acc, lines[i - 1]);
        assert forall|j: int| 0 <= j < next.len() - 1 implies (#[trigger] next[j]).len() > 0 by {
            if j < acc.len() - 1 {
                assert(acc[j].len() > 0);
            }
        }
    }
}

fn copy_chars(v: &Vec<char>) -> (r: Vec<char>)
    ensures
        r@ == v@,
{
    let r = subvec(v, 0, v.len());
    proof {
        assert(v@.subrange(0, v@.len() as int) =~= v@);
    }
    r
}

fn push_line_to_last(acc: &mut Vec<Vec<Vec<char>>>, line: Vec<char>) -> (nothing: ())
    requires
        old(acc)@.len() > 0,
    ensures
        final(acc).deep_view() == upd_last_line(old(acc).deep_view(), line@),
{
    let ghost dv0 = acc.deep_view();
    let ghost lv = line@;
    let mut last = acc.pop().unwrap();
    let ghost lastv = last.deep_view();
    proof {
        assert(lastv =~= dv0.last());
    }
    last.push(line);
    proof {
        assert(last.deep_view() =~~= lastv.push(lv));
    }
    acc.push(last);
    proof {
        assert(acc.deep_view() =~~= dv0.update(dv0.len() - 1, dv0.last().push(lv)));
    }
}

/// Group the already-split lines into hunks.
pub fn hunks_of_lines(lines: &Vec<Vec<char>>) -> (r: Vec<Vec<Vec<char>>>)
    ensures
        r.deep_view() == lines_to_hunks_spec(lines.deep_view()),
{
    let mut acc: Vec<Vec<Vec<char>>> = Vec::new();
    acc.push(Vec::new());
    proof {
        assert(acc.deep_view() =~~= hunks_fold(lines.deep_view(), 0));
    }
    let mut i: usize = 0;
    while i < lines.len()
        invariant
            0 <= i <= lines@.len(),
            acc.deep_view() == hunks_fold(lines.deep_view(), i as int),
            acc@.len() > 0,
        decreases lines@.len() - i,
    {
        proof {
            lemma_hunks_fold_shape(lines.deep_view(), i as int);
        }
        let ghost accv = acc.deep_view();
        let ghost linev = lines.deep_view()[i as int];
        let line = &lines[i];
        let t = trim_ws(line);
        if t.len() == 0 {
            let forced_blank = line.len() == 2 && line[0] == ' ' && line[1] == ' ';
            proof {
                if forced_blank {
                    assert(linev =~= seq![' ', ' ']);
                } else {
                    if linev.len() == 2 {
                        assert(linev[0] != ' ' || linev[1] != ' ');
                    }
                    assert(linev != seq![' ', ' ']);
                }
            }
            if forced_blank {
                push_line_to_last(&mut acc, copy_chars(line));
            } else {
                let last_empty = acc[acc.len() - 1].len() == 0;
                proof {
                    assert(accv.last() == acc.deep_view()[accv.len() - 1]);
                    assert(accv.last().len() == acc@[accv.len() - 1].deep_view().len());
                }
                if last_empty && acc.len() == 1 {
                    // ignore a leading blank
                } else if last_empty {
                    push_line_to_last(&mut acc, Vec::new());
                } else {
                    acc.push(Vec::new());
                    proof {
                        assert(acc.deep_view() =~~= accv.push(Seq::empty()));
                    }
                }
            }
        } else {
            let last_empty = acc[acc.len() - 1].len() == 0;
            proof {
                assert(accv.last().len() == acc@[accv.len() - 1].deep_view().len());
            }
            if t[0] == '#' {
                if last_empty {
                    push_line_to_last(&mut acc, copy_chars(line));
                } else {
                    let mut nh: Vec<Vec<char>> = Vec::new();
                    nh.push(copy_chars(line));
                    proof {
                        assert(nh.deep_view() =~~= seq![linev]);
                    }
                    acc.push(nh);
                    proof {
                        assert(acc.deep_view() =~~= accv.push(seq![linev]));
                    }
                }
            } else {
                let last = &acc[acc.len() - 1];
                let section_before = last.len() > 0 && last[0].len() > 0 && last[0][0] == '#';
                proof {
                    assert(last.deep_view() == accv.last());
                    if last@.len() > 0 {
                        assert(last.deep_view()[0] == last@[0]@);
                    }
                }
                if section_before {
                    let mut nh: Vec<Vec<char>> = Vec::new();
                    nh.push(copy_chars(line));
                    proof {
                        assert(nh.deep_view() =~~= seq![linev]);
                    }
                    acc.push(nh);
                    proof {
                        assert(acc.deep_view() =~~= accv.push(seq![linev]));
                    }
                } else {
                    push_line_to_last(&mut acc, copy_chars(line));
                }
            }
        }
        proof {
            assert(linev == line@);
            assert(acc.deep_view() == hunk_step(accv, linev));
        }
        i = i + 1;
    }
    // an empty document still yields one hunk holding one empty line
    proof {
        lemma_hunks_fold_shape(lines.deep_view(), i as int);
    }
    if acc.len() == 1 && acc[0].len() == 0 {
        let ghost accv = acc.deep_view();
        proof {
            assert(accv[0].len() == acc@[0].deep_view().len());
        }
        let mut h0 = acc.pop().unwrap();
        h0.push(Vec::new());
        acc.push(h0);
        proof {
            assert(acc.deep_view() =~~= seq![seq![Seq::<char>::empty()]]);
        }
    } else {
        proof {
            let accv = acc.deep_view();
            assert(accv[0].len() == acc@[0].deep_view().len());
            assert(!(accv.len() == 1 && accv[0].len() == 0));
        }
    }
    acc
}

/// Split a raw text into lines and group them into hunks.
pub fn lines_to_hunks(text: &str) -> (r: Vec<Vec<String>>)
    ensures
        r.deep_view() == lines_to_hunks_spec(split_lines_spec(text@)),
{
    let chars = str_to_chars(text);
    let lines = split_lines(&chars);
    let hunks = hunks_of_lines(&lines);
    let mut out: Vec<Vec<String>> = Vec::new();
    let mut i: usize = 0;
    while i < hunks.len()
        invariant
            0 <= i <= hunks@.len(),
            out@.len() == i,
            forall|m: int| 0 <= m < i ==> #[trigger] out@[m].deep_view() == hunks@[m].deep_view(),
        decreases hunks@.len() - i,
    {
        let h = &hunks[i];
        let mut oh: Vec<String> = Vec::new();
        let mut j: usize = 0;
        while j < h.len()
            invariant
                0 <= j <= h@.len(),
                oh@.len() == j,
                forall|m: int| 0 <= m < j ==> #[trigger] oh@[m]@ == h@[m]@,
            decreases h@.len() - j,
        {
            oh.push(chars_to_string(&h[j]));
            j = j + 1;
        }
        proof {
            assert(oh.deep_view() =~= h.deep_view());
        }
        out.push(oh);
        i = i + 1;
    }
    proof {
        assert(out.deep_view() =~= hunks.deep_view());
    }
    out
}

} // verus!
