//! Character-sequence utilities shared by every stage of the parsing
//! pipeline: whitespace tables, trimming, searching and line splitting.
use vstd::prelude::*;
use vstd::string::*;

verus! {

// ---- whitespace ----

/// The Unicode `White_Space` code points, the set that `trim` removes.
pub open spec fn is_space_char(c: char) -> bool {
    (c as u32) == 0x20 || (c as u32) == 0x09 || (c as u32) == 0x0A || (c as u32) == 0x0D
        || (c as u32) == 0x0B || (c as u32) == 0x0C || (c as u32) == 0x85 || (c as u32) == 0xA0
        || (c as u32) == 0x1680 || (0x2000 <= (c as u32) && (c as u32) <= 0x200A)
        || (c as u32) == 0x2028 || (c as u32) == 0x2029 || (c as u32) == 0x202F
        || (c as u32) == 0x205F || (c as u32) == 0x3000
}

pub fn space_char(c: char) -> (r: bool)
    ensures
        r == is_space_char(c),
{
    let u = c as u32;
    u == 0x20 || u == 0x09 || u == 0x0A || u == 0x0D || u == 0x0B || u == 0x0C || u == 0x85
        || u == 0xA0 || u == 0x1680 || (0x2000 <= u && u <= 0x200A) || u == 0x2028 || u == 0x2029
        || u == 0x202F || u == 0x205F || u == 0x3000
}

// ---- searching ----

/// Index of the first occurrence of `c` at or after `j`, or `s.len()` if none.
pub open spec fn find_char_from(s: Seq<char>, j: int, c: char) -> int
    decreases s.len() - j,
{
    if !(0 <= j < s.len()) {
        s.len() as int
    } else if s[j] == c {
        j
    } else {
        find_char_from(s, j + 1, c)
    }
}

pub proof fn lemma_find_char_from(s: Seq<char>, j: int, c: char)
    requires
        0 <= j <= s.len(),
    ensures
        j <= find_char_from(s, j, c) <= s.len(),
        find_char_from(s, j, c) < s.len() ==> s[find_char_from(s, j, c)] == c,
        forall|m: int| j <= m < find_char_from(s, j, c) ==> s[m] != c,
    decreases s.len() - j,
{
    if j < s.len() && s[j] != c {
        lemma_find_char_from(s, j + 1, c);
    }
}

pub fn find_char(v: &Vec<char>, from: usize, c: char) -> (r: usize)
    requires
        from <= v@.len(),
    ensures
        r == find_char_from(v@, from as int, c),
{
    let mut i: usize = from;
    while i < v.len()
        invariant
            from <= i <= v@.len(),
            find_char_from(v@, from as int, c) == find_char_from(v@, i as int, c),
        decreases v@.len() - i,
    {
        if v[i] == c {
            return i;
        }
        i = i + 1;
    }
    i
}

/// Index of the first occurrence of the pair `c1 c2` at or after `j`, or `s.len()`.
pub open spec fn find_pair_from(s: Seq<char>, j: int, c1: char, c2: char) -> int
    decreases s.len() - j,
{
    if !(0 <= j && j + 2 <= s.len()) {
        s.len() as int
    } else if s[j] == c1 && s[j + 1] == c2 {
        j
    } else {
        find_pair_from(s, j + 1, c1, c2)
    }
}

pub proof fn lemma_find_pair_from(s: Seq<char>, j: int, c1: char, c2: char)
    requires
        0 <= j <= s.len(),
    ensures
        j <= find_pair_from(s, j, c1, c2) <= s.len(),
        find_pair_from(s, j, c1, c2) < s.len() ==> find_pair_from(s, j, c1, c2) + 2 <= s.len()
            && s[find_pair_from(s, j, c1, c2)] == c1 && s[find_pair_from(s, j, c1, c2) + 1] == c2,
        forall|m: int|
            j <= m < find_pair_from(s, j, c1, c2) && m + 2 <= s.len() ==> !(#[trigger] s[m] == c1
                && s[m + 1] == c2),
    decreases s.len() - j,
{
    if 0 <= j && j + 2 <= s.len() && !(s[j] == c1 && s[j + 1] == c2) {
        lemma_find_pair_from(s, j + 1, c1, c2);
    }
}

pub fn find_pair(v: &Vec<char>, from: usize, c1: char, c2: char) -> (r: usize)
    requires
        from <= v@.len(),
    ensures
        r == find_pair_from(v@, from as int, c1, c2),
{
    let mut i: usize = from;
    while i < v.len() && v.len() - i >= 2
        invariant
            from <= i <= v@.len(),
            find_pair_from(v@, from as int, c1, c2) == find_pair_from(v@, i as int, c1, c2),
        decreases v@.len() - i,
    {
        if v[i] == c1 && v[i + 1] == c2 {
            return i;
        }
        i = i + 1;
    }
    v.len()
}

// ---- prefix / suffix ----

pub open spec fn at_pos(s: Seq<char>, i: int, p: Seq<char>) -> bool {
    0 <= i && i + p.len() <= s.len() && s.subrange(i, i + p.len() as int) == p
}

pub open spec fn has_prefix(s: Seq<char>, p: Seq<char>) -> bool {
    at_pos(s, 0, p)
}

pub open spec fn has_suffix(s: Seq<char>, p: Seq<char>) -> bool {
    at_pos(s, s.len() - p.len(), p)
}

pub fn contains_at(v: &Vec<char>, i: usize, p: &str) -> (r: bool)
    ensures
        r == at_pos(v@, i as int, p@),
{
    let pl = p.unicode_len();
    let n = v.len();
    if i > n || pl > n - i {
        assert(!at_pos(v@, i as int, p@));
        return false;
    }
    let mut j: usize = 0;
    while j < pl
        invariant
            0 <= j <= pl,
            pl == p@.len(),
            n == v@.len(),
            i + pl <= n,
            forall|m: int| 0 <= m < j ==> v@[i + m] == p@[m],
        decreases pl - j,
    {
        assert(i + j < n);
        if v[i + j] != p.get_char(j) {
            assert(v@.subrange(i as int, i + p@.len() as int)[j as int] != p@[j as int]);
            return false;
        }
        j = j + 1;
    }
    assert(v@.subrange(i as int, i + p@.len() as int) =~= p@);
    true
}

pub fn starts_with_lit(v: &Vec<char>, p: &str) -> (r: bool)
    ensures
        r == has_prefix(v@, p@),
{
    contains_at(v, 0, p)
}

pub fn ends_with_lit(v: &Vec<char>, p: &str) -> (r: bool)
    ensures
        r == has_suffix(v@, p@),
{
    let pl = p.unicode_len();
    if pl > v.len() {
        return false;
    }
    contains_at(v, v.len() - pl, p)
}

pub fn eq_lit(v: &Vec<char>, p: &str) -> (r: bool)
    ensures
        r == (v@ == p@),
{
    let pl = p.unicode_len();
    if pl != v.len() {
        return false;
    }
    let r = contains_at(v, 0, p);
    assert(at_pos(v@, 0, p@) ==> v@ =~= p@);
    assert(v@ == p@ ==> v@.subrange(0, p@.len() as int) =~= p@);
    r
}

pub fn eq_chars(a: &Vec<char>, b: &Vec<char>) -> (r: bool)
    ensures
        r == (a@ == b@),
{
    if a.len() != b.len() {
        return false;
    }
    let mut i: usize = 0;
    while i < a.len()
        invariant
            0 <= i <= a@.len(),
            a@.len() == b@.len(),
            forall|m: int| 0 <= m < i ==> a@[m] == b@[m],
        decreases a@.len() - i,
    {
        if a[i] != b[i] {
            return false;
        }
        i = i + 1;
    }
    assert(a@ =~= b@);
    true
}

// ---- slicing ----

pub fn subvec(v: &Vec<char>, a: usize, b: usize) -> (r: Vec<char>)
    requires
        a <= b <= v@.len(),
    ensures
        r@ == v@.subrange(a as int, b as int),
{
    let mut r: Vec<char> = Vec::new();
    let mut i: usize = a;
    while i < b
        invariant
            a <= i <= b <= v@.len(),
            r@ == v@.subrange(a as int, i as int),
        decreases b - i,
    {
        r.push(v[i]);
        assert(r@ =~= v@.subrange(a as int, i + 1));
        i = i + 1;
    }
    r
}

// ---- trimming ----

/// First index at or after `j` holding a non-whitespace character, or `s.len()`.
pub open spec fn skip_ws_from(s: Seq<char>, j: int) -> int
    decreases s.len() - j,
{
    if !(0 <= j < s.len()) {
        s.len() as int
    } else if is_space_char(s[j]) {
        skip_ws_from(s, j + 1)
    } else {
        j
    }
}

/// Exclusive end of `s` after dropping trailing whitespace, scanning back from `j`.
pub open spec fn skip_ws_back(s: Seq<char>, j: int) -> int
    decreases j,
{
    if !(0 < j <= s.len()) {
        0
    } else if is_space_char(s[j - 1]) {
        skip_ws_back(s, j - 1)
    } else {
        j
    }
}

pub open spec fn trim_start_ws_spec(s: Seq<char>) -> Seq<char> {
    s.subrange(skip_ws_from(s, 0), s.len() as int)
}

pub open spec fn trim_end_ws_spec(s: Seq<char>) -> Seq<char> {
    s.subrange(0, skip_ws_back(s, s.len() as int))
}

pub open spec fn trim_ws_spec(s: Seq<char>) -> Seq<char> {
    trim_end_ws_spec(trim_start_ws_spec(s))
}

pub proof fn lemma_skip_ws_from(s: Seq<char>, j: int)
    requires
        0 <= j <= s.len(),
    ensures
        j <= skip_ws_from(s, j) <= s.len(),
        skip_ws_from(s, j) < s.len() ==> !is_space_char(s[skip_ws_from(s, j)]),
        forall|m: int| j <= m < skip_ws_from(s, j) ==> is_space_char(s[m]),
    decreases s.len() - j,
{
    if j < s.len() && is_space_char(s[j]) {
        lemma_skip_ws_from(s, j + 1);
    }
}

pub proof fn lemma_skip_ws_back(s: Seq<char>, j: int)
    requires
        0 <= j <= s.len(),
    ensures
        0 <= skip_ws_back(s, j) <= j,
        skip_ws_back(s, j) > 0 ==> !is_space_char(s[skip_ws_back(s, j) - 1]),
        forall|m: int| skip_ws_back(s, j) <= m < j ==> is_space_char(s[m]),
    decreases j,
{
    if 0 < j <= s.len() && is_space_char(s[j - 1]) {
        lemma_skip_ws_back(s, j - 1);
    }
}

pub fn trim_start_ws(v: &Vec<char>) -> (r: Vec<char>)
    ensures
        r@ == trim_start_ws_spec(v@),
{
    let mut i: usize = 0;
    while i < v.len() && space_char(v[i])
        invariant
            0 <= i <= v@.len(),
            skip_ws_from(v@, 0) == skip_ws_from(v@, i as int),
        decreases v@.len() - i,
    {
        i = i + 1;
    }
    subvec(v, i, v.len())
}

pub fn trim_end_ws(v: &Vec<char>) -> (r: Vec<char>)
    ensures
        r@ == trim_end_ws_spec(v@),
{
    let mut j: usize = v.len();
    while j > 0 && space_char(v[j - 1])
        invariant
            0 <= j <= v@.len(),
            skip_ws_back(v@, v@.len() as int) == skip_ws_back(v@, j as int),
        decreases j,
    {
        j = j - 1;
    }
    subvec(v, 0, j)
}

pub fn trim_ws(v: &Vec<char>) -> (r: Vec<char>)
    ensures
        r@ == trim_ws_spec(v@),
{
    let s = trim_start_ws(v);
    trim_end_ws(&s)
}

// ---- trimming by a character set ----

/// First index at or after `j` holding a character outside `cs`, or `s.len()`.
pub open spec fn skip_in_from(s: Seq<char>, j: int, cs: Seq<char>) -> int
    decreases s.len() - j,
{
    if !(0 <= j < s.len()) {
        s.len() as int
    } else if cs.contains(s[j]) {
        skip_in_from(s, j + 1, cs)
    } else {
        j
    }
}

/// Exclusive end of `s` after dropping trailing characters of `cs`, from `j`.
pub open spec fn skip_in_back(s: Seq<char>, j: int, cs: Seq<char>) -> int
    decreases j,
{
    if !(0 < j <= s.len()) {
        0
    } else if cs.contains(s[j - 1]) {
        skip_in_back(s, j - 1, cs)
    } else {
        j
    }
}

pub open spec fn trim_start_in_spec(s: Seq<char>, cs: Seq<char>) -> Seq<char> {
    s.subrange(skip_in_from(s, 0, cs), s.len() as int)
}

pub open spec fn trim_end_in_spec(s: Seq<char>, cs: Seq<char>) -> Seq<char> {
    s.subrange(0, skip_in_back(s, s.len() as int, cs))
}

/// Both-ends trim by a set, as `str::trim_matches` does.
pub open spec fn trim_in_spec(s: Seq<char>, cs: Seq<char>) -> Seq<char> {
    trim_end_in_spec(trim_start_in_spec(s, cs), cs)
}

pub fn char_in_set(c: char, set: &Vec<char>) -> (r: bool)
    ensures
        r == set@.contains(c),
{
    let mut i: usize = 0;
    while i < set.len()
        invariant
            0 <= i <= set@.len(),
            forall|m: int| 0 <= m < i ==> set@[m] != c,
        decreases set@.len() - i,
    {
        if set[i] == c {
            return true;
        }
        i = i + 1;
    }
    false
}

pub fn trim_start_in(v: &Vec<char>, set: &Vec<char>) -> (r: Vec<char>)
    ensures
        r@ == trim_start_in_spec(v@, set@),
{
    let mut i: usize = 0;
    while i < v.len() && char_in_set(v[i], set)
        invariant
            0 <= i <= v@.len(),
            skip_in_from(v@, 0, set@) == skip_in_from(v@, i as int, set@),
        decreases v@.len() - i,
    {
        i = i + 1;
    }
    subvec(v, i, v.len())
}

pub fn trim_end_in(v: &Vec<char>, set: &Vec<char>) -> (r: Vec<char>)
    ensures
        r@ == trim_end_in_spec(v@, set@),
{
    let mut j: usize = v.len();
    while j > 0 && char_in_set(v[j - 1], set)
        invariant
            0 <= j <= v@.len(),
            skip_in_back(v@, v@.len() as int, set@) == skip_in_back(v@, j as int, set@),
        decreases j,
    {
        j = j - 1;
    }
    subvec(v, 0, j)
}

pub fn trim_in(v: &Vec<char>, set: &Vec<char>) -> (r: Vec<char>)
    ensures
        r@ == trim_in_spec(v@, set@),
{
    let s = trim_start_in(v, set);
    trim_end_in(&s, set)
}

// ---- joining and splitting lines ----

pub open spec fn join_lines(ls: Seq<Seq<char>>) -> Seq<char>
    decreases ls.len(),
{
    if ls.len() == 0 {
        Seq::empty()
    } else if ls.len() == 1 {
        ls[0]
    } else {
        ls[0] + seq!['\n'] + join_lines(ls.drop_first())
    }
}

pub proof fn lemma_join_lines_push(ls: Seq<Seq<char>>, x: Seq<char>)
    ensures
        join_lines(ls.push(x)) == if ls.len() == 0 {
            x
        } else {
            join_lines(ls) + seq!['\n'] + x
        },
    decreases ls.len(),
{
    if ls.len() == 0 {
        assert(ls.push(x).len() == 1);
        assert(ls.push(x)[0] == x);
    } else {
        assert(ls.push(x).drop_first() =~= ls.drop_first().push(x));
        lemma_join_lines_push(ls.drop_first(), x);
        if ls.len() == 1 {
            assert(join_lines(ls) == ls[0]);
            assert(join_lines(ls.push(x)) == ls.push(x)[0] + seq!['\n'] + join_lines(
                ls.push(x).drop_first(),
            ));
            assert(ls.push(x)[0] == ls[0]);
        } else {
            assert(join_lines(ls.push(x)) == ls[0] + seq!['\n'] + join_lines(
                ls.drop_first().push(x),
            ));
            assert(ls[0] + seq!['\n'] + (join_lines(ls.drop_first()) + seq!['\n'] + x) =~= (ls[0]
                + seq!['\n'] + join_lines(ls.drop_first())) + seq!['\n'] + x);
        }
    }
}

pub fn join_with_newlines(ls: &Vec<Vec<char>>) -> (r: Vec<char>)
    ensures
        r@ == join_lines(ls.deep_view()),
{
    let mut out: Vec<char> = Vec::new();
    let mut i: usize = 0;
    while i < ls.len()
        invariant
            0 <= i <= ls@.len(),
            out@ == join_lines(ls.deep_view().take(i as int)),
        decreases ls@.len() - i,
    {
        if i > 0 {
            out.push('\n');
        }
        let mut j: usize = 0;
        let line = &ls[i];
        while j < line.len()
            invariant
                0 <= j <= line@.len(),
                line@ == ls.deep_view()[i as int],
                i < ls.deep_view().len(),
                out@ == if i == 0 {
                    line@.take(j as int)
                } else {
                    join_lines(ls.deep_view().take(i as int)) + seq!['\n'] + line@.take(j as int)
                },
            decreases line@.len() - j,
        {
            out.push(line[j]);
            assert(line@.take(j + 1) =~= line@.take(j as int).push(line@[j as int]));
            j = j + 1;
        }
        proof {
            lemma_join_lines_push(ls.deep_view().take(i as int), line@);
            assert(ls.deep_view().take(i as int).push(line@) =~= ls.deep_view().take(i + 1));
            assert(line@.take(line@.len() as int) =~= line@);
        }
        i = i + 1;
    }
    proof {
        assert(ls.deep_view().take(ls.deep_view().len() as int) =~= ls.deep_view());
    }
    out
}

/// Drop one trailing carriage return, as `str::lines` does on each line.
pub open spec fn strip_cr(l: Seq<char>) -> Seq<char> {
    if l.len() > 0 && l.last() == '\r' {
        l.drop_last()
    } else {
        l
    }
}

/// The lines of `s` from position `i` on, split at newlines.
pub open spec fn split_lines_from(s: Seq<char>, i: int) -> Seq<Seq<char>>
    decreases s.len() - i,
        via split_lines_from_dec
{
    if !(0 <= i < s.len()) {
        Seq::empty()
    } else {
        let p = find_char_from(s, i, '\n');
        if p == s.len() {
            seq![strip_cr(s.subrange(i, p))]
        } else {
            seq![strip_cr(s.subrange(i, p))] + split_lines_from(s, p + 1)
        }
    }
}

#[via_fn]
proof fn split_lines_from_dec(s: Seq<char>, i: int) {
    if 0 <= i < s.len() {
        lemma_find_char_from(s, i, '\n');
    }
}

/// What `str::lines` yields: lines split at `\n`, trailing `\r` stripped,
/// with no final empty line.
pub open spec fn split_lines_spec(s: Seq<char>) -> Seq<Seq<char>> {
    split_lines_from(s, 0)
}

pub fn split_lines(v: &Vec<char>) -> (r: Vec<Vec<char>>)
    ensures
        r.deep_view() == split_lines_spec(v@),
{
    let mut out: Vec<Vec<char>> = Vec::new();
    let mut i: usize = 0;
    while i < v.len()
        invariant
            0 <= i <= v@.len(),
            split_lines_spec(v@) == out.deep_view() + split_lines_from(v@, i as int),
        decreases v@.len() - i,
    {
        proof {
            lemma_find_char_from(v@, i as int, '\n');
        }
        let p = find_char(v, i, '\n');
        let mut line = subvec(v, i, p);
        if line.len() > 0 && line[line.len() - 1] == '\r' {
            line.pop();
            assert(line@ =~= strip_cr(v@.subrange(i as int, p as int)));
        }
        assert(line@ == strip_cr(v@.subrange(i as int, p as int)));
        let ghost dv0 = out.deep_view();
        let ghost lv = line@;
        out.push(line);
        proof {
            assert(out.deep_view() =~~= dv0.push(lv));
        }
        if p == v.len() {
            proof {
                assert(split_lines_from(v@, i as int) == seq![lv]);
                assert(dv0 + seq![lv] =~= dv0.push(lv));
            }
            i = p;
        } else {
            proof {
                assert(split_lines_from(v@, i as int) == seq![lv] + split_lines_from(v@, p + 1));
                assert(dv0 + (seq![lv] + split_lines_from(v@, p + 1)) =~= dv0.push(lv)
                    + split_lines_from(v@, p + 1));
            }
            i = p + 1;
        }
    }
    proof {
        assert(split_lines_from(v@, i as int) =~= Seq::<Seq<char>>::empty());
        assert(split_lines_spec(v@) =~= out.deep_view());
    }
    out
}

// ---- conversions between String and Vec<char> ----

pub fn str_to_chars(s: &str) -> (r: Vec<char>)
    ensures
        r@ == s@,
{
    let n = s.unicode_len();
    let mut v: Vec<char> = Vec::new();
    let mut i: usize = 0;
    while i < n
        invariant
            0 <= i <= n,
            n == s@.len(),
            v@ == s@.take(i as int),
        decreases n - i,
    {
        v.push(s.get_char(i));
        assert(v@ =~= s@.take(i + 1));
        i = i + 1;
    }
    proof {
        assert(s@.take(n as int) =~= s@);
    }
    v
}

/// A vector of characters views deeply as its plain view.
pub broadcast proof fn lemma_chars_deep_view(v: Vec<char>)
    ensures
        #[trigger] v.deep_view() == v@,
{
    assert(v.deep_view() =~= v@);
}

/// Relies on `String`'s `FromIterator<char>`: collecting characters yields
/// the string holding exactly those characters in order.
#[verifier::external_body]
pub fn chars_to_string(v: &Vec<char>) -> (r: String)
    ensures
        r@ == v@,
{
    v.iter().collect()
}

} // verus!
