//! A verified parser for plain-text screenplay markup: it turns a document
//! into a typed element tree plus a title-page metadata map, with the whole
//! pipeline (normalization, line grouping, classification, metadata
//! extraction, inline styling) specified and proved.
pub mod classify;
pub mod hunks;
pub mod metadata;
pub mod normalize;
pub mod styling;
pub mod text;
pub mod unicode;

use vstd::prelude::*;

verus! {

broadcast use vstd::std_specs::vec::group_vec_axioms;

// ---------------------------------------------------------------------------
// Public data model
// ---------------------------------------------------------------------------

/// Style flags that a run of screenplay text may carry.
#[derive(Clone, Copy, Debug, PartialEq, Eq, Structural)]
pub struct StyleSet {
    pub bold: bool,
    pub italic: bool,
    pub underline: bool,
}

impl StyleSet {
    /// The style set with no styles active.
    pub fn none() -> (r: StyleSet)
        ensures
            r == style_none(),
    {
        StyleSet { bold: false, italic: false, underline: false }
    }
}

/// The empty style set.
pub open spec fn style_none() -> StyleSet {
    StyleSet { bold: false, italic: false, underline: false }
}

/// One stretch of text under a fixed set of styles.
#[derive(Clone, Debug)]
pub struct TextRun {
    pub content: String,
    pub text_style: StyleSet,
}

/// The text payload of an element: untouched, or decomposed into styled runs.
#[derive(Clone, Debug)]
pub enum ElementText {
    Plain(String),
    Styled(Vec<TextRun>),
}

/// Flags and annotations attached to an element.
#[derive(Clone, Debug)]
pub struct Attributes {
    pub centered: bool,
    pub starts_new_page: bool,
    pub scene_number: Option<String>,
    pub notes: Option<Vec<String>>,
}

impl Default for Attributes {
    fn default() -> (r: Attributes)
        ensures
            attr_view(r) == blank_attr(),
    {
        Attributes { centered: false, starts_new_page: false, scene_number: None, notes: None }
    }
}

/// One typed element of the parsed document.
#[derive(Debug)]
pub enum Element {
    Action(ElementText, Attributes),
    Character(ElementText, Attributes),
    SceneHeading(ElementText, Attributes),
    Lyric(ElementText, Attributes),
    Parenthetical(ElementText, Attributes),
    Dialogue(ElementText, Attributes),
    DialogueBlock(Vec<Element>),
    DualDialogueBlock(Vec<Element>),
    Transition(ElementText, Attributes),
    Section(ElementText, Attributes, u8),
    Synopsis(ElementText),
    ColdOpening(ElementText, Attributes),
    NewAct(ElementText, Attributes),
    EndOfAct(ElementText, Attributes),
    PageBreak,
}

/// The title-page metadata: an insertion-ordered map from lower-cased keys
/// to the list of values that appeared under each key.
#[derive(Clone, Debug, PartialEq)]
pub struct Metadata {
    pub entries: Vec<(String, Vec<String>)>,
}

/// A parsed screenplay: its metadata and its elements, in document order.
#[derive(Debug, PartialEq)]
pub struct Screenplay {
    pub metadata: Metadata,
    pub elements: Vec<Element>,
}

// ---------------------------------------------------------------------------
// Mathematical views of the data model
// ---------------------------------------------------------------------------

/// The mathematical view of a text run.
pub struct RunV {
    pub content: Seq<char>,
    pub style: StyleSet,
}

/// The mathematical view of an element's text.
pub enum TextV {
    Plain(Seq<char>),
    Styled(Seq<RunV>),
}

/// The mathematical view of an element's attributes.
pub struct AttrV {
    pub centered: bool,
    pub starts_new_page: bool,
    pub scene_number: Option<Seq<char>>,
    pub notes: Option<Seq<Seq<char>>>,
}

/// The mathematical view of an element: the same tree over sequences.
pub enum ElemV {
    Action(TextV, AttrV),
    Character(TextV, AttrV),
    SceneHeading(TextV, AttrV),
    Lyric(TextV, AttrV),
    Parenthetical(TextV, AttrV),
    Dialogue(TextV, AttrV),
    DialogueBlock(Seq<ElemV>),
    DualDialogueBlock(Seq<ElemV>),
    Transition(TextV, AttrV),
    Section(TextV, AttrV, u8),
    Synopsis(TextV),
    ColdOpening(TextV, AttrV),
    NewAct(TextV, AttrV),
    EndOfAct(TextV, AttrV),
    PageBreak,
}

/// The mathematical view of the metadata map: key/values pairs in insertion order.
pub type MetaV = Seq<(Seq<char>, Seq<Seq<char>>)>;

pub open spec fn blank_attr() -> AttrV {
    AttrV { centered: false, starts_new_page: false, scene_number: None, notes: None }
}

pub open spec fn strings_view(v: Vec<String>) -> Seq<Seq<char>> {
    Seq::new(v@.len(), |i: int| v@[i]@)
}

pub open spec fn attr_view(a: Attributes) -> AttrV {
    AttrV {
        centered: a.centered,
        starts_new_page: a.starts_new_page,
        scene_number: match a.scene_number {
            Some(s) => Some(s@),
            None => None,
        },
        notes: match a.notes {
            Some(v) => Some(strings_view(v)),
            None => None,
        },
    }
}

pub open spec fn run_view(r: TextRun) -> RunV {
    RunV { content: r.content@, style: r.text_style }
}

pub open spec fn runs_view(v: Vec<TextRun>) -> Seq<RunV> {
    Seq::new(v@.len(), |i: int| run_view(v@[i]))
}

pub open spec fn text_view(t: ElementText) -> TextV {
    match t {
        ElementText::Plain(s) => TextV::Plain(s@),
        ElementText::Styled(v) => TextV::Styled(runs_view(v)),
    }
}

pub open spec fn elem_view(e: Element) -> ElemV
    decreases e,
{
    match e {
        Element::Action(t, a) => ElemV::Action(text_view(t), attr_view(a)),
        Element::Character(t, a) => ElemV::Character(text_view(t), attr_view(a)),
        Element::SceneHeading(t, a) => ElemV::SceneHeading(text_view(t), attr_view(a)),
        Element::Lyric(t, a) => ElemV::Lyric(text_view(t), attr_view(a)),
        Element::Parenthetical(t, a) => ElemV::Parenthetical(text_view(t), attr_view(a)),
        Element::Dialogue(t, a) => ElemV::Dialogue(text_view(t), attr_view(a)),
        Element::DialogueBlock(v) => ElemV::DialogueBlock(elems_view(v@)),
        Element::DualDialogueBlock(v) => ElemV::DualDialogueBlock(elems_view(v@)),
        Element::Transition(t, a) => ElemV::Transition(text_view(t), attr_view(a)),
        Element::Section(t, a, lvl) => ElemV::Section(text_view(t), attr_view(a), lvl),
        Element::Synopsis(t) => ElemV::Synopsis(text_view(t)),
        Element::ColdOpening(t, a) => ElemV::ColdOpening(text_view(t), attr_view(a)),
        Element::NewAct(t, a) => ElemV::NewAct(text_view(t), attr_view(a)),
        Element::EndOfAct(t, a) => ElemV::EndOfAct(text_view(t), attr_view(a)),
        Element::PageBreak => ElemV::PageBreak,
    }
}

pub open spec fn elems_view(s: Seq<Element>) -> Seq<ElemV>
    decreases s,
{
    if s.len() == 0 {
        Seq::empty()
    } else {
        seq![elem_view(s[0])] + elems_view(s.subrange(1, s.len() as int))
    }
}

pub broadcast proof fn lemma_elems_view(s: Seq<Element>)
    ensures
        (#[trigger] elems_view(s)).len() == s.len(),
        forall|i: int| 0 <= i < s.len() ==> elems_view(s)[i] == elem_view(s[i]),
    decreases s,
{
    if s.len() > 0 {
        lemma_elems_view(s.subrange(1, s.len() as int));
    }
}

pub open spec fn vals_view(v: Vec<String>) -> Seq<Seq<char>> {
    strings_view(v)
}


impl Metadata {
    pub open spec fn view(&self) -> MetaV {
        Seq::new(self.entries@.len(), |i: int| (self.entries@[i].0@, vals_view(self.entries@[i].1)))
    }

    pub fn new() -> (r: Metadata)
        ensures
            r@ == Seq::<(Seq<char>, Seq<Seq<char>>)>::empty(),
    {
        let r = Metadata { entries: Vec::new() };
        proof {
            assert(r@ =~= Seq::<(Seq<char>, Seq<Seq<char>>)>::empty());
        }
        r
    }

    /// Index of `key` among the entries, or the number of entries if absent.
    fn find_key(&self, key: &String) -> (r: usize)
        ensures
            r == meta_find(self@, key@),
            r <= self@.len(),
    {
        let ghost m0 = self@;
        let mut i: usize = 0;
        while i < self.entries.len()
            invariant
                0 <= i <= self.entries@.len(),
                self@ == m0,
                meta_find(m0, key@) == meta_find_from(m0, key@, i as int),
            decreases self.entries@.len() - i,
        {
            if self.entries[i].0.eq(key) {
                proof {
                    assert(m0[i as int].0 == key@);
                }
                return i;
            }
            i = i + 1;
        }
        i
    }

    /// Bind `key` to `values`, replacing in place any earlier binding of the key.
    #[verifier::rlimit(100)]
    #[verifier::spinoff_prover]
    pub fn insert(&mut self, key: String, values: Vec<String>) -> (nothing: ())
        ensures
            final(self)@ == meta_insert(old(self)@, key@, strings_view(values)),
    {
        let ghost m0 = self@;
        let ghost kv = key@;
        let ghost vv = strings_view(values);
        let i = self.find_key(&key);
        proof {
            lemma_meta_find_from(m0, kv, 0);
        }
        if i < self.entries.len() {
            let ghost ev0 = self.entries@;
            let ghost xe = (key, values);
            self.entries.remove(i);
            self.entries.insert(i, (key, values));
            proof {
                let rhs = m0.update(i as int, (m0[i as int].0, vv));
                assert(self.entries@ == ev0.remove(i as int).insert(i as int, xe));
                ev0.remove_ensures(i as int);
                ev0.remove(i as int).insert_ensures(i as int, xe);
                assert forall|j: int| 0 <= j < rhs.len() implies self@[j] == rhs[j] by {
                    if j < i {
                        assert(self.entries@[j] == ev0[j]);
                    } else if j == i {
                        assert(self.entries@[j] == xe);
                        assert(m0[i as int].0 == kv);
                    } else {
                        assert(ev0.remove(i as int).insert(i as int, xe)[j] == ev0.remove(
                            i as int,
                        )[j - 1]);
                        assert(ev0.remove(i as int)[j - 1] == ev0[j]);
                    }
                    assert(m0[j] == (ev0[j].0@, vals_view(ev0[j].1)));
                }
                assert(self@ =~= rhs);
                assert(self@ == meta_insert(m0, kv, vv));
            }
        } else {
            self.entries.push((key, values));
            proof {
                assert(meta_find(m0, kv) == m0.len());
                assert forall|j: int| 0 <= j < m0.push((kv, vv)).len() implies self@[j] == m0.push(
                    (kv, vv),
                )[j] by {
                    assert(m0[j] == m0[j]);
                }
                assert(self@ =~= m0.push((kv, vv)));
                assert(self@ == meta_insert(m0, kv, vv));
            }
        }
    }

    /// Append one value to the list bound to `key`; do nothing if the key is absent.
    #[verifier::rlimit(100)]
    #[verifier::spinoff_prover]
    pub fn append_value(&mut self, key: &String, value: String) -> (nothing: ())
        ensures
            final(self)@ == meta_append(old(self)@, key@, value@),
    {
        let ghost m0 = self@;
        let ghost kv = key@;
        let ghost valv = value@;
        let i = self.find_key(key);
        proof {
            lemma_meta_find_from(m0, kv, 0);
        }
        if i < self.entries.len() {
            let ghost ev0 = self.entries@;
            let e = self.entries.remove(i);
            let (k0, mut vlist) = e;
            let ghost vs = vals_view(vlist);
            proof {
                assert(vs == m0[i as int].1);
                assert(k0@ == m0[i as int].0);
            }
            vlist.push(value);
            proof {
                assert(vals_view(vlist) =~= vs.push(valv));
            }
            let ghost xe = (k0, vlist);
            self.entries.insert(i, (k0, vlist));
            proof {
                let rhs = m0.update(i as int, (m0[i as int].0, m0[i as int].1.push(valv)));
                assert(self.entries@ == ev0.remove(i as int).insert(i as int, xe));
                ev0.remove_ensures(i as int);
                ev0.remove(i as int).insert_ensures(i as int, xe);
                assert forall|j: int| 0 <= j < rhs.len() implies self@[j] == rhs[j] by {
                    if j < i {
                        assert(self.entries@[j] == ev0[j]);
                    } else if j == i {
                        assert(self.entries@[j] == xe);
                    } else {
                        assert(ev0.remove(i as int).insert(i as int, xe)[j] == ev0.remove(
                            i as int,
                        )[j - 1]);
                        assert(ev0.remove(i as int)[j - 1] == ev0[j]);
                    }
                    assert(m0[j] == (ev0[j].0@, vals_view(ev0[j].1)));
                }
                assert(self@ =~= rhs);
                assert(self@ == meta_append(m0, kv, valv));
            }
        }
    }

    /// The number of keys in the map.
    pub fn len(&self) -> (r: usize)
        ensures
            r == self@.len(),
    {
        self.entries.len()
    }
}

/// Index of `key` in the map, or the map's length if the key is absent,
/// scanning from position `i`.
pub open spec fn meta_find_from(m: MetaV, key: Seq<char>, i: int) -> int
    decreases m.len() - i,
{
    if !(0 <= i < m.len()) {
        m.len() as int
    } else if m[i].0 == key {
        i
    } else {
        meta_find_from(m, key, i + 1)
    }
}

pub open spec fn meta_find(m: MetaV, key: Seq<char>) -> int {
    meta_find_from(m, key, 0)
}

pub proof fn lemma_meta_find_from(m: MetaV, key: Seq<char>, i: int)
    requires
        0 <= i <= m.len(),
    ensures
        i <= meta_find_from(m, key, i) <= m.len(),
        meta_find_from(m, key, i) < m.len() ==> m[meta_find_from(m, key, i)].0 == key,
    decreases m.len() - i,
{
    if i < m.len() && m[i].0 != key {
        lemma_meta_find_from(m, key, i + 1);
    }
}

pub open spec fn meta_insert(m: MetaV, key: Seq<char>, values: Seq<Seq<char>>) -> MetaV {
    let i = meta_find(m, key);
    if i < m.len() {
        m.update(i, (m[i].0, values))
    } else {
        m.push((key, values))
    }
}

pub open spec fn meta_append(m: MetaV, key: Seq<char>, value: Seq<char>) -> MetaV {
    let i = meta_find(m, key);
    if i < m.len() {
        m.update(i, (m[i].0, m[i].1.push(value)))
    } else {
        m
    }
}

// ---------------------------------------------------------------------------
// Small public constructors
// ---------------------------------------------------------------------------

/// Wrap a string slice as plain element text.
pub fn p(t: &str) -> (r: ElementText)
    ensures
        text_view(r) == TextV::Plain(t@),
{
    ElementText::Plain(t.to_owned())
}

/// Spec-level membership of a style name in a list of names.
pub open spec fn names_has(ss: Seq<&str>, p: Seq<char>) -> bool {
    exists|i: int| 0 <= i < ss.len() && ss[i]@ == p
}

/// Build a text run from its content and a list of style names.
pub fn tr(t: &str, s: Vec<&str>) -> (r: TextRun)
    ensures
        run_view(r) == (RunV {
            content: t@,
            style: StyleSet {
                bold: names_has(s@, "Bold"@),
                italic: names_has(s@, "Italic"@),
                underline: names_has(s@, "Underline"@),
            },
        }),
{
    let mut st = StyleSet::none();
    let mut i: usize = 0;
    while i < s.len()
        invariant
            0 <= i <= s@.len(),
            st.bold == (exists|m: int| 0 <= m < i && s@[m]@ == "Bold"@),
            st.italic == (exists|m: int| 0 <= m < i && s@[m]@ == "Italic"@),
            st.underline == (exists|m: int| 0 <= m < i && s@[m]@ == "Underline"@),
        decreases s@.len() - i,
    {
        let name = text::str_to_chars(s[i]);
        if text::eq_lit(&name, "Bold") {
            st.bold = true;
        }
        if text::eq_lit(&name, "Italic") {
            st.italic = true;
        }
        if text::eq_lit(&name, "Underline") {
            st.underline = true;
        }
        i = i + 1;
    }
    TextRun { content: t.to_owned(), text_style: st }
}

/// A fresh all-default attribute record.
pub fn blank_attributes() -> (r: Attributes)
    ensures
        attr_view(r) == blank_attr(),
{
    Attributes::default()
}

/// Spec-level name of each element kind.
pub open spec fn name_spec(e: ElemV) -> Seq<char> {
    match e {
        ElemV::Action(..) => "Action"@,
        ElemV::Character(..) => "Character"@,
        ElemV::SceneHeading(..) => "Scene Heading"@,
        ElemV::Lyric(..) => "Lyric"@,
        ElemV::Parenthetical(..) => "Parenthetical"@,
        ElemV::Dialogue(..) => "Dialogue"@,
        ElemV::DialogueBlock(..) => "Dialogue Block"@,
        ElemV::DualDialogueBlock(..) => "Dual Dialogue Block"@,
        ElemV::Transition(..) => "Transition"@,
        ElemV::Section(..) => "Section"@,
        ElemV::Synopsis(..) => "Synopsis"@,
        ElemV::ColdOpening(..) => "Cold Opening"@,
        ElemV::NewAct(..) => "New Act"@,
        ElemV::EndOfAct(..) => "End of Act"@,
        ElemV::PageBreak => "Page Break"@,
    }
}

// ---------------------------------------------------------------------------
// Equality: hand-written so that `==` provably means equality of views
// ---------------------------------------------------------------------------

impl vstd::std_specs::cmp::PartialEqSpecImpl for TextRun {
    open spec fn obeys_eq_spec() -> bool {
        true
    }

    open spec fn eq_spec(&self, other: &TextRun) -> bool {
        run_view(*self) == run_view(*other)
    }
}

impl PartialEq for TextRun {
    fn eq(&self, other: &TextRun) -> (r: bool) {
        self.content.eq(&other.content) && self.text_style == other.text_style
    }
}

impl vstd::std_specs::cmp::PartialEqSpecImpl for ElementText {
    open spec fn obeys_eq_spec() -> bool {
        true
    }

    open spec fn eq_spec(&self, other: &ElementText) -> bool {
        text_view(*self) == text_view(*other)
    }
}

impl PartialEq for ElementText {
    fn eq(&self, other: &ElementText) -> (r: bool) {
        match (self, other) {
            (ElementText::Plain(a), ElementText::Plain(b)) => a.eq(b),
            (ElementText::Styled(a), ElementText::Styled(b)) => eq_text_runs(a, b),
            _ => false,
        }
    }
}

fn eq_text_runs(a: &Vec<TextRun>, b: &Vec<TextRun>) -> (r: bool)
    ensures
        r == (runs_view(*a) == runs_view(*b)),
{
    if a.len() != b.len() {
        proof {
            assert(runs_view(*a).len() != runs_view(*b).len());
        }
        return false;
    }
    let mut i: usize = 0;
    while i < a.len()
        invariant
            0 <= i <= a@.len(),
            a@.len() == b@.len(),
            forall|m: int| 0 <= m < i ==> run_view(a@[m]) == run_view(b@[m]),
        decreases a@.len() - i,
    {
        if !a[i].eq(&b[i]) {
            proof {
                assert(runs_view(*a)[i as int] != runs_view(*b)[i as int]);
            }
            return false;
        }
        i = i + 1;
    }
    proof {
        assert(runs_view(*a) =~= runs_view(*b));
    }
    true
}

impl vstd::std_specs::cmp::PartialEqSpecImpl for Attributes {
    open spec fn obeys_eq_spec() -> bool {
        true
    }

    open spec fn eq_spec(&self, other: &Attributes) -> bool {
        attr_view(*self) == attr_view(*other)
    }
}

fn eq_string_vecs(a: &Vec<String>, b: &Vec<String>) -> (r: bool)
    ensures
        r == (strings_view(*a) == strings_view(*b)),
{
    if a.len() != b.len() {
        proof {
            assert(strings_view(*a).len() != strings_view(*b).len());
        }
        return false;
    }
    let mut i: usize = 0;
    while i < a.len()
        invariant
            0 <= i <= a@.len(),
            a@.len() == b@.len(),
            forall|m: int| 0 <= m < i ==> #[trigger] a@[m]@ == b@[m]@,
        decreases a@.len() - i,
    {
        if !a[i].eq(&b[i]) {
            proof {
                assert(strings_view(*a)[i as int] != strings_view(*b)[i as int]);
            }
            return false;
        }
        i = i + 1;
    }
    proof {
        assert(strings_view(*a) =~= strings_view(*b));
    }
    true
}

impl PartialEq for Attributes {
    fn eq(&self, other: &Attributes) -> (r: bool) {
        let flags = self.centered == other.centered && self.starts_new_page
            == other.starts_new_page;
        let sn = match (&self.scene_number, &other.scene_number) {
            (None, None) => true,
            (Some(a), Some(b)) => a.eq(b),
            _ => false,
        };
        let nt = match (&self.notes, &other.notes) {
            (None, None) => true,
            (Some(a), Some(b)) => eq_string_vecs(a, b),
            _ => false,
        };
        flags && sn && nt
    }
}

impl vstd::std_specs::cmp::PartialEqSpecImpl for Element {
    open spec fn obeys_eq_spec() -> bool {
        true
    }

    open spec fn eq_spec(&self, other: &Element) -> bool {
        elem_view(*self) == elem_view(*other)
    }
}

fn eq_elements(a: &Vec<Element>, b: &Vec<Element>) -> (r: bool)
    ensures
        r == (elems_view(a@) == elems_view(b@)),
    decreases a@,
{
    proof {
        lemma_elems_view(a@);
        lemma_elems_view(b@);
    }
    if a.len() != b.len() {
        return false;
    }
    let mut i: usize = 0;
    while i < a.len()
        invariant
            0 <= i <= a@.len(),
            a@.len() == b@.len(),
            forall|m: int| 0 <= m < i ==> elem_view(a@[m]) == elem_view(b@[m]),
        decreases a@.len() - i,
    {
        if !a[i].eq(&b[i]) {
            proof {
                lemma_elems_view(a@);
                lemma_elems_view(b@);
                assert(elem_view(a@[i as int]) != elem_view(b@[i as int]));
                assert(elems_view(a@)[i as int] != elems_view(b@)[i as int]);
            }
            return false;
        }
        i = i + 1;
    }
    proof {
        assert(elems_view(a@) =~= elems_view(b@));
    }
    true
}

impl PartialEq for Element {
    fn eq(&self, other: &Element) -> (r: bool)
        decreases *self,
    {
        match (self, other) {
            (Element::Action(t1, a1), Element::Action(t2, a2)) => t1.eq(t2) && a1.eq(a2),
            (Element::Character(t1, a1), Element::Character(t2, a2)) => t1.eq(t2) && a1.eq(a2),
            (Element::SceneHeading(t1, a1), Element::SceneHeading(t2, a2)) => t1.eq(t2) && a1.eq(
                a2,
            ),
            (Element::Lyric(t1, a1), Element::Lyric(t2, a2)) => t1.eq(t2) && a1.eq(a2),
            (Element::Parenthetical(t1, a1), Element::Parenthetical(t2, a2)) => t1.eq(t2) && a1.eq(
                a2,
            ),
            (Element::Dialogue(t1, a1), Element::Dialogue(t2, a2)) => t1.eq(t2) && a1.eq(a2),
            (Element::DialogueBlock(v1), Element::DialogueBlock(v2)) => eq_elements(v1, v2),
            (Element::DualDialogueBlock(v1), Element::DualDialogueBlock(v2)) => eq_elements(
                v1,
                v2,
            ),
            (Element::Transition(t1, a1), Element::Transition(t2, a2)) => t1.eq(t2) && a1.eq(a2),
            (Element::Section(t1, a1, l1), Element::Section(t2, a2, l2)) => t1.eq(t2) && a1.eq(a2)
                && l1 == l2,
            (Element::Synopsis(t1), Element::Synopsis(t2)) => t1.eq(t2),
            (Element::ColdOpening(t1, a1), Element::ColdOpening(t2, a2)) => t1.eq(t2) && a1.eq(a2),
            (Element::NewAct(t1, a1), Element::NewAct(t2, a2)) => t1.eq(t2) && a1.eq(a2),
            (Element::EndOfAct(t1, a1), Element::EndOfAct(t2, a2)) => t1.eq(t2) && a1.eq(a2),
            (Element::PageBreak, Element::PageBreak) => true,
            _ => false,
        }
    }
}

// ---------------------------------------------------------------------------
// The parser
// ---------------------------------------------------------------------------

/// The classified elements of a document, before metadata extraction and
/// inline styling.
pub open spec fn classified_elems(text: Seq<char>) -> Seq<ElemV> {
    crate::classify::hunks_to_elements_spec(
        crate::hunks::lines_to_hunks_spec(
            crate::text::split_lines_spec(crate::normalize::prepare_text_spec(text)),
        ),
    )
}

/// Whether the first classified element is a title-page block: a plain
/// action opening with a `key: value` line.
pub open spec fn takes_metadata(elems: Seq<ElemV>) -> bool {
    elems.len() > 0 && (elems[0] matches ElemV::Action(TextV::Plain(txt), _)
        && crate::metadata::has_key_value_spec(txt))
}

/// The metadata a document parses to.
pub open spec fn parse_metadata_spec(text: Seq<char>) -> MetaV {
    let e = classified_elems(text);
    if takes_metadata(e) {
        crate::metadata::process_metadata_spec(
            Seq::empty(),
            e[0]->Action_0->Plain_0,
        )
    } else {
        Seq::empty()
    }
}

/// The elements a document parses to: the classified elements, less the
/// title-page block, with inline styling applied.
pub open spec fn parse_elements_spec(text: Seq<char>) -> Seq<ElemV> {
    let e = classified_elems(text);
    crate::styling::style_elems_spec(
        if takes_metadata(e) {
            e.subrange(1, e.len() as int)
        } else {
            e
        },
    )
}

/// Parse a whole document: normalize it, group its lines into hunks,
/// classify each hunk, extract the title page, and style the text.
pub fn parse(text: &str) -> (r: Screenplay)
    ensures
        r.metadata@ == parse_metadata_spec(text@),
        elems_view(r.elements@) == parse_elements_spec(text@),
{
    let prepared = crate::normalize::prepare_text(text);
    let chars = crate::text::str_to_chars(prepared.as_str());
    let lines = crate::text::split_lines(&chars);
    let hunks = crate::hunks::hunks_of_lines(&lines);
    let mut elements = crate::classify::hunks_to_elements_chars(&hunks);
    let ghost ce = classified_elems(text@);
    proof {
        lemma_elems_view(elements@);
        assert(elems_view(elements@) == ce);
    }
    let mut metadata = Metadata::new();
    let is_meta = if elements.len() > 0 {
        match &elements[0] {
            Element::Action(ElementText::Plain(txt), _) => crate::metadata::has_key_value(
                txt.as_str(),
            ),
            _ => false,
        }
    } else {
        false
    };
    proof {
        assert(is_meta == takes_metadata(ce));
    }
    if is_meta {
        let ghost e0 = elements@;
        let first = elements.remove(0);
        proof {
            assert(elem_view(first) == ce[0]);
            lemma_elems_view(elements@);
            lemma_elems_view(e0);
            assert(elems_view(elements@) =~= ce.subrange(1, ce.len() as int));
        }
        match first {
            Element::Action(ElementText::Plain(txt), _) => {
                proof {
                    assert(txt@ == ce[0]->Action_0->Plain_0);
                }
                crate::metadata::process_metadata(&mut metadata, txt.as_str());
            },
            _ => {
                proof {
                    assert(false);
                }
            },
        }
    }
    let styled = crate::styling::style_children(elements);
    Screenplay { metadata, elements: styled }
}

impl Element {
    /// The display name of this element's kind.
    pub fn name(&self) -> (r: &str)
        ensures
            r@ == name_spec(elem_view(*self)),
    {
        match *self {
            Element::Action(..) => "Action",
            Element::Character(..) => "Character",
            Element::SceneHeading(..) => "Scene Heading",
            Element::Lyric(..) => "Lyric",
            Element::Parenthetical(..) => "Parenthetical",
            Element::Dialogue(..) => "Dialogue",
            Element::DialogueBlock(..) => "Dialogue Block",
            Element::DualDialogueBlock(..) => "Dual Dialogue Block",
            Element::Transition(..) => "Transition",
            Element::Section(..) => "Section",
            Element::Synopsis(..) => "Synopsis",
            Element::ColdOpening(..) => "Cold Opening",
            Element::NewAct(..) => "New Act",
            Element::EndOfAct(..) => "End of Act",
            Element::PageBreak => "Page Break",
        }
    }
}

} // verus!
