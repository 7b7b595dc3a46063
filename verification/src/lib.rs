//! A typed document markup model: a validated tree of sections, paragraphs,
//! lists, links, navigation, tables and code blocks, each carrying optional
//! metadata (tags and key/value properties), together with the tree
//! algorithms that normalize it: metadata absorption, run squashing,
//! error/emptiness pruning, table-of-contents derivation, parsing from
//! source text and serialization back to it.

pub mod actions;
pub mod output;
pub mod parsing;
pub mod reference_doc;
pub mod syntax;
pub mod toc;

use vstd::prelude::*;

verus! {

// ---------------------------------------------------------------------------
// Primitive value layer
// ---------------------------------------------------------------------------

/// Simple date: it is not checked if it actually exists on the calendar.
#[derive(Clone, Copy, Debug, PartialEq, Eq, Structural)]
pub struct Date {
    pub year: i16,
    pub month: u8,
    pub day: u8,
}

/// Error for a date whose numbers are out of range or malformed.
#[derive(Clone, Copy, Debug, PartialEq, Eq, Structural)]
pub enum DateError {
    /// The year was out of range of i16.
    YearRange(i64),
    /// The month was out of range: zero or bigger than 12.
    MonthRange(u64),
    /// The day was out of range: zero or bigger than 31.
    DayRange(u64),
    /// There was an error parsing an integer in the date.
    Parsing(IntError),
}

/// Error when a string does not hold a well-formed integer in range.
#[derive(Clone, Copy, Debug, PartialEq, Eq, Structural)]
pub enum IntError {
    /// The digits were missing entirely.
    Empty,
    /// A character that is not a digit stood among the digits.
    InvalidDigit,
    /// The value does not fit the target integer type.
    OutOfRange,
}

impl Date {
    /// Builds a date from raw numbers, checking only numeric ranges.
    pub fn new(y: i64, m: u64, d: u64) -> (r: Result<Date, DateError>)
        ensures
            r == Date::spec_new(y, m, d),
    {
        if y < i16::MIN as i64 || y > i16::MAX as i64 {
            return Err(DateError::YearRange(y));
        }
        if m == 0 || m > 12 {
            return Err(DateError::MonthRange(m));
        }
        if d == 0 || d > 31 {
            return Err(DateError::DayRange(d));
        }
        Ok(Date { year: y as i16, month: m as u8, day: d as u8 })
    }

    /// What `Date::new` returns: in-range numbers give the date, any
    /// out-of-range number gives the error that names it.
    pub open spec fn spec_new(y: i64, m: u64, d: u64) -> Result<Date, DateError> {
        if y < i16::MIN || y > i16::MAX {
            Err(DateError::YearRange(y))
        } else if m == 0 || m > 12 {
            Err(DateError::MonthRange(m))
        } else if d == 0 || d > 31 {
            Err(DateError::DayRange(d))
        } else {
            Ok(Date { year: y as i16, month: m as u8, day: d as u8 })
        }
    }
}

/// Error to signal that the code was not indented properly.
#[derive(Clone, Copy, Debug, PartialEq, Eq, Structural)]
pub struct CodeIdentError;

/// Error when no valid property value could be parsed.
#[derive(Clone, Copy, Debug, PartialEq, Eq, Structural)]
pub enum PropValError {
    Int(IntError),
    Date(DateError),
}

/// Value properties can take.
#[derive(Clone, Debug, PartialEq, Eq)]
pub enum PropVal {
    String(String),
    Text(String),
    Int(i64),
    Date(Date),
    Error(PropValError),
}

/// Mathematical value of a `PropVal`: strings become character sequences.
pub enum PropValV {
    String(Seq<char>),
    Text(Seq<char>),
    Int(i64),
    Date(Date),
    Error(PropValError),
}

pub open spec fn view_prop_val(v: PropVal) -> PropValV {
    match v {
        PropVal::String(s) => PropValV::String(s@),
        PropVal::Text(s) => PropValV::Text(s@),
        PropVal::Int(i) => PropValV::Int(i),
        PropVal::Date(d) => PropValV::Date(d),
        PropVal::Error(e) => PropValV::Error(e),
    }
}

impl View for PropVal {
    type V = PropValV;

    open spec fn view(&self) -> PropValV {
        view_prop_val(*self)
    }
}

impl PropVal {
    /// A copy of this value.
    pub fn duplicate(&self) -> (r: PropVal)
        ensures
            r@ == self@,
    {
        match self {
            PropVal::String(s) => PropVal::String(s.clone()),
            PropVal::Text(s) => PropVal::Text(s.clone()),
            PropVal::Int(i) => PropVal::Int(*i),
            PropVal::Date(d) => PropVal::Date(*d),
            PropVal::Error(e) => PropVal::Error(*e),
        }
    }

    /// Whether this value equals another, field for field.
    pub fn eq_val(&self, other: &PropVal) -> (r: bool)
        ensures
            r == (self@ == other@),
    {
        match (self, other) {
            (PropVal::String(a), PropVal::String(b)) => a.eq(b),
            (PropVal::Text(a), PropVal::Text(b)) => a.eq(b),
            (PropVal::Int(a), PropVal::Int(b)) => *a == *b,
            (PropVal::Date(a), PropVal::Date(b)) => *a == *b,
            (PropVal::Error(a), PropVal::Error(b)) => *a == *b,
            _ => false,
        }
    }

    /// Whether this value is an error placeholder.
    pub fn is_error(&self) -> (r: bool)
        ensures
            r == self@ is Error,
    {
        matches![self, PropVal::Error(_)]
    }
}

// ---------------------------------------------------------------------------
// Metadata layer: Tags and Props
// ---------------------------------------------------------------------------

/// Mathematical value of `Tags`: the labels in insertion order, no duplicates.
pub type TagsV = Seq<Seq<char>>;

/// Mathematical value of `Props`: label/value entries in insertion order,
/// with no label occurring twice.
pub type PropsV = Seq<(Seq<char>, PropValV)>;

/// Whether a tag sequence holds no label twice.
pub open spec fn tags_unique(t: TagsV) -> bool {
    forall|i: int, j: int| 0 <= i < j < t.len() ==> t[i] != t[j]
}

/// The labels of a tag sequence as a set.
pub open spec fn tags_as_set(t: TagsV) -> Set<Seq<char>> {
    t.to_set()
}

/// Whether a property entry sequence holds no label twice.
pub open spec fn props_unique(ps: PropsV) -> bool {
    forall|i: int, j: int| 0 <= i < j < ps.len() ==> ps[i].0 != ps[j].0
}

/// The index of a label among property entries, if present.
pub open spec fn props_find(ps: PropsV, k: Seq<char>) -> Option<int> {
    if exists|i: int| 0 <= i < ps.len() && ps[i].0 == k {
        Some(choose|i: int| 0 <= i < ps.len() && ps[i].0 == k)
    } else {
        None
    }
}

/// The property entries as a label-to-value map.
pub open spec fn props_as_map(ps: PropsV) -> Map<Seq<char>, PropValV> {
    Map::new(
        |k: Seq<char>| exists|i: int| 0 <= i < ps.len() && ps[i].0 == k,
        |k: Seq<char>| ps[choose|i: int| 0 <= i < ps.len() && ps[i].0 == k].1,
    )
}

/// Tags metadata: an unordered collection of label strings, stored in first
/// insertion order with each label held at most once.
#[derive(Clone, Debug, PartialEq, Eq)]
pub struct Tags {
    entries: Vec<String>,
}

impl View for Tags {
    type V = TagsV;

    closed spec fn view(&self) -> TagsV {
        Seq::new(self.entries@.len(), |i: int| self.entries@[i]@)
    }
}

impl Tags {
    /// Whether the representation holds each label at most once.
    pub open spec fn wf(&self) -> bool {
        tags_unique(self@)
    }

    /// An empty tag collection.
    pub fn new() -> (r: Tags)
        ensures
            r@ == Seq::<Seq<char>>::empty(),
            r.wf(),
    {
        let r = Tags { entries: Vec::new() };
        proof {
            assert(r@ =~= Seq::<Seq<char>>::empty());
        }
        r
    }

    /// How many distinct labels are held.
    pub fn len(&self) -> (n: usize)
        ensures
            n == self@.len(),
    {
        self.entries.len()
    }

    /// Whether no label is held.
    pub fn is_empty(&self) -> (r: bool)
        ensures
            r == (self@.len() == 0),
    {
        self.entries.len() == 0
    }

    /// The label at the given position.
    pub fn get(&self, i: usize) -> (r: &String)
        requires
            i < self@.len(),
        ensures
            r@ == self@[i as int],
    {
        &self.entries[i]
    }

    /// Whether the given label is held.
    pub fn contains(&self, tag: &String) -> (r: bool)
        ensures
            r == tags_as_set(self@).contains(tag@),
    {
        let n = self.entries.len();
        let mut i: usize = 0;
        while i < n
            invariant
                0 <= i <= n,
                n == self@.len(),
                forall|j: int| 0 <= j < i ==> self@[j] != tag@,
            decreases n - i,
        {
            if self.entries[i].eq(tag) {
                proof {
                    assert(self@[i as int] == tag@);
                }
                return true;
            }
            i += 1;
        }
        proof {
            if tags_as_set(self@).contains(tag@) {
                let j = choose|j: int| 0 <= j < self@.len() && self@[j] == tag@;
                assert(self@[j] == tag@);
            }
        }
        false
    }

    /// Whether two tag collections hold the same labels in the same order.
    pub fn seq_eq(&self, other: &Tags) -> (r: bool)
        ensures
            r == (self@ == other@),
    {
        if self.entries.len() != other.entries.len() {
            proof {
                assert(self@.len() != other@.len());
            }
            return false;
        }
        let n = self.entries.len();
        let mut i: usize = 0;
        while i < n
            invariant
                0 <= i <= n,
                n == self@.len(),
                n == other@.len(),
                forall|j: int| 0 <= j < i ==> self@[j] == other@[j],
            decreases n - i,
        {
            if !self.entries[i].eq(&other.entries[i]) {
                proof {
                    assert(self@[i as int] != other@[i as int]);
                }
                return false;
            }
            i += 1;
        }
        proof {
            assert(self@ =~= other@);
        }
        true
    }

    /// Appends a label without checking for duplicates.
    pub(crate) fn push_label(&mut self, tag: String)
        ensures
            final(self)@ == old(self)@.push(tag@),
    {
        let ghost pre = self@;
        self.entries.push(tag);
        proof {
            assert(self@ =~= pre.push(tag@));
        }
    }

    /// Inserts a label: a no-op when the label is already held, else it is
    /// appended.
    pub fn insert(&mut self, tag: String)
        requires
            old(self).wf(),
        ensures
            final(self).wf(),
            final(self)@ == sp_tags_insert(old(self)@, tag@),
    {
        if !self.contains(&tag) {
            let ghost pre = self@;
            self.entries.push(tag);
            proof {
                assert(self@ =~= pre.push(tag@));
            }
        }
    }
}

/// What inserting one label into a tag sequence yields.
pub open spec fn sp_tags_insert(t: TagsV, tag: Seq<char>) -> TagsV {
    if tags_as_set(t).contains(tag) {
        t
    } else {
        t.push(tag)
    }
}

/// One property entry: a label and its value.
#[derive(Clone, Debug, PartialEq, Eq)]
pub struct Prop {
    pub key: String,
    pub val: PropVal,
}

/// Properties metadata: a mapping from label to value, stored in first
/// insertion order with each label held at most once.
#[derive(Clone, Debug, PartialEq, Eq)]
pub struct Props {
    entries: Vec<Prop>,
}

impl View for Props {
    type V = PropsV;

    closed spec fn view(&self) -> PropsV {
        Seq::new(self.entries@.len(), |i: int| (self.entries@[i].key@, self.entries@[i].val@))
    }
}

impl Props {
    /// Whether the representation holds each label at most once.
    pub open spec fn wf(&self) -> bool {
        props_unique(self@)
    }

    /// An empty property mapping.
    pub fn new() -> (r: Props)
        ensures
            r@ == Seq::<(Seq<char>, PropValV)>::empty(),
            r.wf(),
    {
        let r = Props { entries: Vec::new() };
        proof {
            assert(r@ =~= Seq::<(Seq<char>, PropValV)>::empty());
        }
        r
    }

    /// How many labels are held.
    pub fn len(&self) -> (n: usize)
        ensures
            n == self@.len(),
    {
        self.entries.len()
    }

    /// Whether no label is held.
    pub fn is_empty(&self) -> (r: bool)
        ensures
            r == (self@.len() == 0),
    {
        self.entries.len() == 0
    }

    /// The entry at the given position.
    pub fn get(&self, i: usize) -> (r: &Prop)
        requires
            i < self@.len(),
        ensures
            (r.key@, r.val@) == self@[i as int],
    {
        &self.entries[i]
    }

    /// The position of the given label, if it is held.
    pub fn find(&self, key: &String) -> (r: Option<usize>)
        requires
            self.wf(),
        ensures
            match r {
                Some(i) => i < self@.len() && self@[i as int].0 == key@,
                None => forall|j: int| 0 <= j < self@.len() ==> self@[j].0 != key@,
            },
    {
        let n = self.entries.len();
        let mut i: usize = 0;
        while i < n
            invariant
                0 <= i <= n,
                n == self@.len(),
                forall|j: int| 0 <= j < i ==> self@[j].0 != key@,
            decreases n - i,
        {
            if self.entries[i].key.eq(key) {
                proof {
                    assert(self@[i as int].0 == key@);
                }
                return Some(i);
            }
            i += 1;
        }
        None
    }

    /// The value held for the given label, if any.
    pub fn get_value(&self, key: &String) -> (r: Option<&PropVal>)
        requires
            self.wf(),
        ensures
            match r {
                Some(v) => props_as_map(self@).contains_pair(key@, v@),
                None => !props_as_map(self@).dom().contains(key@),
            },
    {
        match self.find(key) {
            Some(i) => {
                let v = &self.entries[i].val;
                proof {
                    let ps = self@;
                    let j = choose|j: int| 0 <= j < ps.len() && ps[j].0 == key@;
                    assert(ps[j].0 == ps[i as int].0);
                    assert(j == i as int);
                }
                Some(v)
            },
            None => None,
        }
    }

    /// Whether two property mappings hold the same entries in the same order.
    pub fn seq_eq(&self, other: &Props) -> (r: bool)
        ensures
            r == (self@ == other@),
    {
        if self.entries.len() != other.entries.len() {
            proof {
                assert(self@.len() != other@.len());
            }
            return false;
        }
        let n = self.entries.len();
        let mut i: usize = 0;
        while i < n
            invariant
                0 <= i <= n,
                n == self@.len(),
                n == other@.len(),
                forall|j: int| 0 <= j < i ==> self@[j] == other@[j],
            decreases n - i,
        {
            let a = &self.entries[i];
            let b = &other.entries[i];
            if !a.key.eq(&b.key) || !a.val.eq_val(&b.val) {
                proof {
                    assert(self@[i as int] != other@[i as int]);
                }
                return false;
            }
            i += 1;
        }
        proof {
            assert(self@ =~= other@);
        }
        true
    }

    /// Replaces the value at position `i`.
    fn set_val(&mut self, i: usize, v: PropVal)
        requires
            i < old(self)@.len(),
        ensures
            final(self)@ == old(self)@.update(i as int, (old(self)@[i as int].0, v@)),
    {
        let key_ref = &self.entries[i].key;
        let ghost pre = self@;
        self.entries[i] = Prop { key: key_ref.clone(), val: v };
        proof {
            assert(self@ =~= pre.update(i as int, (pre[i as int].0, v@)));
        }
    }

    /// Appends a fresh entry.
    fn push_entry(&mut self, k: String, v: PropVal)
        ensures
            final(self)@ == old(self)@.push((k@, v@)),
    {
        let ghost pre = self@;
        self.entries.push(Prop { key: k, val: v });
        proof {
            assert(self@ =~= pre.push((k@, v@)));
        }
    }
}

/// What inserting one property into an entry sequence yields, honoring the
/// sticky-error rule: an incoming error value is discarded when the label
/// already holds a non-error value; anything else overwrites in place, or is
/// appended when the label is new.
pub open spec fn sp_insert_prop(ps: PropsV, k: Seq<char>, v: PropValV) -> PropsV {
    match props_find(ps, k) {
        Some(i) => {
            if (v is Error) && !(ps[i].1 is Error) {
                ps
            } else {
                ps.update(i, (k, v))
            }
        },
        None => ps.push((k, v)),
    }
}

/// Inserts a property into the mapping under the sticky-error rule: a parse
/// error never replaces a successfully parsed value for the same label.
pub fn insert_prop(props: &mut Props, kv: (String, PropVal))
    requires
        old(props).wf(),
    ensures
        final(props).wf(),
        final(props)@ == sp_insert_prop(old(props)@, kv.0@, kv.1@),
{
    let (k, v) = kv;
    match props.find(&k) {
        Some(i) => {
            proof {
                let ps = props@;
                let j = choose|j: int| 0 <= j < ps.len() && ps[j].0 == k@;
                assert(ps[j].0 == ps[i as int].0);
                assert(j == i as int);
            }
            let existing_is_err = props.get(i).val.is_error();
            if v.is_error() && !existing_is_err {
                // sticky: keep the non-error value already held
            } else {
                let ghost pre = props@;
                props.set_val(i, v);
                proof {
                    assert(props@[i as int].0 == k@);
                    assert forall|a: int, b: int| 0 <= a < b < props@.len() implies props@[a].0
                        != props@[b].0 by {
                        assert(pre[a].0 == props@[a].0 || a == i as int);
                        assert(pre[b].0 == props@[b].0 || b == i as int);
                    }
                    assert(props@ =~= pre.update(i as int, (k@, v@)));
                }
            }
        },
        None => {
            let ghost pre = props@;
            props.push_entry(k, v);
            proof {
                assert forall|a: int, b: int| 0 <= a < b < props@.len() implies props@[a].0
                    != props@[b].0 by {
                    if b < pre.len() {
                        assert(pre[a].0 != pre[b].0);
                    } else {
                        assert(pre[a].0 != k@);
                    }
                }
            }
        },
    }
}

} // verus!

verus! {

// ---------------------------------------------------------------------------
// Leaf content layer
// ---------------------------------------------------------------------------

/// Text that has metadata: tags and/or properties.
#[derive(Clone, Debug, PartialEq, Eq)]
pub struct TextWithMeta {
    pub text: String,
    pub tags: Tags,
    pub props: Props,
}

/// Mathematical value of a `TextWithMeta`.
pub struct TextWithMetaV {
    pub text: Seq<char>,
    pub tags: TagsV,
    pub props: PropsV,
}

pub open spec fn view_mtext(t: TextWithMeta) -> TextWithMetaV {
    TextWithMetaV { text: t.text@, tags: t.tags@, props: t.props@ }
}

impl View for TextWithMeta {
    type V = TextWithMetaV;

    open spec fn view(&self) -> TextWithMetaV {
        view_mtext(*self)
    }
}

impl TextWithMeta {
    /// Whether both metadata parts are empty, so that the text needs no
    /// richer representation than a plain string.
    pub fn meta_is_empty(&self) -> (r: bool)
        ensures
            r == (self@.tags.len() == 0 && self@.props.len() == 0),
    {
        self.tags.is_empty() && self.props.is_empty()
    }
}

/// Degree of emphasis or de-emphasis.
#[derive(Clone, Copy, Debug, PartialEq, Eq, Structural, Hash, PartialOrd, Ord)]
pub enum EmStrength {
    Light,
    Medium,
    Strong,
}

/// Whether it is an emphasis or de-emphasis.
#[derive(Clone, Copy, Debug, PartialEq, Eq, Structural, Hash, PartialOrd, Ord)]
pub enum EmType {
    Emphasis,
    Deemphasis,
}

/// Emphasised or de-emphasised piece of text.
#[derive(Clone, Debug, PartialEq, Eq)]
pub struct Emphasis {
    pub strength: EmStrength,
    pub etype: EmType,
    pub text: String,
    pub tags: Tags,
    pub props: Props,
}

/// Mathematical value of an `Emphasis`.
pub struct EmphasisV {
    pub strength: EmStrength,
    pub etype: EmType,
    pub text: Seq<char>,
    pub tags: TagsV,
    pub props: PropsV,
}

pub open spec fn view_emphasis(e: Emphasis) -> EmphasisV {
    EmphasisV { strength: e.strength, etype: e.etype, text: e.text@, tags: e.tags@, props: e.props@ }
}

impl View for Emphasis {
    type V = EmphasisV;

    open spec fn view(&self) -> EmphasisV {
        view_emphasis(*self)
    }
}

/// Behavioural hint: the block hints what to do with the code.
#[derive(Clone, Copy, Debug, PartialEq, Eq, Structural, Hash, PartialOrd, Ord)]
pub enum CodeModeHint {
    /// Hint to show the code in the document.
    Show,
    /// Hint to show the code and to signal that it is supposed to be able to run.
    Runnable,
    /// Hint to show the code, run it, and show the results as well.
    Run,
    /// Hint to run the code and show the results instead of the code itself.
    Replace,
}

/// A block of computer code.
#[derive(Clone, Debug, PartialEq, Eq)]
pub struct CodeBlock {
    /// Computer language in which the code is written.
    pub language: String,
    /// Behavioural hint.
    pub mode: CodeModeHint,
    /// The code.
    pub code: String,
    pub tags: Tags,
    pub props: Props,
}

/// Mathematical value of a `CodeBlock`.
pub struct CodeBlockV {
    pub language: Seq<char>,
    pub mode: CodeModeHint,
    pub code: Seq<char>,
    pub tags: TagsV,
    pub props: PropsV,
}

pub open spec fn view_code_block(c: CodeBlock) -> CodeBlockV {
    CodeBlockV {
        language: c.language@,
        mode: c.mode,
        code: c.code@,
        tags: c.tags@,
        props: c.props@,
    }
}

impl View for CodeBlock {
    type V = CodeBlockV;

    open spec fn view(&self) -> CodeBlockV {
        view_code_block(*self)
    }
}

// ---------------------------------------------------------------------------
// Container layer
// ---------------------------------------------------------------------------

/// Links have an exterior of plain text that may be emphasised.
#[derive(Clone, Debug, PartialEq, Eq)]
pub enum LinkItem {
    String(String),
    Em(Emphasis),
}

/// Mathematical value of a `LinkItem`.
pub enum LinkItemV {
    String(Seq<char>),
    Em(EmphasisV),
}

pub open spec fn view_link_item(li: LinkItem) -> LinkItemV {
    match li {
        LinkItem::String(s) => LinkItemV::String(s@),
        LinkItem::Em(e) => LinkItemV::Em(view_emphasis(e)),
    }
}

impl View for LinkItem {
    type V = LinkItemV;

    open spec fn view(&self) -> LinkItemV {
        view_link_item(*self)
    }
}

/// Links are pieces of text with an accompanying URL.
#[derive(Clone, Debug, PartialEq, Eq)]
pub struct Link {
    pub url: String,
    pub items: Vec<LinkItem>,
    pub tags: Tags,
    pub props: Props,
}

/// Mathematical value of a `Link`.
pub struct LinkV {
    pub url: Seq<char>,
    pub items: Seq<LinkItemV>,
    pub tags: TagsV,
    pub props: PropsV,
}

pub open spec fn view_link(l: Link) -> LinkV {
    LinkV {
        url: l.url@,
        items: Seq::new(l.items@.len(), |i: int| view_link_item(l.items@[i])),
        tags: l.tags@,
        props: l.props@,
    }
}

impl View for Link {
    type V = LinkV;

    open spec fn view(&self) -> LinkV {
        view_link(*self)
    }
}

/// Headings are plain text that can have emphasis.
#[derive(Clone, Debug, PartialEq, Eq)]
pub enum HeadingItem {
    String(String),
    Em(Emphasis),
}

/// Mathematical value of a `HeadingItem`.
pub enum HeadingItemV {
    String(Seq<char>),
    Em(EmphasisV),
}

pub open spec fn view_heading_item(hi: HeadingItem) -> HeadingItemV {
    match hi {
        HeadingItem::String(s) => HeadingItemV::String(s@),
        HeadingItem::Em(e) => HeadingItemV::Em(view_emphasis(e)),
    }
}

impl View for HeadingItem {
    type V = HeadingItemV;

    open spec fn view(&self) -> HeadingItemV {
        view_heading_item(*self)
    }
}

/// Heading, a title for the accompanying content.
#[derive(Clone, Debug, PartialEq, Eq)]
pub struct Heading {
    /// Absolute nesting level, saturating at 255.
    pub level: u8,
    pub items: Vec<HeadingItem>,
    pub tags: Tags,
    pub props: Props,
}

/// Mathematical value of a `Heading`.
pub struct HeadingV {
    pub level: u8,
    pub items: Seq<HeadingItemV>,
    pub tags: TagsV,
    pub props: PropsV,
}

pub open spec fn view_heading(h: Heading) -> HeadingV {
    HeadingV {
        level: h.level,
        items: Seq::new(h.items@.len(), |i: int| view_heading_item(h.items@[i])),
        tags: h.tags@,
        props: h.props@,
    }
}

impl View for Heading {
    type V = HeadingV;

    open spec fn view(&self) -> HeadingV {
        view_heading(*self)
    }
}

/// How the items of a list are denotated.
#[derive(Clone, Copy, Debug, PartialEq, Eq, Structural, Hash, PartialOrd, Ord)]
pub enum ListType {
    /// Each item has a distinct denotation.
    Distinct,
    /// Each item is denotated identically.
    Identical,
    /// Each item is either checked off or not.
    Checked,
}

/// Lists are fine-grained structure in a document.
#[derive(Debug, PartialEq, Eq)]
pub struct List {
    pub ltype: ListType,
    pub items: Vec<Paragraph>,
    pub tags: Tags,
    pub props: Props,
}

/// Mathematical value of a `List`.
pub struct ListV {
    pub ltype: ListType,
    pub items: Seq<ParagraphV>,
    pub tags: TagsV,
    pub props: PropsV,
}

/// One row of a table: an ordered sequence of cell paragraphs.
#[derive(Debug, PartialEq, Eq)]
pub struct TableRow {
    pub is_header: bool,
    pub items: Vec<Paragraph>,
    pub tags: Tags,
    pub props: Props,
}

/// Mathematical value of a `TableRow`.
pub struct TableRowV {
    pub is_header: bool,
    pub items: Seq<ParagraphV>,
    pub tags: TagsV,
    pub props: PropsV,
}

/// A table owns an ordered sequence of rows.
#[derive(Debug, PartialEq, Eq)]
pub struct Table {
    pub items: Vec<TableRow>,
    pub tags: Tags,
    pub props: Props,
}

/// Mathematical value of a `Table`.
pub struct TableV {
    pub items: Seq<TableRowV>,
    pub tags: TagsV,
    pub props: PropsV,
}

/// Paragraphs can have content and further structure but no sub-sections.
#[derive(Debug, PartialEq, Eq)]
pub enum ParagraphItem {
    Text(String),
    MText(TextWithMeta),
    Em(Emphasis),
    Code(Result<CodeBlock, CodeIdentError>),
    Link(Link),
    List(List),
    Table(Table),
}

/// Mathematical value of a `ParagraphItem`.
pub enum ParagraphItemV {
    Text(Seq<char>),
    MText(TextWithMetaV),
    Em(EmphasisV),
    Code(Result<CodeBlockV, CodeIdentError>),
    Link(LinkV),
    List(ListV),
    Table(TableV),
}

/// Paragraph is a grouping of content.
#[derive(Debug, PartialEq, Eq)]
pub struct Paragraph {
    pub items: Vec<ParagraphItem>,
    pub tags: Tags,
    pub props: Props,
}

/// Mathematical value of a `Paragraph`.
pub struct ParagraphV {
    pub items: Seq<ParagraphItemV>,
    pub tags: TagsV,
    pub props: PropsV,
}


pub open spec fn view_par_items(s: Seq<ParagraphItem>) -> Seq<ParagraphItemV>
    decreases s,
{
    if s.len() == 0 {
        Seq::empty()
    } else {
        seq![view_par_item(s[0])] + view_par_items(s.subrange(1, s.len() as int))
    }
}

/// The element-wise reading of `view_par_items`.
pub broadcast proof fn lemma_view_par_items(s: Seq<ParagraphItem>)
    ensures
        (#[trigger] view_par_items(s)).len() == s.len(),
        forall|i: int| 0 <= i < s.len() ==> #[trigger] view_par_items(s)[i] == view_par_item(s[i]),
    decreases s,
{
    if s.len() > 0 {
        lemma_view_par_items(s.subrange(1, s.len() as int));
        assert forall|i: int| 0 <= i < s.len() implies #[trigger] view_par_items(s)[i] == view_par_item(
            s[i],
        ) by {
            if i > 0 {
                assert(s.subrange(1, s.len() as int)[i - 1] == s[i]);
            }
        }
    }
}

pub open spec fn view_paragraphs(s: Seq<Paragraph>) -> Seq<ParagraphV>
    decreases s,
{
    if s.len() == 0 {
        Seq::empty()
    } else {
        seq![view_paragraph(s[0])] + view_paragraphs(s.subrange(1, s.len() as int))
    }
}

/// The element-wise reading of `view_paragraphs`.
pub broadcast proof fn lemma_view_paragraphs(s: Seq<Paragraph>)
    ensures
        (#[trigger] view_paragraphs(s)).len() == s.len(),
        forall|i: int| 0 <= i < s.len() ==> #[trigger] view_paragraphs(s)[i] == view_paragraph(s[i]),
    decreases s,
{
    if s.len() > 0 {
        lemma_view_paragraphs(s.subrange(1, s.len() as int));
        assert forall|i: int| 0 <= i < s.len() implies #[trigger] view_paragraphs(s)[i] == view_paragraph(
            s[i],
        ) by {
            if i > 0 {
                assert(s.subrange(1, s.len() as int)[i - 1] == s[i]);
            }
        }
    }
}

pub open spec fn view_table_rows(s: Seq<TableRow>) -> Seq<TableRowV>
    decreases s,
{
    if s.len() == 0 {
        Seq::empty()
    } else {
        seq![view_table_row(s[0])] + view_table_rows(s.subrange(1, s.len() as int))
    }
}

/// The element-wise reading of `view_table_rows`.
pub broadcast proof fn lemma_view_table_rows(s: Seq<TableRow>)
    ensures
        (#[trigger] view_table_rows(s)).len() == s.len(),
        forall|i: int| 0 <= i < s.len() ==> #[trigger] view_table_rows(s)[i] == view_table_row(s[i]),
    decreases s,
{
    if s.len() > 0 {
        lemma_view_table_rows(s.subrange(1, s.len() as int));
        assert forall|i: int| 0 <= i < s.len() implies #[trigger] view_table_rows(s)[i] == view_table_row(
            s[i],
        ) by {
            if i > 0 {
                assert(s.subrange(1, s.len() as int)[i - 1] == s[i]);
            }
        }
    }
}

pub open spec fn view_par_item(p: ParagraphItem) -> ParagraphItemV
    decreases p,
{
    match p {
        ParagraphItem::Text(s) => ParagraphItemV::Text(s@),
        ParagraphItem::MText(t) => ParagraphItemV::MText(view_mtext(t)),
        ParagraphItem::Em(e) => ParagraphItemV::Em(view_emphasis(e)),
        ParagraphItem::Code(Ok(c)) => ParagraphItemV::Code(Ok(view_code_block(c))),
        ParagraphItem::Code(Err(e)) => ParagraphItemV::Code(Err(e)),
        ParagraphItem::Link(l) => ParagraphItemV::Link(view_link(l)),
        ParagraphItem::List(l) => ParagraphItemV::List(view_list(l)),
        ParagraphItem::Table(t) => ParagraphItemV::Table(view_table(t)),
    }
}

pub open spec fn view_paragraph(p: Paragraph) -> ParagraphV
    decreases p,
{
    ParagraphV {
        items: view_par_items(p.items@),
        tags: p.tags@,
        props: p.props@,
    }
}

pub open spec fn view_list(l: List) -> ListV
    decreases l,
{
    ListV {
        ltype: l.ltype,
        items: view_paragraphs(l.items@),
        tags: l.tags@,
        props: l.props@,
    }
}

pub open spec fn view_table_row(r: TableRow) -> TableRowV
    decreases r,
{
    TableRowV {
        is_header: r.is_header,
        items: view_paragraphs(r.items@),
        tags: r.tags@,
        props: r.props@,
    }
}

pub open spec fn view_table(t: Table) -> TableV
    decreases t,
{
    TableV {
        items: view_table_rows(t.items@),
        tags: t.tags@,
        props: t.props@,
    }
}

impl View for ParagraphItem {
    type V = ParagraphItemV;

    open spec fn view(&self) -> ParagraphItemV {
        view_par_item(*self)
    }
}

impl View for Paragraph {
    type V = ParagraphV;

    open spec fn view(&self) -> ParagraphV {
        view_paragraph(*self)
    }
}

impl View for List {
    type V = ListV;

    open spec fn view(&self) -> ListV {
        view_list(*self)
    }
}

impl View for TableRow {
    type V = TableRowV;

    open spec fn view(&self) -> TableRowV {
        view_table_row(*self)
    }
}

impl View for Table {
    type V = TableV;

    open spec fn view(&self) -> TableV {
        view_table(*self)
    }
}

/// Navigation structure: a description, sub-navigation structures and links
/// to navigate to.
#[derive(Debug, PartialEq, Eq)]
pub struct Nav {
    pub description: String,
    pub subs: Vec<Nav>,
    pub links: Vec<Link>,
    pub tags: Tags,
    pub props: Props,
}

/// Mathematical value of a `Nav`.
pub struct NavV {
    pub description: Seq<char>,
    pub subs: Seq<NavV>,
    pub links: Seq<LinkV>,
    pub tags: TagsV,
    pub props: PropsV,
}


pub open spec fn view_navs(s: Seq<Nav>) -> Seq<NavV>
    decreases s,
{
    if s.len() == 0 {
        Seq::empty()
    } else {
        seq![view_nav(s[0])] + view_navs(s.subrange(1, s.len() as int))
    }
}

/// The element-wise reading of `view_navs`.
pub broadcast proof fn lemma_view_navs(s: Seq<Nav>)
    ensures
        (#[trigger] view_navs(s)).len() == s.len(),
        forall|i: int| 0 <= i < s.len() ==> #[trigger] view_navs(s)[i] == view_nav(s[i]),
    decreases s,
{
    if s.len() > 0 {
        lemma_view_navs(s.subrange(1, s.len() as int));
        assert forall|i: int| 0 <= i < s.len() implies #[trigger] view_navs(s)[i] == view_nav(
            s[i],
        ) by {
            if i > 0 {
                assert(s.subrange(1, s.len() as int)[i - 1] == s[i]);
            }
        }
    }
}

pub open spec fn view_nav(n: Nav) -> NavV
    decreases n,
{
    NavV {
        description: n.description@,
        subs: view_navs(n.subs@),
        links: Seq::new(n.links@.len(), |i: int| view_link(n.links@[i])),
        tags: n.tags@,
        props: n.props@,
    }
}

impl View for Nav {
    type V = NavV;

    open spec fn view(&self) -> NavV {
        view_nav(*self)
    }
}

/// A section is a heading followed by content that goes with it.
#[derive(Debug, PartialEq, Eq)]
pub struct Section {
    pub heading: Heading,
    pub items: Vec<SectionItem>,
    pub tags: Tags,
    pub props: Props,
}

/// Section items are either paragraphs or sub-sections.
#[derive(Debug, PartialEq, Eq)]
pub enum SectionItem {
    Paragraph(Paragraph),
    Section(Section),
}

/// Mathematical value of a `Section`.
pub struct SectionV {
    pub heading: HeadingV,
    pub items: Seq<SectionItemV>,
    pub tags: TagsV,
    pub props: PropsV,
}

/// Mathematical value of a `SectionItem`.
pub enum SectionItemV {
    Paragraph(ParagraphV),
    Section(SectionV),
}


pub open spec fn view_section_items(s: Seq<SectionItem>) -> Seq<SectionItemV>
    decreases s,
{
    if s.len() == 0 {
        Seq::empty()
    } else {
        seq![view_section_item(s[0])] + view_section_items(s.subrange(1, s.len() as int))
    }
}

/// The element-wise reading of `view_section_items`.
pub broadcast proof fn lemma_view_section_items(s: Seq<SectionItem>)
    ensures
        (#[trigger] view_section_items(s)).len() == s.len(),
        forall|i: int| 0 <= i < s.len() ==> #[trigger] view_section_items(s)[i] == view_section_item(s[i]),
    decreases s,
{
    if s.len() > 0 {
        lemma_view_section_items(s.subrange(1, s.len() as int));
        assert forall|i: int| 0 <= i < s.len() implies #[trigger] view_section_items(s)[i] == view_section_item(
            s[i],
        ) by {
            if i > 0 {
                assert(s.subrange(1, s.len() as int)[i - 1] == s[i]);
            }
        }
    }
}

pub open spec fn view_section_item(si: SectionItem) -> SectionItemV
    decreases si,
{
    match si {
        SectionItem::Paragraph(p) => SectionItemV::Paragraph(view_paragraph(p)),
        SectionItem::Section(s) => SectionItemV::Section(view_section(s)),
    }
}

pub open spec fn view_section(s: Section) -> SectionV
    decreases s,
{
    SectionV {
        heading: view_heading(s.heading),
        items: view_section_items(s.items@),
        tags: s.tags@,
        props: s.props@,
    }
}

impl View for SectionItem {
    type V = SectionItemV;

    open spec fn view(&self) -> SectionItemV {
        view_section_item(*self)
    }
}

impl View for Section {
    type V = SectionV;

    open spec fn view(&self) -> SectionV {
        view_section(*self)
    }
}

// ---------------------------------------------------------------------------
// Document root
// ---------------------------------------------------------------------------

/// Document item.
#[derive(Debug, PartialEq, Eq)]
pub enum DocItem {
    /// Navigation.
    Nav(Nav),
    Paragraph(Paragraph),
    Section(Section),
}

/// Mathematical value of a `DocItem`.
pub enum DocItemV {
    Nav(NavV),
    Paragraph(ParagraphV),
    Section(SectionV),
}


pub open spec fn view_doc_items(s: Seq<DocItem>) -> Seq<DocItemV>
    decreases s,
{
    if s.len() == 0 {
        Seq::empty()
    } else {
        seq![view_doc_item(s[0])] + view_doc_items(s.subrange(1, s.len() as int))
    }
}

/// The element-wise reading of `view_doc_items`.
pub broadcast proof fn lemma_view_doc_items(s: Seq<DocItem>)
    ensures
        (#[trigger] view_doc_items(s)).len() == s.len(),
        forall|i: int| 0 <= i < s.len() ==> #[trigger] view_doc_items(s)[i] == view_doc_item(s[i]),
    decreases s,
{
    if s.len() > 0 {
        lemma_view_doc_items(s.subrange(1, s.len() as int));
        assert forall|i: int| 0 <= i < s.len() implies #[trigger] view_doc_items(s)[i] == view_doc_item(
            s[i],
        ) by {
            if i > 0 {
                assert(s.subrange(1, s.len() as int)[i - 1] == s[i]);
            }
        }
    }
}

pub open spec fn view_doc_item(d: DocItem) -> DocItemV
    decreases d,
{
    match d {
        DocItem::Nav(n) => DocItemV::Nav(view_nav(n)),
        DocItem::Paragraph(p) => DocItemV::Paragraph(view_paragraph(p)),
        DocItem::Section(s) => DocItemV::Section(view_section(s)),
    }
}

impl View for DocItem {
    type V = DocItemV;

    open spec fn view(&self) -> DocItemV {
        view_doc_item(*self)
    }
}

/// Document.
#[derive(Debug, PartialEq, Eq)]
pub struct Doc {
    pub tags: Tags,
    pub props: Props,
    pub items: Vec<DocItem>,
}

/// Mathematical value of a `Doc`.
pub struct DocV {
    pub tags: TagsV,
    pub props: PropsV,
    pub items: Seq<DocItemV>,
}

pub open spec fn view_doc(d: Doc) -> DocV {
    DocV {
        tags: d.tags@,
        props: d.props@,
        items: view_doc_items(d.items@),
    }
}

impl View for Doc {
    type V = DocV;

    open spec fn view(&self) -> DocV {
        view_doc(*self)
    }
}

/// The element-wise readings of the sequence views, for use together.
pub broadcast group group_view_lemmas {
    lemma_view_par_items,
    lemma_view_paragraphs,
    lemma_view_table_rows,
    lemma_view_navs,
    lemma_view_section_items,
    lemma_view_doc_items,
}

impl Doc {
    /// An empty document.
    pub fn new() -> (r: Doc)
        ensures
            r@.tags.len() == 0,
            r@.props.len() == 0,
            r@.items.len() == 0,
    {
        Doc { tags: Tags::new(), props: Props::new(), items: Vec::new() }
    }
}

} // verus!

verus! {

// ---------------------------------------------------------------------------
// Whitespace and blank strings
// ---------------------------------------------------------------------------

/// Whether a character has the Unicode white-space property, as the char
/// documentation lists it.
pub open spec fn is_ws_char(c: char) -> bool {
    ||| c == ' '
    ||| c == '\t'
    ||| c == '\n'
    ||| c == '\u{b}'
    ||| c == '\u{c}'
    ||| c == '\r'
    ||| c == '\u{85}'
    ||| c == '\u{a0}'
    ||| c == '\u{1680}'
    ||| (c as u32 >= 0x2000 && c as u32 <= 0x200a)
    ||| c == '\u{2028}'
    ||| c == '\u{2029}'
    ||| c == '\u{202f}'
    ||| c == '\u{205f}'
    ||| c == '\u{3000}'
}

/// Whether a character has the Unicode white-space property.
pub fn char_is_ws(c: char) -> (r: bool)
    ensures
        r == is_ws_char(c),
{
    let u = c as u32;
    u == 0x20 || u == 0x9 || u == 0xa || u == 0xb || u == 0xc || u == 0xd || u == 0x85 || u == 0xa0
        || u == 0x1680 || (u >= 0x2000 && u <= 0x200a) || u == 0x2028 || u == 0x2029 || u == 0x202f
        || u == 0x205f || u == 0x3000
}

/// Whether a string is empty or holds only white space.
pub open spec fn sp_str_blank(s: Seq<char>) -> bool {
    forall|i: int| 0 <= i < s.len() ==> is_ws_char(s[i])
}

/// What trimming a string to nothing yields: a string of nothing but white
/// space becomes empty, any other string stays as it is.
pub open spec fn sp_prune_str(s: Seq<char>) -> Seq<char> {
    if sp_str_blank(s) {
        Seq::empty()
    } else {
        s
    }
}

/// Relies on String::push: it appends exactly the given character.
#[verifier::external_body]
pub(crate) fn push_char(s: &mut String, c: char)
    ensures
        final(s)@ == old(s)@.push(c),
{
    s.push(c);
}

/// A string holding exactly the given characters.
pub(crate) fn string_from_chars(v: &Vec<char>) -> (s: String)
    ensures
        s@ == v@,
{
    let mut s = String::new();
    let n = v.len();
    let mut i: usize = 0;
    while i < n
        invariant
            0 <= i <= n,
            n == v@.len(),
            s@ == v@.subrange(0, i as int),
        decreases n - i,
    {
        push_char(&mut s, v[i]);
        proof {
            assert(v@.subrange(0, i as int).push(v@[i as int]) =~= v@.subrange(0, i as int + 1));
        }
        i += 1;
    }
    proof {
        assert(v@.subrange(0, n as int) =~= v@);
    }
    s
}

/// Whether the string holds only white space, if anything.
pub fn str_blank(s: &String) -> (r: bool)
    ensures
        r == sp_str_blank(s@),
{
    let n = s.unicode_len();
    let mut i: usize = 0;
    while i < n
        invariant
            0 <= i <= n,
            n == s@.len(),
            forall|j: int| 0 <= j < i ==> is_ws_char(s@[j]),
        decreases n - i,
    {
        if !char_is_ws(s.as_str().get_char(i)) {
            return false;
        }
        i += 1;
    }
    true
}

} // verus!
