//! Derivation of a navigable table of contents from a document, optionally
//! narrowed by a filter over node kinds.

use vstd::prelude::*;
use vstd::string::StringExecFns;
use vstd::string::StrSliceExecFns;
use crate::{
    view_doc, view_doc_item, view_link, view_nav, view_paragraph, view_section, Doc, DocItemV,
    HeadingItemV, LinkItemV, LinkV, ListV, NavV, ParagraphItemV, ParagraphV, PropValV, PropsV,
    SectionV, TableRowV, TableV, TagsV,
};

verus! {

/// How a filter treats a node whose kind is not admissible.
#[derive(Clone, Copy, Debug, PartialEq, Eq, Structural)]
pub enum TocPolicy {
    /// Stop descending: the node and its whole subtree yield nothing.
    HardStop,
    /// Keep descending: the node is still shown when any descendant yields
    /// an entry, and suppressed with its subtree when none does.
    IncludeWithChildren,
}

/// The kinds of nodes a table-of-contents filter can name.
#[derive(Clone, Copy, Debug, PartialEq, Eq, Structural)]
pub enum TocKind {
    Document,
    Section,
    Paragraph,
    Emphasis,
    List,
    Nav,
    Link,
    CodeBlock,
    Table,
    TextWithMeta,
}

/// A filter: the set of admissible node kinds and the policy for the rest.
#[derive(Clone, Debug, PartialEq, Eq)]
pub struct TocFilter {
    pub kinds: Vec<TocKind>,
    pub policy: TocPolicy,
}

/// One entry of the table of contents: a title, a slug to link to, and the
/// entries found beneath it.
#[derive(Debug, PartialEq, Eq)]
pub struct TocEntry {
    pub title: String,
    pub slug: String,
    pub children: Vec<TocEntry>,
}

/// Mathematical value of a table-of-contents entry.
pub struct TocEntryV {
    pub title: Seq<char>,
    pub slug: Seq<char>,
    pub children: Seq<TocEntryV>,
}

pub open spec fn view_toc_entries(s: Seq<TocEntry>) -> Seq<TocEntryV>
    decreases s,
{
    if s.len() == 0 {
        Seq::empty()
    } else {
        seq![view_toc_entry(s[0])] + view_toc_entries(s.subrange(1, s.len() as int))
    }
}

pub open spec fn view_toc_entry(e: TocEntry) -> TocEntryV
    decreases e,
{
    TocEntryV { title: e.title@, slug: e.slug@, children: view_toc_entries(e.children@) }
}

/// The element-wise reading of `view_toc_entries`.
pub proof fn lemma_view_toc_entries(s: Seq<TocEntry>)
    ensures
        view_toc_entries(s).len() == s.len(),
        forall|i: int|
            0 <= i < s.len() ==> #[trigger] view_toc_entries(s)[i] == view_toc_entry(s[i]),
    decreases s,
{
    if s.len() > 0 {
        lemma_view_toc_entries(s.subrange(1, s.len() as int));
        assert forall|i: int|
            0 <= i < s.len() implies #[trigger] view_toc_entries(s)[i] == view_toc_entry(
            s[i],
        ) by {
            if i > 0 {
                assert(s.subrange(1, s.len() as int)[i - 1] == s[i]);
            }
        }
    }
}

impl View for TocEntry {
    type V = TocEntryV;

    open spec fn view(&self) -> TocEntryV {
        view_toc_entry(*self)
    }
}

/// The mathematical value of a filter, if one is given.
pub open spec fn view_filter(f: Option<&TocFilter>) -> Option<(Seq<TocKind>, TocPolicy)> {
    match f {
        Some(f) => Some((f.kinds@, f.policy)),
        None => None,
    }
}

/// Whether a kind passes the filter; every kind passes when no filter is
/// given.
pub open spec fn sp_kind_allowed(fv: Option<(Seq<TocKind>, TocPolicy)>, k: TocKind) -> bool {
    match fv {
        None => true,
        Some(f) => f.0.contains(k),
    }
}

/// The lower-case form of an ASCII capital letter; other characters stay.
pub open spec fn sp_lower_char(c: char) -> char {
    if c == 'A' {
        'a'
    } else if c == 'B' {
        'b'
    } else if c == 'C' {
        'c'
    } else if c == 'D' {
        'd'
    } else if c == 'E' {
        'e'
    } else if c == 'F' {
        'f'
    } else if c == 'G' {
        'g'
    } else if c == 'H' {
        'h'
    } else if c == 'I' {
        'i'
    } else if c == 'J' {
        'j'
    } else if c == 'K' {
        'k'
    } else if c == 'L' {
        'l'
    } else if c == 'M' {
        'm'
    } else if c == 'N' {
        'n'
    } else if c == 'O' {
        'o'
    } else if c == 'P' {
        'p'
    } else if c == 'Q' {
        'q'
    } else if c == 'R' {
        'r'
    } else if c == 'S' {
        's'
    } else if c == 'T' {
        't'
    } else if c == 'U' {
        'u'
    } else if c == 'V' {
        'v'
    } else if c == 'W' {
        'w'
    } else if c == 'X' {
        'x'
    } else if c == 'Y' {
        'y'
    } else if c == 'Z' {
        'z'
    } else {
        c
    }
}

/// One slug character: capitals are lowered and spaces become hyphens.
pub open spec fn sp_slug_char(c: char) -> char {
    if c == ' ' {
        '-'
    } else {
        sp_lower_char(c)
    }
}

/// The slug of a title: its lower-cased, space-to-hyphen transform.
pub open spec fn sp_slug(s: Seq<char>) -> Seq<char> {
    s.map_values(|c: char| sp_slug_char(c))
}

/// The concatenation of a heading's item texts.
pub open spec fn sp_heading_text(items: Seq<HeadingItemV>) -> Seq<char>
    decreases items.len(),
{
    if items.len() == 0 {
        Seq::empty()
    } else {
        sp_heading_text(items.drop_last()) + (match items[items.len() - 1] {
            HeadingItemV::String(s) => s,
            HeadingItemV::Em(e) => e.text,
        })
    }
}

/// The concatenation of a link's item texts.
pub open spec fn sp_link_text(items: Seq<LinkItemV>) -> Seq<char>
    decreases items.len(),
{
    if items.len() == 0 {
        Seq::empty()
    } else {
        sp_link_text(items.drop_last()) + (match items[items.len() - 1] {
            LinkItemV::String(s) => s,
            LinkItemV::Em(e) => e.text,
        })
    }
}

/// The classification prefix a section's tags imply.
pub open spec fn sp_section_prefix(tags: TagsV) -> Seq<char> {
    if crate::tags_as_set(tags).contains("footnote"@) {
        "Footnote definition: "@
    } else if crate::tags_as_set(tags).contains("quote"@) {
        "Quote: "@
    } else {
        Seq::empty()
    }
}

/// A section's title: the classification prefix and the heading text, with
/// one trailing separator trimmed.
pub open spec fn sp_section_title(v: SectionV) -> Seq<char> {
    let t = sp_section_prefix(v.tags) + sp_heading_text(v.heading.items);
    if t.len() >= 2 && t.subrange(t.len() - 2, t.len() as int) == ": "@ {
        t.subrange(0, t.len() - 2)
    } else {
        t
    }
}

/// The first value held for a label, scanning the entries in order.
pub open spec fn sp_props_lookup(ps: PropsV, k: Seq<char>) -> Option<PropValV>
    decreases ps.len(),
{
    if ps.len() == 0 {
        None
    } else if ps[0].0 == k {
        Some(ps[0].1)
    } else {
        sp_props_lookup(ps.subrange(1, ps.len() as int), k)
    }
}

/// The explicit identifier of a node: the string value of its "id"
/// property, if one is held.
pub open spec fn sp_id_of(props: PropsV) -> Option<Seq<char>> {
    match sp_props_lookup(props, "id"@) {
        Some(PropValV::String(s)) => Some(s),
        _ => None,
    }
}

} // verus!

verus! {

/// How one visited node turns into entries: an admissible node shows its
/// own entry over the entries found beneath it, or passes them through
/// when it has no identity of its own; an excluded node under
/// IncludeWithChildren survives only if something beneath it was found.
pub open spec fn sp_toc_wrap(
    allowed: bool,
    own: Option<(Seq<char>, Seq<char>)>,
    kids: Seq<TocEntryV>,
) -> Seq<TocEntryV> {
    if allowed {
        match own {
            Some(t) => seq![TocEntryV { title: t.0, slug: t.1, children: kids }],
            None => kids,
        }
    } else {
        if kids.len() > 0 {
            match own {
                Some(t) => seq![TocEntryV { title: t.0, slug: t.1, children: kids }],
                None => kids,
            }
        } else {
            Seq::empty()
        }
    }
}

/// Whether the filter stops all descent at a node of this kind.
pub open spec fn sp_toc_stopped(fv: Option<(Seq<TocKind>, TocPolicy)>, k: TocKind) -> bool {
    !sp_kind_allowed(fv, k) && (match fv {
        Some(f) => f.1 == TocPolicy::HardStop,
        None => false,
    })
}

/// The entry of a childless node: it is shown only when admissible and
/// carrying an identity of its own.
pub open spec fn sp_toc_leaf(
    fv: Option<(Seq<TocKind>, TocPolicy)>,
    k: TocKind,
    own: Option<(Seq<char>, Seq<char>)>,
) -> Seq<TocEntryV> {
    if sp_kind_allowed(fv, k) {
        match own {
            Some(t) => seq![TocEntryV { title: t.0, slug: t.1, children: Seq::empty() }],
            None => Seq::empty(),
        }
    } else {
        Seq::empty()
    }
}

/// The identity pair of a node that defaults both title and slug to its
/// "id" property.
pub open spec fn sp_toc_id_own(props: PropsV) -> Option<(Seq<char>, Seq<char>)> {
    match sp_id_of(props) {
        Some(id) => Some((id, id)),
        None => None,
    }
}

/// The entries of one paragraph item.
pub open spec fn sp_toc_par_item(v: ParagraphItemV, fv: Option<(Seq<TocKind>, TocPolicy)>) -> Seq<
    TocEntryV,
>
    decreases v, 0int,
{
    match v {
        ParagraphItemV::Text(_) => Seq::empty(),
        ParagraphItemV::MText(t) => sp_toc_leaf(fv, TocKind::TextWithMeta, sp_toc_id_own(t.props)),
        ParagraphItemV::Em(e) => sp_toc_leaf(fv, TocKind::Emphasis, sp_toc_id_own(e.props)),
        ParagraphItemV::Code(Ok(c)) => sp_toc_leaf(fv, TocKind::CodeBlock, sp_toc_id_own(c.props)),
        ParagraphItemV::Code(Err(_)) => Seq::empty(),
        ParagraphItemV::Link(l) => sp_toc_link(l, fv),
        ParagraphItemV::List(l) => sp_toc_list(l, fv),
        ParagraphItemV::Table(t) => sp_toc_table(t, fv),
    }
}

/// The entries of a link: shown only with an explicit identifier, its
/// title drawn from its item text.
pub open spec fn sp_toc_link(l: LinkV, fv: Option<(Seq<TocKind>, TocPolicy)>) -> Seq<TocEntryV> {
    match sp_id_of(l.props) {
        Some(id) => sp_toc_leaf(fv, TocKind::Link, Some((sp_link_text(l.items), id))),
        None => sp_toc_leaf(fv, TocKind::Link, None),
    }
}

/// The entries of a paragraph item sequence, in order.
pub open spec fn sp_toc_par_items(
    s: Seq<ParagraphItemV>,
    fv: Option<(Seq<TocKind>, TocPolicy)>,
) -> Seq<TocEntryV>
    decreases s, 1int,
{
    if s.len() == 0 {
        Seq::empty()
    } else {
        sp_toc_par_items(s.drop_last(), fv) + sp_toc_par_item(s[s.len() - 1], fv)
    }
}

/// The entries of a paragraph.
pub open spec fn sp_toc_paragraph(v: ParagraphV, fv: Option<(Seq<TocKind>, TocPolicy)>) -> Seq<
    TocEntryV,
>
    decreases v, 2int,
{
    if sp_toc_stopped(fv, TocKind::Paragraph) {
        Seq::empty()
    } else {
        sp_toc_wrap(
            sp_kind_allowed(fv, TocKind::Paragraph),
            sp_toc_id_own(v.props),
            sp_toc_par_items(v.items, fv),
        )
    }
}

/// The entries of a paragraph sequence, in order.
pub open spec fn sp_toc_paragraphs(s: Seq<ParagraphV>, fv: Option<(Seq<TocKind>, TocPolicy)>) -> Seq<
    TocEntryV,
>
    decreases s, 3int,
{
    if s.len() == 0 {
        Seq::empty()
    } else {
        sp_toc_paragraphs(s.drop_last(), fv) + sp_toc_paragraph(s[s.len() - 1], fv)
    }
}

/// The entries of a list.
pub open spec fn sp_toc_list(v: ListV, fv: Option<(Seq<TocKind>, TocPolicy)>) -> Seq<TocEntryV>
    decreases v, 4int,
{
    if sp_toc_stopped(fv, TocKind::List) {
        Seq::empty()
    } else {
        sp_toc_wrap(
            sp_kind_allowed(fv, TocKind::List),
            sp_toc_id_own(v.props),
            sp_toc_paragraphs(v.items, fv),
        )
    }
}

/// The entries of a table row sequence, in order.
pub open spec fn sp_toc_table_rows(s: Seq<TableRowV>, fv: Option<(Seq<TocKind>, TocPolicy)>) -> Seq<
    TocEntryV,
>
    decreases s, 4int,
{
    if s.len() == 0 {
        Seq::empty()
    } else {
        sp_toc_table_rows(s.drop_last(), fv) + sp_toc_paragraphs(s[s.len() - 1].items, fv)
    }
}

/// The entries of a table.
pub open spec fn sp_toc_table(v: TableV, fv: Option<(Seq<TocKind>, TocPolicy)>) -> Seq<TocEntryV>
    decreases v, 5int,
{
    if sp_toc_stopped(fv, TocKind::Table) {
        Seq::empty()
    } else {
        sp_toc_wrap(
            sp_kind_allowed(fv, TocKind::Table),
            sp_toc_id_own(v.props),
            sp_toc_table_rows(v.items, fv),
        )
    }
}

/// The entries of a link sequence, in order.
pub open spec fn sp_toc_links(s: Seq<LinkV>, fv: Option<(Seq<TocKind>, TocPolicy)>) -> Seq<
    TocEntryV,
>
    decreases s.len(),
{
    if s.len() == 0 {
        Seq::empty()
    } else {
        sp_toc_links(s.drop_last(), fv) + sp_toc_link(s[s.len() - 1], fv)
    }
}

/// The entries of a navigation node sequence, in order.
pub open spec fn sp_toc_navs(s: Seq<NavV>, fv: Option<(Seq<TocKind>, TocPolicy)>) -> Seq<TocEntryV>
    decreases s, 1int,
{
    if s.len() == 0 {
        Seq::empty()
    } else {
        sp_toc_navs(s.drop_last(), fv) + sp_toc_nav(s[s.len() - 1], fv)
    }
}

/// The entries of a navigation node: its sub-navigations, then its links.
pub open spec fn sp_toc_nav(v: NavV, fv: Option<(Seq<TocKind>, TocPolicy)>) -> Seq<TocEntryV>
    decreases v, 2int,
{
    if sp_toc_stopped(fv, TocKind::Nav) {
        Seq::empty()
    } else {
        sp_toc_wrap(
            sp_kind_allowed(fv, TocKind::Nav),
            sp_toc_id_own(v.props),
            sp_toc_navs(v.subs, fv) + sp_toc_links(v.links, fv),
        )
    }
}

/// The entries of a section item sequence, in order.
pub open spec fn sp_toc_section_items(
    s: Seq<crate::SectionItemV>,
    fv: Option<(Seq<TocKind>, TocPolicy)>,
) -> Seq<TocEntryV>
    decreases s, 3int,
{
    if s.len() == 0 {
        Seq::empty()
    } else {
        sp_toc_section_items(s.drop_last(), fv) + (match s[s.len() - 1] {
            crate::SectionItemV::Paragraph(p) => sp_toc_paragraph(p, fv),
            crate::SectionItemV::Section(sub) => sp_toc_section(sub, fv),
        })
    }
}

/// The entries of a section: its own title is built from its heading and
/// classification tags, over the entries of its items.
pub open spec fn sp_toc_section(v: SectionV, fv: Option<(Seq<TocKind>, TocPolicy)>) -> Seq<
    TocEntryV,
>
    decreases v, 4int,
{
    if sp_toc_stopped(fv, TocKind::Section) {
        Seq::empty()
    } else {
        sp_toc_wrap(
            sp_kind_allowed(fv, TocKind::Section),
            Some((sp_section_title(v), sp_slug(sp_heading_text(v.heading.items)))),
            sp_toc_section_items(v.items, fv),
        )
    }
}

/// The entries of a document item sequence, in order.
pub open spec fn sp_toc_doc_items(s: Seq<DocItemV>, fv: Option<(Seq<TocKind>, TocPolicy)>) -> Seq<
    TocEntryV,
>
    decreases s, 5int,
{
    if s.len() == 0 {
        Seq::empty()
    } else {
        sp_toc_doc_items(s.drop_last(), fv) + (match s[s.len() - 1] {
            DocItemV::Nav(n) => sp_toc_nav(n, fv),
            DocItemV::Paragraph(p) => sp_toc_paragraph(p, fv),
            DocItemV::Section(sec) => sp_toc_section(sec, fv),
        })
    }
}

/// The table of contents of a whole document: the document itself is
/// always the root entry, titled by its own "id" property when present.
pub open spec fn sp_toc_doc(d: crate::DocV, fv: Option<(Seq<TocKind>, TocPolicy)>) -> TocEntryV {
    let own = match sp_id_of(d.props) {
        Some(id) => (id, id),
        None => (Seq::empty(), Seq::empty()),
    };
    TocEntryV { title: own.0, slug: own.1, children: sp_toc_doc_items(d.items, fv) }
}

} // verus!

verus! {

/// One slug character: capitals lowered, spaces to hyphens.
fn slug_char(c: char) -> (r: char)
    ensures
        r == sp_slug_char(c),
{
    if c == ' ' {
        return '-';
    }
    let u = c as u32;
    if u >= 65 && u <= 90 {
        proof {
            assert(c >= 'A' && c <= 'Z');
        }
        match c {
            'A' => 'a',
            'B' => 'b',
            'C' => 'c',
            'D' => 'd',
            'E' => 'e',
            'F' => 'f',
            'G' => 'g',
            'H' => 'h',
            'I' => 'i',
            'J' => 'j',
            'K' => 'k',
            'L' => 'l',
            'M' => 'm',
            'N' => 'n',
            'O' => 'o',
            'P' => 'p',
            'Q' => 'q',
            'R' => 'r',
            'S' => 's',
            'T' => 't',
            'U' => 'u',
            'V' => 'v',
            'W' => 'w',
            'X' => 'x',
            'Y' => 'y',
            _ => 'z',
        }
    } else {
        proof {
            assert(sp_lower_char(c) == c);
        }
        c
    }
}

/// The slug of a title.
fn slugify(s: &String) -> (r: String)
    ensures
        r@ == sp_slug(s@),
{
    let n = s.unicode_len();
    let mut out: Vec<char> = Vec::new();
    let mut i: usize = 0;
    while i < n
        invariant
            0 <= i <= n,
            n == s@.len(),
            out@ == s@.subrange(0, i as int).map_values(|c: char| sp_slug_char(c)),
        decreases n - i,
    {
        out.push(slug_char(s.get_char(i)));
        proof {
            assert(out@ =~= s@.subrange(0, i as int + 1).map_values(|c: char| sp_slug_char(c)));
        }
        i += 1;
    }
    proof {
        assert(s@.subrange(0, n as int) =~= s@);
    }
    crate::string_from_chars(&out)
}

/// The first value held for a label, scanning the entries in order.
fn props_lookup<'a>(props: &'a crate::Props, key: &str) -> (r: Option<&'a crate::PropVal>)
    ensures
        match r {
            Some(v) => sp_props_lookup(props@, key@) == Some(v@),
            None => sp_props_lookup(props@, key@) is None,
        },
{
    let owned = key.to_owned();
    let n = props.len();
    proof {
        assert(props@.subrange(0, n as int) =~= props@);
    }
    let mut i: usize = 0;
    while i < n
        invariant
            0 <= i <= n,
            n == props@.len(),
            owned@ == key@,
            sp_props_lookup(props@.subrange(i as int, n as int), key@) == sp_props_lookup(
                props@,
                key@,
            ),
        decreases n - i,
    {
        let entry = props.get(i);
        proof {
            let rem = props@.subrange(i as int, n as int);
            assert(rem[0] == props@[i as int]);
            assert(rem.subrange(1, rem.len() as int) =~= props@.subrange(i as int + 1, n as int));
        }
        if entry.key.eq(&owned) {
            return Some(&entry.val);
        }
        i += 1;
    }
    None
}

/// The explicit identifier of a node: its string "id" property.
fn id_of(props: &crate::Props) -> (r: Option<String>)
    ensures
        match r {
            Some(id) => sp_id_of(props@) == Some(id@),
            None => sp_id_of(props@) is None,
        },
{
    match props_lookup(props, "id") {
        Some(crate::PropVal::String(s)) => Some(s.clone()),
        _ => None,
    }
}

/// Whether a kind passes the filter.
fn kind_allowed(filter: Option<&TocFilter>, k: TocKind) -> (r: bool)
    ensures
        r == sp_kind_allowed(view_filter(filter), k),
{
    match filter {
        None => true,
        Some(f) => {
            let n = f.kinds.len();
            let mut i: usize = 0;
            while i < n
                invariant
                    filter == Some(f),
                    0 <= i <= n,
                    n == f.kinds@.len(),
                    forall|j: int| 0 <= j < i ==> f.kinds@[j] != k,
                decreases n - i,
            {
                if f.kinds[i] == k {
                    proof {
                        assert(f.kinds@[i as int] == k);
                        assert(f.kinds@.contains(k));
                    }
                    return true;
                }
                i += 1;
            }
            proof {
                if f.kinds@.contains(k) {
                    let j = choose|j: int| 0 <= j < f.kinds@.len() && f.kinds@[j] == k;
                    assert(f.kinds@[j] == k);
                    assert(false);
                }
            }
            false
        },
    }
}

/// Whether the filter stops all descent at a node of this kind.
fn toc_stopped(filter: Option<&TocFilter>, k: TocKind) -> (r: bool)
    ensures
        r == sp_toc_stopped(view_filter(filter), k),
{
    if kind_allowed(filter, k) {
        false
    } else {
        match filter {
            Some(f) => matches!(f.policy, TocPolicy::HardStop),
            None => false,
        }
    }
}

/// The entry of a childless node with the given identity.
fn toc_leaf(filter: Option<&TocFilter>, k: TocKind, own: Option<(String, String)>) -> (r: Vec<
    TocEntry,
>)
    ensures
        view_toc_entries(r@) == sp_toc_leaf(
            view_filter(filter),
            k,
            match own {
                Some(t) => Some((t.0@, t.1@)),
                None => None,
            },
        ),
{
    let mut out: Vec<TocEntry> = Vec::new();
    proof {
        assert(view_toc_entries(out@) =~= Seq::<TocEntryV>::empty());
    }
    if kind_allowed(filter, k) {
        match own {
            Some(t) => {
                let entry = TocEntry { title: t.0, slug: t.1, children: Vec::new() };
                proof {
                    assert(view_toc_entries(entry.children@) =~= Seq::<TocEntryV>::empty());
                }
                out.push(entry);
                proof {
                    lemma_view_toc_entries(out@);
                    assert(view_toc_entries(out@) =~= seq![view_toc_entry(out@[0])]);
                }
            },
            None => {},
        }
    }
    out
}

/// Wraps the entries found beneath a node per the filter's policy.
fn toc_wrap(allowed: bool, own: Option<(String, String)>, kids: Vec<TocEntry>) -> (r: Vec<TocEntry>)
    ensures
        view_toc_entries(r@) == sp_toc_wrap(
            allowed,
            match own {
                Some(t) => Some((t.0@, t.1@)),
                None => None,
            },
            view_toc_entries(kids@),
        ),
{
    let ghost kv = view_toc_entries(kids@);
    let keep_own = allowed || kids.len() > 0;
    proof {
        lemma_view_toc_entries(kids@);
    }
    match own {
        Some(t) => {
            if keep_own {
                let entry = TocEntry { title: t.0, slug: t.1, children: kids };
                let mut out: Vec<TocEntry> = Vec::new();
                let ghost ev = view_toc_entry(entry);
                out.push(entry);
                proof {
                    lemma_view_toc_entries(out@);
                    assert(view_toc_entries(out@) =~= seq![ev]);
                }
                out
            } else {
                let out: Vec<TocEntry> = Vec::new();
                proof {
                    assert(view_toc_entries(out@) =~= Seq::<TocEntryV>::empty());
                }
                out
            }
        },
        None => {
            if allowed || kids.len() > 0 {
                kids
            } else {
                let out: Vec<TocEntry> = Vec::new();
                proof {
                    assert(view_toc_entries(out@) =~= Seq::<TocEntryV>::empty());
                    assert(kids@.len() == 0);
                    assert(kv.len() == 0);
                    assert(kv =~= Seq::<TocEntryV>::empty());
                }
                out
            }
        },
    }
}

} // verus!

verus! {

/// Concatenation of entry views distributes over vector append.
proof fn lemma_toc_entries_concat(a: Seq<TocEntry>, b: Seq<TocEntry>)
    ensures
        view_toc_entries(a + b) == view_toc_entries(a) + view_toc_entries(b),
{
    lemma_view_toc_entries(a);
    lemma_view_toc_entries(b);
    lemma_view_toc_entries(a + b);
    assert forall|i: int|
        0 <= i < (a + b).len() implies #[trigger] view_toc_entries(a + b)[i] == (view_toc_entries(
        a,
    ) + view_toc_entries(b))[i] by {
        if i < a.len() {
            assert((a + b)[i] == a[i]);
        } else {
            assert((a + b)[i] == b[i - a.len()]);
        }
    }
    assert(view_toc_entries(a + b) =~= view_toc_entries(a) + view_toc_entries(b));
}

/// The concatenated text of a heading's items.
fn heading_text(items: &Vec<crate::HeadingItem>) -> (r: String)
    ensures
        r@ == sp_heading_text(
            Seq::new(items@.len(), |k: int| crate::view_heading_item(items@[k])),
        ),
{
    let ghost iv = Seq::new(items@.len(), |k: int| crate::view_heading_item(items@[k]));
    let mut out = String::new();
    let n = items.len();
    let mut i: usize = 0;
    while i < n
        invariant
            0 <= i <= n,
            n == items@.len(),
            iv == Seq::new(items@.len(), |k: int| crate::view_heading_item(items@[k])),
            out@ == sp_heading_text(iv.subrange(0, i as int)),
        decreases n - i,
    {
        proof {
            let pre = iv.subrange(0, i as int);
            let cur = iv.subrange(0, i as int + 1);
            assert(cur.drop_last() =~= pre);
            assert(cur[cur.len() - 1] == iv[i as int]);
        }
        match &items[i] {
            crate::HeadingItem::String(s) => out.append(s.as_str()),
            crate::HeadingItem::Em(e) => out.append(e.text.as_str()),
        }
        i += 1;
    }
    proof {
        assert(iv.subrange(0, n as int) =~= iv);
    }
    out
}

/// The concatenated text of a link's items.
fn link_text(items: &Vec<crate::LinkItem>) -> (r: String)
    ensures
        r@ == sp_link_text(Seq::new(items@.len(), |k: int| crate::view_link_item(items@[k]))),
{
    let ghost iv = Seq::new(items@.len(), |k: int| crate::view_link_item(items@[k]));
    let mut out = String::new();
    let n = items.len();
    let mut i: usize = 0;
    while i < n
        invariant
            0 <= i <= n,
            n == items@.len(),
            iv == Seq::new(items@.len(), |k: int| crate::view_link_item(items@[k])),
            out@ == sp_link_text(iv.subrange(0, i as int)),
        decreases n - i,
    {
        proof {
            let pre = iv.subrange(0, i as int);
            let cur = iv.subrange(0, i as int + 1);
            assert(cur.drop_last() =~= pre);
            assert(cur[cur.len() - 1] == iv[i as int]);
        }
        match &items[i] {
            crate::LinkItem::String(s) => out.append(s.as_str()),
            crate::LinkItem::Em(e) => out.append(e.text.as_str()),
        }
        i += 1;
    }
    proof {
        assert(iv.subrange(0, n as int) =~= iv);
    }
    out
}

/// A section's title: its classification prefix and heading text, with a
/// trailing separator trimmed.
fn section_title(section: &crate::Section) -> (r: String)
    ensures
        r@ == sp_section_title(section@),
{
    let mut t = String::new();
    if section.tags.contains(&"footnote".to_owned()) {
        t.append("Footnote definition: ");
    } else if section.tags.contains(&"quote".to_owned()) {
        t.append("Quote: ");
    }
    let ht = heading_text(&section.heading.items);
    t.append(ht.as_str());
    proof {
        assert(section@.heading.items =~= Seq::new(
            section.heading.items@.len(),
            |k: int| crate::view_heading_item(section.heading.items@[k]),
        ));
        assert(t@ == sp_section_prefix(section@.tags) + sp_heading_text(section@.heading.items));
    }
    let n = t.unicode_len();
    if n >= 2 {
        let c1 = t.as_str().get_char(n - 2);
        let c2 = t.as_str().get_char(n - 1);
        if c1 == ':' && c2 == ' ' {
            let mut out: Vec<char> = Vec::new();
            let mut i: usize = 0;
            while i < n - 2
                invariant
                    0 <= i <= n - 2,
                    n == t@.len(),
                    n >= 2,
                    out@ == t@.subrange(0, i as int),
                decreases n - 2 - i,
            {
                out.push(t.as_str().get_char(i));
                proof {
                    assert(out@ =~= t@.subrange(0, i as int + 1));
                }
                i += 1;
            }
            proof {
                reveal_strlit(": ");
                assert(t@.subrange(n - 2, n as int) =~= ": "@);
            }
            return crate::string_from_chars(&out);
        }
        proof {
            reveal_strlit(": ");
            if t@.subrange(n - 2, n as int) == ": "@ {
                assert(t@.subrange(n - 2, n as int)[0] == t@[n - 2]);
                assert(t@.subrange(n - 2, n as int)[1] == t@[n - 1]);
                assert(t@[n - 2] == ':' && t@[n - 1] == ' ');
            }
        }
    }
    t
}

/// The entries of one paragraph item.
fn toc_par_item(item: &crate::ParagraphItem, filter: Option<&TocFilter>) -> (r: Vec<TocEntry>)
    ensures
        view_toc_entries(r@) == sp_toc_par_item(item@, view_filter(filter)),
    decreases *item,
{
    match item {
        crate::ParagraphItem::Text(_) => {
            let out: Vec<TocEntry> = Vec::new();
            proof {
                assert(view_toc_entries(out@) =~= Seq::<TocEntryV>::empty());
            }
            out
        },
        crate::ParagraphItem::MText(t) => {
            let own = match id_of(&t.props) {
                Some(id) => Some((id.clone(), id)),
                None => None,
            };
            toc_leaf(filter, TocKind::TextWithMeta, own)
        },
        crate::ParagraphItem::Em(e) => {
            let own = match id_of(&e.props) {
                Some(id) => Some((id.clone(), id)),
                None => None,
            };
            toc_leaf(filter, TocKind::Emphasis, own)
        },
        crate::ParagraphItem::Code(Ok(c)) => {
            let own = match id_of(&c.props) {
                Some(id) => Some((id.clone(), id)),
                None => None,
            };
            toc_leaf(filter, TocKind::CodeBlock, own)
        },
        crate::ParagraphItem::Code(Err(_)) => {
            let out: Vec<TocEntry> = Vec::new();
            proof {
                assert(view_toc_entries(out@) =~= Seq::<TocEntryV>::empty());
            }
            out
        },
        crate::ParagraphItem::Link(l) => toc_link(l, filter),
        crate::ParagraphItem::List(l) => {
            proof {
                let it = *item;
                assert(decreases_to!(it => it->List_0));
            }
            toc_list(l, filter)
        },
        crate::ParagraphItem::Table(t) => {
            proof {
                let it = *item;
                assert(decreases_to!(it => it->Table_0));
            }
            toc_table(t, filter)
        },
    }
}

/// The entries of a link.
fn toc_link(l: &crate::Link, filter: Option<&TocFilter>) -> (r: Vec<TocEntry>)
    ensures
        view_toc_entries(r@) == sp_toc_link(l@, view_filter(filter)),
{
    match id_of(&l.props) {
        Some(id) => {
            let title = link_text(&l.items);
            toc_leaf(filter, TocKind::Link, Some((title, id)))
        },
        None => toc_leaf(filter, TocKind::Link, None),
    }
}

/// The entries of a paragraph.
#[verifier::rlimit(100)]
fn toc_paragraph(p: &crate::Paragraph, filter: Option<&TocFilter>) -> (r: Vec<TocEntry>)
    ensures
        view_toc_entries(r@) == sp_toc_paragraph(p@, view_filter(filter)),
    decreases *p,
{
    if toc_stopped(filter, TocKind::Paragraph) {
        let out: Vec<TocEntry> = Vec::new();
        proof {
            assert(view_toc_entries(out@) =~= Seq::<TocEntryV>::empty());
        }
        return out;
    }
    let ghost pv = crate::view_paragraph(*p);
    let mut kids: Vec<TocEntry> = Vec::new();
    let n = p.items.len();
    proof {
        crate::lemma_view_par_items(p.items@);
        assert(view_toc_entries(kids@) =~= Seq::<TocEntryV>::empty());
    }
    let mut i: usize = 0;
    while i < n
        invariant
            0 <= i <= n,
            n == p.items@.len(),
            pv == crate::view_paragraph(*p),
            n == pv.items.len(),
            view_toc_entries(kids@) == sp_toc_par_items(
                pv.items.subrange(0, i as int),
                view_filter(filter),
            ),
        decreases n - i,
    {
        proof {
            crate::lemma_view_par_items(p.items@);
            assert(pv.items[i as int] == crate::view_par_item(p.items@[i as int]));
            let ps = *p;
            assert(decreases_to!(ps => ps.items));
            assert(decreases_to!(ps.items => ps.items[i as int]));
            let pre = pv.items.subrange(0, i as int);
            let cur = pv.items.subrange(0, i as int + 1);
            assert(cur.drop_last() =~= pre);
            assert(cur[cur.len() - 1] == pv.items[i as int]);
        }
        let mut sub = toc_par_item(&p.items[i], filter);
        let ghost pre_kids = kids@;
        let ghost sub_v = sub@;
        kids.append(&mut sub);
        proof {
            lemma_toc_entries_concat(pre_kids, sub_v);
        }
        i += 1;
    }
    proof {
        assert(pv.items.subrange(0, n as int) =~= pv.items);
    }
    let own = match id_of(&p.props) {
        Some(id) => Some((id.clone(), id)),
        None => None,
    };
    toc_wrap(kind_allowed(filter, TocKind::Paragraph), own, kids)
}

/// The entries of the paragraphs of a list or table row, in order.
fn toc_paragraphs(items: &Vec<crate::Paragraph>, filter: Option<&TocFilter>) -> (r: Vec<TocEntry>)
    ensures
        view_toc_entries(r@) == sp_toc_paragraphs(
            Seq::new(items@.len(), |k: int| crate::view_paragraph(items@[k])),
            view_filter(filter),
        ),
    decreases items@,
{
    let ghost iv = Seq::new(items@.len(), |k: int| crate::view_paragraph(items@[k]));
    let mut out: Vec<TocEntry> = Vec::new();
    let n = items.len();
    proof {
        assert(view_toc_entries(out@) =~= Seq::<TocEntryV>::empty());
    }
    let mut i: usize = 0;
    while i < n
        invariant
            0 <= i <= n,
            n == items@.len(),
            iv == Seq::new(items@.len(), |k: int| crate::view_paragraph(items@[k])),
            view_toc_entries(out@) == sp_toc_paragraphs(
                iv.subrange(0, i as int),
                view_filter(filter),
            ),
        decreases n - i,
    {
        proof {
            assert(decreases_to!(items@ => items@[i as int]));
            let pre = iv.subrange(0, i as int);
            let cur = iv.subrange(0, i as int + 1);
            assert(cur.drop_last() =~= pre);
            assert(cur[cur.len() - 1] == iv[i as int]);
        }
        let mut sub = toc_paragraph(&items[i], filter);
        let ghost pre_out = out@;
        let ghost sub_v = sub@;
        out.append(&mut sub);
        proof {
            lemma_toc_entries_concat(pre_out, sub_v);
        }
        i += 1;
    }
    proof {
        assert(iv.subrange(0, n as int) =~= iv);
    }
    out
}

/// The entries of a list.
fn toc_list(l: &crate::List, filter: Option<&TocFilter>) -> (r: Vec<TocEntry>)
    ensures
        view_toc_entries(r@) == sp_toc_list(l@, view_filter(filter)),
    decreases *l,
{
    if toc_stopped(filter, TocKind::List) {
        let out: Vec<TocEntry> = Vec::new();
        proof {
            assert(view_toc_entries(out@) =~= Seq::<TocEntryV>::empty());
        }
        return out;
    }
    proof {
        let lv = *l;
        assert(decreases_to!(lv => lv.items));
        assert(decreases_to!(lv.items => lv.items@));
        crate::lemma_view_paragraphs(l.items@);
        assert(crate::view_list(*l).items =~= Seq::new(
            l.items@.len(),
            |k: int| crate::view_paragraph(l.items@[k]),
        ));
    }
    let kids = toc_paragraphs(&l.items, filter);
    let own = match id_of(&l.props) {
        Some(id) => Some((id.clone(), id)),
        None => None,
    };
    toc_wrap(kind_allowed(filter, TocKind::List), own, kids)
}

/// The entries of a table.
#[verifier::rlimit(100)]
fn toc_table(t: &crate::Table, filter: Option<&TocFilter>) -> (r: Vec<TocEntry>)
    ensures
        view_toc_entries(r@) == sp_toc_table(t@, view_filter(filter)),
    decreases *t,
{
    if toc_stopped(filter, TocKind::Table) {
        let out: Vec<TocEntry> = Vec::new();
        proof {
            assert(view_toc_entries(out@) =~= Seq::<TocEntryV>::empty());
        }
        return out;
    }
    let ghost tv = crate::view_table(*t);
    let mut kids: Vec<TocEntry> = Vec::new();
    let n = t.items.len();
    proof {
        crate::lemma_view_table_rows(t.items@);
        assert(view_toc_entries(kids@) =~= Seq::<TocEntryV>::empty());
    }
    let mut i: usize = 0;
    while i < n
        invariant
            0 <= i <= n,
            n == t.items@.len(),
            tv == crate::view_table(*t),
            n == tv.items.len(),
            view_toc_entries(kids@) == sp_toc_table_rows(
                tv.items.subrange(0, i as int),
                view_filter(filter),
            ),
        decreases n - i,
    {
        proof {
            crate::lemma_view_table_rows(t.items@);
            assert(tv.items[i as int] == crate::view_table_row(t.items@[i as int]));
            let ts = *t;
            assert(decreases_to!(ts => ts.items));
            assert(decreases_to!(ts.items => ts.items[i as int]));
            let row = t.items@[i as int];
            assert(decreases_to!(row => row.items));
            assert(decreases_to!(row.items => row.items@));
            crate::lemma_view_paragraphs(t.items@[i as int].items@);
            assert(tv.items[i as int].items =~= Seq::new(
                t.items@[i as int].items@.len(),
                |k: int| crate::view_paragraph(t.items@[i as int].items@[k]),
            ));
            let pre = tv.items.subrange(0, i as int);
            let cur = tv.items.subrange(0, i as int + 1);
            assert(cur.drop_last() =~= pre);
            assert(cur[cur.len() - 1] == tv.items[i as int]);
        }
        let mut sub = toc_paragraphs(&t.items[i].items, filter);
        let ghost pre_kids = kids@;
        let ghost sub_v = sub@;
        kids.append(&mut sub);
        proof {
            lemma_toc_entries_concat(pre_kids, sub_v);
        }
        i += 1;
    }
    proof {
        assert(tv.items.subrange(0, n as int) =~= tv.items);
    }
    let own = match id_of(&t.props) {
        Some(id) => Some((id.clone(), id)),
        None => None,
    };
    toc_wrap(kind_allowed(filter, TocKind::Table), own, kids)
}

/// The entries of a navigation node: sub-navigations, then links.
fn toc_nav(nav: &crate::Nav, filter: Option<&TocFilter>) -> (r: Vec<TocEntry>)
    ensures
        view_toc_entries(r@) == sp_toc_nav(nav@, view_filter(filter)),
    decreases *nav,
{
    if toc_stopped(filter, TocKind::Nav) {
        let out: Vec<TocEntry> = Vec::new();
        proof {
            assert(view_toc_entries(out@) =~= Seq::<TocEntryV>::empty());
        }
        return out;
    }
    let ghost nv = crate::view_nav(*nav);
    let mut kids: Vec<TocEntry> = Vec::new();
    let n = nav.subs.len();
    proof {
        crate::lemma_view_navs(nav.subs@);
        assert(view_toc_entries(kids@) =~= Seq::<TocEntryV>::empty());
    }
    let mut i: usize = 0;
    while i < n
        invariant
            0 <= i <= n,
            n == nav.subs@.len(),
            nv == crate::view_nav(*nav),
            n == nv.subs.len(),
            view_toc_entries(kids@) == sp_toc_navs(
                nv.subs.subrange(0, i as int),
                view_filter(filter),
            ),
        decreases n - i,
    {
        proof {
            crate::lemma_view_navs(nav.subs@);
            assert(nv.subs[i as int] == crate::view_nav(nav.subs@[i as int]));
            let ns = *nav;
            assert(decreases_to!(ns => ns.subs));
            assert(decreases_to!(ns.subs => ns.subs[i as int]));
            let pre = nv.subs.subrange(0, i as int);
            let cur = nv.subs.subrange(0, i as int + 1);
            assert(cur.drop_last() =~= pre);
            assert(cur[cur.len() - 1] == nv.subs[i as int]);
        }
        let mut sub = toc_nav(&nav.subs[i], filter);
        let ghost pre_kids = kids@;
        let ghost sub_v = sub@;
        kids.append(&mut sub);
        proof {
            lemma_toc_entries_concat(pre_kids, sub_v);
        }
        i += 1;
    }
    let m = nav.links.len();
    let ghost links_base = kids@;
    proof {
        assert(nv.subs.subrange(0, n as int) =~= nv.subs);
    }
    let mut j: usize = 0;
    while j < m
        invariant
            0 <= j <= m,
            m == nav.links@.len(),
            nv == crate::view_nav(*nav),
            m == nv.links.len(),
            view_toc_entries(kids@) == sp_toc_navs(nv.subs, view_filter(filter)) + sp_toc_links(
                nv.links.subrange(0, j as int),
                view_filter(filter),
            ),
        decreases m - j,
    {
        proof {
            assert(nv.links[j as int] == crate::view_link(nav.links@[j as int]));
            let pre = nv.links.subrange(0, j as int);
            let cur = nv.links.subrange(0, j as int + 1);
            assert(cur.drop_last() =~= pre);
            assert(cur[cur.len() - 1] == nv.links[j as int]);
        }
        let mut sub = toc_link(&nav.links[j], filter);
        let ghost pre_kids = kids@;
        let ghost sub_v = sub@;
        kids.append(&mut sub);
        proof {
            lemma_toc_entries_concat(pre_kids, sub_v);
        }
        j += 1;
    }
    proof {
        assert(nv.links.subrange(0, m as int) =~= nv.links);
    }
    let own = match id_of(&nav.props) {
        Some(id) => Some((id.clone(), id)),
        None => None,
    };
    toc_wrap(kind_allowed(filter, TocKind::Nav), own, kids)
}

/// The entries of a section.
fn toc_section(section: &crate::Section, filter: Option<&TocFilter>) -> (r: Vec<TocEntry>)
    ensures
        view_toc_entries(r@) == sp_toc_section(section@, view_filter(filter)),
    decreases *section,
{
    if toc_stopped(filter, TocKind::Section) {
        let out: Vec<TocEntry> = Vec::new();
        proof {
            assert(view_toc_entries(out@) =~= Seq::<TocEntryV>::empty());
        }
        return out;
    }
    let ghost sv = crate::view_section(*section);
    let mut kids: Vec<TocEntry> = Vec::new();
    let n = section.items.len();
    proof {
        crate::lemma_view_section_items(section.items@);
        assert(view_toc_entries(kids@) =~= Seq::<TocEntryV>::empty());
    }
    let mut i: usize = 0;
    while i < n
        invariant
            0 <= i <= n,
            n == section.items@.len(),
            sv == crate::view_section(*section),
            n == sv.items.len(),
            view_toc_entries(kids@) == sp_toc_section_items(
                sv.items.subrange(0, i as int),
                view_filter(filter),
            ),
        decreases n - i,
    {
        proof {
            crate::lemma_view_section_items(section.items@);
            assert(sv.items[i as int] == crate::view_section_item(section.items@[i as int]));
            let ss = *section;
            assert(decreases_to!(ss => ss.items));
            assert(decreases_to!(ss.items => ss.items[i as int]));
            let pre = sv.items.subrange(0, i as int);
            let cur = sv.items.subrange(0, i as int + 1);
            assert(cur.drop_last() =~= pre);
            assert(cur[cur.len() - 1] == sv.items[i as int]);
        }
        let mut sub: Vec<TocEntry>;
        match &section.items[i] {
            crate::SectionItem::Paragraph(p) => {
                sub = toc_paragraph(p, filter);
            },
            crate::SectionItem::Section(s) => {
                proof {
                    let it = section.items@[i as int];
                    assert(decreases_to!(it => it->Section_0));
                }
                sub = toc_section(s, filter);
            },
        }
        let ghost pre_kids = kids@;
        let ghost sub_v = sub@;
        kids.append(&mut sub);
        proof {
            lemma_toc_entries_concat(pre_kids, sub_v);
        }
        i += 1;
    }
    proof {
        assert(sv.items.subrange(0, n as int) =~= sv.items);
    }
    let title = section_title(section);
    let ht = heading_text(&section.heading.items);
    proof {
        assert(sv.heading.items =~= Seq::new(
            section.heading.items@.len(),
            |k: int| crate::view_heading_item(section.heading.items@[k]),
        ));
    }
    let slug = slugify(&ht);
    toc_wrap(kind_allowed(filter, TocKind::Section), Some((title, slug)), kids)
}

impl Doc {
    /// Derives the table of contents: the document itself is always the
    /// root entry, and every node beneath contributes per its kind, its
    /// explicit identifier and the filter. The document is not changed.
    pub fn get_table_of_contents(&self, filter: Option<&TocFilter>) -> (r: TocEntry)
        ensures
            r@ == sp_toc_doc(self@, view_filter(filter)),
    {
        let ghost dv = crate::view_doc(*self);
        let mut kids: Vec<TocEntry> = Vec::new();
        let n = self.items.len();
        proof {
            crate::lemma_view_doc_items(self.items@);
            assert(view_toc_entries(kids@) =~= Seq::<TocEntryV>::empty());
        }
        let mut i: usize = 0;
        while i < n
            invariant
                0 <= i <= n,
                n == self.items@.len(),
                dv == crate::view_doc(*self),
                n == dv.items.len(),
                view_toc_entries(kids@) == sp_toc_doc_items(
                    dv.items.subrange(0, i as int),
                    view_filter(filter),
                ),
            decreases n - i,
        {
            proof {
                crate::lemma_view_doc_items(self.items@);
                assert(dv.items[i as int] == crate::view_doc_item(self.items@[i as int]));
                let pre = dv.items.subrange(0, i as int);
                let cur = dv.items.subrange(0, i as int + 1);
                assert(cur.drop_last() =~= pre);
                assert(cur[cur.len() - 1] == dv.items[i as int]);
            }
            let mut sub: Vec<TocEntry>;
            match &self.items[i] {
                crate::DocItem::Nav(nav) => {
                    sub = toc_nav(nav, filter);
                },
                crate::DocItem::Paragraph(p) => {
                    sub = toc_paragraph(p, filter);
                },
                crate::DocItem::Section(s) => {
                    sub = toc_section(s, filter);
                },
            }
            let ghost pre_kids = kids@;
            let ghost sub_v = sub@;
            kids.append(&mut sub);
            proof {
                lemma_toc_entries_concat(pre_kids, sub_v);
            }
            i += 1;
        }
        proof {
            assert(dv.items.subrange(0, n as int) =~= dv.items);
        }
        let (title, slug) = match id_of(&self.props) {
            Some(id) => (id.clone(), id),
            None => (String::new(), String::new()),
        };
        let root = TocEntry { title, slug, children: kids };
        proof {
            lemma_view_toc_entries(root.children@);
        }
        root
    }
}

} // verus!
