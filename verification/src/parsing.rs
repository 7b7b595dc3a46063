//! Construction of the document model from the concrete syntax tree, and
//! the public entry point that parses source text.

use vstd::prelude::*;
use vstd::string::StringExecFns;
use vstd::string::StrSliceExecFns;
use crate::syntax::{
    is_em_key, is_list_key, lemma_view_syntax_nodes, sp_digit_val, sp_uint_val, view_syntax_node,
    view_syntax_nodes, wf_code, wf_code_text, wf_date, wf_emphasis, wf_heading, wf_int,
    wf_link, wf_list, wf_list_children, wf_meta, wf_nav, wf_par_child, wf_par_children,
    wf_paragraph, wf_prop_tuple, wf_prop_val, wf_props, wf_row, wf_row_children, wf_section,
    wf_section_children, wf_snav, wf_snav_children, wf_str, wf_table, wf_table_children, wf_tags,
    wf_text, wf_text_item, wf_top, wf_top_children, wf_uint_lit, wf_word, is_digit_char,
    NodeKind, SyntaxNode, SyntaxNodeV,
};
use crate::actions::{sp_props_absorb, sp_tags_absorb};
use crate::{
    sp_insert_prop, sp_tags_insert, CodeBlock, CodeBlockV, CodeIdentError, CodeModeHint, Date,
    DateError, Doc, DocItem, DocItemV, DocV, EmStrength, EmType, Emphasis, EmphasisV, Heading,
    HeadingItem, HeadingItemV, HeadingV, IntError, Link, LinkItem, LinkItemV, LinkV, List,
    ListType, ListV, Nav, NavV, Paragraph, ParagraphItem, ParagraphItemV, ParagraphV, PropVal,
    PropValV, Props, PropsV, Section, SectionItem, SectionItemV, SectionV, Table, TableRow,
    TableRowV, TableV, Tags, TagsV, TextWithMeta, TextWithMetaV,
};

verus! {

// ---------------------------------------------------------------------------
// What construction computes, over the mathematical values
// ---------------------------------------------------------------------------

/// What reading a string literal yields: line breaks are dropped.
pub open spec fn sp_parse_string(s: Seq<char>) -> Seq<char> {
    s.filter(|c: char| c != '\n' && c != '\r')
}

/// One scan state of prose text normalization: the output so far and
/// whether the last character was a line break or white space, and whether
/// any break has been seen.
pub open spec fn sp_pts_loop(
    rest: Seq<char>,
    acc: Seq<char>,
    last_nl: bool,
    last_ws: bool,
    fresh: bool,
) -> Seq<char>
    decreases rest.len(),
{
    if rest.len() == 0 {
        acc
    } else {
        let c = rest[0];
        let rest2 = rest.subrange(1, rest.len() as int);
        if c == '\n' {
            if !last_nl {
                sp_pts_loop(rest2, acc.push('\n'), true, last_ws, false)
            } else {
                sp_pts_loop(rest2, acc, last_nl, last_ws, false)
            }
        } else if c == '\r' {
            sp_pts_loop(rest2, acc, last_nl, last_ws, fresh)
        } else if crate::is_ws_char(c) {
            if !last_ws {
                if !last_nl || fresh {
                    sp_pts_loop(rest2, acc.push(c), last_nl, true, fresh)
                } else {
                    sp_pts_loop(rest2, acc, last_nl, true, fresh)
                }
            } else {
                sp_pts_loop(rest2, acc, last_nl, last_ws, fresh)
            }
        } else {
            sp_pts_loop(rest2, acc.push(c), false, false, fresh)
        }
    }
}

/// What prose text normalization yields: runs of white space collapse to
/// one space, blank lines collapse to one line break, one leading blank
/// line and one trailing line break are dropped.
pub open spec fn sp_parse_text_string(s: Seq<char>) -> Seq<char> {
    let r = sp_pts_loop(s, Seq::empty(), true, false, true);
    if r.len() > 0 && r[r.len() - 1] == '\n' {
        r.drop_last()
    } else {
        r
    }
}

/// One scan state of verbatim code extraction: structural indentation up to
/// the opening column is stripped, an under-indented non-blank line is an
/// error.
pub open spec fn sp_pct_loop(
    rest: Seq<char>,
    acc: Seq<char>,
    identc: int,
    start_col: int,
    first_nl: bool,
) -> Result<Seq<char>, CodeIdentError>
    decreases rest.len(),
{
    if rest.len() == 0 {
        Ok(acc)
    } else {
        let c = rest[0];
        let rest2 = rest.subrange(1, rest.len() as int);
        if c == ' ' {
            if identc < start_col - 1 {
                sp_pct_loop(rest2, acc, identc + 1, start_col, first_nl)
            } else {
                sp_pct_loop(rest2, acc.push(' '), identc, start_col, first_nl)
            }
        } else if c == '\n' {
            if first_nl {
                sp_pct_loop(rest2, acc, 0, start_col, false)
            } else {
                sp_pct_loop(rest2, acc.push('\n'), 0, start_col, false)
            }
        } else if c == '\r' {
            sp_pct_loop(rest2, acc, identc, start_col, first_nl)
        } else {
            if identc < start_col - 1 {
                Err(CodeIdentError)
            } else {
                sp_pct_loop(rest2, acc.push(c), identc, start_col, first_nl)
            }
        }
    }
}

/// What verbatim code extraction yields for raw text whose opening
/// delimiter stood at the given column.
pub open spec fn sp_parse_code_text(s: Seq<char>, start_col: int) -> Result<
    Seq<char>,
    CodeIdentError,
> {
    match sp_pct_loop(s, Seq::empty(), start_col, start_col, true) {
        Ok(r) => {
            if r.len() > 0 && r[r.len() - 1] == '\n' {
                Ok(r.drop_last())
            } else {
                Ok(r)
            }
        },
        Err(e) => Err(e),
    }
}

/// One step of reading an unsigned decimal number, left to right: the
/// first non-digit is malformed, and the value is checked against the
/// bound digit by digit.
pub open spec fn sp_scan_uint(s: Seq<char>, i: int, acc: nat, bound: nat) -> Result<nat, IntError>
    decreases s.len() - i,
{
    if i < 0 || i >= s.len() {
        Ok(acc)
    } else if !is_digit_char(s[i]) {
        Err(IntError::InvalidDigit)
    } else if acc * 10 + sp_digit_val(s[i]) > bound {
        Err(IntError::OutOfRange)
    } else {
        sp_scan_uint(s, i + 1, acc * 10 + sp_digit_val(s[i]), bound)
    }
}

/// What parsing an unsigned integer yields.
pub open spec fn sp_parse_u64(s: Seq<char>) -> Result<u64, IntError> {
    if s.len() == 0 {
        Err(IntError::Empty)
    } else {
        match sp_scan_uint(s, 0, 0, u64::MAX as nat) {
            Ok(v) => Ok(v as u64),
            Err(e) => Err(e),
        }
    }
}

/// What parsing a signed integer yields.
pub open spec fn sp_parse_i64(s: Seq<char>) -> Result<i64, IntError> {
    if s.len() == 0 {
        Err(IntError::Empty)
    } else if s[0] == '-' {
        if s.len() == 1 {
            Err(IntError::Empty)
        } else {
            match sp_scan_uint(s, 1, 0, 0x8000000000000000nat) {
                Ok(v) => Ok((-(v as int)) as i64),
                Err(e) => Err(e),
            }
        }
    } else {
        match sp_scan_uint(s, 0, 0, i64::MAX as nat) {
            Ok(v) => Ok(v as i64),
            Err(e) => Err(e),
        }
    }
}

/// What parsing a date literal yields: three numbers, checked for numeric
/// range only.
pub open spec fn sp_parse_date(v: SyntaxNodeV) -> Result<Date, DateError> {
    match sp_parse_i64(v.children[0].text) {
        Err(e) => Err(DateError::Parsing(e)),
        Ok(y) => match sp_parse_u64(v.children[1].text) {
            Err(e) => Err(DateError::Parsing(e)),
            Ok(m) => match sp_parse_u64(v.children[2].text) {
                Err(e) => Err(DateError::Parsing(e)),
                Ok(d) => Date::spec_new(y, m, d),
            },
        },
    }
}

/// What parsing one property value yields: a malformed number or date
/// becomes an error value, not a failure.
pub open spec fn sp_parse_prop_val(v: SyntaxNodeV) -> PropValV {
    if v.kind == NodeKind::Str {
        PropValV::String(sp_parse_string(v.text))
    } else if v.kind == NodeKind::Text {
        PropValV::Text(sp_parse_text_string(v.text))
    } else if v.kind == NodeKind::Int {
        match sp_parse_i64(v.text) {
            Ok(x) => PropValV::Int(x),
            Err(e) => PropValV::Error(crate::PropValError::Int(e)),
        }
    } else {
        match sp_parse_date(v) {
            Ok(d) => PropValV::Date(d),
            Err(e) => PropValV::Error(crate::PropValError::Date(e)),
        }
    }
}

/// What parsing a tags block yields: each string label inserted in order;
/// a props block in the same position yields nothing.
pub open spec fn sp_parse_tags(v: SyntaxNodeV) -> Option<TagsV> {
    if v.kind == NodeKind::Tags {
        Some(sp_tags_absorb(Seq::empty(), v.children.map_values(|c: SyntaxNodeV| sp_parse_string(c.text))))
    } else {
        None
    }
}

/// What parsing a props block yields: each entry inserted in order under
/// the sticky-error rule.
pub open spec fn sp_parse_props(v: SyntaxNodeV) -> PropsV {
    sp_props_absorb(
        Seq::empty(),
        v.children.map_values(
            |c: SyntaxNodeV| (sp_parse_string(c.children[0].text), sp_parse_prop_val(c.children[1])),
        ),
    )
}

/// Folding trailing metadata blocks in source order into accumulated tags
/// and properties.
pub open spec fn sp_fold_meta(rest: Seq<SyntaxNodeV>, tags: TagsV, props: PropsV) -> (
    TagsV,
    PropsV,
)
    decreases rest.len(),
{
    if rest.len() == 0 {
        (tags, props)
    } else {
        let c = rest[0];
        let rest2 = rest.subrange(1, rest.len() as int);
        if c.kind == NodeKind::Tags {
            sp_fold_meta(rest2, sp_tags_absorb(tags, sp_parse_tags(c).unwrap()), props)
        } else if c.kind == NodeKind::Props {
            sp_fold_meta(rest2, tags, sp_props_absorb(props, sp_parse_props(c)))
        } else {
            sp_fold_meta(rest2, tags, props)
        }
    }
}

/// What parsing an emphasis construct yields.
pub open spec fn sp_parse_emphasis(v: SyntaxNodeV) -> EmphasisV {
    let key = v.children[0].text;
    let strength = if key == "le"@ || key == "ld"@ {
        EmStrength::Light
    } else if key == "me"@ || key == "md"@ {
        EmStrength::Medium
    } else {
        EmStrength::Strong
    };
    let etype = if key == "le"@ || key == "me"@ || key == "se"@ {
        EmType::Emphasis
    } else {
        EmType::Deemphasis
    };
    let meta = sp_fold_meta(
        v.children.subrange(2, v.children.len() as int),
        Seq::empty(),
        Seq::empty(),
    );
    EmphasisV {
        strength,
        etype,
        text: sp_parse_string(v.children[1].text),
        tags: meta.0,
        props: meta.1,
    }
}

/// What parsing a text item yields: normalized text plus its metadata.
pub open spec fn sp_parse_text_item(v: SyntaxNodeV) -> TextWithMetaV {
    let meta = sp_fold_meta(
        v.children.subrange(1, v.children.len() as int),
        Seq::empty(),
        Seq::empty(),
    );
    TextWithMetaV {
        text: sp_parse_text_string(v.children[0].text),
        tags: meta.0,
        props: meta.1,
    }
}

/// What parsing a code mode string yields: unknown modes fall back to Show.
pub open spec fn sp_parse_code_mode(s: Seq<char>) -> CodeModeHint {
    if s == "runnable"@ {
        CodeModeHint::Runnable
    } else if s == "run"@ {
        CodeModeHint::Run
    } else if s == "replace"@ {
        CodeModeHint::Replace
    } else {
        CodeModeHint::Show
    }
}

/// What parsing a code construct yields: a failed indentation extraction is
/// an error result carried as a value.
pub open spec fn sp_parse_code(v: SyntaxNodeV) -> Result<CodeBlockV, CodeIdentError> {
    match sp_parse_code_text(v.children[2].text, v.children[2].col as int) {
        Err(e) => Err(e),
        Ok(code) => {
            let meta = sp_fold_meta(
                v.children.subrange(3, v.children.len() as int),
                Seq::empty(),
                Seq::empty(),
            );
            Ok(
                CodeBlockV {
                    language: sp_parse_string(v.children[0].text),
                    mode: sp_parse_code_mode(sp_parse_string(v.children[1].text)),
                    code,
                    tags: meta.0,
                    props: meta.1,
                },
            )
        },
    }
}

/// Folding the trailing children of a link: strings and emphases become
/// items, metadata blocks are absorbed.
pub open spec fn sp_fold_link(rest: Seq<SyntaxNodeV>, items: Seq<LinkItemV>, tags: TagsV, props: PropsV) -> (
    Seq<LinkItemV>,
    TagsV,
    PropsV,
)
    decreases rest.len(),
{
    if rest.len() == 0 {
        (items, tags, props)
    } else {
        let c = rest[0];
        let rest2 = rest.subrange(1, rest.len() as int);
        if c.kind == NodeKind::Str {
            sp_fold_link(rest2, items.push(LinkItemV::String(sp_parse_string(c.text))), tags, props)
        } else if c.kind == NodeKind::Emphasis {
            sp_fold_link(rest2, items.push(LinkItemV::Em(sp_parse_emphasis(c))), tags, props)
        } else if c.kind == NodeKind::Tags {
            sp_fold_link(rest2, items, sp_tags_absorb(tags, sp_parse_tags(c).unwrap()), props)
        } else {
            sp_fold_link(rest2, items, tags, sp_props_absorb(props, sp_parse_props(c)))
        }
    }
}

/// What parsing a link construct yields.
pub open spec fn sp_parse_link(v: SyntaxNodeV) -> LinkV {
    let folded = sp_fold_link(
        v.children.subrange(1, v.children.len() as int),
        Seq::empty(),
        Seq::empty(),
        Seq::empty(),
    );
    LinkV {
        url: sp_parse_string(v.children[0].text),
        items: folded.0,
        tags: folded.1,
        props: folded.2,
    }
}

/// Folding the trailing children of a heading: strings and emphases become
/// items, metadata blocks are absorbed.
pub open spec fn sp_fold_heading(
    rest: Seq<SyntaxNodeV>,
    items: Seq<HeadingItemV>,
    tags: TagsV,
    props: PropsV,
) -> (Seq<HeadingItemV>, TagsV, PropsV)
    decreases rest.len(),
{
    if rest.len() == 0 {
        (items, tags, props)
    } else {
        let c = rest[0];
        let rest2 = rest.subrange(1, rest.len() as int);
        if c.kind == NodeKind::Str {
            sp_fold_heading(
                rest2,
                items.push(HeadingItemV::String(sp_parse_string(c.text))),
                tags,
                props,
            )
        } else if c.kind == NodeKind::Emphasis {
            sp_fold_heading(rest2, items.push(HeadingItemV::Em(sp_parse_emphasis(c))), tags, props)
        } else if c.kind == NodeKind::Tags {
            sp_fold_heading(rest2, items, sp_tags_absorb(tags, sp_parse_tags(c).unwrap()), props)
        } else {
            sp_fold_heading(rest2, items, tags, sp_props_absorb(props, sp_parse_props(c)))
        }
    }
}

/// The absolute level of a heading declared at a relative level under an
/// enclosing level: their sum, saturating at 255.
pub open spec fn sp_abs_level(rel: nat, base: nat) -> u8 {
    if rel + base >= 255 {
        255u8
    } else {
        (rel + base) as u8
    }
}

/// What parsing a heading construct yields, under an enclosing level.
pub open spec fn sp_parse_heading(v: SyntaxNodeV, base: nat) -> HeadingV {
    let folded = sp_fold_heading(
        v.children.subrange(1, v.children.len() as int),
        Seq::empty(),
        Seq::empty(),
        Seq::empty(),
    );
    HeadingV {
        level: sp_abs_level(sp_uint_val(v.children[0].text), base),
        items: folded.0,
        tags: folded.1,
        props: folded.2,
    }
}

} // verus!

verus! {

/// Folding the children of a list: paragraphs become items, metadata
/// blocks are absorbed.
pub open spec fn sp_fold_list(
    s: Seq<SyntaxNodeV>,
    i: int,
    items: Seq<ParagraphV>,
    tags: TagsV,
    props: PropsV,
) -> (Seq<ParagraphV>, TagsV, PropsV)
    decreases s, 6int, s.len() - i,
{
    if i < 0 || i >= s.len() {
        (items, tags, props)
    } else {
        let c = s[i];
        if c.kind == NodeKind::Paragraph {
            sp_fold_list(s, i + 1, items.push(sp_parse_paragraph(c)), tags, props)
        } else if c.kind == NodeKind::Tags {
            sp_fold_list(s, i + 1, items, sp_tags_absorb(tags, sp_parse_tags(c).unwrap()), props)
        } else {
            sp_fold_list(s, i + 1, items, tags, sp_props_absorb(props, sp_parse_props(c)))
        }
    }
}

/// What parsing a list construct yields.
pub open spec fn sp_parse_list(v: SyntaxNodeV) -> ListV
    decreases v, 7int,
{
    let key = v.children[0].text;
    let ltype = if key == "dl"@ {
        ListType::Distinct
    } else if key == "cl"@ {
        ListType::Checked
    } else {
        ListType::Identical
    };
    let folded = sp_fold_list(v.children, 1, Seq::empty(), Seq::empty(), Seq::empty());
    ListV { ltype, items: folded.0, tags: folded.1, props: folded.2 }
}

/// Folding the children of a table row: paragraphs become cells, metadata
/// blocks are absorbed.
pub open spec fn sp_fold_row(
    rest: Seq<SyntaxNodeV>,
    items: Seq<ParagraphV>,
    tags: TagsV,
    props: PropsV,
) -> (Seq<ParagraphV>, TagsV, PropsV)
    decreases rest, 6int,
{
    if rest.len() == 0 {
        (items, tags, props)
    } else {
        let c = rest[0];
        let rest2 = rest.subrange(1, rest.len() as int);
        if c.kind == NodeKind::Paragraph {
            sp_fold_row(rest2, items.push(sp_parse_paragraph(c)), tags, props)
        } else if c.kind == NodeKind::Tags {
            sp_fold_row(rest2, items, sp_tags_absorb(tags, sp_parse_tags(c).unwrap()), props)
        } else {
            sp_fold_row(rest2, items, tags, sp_props_absorb(props, sp_parse_props(c)))
        }
    }
}

/// What parsing one table row yields.
pub open spec fn sp_parse_row(v: SyntaxNodeV) -> TableRowV
    decreases v, 7int,
{
    let folded = sp_fold_row(v.children, Seq::empty(), Seq::empty(), Seq::empty());
    TableRowV {
        is_header: v.kind == NodeKind::HeadRow,
        items: folded.0,
        tags: folded.1,
        props: folded.2,
    }
}

/// Folding the children of a table: rows become rows, metadata blocks are
/// absorbed.
pub open spec fn sp_fold_table(
    rest: Seq<SyntaxNodeV>,
    items: Seq<TableRowV>,
    tags: TagsV,
    props: PropsV,
) -> (Seq<TableRowV>, TagsV, PropsV)
    decreases rest, 8int,
{
    if rest.len() == 0 {
        (items, tags, props)
    } else {
        let c = rest[0];
        let rest2 = rest.subrange(1, rest.len() as int);
        if c.kind == NodeKind::HeadRow || c.kind == NodeKind::Row {
            sp_fold_table(rest2, items.push(sp_parse_row(c)), tags, props)
        } else if c.kind == NodeKind::Tags {
            sp_fold_table(rest2, items, sp_tags_absorb(tags, sp_parse_tags(c).unwrap()), props)
        } else {
            sp_fold_table(rest2, items, tags, sp_props_absorb(props, sp_parse_props(c)))
        }
    }
}

/// What parsing a table construct yields.
pub open spec fn sp_parse_table(v: SyntaxNodeV) -> TableV
    decreases v, 9int,
{
    let folded = sp_fold_table(v.children, Seq::empty(), Seq::empty(), Seq::empty());
    TableV { items: folded.0, tags: folded.1, props: folded.2 }
}

/// Folding the children of a paragraph: content becomes items in order,
/// metadata blocks are absorbed; a text item without metadata is held as
/// plain text.
pub open spec fn sp_fold_par(
    rest: Seq<SyntaxNodeV>,
    items: Seq<ParagraphItemV>,
    tags: TagsV,
    props: PropsV,
) -> (Seq<ParagraphItemV>, TagsV, PropsV)
    decreases rest, 10int,
{
    if rest.len() == 0 {
        (items, tags, props)
    } else {
        let c = rest[0];
        let rest2 = rest.subrange(1, rest.len() as int);
        if c.kind == NodeKind::TextItem {
            let t = sp_parse_text_item(c);
            if t.tags.len() == 0 && t.props.len() == 0 {
                sp_fold_par(rest2, items.push(ParagraphItemV::Text(t.text)), tags, props)
            } else {
                sp_fold_par(rest2, items.push(ParagraphItemV::MText(t)), tags, props)
            }
        } else if c.kind == NodeKind::Emphasis {
            sp_fold_par(rest2, items.push(ParagraphItemV::Em(sp_parse_emphasis(c))), tags, props)
        } else if c.kind == NodeKind::Code {
            sp_fold_par(rest2, items.push(ParagraphItemV::Code(sp_parse_code(c))), tags, props)
        } else if c.kind == NodeKind::List {
            sp_fold_par(rest2, items.push(ParagraphItemV::List(sp_parse_list(c))), tags, props)
        } else if c.kind == NodeKind::Link {
            sp_fold_par(rest2, items.push(ParagraphItemV::Link(sp_parse_link(c))), tags, props)
        } else if c.kind == NodeKind::Table {
            sp_fold_par(rest2, items.push(ParagraphItemV::Table(sp_parse_table(c))), tags, props)
        } else if c.kind == NodeKind::Tags {
            sp_fold_par(rest2, items, sp_tags_absorb(tags, sp_parse_tags(c).unwrap()), props)
        } else {
            sp_fold_par(rest2, items, tags, sp_props_absorb(props, sp_parse_props(c)))
        }
    }
}

/// What parsing a paragraph construct yields.
pub open spec fn sp_parse_paragraph(v: SyntaxNodeV) -> ParagraphV
    decreases v, 11int,
{
    let folded = sp_fold_par(v.children, Seq::empty(), Seq::empty(), Seq::empty());
    ParagraphV { items: folded.0, tags: folded.1, props: folded.2 }
}

/// Folding the children of a navigation node: nested sub-navigations and
/// links become children, metadata blocks are absorbed.
pub open spec fn sp_fold_nav(
    s: Seq<SyntaxNodeV>,
    i: int,
    subs: Seq<NavV>,
    links: Seq<LinkV>,
    tags: TagsV,
    props: PropsV,
) -> (Seq<NavV>, Seq<LinkV>, TagsV, PropsV)
    decreases s, 2int, s.len() - i,
{
    if i < 0 || i >= s.len() {
        (subs, links, tags, props)
    } else {
        let c = s[i];
        if c.kind == NodeKind::Snav {
            sp_fold_nav(s, i + 1, subs.push(sp_parse_snav(c)), links, tags, props)
        } else if c.kind == NodeKind::Link {
            sp_fold_nav(s, i + 1, subs, links.push(sp_parse_link(c)), tags, props)
        } else if c.kind == NodeKind::Tags {
            sp_fold_nav(
                s,
                i + 1,
                subs,
                links,
                sp_tags_absorb(tags, sp_parse_tags(c).unwrap()),
                props,
            )
        } else {
            sp_fold_nav(s, i + 1, subs, links, tags, sp_props_absorb(props, sp_parse_props(c)))
        }
    }
}

/// What parsing a sub-navigation construct yields.
pub open spec fn sp_parse_snav(v: SyntaxNodeV) -> NavV
    decreases v, 3int,
{
    let folded = sp_fold_nav(v.children, 1, Seq::empty(), Seq::empty(), Seq::empty(), Seq::empty());
    NavV {
        description: sp_parse_string(v.children[0].text),
        subs: folded.0,
        links: folded.1,
        tags: folded.2,
        props: folded.3,
    }
}

/// What parsing a top-level navigation construct yields: its description is
/// empty.
pub open spec fn sp_parse_nav(v: SyntaxNodeV) -> NavV
    decreases v, 3int,
{
    let folded = sp_fold_nav(v.children, 0, Seq::empty(), Seq::empty(), Seq::empty(), Seq::empty());
    NavV {
        description: Seq::empty(),
        subs: folded.0,
        links: folded.1,
        tags: folded.2,
        props: folded.3,
    }
}

/// Folding the children of a section after its heading: paragraphs and
/// nested sections become items, metadata blocks are absorbed. A nested
/// section's level accumulates on this section's absolute level.
pub open spec fn sp_fold_section(
    s: Seq<SyntaxNodeV>,
    i: int,
    level: nat,
    items: Seq<SectionItemV>,
    tags: TagsV,
    props: PropsV,
) -> (Seq<SectionItemV>, TagsV, PropsV)
    decreases s, 12int, s.len() - i,
{
    if i < 0 || i >= s.len() {
        (items, tags, props)
    } else {
        let c = s[i];
        if c.kind == NodeKind::Paragraph {
            sp_fold_section(
                s,
                i + 1,
                level,
                items.push(SectionItemV::Paragraph(sp_parse_paragraph(c))),
                tags,
                props,
            )
        } else if c.kind == NodeKind::Section {
            sp_fold_section(
                s,
                i + 1,
                level,
                items.push(SectionItemV::Section(sp_parse_section(c, level))),
                tags,
                props,
            )
        } else if c.kind == NodeKind::Tags {
            sp_fold_section(
                s,
                i + 1,
                level,
                items,
                sp_tags_absorb(tags, sp_parse_tags(c).unwrap()),
                props,
            )
        } else {
            sp_fold_section(
                s,
                i + 1,
                level,
                items,
                tags,
                sp_props_absorb(props, sp_parse_props(c)),
            )
        }
    }
}

/// What parsing a section construct yields, under an enclosing absolute
/// heading level.
pub open spec fn sp_parse_section(v: SyntaxNodeV, base: nat) -> SectionV
    decreases v, 13int,
{
    let heading = sp_parse_heading(v.children[0], base);
    let folded = sp_fold_section(
        v.children,
        1,
        heading.level as nat,
        Seq::empty(),
        Seq::empty(),
        Seq::empty(),
    );
    SectionV { heading, items: folded.0, tags: folded.1, props: folded.2 }
}

/// Folding the top-level constructs of a document: navigation, paragraphs
/// and sections become items, metadata blocks are absorbed, anything else
/// is dropped.
pub open spec fn sp_fold_doc(
    rest: Seq<SyntaxNodeV>,
    items: Seq<DocItemV>,
    tags: TagsV,
    props: PropsV,
) -> (Seq<DocItemV>, TagsV, PropsV)
    decreases rest, 14int,
{
    if rest.len() == 0 {
        (items, tags, props)
    } else {
        let c = rest[0];
        let rest2 = rest.subrange(1, rest.len() as int);
        if c.kind == NodeKind::Paragraph {
            sp_fold_doc(rest2, items.push(DocItemV::Paragraph(sp_parse_paragraph(c))), tags, props)
        } else if c.kind == NodeKind::Section {
            sp_fold_doc(
                rest2,
                items.push(DocItemV::Section(sp_parse_section(c, 0))),
                tags,
                props,
            )
        } else if c.kind == NodeKind::Nav {
            sp_fold_doc(rest2, items.push(DocItemV::Nav(sp_parse_nav(c))), tags, props)
        } else if c.kind == NodeKind::Tags {
            sp_fold_doc(rest2, items, sp_tags_absorb(tags, sp_parse_tags(c).unwrap()), props)
        } else if c.kind == NodeKind::Props {
            sp_fold_doc(rest2, items, tags, sp_props_absorb(props, sp_parse_props(c)))
        } else {
            sp_fold_doc(rest2, items, tags, props)
        }
    }
}

/// What constructing a whole document from the syntax tree yields.
pub open spec fn sp_parse_doc(v: SyntaxNodeV) -> DocV {
    let folded = sp_fold_doc(v.children, Seq::empty(), Seq::empty(), Seq::empty());
    DocV { tags: folded.1, props: folded.2, items: folded.0 }
}

} // verus!

verus! {

// ---------------------------------------------------------------------------
// Construction: the value readers
// ---------------------------------------------------------------------------

/// Reads a string literal: line breaks are dropped.
fn parse_string(s: &str) -> (r: String)
    ensures
        r@ == sp_parse_string(s@),
{
    let ghost pred = |c: char| c != '\n' && c != '\r';
    let n = s.unicode_len();
    let mut out: Vec<char> = Vec::new();
    proof {
        reveal(Seq::filter);
        assert(s@.subrange(0, 0) =~= Seq::<char>::empty());
        assert(Seq::<char>::empty().filter(pred) =~= Seq::<char>::empty());
    }
    let mut i: usize = 0;
    while i < n
        invariant
            0 <= i <= n,
            n == s@.len(),
            out@ == s@.subrange(0, i as int).filter(|c: char| c != '\n' && c != '\r'),
        decreases n - i,
    {
        let c = s.get_char(i);
        proof {
            reveal(Seq::filter);
            let pre = s@.subrange(0, i as int);
            let cur = s@.subrange(0, i as int + 1);
            assert(cur.drop_last() =~= pre);
            assert(cur.last() == s@[i as int]);
        }
        if c != '\n' && c != '\r' {
            out.push(c);
        }
        i += 1;
    }
    proof {
        assert(s@.subrange(0, n as int) =~= s@);
    }
    crate::string_from_chars(&out)
}

/// Normalizes prose text: white-space runs collapse to one space, blank
/// lines to one line break; a single leading blank line and a single
/// trailing line break are dropped.
pub fn parse_text_string(string: &str) -> (r: String)
    ensures
        r@ == sp_parse_text_string(string@),
{
    let n = string.unicode_len();
    let mut acc: Vec<char> = Vec::new();
    let mut last_nl = true;
    let mut last_ws = false;
    let mut fresh = true;
    proof {
        assert(string@.subrange(0, n as int) =~= string@);
    }
    let mut i: usize = 0;
    while i < n
        invariant
            0 <= i <= n,
            n == string@.len(),
            sp_pts_loop(string@.subrange(i as int, n as int), acc@, last_nl, last_ws, fresh)
                == sp_pts_loop(string@, Seq::empty(), true, false, true),
        decreases n - i,
    {
        let c = string.get_char(i);
        proof {
            let rem = string@.subrange(i as int, n as int);
            assert(rem[0] == c);
            assert(rem.subrange(1, rem.len() as int) =~= string@.subrange(i as int + 1, n as int));
        }
        if c == '\n' {
            if !last_nl {
                last_nl = true;
                acc.push('\n');
            }
            fresh = false;
        } else if c == '\r' {
        } else if crate::char_is_ws(c) {
            if !last_ws {
                if !last_nl || fresh {
                    acc.push(c);
                }
                last_ws = true;
            }
        } else {
            last_nl = false;
            last_ws = false;
            acc.push(c);
        }
        i += 1;
    }
    proof {
        assert(string@.subrange(n as int, n as int) =~= Seq::<char>::empty());
    }
    if acc.len() > 0 {
        let last = acc[acc.len() - 1];
        if last == '\n' {
            let _ = acc.pop();
            proof {
                let r = sp_pts_loop(string@, Seq::empty(), true, false, true);
                assert(acc@ =~= r.drop_last());
            }
        }
    }
    crate::string_from_chars(&acc)
}

/// Extracts verbatim code text whose opening delimiter stood at the given
/// column: structural indentation up to that column is stripped, and an
/// under-indented non-blank line fails with an indentation error.
fn parse_code_text(node: &SyntaxNode) -> (r: Result<String, CodeIdentError>)
    requires
        wf_code_text(node@),
    ensures
        match r {
            Ok(code) => sp_parse_code_text(node@.text, node@.col as int) == Ok::<
                Seq<char>,
                CodeIdentError,
            >(code@),
            Err(e) => sp_parse_code_text(node@.text, node@.col as int) == Err::<
                Seq<char>,
                CodeIdentError,
            >(e),
        },
{
    let start_col = node.col;
    let s = &node.text;
    let n = s.unicode_len();
    let mut acc: Vec<char> = Vec::new();
    let mut identc: usize = start_col;
    let mut first_nl = true;
    proof {
        assert(s@.subrange(0, n as int) =~= s@);
    }
    let mut i: usize = 0;
    while i < n
        invariant
            0 <= i <= n,
            n == s@.len(),
            s == &node.text,
            start_col == node.col,
            start_col >= 1,
            identc <= usize::MAX,
            sp_pct_loop(
                s@.subrange(i as int, n as int),
                acc@,
                identc as int,
                start_col as int,
                first_nl,
            ) == sp_pct_loop(s@, Seq::empty(), start_col as int, start_col as int, true),
        decreases n - i,
    {
        let c = s.as_str().get_char(i);
        proof {
            let rem = s@.subrange(i as int, n as int);
            assert(rem[0] == c);
            assert(rem.subrange(1, rem.len() as int) =~= s@.subrange(i as int + 1, n as int));
        }
        if c == ' ' {
            if identc < start_col - 1 {
                identc += 1;
            } else {
                acc.push(' ');
            }
        } else if c == '\n' {
            identc = 0;
            if first_nl {
                first_nl = false;
            } else {
                acc.push('\n');
            }
        } else if c == '\r' {
        } else {
            if identc < start_col - 1 {
                return Err(CodeIdentError);
            }
            acc.push(c);
        }
        i += 1;
    }
    proof {
        assert(s@.subrange(n as int, n as int) =~= Seq::<char>::empty());
    }
    if acc.len() > 0 {
        let last = acc[acc.len() - 1];
        if last == '\n' {
            let _ = acc.pop();
            proof {
                let lr = sp_pct_loop(
                    s@,
                    Seq::empty(),
                    start_col as int,
                    start_col as int,
                    true,
                );
                assert(acc@ =~= lr.unwrap().drop_last());
            }
        }
    }
    Ok(crate::string_from_chars(&acc))
}

/// How a digit-only prefix bounds the whole number: appending digits never
/// shrinks the value.
pub(crate) proof fn lemma_uint_val_prefix(s: Seq<char>, k: int)
    requires
        0 <= k <= s.len(),
    ensures
        sp_uint_val(s.subrange(0, k)) <= sp_uint_val(s),
    decreases s.len() - k,
{
    if k < s.len() {
        lemma_uint_val_prefix(s, k + 1);
        let a = s.subrange(0, k);
        let b = s.subrange(0, k + 1);
        assert(b.drop_last() =~= a);
        assert(b[b.len() - 1] == s[k]);
        assert(sp_uint_val(b) == sp_uint_val(a) * 10 + crate::syntax::sp_digit_val(s[k]));
        assert(sp_uint_val(a) * 10 >= sp_uint_val(a)) by (nonlinear_arith);
    } else {
        assert(s.subrange(0, k) =~= s);
    }
}

/// The numeric value of one digit character, or ten for anything else.
fn digit_val(c: char) -> (d: u64)
    ensures
        d == sp_digit_val(c),
{
    match c {
        '0' => 0,
        '1' => 1,
        '2' => 2,
        '3' => 3,
        '4' => 4,
        '5' => 5,
        '6' => 6,
        '7' => 7,
        '8' => 8,
        '9' => 9,
        _ => 10,
    }
}

/// Reads an unsigned decimal number bounded by the given value, left to
/// right.
fn scan_uint(s: &str, from: usize, bound: u64) -> (r: Result<u64, IntError>)
    requires
        from <= s@.len(),
        bound >= 10,
    ensures
        match r {
            Ok(v) => sp_scan_uint(s@, from as int, 0, bound as nat) == Ok::<nat, IntError>(
                v as nat,
            ) && v <= bound,
            Err(e) => sp_scan_uint(s@, from as int, 0, bound as nat) == Err::<nat, IntError>(e),
        },
{
    let n = s.unicode_len();
    let mut acc: u64 = 0;
    let mut i: usize = from;
    while i < n
        invariant
            from <= i <= n,
            n == s@.len(),
            bound >= 10,
            acc <= bound,
            sp_scan_uint(s@, i as int, acc as nat, bound as nat) == sp_scan_uint(
                s@,
                from as int,
                0,
                bound as nat,
            ),
        decreases n - i,
    {
        let c = s.get_char(i);
        let d = digit_val(c);
        if d >= 10 {
            return Err(IntError::InvalidDigit);
        }
        if acc > (bound - d) / 10 {
            proof {
                assert(acc as nat * 10 + d as nat > bound as nat) by (nonlinear_arith)
                    requires
                        acc > (bound - d) / 10,
                        d < 10,
                        d <= bound,
                        acc <= bound,
                ;
            }
            return Err(IntError::OutOfRange);
        }
        proof {
            assert(acc as nat * 10 + d as nat <= bound as nat) by (nonlinear_arith)
                requires
                    acc <= (bound - d) / 10,
                    d < 10,
                    d <= bound,
            ;
        }
        acc = acc * 10 + d;
        i += 1;
    }
    Ok(acc)
}

} // verus!

verus! {

/// Reads a signed decimal number as std would: sign, then digits left to
/// right, the first non-digit malformed and the bound checked digit by
/// digit.
fn parse_int(s: &str) -> (r: Result<i64, IntError>)
    ensures
        r == sp_parse_i64(s@),
{
    let n = s.unicode_len();
    if n == 0 {
        return Err(IntError::Empty);
    }
    let c0 = s.get_char(0);
    if c0 == '-' {
        if n == 1 {
            return Err(IntError::Empty);
        }
        match scan_uint(s, 1, 9223372036854775808u64) {
            Ok(v) => {
                if v == 9223372036854775808u64 {
                    Ok(i64::MIN)
                } else {
                    Ok(-(v as i64))
                }
            },
            Err(e) => Err(e),
        }
    } else {
        match scan_uint(s, 0, i64::MAX as u64) {
            Ok(v) => Ok(v as i64),
            Err(e) => Err(e),
        }
    }
}

/// Reads an unsigned decimal number as std would.
fn parse_u64(s: &str) -> (r: Result<u64, IntError>)
    ensures
        r == sp_parse_u64(s@),
{
    let n = s.unicode_len();
    if n == 0 {
        return Err(IntError::Empty);
    }
    match scan_uint(s, 0, u64::MAX) {
        Ok(v) => Ok(v),
        Err(e) => Err(e),
    }
}

/// The scan of a digit-only bounded literal reads off its value.
proof fn lemma_scan_uint_val(s: Seq<char>, i: int, bound: nat)
    requires
        0 <= i <= s.len(),
        forall|j: int| 0 <= j < s.len() ==> is_digit_char(#[trigger] s[j]),
        sp_uint_val(s) <= bound,
    ensures
        sp_scan_uint(s, i, sp_uint_val(s.subrange(0, i)), bound) == Ok::<nat, IntError>(
            sp_uint_val(s),
        ),
    decreases s.len() - i,
{
    if i == s.len() {
        assert(s.subrange(0, i) =~= s);
    } else {
        let a = s.subrange(0, i);
        let b = s.subrange(0, i + 1);
        assert(b.drop_last() =~= a);
        assert(b[b.len() - 1] == s[i]);
        assert(sp_uint_val(b) == sp_uint_val(a) * 10 + sp_digit_val(s[i]));
        lemma_uint_val_prefix(s, i + 1);
        lemma_scan_uint_val(s, i + 1, bound);
    }
}

/// Reads a heading level literal, whose shape the syntax layer guarantees.
fn parse_uint(s: &str) -> (r: u64)
    requires
        crate::syntax::wf_uint_lit(s@),
    ensures
        r as nat == sp_uint_val(s@),
{
    proof {
        assert(s@.subrange(0, 0) =~= Seq::<char>::empty());
        lemma_scan_uint_val(s@, 0, u64::MAX as nat);
    }
    match scan_uint(s, 0, u64::MAX) {
        Ok(v) => v,
        Err(_) => {
            proof {
                assert(false);
            }
            0
        },
    }
}

/// Reads a date literal: three numbers checked for numeric range only; any
/// malformed part is reported, never a panic.
fn parse_date(node: &SyntaxNode) -> (r: Result<Date, DateError>)
    requires
        wf_date(node@),
    ensures
        r == sp_parse_date(node@),
{
    proof {
        lemma_view_syntax_nodes(node.children@);
    }
    let y = match parse_int(node.children[0].text.as_str()) {
        Ok(y) => y,
        Err(e) => {
            return Err(DateError::Parsing(e));
        },
    };
    let m = match parse_u64(node.children[1].text.as_str()) {
        Ok(m) => m,
        Err(e) => {
            return Err(DateError::Parsing(e));
        },
    };
    let d = match parse_u64(node.children[2].text.as_str()) {
        Ok(d) => d,
        Err(e) => {
            return Err(DateError::Parsing(e));
        },
    };
    Date::new(y, m, d)
}

/// Whether a string holds exactly the given literal.
fn str_is(s: &String, lit: &str) -> (r: bool)
    ensures
        r == (s@ == lit@),
{
    let owned = lit.to_owned();
    s.eq(&owned)
}

/// Reads one property value; malformed numbers and dates become error
/// values.
fn parse_prop_val(node: &SyntaxNode) -> (r: PropVal)
    requires
        crate::syntax::wf_prop_val(node@),
    ensures
        r@ == sp_parse_prop_val(node@),
{
    match node.kind {
        NodeKind::Str => PropVal::String(parse_string(node.text.as_str())),
        NodeKind::Text => PropVal::Text(parse_text_string(node.text.as_str())),
        NodeKind::Int => match parse_int(node.text.as_str()) {
            Ok(x) => PropVal::Int(x),
            Err(e) => PropVal::Error(crate::PropValError::Int(e)),
        },
        _ => match parse_date(node) {
            Ok(d) => PropVal::Date(d),
            Err(e) => PropVal::Error(crate::PropValError::Date(e)),
        },
    }
}

/// Reads a tags block into a fresh tag collection; a props block in the
/// same position yields nothing.
fn parse_tags(node: &SyntaxNode) -> (r: Option<Tags>)
    requires
        wf_meta(node@),
    ensures
        match r {
            Some(t) => node@.kind == NodeKind::Tags && t.wf() && Some(t@) == sp_parse_tags(node@),
            None => node@.kind != NodeKind::Tags,
        },
{
    if !matches!(node.kind, NodeKind::Tags) {
        return None;
    }
    let ghost mapped = node@.children.map_values(|c: SyntaxNodeV| sp_parse_string(c.text));
    let mut tags = Tags::new();
    let n = node.children.len();
    proof {
        lemma_view_syntax_nodes(node.children@);
        assert(mapped.subrange(0, 0) =~= Seq::<Seq<char>>::empty());
    }
    let mut i: usize = 0;
    while i < n
        invariant
            0 <= i <= n,
            n == node.children@.len(),
            mapped == node@.children.map_values(|c: SyntaxNodeV| sp_parse_string(c.text)),
            n == mapped.len(),
            tags.wf(),
            tags@ == crate::actions::sp_tags_absorb(Seq::empty(), mapped.subrange(0, i as int)),
        decreases n - i,
    {
        proof {
            lemma_view_syntax_nodes(node.children@);
            assert(node@.children[i as int] == view_syntax_node(node.children@[i as int]));
        }
        let label = parse_string(node.children[i].text.as_str());
        proof {
            crate::actions::lemma_tags_absorb_snoc(
                Seq::empty(),
                mapped.subrange(0, i as int),
                mapped[i as int],
            );
            assert(mapped.subrange(0, i as int).push(mapped[i as int]) =~= mapped.subrange(
                0,
                i as int + 1,
            ));
        }
        tags.insert(label);
        i += 1;
    }
    proof {
        assert(mapped.subrange(0, n as int) =~= mapped);
    }
    Some(tags)
}

/// Reads a props block into a fresh property mapping, entry by entry under
/// the sticky-error rule.
fn parse_props(node: &SyntaxNode) -> (r: Props)
    requires
        crate::syntax::wf_props(node@),
    ensures
        r.wf(),
        r@ == sp_parse_props(node@),
{
    let ghost mapped = node@.children.map_values(
        |c: SyntaxNodeV| (sp_parse_string(c.children[0].text), sp_parse_prop_val(c.children[1])),
    );
    let mut props = Props::new();
    let n = node.children.len();
    proof {
        lemma_view_syntax_nodes(node.children@);
        assert(mapped.subrange(0, 0) =~= Seq::<(Seq<char>, PropValV)>::empty());
    }
    let mut i: usize = 0;
    while i < n
        invariant
            0 <= i <= n,
            n == node.children@.len(),
            mapped == node@.children.map_values(
                |c: SyntaxNodeV| (
                    sp_parse_string(c.children[0].text),
                    sp_parse_prop_val(c.children[1]),
                ),
            ),
            n == mapped.len(),
            node@ == view_syntax_node(*node),
            crate::syntax::wf_props(node@),
            props.wf(),
            props@ == crate::actions::sp_props_absorb(Seq::empty(), mapped.subrange(0, i as int)),
        decreases n - i,
    {
        proof {
            lemma_view_syntax_nodes(node.children@);
            assert(node@.children[i as int] == view_syntax_node(node.children@[i as int]));
            assert(crate::syntax::wf_prop_tuple(node@.children[i as int]));
        }
        let tuple = &node.children[i];
        proof {
            lemma_view_syntax_nodes(tuple.children@);
            assert(tuple@.children[0] == view_syntax_node(tuple.children@[0]));
            assert(tuple@.children[1] == view_syntax_node(tuple.children@[1]));
        }
        let k = parse_string(tuple.children[0].text.as_str());
        let v = parse_prop_val(&tuple.children[1]);
        proof {
            crate::actions::lemma_props_absorb_snoc(
                Seq::empty(),
                mapped.subrange(0, i as int),
                mapped[i as int].0,
                mapped[i as int].1,
            );
            assert(mapped.subrange(0, i as int).push(mapped[i as int]) =~= mapped.subrange(
                0,
                i as int + 1,
            ));
            assert(mapped[i as int] == (mapped[i as int].0, mapped[i as int].1));
        }
        crate::insert_prop(&mut props, (k, v));
        i += 1;
    }
    proof {
        assert(mapped.subrange(0, n as int) =~= mapped);
    }
    props
}

/// Folds the metadata blocks among the children of a construct, from the
/// given position on, into the accumulated tags and properties.
fn fold_meta(children: &Vec<SyntaxNode>, from: usize, tags: &mut Tags, props: &mut Props)
    requires
        from <= children@.len(),
        old(tags).wf(),
        old(props).wf(),
        forall|i: int|
            from <= i < children@.len() ==> wf_meta(
                #[trigger] view_syntax_nodes(children@)[i],
            ),
    ensures
        final(tags).wf(),
        final(props).wf(),
        (final(tags)@, final(props)@) == sp_fold_meta(
            view_syntax_nodes(children@).subrange(from as int, children@.len() as int),
            old(tags)@,
            old(props)@,
        ),
{
    let n = children.len();
    let ghost cv = view_syntax_nodes(children@);
    proof {
        lemma_view_syntax_nodes(children@);
        assert(cv.subrange(n as int, n as int) =~= Seq::<SyntaxNodeV>::empty());
    }
    let mut i: usize = from;
    while i < n
        invariant
            from <= i <= n,
            n == children@.len(),
            cv == view_syntax_nodes(children@),
            n == cv.len(),
            tags.wf(),
            props.wf(),
            forall|j: int| from <= j < n ==> wf_meta(#[trigger] cv[j]),
            sp_fold_meta(cv.subrange(i as int, n as int), tags@, props@) == sp_fold_meta(
                cv.subrange(from as int, n as int),
                old(tags)@,
                old(props)@,
            ),
        decreases n - i,
    {
        proof {
            lemma_view_syntax_nodes(children@);
            assert(cv[i as int] == view_syntax_node(children@[i as int]));
            let rem = cv.subrange(i as int, n as int);
            assert(rem[0] == cv[i as int]);
            assert(rem.subrange(1, rem.len() as int) =~= cv.subrange(i as int + 1, n as int));
        }
        let child = &children[i];
        match parse_tags(child) {
            Some(t) => {
                crate::actions::Absorb::absorb(tags, Some(t));
            },
            None => {
                let ps = parse_props(child);
                crate::actions::Absorb::absorb(props, ps);
            },
        }
        i += 1;
    }
    proof {
        assert(cv.subrange(n as int, n as int) =~= Seq::<SyntaxNodeV>::empty());
    }
}

} // verus!

verus! {

/// Reads an emphasis construct.
pub fn parse_emphasis(node: &SyntaxNode) -> (r: Emphasis)
    requires
        wf_emphasis(node@),
    ensures
        r@ == sp_parse_emphasis(node@),
{
    proof {
        lemma_view_syntax_nodes(node.children@);
        assert(node@.children[0] == view_syntax_node(node.children@[0]));
        assert(node@.children[1] == view_syntax_node(node.children@[1]));
    }
    let key = &node.children[0].text;
    let strength = if str_is(key, "le") || str_is(key, "ld") {
        EmStrength::Light
    } else if str_is(key, "me") || str_is(key, "md") {
        EmStrength::Medium
    } else {
        EmStrength::Strong
    };
    let etype = if str_is(key, "le") || str_is(key, "me") || str_is(key, "se") {
        EmType::Emphasis
    } else {
        EmType::Deemphasis
    };
    let text = parse_string(node.children[1].text.as_str());
    let mut tags = Tags::new();
    let mut props = Props::new();
    proof {
        assert forall|i: int|
            2 <= i < node.children@.len() implies wf_meta(
            #[trigger] view_syntax_nodes(node.children@)[i],
        ) by {
            lemma_view_syntax_nodes(node.children@);
        }
    }
    fold_meta(&node.children, 2, &mut tags, &mut props);
    proof {
        assert(view_syntax_nodes(node.children@).subrange(2, node.children@.len() as int)
            =~= node@.children.subrange(2, node@.children.len() as int));
    }
    Emphasis { strength, etype, text, tags, props }
}

/// Reads a text item: the normalized text with its metadata.
fn parse_text_item(node: &SyntaxNode) -> (r: TextWithMeta)
    requires
        crate::syntax::wf_text_item(node@),
    ensures
        r@ == sp_parse_text_item(node@),
{
    proof {
        lemma_view_syntax_nodes(node.children@);
        assert(node@.children[0] == view_syntax_node(node.children@[0]));
    }
    let text = parse_text_string(node.children[0].text.as_str());
    let mut tags = Tags::new();
    let mut props = Props::new();
    proof {
        assert forall|i: int|
            1 <= i < node.children@.len() implies wf_meta(
            #[trigger] view_syntax_nodes(node.children@)[i],
        ) by {
            lemma_view_syntax_nodes(node.children@);
        }
    }
    fold_meta(&node.children, 1, &mut tags, &mut props);
    proof {
        assert(view_syntax_nodes(node.children@).subrange(1, node.children@.len() as int)
            =~= node@.children.subrange(1, node@.children.len() as int));
    }
    TextWithMeta { text, tags, props }
}

/// Reads a code mode string: unknown modes fall back to Show.
fn parse_code_mode(s: &String) -> (r: CodeModeHint)
    ensures
        r == sp_parse_code_mode(s@),
{
    if str_is(s, "runnable") {
        CodeModeHint::Runnable
    } else if str_is(s, "run") {
        CodeModeHint::Run
    } else if str_is(s, "replace") {
        CodeModeHint::Replace
    } else {
        CodeModeHint::Show
    }
}

/// Reads a code construct; a failed indentation extraction is carried as an
/// error result.
fn parse_code(node: &SyntaxNode) -> (r: Result<CodeBlock, CodeIdentError>)
    requires
        wf_code(node@),
    ensures
        match r {
            Ok(c) => sp_parse_code(node@) == Ok::<CodeBlockV, CodeIdentError>(c@),
            Err(e) => sp_parse_code(node@) == Err::<CodeBlockV, CodeIdentError>(e),
        },
{
    proof {
        lemma_view_syntax_nodes(node.children@);
        assert(node@.children[0] == view_syntax_node(node.children@[0]));
        assert(node@.children[1] == view_syntax_node(node.children@[1]));
        assert(node@.children[2] == view_syntax_node(node.children@[2]));
    }
    let language = parse_string(node.children[0].text.as_str());
    let mode = parse_code_mode(&parse_string(node.children[1].text.as_str()));
    let code = match parse_code_text(&node.children[2]) {
        Ok(code) => code,
        Err(e) => {
            return Err(e);
        },
    };
    let mut tags = Tags::new();
    let mut props = Props::new();
    proof {
        assert forall|i: int|
            3 <= i < node.children@.len() implies wf_meta(
            #[trigger] view_syntax_nodes(node.children@)[i],
        ) by {
            lemma_view_syntax_nodes(node.children@);
        }
    }
    fold_meta(&node.children, 3, &mut tags, &mut props);
    proof {
        assert(view_syntax_nodes(node.children@).subrange(3, node.children@.len() as int)
            =~= node@.children.subrange(3, node@.children.len() as int));
    }
    Ok(CodeBlock { language, mode, code, tags, props })
}

/// Reads a link construct.
fn parse_link(node: &SyntaxNode) -> (r: Link)
    requires
        wf_link(node@),
    ensures
        r@ == sp_parse_link(node@),
{
    proof {
        lemma_view_syntax_nodes(node.children@);
        assert(node@.children[0] == view_syntax_node(node.children@[0]));
    }
    let url = parse_string(node.children[0].text.as_str());
    let mut items: Vec<LinkItem> = Vec::new();
    let mut tags = Tags::new();
    let mut props = Props::new();
    let n = node.children.len();
    let ghost cv = node@.children;
    proof {
        assert(Seq::new(items@.len(), |k: int| crate::view_link_item(items@[k])) =~= Seq::<
            LinkItemV,
        >::empty());
    }
    let mut i: usize = 1;
    while i < n
        invariant
            1 <= i <= n,
            n == node.children@.len(),
            cv == node@.children,
            node@ == view_syntax_node(*node),
            wf_link(node@),
            n == cv.len(),
            tags.wf(),
            props.wf(),
            sp_fold_link(
                cv.subrange(i as int, n as int),
                Seq::new(items@.len(), |k: int| crate::view_link_item(items@[k])),
                tags@,
                props@,
            ) == sp_fold_link(
                cv.subrange(1, n as int),
                Seq::empty(),
                Seq::empty(),
                Seq::empty(),
            ),
        decreases n - i,
    {
        proof {
            lemma_view_syntax_nodes(node.children@);
            assert(cv[i as int] == view_syntax_node(node.children@[i as int]));
            let rem = cv.subrange(i as int, n as int);
            assert(rem[0] == cv[i as int]);
            assert(rem.subrange(1, rem.len() as int) =~= cv.subrange(i as int + 1, n as int));
        }
        let child = &node.children[i];
        let ghost pre_items = items@;
        match child.kind {
            NodeKind::Str => {
                items.push(LinkItem::String(parse_string(child.text.as_str())));
                proof {
                    assert(Seq::new(items@.len(), |k: int| crate::view_link_item(items@[k]))
                        =~= Seq::new(
                        pre_items.len(),
                        |k: int| crate::view_link_item(pre_items[k]),
                    ).push(crate::view_link_item(items@[pre_items.len() as int])));
                }
            },
            NodeKind::Emphasis => {
                let em = parse_emphasis(child);
                items.push(LinkItem::Em(em));
                proof {
                    assert(Seq::new(items@.len(), |k: int| crate::view_link_item(items@[k]))
                        =~= Seq::new(
                        pre_items.len(),
                        |k: int| crate::view_link_item(pre_items[k]),
                    ).push(crate::view_link_item(items@[pre_items.len() as int])));
                }
            },
            _ => {
                match parse_tags(child) {
                    Some(t) => {
                        crate::actions::Absorb::absorb(&mut tags, Some(t));
                    },
                    None => {
                        let ps = parse_props(child);
                        crate::actions::Absorb::absorb(&mut props, ps);
                    },
                }
            },
        }
        i += 1;
    }
    proof {
        assert(cv.subrange(n as int, n as int) =~= Seq::<SyntaxNodeV>::empty());
        assert(crate::view_link(Link { url: url, items: items, tags: tags, props: props })
            .items =~= Seq::new(items@.len(), |k: int| crate::view_link_item(items@[k])));
    }
    Link { url, items, tags, props }
}

/// Reads a heading construct under an enclosing absolute level: its own
/// level is the enclosing level plus the declared relative level,
/// saturating at 255. The enclosing level is updated to the new absolute
/// level for the items that follow.
pub fn parse_heading(heading_level: &mut u64, node: &SyntaxNode) -> (r: Heading)
    requires
        *old(heading_level) <= 255,
        wf_heading(node@),
    ensures
        r@ == sp_parse_heading(node@, *old(heading_level) as nat),
        *final(heading_level) == r.level as u64,
{
    proof {
        lemma_view_syntax_nodes(node.children@);
        assert(node@.children[0] == view_syntax_node(node.children@[0]));
    }
    let rel = parse_uint(node.children[0].text.as_str());
    let base = *heading_level;
    let level: u8 = if rel >= 255 {
        255
    } else if rel + base >= 255 {
        255
    } else {
        (rel + base) as u8
    };
    *heading_level = level as u64;
    let mut items: Vec<HeadingItem> = Vec::new();
    let mut tags = Tags::new();
    let mut props = Props::new();
    let n = node.children.len();
    let ghost cv = node@.children;
    proof {
        assert(Seq::new(items@.len(), |k: int| crate::view_heading_item(items@[k])) =~= Seq::<
            HeadingItemV,
        >::empty());
    }
    let mut i: usize = 1;
    while i < n
        invariant
            1 <= i <= n,
            n == node.children@.len(),
            cv == node@.children,
            node@ == view_syntax_node(*node),
            wf_heading(node@),
            n == cv.len(),
            tags.wf(),
            props.wf(),
            sp_fold_heading(
                cv.subrange(i as int, n as int),
                Seq::new(items@.len(), |k: int| crate::view_heading_item(items@[k])),
                tags@,
                props@,
            ) == sp_fold_heading(
                cv.subrange(1, n as int),
                Seq::empty(),
                Seq::empty(),
                Seq::empty(),
            ),
        decreases n - i,
    {
        proof {
            lemma_view_syntax_nodes(node.children@);
            assert(cv[i as int] == view_syntax_node(node.children@[i as int]));
            let rem = cv.subrange(i as int, n as int);
            assert(rem[0] == cv[i as int]);
            assert(rem.subrange(1, rem.len() as int) =~= cv.subrange(i as int + 1, n as int));
        }
        let child = &node.children[i];
        let ghost pre_items = items@;
        match child.kind {
            NodeKind::Str => {
                items.push(HeadingItem::String(parse_string(child.text.as_str())));
                proof {
                    assert(Seq::new(items@.len(), |k: int| crate::view_heading_item(items@[k]))
                        =~= Seq::new(
                        pre_items.len(),
                        |k: int| crate::view_heading_item(pre_items[k]),
                    ).push(crate::view_heading_item(items@[pre_items.len() as int])));
                }
            },
            NodeKind::Emphasis => {
                let em = parse_emphasis(child);
                items.push(HeadingItem::Em(em));
                proof {
                    assert(Seq::new(items@.len(), |k: int| crate::view_heading_item(items@[k]))
                        =~= Seq::new(
                        pre_items.len(),
                        |k: int| crate::view_heading_item(pre_items[k]),
                    ).push(crate::view_heading_item(items@[pre_items.len() as int])));
                }
            },
            _ => {
                match parse_tags(child) {
                    Some(t) => {
                        crate::actions::Absorb::absorb(&mut tags, Some(t));
                    },
                    None => {
                        let ps = parse_props(child);
                        crate::actions::Absorb::absorb(&mut props, ps);
                    },
                }
            },
        }
        i += 1;
    }
    proof {
        assert(cv.subrange(n as int, n as int) =~= Seq::<SyntaxNodeV>::empty());
        assert(crate::view_heading(
            Heading { level: level, items: items, tags: tags, props: props },
        ).items =~= Seq::new(items@.len(), |k: int| crate::view_heading_item(items@[k])));
    }
    Heading { level, items, tags, props }
}

} // verus!

verus! {

/// Reads a list construct.
pub fn parse_list(node: &SyntaxNode) -> (r: List)
    requires
        wf_list(node@),
    ensures
        r@ == sp_parse_list(node@),
    decreases *node,
{
    proof {
        lemma_view_syntax_nodes(node.children@);
        assert(node@.children[0] == view_syntax_node(node.children@[0]));
    }
    let key = &node.children[0].text;
    let ltype = if str_is(key, "dl") {
        ListType::Distinct
    } else if str_is(key, "cl") {
        ListType::Checked
    } else {
        ListType::Identical
    };
    let mut items: Vec<Paragraph> = Vec::new();
    let mut tags = Tags::new();
    let mut props = Props::new();
    let n = node.children.len();
    let ghost cv = node@.children;
    proof {
        assert(Seq::new(items@.len(), |k: int| crate::view_paragraph(items@[k])) =~= Seq::<
            ParagraphV,
        >::empty());
    }
    let mut i: usize = 1;
    while i < n
        invariant
            1 <= i <= n,
            n == node.children@.len(),
            cv == node@.children,
            node@ == view_syntax_node(*node),
            wf_list(node@),
            n == cv.len(),
            tags.wf(),
            props.wf(),
            sp_fold_list(
                cv,
                i as int,
                Seq::new(items@.len(), |k: int| crate::view_paragraph(items@[k])),
                tags@,
                props@,
            ) == sp_fold_list(cv, 1, Seq::empty(), Seq::empty(), Seq::empty()),
        decreases n - i,
    {
        proof {
            lemma_view_syntax_nodes(node.children@);
            assert(cv[i as int] == view_syntax_node(node.children@[i as int]));
            crate::syntax::lemma_wf_list_children(
                cv.subrange(1, n as int),
            );
            assert(cv.subrange(1, n as int)[i - 1] == cv[i as int]);
        }
        let child = &node.children[i];
        let ghost pre_items = items@;
        match child.kind {
            NodeKind::Paragraph => {
                proof {
                    let nd = *node;
                    assert(decreases_to!(nd => nd.children));
                    assert(decreases_to!(nd.children => nd.children[i as int]));
                }
                let par = parse_paragraph(child);
                items.push(par);
                proof {
                    assert(Seq::new(items@.len(), |k: int| crate::view_paragraph(items@[k]))
                        =~= Seq::new(
                        pre_items.len(),
                        |k: int| crate::view_paragraph(pre_items[k]),
                    ).push(crate::view_paragraph(items@[pre_items.len() as int])));
                }
            },
            _ => {
                match parse_tags(child) {
                    Some(t) => {
                        crate::actions::Absorb::absorb(&mut tags, Some(t));
                    },
                    None => {
                        let ps = parse_props(child);
                        crate::actions::Absorb::absorb(&mut props, ps);
                    },
                }
            },
        }
        i += 1;
    }
    proof {
        crate::lemma_view_paragraphs(items@);
        assert(crate::view_list(
            List { ltype: ltype, items: items, tags: tags, props: props },
        ).items =~= Seq::new(items@.len(), |k: int| crate::view_paragraph(items@[k])));
    }
    List { ltype, items, tags, props }
}

/// Reads one table row.
fn parse_table_row(node: &SyntaxNode) -> (r: TableRow)
    requires
        wf_row(node@),
    ensures
        r@ == sp_parse_row(node@),
    decreases *node,
{
    let is_header = matches!(node.kind, NodeKind::HeadRow);
    let mut items: Vec<Paragraph> = Vec::new();
    let mut tags = Tags::new();
    let mut props = Props::new();
    let n = node.children.len();
    let ghost cv = node@.children;
    proof {
        lemma_view_syntax_nodes(node.children@);
        assert(cv.subrange(0, n as int) =~= cv);
        assert(Seq::new(items@.len(), |k: int| crate::view_paragraph(items@[k])) =~= Seq::<
            ParagraphV,
        >::empty());
    }
    let mut i: usize = 0;
    while i < n
        invariant
            0 <= i <= n,
            n == node.children@.len(),
            cv == node@.children,
            node@ == view_syntax_node(*node),
            wf_row(node@),
            n == cv.len(),
            tags.wf(),
            props.wf(),
            sp_fold_row(
                cv.subrange(i as int, n as int),
                Seq::new(items@.len(), |k: int| crate::view_paragraph(items@[k])),
                tags@,
                props@,
            ) == sp_fold_row(cv, Seq::empty(), Seq::empty(), Seq::empty()),
        decreases n - i,
    {
        proof {
            lemma_view_syntax_nodes(node.children@);
            assert(cv[i as int] == view_syntax_node(node.children@[i as int]));
            crate::syntax::lemma_wf_row_children(cv);
            let rem = cv.subrange(i as int, n as int);
            assert(rem[0] == cv[i as int]);
            assert(rem.subrange(1, rem.len() as int) =~= cv.subrange(i as int + 1, n as int));
        }
        let child = &node.children[i];
        let ghost pre_items = items@;
        match child.kind {
            NodeKind::Paragraph => {
                proof {
                    let nd = *node;
                    assert(decreases_to!(nd => nd.children));
                    assert(decreases_to!(nd.children => nd.children[i as int]));
                }
                let par = parse_paragraph(child);
                items.push(par);
                proof {
                    assert(Seq::new(items@.len(), |k: int| crate::view_paragraph(items@[k]))
                        =~= Seq::new(
                        pre_items.len(),
                        |k: int| crate::view_paragraph(pre_items[k]),
                    ).push(crate::view_paragraph(items@[pre_items.len() as int])));
                }
            },
            _ => {
                match parse_tags(child) {
                    Some(t) => {
                        crate::actions::Absorb::absorb(&mut tags, Some(t));
                    },
                    None => {
                        let ps = parse_props(child);
                        crate::actions::Absorb::absorb(&mut props, ps);
                    },
                }
            },
        }
        i += 1;
    }
    proof {
        assert(cv.subrange(n as int, n as int) =~= Seq::<SyntaxNodeV>::empty());
        crate::lemma_view_paragraphs(items@);
        assert(crate::view_table_row(
            TableRow { is_header: is_header, items: items, tags: tags, props: props },
        ).items =~= Seq::new(items@.len(), |k: int| crate::view_paragraph(items@[k])));
    }
    TableRow { is_header, items, tags, props }
}

/// Reads a table construct.
fn parse_table(node: &SyntaxNode) -> (r: Table)
    requires
        wf_table(node@),
    ensures
        r@ == sp_parse_table(node@),
    decreases *node,
{
    let mut items: Vec<TableRow> = Vec::new();
    let mut tags = Tags::new();
    let mut props = Props::new();
    let n = node.children.len();
    let ghost cv = node@.children;
    proof {
        lemma_view_syntax_nodes(node.children@);
        assert(cv.subrange(0, n as int) =~= cv);
        assert(Seq::new(items@.len(), |k: int| crate::view_table_row(items@[k])) =~= Seq::<
            TableRowV,
        >::empty());
    }
    let mut i: usize = 0;
    while i < n
        invariant
            0 <= i <= n,
            n == node.children@.len(),
            cv == node@.children,
            node@ == view_syntax_node(*node),
            wf_table(node@),
            n == cv.len(),
            tags.wf(),
            props.wf(),
            sp_fold_table(
                cv.subrange(i as int, n as int),
                Seq::new(items@.len(), |k: int| crate::view_table_row(items@[k])),
                tags@,
                props@,
            ) == sp_fold_table(cv, Seq::empty(), Seq::empty(), Seq::empty()),
        decreases n - i,
    {
        proof {
            lemma_view_syntax_nodes(node.children@);
            assert(cv[i as int] == view_syntax_node(node.children@[i as int]));
            crate::syntax::lemma_wf_table_children(cv);
            let rem = cv.subrange(i as int, n as int);
            assert(rem[0] == cv[i as int]);
            assert(rem.subrange(1, rem.len() as int) =~= cv.subrange(i as int + 1, n as int));
        }
        let child = &node.children[i];
        let ghost pre_items = items@;
        match child.kind {
            NodeKind::HeadRow | NodeKind::Row => {
                proof {
                    let nd = *node;
                    assert(decreases_to!(nd => nd.children));
                    assert(decreases_to!(nd.children => nd.children[i as int]));
                }
                let row = parse_table_row(child);
                items.push(row);
                proof {
                    assert(Seq::new(items@.len(), |k: int| crate::view_table_row(items@[k]))
                        =~= Seq::new(
                        pre_items.len(),
                        |k: int| crate::view_table_row(pre_items[k]),
                    ).push(crate::view_table_row(items@[pre_items.len() as int])));
                }
            },
            _ => {
                match parse_tags(child) {
                    Some(t) => {
                        crate::actions::Absorb::absorb(&mut tags, Some(t));
                    },
                    None => {
                        let ps = parse_props(child);
                        crate::actions::Absorb::absorb(&mut props, ps);
                    },
                }
            },
        }
        i += 1;
    }
    proof {
        assert(cv.subrange(n as int, n as int) =~= Seq::<SyntaxNodeV>::empty());
        crate::lemma_view_table_rows(items@);
        assert(crate::view_table(Table { items: items, tags: tags, props: props }).items
            =~= Seq::new(items@.len(), |k: int| crate::view_table_row(items@[k])));
    }
    Table { items, tags, props }
}

/// Reads a paragraph construct.
pub fn parse_paragraph(node: &SyntaxNode) -> (r: Paragraph)
    requires
        wf_paragraph(node@),
    ensures
        r@ == sp_parse_paragraph(node@),
    decreases *node,
{
    let mut items: Vec<ParagraphItem> = Vec::new();
    let mut tags = Tags::new();
    let mut props = Props::new();
    let n = node.children.len();
    let ghost cv = node@.children;
    proof {
        lemma_view_syntax_nodes(node.children@);
        assert(cv.subrange(0, n as int) =~= cv);
        assert(Seq::new(items@.len(), |k: int| crate::view_par_item(items@[k])) =~= Seq::<
            ParagraphItemV,
        >::empty());
    }
    let mut i: usize = 0;
    while i < n
        invariant
            0 <= i <= n,
            n == node.children@.len(),
            cv == node@.children,
            node@ == view_syntax_node(*node),
            wf_paragraph(node@),
            n == cv.len(),
            tags.wf(),
            props.wf(),
            sp_fold_par(
                cv.subrange(i as int, n as int),
                Seq::new(items@.len(), |k: int| crate::view_par_item(items@[k])),
                tags@,
                props@,
            ) == sp_fold_par(cv, Seq::empty(), Seq::empty(), Seq::empty()),
        decreases n - i,
    {
        proof {
            lemma_view_syntax_nodes(node.children@);
            assert(cv[i as int] == view_syntax_node(node.children@[i as int]));
            crate::syntax::lemma_wf_par_children(cv);
            let rem = cv.subrange(i as int, n as int);
            assert(rem[0] == cv[i as int]);
            assert(rem.subrange(1, rem.len() as int) =~= cv.subrange(i as int + 1, n as int));
        }
        let child = &node.children[i];
        let ghost pre_items = items@;
        let mut pushed = false;
        match child.kind {
            NodeKind::TextItem => {
                let t = parse_text_item(child);
                if t.meta_is_empty() {
                    items.push(ParagraphItem::Text(t.text));
                } else {
                    items.push(ParagraphItem::MText(t));
                }
                pushed = true;
            },
            NodeKind::Emphasis => {
                items.push(ParagraphItem::Em(parse_emphasis(child)));
                pushed = true;
            },
            NodeKind::Code => {
                items.push(ParagraphItem::Code(parse_code(child)));
                pushed = true;
            },
            NodeKind::List => {
                proof {
                    let nd = *node;
                    assert(decreases_to!(nd => nd.children));
                    assert(decreases_to!(nd.children => nd.children[i as int]));
                }
                items.push(ParagraphItem::List(parse_list(child)));
                pushed = true;
            },
            NodeKind::Link => {
                items.push(ParagraphItem::Link(parse_link(child)));
                pushed = true;
            },
            NodeKind::Table => {
                proof {
                    let nd = *node;
                    assert(decreases_to!(nd => nd.children));
                    assert(decreases_to!(nd.children => nd.children[i as int]));
                }
                items.push(ParagraphItem::Table(parse_table(child)));
                pushed = true;
            },
            _ => {
                match parse_tags(child) {
                    Some(t) => {
                        crate::actions::Absorb::absorb(&mut tags, Some(t));
                    },
                    None => {
                        let ps = parse_props(child);
                        crate::actions::Absorb::absorb(&mut props, ps);
                    },
                }
            },
        }
        proof {
            if pushed {
                assert(Seq::new(items@.len(), |k: int| crate::view_par_item(items@[k]))
                    =~= Seq::new(pre_items.len(), |k: int| crate::view_par_item(pre_items[k])).push(
                    crate::view_par_item(items@[pre_items.len() as int]),
                ));
            }
        }
        i += 1;
    }
    proof {
        assert(cv.subrange(n as int, n as int) =~= Seq::<SyntaxNodeV>::empty());
        crate::lemma_view_par_items(items@);
        assert(crate::view_paragraph(Paragraph { items: items, tags: tags, props: props }).items
            =~= Seq::new(items@.len(), |k: int| crate::view_par_item(items@[k])));
    }
    Paragraph { items, tags, props }
}

} // verus!

verus! {

/// Reads a navigation construct: a top-level one has no description of its
/// own, a sub-navigation starts with one.
fn parse_nav(node: &SyntaxNode, top: bool) -> (r: Nav)
    requires
        top ==> crate::syntax::wf_nav(node@),
        !top ==> crate::syntax::wf_snav(node@),
    ensures
        top ==> r@ == crate::parsing::sp_parse_nav(node@),
        !top ==> r@ == sp_parse_snav(node@),
    decreases *node,
{
    let n = node.children.len();
    let ghost cv = node@.children;
    let start: usize;
    let description: String;
    if top {
        start = 0;
        description = String::new();
    } else {
        proof {
            lemma_view_syntax_nodes(node.children@);
            assert(cv[0] == view_syntax_node(node.children@[0]));
        }
        start = 1;
        description = parse_string(node.children[0].text.as_str());
    }
    let mut subs: Vec<Nav> = Vec::new();
    let mut links: Vec<Link> = Vec::new();
    let mut tags = Tags::new();
    let mut props = Props::new();
    proof {
        lemma_view_syntax_nodes(node.children@);
        crate::lemma_view_navs(subs@);
        assert(crate::view_navs(subs@) =~= Seq::<NavV>::empty());
        assert(Seq::new(links@.len(), |k: int| crate::view_link(links@[k])) =~= Seq::<
            LinkV,
        >::empty());
    }
    let mut i: usize = start;
    while i < n
        invariant
            start <= i <= n,
            n == node.children@.len(),
            cv == node@.children,
            node@ == view_syntax_node(*node),
            top ==> crate::syntax::wf_nav(node@),
            !top ==> crate::syntax::wf_snav(node@),
            start == (if top {
                0int
            } else {
                1int
            }),
            n == cv.len(),
            tags.wf(),
            props.wf(),
            sp_fold_nav(
                cv,
                i as int,
                crate::view_navs(subs@),
                Seq::new(links@.len(), |k: int| crate::view_link(links@[k])),
                tags@,
                props@,
            ) == sp_fold_nav(
                cv,
                start as int,
                Seq::empty(),
                Seq::empty(),
                Seq::empty(),
                Seq::empty(),
            ),
        decreases n - i,
    {
        proof {
            lemma_view_syntax_nodes(node.children@);
            assert(cv[i as int] == view_syntax_node(node.children@[i as int]));
            if top {
                crate::syntax::lemma_wf_snav_children(cv);
            } else {
                crate::syntax::lemma_wf_snav_children(cv.subrange(1, n as int));
                assert(cv.subrange(1, n as int)[i - 1] == cv[i as int]);
            }
        }
        let child = &node.children[i];
        match child.kind {
            NodeKind::Snav => {
                proof {
                    let nd = *node;
                    assert(decreases_to!(nd => nd.children));
                    assert(decreases_to!(nd.children => nd.children[i as int]));
                }
                let sub = parse_nav(child, false);
                let ghost pre_subs = subs@;
                subs.push(sub);
                proof {
                    crate::lemma_view_navs(subs@);
                    crate::lemma_view_navs(pre_subs);
                    assert(crate::view_navs(subs@) =~= crate::view_navs(pre_subs).push(
                        crate::view_nav(subs@[pre_subs.len() as int]),
                    ));
                }
            },
            NodeKind::Link => {
                let link = parse_link(child);
                let ghost pre_links = links@;
                links.push(link);
                proof {
                    assert(Seq::new(links@.len(), |k: int| crate::view_link(links@[k]))
                        =~= Seq::new(pre_links.len(), |k: int| crate::view_link(pre_links[k])).push(
                        crate::view_link(links@[pre_links.len() as int]),
                    ));
                }
            },
            _ => {
                match parse_tags(child) {
                    Some(t) => {
                        crate::actions::Absorb::absorb(&mut tags, Some(t));
                    },
                    None => {
                        let ps = parse_props(child);
                        crate::actions::Absorb::absorb(&mut props, ps);
                    },
                }
            },
        }
        i += 1;
    }
    let r = Nav { description, subs, links, tags, props };
    proof {
        crate::lemma_view_navs(r.subs@);
        assert(crate::view_nav(r).subs =~= crate::view_navs(r.subs@));
        assert(crate::view_nav(r).links =~= Seq::new(
            r.links@.len(),
            |k: int| crate::view_link(r.links@[k]),
        ));
        if top {
            reveal_strlit("");
            assert(r.description@ =~= Seq::<char>::empty());
        }
    }
    r
}

/// Reads a section construct under an enclosing absolute heading level:
/// nested sections accumulate their relative level on this section's.
pub fn parse_section(heading_level: u64, node: &SyntaxNode) -> (r: Section)
    requires
        heading_level <= 255,
        crate::syntax::wf_section(node@),
    ensures
        r@ == sp_parse_section(node@, heading_level as nat),
    decreases *node,
{
    proof {
        lemma_view_syntax_nodes(node.children@);
        assert(node@.children[0] == view_syntax_node(node.children@[0]));
        let nd = *node;
        assert(decreases_to!(nd => nd.children));
        assert(decreases_to!(nd.children => nd.children[0int]));
    }
    let mut level_state: u64 = heading_level;
    let heading = parse_heading(&mut level_state, &node.children[0]);
    let level = heading.level;
    let mut items: Vec<SectionItem> = Vec::new();
    let mut tags = Tags::new();
    let mut props = Props::new();
    let n = node.children.len();
    let ghost cv = node@.children;
    proof {
        crate::lemma_view_section_items(items@);
        assert(crate::view_section_items(items@) =~= Seq::<SectionItemV>::empty());
    }
    let mut i: usize = 1;
    while i < n
        invariant
            1 <= i <= n,
            n == node.children@.len(),
            cv == node@.children,
            node@ == view_syntax_node(*node),
            crate::syntax::wf_section(node@),
            n == cv.len(),
            level == sp_parse_heading(cv[0], heading_level as nat).level,
            tags.wf(),
            props.wf(),
            sp_fold_section(
                cv,
                i as int,
                level as nat,
                crate::view_section_items(items@),
                tags@,
                props@,
            ) == sp_fold_section(
                cv,
                1,
                level as nat,
                Seq::empty(),
                Seq::empty(),
                Seq::empty(),
            ),
        decreases n - i,
    {
        proof {
            lemma_view_syntax_nodes(node.children@);
            assert(cv[i as int] == view_syntax_node(node.children@[i as int]));
            crate::syntax::lemma_wf_section_children(cv.subrange(1, n as int));
            assert(cv.subrange(1, n as int)[i - 1] == cv[i as int]);
        }
        let child = &node.children[i];
        match child.kind {
            NodeKind::Paragraph => {
                let par = parse_paragraph(child);
                let ghost pre_items = items@;
                items.push(SectionItem::Paragraph(par));
                proof {
                    crate::lemma_view_section_items(items@);
                    crate::lemma_view_section_items(pre_items);
                    assert(crate::view_section_items(items@) =~= crate::view_section_items(
                        pre_items,
                    ).push(crate::view_section_item(items@[pre_items.len() as int])));
                }
            },
            NodeKind::Section => {
                proof {
                    let nd = *node;
                    assert(decreases_to!(nd => nd.children));
                    assert(decreases_to!(nd.children => nd.children[i as int]));
                }
                let sub = parse_section(level as u64, child);
                let ghost pre_items = items@;
                items.push(SectionItem::Section(sub));
                proof {
                    crate::lemma_view_section_items(items@);
                    crate::lemma_view_section_items(pre_items);
                    assert(crate::view_section_items(items@) =~= crate::view_section_items(
                        pre_items,
                    ).push(crate::view_section_item(items@[pre_items.len() as int])));
                }
            },
            _ => {
                match parse_tags(child) {
                    Some(t) => {
                        crate::actions::Absorb::absorb(&mut tags, Some(t));
                    },
                    None => {
                        let ps = parse_props(child);
                        crate::actions::Absorb::absorb(&mut props, ps);
                    },
                }
            },
        }
        i += 1;
    }
    let r = Section { heading, items, tags, props };
    proof {
        crate::lemma_view_section_items(r.items@);
        assert(crate::view_section(r).items =~= crate::view_section_items(r.items@));
    }
    r
}

/// Constructs a whole document from the root of a syntax tree: top-level
/// metadata is absorbed, navigation, paragraphs and sections become items,
/// and any other stray top-level construct is dropped.
fn construct_doc(node: &SyntaxNode) -> (r: Doc)
    requires
        wf_top(node@),
    ensures
        r@ == sp_parse_doc(node@),
{
    let mut items: Vec<DocItem> = Vec::new();
    let mut tags = Tags::new();
    let mut props = Props::new();
    let n = node.children.len();
    let ghost cv = node@.children;
    proof {
        lemma_view_syntax_nodes(node.children@);
        crate::lemma_view_doc_items(items@);
        assert(crate::view_doc_items(items@) =~= Seq::<DocItemV>::empty());
        assert(cv.subrange(0, n as int) =~= cv);
    }
    let mut i: usize = 0;
    while i < n
        invariant
            0 <= i <= n,
            n == node.children@.len(),
            cv == node@.children,
            node@ == view_syntax_node(*node),
            wf_top(node@),
            n == cv.len(),
            tags.wf(),
            props.wf(),
            sp_fold_doc(
                cv.subrange(i as int, n as int),
                crate::view_doc_items(items@),
                tags@,
                props@,
            ) == sp_fold_doc(cv, Seq::empty(), Seq::empty(), Seq::empty()),
        decreases n - i,
    {
        proof {
            lemma_view_syntax_nodes(node.children@);
            assert(cv[i as int] == view_syntax_node(node.children@[i as int]));
            crate::syntax::lemma_wf_top_children(cv);
            let rem = cv.subrange(i as int, n as int);
            assert(rem[0] == cv[i as int]);
            assert(rem.subrange(1, rem.len() as int) =~= cv.subrange(i as int + 1, n as int));
        }
        let child = &node.children[i];
        let ghost pre_items = items@;
        let mut pushed = false;
        match child.kind {
            NodeKind::Paragraph => {
                items.push(DocItem::Paragraph(parse_paragraph(child)));
                pushed = true;
            },
            NodeKind::Section => {
                items.push(DocItem::Section(parse_section(0, child)));
                pushed = true;
            },
            NodeKind::Nav => {
                items.push(DocItem::Nav(parse_nav(child, true)));
                pushed = true;
            },
            NodeKind::Tags => {
                match parse_tags(child) {
                    Some(t) => {
                        crate::actions::Absorb::absorb(&mut tags, Some(t));
                    },
                    None => {},
                }
            },
            NodeKind::Props => {
                let ps = parse_props(child);
                crate::actions::Absorb::absorb(&mut props, ps);
            },
            _ => {},
        }
        proof {
            if pushed {
                crate::lemma_view_doc_items(items@);
                crate::lemma_view_doc_items(pre_items);
                assert(crate::view_doc_items(items@) =~= crate::view_doc_items(pre_items).push(
                    crate::view_doc_item(items@[pre_items.len() as int]),
                ));
            }
        }
        i += 1;
    }
    let r = Doc { tags, props, items };
    proof {
        assert(cv.subrange(n as int, n as int) =~= Seq::<SyntaxNodeV>::empty());
        crate::lemma_view_doc_items(r.items@);
        assert(crate::view_doc(r).items =~= crate::view_doc_items(r.items@));
    }
    r
}

} // verus!

verus! {

/// The parser for the document markup: it scans source text into a syntax
/// tree and constructs the document model from it.
pub struct IncodocParser;

impl IncodocParser {
    /// Scans source text into a well-formed syntax tree when the text
    /// follows the grammar, and reports a rejection otherwise.
    pub fn parse_syntax(input: &str) -> (r: Result<SyntaxNode, String>)
        ensures
            match r {
                Ok(node) => crate::syntax::sp_scan(input@) == Some(node@) && wf_top(node@),
                Err(_) => crate::syntax::sp_scan(input@) is None,
            },
    {
        let mut scanner = crate::syntax::Scanner::new(input);
        scanner.scan_top()
    }
}

/// Parses source text into a document: the text is scanned by the grammar
/// and the model is constructed from the resulting tree. The parse fails
/// exactly when the grammar rejects the text; malformed property values and
/// code indentation inside a grammatical document are carried as error
/// values in the result instead.
pub fn parse(input: &str) -> (r: Result<Doc, String>)
    ensures
        match r {
            Ok(d) => crate::syntax::sp_scan(input@) is Some && d@ == sp_parse_doc(
                crate::syntax::sp_scan(input@).unwrap(),
            ),
            Err(_) => crate::syntax::sp_scan(input@) is None,
        },
{
    match IncodocParser::parse_syntax(input) {
        Ok(node) => {
            let doc = construct_doc(&node);
            Ok(doc)
        },
        Err(e) => Err(e),
    }
}

} // verus!

verus! {

/// The level of a heading parsed under an enclosing absolute level is the
/// declared relative level plus the enclosing level, saturating at the
/// largest level; and a section's own heading is parsed under exactly the
/// enclosing level handed to the section. Nested sections are parsed under
/// this section's absolute level, so declared levels accumulate down the
/// tree.
pub proof fn lemma_heading_level_accumulation(section: SyntaxNodeV, base: nat)
    ensures
        sp_parse_section(section, base).heading == sp_parse_heading(section.children[0], base),
        sp_parse_heading(section.children[0], base).level as nat == (if sp_uint_val(
            section.children[0].children[0].text,
        ) + base >= 255 {
            255nat
        } else {
            sp_uint_val(section.children[0].children[0].text) + base
        }),
{
}

} // verus!
