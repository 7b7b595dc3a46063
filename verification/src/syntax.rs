//! The concrete-syntax layer: a typed syntax node tree and the scanner that
//! produces it from source text. Construction of the document model consumes
//! this tree; the scanner guarantees the node shapes that construction
//! relies on.

use vstd::prelude::*;
use vstd::string::StrSliceExecFns;
use crate::{char_is_ws, is_ws_char};

verus! {

/// The kind of a syntax node.
#[derive(Clone, Copy, Debug, PartialEq, Eq, Structural)]
pub enum NodeKind {
    /// The whole source: a sequence of top-level constructs.
    Top,
    /// A tags block.
    Tags,
    /// A props block.
    Props,
    /// One (key, value) pair inside a props block.
    PropTuple,
    /// A double-quoted string literal; the text is the raw inner content.
    Str,
    /// A single-quoted text literal; the text is the raw inner content.
    Text,
    /// An integer literal.
    Int,
    /// A date literal; its children are the three integer parts.
    Date,
    /// A bare keyword, such as an emphasis or list kind.
    Word,
    /// A text item: a text literal with an optional metadata block.
    TextItem,
    /// An emphasis construct.
    Emphasis,
    /// A code block construct.
    Code,
    /// The verbatim text of a code block; the column is where its opening
    /// quote stood.
    CodeText,
    /// A list construct.
    List,
    /// A link construct.
    Link,
    /// A top-level navigation construct.
    Nav,
    /// A sub-navigation construct.
    Snav,
    /// A section construct.
    Section,
    /// A heading construct.
    Heading,
    /// A paragraph construct.
    Paragraph,
    /// A table construct.
    Table,
    /// A table header row.
    HeadRow,
    /// A table regular row.
    Row,
}

/// One node of the concrete syntax tree: a kind, the matched text, the
/// source column of the match, and the child nodes in order.
#[derive(Debug, PartialEq, Eq)]
pub struct SyntaxNode {
    pub kind: NodeKind,
    pub text: String,
    pub col: usize,
    pub children: Vec<SyntaxNode>,
}

/// Mathematical value of a syntax node.
pub struct SyntaxNodeV {
    pub kind: NodeKind,
    pub text: Seq<char>,
    pub col: usize,
    pub children: Seq<SyntaxNodeV>,
}

pub open spec fn view_syntax_nodes(s: Seq<SyntaxNode>) -> Seq<SyntaxNodeV>
    decreases s,
{
    if s.len() == 0 {
        Seq::empty()
    } else {
        seq![view_syntax_node(s[0])] + view_syntax_nodes(s.subrange(1, s.len() as int))
    }
}

pub open spec fn view_syntax_node(n: SyntaxNode) -> SyntaxNodeV
    decreases n,
{
    SyntaxNodeV {
        kind: n.kind,
        text: n.text@,
        col: n.col,
        children: view_syntax_nodes(n.children@),
    }
}

/// The element-wise reading of `view_syntax_nodes`.
pub proof fn lemma_view_syntax_nodes(s: Seq<SyntaxNode>)
    ensures
        view_syntax_nodes(s).len() == s.len(),
        forall|i: int|
            0 <= i < s.len() ==> #[trigger] view_syntax_nodes(s)[i] == view_syntax_node(s[i]),
    decreases s,
{
    if s.len() > 0 {
        lemma_view_syntax_nodes(s.subrange(1, s.len() as int));
        assert forall|i: int|
            0 <= i < s.len() implies #[trigger] view_syntax_nodes(s)[i] == view_syntax_node(
            s[i],
        ) by {
            if i > 0 {
                assert(s.subrange(1, s.len() as int)[i - 1] == s[i]);
            }
        }
    }
}

impl View for SyntaxNode {
    type V = SyntaxNodeV;

    open spec fn view(&self) -> SyntaxNodeV {
        view_syntax_node(*self)
    }
}

// ---------------------------------------------------------------------------
// Node shapes: what the scanner guarantees and construction relies on
// ---------------------------------------------------------------------------

/// A leaf string literal node.
pub open spec fn wf_str(v: SyntaxNodeV) -> bool {
    v.kind == NodeKind::Str && v.children.len() == 0
}

/// A leaf text literal node.
pub open spec fn wf_text(v: SyntaxNodeV) -> bool {
    v.kind == NodeKind::Text && v.children.len() == 0
}

/// A leaf integer literal node.
pub open spec fn wf_int(v: SyntaxNodeV) -> bool {
    v.kind == NodeKind::Int && v.children.len() == 0
}

/// A leaf keyword node.
pub open spec fn wf_word(v: SyntaxNodeV) -> bool {
    v.kind == NodeKind::Word && v.children.len() == 0
}

/// A leaf verbatim code text node; its column is at least one.
pub open spec fn wf_code_text(v: SyntaxNodeV) -> bool {
    v.kind == NodeKind::CodeText && v.children.len() == 0 && v.col >= 1
}

/// A date literal node: three integer parts.
pub open spec fn wf_date(v: SyntaxNodeV) -> bool {
    v.kind == NodeKind::Date && v.children.len() == 3 && wf_int(v.children[0]) && wf_int(
        v.children[1],
    ) && wf_int(v.children[2])
}

/// A tags block: string literals only.
pub open spec fn wf_tags(v: SyntaxNodeV) -> bool {
    v.kind == NodeKind::Tags && forall|i: int|
        0 <= i < v.children.len() ==> wf_str(#[trigger] v.children[i])
}

/// A property value: a string, a text, an integer or a date.
pub open spec fn wf_prop_val(v: SyntaxNodeV) -> bool {
    wf_str(v) || wf_text(v) || wf_int(v) || wf_date(v)
}

/// One property entry: a string key and a value.
pub open spec fn wf_prop_tuple(v: SyntaxNodeV) -> bool {
    v.kind == NodeKind::PropTuple && v.children.len() == 2 && wf_str(v.children[0]) && wf_prop_val(
        v.children[1],
    )
}

/// A props block: property entries only.
pub open spec fn wf_props(v: SyntaxNodeV) -> bool {
    v.kind == NodeKind::Props && forall|i: int|
        0 <= i < v.children.len() ==> wf_prop_tuple(#[trigger] v.children[i])
}

/// A metadata block: a tags block or a props block.
pub open spec fn wf_meta(v: SyntaxNodeV) -> bool {
    wf_tags(v) || wf_props(v)
}

/// A text item: a text literal, then at most two metadata blocks.
pub open spec fn wf_text_item(v: SyntaxNodeV) -> bool {
    v.kind == NodeKind::TextItem && 1 <= v.children.len() <= 3 && wf_text(v.children[0]) && forall|
        i: int,
    |
        1 <= i < v.children.len() ==> wf_meta(#[trigger] v.children[i])
}

/// The six emphasis keys.
pub open spec fn is_em_key(s: Seq<char>) -> bool {
    s == "le"@ || s == "me"@ || s == "se"@ || s == "ld"@ || s == "md"@ || s == "sd"@
}

/// An emphasis construct: its key, its text, then metadata blocks.
pub open spec fn wf_emphasis(v: SyntaxNodeV) -> bool {
    v.kind == NodeKind::Emphasis && v.children.len() >= 2 && wf_word(v.children[0]) && is_em_key(
        v.children[0].text,
    ) && wf_str(v.children[1]) && forall|i: int|
        2 <= i < v.children.len() ==> wf_meta(#[trigger] v.children[i])
}

/// A code construct: language, mode, verbatim text, then metadata blocks.
pub open spec fn wf_code(v: SyntaxNodeV) -> bool {
    v.kind == NodeKind::Code && v.children.len() >= 3 && wf_str(v.children[0]) && wf_str(
        v.children[1],
    ) && wf_code_text(v.children[2]) && forall|i: int|
        3 <= i < v.children.len() ==> wf_meta(#[trigger] v.children[i])
}

/// A link construct: its URL, then strings, emphases and metadata blocks.
pub open spec fn wf_link(v: SyntaxNodeV) -> bool {
    v.kind == NodeKind::Link && v.children.len() >= 1 && wf_str(v.children[0]) && forall|i: int|
        1 <= i < v.children.len() ==> (wf_str(#[trigger] v.children[i]) || wf_emphasis(
            v.children[i],
        ) || wf_meta(v.children[i]))
}

/// The largest heading level literal the syntax accepts.
pub open spec fn sp_uint_val(s: Seq<char>) -> nat
    decreases s.len(),
{
    if s.len() == 0 {
        0
    } else {
        sp_uint_val(s.drop_last()) * 10 + sp_digit_val(s[s.len() - 1])
    }
}

/// The numeric value of one digit character.
pub open spec fn sp_digit_val(c: char) -> nat {
    if c == '0' {
        0
    } else if c == '1' {
        1
    } else if c == '2' {
        2
    } else if c == '3' {
        3
    } else if c == '4' {
        4
    } else if c == '5' {
        5
    } else if c == '6' {
        6
    } else if c == '7' {
        7
    } else if c == '8' {
        8
    } else if c == '9' {
        9
    } else {
        10
    }
}

/// Whether a character is a decimal digit.
pub open spec fn is_digit_char(c: char) -> bool {
    sp_digit_val(c) < 10
}

/// An unsigned decimal literal with a bounded value.
pub open spec fn wf_uint_lit(s: Seq<char>) -> bool {
    s.len() >= 1 && (forall|i: int| 0 <= i < s.len() ==> is_digit_char(#[trigger] s[i]))
        && sp_uint_val(s) <= u64::MAX
}

/// A heading construct: its relative level, then strings, emphases and
/// metadata blocks.
pub open spec fn wf_heading(v: SyntaxNodeV) -> bool {
    v.kind == NodeKind::Heading && v.children.len() >= 1 && wf_int(v.children[0]) && wf_uint_lit(
        v.children[0].text,
    ) && forall|i: int|
        1 <= i < v.children.len() ==> (wf_str(#[trigger] v.children[i]) || wf_emphasis(
            v.children[i],
        ) || wf_meta(v.children[i]))
}

/// The three list keys.
pub open spec fn is_list_key(s: Seq<char>) -> bool {
    s == "dl"@ || s == "il"@ || s == "cl"@
}

/// Whether each child of a list is a paragraph or a metadata block.
pub open spec fn wf_list_children(s: Seq<SyntaxNodeV>) -> bool
    decreases s,
{
    s.len() == 0 || ((wf_paragraph(s[0]) || wf_meta(s[0])) && wf_list_children(
        s.subrange(1, s.len() as int),
    ))
}

/// A list construct: its kind keyword, then paragraphs and metadata blocks.
pub open spec fn wf_list(v: SyntaxNodeV) -> bool
    decreases v, 1int,
{
    v.kind == NodeKind::List && v.children.len() >= 1 && wf_word(v.children[0]) && is_list_key(
        v.children[0].text,
    ) && wf_list_children(v.children.subrange(1, v.children.len() as int))
}

/// Whether each child of a paragraph is a legal paragraph part.
pub open spec fn wf_par_children(s: Seq<SyntaxNodeV>) -> bool
    decreases s,
{
    s.len() == 0 || (wf_par_child(s[0]) && wf_par_children(s.subrange(1, s.len() as int)))
}

/// One legal paragraph part: a text item, emphasis, code block, list, link,
/// table or metadata block.
pub open spec fn wf_par_child(v: SyntaxNodeV) -> bool
    decreases v, 3int,
{
    wf_text_item(v) || wf_emphasis(v) || wf_code(v) || wf_list(v) || wf_link(v) || wf_table(v)
        || wf_meta(v)
}

/// A paragraph construct.
pub open spec fn wf_paragraph(v: SyntaxNodeV) -> bool
    decreases v, 4int,
{
    v.kind == NodeKind::Paragraph && wf_par_children(v.children)
}

/// Whether each child of a table row is a paragraph or a metadata block.
pub open spec fn wf_row_children(s: Seq<SyntaxNodeV>) -> bool
    decreases s,
{
    s.len() == 0 || ((wf_paragraph(s[0]) || wf_meta(s[0])) && wf_row_children(
        s.subrange(1, s.len() as int),
    ))
}

/// One table row, header or regular.
pub open spec fn wf_row(v: SyntaxNodeV) -> bool
    decreases v, 1int,
{
    (v.kind == NodeKind::HeadRow || v.kind == NodeKind::Row) && wf_row_children(v.children)
}

/// Whether each child of a table is a row or a metadata block.
pub open spec fn wf_table_children(s: Seq<SyntaxNodeV>) -> bool
    decreases s,
{
    s.len() == 0 || ((wf_row(s[0]) || wf_meta(s[0])) && wf_table_children(
        s.subrange(1, s.len() as int),
    ))
}

/// A table construct.
pub open spec fn wf_table(v: SyntaxNodeV) -> bool
    decreases v, 2int,
{
    v.kind == NodeKind::Table && wf_table_children(v.children)
}

/// Whether each child of a sub-navigation node is legal.
pub open spec fn wf_snav_children(s: Seq<SyntaxNodeV>) -> bool
    decreases s,
{
    s.len() == 0 || ((wf_snav(s[0]) || wf_link(s[0]) || wf_meta(s[0])) && wf_snav_children(
        s.subrange(1, s.len() as int),
    ))
}

/// A sub-navigation construct: its description, then links, nested
/// sub-navigations and metadata blocks.
pub open spec fn wf_snav(v: SyntaxNodeV) -> bool
    decreases v, 1int,
{
    v.kind == NodeKind::Snav && v.children.len() >= 1 && wf_str(v.children[0]) && wf_snav_children(
        v.children.subrange(1, v.children.len() as int),
    )
}

/// A top-level navigation construct.
pub open spec fn wf_nav(v: SyntaxNodeV) -> bool
    decreases v, 2int,
{
    v.kind == NodeKind::Nav && wf_snav_children(v.children)
}

/// Whether each child of a section is legal.
pub open spec fn wf_section_children(s: Seq<SyntaxNodeV>) -> bool
    decreases s,
{
    s.len() == 0 || ((wf_paragraph(s[0]) || wf_section(s[0]) || wf_meta(s[0]))
        && wf_section_children(s.subrange(1, s.len() as int)))
}

/// A section construct: its heading, then paragraphs, sub-sections and
/// metadata blocks.
pub open spec fn wf_section(v: SyntaxNodeV) -> bool
    decreases v, 1int,
{
    v.kind == NodeKind::Section && v.children.len() >= 1 && wf_heading(v.children[0])
        && wf_section_children(v.children.subrange(1, v.children.len() as int))
}

/// Whether each top-level child is a legal construct.
pub open spec fn wf_top_children(s: Seq<SyntaxNodeV>) -> bool
    decreases s,
{
    s.len() == 0 || ((wf_meta(s[0]) || wf_paragraph(s[0]) || wf_section(s[0]) || wf_nav(s[0])
        || wf_text_item(s[0]) || wf_emphasis(s[0]) || wf_code(s[0]) || wf_link(s[0]) || wf_list(
        s[0],
    ) || wf_table(s[0])) && wf_top_children(s.subrange(1, s.len() as int)))
}

/// The root of a parsed source: a sequence of top-level constructs.
pub open spec fn wf_top(v: SyntaxNodeV) -> bool {
    v.kind == NodeKind::Top && wf_top_children(v.children)
}


/// Reads the list-children shape element by element.
pub proof fn lemma_wf_list_children(s: Seq<SyntaxNodeV>)
    requires
        wf_list_children(s),
    ensures
        forall|i: int| 0 <= i < s.len() ==> wf_paragraph(#[trigger] s[i]) || wf_meta(s[i]),
    decreases s,
{
    if s.len() > 0 {
        lemma_wf_list_children(s.subrange(1, s.len() as int));
        assert forall|i: int|
            0 <= i < s.len() implies wf_paragraph(#[trigger] s[i]) || wf_meta(s[i]) by {
            if i > 0 {
                assert(s.subrange(1, s.len() as int)[i - 1] == s[i]);
            }
        }
    }
}

/// Reads the row-children shape element by element.
pub proof fn lemma_wf_row_children(s: Seq<SyntaxNodeV>)
    requires
        wf_row_children(s),
    ensures
        forall|i: int| 0 <= i < s.len() ==> wf_paragraph(#[trigger] s[i]) || wf_meta(s[i]),
    decreases s,
{
    if s.len() > 0 {
        lemma_wf_row_children(s.subrange(1, s.len() as int));
        assert forall|i: int|
            0 <= i < s.len() implies wf_paragraph(#[trigger] s[i]) || wf_meta(s[i]) by {
            if i > 0 {
                assert(s.subrange(1, s.len() as int)[i - 1] == s[i]);
            }
        }
    }
}

/// Reads the table-children shape element by element.
pub proof fn lemma_wf_table_children(s: Seq<SyntaxNodeV>)
    requires
        wf_table_children(s),
    ensures
        forall|i: int| 0 <= i < s.len() ==> wf_row(#[trigger] s[i]) || wf_meta(s[i]),
    decreases s,
{
    if s.len() > 0 {
        lemma_wf_table_children(s.subrange(1, s.len() as int));
        assert forall|i: int| 0 <= i < s.len() implies wf_row(#[trigger] s[i]) || wf_meta(s[i]) by {
            if i > 0 {
                assert(s.subrange(1, s.len() as int)[i - 1] == s[i]);
            }
        }
    }
}

/// Reads the paragraph-children shape element by element.
pub proof fn lemma_wf_par_children(s: Seq<SyntaxNodeV>)
    requires
        wf_par_children(s),
    ensures
        forall|i: int| 0 <= i < s.len() ==> wf_par_child(#[trigger] s[i]),
    decreases s,
{
    if s.len() > 0 {
        lemma_wf_par_children(s.subrange(1, s.len() as int));
        assert forall|i: int| 0 <= i < s.len() implies wf_par_child(#[trigger] s[i]) by {
            if i > 0 {
                assert(s.subrange(1, s.len() as int)[i - 1] == s[i]);
            }
        }
    }
}

/// Reads the sub-navigation-children shape element by element.
pub proof fn lemma_wf_snav_children(s: Seq<SyntaxNodeV>)
    requires
        wf_snav_children(s),
    ensures
        forall|i: int|
            0 <= i < s.len() ==> wf_snav(#[trigger] s[i]) || wf_link(s[i]) || wf_meta(s[i]),
    decreases s,
{
    if s.len() > 0 {
        lemma_wf_snav_children(s.subrange(1, s.len() as int));
        assert forall|i: int|
            0 <= i < s.len() implies wf_snav(#[trigger] s[i]) || wf_link(s[i]) || wf_meta(
            s[i],
        ) by {
            if i > 0 {
                assert(s.subrange(1, s.len() as int)[i - 1] == s[i]);
            }
        }
    }
}

/// Reads the section-children shape element by element.
pub proof fn lemma_wf_section_children(s: Seq<SyntaxNodeV>)
    requires
        wf_section_children(s),
    ensures
        forall|i: int|
            0 <= i < s.len() ==> wf_paragraph(#[trigger] s[i]) || wf_section(s[i]) || wf_meta(
                s[i],
            ),
    decreases s,
{
    if s.len() > 0 {
        lemma_wf_section_children(s.subrange(1, s.len() as int));
        assert forall|i: int|
            0 <= i < s.len() implies wf_paragraph(#[trigger] s[i]) || wf_section(s[i]) || wf_meta(
            s[i],
        ) by {
            if i > 0 {
                assert(s.subrange(1, s.len() as int)[i - 1] == s[i]);
            }
        }
    }
}

/// Reads a child-shape sequence element by element.
pub proof fn lemma_wf_top_children(s: Seq<SyntaxNodeV>)
    requires
        wf_top_children(s),
    ensures
        forall|i: int|
            0 <= i < s.len() ==> (wf_meta(#[trigger] s[i]) || wf_paragraph(s[i]) || wf_section(
                s[i],
            ) || wf_nav(s[i]) || wf_text_item(s[i]) || wf_emphasis(s[i]) || wf_code(s[i])
                || wf_link(s[i]) || wf_list(s[i]) || wf_table(s[i])),
    decreases s,
{
    if s.len() > 0 {
        lemma_wf_top_children(s.subrange(1, s.len() as int));
        assert forall|i: int|
            0 <= i < s.len() implies (wf_meta(#[trigger] s[i]) || wf_paragraph(s[i]) || wf_section(
            s[i],
        ) || wf_nav(s[i]) || wf_text_item(s[i]) || wf_emphasis(s[i]) || wf_code(s[i]) || wf_link(
            s[i],
        ) || wf_list(s[i]) || wf_table(s[i])) by {
            if i > 0 {
                assert(s.subrange(1, s.len() as int)[i - 1] == s[i]);
            }
        }
    }
}

} // verus!

verus! {

/// Introduction of the paragraph-children shape from element-wise facts.
pub proof fn lemma_wf_par_children_intro(s: Seq<SyntaxNodeV>)
    requires
        forall|i: int| 0 <= i < s.len() ==> wf_par_child(#[trigger] s[i]),
    ensures
        wf_par_children(s),
    decreases s.len(),
{
    if s.len() > 0 {
        let rest = s.subrange(1, s.len() as int);
        assert forall|i: int| 0 <= i < rest.len() implies wf_par_child(#[trigger] rest[i]) by {
            assert(rest[i] == s[i + 1]);
        }
        lemma_wf_par_children_intro(rest);
    }
}

/// Introduction of the list-children shape from element-wise facts.
pub proof fn lemma_wf_list_children_intro(s: Seq<SyntaxNodeV>)
    requires
        forall|i: int| 0 <= i < s.len() ==> wf_paragraph(#[trigger] s[i]) || wf_meta(s[i]),
    ensures
        wf_list_children(s),
    decreases s.len(),
{
    if s.len() > 0 {
        let rest = s.subrange(1, s.len() as int);
        assert forall|i: int|
            0 <= i < rest.len() implies wf_paragraph(#[trigger] rest[i]) || wf_meta(rest[i]) by {
            assert(rest[i] == s[i + 1]);
        }
        lemma_wf_list_children_intro(rest);
    }
}

/// Introduction of the row-children shape from element-wise facts.
pub proof fn lemma_wf_row_children_intro(s: Seq<SyntaxNodeV>)
    requires
        forall|i: int| 0 <= i < s.len() ==> wf_paragraph(#[trigger] s[i]) || wf_meta(s[i]),
    ensures
        wf_row_children(s),
    decreases s.len(),
{
    if s.len() > 0 {
        let rest = s.subrange(1, s.len() as int);
        assert forall|i: int|
            0 <= i < rest.len() implies wf_paragraph(#[trigger] rest[i]) || wf_meta(rest[i]) by {
            assert(rest[i] == s[i + 1]);
        }
        lemma_wf_row_children_intro(rest);
    }
}

/// Introduction of the table-children shape from element-wise facts.
pub proof fn lemma_wf_table_children_intro(s: Seq<SyntaxNodeV>)
    requires
        forall|i: int| 0 <= i < s.len() ==> wf_row(#[trigger] s[i]) || wf_meta(s[i]),
    ensures
        wf_table_children(s),
    decreases s.len(),
{
    if s.len() > 0 {
        let rest = s.subrange(1, s.len() as int);
        assert forall|i: int|
            0 <= i < rest.len() implies wf_row(#[trigger] rest[i]) || wf_meta(rest[i]) by {
            assert(rest[i] == s[i + 1]);
        }
        lemma_wf_table_children_intro(rest);
    }
}

/// Introduction of the sub-navigation-children shape from element-wise
/// facts.
pub proof fn lemma_wf_snav_children_intro(s: Seq<SyntaxNodeV>)
    requires
        forall|i: int|
            0 <= i < s.len() ==> wf_snav(#[trigger] s[i]) || wf_link(s[i]) || wf_meta(s[i]),
    ensures
        wf_snav_children(s),
    decreases s.len(),
{
    if s.len() > 0 {
        let rest = s.subrange(1, s.len() as int);
        assert forall|i: int|
            0 <= i < rest.len() implies wf_snav(#[trigger] rest[i]) || wf_link(rest[i]) || wf_meta(
            rest[i],
        ) by {
            assert(rest[i] == s[i + 1]);
        }
        lemma_wf_snav_children_intro(rest);
    }
}

/// Introduction of the section-children shape from element-wise facts.
pub proof fn lemma_wf_section_children_intro(s: Seq<SyntaxNodeV>)
    requires
        forall|i: int|
            0 <= i < s.len() ==> wf_paragraph(#[trigger] s[i]) || wf_section(s[i]) || wf_meta(
                s[i],
            ),
    ensures
        wf_section_children(s),
    decreases s.len(),
{
    if s.len() > 0 {
        let rest = s.subrange(1, s.len() as int);
        assert forall|i: int|
            0 <= i < rest.len() implies wf_paragraph(#[trigger] rest[i]) || wf_section(rest[i])
            || wf_meta(rest[i]) by {
            assert(rest[i] == s[i + 1]);
        }
        lemma_wf_section_children_intro(rest);
    }
}

/// Introduction of the top-children shape from element-wise facts.
pub proof fn lemma_wf_top_children_intro(s: Seq<SyntaxNodeV>)
    requires
        forall|i: int|
            0 <= i < s.len() ==> (wf_meta(#[trigger] s[i]) || wf_paragraph(s[i]) || wf_section(
                s[i],
            ) || wf_nav(s[i]) || wf_text_item(s[i]) || wf_emphasis(s[i]) || wf_code(s[i])
                || wf_link(s[i]) || wf_list(s[i]) || wf_table(s[i])),
    ensures
        wf_top_children(s),
    decreases s.len(),
{
    if s.len() > 0 {
        let rest = s.subrange(1, s.len() as int);
        assert forall|i: int|
            0 <= i < rest.len() implies (wf_meta(#[trigger] rest[i]) || wf_paragraph(rest[i])
            || wf_section(rest[i]) || wf_nav(rest[i]) || wf_text_item(rest[i]) || wf_emphasis(
            rest[i],
        ) || wf_code(rest[i]) || wf_link(rest[i]) || wf_list(rest[i]) || wf_table(rest[i])) by {
            assert(rest[i] == s[i + 1]);
        }
        lemma_wf_top_children_intro(rest);
    }
}

// ---------------------------------------------------------------------------
// The scanner
// ---------------------------------------------------------------------------

/// The scanner's cursor over the source characters, tracking the one-based
/// column of the next character.
pub struct Scanner {
    chars: Vec<char>,
    pos: usize,
    col: usize,
}

impl Scanner {
    /// The cursor never runs past the end and the column stays positive.
    pub closed spec fn wf(&self) -> bool {
        self.pos <= self.chars@.len() && self.col >= 1
    }

    /// The characters being scanned.
    pub closed spec fn src(&self) -> Seq<char> {
        self.chars@
    }

    /// The position of the next character.
    pub closed spec fn at(&self) -> int {
        self.pos as int
    }

    /// The one-based column of the next character.
    pub closed spec fn column(&self) -> int {
        self.col as int
    }

    /// A scanner at the start of the given source text.
    pub fn new(input: &str) -> (s: Scanner)
        ensures
            s.wf(),
            s.src() == input@,
            s.at() == 0,
            s.column() == 1,
    {
        let n = input.unicode_len();
        let mut chars: Vec<char> = Vec::new();
        let mut i: usize = 0;
        while i < n
            invariant
                0 <= i <= n,
                n == input@.len(),
                chars@ == input@.subrange(0, i as int),
            decreases n - i,
        {
            chars.push(input.get_char(i));
            proof {
                assert(input@.subrange(0, i as int).push(input@[i as int]) =~= input@.subrange(
                    0,
                    i as int + 1,
                ));
            }
            i += 1;
        }
        proof {
            assert(input@.subrange(0, n as int) =~= input@);
        }
        Scanner { chars, pos: 0, col: 1 }
    }

    /// Whether the whole source has been consumed.
    fn at_end(&self) -> (r: bool)
        requires
            self.wf(),
        ensures
            r == (self.at() == self.src().len()),
    {
        self.pos >= self.chars.len()
    }

    /// The next character, where one is left.
    fn peek(&self) -> (c: char)
        requires
            self.wf(),
            self.at() < self.src().len(),
        ensures
            c == self.src()[self.at()],
    {
        self.chars[self.pos]
    }

    /// The character after the next, if any.
    fn peek2(&self) -> (c: Option<char>)
        requires
            self.wf(),
        ensures
            match c {
                Some(c) => self.at() + 1 < self.src().len() && c == self.src()[self.at() + 1],
                None => self.at() + 1 >= self.src().len(),
            },
    {
        let n = self.chars.len();
        if self.pos < usize::MAX && self.pos + 1 < n {
            Some(self.chars[self.pos + 1])
        } else {
            None
        }
    }

    /// Consumes one character, advancing the column, which resets after a
    /// line break.
    fn bump(&mut self) -> (c: char)
        requires
            old(self).wf(),
            old(self).at() < old(self).src().len(),
        ensures
            final(self).wf(),
            final(self).src() == old(self).src(),
            final(self).at() == old(self).at() + 1,
            final(self).column() == sp_bump_col(c, old(self).column()),
            c == old(self).src()[old(self).at()],
    {
        let n = self.chars.len();
        let c = self.chars[self.pos];
        self.pos += 1;
        if c == '\n' {
            self.col = 1;
        } else if self.col < usize::MAX {
            self.col += 1;
        }
        c
    }

    /// The one-based column of the next character.
    fn cur_col(&self) -> (r: usize)
        requires
            self.wf(),
        ensures
            r >= 1,
            r == self.column(),
    {
        self.col
    }

    /// Skips white space and comments: a double slash to the end of the
    /// line, or a slash-star block to its closing star-slash.
    fn skip_trivia(&mut self) -> (r: Result<(), String>)
        requires
            old(self).wf(),
        ensures
            final(self).wf(),
            final(self).src() == old(self).src(),
            final(self).at() >= old(self).at(),
            match r {
                Ok(_) => sp_sc_trivia(old(self).src(), old(self).at(), old(self).column())
                    == Some((final(self).at(), final(self).column())),
                Err(_) => sp_sc_trivia(old(self).src(), old(self).at(), old(self).column())
                    is None,
            },
        decreases old(self).src().len() - old(self).at(),
    {
        loop
            invariant
                self.wf(),
                self.src() == old(self).src(),
                self.at() >= old(self).at(),
                sp_sc_trivia(self.src(), self.at(), self.column()) == sp_sc_trivia(
                    old(self).src(),
                    old(self).at(),
                    old(self).column(),
                ),
            decreases self.src().len() - self.at(),
        {
            if self.at_end() {
                return Ok(());
            }
            let ghost it_start = self.at();
            let ghost it_col = self.column();
            let c = self.peek();
            if crate::char_is_ws(c) {
                let _c = self.bump();
            } else if c == '/' {
                match self.peek2() {
                    Some('/') => {
                        let _c1 = self.bump();
                        let _c2 = self.bump();
                        loop
                            invariant_except_break
                                sp_sc_line_comment(self.src(), self.at(), self.column())
                                    == sp_sc_line_comment(
                                    self.src(),
                                    it_start + 2,
                                    sp_bump_col('/', sp_bump_col('/', it_col)),
                                ),
                            invariant
                                self.wf(),
                                self.src() == old(self).src(),
                                self.at() >= old(self).at(),
                                self.at() > it_start,
                                sp_sc_trivia(self.src(), it_start, it_col) == sp_sc_trivia(
                                    old(self).src(),
                                    old(self).at(),
                                    old(self).column(),
                                ),
                                0 <= it_start < self.src().len(),
                                self.src()[it_start] == '/',
                                it_start + 1 < self.src().len(),
                                self.src()[it_start + 1] == '/',
                            ensures
                                self.wf(),
                                self.src() == old(self).src(),
                                self.at() >= old(self).at(),
                                self.at() > it_start,
                                sp_sc_trivia(self.src(), it_start, it_col) == sp_sc_trivia(
                                    old(self).src(),
                                    old(self).at(),
                                    old(self).column(),
                                ),
                                0 <= it_start < self.src().len(),
                                self.src()[it_start] == '/',
                                it_start + 1 < self.src().len(),
                                self.src()[it_start + 1] == '/',
                                sp_sc_line_comment(
                                    self.src(),
                                    it_start + 2,
                                    sp_bump_col('/', sp_bump_col('/', it_col)),
                                ) == Some((self.at(), self.column())),
                            decreases self.src().len() - self.at(),
                        {
                            if self.at_end() {
                                proof {
                                    assert(sp_sc_line_comment(
                                        self.src(),
                                        self.at(),
                                        self.column(),
                                    ) == Some((self.at(), self.column())));
                                    assert(!crate::is_ws_char('/'));
                                    assert(sp_sc_trivia(self.src(), self.at(), self.column())
                                        == Some((self.at(), self.column())));
                                    assert(sp_sc_trivia(self.src(), it_start, it_col) == Some(
                                        (self.at(), self.column()),
                                    ));
                                }
                                return Ok(());
                            }
                            let c2 = self.bump();
                            if c2 == '\n' {
                                break ;
                            }
                        }
                    },
                    Some('*') => {
                        let _c1 = self.bump();
                        let _c2 = self.bump();
                        loop
                            invariant_except_break
                                sp_sc_block_comment(self.src(), self.at(), self.column())
                                    == sp_sc_block_comment(
                                    self.src(),
                                    it_start + 2,
                                    sp_bump_col('*', sp_bump_col('/', it_col)),
                                ),
                            invariant
                                self.wf(),
                                self.src() == old(self).src(),
                                self.at() >= old(self).at(),
                                self.at() > it_start,
                                sp_sc_trivia(self.src(), it_start, it_col) == sp_sc_trivia(
                                    old(self).src(),
                                    old(self).at(),
                                    old(self).column(),
                                ),
                                0 <= it_start < self.src().len(),
                                self.src()[it_start] == '/',
                                it_start + 1 < self.src().len(),
                                self.src()[it_start + 1] == '*',
                            ensures
                                self.wf(),
                                self.src() == old(self).src(),
                                self.at() >= old(self).at(),
                                self.at() > it_start,
                                sp_sc_trivia(self.src(), it_start, it_col) == sp_sc_trivia(
                                    old(self).src(),
                                    old(self).at(),
                                    old(self).column(),
                                ),
                                0 <= it_start < self.src().len(),
                                self.src()[it_start] == '/',
                                it_start + 1 < self.src().len(),
                                self.src()[it_start + 1] == '*',
                                sp_sc_block_comment(
                                    self.src(),
                                    it_start + 2,
                                    sp_bump_col('*', sp_bump_col('/', it_col)),
                                ) == Some((self.at(), self.column())),
                            decreases self.src().len() - self.at(),
                        {
                            if self.at_end() {
                                return Err("comment is never closed".to_owned());
                            }
                            let c2 = self.bump();
                            if c2 == '*' && !self.at_end() && self.peek() == '/' {
                                let _c3 = self.bump();
                                break ;
                            }
                        }
                    },
                    _ => {
                        return Ok(());
                    },
                }
            } else {
                return Ok(());
            }
        }
    }

    /// Consumes the expected punctuation character or fails.
    fn expect(&mut self, c: char) -> (r: Result<(), String>)
        requires
            old(self).wf(),
        ensures
            final(self).wf(),
            final(self).src() == old(self).src(),
            final(self).at() >= old(self).at(),
            r is Ok ==> old(self).at() < old(self).src().len() && old(self).src()[old(self).at()]
                == c && final(self).at() == old(self).at() + 1 && final(self).column()
                == sp_bump_col(c, old(self).column()),
            r is Err ==> (old(self).at() >= old(self).src().len() || old(self).src()[old(
                self,
            ).at()] != c) && *final(self) == *old(self),
    {
        if self.at_end() {
            return Err("unexpected end of input".to_owned());
        }
        let got = self.peek();
        if got == c {
            let _c = self.bump();
            Ok(())
        } else {
            Err("unexpected character".to_owned())
        }
    }

    /// Reads the raw inner text of a double-quoted string, which ends at
    /// the next double quote.
    fn scan_string(&mut self) -> (r: Result<SyntaxNode, String>)
        requires
            old(self).wf(),
        ensures
            final(self).wf(),
            final(self).src() == old(self).src(),
            final(self).at() >= old(self).at(),
            match r {
                Ok(node) => wf_str(node@) && final(self).at() > old(self).at() && sp_sc_string(
                    old(self).src(),
                    old(self).at(),
                    old(self).column(),
                ) == Some((node@, final(self).at(), final(self).column())),
                Err(_) => sp_sc_string(old(self).src(), old(self).at(), old(self).column())
                    is None,
            },
    {
        let r = self.expect('"');
        if r.is_err() {
            return Err("expected a string".to_owned());
        }
        let ghost bstart = self.at();
        let ghost bcol = self.column();
        let mut text: Vec<char> = Vec::new();
        loop
            invariant_except_break
                sp_sc_quoted_body(self.src(), self.at(), self.column(), '"', text@)
                    == sp_sc_quoted_body(self.src(), bstart, bcol, '"', Seq::empty()),
            invariant
                self.wf(),
                self.src() == old(self).src(),
                self.at() > old(self).at(),
                bstart == old(self).at() + 1,
                bcol == sp_bump_col('"', old(self).column()),
                old(self).at() < old(self).src().len(),
                old(self).src()[old(self).at()] == '"',
            ensures
                self.wf(),
                self.src() == old(self).src(),
                self.at() > old(self).at(),
                sp_sc_quoted_body(self.src(), bstart, bcol, '"', Seq::empty()) == Some(
                    (text@, self.at(), self.column()),
                ),
            decreases self.src().len() - self.at(),
        {
            if self.at_end() {
                proof {
                    assert(sp_sc_quoted_body(self.src(), self.at(), self.column(), '"', text@)
                        is None);
                    assert(sp_sc_quoted_body(self.src(), bstart, bcol, '"', Seq::empty())
                        is None);
                    assert(sp_sc_string(old(self).src(), old(self).at(), old(self).column())
                        is None);
                }
                return Err("string is never closed".to_owned());
            }
            let c = self.bump();
            if c == '"' {
                break ;
            }
            text.push(c);
        }
        let node = SyntaxNode {
            kind: NodeKind::Str,
            text: crate::string_from_chars(&text),
            col: 1,
            children: Vec::new(),
        };
        proof {
            assert(node@.children =~= Seq::<SyntaxNodeV>::empty());
        }
        Ok(node)
    }

    /// Reads the raw inner text of a single-quoted text block, which ends
    /// at the next single quote, remembering the column where the opening
    /// quote stood.
    fn scan_text_raw(&mut self) -> (r: Result<SyntaxNode, String>)
        requires
            old(self).wf(),
        ensures
            final(self).wf(),
            final(self).src() == old(self).src(),
            final(self).at() >= old(self).at(),
            match r {
                Ok(node) => wf_text(node@) && node@.col >= 1 && final(self).at() > old(self).at()
                    && sp_sc_text(old(self).src(), old(self).at(), old(self).column()) == Some(
                    (node@, final(self).at(), final(self).column()),
                ),
                Err(_) => sp_sc_text(old(self).src(), old(self).at(), old(self).column()) is None,
            },
    {
        if self.at_end() {
            return Err("expected a text block".to_owned());
        }
        let qcol = self.cur_col();
        let r = self.expect('\'');
        if r.is_err() {
            return Err("expected a text block".to_owned());
        }
        let ghost bstart = self.at();
        let ghost bcol = self.column();
        let mut text: Vec<char> = Vec::new();
        loop
            invariant_except_break
                sp_sc_quoted_body(self.src(), self.at(), self.column(), '\'', text@)
                    == sp_sc_quoted_body(self.src(), bstart, bcol, '\'', Seq::empty()),
            invariant
                self.wf(),
                self.src() == old(self).src(),
                self.at() > old(self).at(),
                bstart == old(self).at() + 1,
                bcol == sp_bump_col('\'', old(self).column()),
                old(self).at() < old(self).src().len(),
                old(self).src()[old(self).at()] == '\'',
                1 <= old(self).column() <= usize::MAX,
            ensures
                self.wf(),
                self.src() == old(self).src(),
                self.at() > old(self).at(),
                sp_sc_quoted_body(self.src(), bstart, bcol, '\'', Seq::empty()) == Some(
                    (text@, self.at(), self.column()),
                ),
            decreases self.src().len() - self.at(),
        {
            if self.at_end() {
                return Err("text block is never closed".to_owned());
            }
            let c = self.bump();
            if c == '\'' {
                break ;
            }
            text.push(c);
        }
        let node = SyntaxNode {
            kind: NodeKind::Text,
            text: crate::string_from_chars(&text),
            col: qcol,
            children: Vec::new(),
        };
        proof {
            assert(node@.children =~= Seq::<SyntaxNodeV>::empty());
        }
        Ok(node)
    }

    /// Reads a bare keyword of ASCII letters.
    fn scan_word(&mut self) -> (r: Result<String, String>)
        requires
            old(self).wf(),
        ensures
            final(self).wf(),
            final(self).src() == old(self).src(),
            final(self).at() >= old(self).at(),
            match r {
                Ok(w) => final(self).at() > old(self).at() && sp_sc_word(
                    old(self).src(),
                    old(self).at(),
                    old(self).column(),
                ) == Some((w@, final(self).at(), final(self).column())),
                Err(_) => sp_sc_word(old(self).src(), old(self).at(), old(self).column())
                    is None,
            },
    {
        let mut word: Vec<char> = Vec::new();
        loop
            invariant
                self.wf(),
                self.src() == old(self).src(),
                self.at() >= old(self).at(),
                word@.len() > 0 ==> self.at() > old(self).at(),
                sp_sc_word_body(self.src(), self.at(), self.column(), word@) == sp_sc_word_body(
                    old(self).src(),
                    old(self).at(),
                    old(self).column(),
                    Seq::empty(),
                ),
            ensures
                self.wf(),
                self.src() == old(self).src(),
                self.at() >= old(self).at(),
                word@.len() > 0 ==> self.at() > old(self).at(),
                sp_sc_word_body(
                    old(self).src(),
                    old(self).at(),
                    old(self).column(),
                    Seq::empty(),
                ) == (word@, self.at(), self.column()),
            decreases self.src().len() - self.at(),
        {
            if self.at_end() {
                break ;
            }
            let c = self.peek();
            let lower = c >= 'a' && c <= 'z';
            let upper = c >= 'A' && c <= 'Z';
            if lower || upper {
                let _c = self.bump();
                word.push(c);
            } else {
                break ;
            }
        }
        if word.len() == 0 {
            return Err("expected a keyword".to_owned());
        }
        Ok(crate::string_from_chars(&word))
    }

    /// Reads an integer literal: an optional minus sign, then digits.
    fn scan_int(&mut self) -> (r: Result<SyntaxNode, String>)
        requires
            old(self).wf(),
        ensures
            final(self).wf(),
            final(self).src() == old(self).src(),
            final(self).at() >= old(self).at(),
            match r {
                Ok(node) => wf_int(node@) && final(self).at() > old(self).at() && sp_sc_int(
                    old(self).src(),
                    old(self).at(),
                    old(self).column(),
                ) == Some((node@, final(self).at(), final(self).column())),
                Err(_) => sp_sc_int(old(self).src(), old(self).at(), old(self).column())
                    is None,
            },
    {
        let mut text: Vec<char> = Vec::new();
        if self.at_end() {
            return Err("expected a number".to_owned());
        }
        let ghost signed = self.src()[self.at()] == '-';
        if self.peek() == '-' {
            let _c = self.bump();
            text.push('-');
        }
        let ghost dstart = self.at();
        let ghost dcol = self.column();
        let ghost head = text@;
        let mut got_digit = false;
        loop
            invariant
                self.wf(),
                self.src() == old(self).src(),
                self.at() >= old(self).at(),
                got_digit ==> self.at() > old(self).at(),
                text@.len() > 0 ==> self.at() > old(self).at(),
                old(self).at() < old(self).src().len(),
                signed == (old(self).src()[old(self).at()] == '-'),
                signed ==> dstart == old(self).at() + 1 && dcol == sp_bump_col(
                    '-',
                    old(self).column(),
                ) && head =~= seq!['-'],
                !signed ==> dstart == old(self).at() && dcol == old(self).column() && head
                    =~= Seq::<char>::empty(),
                head.len() <= text@.len(),
                got_digit == (text@.len() > head.len()),
                sp_sc_digits(self.src(), self.at(), self.column(), text@) == sp_sc_digits(
                    old(self).src(),
                    dstart,
                    dcol,
                    head,
                ),
            ensures
                self.wf(),
                self.src() == old(self).src(),
                self.at() >= old(self).at(),
                got_digit ==> self.at() > old(self).at(),
                old(self).at() < old(self).src().len(),
                signed == (old(self).src()[old(self).at()] == '-'),
                signed ==> head =~= seq!['-'],
                !signed ==> head =~= Seq::<char>::empty(),
                head.len() <= text@.len(),
                got_digit == (text@.len() > head.len()),
                sp_sc_digits(old(self).src(), dstart, dcol, head) == (
                    text@,
                    self.at(),
                    self.column(),
                ),
            decreases self.src().len() - self.at(),
        {
            if self.at_end() {
                break ;
            }
            let c = self.peek();
            if c >= '0' && c <= '9' {
                let _c = self.bump();
                text.push(c);
                got_digit = true;
            } else {
                break ;
            }
        }
        if !got_digit {
            return Err("expected a number".to_owned());
        }
        let node = SyntaxNode {
            kind: NodeKind::Int,
            text: crate::string_from_chars(&text),
            col: 1,
            children: Vec::new(),
        };
        proof {
            assert(node@.children =~= Seq::<SyntaxNodeV>::empty());
        }
        Ok(node)
    }
}

} // verus!

verus! {

/// Whether a word equals the given literal.
fn word_is(w: &String, lit: &str) -> (r: bool)
    ensures
        r == (w@ == lit@),
{
    let owned = lit.to_owned();
    w.eq(&owned)
}

impl Scanner {
    /// Skips separators between elements: trivia, then at most one comma,
    /// then trivia.
    fn sep(&mut self) -> (r: Result<(), String>)
        requires
            old(self).wf(),
        ensures
            final(self).wf(),
            final(self).src() == old(self).src(),
            final(self).at() >= old(self).at(),
            match r {
                Ok(_) => sp_sc_sep(old(self).src(), old(self).at(), old(self).column()) == Some(
                    (final(self).at(), final(self).column()),
                ),
                Err(_) => sp_sc_sep(old(self).src(), old(self).at(), old(self).column()) is None,
            },
    {
        let r = self.skip_trivia();
        if r.is_err() {
            return r;
        }
        if !self.at_end() && self.peek() == ',' {
            let _c = self.bump();
        }
        self.skip_trivia()
    }

    /// Reads the elements of a tags block up to and including its closing
    /// brace; the opening brace is expected first.
    fn scan_tags(&mut self) -> (r: Result<SyntaxNode, String>)
        requires
            old(self).wf(),
        ensures
            final(self).wf(),
            final(self).src() == old(self).src(),
            final(self).at() >= old(self).at(),
            match r {
                Ok(node) => wf_tags(node@) && final(self).at() > old(self).at() && sp_sc_tags(
                    old(self).src(),
                    old(self).at(),
                    old(self).column(),
                ) == Some((node@, final(self).at(), final(self).column())),
                Err(_) => sp_sc_tags(old(self).src(), old(self).at(), old(self).column())
                    is None,
            },
    {
        let r = self.skip_trivia();
        if r.is_err() {
            return Err(r.unwrap_err());
        }
        let ghost hstart = self.at();
        let ghost hcol = self.column();
        let r = self.expect('{');
        if r.is_err() {
            return Err(r.unwrap_err());
        }
        let ghost bstart = self.at();
        let ghost bcol = self.column();
        let mut children: Vec<SyntaxNode> = Vec::new();
        proof {
            assert(view_syntax_nodes(children@) =~= Seq::<SyntaxNodeV>::empty());
        }
        loop
            invariant_except_break
                sp_sc_tags_body(self.src(), self.at(), self.column(), view_syntax_nodes(children@))
                    == sp_sc_tags_body(self.src(), bstart, bcol, Seq::empty()),
            invariant
                self.wf(),
                self.src() == old(self).src(),
                self.at() > old(self).at(),
                sp_sc_trivia(old(self).src(), old(self).at(), old(self).column()) == Some(
                    (hstart, hcol),
                ),
                0 <= hstart < self.src().len(),
                self.src()[hstart] == '{',
                bstart == hstart + 1,
                bcol == sp_bump_col('{', hcol),
                forall|j: int|
                    0 <= j < children@.len() ==> wf_str(
                        #[trigger] view_syntax_nodes(children@)[j],
                    ),
            ensures
                self.wf(),
                self.src() == old(self).src(),
                self.at() > old(self).at(),
                forall|j: int|
                    0 <= j < children@.len() ==> wf_str(
                        #[trigger] view_syntax_nodes(children@)[j],
                    ),
                sp_sc_tags_body(self.src(), bstart, bcol, Seq::empty()) == Some(
                    (view_syntax_nodes(children@), self.at(), self.column()),
                ),
            decreases self.src().len() - self.at(),
        {
            let ghost istart = self.at();
            let ghost icol = self.column();
            let ghost ichildren = view_syntax_nodes(children@);
            let r = self.skip_trivia();
            if r.is_err() {
                return Err(r.unwrap_err());
            }
            if self.at_end() {
                return Err("tags block is never closed".to_owned());
            }
            if self.peek() == '}' {
                let _c = self.bump();
                break ;
            }
            let item = match self.scan_string() {
                Ok(item) => item,
                Err(e) => {
                    return Err(e);
                },
            };
            let ghost pre = children@;
            children.push(item);
            proof {
                lemma_view_syntax_nodes(children@);
                lemma_view_syntax_nodes(pre);
                assert(view_syntax_nodes(children@) =~= view_syntax_nodes(pre).push(
                    view_syntax_node(children@[pre.len() as int]),
                ));
            }
            let r = self.sep();
            if r.is_err() {
                return Err(r.unwrap_err());
            }
            proof {
                assert(sp_sc_tags_body(self.src(), istart, icol, ichildren) == sp_sc_tags_body(
                    self.src(),
                    self.at(),
                    self.column(),
                    view_syntax_nodes(children@),
                ));
            }
        }
        proof {
            lemma_view_syntax_nodes(children@);
        }
        let node = SyntaxNode {
            kind: NodeKind::Tags,
            text: String::new(),
            col: 1,
            children,
        };
        Ok(node)
    }

    /// Reads one property value: a string, a text block, an integer or a
    /// date.
    fn scan_value(&mut self) -> (r: Result<SyntaxNode, String>)
        requires
            old(self).wf(),
        ensures
            final(self).wf(),
            final(self).src() == old(self).src(),
            final(self).at() >= old(self).at(),
            match r {
                Ok(node) => wf_prop_val(node@) && final(self).at() > old(self).at()
                    && sp_sc_value(old(self).src(), old(self).at(), old(self).column()) == Some(
                    (node@, final(self).at(), final(self).column()),
                ),
                Err(_) => sp_sc_value(old(self).src(), old(self).at(), old(self).column())
                    is None,
            },
    {
        if self.at_end() {
            return Err("expected a value".to_owned());
        }
        let c = self.peek();
        if c == '"' {
            self.scan_string()
        } else if c == '\'' {
            self.scan_text_raw()
        } else {
            let first = match self.scan_int() {
                Ok(first) => first,
                Err(e) => {
                    return Err(e);
                },
            };
            if !self.at_end() && self.peek() == '/' {
                let _c = self.bump();
                let second = match self.scan_int() {
                    Ok(second) => second,
                    Err(e) => {
                        return Err(e);
                    },
                };
                let r = self.expect('/');
                if r.is_err() {
                    return Err("expected a date".to_owned());
                }
                let third = match self.scan_int() {
                    Ok(third) => third,
                    Err(e) => {
                        return Err(e);
                    },
                };
                let mut children: Vec<SyntaxNode> = Vec::new();
                let ghost v1 = first@;
                let ghost v2 = second@;
                let ghost v3 = third@;
                children.push(first);
                children.push(second);
                children.push(third);
                let node = SyntaxNode {
                    kind: NodeKind::Date,
                    text: String::new(),
                    col: 1,
                    children,
                };
                proof {
                    lemma_view_syntax_nodes(node.children@);
                    assert(node@.children[0] == v1);
                    assert(node@.children[1] == v2);
                    assert(node@.children[2] == v3);
                    assert(node@.children =~= seq![v1, v2, v3]);
                    reveal_strlit("");
                    assert(node@.text =~= Seq::<char>::empty());
                }
                Ok(node)
            } else {
                Ok(first)
            }
        }
    }

    /// Reads the entries of a props block up to and including its closing
    /// brace; the opening brace is expected first.
    fn scan_props(&mut self) -> (r: Result<SyntaxNode, String>)
        requires
            old(self).wf(),
        ensures
            final(self).wf(),
            final(self).src() == old(self).src(),
            final(self).at() >= old(self).at(),
            match r {
                Ok(node) => wf_props(node@) && final(self).at() > old(self).at() && sp_sc_props(
                    old(self).src(),
                    old(self).at(),
                    old(self).column(),
                ) == Some((node@, final(self).at(), final(self).column())),
                Err(_) => sp_sc_props(old(self).src(), old(self).at(), old(self).column())
                    is None,
            },
    {
        let r = self.skip_trivia();
        if r.is_err() {
            return Err(r.unwrap_err());
        }
        let ghost hstart = self.at();
        let ghost hcol = self.column();
        let r = self.expect('{');
        if r.is_err() {
            return Err(r.unwrap_err());
        }
        let ghost bstart = self.at();
        let ghost bcol = self.column();
        let mut children: Vec<SyntaxNode> = Vec::new();
        proof {
            assert(view_syntax_nodes(children@) =~= Seq::<SyntaxNodeV>::empty());
        }
        loop
            invariant_except_break
                sp_sc_props_body(
                    self.src(),
                    self.at(),
                    self.column(),
                    view_syntax_nodes(children@),
                ) == sp_sc_props_body(self.src(), bstart, bcol, Seq::empty()),
            invariant
                self.wf(),
                self.src() == old(self).src(),
                self.at() > old(self).at(),
                sp_sc_trivia(old(self).src(), old(self).at(), old(self).column()) == Some(
                    (hstart, hcol),
                ),
                0 <= hstart < self.src().len(),
                self.src()[hstart] == '{',
                bstart == hstart + 1,
                bcol == sp_bump_col('{', hcol),
                forall|j: int|
                    0 <= j < children@.len() ==> wf_prop_tuple(
                        #[trigger] view_syntax_nodes(children@)[j],
                    ),
            ensures
                self.wf(),
                self.src() == old(self).src(),
                self.at() > old(self).at(),
                forall|j: int|
                    0 <= j < children@.len() ==> wf_prop_tuple(
                        #[trigger] view_syntax_nodes(children@)[j],
                    ),
                sp_sc_props_body(self.src(), bstart, bcol, Seq::empty()) == Some(
                    (view_syntax_nodes(children@), self.at(), self.column()),
                ),
            decreases self.src().len() - self.at(),
        {
            let ghost istart = self.at();
            let ghost icol = self.column();
            let ghost ichildren = view_syntax_nodes(children@);
            let r = self.skip_trivia();
            if r.is_err() {
                return Err(r.unwrap_err());
            }
            if self.at_end() {
                return Err("props block is never closed".to_owned());
            }
            if self.peek() == '}' {
                let _c = self.bump();
                break ;
            }
            let ghost tstart = self.at();
            let ghost tcol = self.column();
            let r = self.expect('(');
            if r.is_err() {
                return Err("expected a property entry".to_owned());
            }
            let r = self.skip_trivia();
            if r.is_err() {
                return Err(r.unwrap_err());
            }
            let key = match self.scan_string() {
                Ok(key) => key,
                Err(e) => {
                    return Err(e);
                },
            };
            let r = self.sep();
            if r.is_err() {
                return Err(r.unwrap_err());
            }
            let val = match self.scan_value() {
                Ok(val) => val,
                Err(e) => {
                    return Err(e);
                },
            };
            let r = self.skip_trivia();
            if r.is_err() {
                return Err(r.unwrap_err());
            }
            let r = self.expect(')');
            if r.is_err() {
                return Err("expected the end of a property entry".to_owned());
            }
            let mut tuple_children: Vec<SyntaxNode> = Vec::new();
            let ghost kv = key@;
            let ghost vv = val@;
            tuple_children.push(key);
            tuple_children.push(val);
            let tuple = SyntaxNode {
                kind: NodeKind::PropTuple,
                text: String::new(),
                col: 1,
                children: tuple_children,
            };
            proof {
                lemma_view_syntax_nodes(tuple.children@);
                assert(tuple@.children[0] == kv);
                assert(tuple@.children[1] == vv);
                assert(tuple@.children =~= seq![kv, vv]);
                assert(tuple@.text =~= Seq::<char>::empty());
                assert(wf_prop_tuple(tuple@));
            }
            let ghost pre = children@;
            let ghost tuple_v = tuple@;
            children.push(tuple);
            proof {
                lemma_view_syntax_nodes(children@);
                lemma_view_syntax_nodes(pre);
                assert(view_syntax_nodes(children@) =~= view_syntax_nodes(pre).push(
                    view_syntax_node(children@[pre.len() as int]),
                ));
                assert(sp_sc_prop_tuple(self.src(), tstart, tcol) == Some(
                    (tuple_v, self.at(), self.column()),
                ));
            }
            let r = self.sep();
            if r.is_err() {
                return Err(r.unwrap_err());
            }
            proof {
                assert(sp_sc_props_body(self.src(), istart, icol, ichildren) == sp_sc_props_body(
                    self.src(),
                    self.at(),
                    self.column(),
                    view_syntax_nodes(children@),
                ));
            }
        }
        proof {
            lemma_view_syntax_nodes(children@);
        }
        let node = SyntaxNode {
            kind: NodeKind::Props,
            text: String::new(),
            col: 1,
            children,
        };
        Ok(node)
    }
}

} // verus!

verus! {

impl Scanner {
    /// Whether a scanned number is a plain bounded unsigned literal, fit to
    /// be a heading level.
    fn check_uint_lit(s: &String) -> (r: bool)
        ensures
            r == wf_uint_lit(s@),
    {
        let n = s.unicode_len();
        if n == 0 {
            return false;
        }
        let mut acc: u64 = 0;
        let mut i: usize = 0;
        while i < n
            invariant
                0 <= i <= n,
                n == s@.len(),
                acc as nat == sp_uint_val(s@.subrange(0, i as int)),
                forall|j: int| 0 <= j < i ==> is_digit_char(#[trigger] s@[j]),
            decreases n - i,
        {
            let c = s.get_char(i);
            let d: u64 = if c == '0' {
                0
            } else if c == '1' {
                1
            } else if c == '2' {
                2
            } else if c == '3' {
                3
            } else if c == '4' {
                4
            } else if c == '5' {
                5
            } else if c == '6' {
                6
            } else if c == '7' {
                7
            } else if c == '8' {
                8
            } else if c == '9' {
                9
            } else {
                10
            };
            if d >= 10 {
                proof {
                    assert(!is_digit_char(s@[i as int]));
                }
                return false;
            }
            proof {
                let pre = s@.subrange(0, i as int);
                let cur = s@.subrange(0, i as int + 1);
                assert(cur.drop_last() =~= pre);
                assert(cur[cur.len() - 1] == s@[i as int]);
                assert(sp_digit_val(s@[i as int]) == d);
            }
            if acc > (u64::MAX - d) / 10 {
                proof {
                    assert(acc as nat * 10 + d as nat > u64::MAX as nat) by (nonlinear_arith)
                        requires
                            acc > (u64::MAX - d) / 10,
                            d < 10,
                    ;
                    assert(sp_uint_val(s@.subrange(0, i as int + 1)) > u64::MAX);
                    crate::parsing::lemma_uint_val_prefix(s@, i as int + 1);
                    assert(sp_uint_val(s@) > u64::MAX);
                }
                return false;
            }
            proof {
                assert(acc as nat * 10 + d as nat <= u64::MAX as nat) by (nonlinear_arith)
                    requires
                        acc <= (u64::MAX - d) / 10,
                        d < 10,
                ;
            }
            acc = acc * 10 + d;
            i += 1;
        }
        proof {
            assert(s@.subrange(0, n as int) =~= s@);
        }
        true
    }

    /// Reads an emphasis construct from its opening brace to its closing
    /// one.
    fn scan_emphasis(&mut self) -> (r: Result<SyntaxNode, String>)
        requires
            old(self).wf(),
        ensures
            final(self).wf(),
            final(self).src() == old(self).src(),
            final(self).at() >= old(self).at(),
            match r {
                Ok(node) => wf_emphasis(node@) && final(self).at() > old(self).at()
                    && sp_sc_emphasis(old(self).src(), old(self).at(), old(self).column())
                    == Some((node@, final(self).at(), final(self).column())),
                Err(_) => sp_sc_emphasis(old(self).src(), old(self).at(), old(self).column())
                    is None,
            },
    {
        let r = self.skip_trivia();
        if r.is_err() {
            return Err(r.unwrap_err());
        }
        let ghost h0 = (self.at(), self.column());
        let r = self.expect('{');
        if r.is_err() {
            return Err(r.unwrap_err());
        }
        let r = self.skip_trivia();
        if r.is_err() {
            return Err(r.unwrap_err());
        }
        let ghost h1 = (self.at(), self.column());
        let key = match self.scan_word() {
            Ok(key) => key,
            Err(e) => {
                return Err(e);
            },
        };
        let good = word_is(&key, "le") || word_is(&key, "me") || word_is(&key, "se") || word_is(
            &key,
            "ld",
        ) || word_is(&key, "md") || word_is(&key, "sd");
        if !good {
            return Err("unknown emphasis kind".to_owned());
        }
        let r = self.sep();
        if r.is_err() {
            return Err(r.unwrap_err());
        }
        let ghost h2 = (self.at(), self.column());
        let text = match self.scan_string() {
            Ok(text) => text,
            Err(e) => {
                return Err(e);
            },
        };
        let ghost mstart = self.at();
        let ghost mcol = self.column();
        let key_node = SyntaxNode {
            kind: NodeKind::Word,
            text: key,
            col: 1,
            children: Vec::new(),
        };
        proof {
            assert(key_node@.children =~= Seq::<SyntaxNodeV>::empty());
        }
        let mut children: Vec<SyntaxNode> = Vec::new();
        let ghost kv = key_node@;
        let ghost tv = text@;
        children.push(key_node);
        children.push(text);
        proof {
            lemma_view_syntax_nodes(children@);
            assert(view_syntax_nodes(children@)[0] == kv);
            assert(view_syntax_nodes(children@)[1] == tv);
            assert(view_syntax_nodes(children@) =~= seq![kv, tv]);
        }
        loop
            invariant_except_break
                sp_sc_meta_body(self.src(), self.at(), self.column(), view_syntax_nodes(children@))
                    == sp_sc_meta_body(self.src(), mstart, mcol, seq![kv, tv]),
            invariant
                self.wf(),
                self.src() == old(self).src(),
                self.at() > old(self).at(),
                sp_sc_emphasis(old(self).src(), old(self).at(), old(self).column()) == (
                match sp_sc_meta_body(self.src(), mstart, mcol, seq![kv, tv]) {
                    None => None,
                    Some((cs, p5, c5)) => Some(
                        (
                            SyntaxNodeV {
                                kind: NodeKind::Emphasis,
                                text: Seq::empty(),
                                col: 1,
                                children: cs,
                            },
                            p5,
                            c5,
                        ),
                    ),
                }),
                children@.len() >= 2,
                view_syntax_nodes(children@)[0] == kv,
                view_syntax_nodes(children@)[1] == tv,
                wf_word(kv),
                is_em_key(kv.text),
                wf_str(tv),
                forall|j: int|
                    2 <= j < children@.len() ==> wf_meta(
                        #[trigger] view_syntax_nodes(children@)[j],
                    ),
            ensures
                self.wf(),
                self.src() == old(self).src(),
                self.at() > old(self).at(),
                children@.len() >= 2,
                view_syntax_nodes(children@)[0] == kv,
                view_syntax_nodes(children@)[1] == tv,
                forall|j: int|
                    2 <= j < children@.len() ==> wf_meta(
                        #[trigger] view_syntax_nodes(children@)[j],
                    ),
                sp_sc_emphasis(old(self).src(), old(self).at(), old(self).column()) == Some(
                    (
                        SyntaxNodeV {
                            kind: NodeKind::Emphasis,
                            text: Seq::empty(),
                            col: 1,
                            children: view_syntax_nodes(children@),
                        },
                        self.at(),
                        self.column(),
                    ),
                ),
            decreases self.src().len() - self.at(),
        {
            let ghost istart = self.at();
            let ghost icol = self.column();
            let ghost ichildren = view_syntax_nodes(children@);
            let r = self.sep();
            if r.is_err() {
                return Err(r.unwrap_err());
            }
            if self.at_end() {
                return Err("emphasis is never closed".to_owned());
            }
            if self.peek() == '}' {
                let _c = self.bump();
                break ;
            }
            let w = match self.scan_word() {
                Ok(w) => w,
                Err(e) => {
                    return Err(e);
                },
            };
            let block = if word_is(&w, "tags") {
                self.scan_tags()
            } else if word_is(&w, "props") {
                self.scan_props()
            } else {
                return Err("unknown block in emphasis".to_owned());
            };
            let block = match block {
                Ok(block) => block,
                Err(e) => {
                    return Err(e);
                },
            };
            let ghost pre = children@;
            children.push(block);
            proof {
                lemma_view_syntax_nodes(children@);
                lemma_view_syntax_nodes(pre);
                assert(view_syntax_nodes(children@) =~= view_syntax_nodes(pre).push(
                    view_syntax_node(children@[pre.len() as int]),
                ));
                assert(sp_sc_meta_body(self.src(), istart, icol, ichildren) == sp_sc_meta_body(
                    self.src(),
                    self.at(),
                    self.column(),
                    view_syntax_nodes(children@),
                ));
            }
        }
        proof {
            lemma_view_syntax_nodes(children@);
        }
        let node = SyntaxNode {
            kind: NodeKind::Emphasis,
            text: String::new(),
            col: 1,
            children,
        };
        Ok(node)
    }

    /// Reads a code construct from its opening brace to its closing one.
    fn scan_code(&mut self) -> (r: Result<SyntaxNode, String>)
        requires
            old(self).wf(),
        ensures
            final(self).wf(),
            final(self).src() == old(self).src(),
            final(self).at() >= old(self).at(),
            match r {
                Ok(node) => wf_code(node@) && final(self).at() > old(self).at() && sp_sc_code(
                    old(self).src(),
                    old(self).at(),
                    old(self).column(),
                ) == Some((node@, final(self).at(), final(self).column())),
                Err(_) => sp_sc_code(old(self).src(), old(self).at(), old(self).column())
                    is None,
            },
    {
        let r = self.skip_trivia();
        if r.is_err() {
            return Err(r.unwrap_err());
        }
        let r = self.expect('{');
        if r.is_err() {
            return Err(r.unwrap_err());
        }
        let r = self.skip_trivia();
        if r.is_err() {
            return Err(r.unwrap_err());
        }
        let language = match self.scan_string() {
            Ok(language) => language,
            Err(e) => {
                return Err(e);
            },
        };
        let r = self.sep();
        if r.is_err() {
            return Err(r.unwrap_err());
        }
        let mode = match self.scan_string() {
            Ok(mode) => mode,
            Err(e) => {
                return Err(e);
            },
        };
        let r = self.sep();
        if r.is_err() {
            return Err(r.unwrap_err());
        }
        let text = match self.scan_text_raw() {
            Ok(text) => text,
            Err(e) => {
                return Err(e);
            },
        };
        let code_text = SyntaxNode {
            kind: NodeKind::CodeText,
            text: text.text,
            col: text.col,
            children: Vec::new(),
        };
        proof {
            assert(code_text@.children =~= Seq::<SyntaxNodeV>::empty());
        }
        let ghost mstart = self.at();
        let ghost mcol = self.column();
        let mut children: Vec<SyntaxNode> = Vec::new();
        let ghost lv = language@;
        let ghost mv = mode@;
        let ghost cv = code_text@;
        children.push(language);
        children.push(mode);
        children.push(code_text);
        proof {
            lemma_view_syntax_nodes(children@);
            assert(view_syntax_nodes(children@)[0] == lv);
            assert(view_syntax_nodes(children@)[1] == mv);
            assert(view_syntax_nodes(children@)[2] == cv);
            assert(view_syntax_nodes(children@) =~= seq![lv, mv, cv]);
        }
        loop
            invariant_except_break
                sp_sc_meta_body(self.src(), self.at(), self.column(), view_syntax_nodes(children@))
                    == sp_sc_meta_body(self.src(), mstart, mcol, seq![lv, mv, cv]),
            invariant
                sp_sc_code(old(self).src(), old(self).at(), old(self).column()) == (
                match sp_sc_meta_body(self.src(), mstart, mcol, seq![lv, mv, cv]) {
                    None => None,
                    Some((cs, pp, cc)) => Some(
                        (
                            SyntaxNodeV {
                                kind: NodeKind::Code,
                                text: Seq::empty(),
                                col: 1,
                                children: cs,
                            },
                            pp,
                            cc,
                        ),
                    ),
                }),
                self.wf(),
                self.src() == old(self).src(),
                self.at() > old(self).at(),
                children@.len() >= 3,
                view_syntax_nodes(children@)[0] == lv,
                view_syntax_nodes(children@)[1] == mv,
                view_syntax_nodes(children@)[2] == cv,
                wf_str(lv),
                wf_str(mv),
                wf_code_text(cv),
                forall|j: int|
                    3 <= j < children@.len() ==> wf_meta(
                        #[trigger] view_syntax_nodes(children@)[j],
                    ),
            ensures
                self.wf(),
                self.src() == old(self).src(),
                self.at() > old(self).at(),
                children@.len() >= 3,
                view_syntax_nodes(children@)[0] == lv,
                view_syntax_nodes(children@)[1] == mv,
                view_syntax_nodes(children@)[2] == cv,
                forall|j: int|
                    3 <= j < children@.len() ==> wf_meta(
                        #[trigger] view_syntax_nodes(children@)[j],
                    ),
                sp_sc_code(old(self).src(), old(self).at(), old(self).column()) == Some(
                    (
                        SyntaxNodeV {
                            kind: NodeKind::Code,
                            text: Seq::empty(),
                            col: 1,
                            children: view_syntax_nodes(children@),
                        },
                        self.at(),
                        self.column(),
                    ),
                ),
            decreases self.src().len() - self.at(),
        {
            let ghost istart = self.at();
            let ghost icol = self.column();
            let ghost ichildren = view_syntax_nodes(children@);
            let r = self.sep();
            if r.is_err() {
                return Err(r.unwrap_err());
            }
            if self.at_end() {
                return Err("code block is never closed".to_owned());
            }
            if self.peek() == '}' {
                let _c = self.bump();
                break ;
            }
            let w = match self.scan_word() {
                Ok(w) => w,
                Err(e) => {
                    return Err(e);
                },
            };
            let block = if word_is(&w, "tags") {
                self.scan_tags()
            } else if word_is(&w, "props") {
                self.scan_props()
            } else {
                return Err("unknown block in code".to_owned());
            };
            let block = match block {
                Ok(block) => block,
                Err(e) => {
                    return Err(e);
                },
            };
            let ghost pre = children@;
            children.push(block);
            proof {
                lemma_view_syntax_nodes(children@);
                lemma_view_syntax_nodes(pre);
                assert(view_syntax_nodes(children@) =~= view_syntax_nodes(pre).push(
                    view_syntax_node(children@[pre.len() as int]),
                ));
                assert(sp_sc_meta_body(self.src(), istart, icol, ichildren) == sp_sc_meta_body(
                    self.src(),
                    self.at(),
                    self.column(),
                    view_syntax_nodes(children@),
                ));
            }
        }
        proof {
            lemma_view_syntax_nodes(children@);
        }
        let node = SyntaxNode {
            kind: NodeKind::Code,
            text: String::new(),
            col: 1,
            children,
        };
        Ok(node)
    }

    /// Reads a link construct from its opening brace to its closing one.
    fn scan_link(&mut self) -> (r: Result<SyntaxNode, String>)
        requires
            old(self).wf(),
        ensures
            final(self).wf(),
            final(self).src() == old(self).src(),
            final(self).at() >= old(self).at(),
            match r {
                Ok(node) => wf_link(node@) && final(self).at() > old(self).at() && sp_sc_link(
                    old(self).src(),
                    old(self).at(),
                    old(self).column(),
                ) == Some((node@, final(self).at(), final(self).column())),
                Err(_) => sp_sc_link(old(self).src(), old(self).at(), old(self).column())
                    is None,
            },
    {
        let r = self.skip_trivia();
        if r.is_err() {
            return Err(r.unwrap_err());
        }
        let r = self.expect('{');
        if r.is_err() {
            return Err(r.unwrap_err());
        }
        let r = self.skip_trivia();
        if r.is_err() {
            return Err(r.unwrap_err());
        }
        let url = match self.scan_string() {
            Ok(url) => url,
            Err(e) => {
                return Err(e);
            },
        };
        let ghost mstart = self.at();
        let ghost mcol = self.column();
        let mut children: Vec<SyntaxNode> = Vec::new();
        let ghost uv = url@;
        children.push(url);
        proof {
            lemma_view_syntax_nodes(children@);
            assert(view_syntax_nodes(children@)[0] == uv);
            assert(view_syntax_nodes(children@) =~= seq![uv]);
        }
        loop
            invariant_except_break
                sp_sc_strem_body(
                    self.src(),
                    self.at(),
                    self.column(),
                    view_syntax_nodes(children@),
                ) == sp_sc_strem_body(self.src(), mstart, mcol, seq![uv]),
            invariant
                sp_sc_link(old(self).src(), old(self).at(), old(self).column()) == (
                match sp_sc_strem_body(self.src(), mstart, mcol, seq![uv]) {
                    None => None,
                    Some((cs, pp, cc)) => Some(
                        (
                            SyntaxNodeV {
                                kind: NodeKind::Link,
                                text: Seq::empty(),
                                col: 1,
                                children: cs,
                            },
                            pp,
                            cc,
                        ),
                    ),
                }),
                self.wf(),
                self.src() == old(self).src(),
                self.at() > old(self).at(),
                children@.len() >= 1,
                view_syntax_nodes(children@)[0] == uv,
                wf_str(uv),
                forall|j: int|
                    1 <= j < children@.len() ==> (wf_str(
                        #[trigger] view_syntax_nodes(children@)[j],
                    ) || wf_emphasis(view_syntax_nodes(children@)[j]) || wf_meta(
                        view_syntax_nodes(children@)[j],
                    )),
            ensures
                self.wf(),
                self.src() == old(self).src(),
                self.at() > old(self).at(),
                children@.len() >= 1,
                view_syntax_nodes(children@)[0] == uv,
                forall|j: int|
                    1 <= j < children@.len() ==> (wf_str(
                        #[trigger] view_syntax_nodes(children@)[j],
                    ) || wf_emphasis(view_syntax_nodes(children@)[j]) || wf_meta(
                        view_syntax_nodes(children@)[j],
                    )),
                sp_sc_link(old(self).src(), old(self).at(), old(self).column()) == Some(
                    (
                        SyntaxNodeV {
                            kind: NodeKind::Link,
                            text: Seq::empty(),
                            col: 1,
                            children: view_syntax_nodes(children@),
                        },
                        self.at(),
                        self.column(),
                    ),
                ),
            decreases self.src().len() - self.at(),
        {
            let ghost istart = self.at();
            let ghost icol = self.column();
            let ghost ichildren = view_syntax_nodes(children@);
            let r = self.sep();
            if r.is_err() {
                return Err(r.unwrap_err());
            }
            if self.at_end() {
                return Err("link is never closed".to_owned());
            }
            let c = self.peek();
            if c == '}' {
                let _c = self.bump();
                break ;
            }
            let item: SyntaxNode;
            if c == '"' {
                item = match self.scan_string() {
                    Ok(v) => v,
                    Err(e) => {
                        return Err(e);
                    },
                };
            } else {
                let w = match self.scan_word() {
                    Ok(w) => w,
                    Err(e) => {
                        return Err(e);
                    },
                };
                let block = if word_is(&w, "em") {
                    self.scan_emphasis()
                } else if word_is(&w, "tags") {
                    self.scan_tags()
                } else if word_is(&w, "props") {
                    self.scan_props()
                } else {
                    return Err("unknown block in link".to_owned());
                };
                item = match block {
                    Ok(v) => v,
                    Err(e) => {
                        return Err(e);
                    },
                };
            }
            let ghost pre = children@;
            children.push(item);
            proof {
                lemma_view_syntax_nodes(children@);
                lemma_view_syntax_nodes(pre);
                assert(view_syntax_nodes(children@) =~= view_syntax_nodes(pre).push(
                    view_syntax_node(children@[pre.len() as int]),
                ));
                assert(sp_sc_strem_body(self.src(), istart, icol, ichildren) == sp_sc_strem_body(
                    self.src(),
                    self.at(),
                    self.column(),
                    view_syntax_nodes(children@),
                ));
            }
        }
        proof {
            lemma_view_syntax_nodes(children@);
        }
        let node = SyntaxNode {
            kind: NodeKind::Link,
            text: String::new(),
            col: 1,
            children,
        };
        Ok(node)
    }

    /// Reads a heading construct from its opening brace to its closing one.
    fn scan_heading(&mut self) -> (r: Result<SyntaxNode, String>)
        requires
            old(self).wf(),
        ensures
            final(self).wf(),
            final(self).src() == old(self).src(),
            final(self).at() >= old(self).at(),
            match r {
                Ok(node) => wf_heading(node@) && final(self).at() > old(self).at()
                    && sp_sc_heading(old(self).src(), old(self).at(), old(self).column()) == Some(
                    (node@, final(self).at(), final(self).column()),
                ),
                Err(_) => sp_sc_heading(old(self).src(), old(self).at(), old(self).column())
                    is None,
            },
    {
        let r = self.skip_trivia();
        if r.is_err() {
            return Err(r.unwrap_err());
        }
        let r = self.expect('{');
        if r.is_err() {
            return Err(r.unwrap_err());
        }
        let r = self.skip_trivia();
        if r.is_err() {
            return Err(r.unwrap_err());
        }
        let level = match self.scan_int() {
            Ok(level) => level,
            Err(e) => {
                return Err(e);
            },
        };
        if !Scanner::check_uint_lit(&level.text) {
            return Err("the heading level must be a plain bounded number".to_owned());
        }
        let ghost mstart = self.at();
        let ghost mcol = self.column();
        let mut children: Vec<SyntaxNode> = Vec::new();
        let ghost lv = level@;
        children.push(level);
        proof {
            lemma_view_syntax_nodes(children@);
            assert(view_syntax_nodes(children@)[0] == lv);
            assert(view_syntax_nodes(children@) =~= seq![lv]);
        }
        loop
            invariant_except_break
                sp_sc_strem_body(
                    self.src(),
                    self.at(),
                    self.column(),
                    view_syntax_nodes(children@),
                ) == sp_sc_strem_body(self.src(), mstart, mcol, seq![lv]),
            invariant
                sp_sc_heading(old(self).src(), old(self).at(), old(self).column()) == (
                match sp_sc_strem_body(self.src(), mstart, mcol, seq![lv]) {
                    None => None,
                    Some((cs, pp, cc)) => Some(
                        (
                            SyntaxNodeV {
                                kind: NodeKind::Heading,
                                text: Seq::empty(),
                                col: 1,
                                children: cs,
                            },
                            pp,
                            cc,
                        ),
                    ),
                }),
                self.wf(),
                self.src() == old(self).src(),
                self.at() > old(self).at(),
                children@.len() >= 1,
                view_syntax_nodes(children@)[0] == lv,
                wf_int(lv),
                wf_uint_lit(lv.text),
                forall|j: int|
                    1 <= j < children@.len() ==> (wf_str(
                        #[trigger] view_syntax_nodes(children@)[j],
                    ) || wf_emphasis(view_syntax_nodes(children@)[j]) || wf_meta(
                        view_syntax_nodes(children@)[j],
                    )),
            ensures
                self.wf(),
                self.src() == old(self).src(),
                self.at() > old(self).at(),
                children@.len() >= 1,
                view_syntax_nodes(children@)[0] == lv,
                wf_int(lv),
                wf_uint_lit(lv.text),
                forall|j: int|
                    1 <= j < children@.len() ==> (wf_str(
                        #[trigger] view_syntax_nodes(children@)[j],
                    ) || wf_emphasis(view_syntax_nodes(children@)[j]) || wf_meta(
                        view_syntax_nodes(children@)[j],
                    )),
                sp_sc_heading(old(self).src(), old(self).at(), old(self).column()) == Some(
                    (
                        SyntaxNodeV {
                            kind: NodeKind::Heading,
                            text: Seq::empty(),
                            col: 1,
                            children: view_syntax_nodes(children@),
                        },
                        self.at(),
                        self.column(),
                    ),
                ),
            decreases self.src().len() - self.at(),
        {
            let ghost istart = self.at();
            let ghost icol = self.column();
            let ghost ichildren = view_syntax_nodes(children@);
            let r = self.sep();
            if r.is_err() {
                return Err(r.unwrap_err());
            }
            if self.at_end() {
                return Err("heading is never closed".to_owned());
            }
            let c = self.peek();
            if c == '}' {
                let _c = self.bump();
                break ;
            }
            let item: SyntaxNode;
            if c == '"' {
                item = match self.scan_string() {
                    Ok(v) => v,
                    Err(e) => {
                        return Err(e);
                    },
                };
            } else {
                let w = match self.scan_word() {
                    Ok(w) => w,
                    Err(e) => {
                        return Err(e);
                    },
                };
                let block = if word_is(&w, "em") {
                    self.scan_emphasis()
                } else if word_is(&w, "tags") {
                    self.scan_tags()
                } else if word_is(&w, "props") {
                    self.scan_props()
                } else {
                    return Err("unknown block in heading".to_owned());
                };
                item = match block {
                    Ok(v) => v,
                    Err(e) => {
                        return Err(e);
                    },
                };
            }
            let ghost pre = children@;
            children.push(item);
            proof {
                lemma_view_syntax_nodes(children@);
                lemma_view_syntax_nodes(pre);
                assert(view_syntax_nodes(children@) =~= view_syntax_nodes(pre).push(
                    view_syntax_node(children@[pre.len() as int]),
                ));
                assert(sp_sc_strem_body(self.src(), istart, icol, ichildren) == sp_sc_strem_body(
                    self.src(),
                    self.at(),
                    self.column(),
                    view_syntax_nodes(children@),
                ));
            }
        }
        proof {
            lemma_view_syntax_nodes(children@);
        }
        let node = SyntaxNode {
            kind: NodeKind::Heading,
            text: String::new(),
            col: 1,
            children,
        };
        Ok(node)
    }

    /// Reads a text item: a text block, then optionally a braced group of
    /// metadata blocks.
    fn scan_text_item(&mut self) -> (r: Result<SyntaxNode, String>)
        requires
            old(self).wf(),
        ensures
            final(self).wf(),
            final(self).src() == old(self).src(),
            final(self).at() >= old(self).at(),
            match r {
                Ok(node) => wf_text_item(node@) && final(self).at() > old(self).at()
                    && sp_sc_text_item(old(self).src(), old(self).at(), old(self).column())
                    == Some((node@, final(self).at(), final(self).column())),
                Err(_) => sp_sc_text_item(old(self).src(), old(self).at(), old(self).column())
                    is None,
            },
    {
        let text = match self.scan_text_raw() {
            Ok(text) => text,
            Err(e) => {
                return Err(e);
            },
        };
        let mut children: Vec<SyntaxNode> = Vec::new();
        let ghost tv = text@;
        children.push(text);
        proof {
            lemma_view_syntax_nodes(children@);
            assert(view_syntax_nodes(children@)[0] == tv);
            assert(view_syntax_nodes(children@) =~= seq![tv]);
        }
        let r = self.skip_trivia();
        if r.is_err() {
            return Err(r.unwrap_err());
        }
        if !self.at_end() && self.peek() == '{' {
            let _c = self.bump();
            let ghost mstart = self.at();
            let ghost mcol = self.column();
            loop
                invariant_except_break
                    sp_sc_text_meta_body(
                        self.src(),
                        self.at(),
                        self.column(),
                        view_syntax_nodes(children@),
                    ) == sp_sc_text_meta_body(self.src(), mstart, mcol, seq![tv]),
                invariant
                    sp_sc_text_item(old(self).src(), old(self).at(), old(self).column()) == (
                    match sp_sc_text_meta_body(self.src(), mstart, mcol, seq![tv]) {
                        None => None,
                        Some((cs, pp, cc)) => Some(
                            (
                                SyntaxNodeV {
                                    kind: NodeKind::TextItem,
                                    text: Seq::empty(),
                                    col: 1,
                                    children: cs,
                                },
                                pp,
                                cc,
                            ),
                        ),
                    }),
                    self.wf(),
                    self.src() == old(self).src(),
                    self.at() > old(self).at(),
                    1 <= children@.len() <= 3,
                    view_syntax_nodes(children@)[0] == tv,
                    wf_text(tv),
                    forall|j: int|
                        1 <= j < children@.len() ==> wf_meta(
                            #[trigger] view_syntax_nodes(children@)[j],
                        ),
                ensures
                    self.wf(),
                    self.src() == old(self).src(),
                    self.at() > old(self).at(),
                    1 <= children@.len() <= 3,
                    view_syntax_nodes(children@)[0] == tv,
                    wf_text(tv),
                    forall|j: int|
                        1 <= j < children@.len() ==> wf_meta(
                            #[trigger] view_syntax_nodes(children@)[j],
                        ),
                    sp_sc_text_item(old(self).src(), old(self).at(), old(self).column()) == Some(
                        (
                            SyntaxNodeV {
                                kind: NodeKind::TextItem,
                                text: Seq::empty(),
                                col: 1,
                                children: view_syntax_nodes(children@),
                            },
                            self.at(),
                            self.column(),
                        ),
                    ),
                decreases self.src().len() - self.at(),
            {
                let ghost istart = self.at();
                let ghost icol = self.column();
                let ghost ichildren = view_syntax_nodes(children@);
                let r = self.sep();
                if r.is_err() {
                    return Err(r.unwrap_err());
                }
                if self.at_end() {
                    return Err("text metadata is never closed".to_owned());
                }
                if self.peek() == '}' {
                    let _c = self.bump();
                    break ;
                }
                if children.len() >= 3 {
                    proof {
                        lemma_view_syntax_nodes(children@);
                    }
                    return Err("too many metadata blocks on a text item".to_owned());
                }
                let w = match self.scan_word() {
                    Ok(w) => w,
                    Err(e) => {
                        return Err(e);
                    },
                };
                let block = if word_is(&w, "tags") {
                    self.scan_tags()
                } else if word_is(&w, "props") {
                    self.scan_props()
                } else {
                    return Err("unknown block on a text item".to_owned());
                };
                let block = match block {
                    Ok(block) => block,
                    Err(e) => {
                        return Err(e);
                    },
                };
                let ghost pre = children@;
                children.push(block);
                proof {
                    lemma_view_syntax_nodes(children@);
                    lemma_view_syntax_nodes(pre);
                    assert(view_syntax_nodes(children@) =~= view_syntax_nodes(pre).push(
                        view_syntax_node(children@[pre.len() as int]),
                    ));
                    assert(sp_sc_text_meta_body(self.src(), istart, icol, ichildren)
                        == sp_sc_text_meta_body(
                        self.src(),
                        self.at(),
                        self.column(),
                        view_syntax_nodes(children@),
                    ));
                }
            }
        }
        proof {
            lemma_view_syntax_nodes(children@);
        }
        let node = SyntaxNode {
            kind: NodeKind::TextItem,
            text: String::new(),
            col: 1,
            children,
        };
        Ok(node)
    }
}

} // verus!

verus! {

impl Scanner {
    /// Reads a paragraph construct from its opening brace to its closing
    /// one.
    #[verifier::spinoff_prover]
    #[verifier::rlimit(100)]
    fn scan_paragraph(&mut self) -> (r: Result<SyntaxNode, String>)
        requires
            old(self).wf(),
        ensures
            final(self).wf(),
            final(self).src() == old(self).src(),
            final(self).at() >= old(self).at(),
            match r {
                Ok(node) => wf_paragraph(node@) && final(self).at() > old(self).at()
                    && sp_sc_paragraph(old(self).src(), old(self).at(), old(self).column())
                    == Some((node@, final(self).at(), final(self).column())),
                Err(_) => sp_sc_paragraph(old(self).src(), old(self).at(), old(self).column())
                    is None,
            },
        decreases old(self).src().len() - old(self).at(), 3int,
    {
        let r = self.skip_trivia();
        if r.is_err() {
            return Err(r.unwrap_err());
        }
        let r = self.expect('{');
        if r.is_err() {
            return Err(r.unwrap_err());
        }
        let ghost mstart = self.at();
        let ghost mcol = self.column();
        let mut children: Vec<SyntaxNode> = Vec::new();
        proof {
            assert(view_syntax_nodes(children@) =~= Seq::<SyntaxNodeV>::empty());
        }
        loop
            invariant_except_break
                sp_sc_par_body(self.src(), self.at(), self.column(), view_syntax_nodes(children@))
                    == sp_sc_par_body(self.src(), mstart, mcol, Seq::empty()),
            invariant
                sp_sc_paragraph(old(self).src(), old(self).at(), old(self).column()) == (
                match sp_sc_par_body(self.src(), mstart, mcol, Seq::empty()) {
                    None => None,
                    Some((cs, pp, cc)) => Some(
                        (
                            SyntaxNodeV {
                                kind: NodeKind::Paragraph,
                                text: Seq::empty(),
                                col: 1,
                                children: cs,
                            },
                            pp,
                            cc,
                        ),
                    ),
                }),
                self.wf(),
                self.src() == old(self).src(),
                self.at() > old(self).at(),
                forall|j: int|
                    0 <= j < children@.len() ==> wf_par_child(
                        #[trigger] view_syntax_nodes(children@)[j],
                    ),
            ensures
                self.wf(),
                self.src() == old(self).src(),
                self.at() > old(self).at(),
                forall|j: int|
                    0 <= j < children@.len() ==> wf_par_child(
                        #[trigger] view_syntax_nodes(children@)[j],
                    ),
                sp_sc_paragraph(old(self).src(), old(self).at(), old(self).column()) == Some(
                    (
                        SyntaxNodeV {
                            kind: NodeKind::Paragraph,
                            text: Seq::empty(),
                            col: 1,
                            children: view_syntax_nodes(children@),
                        },
                        self.at(),
                        self.column(),
                    ),
                ),
            decreases self.src().len() - self.at(),
        {
            let ghost istart = self.at();
            let ghost icol = self.column();
            let ghost ichildren = view_syntax_nodes(children@);
            let r = self.sep();
            if r.is_err() {
                return Err(r.unwrap_err());
            }
            if self.at_end() {
                return Err("paragraph is never closed".to_owned());
            }
            let c = self.peek();
            if c == '}' {
                let _c = self.bump();
                break ;
            }
            let item: SyntaxNode;
            if c == '\'' {
                item = match self.scan_text_item() {
                    Ok(v) => v,
                    Err(e) => {
                        return Err(e);
                    },
                };
            } else {
                let w = match self.scan_word() {
                    Ok(w) => w,
                    Err(e) => {
                        return Err(e);
                    },
                };
                let block = if word_is(&w, "em") {
                    self.scan_emphasis()
                } else if word_is(&w, "code") {
                    self.scan_code()
                } else if word_is(&w, "list") {
                    self.scan_list()
                } else if word_is(&w, "link") {
                    self.scan_link()
                } else if word_is(&w, "table") {
                    self.scan_table()
                } else if word_is(&w, "tags") {
                    self.scan_tags()
                } else if word_is(&w, "props") {
                    self.scan_props()
                } else {
                    return Err("unknown block in paragraph".to_owned());
                };
                item = match block {
                    Ok(v) => v,
                    Err(e) => {
                        return Err(e);
                    },
                };
            }
            let ghost pre = children@;
            children.push(item);
            proof {
                lemma_view_syntax_nodes(children@);
                lemma_view_syntax_nodes(pre);
                assert(view_syntax_nodes(children@) =~= view_syntax_nodes(pre).push(
                    view_syntax_node(children@[pre.len() as int]),
                ));
                assert(sp_sc_par_body(self.src(), istart, icol, ichildren) == sp_sc_par_body(
                    self.src(),
                    self.at(),
                    self.column(),
                    view_syntax_nodes(children@),
                ));
            }
        }
        proof {
            lemma_view_syntax_nodes(children@);
            lemma_wf_par_children_intro(view_syntax_nodes(children@));
        }
        let node = SyntaxNode {
            kind: NodeKind::Paragraph,
            text: String::new(),
            col: 1,
            children,
        };
        Ok(node)
    }

    /// Reads a list construct from its opening brace to its closing one.
    #[verifier::spinoff_prover]
    #[verifier::rlimit(100)]
    fn scan_list(&mut self) -> (r: Result<SyntaxNode, String>)
        requires
            old(self).wf(),
        ensures
            final(self).wf(),
            final(self).src() == old(self).src(),
            final(self).at() >= old(self).at(),
            match r {
                Ok(node) => wf_list(node@) && final(self).at() > old(self).at() && sp_sc_list(
                    old(self).src(),
                    old(self).at(),
                    old(self).column(),
                ) == Some((node@, final(self).at(), final(self).column())),
                Err(_) => sp_sc_list(old(self).src(), old(self).at(), old(self).column())
                    is None,
            },
        decreases old(self).src().len() - old(self).at(), 4int,
    {
        let r = self.skip_trivia();
        if r.is_err() {
            return Err(r.unwrap_err());
        }
        let r = self.expect('{');
        if r.is_err() {
            return Err(r.unwrap_err());
        }
        let r = self.skip_trivia();
        if r.is_err() {
            return Err(r.unwrap_err());
        }
        let key = match self.scan_word() {
            Ok(key) => key,
            Err(e) => {
                return Err(e);
            },
        };
        let good = word_is(&key, "dl") || word_is(&key, "il") || word_is(&key, "cl");
        if !good {
            return Err("unknown list kind".to_owned());
        }
        let ghost mstart = self.at();
        let ghost mcol = self.column();
        let key_node = SyntaxNode {
            kind: NodeKind::Word,
            text: key,
            col: 1,
            children: Vec::new(),
        };
        proof {
            assert(key_node@.children =~= Seq::<SyntaxNodeV>::empty());
        }
        let mut children: Vec<SyntaxNode> = Vec::new();
        let ghost kv = key_node@;
        children.push(key_node);
        proof {
            lemma_view_syntax_nodes(children@);
            assert(view_syntax_nodes(children@)[0] == kv);
            assert(view_syntax_nodes(children@) =~= seq![kv]);
        }
        loop
            invariant_except_break
                sp_sc_list_body(self.src(), self.at(), self.column(), view_syntax_nodes(children@))
                    == sp_sc_list_body(self.src(), mstart, mcol, seq![kv]),
            invariant
                sp_sc_list(old(self).src(), old(self).at(), old(self).column()) == (
                match sp_sc_list_body(self.src(), mstart, mcol, seq![kv]) {
                    None => None,
                    Some((cs, pp, cc)) => Some(
                        (
                            SyntaxNodeV {
                                kind: NodeKind::List,
                                text: Seq::empty(),
                                col: 1,
                                children: cs,
                            },
                            pp,
                            cc,
                        ),
                    ),
                }),
                self.wf(),
                self.src() == old(self).src(),
                self.at() > old(self).at(),
                children@.len() >= 1,
                view_syntax_nodes(children@)[0] == kv,
                wf_word(kv),
                is_list_key(kv.text),
                forall|j: int|
                    1 <= j < children@.len() ==> (wf_paragraph(
                        #[trigger] view_syntax_nodes(children@)[j],
                    ) || wf_meta(view_syntax_nodes(children@)[j])),
            ensures
                self.wf(),
                self.src() == old(self).src(),
                self.at() > old(self).at(),
                children@.len() >= 1,
                view_syntax_nodes(children@)[0] == kv,
                wf_word(kv),
                is_list_key(kv.text),
                forall|j: int|
                    1 <= j < children@.len() ==> (wf_paragraph(
                        #[trigger] view_syntax_nodes(children@)[j],
                    ) || wf_meta(view_syntax_nodes(children@)[j])),
                sp_sc_list(old(self).src(), old(self).at(), old(self).column()) == Some(
                    (
                        SyntaxNodeV {
                            kind: NodeKind::List,
                            text: Seq::empty(),
                            col: 1,
                            children: view_syntax_nodes(children@),
                        },
                        self.at(),
                        self.column(),
                    ),
                ),
            decreases self.src().len() - self.at(),
        {
            let ghost istart = self.at();
            let ghost icol = self.column();
            let ghost ichildren = view_syntax_nodes(children@);
            let r = self.sep();
            if r.is_err() {
                return Err(r.unwrap_err());
            }
            if self.at_end() {
                return Err("list is never closed".to_owned());
            }
            if self.peek() == '}' {
                let _c = self.bump();
                break ;
            }
            let w = match self.scan_word() {
                Ok(w) => w,
                Err(e) => {
                    return Err(e);
                },
            };
            let block = if word_is(&w, "par") {
                self.scan_paragraph()
            } else if word_is(&w, "tags") {
                self.scan_tags()
            } else if word_is(&w, "props") {
                self.scan_props()
            } else {
                return Err("unknown block in list".to_owned());
            };
            let block = match block {
                Ok(block) => block,
                Err(e) => {
                    return Err(e);
                },
            };
            let ghost pre = children@;
            children.push(block);
            proof {
                lemma_view_syntax_nodes(children@);
                lemma_view_syntax_nodes(pre);
                assert(view_syntax_nodes(children@) =~= view_syntax_nodes(pre).push(
                    view_syntax_node(children@[pre.len() as int]),
                ));
                assert(sp_sc_list_body(self.src(), istart, icol, ichildren) == sp_sc_list_body(
                    self.src(),
                    self.at(),
                    self.column(),
                    view_syntax_nodes(children@),
                ));
            }
        }
        proof {
            lemma_view_syntax_nodes(children@);
            let cs = view_syntax_nodes(children@);
            let rest = cs.subrange(1, cs.len() as int);
            assert forall|j: int|
                0 <= j < rest.len() implies wf_paragraph(#[trigger] rest[j]) || wf_meta(
                rest[j],
            ) by {
                assert(rest[j] == cs[j + 1]);
            }
            lemma_wf_list_children_intro(rest);
        }
        let node = SyntaxNode {
            kind: NodeKind::List,
            text: String::new(),
            col: 1,
            children,
        };
        Ok(node)
    }

    /// Reads one table row from its opening brace to its closing one.
    #[verifier::spinoff_prover]
    #[verifier::rlimit(100)]
    fn scan_row(&mut self, header: bool) -> (r: Result<SyntaxNode, String>)
        requires
            old(self).wf(),
        ensures
            final(self).wf(),
            final(self).src() == old(self).src(),
            final(self).at() >= old(self).at(),
            match r {
                Ok(node) => wf_row(node@) && final(self).at() > old(self).at() && sp_sc_row(
                    old(self).src(),
                    old(self).at(),
                    old(self).column(),
                    header,
                ) == Some((node@, final(self).at(), final(self).column())),
                Err(_) => sp_sc_row(old(self).src(), old(self).at(), old(self).column(), header)
                    is None,
            },
        decreases old(self).src().len() - old(self).at(), 5int,
    {
        let r = self.skip_trivia();
        if r.is_err() {
            return Err(r.unwrap_err());
        }
        let r = self.expect('{');
        if r.is_err() {
            return Err(r.unwrap_err());
        }
        let ghost mstart = self.at();
        let ghost mcol = self.column();
        let mut children: Vec<SyntaxNode> = Vec::new();
        proof {
            assert(view_syntax_nodes(children@) =~= Seq::<SyntaxNodeV>::empty());
        }
        loop
            invariant_except_break
                sp_sc_row_body(self.src(), self.at(), self.column(), view_syntax_nodes(children@))
                    == sp_sc_row_body(self.src(), mstart, mcol, Seq::empty()),
            invariant
                sp_sc_row(old(self).src(), old(self).at(), old(self).column(), header) == (
                match sp_sc_row_body(self.src(), mstart, mcol, Seq::empty()) {
                    None => None,
                    Some((cs, pp, cc)) => Some(
                        (
                            SyntaxNodeV {
                                kind: if header {
                                    NodeKind::HeadRow
                                } else {
                                    NodeKind::Row
                                },
                                text: Seq::empty(),
                                col: 1,
                                children: cs,
                            },
                            pp,
                            cc,
                        ),
                    ),
                }),
                self.wf(),
                self.src() == old(self).src(),
                self.at() > old(self).at(),
                forall|j: int|
                    0 <= j < children@.len() ==> (wf_paragraph(
                        #[trigger] view_syntax_nodes(children@)[j],
                    ) || wf_meta(view_syntax_nodes(children@)[j])),
            ensures
                self.wf(),
                self.src() == old(self).src(),
                self.at() > old(self).at(),
                forall|j: int|
                    0 <= j < children@.len() ==> (wf_paragraph(
                        #[trigger] view_syntax_nodes(children@)[j],
                    ) || wf_meta(view_syntax_nodes(children@)[j])),
                sp_sc_row(old(self).src(), old(self).at(), old(self).column(), header) == Some(
                    (
                        SyntaxNodeV {
                            kind: if header {
                                NodeKind::HeadRow
                            } else {
                                NodeKind::Row
                            },
                            text: Seq::empty(),
                            col: 1,
                            children: view_syntax_nodes(children@),
                        },
                        self.at(),
                        self.column(),
                    ),
                ),
            decreases self.src().len() - self.at(),
        {
            let ghost istart = self.at();
            let ghost icol = self.column();
            let ghost ichildren = view_syntax_nodes(children@);
            let r = self.sep();
            if r.is_err() {
                return Err(r.unwrap_err());
            }
            if self.at_end() {
                return Err("table row is never closed".to_owned());
            }
            if self.peek() == '}' {
                let _c = self.bump();
                break ;
            }
            let w = match self.scan_word() {
                Ok(w) => w,
                Err(e) => {
                    return Err(e);
                },
            };
            let block = if word_is(&w, "par") {
                self.scan_paragraph()
            } else if word_is(&w, "tags") {
                self.scan_tags()
            } else if word_is(&w, "props") {
                self.scan_props()
            } else {
                return Err("unknown block in a table row".to_owned());
            };
            let block = match block {
                Ok(block) => block,
                Err(e) => {
                    return Err(e);
                },
            };
            let ghost pre = children@;
            children.push(block);
            proof {
                lemma_view_syntax_nodes(children@);
                lemma_view_syntax_nodes(pre);
                assert(view_syntax_nodes(children@) =~= view_syntax_nodes(pre).push(
                    view_syntax_node(children@[pre.len() as int]),
                ));
                assert(sp_sc_row_body(self.src(), istart, icol, ichildren) == sp_sc_row_body(
                    self.src(),
                    self.at(),
                    self.column(),
                    view_syntax_nodes(children@),
                ));
            }
        }
        proof {
            lemma_view_syntax_nodes(children@);
            lemma_wf_row_children_intro(view_syntax_nodes(children@));
        }
        let node = SyntaxNode {
            kind: if header {
                NodeKind::HeadRow
            } else {
                NodeKind::Row
            },
            text: String::new(),
            col: 1,
            children,
        };
        Ok(node)
    }

    /// Reads a table construct from its opening brace to its closing one.
    #[verifier::spinoff_prover]
    #[verifier::rlimit(100)]
    fn scan_table(&mut self) -> (r: Result<SyntaxNode, String>)
        requires
            old(self).wf(),
        ensures
            final(self).wf(),
            final(self).src() == old(self).src(),
            final(self).at() >= old(self).at(),
            match r {
                Ok(node) => wf_table(node@) && final(self).at() > old(self).at() && sp_sc_table(
                    old(self).src(),
                    old(self).at(),
                    old(self).column(),
                ) == Some((node@, final(self).at(), final(self).column())),
                Err(_) => sp_sc_table(old(self).src(), old(self).at(), old(self).column())
                    is None,
            },
        decreases old(self).src().len() - old(self).at(), 6int,
    {
        let r = self.skip_trivia();
        if r.is_err() {
            return Err(r.unwrap_err());
        }
        let r = self.expect('{');
        if r.is_err() {
            return Err(r.unwrap_err());
        }
        let ghost mstart = self.at();
        let ghost mcol = self.column();
        let mut children: Vec<SyntaxNode> = Vec::new();
        proof {
            assert(view_syntax_nodes(children@) =~= Seq::<SyntaxNodeV>::empty());
        }
        loop
            invariant_except_break
                sp_sc_table_body(
                    self.src(),
                    self.at(),
                    self.column(),
                    view_syntax_nodes(children@),
                ) == sp_sc_table_body(self.src(), mstart, mcol, Seq::empty()),
            invariant
                sp_sc_table(old(self).src(), old(self).at(), old(self).column()) == (
                match sp_sc_table_body(self.src(), mstart, mcol, Seq::empty()) {
                    None => None,
                    Some((cs, pp, cc)) => Some(
                        (
                            SyntaxNodeV {
                                kind: NodeKind::Table,
                                text: Seq::empty(),
                                col: 1,
                                children: cs,
                            },
                            pp,
                            cc,
                        ),
                    ),
                }),
                self.wf(),
                self.src() == old(self).src(),
                self.at() > old(self).at(),
                forall|j: int|
                    0 <= j < children@.len() ==> (wf_row(
                        #[trigger] view_syntax_nodes(children@)[j],
                    ) || wf_meta(view_syntax_nodes(children@)[j])),
            ensures
                self.wf(),
                self.src() == old(self).src(),
                self.at() > old(self).at(),
                forall|j: int|
                    0 <= j < children@.len() ==> (wf_row(
                        #[trigger] view_syntax_nodes(children@)[j],
                    ) || wf_meta(view_syntax_nodes(children@)[j])),
                sp_sc_table(old(self).src(), old(self).at(), old(self).column()) == Some(
                    (
                        SyntaxNodeV {
                            kind: NodeKind::Table,
                            text: Seq::empty(),
                            col: 1,
                            children: view_syntax_nodes(children@),
                        },
                        self.at(),
                        self.column(),
                    ),
                ),
            decreases self.src().len() - self.at(),
        {
            let ghost istart = self.at();
            let ghost icol = self.column();
            let ghost ichildren = view_syntax_nodes(children@);
            let r = self.sep();
            if r.is_err() {
                return Err(r.unwrap_err());
            }
            if self.at_end() {
                return Err("table is never closed".to_owned());
            }
            if self.peek() == '}' {
                let _c = self.bump();
                break ;
            }
            let w = match self.scan_word() {
                Ok(w) => w,
                Err(e) => {
                    return Err(e);
                },
            };
            let block = if word_is(&w, "hrow") {
                self.scan_row(true)
            } else if word_is(&w, "row") {
                self.scan_row(false)
            } else if word_is(&w, "tags") {
                self.scan_tags()
            } else if word_is(&w, "props") {
                self.scan_props()
            } else {
                return Err("unknown block in table".to_owned());
            };
            let block = match block {
                Ok(block) => block,
                Err(e) => {
                    return Err(e);
                },
            };
            let ghost pre = children@;
            children.push(block);
            proof {
                lemma_view_syntax_nodes(children@);
                lemma_view_syntax_nodes(pre);
                assert(view_syntax_nodes(children@) =~= view_syntax_nodes(pre).push(
                    view_syntax_node(children@[pre.len() as int]),
                ));
                assert(sp_sc_table_body(self.src(), istart, icol, ichildren) == sp_sc_table_body(
                    self.src(),
                    self.at(),
                    self.column(),
                    view_syntax_nodes(children@),
                ));
            }
        }
        proof {
            lemma_view_syntax_nodes(children@);
            lemma_wf_table_children_intro(view_syntax_nodes(children@));
        }
        let node = SyntaxNode {
            kind: NodeKind::Table,
            text: String::new(),
            col: 1,
            children,
        };
        Ok(node)
    }

    /// Reads a sub-navigation construct from its opening brace to its
    /// closing one.
    #[verifier::spinoff_prover]
    #[verifier::rlimit(100)]
    fn scan_snav(&mut self) -> (r: Result<SyntaxNode, String>)
        requires
            old(self).wf(),
        ensures
            final(self).wf(),
            final(self).src() == old(self).src(),
            final(self).at() >= old(self).at(),
            match r {
                Ok(node) => wf_snav(node@) && final(self).at() > old(self).at() && sp_sc_snav(
                    old(self).src(),
                    old(self).at(),
                    old(self).column(),
                ) == Some((node@, final(self).at(), final(self).column())),
                Err(_) => sp_sc_snav(old(self).src(), old(self).at(), old(self).column())
                    is None,
            },
        decreases old(self).src().len() - old(self).at(), 7int,
    {
        let r = self.skip_trivia();
        if r.is_err() {
            return Err(r.unwrap_err());
        }
        let r = self.expect('{');
        if r.is_err() {
            return Err(r.unwrap_err());
        }
        let r = self.skip_trivia();
        if r.is_err() {
            return Err(r.unwrap_err());
        }
        let description = match self.scan_string() {
            Ok(description) => description,
            Err(e) => {
                return Err(e);
            },
        };
        let ghost mstart = self.at();
        let ghost mcol = self.column();
        let mut children: Vec<SyntaxNode> = Vec::new();
        let ghost dv = description@;
        children.push(description);
        proof {
            lemma_view_syntax_nodes(children@);
            assert(view_syntax_nodes(children@)[0] == dv);
            assert(view_syntax_nodes(children@) =~= seq![dv]);
        }
        loop
            invariant_except_break
                sp_sc_nav_body(self.src(), self.at(), self.column(), view_syntax_nodes(children@))
                    == sp_sc_nav_body(self.src(), mstart, mcol, seq![dv]),
            invariant
                sp_sc_snav(old(self).src(), old(self).at(), old(self).column()) == (
                match sp_sc_nav_body(self.src(), mstart, mcol, seq![dv]) {
                    None => None,
                    Some((cs, pp, cc)) => Some(
                        (
                            SyntaxNodeV {
                                kind: NodeKind::Snav,
                                text: Seq::empty(),
                                col: 1,
                                children: cs,
                            },
                            pp,
                            cc,
                        ),
                    ),
                }),
                self.wf(),
                self.src() == old(self).src(),
                self.at() > old(self).at(),
                children@.len() >= 1,
                view_syntax_nodes(children@)[0] == dv,
                wf_str(dv),
                forall|j: int|
                    1 <= j < children@.len() ==> (wf_snav(
                        #[trigger] view_syntax_nodes(children@)[j],
                    ) || wf_link(view_syntax_nodes(children@)[j]) || wf_meta(
                        view_syntax_nodes(children@)[j],
                    )),
            ensures
                self.wf(),
                self.src() == old(self).src(),
                self.at() > old(self).at(),
                children@.len() >= 1,
                view_syntax_nodes(children@)[0] == dv,
                wf_str(dv),
                forall|j: int|
                    1 <= j < children@.len() ==> (wf_snav(
                        #[trigger] view_syntax_nodes(children@)[j],
                    ) || wf_link(view_syntax_nodes(children@)[j]) || wf_meta(
                        view_syntax_nodes(children@)[j],
                    )),
                sp_sc_snav(old(self).src(), old(self).at(), old(self).column()) == Some(
                    (
                        SyntaxNodeV {
                            kind: NodeKind::Snav,
                            text: Seq::empty(),
                            col: 1,
                            children: view_syntax_nodes(children@),
                        },
                        self.at(),
                        self.column(),
                    ),
                ),
            decreases self.src().len() - self.at(),
        {
            let ghost istart = self.at();
            let ghost icol = self.column();
            let ghost ichildren = view_syntax_nodes(children@);
            let r = self.sep();
            if r.is_err() {
                return Err(r.unwrap_err());
            }
            if self.at_end() {
                return Err("sub-navigation is never closed".to_owned());
            }
            if self.peek() == '}' {
                let _c = self.bump();
                break ;
            }
            let w = match self.scan_word() {
                Ok(w) => w,
                Err(e) => {
                    return Err(e);
                },
            };
            let block = if word_is(&w, "snav") {
                self.scan_snav()
            } else if word_is(&w, "link") {
                self.scan_link()
            } else if word_is(&w, "tags") {
                self.scan_tags()
            } else if word_is(&w, "props") {
                self.scan_props()
            } else {
                return Err("unknown block in sub-navigation".to_owned());
            };
            let block = match block {
                Ok(block) => block,
                Err(e) => {
                    return Err(e);
                },
            };
            let ghost pre = children@;
            children.push(block);
            proof {
                lemma_view_syntax_nodes(children@);
                lemma_view_syntax_nodes(pre);
                assert(view_syntax_nodes(children@) =~= view_syntax_nodes(pre).push(
                    view_syntax_node(children@[pre.len() as int]),
                ));
                assert(sp_sc_nav_body(self.src(), istart, icol, ichildren) == sp_sc_nav_body(
                    self.src(),
                    self.at(),
                    self.column(),
                    view_syntax_nodes(children@),
                ));
            }
        }
        proof {
            lemma_view_syntax_nodes(children@);
            let cs = view_syntax_nodes(children@);
            let rest = cs.subrange(1, cs.len() as int);
            assert forall|j: int|
                0 <= j < rest.len() implies wf_snav(#[trigger] rest[j]) || wf_link(rest[j])
                || wf_meta(rest[j]) by {
                assert(rest[j] == cs[j + 1]);
            }
            lemma_wf_snav_children_intro(rest);
        }
        let node = SyntaxNode {
            kind: NodeKind::Snav,
            text: String::new(),
            col: 1,
            children,
        };
        Ok(node)
    }

    /// Reads a top-level navigation construct from its opening brace to its
    /// closing one.
    #[verifier::spinoff_prover]
    #[verifier::rlimit(100)]
    fn scan_nav(&mut self) -> (r: Result<SyntaxNode, String>)
        requires
            old(self).wf(),
        ensures
            final(self).wf(),
            final(self).src() == old(self).src(),
            final(self).at() >= old(self).at(),
            match r {
                Ok(node) => wf_nav(node@) && final(self).at() > old(self).at() && sp_sc_nav(
                    old(self).src(),
                    old(self).at(),
                    old(self).column(),
                ) == Some((node@, final(self).at(), final(self).column())),
                Err(_) => sp_sc_nav(old(self).src(), old(self).at(), old(self).column())
                    is None,
            },
    {
        let r = self.skip_trivia();
        if r.is_err() {
            return Err(r.unwrap_err());
        }
        let r = self.expect('{');
        if r.is_err() {
            return Err(r.unwrap_err());
        }
        let ghost mstart = self.at();
        let ghost mcol = self.column();
        let mut children: Vec<SyntaxNode> = Vec::new();
        proof {
            assert(view_syntax_nodes(children@) =~= Seq::<SyntaxNodeV>::empty());
        }
        loop
            invariant_except_break
                sp_sc_nav_body(self.src(), self.at(), self.column(), view_syntax_nodes(children@))
                    == sp_sc_nav_body(self.src(), mstart, mcol, Seq::empty()),
            invariant
                sp_sc_nav(old(self).src(), old(self).at(), old(self).column()) == (
                match sp_sc_nav_body(self.src(), mstart, mcol, Seq::empty()) {
                    None => None,
                    Some((cs, pp, cc)) => Some(
                        (
                            SyntaxNodeV {
                                kind: NodeKind::Nav,
                                text: Seq::empty(),
                                col: 1,
                                children: cs,
                            },
                            pp,
                            cc,
                        ),
                    ),
                }),
                self.wf(),
                self.src() == old(self).src(),
                self.at() > old(self).at(),
                forall|j: int|
                    0 <= j < children@.len() ==> (wf_snav(
                        #[trigger] view_syntax_nodes(children@)[j],
                    ) || wf_link(view_syntax_nodes(children@)[j]) || wf_meta(
                        view_syntax_nodes(children@)[j],
                    )),
            ensures
                self.wf(),
                self.src() == old(self).src(),
                self.at() > old(self).at(),
                forall|j: int|
                    0 <= j < children@.len() ==> (wf_snav(
                        #[trigger] view_syntax_nodes(children@)[j],
                    ) || wf_link(view_syntax_nodes(children@)[j]) || wf_meta(
                        view_syntax_nodes(children@)[j],
                    )),
                sp_sc_nav(old(self).src(), old(self).at(), old(self).column()) == Some(
                    (
                        SyntaxNodeV {
                            kind: NodeKind::Nav,
                            text: Seq::empty(),
                            col: 1,
                            children: view_syntax_nodes(children@),
                        },
                        self.at(),
                        self.column(),
                    ),
                ),
            decreases self.src().len() - self.at(),
        {
            let ghost istart = self.at();
            let ghost icol = self.column();
            let ghost ichildren = view_syntax_nodes(children@);
            let r = self.sep();
            if r.is_err() {
                return Err(r.unwrap_err());
            }
            if self.at_end() {
                return Err("navigation is never closed".to_owned());
            }
            if self.peek() == '}' {
                let _c = self.bump();
                break ;
            }
            let w = match self.scan_word() {
                Ok(w) => w,
                Err(e) => {
                    return Err(e);
                },
            };
            let block = if word_is(&w, "snav") {
                self.scan_snav()
            } else if word_is(&w, "link") {
                self.scan_link()
            } else if word_is(&w, "tags") {
                self.scan_tags()
            } else if word_is(&w, "props") {
                self.scan_props()
            } else {
                return Err("unknown block in navigation".to_owned());
            };
            let block = match block {
                Ok(block) => block,
                Err(e) => {
                    return Err(e);
                },
            };
            let ghost pre = children@;
            children.push(block);
            proof {
                lemma_view_syntax_nodes(children@);
                lemma_view_syntax_nodes(pre);
                assert(view_syntax_nodes(children@) =~= view_syntax_nodes(pre).push(
                    view_syntax_node(children@[pre.len() as int]),
                ));
                assert(sp_sc_nav_body(self.src(), istart, icol, ichildren) == sp_sc_nav_body(
                    self.src(),
                    self.at(),
                    self.column(),
                    view_syntax_nodes(children@),
                ));
            }
        }
        proof {
            lemma_view_syntax_nodes(children@);
            lemma_wf_snav_children_intro(view_syntax_nodes(children@));
        }
        let node = SyntaxNode {
            kind: NodeKind::Nav,
            text: String::new(),
            col: 1,
            children,
        };
        Ok(node)
    }

    /// Reads a section construct from its opening brace to its closing one:
    /// its heading first, then its content.
    #[verifier::spinoff_prover]
    #[verifier::rlimit(100)]
    fn scan_section(&mut self) -> (r: Result<SyntaxNode, String>)
        requires
            old(self).wf(),
        ensures
            final(self).wf(),
            final(self).src() == old(self).src(),
            final(self).at() >= old(self).at(),
            match r {
                Ok(node) => wf_section(node@) && final(self).at() > old(self).at()
                    && sp_sc_section(old(self).src(), old(self).at(), old(self).column())
                    == Some((node@, final(self).at(), final(self).column())),
                Err(_) => sp_sc_section(old(self).src(), old(self).at(), old(self).column())
                    is None,
            },
        decreases old(self).src().len() - old(self).at(), 8int,
    {
        let r = self.skip_trivia();
        if r.is_err() {
            return Err(r.unwrap_err());
        }
        let r = self.expect('{');
        if r.is_err() {
            return Err(r.unwrap_err());
        }
        let r = self.skip_trivia();
        if r.is_err() {
            return Err(r.unwrap_err());
        }
        let w = match self.scan_word() {
            Ok(w) => w,
            Err(e) => {
                return Err(e);
            },
        };
        if !word_is(&w, "head") {
            return Err("a section must start with its heading".to_owned());
        }
        let heading = match self.scan_heading() {
            Ok(heading) => heading,
            Err(e) => {
                return Err(e);
            },
        };
        let ghost mstart = self.at();
        let ghost mcol = self.column();
        let mut children: Vec<SyntaxNode> = Vec::new();
        let ghost hv = heading@;
        children.push(heading);
        proof {
            lemma_view_syntax_nodes(children@);
            assert(view_syntax_nodes(children@)[0] == hv);
            assert(view_syntax_nodes(children@) =~= seq![hv]);
        }
        loop
            invariant_except_break
                sp_sc_section_body(
                    self.src(),
                    self.at(),
                    self.column(),
                    view_syntax_nodes(children@),
                ) == sp_sc_section_body(self.src(), mstart, mcol, seq![hv]),
            invariant
                sp_sc_section(old(self).src(), old(self).at(), old(self).column()) == (
                match sp_sc_section_body(self.src(), mstart, mcol, seq![hv]) {
                    None => None,
                    Some((cs, pp, cc)) => Some(
                        (
                            SyntaxNodeV {
                                kind: NodeKind::Section,
                                text: Seq::empty(),
                                col: 1,
                                children: cs,
                            },
                            pp,
                            cc,
                        ),
                    ),
                }),
                self.wf(),
                self.src() == old(self).src(),
                self.at() > old(self).at(),
                children@.len() >= 1,
                view_syntax_nodes(children@)[0] == hv,
                wf_heading(hv),
                forall|j: int|
                    1 <= j < children@.len() ==> (wf_paragraph(
                        #[trigger] view_syntax_nodes(children@)[j],
                    ) || wf_section(view_syntax_nodes(children@)[j]) || wf_meta(
                        view_syntax_nodes(children@)[j],
                    )),
            ensures
                self.wf(),
                self.src() == old(self).src(),
                self.at() > old(self).at(),
                children@.len() >= 1,
                view_syntax_nodes(children@)[0] == hv,
                wf_heading(hv),
                forall|j: int|
                    1 <= j < children@.len() ==> (wf_paragraph(
                        #[trigger] view_syntax_nodes(children@)[j],
                    ) || wf_section(view_syntax_nodes(children@)[j]) || wf_meta(
                        view_syntax_nodes(children@)[j],
                    )),
                sp_sc_section(old(self).src(), old(self).at(), old(self).column()) == Some(
                    (
                        SyntaxNodeV {
                            kind: NodeKind::Section,
                            text: Seq::empty(),
                            col: 1,
                            children: view_syntax_nodes(children@),
                        },
                        self.at(),
                        self.column(),
                    ),
                ),
            decreases self.src().len() - self.at(),
        {
            let ghost istart = self.at();
            let ghost icol = self.column();
            let ghost ichildren = view_syntax_nodes(children@);
            let r = self.sep();
            if r.is_err() {
                return Err(r.unwrap_err());
            }
            if self.at_end() {
                return Err("section is never closed".to_owned());
            }
            if self.peek() == '}' {
                let _c = self.bump();
                break ;
            }
            let w = match self.scan_word() {
                Ok(w) => w,
                Err(e) => {
                    return Err(e);
                },
            };
            let block = if word_is(&w, "par") {
                self.scan_paragraph()
            } else if word_is(&w, "section") {
                self.scan_section()
            } else if word_is(&w, "tags") {
                self.scan_tags()
            } else if word_is(&w, "props") {
                self.scan_props()
            } else {
                return Err("unknown block in section".to_owned());
            };
            let block = match block {
                Ok(block) => block,
                Err(e) => {
                    return Err(e);
                },
            };
            let ghost pre = children@;
            children.push(block);
            proof {
                lemma_view_syntax_nodes(children@);
                lemma_view_syntax_nodes(pre);
                assert(view_syntax_nodes(children@) =~= view_syntax_nodes(pre).push(
                    view_syntax_node(children@[pre.len() as int]),
                ));
                assert(sp_sc_section_body(self.src(), istart, icol, ichildren)
                    == sp_sc_section_body(
                    self.src(),
                    self.at(),
                    self.column(),
                    view_syntax_nodes(children@),
                ));
            }
        }
        proof {
            lemma_view_syntax_nodes(children@);
            let cs = view_syntax_nodes(children@);
            let rest = cs.subrange(1, cs.len() as int);
            assert forall|j: int|
                0 <= j < rest.len() implies wf_paragraph(#[trigger] rest[j]) || wf_section(
                rest[j],
            ) || wf_meta(rest[j]) by {
                assert(rest[j] == cs[j + 1]);
            }
            lemma_wf_section_children_intro(rest);
        }
        let node = SyntaxNode {
            kind: NodeKind::Section,
            text: String::new(),
            col: 1,
            children,
        };
        Ok(node)
    }

    /// Reads one top-level construct: a text item or a keyword-named block.
    #[verifier::spinoff_prover]
    #[verifier::rlimit(100)]
    fn scan_top_item(&mut self) -> (r: Result<SyntaxNode, String>)
        requires
            old(self).wf(),
            old(self).at() < old(self).src().len(),
        ensures
            final(self).wf(),
            final(self).src() == old(self).src(),
            final(self).at() >= old(self).at(),
            match r {
                Ok(node) => final(self).at() > old(self).at() && sp_sc_top_item(
                    old(self).src(),
                    old(self).at(),
                    old(self).column(),
                ) == Some((node@, final(self).at(), final(self).column())) && (wf_meta(node@)
                    || wf_paragraph(node@) || wf_section(node@) || wf_nav(node@) || wf_text_item(
                    node@,
                ) || wf_emphasis(node@) || wf_code(node@) || wf_link(node@) || wf_list(node@)
                    || wf_table(node@)),
                Err(_) => sp_sc_top_item(old(self).src(), old(self).at(), old(self).column())
                    is None,
            },
    {
        let c = self.peek();
        if c == '\'' {
            match self.scan_text_item() {
                Ok(v) => Ok(v),
                Err(e) => Err(e),
            }
        } else {
            let w = match self.scan_word() {
                Ok(w) => w,
                Err(e) => {
                    return Err(e);
                },
            };
            let block = if word_is(&w, "par") {
                self.scan_paragraph()
            } else if word_is(&w, "section") {
                self.scan_section()
            } else if word_is(&w, "nav") {
                self.scan_nav()
            } else if word_is(&w, "em") {
                self.scan_emphasis()
            } else if word_is(&w, "code") {
                self.scan_code()
            } else if word_is(&w, "link") {
                self.scan_link()
            } else if word_is(&w, "list") {
                self.scan_list()
            } else if word_is(&w, "table") {
                self.scan_table()
            } else if word_is(&w, "tags") {
                self.scan_tags()
            } else if word_is(&w, "props") {
                self.scan_props()
            } else {
                return Err("unknown top-level construct".to_owned());
            };
            match block {
                Ok(v) => Ok(v),
                Err(e) => Err(e),
            }
        }
    }

    /// Reads a whole source: a sequence of top-level constructs up to the
    /// end of input.
    #[verifier::spinoff_prover]
    #[verifier::rlimit(100)]
    pub fn scan_top(&mut self) -> (r: Result<SyntaxNode, String>)
        requires
            old(self).wf(),
            old(self).at() == 0,
            old(self).column() == 1,
        ensures
            final(self).wf(),
            match r {
                Ok(node) => wf_top(node@) && sp_scan(old(self).src()) == Some(node@),
                Err(_) => sp_scan(old(self).src()) is None,
            },
    {
        let mut children: Vec<SyntaxNode> = Vec::new();
        proof {
            assert(view_syntax_nodes(children@) =~= Seq::<SyntaxNodeV>::empty());
        }
        loop
            invariant_except_break
                sp_sc_top_body(self.src(), self.at(), self.column(), view_syntax_nodes(children@))
                    == sp_sc_top_body(self.src(), 0, 1, Seq::empty()),
            invariant
                self.wf(),
                self.src() == old(self).src(),
                self.at() >= old(self).at(),
                forall|j: int|
                    0 <= j < children@.len() ==> (wf_meta(
                        #[trigger] view_syntax_nodes(children@)[j],
                    ) || wf_paragraph(view_syntax_nodes(children@)[j]) || wf_section(
                        view_syntax_nodes(children@)[j],
                    ) || wf_nav(view_syntax_nodes(children@)[j]) || wf_text_item(
                        view_syntax_nodes(children@)[j],
                    ) || wf_emphasis(view_syntax_nodes(children@)[j]) || wf_code(
                        view_syntax_nodes(children@)[j],
                    ) || wf_link(view_syntax_nodes(children@)[j]) || wf_list(
                        view_syntax_nodes(children@)[j],
                    ) || wf_table(view_syntax_nodes(children@)[j])),
            ensures
                self.wf(),
                self.src() == old(self).src(),
                forall|j: int|
                    0 <= j < children@.len() ==> (wf_meta(
                        #[trigger] view_syntax_nodes(children@)[j],
                    ) || wf_paragraph(view_syntax_nodes(children@)[j]) || wf_section(
                        view_syntax_nodes(children@)[j],
                    ) || wf_nav(view_syntax_nodes(children@)[j]) || wf_text_item(
                        view_syntax_nodes(children@)[j],
                    ) || wf_emphasis(view_syntax_nodes(children@)[j]) || wf_code(
                        view_syntax_nodes(children@)[j],
                    ) || wf_link(view_syntax_nodes(children@)[j]) || wf_list(
                        view_syntax_nodes(children@)[j],
                    ) || wf_table(view_syntax_nodes(children@)[j])),
                ({
                    let scanned = sp_sc_top_body(self.src(), 0, 1, Seq::empty());
                    scanned is Some && scanned.unwrap().0 == view_syntax_nodes(children@)
                }),
            decreases self.src().len() - self.at(),
        {
            let ghost istart = self.at();
            let ghost icol = self.column();
            let ghost ichildren = view_syntax_nodes(children@);
            let r = self.sep();
            if r.is_err() {
                return Err(r.unwrap_err());
            }
            if self.at_end() {
                break ;
            }
            let item = match self.scan_top_item() {
                Ok(v) => v,
                Err(e) => {
                    return Err(e);
                },
            };
            let ghost pre = children@;
            children.push(item);
            proof {
                lemma_view_syntax_nodes(children@);
                lemma_view_syntax_nodes(pre);
                assert(view_syntax_nodes(children@) =~= view_syntax_nodes(pre).push(
                    view_syntax_node(children@[pre.len() as int]),
                ));
                assert(sp_sc_top_body(self.src(), istart, icol, ichildren) == sp_sc_top_body(
                    self.src(),
                    self.at(),
                    self.column(),
                    view_syntax_nodes(children@),
                ));
            }
        }
        proof {
            lemma_view_syntax_nodes(children@);
            lemma_wf_top_children_intro(view_syntax_nodes(children@));
        }
        let node = SyntaxNode {
            kind: NodeKind::Top,
            text: String::new(),
            col: 1,
            children,
        };
        proof {
            assert(node@.children =~= view_syntax_nodes(children@));
            assert(node@.text =~= Seq::<char>::empty());
        }
        Ok(node)
    }
}

} // verus!

verus! {

// ---------------------------------------------------------------------------
// The grammar as a mathematical function of the source characters
// ---------------------------------------------------------------------------
// Each function mirrors one scanner routine as a state transformer over
// (position, column); None is a grammar rejection. Where a sub-scan's
// progress feeds a recursive call, the call is guarded on strict progress;
// the scanner never takes the guard's reject branch, as its contracts show.

/// The column after consuming one character.
pub open spec fn sp_bump_col(c: char, col: int) -> int {
    if c == '\n' {
        1
    } else if col < usize::MAX {
        col + 1
    } else {
        col
    }
}

/// Skipping a line comment, after its two opening slashes.
pub open spec fn sp_sc_line_comment(src: Seq<char>, pos: int, col: int) -> Option<(int, int)>
    decreases src.len() - pos,
{
    if pos < 0 || pos > src.len() {
        None
    } else if pos == src.len() {
        Some((pos, col))
    } else {
        let c = src[pos];
        if c == '\n' {
            Some((pos + 1, sp_bump_col(c, col)))
        } else {
            sp_sc_line_comment(src, pos + 1, sp_bump_col(c, col))
        }
    }
}

/// Skipping a block comment, after its opening; an unclosed one rejects.
pub open spec fn sp_sc_block_comment(src: Seq<char>, pos: int, col: int) -> Option<(int, int)>
    decreases src.len() - pos,
{
    if pos < 0 || pos >= src.len() {
        None
    } else {
        let c = src[pos];
        let col2 = sp_bump_col(c, col);
        if c == '*' && pos + 1 < src.len() && src[pos + 1] == '/' {
            Some((pos + 2, sp_bump_col('/', col2)))
        } else {
            sp_sc_block_comment(src, pos + 1, col2)
        }
    }
}

/// Skipping white space and comments.
pub open spec fn sp_sc_trivia(src: Seq<char>, pos: int, col: int) -> Option<(int, int)>
    decreases src.len() - pos, 1int,
{
    if pos < 0 || pos > src.len() {
        None
    } else if pos == src.len() {
        Some((pos, col))
    } else {
        let c = src[pos];
        if is_ws_char(c) {
            sp_sc_trivia(src, pos + 1, sp_bump_col(c, col))
        } else if c == '/' && pos + 1 < src.len() && src[pos + 1] == '/' {
            let col2 = sp_bump_col('/', sp_bump_col('/', col));
            match sp_sc_line_comment(src, pos + 2, col2) {
                Some((p2, c2)) => {
                    if p2 > pos && p2 <= src.len() {
                        sp_sc_trivia(src, p2, c2)
                    } else {
                        None
                    }
                },
                None => None,
            }
        } else if c == '/' && pos + 1 < src.len() && src[pos + 1] == '*' {
            let col2 = sp_bump_col('*', sp_bump_col('/', col));
            match sp_sc_block_comment(src, pos + 2, col2) {
                Some((p2, c2)) => {
                    if p2 > pos && p2 <= src.len() {
                        sp_sc_trivia(src, p2, c2)
                    } else {
                        None
                    }
                },
                None => None,
            }
        } else {
            Some((pos, col))
        }
    }
}

/// Skipping a separator: trivia, at most one comma, trivia.
pub open spec fn sp_sc_sep(src: Seq<char>, pos: int, col: int) -> Option<(int, int)> {
    match sp_sc_trivia(src, pos, col) {
        Some((p1, c1)) => {
            if p1 < src.len() && src[p1] == ',' {
                sp_sc_trivia(src, p1 + 1, sp_bump_col(',', c1))
            } else {
                sp_sc_trivia(src, p1, c1)
            }
        },
        None => None,
    }
}

/// Reading characters up to a closing quote.
pub open spec fn sp_sc_quoted_body(src: Seq<char>, pos: int, col: int, quote: char, acc: Seq<char>) -> Option<
    (Seq<char>, int, int),
>
    decreases src.len() - pos,
{
    if pos < 0 || pos >= src.len() {
        None
    } else {
        let c = src[pos];
        let col2 = sp_bump_col(c, col);
        if c == quote {
            Some((acc, pos + 1, col2))
        } else {
            sp_sc_quoted_body(src, pos + 1, col2, quote, acc.push(c))
        }
    }
}

/// Reading a double-quoted string literal node.
pub open spec fn sp_sc_string(src: Seq<char>, pos: int, col: int) -> Option<(SyntaxNodeV, int, int)> {
    if 0 <= pos < src.len() && src[pos] == '"' {
        match sp_sc_quoted_body(src, pos + 1, sp_bump_col('"', col), '"', Seq::empty()) {
            Some((text, p2, c2)) => Some(
                (
                    SyntaxNodeV { kind: NodeKind::Str, text, col: 1, children: Seq::empty() },
                    p2,
                    c2,
                ),
            ),
            None => None,
        }
    } else {
        None
    }
}

/// Reading a single-quoted text literal node, remembering the column of its
/// opening quote.
pub open spec fn sp_sc_text(src: Seq<char>, pos: int, col: int) -> Option<(SyntaxNodeV, int, int)> {
    if 0 <= pos < src.len() && src[pos] == '\'' && 1 <= col <= usize::MAX {
        match sp_sc_quoted_body(src, pos + 1, sp_bump_col('\'', col), '\'', Seq::empty()) {
            Some((text, p2, c2)) => Some(
                (
                    SyntaxNodeV {
                        kind: NodeKind::Text,
                        text,
                        col: col as usize,
                        children: Seq::empty(),
                    },
                    p2,
                    c2,
                ),
            ),
            None => None,
        }
    } else {
        None
    }
}

/// Whether a character is an ASCII letter.
pub open spec fn is_word_char(c: char) -> bool {
    ('a' <= c && c <= 'z') || ('A' <= c && c <= 'Z')
}

/// Reading the letters of a keyword.
pub open spec fn sp_sc_word_body(src: Seq<char>, pos: int, col: int, acc: Seq<char>) -> (
    Seq<char>,
    int,
    int,
)
    decreases src.len() - pos,
{
    if pos < 0 || pos >= src.len() {
        (acc, pos, col)
    } else {
        let c = src[pos];
        if is_word_char(c) {
            sp_sc_word_body(src, pos + 1, sp_bump_col(c, col), acc.push(c))
        } else {
            (acc, pos, col)
        }
    }
}

/// Reading a keyword of at least one letter.
pub open spec fn sp_sc_word(src: Seq<char>, pos: int, col: int) -> Option<(Seq<char>, int, int)> {
    let scanned = sp_sc_word_body(src, pos, col, Seq::empty());
    if scanned.0.len() == 0 {
        None
    } else {
        Some(scanned)
    }
}

/// Reading the digits of a number.
pub open spec fn sp_sc_digits(src: Seq<char>, pos: int, col: int, acc: Seq<char>) -> (
    Seq<char>,
    int,
    int,
)
    decreases src.len() - pos,
{
    if pos < 0 || pos >= src.len() {
        (acc, pos, col)
    } else {
        let c = src[pos];
        if '0' <= c && c <= '9' {
            sp_sc_digits(src, pos + 1, sp_bump_col(c, col), acc.push(c))
        } else {
            (acc, pos, col)
        }
    }
}

/// Reading an integer literal node: an optional minus sign, then at least
/// one digit.
pub open spec fn sp_sc_int(src: Seq<char>, pos: int, col: int) -> Option<(SyntaxNodeV, int, int)> {
    if pos < 0 || pos >= src.len() {
        None
    } else {
        let signed = 0 <= pos < src.len() && src[pos] == '-';
        let p1 = if signed {
            pos + 1
        } else {
            pos
        };
        let c1 = if signed {
            sp_bump_col('-', col)
        } else {
            col
        };
        let head: Seq<char> = if signed {
            seq!['-']
        } else {
            Seq::empty()
        };
        let scanned = sp_sc_digits(src, p1, c1, head);
        if scanned.0.len() == (if signed {
            1int
        } else {
            0int
        }) {
            None
        } else {
            Some(
                (
                    SyntaxNodeV {
                        kind: NodeKind::Int,
                        text: scanned.0,
                        col: 1,
                        children: Seq::empty(),
                    },
                    scanned.1,
                    scanned.2,
                ),
            )
        }
    }
}

/// Reading one property value: a string, a text block, an integer or a
/// date of three integer parts.
pub open spec fn sp_sc_value(src: Seq<char>, pos: int, col: int) -> Option<(SyntaxNodeV, int, int)> {
    if pos < 0 || pos >= src.len() {
        None
    } else if src[pos] == '"' {
        sp_sc_string(src, pos, col)
    } else if src[pos] == '\'' {
        sp_sc_text(src, pos, col)
    } else {
        match sp_sc_int(src, pos, col) {
            None => None,
            Some((first, p1, c1)) => {
                if p1 < src.len() && src[p1] == '/' {
                    match sp_sc_int(src, p1 + 1, sp_bump_col('/', c1)) {
                        None => None,
                        Some((second, p2, c2)) => {
                            if p2 < src.len() && src[p2] == '/' {
                                match sp_sc_int(src, p2 + 1, sp_bump_col('/', c2)) {
                                    None => None,
                                    Some((third, p3, c3)) => Some(
                                        (
                                            SyntaxNodeV {
                                                kind: NodeKind::Date,
                                                text: Seq::empty(),
                                                col: 1,
                                                children: seq![first, second, third],
                                            },
                                            p3,
                                            c3,
                                        ),
                                    ),
                                }
                            } else {
                                None
                            }
                        },
                    }
                } else {
                    Some((first, p1, c1))
                }
            },
        }
    }
}

} // verus!

verus! {

/// Reading the elements of a tags block after its opening brace.
pub open spec fn sp_sc_tags_body(src: Seq<char>, pos: int, col: int, children: Seq<SyntaxNodeV>) -> Option<
    (Seq<SyntaxNodeV>, int, int),
>
    decreases src.len() - pos,
{
    if pos < 0 || pos > src.len() {
        None
    } else {
        match sp_sc_trivia(src, pos, col) {
            None => None,
            Some((p1, c1)) => {
                if p1 >= src.len() {
                    None
                } else if src[p1] == '}' {
                    Some((children, p1 + 1, sp_bump_col('}', c1)))
                } else {
                    match sp_sc_string(src, p1, c1) {
                        None => None,
                        Some((item, p2, c2)) => {
                            match sp_sc_sep(src, p2, c2) {
                                None => None,
                                Some((p3, c3)) => {
                                    if p3 > pos && p3 <= src.len() {
                                        sp_sc_tags_body(src, p3, c3, children.push(item))
                                    } else {
                                        None
                                    }
                                },
                            }
                        },
                    }
                }
            },
        }
    }
}

/// Reading a whole tags block.
pub open spec fn sp_sc_tags(src: Seq<char>, pos: int, col: int) -> Option<(SyntaxNodeV, int, int)> {
    match sp_sc_trivia(src, pos, col) {
        None => None,
        Some((p1, c1)) => {
            if 0 <= p1 < src.len() && src[p1] == '{' {
                match sp_sc_tags_body(src, p1 + 1, sp_bump_col('{', c1), Seq::empty()) {
                    None => None,
                    Some((children, p2, c2)) => Some(
                        (
                            SyntaxNodeV {
                                kind: NodeKind::Tags,
                                text: Seq::empty(),
                                col: 1,
                                children,
                            },
                            p2,
                            c2,
                        ),
                    ),
                }
            } else {
                None
            }
        },
    }
}

/// Reading one property entry: a parenthesized key and value.
pub open spec fn sp_sc_prop_tuple(src: Seq<char>, pos: int, col: int) -> Option<(SyntaxNodeV, int, int)> {
    if 0 <= pos < src.len() && src[pos] == '(' {
        match sp_sc_trivia(src, pos + 1, sp_bump_col('(', col)) {
            None => None,
            Some((p1, c1)) => {
                match sp_sc_string(src, p1, c1) {
                    None => None,
                    Some((key, p2, c2)) => {
                        match sp_sc_sep(src, p2, c2) {
                            None => None,
                            Some((p3, c3)) => {
                                match sp_sc_value(src, p3, c3) {
                                    None => None,
                                    Some((val, p4, c4)) => {
                                        match sp_sc_trivia(src, p4, c4) {
                                            None => None,
                                            Some((p5, c5)) => {
                                                if p5 < src.len() && src[p5] == ')' {
                                                    Some(
                                                        (
                                                            SyntaxNodeV {
                                                                kind: NodeKind::PropTuple,
                                                                text: Seq::empty(),
                                                                col: 1,
                                                                children: seq![key, val],
                                                            },
                                                            p5 + 1,
                                                            sp_bump_col(')', c5),
                                                        ),
                                                    )
                                                } else {
                                                    None
                                                }
                                            },
                                        }
                                    },
                                }
                            },
                        }
                    },
                }
            },
        }
    } else {
        None
    }
}

/// Reading the entries of a props block after its opening brace.
pub open spec fn sp_sc_props_body(src: Seq<char>, pos: int, col: int, children: Seq<SyntaxNodeV>) -> Option<
    (Seq<SyntaxNodeV>, int, int),
>
    decreases src.len() - pos,
{
    if pos < 0 || pos > src.len() {
        None
    } else {
        match sp_sc_trivia(src, pos, col) {
            None => None,
            Some((p1, c1)) => {
                if p1 >= src.len() {
                    None
                } else if src[p1] == '}' {
                    Some((children, p1 + 1, sp_bump_col('}', c1)))
                } else {
                    match sp_sc_prop_tuple(src, p1, c1) {
                        None => None,
                        Some((tuple, p2, c2)) => {
                            match sp_sc_sep(src, p2, c2) {
                                None => None,
                                Some((p3, c3)) => {
                                    if p3 > pos && p3 <= src.len() {
                                        sp_sc_props_body(src, p3, c3, children.push(tuple))
                                    } else {
                                        None
                                    }
                                },
                            }
                        },
                    }
                }
            },
        }
    }
}

/// Reading a whole props block.
pub open spec fn sp_sc_props(src: Seq<char>, pos: int, col: int) -> Option<(SyntaxNodeV, int, int)> {
    match sp_sc_trivia(src, pos, col) {
        None => None,
        Some((p1, c1)) => {
            if 0 <= p1 < src.len() && src[p1] == '{' {
                match sp_sc_props_body(src, p1 + 1, sp_bump_col('{', c1), Seq::empty()) {
                    None => None,
                    Some((children, p2, c2)) => Some(
                        (
                            SyntaxNodeV {
                                kind: NodeKind::Props,
                                text: Seq::empty(),
                                col: 1,
                                children,
                            },
                            p2,
                            c2,
                        ),
                    ),
                }
            } else {
                None
            }
        },
    }
}

/// Reading one metadata block named by the keyword just read.
pub open spec fn sp_sc_meta_block(src: Seq<char>, pos: int, col: int, w: Seq<char>) -> Option<
    (SyntaxNodeV, int, int),
> {
    if w == "tags"@ {
        sp_sc_tags(src, pos, col)
    } else if w == "props"@ {
        sp_sc_props(src, pos, col)
    } else {
        None
    }
}

/// Reading the trailing metadata blocks of a construct that allows nothing
/// else before its closing brace.
pub open spec fn sp_sc_meta_body(src: Seq<char>, pos: int, col: int, children: Seq<SyntaxNodeV>) -> Option<
    (Seq<SyntaxNodeV>, int, int),
>
    decreases src.len() - pos,
{
    if pos < 0 || pos > src.len() {
        None
    } else {
        match sp_sc_sep(src, pos, col) {
            None => None,
            Some((p1, c1)) => {
                if p1 >= src.len() {
                    None
                } else if src[p1] == '}' {
                    Some((children, p1 + 1, sp_bump_col('}', c1)))
                } else {
                    match sp_sc_word(src, p1, c1) {
                        None => None,
                        Some((w, p2, c2)) => {
                            match sp_sc_meta_block(src, p2, c2, w) {
                                None => None,
                                Some((block, p3, c3)) => {
                                    if p3 > pos && p3 <= src.len() {
                                        sp_sc_meta_body(src, p3, c3, children.push(block))
                                    } else {
                                        None
                                    }
                                },
                            }
                        },
                    }
                }
            },
        }
    }
}

/// Reading an emphasis construct after its keyword.
pub open spec fn sp_sc_emphasis(src: Seq<char>, pos: int, col: int) -> Option<(SyntaxNodeV, int, int)> {
    match sp_sc_trivia(src, pos, col) {
        None => None,
        Some((p0, c0)) => {
            if !(0 <= p0 < src.len() && src[p0] == '{') {
                None
            } else {
                match sp_sc_trivia(src, p0 + 1, sp_bump_col('{', c0)) {
                    None => None,
                    Some((p1, c1)) => {
                        match sp_sc_word(src, p1, c1) {
                            None => None,
                            Some((key, p2, c2)) => {
                                if !is_em_key(key) {
                                    None
                                } else {
                                    match sp_sc_sep(src, p2, c2) {
                                        None => None,
                                        Some((p3, c3)) => {
                                            match sp_sc_string(src, p3, c3) {
                                                None => None,
                                                Some((text, p4, c4)) => {
                                                    let key_node = SyntaxNodeV {
                                                        kind: NodeKind::Word,
                                                        text: key,
                                                        col: 1,
                                                        children: Seq::empty(),
                                                    };
                                                    match sp_sc_meta_body(
                                                        src,
                                                        p4,
                                                        c4,
                                                        seq![key_node, text],
                                                    ) {
                                                        None => None,
                                                        Some((children, p5, c5)) => Some(
                                                            (
                                                                SyntaxNodeV {
                                                                    kind: NodeKind::Emphasis,
                                                                    text: Seq::empty(),
                                                                    col: 1,
                                                                    children,
                                                                },
                                                                p5,
                                                                c5,
                                                            ),
                                                        ),
                                                    }
                                                },
                                            }
                                        },
                                    }
                                }
                            },
                        }
                    },
                }
            }
        },
    }
}

/// Reading a code construct after its keyword.
pub open spec fn sp_sc_code(src: Seq<char>, pos: int, col: int) -> Option<(SyntaxNodeV, int, int)> {
    match sp_sc_trivia(src, pos, col) {
        None => None,
        Some((p0, c0)) => {
            if !(0 <= p0 < src.len() && src[p0] == '{') {
                None
            } else {
                match sp_sc_trivia(src, p0 + 1, sp_bump_col('{', c0)) {
                    None => None,
                    Some((p1, c1)) => {
                        match sp_sc_string(src, p1, c1) {
                            None => None,
                            Some((language, p2, c2)) => {
                                match sp_sc_sep(src, p2, c2) {
                                    None => None,
                                    Some((p3, c3)) => {
                                        match sp_sc_string(src, p3, c3) {
                                            None => None,
                                            Some((mode, p4, c4)) => {
                                                match sp_sc_sep(src, p4, c4) {
                                                    None => None,
                                                    Some((p5, c5)) => {
                                                        match sp_sc_text(src, p5, c5) {
                                                            None => None,
                                                            Some((text, p6, c6)) => {
                                                                let code_text = SyntaxNodeV {
                                                                    kind: NodeKind::CodeText,
                                                                    text: text.text,
                                                                    col: text.col,
                                                                    children: Seq::empty(),
                                                                };
                                                                match sp_sc_meta_body(
                                                                    src,
                                                                    p6,
                                                                    c6,
                                                                    seq![language, mode, code_text],
                                                                ) {
                                                                    None => None,
                                                                    Some((children, p7, c7)) => Some(
                                                                        (
                                                                            SyntaxNodeV {
                                                                                kind: NodeKind::Code,
                                                                                text: Seq::empty(),
                                                                                col: 1,
                                                                                children,
                                                                            },
                                                                            p7,
                                                                            c7,
                                                                        ),
                                                                    ),
                                                                }
                                                            },
                                                        }
                                                    },
                                                }
                                            },
                                        }
                                    },
                                }
                            },
                        }
                    },
                }
            }
        },
    }
}

} // verus!

verus! {

/// Reading the items of a link or heading after its first element: quoted
/// strings, emphases and metadata blocks.
pub open spec fn sp_sc_strem_body(src: Seq<char>, pos: int, col: int, children: Seq<SyntaxNodeV>) -> Option<
    (Seq<SyntaxNodeV>, int, int),
>
    decreases src.len() - pos,
{
    if pos < 0 || pos > src.len() {
        None
    } else {
        match sp_sc_sep(src, pos, col) {
            None => None,
            Some((p1, c1)) => {
                if p1 >= src.len() {
                    None
                } else if src[p1] == '}' {
                    Some((children, p1 + 1, sp_bump_col('}', c1)))
                } else if src[p1] == '"' {
                    match sp_sc_string(src, p1, c1) {
                        None => None,
                        Some((item, p2, c2)) => {
                            if p2 > pos && p2 <= src.len() {
                                sp_sc_strem_body(src, p2, c2, children.push(item))
                            } else {
                                None
                            }
                        },
                    }
                } else {
                    match sp_sc_word(src, p1, c1) {
                        None => None,
                        Some((w, p2, c2)) => {
                            let block = if w == "em"@ {
                                sp_sc_emphasis(src, p2, c2)
                            } else {
                                sp_sc_meta_block(src, p2, c2, w)
                            };
                            match block {
                                None => None,
                                Some((item, p3, c3)) => {
                                    if p3 > pos && p3 <= src.len() {
                                        sp_sc_strem_body(src, p3, c3, children.push(item))
                                    } else {
                                        None
                                    }
                                },
                            }
                        },
                    }
                }
            },
        }
    }
}

/// Reading a link construct after its keyword.
pub open spec fn sp_sc_link(src: Seq<char>, pos: int, col: int) -> Option<(SyntaxNodeV, int, int)> {
    match sp_sc_trivia(src, pos, col) {
        None => None,
        Some((p0, c0)) => {
            if !(0 <= p0 < src.len() && src[p0] == '{') {
                None
            } else {
                match sp_sc_trivia(src, p0 + 1, sp_bump_col('{', c0)) {
                    None => None,
                    Some((p1, c1)) => {
                        match sp_sc_string(src, p1, c1) {
                            None => None,
                            Some((url, p2, c2)) => {
                                match sp_sc_strem_body(src, p2, c2, seq![url]) {
                                    None => None,
                                    Some((children, p3, c3)) => Some(
                                        (
                                            SyntaxNodeV {
                                                kind: NodeKind::Link,
                                                text: Seq::empty(),
                                                col: 1,
                                                children,
                                            },
                                            p3,
                                            c3,
                                        ),
                                    ),
                                }
                            },
                        }
                    },
                }
            }
        },
    }
}

/// Reading a heading construct after its keyword.
pub open spec fn sp_sc_heading(src: Seq<char>, pos: int, col: int) -> Option<(SyntaxNodeV, int, int)> {
    match sp_sc_trivia(src, pos, col) {
        None => None,
        Some((p0, c0)) => {
            if !(0 <= p0 < src.len() && src[p0] == '{') {
                None
            } else {
                match sp_sc_trivia(src, p0 + 1, sp_bump_col('{', c0)) {
                    None => None,
                    Some((p1, c1)) => {
                        match sp_sc_int(src, p1, c1) {
                            None => None,
                            Some((level, p2, c2)) => {
                                if !wf_uint_lit(level.text) {
                                    None
                                } else {
                                    match sp_sc_strem_body(src, p2, c2, seq![level]) {
                                        None => None,
                                        Some((children, p3, c3)) => Some(
                                            (
                                                SyntaxNodeV {
                                                    kind: NodeKind::Heading,
                                                    text: Seq::empty(),
                                                    col: 1,
                                                    children,
                                                },
                                                p3,
                                                c3,
                                            ),
                                        ),
                                    }
                                }
                            },
                        }
                    },
                }
            }
        },
    }
}

/// Reading the metadata group of a text item after its opening brace: at
/// most two metadata blocks.
pub open spec fn sp_sc_text_meta_body(
    src: Seq<char>,
    pos: int,
    col: int,
    children: Seq<SyntaxNodeV>,
) -> Option<(Seq<SyntaxNodeV>, int, int)>
    decreases src.len() - pos,
{
    if pos < 0 || pos > src.len() {
        None
    } else {
        match sp_sc_sep(src, pos, col) {
            None => None,
            Some((p1, c1)) => {
                if p1 >= src.len() {
                    None
                } else if src[p1] == '}' {
                    Some((children, p1 + 1, sp_bump_col('}', c1)))
                } else if children.len() >= 3 {
                    None
                } else {
                    match sp_sc_word(src, p1, c1) {
                        None => None,
                        Some((w, p2, c2)) => {
                            match sp_sc_meta_block(src, p2, c2, w) {
                                None => None,
                                Some((block, p3, c3)) => {
                                    if p3 > pos && p3 <= src.len() {
                                        sp_sc_text_meta_body(src, p3, c3, children.push(block))
                                    } else {
                                        None
                                    }
                                },
                            }
                        },
                    }
                }
            },
        }
    }
}

/// Reading a text item: a text literal, then optionally a braced group of
/// metadata blocks.
pub open spec fn sp_sc_text_item(src: Seq<char>, pos: int, col: int) -> Option<(SyntaxNodeV, int, int)> {
    match sp_sc_text(src, pos, col) {
        None => None,
        Some((text, p1, c1)) => {
            match sp_sc_trivia(src, p1, c1) {
                None => None,
                Some((p2, c2)) => {
                    if p2 < src.len() && src[p2] == '{' {
                        match sp_sc_text_meta_body(src, p2 + 1, sp_bump_col('{', c2), seq![text]) {
                            None => None,
                            Some((children, p3, c3)) => Some(
                                (
                                    SyntaxNodeV {
                                        kind: NodeKind::TextItem,
                                        text: Seq::empty(),
                                        col: 1,
                                        children,
                                    },
                                    p3,
                                    c3,
                                ),
                            ),
                        }
                    } else {
                        Some(
                            (
                                SyntaxNodeV {
                                    kind: NodeKind::TextItem,
                                    text: Seq::empty(),
                                    col: 1,
                                    children: seq![text],
                                },
                                p2,
                                c2,
                            ),
                        )
                    }
                },
            }
        },
    }
}

} // verus!

verus! {

/// Reading the contents of a paragraph after its opening brace.
pub open spec fn sp_sc_par_body(src: Seq<char>, pos: int, col: int, children: Seq<SyntaxNodeV>) -> Option<
    (Seq<SyntaxNodeV>, int, int),
>
    decreases src.len() - pos, 0int,
{
    if pos < 0 || pos > src.len() {
        None
    } else {
        match sp_sc_sep(src, pos, col) {
            None => None,
            Some((p1, c1)) => {
                if p1 >= src.len() {
                    None
                } else if src[p1] == '}' {
                    Some((children, p1 + 1, sp_bump_col('}', c1)))
                } else if src[p1] == '\'' {
                    match sp_sc_text_item(src, p1, c1) {
                        None => None,
                        Some((item, p2, c2)) => {
                            if p2 > pos && p2 <= src.len() {
                                sp_sc_par_body(src, p2, c2, children.push(item))
                            } else {
                                None
                            }
                        },
                    }
                } else {
                    match sp_sc_word(src, p1, c1) {
                        None => None,
                        Some((w, p2, c2)) => {
                            if !(p2 > pos && p2 <= src.len()) {
                                None
                            } else {
                                let block = if w == "em"@ {
                                    sp_sc_emphasis(src, p2, c2)
                                } else if w == "code"@ {
                                    sp_sc_code(src, p2, c2)
                                } else if w == "list"@ {
                                    sp_sc_list(src, p2, c2)
                                } else if w == "link"@ {
                                    sp_sc_link(src, p2, c2)
                                } else if w == "table"@ {
                                    sp_sc_table(src, p2, c2)
                                } else {
                                    sp_sc_meta_block(src, p2, c2, w)
                                };
                                match block {
                                    None => None,
                                    Some((item, p3, c3)) => {
                                        if p3 > pos && p3 <= src.len() {
                                            sp_sc_par_body(src, p3, c3, children.push(item))
                                        } else {
                                            None
                                        }
                                    },
                                }
                            }
                        },
                    }
                }
            },
        }
    }
}

/// Reading a paragraph construct after its keyword.
pub open spec fn sp_sc_paragraph(src: Seq<char>, pos: int, col: int) -> Option<(SyntaxNodeV, int, int)>
    decreases src.len() - pos, 1int,
{
    if pos < 0 || pos > src.len() {
        None
    } else {
        match sp_sc_trivia(src, pos, col) {
            None => None,
            Some((p0, c0)) => {
                if !(p0 < src.len() && src[p0] == '{' && p0 >= pos) {
                    None
                } else {
                    match sp_sc_par_body(src, p0 + 1, sp_bump_col('{', c0), Seq::empty()) {
                        None => None,
                        Some((children, p1, c1)) => Some(
                            (
                                SyntaxNodeV {
                                    kind: NodeKind::Paragraph,
                                    text: Seq::empty(),
                                    col: 1,
                                    children,
                                },
                                p1,
                                c1,
                            ),
                        ),
                    }
                }
            },
        }
    }
}

/// Reading the contents of a list after its kind keyword.
pub open spec fn sp_sc_list_body(src: Seq<char>, pos: int, col: int, children: Seq<SyntaxNodeV>) -> Option<
    (Seq<SyntaxNodeV>, int, int),
>
    decreases src.len() - pos, 0int,
{
    if pos < 0 || pos > src.len() {
        None
    } else {
        match sp_sc_sep(src, pos, col) {
            None => None,
            Some((p1, c1)) => {
                if p1 >= src.len() {
                    None
                } else if src[p1] == '}' {
                    Some((children, p1 + 1, sp_bump_col('}', c1)))
                } else {
                    match sp_sc_word(src, p1, c1) {
                        None => None,
                        Some((w, p2, c2)) => {
                            if !(p2 > pos && p2 <= src.len()) {
                                None
                            } else {
                                let block = if w == "par"@ {
                                    sp_sc_paragraph(src, p2, c2)
                                } else {
                                    sp_sc_meta_block(src, p2, c2, w)
                                };
                                match block {
                                    None => None,
                                    Some((item, p3, c3)) => {
                                        if p3 > pos && p3 <= src.len() {
                                            sp_sc_list_body(src, p3, c3, children.push(item))
                                        } else {
                                            None
                                        }
                                    },
                                }
                            }
                        },
                    }
                }
            },
        }
    }
}

/// Reading a list construct after its keyword.
pub open spec fn sp_sc_list(src: Seq<char>, pos: int, col: int) -> Option<(SyntaxNodeV, int, int)>
    decreases src.len() - pos, 1int,
{
    if pos < 0 || pos > src.len() {
        None
    } else {
        match sp_sc_trivia(src, pos, col) {
            None => None,
            Some((p0, c0)) => {
                if !(p0 < src.len() && src[p0] == '{' && p0 >= pos) {
                    None
                } else {
                    match sp_sc_trivia(src, p0 + 1, sp_bump_col('{', c0)) {
                        None => None,
                        Some((p1, c1)) => {
                            match sp_sc_word(src, p1, c1) {
                                None => None,
                                Some((key, p2, c2)) => {
                                    if !is_list_key(key) {
                                        None
                                    } else if !(p2 > pos && p2 <= src.len()) {
                                        None
                                    } else {
                                        let key_node = SyntaxNodeV {
                                            kind: NodeKind::Word,
                                            text: key,
                                            col: 1,
                                            children: Seq::empty(),
                                        };
                                        match sp_sc_list_body(src, p2, c2, seq![key_node]) {
                                            None => None,
                                            Some((children, p3, c3)) => Some(
                                                (
                                                    SyntaxNodeV {
                                                        kind: NodeKind::List,
                                                        text: Seq::empty(),
                                                        col: 1,
                                                        children,
                                                    },
                                                    p3,
                                                    c3,
                                                ),
                                            ),
                                        }
                                    }
                                },
                            }
                        },
                    }
                }
            },
        }
    }
}

/// Reading the contents of one table row after its opening brace.
pub open spec fn sp_sc_row_body(src: Seq<char>, pos: int, col: int, children: Seq<SyntaxNodeV>) -> Option<
    (Seq<SyntaxNodeV>, int, int),
>
    decreases src.len() - pos, 0int,
{
    if pos < 0 || pos > src.len() {
        None
    } else {
        match sp_sc_sep(src, pos, col) {
            None => None,
            Some((p1, c1)) => {
                if p1 >= src.len() {
                    None
                } else if src[p1] == '}' {
                    Some((children, p1 + 1, sp_bump_col('}', c1)))
                } else {
                    match sp_sc_word(src, p1, c1) {
                        None => None,
                        Some((w, p2, c2)) => {
                            if !(p2 > pos && p2 <= src.len()) {
                                None
                            } else {
                                let block = if w == "par"@ {
                                    sp_sc_paragraph(src, p2, c2)
                                } else {
                                    sp_sc_meta_block(src, p2, c2, w)
                                };
                                match block {
                                    None => None,
                                    Some((item, p3, c3)) => {
                                        if p3 > pos && p3 <= src.len() {
                                            sp_sc_row_body(src, p3, c3, children.push(item))
                                        } else {
                                            None
                                        }
                                    },
                                }
                            }
                        },
                    }
                }
            },
        }
    }
}

/// Reading one table row after its keyword.
pub open spec fn sp_sc_row(src: Seq<char>, pos: int, col: int, header: bool) -> Option<
    (SyntaxNodeV, int, int),
>
    decreases src.len() - pos, 1int,
{
    if pos < 0 || pos > src.len() {
        None
    } else {
        match sp_sc_trivia(src, pos, col) {
            None => None,
            Some((p0, c0)) => {
                if !(p0 < src.len() && src[p0] == '{' && p0 >= pos) {
                    None
                } else {
                    match sp_sc_row_body(src, p0 + 1, sp_bump_col('{', c0), Seq::empty()) {
                        None => None,
                        Some((children, p1, c1)) => Some(
                            (
                                SyntaxNodeV {
                                    kind: if header {
                                        NodeKind::HeadRow
                                    } else {
                                        NodeKind::Row
                                    },
                                    text: Seq::empty(),
                                    col: 1,
                                    children,
                                },
                                p1,
                                c1,
                            ),
                        ),
                    }
                }
            },
        }
    }
}

/// Reading the contents of a table after its opening brace.
pub open spec fn sp_sc_table_body(src: Seq<char>, pos: int, col: int, children: Seq<SyntaxNodeV>) -> Option<
    (Seq<SyntaxNodeV>, int, int),
>
    decreases src.len() - pos, 2int,
{
    if pos < 0 || pos > src.len() {
        None
    } else {
        match sp_sc_sep(src, pos, col) {
            None => None,
            Some((p1, c1)) => {
                if p1 >= src.len() {
                    None
                } else if src[p1] == '}' {
                    Some((children, p1 + 1, sp_bump_col('}', c1)))
                } else {
                    match sp_sc_word(src, p1, c1) {
                        None => None,
                        Some((w, p2, c2)) => {
                            if !(p2 > pos && p2 <= src.len()) {
                                None
                            } else {
                                let block = if w == "hrow"@ {
                                    sp_sc_row(src, p2, c2, true)
                                } else if w == "row"@ {
                                    sp_sc_row(src, p2, c2, false)
                                } else {
                                    sp_sc_meta_block(src, p2, c2, w)
                                };
                                match block {
                                    None => None,
                                    Some((item, p3, c3)) => {
                                        if p3 > pos && p3 <= src.len() {
                                            sp_sc_table_body(src, p3, c3, children.push(item))
                                        } else {
                                            None
                                        }
                                    },
                                }
                            }
                        },
                    }
                }
            },
        }
    }
}

/// Reading a table construct after its keyword.
pub open spec fn sp_sc_table(src: Seq<char>, pos: int, col: int) -> Option<(SyntaxNodeV, int, int)>
    decreases src.len() - pos, 3int,
{
    if pos < 0 || pos > src.len() {
        None
    } else {
        match sp_sc_trivia(src, pos, col) {
            None => None,
            Some((p0, c0)) => {
                if !(p0 < src.len() && src[p0] == '{' && p0 >= pos) {
                    None
                } else {
                    match sp_sc_table_body(src, p0 + 1, sp_bump_col('{', c0), Seq::empty()) {
                        None => None,
                        Some((children, p1, c1)) => Some(
                            (
                                SyntaxNodeV {
                                    kind: NodeKind::Table,
                                    text: Seq::empty(),
                                    col: 1,
                                    children,
                                },
                                p1,
                                c1,
                            ),
                        ),
                    }
                }
            },
        }
    }
}

/// Reading the contents of a navigation node after its first element.
pub open spec fn sp_sc_nav_body(src: Seq<char>, pos: int, col: int, children: Seq<SyntaxNodeV>) -> Option<
    (Seq<SyntaxNodeV>, int, int),
>
    decreases src.len() - pos, 0int,
{
    if pos < 0 || pos > src.len() {
        None
    } else {
        match sp_sc_sep(src, pos, col) {
            None => None,
            Some((p1, c1)) => {
                if p1 >= src.len() {
                    None
                } else if src[p1] == '}' {
                    Some((children, p1 + 1, sp_bump_col('}', c1)))
                } else {
                    match sp_sc_word(src, p1, c1) {
                        None => None,
                        Some((w, p2, c2)) => {
                            if !(p2 > pos && p2 <= src.len()) {
                                None
                            } else {
                                let block = if w == "snav"@ {
                                    sp_sc_snav(src, p2, c2)
                                } else if w == "link"@ {
                                    sp_sc_link(src, p2, c2)
                                } else {
                                    sp_sc_meta_block(src, p2, c2, w)
                                };
                                match block {
                                    None => None,
                                    Some((item, p3, c3)) => {
                                        if p3 > pos && p3 <= src.len() {
                                            sp_sc_nav_body(src, p3, c3, children.push(item))
                                        } else {
                                            None
                                        }
                                    },
                                }
                            }
                        },
                    }
                }
            },
        }
    }
}

/// Reading a sub-navigation construct after its keyword.
pub open spec fn sp_sc_snav(src: Seq<char>, pos: int, col: int) -> Option<(SyntaxNodeV, int, int)>
    decreases src.len() - pos, 1int,
{
    if pos < 0 || pos > src.len() {
        None
    } else {
        match sp_sc_trivia(src, pos, col) {
            None => None,
            Some((p0, c0)) => {
                if !(p0 < src.len() && src[p0] == '{' && p0 >= pos) {
                    None
                } else {
                    match sp_sc_trivia(src, p0 + 1, sp_bump_col('{', c0)) {
                        None => None,
                        Some((p1, c1)) => {
                            match sp_sc_string(src, p1, c1) {
                                None => None,
                                Some((description, p2, c2)) => {
                                    if !(p2 > pos && p2 <= src.len()) {
                                        None
                                    } else {
                                        match sp_sc_nav_body(src, p2, c2, seq![description]) {
                                            None => None,
                                            Some((children, p3, c3)) => Some(
                                                (
                                                    SyntaxNodeV {
                                                        kind: NodeKind::Snav,
                                                        text: Seq::empty(),
                                                        col: 1,
                                                        children,
                                                    },
                                                    p3,
                                                    c3,
                                                ),
                                            ),
                                        }
                                    }
                                },
                            }
                        },
                    }
                }
            },
        }
    }
}

/// Reading a top-level navigation construct after its keyword.
pub open spec fn sp_sc_nav(src: Seq<char>, pos: int, col: int) -> Option<(SyntaxNodeV, int, int)>
    decreases src.len() - pos, 1int,
{
    if pos < 0 || pos > src.len() {
        None
    } else {
        match sp_sc_trivia(src, pos, col) {
            None => None,
            Some((p0, c0)) => {
                if !(p0 < src.len() && src[p0] == '{' && p0 >= pos) {
                    None
                } else {
                    match sp_sc_nav_body(src, p0 + 1, sp_bump_col('{', c0), Seq::empty()) {
                        None => None,
                        Some((children, p1, c1)) => Some(
                            (
                                SyntaxNodeV {
                                    kind: NodeKind::Nav,
                                    text: Seq::empty(),
                                    col: 1,
                                    children,
                                },
                                p1,
                                c1,
                            ),
                        ),
                    }
                }
            },
        }
    }
}

/// Reading the contents of a section after its heading.
pub open spec fn sp_sc_section_body(src: Seq<char>, pos: int, col: int, children: Seq<SyntaxNodeV>) -> Option<
    (Seq<SyntaxNodeV>, int, int),
>
    decreases src.len() - pos, 2int,
{
    if pos < 0 || pos > src.len() {
        None
    } else {
        match sp_sc_sep(src, pos, col) {
            None => None,
            Some((p1, c1)) => {
                if p1 >= src.len() {
                    None
                } else if src[p1] == '}' {
                    Some((children, p1 + 1, sp_bump_col('}', c1)))
                } else {
                    match sp_sc_word(src, p1, c1) {
                        None => None,
                        Some((w, p2, c2)) => {
                            if !(p2 > pos && p2 <= src.len()) {
                                None
                            } else {
                                let block = if w == "par"@ {
                                    sp_sc_paragraph(src, p2, c2)
                                } else if w == "section"@ {
                                    sp_sc_section(src, p2, c2)
                                } else {
                                    sp_sc_meta_block(src, p2, c2, w)
                                };
                                match block {
                                    None => None,
                                    Some((item, p3, c3)) => {
                                        if p3 > pos && p3 <= src.len() {
                                            sp_sc_section_body(src, p3, c3, children.push(item))
                                        } else {
                                            None
                                        }
                                    },
                                }
                            }
                        },
                    }
                }
            },
        }
    }
}

/// Reading a section construct after its keyword: its heading first.
pub open spec fn sp_sc_section(src: Seq<char>, pos: int, col: int) -> Option<(SyntaxNodeV, int, int)>
    decreases src.len() - pos, 3int,
{
    if pos < 0 || pos > src.len() {
        None
    } else {
        match sp_sc_trivia(src, pos, col) {
            None => None,
            Some((p0, c0)) => {
                if !(p0 < src.len() && src[p0] == '{' && p0 >= pos) {
                    None
                } else {
                    match sp_sc_trivia(src, p0 + 1, sp_bump_col('{', c0)) {
                        None => None,
                        Some((p1, c1)) => {
                            match sp_sc_word(src, p1, c1) {
                                None => None,
                                Some((w, p2, c2)) => {
                                    if w != "head"@ {
                                        None
                                    } else {
                                        match sp_sc_heading(src, p2, c2) {
                                            None => None,
                                            Some((heading, p3, c3)) => {
                                                if !(p3 > pos && p3 <= src.len()) {
                                                    None
                                                } else {
                                                    match sp_sc_section_body(
                                                        src,
                                                        p3,
                                                        c3,
                                                        seq![heading],
                                                    ) {
                                                        None => None,
                                                        Some((children, p4, c4)) => Some(
                                                            (
                                                                SyntaxNodeV {
                                                                    kind: NodeKind::Section,
                                                                    text: Seq::empty(),
                                                                    col: 1,
                                                                    children,
                                                                },
                                                                p4,
                                                                c4,
                                                            ),
                                                        ),
                                                    }
                                                }
                                            },
                                        }
                                    }
                                },
                            }
                        },
                    }
                }
            },
        }
    }
}

/// Reading one top-level construct: a text item or a keyword-named block.
pub open spec fn sp_sc_top_item(src: Seq<char>, pos: int, col: int) -> Option<
    (SyntaxNodeV, int, int),
>
    decreases src.len() - pos, 4int,
{
    if pos < 0 || pos >= src.len() {
        None
    } else if src[pos] == '\'' {
        sp_sc_text_item(src, pos, col)
    } else {
        match sp_sc_word(src, pos, col) {
            None => None,
            Some((w, p2, c2)) => {
                if !(p2 > pos && p2 <= src.len()) {
                    None
                } else {
                    if w == "par"@ {
                        sp_sc_paragraph(src, p2, c2)
                    } else if w == "section"@ {
                        sp_sc_section(src, p2, c2)
                    } else if w == "nav"@ {
                        sp_sc_nav(src, p2, c2)
                    } else if w == "em"@ {
                        sp_sc_emphasis(src, p2, c2)
                    } else if w == "code"@ {
                        sp_sc_code(src, p2, c2)
                    } else if w == "link"@ {
                        sp_sc_link(src, p2, c2)
                    } else if w == "list"@ {
                        sp_sc_list(src, p2, c2)
                    } else if w == "table"@ {
                        sp_sc_table(src, p2, c2)
                    } else {
                        sp_sc_meta_block(src, p2, c2, w)
                    }
                }
            },
        }
    }
}

/// Reading the whole source: top-level constructs up to the end of input.
pub open spec fn sp_sc_top_body(src: Seq<char>, pos: int, col: int, children: Seq<SyntaxNodeV>) -> Option<
    (Seq<SyntaxNodeV>, int, int),
>
    decreases src.len() - pos, 5int,
{
    if pos < 0 || pos > src.len() {
        None
    } else {
        match sp_sc_sep(src, pos, col) {
            None => None,
            Some((p1, c1)) => {
                if p1 >= src.len() {
                    Some((children, p1, c1))
                } else {
                    match sp_sc_top_item(src, p1, c1) {
                        None => None,
                        Some((item, p2, c2)) => {
                            if p2 > pos && p2 <= src.len() {
                                sp_sc_top_body(src, p2, c2, children.push(item))
                            } else {
                                None
                            }
                        },
                    }
                }
            },
        }
    }
}

/// What scanning whole source text yields: the root syntax node when the
/// text follows the grammar, and nothing when it does not.
pub open spec fn sp_scan(input: Seq<char>) -> Option<SyntaxNodeV> {
    match sp_sc_top_body(input, 0, 1, Seq::empty()) {
        None => None,
        Some((children, _, _)) => Some(
            SyntaxNodeV { kind: NodeKind::Top, text: Seq::empty(), col: 1, children },
        ),
    }
}

} // verus!
