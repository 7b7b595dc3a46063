//! Serialization of the document model back to source text. Reparsing the
//! output of `doc_out` and pruning errors yields the document one started
//! from, up to the normalizations the model applies.

use vstd::prelude::*;
use vstd::string::StringExecFns;
use vstd::string::StrSliceExecFns;
use crate::{
    view_doc, view_doc_item, view_emphasis, view_heading, view_heading_item, view_link,
    view_link_item, view_list, view_mtext, view_nav, view_par_item, view_paragraph, view_section,
    view_section_item, view_table, view_table_row, CodeBlock, CodeBlockV, CodeModeHint, Date, Doc,
    DocItem, DocItemV, EmStrength, EmType, Emphasis, EmphasisV, Heading, HeadingItem, HeadingItemV,
    HeadingV, Link, LinkItem, LinkItemV, LinkV, List, ListType, ListV, Nav, NavV, Paragraph,
    ParagraphItem, ParagraphItemV, ParagraphV, Prop, PropVal, PropValV, Props, PropsV, Section,
    DocV, SectionItem, SectionItemV, SectionV, Table, TableRow, TableRowV, TableV, Tags, TagsV,
    TextWithMeta, TextWithMetaV,
};

verus! {

// ---------------------------------------------------------------------------
// Decimal rendering
// ---------------------------------------------------------------------------

/// The character for one decimal digit.
pub open spec fn sp_digit_char(d: nat) -> char {
    if d == 0 {
        '0'
    } else if d == 1 {
        '1'
    } else if d == 2 {
        '2'
    } else if d == 3 {
        '3'
    } else if d == 4 {
        '4'
    } else if d == 5 {
        '5'
    } else if d == 6 {
        '6'
    } else if d == 7 {
        '7'
    } else if d == 8 {
        '8'
    } else {
        '9'
    }
}

/// The decimal digits of a natural number, most significant first.
pub open spec fn sp_dec(n: nat) -> Seq<char>
    decreases n,
{
    if n < 10 {
        seq![sp_digit_char(n)]
    } else {
        sp_dec(n / 10).push(sp_digit_char(n % 10))
    }
}

/// The decimal rendering of an integer, with a minus sign when negative.
pub open spec fn sp_int_dec(x: int) -> Seq<char> {
    if x < 0 {
        seq!['-'] + sp_dec((-x) as nat)
    } else {
        sp_dec(x as nat)
    }
}

/// The two-digit rendering of a small number, zero-padded to the left.
pub open spec fn sp_two_digits(n: nat) -> Seq<char> {
    if n < 10 {
        seq!['0'] + sp_dec(n)
    } else {
        sp_dec(n)
    }
}

/// The character for one decimal digit.
fn digit_char(d: u64) -> (c: char)
    requires
        d < 10,
    ensures
        c == sp_digit_char(d as nat),
{
    match d {
        0 => '0',
        1 => '1',
        2 => '2',
        3 => '3',
        4 => '4',
        5 => '5',
        6 => '6',
        7 => '7',
        8 => '8',
        _ => '9',
    }
}

/// Appends the decimal digits of a natural number.
fn dec_out(n: u64, output: &mut String)
    ensures
        final(output)@ == old(output)@ + sp_dec(n as nat),
    decreases n,
{
    if n < 10 {
        crate::push_char(output, digit_char(n));
        proof {
            assert(old(output)@ + sp_dec(n as nat) =~= old(output)@.push(
                sp_digit_char(n as nat),
            ));
        }
    } else {
        dec_out(n / 10, output);
        crate::push_char(output, digit_char(n % 10));
        proof {
            assert(old(output)@ + sp_dec(n as nat) =~= (old(output)@ + sp_dec(
                n as nat / 10,
            )).push(sp_digit_char(n as nat % 10)));
        }
    }
}

/// Appends the decimal rendering of an integer.
pub fn int_out(x: i64, output: &mut String)
    ensures
        final(output)@ == old(output)@ + sp_int_dec(x as int),
{
    if x < 0 {
        output.append("-");
        let mag: u64 = if x == i64::MIN {
            9223372036854775808u64
        } else {
            (-x) as u64
        };
        proof {
            assert(mag as nat == (-(x as int)) as nat);
        }
        dec_out(mag, output);
        proof {
            reveal_strlit("-");
            assert(old(output)@ + sp_int_dec(x as int) =~= (old(output)@ + "-"@) + sp_dec(
                mag as nat,
            ));
        }
    } else {
        dec_out(x as u64, output);
    }
}

/// Appends the two-digit rendering of a small number.
fn two_digits_out(n: u64, output: &mut String)
    ensures
        final(output)@ == old(output)@ + sp_two_digits(n as nat),
{
    if n < 10 {
        output.append("0");
        dec_out(n, output);
        proof {
            reveal_strlit("0");
            assert("0"@ =~= seq!['0']);
            assert(old(output)@ + sp_two_digits(n as nat) =~= (old(output)@ + "0"@) + sp_dec(
                n as nat,
            ));
        }
    } else {
        dec_out(n, output);
    }
}

// ---------------------------------------------------------------------------
// Serialization: the mathematical rendering
// ---------------------------------------------------------------------------

/// A run of spaces.
pub open spec fn sp_spaces(n: nat) -> Seq<char> {
    Seq::new(n, |i: int| ' ')
}

/// The next indentation step, four columns deeper.
pub open spec fn sp_ind(n: nat) -> nat {
    if n + 4 <= usize::MAX {
        n + 4
    } else {
        n
    }
}

/// A string in double quotes.
pub open spec fn sp_quoted(s: Seq<char>) -> Seq<char> {
    seq!['"'] + s + seq!['"']
}

/// A text block in single quotes.
pub open spec fn sp_ticked(s: Seq<char>) -> Seq<char> {
    seq!['\''] + s + seq!['\'']
}

/// The rendering of a date: year, month and day separated by slashes, the
/// month and day zero-padded to two digits.
pub open spec fn sp_date_out(d: Date) -> Seq<char> {
    sp_int_dec(d.year as int) + seq!['/'] + sp_two_digits(d.month as nat) + seq!['/']
        + sp_two_digits(d.day as nat)
}

/// The rendering of verbatim code text: each line re-indented to the given
/// column, the whole wrapped in single quotes on lines of their own.
pub open spec fn sp_code_chars(code: Seq<char>, spaces: nat) -> Seq<char>
    decreases code.len(),
{
    if code.len() == 0 {
        Seq::empty()
    } else {
        let rest = sp_code_chars(code.drop_first(), spaces);
        if code[0] == '\n' {
            seq!['\n'] + sp_spaces(spaces) + rest
        } else {
            seq![code[0]] + rest
        }
    }
}

/// The rendering of a code text block.
pub open spec fn sp_code_text_out(code: Seq<char>, spaces: nat) -> Seq<char> {
    sp_spaces(spaces) + "'\n"@ + sp_spaces(spaces) + sp_code_chars(code, spaces) + seq!['\n']
        + sp_spaces(spaces) + "',\n"@
}

/// The rendering of the labels inside a tags block.
pub open spec fn sp_tags_entries(t: TagsV, spaces: nat) -> Seq<char>
    decreases t.len(),
{
    if t.len() == 0 {
        Seq::empty()
    } else {
        sp_tags_entries(t.drop_last(), spaces) + sp_spaces(spaces) + sp_quoted(t[t.len() - 1])
            + ",\n"@
    }
}

/// The rendering of a tags block: nothing at all when no labels are held.
pub open spec fn sp_tags_out(t: TagsV, spaces: nat) -> Seq<char> {
    if t.len() == 0 {
        Seq::empty()
    } else {
        sp_spaces(spaces) + "tags {\n"@ + sp_tags_entries(t, sp_ind(spaces)) + sp_spaces(spaces)
            + "},\n"@
    }
}

/// The rendering of one property value.
pub open spec fn sp_prop_val_out(v: PropValV) -> Seq<char> {
    match v {
        PropValV::String(s) => sp_quoted(s),
        PropValV::Text(s) => sp_ticked(s),
        PropValV::Int(x) => sp_int_dec(x as int),
        PropValV::Date(d) => sp_date_out(d),
        PropValV::Error(_) => Seq::empty(),
    }
}

/// The rendering of one property entry; an error entry renders as nothing.
pub open spec fn sp_kv_out(k: Seq<char>, v: PropValV, spaces: nat) -> Seq<char> {
    if v is Error {
        Seq::empty()
    } else {
        sp_spaces(spaces) + seq!['('] + sp_quoted(k) + ", "@ + sp_prop_val_out(v) + ")"@ + ",\n"@
    }
}

/// The rendering of the entries inside a props block.
pub open spec fn sp_props_entries(ps: PropsV, spaces: nat) -> Seq<char>
    decreases ps.len(),
{
    if ps.len() == 0 {
        Seq::empty()
    } else {
        sp_props_entries(ps.drop_last(), spaces) + sp_kv_out(
            ps[ps.len() - 1].0,
            ps[ps.len() - 1].1,
            spaces,
        )
    }
}

/// The rendering of a props block: nothing at all when no entries are held.
pub open spec fn sp_props_out(ps: PropsV, spaces: nat) -> Seq<char> {
    if ps.len() == 0 {
        Seq::empty()
    } else {
        sp_spaces(spaces) + "props {\n"@ + sp_props_entries(ps, sp_ind(spaces)) + sp_spaces(spaces)
            + "},\n"@
    }
}

/// The rendering of an emphasis strength and type as its two-letter key.
pub open spec fn sp_em_key(strength: EmStrength, etype: EmType) -> Seq<char> {
    (match strength {
        EmStrength::Light => "l"@,
        EmStrength::Medium => "m"@,
        EmStrength::Strong => "s"@,
    }) + (match etype {
        EmType::Emphasis => "e"@,
        EmType::Deemphasis => "d"@,
    })
}

/// The rendering of an emphasis construct.
pub open spec fn sp_emphasis_out(e: EmphasisV, spaces: nat) -> Seq<char> {
    sp_spaces(spaces) + "em {\n"@ + sp_spaces(sp_ind(spaces)) + sp_em_key(e.strength, e.etype)
        + ",\n"@ + sp_spaces(sp_ind(spaces)) + sp_quoted(e.text) + ",\n"@ + sp_tags_out(
        e.tags,
        sp_ind(spaces),
    ) + sp_props_out(e.props, sp_ind(spaces)) + sp_spaces(spaces) + "},\n"@
}

/// The rendering of a text-with-metadata item.
pub open spec fn sp_mtext_out(t: TextWithMetaV, spaces: nat) -> Seq<char> {
    sp_spaces(spaces) + sp_ticked(t.text) + " {\n"@ + sp_tags_out(t.tags, sp_ind(spaces))
        + sp_props_out(t.props, sp_ind(spaces)) + sp_spaces(spaces) + "},\n"@
}

/// The rendering of a code block's behavioural mode key.
pub open spec fn sp_code_mode_key(m: CodeModeHint) -> Seq<char> {
    match m {
        CodeModeHint::Show => "show"@,
        CodeModeHint::Runnable => "runnable"@,
        CodeModeHint::Run => "run"@,
        CodeModeHint::Replace => "replace"@,
    }
}

/// The rendering of a code block construct.
pub open spec fn sp_code_out(c: CodeBlockV, spaces: nat) -> Seq<char> {
    sp_spaces(spaces) + "code {\n"@ + sp_spaces(sp_ind(spaces)) + sp_quoted(c.language) + ",\n"@
        + sp_spaces(sp_ind(spaces)) + sp_quoted(sp_code_mode_key(c.mode)) + ",\n"@
        + sp_code_text_out(c.code, sp_ind(spaces)) + sp_tags_out(c.tags, sp_ind(spaces))
        + sp_props_out(c.props, sp_ind(spaces)) + sp_spaces(spaces) + "},\n"@
}

/// The rendering of the items of a link.
pub open spec fn sp_link_items_out(items: Seq<LinkItemV>, spaces: nat) -> Seq<char>
    decreases items.len(),
{
    if items.len() == 0 {
        Seq::empty()
    } else {
        sp_link_items_out(items.drop_last(), spaces) + (match items[items.len() - 1] {
            LinkItemV::String(s) => sp_spaces(spaces) + sp_quoted(s) + ",\n"@,
            LinkItemV::Em(e) => sp_emphasis_out(e, spaces),
        })
    }
}

/// The rendering of a link construct.
pub open spec fn sp_link_out(l: LinkV, spaces: nat) -> Seq<char> {
    sp_spaces(spaces) + "link {\n"@ + sp_spaces(sp_ind(spaces)) + sp_quoted(l.url) + ",\n"@
        + sp_link_items_out(l.items, sp_ind(spaces)) + sp_tags_out(l.tags, sp_ind(spaces))
        + sp_props_out(l.props, sp_ind(spaces)) + sp_spaces(spaces) + "},\n"@
}

/// The rendering of the items of a heading.
pub open spec fn sp_heading_items_out(items: Seq<HeadingItemV>, spaces: nat) -> Seq<char>
    decreases items.len(),
{
    if items.len() == 0 {
        Seq::empty()
    } else {
        sp_heading_items_out(items.drop_last(), spaces) + (match items[items.len() - 1] {
            HeadingItemV::String(s) => sp_spaces(spaces) + sp_quoted(s) + ",\n"@,
            HeadingItemV::Em(e) => sp_emphasis_out(e, spaces),
        })
    }
}

/// The rendering of a heading construct, with its level written relative to
/// the enclosing level.
pub open spec fn sp_heading_out(h: HeadingV, spaces: nat, plevel: nat) -> Seq<char> {
    sp_spaces(spaces) + "head {\n"@ + sp_spaces(sp_ind(spaces)) + sp_int_dec(
        if h.level >= plevel {
            h.level - plevel
        } else {
            0
        },
    ) + ",\n"@ + sp_heading_items_out(h.items, sp_ind(spaces)) + sp_tags_out(
        h.tags,
        sp_ind(spaces),
    ) + sp_props_out(h.props, sp_ind(spaces)) + sp_spaces(spaces) + "},\n"@
}

} // verus!

verus! {

/// The rendering of a plain text item on a line of its own.
pub open spec fn sp_text_item_out(text: Seq<char>, spaces: nat) -> Seq<char> {
    sp_spaces(spaces) + sp_ticked(text) + ",\n"@
}

/// The rendering of one paragraph item; a failed code block renders as
/// nothing.
pub open spec fn sp_par_item_out(item: ParagraphItemV, spaces: nat) -> Seq<char>
    decreases item, 0int,
{
    match item {
        ParagraphItemV::Text(t) => sp_text_item_out(t, spaces),
        ParagraphItemV::MText(m) => sp_mtext_out(m, spaces),
        ParagraphItemV::Em(e) => sp_emphasis_out(e, spaces),
        ParagraphItemV::Code(Ok(c)) => sp_code_out(c, spaces),
        ParagraphItemV::Code(Err(_)) => Seq::empty(),
        ParagraphItemV::Link(l) => sp_link_out(l, spaces),
        ParagraphItemV::List(l) => sp_list_out(l, spaces),
        ParagraphItemV::Table(t) => sp_table_out(t, spaces),
    }
}

/// The rendering of a paragraph item sequence.
pub open spec fn sp_par_items_out(items: Seq<ParagraphItemV>, spaces: nat) -> Seq<char>
    decreases items, 1int,
{
    if items.len() == 0 {
        Seq::empty()
    } else {
        sp_par_items_out(items.drop_last(), spaces) + sp_par_item_out(
            items[items.len() - 1],
            spaces,
        )
    }
}

/// The rendering of a list kind as its two-letter key.
pub open spec fn sp_list_type_key(t: ListType) -> Seq<char> {
    match t {
        ListType::Distinct => "dl"@,
        ListType::Identical => "il"@,
        ListType::Checked => "cl"@,
    }
}

/// The rendering of a paragraph construct.
pub open spec fn sp_paragraph_out(p: ParagraphV, spaces: nat) -> Seq<char>
    decreases p, 2int,
{
    sp_spaces(spaces) + "par {\n"@ + sp_par_items_out(p.items, sp_ind(spaces)) + sp_tags_out(
        p.tags,
        sp_ind(spaces),
    ) + sp_props_out(p.props, sp_ind(spaces)) + sp_spaces(spaces) + "},\n"@
}

/// The rendering of a paragraph sequence.
pub open spec fn sp_paragraphs_out(s: Seq<ParagraphV>, spaces: nat) -> Seq<char>
    decreases s, 3int,
{
    if s.len() == 0 {
        Seq::empty()
    } else {
        sp_paragraphs_out(s.drop_last(), spaces) + sp_paragraph_out(s[s.len() - 1], spaces)
    }
}

/// The rendering of a list construct.
pub open spec fn sp_list_out(l: ListV, spaces: nat) -> Seq<char>
    decreases l, 0int,
{
    sp_spaces(spaces) + "list {\n"@ + sp_spaces(sp_ind(spaces)) + sp_list_type_key(l.ltype)
        + ",\n"@ + sp_paragraphs_out(l.items, sp_ind(spaces)) + sp_tags_out(
        l.tags,
        sp_ind(spaces),
    ) + sp_props_out(l.props, sp_ind(spaces)) + sp_spaces(spaces) + "},\n"@
}

/// The rendering of one table row: a header row keeps its own keyword.
pub open spec fn sp_table_row_out(r: TableRowV, spaces: nat) -> Seq<char>
    decreases r, 0int,
{
    sp_spaces(spaces) + (if r.is_header {
        "hrow {\n"@
    } else {
        "row {\n"@
    }) + sp_paragraphs_out(r.items, sp_ind(spaces)) + sp_tags_out(r.tags, sp_ind(spaces))
        + sp_props_out(r.props, sp_ind(spaces)) + sp_spaces(spaces) + "},\n"@
}

/// The rendering of a table row sequence.
pub open spec fn sp_table_rows_out(s: Seq<TableRowV>, spaces: nat) -> Seq<char>
    decreases s, 1int,
{
    if s.len() == 0 {
        Seq::empty()
    } else {
        sp_table_rows_out(s.drop_last(), spaces) + sp_table_row_out(s[s.len() - 1], spaces)
    }
}

/// The rendering of a table construct.
pub open spec fn sp_table_out(t: TableV, spaces: nat) -> Seq<char>
    decreases t, 2int,
{
    sp_spaces(spaces) + "table {\n"@ + sp_table_rows_out(t.items, sp_ind(spaces)) + sp_tags_out(
        t.tags,
        sp_ind(spaces),
    ) + sp_props_out(t.props, sp_ind(spaces)) + sp_spaces(spaces) + "},\n"@
}

/// The rendering of a link sequence.
pub open spec fn sp_links_out(s: Seq<LinkV>, spaces: nat) -> Seq<char>
    decreases s.len(),
{
    if s.len() == 0 {
        Seq::empty()
    } else {
        sp_links_out(s.drop_last(), spaces) + sp_link_out(s[s.len() - 1], spaces)
    }
}

/// The rendering of one sub-navigation construct.
pub open spec fn sp_snav_out(n: NavV, spaces: nat) -> Seq<char>
    decreases n, 0int,
{
    sp_spaces(spaces) + "snav {\n"@ + sp_spaces(sp_ind(spaces)) + sp_quoted(n.description) + ",\n"@
        + sp_links_out(n.links, sp_ind(spaces)) + sp_snavs_out(n.subs, sp_ind(spaces))
        + sp_tags_out(n.tags, sp_ind(spaces)) + sp_props_out(n.props, sp_ind(spaces)) + sp_spaces(
        spaces,
    ) + "},\n"@
}

/// The rendering of a sub-navigation sequence.
pub open spec fn sp_snavs_out(s: Seq<NavV>, spaces: nat) -> Seq<char>
    decreases s, 1int,
{
    if s.len() == 0 {
        Seq::empty()
    } else {
        sp_snavs_out(s.drop_last(), spaces) + sp_snav_out(s[s.len() - 1], spaces)
    }
}

/// The rendering of a top-level navigation construct: its sub-navigations,
/// then its links, then its metadata; the top description is not written.
pub open spec fn sp_nav_out(n: NavV, spaces: nat) -> Seq<char>
    decreases n, 2int,
{
    sp_spaces(spaces) + "nav {\n"@ + sp_snavs_out(n.subs, sp_ind(spaces)) + sp_links_out(
        n.links,
        sp_ind(spaces),
    ) + sp_tags_out(n.tags, sp_ind(spaces)) + sp_props_out(n.props, sp_ind(spaces)) + sp_spaces(
        spaces,
    ) + "},\n"@
}

/// The rendering of one section item, under the enclosing heading level.
pub open spec fn sp_section_item_out(item: SectionItemV, spaces: nat, plevel: nat) -> Seq<char>
    decreases item, 1int,
{
    match item {
        SectionItemV::Paragraph(p) => sp_paragraph_out(p, spaces),
        SectionItemV::Section(s) => sp_section_out(s, spaces, plevel),
    }
}

/// The rendering of a section item sequence.
pub open spec fn sp_section_items_out(items: Seq<SectionItemV>, spaces: nat, plevel: nat) -> Seq<
    char,
>
    decreases items, 2int,
{
    if items.len() == 0 {
        Seq::empty()
    } else {
        sp_section_items_out(items.drop_last(), spaces, plevel) + sp_section_item_out(
            items[items.len() - 1],
            spaces,
            plevel,
        )
    }
}

/// The rendering of a section construct: nested sections write their level
/// relative to this section's absolute level.
pub open spec fn sp_section_out(s: SectionV, spaces: nat, plevel: nat) -> Seq<char>
    decreases s, 0int,
{
    sp_spaces(spaces) + "section {\n"@ + sp_heading_out(s.heading, sp_ind(spaces), plevel)
        + sp_section_items_out(s.items, sp_ind(spaces), s.heading.level as nat) + sp_tags_out(
        s.tags,
        sp_ind(spaces),
    ) + sp_props_out(s.props, sp_ind(spaces)) + sp_spaces(spaces) + "},\n"@
}

/// The rendering of one top-level document item.
pub open spec fn sp_doc_item_out(item: DocItemV) -> Seq<char> {
    match item {
        DocItemV::Nav(n) => sp_nav_out(n, 0),
        DocItemV::Paragraph(p) => sp_paragraph_out(p, 0),
        DocItemV::Section(s) => sp_section_out(s, 0, 0),
    }
}

/// The rendering of the document item sequence.
pub open spec fn sp_doc_items_out(items: Seq<DocItemV>) -> Seq<char>
    decreases items.len(),
{
    if items.len() == 0 {
        Seq::empty()
    } else {
        sp_doc_items_out(items.drop_last()) + sp_doc_item_out(items[items.len() - 1])
    }
}

/// The rendering of a whole document: its tags, its properties, then every
/// item in order.
pub open spec fn sp_doc_out(d: DocV) -> Seq<char> {
    sp_tags_out(d.tags, 0) + sp_props_out(d.props, 0) + sp_doc_items_out(d.items)
}

} // verus!

verus! {

// ---------------------------------------------------------------------------
// Serialization: the writers
// ---------------------------------------------------------------------------

/// Appends a run of spaces.
pub fn spaces_out(spaces: usize, output: &mut String)
    ensures
        final(output)@ == old(output)@ + sp_spaces(spaces as nat),
{
    let mut i: usize = 0;
    while i < spaces
        invariant
            0 <= i <= spaces,
            output@ == old(output)@ + sp_spaces(i as nat),
        decreases spaces - i,
    {
        crate::push_char(output, ' ');
        proof {
            assert(old(output)@ + sp_spaces(i as nat + 1) =~= (old(output)@ + sp_spaces(
                i as nat,
            )).push(' '));
        }
        i += 1;
    }
}

/// Appends a bare string at the given indentation.
pub fn str_out(string: &str, spaces: usize, output: &mut String)
    ensures
        final(output)@ == old(output)@ + sp_spaces(spaces as nat) + string@,
{
    spaces_out(spaces, output);
    output.append(string);
}

/// Appends a double-quoted string at the given indentation.
pub fn string_out(string: &str, spaces: usize, output: &mut String)
    ensures
        final(output)@ == old(output)@ + sp_spaces(spaces as nat) + sp_quoted(string@),
{
    spaces_out(spaces, output);
    crate::push_char(output, '"');
    output.append(string);
    crate::push_char(output, '"');
    proof {
        assert(old(output)@ + sp_spaces(spaces as nat) + sp_quoted(string@) =~= (((old(output)@
            + sp_spaces(spaces as nat)).push('"') + string@)).push('"'));
    }
}

/// Appends a single-quoted text block at the given indentation.
pub fn text_out(string: &str, spaces: usize, output: &mut String)
    ensures
        final(output)@ == old(output)@ + sp_spaces(spaces as nat) + sp_ticked(string@),
{
    spaces_out(spaces, output);
    crate::push_char(output, '\'');
    output.append(string);
    crate::push_char(output, '\'');
    proof {
        assert(old(output)@ + sp_spaces(spaces as nat) + sp_ticked(string@) =~= (((old(output)@
            + sp_spaces(spaces as nat)).push('\'') + string@)).push('\''));
    }
}

/// Appends a plain text item on a line of its own.
pub fn text_item_out(text: &str, spaces: usize, output: &mut String)
    ensures
        final(output)@ == old(output)@ + sp_text_item_out(text@, spaces as nat),
{
    text_out(text, spaces, output);
    output.append(",\n");
    proof {
        assert(old(output)@ + sp_text_item_out(text@, spaces as nat) =~= old(output)@ + sp_spaces(
            spaces as nat,
        ) + sp_ticked(text@) + ",\n"@);
    }
}

/// Appends a verbatim code text block, re-indenting each line.
pub fn code_text_out(code: &str, spaces: usize, output: &mut String)
    ensures
        final(output)@ == old(output)@ + sp_code_text_out(code@, spaces as nat),
{
    str_out("'\n", spaces, output);
    spaces_out(spaces, output);
    let n = code.unicode_len();
    let ghost base = output@;
    proof {
        assert(code@.subrange(0, n as int) =~= code@);
    }
    let mut i: usize = 0;
    while i < n
        invariant
            0 <= i <= n,
            n == code@.len(),
            base + sp_code_chars(code@, spaces as nat) == output@ + sp_code_chars(
                code@.subrange(i as int, n as int),
                spaces as nat,
            ),
        decreases n - i,
    {
        let c = code.get_char(i);
        let ghost pre = output@;
        let ghost rem = code@.subrange(i as int, n as int);
        crate::push_char(output, c);
        if c == '\n' {
            spaces_out(spaces, output);
        }
        proof {
            assert(rem[0] == c);
            assert(rem.drop_first() =~= code@.subrange(i as int + 1, n as int));
            if c == '\n' {
                assert(pre + sp_code_chars(rem, spaces as nat) =~= (pre.push('\n') + sp_spaces(
                    spaces as nat,
                )) + sp_code_chars(rem.drop_first(), spaces as nat));
            } else {
                assert(pre + sp_code_chars(rem, spaces as nat) =~= pre.push(c) + sp_code_chars(
                    rem.drop_first(),
                    spaces as nat,
                ));
            }
        }
        i += 1;
    }
    proof {
        assert(code@.subrange(n as int, n as int) =~= Seq::<char>::empty());
        assert(output@ =~= base + sp_code_chars(code@, spaces as nat));
    }
    crate::push_char(output, '\n');
    str_out("',\n", spaces, output);
    proof {
        assert(final(output)@ =~= old(output)@ + sp_code_text_out(code@, spaces as nat));
    }
}

/// Appends the rendering of a date.
pub fn date_out(date: Date, output: &mut String)
    ensures
        final(output)@ == old(output)@ + sp_date_out(date),
{
    int_out(date.year as i64, output);
    crate::push_char(output, '/');
    two_digits_out(date.month as u64, output);
    crate::push_char(output, '/');
    two_digits_out(date.day as u64, output);
    proof {
        assert(final(output)@ =~= old(output)@ + sp_date_out(date));
    }
}

/// Appends a tags block, or nothing when no labels are held.
pub fn tags_out(tags: &Tags, spaces: usize, output: &mut String)
    ensures
        final(output)@ == old(output)@ + sp_tags_out(tags@, spaces as nat),
{
    if tags.is_empty() {
        return ;
    }
    str_out("tags {\n", spaces, output);
    let inner = indent(spaces);
    let n = tags.len();
    let ghost base = output@;
    let mut i: usize = 0;
    while i < n
        invariant
            0 <= i <= n,
            n == tags@.len(),
            inner as nat == sp_ind(spaces as nat),
            output@ == base + sp_tags_entries(tags@.subrange(0, i as int), inner as nat),
        decreases n - i,
    {
        let tag = tags.get(i);
        string_out(tag.as_str(), inner, output);
        output.append(",\n");
        proof {
            let pre = tags@.subrange(0, i as int);
            let cur = tags@.subrange(0, i as int + 1);
            assert(cur.drop_last() =~= pre);
            assert(cur[cur.len() - 1] == tags@[i as int]);
            assert(output@ =~= base + sp_tags_entries(cur, inner as nat));
        }
        i += 1;
    }
    str_out("},\n", spaces, output);
    proof {
        assert(tags@.subrange(0, n as int) =~= tags@);
        assert(final(output)@ =~= old(output)@ + sp_tags_out(tags@, spaces as nat));
    }
}

/// The next indentation step, four columns deeper.
fn indent(spaces: usize) -> (r: usize)
    ensures
        r as nat == sp_ind(spaces as nat),
{
    if spaces <= usize::MAX - 4 {
        spaces + 4
    } else {
        spaces
    }
}

/// Appends one property entry; an error value is skipped entirely and
/// reported in the result.
pub fn kv_out(prop: &Prop, spaces: usize, output: &mut String) -> (not_err: bool)
    ensures
        final(output)@ == old(output)@ + sp_kv_out(prop.key@, prop.val@, spaces as nat),
        not_err == !(prop.val@ is Error),
{
    if prop.val.is_error() {
        return false;
    }
    str_out("(", spaces, output);
    string_out(prop.key.as_str(), 0, output);
    output.append(", ");
    match &prop.val {
        PropVal::String(string) => string_out(string.as_str(), 0, output),
        PropVal::Text(text) => text_out(text.as_str(), 0, output),
        PropVal::Int(x) => int_out(*x, output),
        PropVal::Date(date) => date_out(*date, output),
        PropVal::Error(_) => {},
    }
    output.append(")");
    output.append(",\n");
    proof {
        assert(sp_spaces(0) =~= Seq::<char>::empty());
        reveal_strlit("(");
        assert("("@ =~= seq!['(']);
        assert(final(output)@ =~= old(output)@ + sp_kv_out(prop.key@, prop.val@, spaces as nat));
    }
    true
}

/// Appends a props block, or nothing when no entries are held.
pub fn props_out(props: &Props, spaces: usize, output: &mut String)
    ensures
        final(output)@ == old(output)@ + sp_props_out(props@, spaces as nat),
{
    if props.is_empty() {
        return ;
    }
    str_out("props {\n", spaces, output);
    let inner = indent(spaces);
    let n = props.len();
    let ghost base = output@;
    let mut i: usize = 0;
    while i < n
        invariant
            0 <= i <= n,
            n == props@.len(),
            inner as nat == sp_ind(spaces as nat),
            output@ == base + sp_props_entries(props@.subrange(0, i as int), inner as nat),
        decreases n - i,
    {
        let prop = props.get(i);
        let _ = kv_out(prop, inner, output);
        proof {
            let pre = props@.subrange(0, i as int);
            let cur = props@.subrange(0, i as int + 1);
            assert(cur.drop_last() =~= pre);
            assert(cur[cur.len() - 1] == props@[i as int]);
            assert(output@ =~= base + sp_props_entries(cur, inner as nat));
        }
        i += 1;
    }
    str_out("},\n", spaces, output);
    proof {
        assert(props@.subrange(0, n as int) =~= props@);
        assert(final(output)@ =~= old(output)@ + sp_props_out(props@, spaces as nat));
    }
}

/// Appends an emphasis construct.
#[verifier::rlimit(100)]
pub fn emphasis_out(em: &Emphasis, spaces: usize, output: &mut String)
    ensures
        final(output)@ == old(output)@ + sp_emphasis_out(em@, spaces as nat),
{
    str_out("em {\n", spaces, output);
    let inner = indent(spaces);
    let strength = match em.strength {
        EmStrength::Light => "l",
        EmStrength::Medium => "m",
        EmStrength::Strong => "s",
    };
    let etype = match em.etype {
        EmType::Emphasis => "e",
        EmType::Deemphasis => "d",
    };
    str_out(strength, inner, output);
    output.append(etype);
    output.append(",\n");
    string_out(em.text.as_str(), inner, output);
    output.append(",\n");
    tags_out(&em.tags, inner, output);
    props_out(&em.props, inner, output);
    str_out("},\n", spaces, output);
    proof {
        assert(final(output)@ =~= old(output)@ + sp_emphasis_out(em@, spaces as nat));
    }
}

/// Appends a code block construct.
#[verifier::rlimit(100)]
pub fn code_out(code: &CodeBlock, spaces: usize, output: &mut String)
    ensures
        final(output)@ == old(output)@ + sp_code_out(code@, spaces as nat),
{
    str_out("code {\n", spaces, output);
    let inner = indent(spaces);
    string_out(code.language.as_str(), inner, output);
    output.append(",\n");
    let mode = match code.mode {
        CodeModeHint::Show => "show",
        CodeModeHint::Runnable => "runnable",
        CodeModeHint::Run => "run",
        CodeModeHint::Replace => "replace",
    };
    string_out(mode, inner, output);
    output.append(",\n");
    code_text_out(code.code.as_str(), inner, output);
    tags_out(&code.tags, inner, output);
    props_out(&code.props, inner, output);
    str_out("},\n", spaces, output);
    proof {
        assert(final(output)@ =~= old(output)@ + sp_code_out(code@, spaces as nat));
    }
}

/// Appends a link construct.
#[verifier::rlimit(100)]
pub fn link_out(link: &Link, spaces: usize, output: &mut String)
    ensures
        final(output)@ == old(output)@ + sp_link_out(link@, spaces as nat),
{
    str_out("link {\n", spaces, output);
    let inner = indent(spaces);
    string_out(link.url.as_str(), inner, output);
    output.append(",\n");
    let n = link.items.len();
    let ghost base = output@;
    let ghost lv = view_link(*link);
    let mut i: usize = 0;
    while i < n
        invariant
            0 <= i <= n,
            n == link.items@.len(),
            lv == view_link(*link),
            n == lv.items.len(),
            inner as nat == sp_ind(spaces as nat),
            output@ == base + sp_link_items_out(lv.items.subrange(0, i as int), inner as nat),
        decreases n - i,
    {
        proof {
            assert(lv.items[i as int] == view_link_item(link.items@[i as int]));
        }
        match &link.items[i] {
            LinkItem::String(string) => {
                string_out(string.as_str(), inner, output);
                output.append(",\n");
            },
            LinkItem::Em(em) => {
                emphasis_out(em, inner, output);
            },
        }
        proof {
            let pre = lv.items.subrange(0, i as int);
            let cur = lv.items.subrange(0, i as int + 1);
            assert(cur.drop_last() =~= pre);
            assert(cur[cur.len() - 1] == lv.items[i as int]);
            assert(output@ =~= base + sp_link_items_out(cur, inner as nat));
        }
        i += 1;
    }
    tags_out(&link.tags, inner, output);
    props_out(&link.props, inner, output);
    str_out("},\n", spaces, output);
    proof {
        assert(lv.items.subrange(0, n as int) =~= lv.items);
        assert(final(output)@ =~= old(output)@ + sp_link_out(link@, spaces as nat));
    }
}

/// Appends a heading construct and hands back its absolute level, for the
/// enclosing section to pass on.
#[verifier::spinoff_prover]
#[verifier::rlimit(100)]
pub fn heading_out(head: &Heading, spaces: usize, plevel: u8, output: &mut String) -> (level: u8)
    ensures
        final(output)@ == old(output)@ + sp_heading_out(head@, spaces as nat, plevel as nat),
        level == head.level,
{
    str_out("head {\n", spaces, output);
    let inner = indent(spaces);
    let rel: u8 = if head.level >= plevel {
        head.level - plevel
    } else {
        0
    };
    spaces_out(inner, output);
    int_out(rel as i64, output);
    output.append(",\n");
    let n = head.items.len();
    let ghost base = output@;
    let ghost hv = view_heading(*head);
    let mut i: usize = 0;
    while i < n
        invariant
            0 <= i <= n,
            n == head.items@.len(),
            hv == view_heading(*head),
            n == hv.items.len(),
            inner as nat == sp_ind(spaces as nat),
            output@ == base + sp_heading_items_out(hv.items.subrange(0, i as int), inner as nat),
        decreases n - i,
    {
        proof {
            assert(hv.items[i as int] == view_heading_item(head.items@[i as int]));
        }
        match &head.items[i] {
            HeadingItem::String(string) => {
                string_out(string.as_str(), inner, output);
                output.append(",\n");
            },
            HeadingItem::Em(em) => {
                emphasis_out(em, inner, output);
            },
        }
        proof {
            let pre = hv.items.subrange(0, i as int);
            let cur = hv.items.subrange(0, i as int + 1);
            assert(cur.drop_last() =~= pre);
            assert(cur[cur.len() - 1] == hv.items[i as int]);
            assert(sp_heading_items_out(cur, inner as nat) =~= sp_heading_items_out(
                pre,
                inner as nat,
            ) + (match hv.items[i as int] {
                HeadingItemV::String(s) => sp_spaces(inner as nat) + sp_quoted(s) + ",\n"@,
                HeadingItemV::Em(e) => sp_emphasis_out(e, inner as nat),
            }));
            assert(output@ =~= base + sp_heading_items_out(cur, inner as nat));
        }
        i += 1;
    }
    tags_out(&head.tags, inner, output);
    props_out(&head.props, inner, output);
    str_out("},\n", spaces, output);
    proof {
        assert(hv.items.subrange(0, n as int) =~= hv.items);
        lemma_wrap10(
            old(output)@,
            sp_spaces(spaces as nat),
            "head {\n"@,
            sp_spaces(sp_ind(spaces as nat)),
            sp_int_dec(
                if head@.level >= plevel {
                    head@.level - plevel
                } else {
                    0
                },
            ),
            ",\n"@,
            sp_heading_items_out(hv.items, sp_ind(spaces as nat)),
            sp_tags_out(head@.tags, sp_ind(spaces as nat)),
            sp_props_out(head@.props, sp_ind(spaces as nat)),
            sp_spaces(spaces as nat),
            "},\n"@,
        );
        assert(final(output)@ == old(output)@ + sp_heading_out(
            head@,
            spaces as nat,
            plevel as nat,
        ));
    }
    head.level
}

} // verus!

verus! {


/// Moving a prefix into a ten-piece concatenation.
proof fn lemma_wrap10(
    o: Seq<char>,
    s1: Seq<char>,
    s2: Seq<char>,
    s3: Seq<char>,
    s4: Seq<char>,
    s5: Seq<char>,
    s6: Seq<char>,
    s7: Seq<char>,
    s8: Seq<char>,
    s9: Seq<char>,
    s10: Seq<char>,
)
    ensures
        o + (s1 + s2 + s3 + s4 + s5 + s6 + s7 + s8 + s9 + s10) == o + s1 + s2 + s3 + s4 + s5 + s6
            + s7 + s8 + s9 + s10,
{
    assert(o + (s1 + s2 + s3 + s4 + s5 + s6 + s7 + s8 + s9 + s10) =~= o + s1 + s2 + s3 + s4 + s5
        + s6 + s7 + s8 + s9 + s10);
}

/// Moving a prefix into a seven-piece concatenation.
proof fn lemma_wrap7(
    o: Seq<char>,
    s1: Seq<char>,
    s2: Seq<char>,
    s3: Seq<char>,
    s4: Seq<char>,
    s5: Seq<char>,
    s6: Seq<char>,
    s7: Seq<char>,
)
    ensures
        o + (s1 + s2 + s3 + s4 + s5 + s6 + s7) == o + s1 + s2 + s3 + s4 + s5 + s6 + s7,
{
    assert(o + (s1 + s2 + s3 + s4 + s5 + s6 + s7) =~= o + s1 + s2 + s3 + s4 + s5 + s6 + s7);
}

/// Appends a text-with-metadata item.
#[verifier::rlimit(100)]
pub fn mtext_out(mtext: &TextWithMeta, spaces: usize, output: &mut String)
    ensures
        final(output)@ == old(output)@ + sp_mtext_out(mtext@, spaces as nat),
{
    text_out(mtext.text.as_str(), spaces, output);
    output.append(" {\n");
    let inner = indent(spaces);
    tags_out(&mtext.tags, inner, output);
    props_out(&mtext.props, inner, output);
    str_out("},\n", spaces, output);
    proof {
        assert(final(output)@ =~= old(output)@ + sp_mtext_out(mtext@, spaces as nat));
    }
}

/// Appends every item of a paragraph in order.
#[verifier::rlimit(100)]
pub fn par_items_out(items: &Vec<ParagraphItem>, spaces: usize, output: &mut String)
    ensures
        final(output)@ == old(output)@ + sp_par_items_out(
            crate::view_par_items(items@),
            spaces as nat,
        ),
    decreases items@,
{
    let n = items.len();
    let ghost base = output@;
    let ghost iv = crate::view_par_items(items@);
    proof {
        crate::lemma_view_par_items(items@);
        assert(sp_par_items_out(iv.subrange(0, 0), spaces as nat) =~= Seq::<char>::empty());
        assert(iv.subrange(0, 0) =~= Seq::<ParagraphItemV>::empty());
    }
    let mut i: usize = 0;
    while i < n
        invariant
            0 <= i <= n,
            n == items@.len(),
            iv == crate::view_par_items(items@),
            n == iv.len(),
            output@ == base + sp_par_items_out(iv.subrange(0, i as int), spaces as nat),
        decreases n - i,
    {
        proof {
            crate::lemma_view_par_items(items@);
            assert(iv[i as int] == view_par_item(items@[i as int]));
            assert(decreases_to!(items@ => items@[i as int]));
        }
        match &items[i] {
            ParagraphItem::Text(text) => text_item_out(text.as_str(), spaces, output),
            ParagraphItem::MText(mtext) => mtext_out(mtext, spaces, output),
            ParagraphItem::Em(em) => emphasis_out(em, spaces, output),
            ParagraphItem::Link(link) => link_out(link, spaces, output),
            ParagraphItem::Code(code_res) => {
                match code_res {
                    Ok(code) => code_out(code, spaces, output),
                    Err(_) => {},
                }
            },
            ParagraphItem::List(list) => {
                proof {
                    let it = items@[i as int];
                    assert(decreases_to!(it => it->List_0));
                }
                list_out(list, spaces, output);
            },
            ParagraphItem::Table(table) => {
                proof {
                    let it = items@[i as int];
                    assert(decreases_to!(it => it->Table_0));
                }
                table_out(table, spaces, output);
            },
        }
        proof {
            let pre = iv.subrange(0, i as int);
            let cur = iv.subrange(0, i as int + 1);
            assert(cur.drop_last() =~= pre);
            assert(cur[cur.len() - 1] == iv[i as int]);
            assert(sp_par_items_out(cur, spaces as nat) =~= sp_par_items_out(pre, spaces as nat)
                + sp_par_item_out(iv[i as int], spaces as nat));
            assert(output@ =~= base + sp_par_items_out(cur, spaces as nat));
        }
        i += 1;
    }
    proof {
        assert(iv.subrange(0, n as int) =~= iv);
    }
}

/// Appends a list construct.
#[verifier::rlimit(100)]
#[verifier::spinoff_prover]
pub fn list_out(list: &List, spaces: usize, output: &mut String)
    ensures
        final(output)@ == old(output)@ + sp_list_out(list@, spaces as nat),
    decreases *list,
{
    str_out("list {\n", spaces, output);
    let inner = indent(spaces);
    spaces_out(inner, output);
    let ltype = match list.ltype {
        ListType::Distinct => "dl",
        ListType::Identical => "il",
        ListType::Checked => "cl",
    };
    output.append(ltype);
    output.append(",\n");
    let n = list.items.len();
    let ghost base = output@;
    let ghost lv = view_list(*list);
    proof {
        crate::lemma_view_paragraphs(list.items@);
        assert(sp_paragraphs_out(lv.items.subrange(0, 0), inner as nat) =~= Seq::<char>::empty());
        assert(lv.items.subrange(0, 0) =~= Seq::<ParagraphV>::empty());
    }
    let mut i: usize = 0;
    while i < n
        invariant
            0 <= i <= n,
            n == list.items@.len(),
            lv == view_list(*list),
            n == lv.items.len(),
            inner as nat == sp_ind(spaces as nat),
            output@ == base + sp_paragraphs_out(lv.items.subrange(0, i as int), inner as nat),
        decreases n - i,
    {
        proof {
            crate::lemma_view_paragraphs(list.items@);
            assert(lv.items[i as int] == view_paragraph(list.items@[i as int]));
            let ls = *list;
            assert(decreases_to!(ls => ls.items));
            assert(decreases_to!(ls.items => ls.items[i as int]));
        }
        paragraph_out(&list.items[i], inner, output);
        proof {
            let pre = lv.items.subrange(0, i as int);
            let cur = lv.items.subrange(0, i as int + 1);
            assert(cur.drop_last() =~= pre);
            assert(cur[cur.len() - 1] == lv.items[i as int]);
            assert(sp_paragraphs_out(cur, inner as nat) =~= sp_paragraphs_out(pre, inner as nat)
                + sp_paragraph_out(lv.items[i as int], inner as nat));
            assert(output@ =~= base + sp_paragraphs_out(cur, inner as nat));
        }
        i += 1;
    }
    tags_out(&list.tags, inner, output);
    props_out(&list.props, inner, output);
    str_out("},\n", spaces, output);
    proof {
        assert(lv.items.subrange(0, n as int) =~= lv.items);
        lemma_wrap10(
            old(output)@,
            sp_spaces(spaces as nat),
            "list {\n"@,
            sp_spaces(sp_ind(spaces as nat)),
            sp_list_type_key(list@.ltype),
            ",\n"@,
            sp_paragraphs_out(lv.items, sp_ind(spaces as nat)),
            sp_tags_out(list@.tags, sp_ind(spaces as nat)),
            sp_props_out(list@.props, sp_ind(spaces as nat)),
            sp_spaces(spaces as nat),
            "},\n"@,
        );
        assert(final(output)@ == old(output)@ + sp_list_out(list@, spaces as nat));
    }
}

/// Appends one table row construct.
#[verifier::rlimit(100)]
#[verifier::spinoff_prover]
pub fn table_row_out(row: &TableRow, spaces: usize, output: &mut String)
    ensures
        final(output)@ == old(output)@ + sp_table_row_out(row@, spaces as nat),
    decreases *row,
{
    if row.is_header {
        str_out("hrow {\n", spaces, output);
    } else {
        str_out("row {\n", spaces, output);
    }
    let inner = indent(spaces);
    let n = row.items.len();
    let ghost base = output@;
    let ghost rv = view_table_row(*row);
    proof {
        crate::lemma_view_paragraphs(row.items@);
        assert(sp_paragraphs_out(rv.items.subrange(0, 0), inner as nat) =~= Seq::<char>::empty());
        assert(rv.items.subrange(0, 0) =~= Seq::<ParagraphV>::empty());
    }
    let mut i: usize = 0;
    while i < n
        invariant
            0 <= i <= n,
            n == row.items@.len(),
            rv == view_table_row(*row),
            n == rv.items.len(),
            inner as nat == sp_ind(spaces as nat),
            output@ == base + sp_paragraphs_out(rv.items.subrange(0, i as int), inner as nat),
        decreases n - i,
    {
        proof {
            crate::lemma_view_paragraphs(row.items@);
            assert(rv.items[i as int] == view_paragraph(row.items@[i as int]));
            let rs = *row;
            assert(decreases_to!(rs => rs.items));
            assert(decreases_to!(rs.items => rs.items[i as int]));
        }
        paragraph_out(&row.items[i], inner, output);
        proof {
            let pre = rv.items.subrange(0, i as int);
            let cur = rv.items.subrange(0, i as int + 1);
            assert(cur.drop_last() =~= pre);
            assert(cur[cur.len() - 1] == rv.items[i as int]);
            assert(output@ =~= base + sp_paragraphs_out(cur, inner as nat));
        }
        i += 1;
    }
    tags_out(&row.tags, inner, output);
    props_out(&row.props, inner, output);
    str_out("},\n", spaces, output);
    proof {
        assert(rv.items.subrange(0, n as int) =~= rv.items);
        assert(final(output)@ =~= old(output)@ + sp_table_row_out(row@, spaces as nat));
    }
}

/// Appends a table construct.
#[verifier::rlimit(100)]
pub fn table_out(table: &Table, spaces: usize, output: &mut String)
    ensures
        final(output)@ == old(output)@ + sp_table_out(table@, spaces as nat),
    decreases *table,
{
    str_out("table {\n", spaces, output);
    let inner = indent(spaces);
    let n = table.items.len();
    let ghost base = output@;
    let ghost tv = view_table(*table);
    proof {
        crate::lemma_view_table_rows(table.items@);
        assert(sp_table_rows_out(tv.items.subrange(0, 0), inner as nat) =~= Seq::<char>::empty());
        assert(tv.items.subrange(0, 0) =~= Seq::<TableRowV>::empty());
    }
    let mut i: usize = 0;
    while i < n
        invariant
            0 <= i <= n,
            n == table.items@.len(),
            tv == view_table(*table),
            n == tv.items.len(),
            inner as nat == sp_ind(spaces as nat),
            output@ == base + sp_table_rows_out(tv.items.subrange(0, i as int), inner as nat),
        decreases n - i,
    {
        proof {
            crate::lemma_view_table_rows(table.items@);
            assert(tv.items[i as int] == view_table_row(table.items@[i as int]));
            let ts = *table;
            assert(decreases_to!(ts => ts.items));
            assert(decreases_to!(ts.items => ts.items[i as int]));
        }
        table_row_out(&table.items[i], inner, output);
        proof {
            let pre = tv.items.subrange(0, i as int);
            let cur = tv.items.subrange(0, i as int + 1);
            assert(cur.drop_last() =~= pre);
            assert(cur[cur.len() - 1] == tv.items[i as int]);
            assert(output@ =~= base + sp_table_rows_out(cur, inner as nat));
        }
        i += 1;
    }
    tags_out(&table.tags, inner, output);
    props_out(&table.props, inner, output);
    str_out("},\n", spaces, output);
    proof {
        assert(tv.items.subrange(0, n as int) =~= tv.items);
        lemma_wrap7(
            old(output)@,
            sp_spaces(spaces as nat),
            "table {\n"@,
            sp_table_rows_out(tv.items, sp_ind(spaces as nat)),
            sp_tags_out(table@.tags, sp_ind(spaces as nat)),
            sp_props_out(table@.props, sp_ind(spaces as nat)),
            sp_spaces(spaces as nat),
            "},\n"@,
        );
        assert(final(output)@ == old(output)@ + sp_table_out(table@, spaces as nat));
    }
}

/// Appends a paragraph construct.
#[verifier::rlimit(100)]
#[verifier::spinoff_prover]
pub fn paragraph_out(par: &Paragraph, spaces: usize, output: &mut String)
    ensures
        final(output)@ == old(output)@ + sp_paragraph_out(par@, spaces as nat),
    decreases *par,
{
    str_out("par {\n", spaces, output);
    let inner = indent(spaces);
    proof {
        let ps = *par;
        assert(decreases_to!(ps => ps.items));
        assert(decreases_to!(ps.items => ps.items@));
    }
    par_items_out(&par.items, inner, output);
    tags_out(&par.tags, inner, output);
    props_out(&par.props, inner, output);
    str_out("},\n", spaces, output);
    proof {
        assert(final(output)@ =~= old(output)@ + sp_paragraph_out(par@, spaces as nat));
    }
}

/// Appends one sub-navigation construct.
#[verifier::rlimit(100)]
pub fn snav_out(snav: &Nav, spaces: usize, output: &mut String)
    ensures
        final(output)@ == old(output)@ + sp_snav_out(snav@, spaces as nat),
    decreases *snav,
{
    str_out("snav {\n", spaces, output);
    let inner = indent(spaces);
    string_out(snav.description.as_str(), inner, output);
    output.append(",\n");
    let ghost nv = view_nav(*snav);
    let n = snav.links.len();
    let ghost base = output@;
    proof {
        assert(sp_links_out(nv.links.subrange(0, 0), inner as nat) =~= Seq::<char>::empty());
        assert(nv.links.subrange(0, 0) =~= Seq::<LinkV>::empty());
    }
    let mut i: usize = 0;
    while i < n
        invariant
            0 <= i <= n,
            n == snav.links@.len(),
            nv == view_nav(*snav),
            n == nv.links.len(),
            inner as nat == sp_ind(spaces as nat),
            output@ == base + sp_links_out(nv.links.subrange(0, i as int), inner as nat),
        decreases n - i,
    {
        proof {
            assert(nv.links[i as int] == view_link(snav.links@[i as int]));
        }
        link_out(&snav.links[i], inner, output);
        proof {
            let pre = nv.links.subrange(0, i as int);
            let cur = nv.links.subrange(0, i as int + 1);
            assert(cur.drop_last() =~= pre);
            assert(cur[cur.len() - 1] == nv.links[i as int]);
            assert(output@ =~= base + sp_links_out(cur, inner as nat));
        }
        i += 1;
    }
    let m = snav.subs.len();
    let ghost base2 = output@;
    proof {
        crate::lemma_view_navs(snav.subs@);
        assert(nv.links.subrange(0, n as int) =~= nv.links);
        assert(sp_snavs_out(nv.subs.subrange(0, 0), inner as nat) =~= Seq::<char>::empty());
        assert(nv.subs.subrange(0, 0) =~= Seq::<NavV>::empty());
    }
    let mut k: usize = 0;
    while k < m
        invariant
            0 <= k <= m,
            m == snav.subs@.len(),
            nv == view_nav(*snav),
            m == nv.subs.len(),
            inner as nat == sp_ind(spaces as nat),
            base2 == base + sp_links_out(nv.links, inner as nat),
            output@ == base2 + sp_snavs_out(nv.subs.subrange(0, k as int), inner as nat),
        decreases m - k,
    {
        proof {
            crate::lemma_view_navs(snav.subs@);
            assert(nv.subs[k as int] == view_nav(snav.subs@[k as int]));
            let ns = *snav;
            assert(decreases_to!(ns => ns.subs));
            assert(decreases_to!(ns.subs => ns.subs[k as int]));
        }
        snav_out(&snav.subs[k], inner, output);
        proof {
            let pre = nv.subs.subrange(0, k as int);
            let cur = nv.subs.subrange(0, k as int + 1);
            assert(cur.drop_last() =~= pre);
            assert(cur[cur.len() - 1] == nv.subs[k as int]);
            assert(output@ =~= base2 + sp_snavs_out(cur, inner as nat));
        }
        k += 1;
    }
    tags_out(&snav.tags, inner, output);
    props_out(&snav.props, inner, output);
    str_out("},\n", spaces, output);
    proof {
        assert(nv.subs.subrange(0, m as int) =~= nv.subs);
        assert(final(output)@ =~= old(output)@ + sp_snav_out(snav@, spaces as nat));
    }
}

/// Appends a top-level navigation construct: sub-navigations, links, then
/// metadata.
#[verifier::rlimit(100)]
pub fn nav_out(nav: &Nav, spaces: usize, output: &mut String)
    ensures
        final(output)@ == old(output)@ + sp_nav_out(nav@, spaces as nat),
{
    str_out("nav {\n", spaces, output);
    let inner = indent(spaces);
    let ghost nv = view_nav(*nav);
    let m = nav.subs.len();
    let ghost base = output@;
    proof {
        crate::lemma_view_navs(nav.subs@);
        assert(sp_snavs_out(nv.subs.subrange(0, 0), inner as nat) =~= Seq::<char>::empty());
        assert(nv.subs.subrange(0, 0) =~= Seq::<NavV>::empty());
    }
    let mut k: usize = 0;
    while k < m
        invariant
            0 <= k <= m,
            m == nav.subs@.len(),
            nv == view_nav(*nav),
            m == nv.subs.len(),
            inner as nat == sp_ind(spaces as nat),
            output@ == base + sp_snavs_out(nv.subs.subrange(0, k as int), inner as nat),
        decreases m - k,
    {
        proof {
            crate::lemma_view_navs(nav.subs@);
            assert(nv.subs[k as int] == view_nav(nav.subs@[k as int]));
        }
        snav_out(&nav.subs[k], inner, output);
        proof {
            let pre = nv.subs.subrange(0, k as int);
            let cur = nv.subs.subrange(0, k as int + 1);
            assert(cur.drop_last() =~= pre);
            assert(cur[cur.len() - 1] == nv.subs[k as int]);
            assert(output@ =~= base + sp_snavs_out(cur, inner as nat));
        }
        k += 1;
    }
    let n = nav.links.len();
    let ghost base2 = output@;
    proof {
        assert(nv.subs.subrange(0, m as int) =~= nv.subs);
        assert(sp_links_out(nv.links.subrange(0, 0), inner as nat) =~= Seq::<char>::empty());
        assert(nv.links.subrange(0, 0) =~= Seq::<LinkV>::empty());
    }
    let mut i: usize = 0;
    while i < n
        invariant
            0 <= i <= n,
            n == nav.links@.len(),
            nv == view_nav(*nav),
            n == nv.links.len(),
            inner as nat == sp_ind(spaces as nat),
            base2 == base + sp_snavs_out(nv.subs, inner as nat),
            output@ == base2 + sp_links_out(nv.links.subrange(0, i as int), inner as nat),
        decreases n - i,
    {
        proof {
            assert(nv.links[i as int] == view_link(nav.links@[i as int]));
        }
        link_out(&nav.links[i], inner, output);
        proof {
            let pre = nv.links.subrange(0, i as int);
            let cur = nv.links.subrange(0, i as int + 1);
            assert(cur.drop_last() =~= pre);
            assert(cur[cur.len() - 1] == nv.links[i as int]);
            assert(output@ =~= base2 + sp_links_out(cur, inner as nat));
        }
        i += 1;
    }
    tags_out(&nav.tags, inner, output);
    props_out(&nav.props, inner, output);
    str_out("},\n", spaces, output);
    proof {
        assert(nv.links.subrange(0, n as int) =~= nv.links);
        assert(final(output)@ =~= old(output)@ + sp_nav_out(nav@, spaces as nat));
    }
}

/// Appends a section construct: nested sections write their level relative
/// to this section's.
#[verifier::rlimit(100)]
pub fn section_out(section: &Section, spaces: usize, plevel: u8, output: &mut String)
    ensures
        final(output)@ == old(output)@ + sp_section_out(section@, spaces as nat, plevel as nat),
    decreases *section,
{
    str_out("section {\n", spaces, output);
    let inner = indent(spaces);
    let level = heading_out(&section.heading, inner, plevel, output);
    let ghost sv = view_section(*section);
    let n = section.items.len();
    let ghost base = output@;
    proof {
        crate::lemma_view_section_items(section.items@);
        assert(sp_section_items_out(sv.items.subrange(0, 0), inner as nat, level as nat)
            =~= Seq::<char>::empty());
        assert(sv.items.subrange(0, 0) =~= Seq::<SectionItemV>::empty());
    }
    let mut i: usize = 0;
    while i < n
        invariant
            0 <= i <= n,
            n == section.items@.len(),
            sv == view_section(*section),
            n == sv.items.len(),
            level == section.heading.level,
            inner as nat == sp_ind(spaces as nat),
            output@ == base + sp_section_items_out(
                sv.items.subrange(0, i as int),
                inner as nat,
                level as nat,
            ),
        decreases n - i,
    {
        proof {
            crate::lemma_view_section_items(section.items@);
            assert(sv.items[i as int] == view_section_item(section.items@[i as int]));
            let ss = *section;
            assert(decreases_to!(ss => ss.items));
            assert(decreases_to!(ss.items => ss.items[i as int]));
        }
        match &section.items[i] {
            SectionItem::Paragraph(par) => paragraph_out(par, inner, output),
            SectionItem::Section(sub) => {
                proof {
                    let it = section.items@[i as int];
                    assert(decreases_to!(it => it->Section_0));
                }
                section_out(sub, inner, level, output);
            },
        }
        proof {
            let pre = sv.items.subrange(0, i as int);
            let cur = sv.items.subrange(0, i as int + 1);
            assert(cur.drop_last() =~= pre);
            assert(cur[cur.len() - 1] == sv.items[i as int]);
            assert(sp_section_items_out(cur, inner as nat, level as nat) =~= sp_section_items_out(
                pre,
                inner as nat,
                level as nat,
            ) + sp_section_item_out(sv.items[i as int], inner as nat, level as nat));
            assert(output@ =~= base + sp_section_items_out(cur, inner as nat, level as nat));
        }
        i += 1;
    }
    tags_out(&section.tags, inner, output);
    props_out(&section.props, inner, output);
    str_out("},\n", spaces, output);
    proof {
        assert(sv.items.subrange(0, n as int) =~= sv.items);
        assert(final(output)@ =~= old(output)@ + sp_section_out(
            section@,
            spaces as nat,
            plevel as nat,
        ));
    }
}

/// Unparse: takes the abstract document structure and appends source text
/// that parses back to it.
#[verifier::spinoff_prover]
#[verifier::rlimit(100)]
pub fn doc_out(doc: &Doc, output: &mut String)
    ensures
        final(output)@ == old(output)@ + sp_doc_out(doc@),
{
    tags_out(&doc.tags, 0, output);
    props_out(&doc.props, 0, output);
    let ghost dv = view_doc(*doc);
    let n = doc.items.len();
    let ghost base = output@;
    proof {
        crate::lemma_view_doc_items(doc.items@);
        assert(sp_doc_items_out(dv.items.subrange(0, 0)) =~= Seq::<char>::empty());
        assert(dv.items.subrange(0, 0) =~= Seq::<DocItemV>::empty());
    }
    let mut i: usize = 0;
    while i < n
        invariant
            0 <= i <= n,
            n == doc.items@.len(),
            dv == view_doc(*doc),
            n == dv.items.len(),
            output@ == base + sp_doc_items_out(dv.items.subrange(0, i as int)),
        decreases n - i,
    {
        proof {
            crate::lemma_view_doc_items(doc.items@);
            assert(dv.items[i as int] == view_doc_item(doc.items@[i as int]));
        }
        match &doc.items[i] {
            DocItem::Nav(nav) => nav_out(nav, 0, output),
            DocItem::Paragraph(par) => paragraph_out(par, 0, output),
            DocItem::Section(section) => section_out(section, 0, 0, output),
        }
        proof {
            let pre = dv.items.subrange(0, i as int);
            let cur = dv.items.subrange(0, i as int + 1);
            assert(cur.drop_last() =~= pre);
            assert(cur[cur.len() - 1] == dv.items[i as int]);
            assert(sp_doc_items_out(cur) =~= sp_doc_items_out(pre) + sp_doc_item_out(
                dv.items[i as int],
            ));
            assert(output@ =~= base + sp_doc_items_out(cur));
        }
        i += 1;
    }
    proof {
        assert(dv.items.subrange(0, n as int) =~= dv.items);
        assert(final(output)@ =~= old(output)@ + sp_doc_out(doc@));
    }
}

} // verus!
