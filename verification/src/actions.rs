//! Tree-rewriting operations on the document model: metadata absorption,
//! run squashing and error/emptiness pruning.

use vstd::prelude::*;
use vstd::seq_lib::group_seq_properties;
use crate::{
    insert_prop, props_as_map, props_find, props_unique, sp_insert_prop, sp_prune_str,
    sp_str_blank, sp_tags_insert, str_blank, tags_as_set, view_doc, view_doc_item, view_emphasis,
    view_heading,
    view_heading_item, view_link, view_link_item, view_list, view_mtext, view_nav, view_par_item,
    view_paragraph, view_section, view_section_item, view_table, view_table_row, CodeBlock,
    CodeBlockV, Doc, DocItem, DocItemV, DocV, Emphasis, EmphasisV, Heading, HeadingItem,
    HeadingItemV, HeadingV, Link, LinkItem, LinkItemV, LinkV, List, ListV, Nav, NavV, Paragraph,
    ParagraphItem, ParagraphItemV, ParagraphV, PropVal, PropValV, Props, PropsV, Section,
    SectionItem, SectionItemV, SectionV, Table, TableRow, TableRowV, TableV, Tags, TagsV,
    TextWithMeta, TextWithMetaV,
};
use vstd::string::StrSliceExecFns;

verus! {

// ---------------------------------------------------------------------------
// Absorb: metadata merging
// ---------------------------------------------------------------------------

/// What absorbing a sequence of labels into a tag sequence yields: each
/// incoming label is appended unless already held, in incoming order.
pub open spec fn sp_tags_absorb(t: TagsV, o: TagsV) -> TagsV
    decreases o.len(),
{
    if o.len() == 0 {
        t
    } else {
        sp_tags_absorb(sp_tags_insert(t, o[0]), o.subrange(1, o.len() as int))
    }
}

/// What absorbing property entries into a property sequence yields: each
/// incoming entry is inserted in incoming order under the sticky-error rule.
pub open spec fn sp_props_absorb(ps: PropsV, o: PropsV) -> PropsV
    decreases o.len(),
{
    if o.len() == 0 {
        ps
    } else {
        sp_props_absorb(sp_insert_prop(ps, o[0].0, o[0].1), o.subrange(1, o.len() as int))
    }
}

/// Merge two objects by having one absorb the other.
pub trait Absorb: View + Sized {
    /// The kind of value that is absorbed.
    type Other;

    /// The mathematical value of the absorbed operand.
    type OtherV;

    /// The view of the absorbed operand.
    spec fn other_view(o: &Self::Other) -> Self::OtherV;

    /// What absorbing yields, stated over the mathematical values.
    spec fn sp_absorb(s: Self::V, o: Self::OtherV) -> Self::V;

    /// Whether the receiver's representation invariant holds.
    spec fn absorb_wf(&self) -> bool;

    /// Absorb other into self.
    fn absorb(&mut self, other: Self::Other)
        requires
            old(self).absorb_wf(),
        ensures
            final(self).absorb_wf(),
            final(self)@ == Self::sp_absorb(old(self)@, Self::other_view(&other)),
    ;
}

impl Absorb for Tags {
    type Other = Option<Tags>;

    type OtherV = Option<TagsV>;

    open spec fn other_view(o: &Option<Tags>) -> Option<TagsV> {
        match *o {
            Some(t) => Some(t@),
            None => None,
        }
    }

    open spec fn sp_absorb(s: TagsV, o: Option<TagsV>) -> TagsV {
        match o {
            Some(t) => sp_tags_absorb(s, t),
            None => s,
        }
    }

    open spec fn absorb_wf(&self) -> bool {
        self.wf()
    }

    /// Absorbing an absent tag block is a no-op; otherwise the labels are
    /// unioned, keeping the receiver's order first.
    fn absorb(&mut self, other: Option<Tags>) {
        match other {
            None => {},
            Some(o) => {
                let n = o.len();
                let mut i: usize = 0;
                while i < n
                    invariant
                        0 <= i <= n,
                        n == o@.len(),
                        self.wf(),
                        self@ == sp_tags_absorb(old(self)@, o@.subrange(0, i as int)),
                    decreases n - i,
                {
                    let tag = o.get(i).clone();
                    proof {
                        lemma_tags_absorb_snoc(old(self)@, o@.subrange(0, i as int), o@[i as int]);
                        assert(o@.subrange(0, i as int).push(o@[i as int]) =~= o@.subrange(
                            0,
                            i as int + 1,
                        ));
                    }
                    self.insert(tag);
                    i += 1;
                }
                proof {
                    assert(o@.subrange(0, n as int) =~= o@);
                }
            },
        }
    }
}

/// Absorbing one more label at the end equals inserting it after absorbing
/// the rest.
pub(crate) proof fn lemma_tags_absorb_snoc(t: TagsV, o: TagsV, x: Seq<char>)
    ensures
        sp_tags_absorb(t, o.push(x)) == sp_tags_insert(sp_tags_absorb(t, o), x),
    decreases o.len(),
{
    if o.len() == 0 {
        reveal_with_fuel(sp_tags_absorb, 2);
        assert(o.push(x)[0] == x);
        assert(o.push(x).subrange(1, o.push(x).len() as int) =~= Seq::<Seq<char>>::empty());
    } else {
        assert(o.push(x)[0] == o[0]);
        assert(o.push(x).subrange(1, o.push(x).len() as int) =~= o.subrange(
            1,
            o.len() as int,
        ).push(x));
        lemma_tags_absorb_snoc(sp_tags_insert(t, o[0]), o.subrange(1, o.len() as int), x);
    }
}

/// Absorbing one more entry at the end equals inserting it after absorbing
/// the rest.
pub(crate) proof fn lemma_props_absorb_snoc(ps: PropsV, o: PropsV, k: Seq<char>, v: PropValV)
    ensures
        sp_props_absorb(ps, o.push((k, v))) == sp_insert_prop(sp_props_absorb(ps, o), k, v),
    decreases o.len(),
{
    if o.len() == 0 {
        reveal_with_fuel(sp_props_absorb, 2);
        assert(o.push((k, v))[0] == (k, v));
        assert(o.push((k, v)).subrange(1, o.push((k, v)).len() as int) =~= Seq::<(
            Seq<char>,
            PropValV,
        )>::empty());
    } else {
        assert(o.push((k, v))[0] == o[0]);
        assert(o.push((k, v)).subrange(1, o.push((k, v)).len() as int) =~= o.subrange(
            1,
            o.len() as int,
        ).push((k, v)));
        lemma_props_absorb_snoc(sp_insert_prop(ps, o[0].0, o[0].1), o.subrange(1, o.len() as int), k, v);
    }
}

impl Absorb for Props {
    type Other = Props;

    type OtherV = PropsV;

    open spec fn other_view(o: &Props) -> PropsV {
        o@
    }

    open spec fn sp_absorb(s: PropsV, o: PropsV) -> PropsV {
        sp_props_absorb(s, o)
    }

    open spec fn absorb_wf(&self) -> bool {
        self.wf()
    }

    /// Inserts every entry of other, label by label, under the sticky-error
    /// rule: an incoming error value never replaces a held non-error value.
    fn absorb(&mut self, other: Props) {
        let n = other.len();
        let mut i: usize = 0;
        while i < n
            invariant
                0 <= i <= n,
                n == other@.len(),
                self.wf(),
                self@ == sp_props_absorb(old(self)@, other@.subrange(0, i as int)),
            decreases n - i,
        {
            let entry = other.get(i);
            let k = entry.key.clone();
            let v = entry.val.duplicate();
            proof {
                lemma_props_absorb_snoc(
                    old(self)@,
                    other@.subrange(0, i as int),
                    other@[i as int].0,
                    other@[i as int].1,
                );
                assert(other@.subrange(0, i as int).push(other@[i as int]) =~= other@.subrange(
                    0,
                    i as int + 1,
                ));
                assert(other@[i as int] == (other@[i as int].0, other@[i as int].1));
            }
            insert_prop(self, (k, v));
            i += 1;
        }
        proof {
            assert(other@.subrange(0, n as int) =~= other@);
        }
    }
}

// ---------------------------------------------------------------------------
// Laws of absorption
// ---------------------------------------------------------------------------

/// Absorbing tags unions the label sets: whichever of two tag collections
/// absorbs the other, the resulting labels are the set union, and absorbing
/// an empty collection is a no-op.
pub proof fn lemma_tags_absorb_union(a: TagsV, b: TagsV)
    ensures
        tags_as_set(sp_tags_absorb(a, b)) == tags_as_set(a).union(tags_as_set(b)),
        tags_as_set(sp_tags_absorb(b, a)) == tags_as_set(sp_tags_absorb(a, b)),
        b.len() == 0 ==> sp_tags_absorb(a, b) == a,
{
    broadcast use group_seq_properties;

    lemma_tags_absorb_set(a, b);
    lemma_tags_absorb_set(b, a);
    assert(tags_as_set(sp_tags_absorb(a, b)) =~= tags_as_set(a).union(tags_as_set(b)));
    assert(tags_as_set(sp_tags_absorb(b, a)) =~= tags_as_set(sp_tags_absorb(a, b)));
}

/// The labels after a tag absorption are exactly those of either operand.
proof fn lemma_tags_absorb_set(a: TagsV, b: TagsV)
    ensures
        forall|x: Seq<char>|
            tags_as_set(sp_tags_absorb(a, b)).contains(x) <==> (tags_as_set(a).contains(x)
                || tags_as_set(b).contains(x)),
    decreases b.len(),
{
    broadcast use group_seq_properties;

    if b.len() > 0 {
        lemma_tags_absorb_set(sp_tags_insert(a, b[0]), b.subrange(1, b.len() as int));
        assert forall|x: Seq<char>|
            tags_as_set(b).contains(x) <==> (x == b[0] || tags_as_set(
                b.subrange(1, b.len() as int),
            ).contains(x)) by {
            if tags_as_set(b).contains(x) {
                let i = choose|i: int| 0 <= i < b.len() && b[i] == x;
                if i > 0 {
                    assert(b.subrange(1, b.len() as int)[i - 1] == x);
                }
            }
            if tags_as_set(b.subrange(1, b.len() as int)).contains(x) {
                let i = choose|i: int|
                    0 <= i < b.subrange(1, b.len() as int).len() && b.subrange(
                        1,
                        b.len() as int,
                    )[i] == x;
                assert(b[i + 1] == x);
            }
        }
        assert forall|x: Seq<char>|
            tags_as_set(sp_tags_insert(a, b[0])).contains(x) <==> (tags_as_set(a).contains(x) || x
                == b[0]) by {
            if !tags_as_set(a).contains(b[0]) {
                assert(sp_tags_insert(a, b[0]) == a.push(b[0]));
                if tags_as_set(a).contains(x) {
                    let i = choose|i: int| 0 <= i < a.len() && a[i] == x;
                    assert(a.push(b[0])[i] == x);
                }
                if tags_as_set(a.push(b[0])).contains(x) {
                    let i = choose|i: int| 0 <= i < a.push(b[0]).len() && a.push(b[0])[i] == x;
                    if i < a.len() {
                        assert(a[i] == x);
                    }
                }
            }
        }
    }
}

/// The sticky-error rule across a whole absorption: after any property
/// absorption, a label that held a non-error value never ends up holding an
/// error, and an incoming non-error value for a label always ends up held.
pub proof fn lemma_props_absorb_sticky(ps: PropsV, o: PropsV, k: Seq<char>)
    requires
        props_unique(ps),
    ensures
        (props_as_map(ps).dom().contains(k) && !(props_as_map(ps)[k] is Error)) ==> {
            &&& props_as_map(sp_props_absorb(ps, o)).dom().contains(k)
            &&& !(props_as_map(sp_props_absorb(ps, o))[k] is Error)
        },
    decreases o.len(),
{
    if o.len() > 0 {
        lemma_insert_prop_props(ps, o[0].0, o[0].1);
        lemma_props_absorb_sticky(
            sp_insert_prop(ps, o[0].0, o[0].1),
            o.subrange(1, o.len() as int),
            k,
        );
    }
}

/// How one sticky insertion reads as a map update: a fresh label is added, a
/// non-error value overwrites, an error value overwrites only an error.
pub proof fn lemma_insert_prop_props(ps: PropsV, k: Seq<char>, v: PropValV)
    requires
        props_unique(ps),
    ensures
        props_unique(sp_insert_prop(ps, k, v)),
        props_as_map(sp_insert_prop(ps, k, v)) == (if props_as_map(ps).dom().contains(k) && (
        v is Error) && !(props_as_map(ps)[k] is Error) {
            props_as_map(ps)
        } else {
            props_as_map(ps).insert(k, v)
        }),
{
    let r = sp_insert_prop(ps, k, v);
    match props_find(ps, k) {
        Some(i) => {
            assert(0 <= i < ps.len() && ps[i].0 == k);
            assert(props_as_map(ps).dom().contains(k));
            let j = choose|j: int| 0 <= j < ps.len() && ps[j].0 == k;
            assert(j == i);
            assert(props_as_map(ps)[k] == ps[i].1);
            if (v is Error) && !(ps[i].1 is Error) {
                assert(r == ps);
            } else {
                assert(r == ps.update(i, (k, v)));
                assert forall|a: int, b: int| 0 <= a < b < r.len() implies r[a].0 != r[b].0 by {
                    assert(ps[a].0 != ps[b].0);
                    assert(r[a].0 == ps[a].0 || a == i);
                    assert(r[b].0 == ps[b].0 || b == i);
                }
                assert forall|k2: Seq<char>|
                    props_as_map(r).dom().contains(k2) <==> props_as_map(ps).insert(
                        k,
                        v,
                    ).dom().contains(k2) by {
                    if props_as_map(ps).insert(k, v).dom().contains(k2) {
                        if k2 == k {
                            assert(r[i].0 == k);
                        } else {
                            let a = choose|a: int| 0 <= a < ps.len() && ps[a].0 == k2;
                            assert(r[a].0 == k2);
                        }
                    }
                    if props_as_map(r).dom().contains(k2) {
                        let a = choose|a: int| 0 <= a < r.len() && r[a].0 == k2;
                        assert(ps[a].0 == k2 || a == i);
                    }
                }
                assert forall|k2: Seq<char>|
                    props_as_map(r).dom().contains(k2) implies props_as_map(r)[k2] == props_as_map(
                    ps,
                ).insert(k, v)[k2] by {
                    let a = choose|a: int| 0 <= a < r.len() && r[a].0 == k2;
                    if k2 == k {
                        assert(a == i);
                        assert(props_as_map(r)[k2] == v);
                    } else {
                        assert(a != i);
                        assert(ps[a].0 == k2);
                        let b = choose|b: int| 0 <= b < ps.len() && ps[b].0 == k2;
                        assert(b == a);
                        assert(props_as_map(r)[k2] == ps[a].1);
                        assert(props_as_map(ps)[k2] == ps[a].1);
                    }
                }
                assert(props_as_map(r) =~= props_as_map(ps).insert(k, v));
            }
        },
        None => {
            assert(forall|j: int| 0 <= j < ps.len() ==> ps[j].0 != k);
            assert(!props_as_map(ps).dom().contains(k));
            assert(r == ps.push((k, v)));
            assert forall|a: int, b: int| 0 <= a < b < r.len() implies r[a].0 != r[b].0 by {
                if b < ps.len() {
                    assert(ps[a].0 != ps[b].0);
                } else {
                    assert(ps[a].0 != k);
                }
            }
            assert forall|k2: Seq<char>|
                props_as_map(r).dom().contains(k2) <==> props_as_map(ps).insert(
                    k,
                    v,
                ).dom().contains(k2) by {
                if props_as_map(ps).insert(k, v).dom().contains(k2) {
                    if k2 == k {
                        assert(r[ps.len() as int].0 == k);
                    } else {
                        let a = choose|a: int| 0 <= a < ps.len() && ps[a].0 == k2;
                        assert(r[a].0 == k2);
                    }
                }
                if props_as_map(r).dom().contains(k2) {
                    let a = choose|a: int| 0 <= a < r.len() && r[a].0 == k2;
                    if a < ps.len() {
                        assert(ps[a].0 == k2);
                    }
                }
            }
            assert forall|k2: Seq<char>|
                props_as_map(r).dom().contains(k2) implies props_as_map(r)[k2] == props_as_map(
                ps,
            ).insert(k, v)[k2] by {
                let a = choose|a: int| 0 <= a < r.len() && r[a].0 == k2;
                if k2 == k {
                    assert(a == ps.len() as int);
                } else {
                    assert(a < ps.len());
                    assert(ps[a].0 == k2);
                    let b = choose|b: int| 0 <= b < ps.len() && ps[b].0 == k2;
                    assert(b == a);
                }
            }
            assert(props_as_map(r) =~= props_as_map(ps).insert(k, v));
        },
    }
}

} // verus!

verus! {

// ---------------------------------------------------------------------------
// Prune: spec transforms for the flat metadata types
// ---------------------------------------------------------------------------

/// What pruning contentless tags yields: empty and white-space-only labels
/// are dropped.
pub open spec fn sp_pc_tags(t: TagsV) -> TagsV {
    t.filter(|x: Seq<char>| !sp_str_blank(x))
}

/// What pruning errors from properties yields: entries holding an error
/// value are dropped.
pub open spec fn sp_pe_props(ps: PropsV) -> PropsV {
    ps.filter(|kv: (Seq<char>, PropValV)| !(kv.1 is Error))
}

/// What pruning one property value of contentless parts yields: string and
/// text values are trimmed to empty when blank.
pub open spec fn sp_pc_prop_val(v: PropValV) -> PropValV {
    match v {
        PropValV::String(s) => PropValV::String(sp_prune_str(s)),
        PropValV::Text(s) => PropValV::Text(sp_prune_str(s)),
        _ => v,
    }
}

/// Whether a property value carries no content: an empty string or text.
pub open spec fn sp_cl_prop_val(v: PropValV) -> bool {
    match v {
        PropValV::String(s) => s.len() == 0,
        PropValV::Text(s) => s.len() == 0,
        _ => false,
    }
}

/// What pruning contentless properties yields: every value is trimmed, then
/// entries with a blank label or a contentless value are dropped.
pub open spec fn sp_pc_props(ps: PropsV) -> PropsV {
    ps.map_values(|kv: (Seq<char>, PropValV)| (kv.0, sp_pc_prop_val(kv.1))).filter(
        |kv: (Seq<char>, PropValV)| !sp_str_blank(kv.0) && !sp_cl_prop_val(kv.1),
    )
}

// ---------------------------------------------------------------------------
// Prune: the trait and the flat impls
// ---------------------------------------------------------------------------

/// Prune the document tree of various unwanted elements.
pub trait PruneIncodoc: View + Sized {
    /// What pruning error placeholders yields, over the mathematical values.
    spec fn sp_prune_errors(v: Self::V) -> Self::V;

    /// What pruning contentless parts yields, over the mathematical values.
    spec fn sp_prune_contentless(v: Self::V) -> Self::V;

    /// Whether the value carries no meaningful payload.
    spec fn sp_is_contentless(v: Self::V) -> bool;

    /// Removes error placeholders, leaving everything else in place.
    fn prune_errors(&mut self)
        ensures
            final(self)@ == Self::sp_prune_errors(old(self)@),
    ;

    /// Removes contentless parts bottom-up.
    fn prune_contentless(&mut self)
        ensures
            final(self)@ == Self::sp_prune_contentless(old(self)@),
    ;

    /// Whether the value carries no meaningful payload.
    fn is_contentless(&self) -> (r: bool)
        ensures
            r == Self::sp_is_contentless(self@),
    ;
}

impl PruneIncodoc for String {
    open spec fn sp_prune_errors(v: Seq<char>) -> Seq<char> {
        v
    }

    open spec fn sp_prune_contentless(v: Seq<char>) -> Seq<char> {
        sp_prune_str(v)
    }

    open spec fn sp_is_contentless(v: Seq<char>) -> bool {
        v.len() == 0
    }

    fn prune_errors(&mut self) {
    }

    fn prune_contentless(&mut self) {
        if str_blank(self) {
            *self = String::new();
        }
    }

    fn is_contentless(&self) -> (r: bool) {
        self.unicode_len() == 0
    }
}

impl PruneIncodoc for Tags {
    open spec fn sp_prune_errors(v: TagsV) -> TagsV {
        v
    }

    open spec fn sp_prune_contentless(v: TagsV) -> TagsV {
        sp_pc_tags(v)
    }

    open spec fn sp_is_contentless(v: TagsV) -> bool {
        v.len() == 0
    }

    fn prune_errors(&mut self) {
    }

    fn prune_contentless(&mut self) {
        let ghost pred = |x: Seq<char>| !sp_str_blank(x);
        let n = self.len();
        let mut kept = Tags::new();
        proof {
            reveal(Seq::filter);
            assert(self@.subrange(0, 0) =~= Seq::<Seq<char>>::empty());
            assert(Seq::<Seq<char>>::empty().filter(pred) =~= Seq::<Seq<char>>::empty());
        }
        let mut i: usize = 0;
        while i < n
            invariant
                0 <= i <= n,
                n == self@.len(),
                kept@ == self@.subrange(0, i as int).filter(|x: Seq<char>| !sp_str_blank(x)),
            decreases n - i,
        {
            let tag = self.get(i).clone();
            let keep = !str_blank(&tag);
            proof {
                reveal(Seq::filter);
                let pre = self@.subrange(0, i as int);
                let cur = self@.subrange(0, i as int + 1);
                assert(cur.drop_last() =~= pre);
                assert(cur.last() == self@[i as int]);
            }
            if keep {
                kept.push_label(tag);
            }
            i += 1;
        }
        proof {
            assert(self@.subrange(0, n as int) =~= self@);
        }
        *self = kept;
    }

    fn is_contentless(&self) -> (r: bool) {
        self.is_empty()
    }
}

impl PruneIncodoc for PropVal {
    open spec fn sp_prune_errors(v: PropValV) -> PropValV {
        v
    }

    open spec fn sp_prune_contentless(v: PropValV) -> PropValV {
        sp_pc_prop_val(v)
    }

    open spec fn sp_is_contentless(v: PropValV) -> bool {
        sp_cl_prop_val(v)
    }

    fn prune_errors(&mut self) {
    }

    fn prune_contentless(&mut self) {
        match self {
            PropVal::String(s) => {
                if str_blank(s) {
                    *s = String::new();
                }
            },
            PropVal::Text(s) => {
                if str_blank(s) {
                    *s = String::new();
                }
            },
            _ => {},
        }
    }

    fn is_contentless(&self) -> (r: bool) {
        match self {
            PropVal::String(s) => s.unicode_len() == 0,
            PropVal::Text(s) => s.unicode_len() == 0,
            _ => false,
        }
    }
}

impl PruneIncodoc for Props {
    open spec fn sp_prune_errors(v: PropsV) -> PropsV {
        sp_pe_props(v)
    }

    open spec fn sp_prune_contentless(v: PropsV) -> PropsV {
        sp_pc_props(v)
    }

    open spec fn sp_is_contentless(v: PropsV) -> bool {
        v.len() == 0
    }

    fn prune_errors(&mut self) {
        let ghost pred = |kv: (Seq<char>, PropValV)| !(kv.1 is Error);
        let n = self.len();
        let mut kept = Props::new();
        proof {
            reveal(Seq::filter);
            assert(self@.subrange(0, 0) =~= Seq::<(Seq<char>, PropValV)>::empty());
            assert(Seq::<(Seq<char>, PropValV)>::empty().filter(pred) =~= Seq::<(
                Seq<char>,
                PropValV,
            )>::empty());
        }
        let mut i: usize = 0;
        while i < n
            invariant
                0 <= i <= n,
                n == self@.len(),
                kept@ == self@.subrange(0, i as int).filter(
                    |kv: (Seq<char>, PropValV)| !(kv.1 is Error),
                ),
            decreases n - i,
        {
            let entry = self.get(i);
            let keep = !entry.val.is_error();
            let k = entry.key.clone();
            let v = entry.val.duplicate();
            proof {
                reveal(Seq::filter);
                let pre = self@.subrange(0, i as int);
                let cur = self@.subrange(0, i as int + 1);
                assert(cur.drop_last() =~= pre);
                assert(cur.last() == self@[i as int]);
            }
            if keep {
                kept.push_entry(k, v);
            }
            i += 1;
        }
        proof {
            assert(self@.subrange(0, n as int) =~= self@);
        }
        *self = kept;
    }

    fn prune_contentless(&mut self) {
        let ghost mapped = self@.map_values(
            |kv: (Seq<char>, PropValV)| (kv.0, sp_pc_prop_val(kv.1)),
        );
        let ghost pred = |kv: (Seq<char>, PropValV)| !sp_str_blank(kv.0) && !sp_cl_prop_val(kv.1);
        let n = self.len();
        let mut kept = Props::new();
        proof {
            reveal(Seq::filter);
            assert(mapped.subrange(0, 0) =~= Seq::<(Seq<char>, PropValV)>::empty());
            assert(Seq::<(Seq<char>, PropValV)>::empty().filter(pred) =~= Seq::<(
                Seq<char>,
                PropValV,
            )>::empty());
        }
        let mut i: usize = 0;
        while i < n
            invariant
                0 <= i <= n,
                n == self@.len(),
                mapped == self@.map_values(
                    |kv: (Seq<char>, PropValV)| (kv.0, sp_pc_prop_val(kv.1)),
                ),
                kept@ == mapped.subrange(0, i as int).filter(
                    |kv: (Seq<char>, PropValV)| !sp_str_blank(kv.0) && !sp_cl_prop_val(kv.1),
                ),
            decreases n - i,
        {
            let entry = self.get(i);
            let k = entry.key.clone();
            let mut v = entry.val.duplicate();
            v.prune_contentless();
            let keep = !str_blank(&k) && !v.is_contentless();
            proof {
                reveal(Seq::filter);
                let pre = mapped.subrange(0, i as int);
                let cur = mapped.subrange(0, i as int + 1);
                assert(cur.drop_last() =~= pre);
                assert(cur.last() == mapped[i as int]);
                assert(mapped[i as int] == (self@[i as int].0, sp_pc_prop_val(self@[i as int].1)));
            }
            if keep {
                kept.push_entry(k, v);
            }
            i += 1;
        }
        proof {
            assert(mapped.subrange(0, n as int) =~= mapped);
        }
        *self = kept;
    }

    fn is_contentless(&self) -> (r: bool) {
        self.is_empty()
    }
}

} // verus!

verus! {

// ---------------------------------------------------------------------------
// Prune: leaf content types
// ---------------------------------------------------------------------------

/// What pruning errors from a text-with-metadata yields.
pub open spec fn sp_pe_mtext(v: TextWithMetaV) -> TextWithMetaV {
    TextWithMetaV { props: sp_pe_props(v.props), ..v }
}

/// What pruning contentless parts of a text-with-metadata yields.
pub open spec fn sp_pc_mtext(v: TextWithMetaV) -> TextWithMetaV {
    TextWithMetaV {
        text: sp_prune_str(v.text),
        tags: sp_pc_tags(v.tags),
        props: sp_pc_props(v.props),
    }
}

/// Whether a text-with-metadata carries no content: its text is empty.
pub open spec fn sp_cl_mtext(v: TextWithMetaV) -> bool {
    v.text.len() == 0
}

impl PruneIncodoc for TextWithMeta {
    open spec fn sp_prune_errors(v: TextWithMetaV) -> TextWithMetaV {
        sp_pe_mtext(v)
    }

    open spec fn sp_prune_contentless(v: TextWithMetaV) -> TextWithMetaV {
        sp_pc_mtext(v)
    }

    open spec fn sp_is_contentless(v: TextWithMetaV) -> bool {
        sp_cl_mtext(v)
    }

    fn prune_errors(&mut self) {
        self.props.prune_errors();
    }

    fn prune_contentless(&mut self) {
        self.text.prune_contentless();
        self.tags.prune_contentless();
        self.props.prune_contentless();
    }

    fn is_contentless(&self) -> (r: bool) {
        self.text.unicode_len() == 0
    }
}

/// What pruning errors from an emphasis yields.
pub open spec fn sp_pe_emphasis(v: EmphasisV) -> EmphasisV {
    EmphasisV { props: sp_pe_props(v.props), ..v }
}

/// What pruning contentless parts of an emphasis yields.
pub open spec fn sp_pc_emphasis(v: EmphasisV) -> EmphasisV {
    EmphasisV {
        text: sp_prune_str(v.text),
        tags: sp_pc_tags(v.tags),
        props: sp_pc_props(v.props),
        ..v
    }
}

/// Whether an emphasis carries no content: its text is empty.
pub open spec fn sp_cl_emphasis(v: EmphasisV) -> bool {
    v.text.len() == 0
}

impl PruneIncodoc for Emphasis {
    open spec fn sp_prune_errors(v: EmphasisV) -> EmphasisV {
        sp_pe_emphasis(v)
    }

    open spec fn sp_prune_contentless(v: EmphasisV) -> EmphasisV {
        sp_pc_emphasis(v)
    }

    open spec fn sp_is_contentless(v: EmphasisV) -> bool {
        sp_cl_emphasis(v)
    }

    fn prune_errors(&mut self) {
        self.props.prune_errors();
    }

    fn prune_contentless(&mut self) {
        self.text.prune_contentless();
        self.tags.prune_contentless();
        self.props.prune_contentless();
    }

    fn is_contentless(&self) -> (r: bool) {
        self.text.unicode_len() == 0
    }
}

/// What pruning errors from a code block yields.
pub open spec fn sp_pe_code_block(v: CodeBlockV) -> CodeBlockV {
    CodeBlockV { props: sp_pe_props(v.props), ..v }
}

/// What pruning contentless parts of a code block yields.
pub open spec fn sp_pc_code_block(v: CodeBlockV) -> CodeBlockV {
    CodeBlockV {
        language: sp_prune_str(v.language),
        code: sp_prune_str(v.code),
        tags: sp_pc_tags(v.tags),
        props: sp_pc_props(v.props),
        ..v
    }
}

/// Whether a code block carries no content: its code is empty.
pub open spec fn sp_cl_code_block(v: CodeBlockV) -> bool {
    v.code.len() == 0
}

impl PruneIncodoc for CodeBlock {
    open spec fn sp_prune_errors(v: CodeBlockV) -> CodeBlockV {
        sp_pe_code_block(v)
    }

    open spec fn sp_prune_contentless(v: CodeBlockV) -> CodeBlockV {
        sp_pc_code_block(v)
    }

    open spec fn sp_is_contentless(v: CodeBlockV) -> bool {
        sp_cl_code_block(v)
    }

    fn prune_errors(&mut self) {
        self.props.prune_errors();
    }

    fn prune_contentless(&mut self) {
        self.language.prune_contentless();
        self.code.prune_contentless();
        self.tags.prune_contentless();
        self.props.prune_contentless();
    }

    fn is_contentless(&self) -> (r: bool) {
        self.code.unicode_len() == 0
    }
}

/// What pruning errors from one link item yields.
pub open spec fn sp_pe_link_item(v: LinkItemV) -> LinkItemV {
    match v {
        LinkItemV::String(s) => LinkItemV::String(s),
        LinkItemV::Em(e) => LinkItemV::Em(sp_pe_emphasis(e)),
    }
}

/// What pruning contentless parts of one link item yields.
pub open spec fn sp_pc_link_item(v: LinkItemV) -> LinkItemV {
    match v {
        LinkItemV::String(s) => LinkItemV::String(sp_prune_str(s)),
        LinkItemV::Em(e) => LinkItemV::Em(sp_pc_emphasis(e)),
    }
}

/// Whether a link item carries no content.
pub open spec fn sp_cl_link_item(v: LinkItemV) -> bool {
    match v {
        LinkItemV::String(s) => s.len() == 0,
        LinkItemV::Em(e) => sp_cl_emphasis(e),
    }
}

impl PruneIncodoc for LinkItem {
    open spec fn sp_prune_errors(v: LinkItemV) -> LinkItemV {
        sp_pe_link_item(v)
    }

    open spec fn sp_prune_contentless(v: LinkItemV) -> LinkItemV {
        sp_pc_link_item(v)
    }

    open spec fn sp_is_contentless(v: LinkItemV) -> bool {
        sp_cl_link_item(v)
    }

    fn prune_errors(&mut self) {
        if let LinkItem::Em(em) = self {
            em.prune_errors();
        }
    }

    fn prune_contentless(&mut self) {
        match self {
            LinkItem::String(s) => s.prune_contentless(),
            LinkItem::Em(em) => em.prune_contentless(),
        }
    }

    fn is_contentless(&self) -> (r: bool) {
        match self {
            LinkItem::String(s) => s.unicode_len() == 0,
            LinkItem::Em(em) => em.is_contentless(),
        }
    }
}

/// What pruning errors from a link yields.
pub open spec fn sp_pe_link(v: LinkV) -> LinkV {
    LinkV {
        props: sp_pe_props(v.props),
        items: v.items.map_values(|x: LinkItemV| sp_pe_link_item(x)),
        ..v
    }
}

/// What pruning contentless parts of a link yields.
pub open spec fn sp_pc_link(v: LinkV) -> LinkV {
    LinkV {
        url: sp_prune_str(v.url),
        items: v.items.map_values(|x: LinkItemV| sp_pc_link_item(x)).filter(
            |x: LinkItemV| !sp_cl_link_item(x),
        ),
        tags: sp_pc_tags(v.tags),
        props: sp_pc_props(v.props),
    }
}

/// Whether a link carries no content: no URL and no items.
pub open spec fn sp_cl_link(v: LinkV) -> bool {
    v.url.len() == 0 && v.items.len() == 0
}

impl PruneIncodoc for Link {
    open spec fn sp_prune_errors(v: LinkV) -> LinkV {
        sp_pe_link(v)
    }

    open spec fn sp_prune_contentless(v: LinkV) -> LinkV {
        sp_pc_link(v)
    }

    open spec fn sp_is_contentless(v: LinkV) -> bool {
        sp_cl_link(v)
    }

    fn prune_errors(&mut self) {
        self.props.prune_errors();
        let ghost ov = view_link(*old(self));
        let n = self.items.len();
        let mut i: usize = 0;
        while i < n
            invariant
                0 <= i <= n,
                n == self.items@.len(),
                n == ov.items.len(),
                self.url == old(self).url,
                self.tags == old(self).tags,
                self.props@ == sp_pe_props(ov.props),
                ov == view_link(*old(self)),
                forall|j: int|
                    i <= j < n ==> self.items@[j] == old(self).items@[j],
                forall|j: int|
                    0 <= j < i ==> #[trigger] view_link_item(self.items@[j]) == sp_pe_link_item(
                        ov.items[j],
                    ),
            decreases n - i,
        {
            let it = &mut self.items[i];
            it.prune_errors();
            i += 1;
        }
        proof {
            assert(view_link(*self).items =~= sp_pe_link(ov).items);
            assert(view_link(*self) == sp_pe_link(ov));
        }
    }

    fn prune_contentless(&mut self) {
        self.url.prune_contentless();
        let ghost ov = view_link(*old(self));
        let ghost mapped = ov.items.map_values(|x: LinkItemV| sp_pc_link_item(x));
        let ghost pred = |x: LinkItemV| !sp_cl_link_item(x);
        let mut old_items: Vec<LinkItem> = Vec::new();
        core::mem::swap(&mut old_items, &mut self.items);
        let n = old_items.len();
        proof {
            reveal(Seq::filter);
            assert(mapped.subrange(0, 0) =~= Seq::<LinkItemV>::empty());
            assert(Seq::<LinkItemV>::empty().filter(pred) =~= Seq::<LinkItemV>::empty());
            assert(self.items@ =~= Seq::<LinkItem>::empty());
        }
        let mut i: usize = 0;
        while i < n
            invariant
                0 <= i <= n,
                n == ov.items.len(),
                n == old(self).items@.len(),
                ov == view_link(*old(self)),
                mapped == ov.items.map_values(|x: LinkItemV| sp_pc_link_item(x)),
                self.url@ == sp_prune_str(ov.url),
                self.tags == old(self).tags,
                self.props == old(self).props,
                old_items@ == old(self).items@.subrange(i as int, n as int),
                Seq::new(self.items@.len(), |k: int| view_link_item(self.items@[k])) == mapped.subrange(
                    0,
                    i as int,
                ).filter(|x: LinkItemV| !sp_cl_link_item(x)),
            decreases n - i,
        {
            let ghost pre_old_items = old_items@;
            let mut it = old_items.remove(0);
            proof {
                assert(it == old(self).items@[i as int]);
                assert(old_items@ =~= old(self).items@.subrange(i as int + 1, n as int));
                assert(ov.items[i as int] == view_link_item(old(self).items@[i as int]));
                assert(view_link_item(it) == ov.items[i as int]);
            }
            it.prune_contentless();
            let keep = !it.is_contentless();
            let ghost pre_items = self.items@;
            proof {
                reveal(Seq::filter);
                let pre = mapped.subrange(0, i as int);
                let cur = mapped.subrange(0, i as int + 1);
                assert(cur.drop_last() =~= pre);
                assert(cur.last() == mapped[i as int]);
                assert(mapped[i as int] == sp_pc_link_item(ov.items[i as int]));
            }
            if keep {
                self.items.push(it);
                proof {
                    assert(Seq::new(self.items@.len(), |k: int| view_link_item(self.items@[k]))
                        =~= Seq::new(pre_items.len(), |k: int| view_link_item(pre_items[k])).push(
                        view_link_item(self.items@[pre_items.len() as int]),
                    ));
                }
            }
            i += 1;
        }
        self.tags.prune_contentless();
        self.props.prune_contentless();
        proof {
            assert(mapped.subrange(0, n as int) =~= mapped);
            assert(view_link(*self).items =~= sp_pc_link(ov).items);
            assert(view_link(*self) == sp_pc_link(ov));
        }
    }

    fn is_contentless(&self) -> (r: bool) {
        self.url.unicode_len() == 0 && self.items.len() == 0
    }
}

} // verus!

verus! {

/// What pruning errors from one heading item yields.
pub open spec fn sp_pe_heading_item(v: HeadingItemV) -> HeadingItemV {
    match v {
        HeadingItemV::String(s) => HeadingItemV::String(s),
        HeadingItemV::Em(e) => HeadingItemV::Em(sp_pe_emphasis(e)),
    }
}

/// What pruning contentless parts of one heading item yields.
pub open spec fn sp_pc_heading_item(v: HeadingItemV) -> HeadingItemV {
    match v {
        HeadingItemV::String(s) => HeadingItemV::String(sp_prune_str(s)),
        HeadingItemV::Em(e) => HeadingItemV::Em(sp_pc_emphasis(e)),
    }
}

/// Whether a heading item carries no content.
pub open spec fn sp_cl_heading_item(v: HeadingItemV) -> bool {
    match v {
        HeadingItemV::String(s) => s.len() == 0,
        HeadingItemV::Em(e) => sp_cl_emphasis(e),
    }
}

impl PruneIncodoc for HeadingItem {
    open spec fn sp_prune_errors(v: HeadingItemV) -> HeadingItemV {
        sp_pe_heading_item(v)
    }

    open spec fn sp_prune_contentless(v: HeadingItemV) -> HeadingItemV {
        sp_pc_heading_item(v)
    }

    open spec fn sp_is_contentless(v: HeadingItemV) -> bool {
        sp_cl_heading_item(v)
    }

    fn prune_errors(&mut self) {
        if let HeadingItem::Em(em) = self {
            em.prune_errors();
        }
    }

    fn prune_contentless(&mut self) {
        match self {
            HeadingItem::String(s) => s.prune_contentless(),
            HeadingItem::Em(em) => em.prune_contentless(),
        }
    }

    fn is_contentless(&self) -> (r: bool) {
        match self {
            HeadingItem::String(s) => s.unicode_len() == 0,
            HeadingItem::Em(em) => em.is_contentless(),
        }
    }
}

/// What pruning errors from a heading yields.
pub open spec fn sp_pe_heading(v: HeadingV) -> HeadingV {
    HeadingV {
        props: sp_pe_props(v.props),
        items: v.items.map_values(|x: HeadingItemV| sp_pe_heading_item(x)),
        ..v
    }
}

/// What pruning contentless parts of a heading yields.
pub open spec fn sp_pc_heading(v: HeadingV) -> HeadingV {
    HeadingV {
        items: v.items.map_values(|x: HeadingItemV| sp_pc_heading_item(x)).filter(
            |x: HeadingItemV| !sp_cl_heading_item(x),
        ),
        tags: sp_pc_tags(v.tags),
        props: sp_pc_props(v.props),
        ..v
    }
}

/// Whether a heading carries no content: it has no items.
pub open spec fn sp_cl_heading(v: HeadingV) -> bool {
    v.items.len() == 0
}

impl PruneIncodoc for Heading {
    open spec fn sp_prune_errors(v: HeadingV) -> HeadingV {
        sp_pe_heading(v)
    }

    open spec fn sp_prune_contentless(v: HeadingV) -> HeadingV {
        sp_pc_heading(v)
    }

    open spec fn sp_is_contentless(v: HeadingV) -> bool {
        sp_cl_heading(v)
    }

    fn prune_errors(&mut self) {
        self.props.prune_errors();
        let ghost ov = view_heading(*old(self));
        let n = self.items.len();
        let mut i: usize = 0;
        while i < n
            invariant
                0 <= i <= n,
                n == self.items@.len(),
                n == ov.items.len(),
                ov == view_heading(*old(self)),
                self.level == old(self).level,
                self.tags == old(self).tags,
                self.props@ == sp_pe_props(ov.props),
                forall|j: int| i <= j < n ==> self.items@[j] == old(self).items@[j],
                forall|j: int|
                    0 <= j < i ==> #[trigger] view_heading_item(self.items@[j])
                        == sp_pe_heading_item(ov.items[j]),
            decreases n - i,
        {
            let it = &mut self.items[i];
            it.prune_errors();
            i += 1;
        }
        proof {
            assert(view_heading(*self).items =~= sp_pe_heading(ov).items);
            assert(view_heading(*self) == sp_pe_heading(ov));
        }
    }

    fn prune_contentless(&mut self) {
        let ghost ov = view_heading(*old(self));
        let ghost mapped = ov.items.map_values(|x: HeadingItemV| sp_pc_heading_item(x));
        let ghost pred = |x: HeadingItemV| !sp_cl_heading_item(x);
        let mut old_items: Vec<HeadingItem> = Vec::new();
        core::mem::swap(&mut old_items, &mut self.items);
        let n = old_items.len();
        proof {
            reveal(Seq::filter);
            assert(mapped.subrange(0, 0) =~= Seq::<HeadingItemV>::empty());
            assert(Seq::<HeadingItemV>::empty().filter(pred) =~= Seq::<HeadingItemV>::empty());
            assert(self.items@ =~= Seq::<HeadingItem>::empty());
        }
        let mut i: usize = 0;
        while i < n
            invariant
                0 <= i <= n,
                n == ov.items.len(),
                n == old(self).items@.len(),
                ov == view_heading(*old(self)),
                mapped == ov.items.map_values(|x: HeadingItemV| sp_pc_heading_item(x)),
                self.level == old(self).level,
                self.tags == old(self).tags,
                self.props == old(self).props,
                old_items@ == old(self).items@.subrange(i as int, n as int),
                Seq::new(self.items@.len(), |k: int| view_heading_item(self.items@[k]))
                    == mapped.subrange(0, i as int).filter(
                    |x: HeadingItemV| !sp_cl_heading_item(x),
                ),
            decreases n - i,
        {
            let mut it = old_items.remove(0);
            proof {
                assert(it == old(self).items@[i as int]);
                assert(old_items@ =~= old(self).items@.subrange(i as int + 1, n as int));
                assert(ov.items[i as int] == view_heading_item(old(self).items@[i as int]));
            }
            it.prune_contentless();
            let keep = !it.is_contentless();
            let ghost pre_items = self.items@;
            proof {
                reveal(Seq::filter);
                let pre = mapped.subrange(0, i as int);
                let cur = mapped.subrange(0, i as int + 1);
                assert(cur.drop_last() =~= pre);
                assert(cur.last() == mapped[i as int]);
                assert(mapped[i as int] == sp_pc_heading_item(ov.items[i as int]));
            }
            if keep {
                self.items.push(it);
                proof {
                    assert(Seq::new(self.items@.len(), |k: int| view_heading_item(self.items@[k]))
                        =~= Seq::new(
                        pre_items.len(),
                        |k: int| view_heading_item(pre_items[k]),
                    ).push(view_heading_item(self.items@[pre_items.len() as int])));
                }
            }
            i += 1;
        }
        self.tags.prune_contentless();
        self.props.prune_contentless();
        proof {
            assert(mapped.subrange(0, n as int) =~= mapped);
            assert(view_heading(*self).items =~= sp_pc_heading(ov).items);
            assert(view_heading(*self) == sp_pc_heading(ov));
        }
    }

    fn is_contentless(&self) -> (r: bool) {
        self.items.len() == 0
    }
}

// ---------------------------------------------------------------------------
// Prune: spec transforms for the recursive containers
// ---------------------------------------------------------------------------

/// Whether a paragraph item is a failed code block.
pub open spec fn sp_is_code_err(v: ParagraphItemV) -> bool {
    match v {
        ParagraphItemV::Code(r) => r is Err,
        _ => false,
    }
}

/// Whether a paragraph item carries no content.
pub open spec fn sp_cl_par_item(v: ParagraphItemV) -> bool {
    match v {
        ParagraphItemV::Text(s) => s.len() == 0,
        ParagraphItemV::MText(t) => sp_cl_mtext(t),
        ParagraphItemV::Em(e) => sp_cl_emphasis(e),
        ParagraphItemV::Code(Ok(c)) => sp_cl_code_block(c),
        ParagraphItemV::Code(Err(_)) => true,
        ParagraphItemV::Link(l) => sp_cl_link(l),
        ParagraphItemV::List(l) => l.items.len() == 0,
        ParagraphItemV::Table(t) => t.items.len() == 0,
    }
}

/// Whether a paragraph carries no content: it has no items.
pub open spec fn sp_cl_paragraph(v: ParagraphV) -> bool {
    v.items.len() == 0
}

/// Whether a table row carries no cells.
pub open spec fn sp_cl_table_row(v: TableRowV) -> bool {
    v.items.len() == 0
}

/// What pruning errors from one paragraph item yields.
pub open spec fn sp_pe_par_item(v: ParagraphItemV) -> ParagraphItemV
    decreases v,
{
    match v {
        ParagraphItemV::Text(s) => ParagraphItemV::Text(s),
        ParagraphItemV::MText(t) => ParagraphItemV::MText(sp_pe_mtext(t)),
        ParagraphItemV::Em(e) => ParagraphItemV::Em(sp_pe_emphasis(e)),
        ParagraphItemV::Code(Ok(c)) => ParagraphItemV::Code(Ok(sp_pe_code_block(c))),
        ParagraphItemV::Code(Err(e)) => ParagraphItemV::Code(Err(e)),
        ParagraphItemV::Link(l) => ParagraphItemV::Link(sp_pe_link(l)),
        ParagraphItemV::List(l) => ParagraphItemV::List(sp_pe_list(l)),
        ParagraphItemV::Table(t) => ParagraphItemV::Table(sp_pe_table(t)),
    }
}

/// What pruning errors from a paragraph item sequence yields: each item is
/// pruned and failed code blocks are dropped.
pub open spec fn sp_pe_par_items(s: Seq<ParagraphItemV>) -> Seq<ParagraphItemV>
    decreases s,
{
    if s.len() == 0 {
        Seq::empty()
    } else {
        let rest = sp_pe_par_items(s.drop_last());
        let h = sp_pe_par_item(s[s.len() - 1]);
        if sp_is_code_err(h) {
            rest
        } else {
            rest.push(h)
        }
    }
}

/// What pruning errors from a paragraph yields.
pub open spec fn sp_pe_paragraph(v: ParagraphV) -> ParagraphV
    decreases v,
{
    ParagraphV { items: sp_pe_par_items(v.items), props: sp_pe_props(v.props), ..v }
}

/// What pruning errors from a paragraph sequence yields.
pub open spec fn sp_pe_paragraphs(s: Seq<ParagraphV>) -> Seq<ParagraphV>
    decreases s,
{
    if s.len() == 0 {
        Seq::empty()
    } else {
        sp_pe_paragraphs(s.drop_last()).push(sp_pe_paragraph(s[s.len() - 1]))
    }
}

/// What pruning errors from a list yields.
pub open spec fn sp_pe_list(v: ListV) -> ListV
    decreases v,
{
    ListV { items: sp_pe_paragraphs(v.items), props: sp_pe_props(v.props), ..v }
}

/// What pruning errors from a table row yields.
pub open spec fn sp_pe_table_row(v: TableRowV) -> TableRowV
    decreases v,
{
    TableRowV { items: sp_pe_paragraphs(v.items), props: sp_pe_props(v.props), ..v }
}

/// What pruning errors from a table row sequence yields.
pub open spec fn sp_pe_table_rows(s: Seq<TableRowV>) -> Seq<TableRowV>
    decreases s,
{
    if s.len() == 0 {
        Seq::empty()
    } else {
        sp_pe_table_rows(s.drop_last()).push(sp_pe_table_row(s[s.len() - 1]))
    }
}

/// What pruning errors from a table yields.
pub open spec fn sp_pe_table(v: TableV) -> TableV
    decreases v,
{
    TableV { items: sp_pe_table_rows(v.items), props: sp_pe_props(v.props), ..v }
}

/// What pruning contentless parts of one paragraph item yields.
pub open spec fn sp_pc_par_item(v: ParagraphItemV) -> ParagraphItemV
    decreases v,
{
    match v {
        ParagraphItemV::Text(s) => ParagraphItemV::Text(sp_prune_str(s)),
        ParagraphItemV::MText(t) => ParagraphItemV::MText(sp_pc_mtext(t)),
        ParagraphItemV::Em(e) => ParagraphItemV::Em(sp_pc_emphasis(e)),
        ParagraphItemV::Code(Ok(c)) => ParagraphItemV::Code(Ok(sp_pc_code_block(c))),
        ParagraphItemV::Code(Err(e)) => ParagraphItemV::Code(Err(e)),
        ParagraphItemV::Link(l) => ParagraphItemV::Link(sp_pc_link(l)),
        ParagraphItemV::List(l) => ParagraphItemV::List(sp_pc_list(l)),
        ParagraphItemV::Table(t) => ParagraphItemV::Table(sp_pc_table(t)),
    }
}

/// What pruning contentless parts of a paragraph item sequence yields: each
/// item is pruned and the items then contentless are dropped.
pub open spec fn sp_pc_par_items(s: Seq<ParagraphItemV>) -> Seq<ParagraphItemV>
    decreases s,
{
    if s.len() == 0 {
        Seq::empty()
    } else {
        let rest = sp_pc_par_items(s.drop_last());
        let h = sp_pc_par_item(s[s.len() - 1]);
        if sp_cl_par_item(h) {
            rest
        } else {
            rest.push(h)
        }
    }
}

/// What pruning contentless parts of a paragraph yields.
pub open spec fn sp_pc_paragraph(v: ParagraphV) -> ParagraphV
    decreases v,
{
    ParagraphV {
        items: sp_pc_par_items(v.items),
        tags: sp_pc_tags(v.tags),
        props: sp_pc_props(v.props),
    }
}

/// What pruning contentless parts of a paragraph sequence yields: each
/// paragraph is pruned and the paragraphs then contentless are dropped.
pub open spec fn sp_pc_paragraphs(s: Seq<ParagraphV>) -> Seq<ParagraphV>
    decreases s,
{
    if s.len() == 0 {
        Seq::empty()
    } else {
        let rest = sp_pc_paragraphs(s.drop_last());
        let h = sp_pc_paragraph(s[s.len() - 1]);
        if sp_cl_paragraph(h) {
            rest
        } else {
            rest.push(h)
        }
    }
}

/// What pruning contentless parts of a list yields.
pub open spec fn sp_pc_list(v: ListV) -> ListV
    decreases v,
{
    ListV {
        items: sp_pc_paragraphs(v.items),
        tags: sp_pc_tags(v.tags),
        props: sp_pc_props(v.props),
        ..v
    }
}

/// What pruning contentless parts of a table row yields.
pub open spec fn sp_pc_table_row(v: TableRowV) -> TableRowV
    decreases v,
{
    TableRowV {
        items: sp_pc_paragraphs(v.items),
        tags: sp_pc_tags(v.tags),
        props: sp_pc_props(v.props),
        ..v
    }
}

/// What pruning contentless parts of a table row sequence yields.
pub open spec fn sp_pc_table_rows(s: Seq<TableRowV>) -> Seq<TableRowV>
    decreases s,
{
    if s.len() == 0 {
        Seq::empty()
    } else {
        let rest = sp_pc_table_rows(s.drop_last());
        let h = sp_pc_table_row(s[s.len() - 1]);
        if sp_cl_table_row(h) {
            rest
        } else {
            rest.push(h)
        }
    }
}

/// What pruning contentless parts of a table yields.
pub open spec fn sp_pc_table(v: TableV) -> TableV
    decreases v,
{
    TableV { items: sp_pc_table_rows(v.items), tags: sp_pc_tags(v.tags), props: sp_pc_props(v.props) }
}

/// Whether a navigation node carries no content: no subs and no links.
pub open spec fn sp_cl_nav(v: NavV) -> bool {
    v.subs.len() == 0 && v.links.len() == 0
}

/// What pruning errors from a navigation sequence yields.
pub open spec fn sp_pe_navs(s: Seq<NavV>) -> Seq<NavV>
    decreases s,
{
    if s.len() == 0 {
        Seq::empty()
    } else {
        sp_pe_navs(s.drop_last()).push(sp_pe_nav(s[s.len() - 1]))
    }
}

/// What pruning errors from a navigation node yields.
pub open spec fn sp_pe_nav(v: NavV) -> NavV
    decreases v,
{
    NavV {
        subs: sp_pe_navs(v.subs),
        links: v.links.map_values(|x: LinkV| sp_pe_link(x)),
        props: sp_pe_props(v.props),
        ..v
    }
}

/// What pruning contentless parts of a navigation sequence yields.
pub open spec fn sp_pc_navs(s: Seq<NavV>) -> Seq<NavV>
    decreases s,
{
    if s.len() == 0 {
        Seq::empty()
    } else {
        let rest = sp_pc_navs(s.drop_last());
        let h = sp_pc_nav(s[s.len() - 1]);
        if sp_cl_nav(h) {
            rest
        } else {
            rest.push(h)
        }
    }
}

/// What pruning contentless parts of a navigation node yields.
pub open spec fn sp_pc_nav(v: NavV) -> NavV
    decreases v,
{
    NavV {
        description: sp_prune_str(v.description),
        links: v.links.map_values(|x: LinkV| sp_pc_link(x)).filter(|x: LinkV| !sp_cl_link(x)),
        subs: sp_pc_navs(v.subs),
        tags: sp_pc_tags(v.tags),
        props: sp_pc_props(v.props),
    }
}

/// Whether a section carries no content: an empty heading and no items.
pub open spec fn sp_cl_section(v: SectionV) -> bool {
    sp_cl_heading(v.heading) && v.items.len() == 0
}

/// What pruning errors from one section item yields.
pub open spec fn sp_pe_section_item(v: SectionItemV) -> SectionItemV
    decreases v,
{
    match v {
        SectionItemV::Paragraph(p) => SectionItemV::Paragraph(sp_pe_paragraph(p)),
        SectionItemV::Section(s) => SectionItemV::Section(sp_pe_section(s)),
    }
}

/// What pruning errors from a section item sequence yields.
pub open spec fn sp_pe_section_items(s: Seq<SectionItemV>) -> Seq<SectionItemV>
    decreases s,
{
    if s.len() == 0 {
        Seq::empty()
    } else {
        sp_pe_section_items(s.drop_last()).push(sp_pe_section_item(s[s.len() - 1]))
    }
}

/// What pruning errors from a section yields: its heading, its own
/// properties and every item are pruned.
pub open spec fn sp_pe_section(v: SectionV) -> SectionV
    decreases v,
{
    SectionV {
        heading: sp_pe_heading(v.heading),
        items: sp_pe_section_items(v.items),
        props: sp_pe_props(v.props),
        ..v
    }
}

/// Whether a section item carries no content.
pub open spec fn sp_cl_section_item(v: SectionItemV) -> bool {
    match v {
        SectionItemV::Paragraph(p) => sp_cl_paragraph(p),
        SectionItemV::Section(s) => sp_cl_section(s),
    }
}

/// What pruning contentless parts of one section item yields.
pub open spec fn sp_pc_section_item(v: SectionItemV) -> SectionItemV
    decreases v,
{
    match v {
        SectionItemV::Paragraph(p) => SectionItemV::Paragraph(sp_pc_paragraph(p)),
        SectionItemV::Section(s) => SectionItemV::Section(sp_pc_section(s)),
    }
}

/// What pruning contentless parts of a section item sequence yields.
pub open spec fn sp_pc_section_items(s: Seq<SectionItemV>) -> Seq<SectionItemV>
    decreases s,
{
    if s.len() == 0 {
        Seq::empty()
    } else {
        let rest = sp_pc_section_items(s.drop_last());
        let h = sp_pc_section_item(s[s.len() - 1]);
        if sp_cl_section_item(h) {
            rest
        } else {
            rest.push(h)
        }
    }
}

/// What pruning contentless parts of a section yields.
pub open spec fn sp_pc_section(v: SectionV) -> SectionV
    decreases v,
{
    SectionV {
        heading: sp_pc_heading(v.heading),
        items: sp_pc_section_items(v.items),
        tags: sp_pc_tags(v.tags),
        props: sp_pc_props(v.props),
    }
}

/// Whether a document item carries no content.
pub open spec fn sp_cl_doc_item(v: DocItemV) -> bool {
    match v {
        DocItemV::Nav(n) => sp_cl_nav(n),
        DocItemV::Paragraph(p) => sp_cl_paragraph(p),
        DocItemV::Section(s) => sp_cl_section(s),
    }
}

/// What pruning errors from one document item yields.
pub open spec fn sp_pe_doc_item(v: DocItemV) -> DocItemV
    decreases v,
{
    match v {
        DocItemV::Nav(n) => DocItemV::Nav(sp_pe_nav(n)),
        DocItemV::Paragraph(p) => DocItemV::Paragraph(sp_pe_paragraph(p)),
        DocItemV::Section(s) => DocItemV::Section(sp_pe_section(s)),
    }
}

/// What pruning errors from a document item sequence yields.
pub open spec fn sp_pe_doc_items(s: Seq<DocItemV>) -> Seq<DocItemV>
    decreases s,
{
    if s.len() == 0 {
        Seq::empty()
    } else {
        sp_pe_doc_items(s.drop_last()).push(sp_pe_doc_item(s[s.len() - 1]))
    }
}

/// What pruning contentless parts of one document item yields.
pub open spec fn sp_pc_doc_item(v: DocItemV) -> DocItemV
    decreases v,
{
    match v {
        DocItemV::Nav(n) => DocItemV::Nav(sp_pc_nav(n)),
        DocItemV::Paragraph(p) => DocItemV::Paragraph(sp_pc_paragraph(p)),
        DocItemV::Section(s) => DocItemV::Section(sp_pc_section(s)),
    }
}

/// What pruning contentless parts of a document item sequence yields.
pub open spec fn sp_pc_doc_items(s: Seq<DocItemV>) -> Seq<DocItemV>
    decreases s,
{
    if s.len() == 0 {
        Seq::empty()
    } else {
        let rest = sp_pc_doc_items(s.drop_last());
        let h = sp_pc_doc_item(s[s.len() - 1]);
        if sp_cl_doc_item(h) {
            rest
        } else {
            rest.push(h)
        }
    }
}

/// What pruning errors from a whole document yields.
pub open spec fn sp_pe_doc(v: DocV) -> DocV {
    DocV { items: sp_pe_doc_items(v.items), props: sp_pe_props(v.props), ..v }
}

/// What pruning contentless parts of a whole document yields.
pub open spec fn sp_pc_doc(v: DocV) -> DocV {
    DocV { tags: sp_pc_tags(v.tags), props: sp_pc_props(v.props), items: sp_pc_doc_items(v.items) }
}

/// Whether a document carries no content: it has no items.
pub open spec fn sp_cl_doc(v: DocV) -> bool {
    v.items.len() == 0
}

} // verus!

verus! {

impl PruneIncodoc for ParagraphItem {
    open spec fn sp_prune_errors(v: ParagraphItemV) -> ParagraphItemV {
        sp_pe_par_item(v)
    }

    open spec fn sp_prune_contentless(v: ParagraphItemV) -> ParagraphItemV {
        sp_pc_par_item(v)
    }

    open spec fn sp_is_contentless(v: ParagraphItemV) -> bool {
        sp_cl_par_item(v)
    }

    fn prune_errors(&mut self)
        decreases *old(self),
    {
        match self {
            ParagraphItem::MText(t) => t.prune_errors(),
            ParagraphItem::Em(e) => e.prune_errors(),
            ParagraphItem::Code(Ok(c)) => c.prune_errors(),
            ParagraphItem::Link(l) => l.prune_errors(),
            ParagraphItem::List(l) => l.prune_errors(),
            ParagraphItem::Table(t) => t.prune_errors(),
            _ => {},
        }
    }

    fn prune_contentless(&mut self)
        decreases *old(self),
    {
        match self {
            ParagraphItem::Text(s) => s.prune_contentless(),
            ParagraphItem::MText(t) => t.prune_contentless(),
            ParagraphItem::Em(e) => e.prune_contentless(),
            ParagraphItem::Code(Ok(c)) => c.prune_contentless(),
            ParagraphItem::Code(Err(_)) => {},
            ParagraphItem::Link(l) => l.prune_contentless(),
            ParagraphItem::List(l) => l.prune_contentless(),
            ParagraphItem::Table(t) => t.prune_contentless(),
        }
    }

    fn is_contentless(&self) -> (r: bool) {
        match self {
            ParagraphItem::Text(s) => s.unicode_len() == 0,
            ParagraphItem::MText(t) => t.is_contentless(),
            ParagraphItem::Em(e) => e.is_contentless(),
            ParagraphItem::Code(Ok(c)) => c.is_contentless(),
            ParagraphItem::Code(Err(_)) => true,
            ParagraphItem::Link(l) => l.is_contentless(),
            ParagraphItem::List(l) => l.items.len() == 0,
            ParagraphItem::Table(t) => t.items.len() == 0,
        }
    }
}

impl PruneIncodoc for Paragraph {
    open spec fn sp_prune_errors(v: ParagraphV) -> ParagraphV {
        sp_pe_paragraph(v)
    }

    open spec fn sp_prune_contentless(v: ParagraphV) -> ParagraphV {
        sp_pc_paragraph(v)
    }

    open spec fn sp_is_contentless(v: ParagraphV) -> bool {
        sp_cl_paragraph(v)
    }

    fn prune_errors(&mut self)
        decreases *old(self),
    {
        self.props.prune_errors();
        let ghost ov = view_paragraph(*old(self));
        let mut old_items: Vec<ParagraphItem> = Vec::new();
        core::mem::swap(&mut old_items, &mut self.items);
        let n = old_items.len();
        proof {
            crate::lemma_view_par_items(old(self).items@);
            assert(sp_pe_par_items(ov.items.subrange(0, 0)) =~= Seq::<ParagraphItemV>::empty());
            assert(ov.items.subrange(0, 0) =~= Seq::<ParagraphItemV>::empty());
            assert(self.items@ =~= Seq::<ParagraphItem>::empty());
        }
        let mut i: usize = 0;
        while i < n
            invariant
                0 <= i <= n,
                n == ov.items.len(),
                n == old(self).items@.len(),
                ov == view_paragraph(*old(self)),
                self.tags == old(self).tags,
                self.props@ == sp_pe_props(ov.props),
                old_items@ == old(self).items@.subrange(i as int, n as int),
                Seq::new(self.items@.len(), |k: int| view_par_item(self.items@[k]))
                    == sp_pe_par_items(ov.items.subrange(0, i as int)),
            decreases n - i,
        {
            let mut it = old_items.remove(0);
            proof {
                assert(it == old(self).items@[i as int]);
                assert(old_items@ =~= old(self).items@.subrange(i as int + 1, n as int));
                crate::lemma_view_par_items(old(self).items@);
                assert(ov.items[i as int] == view_par_item(old(self).items@[i as int]));
                let os = *old(self);
                assert(decreases_to!(os => os.items));
                assert(decreases_to!(os.items => os.items[i as int]));
            }
            it.prune_errors();
            let keep = !matches!(it, ParagraphItem::Code(Err(_)));
            let ghost pre_items = self.items@;
            proof {
                let pre = ov.items.subrange(0, i as int);
                let cur = ov.items.subrange(0, i as int + 1);
                assert(cur.drop_last() =~= pre);
                assert(cur[cur.len() - 1] == ov.items[i as int]);
            }
            if keep {
                self.items.push(it);
                proof {
                    assert(Seq::new(self.items@.len(), |k: int| view_par_item(self.items@[k]))
                        =~= Seq::new(pre_items.len(), |k: int| view_par_item(pre_items[k])).push(
                        view_par_item(self.items@[pre_items.len() as int]),
                    ));
                }
            }
            i += 1;
        }
        proof {
            assert(ov.items.subrange(0, n as int) =~= ov.items);
            crate::lemma_view_par_items(self.items@);
            crate::lemma_view_par_items(old(self).items@);
            assert(view_paragraph(*self).items =~= sp_pe_paragraph(ov).items);
            assert(view_paragraph(*self) == sp_pe_paragraph(ov));
        }
    }

    fn prune_contentless(&mut self)
        decreases *old(self),
    {
        let ghost ov = view_paragraph(*old(self));
        let mut old_items: Vec<ParagraphItem> = Vec::new();
        core::mem::swap(&mut old_items, &mut self.items);
        let n = old_items.len();
        proof {
            crate::lemma_view_par_items(old(self).items@);
            assert(sp_pc_par_items(ov.items.subrange(0, 0)) =~= Seq::<ParagraphItemV>::empty());
            assert(ov.items.subrange(0, 0) =~= Seq::<ParagraphItemV>::empty());
            assert(self.items@ =~= Seq::<ParagraphItem>::empty());
        }
        let mut i: usize = 0;
        while i < n
            invariant
                0 <= i <= n,
                n == ov.items.len(),
                n == old(self).items@.len(),
                ov == view_paragraph(*old(self)),
                self.tags == old(self).tags,
                self.props == old(self).props,
                old_items@ == old(self).items@.subrange(i as int, n as int),
                Seq::new(self.items@.len(), |k: int| view_par_item(self.items@[k]))
                    == sp_pc_par_items(ov.items.subrange(0, i as int)),
            decreases n - i,
        {
            let mut it = old_items.remove(0);
            proof {
                assert(it == old(self).items@[i as int]);
                assert(old_items@ =~= old(self).items@.subrange(i as int + 1, n as int));
                crate::lemma_view_par_items(old(self).items@);
                assert(ov.items[i as int] == view_par_item(old(self).items@[i as int]));
                let os = *old(self);
                assert(decreases_to!(os => os.items));
                assert(decreases_to!(os.items => os.items[i as int]));
            }
            it.prune_contentless();
            let keep = !it.is_contentless();
            let ghost pre_items = self.items@;
            proof {
                let pre = ov.items.subrange(0, i as int);
                let cur = ov.items.subrange(0, i as int + 1);
                assert(cur.drop_last() =~= pre);
                assert(cur[cur.len() - 1] == ov.items[i as int]);
            }
            if keep {
                self.items.push(it);
                proof {
                    assert(Seq::new(self.items@.len(), |k: int| view_par_item(self.items@[k]))
                        =~= Seq::new(pre_items.len(), |k: int| view_par_item(pre_items[k])).push(
                        view_par_item(self.items@[pre_items.len() as int]),
                    ));
                }
            }
            i += 1;
        }
        self.tags.prune_contentless();
        self.props.prune_contentless();
        proof {
            assert(ov.items.subrange(0, n as int) =~= ov.items);
            crate::lemma_view_par_items(self.items@);
            crate::lemma_view_par_items(old(self).items@);
            assert(view_paragraph(*self).items =~= sp_pc_paragraph(ov).items);
            assert(view_paragraph(*self) == sp_pc_paragraph(ov));
        }
    }

    fn is_contentless(&self) -> (r: bool) {
        self.items.len() == 0
    }
}

} // verus!

verus! {

impl PruneIncodoc for List {
    open spec fn sp_prune_errors(v: ListV) -> ListV {
        sp_pe_list(v)
    }

    open spec fn sp_prune_contentless(v: ListV) -> ListV {
        sp_pc_list(v)
    }

    open spec fn sp_is_contentless(v: ListV) -> bool {
        v.items.len() == 0
    }

    fn prune_errors(&mut self)
        decreases *old(self),
    {
        self.props.prune_errors();
        let ghost ov = view_list(*old(self));
        proof {
            crate::lemma_view_paragraphs(old(self).items@);
        }
        let n = self.items.len();
        let mut i: usize = 0;
        while i < n
            invariant
                0 <= i <= n,
                n == self.items@.len(),
                n == ov.items.len(),
                ov == view_list(*old(self)),
                self.ltype == old(self).ltype,
                self.tags == old(self).tags,
                self.props@ == sp_pe_props(ov.props),
                forall|j: int| i <= j < n ==> self.items@[j] == old(self).items@[j],
                forall|j: int|
                    0 <= j < i ==> #[trigger] view_paragraph(self.items@[j]) == sp_pe_paragraph(
                        ov.items[j],
                    ),
            decreases n - i,
        {
            proof {
                crate::lemma_view_paragraphs(old(self).items@);
                assert(ov.items[i as int] == view_paragraph(old(self).items@[i as int]));
                let os = *old(self);
                assert(decreases_to!(os => os.items));
                assert(decreases_to!(os.items => os.items[i as int]));
            }
            let it = &mut self.items[i];
            it.prune_errors();
            i += 1;
        }
        proof {
            lemma_sp_pe_paragraphs_elementwise(ov.items);
            crate::lemma_view_paragraphs(self.items@);
            crate::lemma_view_paragraphs(old(self).items@);
            assert(view_list(*self).items =~= sp_pe_list(ov).items);
            assert(view_list(*self) == sp_pe_list(ov));
        }
    }

    fn prune_contentless(&mut self)
        decreases *old(self),
    {
        let ghost ov = view_list(*old(self));
        let mut old_items: Vec<Paragraph> = Vec::new();
        core::mem::swap(&mut old_items, &mut self.items);
        let n = old_items.len();
        proof {
            crate::lemma_view_paragraphs(old(self).items@);
            assert(sp_pc_paragraphs(ov.items.subrange(0, 0)) =~= Seq::<ParagraphV>::empty());
            assert(ov.items.subrange(0, 0) =~= Seq::<ParagraphV>::empty());
            assert(self.items@ =~= Seq::<Paragraph>::empty());
        }
        let mut i: usize = 0;
        while i < n
            invariant
                0 <= i <= n,
                n == ov.items.len(),
                n == old(self).items@.len(),
                ov == view_list(*old(self)),
                self.ltype == old(self).ltype,
                self.tags == old(self).tags,
                self.props == old(self).props,
                old_items@ == old(self).items@.subrange(i as int, n as int),
                Seq::new(self.items@.len(), |k: int| view_paragraph(self.items@[k]))
                    == sp_pc_paragraphs(ov.items.subrange(0, i as int)),
            decreases n - i,
        {
            let mut it = old_items.remove(0);
            proof {
                assert(it == old(self).items@[i as int]);
                assert(old_items@ =~= old(self).items@.subrange(i as int + 1, n as int));
                crate::lemma_view_paragraphs(old(self).items@);
                assert(ov.items[i as int] == view_paragraph(old(self).items@[i as int]));
                let os = *old(self);
                assert(decreases_to!(os => os.items));
                assert(decreases_to!(os.items => os.items[i as int]));
            }
            it.prune_contentless();
            let keep = !it.is_contentless();
            let ghost pre_items = self.items@;
            proof {
                let pre = ov.items.subrange(0, i as int);
                let cur = ov.items.subrange(0, i as int + 1);
                assert(cur.drop_last() =~= pre);
                assert(cur[cur.len() - 1] == ov.items[i as int]);
            }
            if keep {
                self.items.push(it);
                proof {
                    assert(Seq::new(self.items@.len(), |k: int| view_paragraph(self.items@[k]))
                        =~= Seq::new(pre_items.len(), |k: int| view_paragraph(pre_items[k])).push(
                        view_paragraph(self.items@[pre_items.len() as int]),
                    ));
                }
            }
            i += 1;
        }
        self.tags.prune_contentless();
        self.props.prune_contentless();
        proof {
            assert(ov.items.subrange(0, n as int) =~= ov.items);
            crate::lemma_view_paragraphs(self.items@);
            crate::lemma_view_paragraphs(old(self).items@);
            assert(view_list(*self).items =~= sp_pc_list(ov).items);
            assert(view_list(*self) == sp_pc_list(ov));
        }
    }

    fn is_contentless(&self) -> (r: bool) {
        self.items.len() == 0
    }
}

/// Reads the error pruning of a paragraph sequence element by element.
proof fn lemma_sp_pe_paragraphs_elementwise(s: Seq<ParagraphV>)
    ensures
        sp_pe_paragraphs(s).len() == s.len(),
        forall|i: int|
            0 <= i < s.len() ==> #[trigger] sp_pe_paragraphs(s)[i] == sp_pe_paragraph(s[i]),
    decreases s,
{
    if s.len() > 0 {
        lemma_sp_pe_paragraphs_elementwise(s.drop_last());
    }
}

impl PruneIncodoc for TableRow {
    open spec fn sp_prune_errors(v: TableRowV) -> TableRowV {
        sp_pe_table_row(v)
    }

    open spec fn sp_prune_contentless(v: TableRowV) -> TableRowV {
        sp_pc_table_row(v)
    }

    open spec fn sp_is_contentless(v: TableRowV) -> bool {
        sp_cl_table_row(v)
    }

    fn prune_errors(&mut self)
        decreases *old(self),
    {
        self.props.prune_errors();
        let ghost ov = view_table_row(*old(self));
        proof {
            crate::lemma_view_paragraphs(old(self).items@);
        }
        let n = self.items.len();
        let mut i: usize = 0;
        while i < n
            invariant
                0 <= i <= n,
                n == self.items@.len(),
                n == ov.items.len(),
                ov == view_table_row(*old(self)),
                self.is_header == old(self).is_header,
                self.tags == old(self).tags,
                self.props@ == sp_pe_props(ov.props),
                forall|j: int| i <= j < n ==> self.items@[j] == old(self).items@[j],
                forall|j: int|
                    0 <= j < i ==> #[trigger] view_paragraph(self.items@[j]) == sp_pe_paragraph(
                        ov.items[j],
                    ),
            decreases n - i,
        {
            proof {
                crate::lemma_view_paragraphs(old(self).items@);
                assert(ov.items[i as int] == view_paragraph(old(self).items@[i as int]));
                let os = *old(self);
                assert(decreases_to!(os => os.items));
                assert(decreases_to!(os.items => os.items[i as int]));
            }
            let it = &mut self.items[i];
            it.prune_errors();
            i += 1;
        }
        proof {
            lemma_sp_pe_paragraphs_elementwise(ov.items);
            crate::lemma_view_paragraphs(self.items@);
            crate::lemma_view_paragraphs(old(self).items@);
            assert(view_table_row(*self).items =~= sp_pe_table_row(ov).items);
            assert(view_table_row(*self) == sp_pe_table_row(ov));
        }
    }

    fn prune_contentless(&mut self)
        decreases *old(self),
    {
        let ghost ov = view_table_row(*old(self));
        let mut old_items: Vec<Paragraph> = Vec::new();
        core::mem::swap(&mut old_items, &mut self.items);
        let n = old_items.len();
        proof {
            crate::lemma_view_paragraphs(old(self).items@);
            assert(sp_pc_paragraphs(ov.items.subrange(0, 0)) =~= Seq::<ParagraphV>::empty());
            assert(ov.items.subrange(0, 0) =~= Seq::<ParagraphV>::empty());
            assert(self.items@ =~= Seq::<Paragraph>::empty());
        }
        let mut i: usize = 0;
        while i < n
            invariant
                0 <= i <= n,
                n == ov.items.len(),
                n == old(self).items@.len(),
                ov == view_table_row(*old(self)),
                self.is_header == old(self).is_header,
                self.tags == old(self).tags,
                self.props == old(self).props,
                old_items@ == old(self).items@.subrange(i as int, n as int),
                Seq::new(self.items@.len(), |k: int| view_paragraph(self.items@[k]))
                    == sp_pc_paragraphs(ov.items.subrange(0, i as int)),
            decreases n - i,
        {
            let mut it = old_items.remove(0);
            proof {
                assert(it == old(self).items@[i as int]);
                assert(old_items@ =~= old(self).items@.subrange(i as int + 1, n as int));
                crate::lemma_view_paragraphs(old(self).items@);
                assert(ov.items[i as int] == view_paragraph(old(self).items@[i as int]));
                let os = *old(self);
                assert(decreases_to!(os => os.items));
                assert(decreases_to!(os.items => os.items[i as int]));
            }
            it.prune_contentless();
            let keep = !it.is_contentless();
            let ghost pre_items = self.items@;
            proof {
                let pre = ov.items.subrange(0, i as int);
                let cur = ov.items.subrange(0, i as int + 1);
                assert(cur.drop_last() =~= pre);
                assert(cur[cur.len() - 1] == ov.items[i as int]);
            }
            if keep {
                self.items.push(it);
                proof {
                    assert(Seq::new(self.items@.len(), |k: int| view_paragraph(self.items@[k]))
                        =~= Seq::new(pre_items.len(), |k: int| view_paragraph(pre_items[k])).push(
                        view_paragraph(self.items@[pre_items.len() as int]),
                    ));
                }
            }
            i += 1;
        }
        self.tags.prune_contentless();
        self.props.prune_contentless();
        proof {
            assert(ov.items.subrange(0, n as int) =~= ov.items);
            crate::lemma_view_paragraphs(self.items@);
            crate::lemma_view_paragraphs(old(self).items@);
            assert(view_table_row(*self).items =~= sp_pc_table_row(ov).items);
            assert(view_table_row(*self) == sp_pc_table_row(ov));
        }
    }

    fn is_contentless(&self) -> (r: bool) {
        self.items.len() == 0
    }
}

/// Reads the error pruning of a table row sequence element by element.
proof fn lemma_sp_pe_table_rows_elementwise(s: Seq<TableRowV>)
    ensures
        sp_pe_table_rows(s).len() == s.len(),
        forall|i: int|
            0 <= i < s.len() ==> #[trigger] sp_pe_table_rows(s)[i] == sp_pe_table_row(s[i]),
    decreases s,
{
    if s.len() > 0 {
        lemma_sp_pe_table_rows_elementwise(s.drop_last());
    }
}

impl PruneIncodoc for Table {
    open spec fn sp_prune_errors(v: TableV) -> TableV {
        sp_pe_table(v)
    }

    open spec fn sp_prune_contentless(v: TableV) -> TableV {
        sp_pc_table(v)
    }

    open spec fn sp_is_contentless(v: TableV) -> bool {
        v.items.len() == 0
    }

    fn prune_errors(&mut self)
        decreases *old(self),
    {
        self.props.prune_errors();
        let ghost ov = view_table(*old(self));
        proof {
            crate::lemma_view_table_rows(old(self).items@);
        }
        let n = self.items.len();
        let mut i: usize = 0;
        while i < n
            invariant
                0 <= i <= n,
                n == self.items@.len(),
                n == ov.items.len(),
                ov == view_table(*old(self)),
                self.tags == old(self).tags,
                self.props@ == sp_pe_props(ov.props),
                forall|j: int| i <= j < n ==> self.items@[j] == old(self).items@[j],
                forall|j: int|
                    0 <= j < i ==> #[trigger] view_table_row(self.items@[j]) == sp_pe_table_row(
                        ov.items[j],
                    ),
            decreases n - i,
        {
            proof {
                crate::lemma_view_table_rows(old(self).items@);
                assert(ov.items[i as int] == view_table_row(old(self).items@[i as int]));
                let os = *old(self);
                assert(decreases_to!(os => os.items));
                assert(decreases_to!(os.items => os.items[i as int]));
            }
            let it = &mut self.items[i];
            it.prune_errors();
            i += 1;
        }
        proof {
            lemma_sp_pe_table_rows_elementwise(ov.items);
            crate::lemma_view_table_rows(self.items@);
            crate::lemma_view_table_rows(old(self).items@);
            assert(view_table(*self).items =~= sp_pe_table(ov).items);
            assert(view_table(*self) == sp_pe_table(ov));
        }
    }

    fn prune_contentless(&mut self)
        decreases *old(self),
    {
        let ghost ov = view_table(*old(self));
        let mut old_items: Vec<TableRow> = Vec::new();
        core::mem::swap(&mut old_items, &mut self.items);
        let n = old_items.len();
        proof {
            crate::lemma_view_table_rows(old(self).items@);
            assert(sp_pc_table_rows(ov.items.subrange(0, 0)) =~= Seq::<TableRowV>::empty());
            assert(ov.items.subrange(0, 0) =~= Seq::<TableRowV>::empty());
            assert(self.items@ =~= Seq::<TableRow>::empty());
        }
        let mut i: usize = 0;
        while i < n
            invariant
                0 <= i <= n,
                n == ov.items.len(),
                n == old(self).items@.len(),
                ov == view_table(*old(self)),
                self.tags == old(self).tags,
                self.props == old(self).props,
                old_items@ == old(self).items@.subrange(i as int, n as int),
                Seq::new(self.items@.len(), |k: int| view_table_row(self.items@[k]))
                    == sp_pc_table_rows(ov.items.subrange(0, i as int)),
            decreases n - i,
        {
            let mut it = old_items.remove(0);
            proof {
                assert(it == old(self).items@[i as int]);
                assert(old_items@ =~= old(self).items@.subrange(i as int + 1, n as int));
                crate::lemma_view_table_rows(old(self).items@);
                assert(ov.items[i as int] == view_table_row(old(self).items@[i as int]));
                let os = *old(self);
                assert(decreases_to!(os => os.items));
                assert(decreases_to!(os.items => os.items[i as int]));
            }
            it.prune_contentless();
            let keep = !it.is_contentless();
            let ghost pre_items = self.items@;
            proof {
                let pre = ov.items.subrange(0, i as int);
                let cur = ov.items.subrange(0, i as int + 1);
                assert(cur.drop_last() =~= pre);
                assert(cur[cur.len() - 1] == ov.items[i as int]);
            }
            if keep {
                self.items.push(it);
                proof {
                    assert(Seq::new(self.items@.len(), |k: int| view_table_row(self.items@[k]))
                        =~= Seq::new(pre_items.len(), |k: int| view_table_row(pre_items[k])).push(
                        view_table_row(self.items@[pre_items.len() as int]),
                    ));
                }
            }
            i += 1;
        }
        self.tags.prune_contentless();
        self.props.prune_contentless();
        proof {
            assert(ov.items.subrange(0, n as int) =~= ov.items);
            crate::lemma_view_table_rows(self.items@);
            crate::lemma_view_table_rows(old(self).items@);
            assert(view_table(*self).items =~= sp_pc_table(ov).items);
            assert(view_table(*self) == sp_pc_table(ov));
        }
    }

    fn is_contentless(&self) -> (r: bool) {
        self.items.len() == 0
    }
}

} // verus!

verus! {

impl PruneIncodoc for Nav {
    open spec fn sp_prune_errors(v: NavV) -> NavV {
        sp_pe_nav(v)
    }

    open spec fn sp_prune_contentless(v: NavV) -> NavV {
        sp_pc_nav(v)
    }

    open spec fn sp_is_contentless(v: NavV) -> bool {
        sp_cl_nav(v)
    }

    fn prune_errors(&mut self)
        decreases *old(self),
    {
        self.props.prune_errors();
        let ghost ov = view_nav(*old(self));
        proof {
            crate::lemma_view_navs(old(self).subs@);
        }
        let n = self.links.len();
        let mut i: usize = 0;
        while i < n
            invariant
                0 <= i <= n,
                n == self.links@.len(),
                n == ov.links.len(),
                ov == view_nav(*old(self)),
                self.description == old(self).description,
                self.subs == old(self).subs,
                self.tags == old(self).tags,
                self.props@ == sp_pe_props(ov.props),
                forall|j: int| i <= j < n ==> self.links@[j] == old(self).links@[j],
                forall|j: int|
                    0 <= j < i ==> #[trigger] view_link(self.links@[j]) == sp_pe_link(ov.links[j]),
            decreases n - i,
        {
            proof {
                assert(ov.links[i as int] == view_link(old(self).links@[i as int]));
            }
            let it = &mut self.links[i];
            it.prune_errors();
            i += 1;
        }
        let m = self.subs.len();
        let mut k: usize = 0;
        while k < m
            invariant
                0 <= k <= m,
                m == self.subs@.len(),
                m == ov.subs.len(),
                ov == view_nav(*old(self)),
                self.description == old(self).description,
                self.tags == old(self).tags,
                self.props@ == sp_pe_props(ov.props),
                forall|j: int|
                    0 <= j < n ==> #[trigger] view_link(self.links@[j]) == sp_pe_link(ov.links[j]),
                n == self.links@.len(),
                n == ov.links.len(),
                forall|j: int| k <= j < m ==> self.subs@[j] == old(self).subs@[j],
                forall|j: int|
                    0 <= j < k ==> #[trigger] view_nav(self.subs@[j]) == sp_pe_nav(ov.subs[j]),
            decreases m - k,
        {
            proof {
                crate::lemma_view_navs(old(self).subs@);
                assert(ov.subs[k as int] == view_nav(old(self).subs@[k as int]));
                let os = *old(self);
                assert(decreases_to!(os => os.subs));
                assert(decreases_to!(os.subs => os.subs[k as int]));
            }
            let it = &mut self.subs[k];
            it.prune_errors();
            k += 1;
        }
        proof {
            crate::lemma_view_navs(self.subs@);
            crate::lemma_view_navs(old(self).subs@);
            lemma_sp_pe_navs_elementwise(ov.subs);
            assert(view_nav(*self).subs =~= sp_pe_nav(ov).subs);
            assert(view_nav(*self).links =~= sp_pe_nav(ov).links);
            assert(view_nav(*self) == sp_pe_nav(ov));
        }
    }

    fn prune_contentless(&mut self)
        decreases *old(self),
    {
        self.description.prune_contentless();
        let ghost ov = view_nav(*old(self));
        let ghost lmapped = ov.links.map_values(|x: LinkV| sp_pc_link(x));
        let ghost lpred = |x: LinkV| !sp_cl_link(x);
        let mut old_links: Vec<Link> = Vec::new();
        core::mem::swap(&mut old_links, &mut self.links);
        let n = old_links.len();
        proof {
            reveal(Seq::filter);
            assert(lmapped.subrange(0, 0) =~= Seq::<LinkV>::empty());
            assert(Seq::<LinkV>::empty().filter(lpred) =~= Seq::<LinkV>::empty());
            assert(self.links@ =~= Seq::<Link>::empty());
        }
        let mut i: usize = 0;
        while i < n
            invariant
                0 <= i <= n,
                n == ov.links.len(),
                n == old(self).links@.len(),
                ov == view_nav(*old(self)),
                lmapped == ov.links.map_values(|x: LinkV| sp_pc_link(x)),
                self.description@ == sp_prune_str(ov.description),
                self.subs == old(self).subs,
                self.tags == old(self).tags,
                self.props == old(self).props,
                old_links@ == old(self).links@.subrange(i as int, n as int),
                Seq::new(self.links@.len(), |j: int| view_link(self.links@[j]))
                    == lmapped.subrange(0, i as int).filter(|x: LinkV| !sp_cl_link(x)),
            decreases n - i,
        {
            let mut it = old_links.remove(0);
            proof {
                assert(it == old(self).links@[i as int]);
                assert(old_links@ =~= old(self).links@.subrange(i as int + 1, n as int));
                assert(ov.links[i as int] == view_link(old(self).links@[i as int]));
            }
            it.prune_contentless();
            let keep = !it.is_contentless();
            let ghost pre_links = self.links@;
            proof {
                reveal(Seq::filter);
                let pre = lmapped.subrange(0, i as int);
                let cur = lmapped.subrange(0, i as int + 1);
                assert(cur.drop_last() =~= pre);
                assert(cur.last() == lmapped[i as int]);
                assert(lmapped[i as int] == sp_pc_link(ov.links[i as int]));
            }
            if keep {
                self.links.push(it);
                proof {
                    assert(Seq::new(self.links@.len(), |j: int| view_link(self.links@[j]))
                        =~= Seq::new(pre_links.len(), |j: int| view_link(pre_links[j])).push(
                        view_link(self.links@[pre_links.len() as int]),
                    ));
                }
            }
            i += 1;
        }
        proof {
            assert(lmapped.subrange(0, n as int) =~= lmapped);
        }
        let mut old_subs: Vec<Nav> = Vec::new();
        core::mem::swap(&mut old_subs, &mut self.subs);
        let m = old_subs.len();
        proof {
            crate::lemma_view_navs(old(self).subs@);
            assert(sp_pc_navs(ov.subs.subrange(0, 0)) =~= Seq::<NavV>::empty());
            assert(ov.subs.subrange(0, 0) =~= Seq::<NavV>::empty());
            assert(self.subs@ =~= Seq::<Nav>::empty());
        }
        let mut k: usize = 0;
        while k < m
            invariant
                0 <= k <= m,
                m == ov.subs.len(),
                m == old(self).subs@.len(),
                ov == view_nav(*old(self)),
                self.description@ == sp_prune_str(ov.description),
                self.tags == old(self).tags,
                self.props == old(self).props,
                Seq::new(self.links@.len(), |j: int| view_link(self.links@[j]))
                    == ov.links.map_values(|x: LinkV| sp_pc_link(x)).filter(
                    |x: LinkV| !sp_cl_link(x),
                ),
                old_subs@ == old(self).subs@.subrange(k as int, m as int),
                Seq::new(self.subs@.len(), |j: int| view_nav(self.subs@[j])) == sp_pc_navs(
                    ov.subs.subrange(0, k as int),
                ),
            decreases m - k,
        {
            let mut it = old_subs.remove(0);
            proof {
                crate::lemma_view_navs(old(self).subs@);
                assert(it == old(self).subs@[k as int]);
                assert(old_subs@ =~= old(self).subs@.subrange(k as int + 1, m as int));
                assert(ov.subs[k as int] == view_nav(old(self).subs@[k as int]));
                let os = *old(self);
                assert(decreases_to!(os => os.subs));
                assert(decreases_to!(os.subs => os.subs[k as int]));
            }
            it.prune_contentless();
            let keep = !it.is_contentless();
            let ghost pre_subs = self.subs@;
            proof {
                let pre = ov.subs.subrange(0, k as int);
                let cur = ov.subs.subrange(0, k as int + 1);
                assert(cur.drop_last() =~= pre);
                assert(cur[cur.len() - 1] == ov.subs[k as int]);
            }
            if keep {
                self.subs.push(it);
                proof {
                    assert(Seq::new(self.subs@.len(), |j: int| view_nav(self.subs@[j]))
                        =~= Seq::new(pre_subs.len(), |j: int| view_nav(pre_subs[j])).push(
                        view_nav(self.subs@[pre_subs.len() as int]),
                    ));
                }
            }
            k += 1;
        }
        self.tags.prune_contentless();
        self.props.prune_contentless();
        proof {
            crate::lemma_view_navs(self.subs@);
            assert(ov.subs.subrange(0, m as int) =~= ov.subs);
            assert(view_nav(*self).subs =~= sp_pc_nav(ov).subs);
            assert(view_nav(*self).links =~= sp_pc_nav(ov).links);
            assert(view_nav(*self) == sp_pc_nav(ov));
        }
    }

    fn is_contentless(&self) -> (r: bool) {
        self.subs.len() == 0 && self.links.len() == 0
    }
}

/// Reads the error pruning of a navigation sequence element by element.
proof fn lemma_sp_pe_navs_elementwise(s: Seq<NavV>)
    ensures
        sp_pe_navs(s).len() == s.len(),
        forall|i: int| 0 <= i < s.len() ==> #[trigger] sp_pe_navs(s)[i] == sp_pe_nav(s[i]),
    decreases s,
{
    if s.len() > 0 {
        lemma_sp_pe_navs_elementwise(s.drop_last());
    }
}

impl PruneIncodoc for SectionItem {
    open spec fn sp_prune_errors(v: SectionItemV) -> SectionItemV {
        sp_pe_section_item(v)
    }

    open spec fn sp_prune_contentless(v: SectionItemV) -> SectionItemV {
        sp_pc_section_item(v)
    }

    open spec fn sp_is_contentless(v: SectionItemV) -> bool {
        sp_cl_section_item(v)
    }

    fn prune_errors(&mut self)
        decreases *old(self),
    {
        match self {
            SectionItem::Paragraph(par) => par.prune_errors(),
            SectionItem::Section(section) => section.prune_errors(),
        }
    }

    fn prune_contentless(&mut self)
        decreases *old(self),
    {
        match self {
            SectionItem::Paragraph(par) => par.prune_contentless(),
            SectionItem::Section(section) => section.prune_contentless(),
        }
    }

    fn is_contentless(&self) -> (r: bool) {
        match self {
            SectionItem::Paragraph(par) => par.is_contentless(),
            SectionItem::Section(section) => section.is_contentless(),
        }
    }
}

impl PruneIncodoc for Section {
    open spec fn sp_prune_errors(v: SectionV) -> SectionV {
        sp_pe_section(v)
    }

    open spec fn sp_prune_contentless(v: SectionV) -> SectionV {
        sp_pc_section(v)
    }

    open spec fn sp_is_contentless(v: SectionV) -> bool {
        sp_cl_section(v)
    }

    fn prune_errors(&mut self)
        decreases *old(self),
    {
        self.heading.prune_errors();
        self.props.prune_errors();
        let ghost ov = view_section(*old(self));
        proof {
            crate::lemma_view_section_items(old(self).items@);
        }
        let n = self.items.len();
        let mut i: usize = 0;
        while i < n
            invariant
                0 <= i <= n,
                n == self.items@.len(),
                n == ov.items.len(),
                ov == view_section(*old(self)),
                self.heading@ == sp_pe_heading(ov.heading),
                self.tags == old(self).tags,
                self.props@ == sp_pe_props(ov.props),
                forall|j: int| i <= j < n ==> self.items@[j] == old(self).items@[j],
                forall|j: int|
                    0 <= j < i ==> #[trigger] view_section_item(self.items@[j])
                        == sp_pe_section_item(ov.items[j]),
            decreases n - i,
        {
            proof {
                crate::lemma_view_section_items(old(self).items@);
                assert(ov.items[i as int] == view_section_item(old(self).items@[i as int]));
                let os = *old(self);
                assert(decreases_to!(os => os.items));
                assert(decreases_to!(os.items => os.items[i as int]));
            }
            let it = &mut self.items[i];
            it.prune_errors();
            i += 1;
        }
        proof {
            crate::lemma_view_section_items(self.items@);
            crate::lemma_view_section_items(old(self).items@);
            lemma_sp_pe_section_items_elementwise(ov.items);
            assert(view_section(*self).items =~= sp_pe_section(ov).items);
            assert(view_section(*self) == sp_pe_section(ov));
        }
    }

    fn prune_contentless(&mut self)
        decreases *old(self),
    {
        self.heading.prune_contentless();
        let ghost ov = view_section(*old(self));
        let mut old_items: Vec<SectionItem> = Vec::new();
        core::mem::swap(&mut old_items, &mut self.items);
        let n = old_items.len();
        proof {
            crate::lemma_view_section_items(old(self).items@);
            assert(sp_pc_section_items(ov.items.subrange(0, 0)) =~= Seq::<SectionItemV>::empty());
            assert(ov.items.subrange(0, 0) =~= Seq::<SectionItemV>::empty());
            assert(self.items@ =~= Seq::<SectionItem>::empty());
        }
        let mut i: usize = 0;
        while i < n
            invariant
                0 <= i <= n,
                n == ov.items.len(),
                n == old(self).items@.len(),
                ov == view_section(*old(self)),
                self.heading@ == sp_pc_heading(ov.heading),
                self.tags == old(self).tags,
                self.props == old(self).props,
                old_items@ == old(self).items@.subrange(i as int, n as int),
                Seq::new(self.items@.len(), |k: int| view_section_item(self.items@[k]))
                    == sp_pc_section_items(ov.items.subrange(0, i as int)),
            decreases n - i,
        {
            let mut it = old_items.remove(0);
            proof {
                crate::lemma_view_section_items(old(self).items@);
                assert(it == old(self).items@[i as int]);
                assert(old_items@ =~= old(self).items@.subrange(i as int + 1, n as int));
                assert(ov.items[i as int] == view_section_item(old(self).items@[i as int]));
                let os = *old(self);
                assert(decreases_to!(os => os.items));
                assert(decreases_to!(os.items => os.items[i as int]));
            }
            it.prune_contentless();
            let keep = !it.is_contentless();
            let ghost pre_items = self.items@;
            proof {
                let pre = ov.items.subrange(0, i as int);
                let cur = ov.items.subrange(0, i as int + 1);
                assert(cur.drop_last() =~= pre);
                assert(cur[cur.len() - 1] == ov.items[i as int]);
            }
            if keep {
                self.items.push(it);
                proof {
                    assert(Seq::new(self.items@.len(), |k: int| view_section_item(self.items@[k]))
                        =~= Seq::new(
                        pre_items.len(),
                        |k: int| view_section_item(pre_items[k]),
                    ).push(view_section_item(self.items@[pre_items.len() as int])));
                }
            }
            i += 1;
        }
        self.tags.prune_contentless();
        self.props.prune_contentless();
        proof {
            crate::lemma_view_section_items(self.items@);
            assert(ov.items.subrange(0, n as int) =~= ov.items);
            assert(view_section(*self).items =~= sp_pc_section(ov).items);
            assert(view_section(*self) == sp_pc_section(ov));
        }
    }

    fn is_contentless(&self) -> (r: bool) {
        self.heading.items.len() == 0 && self.items.len() == 0
    }
}

/// Reads the error pruning of a section item sequence element by element.
proof fn lemma_sp_pe_section_items_elementwise(s: Seq<SectionItemV>)
    ensures
        sp_pe_section_items(s).len() == s.len(),
        forall|i: int|
            0 <= i < s.len() ==> #[trigger] sp_pe_section_items(s)[i] == sp_pe_section_item(s[i]),
    decreases s,
{
    if s.len() > 0 {
        lemma_sp_pe_section_items_elementwise(s.drop_last());
    }
}

impl PruneIncodoc for DocItem {
    open spec fn sp_prune_errors(v: DocItemV) -> DocItemV {
        sp_pe_doc_item(v)
    }

    open spec fn sp_prune_contentless(v: DocItemV) -> DocItemV {
        sp_pc_doc_item(v)
    }

    open spec fn sp_is_contentless(v: DocItemV) -> bool {
        sp_cl_doc_item(v)
    }

    fn prune_errors(&mut self) {
        match self {
            DocItem::Nav(nav) => nav.prune_errors(),
            DocItem::Paragraph(par) => par.prune_errors(),
            DocItem::Section(section) => section.prune_errors(),
        }
    }

    fn prune_contentless(&mut self) {
        match self {
            DocItem::Nav(nav) => nav.prune_contentless(),
            DocItem::Paragraph(par) => par.prune_contentless(),
            DocItem::Section(section) => section.prune_contentless(),
        }
    }

    fn is_contentless(&self) -> (r: bool) {
        match self {
            DocItem::Nav(nav) => nav.is_contentless(),
            DocItem::Paragraph(par) => par.is_contentless(),
            DocItem::Section(section) => section.is_contentless(),
        }
    }
}

impl PruneIncodoc for Doc {
    open spec fn sp_prune_errors(v: DocV) -> DocV {
        sp_pe_doc(v)
    }

    open spec fn sp_prune_contentless(v: DocV) -> DocV {
        sp_pc_doc(v)
    }

    open spec fn sp_is_contentless(v: DocV) -> bool {
        sp_cl_doc(v)
    }

    fn prune_errors(&mut self) {
        self.props.prune_errors();
        let ghost ov = view_doc(*old(self));
        proof {
            crate::lemma_view_doc_items(old(self).items@);
        }
        let n = self.items.len();
        let mut i: usize = 0;
        while i < n
            invariant
                0 <= i <= n,
                n == self.items@.len(),
                n == ov.items.len(),
                ov == view_doc(*old(self)),
                self.tags == old(self).tags,
                self.props@ == sp_pe_props(ov.props),
                forall|j: int| i <= j < n ==> self.items@[j] == old(self).items@[j],
                forall|j: int|
                    0 <= j < i ==> #[trigger] view_doc_item(self.items@[j]) == sp_pe_doc_item(
                        ov.items[j],
                    ),
            decreases n - i,
        {
            proof {
                crate::lemma_view_doc_items(old(self).items@);
                assert(ov.items[i as int] == view_doc_item(old(self).items@[i as int]));
            }
            let it = &mut self.items[i];
            it.prune_errors();
            i += 1;
        }
        proof {
            crate::lemma_view_doc_items(self.items@);
            lemma_sp_pe_doc_items_elementwise(ov.items);
            assert(view_doc(*self).items =~= sp_pe_doc(ov).items);
            assert(view_doc(*self) == sp_pe_doc(ov));
        }
    }

    fn prune_contentless(&mut self) {
        let ghost ov = view_doc(*old(self));
        let mut old_items: Vec<DocItem> = Vec::new();
        core::mem::swap(&mut old_items, &mut self.items);
        let n = old_items.len();
        proof {
            crate::lemma_view_doc_items(old(self).items@);
            assert(sp_pc_doc_items(ov.items.subrange(0, 0)) =~= Seq::<DocItemV>::empty());
            assert(ov.items.subrange(0, 0) =~= Seq::<DocItemV>::empty());
            assert(self.items@ =~= Seq::<DocItem>::empty());
        }
        let mut i: usize = 0;
        while i < n
            invariant
                0 <= i <= n,
                n == ov.items.len(),
                n == old(self).items@.len(),
                ov == view_doc(*old(self)),
                self.tags == old(self).tags,
                self.props == old(self).props,
                old_items@ == old(self).items@.subrange(i as int, n as int),
                Seq::new(self.items@.len(), |k: int| view_doc_item(self.items@[k]))
                    == sp_pc_doc_items(ov.items.subrange(0, i as int)),
            decreases n - i,
        {
            let mut it = old_items.remove(0);
            proof {
                crate::lemma_view_doc_items(old(self).items@);
                assert(it == old(self).items@[i as int]);
                assert(old_items@ =~= old(self).items@.subrange(i as int + 1, n as int));
                assert(ov.items[i as int] == view_doc_item(old(self).items@[i as int]));
            }
            it.prune_contentless();
            let keep = !it.is_contentless();
            let ghost pre_items = self.items@;
            proof {
                let pre = ov.items.subrange(0, i as int);
                let cur = ov.items.subrange(0, i as int + 1);
                assert(cur.drop_last() =~= pre);
                assert(cur[cur.len() - 1] == ov.items[i as int]);
            }
            if keep {
                self.items.push(it);
                proof {
                    assert(Seq::new(self.items@.len(), |k: int| view_doc_item(self.items@[k]))
                        =~= Seq::new(pre_items.len(), |k: int| view_doc_item(pre_items[k])).push(
                        view_doc_item(self.items@[pre_items.len() as int]),
                    ));
                }
            }
            i += 1;
        }
        self.tags.prune_contentless();
        self.props.prune_contentless();
        proof {
            crate::lemma_view_doc_items(self.items@);
            assert(ov.items.subrange(0, n as int) =~= ov.items);
            assert(view_doc(*self).items =~= sp_pc_doc(ov).items);
            assert(view_doc(*self) == sp_pc_doc(ov));
        }
    }

    fn is_contentless(&self) -> (r: bool) {
        self.items.len() == 0
    }
}

/// Reads the error pruning of a document item sequence element by element.
proof fn lemma_sp_pe_doc_items_elementwise(s: Seq<DocItemV>)
    ensures
        sp_pe_doc_items(s).len() == s.len(),
        forall|i: int|
            0 <= i < s.len() ==> #[trigger] sp_pe_doc_items(s)[i] == sp_pe_doc_item(s[i]),
    decreases s,
{
    if s.len() > 0 {
        lemma_sp_pe_doc_items_elementwise(s.drop_last());
    }
}

} // verus!

verus! {

// ---------------------------------------------------------------------------
// Squash: run coalescing
// ---------------------------------------------------------------------------

/// Which kind of run is open during a squash scan. The open run, when there
/// is one, is always the last item already emitted.
#[derive(Clone, Copy, Debug, PartialEq, Eq, Structural)]
pub enum SquashRun {
    /// No run is open.
    NoRun,
    /// The last emitted item is an open plain-text run.
    TextRun,
    /// The last emitted item is an open text-with-metadata run.
    MTextRun,
    /// The last emitted item is an open emphasis run.
    EmRun,
}

/// Whether two emphases may merge: strength, type, tags and properties are
/// all equal.
pub open spec fn sp_em_mergeable(a: EmphasisV, b: EmphasisV) -> bool {
    a.strength == b.strength && a.etype == b.etype && a.tags == b.tags && a.props == b.props
}

/// Whether two texts-with-metadata may merge: tags and properties are equal.
pub open spec fn sp_mtext_meta_eq(a: TextWithMetaV, b: TextWithMetaV) -> bool {
    a.tags == b.tags && a.props == b.props
}

/// The emitted sequence with more text appended into its last item, which is
/// expected to be a plain-text run.
pub open spec fn sp_append_run_text(acc: Seq<ParagraphItemV>, t: Seq<char>) -> Seq<
    ParagraphItemV,
> {
    match acc[acc.len() - 1] {
        ParagraphItemV::Text(x) => acc.update(acc.len() - 1, ParagraphItemV::Text(x + t)),
        _ => acc,
    }
}

/// The emitted sequence with more text appended into its last item, which is
/// expected to be a text-with-metadata run.
pub open spec fn sp_append_run_mtext(acc: Seq<ParagraphItemV>, t: Seq<char>) -> Seq<
    ParagraphItemV,
> {
    match acc[acc.len() - 1] {
        ParagraphItemV::MText(m) => acc.update(
            acc.len() - 1,
            ParagraphItemV::MText(TextWithMetaV { text: m.text + t, ..m }),
        ),
        _ => acc,
    }
}

/// The emitted sequence with more text appended into its last item, which is
/// expected to be an emphasis run.
pub open spec fn sp_append_run_em(acc: Seq<ParagraphItemV>, t: Seq<char>) -> Seq<ParagraphItemV> {
    match acc[acc.len() - 1] {
        ParagraphItemV::Em(e) => acc.update(
            acc.len() - 1,
            ParagraphItemV::Em(EmphasisV { text: e.text + t, ..e }),
        ),
        _ => acc,
    }
}

/// The last emitted item read as a text-with-metadata, where one is open.
pub open spec fn sp_last_mtext(acc: Seq<ParagraphItemV>) -> TextWithMetaV {
    match acc[acc.len() - 1] {
        ParagraphItemV::MText(m) => m,
        _ => TextWithMetaV { text: Seq::empty(), tags: Seq::empty(), props: Seq::empty() },
    }
}

/// The last emitted item read as an emphasis, where one is open.
pub open spec fn sp_last_em(acc: Seq<ParagraphItemV>) -> EmphasisV {
    match acc[acc.len() - 1] {
        ParagraphItemV::Em(e) => e,
        _ => EmphasisV {
            strength: crate::EmStrength::Light,
            etype: crate::EmType::Emphasis,
            text: Seq::empty(),
            tags: Seq::empty(),
            props: Seq::empty(),
        },
    }
}

/// The relation between the emitted sequence and the open-run marker: an
/// open run is the last emitted item, of the matching kind.
pub open spec fn sp_run_ok(acc: Seq<ParagraphItemV>, run: SquashRun) -> bool {
    match run {
        SquashRun::NoRun => true,
        SquashRun::TextRun => acc.len() > 0 && acc[acc.len() - 1] is Text,
        SquashRun::MTextRun => acc.len() > 0 && acc[acc.len() - 1] is MText,
        SquashRun::EmRun => acc.len() > 0 && acc[acc.len() - 1] is Em,
    }
}

/// One step of the squash scan over paragraph items: how one incoming item
/// changes the emitted sequence and the open run.
pub open spec fn sp_sq_par_step(
    item: ParagraphItemV,
    acc: Seq<ParagraphItemV>,
    run: SquashRun,
) -> (Seq<ParagraphItemV>, SquashRun)
    decreases item, 1int,
{
    match item {
        ParagraphItemV::Text(t) => {
            if run == SquashRun::TextRun {
                (sp_append_run_text(acc, t), SquashRun::TextRun)
            } else {
                (acc.push(ParagraphItemV::Text(t)), SquashRun::TextRun)
            }
        },
        ParagraphItemV::MText(m0) => {
            let m = sp_pc_mtext(m0);
            if sp_cl_mtext(m) {
                (
                    acc,
                    if run == SquashRun::EmRun {
                        SquashRun::NoRun
                    } else {
                        run
                    },
                )
            } else if run == SquashRun::MTextRun && sp_mtext_meta_eq(sp_last_mtext(acc), m) {
                (sp_append_run_mtext(acc, m.text), SquashRun::MTextRun)
            } else {
                (acc.push(ParagraphItemV::MText(m)), SquashRun::MTextRun)
            }
        },
        ParagraphItemV::Em(e) => {
            if run == SquashRun::EmRun && sp_em_mergeable(sp_last_em(acc), e) {
                (sp_append_run_em(acc, e.text), SquashRun::EmRun)
            } else {
                (acc.push(ParagraphItemV::Em(e)), SquashRun::EmRun)
            }
        },
        _ => (acc.push(sp_sq_par_item(item)), SquashRun::NoRun),
    }
}

/// The squash scan over a whole paragraph item sequence, carrying the
/// emitted sequence and the open run from left to right.
pub open spec fn sp_sq_par_loop(
    rest: Seq<ParagraphItemV>,
    acc: Seq<ParagraphItemV>,
    run: SquashRun,
) -> Seq<ParagraphItemV>
    decreases rest, 2int,
{
    if rest.len() == 0 {
        acc
    } else {
        let stepped = sp_sq_par_step(rest[0], acc, run);
        sp_sq_par_loop(rest.subrange(1, rest.len() as int), stepped.0, stepped.1)
    }
}

/// The downgrade after the scan: a surviving text-with-metadata whose
/// metadata is empty becomes a plain-text item.
pub open spec fn sp_sq_downgrade(s: Seq<ParagraphItemV>) -> Seq<ParagraphItemV> {
    s.map_values(
        |x: ParagraphItemV|
            match x {
                ParagraphItemV::MText(m) => {
                    if m.tags.len() == 0 && m.props.len() == 0 {
                        ParagraphItemV::Text(m.text)
                    } else {
                        ParagraphItemV::MText(m)
                    }
                },
                _ => x,
            },
    )
}

/// What squashing one paragraph item yields: links, lists and tables are
/// squashed inside, everything else passes through.
pub open spec fn sp_sq_par_item(v: ParagraphItemV) -> ParagraphItemV
    decreases v, 0int,
{
    match v {
        ParagraphItemV::Link(l) => ParagraphItemV::Link(sp_sq_link(l)),
        ParagraphItemV::List(l) => ParagraphItemV::List(sp_sq_list(l)),
        ParagraphItemV::Table(t) => ParagraphItemV::Table(sp_sq_table(t)),
        _ => v,
    }
}

/// What squashing a paragraph yields: its items are scanned, merged and
/// downgraded; its metadata is untouched.
pub open spec fn sp_sq_paragraph(v: ParagraphV) -> ParagraphV
    decreases v, 0int,
{
    ParagraphV {
        items: sp_sq_downgrade(sp_sq_par_loop(v.items, Seq::empty(), SquashRun::NoRun)),
        ..v
    }
}

/// What squashing a paragraph sequence yields.
pub open spec fn sp_sq_paragraphs(s: Seq<ParagraphV>) -> Seq<ParagraphV>
    decreases s, 0int,
{
    if s.len() == 0 {
        Seq::empty()
    } else {
        sp_sq_paragraphs(s.drop_last()).push(sp_sq_paragraph(s[s.len() - 1]))
    }
}

/// What squashing a list yields: each item paragraph is squashed.
pub open spec fn sp_sq_list(v: ListV) -> ListV
    decreases v, 0int,
{
    ListV { items: sp_sq_paragraphs(v.items), ..v }
}

/// What squashing a table row yields: each cell paragraph is squashed.
pub open spec fn sp_sq_table_row(v: TableRowV) -> TableRowV
    decreases v, 0int,
{
    TableRowV { items: sp_sq_paragraphs(v.items), ..v }
}

/// What squashing a table row sequence yields.
pub open spec fn sp_sq_table_rows(s: Seq<TableRowV>) -> Seq<TableRowV>
    decreases s, 0int,
{
    if s.len() == 0 {
        Seq::empty()
    } else {
        sp_sq_table_rows(s.drop_last()).push(sp_sq_table_row(s[s.len() - 1]))
    }
}

/// What squashing a table yields.
pub open spec fn sp_sq_table(v: TableV) -> TableV
    decreases v, 0int,
{
    TableV { items: sp_sq_table_rows(v.items), ..v }
}

/// One step of the squash scan over heading items.
pub open spec fn sp_sq_heading_step(
    item: HeadingItemV,
    acc: Seq<HeadingItemV>,
    run: SquashRun,
) -> (Seq<HeadingItemV>, SquashRun) {
    match item {
        HeadingItemV::String(t) => {
            if run == SquashRun::TextRun {
                (
                    match acc[acc.len() - 1] {
                        HeadingItemV::String(x) => acc.update(
                            acc.len() - 1,
                            HeadingItemV::String(x + t),
                        ),
                        _ => acc,
                    },
                    SquashRun::TextRun,
                )
            } else {
                (acc.push(HeadingItemV::String(t)), SquashRun::TextRun)
            }
        },
        HeadingItemV::Em(e) => {
            let last_em = match acc[acc.len() - 1] {
                HeadingItemV::Em(le) => le,
                _ => EmphasisV {
                    strength: crate::EmStrength::Light,
                    etype: crate::EmType::Emphasis,
                    text: Seq::empty(),
                    tags: Seq::empty(),
                    props: Seq::empty(),
                },
            };
            if run == SquashRun::EmRun && sp_em_mergeable(last_em, e) {
                (
                    acc.update(
                        acc.len() - 1,
                        HeadingItemV::Em(EmphasisV { text: last_em.text + e.text, ..last_em }),
                    ),
                    SquashRun::EmRun,
                )
            } else {
                (acc.push(HeadingItemV::Em(e)), SquashRun::EmRun)
            }
        },
    }
}

/// The squash scan over a heading item sequence.
pub open spec fn sp_sq_heading_loop(
    rest: Seq<HeadingItemV>,
    acc: Seq<HeadingItemV>,
    run: SquashRun,
) -> Seq<HeadingItemV>
    decreases rest,
{
    if rest.len() == 0 {
        acc
    } else {
        let stepped = sp_sq_heading_step(rest[0], acc, run);
        sp_sq_heading_loop(rest.subrange(1, rest.len() as int), stepped.0, stepped.1)
    }
}

/// What squashing a heading yields: adjacent mergeable items coalesce.
pub open spec fn sp_sq_heading(v: HeadingV) -> HeadingV {
    HeadingV { items: sp_sq_heading_loop(v.items, Seq::empty(), SquashRun::NoRun), ..v }
}

/// One step of the squash scan over link items.
pub open spec fn sp_sq_link_step(item: LinkItemV, acc: Seq<LinkItemV>, run: SquashRun) -> (
    Seq<LinkItemV>,
    SquashRun,
) {
    match item {
        LinkItemV::String(t) => {
            if run == SquashRun::TextRun {
                (
                    match acc[acc.len() - 1] {
                        LinkItemV::String(x) => acc.update(acc.len() - 1, LinkItemV::String(x + t)),
                        _ => acc,
                    },
                    SquashRun::TextRun,
                )
            } else {
                (acc.push(LinkItemV::String(t)), SquashRun::TextRun)
            }
        },
        LinkItemV::Em(e) => {
            let last_em = match acc[acc.len() - 1] {
                LinkItemV::Em(le) => le,
                _ => EmphasisV {
                    strength: crate::EmStrength::Light,
                    etype: crate::EmType::Emphasis,
                    text: Seq::empty(),
                    tags: Seq::empty(),
                    props: Seq::empty(),
                },
            };
            if run == SquashRun::EmRun && sp_em_mergeable(last_em, e) {
                (
                    acc.update(
                        acc.len() - 1,
                        LinkItemV::Em(EmphasisV { text: last_em.text + e.text, ..last_em }),
                    ),
                    SquashRun::EmRun,
                )
            } else {
                (acc.push(LinkItemV::Em(e)), SquashRun::EmRun)
            }
        },
    }
}

/// The squash scan over a link item sequence.
pub open spec fn sp_sq_link_loop(rest: Seq<LinkItemV>, acc: Seq<LinkItemV>, run: SquashRun) -> Seq<
    LinkItemV,
>
    decreases rest,
{
    if rest.len() == 0 {
        acc
    } else {
        let stepped = sp_sq_link_step(rest[0], acc, run);
        sp_sq_link_loop(rest.subrange(1, rest.len() as int), stepped.0, stepped.1)
    }
}

/// What squashing a link yields: adjacent mergeable items coalesce.
pub open spec fn sp_sq_link(v: LinkV) -> LinkV {
    LinkV { items: sp_sq_link_loop(v.items, Seq::empty(), SquashRun::NoRun), ..v }
}

/// What squashing one section item yields.
pub open spec fn sp_sq_section_item(v: SectionItemV) -> SectionItemV
    decreases v, 1int,
{
    match v {
        SectionItemV::Paragraph(p) => SectionItemV::Paragraph(sp_sq_paragraph(p)),
        SectionItemV::Section(s) => SectionItemV::Section(sp_sq_section(s)),
    }
}

/// What squashing a section item sequence yields.
pub open spec fn sp_sq_section_items(s: Seq<SectionItemV>) -> Seq<SectionItemV>
    decreases s, 2int,
{
    if s.len() == 0 {
        Seq::empty()
    } else {
        sp_sq_section_items(s.drop_last()).push(sp_sq_section_item(s[s.len() - 1]))
    }
}

/// What squashing a section yields: the heading's runs coalesce and each
/// item is squashed; the metadata is untouched.
pub open spec fn sp_sq_section(v: SectionV) -> SectionV
    decreases v, 0int,
{
    SectionV { heading: sp_sq_heading(v.heading), items: sp_sq_section_items(v.items), ..v }
}

/// What squashing a navigation node sequence yields.
pub open spec fn sp_sq_navs(s: Seq<NavV>) -> Seq<NavV>
    decreases s, 1int,
{
    if s.len() == 0 {
        Seq::empty()
    } else {
        sp_sq_navs(s.drop_last()).push(sp_sq_nav(s[s.len() - 1]))
    }
}

/// What squashing a navigation node yields: every link and every nested
/// sub-navigation is squashed.
pub open spec fn sp_sq_nav(v: NavV) -> NavV
    decreases v, 2int,
{
    NavV {
        subs: sp_sq_navs(v.subs),
        links: v.links.map_values(|x: LinkV| sp_sq_link(x)),
        ..v
    }
}

/// What squashing one document item yields: the pass descends into every
/// child container.
pub open spec fn sp_sq_doc_item(v: DocItemV) -> DocItemV {
    match v {
        DocItemV::Nav(n) => DocItemV::Nav(sp_sq_nav(n)),
        DocItemV::Paragraph(p) => DocItemV::Paragraph(sp_sq_paragraph(p)),
        DocItemV::Section(s) => DocItemV::Section(sp_sq_section(s)),
    }
}

/// What squashing a document yields: each item is squashed.
pub open spec fn sp_sq_doc(v: DocV) -> DocV {
    DocV { items: v.items.map_values(|x: DocItemV| sp_sq_doc_item(x)), ..v }
}

} // verus!

verus! {

/// One squash step for a plain-text item: it appends to an open plain-text
/// run or opens one, and closes the other runs.
pub fn squash_alg_text_case(acc: &mut Vec<ParagraphItem>, run: &mut SquashRun, text: String)
    requires
        sp_run_ok(crate::view_par_items(old(acc)@), *old(run)),
    ensures
        ({
            let stepped = sp_sq_par_step(
                ParagraphItemV::Text(text@),
                crate::view_par_items(old(acc)@),
                *old(run),
            );
            crate::view_par_items(final(acc)@) == stepped.0 && *final(run) == stepped.1
        }),
        sp_run_ok(crate::view_par_items(final(acc)@), *final(run)),
{
    proof {
        crate::lemma_view_par_items(acc@);
    }
    if *run == SquashRun::TextRun {
        let li = acc.len() - 1;
        let ghost pre = acc@;
        let last = &mut acc[li];
        match last {
            ParagraphItem::Text(t) => t.append(text.as_str()),
            _ => {
                proof {
                    assert(false);
                }
            },
        }
        proof {
            crate::lemma_view_par_items(acc@);
            assert(crate::view_par_items(acc@) =~= sp_append_run_text(
                crate::view_par_items(pre),
                text@,
            ));
        }
    } else {
        let ghost pre = acc@;
        acc.push(ParagraphItem::Text(text));
        proof {
            crate::lemma_view_par_items(acc@);
            crate::lemma_view_par_items(pre);
            assert(crate::view_par_items(acc@) =~= crate::view_par_items(pre).push(
                ParagraphItemV::Text(text@),
            ));
        }
    }
    *run = SquashRun::TextRun;
    proof {
        crate::lemma_view_par_items(acc@);
    }
}

/// One squash step for a text-with-metadata item: it is first pruned of
/// contentless parts; a then contentless item is dropped; otherwise it
/// appends to an open run with equal metadata or opens a run of its own.
pub fn squash_alg_mtext_case(acc: &mut Vec<ParagraphItem>, run: &mut SquashRun, mtext: TextWithMeta)
    requires
        sp_run_ok(crate::view_par_items(old(acc)@), *old(run)),
    ensures
        ({
            let stepped = sp_sq_par_step(
                ParagraphItemV::MText(view_mtext(mtext)),
                crate::view_par_items(old(acc)@),
                *old(run),
            );
            crate::view_par_items(final(acc)@) == stepped.0 && *final(run) == stepped.1
        }),
        sp_run_ok(crate::view_par_items(final(acc)@), *final(run)),
{
    proof {
        crate::lemma_view_par_items(acc@);
    }
    let mut mtext = mtext;
    mtext.prune_contentless();
    if mtext.is_contentless() {
        if *run == SquashRun::EmRun {
            *run = SquashRun::NoRun;
        }
    } else {
        let mergeable: bool = if *run == SquashRun::MTextRun {
            let li = acc.len() - 1;
            match &acc[li] {
                ParagraphItem::MText(t) => t.tags.seq_eq(&mtext.tags) && t.props.seq_eq(
                    &mtext.props,
                ),
                _ => false,
            }
        } else {
            false
        };
        if mergeable {
            let li = acc.len() - 1;
            let ghost pre = acc@;
            let last = &mut acc[li];
            match last {
                ParagraphItem::MText(t) => t.text.append(mtext.text.as_str()),
                _ => {
                    proof {
                        assert(false);
                    }
                },
            }
            proof {
                crate::lemma_view_par_items(acc@);
                assert(crate::view_par_items(acc@) =~= sp_append_run_mtext(
                    crate::view_par_items(pre),
                    view_mtext(mtext).text,
                ));
            }
        } else {
            let ghost pre = acc@;
            let ghost mv = view_mtext(mtext);
            acc.push(ParagraphItem::MText(mtext));
            proof {
                crate::lemma_view_par_items(acc@);
                crate::lemma_view_par_items(pre);
                assert(crate::view_par_items(acc@) =~= crate::view_par_items(pre).push(
                    ParagraphItemV::MText(mv),
                ));
            }
        }
        *run = SquashRun::MTextRun;
    }
    proof {
        crate::lemma_view_par_items(acc@);
    }
}

/// One squash step for an emphasis item: it appends to an open emphasis run
/// whose strength, type, tags and properties all match, or opens a run of
/// its own, closing the text runs.
pub fn squash_alg_em_case(acc: &mut Vec<ParagraphItem>, run: &mut SquashRun, em: Emphasis)
    requires
        sp_run_ok(crate::view_par_items(old(acc)@), *old(run)),
    ensures
        ({
            let stepped = sp_sq_par_step(
                ParagraphItemV::Em(view_emphasis(em)),
                crate::view_par_items(old(acc)@),
                *old(run),
            );
            crate::view_par_items(final(acc)@) == stepped.0 && *final(run) == stepped.1
        }),
        sp_run_ok(crate::view_par_items(final(acc)@), *final(run)),
{
    proof {
        crate::lemma_view_par_items(acc@);
    }
    let mergeable: bool = if *run == SquashRun::EmRun {
        let li = acc.len() - 1;
        match &acc[li] {
            ParagraphItem::Em(e) => e.strength == em.strength && e.etype == em.etype
                && e.tags.seq_eq(&em.tags) && e.props.seq_eq(&em.props),
            _ => false,
        }
    } else {
        false
    };
    if mergeable {
        let li = acc.len() - 1;
        let ghost pre = acc@;
        let last = &mut acc[li];
        match last {
            ParagraphItem::Em(e) => e.text.append(em.text.as_str()),
            _ => {
                proof {
                    assert(false);
                }
            },
        }
        proof {
            crate::lemma_view_par_items(acc@);
            assert(crate::view_par_items(acc@) =~= sp_append_run_em(
                crate::view_par_items(pre),
                view_emphasis(em).text,
            ));
        }
    } else {
        let ghost pre = acc@;
        let ghost ev = view_emphasis(em);
        acc.push(ParagraphItem::Em(em));
        proof {
            crate::lemma_view_par_items(acc@);
            crate::lemma_view_par_items(pre);
            assert(crate::view_par_items(acc@) =~= crate::view_par_items(pre).push(
                ParagraphItemV::Em(ev),
            ));
        }
    }
    *run = SquashRun::EmRun;
    proof {
        crate::lemma_view_par_items(acc@);
    }
}

/// One squash step for any other item kind: it closes every open run; the
/// item itself passes through at the caller.
pub fn squash_alg_def_case(run: &mut SquashRun)
    ensures
        *final(run) == SquashRun::NoRun,
{
    *run = SquashRun::NoRun;
}

impl Paragraph {
    /// Squashes the paragraph: adjacent mergeable runs coalesce, surviving
    /// texts-with-metadata without metadata downgrade to plain text, and
    /// links, lists and tables are squashed inside.
    pub fn squash(&mut self)
        ensures
            final(self)@ == sp_sq_paragraph(old(self)@),
        decreases *old(self),
    {
        let ghost ov = view_paragraph(*old(self));
        let mut old_items: Vec<ParagraphItem> = Vec::new();
        core::mem::swap(&mut old_items, &mut self.items);
        let n = old_items.len();
        let mut run = SquashRun::NoRun;
        proof {
            crate::lemma_view_par_items(old(self).items@);
            crate::lemma_view_par_items(self.items@);
            assert(crate::view_par_items(self.items@) =~= Seq::<ParagraphItemV>::empty());
            assert(ov.items.subrange(0, n as int) =~= ov.items);
        }
        let mut i: usize = 0;
        while i < n
            invariant
                0 <= i <= n,
                n == ov.items.len(),
                n == old(self).items@.len(),
                ov == view_paragraph(*old(self)),
                self.tags == old(self).tags,
                self.props == old(self).props,
                old_items@ == old(self).items@.subrange(i as int, n as int),
                sp_run_ok(crate::view_par_items(self.items@), run),
                sp_sq_par_loop(
                    ov.items.subrange(i as int, n as int),
                    crate::view_par_items(self.items@),
                    run,
                ) == sp_sq_par_loop(ov.items, Seq::empty(), SquashRun::NoRun),
            decreases n - i,
        {
            let it = old_items.remove(0);
            proof {
                crate::lemma_view_par_items(old(self).items@);
                assert(it == old(self).items@[i as int]);
                assert(old_items@ =~= old(self).items@.subrange(i as int + 1, n as int));
                assert(ov.items[i as int] == view_par_item(old(self).items@[i as int]));
                let rem = ov.items.subrange(i as int, n as int);
                assert(rem[0] == ov.items[i as int]);
                assert(rem.subrange(1, rem.len() as int) =~= ov.items.subrange(
                    i as int + 1,
                    n as int,
                ));
            }
            let ghost pre_accv = crate::view_par_items(self.items@);
            let ghost pre_run = run;
            match it {
                ParagraphItem::Text(t) => squash_alg_text_case(&mut self.items, &mut run, t),
                ParagraphItem::MText(m) => squash_alg_mtext_case(&mut self.items, &mut run, m),
                ParagraphItem::Em(e) => squash_alg_em_case(&mut self.items, &mut run, e),
                mut other => {
                    squash_alg_def_case(&mut run);
                    proof {
                        let os = *old(self);
                        assert(decreases_to!(os => os.items));
                        assert(decreases_to!(os.items => os.items[i as int]));
                    }
                    other.squash();
                    let ghost pre = self.items@;
                    self.items.push(other);
                    proof {
                        crate::lemma_view_par_items(self.items@);
                        crate::lemma_view_par_items(pre);
                        assert(crate::view_par_items(self.items@) =~= crate::view_par_items(
                            pre,
                        ).push(sp_sq_par_item(ov.items[i as int])));
                    }
                },
            }
            proof {
                let stepped = sp_sq_par_step(ov.items[i as int], pre_accv, pre_run);
                assert(crate::view_par_items(self.items@) == stepped.0);
                assert(run == stepped.1);
                let rem = ov.items.subrange(i as int, n as int);
                assert(sp_sq_par_loop(rem, pre_accv, pre_run) == sp_sq_par_loop(
                    rem.subrange(1, rem.len() as int),
                    stepped.0,
                    stepped.1,
                ));
            }
            i += 1;
        }
        proof {
            assert(ov.items.subrange(n as int, n as int) =~= Seq::<ParagraphItemV>::empty());
            assert(crate::view_par_items(self.items@) == sp_sq_par_loop(
                ov.items,
                Seq::empty(),
                SquashRun::NoRun,
            ));
        }
        // downgrade surviving texts-with-metadata that carry no metadata
        let ghost merged = crate::view_par_items(self.items@);
        let mut kept: Vec<ParagraphItem> = Vec::new();
        core::mem::swap(&mut kept, &mut self.items);
        let m = kept.len();
        proof {
            crate::lemma_view_par_items(kept@);
            crate::lemma_view_par_items(self.items@);
            assert(crate::view_par_items(self.items@) =~= Seq::<ParagraphItemV>::empty());
            assert(sp_sq_downgrade(merged.subrange(0, 0)) =~= Seq::<ParagraphItemV>::empty());
        }
        let mut k: usize = 0;
        while k < m
            invariant
                0 <= k <= m,
                m == kept@.len() + k,
                m == merged.len(),
                self.tags == old(self).tags,
                self.props == old(self).props,
                ov == view_paragraph(*old(self)),
                merged == sp_sq_par_loop(ov.items, Seq::empty(), SquashRun::NoRun),
                forall|j: int|
                    0 <= j < m - k ==> #[trigger] view_par_item(kept@[j]) == merged[j + k],
                crate::view_par_items(self.items@) == sp_sq_downgrade(
                    merged.subrange(0, k as int),
                ),
            decreases m - k,
        {
            let it = kept.remove(0);
            proof {
                crate::lemma_view_par_items(self.items@);
                assert(view_par_item(it) == merged[k as int]);
                let pre = merged.subrange(0, k as int);
                let cur = merged.subrange(0, k as int + 1);
                assert(cur =~= pre.push(merged[k as int]));
                assert(sp_sq_downgrade(cur) =~= sp_sq_downgrade(pre).push(
                    sp_sq_downgrade(cur)[cur.len() - 1],
                ));
            }
            let ghost pre_items = self.items@;
            match it {
                ParagraphItem::MText(t) => {
                    if t.meta_is_empty() {
                        self.items.push(ParagraphItem::Text(t.text));
                    } else {
                        self.items.push(ParagraphItem::MText(t));
                    }
                },
                other => {
                    self.items.push(other);
                },
            }
            proof {
                crate::lemma_view_par_items(self.items@);
                crate::lemma_view_par_items(pre_items);
                assert(crate::view_par_items(self.items@) =~= crate::view_par_items(
                    pre_items,
                ).push(view_par_item(self.items@[pre_items.len() as int])));
                assert(crate::view_par_items(self.items@) =~= sp_sq_downgrade(
                    merged.subrange(0, k as int + 1),
                ));
            }
            k += 1;
        }
        proof {
            assert(merged.subrange(0, m as int) =~= merged);
            assert(view_paragraph(*self).items =~= sp_sq_paragraph(ov).items);
            assert(view_paragraph(*self) == sp_sq_paragraph(ov));
        }
    }
}

} // verus!

verus! {

impl ParagraphItem {
    /// Squashes inside a paragraph item: links, lists and tables are
    /// squashed, everything else passes through.
    pub fn squash(&mut self)
        ensures
            final(self)@ == sp_sq_par_item(old(self)@),
        decreases *old(self),
    {
        match self {
            ParagraphItem::Link(link) => link.squash(),
            ParagraphItem::List(list) => list.squash(),
            ParagraphItem::Table(table) => table.squash(),
            _ => {},
        }
    }
}

impl Link {
    /// Squashes the link text: adjacent mergeable items coalesce.
    pub fn squash(&mut self)
        ensures
            final(self)@ == sp_sq_link(old(self)@),
    {
        let ghost ov = view_link(*old(self));
        let mut old_items: Vec<LinkItem> = Vec::new();
        core::mem::swap(&mut old_items, &mut self.items);
        let n = old_items.len();
        let mut run = SquashRun::NoRun;
        proof {
            assert(self.items@ =~= Seq::<LinkItem>::empty());
            assert(Seq::new(self.items@.len(), |j: int| view_link_item(self.items@[j])) =~= Seq::<
                LinkItemV,
            >::empty());
            assert(ov.items.subrange(0, n as int) =~= ov.items);
        }
        let mut i: usize = 0;
        while i < n
            invariant
                0 <= i <= n,
                n == ov.items.len(),
                n == old(self).items@.len(),
                ov == view_link(*old(self)),
                self.url == old(self).url,
                self.tags == old(self).tags,
                self.props == old(self).props,
                old_items@ == old(self).items@.subrange(i as int, n as int),
                ({
                    let accv = Seq::new(
                        self.items@.len(),
                        |j: int| view_link_item(self.items@[j]),
                    );
                    &&& (run == SquashRun::TextRun ==> accv.len() > 0 && accv[accv.len() - 1]
                        is String)
                    &&& (run == SquashRun::EmRun ==> accv.len() > 0 && accv[accv.len() - 1] is Em)
                    &&& run != SquashRun::MTextRun
                    &&& sp_sq_link_loop(ov.items.subrange(i as int, n as int), accv, run)
                        == sp_sq_link_loop(ov.items, Seq::empty(), SquashRun::NoRun)
                }),
            decreases n - i,
        {
            let it = old_items.remove(0);
            proof {
                assert(it == old(self).items@[i as int]);
                assert(old_items@ =~= old(self).items@.subrange(i as int + 1, n as int));
                assert(ov.items[i as int] == view_link_item(old(self).items@[i as int]));
                let rem = ov.items.subrange(i as int, n as int);
                assert(rem[0] == ov.items[i as int]);
                assert(rem.subrange(1, rem.len() as int) =~= ov.items.subrange(
                    i as int + 1,
                    n as int,
                ));
            }
            let ghost pre_items = self.items@;
            let ghost pre_run = run;
            match it {
                LinkItem::String(t) => {
                    if run == SquashRun::TextRun {
                        let li = self.items.len() - 1;
                        let last = &mut self.items[li];
                        match last {
                            LinkItem::String(x) => x.append(t.as_str()),
                            _ => {
                                proof {
                                    assert(false);
                                }
                            },
                        }
                    } else {
                        self.items.push(LinkItem::String(t));
                    }
                    run = SquashRun::TextRun;
                },
                LinkItem::Em(e) => {
                    let mergeable: bool = if run == SquashRun::EmRun {
                        let li = self.items.len() - 1;
                        match &self.items[li] {
                            LinkItem::Em(le) => le.strength == e.strength && le.etype == e.etype
                                && le.tags.seq_eq(&e.tags) && le.props.seq_eq(&e.props),
                            _ => false,
                        }
                    } else {
                        false
                    };
                    if mergeable {
                        let li = self.items.len() - 1;
                        let last = &mut self.items[li];
                        match last {
                            LinkItem::Em(le) => le.text.append(e.text.as_str()),
                            _ => {
                                proof {
                                    assert(false);
                                }
                            },
                        }
                    } else {
                        self.items.push(LinkItem::Em(e));
                    }
                    run = SquashRun::EmRun;
                },
            }
            proof {
                let accv = Seq::new(pre_items.len(), |j: int| view_link_item(pre_items[j]));
                let newv = Seq::new(self.items@.len(), |j: int| view_link_item(self.items@[j]));
                let stepped = sp_sq_link_step(ov.items[i as int], accv, pre_run);
                assert(newv =~= stepped.0);
                assert(run == stepped.1);
                let rem = ov.items.subrange(i as int, n as int);
                assert(sp_sq_link_loop(rem, accv, pre_run) == sp_sq_link_loop(
                    rem.subrange(1, rem.len() as int),
                    stepped.0,
                    stepped.1,
                ));
            }
            i += 1;
        }
        proof {
            assert(ov.items.subrange(n as int, n as int) =~= Seq::<LinkItemV>::empty());
            assert(view_link(*self).items =~= sp_sq_link(ov).items);
            assert(view_link(*self) == sp_sq_link(ov));
        }
    }
}

impl Heading {
    /// Squashes the heading text: adjacent mergeable items coalesce.
    pub fn squash(&mut self)
        ensures
            final(self)@ == sp_sq_heading(old(self)@),
    {
        let ghost ov = view_heading(*old(self));
        let mut old_items: Vec<HeadingItem> = Vec::new();
        core::mem::swap(&mut old_items, &mut self.items);
        let n = old_items.len();
        let mut run = SquashRun::NoRun;
        proof {
            assert(self.items@ =~= Seq::<HeadingItem>::empty());
            assert(Seq::new(self.items@.len(), |j: int| view_heading_item(self.items@[j]))
                =~= Seq::<HeadingItemV>::empty());
            assert(ov.items.subrange(0, n as int) =~= ov.items);
        }
        let mut i: usize = 0;
        while i < n
            invariant
                0 <= i <= n,
                n == ov.items.len(),
                n == old(self).items@.len(),
                ov == view_heading(*old(self)),
                self.level == old(self).level,
                self.tags == old(self).tags,
                self.props == old(self).props,
                old_items@ == old(self).items@.subrange(i as int, n as int),
                ({
                    let accv = Seq::new(
                        self.items@.len(),
                        |j: int| view_heading_item(self.items@[j]),
                    );
                    &&& (run == SquashRun::TextRun ==> accv.len() > 0 && accv[accv.len() - 1]
                        is String)
                    &&& (run == SquashRun::EmRun ==> accv.len() > 0 && accv[accv.len() - 1] is Em)
                    &&& run != SquashRun::MTextRun
                    &&& sp_sq_heading_loop(ov.items.subrange(i as int, n as int), accv, run)
                        == sp_sq_heading_loop(ov.items, Seq::empty(), SquashRun::NoRun)
                }),
            decreases n - i,
        {
            let it = old_items.remove(0);
            proof {
                assert(it == old(self).items@[i as int]);
                assert(old_items@ =~= old(self).items@.subrange(i as int + 1, n as int));
                assert(ov.items[i as int] == view_heading_item(old(self).items@[i as int]));
                let rem = ov.items.subrange(i as int, n as int);
                assert(rem[0] == ov.items[i as int]);
                assert(rem.subrange(1, rem.len() as int) =~= ov.items.subrange(
                    i as int + 1,
                    n as int,
                ));
            }
            let ghost pre_items = self.items@;
            let ghost pre_run = run;
            match it {
                HeadingItem::String(t) => {
                    if run == SquashRun::TextRun {
                        let li = self.items.len() - 1;
                        let last = &mut self.items[li];
                        match last {
                            HeadingItem::String(x) => x.append(t.as_str()),
                            _ => {
                                proof {
                                    assert(false);
                                }
                            },
                        }
                    } else {
                        self.items.push(HeadingItem::String(t));
                    }
                    run = SquashRun::TextRun;
                },
                HeadingItem::Em(e) => {
                    let mergeable: bool = if run == SquashRun::EmRun {
                        let li = self.items.len() - 1;
                        match &self.items[li] {
                            HeadingItem::Em(le) => le.strength == e.strength && le.etype == e.etype
                                && le.tags.seq_eq(&e.tags) && le.props.seq_eq(&e.props),
                            _ => false,
                        }
                    } else {
                        false
                    };
                    if mergeable {
                        let li = self.items.len() - 1;
                        let last = &mut self.items[li];
                        match last {
                            HeadingItem::Em(le) => le.text.append(e.text.as_str()),
                            _ => {
                                proof {
                                    assert(false);
                                }
                            },
                        }
                    } else {
                        self.items.push(HeadingItem::Em(e));
                    }
                    run = SquashRun::EmRun;
                },
            }
            proof {
                let accv = Seq::new(pre_items.len(), |j: int| view_heading_item(pre_items[j]));
                let newv = Seq::new(self.items@.len(), |j: int| view_heading_item(self.items@[j]));
                let stepped = sp_sq_heading_step(ov.items[i as int], accv, pre_run);
                assert(newv =~= stepped.0);
                assert(run == stepped.1);
                let rem = ov.items.subrange(i as int, n as int);
                assert(sp_sq_heading_loop(rem, accv, pre_run) == sp_sq_heading_loop(
                    rem.subrange(1, rem.len() as int),
                    stepped.0,
                    stepped.1,
                ));
            }
            i += 1;
        }
        proof {
            assert(ov.items.subrange(n as int, n as int) =~= Seq::<HeadingItemV>::empty());
            assert(view_heading(*self).items =~= sp_sq_heading(ov).items);
            assert(view_heading(*self) == sp_sq_heading(ov));
        }
    }
}

impl List {
    /// Squashes each item paragraph of the list.
    pub fn squash(&mut self)
        ensures
            final(self)@ == sp_sq_list(old(self)@),
        decreases *old(self),
    {
        let ghost ov = view_list(*old(self));
        proof {
            crate::lemma_view_paragraphs(old(self).items@);
        }
        let n = self.items.len();
        let mut i: usize = 0;
        while i < n
            invariant
                0 <= i <= n,
                n == self.items@.len(),
                n == ov.items.len(),
                ov == view_list(*old(self)),
                self.ltype == old(self).ltype,
                self.tags == old(self).tags,
                self.props == old(self).props,
                forall|j: int| i <= j < n ==> self.items@[j] == old(self).items@[j],
                forall|j: int|
                    0 <= j < i ==> #[trigger] view_paragraph(self.items@[j]) == sp_sq_paragraph(
                        ov.items[j],
                    ),
            decreases n - i,
        {
            proof {
                crate::lemma_view_paragraphs(old(self).items@);
                assert(ov.items[i as int] == view_paragraph(old(self).items@[i as int]));
                let os = *old(self);
                assert(decreases_to!(os => os.items));
                assert(decreases_to!(os.items => os.items[i as int]));
            }
            let it = &mut self.items[i];
            it.squash();
            i += 1;
        }
        proof {
            crate::lemma_view_paragraphs(self.items@);
            crate::lemma_view_paragraphs(old(self).items@);
            lemma_sp_sq_paragraphs_elementwise(ov.items);
            assert(view_list(*self).items =~= sp_sq_list(ov).items);
            assert(view_list(*self) == sp_sq_list(ov));
        }
    }
}

/// Reads the squash of a paragraph sequence element by element.
proof fn lemma_sp_sq_paragraphs_elementwise(s: Seq<ParagraphV>)
    ensures
        sp_sq_paragraphs(s).len() == s.len(),
        forall|i: int|
            0 <= i < s.len() ==> #[trigger] sp_sq_paragraphs(s)[i] == sp_sq_paragraph(s[i]),
    decreases s,
{
    if s.len() > 0 {
        lemma_sp_sq_paragraphs_elementwise(s.drop_last());
    }
}

impl TableRow {
    /// Squashes each cell paragraph of the row.
    pub fn squash(&mut self)
        ensures
            final(self)@ == sp_sq_table_row(old(self)@),
        decreases *old(self),
    {
        let ghost ov = view_table_row(*old(self));
        proof {
            crate::lemma_view_paragraphs(old(self).items@);
        }
        let n = self.items.len();
        let mut i: usize = 0;
        while i < n
            invariant
                0 <= i <= n,
                n == self.items@.len(),
                n == ov.items.len(),
                ov == view_table_row(*old(self)),
                self.is_header == old(self).is_header,
                self.tags == old(self).tags,
                self.props == old(self).props,
                forall|j: int| i <= j < n ==> self.items@[j] == old(self).items@[j],
                forall|j: int|
                    0 <= j < i ==> #[trigger] view_paragraph(self.items@[j]) == sp_sq_paragraph(
                        ov.items[j],
                    ),
            decreases n - i,
        {
            proof {
                crate::lemma_view_paragraphs(old(self).items@);
                assert(ov.items[i as int] == view_paragraph(old(self).items@[i as int]));
                let os = *old(self);
                assert(decreases_to!(os => os.items));
                assert(decreases_to!(os.items => os.items[i as int]));
            }
            let it = &mut self.items[i];
            it.squash();
            i += 1;
        }
        proof {
            crate::lemma_view_paragraphs(self.items@);
            crate::lemma_view_paragraphs(old(self).items@);
            lemma_sp_sq_paragraphs_elementwise(ov.items);
            assert(view_table_row(*self).items =~= sp_sq_table_row(ov).items);
            assert(view_table_row(*self) == sp_sq_table_row(ov));
        }
    }
}

impl Table {
    /// Squashes every row of the table.
    #[verifier::rlimit(30)]
    pub fn squash(&mut self)
        ensures
            final(self)@ == sp_sq_table(old(self)@),
        decreases *old(self),
    {
        let ghost ov = view_table(*old(self));
        proof {
            crate::lemma_view_table_rows(old(self).items@);
        }
        let n = self.items.len();
        let mut i: usize = 0;
        while i < n
            invariant
                0 <= i <= n,
                n == self.items@.len(),
                n == ov.items.len(),
                ov == view_table(*old(self)),
                self.tags == old(self).tags,
                self.props == old(self).props,
                forall|j: int| i <= j < n ==> self.items@[j] == old(self).items@[j],
                forall|j: int|
                    0 <= j < i ==> #[trigger] view_table_row(self.items@[j]) == sp_sq_table_row(
                        ov.items[j],
                    ),
            decreases n - i,
        {
            proof {
                crate::lemma_view_table_rows(old(self).items@);
                assert(ov.items[i as int] == view_table_row(old(self).items@[i as int]));
                let os = *old(self);
                assert(decreases_to!(os => os.items));
                assert(decreases_to!(os.items => os.items[i as int]));
            }
            let it = &mut self.items[i];
            it.squash();
            i += 1;
        }
        proof {
            crate::lemma_view_table_rows(self.items@);
            crate::lemma_view_table_rows(old(self).items@);
            lemma_sp_sq_table_rows_elementwise(ov.items);
            assert(view_table(*self).items =~= sp_sq_table(ov).items);
            assert(view_table(*self) == sp_sq_table(ov));
        }
    }
}

/// Reads the squash of a table row sequence element by element.
proof fn lemma_sp_sq_table_rows_elementwise(s: Seq<TableRowV>)
    ensures
        sp_sq_table_rows(s).len() == s.len(),
        forall|i: int|
            0 <= i < s.len() ==> #[trigger] sp_sq_table_rows(s)[i] == sp_sq_table_row(s[i]),
    decreases s,
{
    if s.len() > 0 {
        lemma_sp_sq_table_rows_elementwise(s.drop_last());
    }
}

impl SectionItem {
    /// Squashes inside a section item.
    pub fn squash(&mut self)
        ensures
            final(self)@ == sp_sq_section_item(old(self)@),
        decreases *old(self),
    {
        match self {
            SectionItem::Paragraph(par) => par.squash(),
            SectionItem::Section(section) => section.squash(),
        }
    }
}

impl Section {
    /// Squashes the section: its heading's runs coalesce and every item is
    /// squashed.
    pub fn squash(&mut self)
        ensures
            final(self)@ == sp_sq_section(old(self)@),
        decreases *old(self),
    {
        self.heading.squash();
        let ghost ov = view_section(*old(self));
        proof {
            crate::lemma_view_section_items(old(self).items@);
        }
        let n = self.items.len();
        let mut i: usize = 0;
        while i < n
            invariant
                0 <= i <= n,
                n == self.items@.len(),
                n == ov.items.len(),
                ov == view_section(*old(self)),
                self.heading@ == sp_sq_heading(ov.heading),
                self.tags == old(self).tags,
                self.props == old(self).props,
                forall|j: int| i <= j < n ==> self.items@[j] == old(self).items@[j],
                forall|j: int|
                    0 <= j < i ==> #[trigger] view_section_item(self.items@[j])
                        == sp_sq_section_item(ov.items[j]),
            decreases n - i,
        {
            proof {
                crate::lemma_view_section_items(old(self).items@);
                assert(ov.items[i as int] == view_section_item(old(self).items@[i as int]));
                let os = *old(self);
                assert(decreases_to!(os => os.items));
                assert(decreases_to!(os.items => os.items[i as int]));
            }
            let it = &mut self.items[i];
            it.squash();
            i += 1;
        }
        proof {
            crate::lemma_view_section_items(self.items@);
            crate::lemma_view_section_items(old(self).items@);
            lemma_sp_sq_section_items_elementwise(ov.items);
            assert(view_section(*self).items =~= sp_sq_section(ov).items);
            assert(view_section(*self) == sp_sq_section(ov));
        }
    }
}

/// Reads the squash of a section item sequence element by element.
proof fn lemma_sp_sq_section_items_elementwise(s: Seq<SectionItemV>)
    ensures
        sp_sq_section_items(s).len() == s.len(),
        forall|i: int|
            0 <= i < s.len() ==> #[trigger] sp_sq_section_items(s)[i] == sp_sq_section_item(s[i]),
    decreases s,
{
    if s.len() > 0 {
        lemma_sp_sq_section_items_elementwise(s.drop_last());
    }
}

impl DocItem {
    /// Squashes inside a document item: the pass descends into every child
    /// container.
    pub fn squash(&mut self)
        ensures
            final(self)@ == sp_sq_doc_item(old(self)@),
    {
        match self {
            DocItem::Nav(nav) => nav.squash(),
            DocItem::Paragraph(par) => par.squash(),
            DocItem::Section(section) => section.squash(),
        }
    }
}

impl Nav {
    /// Squashes every link and every nested sub-navigation of the node.
    pub fn squash(&mut self)
        ensures
            final(self)@ == sp_sq_nav(old(self)@),
        decreases *old(self),
    {
        let ghost ov = view_nav(*old(self));
        let n = self.links.len();
        let mut i: usize = 0;
        while i < n
            invariant
                0 <= i <= n,
                n == self.links@.len(),
                n == ov.links.len(),
                ov == view_nav(*old(self)),
                self.description == old(self).description,
                self.subs == old(self).subs,
                self.tags == old(self).tags,
                self.props == old(self).props,
                forall|j: int| i <= j < n ==> self.links@[j] == old(self).links@[j],
                forall|j: int|
                    0 <= j < i ==> #[trigger] view_link(self.links@[j]) == sp_sq_link(ov.links[j]),
            decreases n - i,
        {
            proof {
                assert(ov.links[i as int] == view_link(old(self).links@[i as int]));
            }
            let it = &mut self.links[i];
            it.squash();
            i += 1;
        }
        proof {
            crate::lemma_view_navs(old(self).subs@);
        }
        let m = self.subs.len();
        let mut k: usize = 0;
        while k < m
            invariant
                0 <= k <= m,
                m == self.subs@.len(),
                m == ov.subs.len(),
                ov == view_nav(*old(self)),
                self.description == old(self).description,
                self.tags == old(self).tags,
                self.props == old(self).props,
                n == self.links@.len(),
                n == ov.links.len(),
                forall|j: int|
                    0 <= j < n ==> #[trigger] view_link(self.links@[j]) == sp_sq_link(ov.links[j]),
                forall|j: int| k <= j < m ==> self.subs@[j] == old(self).subs@[j],
                forall|j: int|
                    0 <= j < k ==> #[trigger] view_nav(self.subs@[j]) == sp_sq_nav(ov.subs[j]),
            decreases m - k,
        {
            proof {
                crate::lemma_view_navs(old(self).subs@);
                assert(ov.subs[k as int] == view_nav(old(self).subs@[k as int]));
                let os = *old(self);
                assert(decreases_to!(os => os.subs));
                assert(decreases_to!(os.subs => os.subs[k as int]));
            }
            let it = &mut self.subs[k];
            it.squash();
            k += 1;
        }
        proof {
            crate::lemma_view_navs(self.subs@);
            crate::lemma_view_navs(old(self).subs@);
            lemma_sp_sq_navs_elementwise(ov.subs);
            assert(view_nav(*self).subs =~= sp_sq_nav(ov).subs);
            assert(view_nav(*self).links =~= sp_sq_nav(ov).links);
            assert(view_nav(*self) == sp_sq_nav(ov));
        }
    }
}

/// Reads the squash of a navigation sequence element by element.
proof fn lemma_sp_sq_navs_elementwise(s: Seq<NavV>)
    ensures
        sp_sq_navs(s).len() == s.len(),
        forall|i: int| 0 <= i < s.len() ==> #[trigger] sp_sq_navs(s)[i] == sp_sq_nav(s[i]),
    decreases s,
{
    if s.len() > 0 {
        lemma_sp_sq_navs_elementwise(s.drop_last());
    }
}

impl Doc {
    /// Squashes every item of the document.
    pub fn squash(&mut self)
        ensures
            final(self)@ == sp_sq_doc(old(self)@),
    {
        let ghost ov = view_doc(*old(self));
        proof {
            crate::lemma_view_doc_items(old(self).items@);
        }
        let n = self.items.len();
        let mut i: usize = 0;
        while i < n
            invariant
                0 <= i <= n,
                n == self.items@.len(),
                n == ov.items.len(),
                ov == view_doc(*old(self)),
                self.tags == old(self).tags,
                self.props == old(self).props,
                forall|j: int| i <= j < n ==> self.items@[j] == old(self).items@[j],
                forall|j: int|
                    0 <= j < i ==> #[trigger] view_doc_item(self.items@[j]) == sp_sq_doc_item(
                        ov.items[j],
                    ),
            decreases n - i,
        {
            proof {
                crate::lemma_view_doc_items(old(self).items@);
                assert(ov.items[i as int] == view_doc_item(old(self).items@[i as int]));
            }
            let it = &mut self.items[i];
            it.squash();
            i += 1;
        }
        proof {
            crate::lemma_view_doc_items(self.items@);
            assert(view_doc(*self).items =~= sp_sq_doc(ov).items);
            assert(view_doc(*self) == sp_sq_doc(ov));
        }
    }
}

} // verus!

verus! {

/// Two adjacent emphasis items that may not merge never coalesce: a
/// paragraph holding exactly those two items squashes to itself unchanged.
pub proof fn lemma_squash_preserves_distinct_runs(p: ParagraphV, e1: EmphasisV, e2: EmphasisV)
    requires
        p.items == seq![ParagraphItemV::Em(e1), ParagraphItemV::Em(e2)],
        !sp_em_mergeable(e1, e2),
    ensures
        sp_sq_paragraph(p) == p,
{
    let s = p.items;
    let acc0 = Seq::<ParagraphItemV>::empty();
    let acc1 = acc0.push(ParagraphItemV::Em(e1));
    let acc2 = acc1.push(ParagraphItemV::Em(e2));
    assert(sp_sq_par_step(s[0], acc0, SquashRun::NoRun) == (acc1, SquashRun::EmRun));
    assert(sp_last_em(acc1) == e1);
    assert(sp_sq_par_step(s[1], acc1, SquashRun::EmRun) == (acc2, SquashRun::EmRun));
    let s1 = s.subrange(1, 2);
    let s2 = s.subrange(2, 2);
    assert(s1[0] == s[1]);
    assert(s1.subrange(1, 1) =~= s2);
    assert(s2.len() == 0);
    assert(sp_sq_par_loop(s2, acc2, SquashRun::EmRun) == acc2);
    assert(sp_sq_par_loop(s1, acc1, SquashRun::EmRun) == acc2);
    assert(sp_sq_par_loop(s, acc0, SquashRun::NoRun) == acc2);
    assert(sp_sq_downgrade(acc2) =~= acc2);
    assert(sp_sq_paragraph(p).items == p.items);
    assert(sp_sq_paragraph(p) == p);
}

} // verus!

verus! {

/// Whether two adjacent heading items would coalesce: two plain strings
/// always do, two emphases only when they may merge.
pub open spec fn sp_hl_adjacent_mergeable(a: HeadingItemV, b: HeadingItemV) -> bool {
    match (a, b) {
        (HeadingItemV::String(_), HeadingItemV::String(_)) => true,
        (HeadingItemV::Em(x), HeadingItemV::Em(y)) => sp_em_mergeable(x, y),
        _ => false,
    }
}

/// A heading item sequence with no two adjacent items that would coalesce.
pub open spec fn sp_hl_stable(s: Seq<HeadingItemV>) -> bool {
    forall|i: int|
        0 <= i < s.len() - 1 ==> !sp_hl_adjacent_mergeable(#[trigger] s[i], s[i + 1])
}

/// The open-run marker agrees with the last emitted heading item.
pub open spec fn sp_hl_run_match(acc: Seq<HeadingItemV>, run: SquashRun) -> bool {
    &&& (run == SquashRun::NoRun ==> acc.len() == 0)
    &&& (run == SquashRun::TextRun ==> acc.len() > 0 && acc[acc.len() - 1] is String)
    &&& (run == SquashRun::EmRun ==> acc.len() > 0 && acc[acc.len() - 1] is Em)
    &&& run != SquashRun::MTextRun
}

/// The squash scan only ever emits stable heading item sequences.
proof fn lemma_sq_heading_loop_stable(rest: Seq<HeadingItemV>, acc: Seq<HeadingItemV>, run: SquashRun)
    requires
        sp_hl_stable(acc),
        sp_hl_run_match(acc, run),
    ensures
        sp_hl_stable(sp_sq_heading_loop(rest, acc, run)),
    decreases rest.len(),
{
    if rest.len() > 0 {
        let stepped = sp_sq_heading_step(rest[0], acc, run);
        let acc2 = stepped.0;
        let run2 = stepped.1;
        assert forall|i: int|
            0 <= i < acc2.len() - 1 implies !sp_hl_adjacent_mergeable(
            #[trigger] acc2[i],
            acc2[i + 1],
        ) by {
            if i < acc.len() - 1 {
                assert(!sp_hl_adjacent_mergeable(acc[i], acc[i + 1]));
            }
        }
        assert(sp_hl_run_match(acc2, run2));
        lemma_sq_heading_loop_stable(rest.subrange(1, rest.len() as int), acc2, run2);
    }
}

/// The squash scan leaves an already stable heading item sequence as it is.
proof fn lemma_sq_heading_loop_fixed(rest: Seq<HeadingItemV>, acc: Seq<HeadingItemV>, run: SquashRun)
    requires
        sp_hl_stable(acc + rest),
        sp_hl_run_match(acc, run),
    ensures
        sp_sq_heading_loop(rest, acc, run) == acc + rest,
    decreases rest.len(),
{
    if rest.len() == 0 {
        assert(acc + rest =~= acc);
    } else {
        let item = rest[0];
        let whole = acc + rest;
        if acc.len() > 0 {
            assert(whole[acc.len() - 1] == acc[acc.len() - 1]);
            assert(whole[acc.len() as int] == item);
            assert(!sp_hl_adjacent_mergeable(acc[acc.len() - 1], item));
        }
        let stepped = sp_sq_heading_step(item, acc, run);
        assert(stepped.0 == acc.push(item));
        let acc2 = acc.push(item);
        let rest2 = rest.subrange(1, rest.len() as int);
        assert(acc2 + rest2 =~= acc + rest);
        lemma_sq_heading_loop_fixed(rest2, acc2, stepped.1);
        assert(sp_sq_heading_loop(rest, acc, run) == acc2 + rest2);
    }
}

/// Squashing a heading twice yields the same heading as squashing it once.
pub proof fn lemma_sq_heading_idempotent(h: HeadingV)
    ensures
        sp_sq_heading(sp_sq_heading(h)) == sp_sq_heading(h),
{
    let once = sp_sq_heading_loop(h.items, Seq::empty(), SquashRun::NoRun);
    lemma_sq_heading_loop_stable(h.items, Seq::empty(), SquashRun::NoRun);
    assert(Seq::<HeadingItemV>::empty() + once =~= once);
    lemma_sq_heading_loop_fixed(once, Seq::empty(), SquashRun::NoRun);
    assert(sp_sq_heading(sp_sq_heading(h)).items == once);
}

/// Whether two adjacent link items would coalesce.
pub open spec fn sp_ll_adjacent_mergeable(a: LinkItemV, b: LinkItemV) -> bool {
    match (a, b) {
        (LinkItemV::String(_), LinkItemV::String(_)) => true,
        (LinkItemV::Em(x), LinkItemV::Em(y)) => sp_em_mergeable(x, y),
        _ => false,
    }
}

/// A link item sequence with no two adjacent items that would coalesce.
pub open spec fn sp_ll_stable(s: Seq<LinkItemV>) -> bool {
    forall|i: int|
        0 <= i < s.len() - 1 ==> !sp_ll_adjacent_mergeable(#[trigger] s[i], s[i + 1])
}

/// The open-run marker agrees with the last emitted link item.
pub open spec fn sp_ll_run_match(acc: Seq<LinkItemV>, run: SquashRun) -> bool {
    &&& (run == SquashRun::NoRun ==> acc.len() == 0)
    &&& (run == SquashRun::TextRun ==> acc.len() > 0 && acc[acc.len() - 1] is String)
    &&& (run == SquashRun::EmRun ==> acc.len() > 0 && acc[acc.len() - 1] is Em)
    &&& run != SquashRun::MTextRun
}

/// The squash scan only ever emits stable link item sequences.
proof fn lemma_sq_link_loop_stable(rest: Seq<LinkItemV>, acc: Seq<LinkItemV>, run: SquashRun)
    requires
        sp_ll_stable(acc),
        sp_ll_run_match(acc, run),
    ensures
        sp_ll_stable(sp_sq_link_loop(rest, acc, run)),
    decreases rest.len(),
{
    if rest.len() > 0 {
        let stepped = sp_sq_link_step(rest[0], acc, run);
        let acc2 = stepped.0;
        let run2 = stepped.1;
        assert forall|i: int|
            0 <= i < acc2.len() - 1 implies !sp_ll_adjacent_mergeable(
            #[trigger] acc2[i],
            acc2[i + 1],
        ) by {
            if i < acc.len() - 1 {
                assert(!sp_ll_adjacent_mergeable(acc[i], acc[i + 1]));
            }
        }
        assert(sp_ll_run_match(acc2, run2));
        lemma_sq_link_loop_stable(rest.subrange(1, rest.len() as int), acc2, run2);
    }
}

/// The squash scan leaves an already stable link item sequence as it is.
proof fn lemma_sq_link_loop_fixed(rest: Seq<LinkItemV>, acc: Seq<LinkItemV>, run: SquashRun)
    requires
        sp_ll_stable(acc + rest),
        sp_ll_run_match(acc, run),
    ensures
        sp_sq_link_loop(rest, acc, run) == acc + rest,
    decreases rest.len(),
{
    if rest.len() == 0 {
        assert(acc + rest =~= acc);
    } else {
        let item = rest[0];
        let whole = acc + rest;
        if acc.len() > 0 {
            assert(whole[acc.len() - 1] == acc[acc.len() - 1]);
            assert(whole[acc.len() as int] == item);
            assert(!sp_ll_adjacent_mergeable(acc[acc.len() - 1], item));
        }
        let stepped = sp_sq_link_step(item, acc, run);
        assert(stepped.0 == acc.push(item));
        let acc2 = acc.push(item);
        let rest2 = rest.subrange(1, rest.len() as int);
        assert(acc2 + rest2 =~= acc + rest);
        lemma_sq_link_loop_fixed(rest2, acc2, stepped.1);
        assert(sp_sq_link_loop(rest, acc, run) == acc2 + rest2);
    }
}

/// Squashing a link twice yields the same link as squashing it once.
pub proof fn lemma_sq_link_idempotent(l: LinkV)
    ensures
        sp_sq_link(sp_sq_link(l)) == sp_sq_link(l),
{
    let once = sp_sq_link_loop(l.items, Seq::empty(), SquashRun::NoRun);
    lemma_sq_link_loop_stable(l.items, Seq::empty(), SquashRun::NoRun);
    assert(Seq::<LinkItemV>::empty() + once =~= once);
    lemma_sq_link_loop_fixed(once, Seq::empty(), SquashRun::NoRun);
    assert(sp_sq_link(sp_sq_link(l)).items == once);
}

} // verus!
