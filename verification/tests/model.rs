use incodoc::actions::{Absorb, PruneIncodoc};
use incodoc::{
    insert_prop, Date, DateError, Doc, DocItem, EmStrength, EmType, Emphasis, Heading,
    HeadingItem, IntError, Link, LinkItem, Nav, Paragraph, ParagraphItem, PropVal, PropValError,
    Props, Section, SectionItem, Tags, TextWithMeta,
};

fn tags_of(labels: &[&str]) -> Tags {
    let mut t = Tags::new();
    for l in labels {
        t.insert((*l).to_string());
    }
    t
}

fn props_of(entries: Vec<(&str, PropVal)>) -> Props {
    let mut p = Props::new();
    for (k, v) in entries {
        insert_prop(&mut p, (k.to_string(), v));
    }
    p
}

fn empty_paragraph() -> Paragraph {
    Paragraph { items: vec![], tags: Tags::new(), props: Props::new() }
}

#[test]
fn tags_absorb_unions_labels() {
    let mut a = tags_of(&["x", "y"]);
    let b = tags_of(&["y", "z"]);
    a.absorb(Some(b));
    assert_eq!(a.len(), 3);
    assert!(a.contains(&"x".to_string()));
    assert!(a.contains(&"y".to_string()));
    assert!(a.contains(&"z".to_string()));
}

#[test]
fn tags_absorb_commutes_as_sets() {
    let mut a = tags_of(&["x", "y"]);
    let mut b = tags_of(&["y", "z"]);
    let a0 = a.clone();
    let b0 = b.clone();
    a.absorb(Some(b0));
    b.absorb(Some(a0));
    for l in ["x", "y", "z"] {
        assert!(a.contains(&l.to_string()));
        assert!(b.contains(&l.to_string()));
    }
    assert_eq!(a.len(), b.len());
}

#[test]
fn tags_absorb_none_is_noop() {
    let mut a = tags_of(&["x"]);
    let before = a.clone();
    a.absorb(None);
    assert_eq!(a, before);
}

#[test]
fn props_sticky_error_keeps_good_value() {
    let mut p = props_of(vec![("a", PropVal::Int(1))]);
    let incoming = props_of(vec![(
        "a",
        PropVal::Error(PropValError::Int(IntError::OutOfRange)),
    )]);
    p.absorb(incoming);
    assert_eq!(p.get_value(&"a".to_string()), Some(&PropVal::Int(1)));
}

#[test]
fn props_later_good_value_overwrites() {
    let mut p = props_of(vec![("a", PropVal::Int(1))]);
    let incoming = props_of(vec![("a", PropVal::Int(2))]);
    p.absorb(incoming);
    assert_eq!(p.get_value(&"a".to_string()), Some(&PropVal::Int(2)));
}

#[test]
fn props_error_replaces_error() {
    let mut p = props_of(vec![(
        "a",
        PropVal::Error(PropValError::Int(IntError::Empty)),
    )]);
    let incoming = props_of(vec![(
        "a",
        PropVal::Error(PropValError::Int(IntError::OutOfRange)),
    )]);
    p.absorb(incoming);
    assert_eq!(
        p.get_value(&"a".to_string()),
        Some(&PropVal::Error(PropValError::Int(IntError::OutOfRange)))
    );
}

#[test]
fn date_new_checks_ranges_only() {
    assert_eq!(
        Date::new(2000, 1, 11),
        Ok(Date { year: 2000, month: 1, day: 11 })
    );
    assert_eq!(Date::new(2000, 13, 1), Err(DateError::MonthRange(13)));
    assert_eq!(Date::new(2000, 0, 1), Err(DateError::MonthRange(0)));
    assert_eq!(Date::new(2000, 12, 32), Err(DateError::DayRange(32)));
    assert_eq!(Date::new(40000, 1, 1), Err(DateError::YearRange(40000)));
    // a nonexistent calendar day still passes the numeric checks
    assert_eq!(
        Date::new(2001, 2, 30),
        Ok(Date { year: 2001, month: 2, day: 30 })
    );
}

#[test]
fn prune_errors_empties_error_properties() {
    let bad = match Date::new(2000, 13, 1) {
        Err(e) => PropVal::Error(PropValError::Date(e)),
        Ok(_) => unreachable!(),
    };
    let mut p = props_of(vec![("a", bad)]);
    p.prune_errors();
    assert!(p.is_empty());
}

#[test]
fn prune_contentless_is_bottom_up() {
    let par = Paragraph {
        items: vec![],
        tags: tags_of(&["not content"]),
        props: Props::new(),
    };
    let mut section = Section {
        heading: Heading { level: 0, items: vec![], tags: Tags::new(), props: Props::new() },
        items: vec![SectionItem::Paragraph(par)],
        tags: Tags::new(),
        props: Props::new(),
    };
    section.prune_contentless();
    assert!(section.items.is_empty());
    assert!(section.is_contentless());
}

#[test]
fn prune_contentless_trims_blank_strings_and_labels() {
    let mut doc = Doc {
        tags: tags_of(&["keep", "  ", ""]),
        props: props_of(vec![
            ("keep", PropVal::String("v".to_string())),
            ("blank", PropVal::String("   ".to_string())),
            ("  ", PropVal::Int(3)),
        ]),
        items: vec![DocItem::Paragraph(empty_paragraph())],
    };
    doc.prune_contentless();
    assert_eq!(doc.tags, tags_of(&["keep"]));
    assert_eq!(doc.props, props_of(vec![("keep", PropVal::String("v".to_string()))]));
    assert!(doc.items.is_empty());
}

#[test]
fn squash_merges_adjacent_plain_text() {
    let mut par = Paragraph {
        items: vec![
            ParagraphItem::Text("a".to_string()),
            ParagraphItem::Text("\n".to_string()),
            ParagraphItem::Text("b\n".to_string()),
        ],
        tags: Tags::new(),
        props: Props::new(),
    };
    par.squash();
    assert_eq!(par.items, vec![ParagraphItem::Text("a\nb\n".to_string())]);
}

#[test]
fn squash_never_merges_distinct_emphasis_runs() {
    let e1 = Emphasis {
        strength: EmStrength::Strong,
        etype: EmType::Deemphasis,
        text: "x".to_string(),
        tags: Tags::new(),
        props: Props::new(),
    };
    let e2 = Emphasis {
        strength: EmStrength::Medium,
        etype: EmType::Deemphasis,
        text: "x".to_string(),
        tags: Tags::new(),
        props: Props::new(),
    };
    let mut par = Paragraph {
        items: vec![ParagraphItem::Em(e1.clone()), ParagraphItem::Em(e2.clone())],
        tags: Tags::new(),
        props: Props::new(),
    };
    par.squash();
    assert_eq!(par.items, vec![ParagraphItem::Em(e1), ParagraphItem::Em(e2)]);
}

#[test]
fn squash_merges_matching_emphasis_runs() {
    let e1 = Emphasis {
        strength: EmStrength::Light,
        etype: EmType::Emphasis,
        text: "ab".to_string(),
        tags: tags_of(&["t"]),
        props: Props::new(),
    };
    let mut e2 = e1.clone();
    e2.text = "cd".to_string();
    let mut par = Paragraph {
        items: vec![ParagraphItem::Em(e1.clone()), ParagraphItem::Em(e2)],
        tags: Tags::new(),
        props: Props::new(),
    };
    par.squash();
    let mut merged = e1;
    merged.text = "abcd".to_string();
    assert_eq!(par.items, vec![ParagraphItem::Em(merged)]);
}

#[test]
fn squash_downgrades_bare_text_with_meta() {
    let mtext = TextWithMeta {
        text: "plain".to_string(),
        tags: tags_of(&["  "]),
        props: Props::new(),
    };
    let mut par = Paragraph {
        items: vec![ParagraphItem::MText(mtext)],
        tags: Tags::new(),
        props: Props::new(),
    };
    par.squash();
    assert_eq!(par.items, vec![ParagraphItem::Text("plain".to_string())]);
}

#[test]
fn squash_drops_contentless_text_with_meta() {
    let mtext = TextWithMeta {
        text: "   ".to_string(),
        tags: tags_of(&["t"]),
        props: Props::new(),
    };
    let mut par = Paragraph {
        items: vec![
            ParagraphItem::Text("a".to_string()),
            ParagraphItem::MText(mtext),
            ParagraphItem::Text("b".to_string()),
        ],
        tags: Tags::new(),
        props: Props::new(),
    };
    par.squash();
    assert_eq!(par.items, vec![ParagraphItem::Text("ab".to_string())]);
}

#[test]
fn doc_squash_reaches_paragraphs() {
    let mut doc = Doc {
        tags: Tags::new(),
        props: Props::new(),
        items: vec![DocItem::Paragraph(Paragraph {
            items: vec![
                ParagraphItem::Text("a".to_string()),
                ParagraphItem::Text("b".to_string()),
            ],
            tags: Tags::new(),
            props: Props::new(),
        })],
    };
    doc.squash();
    assert_eq!(
        doc.items,
        vec![DocItem::Paragraph(Paragraph {
            items: vec![ParagraphItem::Text("ab".to_string())],
            tags: Tags::new(),
            props: Props::new(),
        })]
    );
}

#[test]
fn doc_squash_reaches_sections_headings_and_navs() {
    let section = Section {
        heading: Heading {
            level: 0,
            items: vec![
                HeadingItem::String("a".to_string()),
                HeadingItem::String("b".to_string()),
            ],
            tags: Tags::new(),
            props: Props::new(),
        },
        items: vec![SectionItem::Paragraph(Paragraph {
            items: vec![
                ParagraphItem::Text("x".to_string()),
                ParagraphItem::Text("y".to_string()),
            ],
            tags: Tags::new(),
            props: Props::new(),
        })],
        tags: Tags::new(),
        props: Props::new(),
    };
    let nav = Nav {
        description: String::new(),
        subs: vec![],
        links: vec![Link {
            url: "u".to_string(),
            items: vec![
                LinkItem::String("c".to_string()),
                LinkItem::String("d".to_string()),
            ],
            tags: Tags::new(),
            props: Props::new(),
        }],
        tags: Tags::new(),
        props: Props::new(),
    };
    let mut doc = Doc {
        tags: Tags::new(),
        props: Props::new(),
        items: vec![DocItem::Section(section), DocItem::Nav(nav)],
    };
    doc.squash();
    match &doc.items[0] {
        DocItem::Section(s) => {
            assert_eq!(s.heading.items, vec![HeadingItem::String("ab".to_string())]);
            match &s.items[0] {
                SectionItem::Paragraph(p) => {
                    assert_eq!(p.items, vec![ParagraphItem::Text("xy".to_string())]);
                },
                other => panic!("expected a paragraph, got {:?}", other),
            }
        },
        other => panic!("expected a section, got {:?}", other),
    }
    match &doc.items[1] {
        DocItem::Nav(n) => {
            assert_eq!(n.links[0].items, vec![LinkItem::String("cd".to_string())]);
        },
        other => panic!("expected a navigation, got {:?}", other),
    }
}

#[test]
fn prune_errors_reaches_section_headings() {
    let mut section = Section {
        heading: Heading {
            level: 0,
            items: vec![],
            tags: Tags::new(),
            props: props_of(vec![(
                "bad",
                PropVal::Error(PropValError::Int(IntError::Empty)),
            )]),
        },
        items: vec![],
        tags: Tags::new(),
        props: Props::new(),
    };
    section.prune_errors();
    assert!(section.heading.props.is_empty());
}
