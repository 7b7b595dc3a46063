use incodoc::actions::PruneIncodoc;
use incodoc::output::doc_out;
use incodoc::parsing::{parse, parse_text_string};
use incodoc::toc::{TocFilter, TocKind, TocPolicy};
use incodoc::{
    insert_prop, Date, DateError, Doc, DocItem, EmStrength, EmType, IntError, ParagraphItem,
    PropVal, PropValError, Props, SectionItem, Tags,
};

fn tags_of(labels: &[&str]) -> Tags {
    let mut t = Tags::new();
    for l in labels {
        t.insert((*l).to_string());
    }
    t
}

fn props_of(entries: Vec<(&str, PropVal)>) -> Props {
    let mut p = Props::new();
    for (k, v) in entries {
        insert_prop(&mut p, (k.to_string(), v));
    }
    p
}

fn first_paragraph_items(doc: &Doc) -> &Vec<ParagraphItem> {
    match &doc.items[0] {
        DocItem::Paragraph(p) => &p.items,
        other => panic!("expected a paragraph, got {:?}", other),
    }
}

#[test]
fn empty_input_gives_empty_doc() {
    let doc = parse("").unwrap();
    assert!(doc.items.is_empty());
    assert!(doc.tags.is_empty());
    assert!(doc.props.is_empty());
}

#[test]
fn comments_are_skipped() {
    assert!(parse("// comment").unwrap().items.is_empty());
    assert!(parse("/* comment */").unwrap().items.is_empty());
    assert!(parse("\n //\n /**/ \n").unwrap().items.is_empty());
}

#[test]
fn text_normalization_collapses_whitespace() {
    assert_eq!(parse_text_string("this is text"), "this is text");
    assert_eq!(parse_text_string("\nthis is text\n"), "this is text");
    assert_eq!(parse_text_string("\nthis is     text\n"), "this is text");
    assert_eq!(
        parse_text_string("\nthis\n  is     text\n\n\n\n"),
        "this\nis text"
    );
    assert_eq!(parse_text_string(" pre"), " pre");
    assert_eq!(parse_text_string("    pre"), " pre");
    assert_eq!(parse_text_string("post "), "post ");
    assert_eq!(parse_text_string("post        "), "post ");
    assert_eq!(parse_text_string("   prepost        "), " prepost ");
}

#[test]
fn paragraph_text_parses_normalized() {
    let doc = parse("par { 'a  b' }").unwrap();
    assert_eq!(
        first_paragraph_items(&doc),
        &vec![ParagraphItem::Text("a b".to_string())]
    );
}

#[test]
fn doc_tags_and_props_parse() {
    let doc = parse(
        "tags { \"tag-a\", \"tag-b\" },\n\
         props { (\"prop-int\", 26), (\"prop-date\", 2000/01/11) },",
    )
    .unwrap();
    assert_eq!(doc.tags, tags_of(&["tag-a", "tag-b"]));
    assert_eq!(
        doc.props,
        props_of(vec![
            ("prop-int", PropVal::Int(26)),
            ("prop-date", PropVal::Date(Date { year: 2000, month: 1, day: 11 })),
        ])
    );
}

#[test]
fn malformed_property_values_become_errors() {
    let doc = parse(
        "props {\n\
           (\"big\", 99999999999999999999),\n\
           (\"month\", 2000/13/01),\n\
           (\"day\", 2000/12/32),\n\
           (\"year\", 99999/01/01),\n\
           (\"part\", 2000/-1/01),\n\
         },",
    )
    .unwrap();
    assert_eq!(
        doc.props.get_value(&"big".to_string()),
        Some(&PropVal::Error(PropValError::Int(IntError::OutOfRange)))
    );
    assert_eq!(
        doc.props.get_value(&"month".to_string()),
        Some(&PropVal::Error(PropValError::Date(DateError::MonthRange(13))))
    );
    assert_eq!(
        doc.props.get_value(&"day".to_string()),
        Some(&PropVal::Error(PropValError::Date(DateError::DayRange(32))))
    );
    assert_eq!(
        doc.props.get_value(&"year".to_string()),
        Some(&PropVal::Error(PropValError::Date(DateError::YearRange(99999))))
    );
    assert_eq!(
        doc.props.get_value(&"part".to_string()),
        Some(&PropVal::Error(PropValError::Date(DateError::Parsing(
            IntError::InvalidDigit
        ))))
    );
}

#[test]
fn grammar_error_fails_the_parse() {
    assert!(parse("par {").is_err());
    assert!(parse("unknown { }").is_err());
    assert!(parse("props { (\"a\") }").is_err());
    assert!(parse("par { em { xx, \"a\" } }").is_err());
}

#[test]
fn emphasis_kinds_parse() {
    let doc = parse(
        "par {\n\
           em { le, \"a\" },\n\
           em { sd, \"b\", tags { \"t\" } },\n\
         }",
    )
    .unwrap();
    let items = first_paragraph_items(&doc);
    match &items[0] {
        ParagraphItem::Em(e) => {
            assert_eq!(e.strength, EmStrength::Light);
            assert_eq!(e.etype, EmType::Emphasis);
            assert_eq!(e.text, "a");
        },
        other => panic!("expected an emphasis, got {:?}", other),
    }
    match &items[1] {
        ParagraphItem::Em(e) => {
            assert_eq!(e.strength, EmStrength::Strong);
            assert_eq!(e.etype, EmType::Deemphasis);
            assert_eq!(e.tags, tags_of(&["t"]));
        },
        other => panic!("expected an emphasis, got {:?}", other),
    }
}

#[test]
fn indentation_extraction_boundary() {
    // the opening quote stands at column 12; content indented to column 12
    // keeps everything past the first 11 columns
    let good = "par { code { \"r\", \"show\",\n           '\n           ab\n           ', } }";
    let doc = parse(good).unwrap();
    match &first_paragraph_items(&doc)[0] {
        ParagraphItem::Code(Ok(c)) => assert_eq!(c.code, "ab"),
        other => panic!("expected a code block, got {:?}", other),
    }

    // content deeper than the opening column keeps its extra indentation
    let deeper = "par { code { \"r\", \"show\",\n           '\n             ab\n           ', } }";
    let doc = parse(deeper).unwrap();
    match &first_paragraph_items(&doc)[0] {
        ParagraphItem::Code(Ok(c)) => assert_eq!(c.code, "  ab"),
        other => panic!("expected a code block, got {:?}", other),
    }

    // a line indented one column short of the opening column fails
    let bad = "par { code { \"r\", \"show\",\n           '\n          ab\n           ', } }";
    let doc = parse(bad).unwrap();
    match &first_paragraph_items(&doc)[0] {
        ParagraphItem::Code(Err(_)) => {},
        other => panic!("expected an indentation error, got {:?}", other),
    }
}

#[test]
fn heading_levels_accumulate_and_saturate() {
    let doc = parse(
        "section { head { 2, \"a\" }, section { head { 1, \"b\" }, par { 'x' } } }",
    )
    .unwrap();
    match &doc.items[0] {
        DocItem::Section(s) => {
            assert_eq!(s.heading.level, 2);
            match &s.items[0] {
                SectionItem::Section(sub) => assert_eq!(sub.heading.level, 3),
                other => panic!("expected a sub-section, got {:?}", other),
            }
        },
        other => panic!("expected a section, got {:?}", other),
    }

    let doc = parse("section { head { 300, \"a\" } }").unwrap();
    match &doc.items[0] {
        DocItem::Section(s) => assert_eq!(s.heading.level, 255),
        other => panic!("expected a section, got {:?}", other),
    }
}

#[test]
fn serialization_of_a_small_doc_is_exact() {
    let mut doc = Doc { tags: Tags::new(), props: Props::new(), items: vec![] };
    doc.tags.insert("t".to_string());
    let mut out = String::new();
    doc_out(&doc, &mut out);
    assert_eq!(out, "tags {\n    \"t\",\n},\n");
}

#[test]
fn round_trip_over_every_construct_kind() {
    let source = "\
tags { \"tag-a\", \"tag-b\" },
props {
    (\"prop-string\", \"hi\"),
    (\"prop-text\", 'text'),
    (\"prop-int\", 26),
    (\"prop-date\", 2000/01/11),
},
nav {
    snav {
        \"top level\",
        link { \"/home\", \"home\" },
        snav { \"inner\", link { \"/a\", \"a\" } },
        tags { \"n\" },
    },
},
par {
    'text',
    'text with meta' { tags { \"tag\" }, props { (\"prop\", 0) } },
    em { le, \"light emphasis\", tags { \"tag\" } },
    em { sd, \"strong deemphasis\" },
    code { \"rust\", \"show\", '\n        let x = 0;\n    ', tags { \"tag\" } },
    code { \"rust\", \"bogus-mode\", '\n        x\n    ' },
    link { \"url\", \"link string\", em { me, \"em\" }, props { (\"prop\", 0) } },
    list {
        il,
        par { 'item 0' },
        par { 'item 1', tags { \"a\" } },
        tags { \"b\" },
    },
    table {
        hrow { par { 'h' } },
        row { par { 'c' }, tags { \"r\" } },
        props { (\"p\", 1) },
    },
    props { (\"bad-int\", 99999999999999999999) },
},
section {
    head { 1, \"heading with an \", em { le, \"emphasised\" }, \" part\" },
    par { 'paragraph' },
    section {
        head { 1, \"inner\" },
        par { 'deep' },
        tags { \"s\" },
    },
},
";
    let mut doc = parse(source).unwrap();
    doc.prune_errors();
    let mut out = String::new();
    doc_out(&doc, &mut out);
    let reparsed = parse(&out).unwrap_or_else(|e| panic!("reparse failed: {}\n{}", e, out));
    assert_eq!(doc, reparsed);
}

#[test]
fn toc_document_root_is_always_emitted() {
    let doc = parse("section { head { 0, \"a\" }, par { 'x' } }").unwrap();
    let filter = TocFilter { kinds: vec![TocKind::Document], policy: TocPolicy::IncludeWithChildren };
    let toc = doc.get_table_of_contents(Some(&filter));
    assert_eq!(toc.title, "");
    assert!(toc.children.is_empty());
}

#[test]
fn toc_section_titles_and_slugs() {
    let doc = parse("section { head { 0, \"My Great Title\" }, par { 'x' } }").unwrap();
    let toc = doc.get_table_of_contents(None);
    assert_eq!(toc.children.len(), 1);
    assert_eq!(toc.children[0].title, "My Great Title");
    assert_eq!(toc.children[0].slug, "my-great-title");
}

#[test]
fn toc_excluded_node_survives_with_found_descendants() {
    let doc = parse(
        "section { head { 0, \"top\" }, par { props { (\"id\", \"here\") }, 'x' } }",
    )
    .unwrap();
    let filter = TocFilter {
        kinds: vec![TocKind::Document, TocKind::Paragraph],
        policy: TocPolicy::IncludeWithChildren,
    };
    let toc = doc.get_table_of_contents(Some(&filter));
    assert_eq!(toc.children.len(), 1);
    assert_eq!(toc.children[0].title, "top");
    assert_eq!(toc.children[0].children.len(), 1);
    assert_eq!(toc.children[0].children[0].slug, "here");

    let hard = TocFilter {
        kinds: vec![TocKind::Document, TocKind::Paragraph],
        policy: TocPolicy::HardStop,
    };
    let toc = doc.get_table_of_contents(Some(&hard));
    assert!(toc.children.is_empty());
}
