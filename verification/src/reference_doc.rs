//! A reference document containing all features of the markup: a quick
//! overview of the syntax as well as quick test material.

use vstd::prelude::*;

verus! {

/// A document exercising every construct of the markup.
pub const REF_DOC: &'static str = "
    tags { \"tag-a\", \"tag-b\" },
    props {
        (\"prop-string\", \"hi\"),
        (\"prop-text\", 'text'),
        (\"prop-int\", 26),
        (\"prop-date\", 2000/01/11),
    },
    par {
        'text',
        'text with meta' {
            tags { \"tag\" },
            props { (\"prop\", 0) },
        },
        em { le, \"light emphasis\", tags { \"tag\" }, props { (\"prop\", 0) } },
        em { me, \"medium emphasis\" },
        em { se, \"strong emphasis\" },
        em { ld, \"light deemphasis\" },
        em { md, \"medium deemphasis\" },
        em { sd, \"strong deemphasis\" },
        code { \"rust\", \"show\", '
            let x = 0;
        ', tags { \"tag\" } },
        link { \"url\", \"link string\", tags { \"tag\" }, props { (\"prop\", 0) } },
        list {
            il,
            par { 'item 0' },
            par { 'item 1' },
            tags { \"tag\" },
        },
        table {
            hrow { par { 'head' } },
            row { par { 'cell' } },
        },
    },
    section {
        head { 0, \"heading with an \", em { le, \"emphasised\" }, \" part\" },
        par { 'paragraph' },
        section {
            head { 1, \"heading\" },
            par { 'paragraph' },
        },
    },
    nav {
        snav {
            \"description A\",
            link { \"url-a\", \"link string a\" },
            link { \"url-b\", \"link string b\" },
        },
        snav {
            \"description B\",
            link { \"url-c\", \"link string c\" },
            snav {
                \"description C\",
                link { \"url-d\", \"link string d\" },
            },
        },
    },
";

} // verus!
