//! The XML property-list codec for the single document shape
//! `{ "URL": <string> }`, as bytes of a UTF-8 document.
//!
//! Encoding writes the Apple plist XML v1.0 document: the XML declaration,
//! the plist DOCTYPE, a `<plist version="1.0">` root holding one `<dict>`
//! with one `<key>URL</key>` / `<string>` pair, pretty-printed with a
//! caller-chosen indentation string.
//!
//! Decoding accepts that shape liberally: the declaration and the DOCTYPE
//! may each be present (spelled canonically) or absent, and any run of
//! whitespace may separate the elements. The string value ends at the first
//! `<`; the five named character entities are decoded. A document whose
//! root elements are missing is a malformed document; a dictionary whose
//! single pair has another key, or more than one pair, has an unexpected
//! shape. A self-closed empty value (`<string/>`) is not recognized: no URL
//! is empty, so a conforming writer never emits one.

use vstd::prelude::*;

use crate::error::WeblocError;

verus! {

/// The bytes of `<?xml version="1.0" encoding="UTF-8"?>`.
pub open spec fn xml_decl() -> Seq<u8> {
    seq![0x3cu8, 0x3fu8, 0x78u8, 0x6du8, 0x6cu8, 0x20u8, 0x76u8, 0x65u8, 0x72u8, 0x73u8, 
        0x69u8, 0x6fu8, 0x6eu8, 0x3du8, 0x22u8, 0x31u8, 0x2eu8, 0x30u8, 0x22u8, 0x20u8, 
        0x65u8, 0x6eu8, 0x63u8, 0x6fu8, 0x64u8, 0x69u8, 0x6eu8, 0x67u8, 0x3du8, 0x22u8, 
        0x55u8, 0x54u8, 0x46u8, 0x2du8, 0x38u8, 0x22u8, 0x3fu8, 0x3eu8]
}

/// The bytes of the Apple plist DOCTYPE declaration.
pub open spec fn xml_doctype() -> Seq<u8> {
    doctype_head() + doctype_tail()
}

/// The first half of the DOCTYPE bytes.
pub open spec fn doctype_head() -> Seq<u8> {
    seq![0x3cu8, 0x21u8, 0x44u8, 0x4fu8, 0x43u8, 0x54u8, 0x59u8, 0x50u8, 0x45u8, 0x20u8, 
        0x70u8, 0x6cu8, 0x69u8, 0x73u8, 0x74u8, 0x20u8, 0x50u8, 0x55u8, 0x42u8, 0x4cu8, 
        0x49u8, 0x43u8, 0x20u8, 0x22u8, 0x2du8, 0x2fu8, 0x2fu8, 0x41u8, 0x70u8, 0x70u8, 
        0x6cu8, 0x65u8, 0x2fu8, 0x2fu8, 0x44u8, 0x54u8, 0x44u8, 0x20u8, 0x50u8, 0x4cu8, 
        0x49u8, 0x53u8, 0x54u8, 0x20u8, 0x31u8, 0x2eu8, 0x30u8, 0x2fu8, 0x2fu8, 0x45u8, 
        0x4eu8]
}

/// The second half of the DOCTYPE bytes.
pub open spec fn doctype_tail() -> Seq<u8> {
    seq![0x22u8, 0x20u8, 0x22u8, 0x68u8, 0x74u8, 0x74u8, 0x70u8, 0x3au8, 0x2fu8, 0x2fu8, 
        0x77u8, 0x77u8, 0x77u8, 0x2eu8, 0x61u8, 0x70u8, 0x70u8, 0x6cu8, 0x65u8, 0x2eu8, 
        0x63u8, 0x6fu8, 0x6du8, 0x2fu8, 0x44u8, 0x54u8, 0x44u8, 0x73u8, 0x2fu8, 0x50u8, 
        0x72u8, 0x6fu8, 0x70u8, 0x65u8, 0x72u8, 0x74u8, 0x79u8, 0x4cu8, 0x69u8, 0x73u8, 
        0x74u8, 0x2du8, 0x31u8, 0x2eu8, 0x30u8, 0x2eu8, 0x64u8, 0x74u8, 0x64u8, 0x22u8, 
        0x3eu8]
}

pub open spec fn plist_open() -> Seq<u8> {
    seq![0x3cu8, 0x70u8, 0x6cu8, 0x69u8, 0x73u8, 0x74u8, 0x20u8, 0x76u8, 0x65u8, 0x72u8, 0x73u8,
        0x69u8, 0x6fu8, 0x6eu8, 0x3du8, 0x22u8, 0x31u8, 0x2eu8, 0x30u8, 0x22u8, 0x3eu8]
}

pub open spec fn dict_open() -> Seq<u8> {
    seq![0x3cu8, 0x64u8, 0x69u8, 0x63u8, 0x74u8, 0x3eu8]
}

pub open spec fn key_url() -> Seq<u8> {
    seq![0x3cu8, 0x6bu8, 0x65u8, 0x79u8, 0x3eu8, 0x55u8, 0x52u8, 0x4cu8, 0x3cu8, 0x2fu8, 0x6bu8,
        0x65u8, 0x79u8, 0x3eu8]
}

pub open spec fn str_open() -> Seq<u8> {
    seq![0x3cu8, 0x73u8, 0x74u8, 0x72u8, 0x69u8, 0x6eu8, 0x67u8, 0x3eu8]
}

pub open spec fn str_close() -> Seq<u8> {
    seq![0x3cu8, 0x2fu8, 0x73u8, 0x74u8, 0x72u8, 0x69u8, 0x6eu8, 0x67u8, 0x3eu8]
}

pub open spec fn dict_close() -> Seq<u8> {
    seq![0x3cu8, 0x2fu8, 0x64u8, 0x69u8, 0x63u8, 0x74u8, 0x3eu8]
}

pub open spec fn plist_close() -> Seq<u8> {
    seq![0x3cu8, 0x2fu8, 0x70u8, 0x6cu8, 0x69u8, 0x73u8, 0x74u8, 0x3eu8]
}

pub open spec fn nl() -> Seq<u8> {
    seq![0x0au8]
}

/// The escaping of one text byte: the markup characters become their named
/// entities, everything else passes through.
pub open spec fn esc1(x: u8) -> Seq<u8> {
    if x == 0x26 {
        seq![0x26u8, 0x61u8, 0x6du8, 0x70u8, 0x3bu8]
    } else if x == 0x3c {
        seq![0x26u8, 0x6cu8, 0x74u8, 0x3bu8]
    } else if x == 0x3e {
        seq![0x26u8, 0x67u8, 0x74u8, 0x3bu8]
    } else {
        seq![x]
    }
}

/// The XML escaping of a text.
pub open spec fn esc_bytes(s: Seq<u8>) -> Seq<u8>
    decreases s.len(),
{
    if s.len() == 0 {
        seq![]
    } else {
        esc1(s[0]) + esc_bytes(s.drop_first())
    }
}

/// The inverse of escaping: resolves the five named entities, refuses a raw
/// `<` and any other use of `&`.
pub open spec fn unesc(s: Seq<u8>) -> Option<Seq<u8>>
    decreases s.len(),
{
    if s.len() == 0 {
        Some(seq![])
    } else if s[0] == 0x3c {
        None
    } else if s[0] == 0x26 {
        if s.len() >= 5 && s[1] == 0x61 && s[2] == 0x6d && s[3] == 0x70 && s[4] == 0x3b {
            match unesc(s.skip(5)) {
                Option::None => None,
                Option::Some(t) => Some(seq![0x26u8] + t),
            }
        } else if s.len() >= 4 && s[1] == 0x6c && s[2] == 0x74 && s[3] == 0x3b {
            match unesc(s.skip(4)) {
                Option::None => None,
                Option::Some(t) => Some(seq![0x3cu8] + t),
            }
        } else if s.len() >= 4 && s[1] == 0x67 && s[2] == 0x74 && s[3] == 0x3b {
            match unesc(s.skip(4)) {
                Option::None => None,
                Option::Some(t) => Some(seq![0x3eu8] + t),
            }
        } else if s.len() >= 6 && s[1] == 0x61 && s[2] == 0x70 && s[3] == 0x6f && s[4] == 0x73
            && s[5] == 0x3b {
            match unesc(s.skip(6)) {
                Option::None => None,
                Option::Some(t) => Some(seq![0x27u8] + t),
            }
        } else if s.len() >= 6 && s[1] == 0x71 && s[2] == 0x75 && s[3] == 0x6f && s[4] == 0x74
            && s[5] == 0x3b {
            match unesc(s.skip(6)) {
                Option::None => None,
                Option::Some(t) => Some(seq![0x22u8] + t),
            }
        } else {
            None
        }
    } else {
        match unesc(s.skip(1)) {
            Option::None => None,
            Option::Some(t) => Some(seq![s[0]] + t),
        }
    }
}

/// An XML whitespace byte.
pub open spec fn is_ws(x: u8) -> bool {
    x == 0x20 || x == 0x09 || x == 0x0a || x == 0x0d
}

/// Every byte is whitespace.
pub open spec fn ws_bytes(s: Seq<u8>) -> bool {
    forall|i: int| 0 <= i < s.len() ==> is_ws(#[trigger] s[i])
}

/// The first non-whitespace position at or after `i`.
pub open spec fn ws_end(b: Seq<u8>, i: int) -> int
    decreases b.len() - i,
{
    if 0 <= i && i < b.len() && is_ws(b[i]) {
        ws_end(b, i + 1)
    } else {
        i
    }
}

/// The first position of `<` at or after `i`, or the length.
pub open spec fn find_lt(b: Seq<u8>, i: int) -> int
    decreases b.len() - i,
{
    if 0 <= i && i < b.len() {
        if b[i] == 0x3c {
            i
        } else {
            find_lt(b, i + 1)
        }
    } else {
        b.len() as int
    }
}

/// The pattern `pat` stands at position `p` of `b`.
pub open spec fn match_at(b: Seq<u8>, p: int, pat: Seq<u8>) -> bool {
    0 <= p && p + pat.len() <= b.len() && b.subrange(p, p + pat.len()) == pat
}

/// The document this codec writes for the URL bytes `u` with the
/// indentation bytes `ind`.
pub open spec fn xml_encoded(u: Seq<u8>, ind: Seq<u8>) -> Seq<u8> {
    xml_decl() + nl() + xml_doctype() + nl() + plist_open() + nl() + dict_open() + nl() + ind
        + key_url() + nl() + ind + str_open() + esc_bytes(u) + str_close() + nl() + dict_close()
        + nl() + plist_close() + nl()
}

/// The URL bytes carried by an XML plist, or the error kind its shape
/// earns. This is the reference meaning of [`decode_xml_bytes`].
pub open spec fn xml_parse(b: Seq<u8>) -> Result<Seq<u8>, WeblocError> {
    let p0 = ws_end(b, 0);
    let p1 = if match_at(b, p0, xml_decl()) {
        ws_end(b, p0 + xml_decl().len())
    } else {
        p0
    };
    let p2 = if match_at(b, p1, xml_doctype()) {
        ws_end(b, p1 + xml_doctype().len())
    } else {
        p1
    };
    if !match_at(b, p2, plist_open()) {
        Err(WeblocError::MalformedDocument)
    } else {
        let p3 = ws_end(b, p2 + plist_open().len());
        if !match_at(b, p3, dict_open()) {
            Err(WeblocError::MalformedDocument)
        } else {
            let p4 = ws_end(b, p3 + dict_open().len());
            if !match_at(b, p4, key_url()) {
                Err(WeblocError::UnexpectedShape)
            } else {
                let p5 = ws_end(b, p4 + key_url().len());
                if !match_at(b, p5, str_open()) {
                    Err(WeblocError::UnexpectedShape)
                } else {
                    let p6 = p5 + str_open().len();
                    let lt = find_lt(b, p6);
                    if !match_at(b, lt, str_close()) {
                        Err(WeblocError::MalformedDocument)
                    } else {
                        match unesc(b.subrange(p6, lt)) {
                            Option::None => Err(WeblocError::MalformedDocument),
                            Option::Some(t) => {
                                let p7 = ws_end(b, lt + str_close().len());
                                if !match_at(b, p7, dict_close()) {
                                    Err(WeblocError::UnexpectedShape)
                                } else {
                                    let p8 = ws_end(b, p7 + dict_close().len());
                                    if !match_at(b, p8, plist_close()) {
                                        Err(WeblocError::MalformedDocument)
                                    } else if ws_end(b, p8 + plist_close().len()) != b.len() {
                                        Err(WeblocError::MalformedDocument)
                                    } else {
                                        Ok(t)
                                    }
                                }
                            },
                        }
                    }
                }
            }
        }
    }
}


/// Appends a byte string.
fn append_bytes(out: &mut Vec<u8>, p: &[u8])
    ensures
        final(out)@ == old(out)@ + p@,
{
    let ghost start = out@;
    let mut i: usize = 0;
    while i < p.len()
        invariant
            i <= p@.len(),
            out@ == start + p@.take(i as int),
        decreases p@.len() - i,
    {
        out.push(p[i]);
        i = i + 1;
        assert(out@ =~= start + p@.take(i as int));
    }
    assert(out@ =~= start + p@);
}

fn mk_decl() -> (v: Vec<u8>)
    ensures
        v@ == xml_decl(),
{
    let mut v: Vec<u8> = Vec::new();
    v.push(0x3c);
    v.push(0x3f);
    v.push(0x78);
    v.push(0x6d);
    v.push(0x6c);
    v.push(0x20);
    v.push(0x76);
    v.push(0x65);
    v.push(0x72);
    v.push(0x73);
    v.push(0x69);
    v.push(0x6f);
    v.push(0x6e);
    v.push(0x3d);
    v.push(0x22);
    v.push(0x31);
    v.push(0x2e);
    v.push(0x30);
    v.push(0x22);
    v.push(0x20);
    v.push(0x65);
    v.push(0x6e);
    v.push(0x63);
    v.push(0x6f);
    v.push(0x64);
    v.push(0x69);
    v.push(0x6e);
    v.push(0x67);
    v.push(0x3d);
    v.push(0x22);
    v.push(0x55);
    v.push(0x54);
    v.push(0x46);
    v.push(0x2d);
    v.push(0x38);
    v.push(0x22);
    v.push(0x3f);
    v.push(0x3e);
    proof {
        assert(v@ =~= xml_decl());
    }
    v
}

#[verifier::rlimit(100)]
fn mk_doctype_head() -> (v: Vec<u8>)
    ensures
        v@ == doctype_head(),
{
    let mut v: Vec<u8> = Vec::new();
    v.push(0x3c);
    v.push(0x21);
    v.push(0x44);
    v.push(0x4f);
    v.push(0x43);
    v.push(0x54);
    v.push(0x59);
    v.push(0x50);
    v.push(0x45);
    v.push(0x20);
    v.push(0x70);
    v.push(0x6c);
    v.push(0x69);
    v.push(0x73);
    v.push(0x74);
    v.push(0x20);
    v.push(0x50);
    v.push(0x55);
    v.push(0x42);
    v.push(0x4c);
    v.push(0x49);
    v.push(0x43);
    v.push(0x20);
    v.push(0x22);
    v.push(0x2d);
    v.push(0x2f);
    v.push(0x2f);
    v.push(0x41);
    v.push(0x70);
    v.push(0x70);
    v.push(0x6c);
    v.push(0x65);
    v.push(0x2f);
    v.push(0x2f);
    v.push(0x44);
    v.push(0x54);
    v.push(0x44);
    v.push(0x20);
    v.push(0x50);
    v.push(0x4c);
    v.push(0x49);
    v.push(0x53);
    v.push(0x54);
    v.push(0x20);
    v.push(0x31);
    v.push(0x2e);
    v.push(0x30);
    v.push(0x2f);
    v.push(0x2f);
    v.push(0x45);
    v.push(0x4e);
    proof {
        assert(v@ =~= doctype_head());
    }
    v
}

#[verifier::rlimit(100)]
fn mk_doctype_tail() -> (v: Vec<u8>)
    ensures
        v@ == doctype_tail(),
{
    let mut v: Vec<u8> = Vec::new();
    v.push(0x22);
    v.push(0x20);
    v.push(0x22);
    v.push(0x68);
    v.push(0x74);
    v.push(0x74);
    v.push(0x70);
    v.push(0x3a);
    v.push(0x2f);
    v.push(0x2f);
    v.push(0x77);
    v.push(0x77);
    v.push(0x77);
    v.push(0x2e);
    v.push(0x61);
    v.push(0x70);
    v.push(0x70);
    v.push(0x6c);
    v.push(0x65);
    v.push(0x2e);
    v.push(0x63);
    v.push(0x6f);
    v.push(0x6d);
    v.push(0x2f);
    v.push(0x44);
    v.push(0x54);
    v.push(0x44);
    v.push(0x73);
    v.push(0x2f);
    v.push(0x50);
    v.push(0x72);
    v.push(0x6f);
    v.push(0x70);
    v.push(0x65);
    v.push(0x72);
    v.push(0x74);
    v.push(0x79);
    v.push(0x4c);
    v.push(0x69);
    v.push(0x73);
    v.push(0x74);
    v.push(0x2d);
    v.push(0x31);
    v.push(0x2e);
    v.push(0x30);
    v.push(0x2e);
    v.push(0x64);
    v.push(0x74);
    v.push(0x64);
    v.push(0x22);
    v.push(0x3e);
    proof {
        assert(v@ =~= doctype_tail());
    }
    v
}

fn mk_doctype() -> (v: Vec<u8>)
    ensures
        v@ == xml_doctype(),
{
    let mut v = mk_doctype_head();
    let w = mk_doctype_tail();
    append_bytes(&mut v, w.as_slice());
    v
}

fn mk_plist_open() -> (v: Vec<u8>)
    ensures
        v@ == plist_open(),
{
    let mut v: Vec<u8> = Vec::new();
    v.push(0x3c);
    v.push(0x70);
    v.push(0x6c);
    v.push(0x69);
    v.push(0x73);
    v.push(0x74);
    v.push(0x20);
    v.push(0x76);
    v.push(0x65);
    v.push(0x72);
    v.push(0x73);
    v.push(0x69);
    v.push(0x6f);
    v.push(0x6e);
    v.push(0x3d);
    v.push(0x22);
    v.push(0x31);
    v.push(0x2e);
    v.push(0x30);
    v.push(0x22);
    v.push(0x3e);
    proof {
        assert(v@ =~= plist_open());
    }
    v
}

fn mk_dict_open() -> (v: Vec<u8>)
    ensures
        v@ == dict_open(),
{
    let mut v: Vec<u8> = Vec::new();
    v.push(0x3c);
    v.push(0x64);
    v.push(0x69);
    v.push(0x63);
    v.push(0x74);
    v.push(0x3e);
    proof {
        assert(v@ =~= dict_open());
    }
    v
}

fn mk_key_url() -> (v: Vec<u8>)
    ensures
        v@ == key_url(),
{
    let mut v: Vec<u8> = Vec::new();
    v.push(0x3c);
    v.push(0x6b);
    v.push(0x65);
    v.push(0x79);
    v.push(0x3e);
    v.push(0x55);
    v.push(0x52);
    v.push(0x4c);
    v.push(0x3c);
    v.push(0x2f);
    v.push(0x6b);
    v.push(0x65);
    v.push(0x79);
    v.push(0x3e);
    proof {
        assert(v@ =~= key_url());
    }
    v
}

fn mk_str_open() -> (v: Vec<u8>)
    ensures
        v@ == str_open(),
{
    let mut v: Vec<u8> = Vec::new();
    v.push(0x3c);
    v.push(0x73);
    v.push(0x74);
    v.push(0x72);
    v.push(0x69);
    v.push(0x6e);
    v.push(0x67);
    v.push(0x3e);
    proof {
        assert(v@ =~= str_open());
    }
    v
}

fn mk_str_close() -> (v: Vec<u8>)
    ensures
        v@ == str_close(),
{
    let mut v: Vec<u8> = Vec::new();
    v.push(0x3c);
    v.push(0x2f);
    v.push(0x73);
    v.push(0x74);
    v.push(0x72);
    v.push(0x69);
    v.push(0x6e);
    v.push(0x67);
    v.push(0x3e);
    proof {
        assert(v@ =~= str_close());
    }
    v
}

fn mk_dict_close() -> (v: Vec<u8>)
    ensures
        v@ == dict_close(),
{
    let mut v: Vec<u8> = Vec::new();
    v.push(0x3c);
    v.push(0x2f);
    v.push(0x64);
    v.push(0x69);
    v.push(0x63);
    v.push(0x74);
    v.push(0x3e);
    proof {
        assert(v@ =~= dict_close());
    }
    v
}

fn mk_plist_close() -> (v: Vec<u8>)
    ensures
        v@ == plist_close(),
{
    let mut v: Vec<u8> = Vec::new();
    v.push(0x3c);
    v.push(0x2f);
    v.push(0x70);
    v.push(0x6c);
    v.push(0x69);
    v.push(0x73);
    v.push(0x74);
    v.push(0x3e);
    proof {
        assert(v@ =~= plist_close());
    }
    v
}


/// Whitespace test, mirroring [`is_ws`].
fn is_ws_byte(x: u8) -> (r: bool)
    ensures
        r == is_ws(x),
{
    x == 0x20 || x == 0x09 || x == 0x0a || x == 0x0d
}

/// Scans to the first non-whitespace position, mirroring [`ws_end`].
#[verifier::loop_isolation(false)]
fn ws_scan(b: &[u8], from: usize) -> (r: usize)
    requires
        from <= b@.len(),
    ensures
        r as int == ws_end(b@, from as int),
        from <= r <= b@.len(),
{
    let n = b.len();
    let mut i = from;
    while i < n && is_ws_byte(b[i])
        invariant
            from <= i <= n,
            ws_end(b@, from as int) == ws_end(b@, i as int),
        decreases n - i,
    {
        i = i + 1;
    }
    i
}

/// Scans to the first `<`, mirroring [`find_lt`].
#[verifier::loop_isolation(false)]
fn find_scan(b: &[u8], from: usize) -> (r: usize)
    requires
        from <= b@.len(),
    ensures
        r as int == find_lt(b@, from as int),
        from <= r <= b@.len(),
{
    let n = b.len();
    let mut i = from;
    while i < n && b[i] != 0x3c
        invariant
            from <= i <= n,
            find_lt(b@, from as int) == find_lt(b@, i as int),
        decreases n - i,
    {
        i = i + 1;
    }
    i
}

/// Pattern match at a position, mirroring [`match_at`].
#[verifier::loop_isolation(false)]
fn match_at_exec(b: &[u8], p: usize, pat: &[u8]) -> (r: bool)
    ensures
        r == match_at(b@, p as int, pat@),
{
    let n = b.len();
    let m = pat.len();
    if p > n || m > n - p {
        return false;
    }
    let mut i: usize = 0;
    while i < m
        invariant
            i <= m,
            b@.subrange(p as int, p + i) =~= pat@.take(i as int),
        decreases m - i,
    {
        if b[p + i] != pat[i] {
            proof {
                assert(b@.subrange(p as int, p + pat@.len())[i as int] == b@[p + i]);
            }
            return false;
        }
        i = i + 1;
        assert(b@.subrange(p as int, p + i) =~= pat@.take(i as int));
    }
    proof {
        assert(b@.subrange(p as int, p + pat@.len()) =~= pat@);
    }
    true
}

/// Joins an unescaped prefix with the rest of an unescape.
pub open spec fn unesc_join(pre: Seq<u8>, rest: Option<Seq<u8>>) -> Option<Seq<u8>> {
    match rest {
        Option::None => None,
        Option::Some(t) => Some(pre + t),
    }
}

/// Unescapes `b[from..to]`, mirroring [`unesc`].
#[verifier::loop_isolation(false)]
#[verifier::rlimit(100)]
fn unesc_range(b: &[u8], from: usize, to: usize) -> (r: Option<Vec<u8>>)
    requires
        from <= to <= b@.len(),
    ensures
        r is Some <==> unesc(b@.subrange(from as int, to as int)) is Some,
        r is Some ==> Some(r->0@) == unesc(b@.subrange(from as int, to as int)),
{
    let ghost s = b@.subrange(from as int, to as int);
    let mut acc: Vec<u8> = Vec::new();
    let mut i: usize = 0;
    let len = to - from;
    proof {
        assert(s.skip(0) =~= s);
        match unesc(s) {
            Option::None => {},
            Option::Some(t) => {
                assert(Seq::<u8>::empty() + t =~= t);
            },
        }
    }
    while i < len
        invariant
            i <= len,
            unesc(s) == unesc_join(acc@, unesc(s.skip(i as int))),
        decreases len - i,
    {
        let ghost rem = s.skip(i as int);
        proof {
            assert(rem.len() == len - i);
            assert(forall|j: int| 0 <= j < rem.len() ==> rem[j] == #[trigger] b@[from + i + j]);
        }
        let c = b[from + i];
        assert(c == rem[0]);
        if c == 0x3c {
            return None;
        } else if c == 0x26 {
            if 5 <= len - i && b[from + i + 1] == 0x61 && b[from + i + 2] == 0x6d && b[from + i
                + 3] == 0x70 && b[from + i + 4] == 0x3b {
                acc.push(0x26);
                proof {
                    assert(rem.skip(5) =~= s.skip(i + 5));
                }
                i = i + 5;
            } else if 4 <= len - i && b[from + i + 1] == 0x6c && b[from + i + 2] == 0x74 && b[from
                + i + 3] == 0x3b {
                acc.push(0x3c);
                proof {
                    assert(rem.skip(4) =~= s.skip(i + 4));
                }
                i = i + 4;
            } else if 4 <= len - i && b[from + i + 1] == 0x67 && b[from + i + 2] == 0x74 && b[from
                + i + 3] == 0x3b {
                acc.push(0x3e);
                proof {
                    assert(rem.skip(4) =~= s.skip(i + 4));
                }
                i = i + 4;
            } else if 6 <= len - i && b[from + i + 1] == 0x61 && b[from + i + 2] == 0x70 && b[from
                + i + 3] == 0x6f && b[from + i + 4] == 0x73 && b[from + i + 5] == 0x3b {
                acc.push(0x27);
                proof {
                    assert(rem.skip(6) =~= s.skip(i + 6));
                }
                i = i + 6;
            } else if 6 <= len - i && b[from + i + 1] == 0x71 && b[from + i + 2] == 0x75 && b[from
                + i + 3] == 0x6f && b[from + i + 4] == 0x74 && b[from + i + 5] == 0x3b {
                acc.push(0x22);
                proof {
                    assert(rem.skip(6) =~= s.skip(i + 6));
                }
                i = i + 6;
            } else {
                return None;
            }
        } else {
            acc.push(c);
            proof {
                assert(rem.skip(1) =~= s.skip(i + 1));
            }
            i = i + 1;
        }
    }
    proof {
        assert(s.skip(len as int) =~= Seq::<u8>::empty());
        assert(acc@ + Seq::<u8>::empty() =~= acc@);
    }
    Some(acc)
}


/// Serializes the URL bytes `u` as an XML plist `{ "URL": u }`, indented
/// with `ind`.
#[verifier::loop_isolation(false)]
#[verifier::rlimit(100)]
pub fn encode_xml_bytes(u: &[u8], ind: &[u8]) -> (r: Vec<u8>)
    ensures
        r@ == xml_encoded(u@, ind@),
{
    let mut out: Vec<u8> = Vec::new();
    let decl = mk_decl();
    let doctype = mk_doctype();
    let po = mk_plist_open();
    let dopen = mk_dict_open();
    let ku = mk_key_url();
    let so = mk_str_open();
    let sc = mk_str_close();
    let dclose = mk_dict_close();
    let pc = mk_plist_close();
    append_bytes(&mut out, decl.as_slice());
    out.push(0x0a);
    assert(out@ =~= xml_decl() + nl());
    append_bytes(&mut out, doctype.as_slice());
    out.push(0x0a);
    assert(out@ =~= xml_decl() + nl() + xml_doctype() + nl());
    append_bytes(&mut out, po.as_slice());
    out.push(0x0a);
    assert(out@ =~= xml_decl() + nl() + xml_doctype() + nl() + plist_open() + nl());
    append_bytes(&mut out, dopen.as_slice());
    out.push(0x0a);
    assert(out@ =~= xml_decl() + nl() + xml_doctype() + nl() + plist_open() + nl() + dict_open()
        + nl());
    append_bytes(&mut out, ind);
    append_bytes(&mut out, ku.as_slice());
    out.push(0x0a);
    assert(out@ =~= xml_decl() + nl() + xml_doctype() + nl() + plist_open() + nl() + dict_open()
        + nl() + ind@ + key_url() + nl());
    append_bytes(&mut out, ind);
    append_bytes(&mut out, so.as_slice());
    assert(out@ =~= xml_decl() + nl() + xml_doctype() + nl() + plist_open() + nl() + dict_open()
        + nl() + ind@ + key_url() + nl() + ind@ + str_open());
    let ghost before_text = out@;
    let mut i: usize = 0;
    while i < u.len()
        invariant
            i <= u@.len(),
            out@ == before_text + esc_bytes(u@.take(i as int)),
        decreases u@.len() - i,
    {
        let c = u[i];
        if c == 0x26 {
            out.push(0x26);
            out.push(0x61);
            out.push(0x6d);
            out.push(0x70);
            out.push(0x3b);
        } else if c == 0x3c {
            out.push(0x26);
            out.push(0x6c);
            out.push(0x74);
            out.push(0x3b);
        } else if c == 0x3e {
            out.push(0x26);
            out.push(0x67);
            out.push(0x74);
            out.push(0x3b);
        } else {
            out.push(c);
        }
        proof {
            lemma_esc_push(u@.take(i as int), u@[i as int]);
            assert(u@.take(i + 1) =~= u@.take(i as int).push(u@[i as int]));
            assert(out@ =~= before_text + esc_bytes(u@.take(i + 1)));
        }
        i = i + 1;
    }
    proof {
        assert(u@.take(u@.len() as int) =~= u@);
    }
    append_bytes(&mut out, sc.as_slice());
    out.push(0x0a);
    assert(out@ =~= before_text + esc_bytes(u@) + str_close() + nl());
    append_bytes(&mut out, dclose.as_slice());
    out.push(0x0a);
    assert(out@ =~= before_text + esc_bytes(u@) + str_close() + nl() + dict_close() + nl());
    append_bytes(&mut out, pc.as_slice());
    out.push(0x0a);
    proof {
        assert(out@ =~= xml_encoded(u@, ind@));
    }
    out
}

/// Escaping one more byte extends the escaped text at its end.
proof fn lemma_esc_push(s: Seq<u8>, x: u8)
    ensures
        esc_bytes(s.push(x)) == esc_bytes(s) + esc1(x),
    decreases s.len(),
{
    if s.len() == 0 {
        assert(s.push(x)[0] == x);
        assert(s.push(x).drop_first() =~= Seq::<u8>::empty());
        assert(esc_bytes(s.push(x)) == esc1(x) + esc_bytes(Seq::<u8>::empty()));
        assert(esc1(x) + Seq::<u8>::empty() =~= esc1(x));
        assert(esc_bytes(s) + esc1(x) =~= esc1(x));
    } else {
        assert(s.push(x)[0] == s[0]);
        assert(s.push(x).drop_first() =~= s.drop_first().push(x));
        lemma_esc_push(s.drop_first(), x);
        assert(esc_bytes(s.push(x)) == esc1(s[0]) + (esc_bytes(s.drop_first()) + esc1(x)));
        assert(esc1(s[0]) + (esc_bytes(s.drop_first()) + esc1(x)) =~= esc_bytes(s) + esc1(x));
    }
}

/// Extracts the URL bytes from an XML plist, exactly as [`xml_parse`]
/// describes: the result and the error kind agree with it on every input.
pub fn decode_xml_bytes(b: &[u8]) -> (r: Result<Vec<u8>, WeblocError>)
    ensures
        xml_parse(b@) is Ok ==> r is Ok && r->Ok_0@ == xml_parse(b@)->Ok_0,
        xml_parse(b@) is Err ==> r is Err && r->Err_0 == xml_parse(b@)->Err_0,
{
    let decl = mk_decl();
    let doctype = mk_doctype();
    let po = mk_plist_open();
    let dopen = mk_dict_open();
    let ku = mk_key_url();
    let so = mk_str_open();
    let sc = mk_str_close();
    let dclose = mk_dict_close();
    let pc = mk_plist_close();
    let n = b.len();
    let p0 = ws_scan(b, 0);
    let p1 = if match_at_exec(b, p0, decl.as_slice()) {
        ws_scan(b, p0 + decl.len())
    } else {
        p0
    };
    let p2 = if match_at_exec(b, p1, doctype.as_slice()) {
        ws_scan(b, p1 + doctype.len())
    } else {
        p1
    };
    if !match_at_exec(b, p2, po.as_slice()) {
        return Err(WeblocError::MalformedDocument);
    }
    let p3 = ws_scan(b, p2 + po.len());
    if !match_at_exec(b, p3, dopen.as_slice()) {
        return Err(WeblocError::MalformedDocument);
    }
    let p4 = ws_scan(b, p3 + dopen.len());
    if !match_at_exec(b, p4, ku.as_slice()) {
        return Err(WeblocError::UnexpectedShape);
    }
    let p5 = ws_scan(b, p4 + ku.len());
    if !match_at_exec(b, p5, so.as_slice()) {
        return Err(WeblocError::UnexpectedShape);
    }
    let p6 = p5 + so.len();
    let lt = find_scan(b, p6);
    if !match_at_exec(b, lt, sc.as_slice()) {
        return Err(WeblocError::MalformedDocument);
    }
    let t = match unesc_range(b, p6, lt) {
        Option::Some(t) => t,
        Option::None => {
            return Err(WeblocError::MalformedDocument);
        },
    };
    let p7 = ws_scan(b, lt + sc.len());
    if !match_at_exec(b, p7, dclose.as_slice()) {
        return Err(WeblocError::UnexpectedShape);
    }
    let p8 = ws_scan(b, p7 + dclose.len());
    if !match_at_exec(b, p8, pc.as_slice()) {
        return Err(WeblocError::MalformedDocument);
    }
    if ws_scan(b, p8 + pc.len()) != b.len() {
        return Err(WeblocError::MalformedDocument);
    }
    Ok(t)
}


/// Escaped text holds no raw `<`.
proof fn lemma_esc_no_lt(s: Seq<u8>)
    ensures
        forall|i: int| 0 <= i < esc_bytes(s).len() ==> #[trigger] esc_bytes(s)[i] != 0x3c,
    decreases s.len(),
{
    if s.len() > 0 {
        lemma_esc_no_lt(s.drop_first());
        let k = esc1(s[0]).len() as int;
        assert forall|i: int| 0 <= i < esc_bytes(s).len() implies #[trigger] esc_bytes(s)[i]
            != 0x3c by {
            if i < k {
                assert(esc_bytes(s)[i] == esc1(s[0])[i]);
            } else {
                assert(esc_bytes(s)[i] == esc_bytes(s.drop_first())[i - k]);
            }
        }
    }
}

/// Unescaping inverts escaping: text round-trips through the entities.
proof fn lemma_unesc_esc(s: Seq<u8>)
    ensures
        unesc(esc_bytes(s)) == Some(s),
    decreases s.len(),
{
    if s.len() == 0 {
        assert(unesc(esc_bytes(s)) == Some(Seq::<u8>::empty()));
        assert(Seq::<u8>::empty() =~= s);
    } else {
        let c = s[0];
        let rest = s.drop_first();
        lemma_unesc_esc(rest);
        let e = esc_bytes(s);
        assert(e == esc1(c) + esc_bytes(rest));
        if c == 0x26 {
            assert(e[0] == 0x26 && e[1] == 0x61 && e[2] == 0x6d && e[3] == 0x70 && e[4] == 0x3b);
            assert(e.skip(5) =~= esc_bytes(rest));
            assert(unesc(e) == Some(seq![0x26u8] + rest));
        } else if c == 0x3c {
            assert(e[0] == 0x26 && e[1] == 0x6c && e[2] == 0x74 && e[3] == 0x3b);
            assert(e.skip(4) =~= esc_bytes(rest));
            assert(!(e[2] == 0x6d));
            assert(unesc(e) == Some(seq![0x3cu8] + rest));
        } else if c == 0x3e {
            assert(e[0] == 0x26 && e[1] == 0x67 && e[2] == 0x74 && e[3] == 0x3b);
            assert(e.skip(4) =~= esc_bytes(rest));
            assert(unesc(e) == Some(seq![0x3eu8] + rest));
        } else {
            assert(e[0] == c && c != 0x3c && c != 0x26);
            assert(e.skip(1) =~= esc_bytes(rest));
            assert(unesc(e) == Some(seq![c] + rest));
        }
        assert(seq![c] + rest =~= s);
    }
}

/// A run of whitespace ends exactly at its first non-whitespace position.
proof fn lemma_ws_run(b: Seq<u8>, p: int, q: int)
    requires
        0 <= p <= q <= b.len(),
        forall|i: int| p <= i < q ==> is_ws(#[trigger] b[i]),
        q == b.len() || !is_ws(b[q]),
    ensures
        ws_end(b, p) == q,
    decreases q - p,
{
    if p < q {
        lemma_ws_run(b, p + 1, q);
    }
}

/// A scan for `<` over `<`-free text stops exactly at the next `<`.
proof fn lemma_find_lt_run(b: Seq<u8>, p: int, q: int)
    requires
        0 <= p <= q < b.len(),
        forall|i: int| p <= i < q ==> #[trigger] b[i] != 0x3c,
        b[q] == 0x3c,
    ensures
        find_lt(b, p) == q,
    decreases q - p,
{
    if p < q {
        lemma_find_lt_run(b, p + 1, q);
    }
}

/// Facts about the head of an encoded document, before the text.
#[verifier::rlimit(100)]
proof fn lemma_xml_rt_head(u: Seq<u8>, ind: Seq<u8>)
    requires
        ws_bytes(ind),
    ensures
        ws_end(xml_encoded(u, ind), 0) == 0,
        xml_encoded(u, ind).subrange(0, 38) =~= xml_decl(),
        ws_end(xml_encoded(u, ind), 38) == 39,
        xml_encoded(u, ind).subrange(39, 141) =~= xml_doctype(),
        ws_end(xml_encoded(u, ind), 141) == 142,
        xml_encoded(u, ind).subrange(142, 163) =~= plist_open(),
        ws_end(xml_encoded(u, ind), 163) == 164,
        xml_encoded(u, ind).subrange(164, 170) =~= dict_open(),
        ws_end(xml_encoded(u, ind), 170) == 171 + (ind.len() as int),
        xml_encoded(u, ind).subrange(171 + (ind.len() as int), 185 + (ind.len() as int)) =~= key_url(),
        ws_end(xml_encoded(u, ind), 185 + (ind.len() as int)) == 186 + 2 * (ind.len() as int),
        xml_encoded(u, ind).subrange(186 + 2 * (ind.len() as int), 194 + 2 * (ind.len() as int)) =~= str_open(),
{
    let b = xml_encoded(u, ind);
    let il = (ind.len() as int) as int;
    assert(b[0] == 0x3c);
    assert(b.subrange(0, 38) =~= xml_decl());
    assert(b[38] == 0x0a && b[39] == 0x3c);
    lemma_ws_run(b, 38, 39);
    assert(b.subrange(39, 141) =~= xml_doctype());
    assert(b[141] == 0x0a && b[142] == 0x3c);
    lemma_ws_run(b, 141, 142);
    assert(b.subrange(142, 163) =~= plist_open());
    assert(b[163] == 0x0a && b[164] == 0x3c);
    lemma_ws_run(b, 163, 164);
    assert(b.subrange(164, 170) =~= dict_open());
    assert(b[170] == 0x0a);
    assert(forall|j: int| 0 <= j < il ==> b[171 + j] == ind[j]);
    assert(b[171 + il] == 0x3c);
    lemma_ws_run(b, 170, 171 + il);
    assert(b.subrange(171 + il, 185 + il) =~= key_url());
    assert(b[185 + il] == 0x0a);
    assert(forall|j: int| 0 <= j < il ==> b[186 + il + j] == ind[j]);
    assert(b[186 + 2 * il] == 0x3c);
    lemma_ws_run(b, 185 + il, 186 + 2 * il);
    assert(b.subrange(186 + 2 * il, 194 + 2 * il) =~= str_open());
}

/// Facts about the text and the tail of an encoded document.
#[verifier::rlimit(100)]
proof fn lemma_xml_rt_tail(u: Seq<u8>, ind: Seq<u8>)
    requires
        ws_bytes(ind),
    ensures
        find_lt(xml_encoded(u, ind), 194 + 2 * (ind.len() as int)) == 194 + 2 * (ind.len() as int) + ((esc_bytes(u).len() as int)),
        unesc(
            xml_encoded(u, ind).subrange(
                194 + 2 * (ind.len() as int),
                194 + 2 * (ind.len() as int) + (esc_bytes(u).len() as int),
            ),
        ) == Some(u),
        xml_encoded(u, ind).subrange(
            194 + 2 * (ind.len() as int) + (esc_bytes(u).len() as int),
            203 + 2 * (ind.len() as int) + (esc_bytes(u).len() as int),
        ) =~= str_close(),
        ws_end(xml_encoded(u, ind), 203 + 2 * (ind.len() as int) + (esc_bytes(u).len() as int)) == 204 + 2
            * (ind.len() as int) + (esc_bytes(u).len() as int),
        xml_encoded(u, ind).subrange(
            204 + 2 * (ind.len() as int) + (esc_bytes(u).len() as int),
            211 + 2 * (ind.len() as int) + (esc_bytes(u).len() as int),
        ) =~= dict_close(),
        ws_end(xml_encoded(u, ind), 211 + 2 * (ind.len() as int) + (esc_bytes(u).len() as int)) == 212 + 2
            * (ind.len() as int) + (esc_bytes(u).len() as int),
        xml_encoded(u, ind).subrange(
            212 + 2 * (ind.len() as int) + (esc_bytes(u).len() as int),
            220 + 2 * (ind.len() as int) + (esc_bytes(u).len() as int),
        ) =~= plist_close(),
        ws_end(xml_encoded(u, ind), 220 + 2 * (ind.len() as int) + (esc_bytes(u).len() as int)) == xml_encoded(
            u,
            ind,
        ).len(),
{
    let b = xml_encoded(u, ind);
    let il = (ind.len() as int) as int;
    let el = (esc_bytes(u).len() as int);
    let n = b.len() as int;
    assert(n == 221 + 2 * il + el);
    let p6 = 194 + 2 * il;
    assert(forall|j: int| 0 <= j < el ==> b[p6 + j] == #[trigger] esc_bytes(u)[j]);
    lemma_esc_no_lt(u);
    assert(b[p6 + el] == 0x3c);
    lemma_find_lt_run(b, p6, p6 + el);
    assert(b.subrange(p6, p6 + el) =~= esc_bytes(u));
    lemma_unesc_esc(u);
    let lt = p6 + el;
    assert(b.subrange(lt, lt + 9) =~= str_close());
    assert(b[lt + 9] == 0x0a && b[lt + 10] == 0x3c);
    lemma_ws_run(b, lt + 9, lt + 10);
    assert(b.subrange(lt + 10, lt + 17) =~= dict_close());
    assert(b[lt + 17] == 0x0a && b[lt + 18] == 0x3c);
    lemma_ws_run(b, lt + 17, lt + 18);
    assert(b.subrange(lt + 18, lt + 26) =~= plist_close());
    assert(b[lt + 26] == 0x0a);
    lemma_ws_run(b, lt + 26, n);
}

/// Round trip: the document written for `u` with any whitespace indent
/// parses back to exactly `u`.
///
/// Together with the contracts of [`encode_xml_bytes`] and
/// [`decode_xml_bytes`] this says that decoding an encoded document returns
/// the URL bytes that went in, independent of the indentation chosen at
/// encode time. An indentation byte that is not whitespace breaks the
/// document shape, so the law excludes it.
#[verifier::rlimit(100)]
#[verifier::spinoff_prover]
pub proof fn lemma_xml_round_trip(u: Seq<u8>, ind: Seq<u8>)
    requires
        ws_bytes(ind),
    ensures
        xml_parse(xml_encoded(u, ind)) == Ok::<Seq<u8>, WeblocError>(u),
{
    let b = xml_encoded(u, ind);
    let il = ind.len() as int;
    let el = esc_bytes(u).len() as int;
    lemma_xml_rt_head(u, ind);
    lemma_xml_rt_tail(u, ind);
    assert(xml_parse(b) == Ok::<Seq<u8>, WeblocError>(u));
}


/// An encoded document is long and starts with `<`.
#[verifier::rlimit(100)]
pub proof fn lemma_xml_encoded_head(u: Seq<u8>, ind: Seq<u8>)
    ensures
        xml_encoded(u, ind).len() >= 221,
        xml_encoded(u, ind)[0] == 0x3c,
{
    assert(xml_encoded(u, ind)[0] == xml_decl()[0]);
}

/// An encoded document never carries the binary container's magic: it
/// starts with `<`.
#[verifier::rlimit(100)]
pub proof fn lemma_xml_not_magic(u: Seq<u8>, ind: Seq<u8>)
    ensures
        xml_encoded(u, ind).len() >= 221,
        xml_encoded(u, ind).subrange(0, 8) != crate::bplist::bp_magic(),
{
    lemma_xml_encoded_head(u, ind);
    assert(xml_encoded(u, ind).subrange(0, 8)[0] == xml_encoded(u, ind)[0]);
    assert(crate::bplist::bp_magic()[0] == 0x62);
}

} // verus!
