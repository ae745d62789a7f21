//! The `.webloc` document model and the top-level codec operations.

use vstd::prelude::*;

use crate::bplist::bin_encoded;
use crate::bplist::bp_magic;
use crate::bplist::bin_parse;
use crate::bplist::decode_binary_bytes;
use crate::bplist::encode_binary_bytes;
use crate::bplist::lemma_bin_round_trip;
use crate::bytes::chars_of;
use crate::bytes::lemma_ascii_chars_vstd;
use crate::bytes::lemma_ascii_str_bytes;
use crate::bytes::lemma_ascii_utf8;
use crate::bytes::str_bytes;
use crate::bytes::utf8_to_str;
use crate::error::WeblocError;
use crate::urlval::canonical_url;
use crate::urlval::url_parse;
use crate::urlval::Url;
use crate::xmlplist::decode_xml_bytes;
use crate::xmlplist::encode_xml_bytes;
use crate::xmlplist::lemma_xml_round_trip;
use crate::xmlplist::ws_bytes;
use crate::xmlplist::xml_encoded;
use crate::xmlplist::xml_parse;

verus! {

/// The contents of a `.webloc` file: exactly one URL.
pub struct Webloc {
    /// The URL stored in the `.webloc` file.
    pub url: Url,
}

/// The document meaning of a binary plist: the URL it carries, validated,
/// or the error kind its shape earns.
pub open spec fn bin_decoded(b: Seq<u8>) -> Result<Seq<char>, WeblocError> {
    match bin_parse(b) {
        Err(e) => Err(e),
        Ok(ub) => match url_parse(chars_of(ub)) {
            Option::None => Err(WeblocError::InvalidUrl),
            Option::Some(c) => Ok(c),
        },
    }
}

/// Serializes `w` as a binary plist `{ "URL": <url text> }`.
///
/// The length bound is a machine limit: it keeps the container's offset
/// arithmetic inside `u64`.
pub fn encode_binary(w: &Webloc) -> (r: Vec<u8>)
    requires
        w.url@.len() < 0x1000000000000000,
    ensures
        r@ == bin_encoded(str_bytes(w.url@)),
{
    proof {
        use_type_invariant(&w.url);
        Url::lemma_wf_canonical(w.url);
        lemma_ascii_chars_vstd(w.url@);
    }
    let s = w.url.as_str();
    let bs = s.as_bytes();
    proof {
        vstd::string::is_ascii_spec_bytes(s);
        assert(bs@ =~= str_bytes(w.url@));
    }
    encode_binary_bytes(bs)
}

/// Decodes a binary plist into a `Webloc`, validating the container shape
/// and the URL text, exactly as [`bin_decoded`] describes.
pub fn decode_binary(b: &[u8]) -> (r: Result<Webloc, WeblocError>)
    ensures
        r is Ok <==> bin_decoded(b@) is Ok,
        r is Ok ==> r->Ok_0.url@ == bin_decoded(b@)->Ok_0,
        r is Err ==> r->Err_0 == bin_decoded(b@)->Err_0,
{
    match decode_binary_bytes(b) {
        Err(e) => Err(e),
        Ok(v) => {
            proof {
                crate::bplist::lemma_bin_parse_ascii(b@);
                lemma_ascii_utf8(v@);
            }
            let s = utf8_to_str(v.as_slice()).unwrap();
            match Url::parse(s) {
                Ok(u) => Ok(Webloc { url: u }),
                Err(e) => Err(e),
            }
        },
    }
}

/// Round trip through the binary form: for every canonical URL text `u`,
/// decoding the container encoded for it yields exactly `u` back.
pub proof fn lemma_round_trip_binary(u: Seq<char>)
    requires
        canonical_url(u),
        u.len() < 0x1000000000000000,
    ensures
        bin_decoded(bin_encoded(str_bytes(u))) == Ok::<Seq<char>, WeblocError>(u),
{
    lemma_ascii_str_bytes(u);
    lemma_bin_round_trip(str_bytes(u));
}


/// The document meaning of an XML plist: the URL it carries, validated, or
/// the error kind its shape earns. Text that is not UTF-8 makes the
/// document malformed.
pub open spec fn xml_decoded(b: Seq<u8>) -> Result<Seq<char>, WeblocError> {
    match xml_parse(b) {
        Err(e) => Err(e),
        Ok(ub) => if !vstd::utf8::valid_utf8(ub) {
            Err(WeblocError::MalformedDocument)
        } else {
            match url_parse(vstd::utf8::decode_utf8(ub)) {
                Option::None => Err(WeblocError::InvalidUrl),
                Option::Some(c) => Ok(c),
            }
        },
    }
}

/// Serializes `w` as an XML plist `{ "URL": <url text> }`, pretty-printed
/// with the caller-supplied indentation string.
pub fn encode_xml(w: &Webloc, indent: &str) -> (r: Vec<u8>)
    ensures
        r@ == xml_encoded(str_bytes(w.url@), vstd::utf8::encode_utf8(indent@)),
{
    proof {
        use_type_invariant(&w.url);
        Url::lemma_wf_canonical(w.url);
        lemma_ascii_chars_vstd(w.url@);
    }
    let s = w.url.as_str();
    let bs = s.as_bytes();
    proof {
        vstd::string::is_ascii_spec_bytes(s);
        assert(bs@ =~= str_bytes(w.url@));
    }
    let ib = indent.as_bytes();
    encode_xml_bytes(bs, ib)
}

/// Decodes an XML plist into a `Webloc`, validating the document shape and
/// the URL text, exactly as [`xml_decoded`] describes.
pub fn decode_xml(b: &[u8]) -> (r: Result<Webloc, WeblocError>)
    ensures
        r is Ok <==> xml_decoded(b@) is Ok,
        r is Ok ==> r->Ok_0.url@ == xml_decoded(b@)->Ok_0,
        r is Err ==> r->Err_0 == xml_decoded(b@)->Err_0,
{
    match decode_xml_bytes(b) {
        Err(e) => Err(e),
        Ok(v) => {
            match utf8_to_str(v.as_slice()) {
                Option::None => Err(WeblocError::MalformedDocument),
                Option::Some(s) => match Url::parse(s) {
                    Ok(u) => Ok(Webloc { url: u }),
                    Err(e) => Err(e),
                },
            }
        },
    }
}

/// The document meaning of any plist: a container starting with the
/// `bplist00` magic is binary, anything else is read as XML.
pub open spec fn decoded(b: Seq<u8>) -> Result<Seq<char>, WeblocError> {
    if b.len() >= 8 && b.subrange(0, 8) == bp_magic() {
        bin_decoded(b)
    } else {
        xml_decoded(b)
    }
}

/// Decodes a plist of either form into a `Webloc`, detecting the form from
/// the leading bytes alone, exactly as [`decoded`] describes.
#[verifier::rlimit(100)]
pub fn decode(b: &[u8]) -> (r: Result<Webloc, WeblocError>)
    ensures
        r is Ok <==> decoded(b@) is Ok,
        r is Ok ==> r->Ok_0.url@ == decoded(b@)->Ok_0,
        r is Err ==> r->Err_0 == decoded(b@)->Err_0,
{
    if b.len() >= 8 && b[0] == 0x62 && b[1] == 0x70 && b[2] == 0x6c && b[3] == 0x69 && b[4]
        == 0x73 && b[5] == 0x74 && b[6] == 0x30 && b[7] == 0x30 {
        assert(b@.subrange(0, 8) =~= bp_magic());
        decode_binary(b)
    } else {
        proof {
            if b@.len() >= 8 {
                if b@.subrange(0, 8) == bp_magic() {
                    assert(b@.subrange(0, 8)[0] == b@[0]);
                    assert(b@.subrange(0, 8)[1] == b@[1]);
                    assert(b@.subrange(0, 8)[2] == b@[2]);
                    assert(b@.subrange(0, 8)[3] == b@[3]);
                    assert(b@.subrange(0, 8)[4] == b@[4]);
                    assert(b@.subrange(0, 8)[5] == b@[5]);
                    assert(b@.subrange(0, 8)[6] == b@[6]);
                    assert(b@.subrange(0, 8)[7] == b@[7]);
                }
            }
        }
        decode_xml(b)
    }
}

/// Round trip through the XML form: for every canonical URL text `u` and
/// every whitespace indentation, decoding the document encoded for it
/// yields exactly `u` back, independent of the indentation.
pub proof fn lemma_round_trip_xml(u: Seq<char>, ind: Seq<u8>)
    requires
        canonical_url(u),
        ws_bytes(ind),
    ensures
        xml_decoded(xml_encoded(str_bytes(u), ind)) == Ok::<Seq<char>, WeblocError>(u),
{
    lemma_ascii_str_bytes(u);
    lemma_xml_round_trip(str_bytes(u), ind);
    lemma_ascii_utf8(str_bytes(u));
}

/// The decoder routes a binary container to the binary decoder by its
/// magic alone.
#[verifier::rlimit(100)]
proof fn lemma_decode_detects_binary(u: Seq<char>)
    requires
        canonical_url(u),
        u.len() < 0x1000000000000000,
    ensures
        decoded(bin_encoded(str_bytes(u))) == Ok::<Seq<char>, WeblocError>(u),
{
    let bb = bin_encoded(str_bytes(u));
    assert(bb.subrange(0, 8) =~= bp_magic());
    lemma_round_trip_binary(u);
}

/// A document without the binary magic is decoded as XML.
proof fn lemma_decoded_is_xml(b: Seq<u8>)
    requires
        b.len() < 8 || b.subrange(0, 8) != bp_magic(),
    ensures
        decoded(b) == xml_decoded(b),
{
}

/// The decoder routes an XML document to the XML decoder: it cannot start
/// with the binary magic.
#[verifier::rlimit(100)]
#[verifier::spinoff_prover]
proof fn lemma_decode_detects_xml(u: Seq<char>, ind: Seq<u8>)
    requires
        canonical_url(u),
        ws_bytes(ind),
    ensures
        decoded(xml_encoded(str_bytes(u), ind)) == Ok::<Seq<char>, WeblocError>(u),
{
    crate::xmlplist::lemma_xml_not_magic(str_bytes(u), ind);
    lemma_decoded_is_xml(xml_encoded(str_bytes(u), ind));
    lemma_round_trip_xml(u, ind);
}

/// Format auto-detection: the decoder routes a binary container to the
/// binary decoder and an XML document to the XML decoder by the leading
/// bytes alone, and the two forms carry the same URL to the same result.
pub proof fn lemma_decode_detects_form(u: Seq<char>, ind: Seq<u8>)
    requires
        canonical_url(u),
        u.len() < 0x1000000000000000,
        ws_bytes(ind),
    ensures
        decoded(bin_encoded(str_bytes(u))) == Ok::<Seq<char>, WeblocError>(u),
        decoded(xml_encoded(str_bytes(u), ind)) == Ok::<Seq<char>, WeblocError>(u),
{
    lemma_decode_detects_binary(u);
    lemma_decode_detects_xml(u, ind);
}

} // verus!
