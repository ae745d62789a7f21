//! The binary property-list (`bplist00`) codec for the single document shape
//! `{ "URL": <ASCII string> }`.
//!
//! The container layout is: an 8-byte magic, an object table where each
//! object starts with a marker byte (type nibble and inline length, or a
//! following big-endian length field for long objects), an offset table with
//! one entry per object, and a fixed 32-byte trailer giving the offset entry
//! width, the object-reference width, the object count, the top object index
//! and the offset-table start.
//!
//! Decoding walks the trailer, resolves the top object, and requires it to be
//! a one-entry dictionary mapping the key `URL` to an ASCII string object.
//! A UTF-16 string value (marker nibble 6) is rejected as an unexpected
//! shape: URLs serialize to ASCII, so a conforming writer never emits one.
//! A dictionary marker with an extended entry count (15 or more entries) is
//! likewise rejected: such a dictionary cannot have exactly one entry.

use vstd::prelude::*;

use crate::bytes::ascii_bytes;
use crate::bytes::be_bytes;
use crate::bytes::be_val;
use crate::bytes::lemma_be_bytes_len;
use crate::bytes::lemma_be_round_trip;
use crate::bytes::lemma_be_val_bound;
use crate::bytes::lemma_p256_values;
use crate::bytes::lemma_be_val_single;
use crate::bytes::p256;
use crate::bytes::push_be;
use crate::bytes::read_be;
use crate::error::WeblocError;

verus! {

/// The 8-byte magic `bplist00`.
pub open spec fn bp_magic() -> Seq<u8> {
    seq![0x62u8, 0x70u8, 0x6cu8, 0x69u8, 0x73u8, 0x74u8, 0x30u8, 0x30u8]
}

/// The bytes of the dictionary key `URL`.
pub open spec fn url_key_bytes() -> Seq<u8> {
    seq![0x55u8, 0x52u8, 0x4cu8]
}

/// The serialized ASCII string object holding `u`.
pub open spec fn bp_str_obj(u: Seq<u8>) -> Seq<u8> {
    if u.len() < 15 {
        seq![(0x50 + u.len()) as u8] + u
    } else if u.len() < 256 {
        seq![0x5fu8, 0x10u8] + be_bytes(u.len() as nat, 1) + u
    } else if u.len() < 65536 {
        seq![0x5fu8, 0x11u8] + be_bytes(u.len() as nat, 2) + u
    } else if u.len() < 0x100000000 {
        seq![0x5fu8, 0x12u8] + be_bytes(u.len() as nat, 4) + u
    } else {
        seq![0x5fu8, 0x13u8] + be_bytes(u.len() as nat, 8) + u
    }
}

/// The object region: magic, the root dictionary (one entry, key reference 1,
/// value reference 2), the key object `URL`, and the string object.
pub open spec fn bp_objects(u: Seq<u8>) -> Seq<u8> {
    bp_magic() + seq![0xd1u8, 1u8, 2u8] + seq![0x53u8, 0x55u8, 0x52u8, 0x4cu8] + bp_str_obj(u)
}

/// The trailer: six unused bytes, offset entry width 1, reference width 1,
/// object count 3, top object 0, and the offset-table start.
pub open spec fn bp_trailer(toff: nat) -> Seq<u8> {
    seq![0u8, 0u8, 0u8, 0u8, 0u8, 0u8, 1u8, 1u8] + be_bytes(3, 8) + be_bytes(0, 8) + be_bytes(
        toff,
        8,
    )
}

/// The whole container this codec writes for the URL bytes `u`.
pub open spec fn bin_encoded(u: Seq<u8>) -> Seq<u8> {
    bp_objects(u) + seq![8u8, 11u8, 15u8] + bp_trailer(bp_objects(u).len() as nat)
}

/// The string object stored at offset `o`, if a well-formed ASCII string
/// object lies there, entirely before `end`.
pub open spec fn bp_string_at(b: Seq<u8>, o: int, end: int) -> Option<Seq<u8>> {
    if !(0 <= o && o < end && end <= b.len()) {
        None
    } else if b[o] / 16 != 5 {
        None
    } else if b[o] % 16 < 15 {
        let l = (b[o] % 16) as int;
        if o + 1 + l <= end && ascii_bytes(b.subrange(o + 1, o + 1 + l)) {
            Some(b.subrange(o + 1, o + 1 + l))
        } else {
            None
        }
    } else if o + 2 > end {
        None
    } else if b[o + 1] / 16 != 1 || b[o + 1] % 16 > 3 {
        None
    } else {
        let sz = szof((b[o + 1] % 16) as int);
        if o + 2 + sz > end {
            None
        } else {
            let l = be_val(b.subrange(o + 2, o + 2 + sz)) as int;
            if o + 2 + sz + l <= end && ascii_bytes(b.subrange(o + 2 + sz, o + 2 + sz + l)) {
                Some(b.subrange(o + 2 + sz, o + 2 + sz + l))
            } else {
                None
            }
        }
    }
}

/// The byte width named by a length-field size exponent.
pub open spec fn szof(e: int) -> int {
    if e == 0 {
        1
    } else if e == 1 {
        2
    } else if e == 2 {
        4
    } else {
        8
    }
}

/// The offset-table entry for object `i`.
pub open spec fn bp_obj_off(b: Seq<u8>, toff: int, osz: int, i: int) -> int {
    be_val(b.subrange(toff + i * osz, toff + i * osz + osz)) as int
}

/// The URL bytes carried by a binary plist, or the error kind its shape
/// earns. This is the reference meaning of [`decode_binary_bytes`].
pub open spec fn bin_parse(b: Seq<u8>) -> Result<Seq<u8>, WeblocError> {
    let n = b.len() as int;
    if n < 8 || b.subrange(0, 8) != bp_magic() {
        Err(WeblocError::MalformedContainer)
    } else if n < 40 {
        Err(WeblocError::MalformedContainer)
    } else {
        let osz = b[n - 26] as int;
        let rsz = b[n - 25] as int;
        let num = be_val(b.subrange(n - 24, n - 16)) as int;
        let top = be_val(b.subrange(n - 16, n - 8)) as int;
        let toff = be_val(b.subrange(n - 8, n)) as int;
        let end = n - 32;
        if !(1 <= osz && osz <= 8 && 1 <= rsz && rsz <= 8 && 1 <= num && top < num && 8 <= toff
            && toff + num * osz <= end) {
            Err(WeblocError::MalformedContainer)
        } else {
            let ro = bp_obj_off(b, toff, osz, top);
            if !(8 <= ro && ro < end) {
                Err(WeblocError::MalformedContainer)
            } else if b[ro] / 16 != 13 {
                Err(WeblocError::UnexpectedShape)
            } else if b[ro] % 16 != 1 {
                Err(WeblocError::UnexpectedShape)
            } else if ro + 1 + 2 * rsz > end {
                Err(WeblocError::MalformedContainer)
            } else {
                let kr = be_val(b.subrange(ro + 1, ro + 1 + rsz)) as int;
                let vr = be_val(b.subrange(ro + 1 + rsz, ro + 1 + 2 * rsz)) as int;
                if !(kr < num && vr < num) {
                    Err(WeblocError::MalformedContainer)
                } else {
                    let ko = bp_obj_off(b, toff, osz, kr);
                    let vo = bp_obj_off(b, toff, osz, vr);
                    match bp_string_at(b, ko, end) {
                        Option::None => Err(WeblocError::UnexpectedShape),
                        Option::Some(k) => if k != url_key_bytes() {
                            Err(WeblocError::UnexpectedShape)
                        } else {
                            match bp_string_at(b, vo, end) {
                                Option::None => Err(WeblocError::UnexpectedShape),
                                Option::Some(v) => Ok(v),
                            }
                        },
                    }
                }
            }
        }
    }
}

/// Serializes the URL bytes `u` as a binary plist `{ "URL": u }`.
///
/// The length bound keeps every internal offset field well inside `u64`.
#[verifier::rlimit(100)]
pub fn encode_binary_bytes(u: &[u8]) -> (r: Vec<u8>)
    requires
        u@.len() < 0x1000000000000000,
    ensures
        r@ == bin_encoded(u@),
{
    let mut out: Vec<u8> = Vec::new();
    out.push(0x62);
    out.push(0x70);
    out.push(0x6c);
    out.push(0x69);
    out.push(0x73);
    out.push(0x74);
    out.push(0x30);
    out.push(0x30);
    out.push(0xd1);
    out.push(1);
    out.push(2);
    out.push(0x53);
    out.push(0x55);
    out.push(0x52);
    out.push(0x4c);
    let len = u.len();
    let len64 = len as u64;
    if len < 15 {
        out.push(0x50 + len as u8);
    } else if len64 < 256 {
        out.push(0x5f);
        out.push(0x10);
        push_be(&mut out, len64, 1);
    } else if len64 < 65536 {
        out.push(0x5f);
        out.push(0x11);
        push_be(&mut out, len64, 2);
    } else if len64 < 0x100000000 {
        out.push(0x5f);
        out.push(0x12);
        push_be(&mut out, len64, 4);
    } else {
        out.push(0x5f);
        out.push(0x13);
        push_be(&mut out, len64, 8);
    }
    let ghost before_url = out@;
    let mut i: usize = 0;
    while i < len
        invariant
            i <= len,
            len == u@.len(),
            out@ == before_url + u@.take(i as int),
        decreases len - i,
    {
        out.push(u[i]);
        i = i + 1;
        assert(out@ =~= before_url + u@.take(i as int));
    }
    proof {
        assert(u@.take(len as int) =~= u@);
        assert(out@ =~= bp_objects(u@)) by {
            lemma_be_bytes_len(u@.len() as nat, 1);
            lemma_be_bytes_len(u@.len() as nat, 2);
            lemma_be_bytes_len(u@.len() as nat, 4);
            lemma_be_bytes_len(u@.len() as nat, 8);
        }
    }
    let toff = out.len();
    out.push(8);
    out.push(11);
    out.push(15);
    out.push(0);
    out.push(0);
    out.push(0);
    out.push(0);
    out.push(0);
    out.push(0);
    out.push(1);
    out.push(1);
    push_be(&mut out, 3, 8);
    push_be(&mut out, 0, 8);
    push_be(&mut out, toff as u64, 8);
    proof {
        assert(out@ =~= bin_encoded(u@));
    }
    out
}

/// Reads the ASCII string object at `o`, mirroring [`bp_string_at`].
#[verifier::loop_isolation(false)]
fn read_string_at(b: &[u8], o: usize, end: usize) -> (r: Option<Vec<u8>>)
    requires
        end <= b@.len(),
    ensures
        r is Some <==> bp_string_at(b@, o as int, end as int) is Some,
        r is Some ==> Some(r->0@) == bp_string_at(b@, o as int, end as int),
{
    if o >= end {
        return None;
    }
    let m = b[o];
    if m / 16 != 5 {
        return None;
    }
    let start: usize;
    let l64: u64;
    if m % 16 < 15 {
        start = o + 1;
        l64 = (m % 16) as u64;
    } else {
        if end - o < 2 {
            return None;
        }
        let im = b[o + 1];
        if im / 16 != 1 || im % 16 > 3 {
            return None;
        }
        let e = im % 16;
        let sz: usize = if e == 0 {
            1
        } else if e == 1 {
            2
        } else if e == 2 {
            4
        } else {
            8
        };
        assert(sz == szof((b@[o + 1] % 16) as int));
        if end - o - 2 < sz {
            return None;
        }
        start = o + 2 + sz;
        l64 = read_be(b, o + 2, sz);
        proof {
            lemma_be_val_bound(b@.subrange(o + 2, o + 2 + sz));
        }
    }
    // the data must lie before `end`
    if l64 > (end - start) as u64 {
        return None;
    }
    let l = l64 as usize;
    let mut data: Vec<u8> = Vec::new();
    let mut i: usize = 0;
    while i < l
        invariant
            i <= l,
            start + l <= end <= b@.len(),
            data@ == b@.subrange(start as int, start + i),
            ascii_bytes(b@.subrange(start as int, start + i)),
        decreases l - i,
    {
        if b[start + i] >= 128 {
            proof {
                let s = b@.subrange(start as int, start + l as int);
                assert(s[i as int] == b@[start + i]);
                assert(!ascii_bytes(s));
            }
            return None;
        }
        data.push(b[start + i]);
        i = i + 1;
        assert(data@ =~= b@.subrange(start as int, start + i));
        proof {
            let s1 = b@.subrange(start as int, start + i - 1);
            let s2 = b@.subrange(start as int, start + i);
            assert forall|j: int| 0 <= j < s2.len() implies s2[j] < 128 by {
                if j < i - 1 {
                    assert(s1[j] < 128);
                    assert(s2[j] == s1[j]);
                } else {
                    assert(s2[j] == b@[start + i - 1]);
                }
            }
        }
    }
    assert(b@.subrange(start as int, start + i) =~= b@.subrange(start as int, start + l as int));
    Some(data)
}

/// Extracts the URL bytes from a binary plist, exactly as [`bin_parse`]
/// describes: the result and the error kind agree with it on every input.
pub fn decode_binary_bytes(b: &[u8]) -> (r: Result<Vec<u8>, WeblocError>)
    ensures
        bin_parse(b@) is Ok ==> r is Ok && r->Ok_0@ == bin_parse(b@)->Ok_0,
        bin_parse(b@) is Err ==> r is Err && r->Err_0 == bin_parse(b@)->Err_0,
{
    let n = b.len();
    if n < 8 {
        return Err(WeblocError::MalformedContainer);
    }
    if b[0] != 0x62 || b[1] != 0x70 || b[2] != 0x6c || b[3] != 0x69 || b[4] != 0x73 || b[5] != 0x74
        || b[6] != 0x30 || b[7] != 0x30 {
        proof {
            assert(b@.subrange(0, 8) != bp_magic());
        }
        return Err(WeblocError::MalformedContainer);
    }
    assert(b@.subrange(0, 8) =~= bp_magic());
    if n < 40 {
        return Err(WeblocError::MalformedContainer);
    }
    let osz = b[n - 26] as usize;
    let rsz = b[n - 25] as usize;
    let num = read_be(b, n - 24, 8);
    let top = read_be(b, n - 16, 8);
    let toff = read_be(b, n - 8, 8);
    let end = n - 32;
    if !(1 <= osz && osz <= 8 && 1 <= rsz && rsz <= 8 && 1 <= num && top < num && 8 <= toff) {
        return Err(WeblocError::MalformedContainer);
    }
    proof {
        assert((num as int) * (osz as int) <= (num as int) * 8) by (nonlinear_arith)
            requires
                0 <= num,
                0 <= osz <= 8,
        ;
        assert((num as int) * (osz as int) >= 0) by (nonlinear_arith)
            requires
                0 <= num,
                0 <= osz,
        ;
    }
    if (toff as u128) + (num as u128) * (osz as u128) > end as u128 {
        return Err(WeblocError::MalformedContainer);
    }
    let ro = obj_off(b, toff, osz, top, num, end);
    if !(8 <= ro && ro < end as u64) {
        return Err(WeblocError::MalformedContainer);
    }
    let ro = ro as usize;
    let m = b[ro];
    if m / 16 != 13 {
        return Err(WeblocError::UnexpectedShape);
    }
    if m % 16 != 1 {
        return Err(WeblocError::UnexpectedShape);
    }
    if ro + 1 + 2 * rsz > end {
        return Err(WeblocError::MalformedContainer);
    }
    let kr = read_be(b, ro + 1, rsz);
    let vr = read_be(b, ro + 1 + rsz, rsz);
    if !(kr < num && vr < num) {
        return Err(WeblocError::MalformedContainer);
    }
    let ko = obj_off(b, toff, osz, kr, num, end);
    let vo = obj_off(b, toff, osz, vr, num, end);
    match read_string_at_off(b, ko, end) {
        Option::None => Err(WeblocError::UnexpectedShape),
        Option::Some(k) => {
            if !(k.len() == 3 && k[0] == 0x55 && k[1] == 0x52 && k[2] == 0x4c) {
                proof {
                    assert(k@ != url_key_bytes());
                }
                return Err(WeblocError::UnexpectedShape);
            }
            assert(k@ =~= url_key_bytes());
            match read_string_at_off(b, vo, end) {
                Option::None => Err(WeblocError::UnexpectedShape),
                Option::Some(v) => Ok(v),
            }
        },
    }
}

/// Reads the offset-table entry for object `i`.
fn obj_off(b: &[u8], toff: u64, osz: usize, i: u64, num: u64, end: usize) -> (r: u64)
    requires
        1 <= osz <= 8,
        i < num,
        end <= b@.len(),
        toff + num * osz <= end,
    ensures
        r as int == bp_obj_off(b@, toff as int, osz as int, i as int),
{
    proof {
        assert((i + 1) * (osz as int) <= num * (osz as int)) by (nonlinear_arith)
            requires
                i < num,
                osz >= 1,
        ;
        assert(i * (osz as int) >= 0) by (nonlinear_arith)
            requires
                i >= 0,
                osz >= 0,
        ;
        assert((i + 1) * (osz as int) == i * (osz as int) + osz) by (nonlinear_arith);
    }
    let pos128 = (toff as u128) + (i as u128) * (osz as u128);
    let pos = pos128 as usize;
    read_be(b, pos, osz)
}

/// A string object at a `u64` offset: bridges to [`read_string_at`].
fn read_string_at_off(b: &[u8], o: u64, end: usize) -> (r: Option<Vec<u8>>)
    requires
        end <= b@.len(),
    ensures
        r is Some <==> bp_string_at(b@, o as int, end as int) is Some,
        r is Some ==> Some(r->0@) == bp_string_at(b@, o as int, end as int),
{
    if o >= end as u64 {
        return None;
    }
    read_string_at(b, o as usize, end)
}

} // verus!

verus! {

/// The string object written for `u` reads back as exactly `u`.
proof fn lemma_str_obj_reads_back(b: Seq<u8>, o: int, end: int, u: Seq<u8>)
    requires
        crate::bytes::ascii_bytes(u),
        u.len() < 0x1000000000000000,
        0 <= o,
        o + bp_str_obj(u).len() <= end,
        end <= b.len(),
        b.subrange(o, o + bp_str_obj(u).len()) == bp_str_obj(u),
    ensures
        bp_string_at(b, o, end) == Some(u),
{
    let s = bp_str_obj(u);
    let so = s.len() as int;
    let l = u.len() as int;
    lemma_p256_values();
    lemma_be_bytes_len(l as nat, 1);
    lemma_be_bytes_len(l as nat, 2);
    lemma_be_bytes_len(l as nat, 4);
    lemma_be_bytes_len(l as nat, 8);
    assert(b[o] == s[0]) by {
        assert(b.subrange(o, o + so)[0] == b[o]);
    }
    if l < 15 {
        assert(b[o] == (0x50 + l) as u8);
        assert(b[o] / 16 == 5 && b[o] % 16 == l);
        assert(b.subrange(o + 1, o + 1 + l) =~= u) by {
            assert forall|i: int| 0 <= i < l implies #[trigger] b.subrange(o + 1, o + 1 + l)[i]
                == u[i] by {
                assert(b.subrange(o, o + so)[i + 1] == b[i + 1 + o]);
                assert(s[i + 1] == u[i]);
            }
        }
        assert(bp_string_at(b, o, end) == Some(u));
    } else {
        assert(b[o] / 16 == 5 && b[o] % 16 == 15);
        assert(b[o + 1] == s[1]) by {
            assert(b.subrange(o, o + so)[1] == b[o + 1]);
        }
        let e = (b[o + 1] % 16) as int;
        let sz = szof(e);
        assert(if l < 256 {
            e == 0 && sz == 1
        } else if l < 65536 {
            e == 1 && sz == 2
        } else if l < 0x100000000 {
            e == 2 && sz == 4
        } else {
            e == 3 && sz == 8
        });
        assert(s =~= seq![0x5fu8, s[1]] + be_bytes(l as nat, sz as nat) + u);
        assert(b.subrange(o + 2, o + 2 + sz) =~= be_bytes(l as nat, sz as nat)) by {
            assert forall|i: int| 0 <= i < sz implies #[trigger] b.subrange(o + 2, o + 2 + sz)[i]
                == be_bytes(l as nat, sz as nat)[i] by {
                assert(b.subrange(o, o + so)[i + 2] == b[i + 2 + o]);
                assert(s[i + 2] == be_bytes(l as nat, sz as nat)[i]);
            }
        }
        assert(l < p256(sz as nat));
        lemma_be_round_trip(l as nat, sz as nat);
        assert(be_val(b.subrange(o + 2, o + 2 + sz)) as int == l);
        assert(b.subrange(o + 2 + sz, o + 2 + sz + l) =~= u) by {
            assert forall|i: int| 0 <= i < l implies #[trigger] b.subrange(
                o + 2 + sz,
                o + 2 + sz + l,
            )[i] == u[i] by {
                assert(b.subrange(o, o + so)[i + 2 + sz] == b[i + 2 + sz + o]);
                assert(s[i + 2 + sz] == u[i]);
            }
        }
        assert(bp_string_at(b, o, end) == Some(u));
    }
}

/// Round trip: the container written for `u` parses back to exactly `u`.
///
/// Together with the contracts of [`encode_binary_bytes`] and
/// [`decode_binary_bytes`] this says that decoding an encoded document
/// returns the URL bytes that went in, for every ASCII URL string.
#[verifier::rlimit(100)]
pub proof fn lemma_bin_round_trip(u: Seq<u8>)
    requires
        crate::bytes::ascii_bytes(u),
        u.len() < 0x1000000000000000,
    ensures
        bin_parse(bin_encoded(u)) == Ok::<Seq<u8>, WeblocError>(u),
{
    let b = bin_encoded(u);
    let p = bp_objects(u);
    let s = bp_str_obj(u);
    let l = u.len() as int;
    let so = s.len() as int;
    lemma_be_bytes_len(l as nat, 1);
    lemma_be_bytes_len(l as nat, 2);
    lemma_be_bytes_len(l as nat, 4);
    lemma_be_bytes_len(l as nat, 8);
    lemma_be_bytes_len(3, 8);
    lemma_be_bytes_len(0, 8);
    lemma_be_bytes_len((15 + so) as nat, 8);
    lemma_p256_values();
    assert(1 <= so && so == s.len());
    assert(p.len() == 15 + so);
    let toff = 15 + so;
    let n = b.len() as int;
    assert(n == 50 + so);
    let end = n - 32;
    assert(end == toff + 3);
    // magic
    assert(b.subrange(0, 8) =~= bp_magic());
    // trailer fields
    assert(b[n - 26] == 1 && b[n - 25] == 1);
    assert(b.subrange(n - 24, n - 16) =~= be_bytes(3, 8));
    assert(b.subrange(n - 16, n - 8) =~= be_bytes(0, 8));
    assert(b.subrange(n - 8, n) =~= be_bytes(toff as nat, 8));
    lemma_be_round_trip(3, 8);
    lemma_be_round_trip(0, 8);
    lemma_be_round_trip(toff as nat, 8);
    let num = be_val(b.subrange(n - 24, n - 16)) as int;
    let top = be_val(b.subrange(n - 16, n - 8)) as int;
    assert(num == 3 && top == 0);
    assert(be_val(b.subrange(n - 8, n)) as int == toff);
    // offset table entries
    assert(b[toff] == 8 && b[toff + 1] == 11 && b[toff + 2] == 15);
    assert(bp_obj_off(b, toff, 1, 0) == 8) by {
        assert(toff + 0 * 1 == toff && toff + 0 * 1 + 1 == toff + 1);
        assert(b.subrange(toff, toff + 1) =~= seq![8u8]);
        lemma_be_val_single(8);
    }
    assert(bp_obj_off(b, toff, 1, 1) == 11) by {
        assert(toff + 1 * 1 == toff + 1 && toff + 1 * 1 + 1 == toff + 2);
        assert(b.subrange(toff + 1, toff + 2) =~= seq![11u8]);
        lemma_be_val_single(11);
    }
    assert(bp_obj_off(b, toff, 1, 2) == 15) by {
        assert(toff + 2 * 1 == toff + 2 && toff + 2 * 1 + 1 == toff + 3);
        assert(b.subrange(toff + 2, toff + 3) =~= seq![15u8]);
        lemma_be_val_single(15);
    }
    // the root dictionary
    assert(b[8] == 0xd1u8 && b[9] == 1u8 && b[10] == 2u8);
    assert(b[8] / 16 == 13 && b[8] % 16 == 1);
    assert(b.subrange(9, 10) =~= seq![1u8]);
    assert(b.subrange(10, 11) =~= seq![2u8]);
    lemma_be_val_single(1);
    lemma_be_val_single(2);
    assert(be_val(b.subrange(9, 10)) as int == 1);
    assert(be_val(b.subrange(10, 11)) as int == 2);
    // the key object
    assert(b[11] == 0x53u8);
    assert(b[11] / 16 == 5 && b[11] % 16 == 3);
    assert(b.subrange(12, 15) =~= url_key_bytes());
    assert(crate::bytes::ascii_bytes(url_key_bytes()));
    assert(bp_string_at(b, 11, end) == Some(url_key_bytes()));
    // the value object
    assert(b.subrange(15, 15 + so) =~= s);
    lemma_str_obj_reads_back(b, 15, end, u);
    assert(bin_parse(b) == Ok::<Seq<u8>, WeblocError>(u));
}

} // verus!

verus! {

/// A parse that succeeds yields ASCII URL bytes: the string object that
/// produced them admits only ASCII data.
pub proof fn lemma_bin_parse_ascii(b: Seq<u8>)
    requires
        bin_parse(b) is Ok,
    ensures
        crate::bytes::ascii_bytes(bin_parse(b)->Ok_0),
{
}

} // verus!
