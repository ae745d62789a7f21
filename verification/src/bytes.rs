//! Byte-level helpers shared by the two plist codecs: big-endian integer
//! fields, and the correspondence between ASCII text and its bytes.

use vstd::prelude::*;

verus! {

/// The value of a big-endian byte string.
pub open spec fn be_val(s: Seq<u8>) -> nat
    decreases s.len(),
{
    if s.len() == 0 {
        0
    } else {
        be_val(s.drop_last()) * 256 + s.last() as nat
    }
}

/// The `k`-byte big-endian encoding of `n % 256^k`.
pub open spec fn be_bytes(n: nat, k: nat) -> Seq<u8>
    decreases k,
{
    if k == 0 {
        seq![]
    } else {
        be_bytes(n / 256, (k - 1) as nat).push((n % 256) as u8)
    }
}

/// 256 to the power `k`.
pub open spec fn p256(k: nat) -> nat
    decreases k,
{
    if k == 0 {
        1
    } else {
        256 * p256((k - 1) as nat)
    }
}

pub proof fn lemma_be_bytes_len(n: nat, k: nat)
    ensures
        be_bytes(n, k).len() == k,
    decreases k,
{
    if k > 0 {
        lemma_be_bytes_len(n / 256, (k - 1) as nat);
    }
}

pub proof fn lemma_be_val_bound(s: Seq<u8>)
    ensures
        be_val(s) < p256(s.len() as nat),
    decreases s.len(),
{
    if s.len() > 0 {
        lemma_be_val_bound(s.drop_last());
        assert(be_val(s.drop_last()) <= p256((s.len() - 1) as nat) - 1);
        assert(be_val(s.drop_last()) * 256 <= (p256((s.len() - 1) as nat) - 1) * 256)
            by (nonlinear_arith)
            requires
                be_val(s.drop_last()) <= p256((s.len() - 1) as nat) - 1,
        ;
    }
}

pub proof fn lemma_be_round_trip(n: nat, k: nat)
    requires
        n < p256(k),
    ensures
        be_val(be_bytes(n, k)) == n,
    decreases k,
{
    if k > 0 {
        lemma_be_bytes_len(n / 256, (k - 1) as nat);
        assert(n / 256 < p256((k - 1) as nat)) by (nonlinear_arith)
            requires
                n < 256 * p256((k - 1) as nat),
        ;
        lemma_be_round_trip(n / 256, (k - 1) as nat);
        let b = be_bytes(n, k);
        assert(b.drop_last() =~= be_bytes(n / 256, (k - 1) as nat));
        assert(be_val(b) == (n / 256) * 256 + n % 256);
        assert((n / 256) * 256 + n % 256 == n) by (nonlinear_arith);
    }
}

/// Appends the `k`-byte big-endian encoding of `n` to `out`.
pub fn push_be(out: &mut Vec<u8>, n: u64, k: usize)
    requires
        k <= 8,
    ensures
        final(out)@ == old(out)@ + be_bytes(n as nat, k as nat),
    decreases k,
{
    if k == 0 {
        assert(out@ =~= out@ + be_bytes(n as nat, 0));
    } else {
        push_be(out, n / 256, k - 1);
        out.push((n % 256) as u8);
        assert(out@ =~= old(out)@ + be_bytes(n as nat, k as nat));
    }
}

/// Reads the `k`-byte big-endian value stored at `off`.
pub fn read_be(b: &[u8], off: usize, k: usize) -> (r: u64)
    requires
        k <= 8,
        off + k <= b@.len(),
    ensures
        r as nat == be_val(b@.subrange(off as int, off + k)),
    decreases k,
{
    if k == 0 {
        assert(b@.subrange(off as int, off as int).len() == 0);
        0
    } else {
        let n = b.len();
        let hi = read_be(b, off, k - 1);
        let s = Ghost(b@.subrange(off as int, off + k));
        proof {
            assert(s@.drop_last() =~= b@.subrange(off as int, off + (k - 1)));
            lemma_be_val_bound(s@.drop_last());
            assert(p256((k - 1) as nat) <= p256(7)) by {
                lemma_p256_monotone((k - 1) as nat, 7);
            }
            assert(p256(7) == 0x100000000000000) by {
                reveal_with_fuel(p256, 8);
            }
        }
        hi * 256 + (b[off + (k - 1)] as u64)
    }
}

pub proof fn lemma_p256_monotone(a: nat, b: nat)
    requires
        a <= b,
    ensures
        p256(a) <= p256(b),
    decreases b,
{
    if a < b {
        lemma_p256_monotone(a, (b - 1) as nat);
        assert(p256((b - 1) as nat) <= 256 * p256((b - 1) as nat)) by (nonlinear_arith)
            requires
                p256((b - 1) as nat) >= 0,
        ;
    }
}

pub proof fn lemma_p256_values()
    ensures
        p256(1) == 0x100,
        p256(2) == 0x10000,
        p256(4) == 0x100000000,
        p256(8) == 0x10000000000000000,
{
    reveal_with_fuel(p256, 9);
}

pub proof fn lemma_be_val_single(x: u8)
    ensures
        be_val(seq![x]) == x,
{
    assert(seq![x].drop_last() =~= Seq::<u8>::empty());
    assert(be_val(seq![x]) == be_val(seq![x].drop_last()) * 256 + x);
}

/// Every byte is in the ASCII range.
pub open spec fn ascii_bytes(s: Seq<u8>) -> bool {
    forall|i: int| 0 <= i < s.len() ==> s[i] < 128
}

/// The characters spelled by a byte string (meaningful when it is ASCII).
pub open spec fn chars_of(s: Seq<u8>) -> Seq<char> {
    Seq::new(s.len(), |i: int| s[i] as char)
}

/// The bytes spelling a character string (meaningful when it is ASCII).
pub open spec fn str_bytes(s: Seq<char>) -> Seq<u8> {
    Seq::new(s.len(), |i: int| s[i] as u8)
}

/// Characters are all ASCII.
pub open spec fn ascii_chars(s: Seq<char>) -> bool {
    forall|i: int| 0 <= i < s.len() ==> (s[i] as u32) < 128
}

/// An ASCII character and its byte determine each other.
pub proof fn lemma_ascii_char_byte(c: char)
    requires
        (c as u32) < 128,
    ensures
        (c as u8) < 128,
        ((c as u8) as char) == c,
{
}



pub proof fn lemma_ascii_str_bytes(s: Seq<char>)
    requires
        ascii_chars(s),
    ensures
        ascii_bytes(str_bytes(s)),
        chars_of(str_bytes(s)) =~= s,
{
    assert forall|i: int| 0 <= i < s.len() implies str_bytes(s)[i] < 128
        && chars_of(str_bytes(s))[i] == s[i] by {
        lemma_ascii_char_byte(s[i]);
    }
    assert(chars_of(str_bytes(s)).len() == s.len());
}

/// Appends the bytes of an ASCII string slice to `out`.
pub fn append_ascii(out: &mut Vec<u8>, s: &str)
    requires
        vstd::string::is_ascii(s),
    ensures
        final(out)@ == old(out)@ + str_bytes(s@),
{
    broadcast use vstd::string::group_string_axioms;

    let bs = s.as_bytes();
    proof {
        vstd::string::is_ascii_spec_bytes(s);
        assert(bs@ =~= str_bytes(s@));
    }
    let ghost start = out@;
    let mut i: usize = 0;
    while i < bs.len()
        invariant
            i <= bs@.len(),
            bs@ =~= str_bytes(s@),
            out@ == start + bs@.take(i as int),
        decreases bs@.len() - i,
    {
        out.push(bs[i]);
        i = i + 1;
        assert(out@ =~= start + bs@.take(i as int));
    }
    assert(bs@.take(bs@.len() as int) =~= bs@);
}


/// A low byte reaches the same character through `u32` as directly.
pub proof fn lemma_byte_u32_char(b: u8)
    requires
        b < 128,
    ensures
        ((b as u32) as char) == (b as char),
{
}

/// ASCII bytes are valid UTF-8 and decode to their own characters.
pub proof fn lemma_ascii_utf8(s: Seq<u8>)
    requires
        ascii_bytes(s),
    ensures
        vstd::utf8::valid_utf8(s),
        vstd::utf8::decode_utf8(s) == chars_of(s),
    decreases s.len(),
{
    if s.len() == 0 {
        assert(chars_of(s) =~= Seq::<char>::empty());
        assert(vstd::utf8::decode_utf8(s) =~= chars_of(s));
    } else {
        let b0 = s[0];
        assert(b0 < 128);
        assert(vstd::utf8::is_leading_byte_width_1(b0));
        assert((b0 & 0x7f) == b0) by (bit_vector)
            requires
                b0 < 128,
        ;
        assert(vstd::utf8::decode_first_codepoint(s) == b0 as u32);
        assert(vstd::utf8::length_of_first_codepoint(s) == 1);
        assert(vstd::utf8::valid_first_scalar(s));
        let rest = vstd::utf8::pop_first_scalar(s);
        assert(rest =~= s.drop_first());
        assert(ascii_bytes(rest)) by {
            assert(forall|i: int| 0 <= i < rest.len() ==> rest[i] == s[i + 1]);
        }
        lemma_ascii_utf8(rest);
        assert(vstd::utf8::valid_utf8(s));
        lemma_byte_u32_char(b0);
        assert(vstd::utf8::decode_utf8(s) =~= chars_of(s)) by {
            assert(vstd::utf8::decode_utf8(s) == seq![
                vstd::utf8::decode_first_scalar(s) as char,
            ] + vstd::utf8::decode_utf8(rest));
            assert(forall|i: int|
                1 <= i < s.len() ==> chars_of(rest)[i - 1] == #[trigger] chars_of(s)[i]);
        }
    }
}

/// Relies on std's `str::from_utf8`: it accepts exactly valid UTF-8 and
/// decodes it; vstd's `valid_utf8` and `decode_utf8` give its meaning.
#[verifier::external_body]
pub fn utf8_to_str(v: &[u8]) -> (r: Option<&str>)
    ensures
        r is Some <==> vstd::utf8::valid_utf8(v@),
        r is Some ==> r->0@ == vstd::utf8::decode_utf8(v@),
{
    core::str::from_utf8(v).ok()
}

/// An ASCII character by codepoint is ASCII by character order too.
pub proof fn lemma_char_le(c: char)
    requires
        (c as u32) < 128,
    ensures
        '\0' <= c <= '\u{7f}',
{
}

/// Bridges the codepoint form of ASCII to vstd's character-order form.
pub proof fn lemma_ascii_chars_vstd(s: Seq<char>)
    requires
        ascii_chars(s),
    ensures
        vstd::utf8::is_ascii_chars(s),
{
    assert forall|i: int| 0 <= i < s.len() implies '\0' <= #[trigger] s[i] <= '\u{7f}' by {
        lemma_char_le(s[i]);
    }
}

} // verus!
