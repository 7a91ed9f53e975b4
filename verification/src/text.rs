//! Byte-level helpers on UTF-8 strings: slicing at character boundaries.

use vstd::prelude::*;
use vstd::string::StringSliceAdditionalSpecFns;
use vstd::utf8::*;

verus! {

broadcast use vstd::utf8::encode_utf8_valid_utf8;

/// Concatenation of a sequence of strings.
pub open spec fn concat_chars(pieces: Seq<Seq<char>>) -> Seq<char>
    decreases pieces.len(),
{
    if pieces.len() == 0 {
        Seq::empty()
    } else {
        concat_chars(pieces.drop_last()) + pieces.last()
    }
}

/// Cutting valid UTF-8 at a character boundary `rhs` leaves valid UTF-8, in
/// which every earlier boundary `lhs` of the whole is still a boundary.
pub proof fn lemma_boundary_in_prefix(bytes: Seq<u8>, lhs: int, rhs: int)
    requires
        valid_utf8(bytes),
        0 <= lhs <= rhs <= bytes.len(),
        is_char_boundary(bytes, lhs),
        is_char_boundary(bytes, rhs),
    ensures
        valid_utf8(bytes.subrange(0, rhs)),
        is_char_boundary(bytes.subrange(0, rhs), lhs),
{
    valid_utf8_split(bytes, rhs);
    let hb = bytes.subrange(0, rhs);
    if lhs == rhs {
        is_char_boundary_start_end_of_seq(hb);
    } else {
        is_char_boundary_iff_not_is_continuation_byte(bytes, lhs);
        is_char_boundary_iff_not_is_continuation_byte(hb, lhs);
    }
}

/// Decoding the bytes up to boundary `rhs` decodes those up to boundary `lhs`
/// followed by those between the two.
pub proof fn lemma_decode_extend(bytes: Seq<u8>, lhs: int, rhs: int)
    requires
        valid_utf8(bytes),
        0 <= lhs <= rhs <= bytes.len(),
        is_char_boundary(bytes, lhs),
        is_char_boundary(bytes, rhs),
    ensures
        decode_utf8(bytes.subrange(0, rhs)) == decode_utf8(bytes.subrange(0, lhs)) + decode_utf8(
            bytes.subrange(lhs, rhs),
        ),
{
    lemma_boundary_in_prefix(bytes, lhs, rhs);
    let hb = bytes.subrange(0, rhs);
    decode_utf8_split(hb, lhs);
    assert(hb.subrange(0, lhs) =~= bytes.subrange(0, lhs));
    assert(hb.subrange(lhs, hb.len() as int) =~= bytes.subrange(lhs, rhs));
}

/// The length of `text` in bytes.
pub fn byte_len(text: &str) -> (n: usize)
    ensures
        n == text.spec_bytes().len(),
{
    text.as_bytes().len()
}

/// The bytes of `text` from `lhs` up to `rhs`, as a string slice.
pub fn byte_slice<'a>(text: &'a str, lhs: usize, rhs: usize) -> (r: &'a str)
    requires
        lhs <= rhs <= text.spec_bytes().len(),
        is_char_boundary(text.spec_bytes(), lhs as int),
        is_char_boundary(text.spec_bytes(), rhs as int),
    ensures
        r.spec_bytes() == text.spec_bytes().subrange(lhs as int, rhs as int),
{
    let (head, _) = text.split_at(rhs);
    proof {
        lemma_boundary_in_prefix(text.spec_bytes(), lhs as int, rhs as int);
    }
    let (_, piece) = head.split_at(lhs);
    proof {
        assert(piece.spec_bytes() =~= text.spec_bytes().subrange(lhs as int, rhs as int));
    }
    piece
}

/// Lexicographic order on byte strings (a proper prefix comes first).
pub open spec fn bytes_lt(a: Seq<u8>, b: Seq<u8>) -> bool
    decreases a.len(),
{
    if a.len() == 0 {
        b.len() > 0
    } else if b.len() == 0 {
        false
    } else if a[0] != b[0] {
        a[0] < b[0]
    } else {
        bytes_lt(a.drop_first(), b.drop_first())
    }
}

/// The order of `String`s and `str`s: lexicographic on their UTF-8 bytes.
pub open spec fn str_lt(a: Seq<char>, b: Seq<char>) -> bool {
    bytes_lt(encode_utf8(a), encode_utf8(b))
}

/// No byte string comes before itself.
pub proof fn lemma_bytes_lt_irreflexive(a: Seq<u8>)
    ensures
        !bytes_lt(a, a),
    decreases a.len(),
{
    if a.len() > 0 {
        lemma_bytes_lt_irreflexive(a.drop_first());
    }
}

/// Of two distinct byte strings exactly one comes first.
pub proof fn lemma_bytes_lt_total(a: Seq<u8>, b: Seq<u8>)
    ensures
        a != b ==> (bytes_lt(a, b) || bytes_lt(b, a)),
        !(bytes_lt(a, b) && bytes_lt(b, a)),
    decreases a.len(),
{
    if a.len() > 0 && b.len() > 0 && a[0] == b[0] {
        lemma_bytes_lt_total(a.drop_first(), b.drop_first());
        if a.drop_first() == b.drop_first() {
            assert(a =~= seq![a[0]] + a.drop_first());
            assert(b =~= seq![b[0]] + b.drop_first());
        }
    } else if a.len() == 0 && b.len() == 0 {
        assert(a =~= b);
    }
}

/// The lexicographic order on byte strings is transitive.
pub proof fn lemma_bytes_lt_transitive(a: Seq<u8>, b: Seq<u8>, c: Seq<u8>)
    requires
        bytes_lt(a, b),
        bytes_lt(b, c),
    ensures
        bytes_lt(a, c),
    decreases a.len(),
{
    if a.len() > 0 && a[0] == b[0] && b[0] == c[0] {
        lemma_bytes_lt_transitive(a.drop_first(), b.drop_first(), c.drop_first());
    }
}

/// Strings are equal exactly when their UTF-8 encodings are.
pub proof fn lemma_encode_injective(a: Seq<char>, b: Seq<char>)
    ensures
        (encode_utf8(a) == encode_utf8(b)) == (a == b),
{
    encode_utf8_decode_utf8(a);
    encode_utf8_decode_utf8(b);
}

/// `str_lt` is a strict total order.
pub proof fn lemma_str_lt_order(a: Seq<char>, b: Seq<char>, c: Seq<char>)
    ensures
        !str_lt(a, a),
        a != b ==> (str_lt(a, b) || str_lt(b, a)),
        !(str_lt(a, b) && str_lt(b, a)),
        str_lt(a, b) && str_lt(b, c) ==> str_lt(a, c),
{
    lemma_bytes_lt_irreflexive(encode_utf8(a));
    lemma_encode_injective(a, b);
    lemma_bytes_lt_total(encode_utf8(a), encode_utf8(b));
    if str_lt(a, b) && str_lt(b, c) {
        lemma_bytes_lt_transitive(encode_utf8(a), encode_utf8(b), encode_utf8(c));
    }
}

/// The outcome of comparing two values.
#[derive(Debug, Clone, Copy, PartialEq, Eq)]
pub enum Order {
    Less,
    Equal,
    Greater,
}

/// Compares two byte strings lexicographically.
pub fn compare_bytes(a: &[u8], b: &[u8]) -> (r: Order)
    ensures
        r == Order::Less <==> bytes_lt(a@, b@),
        r == Order::Equal <==> a@ == b@,
        r == Order::Greater <==> bytes_lt(b@, a@),
{
    let n = if a.len() < b.len() { a.len() } else { b.len() };
    let mut i: usize = 0;
    proof {
        assert(a@.skip(0) =~= a@);
        assert(b@.skip(0) =~= b@);
    }
    while i < n
        invariant
            n <= a@.len(),
            n <= b@.len(),
            n == a@.len() || n == b@.len(),
            i <= n,
            a@.take(i as int) == b@.take(i as int),
            bytes_lt(a@, b@) == bytes_lt(a@.skip(i as int), b@.skip(i as int)),
            bytes_lt(b@, a@) == bytes_lt(b@.skip(i as int), a@.skip(i as int)),
        decreases n - i,
    {
        let x = a[i];
        let y = b[i];
        proof {
            assert(a@.skip(i as int).drop_first() =~= a@.skip(i + 1));
            assert(b@.skip(i as int).drop_first() =~= b@.skip(i + 1));
            assert(a@.skip(i as int)[0] == x);
            assert(b@.skip(i as int)[0] == y);
        }
        if x < y {
            proof {
                lemma_bytes_lt_total(a@, b@);
            }
            return Order::Less;
        }
        if x > y {
            proof {
                lemma_bytes_lt_total(a@, b@);
            }
            return Order::Greater;
        }
        proof {
            assert(a@.take(i + 1) =~= a@.take(i as int).push(x));
            assert(b@.take(i + 1) =~= b@.take(i as int).push(y));
        }
        i = i + 1;
    }
    proof {
        lemma_bytes_lt_total(a@, b@);
        lemma_bytes_lt_irreflexive(a@);
    }
    if a.len() < b.len() {
        proof {
            assert(a@.skip(i as int).len() == 0);
        }
        Order::Less
    } else if a.len() > b.len() {
        proof {
            assert(b@.skip(i as int).len() == 0);
        }
        Order::Greater
    } else {
        proof {
            assert(a@ =~= a@.take(i as int));
            assert(b@ =~= b@.take(i as int));
        }
        Order::Equal
    }
}

/// Compares two strings the way `String` and `str` are ordered: by their bytes.
pub fn compare_str(a: &str, b: &str) -> (r: Order)
    ensures
        r == Order::Less <==> str_lt(a@, b@),
        r == Order::Equal <==> a@ == b@,
        r == Order::Greater <==> str_lt(b@, a@),
{
    proof {
        lemma_encode_injective(a@, b@);
    }
    compare_bytes(a.as_bytes(), b.as_bytes())
}

/// Whether `needle` occurs in `hay` as a contiguous run of bytes.
pub open spec fn contains_bytes(hay: Seq<u8>, needle: Seq<u8>) -> bool {
    exists|i: int| 0 <= i <= hay.len() - needle.len() && #[trigger] hay.subrange(i, i + needle.len()) == needle
}

/// Whether the text `needle` occurs in `hay` (the test of `str::contains` with a string pattern).
pub open spec fn contains_text(hay: Seq<char>, needle: Seq<char>) -> bool {
    contains_bytes(encode_utf8(hay), encode_utf8(needle))
}

/// Whether `prefix` is a prefix of `s`, byte for byte.
fn bytes_match_at(hay: &[u8], needle: &[u8], at: usize) -> (r: bool)
    requires
        at + needle@.len() <= hay@.len(),
    ensures
        r == (hay@.subrange(at as int, at + needle@.len()) == needle@),
{
    let mut k: usize = 0;
    let hl = hay.len();
    while k < needle.len()
        invariant
            hl == hay@.len(),
            at + needle@.len() <= hay@.len(),
            k <= needle@.len(),
            forall|j: int| 0 <= j < k ==> hay@[at + j] == needle@[j],
        decreases needle@.len() - k,
    {
        if hay[at + k] != needle[k] {
            proof {
                assert(hay@.subrange(at as int, at + needle@.len())[k as int] != needle@[k as int]);
            }
            return false;
        }
        k = k + 1;
    }
    proof {
        assert(hay@.subrange(at as int, at + needle@.len()) =~= needle@);
    }
    true
}

/// Whether `needle` occurs in `hay` (`str::contains` with a string pattern).
pub fn str_contains(hay: &str, needle: &str) -> (r: bool)
    ensures
        r == contains_text(hay@, needle@),
{
    let h = hay.as_bytes();
    let n = needle.as_bytes();
    if n.len() > h.len() {
        return false;
    }
    let last = h.len() - n.len();
    let mut i: usize = 0;
    while i <= last
        invariant
            h@ == encode_utf8(hay@),
            n@ == encode_utf8(needle@),
            last == h@.len() - n@.len(),
            i <= last + 1,
            forall|j: int| 0 <= j < i ==> #[trigger] h@.subrange(j, j + n@.len()) != n@,
        decreases last + 1 - i,
    {
        if bytes_match_at(h, n, i) {
            return true;
        }
        if i == last {
            return false;
        }
        i = i + 1;
    }
    false
}

/// Whether the UTF-8 bytes of `s` begin with those of `prefix`.
pub open spec fn starts_with_text(s: Seq<char>, prefix: Seq<char>) -> bool {
    encode_utf8(prefix).len() <= encode_utf8(s).len()
        && encode_utf8(s).take(encode_utf8(prefix).len() as int) == encode_utf8(prefix)
}

/// Whether `s` begins with `prefix` (`str::starts_with` with a string pattern).
pub fn str_starts_with(s: &str, prefix: &str) -> (r: bool)
    ensures
        r == starts_with_text(s@, prefix@),
{
    let h = s.as_bytes();
    let p = prefix.as_bytes();
    if p.len() > h.len() {
        return false;
    }
    let r = bytes_match_at(h, p, 0);
    proof {
        assert(h@.subrange(0, p@.len() as int) =~= h@.take(p@.len() as int));
    }
    r
}

} // verus!
