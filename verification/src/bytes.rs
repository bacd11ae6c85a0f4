//! Byte strings: order and equality.
use crate::text::Relation;
use vstd::prelude::*;

verus! {

/// Strict lexicographic order of byte strings.
pub open spec fn bytes_lt(a: Seq<u8>, b: Seq<u8>) -> bool
    decreases a.len(),
{
    if b.len() == 0 {
        false
    } else if a.len() == 0 {
        true
    } else if a[0] != b[0] {
        a[0] < b[0]
    } else {
        bytes_lt(a.skip(1), b.skip(1))
    }
}

/// The relation of `a` to `b` in lexicographic order.
pub open spec fn bytes_relation(a: Seq<u8>, b: Seq<u8>) -> Relation {
    if a == b {
        Relation::Same
    } else if bytes_lt(a, b) {
        Relation::Before
    } else {
        Relation::After
    }
}

/// Of two byte strings not both come first, and one does unless they are the same.
pub proof fn lemma_bytes_lt_total(a: Seq<u8>, b: Seq<u8>)
    ensures
        bytes_lt(a, b) || bytes_lt(b, a) || a == b,
        !(bytes_lt(a, b) && bytes_lt(b, a)),
        a == b ==> !bytes_lt(a, b),
    decreases a.len(),
{
    if a.len() == 0 && b.len() == 0 {
        assert(a =~= b);
    } else if a.len() > 0 && b.len() > 0 && a[0] == b[0] {
        lemma_bytes_lt_total(a.skip(1), b.skip(1));
        if a.skip(1) == b.skip(1) {
            assert(a =~= seq![a[0]] + a.skip(1));
            assert(b =~= seq![b[0]] + b.skip(1));
        }
    }
}

/// A byte string comes before its continuations, and of two that go on differently behind a
/// common beginning the one with the lower byte there comes first.
pub proof fn lemma_bytes_lt_by_byte(common: Seq<u8>, a: u8, b: u8, s: Seq<u8>, t: Seq<u8>)
    requires
        a < b,
    ensures
        bytes_lt(common.push(a) + s, common.push(b) + t),
        !bytes_lt(common.push(b) + t, common.push(a) + s),
        bytes_lt(common, common.push(a) + s),
        !bytes_lt(common.push(a) + s, common),
    decreases common.len(),
{
    let x = common.push(a) + s;
    let y = common.push(b) + t;
    if common.len() > 0 {
        let rest = common.skip(1);
        lemma_bytes_lt_by_byte(rest, a, b, s, t);
        assert(x.skip(1) =~= rest.push(a) + s);
        assert(y.skip(1) =~= rest.push(b) + t);
    }
}

/// The order of byte strings is transitive.
pub proof fn lemma_bytes_lt_transitive(a: Seq<u8>, b: Seq<u8>, c: Seq<u8>)
    requires
        bytes_lt(a, b),
        bytes_lt(b, c),
    ensures
        bytes_lt(a, c),
    decreases a.len(),
{
    if a.len() > 0 && a[0] == b[0] && b[0] == c[0] {
        lemma_bytes_lt_transitive(a.skip(1), b.skip(1), c.skip(1));
    }
}

/// Compares two byte strings from a common position on.
fn relate_from(x: &[u8], y: &[u8], at: usize) -> (r: Relation)
    requires
        at <= x@.len(),
        at <= y@.len(),
    ensures
        r == bytes_relation(x@.skip(at as int), y@.skip(at as int)),
    decreases x@.len() - at,
{
    let ghost a = x@.skip(at as int);
    let ghost b = y@.skip(at as int);
    if at == x.len() {
        if at == y.len() {
            assert(a =~= b);
            Relation::Same
        } else {
            assert(a.len() == 0 && b.len() > 0);
            Relation::Before
        }
    } else if at == y.len() {
        assert(b.len() == 0 && a.len() > 0);
        Relation::After
    } else {
        let c: u8 = x[at];
        let d: u8 = y[at];
        assert(a[0] == c && b[0] == d);
        if c != d {
            if c < d {
                Relation::Before
            } else {
                Relation::After
            }
        } else {
            assert(a.skip(1) =~= x@.skip(at + 1));
            assert(b.skip(1) =~= y@.skip(at + 1));
            proof {
                assert(a =~= seq![a[0]] + a.skip(1));
                assert(b =~= seq![b[0]] + b.skip(1));
            }
            relate_from(x, y, at + 1)
        }
    }
}

/// Compares two byte strings.
pub fn relate(x: &[u8], y: &[u8]) -> (r: Relation)
    ensures
        r == bytes_relation(x@, y@),
{
    assert(x@.skip(0) =~= x@);
    assert(y@.skip(0) =~= y@);
    relate_from(x, y, 0)
}

/// Whether two byte strings are the same.
pub fn same_bytes(x: &[u8], y: &[u8]) -> (r: bool)
    ensures
        r == (x@ == y@),
{
    match relate(x, y) {
        Relation::Same => true,
        _ => false,
    }
}

/// The bytes of a slice in a vector.
pub fn to_vec(x: &[u8]) -> (r: Vec<u8>)
    ensures
        r@ == x@,
{
    let mut out: Vec<u8> = Vec::new();
    let mut i: usize = 0;
    while i < x.len()
        invariant
            i <= x@.len(),
            out@ == x@.take(i as int),
        decreases x@.len() - i,
    {
        out.push(x[i]);
        i += 1;
        assert(x@.take(i as int) =~= x@.take(i - 1).push(x@[i - 1]));
    }
    assert(x@.take(i as int) =~= x@);
    out
}

/// The bytes of a vector in an array of thirty-two, where it holds as many.
pub fn array32(x: &[u8]) -> (r: Option<[u8; 32]>)
    ensures
        match r {
            Some(a) => a@ == x@,
            None => x@.len() != 32,
        },
{
    if x.len() != 32 {
        return None;
    }
    let mut out: [u8; 32] = [0u8; 32];
    let mut i: usize = 0;
    while i < 32
        invariant
            i <= 32,
            x@.len() == 32,
            out@.len() == 32,
            forall|j: int| 0 <= j < i ==> out@[j] == x@[j],
        decreases 32 - i,
    {
        out[i] = x[i];
        i += 1;
    }
    assert(out@ =~= x@);
    Some(out)
}

/// The bytes of a vector in an array of sixty-four, where it holds as many.
pub fn array64(x: &[u8]) -> (r: Option<[u8; 64]>)
    ensures
        match r {
            Some(a) => a@ == x@,
            None => x@.len() != 64,
        },
{
    if x.len() != 64 {
        return None;
    }
    let mut out: [u8; 64] = [0u8; 64];
    let mut i: usize = 0;
    while i < 64
        invariant
            i <= 64,
            x@.len() == 64,
            out@.len() == 64,
            forall|j: int| 0 <= j < i ==> out@[j] == x@[j],
        decreases 64 - i,
    {
        out[i] = x[i];
        i += 1;
    }
    assert(out@ =~= x@);
    Some(out)
}

/// The bytes of a text in its UTF-8 form.
pub open spec fn utf8(s: Seq<char>) -> Seq<u8> {
    vstd::utf8::encode_utf8(s)
}

/// The text whose UTF-8 form bytes are, if there is one.
pub open spec fn utf8_text(bytes: Seq<u8>) -> Option<Seq<char>> {
    if vstd::utf8::valid_utf8(bytes) {
        Some(vstd::utf8::decode_utf8(bytes))
    } else {
        None
    }
}

/// `String::from_utf8` gives the text whose UTF-8 form the bytes are, and fails
/// where they are no valid UTF-8; nothing is claimed of the words of its error.
#[verifier::external_body]
pub(crate) fn text_of_utf8(bytes: Vec<u8>) -> (r: Result<String, String>)
    ensures
        match r {
            Ok(s) => utf8_text(bytes@) == Some(s@),
            Err(_) => utf8_text(bytes@) is None,
        },
{
    String::from_utf8(bytes).map_err(|e| e.to_string())
}

/// The text that bytes are as UTF-8, with replacement characters where they are not.
pub uninterp spec fn utf8_lossy(data: Seq<u8>) -> Seq<char>;

/// `String::from_utf8_lossy` reads bytes as UTF-8; what is not valid becomes
/// replacement characters. Valid UTF-8 is read as the text that it encodes.
#[verifier::external_body]
pub(crate) fn from_utf8_lossy(data: &[u8]) -> (r: String)
    ensures
        r@ == utf8_lossy(data@),
        vstd::utf8::valid_utf8(data@) ==> utf8(r@) == data@,
{
    String::from_utf8_lossy(data).to_string()
}

/// Bytes that are the UTF-8 form of a text are read as it.
pub proof fn lemma_utf8_lossy_exact(t: Seq<char>, read: Seq<char>)
    requires
        utf8(read) == utf8(t),
    ensures
        read == t,
{
    vstd::utf8::encode_utf8_decode_utf8(t);
    vstd::utf8::encode_utf8_decode_utf8(read);
}

/// A number in so many bytes, the high ones first.
pub open spec fn big_endian(n: nat, k: nat) -> Seq<u8>
    decreases k,
{
    if k == 0 {
        Seq::empty()
    } else {
        big_endian(n / 256, (k - 1) as nat).push((n % 256) as u8)
    }
}

/// The number that bytes are, the high ones first.
pub open spec fn be_value(s: Seq<u8>) -> nat
    decreases s.len(),
{
    if s.len() == 0 {
        0
    } else {
        be_value(s.drop_last()) * 256 + s.last() as nat
    }
}

/// How many numbers so many bytes can be.
pub open spec fn byte_range(k: nat) -> nat
    decreases k,
{
    if k == 0 {
        1
    } else {
        256 * byte_range((k - 1) as nat)
    }
}

/// A number is read back from bytes that it fits in.
pub proof fn lemma_be_round_trip(n: nat, k: nat)
    requires
        n < byte_range(k),
    ensures
        big_endian(n, k).len() == k,
        be_value(big_endian(n, k)) == n,
    decreases k,
{
    if k > 0 {
        lemma_be_round_trip(n / 256, (k - 1) as nat);
        let s = big_endian(n, k);
        assert(s.drop_last() =~= big_endian(n / 256, (k - 1) as nat));
    }
}

/// Bytes are never worth more than they can be.
proof fn lemma_be_value_bound(s: Seq<u8>)
    ensures
        be_value(s) < byte_range(s.len()),
    decreases s.len(),
{
    if s.len() > 0 {
        lemma_be_value_bound(s.drop_last());
    }
}

/// Eight bytes can be every `u64`, and fewer bytes fewer numbers.
pub proof fn lemma_byte_range(k: nat)
    requires
        k <= 8,
    ensures
        byte_range(8) == 0x1_0000_0000_0000_0000,
        byte_range(2) == 0x1_0000,
        byte_range(k) <= byte_range(8),
{
    reveal_with_fuel(byte_range, 9);
}

/// A number in so many bytes, the high ones first.
pub fn to_big_endian(n: u64, k: u8) -> (r: Vec<u8>)
    ensures
        r@ == big_endian(n as nat, k as nat),
    decreases k,
{
    if k == 0 {
        let r: Vec<u8> = Vec::new();
        assert(r@ =~= Seq::<u8>::empty());
        r
    } else {
        let mut r: Vec<u8> = to_big_endian(n / 256, k - 1);
        r.push((n % 256) as u8);
        r
    }
}

/// The number that at most eight bytes are, the high ones first.
pub fn from_big_endian(s: &[u8]) -> (r: u64)
    requires
        s@.len() <= 8,
    ensures
        r == be_value(s@),
{
    let mut value: u64 = 0;
    let mut i: usize = 0;
    assert(s@.take(0) =~= Seq::<u8>::empty());
    while i < s.len()
        invariant
            i <= s@.len() <= 8,
            value == be_value(s@.take(i as int)),
        decreases s@.len() - i,
    {
        proof {
            assert(s@.take(i + 1).drop_last() =~= s@.take(i as int));
            lemma_be_value_bound(s@.take(i + 1));
            lemma_byte_range((i + 1) as nat);
        }
        value = value * 256 + s[i] as u64;
        i += 1;
    }
    assert(s@.take(i as int) =~= s@);
    value
}

/// The bytes from one place to another.
pub fn slice(s: &[u8], start: usize, end: usize) -> (r: Vec<u8>)
    requires
        start <= end <= s@.len(),
    ensures
        r@ == s@.subrange(start as int, end as int),
{
    let mut out: Vec<u8> = Vec::new();
    let mut i: usize = start;
    assert(out@ =~= s@.subrange(start as int, start as int));
    while i < end
        invariant
            start <= i <= end <= s@.len(),
            out@ == s@.subrange(start as int, i as int),
        decreases end - i,
    {
        out.push(s[i]);
        assert(out@ =~= s@.subrange(start as int, i + 1));
        i += 1;
    }
    out
}

} // verus!
