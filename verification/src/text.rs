//! Byte strings and text: ASCII bytes as characters, UTF-8 checks, and
//! decimal numbers.

use vstd::prelude::*;
use vstd::utf8::*;

verus! {

/// Every byte is below 128.
pub open spec fn is_ascii_bytes(bytes: Seq<u8>) -> bool {
    forall|i: int| 0 <= i < bytes.len() ==> #[trigger] bytes[i] < 128
}

/// The characters whose code points are the given bytes, one for one.
pub open spec fn ascii_chars(bytes: Seq<u8>) -> Seq<char> {
    Seq::new(bytes.len(), |i: int| bytes[i] as char)
}

/// ASCII bytes are their own UTF-8 encoding.
pub proof fn lemma_ascii_bytes_utf8(bytes: Seq<u8>)
    requires
        is_ascii_bytes(bytes),
    ensures
        valid_utf8(bytes),
        encode_utf8(ascii_chars(bytes)) == bytes,
        decode_utf8(bytes) == ascii_chars(bytes),
{
    let cs = ascii_chars(bytes);
    assert(is_ascii_chars(cs)) by {
        assert forall|i: int| 0 <= i < cs.len() implies '\0' <= #[trigger] cs[i] <= '\u{7f}' by {
            assert(bytes[i] < 128);
        }
    }
    is_ascii_chars_encode_utf8(cs);
    assert(encode_utf8(cs) =~= bytes) by {
        assert forall|i: int| 0 <= i < bytes.len() implies encode_utf8(cs)[i] == bytes[i] by {
            assert(cs[i] as u8 == encode_utf8(cs)[i]);
            assert(bytes[i] < 128);
        }
    }
    encode_utf8_valid_utf8(cs);
    encode_utf8_decode_utf8(cs);
}

/// What `String::from_utf8_lossy` makes of the given bytes.
pub uninterp spec fn utf8_lossy(bytes: Seq<u8>) -> Seq<char>;

/// `String::from_utf8`: the bytes become a string exactly when they are
/// well-formed UTF-8, and the string then encodes to the same bytes.
#[verifier::external_body]
pub(crate) fn string_from_utf8(bytes: Vec<u8>) -> (r: Option<String>)
    ensures
        r is Some <==> valid_utf8(bytes@),
        r matches Some(s) ==> encode_utf8(s@) == bytes@,
{
    String::from_utf8(bytes).ok()
}

/// `String::from_utf8_lossy`: the text of the bytes, with a replacement
/// character wherever they are not well-formed UTF-8; well-formed bytes
/// decode unchanged.
#[verifier::external_body]
pub(crate) fn string_from_utf8_lossy(bytes: &[u8]) -> (r: String)
    ensures
        r@ == utf8_lossy(bytes@),
        valid_utf8(bytes@) ==> encode_utf8(r@) == bytes@,
{
    String::from_utf8_lossy(bytes).into_owned()
}

/// The string whose characters are the given ASCII bytes.
pub fn ascii_string(bytes: Vec<u8>) -> (r: String)
    requires
        is_ascii_bytes(bytes@),
    ensures
        r@ == ascii_chars(bytes@),
        encode_utf8(r@) == bytes@,
{
    proof {
        lemma_ascii_bytes_utf8(bytes@);
    }
    match string_from_utf8(bytes) {
        Some(s) => {
            proof {
                encode_utf8_decode_utf8(s@);
            }
            s
        },
        None => String::new(),
    }
}

/// The byte strings held by a sequence of vectors.
pub open spec fn views(v: Seq<Vec<u8>>) -> Seq<Seq<u8>> {
    v.map_values(|x: Vec<u8>| x@)
}

/// The pieces of `s` between occurrences of `sep`: one more piece than
/// there are separators, so the empty string has one empty piece.
pub open spec fn split(s: Seq<u8>, sep: u8) -> Seq<Seq<u8>>
    decreases s.len(),
{
    if s.len() == 0 {
        seq![Seq::<u8>::empty()]
    } else {
        let before = split(s.drop_last(), sep);
        if s.last() == sep {
            before.push(Seq::<u8>::empty())
        } else {
            before.drop_last().push(before.last().push(s.last()))
        }
    }
}

pub proof fn lemma_split_nonempty(s: Seq<u8>, sep: u8)
    ensures
        split(s, sep).len() >= 1,
    decreases s.len(),
{
    if s.len() > 0 {
        lemma_split_nonempty(s.drop_last(), sep);
    }
}

/// The pieces of `s` between occurrences of `sep`.
pub fn split_bytes(s: &[u8], sep: u8) -> (out: Vec<Vec<u8>>)
    ensures
        views(out@) == split(s@, sep),
        out@.len() >= 1,
{
    let mut done: Vec<Vec<u8>> = Vec::new();
    let mut cur: Vec<u8> = Vec::new();
    let mut i: usize = 0;
    assert(s@.take(0) =~= Seq::<u8>::empty());
    assert(views(done@).push(cur@) =~= seq![Seq::<u8>::empty()]);
    while i < s.len()
        invariant
            i <= s.len(),
            views(done@).push(cur@) == split(s@.take(i as int), sep),
        decreases s.len() - i,
    {
        let b = s[i];
        proof {
            let t = s@.take(i + 1);
            assert(t.drop_last() =~= s@.take(i as int));
            assert(t.last() == b);
            let before = split(t.drop_last(), sep);
            assert(before == views(done@).push(cur@));
            assert(before.drop_last() =~= views(done@));
            assert(before.last() == cur@);
        }
        if b == sep {
            proof {
                assert(views(done@.push(cur)) =~= views(done@).push(cur@));
            }
            done.push(cur);
            cur = Vec::new();
        } else {
            cur.push(b);
        }
        i += 1;
    }
    proof {
        assert(s@.take(s.len() as int) =~= s@);
        assert(views(done@.push(cur)) =~= views(done@).push(cur@));
    }
    done.push(cur);
    done
}

/// Every byte of every piece comes from `s`, and none is the separator.
pub proof fn lemma_split_pieces(s: Seq<u8>, sep: u8)
    ensures
        forall|k: int, j: int|
            0 <= k < split(s, sep).len() && 0 <= j < split(s, sep)[k].len() ==> {
                &&& (#[trigger] split(s, sep)[k][j]) != sep
                &&& s.contains(split(s, sep)[k][j])
            },
    decreases s.len(),
{
    if s.len() > 0 {
        let t = s.drop_last();
        lemma_split_pieces(t, sep);
        lemma_split_nonempty(t, sep);
        let before = split(t, sep);
        let now = split(s, sep);
        assert forall|k: int, j: int| 0 <= k < now.len() && 0 <= j < now[k].len() implies {
            &&& (#[trigger] now[k][j]) != sep
            &&& s.contains(now[k][j])
        } by {
            if s.last() != sep && k == now.len() - 1 && j == now[k].len() - 1 {
                assert(now[k][j] == s.last());
                assert(s[s.len() - 1] == s.last());
            } else {
                assert(now[k][j] == before[k][j]);
                assert(t.contains(before[k][j]));
                let w = choose|w: int| 0 <= w < t.len() && t[w] == before[k][j];
                assert(s[w] == before[k][j]);
            }
        }
    }
}

/// Whether two byte strings are the same.
pub fn bytes_eq(a: &[u8], b: &[u8]) -> (r: bool)
    ensures
        r == (a@ == b@),
{
    if a.len() != b.len() {
        return false;
    }
    let mut i: usize = 0;
    while i < a.len()
        invariant
            i <= a.len(),
            a@.len() == b@.len(),
            forall|j: int| 0 <= j < i ==> a@[j] == b@[j],
        decreases a.len() - i,
    {
        if a[i] != b[i] {
            return false;
        }
        i += 1;
    }
    assert(a@ =~= b@);
    true
}

/// A copy of the given bytes.
pub fn copy_bytes(a: &[u8]) -> (r: Vec<u8>)
    ensures
        r@ == a@,
{
    let mut out: Vec<u8> = Vec::new();
    push_all(&mut out, a);
    assert(Seq::<u8>::empty() + a@ =~= a@);
    out
}

/// The pieces in order with `sep` between each two neighbours.
pub open spec fn join<T>(pieces: Seq<Seq<T>>, sep: Seq<T>) -> Seq<T>
    decreases pieces.len(),
{
    if pieces.len() == 0 {
        Seq::<T>::empty()
    } else if pieces.len() == 1 {
        pieces[0]
    } else {
        join(pieces.drop_last(), sep) + sep + pieces.last()
    }
}

/// Appends every byte of `more` to `out`.
pub fn push_all(out: &mut Vec<u8>, more: &[u8])
    ensures
        final(out)@ == old(out)@ + more@,
{
    let mut i: usize = 0;
    while i < more.len()
        invariant
            i <= more.len(),
            out@ == old(out)@ + more@.take(i as int),
        decreases more.len() - i,
    {
        out.push(more[i]);
        proof {
            assert(more@.take(i + 1) =~= more@.take(i as int).push(more@[i as int]));
        }
        i += 1;
    }
    proof {
        assert(more@.take(more.len() as int) =~= more@);
    }
}

/// The pieces in order with `sep` between each two neighbours.
pub fn join_bytes(pieces: &Vec<Vec<u8>>, sep: &[u8]) -> (out: Vec<u8>)
    ensures
        out@ == join(views(pieces@), sep@),
{
    let mut out: Vec<u8> = Vec::new();
    let mut i: usize = 0;
    while i < pieces.len()
        invariant
            i <= pieces.len(),
            out@ == join(views(pieces@).take(i as int), sep@),
        decreases pieces.len() - i,
    {
        proof {
            let t = views(pieces@).take(i + 1);
            assert(t.drop_last() =~= views(pieces@).take(i as int));
            assert(t.last() == pieces@[i as int]@);
            if i == 0 {
                assert(t.len() == 1);
                assert(Seq::<u8>::empty() + pieces@[0]@ =~= pieces@[0]@);
            }
        }
        if i > 0 {
            push_all(&mut out, sep);
        }
        push_all(&mut out, pieces[i].as_slice());
        i += 1;
    }
    proof {
        assert(views(pieces@).take(pieces.len() as int) =~= views(pieces@));
    }
    out
}

/// The decimal digits of `n`, most significant first, as ASCII bytes.
pub open spec fn decimal_digits(n: nat) -> Seq<u8>
    decreases n,
{
    if n < 10 {
        seq![(48 + n) as u8]
    } else {
        decimal_digits(n / 10).push((48 + n % 10) as u8)
    }
}

pub proof fn lemma_decimal_digits_ascii(n: nat)
    ensures
        is_ascii_bytes(decimal_digits(n)),
        decimal_digits(n).len() >= 1,
    decreases n,
{
    if n >= 10 {
        lemma_decimal_digits_ascii(n / 10);
    }
}

/// Appends the decimal digits of `n` to `out`.
pub fn push_decimal(out: &mut Vec<u8>, n: u64)
    ensures
        final(out)@ == old(out)@ + decimal_digits(n as nat),
{
    let mut digits: Vec<u8> = Vec::new();
    let mut rest: u64 = n;
    // Collect the digits least significant first.
    while rest >= 10
        invariant
            decimal_digits(rest as nat) + digits@.reverse() == decimal_digits(n as nat),
        decreases rest,
    {
        let d: u8 = (48 + rest % 10) as u8;
        proof {
            let r = rest as nat;
            assert(decimal_digits(r) == decimal_digits(r / 10).push((48 + r % 10) as u8));
            assert(digits@.push(d).reverse() =~= seq![d] + digits@.reverse());
            assert(decimal_digits(r / 10) + digits@.push(d).reverse() =~= decimal_digits(r)
                + digits@.reverse());
        }
        digits.push(d);
        rest = rest / 10;
    }
    let top: u8 = (48 + rest) as u8;
    proof {
        assert(decimal_digits(rest as nat) == seq![top]);
    }
    out.push(top);
    let mut i: usize = digits.len();
    while i > 0
        invariant
            i <= digits.len(),
            out@ == old(out)@ + seq![top] + digits@.reverse().subrange(0, digits.len() - i),
        decreases i,
    {
        i -= 1;
        out.push(digits[i]);
        proof {
            let rv = digits@.reverse();
            assert(rv[digits.len() - 1 - i] == digits@[i as int]);
            assert(rv.subrange(0, digits.len() - i) =~= rv.subrange(0, digits.len() - 1 - i).push(
                digits@[i as int],
            ));
        }
    }
    proof {
        let rv = digits@.reverse();
        assert(rv.subrange(0, digits.len() as int) =~= rv);
        assert(old(out)@ + seq![top] + rv =~= old(out)@ + (seq![top] + rv));
    }
}

} // verus!
