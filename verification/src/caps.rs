//! Capabilities: what the server announces in `hello`, and what a client
//! sends in the `bundlecaps` of `getbundle`.

use vstd::prelude::*;
use vstd::utf8::{decode_utf8, encode_utf8, valid_utf8};
use vstd::string::StringExecFns;
use crate::hex::hex_value;
use crate::text::{ascii_string, copy_bytes, is_ascii_bytes, join, split, split_bytes, string_from_utf8, views};
use vstd::slice::slice_subrange;

verus! {

/// The view of each string.
pub open spec fn strs(v: Seq<String>) -> Seq<Seq<char>> {
    v.map_values(|s: String| s@)
}

/// The capabilities announced on the wire, besides `bundle2`.
pub open spec fn wireprotocaps_spec() -> Seq<Seq<char>> {
    seq![
        "clienttelemetry"@,
        "lookup"@,
        "known"@,
        "getbundle"@,
        "unbundle=HG10GZ,HG10BZ,HG10UN"@,
        "gettreepack"@,
        "remotefilelog"@,
        "pushkey"@,
        "stream-preferred"@,
        "stream_option"@,
        "streamreqs=generaldelta,lz4revlog,revlogv1"@,
        "treeonly"@,
        "knownnodes"@,
    ]
}

/// The capabilities announced on the wire, besides `bundle2`.
pub fn wireprotocaps() -> (caps: Vec<String>)
    ensures
        strs(caps@) == wireprotocaps_spec(),
{
    let mut caps: Vec<String> = Vec::new();
    caps.push(String::from_str("clienttelemetry"));
    caps.push(String::from_str("lookup"));
    caps.push(String::from_str("known"));
    caps.push(String::from_str("getbundle"));
    caps.push(String::from_str("unbundle=HG10GZ,HG10BZ,HG10UN"));
    caps.push(String::from_str("gettreepack"));
    caps.push(String::from_str("remotefilelog"));
    caps.push(String::from_str("pushkey"));
    caps.push(String::from_str("stream-preferred"));
    caps.push(String::from_str("stream_option"));
    caps.push(String::from_str("streamreqs=generaldelta,lz4revlog,revlogv1"));
    caps.push(String::from_str("treeonly"));
    caps.push(String::from_str("knownnodes"));
    assert(strs(caps@) =~= wireprotocaps_spec());
    caps
}

/// Whether a byte is written as `%XX` in a capability string: controls,
/// bytes from 0x7f up, and
/// ``space " # < > ` ? { } / : ; = @ [ \ ] ^ | ,``.
pub open spec fn must_encode(b: u8) -> bool {
    ||| b < 0x20
    ||| b >= 0x7f
    ||| b == 0x20  // space
    ||| b == 0x22  // "
    ||| b == 0x23  // #
    ||| b == 0x3c  // <
    ||| b == 0x3e  // >
    ||| b == 0x60  // `
    ||| b == 0x3f  // ?
    ||| b == 0x7b  // {
    ||| b == 0x7d  // }
    ||| b == 0x2f  // /
    ||| b == 0x3a  // :
    ||| b == 0x3b  // ;
    ||| b == 0x3d  // =
    ||| b == 0x40  // @
    ||| b == 0x5b  // [
    ||| b == 0x5c  // \
    ||| b == 0x5d  // ]
    ||| b == 0x5e  // ^
    ||| b == 0x7c  // |
    ||| b == 0x2c  // ,
}

/// The upper-case hexadecimal digit for a value below 16.
pub open spec fn upper_hex_digit(nibble: int) -> u8 {
    if nibble < 10 {
        (48 + nibble) as u8
    } else {
        (55 + nibble) as u8
    }
}

/// One byte as it stands in percent-encoded text.
pub open spec fn encoded_byte(b: u8) -> Seq<u8> {
    if must_encode(b) {
        seq![37u8, upper_hex_digit(b as int / 16), upper_hex_digit(b as int % 16)]
    } else {
        seq![b]
    }
}

/// Percent-encoded text: each byte as itself, or as `%` and two upper-case
/// hexadecimal digits where it must be encoded.
pub open spec fn percent_encoded(s: Seq<u8>) -> Seq<u8>
    decreases s.len(),
{
    if s.len() == 0 {
        Seq::<u8>::empty()
    } else {
        percent_encoded(s.drop_last()) + encoded_byte(s.last())
    }
}

fn needs_encoding(b: u8) -> (r: bool)
    ensures
        r == must_encode(b),
{
    b < 0x20 || b >= 0x7f || b == 0x20 || b == 0x22 || b == 0x23 || b == 0x3c || b == 0x3e || b
        == 0x60 || b == 0x3f || b == 0x7b || b == 0x7d || b == 0x2f || b == 0x3a || b == 0x3b || b
        == 0x3d || b == 0x40 || b == 0x5b || b == 0x5c || b == 0x5d || b == 0x5e || b == 0x7c || b
        == 0x2c
}

fn upper_digit_of(nibble: u8) -> (c: u8)
    requires
        nibble < 16,
    ensures
        c == upper_hex_digit(nibble as int),
        c < 128,
{
    if nibble < 10 {
        48 + nibble
    } else {
        55 + nibble
    }
}

/// The percent-encoding of a string.
pub fn percent_encode(input: &str) -> (out: String)
    ensures
        encode_utf8(out@) == percent_encoded(encode_utf8(input@)),
{
    let bytes = input.as_bytes();
    let mut out: Vec<u8> = Vec::new();
    let mut i: usize = 0;
    assert(bytes@.take(0) =~= Seq::<u8>::empty());
    while i < bytes.len()
        invariant
            i <= bytes.len(),
            out@ == percent_encoded(bytes@.take(i as int)),
            is_ascii_bytes(out@),
        decreases bytes.len() - i,
    {
        let b = bytes[i];
        proof {
            let t = bytes@.take(i + 1);
            assert(t.drop_last() =~= bytes@.take(i as int));
            assert(t.last() == b);
        }
        let ghost before = out@;
        if needs_encoding(b) {
            out.push(37);
            out.push(upper_digit_of(b / 16));
            out.push(upper_digit_of(b % 16));
            assert(out@ =~= before + encoded_byte(b));
        } else {
            out.push(b);
            assert(out@ =~= before + encoded_byte(b));
        }
        i += 1;
    }
    assert(bytes@.take(bytes.len() as int) =~= bytes@);
    ascii_string(out)
}


/// The strings in order with `sep` between each two neighbours.
pub fn join_strings(pieces: &Vec<String>, sep: &str) -> (out: String)
    ensures
        out@ == join(strs(pieces@), sep@),
{
    let mut out = String::new();
    let mut i: usize = 0;
    assert(strs(pieces@).take(0) =~= Seq::<Seq<char>>::empty());
    while i < pieces.len()
        invariant
            i <= pieces.len(),
            out@ == join(strs(pieces@).take(i as int), sep@),
        decreases pieces.len() - i,
    {
        proof {
            let t = strs(pieces@).take(i + 1);
            assert(t.drop_last() =~= strs(pieces@).take(i as int));
            assert(t.last() == pieces@[i as int]@);
            if i == 0 {
                assert(Seq::<char>::empty() + pieces@[0]@ =~= pieces@[0]@);
            }
        }
        if i > 0 {
            out.append(sep);
        }
        out.append(pieces[i].as_str());
        i += 1;
    }
    assert(strs(pieces@).take(pieces.len() as int) =~= strs(pieces@));
    out
}

/// One capability inside `bundle2`: its name, and its values if it has any.
pub open spec fn cap_line(key: Seq<char>, values: Seq<Seq<char>>) -> Seq<char> {
    if values.len() > 0 {
        key + "="@ + join(values, ","@)
    } else {
        key
    }
}

/// The capabilities inside `bundle2`. `listkeys` is left out on purpose:
/// without it a client fetches the bookmarks before discovery, and so never
/// learns of a bookmark whose changeset it did not ask for.
pub open spec fn bundle2caps_table() -> Seq<(Seq<char>, Seq<Seq<char>>)> {
    seq![
        ("HG20"@, Seq::<Seq<char>>::empty()),
        ("changegroup"@, seq!["01"@, "02"@]),
        ("b2x:infinitepush"@, Seq::<Seq<char>>::empty()),
        ("b2x:infinitepushscratchbookmarks"@, Seq::<Seq<char>>::empty()),
        ("pushkey"@, Seq::<Seq<char>>::empty()),
        ("treemanifestserver"@, seq!["True"@]),
        ("b2x:rebase"@, Seq::<Seq<char>>::empty()),
        ("b2x:rebasepackpart"@, Seq::<Seq<char>>::empty()),
        ("phases"@, seq!["heads"@]),
    ]
}

/// The capabilities inside `bundle2`, one to a line, before encoding.
pub open spec fn bundle2caps_text() -> Seq<char> {
    join(
        bundle2caps_table().map_values(|e: (Seq<char>, Seq<Seq<char>>)| cap_line(e.0, e.1)),
        "\n"@,
    )
}

fn cap(key: &str, values: Vec<String>) -> (line: String)
    ensures
        line@ == cap_line(key@, strs(values@)),
{
    let mut line = String::from_str(key);
    if values.len() > 0 {
        let joined = join_strings(&values, ",");
        line.append("=");
        line.append(joined.as_str());
    }
    line
}

fn values1(a: &str) -> (v: Vec<String>)
    ensures
        strs(v@) == seq![a@],
{
    let mut v: Vec<String> = Vec::new();
    v.push(String::from_str(a));
    assert(strs(v@) =~= seq![a@]);
    v
}

fn values2(a: &str, b: &str) -> (v: Vec<String>)
    ensures
        strs(v@) == seq![a@, b@],
{
    let mut v: Vec<String> = Vec::new();
    v.push(String::from_str(a));
    v.push(String::from_str(b));
    assert(strs(v@) =~= seq![a@, b@]);
    v
}

fn values0() -> (v: Vec<String>)
    ensures
        strs(v@) == Seq::<Seq<char>>::empty(),
{
    let v: Vec<String> = Vec::new();
    assert(strs(v@) =~= Seq::<Seq<char>>::empty());
    v
}

/// The value of the `bundle2` capability.
pub open spec fn bundle2caps_spec() -> Seq<char> {
    decode_utf8(percent_encoded(encode_utf8(bundle2caps_text())))
}

/// The value of the `bundle2` capability: the capabilities inside it, one
/// to a line, percent-encoded as a whole.
pub fn bundle2caps() -> (caps: String)
    ensures
        encode_utf8(caps@) == percent_encoded(encode_utf8(bundle2caps_text())),
        caps@ == bundle2caps_spec(),
{
    let mut lines: Vec<String> = Vec::new();
    lines.push(cap("HG20", values0()));
    lines.push(cap("changegroup", values2("01", "02")));
    lines.push(cap("b2x:infinitepush", values0()));
    lines.push(cap("b2x:infinitepushscratchbookmarks", values0()));
    lines.push(cap("pushkey", values0()));
    lines.push(cap("treemanifestserver", values1("True")));
    lines.push(cap("b2x:rebase", values0()));
    lines.push(cap("b2x:rebasepackpart", values0()));
    lines.push(cap("phases", values1("heads")));
    assert(strs(lines@) =~= bundle2caps_table().map_values(
        |e: (Seq<char>, Seq<Seq<char>>)| cap_line(e.0, e.1),
    ));
    let text = join_strings(&lines, "\n");
    let caps = percent_encode(text.as_str());
    proof {
        vstd::utf8::encode_utf8_decode_utf8(caps@);
    }
    caps
}


/// Percent-decoded bytes: `%` and two hexadecimal digits of either case
/// become the byte they write; every other byte stays, a `%` that no two
/// such digits follow included.
pub open spec fn percent_decoded(s: Seq<u8>) -> Seq<u8>
    decreases s.len(),
{
    if s.len() == 0 {
        Seq::<u8>::empty()
    } else if s[0] == 37 && s.len() >= 3 && hex_value(s[1]) is Some && hex_value(s[2]) is Some {
        seq![(hex_value(s[1])->0 * 16 + hex_value(s[2])->0) as u8] + percent_decoded(s.skip(3))
    } else {
        seq![s[0]] + percent_decoded(s.skip(1))
    }
}

/// The text that percent-encoded bytes stand for, where what they decode
/// to is well-formed UTF-8.
pub open spec fn decoded_text(s: Seq<u8>) -> Option<Seq<char>> {
    if valid_utf8(percent_decoded(s)) {
        Some(decode_utf8(percent_decoded(s)))
    } else {
        None
    }
}

/// `percent_encoding::percent_decode` followed by `decode_utf8`: the bytes
/// are percent-decoded, and the result is handed back as a string exactly
/// when it is well-formed UTF-8.
#[verifier::external_body]
fn percent_decode_utf8(input: &[u8]) -> (r: Option<String>)
    ensures
        r is Some <==> valid_utf8(percent_decoded(input@)),
        r matches Some(s) ==> encode_utf8(s@) == percent_decoded(input@),
{
    match percent_encoding::percent_decode(input).decode_utf8() {
        Ok(text) => Some(text.into_owned()),
        Err(_) => None,
    }
}

/// The text that percent-encoded bytes stand for.
fn decode_text(input: &[u8]) -> (r: Option<String>)
    ensures
        r is Some <==> decoded_text(input@) is Some,
        r matches Some(s) ==> decoded_text(input@) == Some(s@),
{
    let r = percent_decode_utf8(input);
    proof {
        if r is Some {
            vstd::utf8::encode_utf8_decode_utf8(r->0@);
        }
    }
    r
}

/// Where `b` first stands in `s`.
pub open spec fn first_at(s: Seq<u8>, b: u8, i: int) -> bool {
    &&& 0 <= i < s.len()
    &&& s[i] == b
    &&& forall|j: int| 0 <= j < i ==> s[j] != b
}

/// The part of `s` before the first `b`: all of `s` where there is none.
pub open spec fn before_first(s: Seq<u8>, b: u8) -> Seq<u8> {
    if s.contains(b) {
        s.take(choose|i: int| first_at(s, b, i))
    } else {
        s
    }
}

/// The part of `s` after the first `b`, where there is one.
pub open spec fn after_first(s: Seq<u8>, b: u8) -> Option<Seq<u8>> {
    if s.contains(b) {
        Some(s.skip((choose|i: int| first_at(s, b, i)) + 1))
    } else {
        None
    }
}

fn position_of(s: &[u8], b: u8) -> (r: Option<usize>)
    ensures
        r is Some <==> s@.contains(b),
        r matches Some(i) ==> first_at(s@, b, i as int) && before_first(s@, b) == s@.take(i as int)
            && after_first(s@, b) == Some(s@.skip(i + 1)),
{
    let mut i: usize = 0;
    while i < s.len()
        invariant
            i <= s.len(),
            forall|j: int| 0 <= j < i ==> s@[j] != b,
        decreases s.len() - i,
    {
        if s[i] == b {
            proof {
                assert(first_at(s@, b, i as int));
                let c = choose|k: int| first_at(s@, b, k);
                assert(first_at(s@, b, c));
                assert(c == i);
            }
            return Some(i);
        }
        i += 1;
    }
    None
}

/// Whether every element is there.
pub open spec fn all_some<T>(s: Seq<Option<T>>) -> bool {
    forall|i: int| 0 <= i < s.len() ==> (#[trigger] s[i]) is Some
}

/// What the elements hold, where every element is there.
pub open spec fn unwrapped<T>(s: Seq<Option<T>>) -> Seq<T> {
    Seq::new(s.len(), |i: int| s[i]->0)
}

/// The text of each value in a list separated by commas.
pub open spec fn decoded_values(list: Seq<u8>) -> Seq<Option<Seq<char>>> {
    Seq::new(split(list, 44).len(), |i: int| decoded_text(split(list, 44)[i]))
}

/// The values of one capability line: what follows `=`, if anything does.
pub open spec fn cap_values(line: Seq<u8>) -> Seq<Option<Seq<char>>> {
    if after_first(line, 61) is Some {
        decoded_values(after_first(line, 61)->0)
    } else {
        Seq::empty()
    }
}

/// One capability line: a name, then `=` and values separated by commas
/// if it has any; the name and each value percent-encoded.
pub open spec fn parsed_cap_line(line: Seq<u8>) -> Option<(Seq<char>, Seq<Seq<char>>)> {
    if decoded_text(before_first(line, 61)) is Some && all_some(cap_values(line)) {
        Some((decoded_text(before_first(line, 61))->0, unwrapped(cap_values(line))))
    } else {
        None
    }
}

/// Each of the lines that `text` holds, read as a capability line.
pub open spec fn parsed_lines(text: Seq<u8>) -> Seq<Option<(Seq<char>, Seq<Seq<char>>)>> {
    Seq::new(split(text, 10).len(), |i: int| parsed_cap_line(split(text, 10)[i]))
}

/// The capability lines of a `bundlecaps` entry: none without `=`, else
/// those that the rest percent-decodes to, where that is well-formed UTF-8.
pub open spec fn caps_lines(caps: Seq<u8>) -> Option<Seq<Option<(Seq<char>, Seq<Seq<char>>)>>> {
    if after_first(caps, 61) is None {
        Some(Seq::empty())
    } else if valid_utf8(percent_decoded(after_first(caps, 61)->0)) {
        Some(parsed_lines(percent_decoded(after_first(caps, 61)->0)))
    } else {
        None
    }
}

/// What one `bundlecaps` entry says: its name, and where `=` follows the
/// name, the capability lines that the rest percent-decodes to. Nothing
/// where any part fails to be well-formed UTF-8.
pub open spec fn parsed_caps(caps: Seq<u8>) -> Option<
    (Seq<char>, Seq<(Seq<char>, Seq<Seq<char>>)>),
> {
    if valid_utf8(before_first(caps, 61)) && caps_lines(caps) is Some && all_some(
        caps_lines(caps)->0,
    ) {
        Some((decode_utf8(before_first(caps, 61)), unwrapped(caps_lines(caps)->0)))
    } else {
        None
    }
}

/// The capabilities of one `bundlecaps` entry, in the order written.
#[derive(Debug)]
pub struct BundleCaps {
    pub entries: Vec<(String, Vec<String>)>,
}

impl View for BundleCaps {
    type V = Seq<(Seq<char>, Seq<Seq<char>>)>;

    open spec fn view(&self) -> Self::V {
        Seq::new(self.entries@.len(), |i: int| (self.entries@[i].0@, strs(self.entries@[i].1@)))
    }
}

fn parse_cap_line(line: &[u8]) -> (r: Option<(String, Vec<String>)>)
    ensures
        r is Some <==> parsed_cap_line(line@) is Some,
        r matches Some(e) ==> (e.0@, strs(e.1@)) == parsed_cap_line(line@)->0,
{
    let n = line.len();
    let pos = position_of(line, 61);
    let name_bytes = match pos {
        Some(i) => slice_subrange(line, 0, i),
        None => line,
    };
    assert(name_bytes@ =~= before_first(line@, 61));
    let name = match decode_text(name_bytes) {
        Some(n) => n,
        None => {
            return None;
        },
    };
    let mut values: Vec<String> = Vec::new();
    match pos {
        Some(i) => {
            assert(first_at(line@, 61, i as int));
            let rest = slice_subrange(line, i + 1, n);
            assert(rest@ =~= line@.skip(i + 1));
            assert(cap_values(line@) == decoded_values(rest@));
            let pieces = split_bytes(rest, 44);
            let mut k: usize = 0;
            while k < pieces.len()
                invariant
                    k <= pieces.len(),
                    views(pieces@) == split(rest@, 44),
                    cap_values(line@) == decoded_values(rest@),
                    decoded_text(before_first(line@, 61)) == Some(name@),
                    values@.len() == k,
                    forall|j: int|
                        #![trigger values@[j]]
                        #![trigger decoded_values(rest@)[j]]
                        0 <= j < k ==> decoded_values(rest@)[j] == Some(values@[j]@),
                decreases pieces.len() - k,
            {
                assert(views(pieces@)[k as int] == pieces@[k as int]@);
                assert(decoded_values(rest@)[k as int] == decoded_text(pieces@[k as int]@));
                match decode_text(pieces[k].as_slice()) {
                    Some(v) => {
                        values.push(v);
                    },
                    None => {
                        return None;
                    },
                }
                k += 1;
            }
            assert(views(pieces@).len() == pieces@.len());
            assert(strs(values@) =~= unwrapped(decoded_values(rest@)));
        },
        None => {
            assert(strs(values@) =~= unwrapped(cap_values(line@)));
        },
    }
    Some((name, values))
}

/// Reads one `bundlecaps` entry. The entry is `name` or `name=value`; the
/// value is percent-encoded and holds capability lines, each `key` or
/// `key=value1,value2` with the key and each value percent-encoded once
/// more.
pub fn parse_utf8_getbundle_caps(caps: &[u8]) -> (r: Option<(String, BundleCaps)>)
    ensures
        r is Some <==> parsed_caps(caps@) is Some,
        r matches Some(c) ==> (c.0@, c.1@) == parsed_caps(caps@)->0,
{
    let n = caps.len();
    let pos = position_of(caps, 61);
    let name_bytes = match pos {
        Some(i) => slice_subrange(caps, 0, i),
        None => caps,
    };
    assert(name_bytes@ =~= before_first(caps@, 61));
    let name = match string_from_utf8(copy_bytes(name_bytes)) {
        Some(n) => n,
        None => {
            return None;
        },
    };
    proof {
        vstd::utf8::encode_utf8_decode_utf8(name@);
    }
    let mut entries: Vec<(String, Vec<String>)> = Vec::new();
    match pos {
        Some(i) => {
            assert(first_at(caps@, 61, i as int));
            let rest = slice_subrange(caps, i + 1, n);
            assert(rest@ =~= caps@.skip(i + 1));
            let decoded = match percent_decode_utf8(rest) {
                Some(d) => d,
                None => {
                    return None;
                },
            };
            let text = decoded.as_str().as_bytes();
            assert(text@ == percent_decoded(rest@));
            assert(caps_lines(caps@) == Some(parsed_lines(text@)));
            let lines = split_bytes(text, 10);
            let mut k: usize = 0;
            while k < lines.len()
                invariant
                    k <= lines.len(),
                    views(lines@) == split(text@, 10),
                    caps_lines(caps@) == Some(parsed_lines(text@)),
                    valid_utf8(before_first(caps@, 61)),
                    decode_utf8(before_first(caps@, 61)) == name@,
                    entries@.len() == k,
                    forall|j: int|
                        #![trigger entries@[j]]
                        #![trigger parsed_lines(text@)[j]]
                        0 <= j < k ==> parsed_lines(text@)[j] == Some(
                            (entries@[j].0@, strs(entries@[j].1@)),
                        ),
                decreases lines.len() - k,
            {
                assert(views(lines@)[k as int] == lines@[k as int]@);
                assert(parsed_lines(text@)[k as int] == parsed_cap_line(lines@[k as int]@));
                match parse_cap_line(lines[k].as_slice()) {
                    Some(e) => {
                        entries.push(e);
                    },
                    None => {
                        return None;
                    },
                }
                k += 1;
            }
            assert(views(lines@).len() == lines@.len());
            let caps_read = BundleCaps { entries };
            assert(caps_read@ =~= unwrapped(parsed_lines(text@)));
            Some((name, caps_read))
        },
        None => {
            let caps_read = BundleCaps { entries };
            assert(caps_read@ =~= unwrapped(caps_lines(caps@)->0));
            Some((name, caps_read))
        },
    }
}

} // verus!
