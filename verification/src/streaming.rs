//! `stream_out_shallow`: the changelog as a streaming clone.

use vstd::prelude::*;
use vstd::utf8::encode_utf8;
use crate::client::RepoClient;
use crate::text::{copy_bytes, decimal_digits, push_decimal, views};

verus! {

/// The line that tells a client that the stream follows.
pub open spec fn ok_line() -> Seq<u8> {
    seq![48u8, 10u8]
}

/// The line that says how many files follow and how many bytes they hold
/// in all.
pub open spec fn count_line(file_count: nat, total_size: nat) -> Seq<u8> {
    decimal_digits(file_count) + seq![32u8] + decimal_digits(total_size) + seq![10u8]
}

/// The line before a file: its name, a NUL, its size, a line feed.
pub open spec fn file_header(name: Seq<u8>, size: nat) -> Seq<u8> {
    name + seq![0u8] + decimal_digits(size) + seq![10u8]
}

/// The whole answer, chunk by chunk: the two opening lines, then the
/// index and the data of the changelog, each behind its header.
pub open spec fn changelog_stream(
    index_size: nat,
    data_size: nat,
    index_blobs: Seq<Seq<u8>>,
    data_blobs: Seq<Seq<u8>>,
) -> Seq<Seq<u8>> {
    seq![
        ok_line(),
        count_line(2, index_size + data_size),
        file_header(encode_utf8("00changelog.i"@), index_size),
    ] + index_blobs + seq![file_header(encode_utf8("00changelog.d"@), data_size)] + data_blobs
}

/// The line before a file of the stream.
pub fn build_file_header(name: &str, size: usize) -> (header: Vec<u8>)
    ensures
        header@ == file_header(encode_utf8(name@), size as nat),
{
    let mut header = copy_bytes(name.as_bytes());
    header.push(0);
    push_decimal(&mut header, size as u64);
    header.push(10);
    header
}

fn append_blobs(out: &mut Vec<Vec<u8>>, blobs: &Vec<Vec<u8>>)
    ensures
        views(final(out)@) == views(old(out)@) + views(blobs@),
{
    let mut i: usize = 0;
    assert(views(out@) =~= views(old(out)@) + views(blobs@).take(0));
    while i < blobs.len()
        invariant
            i <= blobs.len(),
            views(out@) == views(old(out)@) + views(blobs@).take(i as int),
        decreases blobs.len() - i,
    {
        let b = copy_bytes(blobs[i].as_slice());
        proof {
            assert(views(out@.push(b)) =~= views(out@).push(b@));
            assert(views(blobs@).take(i + 1) =~= views(blobs@).take(i as int).push(blobs@[i as int]@));
        }
        out.push(b);
        i += 1;
    }
    assert(views(blobs@).take(blobs.len() as int) =~= views(blobs@));
}

impl RepoClient {
    /// The answer to `stream_out_shallow`, chunk by chunk, given the
    /// sizes and the stored pieces of the changelog's index and data. A
    /// repository that keeps no changelog for streaming answers with two
    /// empty files.
    pub fn stream_out_shallow(
        &self,
        index_size: usize,
        data_size: usize,
        index_blobs: &Vec<Vec<u8>>,
        data_blobs: &Vec<Vec<u8>>,
    ) -> (out: Vec<Vec<u8>>)
        requires
            index_size + data_size <= usize::MAX,
        ensures
            views(out@) == changelog_stream(
                index_size as nat,
                data_size as nat,
                views(index_blobs@),
                views(data_blobs@),
            ),
    {
        let mut out: Vec<Vec<u8>> = Vec::new();
        let mut ok: Vec<u8> = Vec::new();
        ok.push(48);
        ok.push(10);
        assert(ok@ =~= ok_line());
        let total_size = index_size + data_size;
        let mut count: Vec<u8> = Vec::new();
        push_decimal(&mut count, 2);
        count.push(32);
        push_decimal(&mut count, total_size as u64);
        count.push(10);
        assert(count@ =~= count_line(2, (index_size + data_size) as nat));
        let index_header = build_file_header("00changelog.i", index_size);
        let data_header = build_file_header("00changelog.d", data_size);
        out.push(ok);
        out.push(count);
        out.push(index_header);
        assert(views(out@) =~= seq![
            ok_line(),
            count_line(2, (index_size + data_size) as nat),
            file_header(encode_utf8("00changelog.i"@), index_size as nat),
        ]);
        append_blobs(&mut out, index_blobs);
        let ghost before = out@;
        out.push(data_header);
        assert(views(out@) =~= views(before).push(data_header@));
        append_blobs(&mut out, data_blobs);
        assert(views(out@) =~= changelog_stream(
            index_size as nat,
            data_size as nat,
            views(index_blobs@),
            views(data_blobs@),
        ));
        out
    }
}

} // verus!
