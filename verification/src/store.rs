//! The blob store's rules: which shard a key lives on, how a large value
//! is cut into chunks, and how the row that stands for a chunked value is
//! framed.

use vstd::prelude::*;
use vstd::utf8::encode_utf8;
use crate::text::push_all;

verus! {

/// The number that names a repository.
#[derive(Clone, Copy, Debug, PartialEq, Eq, Structural, Hash)]
pub struct RepositoryId(pub i32);

impl RepositoryId {
    pub fn new(id: i32) -> (r: RepositoryId)
        ensures
            r.0 == id,
    {
        RepositoryId(id)
    }

    pub fn id(&self) -> (r: i32)
        ensures
            r == self.0,
    {
        self.0
    }
}

/// What a row of the `data` table holds: the value itself, or the number
/// of chunks that the value was cut into.
#[derive(Clone, Copy, Debug, PartialEq, Eq, Structural, Hash)]
pub enum DataType {
    Data,
    InChunk,
}

/// A value as SQL hands it over.
#[derive(Debug, PartialEq, Eq)]
pub enum SqlValue {
    Null,
    Bytes(Vec<u8>),
    Int(i64),
    UInt(u64),
}

impl DataType {
    /// The kind of row that a value of the column `type` stands for: 1, or
    /// the text `1`, for a value; 2, or the text `2`, for a count of
    /// chunks. Any other value is handed back.
    pub fn new(v: SqlValue) -> (r: Result<DataType, SqlValue>)
        ensures
            r == (match v {
                SqlValue::Int(1) => Ok::<DataType, SqlValue>(DataType::Data),
                SqlValue::Int(2) => Ok(DataType::InChunk),
                SqlValue::Bytes(b) => if b@ == seq![49u8] {
                    Ok(DataType::Data)
                } else if b@ == seq![50u8] {
                    Ok(DataType::InChunk)
                } else {
                    Err(v)
                },
                _ => Err(v),
            }),
    {
        match v {
            SqlValue::Int(1) => Ok(DataType::Data),
            SqlValue::Int(2) => Ok(DataType::InChunk),
            SqlValue::Bytes(b) => {
                if b.len() == 1 && b[0] == 49 {
                    assert(b@ =~= seq![49u8]);
                    Ok(DataType::Data)
                } else if b.len() == 1 && b[0] == 50 {
                    assert(b@ =~= seq![50u8]);
                    Ok(DataType::InChunk)
                } else {
                    assert(b@ != seq![49u8] && b@ != seq![50u8]) by {
                        if b@.len() == 1 {
                            assert(seq![49u8][0] == 49u8);
                            assert(seq![50u8][0] == 50u8);
                        }
                    }
                    Err(SqlValue::Bytes(b))
                }
            },
            other => Err(other),
        }
    }

    /// The kind itself: reading it from a value cannot fail half way.
    pub fn commit(self) -> (r: DataType)
        ensures
            r == self,
    {
        self
    }

    /// The value that the kind is stored as: 1 for a value, 2 for a count
    /// of chunks.
    pub fn rollback(self) -> (r: SqlValue)
        ensures
            r == (match self {
                DataType::Data => SqlValue::Int(1),
                DataType::InChunk => SqlValue::Int(2),
            }),
    {
        match self {
            DataType::Data => SqlValue::Int(1),
            DataType::InChunk => SqlValue::Int(2),
        }
    }
}

/// What XXH32 makes of a seed and a byte string.
pub uninterp spec fn xxh32(seed: u32, data: Seq<u8>) -> u32;

/// `twox_hash::XxHash32` seeded, fed once and finished: the 32-bit
/// xxHash of the data.
#[verifier::external_body]
fn xxhash32(seed: u32, data: &[u8]) -> (h: u32)
    ensures
        h == xxh32(seed, data@),
{
    let mut hasher = twox_hash::XxHash32::with_seed(seed);
    std::hash::Hasher::write(&mut hasher, data);
    std::hash::Hasher::finish(&hasher) as u32
}

/// The four bytes of a number, lowest first.
pub open spec fn u32_le(x: u32) -> Seq<u8> {
    seq![
        (x % 256) as u8,
        (x / 256 % 256) as u8,
        (x / 65536 % 256) as u8,
        (x / 16777216) as u8,
    ]
}

/// The four bytes of a signed number in two's complement, lowest first.
pub open spec fn i32_le(x: i32) -> Seq<u8> {
    if x >= 0 {
        u32_le(x as u32)
    } else {
        u32_le((x + 0x1_0000_0000) as u32)
    }
}

fn push_u32_le(out: &mut Vec<u8>, x: u32)
    ensures
        final(out)@ == old(out)@ + u32_le(x),
{
    out.push((x % 256) as u8);
    out.push((x / 256 % 256) as u8);
    out.push((x / 65536 % 256) as u8);
    out.push((x / 16777216) as u8);
    assert(out@ =~= old(out)@ + u32_le(x));
}

fn push_i32_le(out: &mut Vec<u8>, x: i32)
    ensures
        final(out)@ == old(out)@ + i32_le(x),
{
    if x >= 0 {
        push_u32_le(out, x as u32);
    } else {
        push_u32_le(out, (x as i64 + 0x1_0000_0000) as u32);
    }
}

/// The shard of a key: the hash, seeded with zero, of the repository's
/// number and the key, reduced to the number of shards, counted from one.
pub open spec fn data_shard(repo_id: i32, key: Seq<u8>, shard_num: usize) -> int {
    xxh32(0, i32_le(repo_id) + key) as int % shard_num as int + 1
}

/// The shard of a chunk: as for a key, with the chunk's number hashed
/// after the key.
pub open spec fn chunk_shard(repo_id: i32, key: Seq<u8>, chunk_id: u32, shard_num: usize) -> int {
    xxh32(0, i32_le(repo_id) + key + u32_le(chunk_id)) as int % shard_num as int + 1
}

/// The rules of the `data` table of one repository.
#[derive(Clone, Copy, Debug)]
pub struct DataSqlStore {
    pub repo_id: RepositoryId,
    /// How many shards there are: at least one.
    pub shard_num: usize,
}

/// The rules of the `chunk` table of one repository.
#[derive(Clone, Copy, Debug)]
pub struct ChunkSqlStore {
    pub repo_id: RepositoryId,
    /// How many shards there are: at least one.
    pub shard_num: usize,
}

impl DataSqlStore {
    pub open spec fn wf(&self) -> bool {
        self.shard_num >= 1
    }

    /// The store of a repository over that many shards; nothing for no
    /// shard.
    pub fn new(repo_id: RepositoryId, shard_num: usize) -> (r: Option<DataSqlStore>)
        ensures
            r is Some <==> shard_num >= 1,
            r matches Some(s) ==> s.wf() && s.repo_id == repo_id && s.shard_num == shard_num,
    {
        if shard_num >= 1 {
            Some(DataSqlStore { repo_id, shard_num })
        } else {
            None
        }
    }

    /// The shard that holds the key's row.
    pub fn shard(&self, key: &str) -> (s: usize)
        requires
            self.wf(),
        ensures
            s == data_shard(self.repo_id.0, encode_utf8(key@), self.shard_num),
            1 <= s <= self.shard_num,
    {
        let mut data: Vec<u8> = Vec::new();
        push_i32_le(&mut data, self.repo_id.id());
        push_all(&mut data, key.as_bytes());
        assert(data@ =~= i32_le(self.repo_id.0) + encode_utf8(key@));
        let h = xxhash32(0, data.as_slice());
        ((h as u64 % self.shard_num as u64) + 1) as usize
    }
}

impl ChunkSqlStore {
    pub open spec fn wf(&self) -> bool {
        self.shard_num >= 1
    }

    /// The store of a repository over that many shards; nothing for no
    /// shard.
    pub fn new(repo_id: RepositoryId, shard_num: usize) -> (r: Option<ChunkSqlStore>)
        ensures
            r is Some <==> shard_num >= 1,
            r matches Some(s) ==> s.wf() && s.repo_id == repo_id && s.shard_num == shard_num,
    {
        if shard_num >= 1 {
            Some(ChunkSqlStore { repo_id, shard_num })
        } else {
            None
        }
    }

    /// The shard that holds the row of one chunk of the key's value.
    pub fn shard(&self, key: &str, chunk_id: u32) -> (s: usize)
        requires
            self.wf(),
        ensures
            s == chunk_shard(self.repo_id.0, encode_utf8(key@), chunk_id, self.shard_num),
            1 <= s <= self.shard_num,
    {
        let mut data: Vec<u8> = Vec::new();
        push_i32_le(&mut data, self.repo_id.id());
        push_all(&mut data, key.as_bytes());
        push_u32_le(&mut data, chunk_id);
        assert(data@ =~= i32_le(self.repo_id.0) + encode_utf8(key@) + u32_le(chunk_id));
        let h = xxhash32(0, data.as_slice());
        ((h as u64 % self.shard_num as u64) + 1) as usize
    }
}

} // verus!
