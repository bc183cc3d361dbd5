//! The blob store over SQL tables held in memory: rows on shards, a
//! replica that may lag behind its master, and values that are cut into
//! chunks when they are large.

use vstd::prelude::*;
use vstd::utf8::encode_utf8;
use vstd::string::StringExecFns;
use crate::chunking::{
    chunk_at, chunks_of, concat, concat_chunks, decode_in_chunk, encode_in_chunk, in_chunk_header,
    lemma_chunks_round_trip, num_chunks, split_chunks, total_len,
};
use crate::store::{
    chunk_shard, data_shard, ChunkSqlStore, DataSqlStore, DataType, RepositoryId,
};
use crate::text::{bytes_eq, copy_bytes, push_all, push_decimal, views};

verus! {

/// What the `data` table says of a key.
#[derive(Debug, PartialEq, Eq)]
pub enum DataEntry {
    /// The value itself.
    Data(Vec<u8>),
    /// The value is kept in this many chunks: at least one.
    InChunk(usize),
}

/// How reading from the store can fail. Each of these means that what is
/// stored is damaged; none is ever turned into "no such key".
#[derive(Clone, Copy, Debug, PartialEq, Eq, Structural)]
pub enum StoreError {
    /// The row that should frame a number of chunks does not.
    BadHeader,
    /// The number of chunks is not positive.
    InvalidChunkCount,
    /// A chunk is on neither the replica nor the master of its shard.
    MissingChunk { chunk_id: u32, shard: usize },
}

/// How writing to the store can fail.
#[derive(Clone, Copy, Debug, PartialEq, Eq, Structural)]
pub enum PutError {
    /// The value would take more chunks than a row can frame.
    TooManyChunks,
}

impl StoreError {
    /// The error in words.
    pub fn message(&self) -> (m: String)
        ensures
            match *self {
                StoreError::BadHeader => m@ == "Failed to deserialize InChunk data"@,
                StoreError::InvalidChunkCount => m@ == "Encoded number of chunks was invalid"@,
                StoreError::MissingChunk { chunk_id, shard } => encode_utf8(m@) == encode_utf8(
                    "Missing chunk with id "@,
                ) + crate::text::decimal_digits(chunk_id as nat) + encode_utf8(" shard "@)
                    + crate::text::decimal_digits(shard as nat),
            },
    {
        match self {
            StoreError::BadHeader => String::from_str("Failed to deserialize InChunk data"),
            StoreError::InvalidChunkCount => String::from_str(
                "Encoded number of chunks was invalid",
            ),
            StoreError::MissingChunk { chunk_id, shard } => {
                let mut bytes = copy_bytes("Missing chunk with id ".as_bytes());
                push_decimal(&mut bytes, *chunk_id as u64);
                push_all(&mut bytes, " shard ".as_bytes());
                push_decimal(&mut bytes, *shard as u64);
                proof {
                    crate::text::lemma_decimal_digits_ascii(*chunk_id as nat);
                    crate::text::lemma_decimal_digits_ascii(*shard as nat);
                    reveal_strlit("Missing chunk with id ");
                    reveal_strlit(" shard ");
                    let a = "Missing chunk with id "@;
                    let b = " shard "@;
                    assert(vstd::utf8::is_ascii_chars(a));
                    assert(vstd::utf8::is_ascii_chars(b));
                    vstd::utf8::is_ascii_chars_encode_utf8(a);
                    vstd::utf8::is_ascii_chars_encode_utf8(b);
                    assert(crate::text::is_ascii_bytes(encode_utf8(a)));
                    assert(crate::text::is_ascii_bytes(encode_utf8(b)));
                }
                crate::text::ascii_string(bytes)
            },
        }
    }
}

/// The number of chunks as a count, if it is positive.
pub fn i32_to_non_zero_usize(n: i32) -> (r: Option<usize>)
    ensures
        r is Some <==> n > 0,
        r matches Some(c) ==> c == n,
{
    if n > 0 {
        Some(n as usize)
    } else {
        None
    }
}

/// What a row of the `data` table stands for.
pub open spec fn entry_of_row(dtype: DataType, value: Seq<u8>) -> Result<(bool, Seq<u8>, int), StoreError> {
    match dtype {
        DataType::Data => Ok((false, value, 0)),
        DataType::InChunk => if exists|n: i32| value == in_chunk_header(n) {
            let n = choose|n: i32| value == in_chunk_header(n);
            if n > 0 {
                Ok((true, Seq::empty(), n as int))
            } else {
                Err(StoreError::InvalidChunkCount)
            }
        } else {
            Err(StoreError::BadHeader)
        },
    }
}

/// What an entry is, as plain values: whether it is chunked, the value
/// if it is not, and the number of chunks if it is.
pub open spec fn entry_view(e: DataEntry) -> (bool, Seq<u8>, int) {
    match e {
        DataEntry::Data(v) => (false, v@, 0),
        DataEntry::InChunk(n) => (true, Seq::empty(), n as int),
    }
}

impl DataSqlStore {
    /// What the row found for a key stands for; nothing for no row. A row
    /// that should frame a number of chunks and does not, or frames a
    /// number that is not positive, is an error.
    pub fn entry_of(&self, row: Option<(DataType, Vec<u8>)>) -> (r: Result<Option<DataEntry>, StoreError>)
        ensures
            row is None ==> r == Ok::<Option<DataEntry>, StoreError>(None),
            row matches Some(found) ==> (match entry_of_row(found.0, found.1@) {
                Ok(e) => r matches Ok(Some(entry)) && entry_view(entry) == e,
                Err(e) => r == Err::<Option<DataEntry>, StoreError>(e),
            }),
    {
        match row {
            None => Ok(None),
            Some((DataType::Data, value)) => Ok(Some(DataEntry::Data(value))),
            Some((DataType::InChunk, value)) => match decode_in_chunk(value.as_slice()) {
                Some(n) => {
                    proof {
                        assert forall|c: i32| #[trigger] in_chunk_header(c) == value@ implies c
                            == n by {
                            lemma_header_injective(c, n);
                        }
                    }
                    match i32_to_non_zero_usize(n) {
                        Some(count) => Ok(Some(DataEntry::InChunk(count))),
                        None => Err(StoreError::InvalidChunkCount),
                    }
                },
                None => Err(StoreError::BadHeader),
            },
        }
    }

    /// The row that an entry is stored as.
    pub fn row_of(&self, entry: &DataEntry) -> (row: (DataType, Vec<u8>))
        requires
            entry matches DataEntry::InChunk(n) ==> n <= i32::MAX,
        ensures
            match *entry {
                DataEntry::Data(v) => row.0 == DataType::Data && row.1@ == v@,
                DataEntry::InChunk(n) => row.0 == DataType::InChunk && row.1@ == in_chunk_header(
                    n as i32,
                ),
            },
    {
        match entry {
            DataEntry::Data(v) => (DataType::Data, copy_bytes(v.as_slice())),
            DataEntry::InChunk(n) => (DataType::InChunk, encode_in_chunk(*n as i32)),
        }
    }
}

impl ChunkSqlStore {
    /// The chunk that the master of a shard holds, after the replica held
    /// none: a chunk that the master lacks too is an error.
    pub fn chunk_of(&self, chunk_id: u32, shard: usize, master_row: Option<Vec<u8>>) -> (r: Result<
        Vec<u8>,
        StoreError,
    >)
        ensures
            r == (match master_row {
                Some(v) => Ok::<Vec<u8>, StoreError>(v),
                None => Err(StoreError::MissingChunk { chunk_id, shard }),
            }),
    {
        match master_row {
            Some(v) => Ok(v),
            None => Err(StoreError::MissingChunk { chunk_id, shard }),
        }
    }
}

/// Two numbers of chunks that are framed alike are the same number.
pub proof fn lemma_header_injective(a: i32, b: i32)
    requires
        in_chunk_header(a) == in_chunk_header(b),
    ensures
        a == b,
{
    crate::chunking::lemma_zigzag_round_trip(a);
    crate::chunking::lemma_zigzag_round_trip(b);
    crate::chunking::lemma_varint_round_trip(crate::chunking::zigzag(a));
    crate::chunking::lemma_varint_round_trip(crate::chunking::zigzag(b));
    let ha = in_chunk_header(a);
    let hb = in_chunk_header(b);
    let va = crate::chunking::varint(crate::chunking::zigzag(a));
    let vb = crate::chunking::varint(crate::chunking::zigzag(b));
    assert(ha.subrange(1, ha.len() - 1) =~= va);
    assert(hb.subrange(1, hb.len() - 1) =~= vb);
}

/// The first of two rows read, or the second where the first is missing:
/// a read asks the replica, and the master only if the replica has
/// nothing.
pub fn replica_or_master<T>(replica: Option<T>, master: Option<T>) -> (r: Option<T>)
    ensures
        r == (if replica is Some {
            replica
        } else {
            master
        }),
{
    match replica {
        Some(v) => Some(v),
        None => master,
    }
}


/// A row of the `data` table, and the shard it is on.
#[derive(Debug, PartialEq, Eq)]
pub struct DataRow {
    pub shard: usize,
    pub repo_id: i32,
    pub id: Vec<u8>,
    pub dtype: DataType,
    pub value: Vec<u8>,
}

/// A row of the `chunk` table, and the shard it is on.
#[derive(Debug, PartialEq, Eq)]
pub struct ChunkRow {
    pub shard: usize,
    pub repo_id: i32,
    pub id: Vec<u8>,
    pub chunk_id: u32,
    pub value: Vec<u8>,
}

/// The row of the `data` table of a shard under a key: the first that was
/// inserted, since a later insert under the same key is ignored.
pub open spec fn find_data(rows: Seq<DataRow>, shard: int, repo_id: i32, id: Seq<u8>) -> Option<
    (DataType, Seq<u8>),
>
    decreases rows.len(),
{
    if rows.len() == 0 {
        None
    } else if find_data(rows.drop_last(), shard, repo_id, id) is Some {
        find_data(rows.drop_last(), shard, repo_id, id)
    } else if rows.last().shard == shard && rows.last().repo_id == repo_id && rows.last().id@ == id {
        Some((rows.last().dtype, rows.last().value@))
    } else {
        None
    }
}

/// The row of the `chunk` table of a shard under a key and a chunk's
/// number: the first that was inserted.
pub open spec fn find_chunk(
    rows: Seq<ChunkRow>,
    shard: int,
    repo_id: i32,
    id: Seq<u8>,
    chunk_id: u32,
) -> Option<Seq<u8>>
    decreases rows.len(),
{
    if rows.len() == 0 {
        None
    } else if find_chunk(rows.drop_last(), shard, repo_id, id, chunk_id) is Some {
        find_chunk(rows.drop_last(), shard, repo_id, id, chunk_id)
    } else if rows.last().shard == shard && rows.last().repo_id == repo_id && rows.last().id@ == id
        && rows.last().chunk_id == chunk_id {
        Some(rows.last().value@)
    } else {
        None
    }
}

proof fn lemma_find_data_prefix(rows: Seq<DataRow>, j: int, shard: int, repo_id: i32, id: Seq<u8>)
    requires
        0 <= j <= rows.len(),
        find_data(rows.take(j), shard, repo_id, id) is Some,
    ensures
        find_data(rows, shard, repo_id, id) == find_data(rows.take(j), shard, repo_id, id),
    decreases rows.len() - j,
{
    if j < rows.len() {
        let t = rows.take(j + 1);
        assert(t.drop_last() =~= rows.take(j));
        lemma_find_data_prefix(rows, j + 1, shard, repo_id, id);
    } else {
        assert(rows.take(j) =~= rows);
    }
}

proof fn lemma_find_chunk_prefix(
    rows: Seq<ChunkRow>,
    j: int,
    shard: int,
    repo_id: i32,
    id: Seq<u8>,
    chunk_id: u32,
)
    requires
        0 <= j <= rows.len(),
        find_chunk(rows.take(j), shard, repo_id, id, chunk_id) is Some,
    ensures
        find_chunk(rows, shard, repo_id, id, chunk_id) == find_chunk(
            rows.take(j),
            shard,
            repo_id,
            id,
            chunk_id,
        ),
    decreases rows.len() - j,
{
    if j < rows.len() {
        let t = rows.take(j + 1);
        assert(t.drop_last() =~= rows.take(j));
        lemma_find_chunk_prefix(rows, j + 1, shard, repo_id, id, chunk_id);
    } else {
        assert(rows.take(j) =~= rows);
    }
}

fn select_data(rows: &Vec<DataRow>, shard: usize, repo_id: i32, id: &[u8]) -> (r: Option<
    (DataType, Vec<u8>),
>)
    ensures
        r is Some <==> find_data(rows@, shard as int, repo_id, id@) is Some,
        r matches Some(found) ==> find_data(rows@, shard as int, repo_id, id@) == Some(
            (found.0, found.1@),
        ),
{
    let mut i: usize = 0;
    assert(rows@.take(0) =~= Seq::<DataRow>::empty());
    while i < rows.len()
        invariant
            i <= rows.len(),
            find_data(rows@.take(i as int), shard as int, repo_id, id@) is None,
        decreases rows.len() - i,
    {
        let row = &rows[i];
        proof {
            let t = rows@.take(i + 1);
            assert(t.drop_last() =~= rows@.take(i as int));
            assert(t.last() == rows@[i as int]);
        }
        if row.shard == shard && row.repo_id == repo_id && bytes_eq(row.id.as_slice(), id) {
            proof {
                lemma_find_data_prefix(rows@, i + 1, shard as int, repo_id, id@);
            }
            return Some((row.dtype, copy_bytes(row.value.as_slice())));
        }
        i += 1;
    }
    assert(rows@.take(rows.len() as int) =~= rows@);
    None
}

fn select_chunk(rows: &Vec<ChunkRow>, shard: usize, repo_id: i32, id: &[u8], chunk_id: u32) -> (r:
    Option<Vec<u8>>)
    ensures
        r is Some <==> find_chunk(rows@, shard as int, repo_id, id@, chunk_id) is Some,
        r matches Some(found) ==> find_chunk(rows@, shard as int, repo_id, id@, chunk_id) == Some(
            found@,
        ),
{
    let mut i: usize = 0;
    assert(rows@.take(0) =~= Seq::<ChunkRow>::empty());
    while i < rows.len()
        invariant
            i <= rows.len(),
            find_chunk(rows@.take(i as int), shard as int, repo_id, id@, chunk_id) is None,
        decreases rows.len() - i,
    {
        let row = &rows[i];
        proof {
            let t = rows@.take(i + 1);
            assert(t.drop_last() =~= rows@.take(i as int));
            assert(t.last() == rows@[i as int]);
        }
        if row.shard == shard && row.repo_id == repo_id && row.chunk_id == chunk_id && bytes_eq(
            row.id.as_slice(),
            id,
        ) {
            proof {
                lemma_find_chunk_prefix(rows@, i + 1, shard as int, repo_id, id@, chunk_id);
            }
            return Some(copy_bytes(row.value.as_slice()));
        }
        i += 1;
    }
    assert(rows@.take(rows.len() as int) =~= rows@);
    None
}

/// Inserts a row unless the shard has one under the key.
fn insert_data(rows: &mut Vec<DataRow>, shard: usize, repo_id: i32, id: &[u8], dtype: DataType, value: &[u8])
    ensures
        forall|s: int, r: i32, k: Seq<u8>|
            #![trigger find_data(final(rows)@, s, r, k)]
            find_data(final(rows)@, s, r, k) == (if find_data(old(rows)@, s, r, k) is None && s
                == shard && r == repo_id && k == id@ {
                Some((dtype, value@))
            } else {
                find_data(old(rows)@, s, r, k)
            }),
        final(rows)@.len() == old(rows)@.len() + (if find_data(
            old(rows)@,
            shard as int,
            repo_id,
            id@,
        ) is None {
            1int
        } else {
            0int
        }),
{
    if select_data(rows, shard, repo_id, id).is_some() {
        return ;
    }
    let row = DataRow { shard, repo_id, id: copy_bytes(id), dtype, value: copy_bytes(value) };
    let ghost before = rows@;
    rows.push(row);
    proof {
        assert(rows@.drop_last() =~= before);
    }
}

/// Inserts a row unless the shard has one under the key and the number.
fn insert_chunk(rows: &mut Vec<ChunkRow>, shard: usize, repo_id: i32, id: &[u8], chunk_id: u32, value: &[u8])
    ensures
        forall|s: int, r: i32, k: Seq<u8>, c: u32|
            #![trigger find_chunk(final(rows)@, s, r, k, c)]
            find_chunk(final(rows)@, s, r, k, c) == (if find_chunk(old(rows)@, s, r, k, c) is None
                && s == shard && r == repo_id && k == id@ && c == chunk_id {
                Some(value@)
            } else {
                find_chunk(old(rows)@, s, r, k, c)
            }),
        final(rows)@.len() == old(rows)@.len() + (if find_chunk(
            old(rows)@,
            shard as int,
            repo_id,
            id@,
            chunk_id,
        ) is None {
            1int
        } else {
            0int
        }),
{
    if select_chunk(rows, shard, repo_id, id, chunk_id).is_some() {
        return ;
    }
    let row = ChunkRow { shard, repo_id, id: copy_bytes(id), chunk_id, value: copy_bytes(value) };
    let ghost before = rows@;
    rows.push(row);
    proof {
        assert(rows@.drop_last() =~= before);
    }
}

/// A blob store in memory. Values up to `chunk_size` bytes are stored
/// whole; larger ones are cut into chunks of `chunk_size` bytes. Writes go
/// to the master of a shard; reads ask the replica first.
#[derive(Debug)]
pub struct Sqlblob {
    data_store: DataSqlStore,
    chunk_store: ChunkSqlStore,
    chunk_size: usize,
    master_data: Vec<DataRow>,
    master_chunks: Vec<ChunkRow>,
    replica_data: Vec<DataRow>,
    replica_chunks: Vec<ChunkRow>,
}

impl Sqlblob {
    /// The store's settings hold, and the replica has no row that the
    /// master does not have.
    pub closed spec fn wf(&self) -> bool {
        &&& self.data_store.wf()
        &&& self.chunk_store.wf()
        &&& self.data_store.repo_id == self.chunk_store.repo_id
        &&& self.data_store.shard_num == self.chunk_store.shard_num
        &&& self.chunk_size >= 1
        &&& forall|s: int, r: i32, k: Seq<u8>|
            (#[trigger] find_data(self.replica_data@, s, r, k)) is Some ==> find_data(
                self.master_data@,
                s,
                r,
                k,
            ) == find_data(self.replica_data@, s, r, k)
        &&& forall|s: int, r: i32, k: Seq<u8>, c: u32|
            (#[trigger] find_chunk(self.replica_chunks@, s, r, k, c)) is Some ==> find_chunk(
                self.master_chunks@,
                s,
                r,
                k,
                c,
            ) == find_chunk(self.replica_chunks@, s, r, k, c)
    }

    pub closed spec fn repo_id(&self) -> i32 {
        self.data_store.repo_id.0
    }

    pub closed spec fn shard_num(&self) -> usize {
        self.data_store.shard_num
    }

    pub closed spec fn chunk_size(&self) -> usize {
        self.chunk_size
    }

    /// The rows of the `data` table on the masters, in the order written.
    pub closed spec fn data_rows(&self) -> Seq<DataRow> {
        self.master_data@
    }

    /// The rows of the `chunk` table on the masters, in the order written.
    pub closed spec fn chunk_rows(&self) -> Seq<ChunkRow> {
        self.master_chunks@
    }

    /// The rows of the `data` table on the replicas.
    pub closed spec fn replica_data_rows(&self) -> Seq<DataRow> {
        self.replica_data@
    }

    /// The rows of the `chunk` table on the replicas.
    pub closed spec fn replica_chunk_rows(&self) -> Seq<ChunkRow> {
        self.replica_chunks@
    }

    /// The replicas hold, on every shard and under every key, the row
    /// that the masters hold there, and as many rows in all.
    pub open spec fn replicas_caught_up(&self) -> bool {
        &&& self.replica_data_rows().len() == self.data_rows().len()
        &&& self.replica_chunk_rows().len() == self.chunk_rows().len()
        &&& forall|s: int, r: i32, k: Seq<u8>|
            #![trigger find_data(self.replica_data_rows(), s, r, k)]
            find_data(self.replica_data_rows(), s, r, k) == find_data(self.data_rows(), s, r, k)
        &&& forall|s: int, r: i32, k: Seq<u8>, c: u32|
            #![trigger find_chunk(self.replica_chunk_rows(), s, r, k, c)]
            find_chunk(self.replica_chunk_rows(), s, r, k, c) == find_chunk(
                self.chunk_rows(),
                s,
                r,
                k,
                c,
            )
    }

    /// The row of the `data` table that the masters hold for a key.
    pub open spec fn data_row(&self, key: Seq<u8>) -> Option<(DataType, Seq<u8>)> {
        find_data(
            self.data_rows(),
            data_shard(self.repo_id(), key, self.shard_num()),
            self.repo_id(),
            key,
        )
    }

    /// The chunk that the masters hold for a key under a number.
    pub open spec fn chunk_row(&self, key: Seq<u8>, chunk_id: u32) -> Option<Seq<u8>> {
        find_chunk(
            self.chunk_rows(),
            chunk_shard(self.repo_id(), key, chunk_id, self.shard_num()),
            self.repo_id(),
            key,
            chunk_id,
        )
    }

    /// The first of the numbers below `n` under which the key has no
    /// chunk; `n` where it has them all.
    pub open spec fn first_missing(&self, key: Seq<u8>, n: int) -> int
        decreases n,
    {
        if n <= 0 {
            0
        } else if self.first_missing(key, n - 1) < n - 1 {
            self.first_missing(key, n - 1)
        } else if self.chunk_row(key, (n - 1) as u32) is None {
            n - 1
        } else {
            n
        }
    }

    /// The chunks of a key under the numbers below `n`, in order.
    pub open spec fn chunks(&self, key: Seq<u8>, n: int) -> Seq<Seq<u8>> {
        Seq::new(n as nat, |i: int| self.chunk_row(key, i as u32)->0)
    }

    /// What the store holds under a key: nothing; a value; or an error,
    /// where what it holds is damaged.
    pub open spec fn value_of(&self, key: Seq<u8>) -> Result<Option<Seq<u8>>, StoreError> {
        match self.data_row(key) {
            None => Ok(None),
            Some((dtype, value)) => match entry_of_row(dtype, value) {
                Err(e) => Err(e),
                Ok((false, v, n)) => Ok(Some(v)),
                Ok((true, v, n)) => if self.first_missing(key, n) < n {
                    Err(
                        StoreError::MissingChunk {
                            chunk_id: self.first_missing(key, n) as u32,
                            shard: chunk_shard(
                                self.repo_id(),
                                key,
                                self.first_missing(key, n) as u32,
                                self.shard_num(),
                            ) as usize,
                        },
                    )
                } else {
                    Ok(Some(concat(self.chunks(key, n))))
                },
            },
        }
    }

    /// Whether nothing at all is stored for a key: no row and no chunk.
    pub open spec fn fresh(&self, key: Seq<u8>) -> bool {
        self.data_row(key) is None && forall|c: u32| (#[trigger] self.chunk_row(key, c)) is None
    }

    /// An empty store for a repository, over `shard_num` shards and with
    /// chunks of `chunk_size` bytes; nothing where either is zero.
    pub fn new(repo_id: RepositoryId, shard_num: usize, chunk_size: usize) -> (r: Option<Sqlblob>)
        ensures
            r is Some <==> shard_num >= 1 && chunk_size >= 1,
            r matches Some(s) ==> s.wf() && s.repo_id() == repo_id.0 && s.shard_num() == shard_num
                && s.chunk_size() == chunk_size && s.data_rows().len() == 0
                && s.chunk_rows().len() == 0,
    {
        if chunk_size == 0 {
            return None;
        }
        match (DataSqlStore::new(repo_id, shard_num), ChunkSqlStore::new(repo_id, shard_num)) {
            (Some(data_store), Some(chunk_store)) => Some(
                Sqlblob {
                    data_store,
                    chunk_store,
                    chunk_size,
                    master_data: Vec::new(),
                    master_chunks: Vec::new(),
                    replica_data: Vec::new(),
                    replica_chunks: Vec::new(),
                },
            ),
            _ => None,
        }
    }

    /// How many rows the `data` table has on the masters.
    pub fn data_row_count(&self) -> (n: usize)
        ensures
            n == self.data_rows().len(),
    {
        self.master_data.len()
    }

    /// How many rows the `chunk` table has on the masters.
    pub fn chunk_row_count(&self) -> (n: usize)
        ensures
            n == self.chunk_rows().len(),
    {
        self.master_chunks.len()
    }

    /// How many rows the `data` table has on the replicas.
    pub fn replica_data_row_count(&self) -> (n: usize)
        ensures
            n == self.replica_data_rows().len(),
    {
        self.replica_data.len()
    }

    /// How many rows the `chunk` table has on the replicas.
    pub fn replica_chunk_row_count(&self) -> (n: usize)
        ensures
            n == self.replica_chunk_rows().len(),
    {
        self.replica_chunks.len()
    }

    /// What the `data` table says of a key: asked of the replica of the
    /// key's shard, and of its master if the replica has no row.
    pub fn get_entry(&self, key: &str) -> (r: Result<Option<DataEntry>, StoreError>)
        requires
            self.wf(),
        ensures
            self.data_row(encode_utf8(key@)) is None ==> r == Ok::<Option<DataEntry>, StoreError>(
                None,
            ),
            self.data_row(encode_utf8(key@)) matches Some(found) ==> (match entry_of_row(
                found.0,
                found.1,
            ) {
                Ok(e) => r matches Ok(Some(entry)) && entry_view(entry) == e,
                Err(e) => r == Err::<Option<DataEntry>, StoreError>(e),
            }),
    {
        let shard = self.data_store.shard(key);
        let repo = self.data_store.repo_id.id();
        let replica = select_data(&self.replica_data, shard, repo, key.as_bytes());
        let row = match replica {
            Some(found) => Some(found),
            None => select_data(&self.master_data, shard, repo, key.as_bytes()),
        };
        self.data_store.entry_of(row)
    }

    /// Whether the store has a row for the key: asked of the replica of
    /// the key's shard, and of its master if the replica has none.
    pub fn is_present(&self, key: &str) -> (r: bool)
        requires
            self.wf(),
        ensures
            r == self.data_row(encode_utf8(key@)) is Some,
    {
        let shard = self.data_store.shard(key);
        let repo = self.data_store.repo_id.id();
        if select_data(&self.replica_data, shard, repo, key.as_bytes()).is_some() {
            true
        } else {
            select_data(&self.master_data, shard, repo, key.as_bytes()).is_some()
        }
    }

    /// One chunk of a key's value: asked of the replica of the chunk's
    /// shard, and of its master if the replica has none. A chunk that is
    /// on neither is an error.
    pub fn get_chunk(&self, key: &str, chunk_id: u32) -> (r: Result<Vec<u8>, StoreError>)
        requires
            self.wf(),
        ensures
            match self.chunk_row(encode_utf8(key@), chunk_id) {
                Some(v) => r matches Ok(found) && found@ == v,
                None => r == Err::<Vec<u8>, StoreError>(
                    StoreError::MissingChunk {
                        chunk_id,
                        shard: chunk_shard(
                            self.repo_id(),
                            encode_utf8(key@),
                            chunk_id,
                            self.shard_num(),
                        ) as usize,
                    },
                ),
            },
    {
        let shard = self.chunk_store.shard(key, chunk_id);
        let repo = self.chunk_store.repo_id.id();
        match select_chunk(&self.replica_chunks, shard, repo, key.as_bytes(), chunk_id) {
            Some(found) => Ok(found),
            None => {
                let master = select_chunk(
                    &self.master_chunks,
                    shard,
                    repo,
                    key.as_bytes(),
                    chunk_id,
                );
                self.chunk_store.chunk_of(chunk_id, shard, master)
            },
        }
    }

    /// The value stored under a key; nothing where there is none. Chunks
    /// are put together in the order of their numbers; the first chunk
    /// that is missing is an error.
    pub fn get(&self, key: &str) -> (r: Result<Option<Vec<u8>>, StoreError>)
        requires
            self.wf(),
        ensures
            match self.value_of(encode_utf8(key@)) {
                Ok(Some(v)) => r matches Ok(Some(found)) && found@ == v,
                Ok(None) => r == Ok::<Option<Vec<u8>>, StoreError>(None),
                Err(e) => r == Err::<Option<Vec<u8>>, StoreError>(e),
            },
    {
        let ghost k = encode_utf8(key@);
        match self.get_entry(key) {
            Err(e) => Err(e),
            Ok(None) => Ok(None),
            Ok(Some(DataEntry::Data(v))) => Ok(Some(v)),
            Ok(Some(DataEntry::InChunk(n))) => {
                let mut chunks: Vec<Vec<u8>> = Vec::new();
                let mut i: usize = 0;
                while i < n
                    invariant
                        self.wf(),
                        k == encode_utf8(key@),
                        i <= n,
                        n <= i32::MAX,
                        self.data_row(k) matches Some(found) && entry_of_row(found.0, found.1)
                            == Ok::<(bool, Seq<u8>, int), StoreError>(
                            (true, Seq::empty(), n as int),
                        ),
                        self.first_missing(k, i as int) == i,
                        chunks@.len() == i,
                        forall|j: int|
                            0 <= j < i ==> (#[trigger] chunks@[j])@ == self.chunk_row(
                                k,
                                j as u32,
                            )->0,
                    decreases n - i,
                {
                    match self.get_chunk(key, i as u32) {
                        Ok(c) => {
                            chunks.push(c);
                        },
                        Err(e) => {
                            proof {
                                self.lemma_first_missing_stays(k, i as int + 1, n as int);
                            }
                            return Err(e);
                        },
                    }
                    i += 1;
                }
                proof {
                    assert(views(chunks@) =~= self.chunks(k, n as int));
                }
                Ok(Some(concat_chunks(&chunks)))
            },
        }
    }

    proof fn lemma_first_missing_stays(&self, key: Seq<u8>, a: int, b: int)
        requires
            0 <= a <= b,
            self.first_missing(key, a) < a,
        ensures
            self.first_missing(key, b) == self.first_missing(key, a),
        decreases b - a,
    {
        if a < b {
            self.lemma_first_missing_stays(key, a, b - 1);
        }
    }

    proof fn lemma_first_missing_bound(&self, key: Seq<u8>, n: int)
        ensures
            0 <= self.first_missing(key, n) <= n || n < 0,
            n < 0 ==> self.first_missing(key, n) == 0,
        decreases n,
    {
        if n > 0 {
            self.lemma_first_missing_bound(key, n - 1);
        }
    }

    /// The settings of two stores are the same.
    pub open spec fn same_settings(&self, other: &Sqlblob) -> bool {
        &&& self.repo_id() == other.repo_id()
        &&& self.shard_num() == other.shard_num()
        &&& self.chunk_size() == other.chunk_size()
    }

    /// Every row that `self` holds, `later` holds unchanged: rows are
    /// written once.
    pub open spec fn kept_by(&self, later: &Sqlblob) -> bool {
        &&& self.same_settings(later)
        &&& forall|k: Seq<u8>|
            (#[trigger] self.data_row(k)) is Some ==> later.data_row(k) == self.data_row(k)
        &&& forall|k: Seq<u8>, c: u32|
            (#[trigger] self.chunk_row(k, c)) is Some ==> later.chunk_row(k, c) == self.chunk_row(
                k,
                c,
            )
    }

    /// A value that a store holds, every later state of the store holds
    /// too.
    pub proof fn lemma_value_kept(&self, later: &Sqlblob, key: Seq<u8>)
        requires
            self.kept_by(later),
            self.value_of(key) matches Ok(Some(v)),
        ensures
            later.value_of(key) == self.value_of(key),
    {
        let row = self.data_row(key)->0;
        assert(later.data_row(key) == self.data_row(key));
        match entry_of_row(row.0, row.1) {
            Ok((true, v, n)) => {
                self.lemma_first_missing_bound(key, n);
                self.lemma_chunks_kept(later, key, n);
                assert(later.chunks(key, n) =~= self.chunks(key, n)) by {
                    assert forall|i: int| 0 <= i < n implies (#[trigger] later.chunks(key, n)[i])
                        == self.chunks(key, n)[i] by {
                        self.lemma_present_below(key, n, i);
                    }
                }
            },
            _ => {},
        }
    }

    proof fn lemma_present_below(&self, key: Seq<u8>, n: int, i: int)
        requires
            0 <= i < n,
            self.first_missing(key, n) >= n,
        ensures
            self.chunk_row(key, i as u32) is Some,
        decreases n,
    {
        self.lemma_first_missing_bound(key, n - 1);
        if i < n - 1 {
            self.lemma_present_below(key, n - 1, i);
        }
    }

    proof fn lemma_chunks_kept(&self, later: &Sqlblob, key: Seq<u8>, n: int)
        requires
            self.kept_by(later),
            self.first_missing(key, n) >= n,
        ensures
            later.first_missing(key, n) >= n,
        decreases n,
    {
        if n > 0 {
            self.lemma_first_missing_bound(key, n - 1);
            self.lemma_chunks_kept(later, key, n - 1);
            later.lemma_first_missing_bound(key, n - 1);
            self.lemma_present_below(key, n, n - 1);
        } else {
            later.lemma_first_missing_bound(key, n);
        }
    }

    proof fn lemma_all_present(&self, key: Seq<u8>, n: int)
        requires
            forall|i: int| 0 <= i < n ==> (#[trigger] self.chunk_row(key, i as u32)) is Some,
        ensures
            self.first_missing(key, n) >= n,
        decreases n,
    {
        if n > 0 {
            self.lemma_all_present(key, n - 1);
            self.lemma_first_missing_bound(key, n - 1);
            assert(self.chunk_row(key, (n - 1) as u32) is Some);
        }
    }

    /// Stores a value under a key. A value of more than `chunk_size`
    /// bytes is cut into chunks, which are written before the row that
    /// counts them. The first write under a key wins: what the store
    /// holds already, it keeps. A value that would take more chunks than
    /// a row can count is refused and nothing is written.
    pub fn put(&mut self, key: &str, value: &[u8]) -> (r: Result<(), PutError>)
        requires
            old(self).wf(),
        ensures
            final(self).wf(),
            old(self).kept_by(final(self)),
            r is Err <==> value@.len() > old(self).chunk_size() && num_chunks(
                value@.len(),
                old(self).chunk_size() as nat,
            ) > i32::MAX,
            r is Err ==> final(self).data_rows() == old(self).data_rows() && final(self).chunk_rows() == old(self).chunk_rows(),
            forall|k: Seq<u8>|
                k != encode_utf8(key@) ==> final(self).data_row(k) == old(self).data_row(k),
            forall|k: Seq<u8>, c: u32|
                k != encode_utf8(key@) ==> final(self).chunk_row(k, c) == old(self).chunk_row(k, c),
            r is Ok && value@.len() <= old(self).chunk_size() && old(self).data_row(
                encode_utf8(key@),
            ) is None ==> final(self).data_row(encode_utf8(key@)) == Some(
                (DataType::Data, value@),
            ),
            r is Ok && value@.len() > old(self).chunk_size() && old(self).fresh(encode_utf8(key@))
                ==> final(self).data_row(encode_utf8(key@)) == Some(
                (
                    DataType::InChunk,
                    in_chunk_header(
                        num_chunks(value@.len(), old(self).chunk_size() as nat) as i32,
                    ),
                ),
            ) && (forall|i: int|
                0 <= i < num_chunks(value@.len(), old(self).chunk_size() as nat) ==> (
                #[trigger] final(self).chunk_row(encode_utf8(key@), i as u32)) == Some(
                    chunk_at(value@, old(self).chunk_size() as nat, i),
                )) && total_len(
                final(self).chunks(
                    encode_utf8(key@),
                    num_chunks(value@.len(), old(self).chunk_size() as nat) as int,
                ),
            ) == value@.len(),
            r is Ok && old(self).fresh(encode_utf8(key@)) ==> final(self).value_of(
                encode_utf8(key@),
            ) == Ok::<Option<Seq<u8>>, StoreError>(Some(value@)),
            r is Ok ==> final(self).data_rows().len() == old(self).data_rows().len() + (if old(self).data_row(encode_utf8(key@)) is None {
                1int
            } else {
                0int
            }),
    {
        let ghost k = encode_utf8(key@);
        let ghost cs = self.chunk_size as nat;
        let repo = self.data_store.repo_id.id();
        let shard = self.data_store.shard(key);
        if value.len() <= self.chunk_size {
            insert_data(
                &mut self.master_data,
                shard,
                repo,
                key.as_bytes(),
                DataType::Data,
                value,
            );
            proof {
                if old(self).fresh(k) {
                    assert(entry_of_row(DataType::Data, value@) == Ok::<
                        (bool, Seq<u8>, int),
                        StoreError,
                    >((false, value@, 0)));
                }
            }
            return Ok(());
        }
        let chunks = split_chunks(value, self.chunk_size);
        let n = chunks.len();
        if n > 0x7fff_ffff {
            return Err(PutError::TooManyChunks);
        }
        let mut i: usize = 0;
        while i < n
            invariant
                i <= n,
                n <= i32::MAX,
                n == chunks@.len(),
                k == encode_utf8(key@),
                cs == old(self).chunk_size(),
                views(chunks@) == chunks_of(value@, cs),
                old(self).wf(),
                self.chunk_store == old(self).chunk_store,
                self.data_store == old(self).data_store,
                self.chunk_size == old(self).chunk_size,
                self.master_data == old(self).master_data,
                self.replica_data == old(self).replica_data,
                self.replica_chunks == old(self).replica_chunks,
                repo == self.repo_id(),
                forall|s: int, r: i32, q: Seq<u8>, c: u32|
                    #![trigger find_chunk(self.master_chunks@, s, r, q, c)]
                    find_chunk(self.master_chunks@, s, r, q, c) == (if find_chunk(
                        old(self).master_chunks@,
                        s,
                        r,
                        q,
                        c,
                    ) is None && r == repo && q == k && c < i && s == chunk_shard(
                        repo,
                        k,
                        c,
                        self.shard_num(),
                    ) {
                        Some(chunk_at(value@, cs, c as int))
                    } else {
                        find_chunk(old(self).master_chunks@, s, r, q, c)
                    }),
            decreases n - i,
        {
            let cshard = self.chunk_store.shard(key, i as u32);
            assert(views(chunks@)[i as int] == chunks@[i as int]@);
            assert(views(chunks@).len() == n);
            assert(chunks_of(value@, cs).len() == n);
            assert(chunks_of(value@, cs)[i as int] == chunk_at(value@, cs, i as int));
            assert(cshard == chunk_shard(repo, k, i as u32, self.shard_num()));
            let ghost prev = self.master_chunks@;
            insert_chunk(
                &mut self.master_chunks,
                cshard,
                repo,
                key.as_bytes(),
                i as u32,
                chunks[i].as_slice(),
            );
            proof {
                assert forall|s: int, r: i32, q: Seq<u8>, c: u32|
                    #![trigger find_chunk(self.master_chunks@, s, r, q, c)]
                    find_chunk(self.master_chunks@, s, r, q, c) == (if find_chunk(
                        old(self).master_chunks@,
                        s,
                        r,
                        q,
                        c,
                    ) is None && r == repo && q == k && c < i + 1 && s == chunk_shard(
                        repo,
                        k,
                        c,
                        self.shard_num(),
                    ) {
                        Some(chunk_at(value@, cs, c as int))
                    } else {
                        find_chunk(old(self).master_chunks@, s, r, q, c)
                    }) by {
                    let before = find_chunk(prev, s, r, q, c);
                    if c == i as u32 && r == repo && q == k && s == cshard {
                        assert(c as int == i as int);
                    }
                }
            }
            i += 1;
        }
        let header = encode_in_chunk(n as i32);
        insert_data(
            &mut self.master_data,
            shard,
            repo,
            key.as_bytes(),
            DataType::InChunk,
            header.as_slice(),
        );
        proof {
            lemma_chunks_round_trip(value@, cs);
            if old(self).fresh(k) {
                assert forall|j: int| 0 <= j < n implies (#[trigger] self.chunk_row(k, j as u32))
                    == Some(chunk_at(value@, cs, j)) by {
                    assert(old(self).chunk_row(k, j as u32) is None);
                }
                self.lemma_all_present(k, n as int);
                self.lemma_first_missing_bound(k, n as int);
                assert(self.chunks(k, n as int) =~= chunks_of(value@, cs));
                assert forall|c: i32| #[trigger]
                    in_chunk_header(c) == in_chunk_header(n as i32) implies c == n by {
                    lemma_header_injective(c, n as i32);
                }
                assert(entry_of_row(DataType::InChunk, in_chunk_header(n as i32)) == Ok::<
                    (bool, Seq<u8>, int),
                    StoreError,
                >((true, Seq::empty(), n as int)));
            }
        }
        Ok(())
    }

    /// Copies what the masters hold to the replicas: the replicas catch
    /// up, and then hold under every key what the masters hold. What the
    /// store holds stays as it is.
    pub fn sync_replicas(&mut self)
        requires
            old(self).wf(),
        ensures
            final(self).wf(),
            final(self).repo_id() == old(self).repo_id(),
            final(self).shard_num() == old(self).shard_num(),
            final(self).chunk_size() == old(self).chunk_size(),
            final(self).data_rows() == old(self).data_rows(),
            final(self).chunk_rows() == old(self).chunk_rows(),
            final(self).replicas_caught_up(),
    {
        let mut data: Vec<DataRow> = Vec::new();
        let mut i: usize = 0;
        while i < self.master_data.len()
            invariant
                i <= self.master_data.len(),
                *self == *old(self),
                data@.len() == i,
                forall|j: int|
                    0 <= j < i ==> (#[trigger] data@[j]).shard == self.master_data@[j].shard
                        && data@[j].repo_id == self.master_data@[j].repo_id && data@[j].id@
                        == self.master_data@[j].id@ && data@[j].dtype == self.master_data@[j].dtype
                        && data@[j].value@ == self.master_data@[j].value@,
            decreases self.master_data.len() - i,
        {
            let row = &self.master_data[i];
            data.push(
                DataRow {
                    shard: row.shard,
                    repo_id: row.repo_id,
                    id: copy_bytes(row.id.as_slice()),
                    dtype: row.dtype,
                    value: copy_bytes(row.value.as_slice()),
                },
            );
            i += 1;
        }
        let mut chunks: Vec<ChunkRow> = Vec::new();
        let mut c: usize = 0;
        while c < self.master_chunks.len()
            invariant
                c <= self.master_chunks.len(),
                *self == *old(self),
                chunks@.len() == c,
                forall|j: int|
                    0 <= j < c ==> (#[trigger] chunks@[j]).shard == self.master_chunks@[j].shard
                        && chunks@[j].repo_id == self.master_chunks@[j].repo_id && chunks@[j].id@
                        == self.master_chunks@[j].id@ && chunks@[j].chunk_id
                        == self.master_chunks@[j].chunk_id && chunks@[j].value@
                        == self.master_chunks@[j].value@,
            decreases self.master_chunks.len() - c,
        {
            let row = &self.master_chunks[c];
            chunks.push(
                ChunkRow {
                    shard: row.shard,
                    repo_id: row.repo_id,
                    id: copy_bytes(row.id.as_slice()),
                    chunk_id: row.chunk_id,
                    value: copy_bytes(row.value.as_slice()),
                },
            );
            c += 1;
        }
        proof {
            assert forall|s: int, r: i32, k: Seq<u8>|
                #![trigger find_data(data@, s, r, k)]
                find_data(data@, s, r, k) == find_data(self.master_data@, s, r, k) by {
                lemma_same_data(data@, self.master_data@, s, r, k);
            }
            assert forall|s: int, r: i32, k: Seq<u8>, n: u32|
                #![trigger find_chunk(chunks@, s, r, k, n)]
                find_chunk(chunks@, s, r, k, n) == find_chunk(self.master_chunks@, s, r, k, n) by {
                lemma_same_chunks(chunks@, self.master_chunks@, s, r, k, n);
            }
        }
        self.replica_data = data;
        self.replica_chunks = chunks;
    }
}

proof fn lemma_same_data(a: Seq<DataRow>, b: Seq<DataRow>, shard: int, repo_id: i32, id: Seq<u8>)
    requires
        a.len() == b.len(),
        forall|j: int|
            0 <= j < a.len() ==> (#[trigger] a[j]).shard == b[j].shard && a[j].repo_id
                == b[j].repo_id && a[j].id@ == b[j].id@ && a[j].dtype == b[j].dtype && a[j].value@
                == b[j].value@,
    ensures
        find_data(a, shard, repo_id, id) == find_data(b, shard, repo_id, id),
    decreases a.len(),
{
    if a.len() > 0 {
        lemma_same_data(a.drop_last(), b.drop_last(), shard, repo_id, id);
        assert(a.last() == a[a.len() - 1]);
    }
}

proof fn lemma_same_chunks(
    a: Seq<ChunkRow>,
    b: Seq<ChunkRow>,
    shard: int,
    repo_id: i32,
    id: Seq<u8>,
    chunk_id: u32,
)
    requires
        a.len() == b.len(),
        forall|j: int|
            0 <= j < a.len() ==> (#[trigger] a[j]).shard == b[j].shard && a[j].repo_id
                == b[j].repo_id && a[j].id@ == b[j].id@ && a[j].chunk_id == b[j].chunk_id
                && a[j].value@ == b[j].value@,
    ensures
        find_chunk(a, shard, repo_id, id, chunk_id) == find_chunk(b, shard, repo_id, id, chunk_id),
    decreases a.len(),
{
    if a.len() > 0 {
        lemma_same_chunks(a.drop_last(), b.drop_last(), shard, repo_id, id, chunk_id);
        assert(a.last() == a[a.len() - 1]);
    }
}

} // verus!
