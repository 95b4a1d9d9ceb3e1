//! The content-addressed artifact table: payloads stored once per hash,
//! compressed, never deleted.

use vstd::prelude::*;
use crate::codec::{
    content_hash, content_hash_of, zstd_compress, zstd_decoded, zstd_decompress, zstd_frame,
    COMPRESSION_LEVEL,
};
use crate::error::StorageError;

verus! {

/// Lifecycle flag of an artifact; only `Stowed` is written.
#[derive(Clone, Copy, Debug, PartialEq, Eq, Structural)]
pub enum ArtifactStatus {
    Stowed,
    Reduced,
    Jettisoned,
}

/// One row of the artifact table.
#[derive(Clone, Debug)]
pub struct ArtifactRow {
    /// 64 lowercase hex characters: the SHA-256 of the payload's JSON bytes.
    pub hash: String,
    /// The zstd-compressed JSON bytes.
    pub data: Vec<u8>,
    pub status: ArtifactStatus,
}

/// The plain-value view of an artifact row.
pub ghost struct ArtifactRowView {
    pub hash: Seq<char>,
    pub data: Seq<u8>,
    pub status: ArtifactStatus,
}

impl View for ArtifactRow {
    type V = ArtifactRowView;

    open spec fn view(&self) -> ArtifactRowView {
        ArtifactRowView { hash: self.hash@, data: self.data@, status: self.status }
    }
}

/// Why an artifact could not be loaded.
pub ghost enum ArtifactFault {
    NotFound,
    Corrupt,
}

/// The index of the first row stored under `h`.
pub open spec fn find_hash(rows: Seq<ArtifactRowView>, h: Seq<char>) -> Option<int>
    decreases rows.len(),
{
    if rows.len() == 0 {
        None
    } else {
        match find_hash(rows.drop_last(), h) {
            Some(i) => Some(i),
            None => if rows.last().hash == h {
                Some(rows.len() - 1)
            } else {
                None
            },
        }
    }
}

/// The number of rows stored under `h`.
pub open spec fn count_hash(rows: Seq<ArtifactRowView>, h: Seq<char>) -> nat
    decreases rows.len(),
{
    if rows.len() == 0 {
        0
    } else {
        count_hash(rows.drop_last(), h) + if rows.last().hash == h {
            1nat
        } else {
            0nat
        }
    }
}

/// What loading the artifact under `h` gives: the decompressed payload bytes.
pub open spec fn load_spec(rows: Seq<ArtifactRowView>, h: Seq<char>) -> Result<Seq<u8>, ArtifactFault> {
    match find_hash(rows, h) {
        None => Err(ArtifactFault::NotFound),
        Some(i) => match zstd_decoded(rows[i].data) {
            Some(p) => Ok(p),
            None => Err(ArtifactFault::Corrupt),
        },
    }
}

/// `after` is `before` once the payload `json` is stored: unchanged where its
/// hash is present, else with one new stowed row that decompresses to `json`.
pub open spec fn stored(before: Seq<ArtifactRowView>, after: Seq<ArtifactRowView>, json: Seq<u8>) -> bool {
    let h = content_hash(json);
    if find_hash(before, h) is Some {
        after == before
    } else {
        &&& after.len() == before.len() + 1
        &&& after.take(before.len() as int) == before
        &&& after.last().hash == h
        &&& after.last().status == ArtifactStatus::Stowed
        &&& zstd_decoded(after.last().data) == Some(json)
    }
}

/// The artifacts of one voyage database.
#[derive(Clone, Debug)]
pub struct ArtifactTable {
    pub rows: Vec<ArtifactRow>,
}

impl View for ArtifactTable {
    type V = Seq<ArtifactRowView>;

    open spec fn view(&self) -> Seq<ArtifactRowView> {
        self.rows@.map_values(|r: ArtifactRow| r@)
    }
}

/// Extending rows at the end does not move the first match of a hash.
pub proof fn lemma_find_hash_push(rows: Seq<ArtifactRowView>, r: ArtifactRowView, h: Seq<char>)
    ensures
        find_hash(rows.push(r), h) == match find_hash(rows, h) {
            Some(i) => Some(i),
            None => if r.hash == h {
                Some(rows.len() as int)
            } else {
                None
            },
        },
{
    assert(rows.push(r).drop_last() =~= rows);
}

/// A match found in a prefix is the first match of the whole.
pub proof fn lemma_find_hash_prefix(rows: Seq<ArtifactRowView>, n: int, h: Seq<char>)
    requires
        0 <= n <= rows.len(),
        find_hash(rows.take(n), h) is Some,
    ensures
        find_hash(rows, h) == find_hash(rows.take(n), h),
    decreases rows.len() - n,
{
    if n < rows.len() {
        assert(rows.take(n + 1) =~= rows.take(n).push(rows[n]));
        lemma_find_hash_push(rows.take(n), rows[n], h);
        lemma_find_hash_prefix(rows, n + 1, h);
    } else {
        assert(rows.take(n) =~= rows);
    }
}

/// A found index is in range and holds the hash; an absent hash is held nowhere.
pub proof fn lemma_find_hash(rows: Seq<ArtifactRowView>, h: Seq<char>)
    ensures
        find_hash(rows, h) matches Some(i) ==> 0 <= i < rows.len() && rows[i].hash == h,
        find_hash(rows, h) is None ==> forall|j: int| 0 <= j < rows.len() ==> rows[j].hash != h,
    decreases rows.len(),
{
    if rows.len() > 0 {
        lemma_find_hash(rows.drop_last(), h);
        if find_hash(rows, h) is None {
            assert forall|j: int| 0 <= j < rows.len() implies rows[j].hash != h by {
                if j < rows.len() - 1 {
                    assert(rows.drop_last()[j] == rows[j]);
                }
            }
        }
    }
}

/// A hash held nowhere has count zero.
pub proof fn lemma_count_absent(rows: Seq<ArtifactRowView>, h: Seq<char>)
    requires
        find_hash(rows, h) is None,
    ensures
        count_hash(rows, h) == 0,
    decreases rows.len(),
{
    if rows.len() > 0 {
        lemma_find_hash(rows, h);
        lemma_find_hash(rows.drop_last(), h);
        if find_hash(rows.drop_last(), h) is Some {
            let i = find_hash(rows.drop_last(), h)->Some_0;
            assert(rows[i] == rows.drop_last()[i]);
        }
        lemma_count_absent(rows.drop_last(), h);
    }
}

impl ArtifactTable {
    /// An empty table.
    pub fn new() -> (r: ArtifactTable)
        ensures
            r@ == Seq::<ArtifactRowView>::empty(),
    {
        ArtifactTable { rows: Vec::new() }
    }

    /// The index of the first row stored under `h`.
    pub fn position(&self, h: &String) -> (r: Option<usize>)
        ensures
            match r {
                Some(i) => find_hash(self@, h@) == Some(i as int),
                None => find_hash(self@, h@) is None,
            },
    {
        let mut i: usize = 0;
        while i < self.rows.len()
            invariant
                i <= self.rows.len(),
                find_hash(self@.take(i as int), h@) is None,
            decreases self.rows.len() - i,
        {
            proof {
                assert(self@.take(i as int + 1) =~= self@.take(i as int).push(self@[i as int]));
                lemma_find_hash_push(self@.take(i as int), self@[i as int], h@);
            }
            if self.rows[i].hash == *h {
                proof {
                    lemma_find_hash_prefix(self@, i as int + 1, h@);
                }
                return Some(i);
            }
            i = i + 1;
        }
        assert(self@.take(i as int) =~= self@);
        None
    }

    /// Stores a payload's canonical JSON bytes, given what compressing them
    /// gave, and returns its hash. Without a compressed frame nothing is
    /// stored; a payload whose hash is already present is not stored again.
    pub fn store_compressed(&mut self, json: &Vec<u8>, compressed: Option<Vec<u8>>) -> (r: Result<String, StorageError>)
        requires
            compressed matches Some(c) ==> zstd_decoded(c@) == Some(json@),
        ensures
            match compressed {
                Some(_) => r matches Ok(h) && h@ == content_hash(json@) && stored(old(self)@, final(self)@, json@),
                None => r matches Err(e) && e is Compression && final(self)@ == old(self)@,
            },
    {
        let compressed = match compressed {
            Some(c) => c,
            None => {
                return Err(StorageError::Compression(String::from_str("zstd could not compress the payload")));
            },
        };
        let hash = content_hash_of(json);
        match self.position(&hash) {
            Some(_) => {},
            None => {
                let row = ArtifactRow { hash: hash.clone(), data: compressed, status: ArtifactStatus::Stowed };
                let ghost before = self@;
                self.rows.push(row);
                assert(self@ =~= before.push(row@));
                assert(self@.take(before.len() as int) =~= before);
            },
        }
        Ok(hash)
    }

    /// Stores a payload's canonical JSON bytes, compressed with zstd, and
    /// returns its hash: the hex SHA-256 of the uncompressed bytes. It
    /// succeeds exactly where zstd makes a frame of the bytes.
    pub fn store(&mut self, json: &Vec<u8>) -> (r: Result<String, StorageError>)
        ensures
            (r is Ok) == (zstd_frame(json@, COMPRESSION_LEVEL) is Some),
            match r {
                Ok(h) => {
                    &&& h@ == content_hash(json@)
                    &&& stored(old(self)@, final(self)@, json@)
                },
                Err(e) => {
                    &&& e is Compression
                    &&& final(self)@ == old(self)@
                },
            },
    {
        let compressed = zstd_compress(json.as_slice(), COMPRESSION_LEVEL);
        self.store_compressed(json, compressed)
    }

    /// Loads the payload bytes stored under `h`.
    pub fn load(&self, h: &String) -> (r: Result<Vec<u8>, StorageError>)
        ensures
            match (r, load_spec(self@, h@)) {
                (Ok(p), Ok(q)) => p@ == q,
                (Err(StorageError::ArtifactNotFound(k)), Err(ArtifactFault::NotFound)) => k@ == h@,
                (Err(StorageError::ArtifactCorrupt(k)), Err(ArtifactFault::Corrupt)) => k@ == h@,
                _ => false,
            },
    {
        proof {
            lemma_find_hash(self@, h@);
        }
        match self.position(h) {
            None => Err(StorageError::ArtifactNotFound(h.clone())),
            Some(i) => match zstd_decompress(self.rows[i].data.as_slice()) {
                Some(p) => Ok(p),
                None => Err(StorageError::ArtifactCorrupt(h.clone())),
            },
        }
    }
}

} // verus!
