//! Downloading one file to a path of its own.
use vstd::prelude::*;

use crate::commands::{check_file_hash, check_filled};
use crate::file::{FileChunk, FileInfo, CHUNK_SIZE};
use crate::outside::{absorbed, hasher_finalize, hasher_new, hasher_update, hex_text, sha3_256};
use crate::sync::arrange::views;
use crate::sync::download::{chunk_bytes, DOWNLOAD_CHUNKS_PER_CALL};

verus! {

/// The download of a file: how far it has been asked for, and what was received.
pub struct FileGet {
    pub chunks: u32,
    pub next: u64,
    pub hash: Option<[u8; 32]>,
    pub hasher: sha3::Sha3_256,
}

impl FileGet {
    /// The bytes received so far, in the order they came in.
    pub open spec fn received(&self) -> Seq<u8> {
        absorbed(self.hasher)
    }

    /// Begins the download of a file that is fully uploaded.
    pub fn start(info: &FileInfo) -> (r: Result<FileGet, String>)
        ensures
            match r {
                Ok(get) => {
                    &&& info.size == info.filled
                    &&& get.chunks == info.chunks
                    &&& get.next == 0
                    &&& get.hash == info.hash
                    &&& get.received() == Seq::<u8>::empty()
                },
                Err(message) => info.size != info.filled && message@ == "file not fully uploaded"@,
            },
    {
        if let Err(message) = check_filled(info) {
            return Err(message);
        }
        Ok(FileGet { chunks: info.chunks, next: 0, hash: info.hash, hasher: hasher_new() })
    }

    /// The chunk from which the next ones are asked for, until all were.
    pub fn next_request(&self) -> (r: Option<u32>)
        ensures
            r == if self.next < self.chunks { Some(self.next as u32) } else { None::<u32> },
            self.next % (DOWNLOAD_CHUNKS_PER_CALL as u64) == 0 ==> (r matches Some(index) ==> is_asked_from(
                self.chunks,
                index as int,
            )),
    {
        if self.next < self.chunks as u64 {
            Some(self.next as u32)
        } else {
            None
        }
    }

    /// Takes in the chunks of a reply; tells for each where in the file it goes.
    pub fn on_chunks(&mut self, chunks: &Vec<FileChunk>) -> (r: Vec<u64>)
        requires
            old(self).next < old(self).chunks,
        ensures
            final(self).chunks == old(self).chunks,
            final(self).hash == old(self).hash,
            final(self).next == old(self).next + DOWNLOAD_CHUNKS_PER_CALL,
            old(self).next % (DOWNLOAD_CHUNKS_PER_CALL as u64) == 0 ==> final(self).next % (
            DOWNLOAD_CHUNKS_PER_CALL as u64) == 0,
            final(self).received() == old(self).received() + chunk_bytes(views(chunks@)),
            r@.len() == chunks@.len(),
            forall|i: int| 0 <= i < chunks@.len() ==> #[trigger] r@[i] == chunks@[i].0 * CHUNK_SIZE,
    {
        let ghost given = views(chunks@);
        let mut places: Vec<u64> = Vec::new();
        proof {
            assert(given.take(0) =~= Seq::empty());
            assert(self.received() + chunk_bytes(given.take(0)) =~= self.received());
        }
        for i in 0..chunks.len()
            invariant
                given == views(chunks@),
                self.chunks == old(self).chunks,
                self.hash == old(self).hash,
                self.next == old(self).next,
                self.received() == old(self).received() + chunk_bytes(given.take(i as int)),
                places@.len() == i,
                forall|j: int| 0 <= j < i ==> #[trigger] places@[j] == chunks@[j].0 * CHUNK_SIZE,
        {
            let chunk = &chunks[i];
            places.push(chunk.0 as u64 * CHUNK_SIZE as u64);
            hasher_update(&mut self.hasher, chunk.1.as_slice());
            proof {
                assert(given[i as int] == chunks@[i as int]@);
                assert(given.take(i + 1).drop_last() =~= given.take(i as int));
                assert(self.received() =~= old(self).received() + chunk_bytes(given.take(i + 1)));
            }
        }
        assert(given.take(given.len() as int) =~= given);
        self.next = self.next + DOWNLOAD_CHUNKS_PER_CALL as u64;
        places
    }

    /// The digest of what was received, which has to be that of the file where
    /// it is known.
    pub fn finish(self) -> (r: Result<[u8; 32], String>)
        ensures
            match r {
                Ok(digest) => digest@ == sha3_256(self.received()) && (self.hash matches Some(hash) ==> hash@
                    == digest@),
                Err(message) => self.hash matches Some(hash) && hash@ != sha3_256(self.received()) && message@
                    == "file hash mismatch, expected "@ + hex_text(hash@) + ", got "@ + hex_text(
                    sha3_256(self.received()),
                ),
            },
    {
        let digest = hasher_finalize(self.hasher);
        match check_file_hash(self.hash, &digest) {
            Ok(_) => Ok(digest),
            Err(message) => Err(message),
        }
    }
}

/// Whether the chunks of a file are asked for from this one on.
pub open spec fn is_asked_from(chunks: u32, index: int) -> bool {
    0 <= index < chunks && index % (DOWNLOAD_CHUNKS_PER_CALL as int) == 0
}

/// Every chunk of a file is among those of exactly one request.
pub proof fn law_every_chunk_is_asked_for_once(chunks: u32, chunk: int)
    requires
        0 <= chunk < chunks,
    ensures
        exists|index: int|
            #[trigger] is_asked_from(chunks, index) && index <= chunk < index + DOWNLOAD_CHUNKS_PER_CALL,
        forall|a: int, b: int|
            #[trigger] is_asked_from(chunks, a) && a <= chunk < a + DOWNLOAD_CHUNKS_PER_CALL
                && #[trigger] is_asked_from(chunks, b) && b <= chunk < b + DOWNLOAD_CHUNKS_PER_CALL ==> a == b,
{
    let index = chunk - chunk % (DOWNLOAD_CHUNKS_PER_CALL as int);
    assert(is_asked_from(chunks, index));
}

/// Chunks are asked for six at a time, from the first one on.
pub proof fn law_chunks_are_asked_for_six_at_a_time(chunks: u32, index: int)
    ensures
        is_asked_from(chunks, index) <==> 0 <= index < chunks && index % 6 == 0,
        chunks > 0 ==> is_asked_from(chunks, 0),
        is_asked_from(chunks, index) && index + 6 < chunks ==> is_asked_from(chunks, index + 6),
{
}

} // verus!
