//! The client of a bucket: its settings, and the course of plain uploads.
use std::collections::BTreeSet;
use vstd::prelude::*;

use crate::entry::SyncError;
use crate::file::{CreateFileInput, UpdateFileInput, MAX_FILE_SIZE_PER_CALL};
use crate::outside::{absorbed, digest_of, hasher_clone, hasher_finalize, hasher_new, hasher_update, sha3_256};
use crate::principal::Principal;
use crate::sync::journal::copied_bytes;
use crate::text::owned;

verus! {

broadcast use {vstd::std_specs::btree::group_btree_axioms, vstd::laws_cmp::group_laws_cmp};

/// The view of an optional token.
pub open spec fn token_view(token: Option<Vec<u8>>) -> Option<Seq<u8>> {
    match token {
        Some(bytes) => Some(bytes@),
        None => None,
    }
}

/// The settings of a client: which bucket it speaks to, how, and with which
/// token.  A provider, where there is one, is asked for the token before every
/// request.
pub struct Client<P> {
    pub concurrency: u8,
    pub bucket: Principal,
    pub set_readonly: bool,
    pub access_token: Option<Vec<u8>>,
    pub access_token_provider: Option<P>,
}

impl<P: Fn() -> Result<Option<Vec<u8>>, String>> Client<P> {
    /// A client of a bucket.
    pub fn new(bucket: Principal) -> (r: Client<P>)
        ensures
            r.concurrency == 16,
            r.bucket == bucket,
            !r.set_readonly,
            r.access_token is None,
            r.access_token_provider is None,
    {
        Client { concurrency: 16, bucket, set_readonly: false, access_token: None, access_token_provider: None }
    }

    /// Sets how many chunks are sent at once: one to sixty-four, anything else
    /// is ignored.
    pub fn set_concurrency(&mut self, concurrency: u8)
        ensures
            final(self).concurrency == if 0 < concurrency <= 64 { concurrency } else { old(self).concurrency },
            final(self).bucket == old(self).bucket,
            final(self).set_readonly == old(self).set_readonly,
            final(self).access_token == old(self).access_token,
            final(self).access_token_provider == old(self).access_token_provider,
    {
        if concurrency > 0 && concurrency <= 64 {
            self.concurrency = concurrency;
        }
    }

    /// Sets whether uploaded files become read-only.
    pub fn set_readonly(&mut self, readonly: bool)
        ensures
            final(self).set_readonly == readonly,
            final(self).concurrency == old(self).concurrency,
            final(self).bucket == old(self).bucket,
            final(self).access_token == old(self).access_token,
            final(self).access_token_provider == old(self).access_token_provider,
    {
        self.set_readonly = readonly;
    }

    /// Sets a fixed token; a provider is removed.
    pub fn set_access_token(&mut self, access_token: Option<Vec<u8>>)
        ensures
            final(self).access_token == access_token,
            final(self).access_token_provider is None,
            final(self).concurrency == old(self).concurrency,
            final(self).bucket == old(self).bucket,
            final(self).set_readonly == old(self).set_readonly,
    {
        self.access_token = access_token;
        self.access_token_provider = None;
    }

    /// The client with a fixed token.
    pub fn with_access_token(self, access_token: Option<Vec<u8>>) -> (r: Self)
        ensures
            r.access_token == access_token,
            r.access_token_provider is None,
            r.concurrency == self.concurrency,
            r.bucket == self.bucket,
            r.set_readonly == self.set_readonly,
    {
        let mut r = self;
        r.set_access_token(access_token);
        r
    }

    /// Sets a provider evaluated before every authenticated bucket request.
    ///
    /// Calling [`Self::set_access_token`] later removes the provider.
    pub fn set_access_token_provider(&mut self, provider: P)
        ensures
            final(self).access_token_provider == Some(provider),
            final(self).access_token == old(self).access_token,
            final(self).concurrency == old(self).concurrency,
            final(self).bucket == old(self).bucket,
            final(self).set_readonly == old(self).set_readonly,
    {
        self.access_token_provider = Some(provider);
    }

    /// The client with a provider evaluated before every authenticated bucket
    /// request.
    pub fn with_access_token_provider(self, provider: P) -> (r: Self)
        ensures
            r.access_token_provider == Some(provider),
            r.access_token == self.access_token,
            r.concurrency == self.concurrency,
            r.bucket == self.bucket,
            r.set_readonly == self.set_readonly,
    {
        let mut r = self;
        r.set_access_token_provider(provider);
        r
    }

    /// The token for the next request: what the provider gives, where there is
    /// one, else the fixed token.
    pub fn current_access_token(&self) -> (r: Result<Option<Vec<u8>>, String>)
        requires
            self.access_token_provider matches Some(provider) ==> provider.requires(()),
        ensures
            match self.access_token_provider {
                Some(provider) => provider.ensures((), r),
                None => r matches Ok(token) && token_view(token) == token_view(self.access_token),
            },
    {
        match &self.access_token_provider {
            Some(provider) => provider(),
            None => match &self.access_token {
                Some(token) => Ok(Some(copied_bytes(token.as_slice()))),
                None => Ok(None),
            },
        }
    }

    /// The token for the next request of a synchronisation; a failure of the
    /// provider is an internal error.
    pub fn current_sync_access_token(&self) -> (r: Result<Option<Vec<u8>>, SyncError>)
        requires
            self.access_token_provider matches Some(provider) ==> provider.requires(()),
        ensures
            match self.access_token_provider {
                Some(provider) => exists|given: Result<Option<Vec<u8>>, String>| #[trigger]
                    provider.ensures((), given) && match given {
                        Ok(token) => r == Ok::<Option<Vec<u8>>, SyncError>(token),
                        Err(message) => r == Err::<Option<Vec<u8>>, SyncError>(SyncError::Internal(message)),
                    },
                None => r matches Ok(token) && token_view(token) == token_view(self.access_token),
            },
    {
        let given = self.current_access_token();
        match given {
            Ok(token) => Ok(token),
            Err(message) => Err(SyncError::Internal(message)),
        }
    }
}

/// What became of an upload.
#[derive(Clone, Debug)]
pub struct UploadFileChunksResult {
    pub id: u32,
    pub filled: u64,
    pub uploaded_chunks: BTreeSet<u32>,
    /// if any error occurs during upload
    pub error: Option<String>,
}

/// How far an upload is.
#[derive(Clone, Copy, Debug, PartialEq, Eq, Structural)]
pub struct Progress {
    pub filled: u64,
    /// total size of file, may be unknown
    pub size: Option<u64>,
    pub chunk_index: u32,
    pub concurrency: u8,
}

/// Whether a file is uploaded with the request that makes it.
pub fn fits_one_request(size: Option<u64>) -> (r: bool)
    ensures
        r == (size is Some && size->0 <= MAX_FILE_SIZE_PER_CALL),
{
    match size {
        Some(size) => size <= MAX_FILE_SIZE_PER_CALL,
        None => false,
    }
}

/// Puts the content into the request that makes a file.  Tells whether the file
/// has to be made read-only afterwards: that is so for an empty one, which has
/// no content to put in.
pub fn prepare_inline_content(file: &mut CreateFileInput, content: &[u8], set_readonly: bool) -> (r: bool)
    ensures
        r == (set_readonly && content@.len() == 0),
        final(file).content is Some == (content@.len() > 0),
        final(file).content matches Some(bytes) ==> bytes@ == content@,
        final(file).status == if set_readonly && content@.len() > 0 { Some(1i8) } else { None::<i8> },
        final(file).parent == old(file).parent,
        final(file).name == old(file).name,
        final(file).content_type == old(file).content_type,
        final(file).size == old(file).size,
        final(file).hash == old(file).hash,
        final(file).dek == old(file).dek,
        final(file).custom == old(file).custom,
{
    let is_empty = content.len() == 0;
    file.content = if is_empty { None } else { Some(copied_bytes(content)) };
    file.status = if set_readonly && !is_empty { Some(1) } else { None };
    set_readonly && is_empty
}

/// Completes the request that makes a small file: its hash, where none is
/// given, and its content.  Tells whether the file has to be made read-only
/// afterwards.
pub fn prepare_inline_upload(file: &mut CreateFileInput, content: &[u8], set_readonly: bool) -> (r: bool)
    ensures
        r == (set_readonly && content@.len() == 0),
        final(file).content is Some == (content@.len() > 0),
        final(file).content matches Some(bytes) ==> bytes@ == content@,
        final(file).status == if set_readonly && content@.len() > 0 { Some(1i8) } else { None::<i8> },
        old(file).hash is Some ==> final(file).hash == old(file).hash,
        old(file).hash is None ==> final(file).hash is Some && final(file).hash->0@ == sha3_256(content@),
        final(file).parent == old(file).parent,
        final(file).name == old(file).name,
        final(file).content_type == old(file).content_type,
        final(file).size == old(file).size,
        final(file).dek == old(file).dek,
        final(file).custom == old(file).custom,
{
    if file.hash.is_none() {
        file.hash = Some(digest_of(content));
    }
    prepare_inline_content(file, content, set_readonly)
}

/// What became of an upload with the request that made the file.
pub fn inline_result(id: u32, size: u64) -> (r: (UploadFileChunksResult, Progress))
    ensures
        r.0.id == id,
        r.0.filled == size,
        r.0.uploaded_chunks@ == Set::<u32>::empty(),
        r.0.error is None,
        r.1 == (Progress { filled: size, size: Some(size), chunk_index: 0, concurrency: 1 }),
{
    (
        UploadFileChunksResult { id, filled: size, uploaded_chunks: BTreeSet::new(), error: None },
        Progress { filled: size, size: Some(size), chunk_index: 0, concurrency: 1 },
    )
}

/// Cuts a stream into chunks of one size.
#[derive(Clone, Copy, Debug)]
pub struct ChunksCodec(pub u32);

impl ChunksCodec {
    /// A codec for chunks of the given size.
    pub fn new(len: u32) -> (r: ChunksCodec)
        ensures
            r.0 == len,
    {
        ChunksCodec(len)
    }

    /// How many of the buffered bytes make the next chunk, while more may come.
    pub fn decode(&self, buffered: usize) -> (r: Option<usize>)
        ensures
            r == if buffered >= self.0 { Some(self.0 as usize) } else { None::<usize> },
    {
        if buffered >= self.0 as usize {
            Some(self.0 as usize)
        } else {
            None
        }
    }

    /// How many of the buffered bytes make the next chunk, once nothing more
    /// comes.
    pub fn decode_eof(&self, buffered: usize) -> (r: Option<usize>)
        ensures
            r == if buffered > 0 { Some(buffered) } else { None::<usize> },
    {
        if buffered == 0 {
            None
        } else {
            Some(buffered)
        }
    }
}

/// The chunks of a stream: full ones as long as `decode` finds them, then what
/// `decode_eof` leaves.
pub open spec fn chunks_of(stream: Seq<u8>, size: nat) -> Seq<Seq<u8>>
    decreases stream.len(),
{
    if size == 0 || stream.len() == 0 {
        Seq::empty()
    } else if stream.len() < size {
        seq![stream]
    } else {
        seq![stream.take(size as int)] + chunks_of(stream.skip(size as int), size)
    }
}

/// Chunks one behind the other.
pub open spec fn joined_chunks(chunks: Seq<Seq<u8>>) -> Seq<u8>
    decreases chunks.len(),
{
    if chunks.len() == 0 {
        Seq::empty()
    } else {
        chunks[0] + joined_chunks(chunks.drop_first())
    }
}

/// Cutting a stream into chunks loses nothing and keeps the order; every chunk
/// is full but the last, which is not empty.
pub proof fn law_chunks_make_up_the_stream(stream: Seq<u8>, size: nat)
    requires
        size > 0,
    ensures
        joined_chunks(chunks_of(stream, size)) == stream,
        forall|i: int|
            0 <= i < chunks_of(stream, size).len() - 1 ==> (#[trigger] chunks_of(stream, size)[i]).len() == size,
        chunks_of(stream, size).len() > 0 ==> 0 < chunks_of(stream, size).last().len() <= size,
    decreases stream.len(),
{
    let chunks = chunks_of(stream, size);
    if stream.len() == 0 {
        assert(joined_chunks(chunks) =~= stream);
    } else if stream.len() < size {
        assert(chunks.drop_first() =~= Seq::empty());
        reveal_with_fuel(joined_chunks, 2);
        assert(joined_chunks(chunks) =~= stream);
    } else {
        let rest = chunks_of(stream.skip(size as int), size);
        law_chunks_make_up_the_stream(stream.skip(size as int), size);
        assert(chunks.drop_first() =~= rest);
        assert(joined_chunks(chunks) =~= stream);
        assert forall|i: int| 0 <= i < chunks.len() - 1 implies (#[trigger] chunks[i]).len() == size by {
            if i > 0 {
                assert(chunks[i] == rest[i - 1]);
            }
        }
        if rest.len() > 0 {
            assert(chunks.last() == rest.last());
        }
    }
}

/// Decides on the content of a file of known size, read as one chunk: `first`
/// is that chunk, and `more` whether another one followed.
pub fn try_read_all(size: u32, first: Option<Result<Vec<u8>, String>>, more: bool) -> (r: Result<Vec<u8>, String>)
    ensures
        if size == 0 {
            r matches Ok(content) && content@.len() == 0
        } else {
            match first {
                None => r matches Err(message) && message@ == "no bytes to read"@,
                Some(chunk) => if more {
                    r matches Err(message) && message@ == "too many bytes to read"@
                } else {
                    match chunk {
                        Err(err) => r == Err::<Vec<u8>, String>(err),
                        Ok(content) => if content@.len() != size {
                            r matches Err(message) && message@ == "insufficient bytes to read"@
                        } else {
                            r == Ok::<Vec<u8>, String>(content)
                        },
                    }
                },
            }
        },
{
    if size == 0 {
        return Ok(Vec::new());
    }
    match first {
        None => Err(owned("no bytes to read")),
        Some(chunk) => {
            if more {
                return Err(owned("too many bytes to read"));
            }
            match chunk {
                Err(err) => Err(err),
                Ok(content) => {
                    if content.len() != size as usize {
                        return Err(owned("insufficient bytes to read"));
                    }
                    Ok(content)
                },
            }
        },
    }
}

/// The upload of a file chunk by chunk.
pub struct ChunkedUpload {
    pub size: Option<u64>,
    pub hash: Option<[u8; 32]>,
    pub set_readonly: bool,
    pub excluded: BTreeSet<u32>,
    pub index: u32,
    pub hasher: sha3::Sha3_256,
    pub output: UploadFileChunksResult,
}

/// What becomes of a chunk that was read.
#[derive(Clone, Copy, Debug, PartialEq, Eq, Structural)]
pub enum FrameDecision {
    /// The chunk is stored already.
    Skip { progress: Progress },
    /// The chunk is sent.
    Send { chunk_index: u32 },
}

impl ChunkedUpload {
    /// The upload of a file, without the chunks that are stored already.
    pub fn start(
        id: u32,
        size: Option<u64>,
        hash: Option<[u8; 32]>,
        exclude_chunks: &BTreeSet<u32>,
        set_readonly: bool,
    ) -> (r: ChunkedUpload)
        ensures
            r.size == size,
            r.hash == hash,
            r.set_readonly == set_readonly,
            r.excluded@ == exclude_chunks@,
            r.index == 0,
            absorbed(r.hasher) == Seq::<u8>::empty(),
            r.output.id == id,
            r.output.filled == 0,
            r.output.uploaded_chunks@ == exclude_chunks@,
            r.output.error is None,
    {
        ChunkedUpload {
            size,
            hash,
            set_readonly,
            excluded: exclude_chunks.clone(),
            index: 0,
            hasher: hasher_new(),
            output: UploadFileChunksResult {
                id,
                filled: 0,
                uploaded_chunks: exclude_chunks.clone(),
                error: None,
            },
        }
    }

    /// The settings of the upload are as in `other`.
    pub open spec fn same_upload(&self, other: &ChunkedUpload) -> bool {
        &&& self.size == other.size
        &&& self.hash == other.hash
        &&& self.set_readonly == other.set_readonly
        &&& self.excluded@ == other.excluded@
        &&& self.output.id == other.output.id
        &&& self.output.error == other.output.error
    }

    /// The hash that ends the upload: the one given, else that of what was
    /// taken in.
    pub open spec fn committed_hash(&self) -> Seq<u8> {
        match self.hash {
            Some(hash) => hash@,
            None => sha3_256(absorbed(self.hasher)),
        }
    }

    /// Takes in the next chunk of the stream.
    pub fn on_frame(&mut self, chunk: &[u8]) -> (r: FrameDecision)
        requires
            old(self).index < u32::MAX,
            old(self).excluded@.contains(old(self).index) ==> old(self).output.filled + chunk@.len() <= u64::MAX,
        ensures
            final(self).same_upload(old(self)),
            final(self).index == old(self).index + 1,
            old(self).hash is None ==> absorbed(final(self).hasher) == absorbed(old(self).hasher) + chunk@,
            old(self).hash is Some ==> absorbed(final(self).hasher) == absorbed(old(self).hasher),
            final(self).output.uploaded_chunks@ == old(self).output.uploaded_chunks@,
            if old(self).excluded@.contains(old(self).index) {
                &&& final(self).output.filled == old(self).output.filled + chunk@.len()
                &&& r == (FrameDecision::Skip {
                    progress: Progress {
                        filled: final(self).output.filled,
                        size: old(self).size,
                        chunk_index: old(self).index,
                        concurrency: 0,
                    },
                })
            } else {
                &&& final(self).output.filled == old(self).output.filled
                &&& r == (FrameDecision::Send { chunk_index: old(self).index })
            },
    {
        let chunk_index: u32 = self.index;
        self.index = chunk_index + 1;
        if self.hash.is_none() {
            hasher_update(&mut self.hasher, chunk);
        }
        if self.excluded.contains(&chunk_index) {
            self.output.filled = self.output.filled + chunk.len() as u64;
            return FrameDecision::Skip {
                progress: Progress { filled: self.output.filled, size: self.size, chunk_index, concurrency: 0 },
            };
        }
        FrameDecision::Send { chunk_index }
    }

    /// Takes in that a chunk is stored; `filled` is what the bucket reports.
    pub fn on_stored(&mut self, chunk_index: u32, chunk_len: u32, filled: u64, concurrency: u8) -> (r: Progress)
        requires
            old(self).output.filled + chunk_len <= u64::MAX,
        ensures
            final(self).same_upload(old(self)),
            final(self).index == old(self).index,
            absorbed(final(self).hasher) == absorbed(old(self).hasher),
            final(self).output.filled == old(self).output.filled + chunk_len,
            final(self).output.uploaded_chunks@ == old(self).output.uploaded_chunks@.insert(chunk_index),
            r == (Progress { filled, size: old(self).size, chunk_index, concurrency }),
    {
        self.output.filled = self.output.filled + chunk_len as u64;
        self.output.uploaded_chunks.insert(chunk_index);
        Progress { filled, size: self.size, chunk_index, concurrency }
    }

    /// The request that ends the upload once the stream is read to its end and
    /// every chunk is stored: the hash is the one given, else that of the
    /// stream.
    pub fn commit_input(&self) -> (r: UpdateFileInput)
        ensures
            r.id == self.output.id,
            r.hash is Some,
            r.hash->0@ == self.committed_hash(),
            r.status == if self.set_readonly { Some(1i8) } else { None::<i8> },
            r.size == self.size,
    {
        let computed = hasher_finalize(hasher_clone(&self.hasher));
        let hash = match self.hash {
            Some(hash) => hash,
            None => computed,
        };
        UpdateFileInput {
            id: self.output.id,
            size: self.size,
            status: if self.set_readonly { Some(1) } else { None },
            hash: Some(hash),
        }
    }
}

proof fn lemma_joined_chunks_push(chunks: Seq<Seq<u8>>, last: Seq<u8>)
    ensures
        joined_chunks(chunks.push(last)) == joined_chunks(chunks) + last,
    decreases chunks.len(),
{
    if chunks.len() == 0 {
        assert(chunks.push(last).drop_first() =~= Seq::empty());
        reveal_with_fuel(joined_chunks, 2);
        assert(joined_chunks(chunks.push(last)) =~= last);
    } else {
        assert(chunks.push(last).drop_first() =~= chunks.drop_first().push(last));
        lemma_joined_chunks_push(chunks.drop_first(), last);
        assert(joined_chunks(chunks.push(last)) =~= joined_chunks(chunks) + last);
    }
}

/// The states of an upload whose hash is not given, before and after each
/// chunk that it takes in.
pub open spec fn takes_in(states: Seq<ChunkedUpload>, chunks: Seq<Seq<u8>>) -> bool {
    &&& states.len() == chunks.len() + 1
    &&& absorbed(states[0].hasher) == Seq::<u8>::empty()
    &&& forall|i: int|
        0 <= i < chunks.len() ==> absorbed(#[trigger] states[i + 1].hasher) == absorbed(states[i].hasher) + chunks[i]
    &&& forall|i: int| 0 <= i < states.len() ==> (#[trigger] states[i]).hash is None
}

/// Where no hash is given, the hash that ends an upload is the digest of the
/// whole stream, however many chunks it was cut into.
pub proof fn law_committed_hash_is_that_of_the_stream(stream: Seq<u8>, size: nat, states: Seq<ChunkedUpload>)
    requires
        size > 0,
        takes_in(states, chunks_of(stream, size)),
    ensures
        states.last().committed_hash() == sha3_256(stream),
{
    let chunks = chunks_of(stream, size);
    lemma_taken_in(states, chunks, chunks.len() as int);
    assert(chunks.take(chunks.len() as int) =~= chunks);
    law_chunks_make_up_the_stream(stream, size);
}

proof fn lemma_taken_in(states: Seq<ChunkedUpload>, chunks: Seq<Seq<u8>>, n: int)
    requires
        takes_in(states, chunks),
        0 <= n <= chunks.len(),
    ensures
        absorbed(states[n].hasher) == joined_chunks(chunks.take(n)),
    decreases n,
{
    if n == 0 {
        assert(chunks.take(0) =~= Seq::empty());
    } else {
        lemma_taken_in(states, chunks, n - 1);
        assert(chunks.take(n) =~= chunks.take(n - 1).push(chunks[n - 1]));
        lemma_joined_chunks_push(chunks.take(n - 1), chunks[n - 1]);
        assert(absorbed(states[n - 1 + 1].hasher) == absorbed(states[n - 1].hasher) + chunks[n - 1]);
    }
}

/// Ends an upload: what became of it, and the error that stopped it.
pub fn finish_upload(output: UploadFileChunksResult, error: Option<String>) -> (r: UploadFileChunksResult)
    ensures
        r.id == output.id,
        r.filled == output.filled,
        r.uploaded_chunks == output.uploaded_chunks,
        r.error == if error is Some { error } else { output.error },
{
    let mut r = output;
    if error.is_some() {
        r.error = error;
    }
    r
}

/// A file that comes along with the request that makes it has at most 2000 KiB.
pub proof fn law_small_files_come_along()
    ensures
        MAX_FILE_SIZE_PER_CALL == 2000 * 1024,
{
}

/// A full stretch of a stream is its own chunk, and the chunks of the rest
/// follow; a rest that is not empty is the last chunk.
pub proof fn law_streams_are_cut_from_the_front(head: Seq<u8>, rest: Seq<u8>)
    requires
        head.len() > 0,
    ensures
        chunks_of(head + rest, head.len()) == seq![head] + chunks_of(rest, head.len()),
        0 < rest.len() <= head.len() ==> chunks_of(rest, head.len()) == seq![rest],
        chunks_of(Seq::empty(), head.len()) == Seq::<Seq<u8>>::empty(),
{
    let all = head + rest;
    assert(all.take(head.len() as int) =~= head);
    assert(all.skip(head.len() as int) =~= rest);
    if rest.len() == head.len() {
        assert(rest.take(head.len() as int) =~= rest);
        assert(rest.skip(head.len() as int) =~= Seq::empty());
        assert(chunks_of(Seq::<u8>::empty(), head.len()) =~= Seq::<Seq<u8>>::empty());
        assert(chunks_of(rest, head.len()) =~= seq![rest]);
    }
}

/// An upload ends with the hash that was given, or else with that of what was
/// taken in.
pub proof fn law_given_hashes_are_kept(upload: &ChunkedUpload)
    ensures
        upload.hash matches Some(hash) ==> upload.committed_hash() == hash@,
        upload.hash is None ==> upload.committed_hash() == sha3_256(absorbed(upload.hasher)),
{
}

/// A token is seen exactly where there is one, with its own bytes, and an
/// upload keeps its size, hash, file, mode and the chunks that are stored.
pub proof fn law_tokens_and_uploads_are_seen_as_they_are(
    token: Option<Vec<u8>>,
    after: &ChunkedUpload,
    before: &ChunkedUpload,
)
    ensures
        token_view(token) is Some <==> token is Some,
        token matches Some(bytes) ==> token_view(token) == Some(bytes@),
        after.same_upload(before) <==> {
            &&& after.size == before.size
            &&& after.hash == before.hash
            &&& after.set_readonly == before.set_readonly
            &&& after.excluded@ == before.excluded@
            &&& after.output.id == before.output.id
            &&& after.output.error == before.output.error
        },
{
}

} // verus!
