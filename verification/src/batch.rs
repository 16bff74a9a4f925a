//! Requests that make several entries at once.
use vstd::prelude::*;

use crate::entry::{
    checked, request_id_fault, validate_request_id, EnsureFolderOutput, SyncError, SyncFault,
};
use crate::file::{valid_file_name, valid_name, CreateFileInput, CreateFileOutput};
use crate::folder::CreateFolderInput;
use crate::outside::{debug_quoted, debug_text};
use crate::text::{cat3, owned};

verus! {

/// The most items of a batch.
pub const MAX_BATCH_ITEMS: usize = 32;

/// The most bytes of content in a batch.
pub const MAX_BATCH_INLINE_BYTES: usize = 1572864;

/// The most bytes of content of one file in a batch.
pub const MAX_BATCH_FILE_BYTES: usize = 262144;

/// Asks for several folders to be there.
#[derive(Clone, Debug)]
pub struct BatchEnsureFoldersInput {
    pub request_id: Vec<u8>,
    pub folders: Vec<CreateFolderInput>,
}

impl BatchEnsureFoldersInput {
    /// What is wrong with the request.
    pub open spec fn fault(&self) -> Option<SyncFault> {
        if let Some(fault) = request_id_fault(self.request_id@) {
            Some(fault)
        } else if let Some(fault) = count_fault(self.folders@.len()) {
            Some(fault)
        } else if exists|i: int| 0 <= i < self.folders@.len() && !valid_name((#[trigger] self.folders@[i]).name@) {
            Some(SyncFault::InvalidInput("batch contains an invalid folder name"@))
        } else {
            None
        }
    }

    /// Checks the request.
    pub fn validate(&self) -> (r: Result<(), SyncError>)
        ensures
            checked(r, self.fault()),
    {
        validate_request_id(self.request_id.as_slice())?;
        validate_count(self.folders.len())?;
        for i in 0..self.folders.len()
            invariant
                request_id_fault(self.request_id@) is None,
                count_fault(self.folders@.len()) is None,
                forall|j: int| 0 <= j < i ==> valid_name((#[trigger] self.folders@[j]).name@),
        {
            if !valid_file_name(self.folders[i].name.as_str()) {
                return Err(SyncError::InvalidInput(owned("batch contains an invalid folder name")));
            }
        }
        Ok(())
    }
}

/// The folders that are there.
#[derive(Clone, Debug)]
pub struct BatchEnsureFoldersOutput {
    pub results: Vec<Result<EnsureFolderOutput, SyncError>>,
}

/// Asks for several small files to be made.
#[derive(Clone, Debug)]
pub struct BatchCreateSmallFilesInput {
    pub request_id: Vec<u8>,
    pub files: Vec<CreateFileInput>,
}

/// How many bytes of content a file brings along.
pub open spec fn inline_len(file: CreateFileInput) -> nat {
    match file.content {
        Some(content) => content@.len(),
        None => 0,
    }
}

/// What is wrong with one file of a batch.
pub open spec fn inline_fault(file: CreateFileInput) -> Option<SyncFault> {
    if let Some(message) = file.fault() {
        Some(SyncFault::InvalidInput(message))
    } else if file.size is Some && file.size->0 != inline_len(file) {
        Some(SyncFault::InvalidInput("inline content size mismatch for file "@ + debug_text(file.name@)))
    } else if inline_len(file) > MAX_BATCH_FILE_BYTES {
        Some(SyncFault::LimitExceeded("inline file "@ + debug_text(file.name@) + " exceeds 262144 bytes"@))
    } else if file.status == Some(1i8) && file.hash is None {
        Some(SyncFault::InvalidInput("readonly file "@ + debug_text(file.name@) + " requires a hash"@))
    } else {
        None
    }
}

fn validate_inline(file: &CreateFileInput) -> (r: Result<(), SyncError>)
    ensures
        checked(r, inline_fault(*file)),
{
    if let Err(message) = file.validate() {
        return Err(SyncError::InvalidInput(message));
    }
    let content_len: usize = match &file.content {
        Some(content) => content.len(),
        None => 0,
    };
    if let Some(size) = file.size {
        if size != content_len as u64 {
            return Err(
                SyncError::InvalidInput(
                    crate::text::cat2(
                        "inline content size mismatch for file ",
                        debug_quoted(file.name.as_str()).as_str(),
                    ),
                ),
            );
        }
    }
    if content_len > MAX_BATCH_FILE_BYTES {
        return Err(
            SyncError::LimitExceeded(
                cat3("inline file ", debug_quoted(file.name.as_str()).as_str(), " exceeds 262144 bytes"),
            ),
        );
    }
    let readonly = match file.status {
        Some(status) => status == 1,
        None => false,
    };
    if readonly && file.hash.is_none() {
        return Err(
            SyncError::InvalidInput(
                cat3("readonly file ", debug_quoted(file.name.as_str()).as_str(), " requires a hash"),
            ),
        );
    }
    Ok(())
}

/// What is wrong with the first file that is not in order, counted from `from`.
pub open spec fn files_fault(files: Seq<CreateFileInput>, from: int) -> Option<SyncFault>
    decreases files.len() - from,
{
    if from < 0 || from >= files.len() {
        None
    } else if let Some(fault) = inline_fault(files[from]) {
        Some(fault)
    } else {
        files_fault(files, from + 1)
    }
}

/// How many bytes of content the first files bring along.
pub open spec fn inline_total(files: Seq<CreateFileInput>, count: int) -> nat
    decreases count,
{
    if count <= 0 {
        0
    } else {
        inline_total(files, count - 1) + inline_len(files[count - 1])
    }
}

impl BatchCreateSmallFilesInput {
    /// What is wrong with the request.
    pub open spec fn fault(&self) -> Option<SyncFault> {
        if let Some(fault) = request_id_fault(self.request_id@) {
            Some(fault)
        } else if let Some(fault) = count_fault(self.files@.len()) {
            Some(fault)
        } else if let Some(fault) = files_fault(self.files@, 0) {
            Some(fault)
        } else if inline_total(self.files@, self.files@.len() as int) > MAX_BATCH_INLINE_BYTES {
            Some(SyncFault::LimitExceeded("batch inline content exceeds 1572864 bytes"@))
        } else {
            None
        }
    }

    /// Checks the request.
    pub fn validate(&self) -> (r: Result<(), SyncError>)
        ensures
            checked(r, self.fault()),
    {
        validate_request_id(self.request_id.as_slice())?;
        validate_count(self.files.len())?;
        let mut total: usize = 0;
        for i in 0..self.files.len()
            invariant
                request_id_fault(self.request_id@) is None,
                count_fault(self.files@.len()) is None,
                self.files@.len() <= 32,
                files_fault(self.files@, 0) == files_fault(self.files@, i as int),
                total == inline_total(self.files@, i as int),
                total <= i * 262144,
        {
            let file = &self.files[i];
            validate_inline(file)?;
            let content_len: usize = match &file.content {
                Some(content) => content.len(),
                None => 0,
            };
            total += content_len;
        }
        if total > MAX_BATCH_INLINE_BYTES {
            return Err(SyncError::LimitExceeded(owned("batch inline content exceeds 1572864 bytes")));
        }
        Ok(())
    }
}

/// The files that were made.
#[derive(Clone, Debug)]
pub struct BatchCreateSmallFilesOutput {
    pub results: Vec<Result<CreateFileOutput, SyncError>>,
}

/// What is wrong with the number of items.
pub open spec fn count_fault(count: nat) -> Option<SyncFault> {
    if count == 0 || count > MAX_BATCH_ITEMS {
        Some(SyncFault::LimitExceeded("batch must contain 1 to 32 items"@))
    } else {
        None
    }
}

fn validate_count(count: usize) -> (r: Result<(), SyncError>)
    ensures
        checked(r, count_fault(count as nat)),
{
    if count == 0 || count > MAX_BATCH_ITEMS {
        return Err(SyncError::LimitExceeded(owned("batch must contain 1 to 32 items")));
    }
    Ok(())
}

/// A batch of folders is asked for exactly where its identifier is in order, it
/// has 1 to 32 folders, and each of them has a name.
pub proof fn law_batches_of_folders_are_accepted(input: &BatchEnsureFoldersInput)
    ensures
        input.fault() is None <==> {
            &&& 1 <= input.request_id@.len() <= 64
            &&& 1 <= input.folders@.len() <= 32
            &&& forall|i: int| 0 <= i < input.folders@.len() ==> valid_name((#[trigger] input.folders@[i]).name@)
        },
        !(1 <= input.request_id@.len() <= 64) ==> input.fault() == Some(
            SyncFault::InvalidInput("request_id must contain 1 to 64 bytes"@),
        ),
        1 <= input.request_id@.len() <= 64 && !(1 <= input.folders@.len() <= 32) ==> input.fault() == Some(
            SyncFault::LimitExceeded("batch must contain 1 to 32 items"@),
        ),
{
}

/// A small file is made in a batch exactly where it is in order, its size, if
/// it has one, is that of its content, the content has at most 256 KiB, and a
/// read-only file has a digest.
pub proof fn law_small_files_are_accepted(file: CreateFileInput)
    ensures
        inline_fault(file) is None <==> {
            let bytes = if file.content is Some {
                file.content->0@.len()
            } else {
                0
            };
            &&& file.fault() is None
            &&& file.size matches Some(size) ==> size == bytes
            &&& bytes <= 262144
            &&& file.status == Some(1i8) ==> file.hash is Some
        },
        inline_len(file) == if file.content is Some {
            file.content->0@.len()
        } else {
            0
        },
        file.fault() matches Some(message) ==> inline_fault(file) == Some(SyncFault::InvalidInput(message)),
        inline_fault(file) matches Some(SyncFault::LimitExceeded(_)) ==> inline_len(file) > 262144,
        inline_fault(file) is Some ==> inline_fault(file)->0 is InvalidInput || inline_fault(file)->0 is LimitExceeded,
{
}

proof fn lemma_files_fault(files: Seq<CreateFileInput>, from: int)
    requires
        0 <= from,
    ensures
        files_fault(files, from) is None <==> forall|i: int|
            from <= i < files.len() ==> inline_fault(#[trigger] files[i]) is None,
        files_fault(files, from) matches Some(fault) ==> exists|i: int|
            from <= i < files.len() && inline_fault(#[trigger] files[i]) == Some(fault) && forall|j: int|
                from <= j < i ==> inline_fault(#[trigger] files[j]) is None,
    decreases files.len() - from,
{
    if from < files.len() {
        lemma_files_fault(files, from + 1);
        if inline_fault(files[from]) is None && files_fault(files, from) is Some {
            let fault = files_fault(files, from)->0;
            let i = choose|i: int|
                from + 1 <= i < files.len() && inline_fault(#[trigger] files[i]) == Some(fault) && forall|j: int|
                    from + 1 <= j < i ==> inline_fault(#[trigger] files[j]) is None;
            assert(inline_fault(files[i]) == Some(fault));
        }
    }
}

/// A batch of small files is made exactly where its identifier is in order, it
/// has 1 to 32 files, each of them is in order, and together they bring along
/// at most 1536 KiB; the first file that is not in order is told.
pub proof fn law_batches_of_files_are_accepted(input: &BatchCreateSmallFilesInput)
    ensures
        input.fault() is None <==> {
            &&& 1 <= input.request_id@.len() <= 64
            &&& 1 <= input.files@.len() <= 32
            &&& forall|i: int| 0 <= i < input.files@.len() ==> inline_fault(#[trigger] input.files@[i]) is None
            &&& inline_total(input.files@, input.files@.len() as int) <= 1536 * 1024
        },
        !(1 <= input.request_id@.len() <= 64) ==> input.fault() == Some(
            SyncFault::InvalidInput("request_id must contain 1 to 64 bytes"@),
        ),
        1 <= input.request_id@.len() <= 64 && !(1 <= input.files@.len() <= 32) ==> input.fault() == Some(
            SyncFault::LimitExceeded("batch must contain 1 to 32 items"@),
        ),
        1 <= input.request_id@.len() <= 64 && 1 <= input.files@.len() <= 32 && input.fault() is Some ==> (exists|
            i: int,
        |
            0 <= i < input.files@.len() && inline_fault(#[trigger] input.files@[i]) == input.fault() && forall|j: int|
                0 <= j < i ==> inline_fault(#[trigger] input.files@[j]) is None) || (input.fault() == Some(
            SyncFault::LimitExceeded("batch inline content exceeds 1572864 bytes"@),
        ) && inline_total(input.files@, input.files@.len() as int) > 1572864),
{
    lemma_files_fault(input.files@, 0);
}

/// The content of the files of a batch adds up: each file counts with its own
/// bytes, and a file without content with none.
pub proof fn law_inline_content_adds_up(files: Seq<CreateFileInput>, count: int)
    requires
        0 < count <= files.len(),
    ensures
        inline_total(files, count) - inline_total(files, count - 1) == match files[count - 1].content {
            Some(content) => content@.len(),
            None => 0,
        },
        inline_total(files, 0) == 0,
{
}

} // verus!
