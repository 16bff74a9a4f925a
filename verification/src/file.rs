//! Files of a bucket: names, sizes, and the requests about them.
use vstd::prelude::*;

use crate::text::{has_char, is_white, owned, same_text, trim, trimmed};

verus! {

/// The size of a chunk of a file; only the last chunk may be smaller.
pub const CHUNK_SIZE: u32 = 262144;

/// The largest size of a file.
pub const MAX_FILE_SIZE: u64 = 412316860416;

/// The most bytes of content in one request.
pub const MAX_FILE_SIZE_PER_CALL: u64 = 2048000;

/// Whether a text can be the name of an entry: one plain name, without white
/// space at either end.
pub open spec fn valid_name(name: Seq<char>) -> bool {
    &&& name.len() > 0
    &&& trim(name) == name
    &&& !name.contains('/')
    &&& name != "."@
    &&& name != ".."@
}

/// Whether a text can be the name of an entry.
pub fn valid_file_name(name: &str) -> (r: bool)
    ensures
        r == valid_name(name@),
{
    !name.is_empty() && same_text(trimmed(name), name) && !has_char(name, '/') && !same_text(name, ".") && !same_text(
        name,
        "..",
    )
}

/// A value of a file's custom data.
#[derive(Clone, Debug)]
pub enum MetadataValue {
    Nat(u128),
    Int(i128),
    Text(String),
    Blob(Vec<u8>),
}

/// Asks for a file to be made.
#[derive(Clone, Debug)]
pub struct CreateFileInput {
    pub parent: u32,
    pub name: String,
    pub content_type: String,
    pub size: Option<u64>,
    pub content: Option<Vec<u8>>,
    pub status: Option<i8>,
    pub hash: Option<[u8; 32]>,
    pub dek: Option<Vec<u8>>,
    pub custom: Option<Vec<(String, MetadataValue)>>,
}

impl Default for CreateFileInput {
    fn default() -> (r: Self)
        ensures
            r.parent == 0,
            r.name@.len() == 0,
            r.content_type@.len() == 0,
            r.size is None,
            r.content is None,
            r.status is None,
            r.hash is None,
            r.dek is None,
            r.custom is None,
    {
        CreateFileInput {
            parent: 0,
            name: String::new(),
            content_type: String::new(),
            size: None,
            content: None,
            status: None,
            hash: None,
            dek: None,
            custom: None,
        }
    }
}

impl CreateFileInput {
    /// What is wrong with the request.
    pub open spec fn fault(&self) -> Option<Seq<char>> {
        if !valid_name(self.name@) {
            Some("invalid file name"@)
        } else if self.content_type@.len() == 0 {
            Some("content_type cannot be empty"@)
        } else if self.content is Some && self.content->0@.len() == 0 {
            Some("content cannot be empty"@)
        } else if self.status is Some && !(0 <= self.status->0 <= 1) {
            Some("status should be 0 or 1"@)
        } else {
            None
        }
    }

    /// Checks the request.
    pub fn validate(&self) -> (r: Result<(), String>)
        ensures
            match r {
                Ok(_) => self.fault() is None,
                Err(message) => self.fault() == Some(message@),
            },
    {
        if !valid_file_name(self.name.as_str()) {
            return Err(owned("invalid file name"));
        }
        if self.content_type.as_str().is_empty() {
            return Err(owned("content_type cannot be empty"));
        }
        if let Some(content) = &self.content {
            if content.len() == 0 {
                return Err(owned("content cannot be empty"));
            }
        }
        if let Some(status) = self.status {
            if status < 0 || status > 1 {
                return Err(owned("status should be 0 or 1"));
            }
        }
        Ok(())
    }
}

/// The file that was made.
#[derive(Clone, Copy, Debug, PartialEq, Eq, Structural)]
pub struct CreateFileOutput {
    pub id: u32,
    pub created_at: u64,
}

/// What a bucket tells about a file.
#[derive(Clone, Debug)]
pub struct FileInfo {
    pub id: u32,
    pub parent: u32,
    pub name: String,
    pub content_type: String,
    pub size: u64,
    pub filled: u64,
    pub created_at: u64,
    pub updated_at: u64,
    pub chunks: u32,
    pub status: i8,
    pub revision: u64,
    pub generation: u64,
    pub hash: Option<[u8; 32]>,
}

/// One chunk of a file: its index and its bytes.
#[derive(Clone, Debug)]
pub struct FileChunk(pub u32, pub Vec<u8>);

/// Asks for a file's data to be changed.
#[derive(Clone, Debug)]
pub struct UpdateFileInput {
    pub id: u32,
    pub size: Option<u64>,
    pub status: Option<i8>,
    pub hash: Option<[u8; 32]>,
}

/// A text is a name exactly where it is not empty, has no white space at either
/// end, holds no slash, and does not stand for a directory itself or the one
/// above it.
pub proof fn law_names_are_plain(name: Seq<char>)
    ensures
        valid_name(name) <==> {
            &&& name.len() > 0
            &&& !is_white(name[0])
            &&& !is_white(name.last())
            &&& forall|i: int| 0 <= i < name.len() ==> name[i] != '/'
            &&& name != seq!['.']
            &&& name != seq!['.', '.']
        },
{
    reveal_strlit(".");
    reveal_strlit("..");
    assert("."@ =~= seq!['.']);
    assert(".."@ =~= seq!['.', '.']);
    if name.len() > 0 && !is_white(name[0]) && !is_white(name.last()) {
        assert(trim(name) == name);
    }
    if trim(name) == name && name.len() > 0 {
        crate::text::law_trimming_takes_only_white_space(name);
    }
    if forall|i: int| 0 <= i < name.len() ==> name[i] != '/' {
        assert(!name.contains('/'));
    }
    if !name.contains('/') {
        assert forall|i: int| 0 <= i < name.len() implies name[i] != '/' by {
            if name[i] == '/' {
                assert(name.contains('/'));
            }
        }
    }
}

/// A file is made exactly where it has a name and a content type, its content,
/// if it comes along, is not empty, and its status, if there is one, is 0 or 1.
/// What is wrong first is told.
pub proof fn law_complete_files_are_made(input: &CreateFileInput)
    ensures
        input.fault() is None <==> {
            &&& valid_name(input.name@)
            &&& input.content_type@.len() > 0
            &&& input.content matches Some(content) ==> content@.len() > 0
            &&& input.status matches Some(status) ==> status == 0 || status == 1
        },
        !valid_name(input.name@) ==> input.fault() == Some("invalid file name"@),
        valid_name(input.name@) && input.content_type@.len() == 0 ==> input.fault() == Some(
            "content_type cannot be empty"@,
        ),
        valid_name(input.name@) && input.content_type@.len() > 0 && input.content is Some && input.content->0@.len() == 0
            ==> input.fault() == Some("content cannot be empty"@),
        valid_name(input.name@) && input.content_type@.len() > 0 && input.content is None && input.status is Some
            && input.status->0 > 1 ==> input.fault() == Some("status should be 0 or 1"@),
{
}

/// A chunk has 256 KiB, a request carries at most 2000 KiB, and a file has at
/// most 384 GiB.
pub proof fn law_sizes_of_files()
    ensures
        CHUNK_SIZE == 256 * 1024,
        MAX_FILE_SIZE_PER_CALL == 2000 * 1024,
        MAX_FILE_SIZE == 384 * 1024 * 1024 * 1024,
{
}

} // verus!
