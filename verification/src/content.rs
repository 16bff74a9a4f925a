//! Content types of files.
use vstd::prelude::*;

use crate::outside::{
    absorbed, hasher_finalize, hasher_new, hasher_update, known_content_type, lookup_content_type, sha3_256,
    sniff_content_type, sniffed_content_type,
};
use crate::text::owned;

verus! {

/// The most bytes at the start of a file that its content type is told from.
pub const SNIFFED_BYTES: usize = 8192;

/// The content type of a file: what its first bytes show, else what its path
/// says, else that of any bytes.
pub open spec fn file_content_type(head: Seq<u8>, path: Option<Seq<char>>) -> Seq<char> {
    chosen_content_type(
        sniffed_content_type(head),
        match path {
            Some(path) => known_content_type(path),
            None => None,
        },
    )
}

/// The first content type that there is.
pub open spec fn chosen_content_type(sniffed: Option<Seq<char>>, known: Option<Seq<char>>) -> Seq<char> {
    match sniffed {
        Some(kind) => kind,
        None => match known {
            Some(kind) => kind,
            None => "application/octet-stream"@,
        },
    }
}

/// The first content type that there is.
pub fn choose_content_type(sniffed: Option<String>, known: Option<String>) -> (r: String)
    ensures
        r@ == chosen_content_type(
            match sniffed {
                Some(kind) => Some(kind@),
                None => None,
            },
            match known {
                Some(kind) => Some(kind@),
                None => None,
            },
        ),
{
    match sniffed {
        Some(kind) => kind,
        None => match known {
            Some(kind) => kind,
            None => owned("application/octet-stream"),
        },
    }
}

/// The content type of a file, given its first bytes and its path where that
/// is valid UTF-8.
pub fn content_type(head: &[u8], path: Option<&str>) -> (r: String)
    ensures
        r@ == file_content_type(
            head@,
            match path {
                Some(path) => Some(path@),
                None => None,
            },
        ),
{
    let sniffed = sniff_content_type(head);
    let known = match path {
        Some(path) => lookup_content_type(path),
        None => None,
    };
    choose_content_type(sniffed, known)
}

/// Takes in the content of a file piece by piece and gives its digest.
pub struct ContentHasher {
    hasher: sha3::Sha3_256,
}

impl View for ContentHasher {
    type V = Seq<u8>;

    closed spec fn view(&self) -> Seq<u8> {
        absorbed(self.hasher)
    }
}

impl ContentHasher {
    /// A hasher that has taken in nothing.
    pub fn new() -> (r: ContentHasher)
        ensures
            r@ == Seq::<u8>::empty(),
    {
        ContentHasher { hasher: hasher_new() }
    }

    /// Takes in the next piece.
    pub fn update(&mut self, bytes: &[u8])
        ensures
            final(self)@ == old(self)@ + bytes@,
    {
        hasher_update(&mut self.hasher, bytes);
    }

    /// The digest of everything that was taken in.
    pub fn finish(self) -> (r: [u8; 32])
        ensures
            r@ == sha3_256(self@),
    {
        hasher_finalize(self.hasher)
    }
}

/// What the bytes of a file show goes before what its name says, and that
/// before the content type of any bytes.
pub proof fn law_shown_content_types_go_first(sniffed: Seq<char>, known: Option<Seq<char>>, path: Seq<char>, head: Seq<u8>)
    ensures
        chosen_content_type(Some(sniffed), known) == sniffed,
        known matches Some(kind) ==> chosen_content_type(None, known) == kind,
        chosen_content_type(None, None) == "application/octet-stream"@,
        sniffed_content_type(head) matches Some(kind) ==> file_content_type(head, Some(path)) == kind
            && file_content_type(head, None) == kind,
        sniffed_content_type(head) is None && known_content_type(path) is Some ==> file_content_type(head, Some(path))
            == known_content_type(path)->0,
        sniffed_content_type(head) is None && known_content_type(path) is None ==> file_content_type(head, Some(path))
            == "application/octet-stream"@,
        sniffed_content_type(head) is None ==> file_content_type(head, None) == "application/octet-stream"@,
        SNIFFED_BYTES == 8 * 1024,
{
}

} // verus!
