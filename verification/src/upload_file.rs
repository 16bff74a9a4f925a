//! Uploading one file from the command line.
use vstd::prelude::*;

use crate::content::{choose_content_type, chosen_content_type};
use crate::file::CreateFileInput;
use crate::outside::{known_content_type, lookup_content_type, sniff_content_type, sniffed_content_type};
use crate::retry::{backoff_seconds, retry_delay, seconds_text, RetryDecision};
use crate::text::{byte_len, cat2, cat3, cat7, decimal, decimal_text, lower, lowered, owned, str_option, text_option, trim, trimmed, utf8};

verus! {

/// The most retries of an upload.
pub const MAX_UPLOAD_RETRIES: u8 = 10;

/// Checks the number of retries that is asked for.
pub fn check_upload_retries(retry: u8) -> (r: Result<(), String>)
    ensures
        match r {
            Ok(_) => retry <= MAX_UPLOAD_RETRIES,
            Err(message) => retry > MAX_UPLOAD_RETRIES && message@ == "retry count "@ + decimal(retry as nat)
                + " exceeds maximum 10"@,
        },
{
    if retry > MAX_UPLOAD_RETRIES {
        return Err(cat3("retry count ", decimal_text(retry as u64).as_str(), " exceeds maximum 10"));
    }
    Ok(())
}

/// Whether a character is a control character.
pub open spec fn is_control(c: char) -> bool {
    c as u32 <= 0x1f || 0x7f <= c as u32 <= 0x9f
}

/// Whether a text holds a control character.
pub open spec fn has_control(text: Seq<char>) -> bool {
    exists|i: int| 0 <= i < text.len() && is_control(#[trigger] text[i])
}

fn holds_control(text: &str) -> (r: bool)
    ensures
        r == has_control(text@),
{
    for c in it: text.chars()
        invariant
            it.seq() == text@,
            forall|j: int| 0 <= j < it.index() ==> !is_control(#[trigger] text@[j]),
    {
        let n = c as u32;
        if n <= 0x1f || (0x7f <= n && n <= 0x9f) {
            assert(is_control(text@[it.index() as int]));
            return true;
        }
    }
    false
}

/// The content type of an upload: the one that is asked for, if there is one
/// and it is safe; else what the file shows.
pub open spec fn upload_content_type(
    wanted: Option<Seq<char>>,
    sniffed: Option<Seq<char>>,
    known: Option<Seq<char>>,
) -> Result<Seq<char>, Seq<char>> {
    match wanted {
        Some(text) => {
            let kind = lower(trim(text));
            if kind.len() == 0 || utf8(kind).len() > 256 || has_control(kind) {
                Err("content type override must contain 1 to 256 safe bytes"@)
            } else {
                Ok(kind)
            }
        },
        None => Ok(chosen_content_type(sniffed, known)),
    }
}

/// Chooses the content type of an upload.
pub fn choose_upload_content_type(wanted: Option<&str>, sniffed: Option<String>, known: Option<String>) -> (r: Result<
    String,
    String,
>)
    ensures
        match r {
            Ok(kind) => upload_content_type(str_option(wanted), text_option(sniffed), text_option(known)) == Ok::<
                Seq<char>,
                Seq<char>,
            >(kind@),
            Err(message) => upload_content_type(str_option(wanted), text_option(sniffed), text_option(known))
                == Err::<Seq<char>, Seq<char>>(message@),
        },
{
    match wanted {
        Some(text) => {
            let kind = lowered(trimmed(text));
            if kind.as_str().is_empty() || byte_len(kind.as_str()) > 256 || holds_control(kind.as_str()) {
                return Err(owned("content type override must contain 1 to 256 safe bytes"));
            }
            Ok(kind)
        },
        None => Ok(choose_content_type(sniffed, known)),
    }
}

/// The request that makes the file of an upload.
pub fn upload_input(
    parent: u32,
    path: &str,
    name: &str,
    head: &[u8],
    size: u64,
    hash: Option<[u8; 32]>,
    content_type_override: Option<&str>,
) -> (r: Result<CreateFileInput, String>)
    ensures
        match r {
            Ok(input) => {
                &&& upload_content_type(
                    str_option(content_type_override),
                    sniffed_content_type(head@),
                    known_content_type(path@),
                ) == Ok::<Seq<char>, Seq<char>>(input.content_type@)
                &&& input.parent == parent
                &&& input.name@ == name@
                &&& input.size == Some(size)
                &&& input.hash == hash
                &&& input.content is None
                &&& input.status is None
                &&& input.dek is None
                &&& input.custom is None
            },
            Err(message) => upload_content_type(
                str_option(content_type_override),
                sniffed_content_type(head@),
                known_content_type(path@),
            ) == Err::<Seq<char>, Seq<char>>(message@),
        },
{
    match choose_upload_content_type(content_type_override, sniff_content_type(head), lookup_content_type(path)) {
        Ok(content_type) => Ok(
            CreateFileInput {
                parent,
                name: owned(name),
                content_type,
                size: Some(size),
                content: None,
                status: None,
                hash,
                dek: None,
                custom: None,
            },
        ),
        Err(message) => Err(message),
    }
}

/// Decides what follows an upload that stopped with an error, after the given
/// number of attempts to take it up again.
pub fn retry_upload(attempts: u8, retry: u8, err: &str) -> (r: RetryDecision)
    ensures
        match r {
            RetryDecision::Again { attempt, delay, notice } => {
                &&& attempts < retry
                &&& attempt == attempts + 1
                &&& delay == backoff_seconds(attempt)
                &&& notice@ == "upload error: "@ + err@ + ".\ntry resumable upload "@ + decimal(attempt as nat) + " after "@
                    + seconds_text(delay) + ":"@
            },
            RetryDecision::Fail { error } => attempts >= retry && error@ == "upload failed: "@ + err@,
        },
{
    if attempts >= retry {
        return RetryDecision::Fail { error: cat2("upload failed: ", err) };
    }
    let attempt: u8 = attempts + 1;
    let delay: u64 = retry_delay(attempt);
    RetryDecision::Again {
        attempt,
        delay,
        notice: cat7(
            "upload error: ",
            err,
            ".\ntry resumable upload ",
            decimal_text(attempt as u64).as_str(),
            " after ",
            cat2(decimal_text(delay).as_str(), "s").as_str(),
            ":",
        ),
    }
}

/// A content type that is asked for is taken, in lower case and without the
/// white space around it, exactly where it then has 1 to 256 bytes and no
/// control character.
pub proof fn law_safe_content_types_are_taken(
    text: Seq<char>,
    sniffed: Option<Seq<char>>,
    known: Option<Seq<char>>,
)
    ensures
        upload_content_type(Some(text), sniffed, known) is Ok <==> {
            let kind = lower(trim(text));
            &&& kind.len() > 0
            &&& utf8(kind).len() <= 256
            &&& forall|i: int|
                0 <= i < kind.len() ==> 32 <= (#[trigger] kind[i]) as u32 && !(127 <= kind[i] as u32 <= 159)
        },
        upload_content_type(Some(text), sniffed, known) matches Ok(kind) ==> kind == lower(trim(text)),
        upload_content_type(Some(text), sniffed, known) matches Err(message) ==> message
            == "content type override must contain 1 to 256 safe bytes"@,
{
}

/// Without a content type that is asked for, the file itself decides: what its
/// bytes show, else what its name says, else any bytes.
pub proof fn law_other_content_types_come_from_the_file(sniffed: Option<Seq<char>>, known: Option<Seq<char>>)
    ensures
        sniffed matches Some(kind) ==> upload_content_type(None, sniffed, known) == Ok::<Seq<char>, Seq<char>>(kind),
        sniffed is None && known is Some ==> upload_content_type(None, sniffed, known) == Ok::<Seq<char>, Seq<char>>(
            known->0,
        ),
        sniffed is None && known is None ==> upload_content_type(None, sniffed, known) == Ok::<Seq<char>, Seq<char>>(
            "application/octet-stream"@,
        ),
        MAX_UPLOAD_RETRIES == 10,
{
}

} // verus!
