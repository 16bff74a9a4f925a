//! Access tokens kept in files.
use vstd::prelude::*;
use vstd::utf8::{decode_utf8, valid_utf8};

use crate::outside::{
    decode_standard, decode_standard_no_pad, decode_url_safe, decode_url_safe_no_pad, standard_bytes,
    standard_no_pad_bytes, text_from_utf8, url_safe_bytes, url_safe_no_pad_bytes,
};
use crate::text::{owned, trim, trimmed, utf8};

verus! {

/// The most bytes of a token, and of the file that holds it.
pub const MAX_ACCESS_TOKEN_SIZE: u64 = 65536;

/// What is known of the file that holds a token.  The mode is missing on
/// platforms without one.
#[derive(Clone, Copy, Debug)]
pub struct TokenFile {
    pub is_symlink: bool,
    pub is_file: bool,
    pub len: u64,
    pub mode: Option<u32>,
}

/// Why a file is not read as a token.
pub open spec fn token_file_fault(file: TokenFile) -> Option<Seq<char>> {
    if file.is_symlink {
        Some("access token file must not be a symbolic link"@)
    } else if !file.is_file {
        Some("access token path must be a regular file"@)
    } else if file.len == 0 {
        Some("access token file is empty"@)
    } else if file.len > MAX_ACCESS_TOKEN_SIZE {
        Some("access token file exceeds the 65536 byte limit"@)
    } else if file.mode is Some && file.mode->0 & 0o077 != 0 {
        Some("access token file permissions are too open; run `chmod 600 <TOKEN_FILE>`"@)
    } else {
        None
    }
}

/// Checks that nobody but the owner can read a token file.
pub fn check_access_token_permissions(mode: Option<u32>) -> (r: Result<(), String>)
    ensures
        match r {
            Ok(_) => mode is None || mode->0 & 0o077 == 0,
            Err(message) => mode is Some && mode->0 & 0o077 != 0 && message@
                == "access token file permissions are too open; run `chmod 600 <TOKEN_FILE>`"@,
        },
{
    match mode {
        Some(mode) => {
            if mode & 0o077 != 0 {
                return Err(owned("access token file permissions are too open; run `chmod 600 <TOKEN_FILE>`"));
            }
            Ok(())
        },
        None => Ok(()),
    }
}

/// Checks that a file may be read as a token.
pub fn check_token_file(file: &TokenFile) -> (r: Result<(), String>)
    ensures
        match r {
            Ok(_) => token_file_fault(*file) is None,
            Err(message) => token_file_fault(*file) == Some(message@),
        },
{
    if file.is_symlink {
        return Err(owned("access token file must not be a symbolic link"));
    }
    if !file.is_file {
        return Err(owned("access token path must be a regular file"));
    }
    if file.len == 0 {
        return Err(owned("access token file is empty"));
    }
    if file.len > MAX_ACCESS_TOKEN_SIZE {
        return Err(owned("access token file exceeds the 65536 byte limit"));
    }
    check_access_token_permissions(file.mode)
}

/// The bytes that a base64 text stands for in the first of four forms that it
/// has: the standard alphabet, then the one for URLs, each first with and then
/// without padding.
pub open spec fn any_base64(text: Seq<char>) -> Option<Seq<u8>> {
    if standard_bytes(text) is Some {
        standard_bytes(text)
    } else if standard_no_pad_bytes(text) is Some {
        standard_no_pad_bytes(text)
    } else if url_safe_bytes(text) is Some {
        url_safe_bytes(text)
    } else {
        url_safe_no_pad_bytes(text)
    }
}

/// Picks the first form in which a text can be read.
pub fn first_reading(
    standard: Option<Vec<u8>>,
    standard_no_pad: Option<Vec<u8>>,
    url_safe: Option<Vec<u8>>,
    url_safe_no_pad: Option<Vec<u8>>,
) -> (r: Result<Vec<u8>, String>)
    ensures
        match r {
            Ok(token) => Some(token) == if standard is Some {
                standard
            } else if standard_no_pad is Some {
                standard_no_pad
            } else if url_safe is Some {
                url_safe
            } else {
                url_safe_no_pad
            },
            Err(message) => {
                &&& standard is None && standard_no_pad is None && url_safe is None && url_safe_no_pad is None
                &&& message@ == "access token file contains invalid base64"@
            },
        },
{
    match (standard, standard_no_pad, url_safe, url_safe_no_pad) {
        (Some(token), _, _, _) => Ok(token),
        (None, Some(token), _, _) => Ok(token),
        (None, None, Some(token), _) => Ok(token),
        (None, None, None, Some(token)) => Ok(token),
        _ => Err(owned("access token file contains invalid base64")),
    }
}

/// The bytes that a base64 text stands for, in any of its four forms.
pub fn decode_access_token_base64(encoded: &str) -> (r: Result<Vec<u8>, String>)
    ensures
        match r {
            Ok(token) => any_base64(encoded@) == Some(token@),
            Err(message) => any_base64(encoded@) is None && message@ == "access token file contains invalid base64"@,
        },
{
    first_reading(
        decode_standard(encoded),
        decode_standard_no_pad(encoded),
        decode_url_safe(encoded),
        decode_url_safe_no_pad(encoded),
    )
}

/// The bytes of `base64:`, with which the content of a file starts that holds
/// its token in base64.
pub open spec fn base64_prefix() -> Seq<u8> {
    seq![98u8, 97, 115, 101, 54, 52, 58]
}

/// Whether the content of a file is a token in base64.
pub open spec fn is_base64(content: Seq<u8>) -> bool {
    content.len() >= 7 && content.take(7) == base64_prefix()
}

/// The text behind the prefix, without the white space around it.
pub open spec fn encoded_token(content: Seq<u8>) -> Seq<char> {
    trim(decode_utf8(content.skip(7)))
}

/// The token in a file with the given content, or why there is none; `decoded`
/// is what the base64 text stands for, where the content is one.
pub open spec fn token_of(content: Seq<u8>, decoded: Option<Seq<u8>>) -> Result<Seq<u8>, Seq<char>> {
    let token = if is_base64(content) {
        decoded->0
    } else {
        content
    };
    if is_base64(content) && !valid_utf8(content.skip(7)) {
        Err("base64 access token file must contain UTF-8 text"@)
    } else if is_base64(content) && decoded is None {
        Err("access token file contains invalid base64"@)
    } else if token.len() == 0 {
        Err("decoded access token is empty"@)
    } else if token.len() > MAX_ACCESS_TOKEN_SIZE {
        Err("decoded access token exceeds the 65536 byte limit"@)
    } else {
        Ok(token)
    }
}

fn has_base64_prefix(content: &Vec<u8>) -> (r: bool)
    ensures
        r == is_base64(content@),
{
    if content.len() < 7 {
        return false;
    }
    let r = content[0] == 98 && content[1] == 97 && content[2] == 115 && content[3] == 101 && content[4] == 54
        && content[5] == 52 && content[6] == 58;
    proof {
        let start = content@.take(7);
        if r {
            assert(start =~= base64_prefix());
        } else if start == base64_prefix() {
            assert(start[0] == 98 && start[1] == 97 && start[2] == 115 && start[3] == 101 && start[4] == 54
                && start[5] == 52 && start[6] == 58);
        }
    }
    r
}

/// Checks the size of a token.
pub fn check_token(token: Vec<u8>) -> (r: Result<Vec<u8>, String>)
    ensures
        match r {
            Ok(checked) => checked == token && 0 < token@.len() <= MAX_ACCESS_TOKEN_SIZE,
            Err(message) => message@ == if token@.len() == 0 {
                "decoded access token is empty"@
            } else {
                "decoded access token exceeds the 65536 byte limit"@
            } && !(0 < token@.len() <= MAX_ACCESS_TOKEN_SIZE),
        },
{
    if token.len() == 0 {
        return Err(owned("decoded access token is empty"));
    }
    if token.len() as u64 > MAX_ACCESS_TOKEN_SIZE {
        return Err(owned("decoded access token exceeds the 65536 byte limit"));
    }
    Ok(token)
}

/// The token in a file with the given content: what follows `base64:` is read
/// as base64, any other content is the token itself.
pub fn decode_access_token(content: Vec<u8>) -> (r: Result<Vec<u8>, String>)
    ensures
        match r {
            Ok(token) => token_of(content@, any_base64(encoded_token(content@))) == Ok::<Seq<u8>, Seq<char>>(token@),
            Err(message) => token_of(content@, any_base64(encoded_token(content@))) == Err::<Seq<u8>, Seq<char>>(
                message@,
            ),
        },
        r matches Ok(token) ==> 0 < token@.len() <= MAX_ACCESS_TOKEN_SIZE,
        !is_base64(content@) && 0 < content@.len() <= MAX_ACCESS_TOKEN_SIZE ==> r == Ok::<Vec<u8>, String>(content),
{
    if !has_base64_prefix(&content) {
        return check_token(content);
    }
    let mut rest: Vec<u8> = Vec::new();
    let size: usize = content.len();
    for i in 7..size
        invariant
            size == content@.len(),
            rest@ == content@.subrange(7, i as int),
    {
        rest.push(content[i]);
        assert(content@.subrange(7, i + 1) =~= content@.subrange(7, i as int).push(content@[i as int]));
    }
    assert(content@.subrange(7, size as int) =~= content@.skip(7));
    match text_from_utf8(rest) {
        Some(text) => {
            proof {
                vstd::utf8::encode_utf8_decode_utf8(text@);
            }
            match decode_access_token_base64(trimmed(text.as_str())) {
                Ok(token) => check_token(token),
                Err(message) => Err(message),
            }
        },
        None => Err(owned("base64 access token file must contain UTF-8 text")),
    }
}

/// A file is read as a token exactly where it is a regular file and no link,
/// has 1 to 65536 bytes, and nobody but its owner has any right to it.
pub proof fn law_private_files_are_read(file: TokenFile)
    ensures
        token_file_fault(file) is None <==> {
            &&& !file.is_symlink
            &&& file.is_file
            &&& 1 <= file.len <= 65536
            &&& file.mode matches Some(mode) ==> mode & 0o077 == 0
        },
        file.is_symlink ==> token_file_fault(file) == Some("access token file must not be a symbolic link"@),
        !file.is_symlink && !file.is_file ==> token_file_fault(file) == Some(
            "access token path must be a regular file"@,
        ),
        !file.is_symlink && file.is_file && file.len == 0 ==> token_file_fault(file) == Some(
            "access token file is empty"@,
        ),
        !file.is_symlink && file.is_file && file.len > 65536 ==> token_file_fault(file) == Some(
            "access token file exceeds the 65536 byte limit"@,
        ),
        !file.is_symlink && file.is_file && 1 <= file.len <= 65536 && file.mode is Some && file.mode->0 & 0o077 != 0
            ==> token_file_fault(file) == Some(
            "access token file permissions are too open; run `chmod 600 <TOKEN_FILE>`"@,
        ),
{
}

/// The rights of a group or of others, whichever they are, are too much; the
/// rights of the owner do not matter.
pub proof fn law_rights_of_others_are_too_much(mode: u32)
    ensures
        mode & 0o077 == 0 <==> mode & 0o070 == 0 && mode & 0o007 == 0,
        mode & 0o077 == 0 <==> mode % 0o100 == 0,
{
    assert(mode & 0o077 == 0 <==> mode & 0o070 == 0 && mode & 0o007 == 0) by (bit_vector);
    assert(mode & 0o077 == 0 <==> mode % 0o100 == 0) by (bit_vector);
}

/// A text is read as base64 in the first form that fits: the standard alphabet
/// goes before that for URLs, and padding before none.
pub proof fn law_base64_is_read_in_the_first_form_that_fits(text: Seq<char>)
    ensures
        any_base64(text) is Some <==> standard_bytes(text) is Some || standard_no_pad_bytes(text) is Some
            || url_safe_bytes(text) is Some || url_safe_no_pad_bytes(text) is Some,
        standard_bytes(text) is Some ==> any_base64(text) == standard_bytes(text),
        standard_bytes(text) is None && standard_no_pad_bytes(text) is Some ==> any_base64(text)
            == standard_no_pad_bytes(text),
        standard_bytes(text) is None && standard_no_pad_bytes(text) is None && url_safe_bytes(text) is Some
            ==> any_base64(text) == url_safe_bytes(text),
        standard_bytes(text) is None && standard_no_pad_bytes(text) is None && url_safe_bytes(text) is None
            ==> any_base64(text) == url_safe_no_pad_bytes(text),
{
}

/// Content is base64 exactly where it starts with the text `base64:`.
pub proof fn law_base64_starts_with_its_name(rest: Seq<u8>, content: Seq<u8>)
    ensures
        is_base64(utf8("base64:"@) + rest),
        is_base64(content) ==> content == utf8("base64:"@) + content.skip(7),
        encoded_token(utf8("base64:"@) + rest) == trim(decode_utf8(rest)),
{
    reveal_strlit("base64:");
    let name = "base64:"@;
    assert forall|i: int| 0 <= i < name.len() implies (#[trigger] name[i] as u32) < 128 by {}
    vstd::utf8::is_ascii_chars_encode_utf8(name);
    assert(utf8(name) =~= base64_prefix());
    assert((base64_prefix() + rest).take(7) =~= base64_prefix());
    assert((base64_prefix() + rest).skip(7) =~= rest);
    if is_base64(content) {
        assert(content =~= content.take(7) + content.skip(7));
    }
}

/// Content that is no base64 is the token itself, and otherwise the token is
/// what the base64 text stands for; either has 1 to 65536 bytes.
pub proof fn law_tokens_are_read(content: Seq<u8>, decoded: Option<Seq<u8>>)
    ensures
        !is_base64(content) ==> {
            &&& token_of(content, decoded) is Ok <==> 1 <= content.len() <= 65536
            &&& token_of(content, decoded) matches Ok(token) ==> token == content
        },
        is_base64(content) ==> {
            &&& token_of(content, decoded) is Ok <==> valid_utf8(content.skip(7)) && decoded is Some && 1
                <= decoded->0.len() <= 65536
            &&& token_of(content, decoded) matches Ok(token) ==> decoded == Some(token)
        },
        is_base64(content) && !valid_utf8(content.skip(7)) ==> token_of(content, decoded) == Err::<Seq<u8>, Seq<char>>(
            "base64 access token file must contain UTF-8 text"@,
        ),
        is_base64(content) && valid_utf8(content.skip(7)) && decoded is None ==> token_of(content, decoded) == Err::<
            Seq<u8>,
            Seq<char>,
        >("access token file contains invalid base64"@),
        !is_base64(content) && content.len() == 0 ==> token_of(content, decoded) == Err::<Seq<u8>, Seq<char>>(
            "decoded access token is empty"@,
        ),
        !is_base64(content) && content.len() > 65536 ==> token_of(content, decoded) == Err::<Seq<u8>, Seq<char>>(
            "decoded access token exceeds the 65536 byte limit"@,
        ),
{
}

} // verus!
