//! Calls into other crates, each behind a contract that states what the
//! library relies on.
use base64::Engine;
use sha3::Digest;
use vstd::prelude::*;

use crate::text::{cat4, cat5, decimal, decimal_size, owned, utf8};

verus! {

/// The incremental SHA3-256 hasher of the `sha3` crate.
#[verifier::external_type_specification]
#[verifier::external_body]
pub struct ExSha3_256(sha3::Sha3_256);

/// The bytes that a hasher has taken in so far.
pub uninterp spec fn absorbed(hasher: sha3::Sha3_256) -> Seq<u8>;

/// The SHA3-256 digest of a byte sequence.
pub uninterp spec fn sha3_256(bytes: Seq<u8>) -> Seq<u8>;

/// `sha3::Digest::new`: a hasher that has taken in nothing.
#[verifier::external_body]
pub(crate) fn hasher_new() -> (r: sha3::Sha3_256)
    ensures
        absorbed(r) == Seq::<u8>::empty(),
{
    sha3::Sha3_256::new()
}

/// `sha3::Digest::update`: takes in more bytes behind those taken in before.
#[verifier::external_body]
pub(crate) fn hasher_update(hasher: &mut sha3::Sha3_256, bytes: &[u8])
    ensures
        absorbed(*final(hasher)) == absorbed(*old(hasher)) + bytes@,
{
    hasher.update(bytes);
}

/// `Clone` of `sha3::Sha3_256`: a hasher that has taken in the same bytes.
#[verifier::external_body]
pub(crate) fn hasher_clone(hasher: &sha3::Sha3_256) -> (r: sha3::Sha3_256)
    ensures
        absorbed(r) == absorbed(*hasher),
{
    hasher.clone()
}

/// `sha3::Digest::finalize`: the digest of all bytes taken in.  It depends on
/// these bytes alone, not on how they were split between updates.
#[verifier::external_body]
pub(crate) fn hasher_finalize(hasher: sha3::Sha3_256) -> (r: [u8; 32])
    ensures
        r@ == sha3_256(absorbed(hasher)),
{
    hasher.finalize().into()
}

/// The SHA3-256 digest of a byte slice.
pub fn digest_of(bytes: &[u8]) -> (r: [u8; 32])
    ensures
        r@ == sha3_256(bytes@),
{
    let mut hasher = hasher_new();
    hasher_update(&mut hasher, bytes);
    assert(Seq::<u8>::empty() + bytes@ =~= bytes@);
    hasher_finalize(hasher)
}

/// The lower-case hexadecimal digit of a value below sixteen.
pub open spec fn hex_digit(value: int) -> char {
    if value < 10 {
        (value + 48) as char
    } else {
        (value + 87) as char
    }
}

/// The hexadecimal notation of a byte sequence: two digits for each byte, the
/// higher one first.
pub open spec fn hex_text(bytes: Seq<u8>) -> Seq<char> {
    Seq::new(
        2 * bytes.len(),
        |i: int|
            if i % 2 == 0 {
                hex_digit(bytes[i / 2] as int / 16)
            } else {
                hex_digit(bytes[i / 2] as int % 16)
            },
    )
}

/// `hex::encode`: the lower-case hexadecimal notation of the bytes.
#[verifier::external_body]
pub(crate) fn hex_encode(bytes: &[u8]) -> (r: String)
    ensures
        r@ == hex_text(bytes@),
{
    hex::encode(bytes)
}

/// The lower-case hexadecimal notation of a byte slice.
pub fn encode_hex(bytes: &[u8]) -> (r: String)
    ensures
        r@ == hex_text(bytes@),
{
    hex_encode(bytes)
}

/// The value of a hexadecimal digit, of either case.
pub open spec fn hex_value(byte: u8) -> Option<int> {
    if 48 <= byte <= 57 {
        Some(byte - 48)
    } else if 97 <= byte <= 102 {
        Some(byte - 87)
    } else if 65 <= byte <= 70 {
        Some(byte - 55)
    } else {
        None
    }
}

/// Whether the bytes are an even number of hexadecimal digits.
pub open spec fn is_hex(text: Seq<u8>) -> bool {
    &&& text.len() % 2 == 0
    &&& forall|i: int| 0 <= i < text.len() ==> hex_value(#[trigger] text[i]) is Some
}

/// The bytes that hexadecimal digits stand for.
pub open spec fn hex_bytes(text: Seq<u8>) -> Seq<u8> {
    Seq::new(
        text.len() / 2,
        |i: int| (16 * hex_value(text[2 * i])->0 + hex_value(text[2 * i + 1])->0) as u8,
    )
}

/// What `hex::decode` finds wrong with a text.
#[derive(Clone, Copy, Debug, PartialEq, Eq, Structural)]
pub enum HexFault {
    InvalidHexCharacter { c: char, index: usize },
    OddLength,
    InvalidStringLength,
}

/// `hex::decode`: the bytes that the digits stand for, where the UTF-8 form
/// of the text is an even number of hexadecimal digits.  Otherwise the error
/// tells that the number is odd, or else which byte is the first that is no
/// digit.
#[verifier::external_body]
pub(crate) fn hex_decode(text: &str) -> (r: Result<Vec<u8>, HexFault>)
    ensures
        match r {
            Ok(bytes) => is_hex(utf8(text@)) && bytes@ == hex_bytes(utf8(text@)),
            Err(HexFault::OddLength) => utf8(text@).len() % 2 != 0,
            Err(HexFault::InvalidHexCharacter { c, index }) => {
                &&& utf8(text@).len() % 2 == 0
                &&& index < utf8(text@).len()
                &&& hex_value(utf8(text@)[index as int]) is None
                &&& c == utf8(text@)[index as int] as char
                &&& forall|i: int| 0 <= i < index ==> hex_value(#[trigger] utf8(text@)[i]) is Some
            },
            Err(HexFault::InvalidStringLength) => false,
        },
{
    hex::decode(text).map_err(
        |err|
            match err {
                hex::FromHexError::InvalidHexCharacter { c, index } => HexFault::InvalidHexCharacter { c, index },
                hex::FromHexError::OddLength => HexFault::OddLength,
                hex::FromHexError::InvalidStringLength => HexFault::InvalidStringLength,
            },
    )
}

/// The place of the first byte that is no hexadecimal digit.
pub open spec fn first_wrong(text: Seq<u8>) -> nat
    decreases text.len(),
{
    if text.len() == 0 || hex_value(text[0]) is None {
        0
    } else {
        1 + first_wrong(text.drop_first())
    }
}

proof fn lemma_first_wrong(text: Seq<u8>, index: nat)
    requires
        index < text.len(),
        hex_value(text[index as int]) is None,
        forall|i: int| 0 <= i < index ==> hex_value(#[trigger] text[i]) is Some,
    ensures
        first_wrong(text) == index,
    decreases text.len(),
{
    if index > 0 {
        assert(hex_value(text[0]) is Some);
        let rest = text.drop_first();
        assert forall|i: int| 0 <= i < index - 1 implies hex_value(#[trigger] rest[i]) is Some by {
            assert(rest[i] == text[i + 1]);
        }
        lemma_first_wrong(rest, (index - 1) as nat);
    }
}

/// The message for a text that is not hexadecimal.
pub open spec fn hex_error(text: Seq<u8>) -> Seq<char> {
    if text.len() % 2 != 0 {
        "Odd number of digits"@
    } else {
        "Invalid character "@ + debug_char(text[first_wrong(text) as int] as char) + " at position "@ + decimal(
            first_wrong(text),
        )
    }
}

/// The debug notation of what is wrong with a text that is not hexadecimal.
pub open spec fn hex_error_debug(text: Seq<u8>) -> Seq<char> {
    if text.len() % 2 != 0 {
        "OddLength"@
    } else {
        "InvalidHexCharacter { c: "@ + debug_char(text[first_wrong(text) as int] as char) + ", index: "@ + decimal(
            first_wrong(text),
        ) + " }"@
    }
}

/// The bytes that hexadecimal digits stand for, or what is wrong, as a message.
pub fn decode_hex(text: &str) -> (r: Result<Vec<u8>, String>)
    ensures
        match r {
            Ok(bytes) => is_hex(utf8(text@)) && bytes@ == hex_bytes(utf8(text@)),
            Err(message) => !is_hex(utf8(text@)) && message@ == hex_error(utf8(text@)),
        },
{
    match hex_decode(text) {
        Ok(bytes) => Ok(bytes),
        Err(HexFault::InvalidHexCharacter { c, index }) => {
            proof {
                lemma_first_wrong(utf8(text@), index as nat);
            }
            Err(
                cat4(
                    "Invalid character ",
                    debug_quoted_char(c).as_str(),
                    " at position ",
                    decimal_size(index).as_str(),
                ),
            )
        },
        Err(_) => Err(owned("Odd number of digits")),
    }
}

/// The bytes that hexadecimal digits stand for, or what is wrong, in debug
/// notation.
pub fn decode_hex_debug(text: &str) -> (r: Result<Vec<u8>, String>)
    ensures
        match r {
            Ok(bytes) => is_hex(utf8(text@)) && bytes@ == hex_bytes(utf8(text@)),
            Err(message) => !is_hex(utf8(text@)) && message@ == hex_error_debug(utf8(text@)),
        },
{
    match hex_decode(text) {
        Ok(bytes) => Ok(bytes),
        Err(HexFault::InvalidHexCharacter { c, index }) => {
            proof {
                lemma_first_wrong(utf8(text@), index as nat);
            }
            Err(
                cat5(
                    "InvalidHexCharacter { c: ",
                    debug_quoted_char(c).as_str(),
                    ", index: ",
                    decimal_size(index).as_str(),
                    " }",
                ),
            )
        },
        Err(_) => Err(owned("OddLength")),
    }
}

/// Reading the hexadecimal notation of bytes gives these bytes back.
pub proof fn law_hex_round_trip(bytes: Seq<u8>)
    ensures
        is_hex(utf8(hex_text(bytes))),
        hex_bytes(utf8(hex_text(bytes))) == bytes,
{
    let text = hex_text(bytes);
    assert forall|i: int| 0 <= i < text.len() implies (#[trigger] text[i] as u32) < 128 by {}
    vstd::utf8::is_ascii_chars_encode_utf8(text);
    let raw = utf8(text);
    assert(raw =~= Seq::new(text.len(), |i: int| text[i] as u8));
    assert forall|i: int| 0 <= i < raw.len() implies hex_value(#[trigger] raw[i]) is Some by {}
    assert forall|i: int| 0 <= i < bytes.len() implies hex_bytes(raw)[i] == bytes[i] by {
        assert((2 * i) / 2 == i && (2 * i + 1) / 2 == i);
        assert(raw[2 * i] == text[2 * i] as u8);
        assert(raw[2 * i + 1] == text[2 * i + 1] as u8);
        assert(hex_value(raw[2 * i]) == Some(bytes[i] as int / 16));
        assert(hex_value(raw[2 * i + 1]) == Some(bytes[i] as int % 16));
    }
    assert(hex_bytes(raw) =~= bytes);
}

/// How a text looks in Rust's debug notation: quoted, with escapes.
pub uninterp spec fn debug_text(text: Seq<char>) -> Seq<char>;

/// The `Debug` form of `str`.
#[verifier::external_body]
pub(crate) fn debug_quoted(text: &str) -> (r: String)
    ensures
        r@ == debug_text(text@),
{
    format!("{:?}", text)
}

/// How a character looks in Rust's debug notation: quoted, with escapes.
pub uninterp spec fn debug_char(c: char) -> Seq<char>;

/// The `Debug` form of `char`.
#[verifier::external_body]
pub(crate) fn debug_quoted_char(c: char) -> (r: String)
    ensures
        r@ == debug_char(c),
{
    format!("{:?}", c)
}

/// The pattern set builder of the `globset` crate.
#[verifier::external_type_specification]
#[verifier::external_body]
pub struct ExGlobSetBuilder(globset::GlobSetBuilder);

/// The pattern set of the `globset` crate.
#[verifier::external_type_specification]
#[verifier::external_body]
pub struct ExGlobSet(globset::GlobSet);

/// The patterns that a builder holds, in the order they were added.
pub uninterp spec fn builder_patterns(builder: globset::GlobSetBuilder) -> Seq<Seq<char>>;

/// The patterns that a set holds.
pub uninterp spec fn set_patterns(set: globset::GlobSet) -> Seq<Seq<char>>;

/// The message of `globset::Glob::new` for a text that is no pattern.
pub uninterp spec fn glob_error(pattern: Seq<char>) -> Option<Seq<char>>;

/// The message of `globset::GlobSetBuilder::build` for patterns that do not
/// compile together.
pub uninterp spec fn glob_set_error(patterns: Seq<Seq<char>>) -> Option<Seq<char>>;

/// Whether a pattern matches a path, on a platform whose only path separator
/// is the slash.
pub uninterp spec fn glob_matches(pattern: Seq<char>, path: Seq<char>) -> bool;

/// Whether one of the patterns matches a path.
pub open spec fn any_glob_matches(patterns: Seq<Seq<char>>, path: Seq<char>) -> bool {
    exists|i: int| 0 <= i < patterns.len() && glob_matches(#[trigger] patterns[i], path)
}

/// `globset::GlobSetBuilder::new`: a builder without patterns.
#[verifier::external_body]
pub(crate) fn glob_builder() -> (r: globset::GlobSetBuilder)
    ensures
        builder_patterns(r) == Seq::<Seq<char>>::empty(),
{
    globset::GlobSetBuilder::new()
}

/// `globset::Glob::new` and `globset::GlobSetBuilder::add`: adds a pattern to
/// those of the builder; a text that is no pattern leaves them as they were
/// and gives the error's message.
#[verifier::external_body]
pub(crate) fn glob_add(builder: &mut globset::GlobSetBuilder, pattern: &str) -> (r: Result<(), String>)
    ensures
        match r {
            Ok(_) => glob_error(pattern@) is None && builder_patterns(*final(builder)) == builder_patterns(
                *old(builder),
            ).push(pattern@),
            Err(message) => glob_error(pattern@) == Some(message@) && builder_patterns(*final(builder))
                == builder_patterns(*old(builder)),
        },
{
    match globset::Glob::new(pattern) {
        Ok(glob) => {
            builder.add(glob);
            Ok(())
        },
        Err(err) => Err(err.to_string()),
    }
}

/// `globset::GlobSetBuilder::build`: the set of the builder's patterns, or the
/// message of the error.  No patterns always make a set.
#[verifier::external_body]
pub(crate) fn glob_build(builder: &globset::GlobSetBuilder) -> (r: Result<globset::GlobSet, String>)
    ensures
        match r {
            Ok(set) => glob_set_error(builder_patterns(*builder)) is None && set_patterns(set) == builder_patterns(
                *builder,
            ),
            Err(message) => glob_set_error(builder_patterns(*builder)) == Some(message@) && builder_patterns(
                *builder,
            ).len() > 0,
        },
{
    builder.build().map_err(|err| err.to_string())
}

/// `globset::GlobSet::is_match`: whether any pattern of the set matches.
#[verifier::external_body]
pub(crate) fn glob_set_matches(set: &globset::GlobSet, path: &str) -> (r: bool)
    ensures
        r == (exists|i: int|
            0 <= i < set_patterns(*set).len() && glob_matches(#[trigger] set_patterns(*set)[i], path@)),
{
    set.is_match(path)
}

/// What `url::Url::parse` and `url::Url::host` make of a text: an error where
/// it is no URL, otherwise the domain that the URL names as its host, if its
/// host is a domain.
pub uninterp spec fn url_host(text: Seq<char>) -> Result<Option<Seq<char>>, ()>;

/// `url::Url::parse` followed by `url::Url::host`: the domain of the URL.  A
/// host that is an address, and a missing host, count as no domain.
#[verifier::external_body]
pub(crate) fn url_domain(text: &str) -> (r: Result<Option<String>, ()>)
    ensures
        url_host(text@) == match r {
            Ok(Some(domain)) => Ok::<Option<Seq<char>>, ()>(Some(domain@)),
            Ok(None) => Ok::<Option<Seq<char>>, ()>(None),
            Err(_) => Err::<Option<Seq<char>>, ()>(()),
        },
{
    match url::Url::parse(text) {
        Ok(url) => match url.host() {
            Some(url::Host::Domain(domain)) => Ok(Some(domain.to_string())),
            _ => Ok(None),
        },
        Err(_) => Err(()),
    }
}

/// `ring::rand::SecureRandom::fill` on the system's source: as many bytes as
/// asked for that the operating system chose, or nothing where it gave none.
#[verifier::external_body]
pub(crate) fn random_bytes(count: usize) -> (r: Option<Vec<u8>>)
    ensures
        r matches Some(bytes) ==> bytes@.len() == count,
{
    let mut bytes = vec![0u8; count];
    match ring::rand::SecureRandom::fill(&ring::rand::SystemRandom::new(), &mut bytes) {
        Ok(()) => Some(bytes),
        Err(_) => None,
    }
}

/// The content type that `mime_db::lookup` knows for the extension of a path.
pub uninterp spec fn known_content_type(path: Seq<char>) -> Option<Seq<char>>;

/// `mime_db::lookup`: the content type for the extension of a path.
#[verifier::external_body]
pub(crate) fn lookup_content_type(path: &str) -> (r: Option<String>)
    ensures
        known_content_type(path@) == match r {
            Some(kind) => Some(kind@),
            None => None::<Seq<char>>,
        },
{
    mime_db::lookup(path).map(|kind| kind.to_string())
}

/// The content type that `infer::get` recognises in the first bytes of a file.
pub uninterp spec fn sniffed_content_type(head: Seq<u8>) -> Option<Seq<char>>;

/// `infer::get` and `infer::Type::mime_type`: the content type that the first
/// bytes of a file show.
#[verifier::external_body]
pub(crate) fn sniff_content_type(head: &[u8]) -> (r: Option<String>)
    ensures
        sniffed_content_type(head@) == match r {
            Some(kind) => Some(kind@),
            None => None::<Seq<char>>,
        },
{
    infer::get(head).map(|kind| kind.mime_type().to_string())
}

/// `String::from_utf8`: the text with the given UTF-8 form, where the bytes
/// are valid UTF-8.
#[verifier::external_body]
pub(crate) fn text_from_utf8(bytes: Vec<u8>) -> (r: Option<String>)
    ensures
        r is Some == vstd::utf8::valid_utf8(bytes@),
        r matches Some(text) ==> utf8(text@) == bytes@,
{
    String::from_utf8(bytes).ok()
}

/// The textual form of a principal with the given bytes.
pub uninterp spec fn principal_text(bytes: Seq<u8>) -> Seq<char>;

/// The bytes of the principal that a text stands for, or the message of the
/// error.
pub uninterp spec fn text_principal(text: Seq<char>) -> Result<Seq<u8>, Seq<char>>;

/// `candid::Principal::from_slice` and `candid::Principal::to_text`: the
/// textual form of a principal.  `candid::Principal::from_text` reads it back.
#[verifier::external_body]
pub(crate) fn principal_to_text(bytes: &[u8]) -> (r: String)
    requires
        bytes@.len() <= 29,
    ensures
        r@ == principal_text(bytes@),
        text_principal(r@) is Ok,
        text_principal(r@)->Ok_0 == bytes@,
{
    candid::Principal::from_slice(bytes).to_text()
}

/// `candid::Principal::from_text`: the bytes of the principal, at most
/// twenty-nine, or the error given as its message.
#[verifier::external_body]
pub(crate) fn principal_from_text(text: &str) -> (r: Result<Vec<u8>, String>)
    ensures
        text_principal(text@) == match r {
            Ok(bytes) => Ok::<Seq<u8>, Seq<char>>(bytes@),
            Err(message) => Err::<Seq<u8>, Seq<char>>(message@),
        },
        r matches Ok(bytes) ==> bytes@.len() <= 29,
{
    match candid::Principal::from_text(text) {
        Ok(principal) => Ok(principal.as_slice().to_vec()),
        Err(err) => Err(err.to_string()),
    }
}

/// The value of a decimal digit.
pub open spec fn digit_value(c: char) -> int {
    c as int - 48
}

/// The value of decimal digits, the highest first.
pub open spec fn digits_value(digits: Seq<char>) -> int
    decreases digits.len(),
{
    if digits.len() == 0 {
        0
    } else {
        10 * digits_value(digits.drop_last()) + digit_value(digits.last())
    }
}

/// Whether a text is made of decimal digits only, at least one.
pub open spec fn are_digits(text: Seq<char>) -> bool {
    text.len() > 0 && forall|i: int| 0 <= i < text.len() ==> '0' <= #[trigger] text[i] <= '9'
}

/// The number that a text stands for: an optional plus sign and then decimal
/// digits only, at least one.
pub open spec fn number_of(text: Seq<char>) -> Option<int> {
    let digits = if text.len() > 0 && text[0] == '+' {
        text.skip(1)
    } else {
        text
    };
    if are_digits(digits) {
        Some(digits_value(digits))
    } else {
        None
    }
}

/// What `u64::from_str` reports of a text that is no number of that type.
pub uninterp spec fn number_error(text: Seq<char>) -> Seq<char>;

/// `str::parse` for `u64`: the number that the text stands for, where there is
/// one and it fits; otherwise the error, given as its message.
#[verifier::external_body]
pub(crate) fn parse_number(text: &str) -> (r: Result<u64, String>)
    ensures
        match r {
            Ok(value) => number_of(text@) == Some(value as int),
            Err(message) => message@ == number_error(text@) && match number_of(text@) {
                Some(value) => value > u64::MAX,
                None => true,
            },
        },
{
    text.parse::<u64>().map_err(|err| err.to_string())
}

/// The bytes that a base64 text in the standard alphabet, with padding, stands
/// for.
pub uninterp spec fn standard_bytes(text: Seq<char>) -> Option<Seq<u8>>;

/// The bytes that a base64 text in the standard alphabet, without padding,
/// stands for.
pub uninterp spec fn standard_no_pad_bytes(text: Seq<char>) -> Option<Seq<u8>>;

/// The bytes that a base64 text in the alphabet for URLs, with padding, stands
/// for.
pub uninterp spec fn url_safe_bytes(text: Seq<char>) -> Option<Seq<u8>>;

/// The bytes that a base64 text in the alphabet for URLs, without padding,
/// stands for.
pub uninterp spec fn url_safe_no_pad_bytes(text: Seq<char>) -> Option<Seq<u8>>;

/// `base64::Engine::decode` of `base64::engine::general_purpose::STANDARD`.
#[verifier::external_body]
pub(crate) fn decode_standard(text: &str) -> (r: Option<Vec<u8>>)
    ensures
        standard_bytes(text@) == match r {
            Some(bytes) => Some(bytes@),
            None => None::<Seq<u8>>,
        },
{
    base64::engine::general_purpose::STANDARD.decode(text).ok()
}

/// `base64::Engine::decode` of `base64::engine::general_purpose::STANDARD_NO_PAD`.
#[verifier::external_body]
pub(crate) fn decode_standard_no_pad(text: &str) -> (r: Option<Vec<u8>>)
    ensures
        standard_no_pad_bytes(text@) == match r {
            Some(bytes) => Some(bytes@),
            None => None::<Seq<u8>>,
        },
{
    base64::engine::general_purpose::STANDARD_NO_PAD.decode(text).ok()
}

/// `base64::Engine::decode` of `base64::engine::general_purpose::URL_SAFE`.
#[verifier::external_body]
pub(crate) fn decode_url_safe(text: &str) -> (r: Option<Vec<u8>>)
    ensures
        url_safe_bytes(text@) == match r {
            Some(bytes) => Some(bytes@),
            None => None::<Seq<u8>>,
        },
{
    base64::engine::general_purpose::URL_SAFE.decode(text).ok()
}

/// `base64::Engine::decode` of `base64::engine::general_purpose::URL_SAFE_NO_PAD`.
#[verifier::external_body]
pub(crate) fn decode_url_safe_no_pad(text: &str) -> (r: Option<Vec<u8>>)
    ensures
        url_safe_no_pad_bytes(text@) == match r {
            Some(bytes) => Some(bytes@),
            None => None::<Seq<u8>>,
        },
{
    base64::engine::general_purpose::URL_SAFE_NO_PAD.decode(text).ok()
}

/// The PEM document with a label and contents.
pub uninterp spec fn pem_text(label: Seq<char>, contents: Seq<u8>) -> Seq<char>;

/// `pem::encode` of `pem::Pem::new`: the PEM document with a label and
/// contents.
#[verifier::external_body]
pub(crate) fn pem_encode(label: &str, contents: &[u8]) -> (r: String)
    ensures
        r@ == pem_text(label@, contents@),
{
    pem::encode(&pem::Pem::new(label, contents))
}

/// Hexadecimal notation has two digits for each byte, the letters small, and a
/// text is read in it only where every byte of it is a digit of either case.
pub proof fn law_hexadecimal_digits(bytes: Seq<u8>, i: int)
    requires
        0 <= i < bytes.len(),
    ensures
        hex_text(bytes).len() == 2 * bytes.len(),
        '0' <= hex_text(bytes)[2 * i] <= '9' || 'a' <= hex_text(bytes)[2 * i] <= 'f',
        '0' <= hex_text(bytes)[2 * i + 1] <= '9' || 'a' <= hex_text(bytes)[2 * i + 1] <= 'f',
        is_hex(bytes) ==> '0' as u8 <= bytes[i] <= '9' as u8 || 'a' as u8 <= bytes[i] <= 'f' as u8 || 'A' as u8
            <= bytes[i] <= 'F' as u8,
{
    assert((2 * i) / 2 == i && (2 * i + 1) / 2 == i);
    if is_hex(bytes) {
        assert(hex_value(bytes[i]) is Some);
    }
}

/// The place of the first wrong byte is the first one that is no digit.
pub proof fn law_the_first_wrong_digit_is_told(text: Seq<u8>, index: nat)
    requires
        index < text.len(),
        hex_value(text[index as int]) is None,
        forall|i: int| 0 <= i < index ==> hex_value(#[trigger] text[i]) is Some,
    ensures
        first_wrong(text) == index,
        text.len() % 2 == 0 ==> hex_error(text) == "Invalid character "@ + debug_char(text[index as int] as char)
            + " at position "@ + decimal(index),
        text.len() % 2 == 0 ==> hex_error_debug(text) == "InvalidHexCharacter { c: "@ + debug_char(
            text[index as int] as char,
        ) + ", index: "@ + decimal(index) + " }"@,
        text.len() % 2 != 0 ==> hex_error(text) == "Odd number of digits"@ && hex_error_debug(text) == "OddLength"@,
{
    lemma_first_wrong(text, index);
}

/// A path is matched by patterns exactly where one of them matches it.
pub proof fn law_patterns_match_one_by_one(patterns: Seq<Seq<char>>, path: Seq<char>)
    ensures
        any_glob_matches(patterns, path) <==> exists|i: int|
            0 <= i < patterns.len() && glob_matches(#[trigger] patterns[i], path),
{
}

} // verus!
