//! Names that are safe to use, and messages that are short enough to send.
use vstd::prelude::*;

use crate::text::{byte_len, cat5, chars_of, owned, same_text, trim, trimmed, utf8};
use crate::transcode::types::MediaVariantSpec;

verus! {

/// Whether a character may stand in a file name that is made of a label.
pub open spec fn is_safe(c: char) -> bool {
    'a' <= c <= 'z' || 'A' <= c <= 'Z' || '0' <= c <= '9' || c == '-' || c == '_'
}

/// The label with an underscore in place of every character that is not safe.
pub open spec fn safe_label(label: Seq<char>) -> Seq<char> {
    if label.len() == 0 {
        "variant"@
    } else {
        Seq::new(label.len(), |i: int| if is_safe(label[i]) { label[i] } else { '_' })
    }
}

/// A file name made of a label.
pub fn sanitize_label(label: &str) -> (r: String)
    ensures
        r@ == safe_label(label@),
{
    let mut safe = String::new();
    let ghost wanted = Seq::new(label@.len(), |i: int| if is_safe(label@[i]) { label@[i] } else { '_' });
    let mut empty = true;
    for c in it: label.chars()
        invariant
            it.seq() == label@,
            wanted == Seq::new(label@.len(), |i: int| if is_safe(label@[i]) { label@[i] } else { '_' }),
            safe@ == wanted.take(it.index() as int),
            empty == (it.index() == 0),
    {
        let ghost before = safe@;
        empty = false;
        if ('a' <= c && c <= 'z') || ('A' <= c && c <= 'Z') || ('0' <= c && c <= '9') || c == '-' || c == '_' {
            safe.push(c);
        } else {
            safe.push('_');
        }
        assert(wanted.take(it.index() + 1) =~= before.push(wanted[it.index() as int]));
    }
    assert(wanted.take(label@.len() as int) =~= wanted);
    if empty {
        owned("variant")
    } else {
        safe
    }
}

/// Whatever the label is, the file name made of it is not empty and cannot
/// leave its directory: it holds no separator and no dot.
pub proof fn law_labels_stay_in_their_directory(label: Seq<char>)
    ensures
        safe_label(label).len() > 0,
        forall|i: int| 0 <= i < safe_label(label).len() ==> is_safe(#[trigger] safe_label(label)[i]),
        !safe_label(label).contains('/'),
        !safe_label(label).contains('.'),
{
    reveal_strlit("variant");
}

/// How many characters at the start of a text fit in a number of bytes.
pub open spec fn fitting(text: Seq<char>, bytes: int) -> int
    decreases text.len(),
{
    if text.len() == 0 || utf8(text.take(1)).len() > bytes {
        0
    } else {
        1 + fitting(text.drop_first(), bytes - utf8(text.take(1)).len())
    }
}

/// What of an error message is sent.
pub open spec fn bounded(error: Seq<char>, maximum_bytes: nat) -> Seq<char> {
    let text = trim(error);
    let kept = text.take(fitting(text, maximum_bytes as int));
    if kept.len() == 0 {
        "transcode worker failed without an error message"@
    } else {
        kept
    }
}

/// The UTF-8 form of a text is that of its first character followed by that of
/// the rest.
proof fn lemma_first_bytes(text: Seq<char>)
    requires
        text.len() > 0,
    ensures
        utf8(text) == utf8(text.take(1)) + utf8(text.drop_first()),
{
    reveal_with_fuel(vstd::utf8::encode_utf8, 3);
    assert(text.take(1).drop_first() =~= Seq::empty());
    assert(utf8(text.take(1)) =~= utf8(text.take(1)) + Seq::empty());
    assert(utf8(text) =~= utf8(text.take(1)) + utf8(text.drop_first()));
}

/// The kept part of a message is the longest start of it that fits: it takes
/// no more bytes than allowed, and with one more character it would.
pub proof fn law_kept_message_is_the_longest_that_fits(text: Seq<char>, bytes: nat)
    ensures
        0 <= fitting(text, bytes as int) <= text.len(),
        utf8(text.take(fitting(text, bytes as int))).len() <= bytes,
        fitting(text, bytes as int) < text.len() ==> utf8(text.take(fitting(text, bytes as int) + 1)).len() > bytes,
    decreases text.len(),
{
    if text.len() == 0 || utf8(text.take(1)).len() > bytes {
        assert(text.take(0) =~= Seq::empty());
        assert(utf8(Seq::<char>::empty()).len() == 0);
    } else {
        let left = (bytes - utf8(text.take(1)).len()) as nat;
        let rest = text.drop_first();
        law_kept_message_is_the_longest_that_fits(rest, left);
        let n = fitting(rest, left as int);
        lemma_first_bytes(text.take(n + 1));
        assert(text.take(n + 1).take(1) =~= text.take(1));
        assert(text.take(n + 1).drop_first() =~= rest.take(n));
        if n + 1 < text.len() {
            lemma_first_bytes(text.take(n + 2));
            assert(text.take(n + 2).take(1) =~= text.take(1));
            assert(text.take(n + 2).drop_first() =~= rest.take(n + 1));
        }
    }
}

/// An error message, cut so that its UTF-8 form has at most the given number
/// of bytes.
pub fn bounded_error(error: &str, maximum_bytes: usize) -> (r: String)
    ensures
        r@ == bounded(error@, maximum_bytes as nat),
{
    let text = chars_of(trimmed(error));
    let mut kept = String::new();
    let mut left: usize = maximum_bytes;
    let mut at: usize = 0;
    let size: usize = text.len();
    assert(text@.skip(0) =~= text@);
    assert(text@.take(0) =~= Seq::empty());
    let mut fits = true;
    while fits && at < size
        invariant
            at <= size == text@.len(),
            kept@ == text@.take(at as int),
            fitting(text@, maximum_bytes as int) == at + if fits {
                fitting(text@.skip(at as int), left as int)
            } else {
                0
            },
        decreases (if fits { 1int } else { 0int }) + size - at,
    {
        let c = text[at];
        let mut one = String::new();
        one.push(c);
        let n: usize = byte_len(one.as_str());
        assert(one@ =~= text@.skip(at as int).take(1));
        assert(text@.skip(at as int).drop_first() =~= text@.skip(at + 1));
        if n > left {
            fits = false;
        } else {
            left = left - n;
            kept.push(c);
            assert(text@.take(at + 1) =~= text@.take(at as int).push(c));
            at = at + 1;
        }
    }
    if at == 0 {
        owned("transcode worker failed without an error message")
    } else {
        kept
    }
}

/// The file name extension of a content type, if outputs of it are made.
pub open spec fn extension(content_type: Seq<char>) -> Option<Seq<char>> {
    if content_type == "video/mp4"@ {
        Some("mp4"@)
    } else if content_type == "image/webp"@ {
        Some("webp"@)
    } else if content_type == "image/jpeg"@ {
        Some("jpg"@)
    } else if content_type == "image/png"@ {
        Some("png"@)
    } else {
        None
    }
}

/// The message for a content type that no outputs are made of.
pub open spec fn extension_error(label: Seq<char>, content_type: Seq<char>) -> Seq<char> {
    "variant "@ + label + " content type "@ + content_type + " is unsupported"@
}

/// The file name extension for a variant.
pub fn output_extension(spec: &MediaVariantSpec) -> (r: Result<&'static str, String>)
    ensures
        match r {
            Ok(ext) => extension(spec.content_type@) == Some(ext@),
            Err(message) => extension(spec.content_type@) is None && message@ == extension_error(
                spec.label@,
                spec.content_type@,
            ),
        },
{
    let kind = spec.content_type.as_str();
    if same_text(kind, "video/mp4") {
        Ok("mp4")
    } else if same_text(kind, "image/webp") {
        Ok("webp")
    } else if same_text(kind, "image/jpeg") {
        Ok("jpg")
    } else if same_text(kind, "image/png") {
        Ok("png")
    } else {
        Err(cat5("variant ", spec.label.as_str(), " content type ", kind, " is unsupported"))
    }
}

/// A file name keeps every letter, digit, hyphen and underscore of its label at
/// its place, and replaces everything else one by one.
pub proof fn law_labels_stay_readable(label: Seq<char>, i: int)
    requires
        0 <= i < label.len(),
    ensures
        safe_label(label).len() == label.len(),
        'a' <= label[i] <= 'z' || 'A' <= label[i] <= 'Z' || '0' <= label[i] <= '9' || label[i] == '-' || label[i] == '_'
            ==> safe_label(label)[i] == label[i],
        !('a' <= label[i] <= 'z' || 'A' <= label[i] <= 'Z' || '0' <= label[i] <= '9' || label[i] == '-' || label[i]
            == '_') ==> safe_label(label)[i] == '_',
{
}

/// What is sent of an error message is a start of it without the white space at
/// its ends, the whole of it where that fits, and never more than allowed; an
/// empty message is replaced.
pub proof fn law_messages_are_cut_and_never_empty(error: Seq<char>, bytes: nat)
    ensures
        bounded(error, bytes).len() > 0,
        utf8(trim(error)).len() <= bytes && trim(error).len() > 0 ==> bounded(error, bytes) == trim(error),
        bounded(error, bytes) == "transcode worker failed without an error message"@ || (utf8(bounded(error, bytes)).len()
            <= bytes && bounded(error, bytes) == trim(error).take(bounded(error, bytes).len() as int)),
{
    reveal_strlit("transcode worker failed without an error message");
    let text = trim(error);
    law_kept_message_is_the_longest_that_fits(text, bytes);
    let n = fitting(text, bytes as int);
    assert(text.take(text.len() as int) =~= text);
    if utf8(text).len() <= bytes && n < text.len() {
        lemma_start_is_shorter(text, n + 1);
    }
}

proof fn lemma_start_is_shorter(text: Seq<char>, n: int)
    requires
        0 <= n <= text.len(),
    ensures
        utf8(text.take(n)).len() <= utf8(text).len(),
    decreases text.len(),
{
    if n > 0 {
        lemma_first_bytes(text);
        lemma_first_bytes(text.take(n));
        assert(text.take(n).take(1) =~= text.take(1));
        assert(text.take(n).drop_first() =~= text.drop_first().take(n - 1));
        lemma_start_is_shorter(text.drop_first(), n - 1);
    } else {
        assert(text.take(0) =~= Seq::empty());
    }
}

/// Every content type that outputs are made of has its own usual extension.
pub proof fn law_outputs_have_the_usual_extensions(content_type: Seq<char>)
    ensures
        extension("video/mp4"@) == Some("mp4"@),
        extension("image/webp"@) == Some("webp"@),
        extension("image/jpeg"@) == Some("jpg"@),
        extension("image/png"@) == Some("png"@),
        extension(content_type) is Some ==> content_type == "video/mp4"@ || content_type == "image/webp"@ || content_type
            == "image/jpeg"@ || content_type == "image/png"@,
{
    reveal_strlit("video/mp4");
    reveal_strlit("image/webp");
    reveal_strlit("image/jpeg");
    reveal_strlit("image/png");
    assert("video/mp4"@[0] == 'v' && "image/webp"@[6] == 'w' && "image/jpeg"@[6] == 'j' && "image/png"@[6] == 'p');
    assert("image/webp"@[0] == 'i' && "image/jpeg"@[0] == 'i' && "image/png"@[0] == 'i');
}

/// The replacement for an empty message fits wherever a message is sent.
pub proof fn lemma_replacement_is_short()
    ensures
        utf8("transcode worker failed without an error message"@).len() <= 192,
{
    reveal_strlit("transcode worker failed without an error message");
    lemma_bytes_of_chars("transcode worker failed without an error message"@);
}

proof fn lemma_bytes_of_chars(text: Seq<char>)
    ensures
        utf8(text).len() <= 4 * text.len(),
    decreases text.len(),
{
    if text.len() > 0 {
        lemma_first_bytes(text);
        lemma_bytes_of_chars(text.drop_first());
    }
}

} // verus!
