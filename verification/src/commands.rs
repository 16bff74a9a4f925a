//! What the commands decide between their calls.
use vstd::prelude::*;

use crate::entry::{EntryKind, MigrationState};
use crate::file::FileInfo;
use crate::gc::CollectGarbageOutput;
use crate::outside::{
    decode_hex, decode_hex_debug, hex_bytes, hex_encode, hex_error, hex_error_debug, hex_text, is_hex, pem_encode,
    pem_text, principal_text,
};
use crate::principal::Principal;
use crate::storage::MigrateDirectoryStorageOutput;
use crate::sync::local::digest_of_bytes;
use crate::sync::planner::Plan;
use crate::sync::pull::PullPlan;
use crate::text::{
    cat2, cat3, cat4, decimal, decimal_text, owned, same_bytes, same_text, starts_with, utf8, without_prefix,
};

verus! {

/// The host to connect to: that of the public network where it is asked for.
pub fn select_host<'a>(ic: bool, global_ic: bool, host: &'a str) -> (r: &'a str)
    ensures
        r@ == if ic || global_ic { "https://icp-api.io"@ } else { host@ },
{
    if ic || global_ic {
        "https://icp-api.io"
    } else {
        host
    }
}

/// The private key of a new identity, as a PEM document.
pub fn identity_document(key: &[u8]) -> (r: String)
    ensures
        r@ == pem_text("PRIVATE KEY"@, key@),
{
    pem_encode("PRIVATE KEY", key)
}

/// The file that a new identity goes to: the one asked for, else one that is
/// named after its principal.
pub fn identity_file(path: Option<&str>, principal: &Principal) -> (r: String)
    ensures
        r@ == match path {
            Some(path) => path@,
            None => principal_text(principal@) + ".pem"@,
        },
{
    match path {
        Some(path) => owned(path),
        None => cat2(principal.to_text().as_str(), ".pem"),
    }
}

/// Checks that a new identity takes the place of nothing.
pub fn check_identity_file(exists: bool, shown: &str) -> (r: Result<(), String>)
    ensures
        match r {
            Ok(_) => !exists,
            Err(message) => exists && message@ == "file already exists: "@ + shown@,
        },
{
    if exists {
        return Err(cat2("file already exists: ", shown));
    }
    Ok(())
}

/// Checks that the digest asked for is the one that is computed.
pub fn check_digest(digest: &str) -> (r: Result<(), String>)
    ensures
        match r {
            Ok(_) => digest@ == "SHA3-256"@,
            Err(message) => digest@ != "SHA3-256"@ && message@ == "unsupported digest algorithm"@,
        },
{
    if !same_text(digest, "SHA3-256") {
        return Err(owned("unsupported digest algorithm"));
    }
    Ok(())
}

/// The kind of entry that a number on the command line stands for.
pub fn parse_kind(kind: u8) -> (r: Result<EntryKind, String>)
    ensures
        match r {
            Ok(EntryKind::File) => kind == 0,
            Ok(EntryKind::Folder) => kind == 1,
            Err(message) => kind > 1 && message@ == "invalid kind"@,
        },
{
    match kind {
        0 => Ok(EntryKind::File),
        1 => Ok(EntryKind::Folder),
        _ => Err(owned("invalid kind")),
    }
}

/// The request identifier that hexadecimal digits stand for.
pub fn parse_request_id(value: &str) -> (r: Result<Vec<u8>, String>)
    ensures
        match r {
            Ok(id) => is_hex(utf8(value@)) && id@ == hex_bytes(utf8(value@)) && 1 <= id@.len() <= 64,
            Err(message) => if !is_hex(utf8(value@)) {
                message@ == "invalid request ID hex: "@ + hex_error(utf8(value@))
            } else {
                !(1 <= hex_bytes(utf8(value@)).len() <= 64) && message@ == "request ID must contain 1 to 64 bytes"@
            },
        },
{
    let bytes = match decode_hex(value) {
        Ok(bytes) => bytes,
        Err(message) => return Err(cat2("invalid request ID hex: ", message.as_str())),
    };
    if bytes.len() == 0 || bytes.len() > 64 {
        return Err(owned("request ID must contain 1 to 64 bytes"));
    }
    Ok(bytes)
}

/// A text without its backslashes.
pub open spec fn without_backslashes(text: Seq<char>) -> Seq<char>
    decreases text.len(),
{
    if text.len() == 0 {
        text
    } else if text.last() == '\\' {
        without_backslashes(text.drop_last())
    } else {
        without_backslashes(text.drop_last()).push(text.last())
    }
}

fn remove_backslashes(text: &str) -> (r: String)
    ensures
        r@ == without_backslashes(text@),
{
    let mut r = String::new();
    for c in it: text.chars()
        invariant
            it.seq() == text@,
            r@ == without_backslashes(text@.take(it.index() as int)),
    {
        assert(text@.take(it.index() + 1).drop_last() =~= text@.take(it.index() as int));
        if c != '\\' {
            r.push(c);
        }
    }
    assert(text@.take(text@.len() as int) =~= text@);
    r
}

/// The digits of a file hash on the command line.
pub open spec fn hash_digits(text: Seq<char>) -> Seq<char> {
    let plain = without_backslashes(text);
    if starts_with(plain, "0x"@) {
        plain.skip("0x"@.len() as int)
    } else {
        plain
    }
}

/// Bytes in debug notation, separated by commas.
pub open spec fn listed_bytes(bytes: Seq<u8>) -> Seq<char>
    decreases bytes.len(),
{
    if bytes.len() == 0 {
        Seq::empty()
    } else if bytes.len() == 1 {
        decimal(bytes[0] as nat)
    } else {
        listed_bytes(bytes.drop_last()) + ", "@ + decimal(bytes.last() as nat)
    }
}

/// Bytes in debug notation.
pub open spec fn bytes_debug(bytes: Seq<u8>) -> Seq<char> {
    "["@ + listed_bytes(bytes) + "]"@
}

fn bytes_debug_text(bytes: &Vec<u8>) -> (r: String)
    ensures
        r@ == bytes_debug(bytes@),
{
    let mut list = String::new();
    for i in 0..bytes.len()
        invariant
            list@ == listed_bytes(bytes@.take(i as int)),
    {
        let ghost next = bytes@.take(i + 1);
        assert(next.drop_last() =~= bytes@.take(i as int));
        if i > 0 {
            list.append(", ");
        }
        list.append(decimal_text(bytes[i] as u64).as_str());
        assert(list@ =~= listed_bytes(next));
    }
    assert(bytes@.take(bytes@.len() as int) =~= bytes@);
    cat3("[", list.as_str(), "]")
}

/// The file hash that a text on the command line stands for: hexadecimal
/// digits, which may follow `0x`; backslashes do not count.
pub fn parse_file_hash(text: &str) -> (r: Result<[u8; 32], String>)
    ensures
        ({
            let digits = utf8(hash_digits(text@));
            match r {
                Ok(hash) => is_hex(digits) && hash@ == hex_bytes(digits) && hex_bytes(digits).len() == 32,
                Err(message) => if !is_hex(digits) {
                    message@ == hex_error_debug(digits)
                } else {
                    hex_bytes(digits).len() != 32 && message@ == bytes_debug(hex_bytes(digits))
                },
            }
        }),
{
    let plain = remove_backslashes(text);
    let digits = match without_prefix(plain.as_str(), "0x") {
        Some(rest) => rest,
        None => plain.as_str(),
    };
    let bytes = match decode_hex_debug(digits) {
        Ok(bytes) => bytes,
        Err(message) => return Err(message),
    };
    match digest_of_bytes(bytes.as_slice()) {
        Some(hash) => Ok(hash),
        None => Err(bytes_debug_text(&bytes)),
    }
}

/// Which file is asked for.
#[derive(Clone, Copy, Debug)]
pub enum FileSelector {
    ByHash([u8; 32]),
    ById(u32),
}

/// Finds out which file is asked for: the one with the given hash, where there
/// is one, else the one with the given identifier.
pub fn select_file(hash: Option<&str>, id: Option<u32>) -> (r: Result<FileSelector, String>)
    ensures
        match hash {
            Some(text) => {
                let digits = utf8(hash_digits(text@));
                if is_hex(digits) && hex_bytes(digits).len() == 32 {
                    r matches Ok(FileSelector::ByHash(found)) && found@ == hex_bytes(digits)
                } else {
                    r matches Err(message) && message@ == if is_hex(digits) {
                        bytes_debug(hex_bytes(digits))
                    } else {
                        hex_error_debug(digits)
                    }
                }
            },
            None => match id {
                Some(id) => r matches Ok(FileSelector::ById(found)) && found == id,
                None => r matches Err(message) && message@ == "missing file id or hash"@,
            },
        },
{
    match hash {
        Some(text) => match parse_file_hash(text) {
            Ok(hash) => Ok(FileSelector::ByHash(hash)),
            Err(message) => Err(message),
        },
        None => match id {
            Some(id) => Ok(FileSelector::ById(id)),
            None => Err(owned("missing file id or hash")),
        },
    }
}

/// Checks that a file is complete.
pub fn check_filled(info: &FileInfo) -> (r: Result<(), String>)
    ensures
        match r {
            Ok(_) => info.size == info.filled,
            Err(message) => info.size != info.filled && message@ == "file not fully uploaded"@,
        },
{
    if info.size != info.filled {
        return Err(owned("file not fully uploaded"));
    }
    Ok(())
}

/// Checks the digest of a download against the one that the bucket knows.
pub fn check_file_hash(expected: Option<[u8; 32]>, found: &[u8; 32]) -> (r: Result<(), String>)
    ensures
        match r {
            Ok(_) => expected matches Some(hash) ==> hash@ == found@,
            Err(message) => expected matches Some(hash) && hash@ != found@ && message@
                == "file hash mismatch, expected "@ + hex_text(hash@) + ", got "@ + hex_text(found@),
        },
{
    match expected {
        Some(hash) => {
            if !same_bytes(hash.as_slice(), found.as_slice()) {
                return Err(
                    cat4(
                        "file hash mismatch, expected ",
                        hex_encode(hash.as_slice()).as_str(),
                        ", got ",
                        hex_encode(found.as_slice()).as_str(),
                    ),
                );
            }
            Ok(())
        },
        None => Ok(()),
    }
}

/// Checks that a synchronisation plan has no conflicts.
pub fn check_sync_plan(plan: &Plan) -> (r: Result<(), String>)
    ensures
        match r {
            Ok(_) => plan.conflicts == 0,
            Err(message) => plan.conflicts > 0 && message@ == "sync plan contains conflicts"@,
        },
{
    if plan.has_conflicts() {
        return Err(owned("sync plan contains conflicts"));
    }
    Ok(())
}

/// Checks that a download plan has no conflicts.
pub fn check_pull_plan(plan: &PullPlan) -> (r: Result<(), String>)
    ensures
        match r {
            Ok(_) => plan.conflicts == 0,
            Err(message) => plan.conflicts > 0 && message@ == "download sync plan contains conflicts"@,
        },
{
    if plan.has_conflicts() {
        return Err(owned("download sync plan contains conflicts"));
    }
    Ok(())
}

/// Decides whether another round of garbage collection follows.  A round that
/// did nothing while something remains ends the collection with an error.
pub fn collect_again(output: &CollectGarbageOutput, until_clean: bool) -> (r: Result<bool, String>)
    ensures
        ({
            let clean = output.remaining_items == 0 && output.remaining_chunks == 0;
            match r {
                Ok(again) => {
                    &&& again == (until_clean && !clean)
                    &&& again ==> output.processed_chunks > 0
                },
                Err(message) => {
                    &&& until_clean && !clean && output.processed_chunks == 0
                    &&& message@ == "garbage collection made no progress while backlog remains"@
                },
            }
        }),
{
    let clean = output.remaining_items == 0 && output.remaining_chunks == 0;
    if clean || !until_clean {
        return Ok(false);
    }
    if output.processed_chunks == 0 {
        return Err(owned("garbage collection made no progress while backlog remains"));
    }
    Ok(true)
}

/// The authority that a bucket is to go by for its readers: none where it is
/// cleared, and otherwise the one that is given.
pub fn reader_authority(clear: bool, authority: Option<&str>) -> (r: Result<Option<&str>, String>)
    ensures
        if clear {
            r matches Ok(None)
        } else {
            match authority {
                Some(text) => r matches Ok(Some(chosen)) && chosen@ == text@,
                None => r matches Err(message) && message@ == "--authority is required unless --clear is used"@,
            }
        },
{
    if clear {
        return Ok(None);
    }
    match authority {
        Some(text) => Ok(Some(text)),
        None => Err(owned("--authority is required unless --clear is used")),
    }
}

/// How many rounds of a migration may do nothing, one after the other.
pub const MAX_IDLE_ROUNDS: u8 = 4;

/// The rounds of a directory migration.
#[derive(Clone, Copy, Debug)]
pub struct MigrationRounds {
    pub idle: u8,
}

impl MigrationRounds {
    /// Before the first round.
    pub fn new() -> (r: MigrationRounds)
        ensures
            r.idle == 0,
    {
        MigrationRounds { idle: 0 }
    }

    /// Takes in what a round did and decides whether another one follows.
    pub fn again(&mut self, output: &MigrateDirectoryStorageOutput, until_complete: bool) -> (r: Result<bool, String>)
        requires
            old(self).idle < MAX_IDLE_ROUNDS,
        ensures
            match output.state {
                MigrationState::Ready => r == Ok::<bool, String>(false) && final(self).idle == old(self).idle,
                MigrationState::Failed => {
                    &&& final(self).idle == old(self).idle
                    &&& r matches Err(message)
                    &&& message@ == "directory migration failed: "@ + (match output.error {
                        Some(error) => error@,
                        None => "unknown error"@,
                    })
                        + "; inspect bucket-health, repair the reported data, then run bucket-retry-directory-migration"@
                },
                _ => if !until_complete {
                    r == Ok::<bool, String>(false) && final(self).idle == old(self).idle
                } else if output.processed > 0 {
                    r == Ok::<bool, String>(true) && final(self).idle == 0
                } else if old(self).idle + 1 < MAX_IDLE_ROUNDS {
                    r == Ok::<bool, String>(true) && final(self).idle == old(self).idle + 1
                } else {
                    &&& r matches Err(message)
                    &&& message@ == "directory migration made no progress after four calls"@
                    &&& final(self).idle == MAX_IDLE_ROUNDS
                },
            },
            r == Ok::<bool, String>(true) ==> final(self).idle < MAX_IDLE_ROUNDS,
    {
        match output.state {
            MigrationState::Ready => Ok(false),
            MigrationState::Failed => {
                let error = match &output.error {
                    Some(error) => error.as_str(),
                    None => "unknown error",
                };
                Err(
                    cat3(
                        "directory migration failed: ",
                        error,
                        "; inspect bucket-health, repair the reported data, then run bucket-retry-directory-migration",
                    ),
                )
            },
            _ => {
                if !until_complete {
                    return Ok(false);
                }
                if output.processed == 0 {
                    self.idle = self.idle + 1;
                    if self.idle >= MAX_IDLE_ROUNDS {
                        return Err(owned("directory migration made no progress after four calls"));
                    }
                } else {
                    self.idle = 0;
                }
                Ok(true)
            },
        }
    }
}

/// Taking the backslashes out of a text takes out each one and nothing else.
pub proof fn law_only_backslashes_are_taken_out(a: Seq<char>, b: Seq<char>, c: char)
    ensures
        without_backslashes(a + b) == without_backslashes(a) + without_backslashes(b),
        without_backslashes(seq!['\\']) == Seq::<char>::empty(),
        c != '\\' ==> without_backslashes(seq![c]) == seq![c],
    decreases b.len(),
{
    assert(seq!['\\'].drop_last() =~= Seq::empty());
    assert(seq![c].drop_last() =~= Seq::empty());
    assert(without_backslashes(Seq::<char>::empty()) =~= Seq::<char>::empty());
    assert(without_backslashes(seq!['\\']) =~= Seq::<char>::empty());
    if c != '\\' {
        assert(without_backslashes(seq![c]) =~= seq![c]);
    }
    if b.len() == 0 {
        assert(a + b =~= a);
        assert(b =~= Seq::empty());
        assert(without_backslashes(a) + without_backslashes(b) =~= without_backslashes(a));
    } else {
        assert((a + b).drop_last() =~= a + b.drop_last());
        law_only_backslashes_are_taken_out(a, b.drop_last(), c);
        assert(without_backslashes(a + b) =~= without_backslashes(a) + without_backslashes(b));
    }
}

proof fn lemma_plain_stays(text: Seq<char>)
    requires
        !text.contains('\\'),
    ensures
        without_backslashes(text) == text,
    decreases text.len(),
{
    if text.len() > 0 {
        let rest = text.drop_last();
        if rest.contains('\\') {
            let at = rest.index_of('\\');
            assert(text[at] == '\\');
        }
        lemma_plain_stays(rest);
        assert(text[text.len() - 1] == text.last());
        assert(rest.push(text.last()) =~= text);
    }
}

/// The digits of a hash are the text itself, or what follows `0x`.
pub proof fn law_hashes_may_follow_a_prefix(digits: Seq<char>)
    requires
        !digits.contains('\\'),
    ensures
        hash_digits(seq!['0', 'x'] + digits) == digits,
        !starts_with(digits, seq!['0', 'x']) ==> hash_digits(digits) == digits,
{
    reveal_strlit("0x");
    assert("0x"@ =~= seq!['0', 'x']);
    lemma_plain_stays(digits);
    let text = seq!['0', 'x'] + digits;
    if text.contains('\\') {
        let at = text.index_of('\\');
        assert(at >= 2);
        assert(digits[at - 2] == '\\');
    }
    lemma_plain_stays(text);
    assert(text.take(2) =~= seq!['0', 'x']);
    assert(text.skip(2) =~= digits);
}

/// Bytes are shown in brackets, one behind the other, with a comma and a space
/// between two of them.
pub proof fn law_bytes_are_shown_in_order(first: u8, rest: Seq<u8>)
    ensures
        bytes_debug(Seq::empty()) == "["@ + "]"@,
        listed_bytes(seq![first]) == decimal(first as nat),
        rest.len() > 0 ==> listed_bytes(seq![first] + rest) == decimal(first as nat) + ", "@ + listed_bytes(rest),
        bytes_debug(rest) == "["@ + listed_bytes(rest) + "]"@,
    decreases rest.len(),
{
    assert("["@ + Seq::<char>::empty() =~= "["@);
    assert(listed_bytes(seq![first]) == decimal(first as nat));
    if rest.len() == 1 {
        let all = seq![first] + rest;
        assert(all.drop_last() =~= seq![first]);
        assert(all.last() == rest[0]);
        assert(listed_bytes(all) == listed_bytes(all.drop_last()) + ", "@ + decimal(all.last() as nat));
    } else if rest.len() > 1 {
        let all = seq![first] + rest;
        assert(all.drop_last() =~= seq![first] + rest.drop_last());
        law_bytes_are_shown_in_order(first, rest.drop_last());
        assert(listed_bytes(all) =~= decimal(first as nat) + ", "@ + listed_bytes(rest));
    }
}

/// A migration ends after four rounds in a row that did nothing.
pub proof fn law_migrations_end_after_four_idle_rounds()
    ensures
        MAX_IDLE_ROUNDS == 4,
{
}

} // verus!
