//! The journal of a transcode worker.
use vstd::prelude::*;

use crate::ordered::PathMap;
use crate::outside::{digit_value, digits_value, principal_text};
use crate::text::{cat2, cat3, cat5, chars_of, decimal, decimal_size, digit_char, owned, owned_option, same_text, text_option};
use crate::transcode::labels::{extension, extension_error, output_extension, safe_label, sanitize_label};
use crate::transcode::types::{CleanupOptions, MediaVariant, WorkerOptions};

verus! {

/// The version of the journals that are written.
pub const JOURNAL_SCHEMA_VERSION: u16 = 2;

/// The version of older journals that are still read.
pub const PREVIOUS_JOURNAL_SCHEMA_VERSION: u16 = 1;

/// A deletion that is about to be asked for.
#[derive(Clone, Debug, PartialEq, Eq)]
pub struct CleanupIntent {
    pub request_id_hex: String,
    pub parent: u32,
    pub revision: u64,
    pub expected_hash_hex: String,
}

/// What the journal holds of one variant.
#[derive(Clone, Debug, PartialEq, Eq)]
pub struct VariantJournal {
    pub output_path: String,
    pub file_id: Option<u32>,
    pub content_hash_hex: Option<String>,
    pub size: Option<u64>,
    pub cleanup: Option<CleanupIntent>,
}

/// What a worker has done for a job so far.
#[derive(Debug)]
pub struct WorkerJournal {
    pub schema_version: u16,
    pub hub: String,
    pub bucket: String,
    pub job_id: u64,
    pub source_hash_hex: String,
    pub variants: PathMap<VariantJournal>,
}

/// A deletion, in terms of texts.
#[verifier::ext_equal]
pub struct IntentModel {
    pub request_id_hex: Seq<char>,
    pub parent: u32,
    pub revision: u64,
    pub expected_hash_hex: Seq<char>,
}

/// What is known of one output, in terms of texts.
#[verifier::ext_equal]
pub struct OutputRecord {
    pub output_path: Seq<char>,
    pub file_id: Option<u32>,
    pub content_hash_hex: Option<Seq<char>>,
    pub size: Option<u64>,
    pub cleanup: Option<IntentModel>,
}

impl View for CleanupIntent {
    type V = IntentModel;

    open spec fn view(&self) -> IntentModel {
        IntentModel {
            request_id_hex: self.request_id_hex@,
            parent: self.parent,
            revision: self.revision,
            expected_hash_hex: self.expected_hash_hex@,
        }
    }
}

impl View for VariantJournal {
    type V = OutputRecord;

    open spec fn view(&self) -> OutputRecord {
        OutputRecord {
            output_path: self.output_path@,
            file_id: self.file_id,
            content_hash_hex: text_option(self.content_hash_hex),
            size: self.size,
            cleanup: match self.cleanup {
                Some(intent) => Some(intent@),
                None => None,
            },
        }
    }
}

impl VariantJournal {
    /// A copy.
    pub fn duplicate(&self) -> (r: VariantJournal)
        ensures
            r@ == self@,
    {
        VariantJournal {
            output_path: owned(self.output_path.as_str()),
            file_id: self.file_id,
            content_hash_hex: owned_option(&self.content_hash_hex),
            size: self.size,
            cleanup: match &self.cleanup {
                Some(intent) => Some(
                    CleanupIntent {
                        request_id_hex: owned(intent.request_id_hex.as_str()),
                        parent: intent.parent,
                        revision: intent.revision,
                        expected_hash_hex: owned(intent.expected_hash_hex.as_str()),
                    },
                ),
                None => None,
            },
        }
    }
}

impl WorkerJournal {
    /// What the journal holds of the outputs, by label.
    pub open spec fn records(&self) -> Map<Seq<char>, OutputRecord> {
        self.variants@.map_values(|record: VariantJournal| record@)
    }

    /// The journal is about the same work as another one.
    pub open spec fn same_work(&self, other: &WorkerJournal) -> bool {
        &&& self.hub@ == other.hub@
        &&& self.bucket@ == other.bucket@
        &&& self.job_id == other.job_id
        &&& self.source_hash_hex@ == other.source_hash_hex@
        &&& self.schema_version == other.schema_version
    }

    /// Replaces what the journal holds of one output.
    pub fn set_record(&mut self, label: &str, record: VariantJournal)
        ensures
            final(self).same_work(old(self)),
            final(self).records() == old(self).records().insert(label@, record@),
            old(self).variants@.contains_key(label@) ==> final(self).variants.keys() == old(self).variants.keys(),
    {
        let ghost before = self.records();
        self.variants.insert(owned(label), record);
        assert(self.records() =~= before.insert(label@, record@));
    }

    /// What the journal holds of one output.
    pub fn record(&self, label: &str) -> (r: Option<&VariantJournal>)
        ensures
            r is Some == self.records().contains_key(label@),
            r matches Some(record) ==> record@ == self.records()[label@],
    {
        self.variants.get(label)
    }
}

/// Whether a journal of the given version can be read.
pub fn supported_journal_schema(schema_version: u16) -> (r: bool)
    ensures
        r == (schema_version == PREVIOUS_JOURNAL_SCHEMA_VERSION || schema_version == JOURNAL_SCHEMA_VERSION),
{
    schema_version == PREVIOUS_JOURNAL_SCHEMA_VERSION || schema_version == JOURNAL_SCHEMA_VERSION
}

/// A name in a directory, on a platform whose only path separator is the
/// slash.
pub open spec fn in_directory(dir: Seq<char>, name: Seq<char>) -> Seq<char> {
    if dir.len() == 0 || dir.last() == '/' {
        dir + name
    } else {
        dir + "/"@ + name
    }
}

fn join_name(dir: &str, name: &str) -> (r: String)
    ensures
        r@ == in_directory(dir@, name@),
{
    let chars = chars_of(dir);
    if chars.len() == 0 || chars[chars.len() - 1] == '/' {
        cat2(dir, name)
    } else {
        cat3(dir, "/", name)
    }
}

/// A number with at least two digits.
pub open spec fn two_digits(value: nat) -> Seq<char> {
    if value < 10 {
        "0"@ + decimal(value)
    } else {
        decimal(value)
    }
}

/// The file name of the output for the variant at a place in the job.
pub open spec fn output_name(index: nat, label: Seq<char>, content_type: Seq<char>) -> Seq<char> {
    two_digits(index) + "-"@ + safe_label(label) + "."@ + extension(content_type)->0
}

/// The message for the first variant that no output can be made of.
pub open spec fn variants_fault(variants: Seq<MediaVariant>) -> Option<Seq<char>>
    decreases variants.len(),
{
    if variants.len() == 0 {
        None
    } else if variants_fault(variants.drop_last()) is Some {
        variants_fault(variants.drop_last())
    } else if extension(variants.last().spec.content_type@) is None {
        Some(extension_error(variants.last().spec.label@, variants.last().spec.content_type@))
    } else {
        None
    }
}

/// What a new journal holds of an output.
pub open spec fn fresh_record(path: Seq<char>) -> OutputRecord {
    OutputRecord { output_path: path, file_id: None, content_hash_hex: None, size: None, cleanup: None }
}

/// What a new journal holds of the outputs of a job.
pub open spec fn fresh_records(work_dir: Seq<char>, variants: Seq<MediaVariant>) -> Map<Seq<char>, OutputRecord>
    decreases variants.len(),
{
    if variants.len() == 0 {
        Map::empty()
    } else {
        let spec = variants.last().spec;
        fresh_records(work_dir, variants.drop_last()).insert(
            spec.label@,
            fresh_record(
                in_directory(
                    work_dir,
                    output_name((variants.len() - 1) as nat, spec.label@, spec.content_type@),
                ),
            ),
        )
    }
}

proof fn lemma_fault_stays(variants: Seq<MediaVariant>, n: int)
    requires
        0 <= n <= variants.len(),
        variants_fault(variants.take(n)) is Some,
    ensures
        variants_fault(variants) == variants_fault(variants.take(n)),
    decreases variants.len(),
{
    if n == variants.len() {
        assert(variants.take(n) =~= variants);
    } else {
        assert(variants.drop_last().take(n) =~= variants.take(n));
        lemma_fault_stays(variants.drop_last(), n);
    }
}

/// Whether a journal belongs to a worker's work.
pub open spec fn belongs_to_worker(
    journal: &WorkerJournal,
    options: &WorkerOptions,
    source_hash_hex: Seq<char>,
) -> bool {
    &&& journal.schema_version == PREVIOUS_JOURNAL_SCHEMA_VERSION || journal.schema_version == JOURNAL_SCHEMA_VERSION
    &&& journal.hub@ == principal_text(options.hub@)
    &&& journal.bucket@ == principal_text(options.bucket@)
    &&& journal.job_id == options.job_id
    &&& journal.source_hash_hex@ == source_hash_hex
}

/// The journal of a worker: the saved one, where there is one and it belongs
/// to the same work, else a new one.  Tells whether the journal has to be
/// saved before the work goes on.
pub fn load_or_initialize_journal(
    saved: Option<WorkerJournal>,
    options: &WorkerOptions,
    source_hash_hex: &str,
    variants: &Vec<MediaVariant>,
) -> (r: Result<(WorkerJournal, bool), String>)
    ensures
        match saved {
            Some(journal) => match r {
                Ok((loaded, save)) => {
                    &&& belongs_to_worker(&journal, options, source_hash_hex@)
                    &&& loaded == (WorkerJournal { schema_version: JOURNAL_SCHEMA_VERSION, ..journal })
                    &&& save == (journal.schema_version != JOURNAL_SCHEMA_VERSION)
                },
                Err(message) => {
                    &&& !belongs_to_worker(&journal, options, source_hash_hex@)
                    &&& message@ == "existing transcode journal does not match this invocation"@
                },
            },
            None => match r {
                Ok((journal, save)) => {
                    &&& variants_fault(variants@) is None
                    &&& save
                    &&& journal.schema_version == JOURNAL_SCHEMA_VERSION
                    &&& belongs_to_worker(&journal, options, source_hash_hex@)
                    &&& journal.records() == fresh_records(options.work_dir@, variants@)
                },
                Err(message) => variants_fault(variants@) == Some(message@),
            },
        },
{
    let hub = options.hub.to_text();
    let bucket = options.bucket.to_text();
    match saved {
        Some(journal) => {
            if !supported_journal_schema(journal.schema_version) || !same_text(journal.hub.as_str(), hub.as_str())
                || !same_text(journal.bucket.as_str(), bucket.as_str()) || journal.job_id != options.job_id
                || !same_text(journal.source_hash_hex.as_str(), source_hash_hex) {
                return Err(owned("existing transcode journal does not match this invocation"));
            }
            let mut journal = journal;
            let save = journal.schema_version != JOURNAL_SCHEMA_VERSION;
            journal.schema_version = JOURNAL_SCHEMA_VERSION;
            Ok((journal, save))
        },
        None => {
            let mut journal = WorkerJournal {
                schema_version: JOURNAL_SCHEMA_VERSION,
                hub,
                bucket,
                job_id: options.job_id,
                source_hash_hex: owned(source_hash_hex),
                variants: PathMap::new(),
            };
            assert(journal.records() =~= fresh_records(options.work_dir@, variants@.take(0)));
            for i in 0..variants.len()
                invariant
                    saved is None,
                    journal.records() == fresh_records(options.work_dir@, variants@.take(i as int)),
                    variants_fault(variants@.take(i as int)) is None,
                    journal.schema_version == JOURNAL_SCHEMA_VERSION,
                    belongs_to_worker(&journal, options, source_hash_hex@),
            {
                let spec = &variants[i].spec;
                assert(variants@.take(i + 1).drop_last() =~= variants@.take(i as int));
                let extension = match output_extension(spec) {
                    Ok(extension) => extension,
                    Err(message) => {
                        proof {
                            lemma_fault_stays(variants@, i + 1);
                        }
                        return Err(message);
                    },
                };
                let number = if i < 10 {
                    cat2("0", decimal_size(i).as_str())
                } else {
                    decimal_size(i)
                };
                let name = cat5(
                    number.as_str(),
                    "-",
                    sanitize_label(spec.label.as_str()).as_str(),
                    ".",
                    extension,
                );
                let record = VariantJournal {
                    output_path: join_name(options.work_dir.as_str(), name.as_str()),
                    file_id: None,
                    content_hash_hex: None,
                    size: None,
                    cleanup: None,
                };
                journal.set_record(spec.label.as_str(), record);
            }
            assert(variants@.take(variants@.len() as int) =~= variants@);
            Ok((journal, true))
        },
    }
}

/// Whether a journal belongs to what is to be cleaned up.
pub open spec fn belongs_to_cleanup(journal: &WorkerJournal, options: &CleanupOptions) -> bool {
    &&& journal.schema_version == PREVIOUS_JOURNAL_SCHEMA_VERSION || journal.schema_version == JOURNAL_SCHEMA_VERSION
    &&& journal.hub@ == principal_text(options.hub@)
    &&& journal.bucket@ == principal_text(options.bucket@)
    &&& journal.job_id == options.job_id
}

/// The saved journal for a clean-up.  Tells whether the journal has to be saved
/// before the work goes on.
pub fn load_cleanup_journal(journal: WorkerJournal, options: &CleanupOptions) -> (r: Result<
    (WorkerJournal, bool),
    String,
>)
    ensures
        match r {
            Ok((loaded, save)) => {
                &&& belongs_to_cleanup(&journal, options)
                &&& loaded == (WorkerJournal { schema_version: JOURNAL_SCHEMA_VERSION, ..journal })
                &&& save == (journal.schema_version != JOURNAL_SCHEMA_VERSION)
            },
            Err(message) => {
                &&& !belongs_to_cleanup(&journal, options)
                &&& message@ == "existing transcode journal does not match this cleanup invocation"@
            },
        },
{
    if !supported_journal_schema(journal.schema_version) || !same_text(
        journal.hub.as_str(),
        options.hub.to_text().as_str(),
    ) || !same_text(journal.bucket.as_str(), options.bucket.to_text().as_str()) || journal.job_id
        != options.job_id {
        return Err(owned("existing transcode journal does not match this cleanup invocation"));
    }
    let mut journal = journal;
    let save = journal.schema_version != JOURNAL_SCHEMA_VERSION;
    journal.schema_version = JOURNAL_SCHEMA_VERSION;
    Ok((journal, save))
}

/// A new journal that was saved is taken up again: it belongs to the work it
/// was made for.
pub proof fn law_saved_journals_are_taken_up_again(
    journal: &WorkerJournal,
    options: &WorkerOptions,
    cleanup: &CleanupOptions,
    source_hash_hex: Seq<char>,
)
    requires
        belongs_to_worker(journal, options, source_hash_hex),
        cleanup.hub@ == options.hub@,
        cleanup.bucket@ == options.bucket@,
        cleanup.job_id == options.job_id,
    ensures
        belongs_to_worker(
            &(WorkerJournal { schema_version: JOURNAL_SCHEMA_VERSION, ..*journal }),
            options,
            source_hash_hex,
        ),
        belongs_to_cleanup(journal, cleanup),
{
}

/// No two variants of a job share an output file: the file names start with
/// the place of the variant in the job.
pub proof fn law_outputs_have_their_own_files(
    index: nat,
    label: Seq<char>,
    content_type: Seq<char>,
    other_index: nat,
    other_label: Seq<char>,
    other_type: Seq<char>,
)
    requires
        output_name(index, label, content_type) == output_name(other_index, other_label, other_type),
    ensures
        index == other_index,
{
    let a = two_digits(index);
    let b = two_digits(other_index);
    let name = output_name(index, label, content_type);
    lemma_two_digits(index);
    lemma_two_digits(other_index);
    reveal_strlit("-");
    assert(name[a.len() as int] == '-');
    assert(name[b.len() as int] == '-');
    if a.len() < b.len() {
        assert(name[a.len() as int] == b[a.len() as int]);
    }
    if b.len() < a.len() {
        assert(name[b.len() as int] == a[b.len() as int]);
    }
    assert(name.take(a.len() as int) =~= a);
    assert(name.take(b.len() as int) =~= b);
}

proof fn lemma_decimal_digits(value: nat)
    ensures
        forall|i: int| 0 <= i < decimal(value).len() ==> '0' <= #[trigger] decimal(value)[i] <= '9',
        digits_value(decimal(value)) == value,
    decreases value,
{
    let text = decimal(value);
    let higher = if value < 10 {
        Seq::empty()
    } else {
        decimal(value / 10)
    };
    if value >= 10 {
        lemma_decimal_digits(value / 10);
    }
    assert(text =~= higher.push(digit_char(value % 10)));
    assert(text.drop_last() =~= higher);
    assert(digits_value(Seq::<char>::empty()) == 0);
    assert(digit_value(digit_char(value % 10)) == value % 10);
    assert(text.last() == digit_char(value % 10));
    assert('0' <= digit_char(value % 10) <= '9');
}

proof fn lemma_two_digits(value: nat)
    ensures
        forall|i: int| 0 <= i < two_digits(value).len() ==> '0' <= #[trigger] two_digits(value)[i] <= '9',
        digits_value(two_digits(value)) == value,
{
    lemma_decimal_digits(value);
    reveal_strlit("0");
    if value < 10 {
        let text = two_digits(value);
        assert(decimal(value) =~= seq![digit_char(value)]);
        assert(text.drop_last() =~= seq!['0']);
        assert(seq!['0'].drop_last() =~= Seq::empty());
        assert(digits_value(Seq::<char>::empty()) == 0);
        assert(digits_value(seq!['0']) == 0);
    }
}

/// A saved journal is taken up exactly where it is of a known version and about
/// the same Hub, bucket and job, and for a worker also the same source.
pub proof fn law_only_journals_of_the_same_work_are_taken_up(
    journal: &WorkerJournal,
    options: &WorkerOptions,
    cleanup: &CleanupOptions,
    source_hash_hex: Seq<char>,
)
    ensures
        belongs_to_worker(journal, options, source_hash_hex) <==> {
            &&& journal.schema_version == 1 || journal.schema_version == 2
            &&& journal.hub@ == principal_text(options.hub@)
            &&& journal.bucket@ == principal_text(options.bucket@)
            &&& journal.job_id == options.job_id
            &&& journal.source_hash_hex@ == source_hash_hex
        },
        belongs_to_cleanup(journal, cleanup) <==> {
            &&& journal.schema_version == 1 || journal.schema_version == 2
            &&& journal.hub@ == principal_text(cleanup.hub@)
            &&& journal.bucket@ == principal_text(cleanup.bucket@)
            &&& journal.job_id == cleanup.job_id
        },
        JOURNAL_SCHEMA_VERSION == 2,
{
}

/// A file in a directory has the path of the directory, a slash unless the path
/// ends in one or is empty, and its name.
pub proof fn law_files_lie_in_their_directory(dir: Seq<char>, name: Seq<char>)
    ensures
        in_directory(dir + seq!['/'], name) == dir + seq!['/'] + name,
        dir.len() > 0 && dir.last() != '/' ==> in_directory(dir, name) == in_directory(dir + seq!['/'], name),
        in_directory(Seq::empty(), name) == name,
{
    reveal_strlit("/");
    assert("/"@ =~= seq!['/']);
    assert((dir + seq!['/']).last() == '/');
    assert(Seq::<char>::empty() + name =~= name);
}

/// The variants of a job are refused exactly where one of them is neither an
/// MP4 nor a WebP, JPEG or PNG image; the first such variant is named.
pub proof fn law_variants_without_an_extension_are_refused(variants: Seq<MediaVariant>)
    ensures
        variants_fault(variants) is None <==> forall|i: int|
            0 <= i < variants.len() ==> extension((#[trigger] variants[i]).spec.content_type@) is Some,
        variants_fault(variants) matches Some(message) ==> exists|i: int|
            0 <= i < variants.len() && extension((#[trigger] variants[i]).spec.content_type@) is None && message
                == extension_error(variants[i].spec.label@, variants[i].spec.content_type@) && forall|j: int|
                0 <= j < i ==> extension((#[trigger] variants[j]).spec.content_type@) is Some,
    decreases variants.len(),
{
    if variants.len() > 0 {
        let rest = variants.drop_last();
        law_variants_without_an_extension_are_refused(rest);
        assert(variants.last() == variants[variants.len() - 1]);
        assert forall|i: int| 0 <= i < rest.len() implies variants[i] == #[trigger] rest[i] by {}
        if variants_fault(rest) is Some {
            let message = variants_fault(rest)->0;
            let i = choose|i: int|
                0 <= i < rest.len() && extension((#[trigger] rest[i]).spec.content_type@) is None && message
                    == extension_error(rest[i].spec.label@, rest[i].spec.content_type@) && forall|j: int|
                    0 <= j < i ==> extension((#[trigger] rest[j]).spec.content_type@) is Some;
            assert(variants[i] == rest[i]);
            assert forall|j: int| 0 <= j < i implies extension(
                (#[trigger] variants[j]).spec.content_type@,
            ) is Some by {
                assert(variants[j] == rest[j]);
            }
        } else {
            assert forall|j: int| 0 <= j < variants.len() - 1 implies extension(
                (#[trigger] variants[j]).spec.content_type@,
            ) is Some by {
                assert(variants[j] == rest[j]);
            }
        }
    }
}

/// A new journal knows exactly the variants of the job.  It holds no file,
/// digest, size or deletion of any of them, and each output lies in the working
/// directory, under the name of the last variant with its label.
pub proof fn law_new_journals_hold_every_variant(work_dir: Seq<char>, variants: Seq<MediaVariant>, at: int)
    requires
        0 <= at < variants.len(),
        forall|j: int| at < j < variants.len() ==> (#[trigger] variants[j]).spec.label@ != variants[at].spec.label@,
    ensures
        fresh_records(work_dir, variants).contains_key(variants[at].spec.label@),
        ({
            let spec = variants[at].spec;
            let record = fresh_records(work_dir, variants)[spec.label@];
            &&& record.output_path == in_directory(work_dir, output_name(at as nat, spec.label@, spec.content_type@))
            &&& record.file_id is None
            &&& record.content_hash_hex is None
            &&& record.size is None
            &&& record.cleanup is None
        }),
        forall|label: Seq<char>| #[trigger]
            fresh_records(work_dir, variants).contains_key(label) ==> exists|i: int|
                0 <= i < variants.len() && (#[trigger] variants[i]).spec.label@ == label,
    decreases variants.len(),
{
    let rest = variants.drop_last();
    assert(variants.last() == variants[variants.len() - 1]);
    lemma_fresh_labels(work_dir, variants);
    if at < variants.len() - 1 {
        assert(rest[at] == variants[at]);
        assert forall|j: int| at < j < rest.len() implies (#[trigger] rest[j]).spec.label@ != rest[at].spec.label@ by {
            assert(rest[j] == variants[j]);
        }
        law_new_journals_hold_every_variant(work_dir, rest, at);
    }
}

proof fn lemma_fresh_labels(work_dir: Seq<char>, variants: Seq<MediaVariant>)
    ensures
        forall|label: Seq<char>| #[trigger]
            fresh_records(work_dir, variants).contains_key(label) ==> exists|i: int|
                0 <= i < variants.len() && (#[trigger] variants[i]).spec.label@ == label,
    decreases variants.len(),
{
    if variants.len() > 0 {
        let rest = variants.drop_last();
        lemma_fresh_labels(work_dir, rest);
        assert forall|label: Seq<char>| #[trigger] fresh_records(work_dir, variants).contains_key(label) implies exists|
            i: int,
        | 0 <= i < variants.len() && (#[trigger] variants[i]).spec.label@ == label by {
            if label == variants.last().spec.label@ {
                assert(variants[variants.len() - 1].spec.label@ == label);
            } else {
                assert(fresh_records(work_dir, rest).contains_key(label));
                let i = choose|i: int| 0 <= i < rest.len() && (#[trigger] rest[i]).spec.label@ == label;
                assert(variants[i].spec.label@ == label);
            }
        }
    }
}

/// The name of an output ends in a dot and the extension of its content type,
/// and holds its label in front of that.
pub proof fn law_outputs_are_named_by_place_label_and_type(index: nat, label: Seq<char>)
    ensures
        index < 10 ==> output_name(index, label, "video/mp4"@) == seq!['0', digit_char(index)] + "-"@ + safe_label(label)
            + "."@ + "mp4"@,
        index >= 10 ==> output_name(index, label, "video/mp4"@) == decimal(index) + "-"@ + safe_label(label) + "."@
            + "mp4"@,
        output_name(index, label, "image/jpeg"@) == two_digits(index) + "-"@ + safe_label(label) + "."@ + "jpg"@,
{
    crate::transcode::labels::law_outputs_have_the_usual_extensions("video/mp4"@);
    reveal_strlit("0");
    if index < 10 {
        assert(decimal(index) =~= seq![digit_char(index)]);
        assert("0"@ + decimal(index) =~= seq!['0', digit_char(index)]);
    }
}

/// A record of an output is seen with the path, file, digest, size and prepared
/// deletion that it holds.
pub proof fn law_records_are_seen_as_they_are(record: &VariantJournal, journal: &WorkerJournal, label: Seq<char>)
    ensures
        record@.output_path == record.output_path@,
        record@.file_id == record.file_id,
        record@.content_hash_hex is Some <==> record.content_hash_hex is Some,
        record.content_hash_hex matches Some(text) ==> record@.content_hash_hex == Some(text@),
        record@.size == record.size,
        record@.cleanup is Some <==> record.cleanup is Some,
        record.cleanup matches Some(intent) ==> {
            &&& record@.cleanup->0.request_id_hex == intent.request_id_hex@
            &&& record@.cleanup->0.parent == intent.parent
            &&& record@.cleanup->0.revision == intent.revision
            &&& record@.cleanup->0.expected_hash_hex == intent.expected_hash_hex@
        },
        journal.records().contains_key(label) <==> journal.variants@.contains_key(label),
        journal.variants@.contains_key(label) ==> journal.records()[label] == journal.variants@[label]@,
{
}

/// A journal stays that of its work: its Hub, bucket, job, source and version
/// are kept.
pub proof fn law_journals_stay_of_their_work(after: &WorkerJournal, before: &WorkerJournal)
    ensures
        after.same_work(before) <==> {
            &&& after.hub@ == before.hub@
            &&& after.bucket@ == before.bucket@
            &&& after.job_id == before.job_id
            &&& after.source_hash_hex@ == before.source_hash_hex@
            &&& after.schema_version == before.schema_version
        },
{
}

} // verus!
