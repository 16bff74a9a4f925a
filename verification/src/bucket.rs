//! Buckets: their settings, who may read them, and their domains.
use vstd::prelude::*;

use crate::file::MAX_FILE_SIZE;
use crate::ordered::{strictly_increasing, PathSet};
use crate::outside::{url_domain, url_host};
use crate::principal::{anonymous_bytes, Principal};
use crate::sync::arrange::views;
use crate::text::{cat2, chars_of, has_char, lower, lowered, owned, same_text, trim, trimmed};

verus! {

/// How a bucket answers plain web requests.
#[derive(Clone, Copy, Debug, PartialEq, Eq, Structural)]
pub enum HttpReadMode {
    Legacy,
    Public,
    TokenProtected,
    Disabled,
}

impl Default for HttpReadMode {
    fn default() -> (r: Self)
        ensures
            r is Legacy,
    {
        HttpReadMode::Legacy
    }
}

/// Who grants reading rights, and whether files can be read by their hash.
#[derive(Clone, Debug, PartialEq, Eq)]
pub struct ReaderPolicy {
    pub enabled: bool,
    pub authority: Option<Principal>,
    pub allow_by_hash: bool,
}

impl Default for ReaderPolicy {
    fn default() -> (r: Self)
        ensures
            !r.enabled,
            r.authority is None,
            r.allow_by_hash,
    {
        ReaderPolicy { enabled: false, authority: None, allow_by_hash: true }
    }
}

impl ReaderPolicy {
    /// What is wrong with the policy.
    pub open spec fn fault(&self) -> Option<Seq<char>> {
        if self.authority is Some && self.authority->0@ == anonymous_bytes() {
            Some("reader authority cannot be anonymous"@)
        } else if self.enabled && self.authority is None {
            Some("enabled reader policy requires an authority"@)
        } else if self.enabled && self.allow_by_hash {
            Some("enabled reader policy cannot allow by-hash reads"@)
        } else {
            None
        }
    }

    /// Checks the policy.
    pub fn validate(&self) -> (r: Result<(), String>)
        ensures
            match r {
                Ok(_) => self.fault() is None,
                Err(message) => self.fault() == Some(message@),
            },
    {
        if let Some(authority) = &self.authority {
            if authority.is_anonymous() {
                return Err(owned("reader authority cannot be anonymous"));
            }
        }
        if self.enabled && self.authority.is_none() {
            return Err(owned("enabled reader policy requires an authority"));
        }
        if self.enabled && self.allow_by_hash {
            return Err(owned("enabled reader policy cannot allow by-hash reads"));
        }
        Ok(())
    }
}

/// What a bucket tells about itself.
#[derive(Clone, Debug)]
pub struct BucketInfo {
    pub name: String,
    pub file_id: u32,
    pub folder_id: u32,
    pub max_file_size: u64,
    pub max_folder_depth: u8,
    pub max_children: u16,
    pub max_custom_data_size: u16,
    pub enable_hash_index: bool,
    /// -1: archived; 0: readable and writable; 1: readonly
    pub status: i8,
    /// 0: private; 1: public
    pub visibility: u8,
    pub total_files: u64,
    pub total_chunks: u64,
    pub total_folders: u64,
    pub managers: Vec<Principal>,
    pub auditors: Vec<Principal>,
    pub trusted_ecdsa_pub_keys: Vec<Vec<u8>>,
    pub trusted_eddsa_pub_keys: Vec<[u8; 32]>,
    pub governance_canister: Option<Principal>,
    pub http_read_mode: Option<HttpReadMode>,
    pub reader_policy: Option<ReaderPolicy>,
}

/// The domains of a bucket.
#[derive(Clone, Debug, PartialEq, Eq)]
pub struct DomainConfig {
    pub canister_id: Principal,
    pub custom_domains: Vec<String>,
    pub derivation_origin: String,
}

/// The most domains of a bucket.
pub const MAX_CUSTOM_DOMAINS: usize = 10;

/// Whether a text holds what no host name does: nothing at all, a dot at
/// either end, or a character of a URL or a wildcard.
pub open spec fn no_hostname(value: Seq<char>) -> bool {
    ||| value.len() == 0
    ||| value[0] == '.'
    ||| value.last() == '.'
    ||| value.contains('/')
    ||| value.contains(':')
    ||| value.contains('*')
}

/// The host name that a domain stands for, or why it stands for none.
pub open spec fn domain_host(domain: Seq<char>) -> Result<Seq<char>, Seq<char>> {
    let value = lower(trim(domain));
    if no_hostname(value) {
        Err("custom domain must be a DNS hostname without scheme or path"@)
    } else {
        host_verdict(url_host("https://"@ + value))
    }
}

/// Decides on a domain, given what became of its URL.
pub open spec fn host_verdict(parsed: Result<Option<Seq<char>>, ()>) -> Result<Seq<char>, Seq<char>> {
    match parsed {
        Err(_) => Err("custom domain is not a valid DNS hostname"@),
        Ok(None) => Err("custom domain must not be an IP address"@),
        Ok(Some(host)) => if host == "localhost"@ || !host.contains('.') {
            Err("custom domain must be a public DNS hostname"@)
        } else {
            Ok(host)
        },
    }
}

/// The view of what became of a URL.
pub open spec fn parsed_view(parsed: Result<Option<String>, ()>) -> Result<Option<Seq<char>>, ()> {
    match parsed {
        Ok(Some(domain)) => Ok(Some(domain@)),
        Ok(None) => Ok(None),
        Err(_) => Err(()),
    }
}

/// Decides on a domain, given what became of its URL: the host has to be a
/// domain name with a dot in it.
pub fn accept_host(parsed: Result<Option<String>, ()>) -> (r: Result<String, String>)
    ensures
        match r {
            Ok(host) => host_verdict(parsed_view(parsed)) == Ok::<Seq<char>, Seq<char>>(host@),
            Err(message) => host_verdict(parsed_view(parsed)) == Err::<Seq<char>, Seq<char>>(message@),
        },
{
    match parsed {
        Err(_) => Err(owned("custom domain is not a valid DNS hostname")),
        Ok(None) => Err(owned("custom domain must not be an IP address")),
        Ok(Some(host)) => {
            if same_text(host.as_str(), "localhost") || !has_char(host.as_str(), '.') {
                Err(owned("custom domain must be a public DNS hostname"))
            } else {
                Ok(host)
            }
        },
    }
}

fn normalize_domain(domain: &str) -> (r: Result<String, String>)
    ensures
        match r {
            Ok(host) => domain_host(domain@) == Ok::<Seq<char>, Seq<char>>(host@),
            Err(message) => domain_host(domain@) == Err::<Seq<char>, Seq<char>>(message@),
        },
{
    let value = lowered(trimmed(domain));
    let chars = chars_of(value.as_str());
    if chars.len() == 0 || chars[0] == '.' || chars[chars.len() - 1] == '.' || has_char(value.as_str(), '/') || has_char(
        value.as_str(),
        ':',
    ) || has_char(value.as_str(), '*') {
        return Err(owned("custom domain must be a DNS hostname without scheme or path"));
    }
    accept_host(url_domain(cat2("https://", value.as_str()).as_str()))
}

/// The message for the first domain that is refused, counted from `from`.
pub open spec fn domains_error(domains: Seq<Seq<char>>, from: int) -> Option<Seq<char>>
    decreases domains.len() - from,
{
    if from < 0 || from >= domains.len() {
        None
    } else {
        match domain_host(domains[from]) {
            Err(message) => Some(message),
            Ok(_) => domains_error(domains, from + 1),
        }
    }
}

/// The hosts of the first domains.
pub open spec fn hosts_of(domains: Seq<Seq<char>>) -> Set<Seq<char>> {
    Set::new(|host: Seq<char>| exists|i: int| 0 <= i < domains.len() && domain_host(#[trigger] domains[i]) == Ok::<Seq<char>, Seq<char>>(host))
}

/// The host names of a list of domains: each once, in increasing order.
pub fn normalize_custom_domains(domains: &[String]) -> (r: Result<Vec<String>, String>)
    ensures
        match r {
            Ok(hosts) => {
                &&& domains@.len() <= MAX_CUSTOM_DOMAINS
                &&& domains_error(views(domains@), 0) is None
                &&& strictly_increasing(views(hosts@))
                &&& forall|host: Seq<char>| #[trigger] views(hosts@).contains(host) <==> hosts_of(views(domains@)).contains(host)
            },
            Err(message) => if domains@.len() > MAX_CUSTOM_DOMAINS {
                message@ == "at most 10 custom domains are allowed"@
            } else {
                domains_error(views(domains@), 0) == Some(message@)
            },
        },
{
    if domains.len() > MAX_CUSTOM_DOMAINS {
        return Err(owned("at most 10 custom domains are allowed"));
    }
    let ghost all = views(domains@);
    let mut hosts = PathSet::new();
    assert(hosts@ =~= hosts_of(all.take(0)));
    for i in 0..domains.len()
        invariant
            all == views(domains@),
            domains@.len() <= MAX_CUSTOM_DOMAINS,
            domains_error(all, 0) == domains_error(all, i as int),
            hosts@ == hosts_of(all.take(i as int)),
    {
        assert(all[i as int] == domains@[i as int]@);
        let host = match normalize_domain(domains[i].as_str()) {
            Ok(host) => host,
            Err(message) => {
                return Err(message);
            },
        };
        let ghost before = hosts@;
        let ghost name = host@;
        hosts.insert(host);
        proof {
            let now = all.take(i + 1);
            let then = all.take(i as int);
            assert forall|h: Seq<char>| before.insert(name).contains(h) <==> hosts_of(now).contains(h) by {
                if hosts_of(then).contains(h) {
                    let j = choose|j: int| 0 <= j < then.len() && domain_host(#[trigger] then[j]) == Ok::<Seq<char>, Seq<char>>(h);
                    assert(now[j] == then[j]);
                }
                if h == name {
                    assert(now[i as int] == all[i as int]);
                }
                if hosts_of(now).contains(h) {
                    let j = choose|j: int| 0 <= j < now.len() && domain_host(#[trigger] now[j]) == Ok::<Seq<char>, Seq<char>>(h);
                    if j < i {
                        assert(then[j] == now[j]);
                    }
                }
            }
            assert(hosts@ =~= hosts_of(now));
        }
    }
    assert(all.take(all.len() as int) =~= all);
    let ghost set = hosts;
    let list = hosts.into_paths();
    assert(views(list@) =~= set.keys());
    Ok(list)
}

/// Capacity signals reported by the bucket itself.  Remaining stable memory is
/// an estimate: the limit is fixed, but growth also depends on the subnet and
/// on reserved cycles.
#[derive(Clone, Copy, Debug, PartialEq, Eq, Structural)]
pub struct BucketStorageMetrics {
    pub stable_memory_size: u64,
    pub wasm_memory_size: u64,
    pub total_memory_size: u64,
    pub memory_allocation: u64,
    pub stable_memory_limit: u64,
    /// The cycles that the bucket can spend.
    pub cycles: Option<u128>,
    /// The cycles that the subnet keeps for future storage payments.
    pub reserved_cycles: Option<u128>,
}

/// Asks for the settings of a bucket to be changed.
#[derive(Clone, Debug)]
pub struct UpdateBucketInput {
    pub name: Option<String>,
    pub max_file_size: Option<u64>,
    pub max_folder_depth: Option<u8>,
    pub max_children: Option<u16>,
    pub max_custom_data_size: Option<u16>,
    pub enable_hash_index: Option<bool>,
    /// -1: archived; 0: readable and writable; 1: readonly
    pub status: Option<i8>,
    /// 0: private; 1: public
    pub visibility: Option<u8>,
    pub trusted_ecdsa_pub_keys: Option<Vec<Vec<u8>>>,
    pub trusted_eddsa_pub_keys: Option<Vec<[u8; 32]>>,
    pub http_read_mode: Option<HttpReadMode>,
    pub reader_policy: Option<ReaderPolicy>,
}

impl Default for UpdateBucketInput {
    fn default() -> (r: Self)
        ensures
            r.name is None,
            r.max_file_size is None,
            r.max_folder_depth is None,
            r.max_children is None,
            r.max_custom_data_size is None,
            r.enable_hash_index is None,
            r.status is None,
            r.visibility is None,
            r.trusted_ecdsa_pub_keys is None,
            r.trusted_eddsa_pub_keys is None,
            r.http_read_mode is None,
            r.reader_policy is None,
    {
        UpdateBucketInput {
            name: None,
            max_file_size: None,
            max_folder_depth: None,
            max_children: None,
            max_custom_data_size: None,
            enable_hash_index: None,
            status: None,
            visibility: None,
            trusted_ecdsa_pub_keys: None,
            trusted_eddsa_pub_keys: None,
            http_read_mode: None,
            reader_policy: None,
        }
    }
}

impl UpdateBucketInput {
    /// What is wrong with the request: the first setting that is not in order.
    pub open spec fn fault(&self) -> Option<Seq<char>> {
        if self.name is Some && trim(self.name->0@).len() == 0 {
            Some("invalid bucket name"@)
        } else if self.max_file_size == Some(0u64) {
            Some("max_file_size should be greater than 0"@)
        } else if self.max_file_size is Some && self.max_file_size->0 > MAX_FILE_SIZE {
            Some("max_file_size should be smaller than or equal to 412316860416"@)
        } else if self.max_folder_depth == Some(0u8) {
            Some("max_folder_depth should be greater than 0"@)
        } else if self.max_children == Some(0u16) {
            Some("max_children should be greater than 0"@)
        } else if self.max_custom_data_size == Some(0u16) {
            Some("max_custom_data_size should be greater than 0"@)
        } else if self.status is Some && !(-1 <= self.status->0 <= 1) {
            Some("status should be -1, 0 or 1"@)
        } else if self.visibility is Some && self.visibility->0 > 1 {
            Some("visibility should be 0 or 1"@)
        } else if self.reader_policy is Some {
            self.reader_policy->0.fault()
        } else {
            None
        }
    }

    /// Checks the request.
    pub fn validate(&self) -> (r: Result<(), String>)
        ensures
            match r {
                Ok(_) => self.fault() is None,
                Err(message) => self.fault() == Some(message@),
            },
    {
        if let Some(name) = &self.name {
            if trimmed(name.as_str()).is_empty() {
                return Err(owned("invalid bucket name"));
            }
        }
        if let Some(max_file_size) = self.max_file_size {
            if max_file_size == 0 {
                return Err(owned("max_file_size should be greater than 0"));
            }
            if max_file_size > MAX_FILE_SIZE {
                return Err(owned("max_file_size should be smaller than or equal to 412316860416"));
            }
        }
        if let Some(max_folder_depth) = self.max_folder_depth {
            if max_folder_depth == 0 {
                return Err(owned("max_folder_depth should be greater than 0"));
            }
        }
        if let Some(max_children) = self.max_children {
            if max_children == 0 {
                return Err(owned("max_children should be greater than 0"));
            }
        }
        if let Some(max_custom_data_size) = self.max_custom_data_size {
            if max_custom_data_size == 0 {
                return Err(owned("max_custom_data_size should be greater than 0"));
            }
        }
        if let Some(status) = self.status {
            if status < -1 || status > 1 {
                return Err(owned("status should be -1, 0 or 1"));
            }
        }
        if let Some(visibility) = self.visibility {
            if visibility != 0 && visibility != 1 {
                return Err(owned("visibility should be 0 or 1"));
            }
        }
        if let Some(reader_policy) = &self.reader_policy {
            return reader_policy.validate();
        }
        Ok(())
    }
}

/// A reader policy is accepted exactly where its authority, if it has one, is
/// not anonymous, and an enabled policy has one and does not let files be read
/// by their hash.
pub proof fn law_reader_policies_are_accepted(policy: &ReaderPolicy)
    ensures
        policy.fault() is None <==> {
            &&& policy.authority matches Some(authority) ==> authority@ != seq![4u8]
            &&& policy.enabled ==> policy.authority is Some && !policy.allow_by_hash
        },
        policy.authority is Some && policy.authority->0@ == seq![4u8] ==> policy.fault() == Some(
            "reader authority cannot be anonymous"@,
        ),
        policy.enabled && policy.authority is None ==> policy.fault() == Some(
            "enabled reader policy requires an authority"@,
        ),
        policy.enabled && policy.allow_by_hash && policy.authority is Some && policy.authority->0@ != seq![4u8]
            ==> policy.fault() == Some("enabled reader policy cannot allow by-hash reads"@),
{
    assert(anonymous_bytes() =~= seq![4u8]);
}

/// The settings of a bucket are changed exactly where each one that is given is
/// in order: a name that is not blank, sizes and limits above zero, a file size
/// of at most 384 GiB, a status from -1 to 1, a visibility of 0 or 1, and a
/// reader policy that is in order itself.
pub proof fn law_settings_of_a_bucket_are_accepted(input: &UpdateBucketInput)
    ensures
        input.fault() is None <==> {
            &&& input.name matches Some(name) ==> trim(name@).len() > 0
            &&& input.max_file_size matches Some(size) ==> 0 < size <= 384 * 1024 * 1024 * 1024
            &&& input.max_folder_depth matches Some(depth) ==> depth > 0
            &&& input.max_children matches Some(count) ==> count > 0
            &&& input.max_custom_data_size matches Some(size) ==> size > 0
            &&& input.status matches Some(status) ==> status == -1 || status == 0 || status == 1
            &&& input.visibility matches Some(visibility) ==> visibility == 0 || visibility == 1
            &&& input.reader_policy matches Some(policy) ==> policy.fault() is None
        },
{
}

/// A setting that is wrong alone is the one that is told.
pub proof fn law_wrong_settings_are_told(input: &UpdateBucketInput)
    requires
        input.fault() is Some,
    ensures
        input.fault() == Some("invalid bucket name"@) || input.name is None || trim(input.name->0@).len() > 0,
        input.name is Some && trim(input.name->0@).len() == 0 ==> input.fault() == Some("invalid bucket name"@),
        input.name is None && input.max_file_size == Some(0u64) ==> input.fault() == Some(
            "max_file_size should be greater than 0"@,
        ),
        input.name is None && input.max_file_size is Some && input.max_file_size->0 > 412316860416 ==> input.fault()
            == Some("max_file_size should be smaller than or equal to 412316860416"@),
        input.name is None && input.max_file_size is None && input.max_folder_depth == Some(0u8) ==> input.fault()
            == Some("max_folder_depth should be greater than 0"@),
        input.name is None && input.max_file_size is None && input.max_folder_depth is None && input.max_children == Some(
            0u16,
        ) ==> input.fault() == Some("max_children should be greater than 0"@),
        input.name is None && input.max_file_size is None && input.max_folder_depth is None && input.max_children is None
            && input.max_custom_data_size == Some(0u16) ==> input.fault() == Some(
            "max_custom_data_size should be greater than 0"@,
        ),
        input.name is None && input.max_file_size is None && input.max_folder_depth is None && input.max_children is None
            && input.max_custom_data_size is None && input.status is Some && (input.status->0 > 1 || input.status->0
            < -1) ==> input.fault() == Some("status should be -1, 0 or 1"@),
        input.name is None && input.max_file_size is None && input.max_folder_depth is None && input.max_children is None
            && input.max_custom_data_size is None && input.status is None && input.visibility is Some
            && input.visibility->0 > 1 ==> input.fault() == Some("visibility should be 0 or 1"@),
        input.name is None && input.max_file_size is None && input.max_folder_depth is None && input.max_children is None
            && input.max_custom_data_size is None && input.status is None && input.visibility is None
            ==> input.reader_policy is Some && input.fault() == input.reader_policy->0.fault(),
{
}

/// A domain is read without the white space around it and in lower case, and
/// what is asked of its host is asked of a URL with that text.
pub proof fn law_domains_are_read_in_lower_case(a: Seq<char>, b: Seq<char>)
    ensures
        lower(trim(a)) == lower(trim(b)) ==> domain_host(a) == domain_host(b),
        domain_host(a) matches Ok(host) ==> url_host("https://"@ + lower(trim(a))) == Ok::<Option<Seq<char>>, ()>(
            Some(host),
        ),
{
}

/// A domain is refused before its URL is looked at exactly where it is empty,
/// starts or ends with a dot, or holds a slash, a colon or a star.
pub proof fn law_texts_of_other_kinds_are_no_domains(value: Seq<char>)
    ensures
        no_hostname(value) <==> value.len() == 0 || value[0] == '.' || value.last() == '.' || exists|i: int|
            0 <= i < value.len() && (#[trigger] value[i] == '/' || value[i] == ':' || value[i] == '*'),
        no_hostname(lower(trim(value))) ==> domain_host(value) == Err::<Seq<char>, Seq<char>>(
            "custom domain must be a DNS hostname without scheme or path"@,
        ),
{
    if value.contains('/') {
        let i = value.index_of('/');
        assert(value[i] == '/');
    }
    if value.contains(':') {
        let i = value.index_of(':');
        assert(value[i] == ':');
    }
    if value.contains('*') {
        let i = value.index_of('*');
        assert(value[i] == '*');
    }
}

/// A host is taken exactly where it is a name, not an address, and holds a dot.
pub proof fn law_public_hosts_are_taken(host: Seq<char>)
    ensures
        host_verdict(Ok(Some(host))) is Ok <==> host.contains('.'),
        host_verdict(Ok(Some(host))) matches Ok(taken) ==> taken == host,
        host_verdict(Ok(Some(host))) matches Err(message) ==> message == "custom domain must be a public DNS hostname"@,
        host_verdict(Ok(None)) == Err::<Seq<char>, Seq<char>>("custom domain must not be an IP address"@),
        host_verdict(Err(())) == Err::<Seq<char>, Seq<char>>("custom domain is not a valid DNS hostname"@),
{
    reveal_strlit("localhost");
    let local = "localhost"@;
    assert forall|i: int| 0 <= i < local.len() implies local[i] != '.' by {}
}

/// Domains are taken exactly where every one of them has a host; otherwise the
/// first one that has none is told.
pub proof fn law_domains_are_taken_all_or_none(domains: Seq<Seq<char>>, from: int)
    requires
        0 <= from,
    ensures
        domains_error(domains, from) is None <==> forall|i: int|
            from <= i < domains.len() ==> domain_host(#[trigger] domains[i]) is Ok,
        domains_error(domains, from) matches Some(message) ==> exists|i: int|
            from <= i < domains.len() && domain_host(#[trigger] domains[i]) == Err::<Seq<char>, Seq<char>>(message)
                && forall|j: int| from <= j < i ==> domain_host(#[trigger] domains[j]) is Ok,
        MAX_CUSTOM_DOMAINS == 10,
    decreases domains.len() - from,
{
    if from < domains.len() {
        law_domains_are_taken_all_or_none(domains, from + 1);
        if domain_host(domains[from]) is Ok && domains_error(domains, from) is Some {
            let message = domains_error(domains, from)->0;
            let i = choose|i: int|
                from + 1 <= i < domains.len() && domain_host(#[trigger] domains[i]) == Err::<Seq<char>, Seq<char>>(
                    message,
                ) && forall|j: int| from + 1 <= j < i ==> domain_host(#[trigger] domains[j]) is Ok;
            assert(domain_host(domains[i]) == Err::<Seq<char>, Seq<char>>(message));
        }
    }
}

/// The hosts of domains are exactly those that some domain stands for.
pub proof fn law_hosts_are_those_of_the_domains(domains: Seq<Seq<char>>, host: Seq<char>)
    ensures
        hosts_of(domains).contains(host) <==> exists|i: int|
            0 <= i < domains.len() && domain_host(#[trigger] domains[i]) == Ok::<Seq<char>, Seq<char>>(host),
{
}

} // verus!
