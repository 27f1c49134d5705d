use vstd::prelude::*;
use crate::error::ReplayError;
use crate::json::{json_object, json_string, read_json_object, read_json_string};
use crate::text::pairs_of;

verus! {

/// The map that a list of `(domain, target)` pairs stands for: a later pair
/// replaces an earlier one of the same domain.
pub open spec fn pairs_map(pairs: Seq<(Seq<char>, Seq<char>)>) -> Map<Seq<char>, Seq<char>>
    decreases pairs.len(),
{
    if pairs.len() == 0 {
        Map::empty()
    } else {
        pairs_map(pairs.drop_last()).insert(pairs.last().0, pairs.last().1)
    }
}

/// Recorded domains and the `scheme://host` that each is replayed against.
///
/// The pairs are kept as a list, in the order in which they were given; a
/// lookup walks the list, and the last pair of a domain is the one that
/// counts.
#[derive(Debug)]
pub struct HostMapping {
    pub entries: Vec<(String, String)>,
}

impl View for HostMapping {
    type V = Map<Seq<char>, Seq<char>>;

    open spec fn view(&self) -> Map<Seq<char>, Seq<char>> {
        pairs_map(pairs_of(self.entries@))
    }
}

/// The pairs of a JSON object whose values are all strings, each key with
/// the string under it; `None` where a value is no string.
pub open spec fn spec_string_values(members: Seq<(Seq<char>, Seq<char>)>) -> Option<
    Seq<(Seq<char>, Seq<char>)>,
>
    decreases members.len(),
{
    if members.len() == 0 {
        Some(Seq::empty())
    } else {
        match (spec_string_values(members.drop_last()), json_string(members.last().1)) {
            (Some(pairs), Some(value)) => Some(pairs.push((members.last().0, value))),
            _ => None,
        }
    }
}

/// The mapping that the members of a JSON object make, where the text was
/// an object and each of its values is a string.
pub open spec fn spec_mapping(members: Option<Seq<(Seq<char>, Seq<char>)>>) -> Option<
    Map<Seq<char>, Seq<char>>,
> {
    match members {
        Some(members) => match spec_string_values(members) {
            Some(pairs) => Some(pairs_map(pairs)),
            None => None,
        },
        None => None,
    }
}

/// Once a value is no string, the object as a whole makes no mapping.
proof fn lemma_string_values_fail(members: Seq<(Seq<char>, Seq<char>)>, count: int)
    requires
        0 <= count <= members.len(),
        spec_string_values(members.take(count)) is None,
    ensures
        spec_string_values(members) is None,
    decreases members.len() - count,
{
    if count < members.len() {
        assert(members.take(count + 1).drop_last() == members.take(count));
        lemma_string_values_fail(members, count + 1);
    } else {
        assert(members.take(count) == members);
    }
}

/// Decodes the values of the members of a JSON object as strings.
fn string_values(members: &Vec<(String, String)>) -> (out: Option<Vec<(String, String)>>)
    ensures
        match spec_string_values(pairs_of(members@)) {
            Some(pairs) => out matches Some(entries) && pairs_of(entries@) == pairs,
            None => out is None,
        },
{
    let ghost pairs = pairs_of(members@);
    let mut entries: Vec<(String, String)> = Vec::new();
    let mut i: usize = 0;
    assert(pairs_of(entries@) == Seq::<(Seq<char>, Seq<char>)>::empty());
    while i < members.len()
        invariant
            i <= members.len(),
            pairs == pairs_of(members@),
            spec_string_values(pairs.take(i as int)) == Some(pairs_of(entries@)),
        decreases members.len() - i,
    {
        proof {
            assert(pairs.take(i + 1).drop_last() == pairs.take(i as int));
            assert(pairs.take(i + 1).last() == pairs[i as int]);
            assert(pairs[i as int] == (members@[i as int].0@, members@[i as int].1@));
        }
        let ghost before = pairs_of(entries@);
        match read_json_string(members[i].1.as_str()) {
            Some(value) => {
                let key = members[i].0.clone();
                entries.push((key, value));
                assert(pairs_of(entries@) == before.push((key@, value@)));
            },
            None => {
                proof {
                    assert(spec_string_values(pairs.take(i + 1)) is None);
                    lemma_string_values_fail(pairs, i + 1);
                }
                return None;
            },
        }
        i += 1;
    }
    assert(pairs.take(i as int) == pairs);
    Some(entries)
}

impl HostMapping {
    /// The mapping that holds the given pairs.
    pub fn new(entries: Vec<(String, String)>) -> (out: HostMapping)
        ensures
            out@ == pairs_map(pairs_of(entries@)),
            out.entries == entries,
    {
        HostMapping { entries }
    }

    /// The mapping that the members of a JSON object make: each key is a
    /// recorded domain and the string under it the `scheme://host` for it.
    /// `BadConfig` where there are no members because the text was no
    /// object, or where a value is no string.
    pub fn from_members(members: Option<Vec<(String, String)>>) -> (out: Result<HostMapping, ReplayError>)
        ensures
            match spec_mapping(
                match members {
                    Some(found) => Some(pairs_of(found@)),
                    None => None,
                },
            ) {
                Some(mapping) => out matches Ok(found) && found@ == mapping,
                None => out matches Err(ReplayError::BadConfig),
            },
    {
        match members {
            Some(members) => match string_values(&members) {
                Some(entries) => Ok(HostMapping { entries }),
                None => Err(ReplayError::BadConfig),
            },
            None => Err(ReplayError::BadConfig),
        }
    }

    /// Reads a mapping from the text of a JSON object whose keys are
    /// recorded domains and whose values are `scheme://host` strings.
    pub fn parse(text: &str) -> (out: Result<HostMapping, ReplayError>)
        ensures
            match spec_mapping(json_object(text@)) {
                Some(mapping) => out matches Ok(found) && found@ == mapping,
                None => out matches Err(ReplayError::BadConfig),
            },
    {
        HostMapping::from_members(read_json_object(text))
    }

    /// The target that the mapping holds for `domain_name`.
    pub fn lookup(&self, domain_name: &String) -> (out: Option<String>)
        ensures
            match out {
                Some(target) => self@.contains_key(domain_name@) && self@[domain_name@] == target@,
                None => !self@.contains_key(domain_name@),
            },
    {
        let ghost pairs = pairs_of(self.entries@);
        let mut found: Option<usize> = None;
        let mut i: usize = 0;
        while i < self.entries.len()
            invariant
                i <= self.entries.len(),
                pairs == pairs_of(self.entries@),
                match found {
                    Some(at) => at < i && pairs_map(pairs.take(i as int)).contains_key(domain_name@)
                        && pairs_map(pairs.take(i as int))[domain_name@] == self.entries[at as int].1@,
                    None => !pairs_map(pairs.take(i as int)).contains_key(domain_name@),
                },
            decreases self.entries.len() - i,
        {
            assert(pairs.take(i + 1).drop_last() == pairs.take(i as int));
            assert(pairs[i as int] == (self.entries@[i as int].0@, self.entries@[i as int].1@));
            if self.entries[i].0 == *domain_name {
                found = Some(i);
            }
            i += 1;
        }
        assert(pairs.take(i as int) == pairs);
        match found {
            Some(at) => Some(self.entries[at].1.clone()),
            None => None,
        }
    }
}

/// Whether `names` holds `name`.
pub open spec fn names_contain(names: Seq<String>, name: Seq<char>) -> bool {
    exists|i: int| 0 <= i < names.len() && (#[trigger] names[i])@ == name
}

/// Whether the ignore list holds `name`; the search is linear.
pub fn is_ignored(hosts_to_ignore: &Vec<String>, name: &String) -> (out: bool)
    ensures
        out == names_contain(hosts_to_ignore@, name@),
{
    let mut i: usize = 0;
    while i < hosts_to_ignore.len()
        invariant
            i <= hosts_to_ignore.len(),
            forall|k: int| 0 <= k < i ==> (#[trigger] hosts_to_ignore[k])@ != name@,
        decreases hosts_to_ignore.len() - i,
    {
        if hosts_to_ignore[i] == *name {
            return true;
        }
        i += 1;
    }
    false
}

/// How recorded domains are turned into the host to replay against: either
/// one `scheme://host` for every record, or a mapping from recorded domain
/// to `scheme://host`. A configuration holds exactly one of the two.
#[derive(Debug)]
pub struct SchemaAndHostMapping {
    pub scheme_and_host: Option<String>,
    pub scheme_and_host_mapping_file: Option<HostMapping>,
}

/// What host resolution decides for one record.
pub enum Resolution {
    /// The record is left out of the plan.
    Dropped,
    /// The record is replayed against this `scheme://host`.
    Target(Seq<char>),
    /// The record names this domain, which the mapping does not hold.
    Unmapped(Seq<char>),
    /// Neither or both modes are configured.
    Misconfigured,
}

impl SchemaAndHostMapping {
    /// Whether one `scheme://host` applies to every record.
    pub open spec fn is_uniform(&self) -> bool {
        self.scheme_and_host is Some && self.scheme_and_host_mapping_file is None
    }

    /// Whether a mapping from recorded domain to `scheme://host` applies.
    pub open spec fn is_mapping(&self) -> bool {
        self.scheme_and_host is None && self.scheme_and_host_mapping_file is Some
    }

    /// Whether exactly one mode is configured.
    pub open spec fn is_valid(&self) -> bool {
        self.is_uniform() || self.is_mapping()
    }

    /// What the configuration answers for a recorded domain.
    pub open spec fn spec_scheme_and_host(&self, domain_name: Seq<char>) -> Resolution {
        if self.is_uniform() {
            Resolution::Target(self.scheme_and_host->0@)
        } else if self.is_mapping() {
            let mapping = self.scheme_and_host_mapping_file->0@;
            if mapping.contains_key(domain_name) {
                Resolution::Target(mapping[domain_name])
            } else {
                Resolution::Unmapped(domain_name)
            }
        } else {
            Resolution::Misconfigured
        }
    }

    /// What host resolution decides for a record with the given domain,
    /// under the given ignore list: an ignored domain is dropped; in uniform
    /// mode the one host applies, also where the record names no domain; in
    /// mapping mode a record without domain is dropped, and one whose domain
    /// the mapping does not hold fails.
    pub open spec fn spec_resolve(
        &self,
        domain_name: Option<String>,
        hosts_to_ignore: Seq<String>,
    ) -> Resolution {
        if domain_name is Some && names_contain(hosts_to_ignore, domain_name->0@) {
            Resolution::Dropped
        } else if !self.is_valid() {
            Resolution::Misconfigured
        } else if self.is_uniform() {
            Resolution::Target(self.scheme_and_host->0@)
        } else if domain_name is None {
            Resolution::Dropped
        } else {
            self.spec_scheme_and_host(domain_name->0@)
        }
    }

    /// The configuration for one `scheme://host` that applies to every record.
    pub fn uniform(scheme_and_host: String) -> (out: SchemaAndHostMapping)
        ensures
            out.is_uniform(),
            out.scheme_and_host == Some(scheme_and_host),
    {
        SchemaAndHostMapping { scheme_and_host: Some(scheme_and_host), scheme_and_host_mapping_file: None }
    }

    /// The configuration that resolves each recorded domain through `mapping`.
    pub fn mapping(mapping: HostMapping) -> (out: SchemaAndHostMapping)
        ensures
            out.is_mapping(),
            out.scheme_and_host_mapping_file == Some(mapping),
    {
        SchemaAndHostMapping { scheme_and_host: None, scheme_and_host_mapping_file: Some(mapping) }
    }

    /// Checks that exactly one mode is configured; neither or both is a
    /// `BadConfig`.
    pub fn validate(&self) -> (out: Result<(), ReplayError>)
        ensures
            self.is_valid() ==> out is Ok,
            !self.is_valid() ==> out matches Err(ReplayError::BadConfig),
    {
        match (&self.scheme_and_host, &self.scheme_and_host_mapping_file) {
            (Some(_), None) => Ok(()),
            (None, Some(_)) => Ok(()),
            _ => Err(ReplayError::BadConfig),
        }
    }

    /// The `scheme://host` to replay a request for `domain_name` against.
    ///
    /// In uniform mode that is the configured host, whatever the domain. In
    /// mapping mode it is the mapping's entry for the domain, and `Unmapped`
    /// with the domain where there is none. With neither or both modes
    /// configured the answer is `BadConfig`.
    pub fn get_scheme_and_host(&self, domain_name: &str) -> (out: Result<String, ReplayError>)
        ensures
            match self.spec_scheme_and_host(domain_name@) {
                Resolution::Target(target) => out matches Ok(host) && host@ == target,
                Resolution::Unmapped(name) => out matches Err(ReplayError::Unmapped { domain_name: lost })
                    && lost@ == name,
                _ => out matches Err(ReplayError::BadConfig),
            },
    {
        match (&self.scheme_and_host, &self.scheme_and_host_mapping_file) {
            (Some(scheme_and_host), None) => Ok(scheme_and_host.clone()),
            (None, Some(mapping)) => {
                let name = domain_name.to_owned();
                match mapping.lookup(&name) {
                    Some(target) => Ok(target),
                    None => Err(ReplayError::Unmapped { domain_name: name }),
                }
            },
            _ => Err(ReplayError::BadConfig),
        }
    }

    /// Decides for one record whether it is replayed, and against which host.
    ///
    /// `Ok(Some(host))` where the record is replayed against `host`,
    /// `Ok(None)` where it is dropped, and the error where resolution fails.
    pub fn resolve(&self, domain_name: &Option<String>, hosts_to_ignore: &Vec<String>) -> (out: Result<
        Option<String>,
        ReplayError,
    >)
        ensures
            match self.spec_resolve(*domain_name, hosts_to_ignore@) {
                Resolution::Dropped => out matches Ok(None),
                Resolution::Target(target) => out matches Ok(Some(host)) && host@ == target,
                Resolution::Unmapped(name) => out matches Err(ReplayError::Unmapped { domain_name: lost })
                    && lost@ == name,
                Resolution::Misconfigured => out matches Err(ReplayError::BadConfig),
            },
    {
        match domain_name {
            Some(name) => {
                if is_ignored(hosts_to_ignore, name) {
                    return Ok(None);
                }
            },
            None => {},
        }
        match (&self.scheme_and_host, &self.scheme_and_host_mapping_file) {
            (Some(scheme_and_host), None) => Ok(Some(scheme_and_host.clone())),
            (None, Some(_)) => match domain_name {
                Some(name) => match self.get_scheme_and_host(name.as_str()) {
                    Ok(host) => Ok(Some(host)),
                    Err(e) => Err(e),
                },
                None => Ok(None),
            },
            _ => Err(ReplayError::BadConfig),
        }
    }
}

/// The two ways in which a record is dropped: its domain is on the ignore
/// list, whatever the mode; or it names no domain, in mapping mode.
pub proof fn lemma_when_records_are_dropped(
    config: SchemaAndHostMapping,
    domain_name: Option<String>,
    hosts_to_ignore: Seq<String>,
)
    ensures
        domain_name is Some && names_contain(hosts_to_ignore, domain_name->0@) ==> config.spec_resolve(
            domain_name,
            hosts_to_ignore,
        ) is Dropped,
        domain_name is None && config.is_mapping() ==> config.spec_resolve(domain_name, hosts_to_ignore)
            is Dropped,
        config.spec_resolve(domain_name, hosts_to_ignore) is Unmapped <==> {
            &&& config.is_mapping()
            &&& domain_name is Some
            &&& !names_contain(hosts_to_ignore, domain_name->0@)
            &&& !config.scheme_and_host_mapping_file->0@.contains_key(domain_name->0@)
        },
{
}

} // verus!
