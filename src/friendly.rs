use vstd::prelude::*;
use crate::matcher::{contains_chars, contains_seq};
use crate::normalize::chars_of;

verus! {

/// What `String::from_utf16_lossy` makes of a run of UTF-16 code units.
pub uninterp spec fn utf16_lossy(units: Seq<u16>) -> Seq<char>;

/// Relies on `String::from_utf16_lossy`: decodes UTF-16, replacing invalid
/// units; the result depends on the units alone.
#[verifier::external_body]
fn decode_utf16_lossy(units: &[u16]) -> (r: String)
    ensures
        r@ == utf16_lossy(units@),
{
    String::from_utf16_lossy(units)
}

/// `s` without the NUL characters at its end.
pub open spec fn trim_trailing_nuls(s: Seq<char>) -> Seq<char>
    decreases s.len(),
{
    if s.len() > 0 && s.last() == '\0' {
        trim_trailing_nuls(s.drop_last())
    } else {
        s
    }
}

/// Removes the NUL characters that pad the end of a fixed-width field.
pub fn trim_nuls(s: &str) -> (r: String)
    ensures
        r@ == trim_trailing_nuls(s@),
{
    let mut end = s.unicode_len();
    assert(s@.subrange(0, end as int) =~= s@);
    while end > 0 && s.get_char(end - 1) == '\0'
        invariant
            end <= s@.len(),
            trim_trailing_nuls(s@) == trim_trailing_nuls(s@.subrange(0, end as int)),
        decreases end,
    {
        assert(s@.subrange(0, end as int).drop_last() =~= s@.subrange(0, end - 1));
        end = end - 1;
    }
    let kept = s.substring_char(0, end);
    String::from_str(kept)
}

/// One entry of the system's display-device table, decoded.
#[derive(Debug, Clone, PartialEq, Eq)]
pub struct DisplayEntry {
    pub device_name: String,
    pub description: String,
}

impl DisplayEntry {
    /// Decodes an entry from its fixed-width UTF-16 fields, dropping the NUL
    /// padding at their ends.
    pub fn from_wide(device_name: &[u16], description: &[u16]) -> (r: DisplayEntry)
        ensures
            r.device_name@ == trim_trailing_nuls(utf16_lossy(device_name@)),
            r.description@ == trim_trailing_nuls(utf16_lossy(description@)),
    {
        let name = decode_utf16_lossy(device_name);
        let desc = decode_utf16_lossy(description);
        DisplayEntry { device_name: trim_nuls(name.as_str()), description: trim_nuls(desc.as_str()) }
    }
}

/// An entry named `entry_name` belongs to the device `identifier` when either
/// one is part of the other.
pub open spec fn entry_belongs(identifier: Seq<char>, entry_name: Seq<char>) -> bool {
    contains_seq(identifier, entry_name) || contains_seq(entry_name, identifier)
}

/// Whether the entry named `entry_name` belongs to the device `identifier`.
pub fn entry_matches(identifier: &str, entry_name: &str) -> (r: bool)
    ensures
        r == entry_belongs(identifier@, entry_name@),
{
    let id = chars_of(identifier);
    let name = chars_of(entry_name);
    contains_chars(&id, &name) || contains_chars(&name, &id)
}

/// The next step of a friendly-name lookup.
#[derive(Debug, Clone, PartialEq, Eq)]
pub enum LookupStep {
    /// Ask the system for the entry at this index.
    Query(u32),
    /// The lookup is over: this is the friendly name.
    Found(String),
    /// The lookup is over without a friendly name.
    Absent,
}

/// The next step of a friendly-name lookup, as a value.
pub enum LookupModel {
    Query(u32),
    Found(Seq<char>),
    Absent,
}

impl LookupStep {
    pub open spec fn model(&self) -> LookupModel {
        match self {
            LookupStep::Query(i) => LookupModel::Query(*i),
            LookupStep::Found(d) => LookupModel::Found(d@),
            LookupStep::Absent => LookupModel::Absent,
        }
    }
}

/// A table entry as (device name, description).
pub open spec fn entry_view(entry: Option<DisplayEntry>) -> Option<(Seq<char>, Seq<char>)> {
    match entry {
        Some(e) => Some((e.device_name@, e.description@)),
        None => None,
    }
}

/// The step after the system answered the query at `index` with `entry`.
pub open spec fn lookup_model(
    identifier: Seq<char>,
    index: u32,
    entry: Option<(Seq<char>, Seq<char>)>,
) -> LookupModel {
    match entry {
        None => LookupModel::Absent,
        Some(e) => if entry_belongs(identifier, e.0) {
            LookupModel::Found(e.1)
        } else if index < u32::MAX {
            LookupModel::Query((index + 1) as u32)
        } else {
            LookupModel::Absent
        },
    }
}

/// The answer of a system whose table is `table`: the entry at `index`, or
/// none past its end.
pub open spec fn table_entry(table: Seq<(Seq<char>, Seq<char>)>, index: u32) -> Option<(Seq<char>, Seq<char>)> {
    if index < table.len() {
        Some(table[index as int])
    } else {
        None
    }
}

/// The step a lookup ends on when it is driven from `index` against `table`.
pub open spec fn walk(identifier: Seq<char>, table: Seq<(Seq<char>, Seq<char>)>, index: u32) -> LookupModel
    decreases table.len() - index,
{
    match lookup_model(identifier, index, table_entry(table, index)) {
        LookupModel::Query(next) => if index < table.len() && next == index + 1 {
            walk(identifier, table, next)
        } else {
            LookupModel::Query(next)
        },
        other => other,
    }
}

/// The description of the first entry of `table` from `index` on that
/// belongs to the device `identifier`.
pub open spec fn first_belonging(identifier: Seq<char>, table: Seq<(Seq<char>, Seq<char>)>, index: int) -> Option<Seq<char>>
    decreases table.len() - index,
{
    if index < 0 || index >= table.len() {
        None
    } else if entry_belongs(identifier, table[index].0) {
        Some(table[index].1)
    } else {
        first_belonging(identifier, table, index + 1)
    }
}

proof fn lemma_walk_from(identifier: Seq<char>, table: Seq<(Seq<char>, Seq<char>)>, index: u32)
    requires
        table.len() < u32::MAX,
    ensures
        walk(identifier, table, index) == match first_belonging(identifier, table, index as int) {
            Some(d) => LookupModel::Found(d),
            None => LookupModel::Absent,
        },
    decreases table.len() - index,
{
    if index < table.len() {
        if !entry_belongs(identifier, table[index as int].0) {
            lemma_walk_from(identifier, table, (index + 1) as u32);
        }
    }
}

/// A lookup that starts at index 0 and follows each step against a table
/// ends with the description of the first entry, by increasing index, that
/// belongs to the device, and without a name when no entry does.
pub proof fn lemma_lookup_finds_first(identifier: Seq<char>, table: Seq<(Seq<char>, Seq<char>)>)
    requires
        table.len() < u32::MAX,
    ensures
        walk(identifier, table, 0) == match first_belonging(identifier, table, 0) {
            Some(d) => LookupModel::Found(d),
            None => LookupModel::Absent,
        },
{
    lemma_walk_from(identifier, table, 0);
}

/// Decides the lookup for the device `identifier` after the system answered
/// the query at `index` with `entry` (`None`: no entry there, whether the
/// table ended or the call failed). The first entry that belongs to the
/// device gives its description; the table is walked by increasing index,
/// and the lookup ends without a name where it runs out.
pub fn lookup_step(identifier: &str, index: u32, entry: Option<DisplayEntry>) -> (r: LookupStep)
    ensures
        r.model() == lookup_model(identifier@, index, entry_view(entry)),
{
    match entry {
        None => LookupStep::Absent,
        Some(e) => {
            if entry_matches(identifier, e.device_name.as_str()) {
                LookupStep::Found(e.description)
            } else if index < u32::MAX {
                LookupStep::Query(index + 1)
            } else {
                LookupStep::Absent
            }
        },
    }
}

} // verus!
