//! Scanning one conversation unit: parsing its two documents, classifying it
//! as a guild channel or a direct/group conversation, and resolving its
//! display names through the optional name mappings.

use vstd::prelude::*;
use vstd::string::StrSliceExecFns;
use vstd::string::StringExecFns;
use crate::errors::MyError;
use crate::json;
use crate::mapping::NameMapping;

verus! {

/// The raw material of one conversation unit, read from its subdirectory:
/// the directory name and the contents of its two required files.
pub struct UnitData {
    pub unit_id: String,
    pub channel_json: String,
    pub messages_json: String,
}

/// How a unit's metadata classified it.
pub enum UnitKind {
    /// The metadata exposes no guild reference.
    Direct,
    /// The metadata exposes a guild reference. `guild_id` is the reference's
    /// `id` field where that is a string; `channel_name` is the metadata's
    /// own `name` field where that is a string.
    GuildChannel { guild_id: Option<String>, channel_name: Option<String> },
}

/// One unit after parsing: its id, its message count, and its classification.
pub struct ScannedUnit {
    pub unit_id: String,
    pub message_count: usize,
    pub kind: UnitKind,
}

/// One unit after name resolution, ready for aggregation.
pub enum ResolvedUnit {
    Direct { name: String, message_count: usize },
    GuildChannel {
        guild_id: String,
        guild_name: String,
        channel_name: String,
        message_count: usize,
    },
}

/// Parses one unit's two documents and classifies the unit.
///
/// Both files of the unit exist (candidates missing either were skipped
/// before this point), so a document that does not parse is a hard error.
pub fn scan_unit(unit: &UnitData) -> (r: Result<ScannedUnit, MyError>)
    ensures
        r is Ok <==> json::json_doc_ok(unit.channel_json@) && json::json_array_len(
            unit.messages_json@,
        ) is Some,
        r matches Ok(s) ==> s.unit_id@ == unit.unit_id@ && json::json_array_len(
            unit.messages_json@,
        ) == Some(s.message_count as int),
        r matches Err(e) ==> e is Json,
{
    let doc = match json::parse_document(unit.channel_json.as_str()) {
        Some(d) => d,
        None => {
            return Err(MyError::Json("unit metadata is not valid JSON".to_owned()));
        },
    };
    let messages = match json::parse_array(unit.messages_json.as_str()) {
        Some(v) => v,
        None => {
            return Err(MyError::Json("unit message list is not a JSON array".to_owned()));
        },
    };
    let message_count = messages.len();
    let kind = match json::get_field(&doc, "guild") {
        Some(guild_info) => {
            let guild_id = match json::get_field(guild_info, "id") {
                Some(v) => json::get_str(v),
                None => None,
            };
            let channel_name = match json::get_field(&doc, "name") {
                Some(v) => json::get_str(v),
                None => None,
            };
            UnitKind::GuildChannel { guild_id, channel_name }
        },
        None => UnitKind::Direct,
    };
    Ok(ScannedUnit { unit_id: unit.unit_id.clone(), message_count, kind })
}

/// Whether every unit of a sequence parses cleanly.
pub open spec fn all_units_parse(units: Seq<UnitData>) -> bool {
    forall|i: int|
        0 <= i < units.len() ==> json::json_doc_ok(#[trigger] units[i].channel_json@)
            && json::json_array_len(units[i].messages_json@) is Some
}

/// Scans a whole listing of units, stopping at the first unit that does not
/// parse, as the run aborts on the first fatal error.
pub fn scan_units(units: &Vec<UnitData>) -> (r: Result<Vec<ScannedUnit>, MyError>)
    ensures
        r is Ok <==> all_units_parse(units@),
        r matches Ok(s) ==> s@.len() == units@.len() && forall|i: int|
            0 <= i < s@.len() ==> (#[trigger] s@[i]).unit_id@ == units@[i].unit_id@
                && json::json_array_len(units@[i].messages_json@) == Some(
                s@[i].message_count as int,
            ),
        r matches Err(e) ==> e is Json,
{
    let mut scanned: Vec<ScannedUnit> = Vec::new();
    let n = units.len();
    let mut i: usize = 0;
    while i < n
        invariant
            n == units@.len(),
            i <= n,
            scanned@.len() == i,
            forall|j: int|
                0 <= j < i ==> json::json_doc_ok(#[trigger] units@[j].channel_json@)
                    && json::json_array_len(units@[j].messages_json@) is Some,
            forall|j: int|
                0 <= j < i ==> (#[trigger] scanned@[j]).unit_id@ == units@[j].unit_id@
                    && json::json_array_len(units@[j].messages_json@) == Some(
                    scanned@[j].message_count as int,
                ),
        decreases n - i,
    {
        match scan_unit(&units[i]) {
            Ok(s) => {
                scanned.push(s);
            },
            Err(e) => {
                return Err(e);
            },
        }
        proof {
            assert forall|j: int|
                0 <= j < i + 1 implies json::json_doc_ok(#[trigger] units@[j].channel_json@)
                && json::json_array_len(units@[j].messages_json@) is Some by {
                if j == i {
                    assert(json::json_doc_ok(units@[i as int].channel_json@));
                }
            };
        }
        i = i + 1;
    }
    Ok(scanned)
}

/// The unit id with a single leading `c` removed, an artifact of the export
/// format's ids for direct/group conversation containers.
pub open spec fn strip_leading_c(id: Seq<char>) -> Seq<char> {
    if id.len() > 0 && id[0] == 'c' {
        id.subrange(1, id.len() as int)
    } else {
        id
    }
}

/// What an optional mapping yields for a key: `None` where the mapping is
/// absent or lacks the key.
pub open spec fn mapping_get(m: Option<NameMapping>, k: Seq<char>) -> Option<Seq<char>> {
    match m {
        Some(nm) => nm.spec_get(k),
        None => None,
    }
}

/// An optional mapping is well-formed where present.
pub open spec fn opt_wf(m: Option<NameMapping>) -> bool {
    m matches Some(nm) ==> nm.wf()
}

/// The display name of a direct/group conversation: the channel mapping's
/// entry for the stripped id, else `"Conversation {unitId}"` with the
/// unstripped id.
pub open spec fn spec_direct_name(cm: Option<NameMapping>, unit_id: Seq<char>) -> Seq<char> {
    match mapping_get(cm, strip_leading_c(unit_id)) {
        Some(n) => n,
        None => "Conversation "@ + unit_id,
    }
}

/// The guild id a unit's guild reference denotes: its `id` string, else the
/// sentinel `"Unknown"`, so such units still merge into one synthetic guild.
pub open spec fn spec_guild_id(raw: Option<String>) -> Seq<char> {
    match raw {
        Some(s) => s@,
        None => "Unknown"@,
    }
}

/// The display name of a guild: the guild mapping's entry for the guild id,
/// else `"Guild {guildId}"`.
pub open spec fn spec_guild_name(gm: Option<NameMapping>, guild_id: Seq<char>) -> Seq<char> {
    match mapping_get(gm, guild_id) {
        Some(n) => n,
        None => "Guild "@ + guild_id,
    }
}

/// The display name of a guild channel: the metadata's own name, else the
/// unit id.
pub open spec fn spec_channel_name(raw: Option<String>, unit_id: Seq<char>) -> Seq<char> {
    match raw {
        Some(s) => s@,
        None => unit_id,
    }
}

/// The mathematical image of a resolved unit: its display names as character
/// sequences and its count as an integer.
pub ghost enum ResolvedView {
    Direct { name: Seq<char>, message_count: int },
    Channel {
        guild_id: Seq<char>,
        guild_name: Seq<char>,
        channel_name: Seq<char>,
        message_count: int,
    },
}

impl View for ResolvedUnit {
    type V = ResolvedView;

    open spec fn view(&self) -> ResolvedView {
        match self {
            ResolvedUnit::Direct { name, message_count } => ResolvedView::Direct {
                name: name@,
                message_count: *message_count as int,
            },
            ResolvedUnit::GuildChannel { guild_id, guild_name, channel_name, message_count } => {
                ResolvedView::Channel {
                    guild_id: guild_id@,
                    guild_name: guild_name@,
                    channel_name: channel_name@,
                    message_count: *message_count as int,
                }
            },
        }
    }
}

/// What resolving a scanned unit yields, as a function of the unit and the
/// mappings: the fallback rules of the export format, in one place.
pub open spec fn spec_resolve(
    s: ScannedUnit,
    cm: Option<NameMapping>,
    gm: Option<NameMapping>,
) -> ResolvedView {
    match s.kind {
        UnitKind::Direct => ResolvedView::Direct {
            name: spec_direct_name(cm, s.unit_id@),
            message_count: s.message_count as int,
        },
        UnitKind::GuildChannel { guild_id, channel_name } => ResolvedView::Channel {
            guild_id: spec_guild_id(guild_id),
            guild_name: spec_guild_name(gm, spec_guild_id(guild_id)),
            channel_name: spec_channel_name(channel_name, s.unit_id@),
            message_count: s.message_count as int,
        },
    }
}

/// How a resolved unit relates to the scanned unit it came from.
pub open spec fn resolves(
    s: ScannedUnit,
    r: ResolvedUnit,
    cm: Option<NameMapping>,
    gm: Option<NameMapping>,
) -> bool {
    r@ == spec_resolve(s, cm, gm)
}

fn lookup(m: &Option<NameMapping>, key: &str) -> (r: Option<String>)
    requires
        opt_wf(*m),
    ensures
        r matches Some(v) ==> mapping_get(*m, key@) == Some(v@),
        r is None ==> mapping_get(*m, key@) is None,
{
    match m {
        Some(nm) => nm.get(key),
        None => None,
    }
}

fn strip_prefix_c(id: &str) -> (r: String)
    ensures
        r@ == strip_leading_c(id@),
{
    let n = id.unicode_len();
    if n > 0 && id.get_char(0) == 'c' {
        let stripped = id.substring_char(1, n);
        stripped.to_owned()
    } else {
        id.to_owned()
    }
}

/// Resolves one scanned unit's display names through the optional mappings,
/// applying the fallback rules of the export format.
pub fn resolve_unit(
    unit: &ScannedUnit,
    channel_mapping: &Option<NameMapping>,
    guild_mapping: &Option<NameMapping>,
) -> (r: ResolvedUnit)
    requires
        opt_wf(*channel_mapping),
        opt_wf(*guild_mapping),
    ensures
        resolves(*unit, r, *channel_mapping, *guild_mapping),
{
    match &unit.kind {
        UnitKind::Direct => {
            let key = strip_prefix_c(unit.unit_id.as_str());
            let name = match lookup(channel_mapping, key.as_str()) {
                Some(n) => n,
                None => "Conversation ".to_owned().concat(unit.unit_id.as_str()),
            };
            ResolvedUnit::Direct { name, message_count: unit.message_count }
        },
        UnitKind::GuildChannel { guild_id, channel_name } => {
            let gid: String = match guild_id {
                Some(s) => s.clone(),
                None => "Unknown".to_owned(),
            };
            let gname = match lookup(guild_mapping, gid.as_str()) {
                Some(n) => n,
                None => "Guild ".to_owned().concat(gid.as_str()),
            };
            let cname = match channel_name {
                Some(s) => s.clone(),
                None => unit.unit_id.clone(),
            };
            ResolvedUnit::GuildChannel {
                guild_id: gid,
                guild_name: gname,
                channel_name: cname,
                message_count: unit.message_count,
            }
        },
    }
}

/// Resolves a whole sequence of scanned units, in order.
pub fn resolve_units(
    scanned: &Vec<ScannedUnit>,
    channel_mapping: &Option<NameMapping>,
    guild_mapping: &Option<NameMapping>,
) -> (r: Vec<ResolvedUnit>)
    requires
        opt_wf(*channel_mapping),
        opt_wf(*guild_mapping),
    ensures
        r@.len() == scanned@.len(),
        forall|i: int|
            0 <= i < r@.len() ==> resolves(
                scanned@[i],
                #[trigger] r@[i],
                *channel_mapping,
                *guild_mapping,
            ),
{
    let mut resolved: Vec<ResolvedUnit> = Vec::new();
    let n = scanned.len();
    let mut i: usize = 0;
    while i < n
        invariant
            n == scanned@.len(),
            i <= n,
            resolved@.len() == i,
            opt_wf(*channel_mapping),
            opt_wf(*guild_mapping),
            forall|j: int|
                0 <= j < i ==> resolves(
                    scanned@[j],
                    #[trigger] resolved@[j],
                    *channel_mapping,
                    *guild_mapping,
                ),
        decreases n - i,
    {
        let r = resolve_unit(&scanned[i], channel_mapping, guild_mapping);
        resolved.push(r);
        i = i + 1;
    }
    resolved
}

} // verus!

