//! Folding resolved units into the final conversation collection: direct and
//! group conversations in scan order, followed by the guilds, each guild
//! accumulating its member channels in first-seen order.

use vstd::prelude::*;
use crate::errors::MyError;
use crate::mapping::NameMapping;
use crate::model::{sum_channel_counts, sum_conversation_counts, Channel, Conversation};
use crate::scan::{
    all_units_parse, opt_wf, resolve_units, scan_units, spec_resolve, ResolvedUnit, ResolvedView,
    ScannedUnit, UnitData,
};

verus! {

/// The mathematical image of one flat entry: a direct conversation, or one
/// channel inside a guild.
pub ghost struct EntryView {
    pub name: Seq<char>,
    pub message_count: int,
}

/// The mathematical image of a guild being accumulated.
pub ghost struct GuildView {
    pub id: Seq<char>,
    pub name: Seq<char>,
    pub message_count: int,
    pub channels: Seq<EntryView>,
}

/// The image of an executable channel.
pub open spec fn channel_view(c: Channel) -> EntryView {
    EntryView { name: c.name@, message_count: c.message_count as int }
}

/// The entry a direct/group unit contributes.
pub open spec fn direct_entry(u: ResolvedView) -> EntryView {
    EntryView { name: u->Direct_name, message_count: u->Direct_message_count }
}

/// The channel a guild unit contributes to its guild.
pub open spec fn channel_entry(u: ResolvedView) -> EntryView {
    EntryView { name: u->Channel_channel_name, message_count: u->Channel_message_count }
}

/// A resolved unit's message count, whatever its kind.
pub open spec fn view_count(u: ResolvedView) -> int {
    match u {
        ResolvedView::Direct { message_count, .. } => message_count,
        ResolvedView::Channel { message_count, .. } => message_count,
    }
}

/// Every count of the sequence fits the machine's word size. Views taken of
/// executable units always do.
pub open spec fn view_counts_ok(units: Seq<ResolvedView>) -> bool {
    forall|i: int| 0 <= i < units.len() ==> 0 <= view_count(#[trigger] units[i]) <= usize::MAX
}

/// The sum of all units' message counts.
pub open spec fn total_count(units: Seq<ResolvedView>) -> int
    decreases units.len(),
{
    if units.len() == 0 {
        0
    } else {
        total_count(units.drop_last()) + view_count(units.last())
    }
}

/// The sum of the entries' message counts.
pub open spec fn sum_entry_counts(entries: Seq<EntryView>) -> int
    decreases entries.len(),
{
    if entries.len() == 0 {
        0
    } else {
        sum_entry_counts(entries.drop_last()) + entries.last().message_count
    }
}

/// The sum of the guilds' message counts.
pub open spec fn sum_guild_counts(guilds: Seq<GuildView>) -> int
    decreases guilds.len(),
{
    if guilds.len() == 0 {
        0
    } else {
        sum_guild_counts(guilds.drop_last()) + guilds.last().message_count
    }
}

/// The sum of the guild-channel units' counts alone.
pub open spec fn channel_total(units: Seq<ResolvedView>) -> int
    decreases units.len(),
{
    if units.len() == 0 {
        0
    } else {
        channel_total(units.drop_last()) + if units.last() is Channel {
            view_count(units.last())
        } else {
            0
        }
    }
}

/// The sum of the direct/group units' counts alone.
pub open spec fn direct_total(units: Seq<ResolvedView>) -> int
    decreases units.len(),
{
    if units.len() == 0 {
        0
    } else {
        direct_total(units.drop_last()) + if units.last() is Direct {
            view_count(units.last())
        } else {
            0
        }
    }
}

/// The views of a sequence of executable resolved units.
pub open spec fn views_of(units: Seq<ResolvedUnit>) -> Seq<ResolvedView> {
    units.map_values(|u: ResolvedUnit| u@)
}

/// The direct/group entries of a unit sequence, in scan order.
pub open spec fn agg_directs(units: Seq<ResolvedView>) -> Seq<EntryView>
    decreases units.len(),
{
    if units.len() == 0 {
        Seq::empty()
    } else {
        let prev = agg_directs(units.drop_last());
        if units.last() is Direct {
            prev.push(direct_entry(units.last()))
        } else {
            prev
        }
    }
}

/// Whether a guild with this id has been accumulated.
pub open spec fn has_guild(guilds: Seq<GuildView>, id: Seq<char>) -> bool {
    exists|j: int| 0 <= j < guilds.len() && guilds[j].id == id
}

/// The position of the guild with this id. Unique whenever the ids are
/// distinct, which aggregation maintains.
pub open spec fn guild_index(guilds: Seq<GuildView>, id: Seq<char>) -> int {
    choose|j: int| 0 <= j < guilds.len() && guilds[j].id == id
}

/// Folding one guild channel in: the owning guild's total grows by the
/// channel's count and the channel is appended to its member list; a guild id
/// seen for the first time opens a new guild at the end.
pub open spec fn add_channel(guilds: Seq<GuildView>, u: ResolvedView) -> Seq<GuildView> {
    let gid = u->Channel_guild_id;
    if has_guild(guilds, gid) {
        let j = guild_index(guilds, gid);
        let g = guilds[j];
        guilds.update(
            j,
            GuildView {
                id: g.id,
                name: g.name,
                message_count: g.message_count + u->Channel_message_count,
                channels: g.channels.push(channel_entry(u)),
            },
        )
    } else {
        guilds.push(
            GuildView {
                id: gid,
                name: u->Channel_guild_name,
                message_count: u->Channel_message_count,
                channels: seq![channel_entry(u)],
            },
        )
    }
}

/// The guilds a unit sequence accumulates, in first-seen order.
pub open spec fn agg_guilds(units: Seq<ResolvedView>) -> Seq<GuildView>
    decreases units.len(),
{
    if units.len() == 0 {
        Seq::empty()
    } else {
        let prev = agg_guilds(units.drop_last());
        if units.last() is Channel {
            add_channel(prev, units.last())
        } else {
            prev
        }
    }
}

/// The shape aggregation maintains: guild ids distinct, and every guild's
/// count equal to the sum of its channels' counts.
pub open spec fn guilds_wf(guilds: Seq<GuildView>) -> bool {
    &&& forall|p: int, q: int|
        0 <= p < q < guilds.len() ==> (#[trigger] guilds[p]).id != (#[trigger] guilds[q]).id
    &&& forall|j: int|
        0 <= j < guilds.len() ==> (#[trigger] guilds[j]).message_count == sum_entry_counts(
            guilds[j].channels,
        )
    &&& forall|j: int| 0 <= j < guilds.len() ==> (#[trigger] guilds[j]).message_count >= 0
}

proof fn lemma_sum_guilds_update(guilds: Seq<GuildView>, j: int, g: GuildView)
    requires
        0 <= j < guilds.len(),
    ensures
        sum_guild_counts(guilds.update(j, g)) == sum_guild_counts(guilds)
            - guilds[j].message_count + g.message_count,
    decreases guilds.len(),
{
    let upd = guilds.update(j, g);
    if j == guilds.len() - 1 {
        assert(upd.drop_last() =~= guilds.drop_last());
    } else {
        assert(upd.drop_last() =~= guilds.drop_last().update(j, g));
        lemma_sum_guilds_update(guilds.drop_last(), j, g);
        assert(upd.last() == guilds.last());
    }
}

proof fn lemma_sum_guilds_nonneg(guilds: Seq<GuildView>)
    requires
        forall|k: int| 0 <= k < guilds.len() ==> (#[trigger] guilds[k]).message_count >= 0,
    ensures
        sum_guild_counts(guilds) >= 0,
    decreases guilds.len(),
{
    if guilds.len() > 0 {
        lemma_sum_guilds_nonneg(guilds.drop_last());
    }
}

proof fn lemma_guild_count_le_sum(guilds: Seq<GuildView>, j: int)
    requires
        0 <= j < guilds.len(),
        forall|k: int| 0 <= k < guilds.len() ==> (#[trigger] guilds[k]).message_count >= 0,
    ensures
        guilds[j].message_count <= sum_guild_counts(guilds),
    decreases guilds.len(),
{
    if j == guilds.len() - 1 {
        lemma_sum_guilds_nonneg(guilds.drop_last());
    } else {
        lemma_guild_count_le_sum(guilds.drop_last(), j);
    }
}

/// Aggregation maintains its shape, and never accumulates more than the
/// units' total message count.
#[verifier::rlimit(50)]
pub proof fn lemma_agg_guilds_wf(units: Seq<ResolvedView>)
    requires
        view_counts_ok(units),
    ensures
        guilds_wf(agg_guilds(units)),
        sum_guild_counts(agg_guilds(units)) == channel_total(units),
        0 <= channel_total(units) <= total_count(units),
    decreases units.len(),
{
    if units.len() > 0 {
        let prev_units = units.drop_last();
        lemma_agg_guilds_wf(prev_units);
        let prev = agg_guilds(prev_units);
        let u = units.last();
        assert(view_count(u) >= 0);
        if u is Channel {
            let gid = u->Channel_guild_id;
            if has_guild(prev, gid) {
                let j = guild_index(prev, gid);
                let g = prev[j];
                let g2 = GuildView {
                    id: g.id,
                    name: g.name,
                    message_count: g.message_count + u->Channel_message_count,
                    channels: g.channels.push(channel_entry(u)),
                };
                lemma_sum_guilds_update(prev, j, g2);
                assert(g2.channels.drop_last() =~= g.channels);
                assert(sum_entry_counts(g2.channels) == sum_entry_counts(g.channels)
                    + u->Channel_message_count);
                assert(g2.message_count == sum_entry_counts(g2.channels));
            } else {
                let g2 = GuildView {
                    id: gid,
                    name: u->Channel_guild_name,
                    message_count: u->Channel_message_count,
                    channels: seq![channel_entry(u)],
                };
                assert(g2.channels.drop_last() =~= Seq::<EntryView>::empty());
                assert(g2.channels.last() == channel_entry(u));
                assert(sum_entry_counts(Seq::<EntryView>::empty()) == 0);
                assert(g2.message_count == sum_entry_counts(g2.channels));
                assert(agg_guilds(units).drop_last() =~= prev);
            }
        }
    }
}

/// The total of a prefix one longer grows by the next unit's count.
pub proof fn lemma_total_take_succ(units: Seq<ResolvedView>, i: int)
    requires
        0 <= i < units.len(),
    ensures
        total_count(units.take(i + 1)) == total_count(units.take(i)) + view_count(units[i]),
{
    assert(units.take(i + 1).drop_last() =~= units.take(i));
    assert(units.take(i + 1).last() == units[i]);
}

/// A prefix never exceeds the whole sequence's total.
pub proof fn lemma_total_take_le(units: Seq<ResolvedView>, i: int)
    requires
        0 <= i <= units.len(),
        view_counts_ok(units),
    ensures
        total_count(units.take(i)) <= total_count(units),
    decreases units.len() - i,
{
    if i == units.len() {
        assert(units.take(i) =~= units);
    } else {
        lemma_total_take_succ(units, i);
        lemma_total_take_le(units, i + 1);
    }
}

/// The channels the units with a given guild id contribute, in scan order.
pub open spec fn channels_of_guild(units: Seq<ResolvedView>, id: Seq<char>) -> Seq<EntryView>
    decreases units.len(),
{
    if units.len() == 0 {
        Seq::empty()
    } else {
        let prev = channels_of_guild(units.drop_last(), id);
        if units.last() is Channel && units.last()->Channel_guild_id == id {
            prev.push(channel_entry(units.last()))
        } else {
            prev
        }
    }
}

/// Every unit that supplies a guild reference is attributed to exactly one
/// guild, keyed by guild id, never duplicated and never dropped: guild ids
/// are distinct, each guild holds exactly the channels of the units bearing
/// its id in scan order, and a guild exists exactly for the ids that some
/// unit bears.
pub proof fn lemma_channels_attributed(units: Seq<ResolvedView>)
    ensures
        forall|p: int, q: int|
            0 <= p < q < agg_guilds(units).len() ==> (#[trigger] agg_guilds(units)[p]).id != (
            #[trigger] agg_guilds(units)[q]).id,
        forall|j: int|
            0 <= j < agg_guilds(units).len() ==> (#[trigger] agg_guilds(units)[j]).channels
                == channels_of_guild(units, agg_guilds(units)[j].id),
        forall|id: Seq<char>|
            has_guild(agg_guilds(units), id) <==> channels_of_guild(units, id).len() > 0,
    decreases units.len(),
{
    if units.len() > 0 {
        let prev_units = units.drop_last();
        lemma_channels_attributed(prev_units);
        let prev = agg_guilds(prev_units);
        let u = units.last();
        let gs = agg_guilds(units);
        if u is Channel {
            let gid = u->Channel_guild_id;
            assert(gs == add_channel(prev, u));
            if has_guild(prev, gid) {
                let j = guild_index(prev, gid);
                assert(0 <= j < prev.len() && prev[j].id == gid);
                assert forall|l: int|
                    0 <= l < gs.len() implies (#[trigger] gs[l]).channels == channels_of_guild(
                    units,
                    gs[l].id,
                ) by {
                    if l == j {
                        assert(gs[l].id == gid);
                        assert(channels_of_guild(units, gid) == channels_of_guild(
                            prev_units,
                            gid,
                        ).push(channel_entry(u)));
                    } else {
                        assert(prev[l].id != gid);
                        assert(channels_of_guild(units, prev[l].id) == channels_of_guild(
                            prev_units,
                            prev[l].id,
                        ));
                    }
                };
                assert forall|id: Seq<char>|
                    has_guild(gs, id) <==> channels_of_guild(units, id).len() > 0 by {
                    if id == gid {
                        assert(gs[j].id == id);
                        assert(has_guild(gs, id));
                    } else {
                        assert(channels_of_guild(units, id) == channels_of_guild(prev_units, id));
                        assert(has_guild(gs, id) <==> has_guild(prev, id)) by {
                            if has_guild(gs, id) {
                                let l = choose|l: int|
                                    0 <= l < gs.len() && gs[l].id == id;
                                assert(prev[l].id == id);
                            }
                            if has_guild(prev, id) {
                                let l = choose|l: int|
                                    0 <= l < prev.len() && prev[l].id == id;
                                assert(gs[l].id == id);
                            }
                        };
                    }
                };
            } else {
                let jn = prev.len() as int;
                assert(gs[jn].id == gid);
                assert forall|l: int|
                    0 <= l < gs.len() implies (#[trigger] gs[l]).channels == channels_of_guild(
                    units,
                    gs[l].id,
                ) by {
                    if l == jn {
                        assert(!(channels_of_guild(prev_units, gid).len() > 0));
                        assert(channels_of_guild(prev_units, gid) =~= Seq::<EntryView>::empty());
                        assert(channels_of_guild(units, gid) == channels_of_guild(
                            prev_units,
                            gid,
                        ).push(channel_entry(u)));
                        assert(gs[l].channels =~= channels_of_guild(units, gid));
                    } else {
                        assert(gs[l] == prev[l]);
                        assert(prev[l].id != gid) by {
                            if prev[l].id == gid {
                                assert(has_guild(prev, gid));
                            }
                        };
                        assert(channels_of_guild(units, prev[l].id) == channels_of_guild(
                            prev_units,
                            prev[l].id,
                        ));
                    }
                };
                assert forall|p: int, q: int|
                    0 <= p < q < gs.len() implies (#[trigger] gs[p]).id != (
                #[trigger] gs[q]).id by {
                    if q == jn {
                        assert(gs[p] == prev[p]);
                        if prev[p].id == gid {
                            assert(has_guild(prev, gid));
                        }
                    }
                };
                assert forall|id: Seq<char>|
                    has_guild(gs, id) <==> channels_of_guild(units, id).len() > 0 by {
                    if id == gid {
                        assert(has_guild(gs, id));
                    } else {
                        assert(channels_of_guild(units, id) == channels_of_guild(prev_units, id));
                        assert(has_guild(gs, id) <==> has_guild(prev, id)) by {
                            if has_guild(gs, id) {
                                let l = choose|l: int|
                                    0 <= l < gs.len() && gs[l].id == id;
                                assert(l != jn);
                                assert(prev[l].id == id);
                            }
                            if has_guild(prev, id) {
                                let l = choose|l: int|
                                    0 <= l < prev.len() && prev[l].id == id;
                                assert(gs[l].id == id);
                            }
                        };
                    }
                };
            }
        } else {
            assert(gs == prev);
            assert forall|id: Seq<char>|
                channels_of_guild(units, id) == channels_of_guild(prev_units, id) by {};
        }
    }
}

/// A guild being accumulated during the scan: its stable id, its display
/// name, its running total, and its member channels in first-seen order.
pub struct GuildAcc {
    pub id: String,
    pub name: String,
    pub message_count: usize,
    pub channels: Vec<Channel>,
}

/// The image of a guild accumulator.
pub open spec fn guild_acc_view(g: GuildAcc) -> GuildView {
    GuildView {
        id: g.id@,
        name: g.name@,
        message_count: g.message_count as int,
        channels: g.channels@.map_values(|c: Channel| channel_view(c)),
    }
}

/// The images of a sequence of guild accumulators.
pub open spec fn gview(s: Seq<GuildAcc>) -> Seq<GuildView> {
    s.map_values(|g: GuildAcc| guild_acc_view(g))
}

fn find_guild(guilds: &Vec<GuildAcc>, id: &String) -> (r: Option<usize>)
    ensures
        r matches Some(k) ==> k < guilds@.len() && guild_acc_view(guilds@[k as int]).id == id@,
        r is None ==> !has_guild(gview(guilds@), id@),
{
    let n = guilds.len();
    let mut k: usize = 0;
    while k < n
        invariant
            n == guilds@.len(),
            k <= n,
            forall|j: int| 0 <= j < k ==> (#[trigger] guilds@[j]).id@ != id@,
        decreases n - k,
    {
        if guilds[k].id == *id {
            return Some(k);
        }
        k = k + 1;
    }
    proof {
        assert forall|j: int|
            0 <= j < gview(guilds@).len() implies (#[trigger] gview(guilds@)[j]).id != id@ by {
            assert(gview(guilds@)[j] == guild_acc_view(guilds@[j]));
        };
    }
    None
}

/// How one report entry realizes a direct/group image.
pub open spec fn conv_matches_direct(c: Conversation, e: EntryView) -> bool {
    c matches Conversation::DmOrGc { name, message_count } && name@ == e.name
        && message_count as int == e.message_count
}

/// How one report entry realizes a guild image.
pub open spec fn conv_matches_guild(c: Conversation, g: GuildView) -> bool {
    c matches Conversation::Guild { name, message_count, channels } && name@ == g.name
        && message_count as int == g.message_count && channels@.map_values(
        |ch: Channel| channel_view(ch),
    ) == g.channels
}

/// How the final collection realizes the aggregation: the direct/group
/// entries in scan order, then the guilds in first-seen order.
pub open spec fn convs_match(
    convs: Seq<Conversation>,
    ds: Seq<EntryView>,
    gs: Seq<GuildView>,
) -> bool {
    &&& convs.len() == ds.len() + gs.len()
    &&& forall|i: int| 0 <= i < ds.len() ==> conv_matches_direct(#[trigger] convs[i], ds[i])
    &&& forall|j: int|
        0 <= j < gs.len() ==> conv_matches_guild(#[trigger] convs[ds.len() + j], gs[j])
}

proof fn lemma_sum_channel_views(chans: Seq<Channel>)
    ensures
        sum_entry_counts(chans.map_values(|c: Channel| channel_view(c))) == sum_channel_counts(
            chans,
        ),
    decreases chans.len(),
{
    if chans.len() > 0 {
        lemma_sum_channel_views(chans.drop_last());
        let mapped = chans.map_values(|c: Channel| channel_view(c));
        assert(mapped.drop_last() =~= chans.drop_last().map_values(|c: Channel| channel_view(c)));
        assert(mapped.last() == channel_view(chans.last()));
    }
}

/// Folds the resolved units into the final conversation collection.
///
/// The one machine limit: the total of all message counts must fit the word
/// size, or a guild's running total could not be represented.
pub fn aggregate(units: &Vec<ResolvedUnit>) -> (r: Vec<Conversation>)
    requires
        total_count(views_of(units@)) <= usize::MAX,
    ensures
        convs_match(r@, agg_directs(views_of(units@)), agg_guilds(views_of(units@))),
        forall|l: int| 0 <= l < r@.len() ==> (#[trigger] r@[l]).count_consistent(),
{
    let ghost rv = views_of(units@);
    proof {
        assert forall|l: int| 0 <= l < rv.len() implies 0 <= view_count(#[trigger] rv[l])
            <= usize::MAX by {
            assert(rv[l] == units@[l]@);
        };
    }
    let mut directs: Vec<Conversation> = Vec::new();
    let mut guilds: Vec<GuildAcc> = Vec::new();
    let n = units.len();
    let mut i: usize = 0;
    while i < n
        invariant
            n == units@.len(),
            i <= n,
            rv == views_of(units@),
            rv.len() == n,
            total_count(rv) <= usize::MAX,
            view_counts_ok(rv),
            directs@.len() == agg_directs(rv.take(i as int)).len(),
            forall|l: int|
                0 <= l < directs@.len() ==> conv_matches_direct(
                    #[trigger] directs@[l],
                    agg_directs(rv.take(i as int))[l],
                ),
            gview(guilds@) == agg_guilds(rv.take(i as int)),
        decreases n - i,
    {
        let ghost tk = rv.take(i as int);
        let ghost tk1 = rv.take(i as int + 1);
        proof {
            assert(rv[i as int] == units@[i as int]@);
            assert(tk1.drop_last() =~= tk);
            assert(tk1.last() == rv[i as int]);
        }
        match &units[i] {
            ResolvedUnit::Direct { name, message_count } => {
                directs.push(
                    Conversation::DmOrGc { name: name.clone(), message_count: *message_count },
                );
                proof {
                    assert(rv[i as int] is Direct);
                    assert(agg_directs(tk1) =~= agg_directs(tk).push(direct_entry(rv[i as int])));
                }
            },
            ResolvedUnit::GuildChannel { guild_id, guild_name, channel_name, message_count } => {
                proof {
                    assert(rv[i as int] is Channel);
                    assert(rv[i as int]->Channel_guild_id == guild_id@);
                }
                let ch = Channel { name: channel_name.clone(), message_count: *message_count };
                proof {
                    assert(channel_view(ch) == channel_entry(rv[i as int]));
                }
                let ghost gsnap = guilds@;
                let ghost prevv = agg_guilds(tk);
                match find_guild(&guilds, guild_id) {
                    Some(k) => {
                        proof {
                            lemma_agg_guilds_wf(tk);
                            lemma_total_take_succ(rv, i as int);
                            lemma_total_take_le(rv, i as int + 1);
                            assert(prevv[k as int].id == guild_id@);
                            assert(has_guild(prevv, guild_id@));
                            let j = guild_index(prevv, guild_id@);
                            if j < k as int {
                                assert(prevv[j].id != prevv[k as int].id);
                            }
                            if (k as int) < j {
                                assert(prevv[k as int].id != prevv[j].id);
                            }
                            assert(j == k as int);
                            assert forall|l: int|
                                0 <= l < prevv.len() implies (#[trigger] prevv[l]).message_count
                                >= 0 by {}
                            lemma_guild_count_le_sum(prevv, k as int);
                            assert(prevv[k as int].message_count == guilds@[k as int].message_count
                                as int);
                            assert(guilds@[k as int].message_count + *message_count
                                <= usize::MAX);
                        }
                        let new_count = guilds[k].message_count + *message_count;
                        guilds[k].message_count = new_count;
                        guilds[k].channels.push(ch);
                        proof {
                            let u = rv[i as int];
                            let g2 = GuildView {
                                id: prevv[k as int].id,
                                name: prevv[k as int].name,
                                message_count: prevv[k as int].message_count
                                    + u->Channel_message_count,
                                channels: prevv[k as int].channels.push(channel_entry(u)),
                            };
                            assert(guilds@.len() == gsnap.len());
                            assert(guilds@[k as int].id == gsnap[k as int].id);
                            assert(guilds@[k as int].name == gsnap[k as int].name);
                            assert(guilds@[k as int].message_count == new_count);
                            assert(guilds@[k as int].channels@ =~= gsnap[k as int].channels@.push(
                                ch,
                            ));
                            assert(guild_acc_view(guilds@[k as int]).channels =~= g2.channels);
                            assert(guild_acc_view(guilds@[k as int]) == g2);
                            assert(add_channel(prevv, u) == prevv.update(k as int, g2));
                            assert forall|l: int|
                                0 <= l < gview(guilds@).len() implies #[trigger] gview(guilds@)[l]
                                == prevv.update(k as int, g2)[l] by {
                                if l != k as int {
                                    assert(guilds@[l] == gsnap[l]);
                                    assert(gview(gsnap)[l] == guild_acc_view(gsnap[l]));
                                }
                            };
                            assert(gview(guilds@) =~= prevv.update(k as int, g2));
                            assert(gview(guilds@) == agg_guilds(tk1));
                        }
                    },
                    None => {
                        let mut chans: Vec<Channel> = Vec::new();
                        chans.push(ch);
                        guilds.push(
                            GuildAcc {
                                id: guild_id.clone(),
                                name: guild_name.clone(),
                                message_count: *message_count,
                                channels: chans,
                            },
                        );
                        proof {
                            let u = rv[i as int];
                            let g2 = GuildView {
                                id: u->Channel_guild_id,
                                name: u->Channel_guild_name,
                                message_count: u->Channel_message_count,
                                channels: seq![channel_entry(u)],
                            };
                            assert(guild_acc_view(guilds@[gsnap.len() as int]).channels
                                =~= g2.channels);
                            assert(guild_acc_view(guilds@[gsnap.len() as int]) == g2);
                            assert(add_channel(prevv, u) == prevv.push(g2));
                            assert(gview(guilds@) =~= prevv.push(g2));
                            assert(gview(guilds@) == agg_guilds(tk1));
                        }
                    },
                }
            },
        }
        i = i + 1;
    }
    proof {
        assert(rv.take(n as int) =~= rv);
    }
    let ghost ds = agg_directs(rv);
    let ghost gs = agg_guilds(rv);
    let ghost dlen = directs@.len() as int;
    let mut result = directs;
    let gtotal = guilds.len();
    let mut k: usize = 0;
    while k < gtotal
        invariant
            gtotal == gs.len(),
            k <= gtotal,
            guilds@.len() == gtotal - k,
            dlen == ds.len(),
            gview(guilds@) == gs.skip(k as int),
            result@.len() == dlen + k,
            forall|l: int|
                0 <= l < dlen ==> conv_matches_direct(#[trigger] result@[l], ds[l]),
            forall|j: int|
                0 <= j < k ==> conv_matches_guild(#[trigger] result@[dlen + j], gs[j]),
        decreases gtotal - k,
    {
        let ghost gsnap = guilds@;
        let g = guilds.remove(0);
        proof {
            assert(gview(gsnap)[0] == guild_acc_view(g));
            assert(gview(gsnap)[0] == gs.skip(k as int)[0]);
            assert(guild_acc_view(g) == gs[k as int]);
        }
        result.push(
            Conversation::Guild {
                name: g.name,
                message_count: g.message_count,
                channels: g.channels,
            },
        );
        proof {
            assert(guilds@ =~= gsnap.skip(1));
            assert forall|l: int|
                0 <= l < gview(guilds@).len() implies #[trigger] gview(guilds@)[l] == gs.skip(
                k as int + 1,
            )[l] by {
                assert(guilds@[l] == gsnap[l + 1]);
                assert(gview(gsnap)[l + 1] == guild_acc_view(gsnap[l + 1]));
                assert(gview(gsnap)[l + 1] == gs.skip(k as int)[l + 1]);
                assert(gs.skip(k as int)[l + 1] == gs[k as int + l + 1]);
                assert(gs.skip(k as int + 1)[l] == gs[k as int + l + 1]);
            };
            assert(gview(guilds@) =~= gs.skip(k as int + 1));
        }
        k = k + 1;
    }
    proof {
        assert forall|l: int| 0 <= l < rv.len() implies 0 <= view_count(#[trigger] rv[l])
            <= usize::MAX by {
            assert(rv[l] == units@[l]@);
        };
        lemma_agg_guilds_wf(rv);
        assert forall|l: int|
            0 <= l < result@.len() implies (#[trigger] result@[l]).count_consistent() by {
            if l < dlen {
                assert(conv_matches_direct(result@[l], ds[l]));
            } else {
                let j = l - dlen;
                assert(0 <= j < gs.len());
                assert(conv_matches_guild(result@[dlen + j], gs[j]));
                assert(dlen + j == l);
                let c = result@[l];
                lemma_sum_channel_views(c->Guild_channels@);
                assert(gs[j].message_count == sum_entry_counts(gs[j].channels));
            }
        };
    }
    result
}

proof fn lemma_agg_directs_total(units: Seq<ResolvedView>)
    ensures
        sum_entry_counts(agg_directs(units)) == direct_total(units),
    decreases units.len(),
{
    if units.len() > 0 {
        lemma_agg_directs_total(units.drop_last());
        if units.last() is Direct {
            let prev = agg_directs(units.drop_last());
            let grown = prev.push(direct_entry(units.last()));
            assert(grown.drop_last() =~= prev);
        }
    }
}

proof fn lemma_totals_partition(units: Seq<ResolvedView>)
    ensures
        direct_total(units) + channel_total(units) == total_count(units),
    decreases units.len(),
{
    if units.len() > 0 {
        lemma_totals_partition(units.drop_last());
    }
}

proof fn lemma_convs_match_total(convs: Seq<Conversation>, ds: Seq<EntryView>, gs: Seq<GuildView>)
    requires
        convs_match(convs, ds, gs),
    ensures
        sum_conversation_counts(convs) == sum_entry_counts(ds) + sum_guild_counts(gs),
    decreases gs.len(), ds.len(),
{
    if gs.len() > 0 {
        let last = gs.len() - 1;
        assert(conv_matches_guild(convs[ds.len() + last], gs[last]));
        assert(convs.last() == convs[ds.len() + last]);
        assert forall|j: int|
            0 <= j < gs.len() - 1 implies conv_matches_guild(
            #[trigger] convs.drop_last()[ds.len() + j],
            gs.drop_last()[j],
        ) by {
            assert(conv_matches_guild(convs[ds.len() + j], gs[j]));
        };
        assert forall|i: int|
            0 <= i < ds.len() implies conv_matches_direct(
            #[trigger] convs.drop_last()[i],
            ds[i],
        ) by {
            assert(conv_matches_direct(convs[i], ds[i]));
        };
        lemma_convs_match_total(convs.drop_last(), ds, gs.drop_last());
    } else if ds.len() > 0 {
        assert(conv_matches_direct(convs[ds.len() - 1], ds[ds.len() - 1]));
        assert(convs.last() == convs[ds.len() - 1]);
        assert forall|i: int|
            0 <= i < ds.len() - 1 implies conv_matches_direct(
            #[trigger] convs.drop_last()[i],
            ds.drop_last()[i],
        ) by {
            assert(conv_matches_direct(convs[i], ds[i]));
        };
        lemma_convs_match_total(convs.drop_last(), ds.drop_last(), gs);
    } else {
        assert(convs.len() == 0);
    }
}

/// The total message count of a sequence of scanned units.
pub open spec fn total_scanned(scanned: Seq<ScannedUnit>) -> int
    decreases scanned.len(),
{
    if scanned.len() == 0 {
        0
    } else {
        total_scanned(scanned.drop_last()) + scanned.last().message_count
    }
}

proof fn lemma_total_scanned_take_succ(scanned: Seq<ScannedUnit>, i: int)
    requires
        0 <= i < scanned.len(),
    ensures
        total_scanned(scanned.take(i + 1)) == total_scanned(scanned.take(i))
            + scanned[i].message_count,
{
    assert(scanned.take(i + 1).drop_last() =~= scanned.take(i));
    assert(scanned.take(i + 1).last() == scanned[i]);
}

proof fn lemma_total_scanned_take_le(scanned: Seq<ScannedUnit>, i: int)
    requires
        0 <= i <= scanned.len(),
    ensures
        total_scanned(scanned.take(i)) <= total_scanned(scanned),
    decreases scanned.len() - i,
{
    if i == scanned.len() {
        assert(scanned.take(i) =~= scanned);
    } else {
        lemma_total_scanned_take_succ(scanned, i);
        lemma_total_scanned_take_le(scanned, i + 1);
    }
}

/// The views resolution assigns to a sequence of scanned units: a function of
/// the units and the mappings alone.
pub open spec fn resolved_views_of(
    scanned: Seq<ScannedUnit>,
    cm: Option<NameMapping>,
    gm: Option<NameMapping>,
) -> Seq<ResolvedView> {
    scanned.map_values(|s: ScannedUnit| spec_resolve(s, cm, gm))
}

proof fn lemma_total_counts_match(
    scanned: Seq<ScannedUnit>,
    cm: Option<NameMapping>,
    gm: Option<NameMapping>,
)
    ensures
        total_count(resolved_views_of(scanned, cm, gm)) == total_scanned(scanned),
    decreases scanned.len(),
{
    if scanned.len() > 0 {
        lemma_total_counts_match(scanned.drop_last(), cm, gm);
        let rvs = resolved_views_of(scanned, cm, gm);
        assert(rvs.drop_last() =~= resolved_views_of(scanned.drop_last(), cm, gm));
        assert(rvs.last() == spec_resolve(scanned.last(), cm, gm));
    }
}

/// Resolves and aggregates a scanned listing: the direct/group conversations
/// in scan order, then the guilds in first-seen order. Fails only where the
/// total message count does not fit the machine's word size.
pub fn process_scanned(
    scanned: &Vec<ScannedUnit>,
    channel_mapping: &Option<NameMapping>,
    guild_mapping: &Option<NameMapping>,
) -> (r: Result<Vec<Conversation>, MyError>)
    requires
        opt_wf(*channel_mapping),
        opt_wf(*guild_mapping),
    ensures
        r is Ok <==> total_scanned(scanned@) <= usize::MAX,
        r matches Ok(convs) ==> convs_match(
            convs@,
            agg_directs(resolved_views_of(scanned@, *channel_mapping, *guild_mapping)),
            agg_guilds(resolved_views_of(scanned@, *channel_mapping, *guild_mapping)),
        ),
        r matches Ok(convs) ==> forall|l: int|
            0 <= l < convs@.len() ==> (#[trigger] convs@[l]).count_consistent(),
        r matches Ok(convs) ==> sum_conversation_counts(convs@) == total_scanned(scanned@),
        r matches Err(e) ==> e is CountOverflow,
{
    let n = scanned.len();
    let mut total: usize = 0;
    let mut i: usize = 0;
    while i < n
        invariant
            n == scanned@.len(),
            i <= n,
            total as int == total_scanned(scanned@.take(i as int)),
        decreases n - i,
    {
        proof {
            lemma_total_scanned_take_succ(scanned@, i as int);
        }
        total = match total.checked_add(scanned[i].message_count) {
            Some(t) => t,
            None => {
                proof {
                    lemma_total_scanned_take_le(scanned@, i as int + 1);
                }
                return Err(MyError::CountOverflow);
            },
        };
        i = i + 1;
    }
    proof {
        assert(scanned@.take(n as int) =~= scanned@);
    }
    let resolved = resolve_units(scanned, channel_mapping, guild_mapping);
    proof {
        let rvs = resolved_views_of(scanned@, *channel_mapping, *guild_mapping);
        assert forall|l: int|
            0 <= l < views_of(resolved@).len() implies #[trigger] views_of(resolved@)[l]
            == rvs[l] by {
            assert(views_of(resolved@)[l] == resolved@[l]@);
            assert(rvs[l] == spec_resolve(scanned@[l], *channel_mapping, *guild_mapping));
        };
        assert(views_of(resolved@) =~= rvs);
        lemma_total_counts_match(scanned@, *channel_mapping, *guild_mapping);
    }
    let convs = aggregate(&resolved);
    proof {
        let rvs = resolved_views_of(scanned@, *channel_mapping, *guild_mapping);
        assert forall|l: int| 0 <= l < rvs.len() implies 0 <= view_count(#[trigger] rvs[l])
            <= usize::MAX by {
            assert(rvs[l] == resolved@[l]@);
        };
        lemma_agg_guilds_wf(rvs);
        lemma_agg_directs_total(rvs);
        lemma_totals_partition(rvs);
        lemma_convs_match_total(convs@, agg_directs(rvs), agg_guilds(rvs));
    }
    Ok(convs)
}

/// The total length of the units' message lists, as parsing determines it;
/// a unit whose list does not parse contributes nothing, since a run aborts
/// on it before any total matters.
pub open spec fn total_parsed(units: Seq<UnitData>) -> int
    decreases units.len(),
{
    if units.len() == 0 {
        0
    } else {
        total_parsed(units.drop_last()) + match crate::json::json_array_len(
            units.last().messages_json@,
        ) {
            Some(c) => c,
            None => 0,
        }
    }
}

proof fn lemma_total_parsed_matches(units: Seq<UnitData>, scanned: Seq<ScannedUnit>)
    requires
        scanned.len() == units.len(),
        forall|l: int|
            0 <= l < units.len() ==> crate::json::json_array_len(
                (#[trigger] units[l]).messages_json@,
            ) == Some(scanned[l].message_count as int),
    ensures
        total_scanned(scanned) == total_parsed(units),
    decreases units.len(),
{
    if units.len() > 0 {
        lemma_total_parsed_matches(units.drop_last(), scanned.drop_last());
        assert(units.last() == units[units.len() - 1]);
    }
}

/// Scans, resolves and aggregates a whole export listing: one pass, aborting
/// on the first unit whose documents do not parse.
pub fn process_conversations(
    units: &Vec<UnitData>,
    channel_mapping: &Option<NameMapping>,
    guild_mapping: &Option<NameMapping>,
) -> (r: Result<Vec<Conversation>, MyError>)
    requires
        opt_wf(*channel_mapping),
        opt_wf(*guild_mapping),
    ensures
        r is Ok <==> all_units_parse(units@) && total_parsed(units@) <= usize::MAX,
        r matches Ok(convs) ==> forall|l: int|
            0 <= l < convs@.len() ==> (#[trigger] convs@[l]).count_consistent(),
        r matches Ok(convs) ==> sum_conversation_counts(convs@) == total_parsed(units@),
        !all_units_parse(units@) ==> (r matches Err(e) && e is Json),
        all_units_parse(units@) && total_parsed(units@) > usize::MAX ==> (r matches Err(e)
            && e is CountOverflow),
{
    let scanned = match scan_units(units) {
        Ok(s) => s,
        Err(e) => {
            return Err(e);
        },
    };
    proof {
        lemma_total_parsed_matches(units@, scanned@);
    }
    process_scanned(&scanned, channel_mapping, guild_mapping)
}

} // verus!
