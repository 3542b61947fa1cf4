//! Rendering the report as lines of text: each conversation's name and count,
//! and beneath a guild its channels re-sorted by descending count, indented
//! with box-drawing connectors and followed by a blank line.

use vstd::prelude::*;
use vstd::string::StringExecFns;
use crate::model::{Channel, Conversation};

verus! {

/// The character sequences a vector of rendered lines denotes.
pub open spec fn line_views(lines: Seq<String>) -> Seq<Seq<char>> {
    lines.map_values(|s: String| s@)
}

/// The character of one decimal digit.
pub open spec fn digit_char(d: nat) -> char {
    if d == 0 {
        '0'
    } else if d == 1 {
        '1'
    } else if d == 2 {
        '2'
    } else if d == 3 {
        '3'
    } else if d == 4 {
        '4'
    } else if d == 5 {
        '5'
    } else if d == 6 {
        '6'
    } else if d == 7 {
        '7'
    } else if d == 8 {
        '8'
    } else {
        '9'
    }
}

/// The decimal digits of a number, most significant first.
pub open spec fn spec_decimal(n: nat) -> Seq<char>
    decreases n,
{
    if n < 10 {
        seq![digit_char(n)]
    } else {
        spec_decimal(n / 10).push(digit_char(n % 10))
    }
}

fn digit_str(d: usize) -> (r: &'static str)
    requires
        d < 10,
    ensures
        r@ == seq![digit_char(d as nat)],
{
    proof {
        reveal_strlit("0");
        reveal_strlit("1");
        reveal_strlit("2");
        reveal_strlit("3");
        reveal_strlit("4");
        reveal_strlit("5");
        reveal_strlit("6");
        reveal_strlit("7");
        reveal_strlit("8");
        reveal_strlit("9");
    }
    let r = match d {
        0 => "0",
        1 => "1",
        2 => "2",
        3 => "3",
        4 => "4",
        5 => "5",
        6 => "6",
        7 => "7",
        8 => "8",
        _ => "9",
    };
    proof {
        assert(r@ =~= seq![digit_char(d as nat)]);
    }
    r
}

/// The decimal rendering of a count.
fn decimal_string(n: usize) -> (r: String)
    ensures
        r@ == spec_decimal(n as nat),
    decreases n,
{
    if n < 10 {
        digit_str(n).to_owned()
    } else {
        let prefix = decimal_string(n / 10);
        let r = prefix.concat(digit_str(n % 10));
        proof {
            assert(r@ =~= spec_decimal(n as nat));
        }
        r
    }
}

/// One report line: the display name, then the count in brackets.
pub open spec fn spec_entry_line(name: Seq<char>, count: nat) -> Seq<char> {
    name + " ["@ + spec_decimal(count) + " messages]"@
}

/// One indented channel line: the connector marks whether the channel closes
/// its guild's block.
pub open spec fn spec_channel_line(name: Seq<char>, count: nat, last: bool) -> Seq<char> {
    (if last {
        "    └── "@
    } else {
        "    ├── "@
    }) + spec_entry_line(name, count)
}

fn entry_line(name: &String, count: usize) -> (r: String)
    ensures
        r@ == spec_entry_line(name@, count as nat),
{
    let mut s = name.clone();
    s.append(" [");
    s.append(decimal_string(count).as_str());
    s.append(" messages]");
    proof {
        assert(s@ =~= spec_entry_line(name@, count as nat));
    }
    s
}

fn channel_line(name: &String, count: usize, last: bool) -> (r: String)
    ensures
        r@ == spec_channel_line(name@, count as nat, last),
{
    let mut s: String = if last {
        "    └── ".to_owned()
    } else {
        "    ├── ".to_owned()
    };
    s.append(entry_line(name, count).as_str());
    proof {
        assert(s@ =~= spec_channel_line(name@, count as nat, last));
    }
    s
}

/// Channel counts never increase along the sequence.
pub open spec fn channels_sorted_desc(s: Seq<Channel>) -> bool {
    forall|i: int, j: int| 0 <= i < j < s.len() ==> s[i].message_count >= s[j].message_count
}

/// Stable insertion of a channel: it goes after every channel counting at
/// least as much.
pub open spec fn spec_insert_channel(s: Seq<Channel>, c: Channel) -> Seq<Channel>
    decreases s.len(),
{
    if s.len() == 0 {
        seq![c]
    } else if s[0].message_count < c.message_count {
        seq![c] + s
    } else {
        seq![s[0]] + spec_insert_channel(s.drop_first(), c)
    }
}

/// Where a channel insertion lands.
pub open spec fn channel_insert_pos(s: Seq<Channel>, c: Channel) -> int
    decreases s.len(),
{
    if s.len() == 0 {
        0
    } else if s[0].message_count < c.message_count {
        0
    } else {
        1 + channel_insert_pos(s.drop_first(), c)
    }
}

/// The stable sort of a guild's channels by descending message count.
pub open spec fn spec_sort_channels(s: Seq<Channel>) -> Seq<Channel>
    decreases s.len(),
{
    if s.len() == 0 {
        Seq::empty()
    } else {
        spec_insert_channel(spec_sort_channels(s.drop_last()), s.last())
    }
}

proof fn lemma_insert_channel_shape(s: Seq<Channel>, c: Channel)
    ensures
        0 <= channel_insert_pos(s, c) <= s.len(),
        forall|j: int|
            0 <= j < channel_insert_pos(s, c) ==> s[j].message_count >= c.message_count,
        channel_insert_pos(s, c) < s.len() ==> s[channel_insert_pos(s, c)].message_count
            < c.message_count,
        spec_insert_channel(s, c) == s.insert(channel_insert_pos(s, c), c),
    decreases s.len(),
{
    if s.len() == 0 {
        assert(seq![c] =~= s.insert(0, c));
    } else if s[0].message_count < c.message_count {
        assert(seq![c] + s =~= s.insert(0, c));
    } else {
        let d = s.drop_first();
        lemma_insert_channel_shape(d, c);
        let pos = channel_insert_pos(s, c);
        assert forall|j: int| 0 <= j < pos implies s[j].message_count >= c.message_count by {
            if j > 0 {
                assert(d[j - 1] == s[j]);
            }
        };
        assert(seq![s[0]] + spec_insert_channel(d, c) =~= s.insert(pos, c));
    }
}

/// One channel insertion keeps the sequence sorted and adds the channel.
pub proof fn lemma_insert_channel_props(s: Seq<Channel>, c: Channel)
    requires
        channels_sorted_desc(s),
    ensures
        channels_sorted_desc(spec_insert_channel(s, c)),
        spec_insert_channel(s, c).len() == s.len() + 1,
        spec_insert_channel(s, c).to_multiset() == s.to_multiset().insert(c),
{
    lemma_insert_channel_shape(s, c);
    let pos = channel_insert_pos(s, c);
    let r = spec_insert_channel(s, c);
    s.insert_ensures(pos, c);
    vstd::seq_lib::to_multiset_insert(s, pos, c);
    assert(r.to_multiset() =~= s.to_multiset().insert(c));
    assert forall|i: int, j: int|
        0 <= i < j < r.len() implies r[i].message_count >= r[j].message_count by {
        if i < pos {
            assert(r[i] == s[i]);
        } else if i == pos {
            assert(r[i] == c);
        } else {
            assert(r[i] == s[i - 1]);
        }
        if j < pos {
            assert(r[j] == s[j]);
        } else if j == pos {
            assert(r[j] == c);
        } else {
            assert(r[j] == s[j - 1]);
        }
    };
}

/// The channel sort yields a sorted permutation of its input.
pub proof fn lemma_sort_channels_props(s: Seq<Channel>)
    ensures
        channels_sorted_desc(spec_sort_channels(s)),
        spec_sort_channels(s).len() == s.len(),
        spec_sort_channels(s).to_multiset() == s.to_multiset(),
    decreases s.len(),
{
    broadcast use vstd::seq_lib::group_to_multiset_ensures;

    if s.len() > 0 {
        lemma_sort_channels_props(s.drop_last());
        lemma_insert_channel_props(spec_sort_channels(s.drop_last()), s.last());
        assert(s.drop_last().push(s.last()) =~= s);
        assert(s.drop_last().push(s.last()).to_multiset() == s.drop_last().to_multiset().insert(
            s.last(),
        ));
    }
}

fn clone_channels(src: &Vec<Channel>) -> (r: Vec<Channel>)
    ensures
        r@ == src@,
{
    let mut r: Vec<Channel> = Vec::new();
    let n = src.len();
    let mut i: usize = 0;
    while i < n
        invariant
            n == src@.len(),
            i <= n,
            r@ =~= src@.take(i as int),
        decreases n - i,
    {
        let c = Channel { name: src[i].name.clone(), message_count: src[i].message_count };
        proof {
            assert(c == src@[i as int]);
        }
        r.push(c);
        i = i + 1;
    }
    proof {
        assert(src@.take(n as int) =~= src@);
    }
    r
}

fn sort_channels(chans: Vec<Channel>) -> (r: Vec<Channel>)
    ensures
        r@ == spec_sort_channels(chans@),
{
    let ghost orig = chans@;
    let mut src = chans;
    let mut result: Vec<Channel> = Vec::new();
    let ghost mut k: int = 0;
    while src.len() > 0
        invariant
            0 <= k <= orig.len(),
            src@ == orig.skip(k),
            result@ == spec_sort_channels(orig.take(k)),
            channels_sorted_desc(result@),
        decreases src@.len(),
    {
        let c = src.remove(0);
        proof {
            assert(c == orig.skip(k)[0]);
            assert(c == orig[k]);
        }
        let ccount = c.message_count;
        let mut idx: usize = 0;
        while idx < result.len() && result[idx].message_count >= ccount
            invariant
                idx <= result@.len(),
                ccount == c.message_count,
                forall|j: int|
                    0 <= j < idx ==> (#[trigger] result@[j]).message_count >= c.message_count,
            decreases result@.len() - idx,
        {
            idx = idx + 1;
        }
        proof {
            lemma_insert_channel_shape(result@, c);
            let pos = channel_insert_pos(result@, c);
            if pos < idx as int {
                assert(result@[pos].message_count >= c.message_count);
                assert(result@[pos].message_count < c.message_count);
            }
            if (idx as int) < pos {
                assert(result@[idx as int].message_count >= c.message_count);
            }
            assert(pos == idx as int);
        }
        result.insert(idx, c);
        proof {
            lemma_insert_channel_props(spec_sort_channels(orig.take(k)), c);
            assert(orig.take(k + 1).drop_last() =~= orig.take(k));
            assert(orig.take(k + 1).last() == orig[k]);
            assert(result@ == spec_sort_channels(orig.take(k + 1)));
            k = k + 1;
            assert(src@ =~= orig.skip(k));
        }
    }
    proof {
        assert(orig.take(k) =~= orig);
    }
    result
}

/// The lines a guild's sorted channel block contributes.
pub open spec fn spec_channel_lines(sorted: Seq<Channel>) -> Seq<Seq<char>> {
    Seq::new(
        sorted.len(),
        |i: int|
            spec_channel_line(
                sorted[i].name@,
                sorted[i].message_count as nat,
                i == sorted.len() - 1,
            ),
    )
}

/// The lines one conversation prints: a single line for a direct/group
/// entry; for a guild, its own line, its channels re-sorted by descending
/// count, and a closing blank line.
pub open spec fn spec_tree_lines(c: Conversation) -> Seq<Seq<char>> {
    match c {
        Conversation::DmOrGc { name, message_count } => seq![
            spec_entry_line(name@, message_count as nat),
        ],
        Conversation::Guild { name, message_count, channels } => seq![
            spec_entry_line(name@, message_count as nat),
        ] + spec_channel_lines(spec_sort_channels(channels@)) + seq![Seq::<char>::empty()],
    }
}

/// The whole report's lines, conversation by conversation.
pub open spec fn spec_report_lines(convs: Seq<Conversation>) -> Seq<Seq<char>>
    decreases convs.len(),
{
    if convs.len() == 0 {
        Seq::empty()
    } else {
        spec_report_lines(convs.drop_last()) + spec_tree_lines(convs.last())
    }
}

impl Conversation {
    /// Renders this conversation's block of the report.
    pub fn print_tree(&self) -> (r: Vec<String>)
        ensures
            line_views(r@) == spec_tree_lines(*self),
    {
        match self {
            Conversation::DmOrGc { name, message_count } => {
                let mut lines: Vec<String> = Vec::new();
                lines.push(entry_line(name, *message_count));
                proof {
                    assert(line_views(lines@) =~= spec_tree_lines(*self));
                }
                lines
            },
            Conversation::Guild { name, message_count, channels } => {
                let mut lines: Vec<String> = Vec::new();
                lines.push(entry_line(name, *message_count));
                let sorted = sort_channels(clone_channels(channels));
                let ghost sortedv = spec_sort_channels(channels@);
                let m = sorted.len();
                let ghost header = seq![spec_entry_line(name@, *message_count as nat)];
                let mut i: usize = 0;
                while i < m
                    invariant
                        m == sorted@.len(),
                        i <= m,
                        sorted@ == sortedv,
                        header == seq![spec_entry_line(name@, *message_count as nat)],
                        line_views(lines@) =~= header + spec_channel_lines(
                            sortedv,
                        ).take(i as int),
                    decreases m - i,
                {
                    let last = i == m - 1;
                    let line = channel_line(&sorted[i].name, sorted[i].message_count, last);
                    let ghost before = lines@;
                    lines.push(line);
                    proof {
                        assert(spec_channel_lines(sortedv)[i as int] == spec_channel_line(
                            sortedv[i as int].name@,
                            sortedv[i as int].message_count as nat,
                            i as int == sortedv.len() - 1,
                        ));
                        assert(line@ == spec_channel_lines(sortedv)[i as int]);
                        let rhs = header + spec_channel_lines(sortedv).take(i as int + 1);
                        assert(line_views(before).len() == before.len());
                        assert(before.len() == i + 1);
                        assert(line_views(lines@).len() == lines@.len());
                        assert(lines@.len() == before.len() + 1);
                        assert(rhs.len() == i + 2);
                        assert forall|l: int|
                            0 <= l < line_views(lines@).len() implies #[trigger] line_views(
                            lines@,
                        )[l] == rhs[l] by {
                            assert(line_views(lines@)[l] == lines@[l]@);
                            if l < before.len() {
                                assert(lines@[l] == before[l]);
                                assert(line_views(before)[l] == before[l]@);
                                assert(line_views(before)[l] == (header + spec_channel_lines(
                                    sortedv,
                                ).take(i as int))[l]);
                                if l >= 1 {
                                    assert((header + spec_channel_lines(sortedv).take(i as int))[l]
                                        == spec_channel_lines(sortedv).take(i as int)[l - 1]);
                                    assert(rhs[l] == spec_channel_lines(sortedv).take(
                                        i as int + 1,
                                    )[l - 1]);
                                }
                            } else {
                                assert(lines@[l] == line);
                                assert(rhs[l] == spec_channel_lines(sortedv).take(
                                    i as int + 1,
                                )[i as int]);
                            }
                        };
                        assert(line_views(lines@) =~= rhs);
                    }
                    i = i + 1;
                }
                lines.push(String::new());
                proof {
                    assert(spec_channel_lines(sortedv).take(m as int) =~= spec_channel_lines(
                        sortedv,
                    ));
                    assert(line_views(lines@) =~= spec_tree_lines(*self));
                }
                lines
            },
        }
    }
}

/// Renders the whole report, one conversation after the next, as the lines
/// to be written out in order.
pub fn print_conversations(conversations: Vec<Conversation>) -> (r: Vec<String>)
    ensures
        line_views(r@) == spec_report_lines(conversations@),
{
    let mut out: Vec<String> = Vec::new();
    let n = conversations.len();
    let mut i: usize = 0;
    while i < n
        invariant
            n == conversations@.len(),
            i <= n,
            line_views(out@) =~= spec_report_lines(conversations@.take(i as int)),
        decreases n - i,
    {
        let mut lines = conversations[i].print_tree();
        let ghost before = out@;
        let ghost added = lines@;
        out.append(&mut lines);
        proof {
            assert(conversations@.take(i as int + 1).drop_last() =~= conversations@.take(
                i as int,
            ));
            assert(conversations@.take(i as int + 1).last() == conversations@[i as int]);
            assert(line_views(out@) =~= line_views(before) + line_views(added));
            assert(line_views(out@) =~= spec_report_lines(
                conversations@.take(i as int + 1),
            ));
        }
        i = i + 1;
    }
    proof {
        assert(conversations@.take(n as int) =~= conversations@);
    }
    out
}

} // verus!
