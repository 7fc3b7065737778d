//! The text of the teams document, as the teams file is written.
use vstd::prelude::*;

use crate::json_reader::{
    items_view, lemma_items_view, lemma_members_view, members_view, raw_view, RawJson, RawView,
};
use crate::json_writer::{stringify_json_value, value_text};
use crate::server::storage::{
    ChannelEntry, ChannelRecord, ReplyEntry, ReplyRecord, TeamEntry, TeamRecord, TeamTree,
    ThreadEntry, ThreadRecord,
};
use crate::text::{i64_to_string, int_text};

verus! {

/// The largest magnitude up to which every integer is a float exactly, and
/// the text of the float is the integer's decimal text.
pub open spec fn exact_limit() -> int {
    0x20_0000_0000_0000
}

/// Whether a timestamp is written as its decimal text.
pub open spec fn exact_stamp(t: i64) -> bool {
    -exact_limit() <= t <= exact_limit()
}

/// Whether every timestamp of the teams is written as its decimal text.
pub open spec fn stamps_exact(teams: Seq<TeamRecord>) -> bool {
    forall|a: int, b: int, c: int|
        0 <= a < teams.len() && 0 <= b < teams[a].channels.len() && 0 <= c
            < teams[a].channels[b].threads.len() ==> {
            let t = #[trigger] teams[a].channels[b].threads[c];
            &&& exact_stamp(t.timestamp)
            &&& forall|d: int| 0 <= d < t.replies.len() ==> exact_stamp(#[trigger] t.replies[d].timestamp)
        }
}

/// A string value.
pub open spec fn str_raw(s: Seq<char>) -> RawView {
    RawView::Str(s)
}

/// An integer, as its decimal text.
pub open spec fn num_raw(n: i64) -> RawView {
    RawView::Number(int_text(n as int))
}

/// The JSON object of a reply.
pub open spec fn reply_raw(r: ReplyRecord) -> RawView {
    RawView::Object(
        seq![
            ("body"@, str_raw(r.body)),
            ("timestamp"@, num_raw(r.timestamp)),
            ("user_uuid"@, str_raw(r.user_uuid)),
        ],
    )
}

/// The JSON object of a thread.
pub open spec fn thread_raw(t: ThreadRecord) -> RawView {
    RawView::Object(
        seq![
            ("body"@, str_raw(t.body)),
            ("replies"@, RawView::Array(t.replies.map_values(|r: ReplyRecord| reply_raw(r)))),
            ("timestamp"@, num_raw(t.timestamp)),
            ("title"@, str_raw(t.title)),
            ("user_uuid"@, str_raw(t.user_uuid)),
            ("uuid"@, str_raw(t.uuid)),
        ],
    )
}

/// The JSON object of a channel.
pub open spec fn channel_raw(c: ChannelRecord) -> RawView {
    RawView::Object(
        seq![
            ("description"@, str_raw(c.description)),
            ("name"@, str_raw(c.name)),
            ("threads"@, RawView::Array(c.threads.map_values(|t: ThreadRecord| thread_raw(t)))),
            ("uuid"@, str_raw(c.uuid)),
        ],
    )
}

/// The JSON object of a team.
pub open spec fn team_raw(t: TeamRecord) -> RawView {
    RawView::Object(
        seq![
            ("channels"@, RawView::Array(t.channels.map_values(|c: ChannelRecord| channel_raw(c)))),
            ("description"@, str_raw(t.description)),
            ("name"@, str_raw(t.name)),
            ("uuid"@, str_raw(t.uuid)),
        ],
    )
}

/// The teams document: an object whose member `teams` holds every team.
pub open spec fn teams_raw(teams: Seq<TeamRecord>) -> RawView {
    RawView::Object(seq![("teams"@, RawView::Array(teams.map_values(|t: TeamRecord| team_raw(t))))])
}

/// A member.
fn raw_member(k: &str, v: RawJson) -> (r: (String, RawJson))
    ensures
        r.0@ == k@,
        r.1 == v,
{
    (k.to_owned(), v)
}

/// A string value.
fn raw_str(s: &String) -> (r: RawJson)
    ensures
        raw_view(r) == str_raw(s@),
{
    RawJson::Str(s.clone())
}

/// An object of the given members.
fn raw_object(e: Vec<(String, RawJson)>, Ghost(want): Ghost<Seq<(Seq<char>, RawView)>>) -> (r: RawJson)
    requires
        e@.len() == want.len(),
        forall|j: int| 0 <= j < e@.len() ==> (#[trigger] e@[j]).0@ == want[j].0 && raw_view(e@[j].1) == want[j].1,
    ensures
        raw_view(r) == RawView::Object(want),
{
    proof {
        lemma_members_view(e@);
        assert(members_view(e@) =~= want);
    }
    RawJson::Object(e)
}

/// The JSON object of a reply.
fn reply_to_raw(r: &ReplyEntry) -> (v: RawJson)
    ensures
        raw_view(v) == reply_raw(r@),
{
    let ts = RawJson::Number(i64_to_string(r.timestamp));
    let e = vec![
        raw_member("body", raw_str(&r.body)),
        raw_member("timestamp", ts),
        raw_member("user_uuid", raw_str(&r.user_uuid)),
    ];
    let ghost want = seq![
        ("body"@, str_raw(r@.body)),
        ("timestamp"@, num_raw(r@.timestamp)),
        ("user_uuid"@, str_raw(r@.user_uuid)),
    ];
    raw_object(e, Ghost(want))
}

/// The JSON object of a thread.
fn thread_to_raw(t: &ThreadEntry) -> (v: RawJson)
    ensures
        raw_view(v) == thread_raw(t@),
{
    let mut items: Vec<RawJson> = Vec::new();
    let ghost want = t@.replies.map_values(|r: ReplyRecord| reply_raw(r));
    let mut i: usize = 0;
    while i < t.replies.len()
        invariant
            i <= t.replies@.len(),
            want == t@.replies.map_values(|r: ReplyRecord| reply_raw(r)),
            items@.len() == i,
            forall|j: int| 0 <= j < i ==> raw_view(#[trigger] items@[j]) == want[j],
        decreases t.replies@.len() - i,
    {
        items.push(reply_to_raw(&t.replies[i]));
        i = i + 1;
    }
    proof {
        lemma_items_view(items@);
        assert(items_view(items@) =~= want);
    }
    let replies = RawJson::Array(items);
    let ts = RawJson::Number(i64_to_string(t.timestamp));
    let e = vec![
        raw_member("body", raw_str(&t.body)),
        raw_member("replies", replies),
        raw_member("timestamp", ts),
        raw_member("title", raw_str(&t.title)),
        raw_member("user_uuid", raw_str(&t.user_uuid)),
        raw_member("uuid", raw_str(&t.uuid)),
    ];
    let ghost w = seq![
        ("body"@, str_raw(t@.body)),
        ("replies"@, RawView::Array(want)),
        ("timestamp"@, num_raw(t@.timestamp)),
        ("title"@, str_raw(t@.title)),
        ("user_uuid"@, str_raw(t@.user_uuid)),
        ("uuid"@, str_raw(t@.uuid)),
    ];
    raw_object(e, Ghost(w))
}

/// The JSON object of a channel.
fn channel_to_raw(c: &ChannelEntry) -> (v: RawJson)
    ensures
        raw_view(v) == channel_raw(c@),
{
    let mut items: Vec<RawJson> = Vec::new();
    let ghost want = c@.threads.map_values(|t: ThreadRecord| thread_raw(t));
    let mut i: usize = 0;
    while i < c.threads.len()
        invariant
            i <= c.threads@.len(),
            want == c@.threads.map_values(|t: ThreadRecord| thread_raw(t)),
            items@.len() == i,
            forall|j: int| 0 <= j < i ==> raw_view(#[trigger] items@[j]) == want[j],
        decreases c.threads@.len() - i,
    {
        items.push(thread_to_raw(&c.threads[i]));
        i = i + 1;
    }
    proof {
        lemma_items_view(items@);
        assert(items_view(items@) =~= want);
    }
    let threads = RawJson::Array(items);
    let e = vec![
        raw_member("description", raw_str(&c.description)),
        raw_member("name", raw_str(&c.name)),
        raw_member("threads", threads),
        raw_member("uuid", raw_str(&c.uuid)),
    ];
    let ghost w = seq![
        ("description"@, str_raw(c@.description)),
        ("name"@, str_raw(c@.name)),
        ("threads"@, RawView::Array(want)),
        ("uuid"@, str_raw(c@.uuid)),
    ];
    raw_object(e, Ghost(w))
}

/// The JSON object of a team.
fn team_to_raw(t: &TeamEntry) -> (v: RawJson)
    ensures
        raw_view(v) == team_raw(t@),
{
    let mut items: Vec<RawJson> = Vec::new();
    let ghost want = t@.channels.map_values(|c: ChannelRecord| channel_raw(c));
    let mut i: usize = 0;
    while i < t.channels.len()
        invariant
            i <= t.channels@.len(),
            want == t@.channels.map_values(|c: ChannelRecord| channel_raw(c)),
            items@.len() == i,
            forall|j: int| 0 <= j < i ==> raw_view(#[trigger] items@[j]) == want[j],
        decreases t.channels@.len() - i,
    {
        items.push(channel_to_raw(&t.channels[i]));
        i = i + 1;
    }
    proof {
        lemma_items_view(items@);
        assert(items_view(items@) =~= want);
    }
    let channels = RawJson::Array(items);
    let e = vec![
        raw_member("channels", channels),
        raw_member("description", raw_str(&t.description)),
        raw_member("name", raw_str(&t.name)),
        raw_member("uuid", raw_str(&t.uuid)),
    ];
    let ghost w = seq![
        ("channels"@, RawView::Array(want)),
        ("description"@, str_raw(t@.description)),
        ("name"@, str_raw(t@.name)),
        ("uuid"@, str_raw(t@.uuid)),
    ];
    raw_object(e, Ghost(w))
}

/// The teams document of a tree, as the teams file holds it.
pub fn teams_to_raw(tree: &TeamTree) -> (v: RawJson)
    ensures
        raw_view(v) == teams_raw(tree@),
{
    let mut items: Vec<RawJson> = Vec::new();
    let ghost want = tree@.map_values(|t: TeamRecord| team_raw(t));
    let mut i: usize = 0;
    while i < tree.teams.len()
        invariant
            i <= tree.teams@.len(),
            tree@ == tree.teams@.map_values(|t: TeamEntry| t@),
            want == tree@.map_values(|t: TeamRecord| team_raw(t)),
            items@.len() == i,
            forall|j: int| 0 <= j < i ==> raw_view(#[trigger] items@[j]) == want[j],
        decreases tree.teams@.len() - i,
    {
        items.push(team_to_raw(&tree.teams[i]));
        i = i + 1;
    }
    proof {
        lemma_items_view(items@);
        assert(items_view(items@) =~= want);
    }
    let e = vec![raw_member("teams", RawJson::Array(items))];
    let ghost w = seq![("teams"@, RawView::Array(want))];
    raw_object(e, Ghost(w))
}

/// The text of the teams file for a tree. Timestamps are written as their
/// decimal text, which is the text of the float a JSON number is written
/// from as long as they are at most 2^53 in magnitude; past that, the float
/// is rounded, and floats are not held here, so such timestamps are left out.
pub fn dump_team_tree(tree: &TeamTree) -> (r: String)
    requires
        stamps_exact(tree@),
    ensures
        r@ == value_text(teams_raw(tree@)),
{
    let raw = teams_to_raw(tree);
    stringify_json_value(&raw)
}

} // verus!
