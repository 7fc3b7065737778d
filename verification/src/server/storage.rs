//! Persistent server data: users, the team tree and private messages, with
//! the lookups the command handlers make. Files are read and written by the
//! caller; this module keeps the data and turns it into JSON documents.
use vstd::prelude::*;

use crate::text::str_eq;

pub use crate::server::dump::dump_team_tree;

verus! {

/// A known user, as stored.
pub struct UserEntry {
    pub name: String,
    pub uuid: String,
}

/// A private message, as stored.
pub struct MessageEntry {
    pub sender_uuid: String,
    pub recipient_uuid: String,
    pub timestamp: i64,
    pub body: String,
}

/// A reply in a thread, as stored.
pub struct ReplyEntry {
    pub user_uuid: String,
    pub timestamp: i64,
    pub body: String,
}

/// A thread in a channel, as stored.
pub struct ThreadEntry {
    pub uuid: String,
    pub user_uuid: String,
    pub timestamp: i64,
    pub title: String,
    pub body: String,
    pub replies: Vec<ReplyEntry>,
}

/// A channel in a team, as stored.
pub struct ChannelEntry {
    pub uuid: String,
    pub name: String,
    pub description: String,
    pub threads: Vec<ThreadEntry>,
}

/// A team, as stored.
pub struct TeamEntry {
    pub uuid: String,
    pub name: String,
    pub description: String,
    pub channels: Vec<ChannelEntry>,
}

/// All teams with their channels, threads and replies.
pub struct TeamTree {
    pub teams: Vec<TeamEntry>,
}

/// The content of a user entry.
pub struct UserRecord {
    pub name: Seq<char>,
    pub uuid: Seq<char>,
}

/// The content of a message entry.
pub struct MessageRecord {
    pub sender_uuid: Seq<char>,
    pub recipient_uuid: Seq<char>,
    pub timestamp: i64,
    pub body: Seq<char>,
}

/// The content of a reply entry.
pub struct ReplyRecord {
    pub user_uuid: Seq<char>,
    pub timestamp: i64,
    pub body: Seq<char>,
}

/// The content of a thread entry.
pub struct ThreadRecord {
    pub uuid: Seq<char>,
    pub user_uuid: Seq<char>,
    pub timestamp: i64,
    pub title: Seq<char>,
    pub body: Seq<char>,
    pub replies: Seq<ReplyRecord>,
}

/// The content of a channel entry.
pub struct ChannelRecord {
    pub uuid: Seq<char>,
    pub name: Seq<char>,
    pub description: Seq<char>,
    pub threads: Seq<ThreadRecord>,
}

/// The content of a team entry.
pub struct TeamRecord {
    pub uuid: Seq<char>,
    pub name: Seq<char>,
    pub description: Seq<char>,
    pub channels: Seq<ChannelRecord>,
}

impl View for UserEntry {
    type V = UserRecord;

    open spec fn view(&self) -> UserRecord {
        UserRecord { name: self.name@, uuid: self.uuid@ }
    }
}

impl View for MessageEntry {
    type V = MessageRecord;

    open spec fn view(&self) -> MessageRecord {
        MessageRecord {
            sender_uuid: self.sender_uuid@,
            recipient_uuid: self.recipient_uuid@,
            timestamp: self.timestamp,
            body: self.body@,
        }
    }
}

impl View for ReplyEntry {
    type V = ReplyRecord;

    open spec fn view(&self) -> ReplyRecord {
        ReplyRecord { user_uuid: self.user_uuid@, timestamp: self.timestamp, body: self.body@ }
    }
}

impl View for ThreadEntry {
    type V = ThreadRecord;

    open spec fn view(&self) -> ThreadRecord {
        ThreadRecord {
            uuid: self.uuid@,
            user_uuid: self.user_uuid@,
            timestamp: self.timestamp,
            title: self.title@,
            body: self.body@,
            replies: self.replies@.map_values(|r: ReplyEntry| r@),
        }
    }
}

impl View for ChannelEntry {
    type V = ChannelRecord;

    open spec fn view(&self) -> ChannelRecord {
        ChannelRecord {
            uuid: self.uuid@,
            name: self.name@,
            description: self.description@,
            threads: self.threads@.map_values(|t: ThreadEntry| t@),
        }
    }
}

impl View for TeamEntry {
    type V = TeamRecord;

    open spec fn view(&self) -> TeamRecord {
        TeamRecord {
            uuid: self.uuid@,
            name: self.name@,
            description: self.description@,
            channels: self.channels@.map_values(|c: ChannelEntry| c@),
        }
    }
}

impl View for TeamTree {
    type V = Seq<TeamRecord>;

    open spec fn view(&self) -> Seq<TeamRecord> {
        self.teams@.map_values(|t: TeamEntry| t@)
    }
}

impl Clone for UserEntry {
    fn clone(&self) -> (r: Self)
        ensures
            r@ == self@,
    {
        UserEntry { name: self.name.clone(), uuid: self.uuid.clone() }
    }
}

impl Clone for MessageEntry {
    fn clone(&self) -> (r: Self)
        ensures
            r@ == self@,
    {
        MessageEntry {
            sender_uuid: self.sender_uuid.clone(),
            recipient_uuid: self.recipient_uuid.clone(),
            timestamp: self.timestamp,
            body: self.body.clone(),
        }
    }
}

impl Clone for ReplyEntry {
    fn clone(&self) -> (r: Self)
        ensures
            r@ == self@,
    {
        ReplyEntry {
            user_uuid: self.user_uuid.clone(),
            timestamp: self.timestamp,
            body: self.body.clone(),
        }
    }
}

impl Clone for ThreadEntry {
    fn clone(&self) -> (r: Self)
        ensures
            r@ == self@,
    {
        let replies = self.replies.clone();
        assert(replies@.map_values(|x: ReplyEntry| x@) =~= self.replies@.map_values(
            |x: ReplyEntry| x@,
        ));
        ThreadEntry {
            uuid: self.uuid.clone(),
            user_uuid: self.user_uuid.clone(),
            timestamp: self.timestamp,
            title: self.title.clone(),
            body: self.body.clone(),
            replies,
        }
    }
}

impl Clone for ChannelEntry {
    fn clone(&self) -> (r: Self)
        ensures
            r@ == self@,
    {
        let threads = self.threads.clone();
        assert(threads@.map_values(|x: ThreadEntry| x@) =~= self.threads@.map_values(
            |x: ThreadEntry| x@,
        ));
        ChannelEntry {
            uuid: self.uuid.clone(),
            name: self.name.clone(),
            description: self.description.clone(),
            threads,
        }
    }
}

impl Clone for TeamEntry {
    fn clone(&self) -> (r: Self)
        ensures
            r@ == self@,
    {
        let channels = self.channels.clone();
        assert(channels@.map_values(|x: ChannelEntry| x@) =~= self.channels@.map_values(
            |x: ChannelEntry| x@,
        ));
        TeamEntry {
            uuid: self.uuid.clone(),
            name: self.name.clone(),
            description: self.description.clone(),
            channels,
        }
    }
}

impl Clone for TeamTree {
    fn clone(&self) -> (r: Self)
        ensures
            r@ == self@,
    {
        let teams = self.teams.clone();
        assert(teams@.map_values(|x: TeamEntry| x@) =~= self.teams@.map_values(
            |x: TeamEntry| x@,
        ));
        TeamTree { teams }
    }
}


/// Whether `i` is the first position of `k` in `keys`.
pub open spec fn is_first_match(keys: Seq<Seq<char>>, k: Seq<char>, i: int) -> bool {
    &&& 0 <= i < keys.len()
    &&& keys[i] == k
    &&& forall|j: int| 0 <= j < i ==> keys[j] != k
}

/// The first position of `k` in `keys`, if it occurs.
pub open spec fn first_match(keys: Seq<Seq<char>>, k: Seq<char>) -> Option<int> {
    if exists|i: int| is_first_match(keys, k, i) {
        Some(choose|i: int| is_first_match(keys, k, i))
    } else {
        None
    }
}

/// There is one first position, and none exactly when `k` does not occur.
pub proof fn lemma_first_match(keys: Seq<Seq<char>>, k: Seq<char>)
    ensures
        first_match(keys, k) matches Some(i) ==> is_first_match(keys, k, i),
        first_match(keys, k) is None <==> forall|j: int| 0 <= j < keys.len() ==> keys[j] != k,
        forall|i: int| #[trigger] is_first_match(keys, k, i) ==> first_match(keys, k) == Some(i),
{
    assert forall|i: int| #[trigger] is_first_match(keys, k, i) implies first_match(keys, k) == Some(
        i,
    ) by {
        let c = choose|c: int| is_first_match(keys, k, c);
        if c < i {
            assert(keys[c] != k);
        } else if i < c {
            assert(keys[i] != k);
        }
    }
    if exists|j: int| 0 <= j < keys.len() && keys[j] == k {
        let j = choose|j: int| 0 <= j < keys.len() && keys[j] == k;
        lemma_least_match(keys, k, j);
    }
}

/// Some position at or before `j` is the first position of `k`.
proof fn lemma_least_match(keys: Seq<Seq<char>>, k: Seq<char>, j: int)
    requires
        0 <= j < keys.len(),
        keys[j] == k,
    ensures
        exists|i: int| is_first_match(keys, k, i),
    decreases j,
{
    if forall|m: int| 0 <= m < j ==> keys[m] != k {
        assert(is_first_match(keys, k, j));
    } else {
        let m = choose|m: int| 0 <= m < j && keys[m] == k;
        lemma_least_match(keys, k, m);
    }
}

/// Entries found by a string key.
pub trait Keyed {
    /// The entry's key.
    spec fn key_view(&self) -> Seq<char>;

    /// The entry's key.
    fn key(&self) -> (r: &String)
        ensures
            r@ == self.key_view(),
    ;
}

impl Keyed for UserEntry {
    open spec fn key_view(&self) -> Seq<char> {
        self.name@
    }

    fn key(&self) -> (r: &String) {
        &self.name
    }
}

impl Keyed for TeamEntry {
    open spec fn key_view(&self) -> Seq<char> {
        self.uuid@
    }

    fn key(&self) -> (r: &String) {
        &self.uuid
    }
}

impl Keyed for ChannelEntry {
    open spec fn key_view(&self) -> Seq<char> {
        self.uuid@
    }

    fn key(&self) -> (r: &String) {
        &self.uuid
    }
}

impl Keyed for ThreadEntry {
    open spec fn key_view(&self) -> Seq<char> {
        self.uuid@
    }

    fn key(&self) -> (r: &String) {
        &self.uuid
    }
}

/// The keys of a sequence of entries.
pub open spec fn keys_of<T: Keyed>(s: Seq<T>) -> Seq<Seq<char>> {
    s.map_values(|x: T| x.key_view())
}

/// The position of the first entry of `v` with key `k`.
pub fn position_of<T: Keyed>(v: &Vec<T>, k: &str) -> (r: Option<usize>)
    ensures
        match r {
            Some(i) => first_match(keys_of(v@), k@) == Some(i as int),
            None => first_match(keys_of(v@), k@) is None,
        },
{
    proof {
        lemma_first_match(keys_of(v@), k@);
    }
    let mut i: usize = 0;
    while i < v.len()
        invariant
            i <= v@.len(),
            forall|j: int| 0 <= j < i ==> keys_of(v@)[j] != k@,
        decreases v@.len() - i,
    {
        let key = v[i].key();
        if str_eq(key.as_str(), k) {
            assert(is_first_match(keys_of(v@), k@, i as int));
            return Some(i);
        }
        i = i + 1;
    }
    None
}

/// The team with UUID `u`, the first one if several share it.
pub open spec fn team_at(teams: Seq<TeamRecord>, u: Seq<char>) -> Option<TeamRecord> {
    match first_match(teams.map_values(|t: TeamRecord| t.uuid), u) {
        Some(i) => Some(teams[i]),
        None => None,
    }
}

/// Channel `c` of team `t`.
pub open spec fn channel_at(teams: Seq<TeamRecord>, t: Seq<char>, c: Seq<char>) -> Option<
    ChannelRecord,
> {
    match team_at(teams, t) {
        Some(team) => match first_match(team.channels.map_values(|x: ChannelRecord| x.uuid), c) {
            Some(i) => Some(team.channels[i]),
            None => None,
        },
        None => None,
    }
}

/// Thread `th` of channel `c` of team `t`.
pub open spec fn thread_at(teams: Seq<TeamRecord>, t: Seq<char>, c: Seq<char>, th: Seq<char>) -> Option<
    ThreadRecord,
> {
    match channel_at(teams, t, c) {
        Some(channel) => match first_match(
            channel.threads.map_values(|x: ThreadRecord| x.uuid),
            th,
        ) {
            Some(i) => Some(channel.threads[i]),
            None => None,
        },
        None => None,
    }
}

/// The messages exchanged between `a` and `b`, in order.
pub open spec fn conversation_spec(m: Seq<MessageRecord>, a: Seq<char>, b: Seq<char>) -> Seq<
    MessageRecord,
>
    decreases m.len(),
{
    if m.len() == 0 {
        Seq::empty()
    } else {
        let rest = conversation_spec(m.drop_last(), a, b);
        let x = m.last();
        if (x.sender_uuid == a && x.recipient_uuid == b) || (x.sender_uuid == b
            && x.recipient_uuid == a) {
            rest.push(x)
        } else {
            rest
        }
    }
}

/// The users after `upsert_user(name, uuid)`: the first user of that name
/// takes the new UUID, or a new user is appended.
pub open spec fn upsert_spec(users: Seq<UserRecord>, name: Seq<char>, uuid: Seq<char>) -> Seq<
    UserRecord,
> {
    match first_match(users.map_values(|u: UserRecord| u.name), name) {
        Some(i) => users.update(i, UserRecord { name: users[i].name, uuid }),
        None => users.push(UserRecord { name, uuid }),
    }
}

/// Whether no two users share a name.
pub open spec fn names_distinct(users: Seq<UserRecord>) -> bool {
    forall|i: int, j: int| 0 <= i < j < users.len() ==> (#[trigger] users[i]).name != (#[trigger] users[j]).name
}

/// `upsert_user` on users of distinct names: afterwards one user has the
/// name, with the new UUID; a user of that name keeps its place and the
/// count stays, otherwise the new user comes last; every other user is
/// unchanged, and the names stay distinct.
pub proof fn lemma_upsert(users: Seq<UserRecord>, name: Seq<char>, uuid: Seq<char>)
    requires
        names_distinct(users),
    ensures
        ({
            let r = upsert_spec(users, name, uuid);
            &&& names_distinct(r)
            &&& exists|i: int| 0 <= i < r.len() && r[i] == (UserRecord { name, uuid })
            &&& forall|i: int| 0 <= i < r.len() && (#[trigger] r[i]).name == name ==> r[i].uuid == uuid
            &&& (exists|i: int| 0 <= i < users.len() && (#[trigger] users[i]).name == name) ==> {
                &&& r.len() == users.len()
                &&& forall|j: int| 0 <= j < users.len() && users[j].name != name ==> #[trigger] r[j] == users[j]
                &&& forall|j: int| 0 <= j < users.len() && users[j].name == name ==> #[trigger] r[j]
                    == (UserRecord { name, uuid })
            }
            &&& !(exists|i: int| 0 <= i < users.len() && (#[trigger] users[i]).name == name) ==> {
                &&& r == users.push(UserRecord { name, uuid })
            }
        }),
{
    let keys = users.map_values(|u: UserRecord| u.name);
    lemma_first_match(keys, name);
    let r = upsert_spec(users, name, uuid);
    match first_match(keys, name) {
        Some(i) => {
            assert(users[i].name == name);
            assert(r[i] == (UserRecord { name, uuid }));
            assert forall|j: int| 0 <= j < users.len() && users[j].name == name implies #[trigger] r[j]
                == (UserRecord { name, uuid }) by {
                if j != i {
                    if j < i {
                        assert(users[j].name != users[i].name);
                    } else {
                        assert(users[i].name != users[j].name);
                    }
                }
            }
            assert forall|a: int, b: int| 0 <= a < b < r.len() implies (#[trigger] r[a]).name != (#[trigger] r[b]).name by {
                assert(r[a].name == users[a].name && r[b].name == users[b].name);
            }
        },
        None => {
            assert forall|j: int| 0 <= j < users.len() implies (#[trigger] users[j]).name != name by {
                assert(keys[j] == users[j].name);
            }
            assert(r[users.len() as int] == (UserRecord { name, uuid }));
            assert forall|a: int, b: int| 0 <= a < b < r.len() implies (#[trigger] r[a]).name != (#[trigger] r[b]).name by {
                if b == users.len() {
                    assert(r[a] == users[a]);
                }
            }
        },
    }
}

/// The content of a server storage.
pub struct StorageView {
    pub users_path: Seq<char>,
    pub teams_path: Seq<char>,
    pub messages_path: Seq<char>,
    pub users: Seq<UserRecord>,
    pub teams: Seq<TeamRecord>,
    pub messages: Seq<MessageRecord>,
}

/// The server's persistent data and the files it is kept in.
pub struct ServerStorage {
    users_path: String,
    teams_path: String,
    messages_path: String,
    users: Vec<UserEntry>,
    team_tree: TeamTree,
    messages: Vec<MessageEntry>,
}

impl View for ServerStorage {
    type V = StorageView;

    closed spec fn view(&self) -> StorageView {
        StorageView {
            users_path: self.users_path@,
            teams_path: self.teams_path@,
            messages_path: self.messages_path@,
            users: self.users@.map_values(|u: UserEntry| u@),
            teams: self.team_tree@,
            messages: self.messages@.map_values(|m: MessageEntry| m@),
        }
    }
}

/// Default location of the users file.
pub fn default_users_path() -> (r: &'static str)
    ensures
        r@ == "data/users.json"@,
{
    "data/users.json"
}

/// Default location of the teams file.
pub fn default_teams_path() -> (r: &'static str)
    ensures
        r@ == "data/teams.json"@,
{
    "data/teams.json"
}

/// Default location of the messages file.
pub fn default_messages_path() -> (r: &'static str)
    ensures
        r@ == "data/messages.json"@,
{
    "data/messages.json"
}

impl ServerStorage {
    /// A storage holding the given data, kept in the given files.
    pub fn from_parts(
        users_path: &str,
        teams_path: &str,
        messages_path: &str,
        users: Vec<UserEntry>,
        team_tree: TeamTree,
        messages: Vec<MessageEntry>,
    ) -> (r: ServerStorage)
        ensures
            r@.users_path == users_path@,
            r@.teams_path == teams_path@,
            r@.messages_path == messages_path@,
            r@.users == users@.map_values(|u: UserEntry| u@),
            r@.teams == team_tree@,
            r@.messages == messages@.map_values(|m: MessageEntry| m@),
    {
        ServerStorage {
            users_path: users_path.to_owned(),
            teams_path: teams_path.to_owned(),
            messages_path: messages_path.to_owned(),
            users,
            team_tree,
            messages,
        }
    }

    /// The known users as `(name, uuid)` pairs, in stored order.
    pub fn user_pairs(&self) -> (r: Vec<(String, String)>)
        ensures
            r@.len() == self@.users.len(),
            forall|i: int|
                0 <= i < r@.len() ==> (#[trigger] r@[i]).0@ == self@.users[i].name && r@[i].1@
                    == self@.users[i].uuid,
    {
        let mut out: Vec<(String, String)> = Vec::new();
        let mut i: usize = 0;
        while i < self.users.len()
            invariant
                i <= self.users@.len(),
                out@.len() == i,
                forall|j: int|
                    0 <= j < i ==> (#[trigger] out@[j]).0@ == self.users@[j].name@ && out@[j].1@
                        == self.users@[j].uuid@,
            decreases self.users@.len() - i,
        {
            out.push((self.users[i].name.clone(), self.users[i].uuid.clone()));
            i = i + 1;
        }
        out
    }

    /// Records that user `name` has UUID `uuid`: the first user of that name
    /// takes the UUID, or the user is appended.
    pub fn upsert_user(&mut self, name: &str, uuid: &str)
        ensures
            final(self)@ == (StorageView {
                users: upsert_spec(old(self)@.users, name@, uuid@),
                ..old(self)@
            }),
    {
        let ghost before = self.users@;
        proof {
            assert(keys_of(before) =~= before.map_values(|u: UserEntry| u@).map_values(
                |u: UserRecord| u.name,
            ));
        }
        match position_of(&self.users, name) {
            Some(i) => {
                let mut entry = self.users.remove(i);
                entry.uuid = uuid.to_owned();
                self.users.insert(i, entry);
                assert(self.users@.map_values(|u: UserEntry| u@) =~= upsert_spec(
                    before.map_values(|u: UserEntry| u@),
                    name@,
                    uuid@,
                ));
            },
            None => {
                self.users.push(UserEntry { name: name.to_owned(), uuid: uuid.to_owned() });
                assert(self.users@.map_values(|u: UserEntry| u@) =~= upsert_spec(
                    before.map_values(|u: UserEntry| u@),
                    name@,
                    uuid@,
                ));
            },
        }
    }

    /// The known users, in stored order.
    pub fn users_list(&self) -> (r: &Vec<UserEntry>)
        ensures
            r@.map_values(|u: UserEntry| u@) == self@.users,
    {
        &self.users
    }

    /// The private messages, in stored order.
    pub fn messages_list(&self) -> (r: &Vec<MessageEntry>)
        ensures
            r@.map_values(|m: MessageEntry| m@) == self@.messages,
    {
        &self.messages
    }

    /// The team tree.
    pub fn team_tree(&self) -> (r: &TeamTree)
        ensures
            r@ == self@.teams,
    {
        &self.team_tree
    }

    /// The team with UUID `team_uuid`.
    pub fn team(&self, team_uuid: &str) -> (r: Option<&TeamEntry>)
        ensures
            match r {
                Some(t) => team_at(self@.teams, team_uuid@) == Some(t@),
                None => team_at(self@.teams, team_uuid@) is None,
            },
    {
        let teams = &self.team_tree.teams;
        proof {
            assert(keys_of(teams@) =~= self@.teams.map_values(|t: TeamRecord| t.uuid));
        }
        match position_of(teams, team_uuid) {
            Some(i) => Some(&teams[i]),
            None => None,
        }
    }

    /// Channel `channel_uuid` of team `team_uuid`.
    pub fn channel(&self, team_uuid: &str, channel_uuid: &str) -> (r: Option<&ChannelEntry>)
        ensures
            match r {
                Some(c) => channel_at(self@.teams, team_uuid@, channel_uuid@) == Some(c@),
                None => channel_at(self@.teams, team_uuid@, channel_uuid@) is None,
            },
    {
        match self.team(team_uuid) {
            Some(team) => {
                proof {
                    assert(keys_of(team.channels@) =~= team@.channels.map_values(
                        |x: ChannelRecord| x.uuid,
                    ));
                }
                match position_of(&team.channels, channel_uuid) {
                    Some(i) => Some(&team.channels[i]),
                    None => None,
                }
            },
            None => None,
        }
    }

    /// Thread `thread_uuid` of channel `channel_uuid` of team `team_uuid`.
    pub fn thread(&self, team_uuid: &str, channel_uuid: &str, thread_uuid: &str) -> (r: Option<
        &ThreadEntry,
    >)
        ensures
            match r {
                Some(t) => thread_at(self@.teams, team_uuid@, channel_uuid@, thread_uuid@) == Some(
                    t@,
                ),
                None => thread_at(self@.teams, team_uuid@, channel_uuid@, thread_uuid@) is None,
            },
    {
        match self.channel(team_uuid, channel_uuid) {
            Some(channel) => {
                proof {
                    assert(keys_of(channel.threads@) =~= channel@.threads.map_values(
                        |x: ThreadRecord| x.uuid,
                    ));
                }
                match position_of(&channel.threads, thread_uuid) {
                    Some(i) => Some(&channel.threads[i]),
                    None => None,
                }
            },
            None => None,
        }
    }

    /// Replaces the team tree.
    pub fn replace_team_tree(&mut self, team_tree: TeamTree)
        ensures
            final(self)@ == (StorageView { teams: team_tree@, ..old(self)@ }),
    {
        self.team_tree = team_tree;
    }

    /// The file the users are kept in.
    pub fn users_file(&self) -> (r: &str)
        ensures
            r@ == self@.users_path,
    {
        self.users_path.as_str()
    }

    /// The file the teams are kept in.
    pub fn teams_file(&self) -> (r: &str)
        ensures
            r@ == self@.teams_path,
    {
        self.teams_path.as_str()
    }

    /// The file the private messages are kept in.
    pub fn messages_file(&self) -> (r: &str)
        ensures
            r@ == self@.messages_path,
    {
        self.messages_path.as_str()
    }

    /// Appends a private message.
    pub fn append_private_message(
        &mut self,
        sender_uuid: &str,
        recipient_uuid: &str,
        timestamp: i64,
        body: &str,
    )
        ensures
            final(self)@ == (StorageView {
                messages: old(self)@.messages.push(
                    MessageRecord {
                        sender_uuid: sender_uuid@,
                        recipient_uuid: recipient_uuid@,
                        timestamp,
                        body: body@,
                    },
                ),
                ..old(self)@
            }),
    {
        self.messages.push(
            MessageEntry {
                sender_uuid: sender_uuid.to_owned(),
                recipient_uuid: recipient_uuid.to_owned(),
                timestamp,
                body: body.to_owned(),
            },
        );
        assert(self@.messages =~= old(self)@.messages.push(
            MessageRecord {
                sender_uuid: sender_uuid@,
                recipient_uuid: recipient_uuid@,
                timestamp,
                body: body@,
            },
        ));
    }

    /// The messages exchanged between `user_a` and `user_b`, either way, in
    /// the order they were stored.
    pub fn conversation_messages(&self, user_a: &str, user_b: &str) -> (r: Vec<MessageEntry>)
        ensures
            r@.map_values(|m: MessageEntry| m@) == conversation_spec(
                self@.messages,
                user_a@,
                user_b@,
            ),
    {
        let ghost all = self@.messages;
        let mut out: Vec<MessageEntry> = Vec::new();
        let mut i: usize = 0;
        while i < self.messages.len()
            invariant
                i <= self.messages@.len(),
                all == self.messages@.map_values(|m: MessageEntry| m@),
                out@.map_values(|m: MessageEntry| m@) == conversation_spec(
                    all.subrange(0, i as int),
                    user_a@,
                    user_b@,
                ),
            decreases self.messages@.len() - i,
        {
            let m = &self.messages[i];
            let matches = (str_eq(m.sender_uuid.as_str(), user_a) && str_eq(
                m.recipient_uuid.as_str(),
                user_b,
            )) || (str_eq(m.sender_uuid.as_str(), user_b) && str_eq(
                m.recipient_uuid.as_str(),
                user_a,
            ));
            assert(all.subrange(0, i + 1).drop_last() =~= all.subrange(0, i as int));
            if matches {
                out.push(m.clone());
            }
            i = i + 1;
            assert(out@.map_values(|m: MessageEntry| m@) =~= conversation_spec(
                all.subrange(0, i as int),
                user_a@,
                user_b@,
            ));
        }
        assert(all.subrange(0, i as int) =~= all);
        out
    }
}

/// The teams with channel `ch` added to the team with UUID `t`.
pub open spec fn add_channel_spec(teams: Seq<TeamRecord>, t: Seq<char>, ch: ChannelRecord) -> Seq<
    TeamRecord,
> {
    match first_match(teams.map_values(|x: TeamRecord| x.uuid), t) {
        Some(i) => teams.update(i, TeamRecord { channels: teams[i].channels.push(ch), ..teams[i] }),
        None => teams,
    }
}

/// The channel with thread `th` added to it.
pub open spec fn channel_with_thread(c: ChannelRecord, th: ThreadRecord) -> ChannelRecord {
    ChannelRecord { threads: c.threads.push(th), ..c }
}

/// The teams with thread `th` added to channel `c` of team `t`.
pub open spec fn add_thread_spec(
    teams: Seq<TeamRecord>,
    t: Seq<char>,
    c: Seq<char>,
    th: ThreadRecord,
) -> Seq<TeamRecord> {
    match first_match(teams.map_values(|x: TeamRecord| x.uuid), t) {
        Some(i) => match first_match(teams[i].channels.map_values(|x: ChannelRecord| x.uuid), c) {
            Some(j) => teams.update(
                i,
                TeamRecord {
                    channels: teams[i].channels.update(
                        j,
                        channel_with_thread(teams[i].channels[j], th),
                    ),
                    ..teams[i]
                },
            ),
            None => teams,
        },
        None => teams,
    }
}

/// The thread with reply `r` added to it.
pub open spec fn thread_with_reply(x: ThreadRecord, r: ReplyRecord) -> ThreadRecord {
    ThreadRecord { replies: x.replies.push(r), ..x }
}

/// The teams with reply `r` added to thread `th` of channel `c` of team `t`.
pub open spec fn add_reply_spec(
    teams: Seq<TeamRecord>,
    t: Seq<char>,
    c: Seq<char>,
    th: Seq<char>,
    r: ReplyRecord,
) -> Seq<TeamRecord> {
    match first_match(teams.map_values(|x: TeamRecord| x.uuid), t) {
        Some(i) => match first_match(teams[i].channels.map_values(|x: ChannelRecord| x.uuid), c) {
            Some(j) => match first_match(
                teams[i].channels[j].threads.map_values(|x: ThreadRecord| x.uuid),
                th,
            ) {
                Some(k) => teams.update(
                    i,
                    TeamRecord {
                        channels: teams[i].channels.update(
                            j,
                            ChannelRecord {
                                threads: teams[i].channels[j].threads.update(
                                    k,
                                    thread_with_reply(teams[i].channels[j].threads[k], r),
                                ),
                                ..teams[i].channels[j]
                            },
                        ),
                        ..teams[i]
                    },
                ),
                None => teams,
            },
            None => teams,
        },
        None => teams,
    }
}

/// Find the position of a team.
pub fn team_position(tree: &TeamTree, team_uuid: &str) -> (r: Option<usize>)
    ensures
        match r {
            Some(i) => first_match(tree@.map_values(|x: TeamRecord| x.uuid), team_uuid@) == Some(
                i as int,
            ),
            None => first_match(tree@.map_values(|x: TeamRecord| x.uuid), team_uuid@) is None,
        },
{
    assert(keys_of(tree.teams@) =~= tree@.map_values(|x: TeamRecord| x.uuid));
    position_of(&tree.teams, team_uuid)
}

/// Find the positions of a channel: its team's, then its own.
pub fn channel_position(tree: &TeamTree, team_uuid: &str, channel_uuid: &str) -> (r: Option<
    (usize, usize),
>)
    ensures
        match r {
            Some((i, j)) => {
                &&& first_match(tree@.map_values(|x: TeamRecord| x.uuid), team_uuid@) == Some(
                    i as int,
                )
                &&& first_match(
                    tree@[i as int].channels.map_values(|x: ChannelRecord| x.uuid),
                    channel_uuid@,
                ) == Some(j as int)
            },
            None => channel_at(tree@, team_uuid@, channel_uuid@) is None,
        },
{
    match team_position(tree, team_uuid) {
        Some(i) => {
            let team = &tree.teams[i];
            assert(keys_of(team.channels@) =~= team@.channels.map_values(|x: ChannelRecord| x.uuid));
            match position_of(&team.channels, channel_uuid) {
                Some(j) => Some((i, j)),
                None => None,
            }
        },
        None => None,
    }
}

/// Find the positions of a thread: its team's, its channel's, then its own.
pub fn thread_position(tree: &TeamTree, team_uuid: &str, channel_uuid: &str, thread_uuid: &str) -> (r:
    Option<(usize, usize, usize)>)
    ensures
        match r {
            Some((i, j, k)) => {
                &&& first_match(tree@.map_values(|x: TeamRecord| x.uuid), team_uuid@) == Some(
                    i as int,
                )
                &&& first_match(
                    tree@[i as int].channels.map_values(|x: ChannelRecord| x.uuid),
                    channel_uuid@,
                ) == Some(j as int)
                &&& first_match(
                    tree@[i as int].channels[j as int].threads.map_values(|x: ThreadRecord| x.uuid),
                    thread_uuid@,
                ) == Some(k as int)
            },
            None => thread_at(tree@, team_uuid@, channel_uuid@, thread_uuid@) is None,
        },
{
    match channel_position(tree, team_uuid, channel_uuid) {
        Some((i, j)) => {
            let channel = &tree.teams[i].channels[j];
            assert(keys_of(channel.threads@) =~= channel@.threads.map_values(
                |x: ThreadRecord| x.uuid,
            ));
            match position_of(&channel.threads, thread_uuid) {
                Some(k) => Some((i, j, k)),
                None => None,
            }
        },
        None => None,
    }
}

impl TeamTree {
    /// Adds a channel to the team at position `i`.
    pub fn push_channel(&mut self, i: usize, channel: ChannelEntry)
        requires
            i < old(self)@.len(),
        ensures
            final(self)@ == old(self)@.update(
                i as int,
                TeamRecord {
                    channels: old(self)@[i as int].channels.push(channel@),
                    ..old(self)@[i as int]
                },
            ),
    {
        let mut team = self.teams.remove(i);
        let ghost tv = team@;
        team.channels.push(channel);
        assert(team@.channels =~= tv.channels.push(channel@));
        self.teams.insert(i, team);
        assert(self@ =~= old(self)@.update(
            i as int,
            TeamRecord { channels: old(self)@[i as int].channels.push(channel@), ..old(self)@[i as int] },
        ));
    }

    /// Adds a thread to channel `j` of the team at position `i`.
    pub fn push_thread(&mut self, i: usize, j: usize, thread: ThreadEntry)
        requires
            i < old(self)@.len(),
            j < old(self)@[i as int].channels.len(),
        ensures
            final(self)@ == old(self)@.update(
                i as int,
                TeamRecord {
                    channels: old(self)@[i as int].channels.update(
                        j as int,
                        channel_with_thread(old(self)@[i as int].channels[j as int], thread@),
                    ),
                    ..old(self)@[i as int]
                },
            ),
    {
        let mut team = self.teams.remove(i);
        let ghost tv = team@;
        let mut channel = team.channels.remove(j);
        let ghost cv = channel@;
        channel.threads.push(thread);
        assert(channel@.threads =~= cv.threads.push(thread@));
        team.channels.insert(j, channel);
        assert(team@.channels =~= tv.channels.update(j as int, channel_with_thread(cv, thread@)));
        self.teams.insert(i, team);
        assert(self@ =~= old(self)@.update(
            i as int,
            TeamRecord {
                channels: old(self)@[i as int].channels.update(
                    j as int,
                    channel_with_thread(old(self)@[i as int].channels[j as int], thread@),
                ),
                ..old(self)@[i as int]
            },
        ));
    }

    /// Adds a reply to thread `k` of channel `j` of the team at position `i`.
    pub fn push_reply(&mut self, i: usize, j: usize, k: usize, reply: ReplyEntry)
        requires
            i < old(self)@.len(),
            j < old(self)@[i as int].channels.len(),
            k < old(self)@[i as int].channels[j as int].threads.len(),
        ensures
            final(self)@ == old(self)@.update(
                i as int,
                TeamRecord {
                    channels: old(self)@[i as int].channels.update(
                        j as int,
                        ChannelRecord {
                            threads: old(self)@[i as int].channels[j as int].threads.update(
                                k as int,
                                thread_with_reply(
                                    old(self)@[i as int].channels[j as int].threads[k as int],
                                    reply@,
                                ),
                            ),
                            ..old(self)@[i as int].channels[j as int]
                        },
                    ),
                    ..old(self)@[i as int]
                },
            ),
    {
        let mut team = self.teams.remove(i);
        let ghost tv = team@;
        let mut channel = team.channels.remove(j);
        let ghost cv = channel@;
        let mut thread = channel.threads.remove(k);
        let ghost hv = thread@;
        thread.replies.push(reply);
        assert(thread@.replies =~= hv.replies.push(reply@));
        channel.threads.insert(k, thread);
        assert(channel@.threads =~= cv.threads.update(k as int, thread_with_reply(hv, reply@)));
        team.channels.insert(j, channel);
        assert(team@.channels =~= tv.channels.update(
            j as int,
            ChannelRecord { threads: cv.threads.update(k as int, thread_with_reply(hv, reply@)), ..cv },
        ));
        self.teams.insert(i, team);
        assert(self@ =~= old(self)@.update(
            i as int,
            TeamRecord {
                channels: old(self)@[i as int].channels.update(
                    j as int,
                    ChannelRecord {
                        threads: old(self)@[i as int].channels[j as int].threads.update(
                            k as int,
                            thread_with_reply(
                                old(self)@[i as int].channels[j as int].threads[k as int],
                                reply@,
                            ),
                        ),
                        ..old(self)@[i as int].channels[j as int]
                    },
                ),
                ..old(self)@[i as int]
            },
        ));
    }
}

/// A conversation is the same from either side.
pub proof fn lemma_conversation_symmetric(m: Seq<MessageRecord>, a: Seq<char>, b: Seq<char>)
    ensures
        conversation_spec(m, a, b) == conversation_spec(m, b, a),
    decreases m.len(),
{
    if m.len() > 0 {
        lemma_conversation_symmetric(m.drop_last(), a, b);
    }
}

/// A message stored from `a` to `b` ends their conversation.
pub proof fn lemma_conversation_append(m: Seq<MessageRecord>, x: MessageRecord)
    ensures
        conversation_spec(m.push(x), x.sender_uuid, x.recipient_uuid) == conversation_spec(
            m,
            x.sender_uuid,
            x.recipient_uuid,
        ).push(x),
        conversation_spec(m.push(x), x.recipient_uuid, x.sender_uuid) == conversation_spec(
            m,
            x.recipient_uuid,
            x.sender_uuid,
        ).push(x),
{
    assert(m.push(x).drop_last() =~= m);
}

/// A message between others leaves a conversation unchanged.
pub proof fn lemma_conversation_other(m: Seq<MessageRecord>, x: MessageRecord, a: Seq<char>, b: Seq<char>)
    requires
        !(x.sender_uuid == a && x.recipient_uuid == b),
        !(x.sender_uuid == b && x.recipient_uuid == a),
    ensures
        conversation_spec(m.push(x), a, b) == conversation_spec(m, a, b),
{
    assert(m.push(x).drop_last() =~= m);
}

} // verus!
