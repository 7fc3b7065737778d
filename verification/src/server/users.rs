//! In-memory view of users, their online sessions and team subscriptions.
use vstd::prelude::*;

use crate::collections::{
    lemma_seq_lt_order, lemma_sorted_unique, seq_lt, sorted, str_lt, AssocList, StringSet,
};
use crate::server::ids::{make_uuid_v4_like, uuid_for};

verus! {

/// In-memory view of users and their online state.
pub struct UserStore {
    by_name: AssocList<String>,
    by_uuid: AssocList<String>,
    online_sessions: AssocList<usize>,
    team_subscribers: AssocList<StringSet>,
    user_subscriptions: AssocList<StringSet>,
    sequence: u64,
}

/// The content of a user store.
pub struct UserStoreView {
    /// User name to UUID.
    pub by_name: Map<Seq<char>, Seq<char>>,
    /// UUID to user name.
    pub by_uuid: Map<Seq<char>, Seq<char>>,
    /// UUID to number of open sessions (at least one when present).
    pub online: Map<Seq<char>, nat>,
    /// Team UUID to subscribed user UUIDs (never empty).
    pub team_subscribers: Map<Seq<char>, Set<Seq<char>>>,
    /// User UUID to subscribed team UUIDs (never empty).
    pub user_subscriptions: Map<Seq<char>, Set<Seq<char>>>,
    /// Number of users created by login so far, modulo 2^64.
    pub sequence: u64,
}

/// Whether user `u` has an open session.
pub open spec fn online_in(v: UserStoreView, u: Seq<char>) -> bool {
    v.online.contains_key(u) && v.online[u] > 0
}

/// Session counts after one more session of `u`; a count never passes
/// `usize::MAX`.
pub open spec fn bump_spec(m: Map<Seq<char>, nat>, u: Seq<char>) -> Map<Seq<char>, nat> {
    if !m.contains_key(u) {
        m.insert(u, 1)
    } else if m[u] < usize::MAX {
        m.insert(u, m[u] + 1)
    } else {
        m
    }
}

/// Session counts after one session of `u` ends.
pub open spec fn drop_session_spec(m: Map<Seq<char>, nat>, u: Seq<char>) -> Map<Seq<char>, nat> {
    if !m.contains_key(u) {
        m
    } else if m[u] <= 1 {
        m.remove(u)
    } else {
        m.insert(u, (m[u] - 1) as nat)
    }
}

/// `m` with `x` added to the set under `k`.
pub open spec fn add_member(
    m: Map<Seq<char>, Set<Seq<char>>>,
    k: Seq<char>,
    x: Seq<char>,
) -> Map<Seq<char>, Set<Seq<char>>> {
    if m.contains_key(k) {
        m.insert(k, m[k].insert(x))
    } else {
        m.insert(k, set![x])
    }
}

/// `m` with `x` removed from the set under `k`, dropping the set when empty.
pub open spec fn remove_member(
    m: Map<Seq<char>, Set<Seq<char>>>,
    k: Seq<char>,
    x: Seq<char>,
) -> Map<Seq<char>, Set<Seq<char>>> {
    if !m.contains_key(k) {
        m
    } else if m[k].remove(x).is_empty() {
        m.remove(k)
    } else {
        m.insert(k, m[k].remove(x))
    }
}

/// The map built by inserting each pair in order, as `HashMap::insert`
/// does when the pairs are collected.
pub open spec fn map_of_pairs(p: Seq<(Seq<char>, Seq<char>)>) -> Map<Seq<char>, Seq<char>>
    decreases p.len(),
{
    if p.len() == 0 {
        Map::empty()
    } else {
        map_of_pairs(p.drop_last()).insert(p.last().0, p.last().1)
    }
}

/// The pairs with each member swapped.
pub open spec fn swap_pairs(p: Seq<(Seq<char>, Seq<char>)>) -> Seq<(Seq<char>, Seq<char>)> {
    p.map_values(|x: (Seq<char>, Seq<char>)| (x.1, x.0))
}

/// The views of a vector of string pairs.
pub open spec fn pairs_view(p: Seq<(String, String)>) -> Seq<(Seq<char>, Seq<char>)> {
    p.map_values(|x: (String, String)| (x.0@, x.1@))
}

/// Sort key of a listed user: by name, then by UUID.
pub open spec fn user_entry_lt(a: (Seq<char>, Seq<char>), b: (Seq<char>, Seq<char>)) -> bool {
    seq_lt(a.1, b.1) || (a.1 == b.1 && seq_lt(a.0, b.0))
}

/// Whether listed users `(uuid, name, online)` are sorted by name then UUID.
pub open spec fn users_sorted(s: Seq<(String, String, bool)>) -> bool {
    forall|i: int, j: int|
        0 <= i < j < s.len() ==> user_entry_lt(
            ((#[trigger] s[i]).0@, s[i].1@),
            ((#[trigger] s[j]).0@, s[j].1@),
        )
}

/// The store after a login of `name`: a known name keeps its UUID and gets
/// one more session; an unknown name is registered under `fresh`. Also gives
/// the UUID and whether the user was created.
pub open spec fn login_step(v: UserStoreView, name: Seq<char>, fresh: Seq<char>) -> (
    UserStoreView,
    Seq<char>,
    bool,
) {
    if v.by_name.contains_key(name) {
        let u = v.by_name[name];
        (UserStoreView { online: bump_spec(v.online, u), ..v }, u, false)
    } else {
        (
            UserStoreView {
                by_name: v.by_name.insert(name, fresh),
                by_uuid: v.by_uuid.insert(fresh, name),
                online: bump_spec(v.online, fresh),
                sequence: v.sequence.wrapping_add(1),
                ..v
            },
            fresh,
            true,
        )
    }
}

/// The store after one session of `u` ends.
pub open spec fn logout_spec(v: UserStoreView, u: Seq<char>) -> UserStoreView {
    UserStoreView { online: drop_session_spec(v.online, u), ..v }
}

/// The store after `u` subscribes to team `t`.
pub open spec fn subscribe_spec(v: UserStoreView, u: Seq<char>, t: Seq<char>) -> UserStoreView {
    UserStoreView {
        team_subscribers: add_member(v.team_subscribers, t, u),
        user_subscriptions: add_member(v.user_subscriptions, u, t),
        ..v
    }
}

/// The store after `u` unsubscribes from team `t`.
pub open spec fn unsubscribe_spec(v: UserStoreView, u: Seq<char>, t: Seq<char>) -> UserStoreView {
    UserStoreView {
        team_subscribers: remove_member(v.team_subscribers, t, u),
        user_subscriptions: remove_member(v.user_subscriptions, u, t),
        ..v
    }
}

/// Whether `rows` lists every known user once as `(uuid, name, online)`,
/// sorted by name then UUID.
pub open spec fn listing_ok(v: UserStoreView, rows: Seq<(Seq<char>, Seq<char>, bool)>) -> bool {
    &&& forall|i: int, j: int|
        0 <= i < j < rows.len() ==> user_entry_lt(
            ((#[trigger] rows[i]).0, rows[i].1),
            ((#[trigger] rows[j]).0, rows[j].1),
        )
    &&& rows.len() == v.by_uuid.dom().len()
    &&& forall|i: int|
        0 <= i < rows.len() ==> {
            &&& v.by_uuid.contains_key((#[trigger] rows[i]).0)
            &&& rows[i].1 == v.by_uuid[rows[i].0]
            &&& rows[i].2 == online_in(v, rows[i].0)
        }
    &&& forall|u: Seq<char>| #[trigger]
        v.by_uuid.contains_key(u) ==> exists|i: int| 0 <= i < rows.len() && (#[trigger] rows[i]).0 == u
}

/// The views of listed users.
pub open spec fn rows_view(r: Seq<(String, String, bool)>) -> Seq<(Seq<char>, Seq<char>, bool)> {
    r.map_values(|x: (String, String, bool)| (x.0@, x.1@, x.2))
}

/// The members of `m` under `k`, or none.
pub open spec fn members(m: Map<Seq<char>, Set<Seq<char>>>, k: Seq<char>) -> Set<Seq<char>> {
    if m.contains_key(k) {
        m[k]
    } else {
        Set::empty()
    }
}

/// `user_entry_lt` is a strict order.
proof fn lemma_user_entry_lt(
    a: (Seq<char>, Seq<char>),
    b: (Seq<char>, Seq<char>),
    c: (Seq<char>, Seq<char>),
)
    ensures
        !user_entry_lt(a, a),
        user_entry_lt(a, b) ==> !user_entry_lt(b, a),
        a.0 != b.0 ==> user_entry_lt(a, b) || user_entry_lt(b, a),
        user_entry_lt(a, b) && user_entry_lt(b, c) ==> user_entry_lt(a, c),
{
    lemma_seq_lt_order(a.0, b.0, c.0);
    lemma_seq_lt_order(a.1, b.1, c.1);
}

/// Logging in twice with the same name gives the same UUID, and the second
/// login creates nobody.
pub proof fn lemma_login_twice(v: UserStoreView, name: Seq<char>, fresh1: Seq<char>, fresh2: Seq<char>)
    ensures
        login_step(login_step(v, name, fresh1).0, name, fresh2).1 == login_step(v, name, fresh1).1,
        !login_step(login_step(v, name, fresh1).0, name, fresh2).2,
{
}

/// A logout right after a login gives back the session counts from before,
/// unless the count was already at its limit.
pub proof fn lemma_logout_undoes_login(m: Map<Seq<char>, nat>, u: Seq<char>)
    requires
        forall|k: Seq<char>| #[trigger] m.contains_key(k) ==> m[k] > 0,
        m.contains_key(u) ==> m[u] < usize::MAX,
    ensures
        drop_session_spec(bump_spec(m, u), u) == m,
{
    if m.contains_key(u) {
        assert(drop_session_spec(bump_spec(m, u), u) =~= m);
    } else {
        assert(drop_session_spec(bump_spec(m, u), u) =~= m);
    }
}

/// After `u` subscribes to `t`, `t` is among the teams of `u` and `u` among
/// the subscribers of `t`.
pub proof fn lemma_subscribe_lists(v: UserStoreView, u: Seq<char>, t: Seq<char>)
    ensures
        members(subscribe_spec(v, u, t).user_subscriptions, u).contains(t),
        members(subscribe_spec(v, u, t).team_subscribers, t).contains(u),
{
}

/// After `u` unsubscribes from `t`, `t` is no longer among the teams of `u`
/// nor `u` among the subscribers of `t`; the other memberships stay.
pub proof fn lemma_unsubscribe_removes(v: UserStoreView, u: Seq<char>, t: Seq<char>)
    ensures
        !members(unsubscribe_spec(v, u, t).user_subscriptions, u).contains(t),
        !members(unsubscribe_spec(v, u, t).team_subscribers, t).contains(u),
        forall|x: Seq<char>| x != t ==> (#[trigger] members(
            unsubscribe_spec(v, u, t).user_subscriptions,
            u,
        ).contains(x) <==> members(v.user_subscriptions, u).contains(x)),
        forall|x: Seq<char>| x != u ==> (#[trigger] members(
            unsubscribe_spec(v, u, t).team_subscribers,
            t,
        ).contains(x) <==> members(v.team_subscribers, t).contains(x)),
{
}

/// Unsubscribing right after subscribing gives back the subscriptions from
/// before, when `u` was not subscribed to `t` and every stored set is
/// non-empty, as the store keeps them.
pub proof fn lemma_unsubscribe_undoes_subscribe(v: UserStoreView, u: Seq<char>, t: Seq<char>)
    requires
        !members(v.user_subscriptions, u).contains(t),
        !members(v.team_subscribers, t).contains(u),
        forall|k: Seq<char>| #[trigger] v.user_subscriptions.contains_key(k)
            ==> v.user_subscriptions[k] != Set::<Seq<char>>::empty(),
        forall|k: Seq<char>| #[trigger] v.team_subscribers.contains_key(k)
            ==> v.team_subscribers[k] != Set::<Seq<char>>::empty(),
    ensures
        unsubscribe_spec(subscribe_spec(v, u, t), u, t) == v,
{
    let a = subscribe_spec(v, u, t);
    let b = unsubscribe_spec(a, u, t);
    if v.user_subscriptions.contains_key(u) {
        assert(a.user_subscriptions[u].remove(t) =~= v.user_subscriptions[u]);
    } else {
        assert(a.user_subscriptions[u].remove(t) =~= Set::<Seq<char>>::empty());
    }
    if v.team_subscribers.contains_key(t) {
        assert(a.team_subscribers[t].remove(u) =~= v.team_subscribers[t]);
    } else {
        assert(a.team_subscribers[t].remove(u) =~= Set::<Seq<char>>::empty());
    }
    assert(b.user_subscriptions =~= v.user_subscriptions);
    assert(b.team_subscribers =~= v.team_subscribers);
}

/// Whether names and UUIDs are linked both ways: each name's UUID is listed
/// under that name, and each UUID's name under that UUID.
pub open spec fn names_linked(v: UserStoreView) -> bool {
    &&& forall|n: Seq<char>| #[trigger] v.by_name.contains_key(n) ==> v.by_uuid.contains_key(
        v.by_name[n],
    ) && v.by_uuid[v.by_name[n]] == n
    &&& forall|u: Seq<char>| #[trigger] v.by_uuid.contains_key(u) ==> v.by_name.contains_key(
        v.by_uuid[u],
    ) && v.by_name[v.by_uuid[u]] == u
}

/// Whether the two subscription maps agree: `u` is among the subscribers of
/// `t` exactly when `t` is among the teams of `u`.
pub open spec fn subscriptions_symmetric(v: UserStoreView) -> bool {
    forall|t: Seq<char>, u: Seq<char>|
        #[trigger] members(v.team_subscribers, t).contains(u) <==> #[trigger] members(
            v.user_subscriptions,
            u,
        ).contains(t)
}

/// Whether every user and name of `v` is still known in `w`, under the same
/// link.
pub open spec fn users_kept(v: UserStoreView, w: UserStoreView) -> bool {
    &&& forall|n: Seq<char>| #[trigger] v.by_name.contains_key(n) ==> w.by_name.contains_key(n)
    &&& forall|u: Seq<char>| #[trigger] v.by_uuid.contains_key(u) ==> w.by_uuid.contains_key(u)
}

/// Whether no two pairs share a name or a UUID.
pub open spec fn pairs_distinct(p: Seq<(Seq<char>, Seq<char>)>) -> bool {
    forall|i: int, j: int|
        0 <= i < j < p.len() ==> (#[trigger] p[i]).0 != (#[trigger] p[j]).0 && p[i].1 != p[j].1
}

/// The keys of the map built from pairs are the first members of the pairs.
proof fn lemma_map_of_pairs_keys(p: Seq<(Seq<char>, Seq<char>)>, k: Seq<char>)
    ensures
        map_of_pairs(p).contains_key(k) <==> exists|i: int| 0 <= i < p.len() && (#[trigger] p[i]).0 == k,
    decreases p.len(),
{
    if p.len() > 0 {
        let q = p.drop_last();
        lemma_map_of_pairs_keys(q, k);
        if exists|i: int| 0 <= i < q.len() && (#[trigger] q[i]).0 == k {
            let i = choose|i: int| 0 <= i < q.len() && (#[trigger] q[i]).0 == k;
            assert(p[i] == q[i]);
        }
        if exists|i: int| 0 <= i < p.len() && (#[trigger] p[i]).0 == k {
            let i = choose|i: int| 0 <= i < p.len() && (#[trigger] p[i]).0 == k;
            if i < q.len() {
                assert(q[i] == p[i]);
            }
        }
    }
}

/// With distinct first members, the map built from pairs maps each first
/// member to its second, and has one key per pair.
pub proof fn lemma_map_of_distinct_pairs(p: Seq<(Seq<char>, Seq<char>)>)
    requires
        forall|i: int, j: int| 0 <= i < j < p.len() ==> (#[trigger] p[i]).0 != (#[trigger] p[j]).0,
    ensures
        forall|i: int| 0 <= i < p.len() ==> map_of_pairs(p).contains_key((#[trigger] p[i]).0)
            && map_of_pairs(p)[p[i].0] == p[i].1,
        map_of_pairs(p).dom().finite(),
        map_of_pairs(p).dom().len() == p.len(),
    decreases p.len(),
{
    if p.len() > 0 {
        let q = p.drop_last();
        assert forall|i: int, j: int| 0 <= i < j < q.len() implies (#[trigger] q[i]).0 != (
        #[trigger] q[j]).0 by {
            assert(q[i] == p[i] && q[j] == p[j]);
        }
        lemma_map_of_distinct_pairs(q);
        lemma_map_of_pairs_keys(q, p.last().0);
        if exists|i: int| 0 <= i < q.len() && (#[trigger] q[i]).0 == p.last().0 {
            let i = choose|i: int| 0 <= i < q.len() && (#[trigger] q[i]).0 == p.last().0;
            assert(p[i] == q[i]);
        }
        assert(!map_of_pairs(q).contains_key(p.last().0));
        assert(map_of_pairs(p).dom() =~= map_of_pairs(q).dom().insert(p.last().0));
        assert forall|i: int| 0 <= i < p.len() implies map_of_pairs(p).contains_key((#[trigger] p[i]).0)
            && map_of_pairs(p)[p[i].0] == p[i].1 by {
            if i < q.len() {
                assert(p[i] == q[i]);
            }
        }
    }
}

/// Pairs with distinct names and distinct UUIDs give linked maps.
pub proof fn lemma_pairs_linked(p: Seq<(Seq<char>, Seq<char>)>, v: UserStoreView)
    requires
        pairs_distinct(p),
        v.by_name == map_of_pairs(p),
        v.by_uuid == map_of_pairs(swap_pairs(p)),
    ensures
        names_linked(v),
    decreases p.len(),
{
    if p.len() > 0 {
        let q = p.drop_last();
        let (n, u) = p.last();
        assert forall|i: int, j: int| 0 <= i < j < q.len() implies (#[trigger] q[i]).0 != (
        #[trigger] q[j]).0 && q[i].1 != q[j].1 by {
            assert(q[i] == p[i] && q[j] == p[j]);
        }
        assert(swap_pairs(p).drop_last() =~= swap_pairs(q));
        assert(swap_pairs(p).last() == (u, n));
        let w = UserStoreView { by_name: map_of_pairs(q), by_uuid: map_of_pairs(swap_pairs(q)), ..v };
        lemma_pairs_linked(q, w);
        lemma_map_of_pairs_keys(q, n);
        lemma_map_of_pairs_keys(swap_pairs(q), u);
        if exists|i: int| 0 <= i < q.len() && (#[trigger] q[i]).0 == n {
            let i = choose|i: int| 0 <= i < q.len() && (#[trigger] q[i]).0 == n;
            assert(p[i] == q[i]);
            assert(p[p.len() - 1] == (n, u));
        }
        if exists|i: int| 0 <= i < swap_pairs(q).len() && (#[trigger] swap_pairs(q)[i]).0 == u {
            let i = choose|i: int| 0 <= i < swap_pairs(q).len() && (#[trigger] swap_pairs(q)[i]).0 == u;
            assert(swap_pairs(q)[i].0 == q[i].1);
            assert(p[i] == q[i]);
            assert(p[p.len() - 1] == (n, u));
        }
        assert(!w.by_name.contains_key(n));
        assert(!w.by_uuid.contains_key(u));
        assert forall|x: Seq<char>| #[trigger] v.by_name.contains_key(x) implies v.by_uuid.contains_key(
            v.by_name[x],
        ) && v.by_uuid[v.by_name[x]] == x by {
            if x != n {
                assert(w.by_uuid.contains_key(w.by_name[x]));
                assert(w.by_name[x] != u);
            }
        }
        assert forall|y: Seq<char>| #[trigger] v.by_uuid.contains_key(y) implies v.by_name.contains_key(
            v.by_uuid[y],
        ) && v.by_name[v.by_uuid[y]] == y by {
            if y != u {
                assert(w.by_name.contains_key(w.by_uuid[y]));
                assert(w.by_uuid[y] != n);
            }
        }
    }
}

/// A login keeps names and UUIDs linked, when the UUID given to a new name is
/// not already taken.
pub proof fn lemma_login_keeps_link(v: UserStoreView, name: Seq<char>, fresh: Seq<char>)
    requires
        names_linked(v),
        !v.by_name.contains_key(name) ==> !v.by_uuid.contains_key(fresh),
    ensures
        names_linked(login_step(v, name, fresh).0),
        login_step(v, name, fresh).0.by_name[name] == login_step(v, name, fresh).1,
        login_step(v, name, fresh).0.by_uuid[login_step(v, name, fresh).1] == name,
{
    let w = login_step(v, name, fresh).0;
    if !v.by_name.contains_key(name) {
        assert forall|n: Seq<char>| #[trigger] w.by_name.contains_key(n) implies w.by_uuid.contains_key(
            w.by_name[n],
        ) && w.by_uuid[w.by_name[n]] == n by {
            if n != name {
                assert(v.by_uuid.contains_key(v.by_name[n]));
                assert(v.by_name[n] != fresh);
            }
        }
        assert forall|u: Seq<char>| #[trigger] w.by_uuid.contains_key(u) implies w.by_name.contains_key(
            w.by_uuid[u],
        ) && w.by_name[w.by_uuid[u]] == u by {
            if u != fresh {
                assert(v.by_name.contains_key(v.by_uuid[u]));
                assert(v.by_uuid[u] != name);
            }
        }
    }
}

/// Whether some known user is named `name`.
pub open spec fn has_user_named(v: UserStoreView, name: Seq<char>) -> bool {
    exists|x: Seq<char>| #[trigger] v.by_uuid.contains_key(x) && v.by_uuid[x] == name
}

/// A listing has a row named `name` exactly when some known user is named
/// `name`.
pub proof fn lemma_listing_names(v: UserStoreView, rows: Seq<(Seq<char>, Seq<char>, bool)>, name: Seq<char>)
    requires
        listing_ok(v, rows),
    ensures
        (exists|j: int| 0 <= j < rows.len() && (#[trigger] rows[j]).1 == name) <==> has_user_named(v, name),
{
    if exists|j: int| 0 <= j < rows.len() && (#[trigger] rows[j]).1 == name {
        let j = choose|j: int| 0 <= j < rows.len() && (#[trigger] rows[j]).1 == name;
        assert(v.by_uuid.contains_key(rows[j].0));
    }
    if has_user_named(v, name) {
        let x = choose|x: Seq<char>| #[trigger] v.by_uuid.contains_key(x) && v.by_uuid[x] == name;
        let j = choose|j: int| 0 <= j < rows.len() && (#[trigger] rows[j]).0 == x;
        assert(rows[j].1 == name);
    }
}

/// A login creates a user exactly when no known user has the name, keeps the
/// UUID of a known name, leaves the user known and online under that name,
/// leaves every other user's name as it was, and a second login with the
/// same name gives the same UUID and creates nobody; names and UUIDs being
/// linked, and the UUID given to a new name not taken.
pub proof fn lemma_login_entry(v: UserStoreView, name: Seq<char>, fresh: Seq<char>, fresh2: Seq<char>)
    requires
        names_linked(v),
        !v.by_name.contains_key(name) ==> !v.by_uuid.contains_key(fresh),
        forall|k: Seq<char>| #[trigger] v.online.contains_key(k) ==> v.online[k] > 0,
    ensures
        ({
            let (w, id, created) = login_step(v, name, fresh);
            &&& created == !has_user_named(v, name)
            &&& !created ==> id == v.by_name[name]
            &&& details_spec(w, id) == Some((name, true))
            &&& forall|x: Seq<char>| x != id ==> (#[trigger] w.by_uuid.contains_key(x)
                == v.by_uuid.contains_key(x) && (v.by_uuid.contains_key(x) ==> w.by_uuid[x] == v.by_uuid[x]))
            &&& login_step(w, name, fresh2).1 == id
            &&& !login_step(w, name, fresh2).2
        }),
{
    let (w, id, created) = login_step(v, name, fresh);
    if v.by_name.contains_key(name) {
        assert(v.by_uuid.contains_key(v.by_name[name]));
        assert(has_user_named(v, name));
    } else {
        if has_user_named(v, name) {
            let x = choose|x: Seq<char>| #[trigger] v.by_uuid.contains_key(x) && v.by_uuid[x] == name;
            assert(v.by_name.contains_key(v.by_uuid[x]));
        }
    }
    lemma_login_keeps_link(v, name, fresh);
}

/// A logout, a subscription and an unsubscription leave names and UUIDs as
/// they were.
pub proof fn lemma_session_ops_keep_users(v: UserStoreView, u: Seq<char>, t: Seq<char>)
    ensures
        logout_spec(v, u).by_name == v.by_name && logout_spec(v, u).by_uuid == v.by_uuid,
        subscribe_spec(v, u, t).by_name == v.by_name && subscribe_spec(v, u, t).by_uuid
            == v.by_uuid,
        unsubscribe_spec(v, u, t).by_name == v.by_name && unsubscribe_spec(v, u, t).by_uuid
            == v.by_uuid,
        names_linked(v) ==> names_linked(logout_spec(v, u)) && names_linked(subscribe_spec(v, u, t))
            && names_linked(unsubscribe_spec(v, u, t)),
{
}

/// Users are never forgotten: a login, a logout, a subscription and an
/// unsubscription keep every known name and UUID.
pub proof fn lemma_users_never_forgotten(v: UserStoreView, name: Seq<char>, fresh: Seq<char>, u: Seq<char>, t: Seq<char>)
    ensures
        users_kept(v, login_step(v, name, fresh).0),
        users_kept(v, logout_spec(v, u)),
        users_kept(v, subscribe_spec(v, u, t)),
        users_kept(v, unsubscribe_spec(v, u, t)),
{
}

/// A subscription keeps the two subscription maps in agreement.
pub proof fn lemma_subscribe_symmetric(v: UserStoreView, u: Seq<char>, t: Seq<char>)
    requires
        subscriptions_symmetric(v),
    ensures
        subscriptions_symmetric(subscribe_spec(v, u, t)),
{
    let w = subscribe_spec(v, u, t);
    assert forall|t2: Seq<char>, u2: Seq<char>| #[trigger] members(w.team_subscribers, t2).contains(u2)
        <==> #[trigger] members(w.user_subscriptions, u2).contains(t2) by {
        assert(members(v.team_subscribers, t2).contains(u2) <==> members(v.user_subscriptions, u2).contains(t2));
    }
}

/// An unsubscription keeps the two subscription maps in agreement.
pub proof fn lemma_unsubscribe_symmetric(v: UserStoreView, u: Seq<char>, t: Seq<char>)
    requires
        subscriptions_symmetric(v),
    ensures
        subscriptions_symmetric(unsubscribe_spec(v, u, t)),
{
    let w = unsubscribe_spec(v, u, t);
    assert forall|t2: Seq<char>, u2: Seq<char>| #[trigger] members(w.team_subscribers, t2).contains(u2)
        <==> #[trigger] members(w.user_subscriptions, u2).contains(t2) by {
        assert(members(v.team_subscribers, t2).contains(u2) <==> members(v.user_subscriptions, u2).contains(t2));
        if v.team_subscribers.contains_key(t) && v.team_subscribers[t].remove(u).is_empty() {
            assert(!v.team_subscribers[t].remove(u).contains(u2));
        }
        if v.user_subscriptions.contains_key(u) && v.user_subscriptions[u].remove(t).is_empty() {
            assert(!v.user_subscriptions[u].remove(t).contains(t2));
        }
    }
}

/// Membership after adding `x` under `k`.
proof fn lemma_members_add(m: Map<Seq<char>, Set<Seq<char>>>, k: Seq<char>, x: Seq<char>, k2: Seq<char>, x2: Seq<char>)
    ensures
        members(add_member(m, k, x), k2).contains(x2) == ((k2 == k && x2 == x) || members(m, k2).contains(x2)),
{
}

/// Membership after removing `x` under `k`.
proof fn lemma_members_remove(m: Map<Seq<char>, Set<Seq<char>>>, k: Seq<char>, x: Seq<char>, k2: Seq<char>, x2: Seq<char>)
    ensures
        members(remove_member(m, k, x), k2).contains(x2) == (!(k2 == k && x2 == x) && members(m, k2).contains(x2)),
{
    if m.contains_key(k) && k2 == k && m[k].remove(x).is_empty() {
        assert(!m[k].remove(x).contains(x2));
    }
}

/// The store after a run of subscriptions (`true`) and unsubscriptions
/// (`false`) of users to teams, in order.
pub open spec fn apply_subscriptions(v: UserStoreView, ops: Seq<(bool, Seq<char>, Seq<char>)>) -> UserStoreView
    decreases ops.len(),
{
    if ops.len() == 0 {
        v
    } else {
        let w = apply_subscriptions(v, ops.drop_last());
        let (sub, u, t) = ops.last();
        if sub {
            subscribe_spec(w, u, t)
        } else {
            unsubscribe_spec(w, u, t)
        }
    }
}

/// The last of the operations on user `u` and team `t`: whether it
/// subscribed; none when there was none.
pub open spec fn last_op(ops: Seq<(bool, Seq<char>, Seq<char>)>, u: Seq<char>, t: Seq<char>) -> Option<bool>
    decreases ops.len(),
{
    if ops.len() == 0 {
        None
    } else if ops.last().1 == u && ops.last().2 == t {
        Some(ops.last().0)
    } else {
        last_op(ops.drop_last(), u, t)
    }
}

/// After a run of subscriptions and unsubscriptions, `u` is among the
/// subscribers of `t`, and `t` among the teams of `u`, exactly when the
/// last operation on them subscribed, or, with none, when it was so before.
pub proof fn lemma_subscription_history(v: UserStoreView, ops: Seq<(bool, Seq<char>, Seq<char>)>, u: Seq<char>, t: Seq<char>)
    ensures
        members(apply_subscriptions(v, ops).team_subscribers, t).contains(u) == match last_op(ops, u, t) {
            Some(b) => b,
            None => members(v.team_subscribers, t).contains(u),
        },
        members(apply_subscriptions(v, ops).user_subscriptions, u).contains(t) == match last_op(ops, u, t) {
            Some(b) => b,
            None => members(v.user_subscriptions, u).contains(t),
        },
    decreases ops.len(),
{
    if ops.len() > 0 {
        lemma_subscription_history(v, ops.drop_last(), u, t);
        let w = apply_subscriptions(v, ops.drop_last());
        let (sub, u2, t2) = ops.last();
        lemma_members_add(w.team_subscribers, t2, u2, t, u);
        lemma_members_add(w.user_subscriptions, u2, t2, u, t);
        lemma_members_remove(w.team_subscribers, t2, u2, t, u);
        lemma_members_remove(w.user_subscriptions, u2, t2, u, t);
    }
}

/// Unsubscribing a user from a team it is not subscribed to changes
/// nothing, on a store whose subscription maps agree and hold no empty set.
pub proof fn lemma_unsubscribe_absent(v: UserStoreView, u: Seq<char>, t: Seq<char>)
    requires
        subscriptions_symmetric(v),
        !members(v.user_subscriptions, u).contains(t),
        forall|k: Seq<char>| #[trigger] v.user_subscriptions.contains_key(k)
            ==> v.user_subscriptions[k] != Set::<Seq<char>>::empty(),
        forall|k: Seq<char>| #[trigger] v.team_subscribers.contains_key(k)
            ==> v.team_subscribers[k] != Set::<Seq<char>>::empty(),
    ensures
        unsubscribe_spec(v, u, t) == v,
{
    assert(!members(v.team_subscribers, t).contains(u));
    let w = unsubscribe_spec(v, u, t);
    if v.user_subscriptions.contains_key(u) {
        assert(v.user_subscriptions[u].remove(t) =~= v.user_subscriptions[u]);
    }
    if v.team_subscribers.contains_key(t) {
        assert(v.team_subscribers[t].remove(u) =~= v.team_subscribers[t]);
    }
    assert(w.user_subscriptions =~= v.user_subscriptions);
    assert(w.team_subscribers =~= v.team_subscribers);
}

/// Subscribing a user to a team it was not subscribed to, then
/// unsubscribing it, gives back every subscription query, on a store whose
/// subscription maps agree and hold no empty set.
pub proof fn lemma_subscribe_unsubscribe_queries(v: UserStoreView, u: Seq<char>, t: Seq<char>)
    requires
        subscriptions_symmetric(v),
        !members(v.user_subscriptions, u).contains(t),
        forall|k: Seq<char>| #[trigger] v.user_subscriptions.contains_key(k)
            ==> v.user_subscriptions[k] != Set::<Seq<char>>::empty(),
        forall|k: Seq<char>| #[trigger] v.team_subscribers.contains_key(k)
            ==> v.team_subscribers[k] != Set::<Seq<char>>::empty(),
    ensures
        forall|x: Seq<char>| #[trigger] members(unsubscribe_spec(subscribe_spec(v, u, t), u, t).user_subscriptions, x)
            == members(v.user_subscriptions, x),
        forall|x: Seq<char>| #[trigger] members(unsubscribe_spec(subscribe_spec(v, u, t), u, t).team_subscribers, x)
            == members(v.team_subscribers, x),
{
    assert(!members(v.team_subscribers, t).contains(u));
    lemma_unsubscribe_undoes_subscribe(v, u, t);
}

/// The listing of every known user, sorted by name then UUID.
pub open spec fn users_listing(v: UserStoreView) -> Seq<(Seq<char>, Seq<char>, bool)> {
    choose|rows: Seq<(Seq<char>, Seq<char>, bool)>| listing_ok(v, rows)
}

/// The UUIDs of the rows whose user is online, in order.
pub open spec fn online_ids(rows: Seq<(Seq<char>, Seq<char>, bool)>) -> Seq<Seq<char>>
    decreases rows.len(),
{
    if rows.len() == 0 {
        Seq::empty()
    } else {
        let prev = online_ids(rows.drop_last());
        if rows.last().2 {
            prev.push(rows.last().0)
        } else {
            prev
        }
    }
}

/// Whether a listed user is online.
pub open spec fn row_online(r: (Seq<char>, Seq<char>, bool)) -> bool {
    r.2
}

/// The UUID of a listed user.
pub open spec fn row_uuid(r: (Seq<char>, Seq<char>, bool)) -> Seq<char> {
    r.0
}

/// The online UUIDs of a listing are the UUIDs of its rows flagged online,
/// in listing order; a UUID is among them exactly when a row of it is
/// flagged online.
pub proof fn lemma_online_ids(rows: Seq<(Seq<char>, Seq<char>, bool)>)
    ensures
        online_ids(rows) == rows.filter(|r: (Seq<char>, Seq<char>, bool)| row_online(r)).map_values(
            |r: (Seq<char>, Seq<char>, bool)| row_uuid(r),
        ),
        forall|x: Seq<char>| #[trigger] online_ids(rows).contains(x) <==> exists|j: int|
            0 <= j < rows.len() && (#[trigger] rows[j]).0 == x && rows[j].2,
    decreases rows.len(),
{
    let pred = |r: (Seq<char>, Seq<char>, bool)| row_online(r);
    let g = |r: (Seq<char>, Seq<char>, bool)| row_uuid(r);
    reveal(Seq::filter);
    if rows.len() == 0 {
        assert(rows.filter(pred).map_values(g) =~= Seq::<Seq<char>>::empty());
    } else {
        let q = rows.drop_last();
        lemma_online_ids(q);
        let f = q.filter(pred);
        assert(rows.filter(pred) == (if pred(rows.last()) { f.push(rows.last()) } else { f }));
        assert(f.push(rows.last()).map_values(g) =~= f.map_values(g).push(rows.last().0));
        if rows.last().2 {
            assert(online_ids(rows) == online_ids(q).push(rows.last().0));
        } else {
            assert(online_ids(rows) == online_ids(q));
        }
        assert forall|x: Seq<char>| #[trigger] online_ids(rows).contains(x) <==> exists|j: int|
            0 <= j < rows.len() && (#[trigger] rows[j]).0 == x && rows[j].2 by {
            let o = online_ids(q);
            if online_ids(rows).contains(x) {
                let k = choose|k: int| 0 <= k < online_ids(rows).len() && online_ids(rows)[k] == x;
                if k < o.len() && (rows.last().2 || true) && online_ids(rows)[k] == o[k] {
                    assert(o.contains(x));
                    let j = choose|j: int| 0 <= j < q.len() && (#[trigger] q[j]).0 == x && q[j].2;
                    assert(rows[j] == q[j]);
                } else {
                    assert(rows[rows.len() - 1].0 == x && rows[rows.len() - 1].2);
                }
            }
            if exists|j: int| 0 <= j < rows.len() && (#[trigger] rows[j]).0 == x && rows[j].2 {
                let j = choose|j: int| 0 <= j < rows.len() && (#[trigger] rows[j]).0 == x && rows[j].2;
                if j < q.len() {
                    assert(q[j] == rows[j]);
                    assert(o.contains(x));
                    let k = choose|k: int| 0 <= k < o.len() && o[k] == x;
                    if rows.last().2 {
                        assert(online_ids(rows)[k] == x);
                    }
                } else {
                    assert(online_ids(rows) == o.push(x));
                    assert(online_ids(rows)[o.len() as int] == x);
                }
            }
        }
    }
}

/// What `user_details` reports of `u`: its name and whether it is online,
/// when it is known.
pub open spec fn details_spec(v: UserStoreView, u: Seq<char>) -> Option<(Seq<char>, bool)> {
    if v.by_uuid.contains_key(u) {
        Some((v.by_uuid[u], online_in(v, u)))
    } else {
        None
    }
}

/// Each row of a listing is the details of its UUID, and every user with
/// details has a row.
pub proof fn lemma_listing_details(v: UserStoreView, rows: Seq<(Seq<char>, Seq<char>, bool)>)
    requires
        listing_ok(v, rows),
    ensures
        forall|i: int| 0 <= i < rows.len() ==> details_spec(v, (#[trigger] rows[i]).0) == Some((rows[i].1, rows[i].2)),
        forall|x: Seq<char>| (#[trigger] details_spec(v, x)) is Some ==> exists|i: int|
            0 <= i < rows.len() && (#[trigger] rows[i]).0 == x,
{
    assert forall|x: Seq<char>| (#[trigger] details_spec(v, x)) is Some implies exists|i: int|
        0 <= i < rows.len() && (#[trigger] rows[i]).0 == x by {
        assert(v.by_uuid.contains_key(x));
    }
}

/// There is one listing: any valid listing is `users_listing`.
pub proof fn lemma_listing_unique(v: UserStoreView, rows: Seq<(Seq<char>, Seq<char>, bool)>)
    requires
        listing_ok(v, rows),
    ensures
        users_listing(v) == rows,
{
    let m = users_listing(v);
    assert(listing_ok(v, m));
    let lt = |x: (Seq<char>, Seq<char>, bool), y: (Seq<char>, Seq<char>, bool)|
        user_entry_lt((x.0, x.1), (y.0, y.1));
    assert forall|x: (Seq<char>, Seq<char>, bool)| m.contains(x) implies rows.contains(x) by {
        let i = choose|i: int| 0 <= i < m.len() && m[i] == x;
        assert(v.by_uuid.contains_key(m[i].0));
        let j = choose|j: int| 0 <= j < rows.len() && (#[trigger] rows[j]).0 == x.0;
        assert(rows[j] == x);
    }
    assert forall|x: (Seq<char>, Seq<char>, bool)| rows.contains(x) implies m.contains(x) by {
        let i = choose|i: int| 0 <= i < rows.len() && rows[i] == x;
        assert(v.by_uuid.contains_key(rows[i].0));
        let j = choose|j: int| 0 <= j < m.len() && (#[trigger] m[j]).0 == x.0;
        assert(m[j] == x);
    }
    assert forall|x: (Seq<char>, Seq<char>, bool)| !(#[trigger] lt(x, x)) by {
        lemma_user_entry_lt((x.0, x.1), (x.0, x.1), (x.0, x.1));
    }
    assert forall|
        x: (Seq<char>, Seq<char>, bool),
        y: (Seq<char>, Seq<char>, bool),
        z: (Seq<char>, Seq<char>, bool),
    | #[trigger] lt(x, y) && #[trigger] lt(y, z) implies lt(x, z) by {
        lemma_user_entry_lt((x.0, x.1), (y.0, y.1), (z.0, z.1));
    }
    assert forall|i: int, j: int| 0 <= i < j < m.len() implies #[trigger] lt(m[i], m[j]) by {
        assert(user_entry_lt((m[i].0, m[i].1), (m[j].0, m[j].1)));
    }
    assert forall|i: int, j: int| 0 <= i < j < rows.len() implies #[trigger] lt(rows[i], rows[j]) by {
        assert(user_entry_lt((rows[i].0, rows[i].1), (rows[j].0, rows[j].1)));
    }
    lemma_sorted_unique(m, rows, lt);
}

impl View for UserStore {
    type V = UserStoreView;

    closed spec fn view(&self) -> UserStoreView {
        UserStoreView {
            by_name: self.by_name@.map_values(|v: String| v@),
            by_uuid: self.by_uuid@.map_values(|v: String| v@),
            online: self.online_sessions@.map_values(|c: usize| c as nat),
            team_subscribers: self.team_subscribers@.map_values(|s: StringSet| s@),
            user_subscriptions: self.user_subscriptions@.map_values(|s: StringSet| s@),
            sequence: self.sequence,
        }
    }
}

/// Every set of a subscription map is well formed and not empty.
pub open spec fn sets_wf(m: Map<Seq<char>, StringSet>) -> bool {
    forall|k: Seq<char>| #[trigger] m.contains_key(k) ==> m[k].wf() && m[k]@ != Set::<
        Seq<char>,
    >::empty()
}

/// Adds `x` to the set under `k` of a subscription map.
fn add_to(m: &mut AssocList<StringSet>, k: &str, x: &str)
    requires
        old(m).wf(),
        sets_wf(old(m)@),
    ensures
        final(m).wf(),
        sets_wf(final(m)@),
        final(m)@.map_values(|s: StringSet| s@) == add_member(
            old(m)@.map_values(|s: StringSet| s@),
            k@,
            x@,
        ),
{
    let ghost before = m@;
    let mut set = match m.remove(k) {
        Some(s) => s,
        None => StringSet::new(),
    };
    set.insert(x.to_owned());
    let ghost sv = set@;
    m.insert(k.to_owned(), set);
    assert(sv.contains(x@));
    assert(m@.map_values(|s: StringSet| s@) =~= add_member(
        before.map_values(|s: StringSet| s@),
        k@,
        x@,
    ));
}

/// Removes `x` from the set under `k` of a subscription map.
fn remove_from(m: &mut AssocList<StringSet>, k: &str, x: &str)
    requires
        old(m).wf(),
        sets_wf(old(m)@),
    ensures
        final(m).wf(),
        sets_wf(final(m)@),
        final(m)@.map_values(|s: StringSet| s@) == remove_member(
            old(m)@.map_values(|s: StringSet| s@),
            k@,
            x@,
        ),
{
    let ghost before = m@;
    match m.remove(k) {
        Some(s) => {
            let mut set = s;
            set.remove(x);
            if set.is_empty() {
                assert(m@.map_values(|s: StringSet| s@) =~= remove_member(
                    before.map_values(|s: StringSet| s@),
                    k@,
                    x@,
                ));
            } else {
                m.insert(k.to_owned(), set);
                assert(m@.map_values(|s: StringSet| s@) =~= remove_member(
                    before.map_values(|s: StringSet| s@),
                    k@,
                    x@,
                ));
            }
        },
        None => {
            assert(m@ =~= before);
            assert(m@.map_values(|s: StringSet| s@) =~= remove_member(
                before.map_values(|s: StringSet| s@),
                k@,
                x@,
            ));
        },
    }
}

/// Inserts a listed user at its place in a sorted listing.
fn insert_user_sorted(v: &mut Vec<(String, String, bool)>, item: (String, String, bool))
    requires
        users_sorted(old(v)@),
        forall|i: int| 0 <= i < old(v)@.len() ==> (#[trigger] old(v)@[i]).0@ != item.0@,
    ensures
        users_sorted(final(v)@),
        final(v)@.len() == old(v)@.len() + 1,
        forall|i: int|
            0 <= i < final(v)@.len() ==> #[trigger] final(v)@[i] == item || old(v)@.contains(
                final(v)@[i],
            ),
        final(v)@.contains(item),
        forall|i: int| 0 <= i < old(v)@.len() ==> final(v)@.contains(#[trigger] old(v)@[i]),
{
    let ghost s = v@;
    let ghost key = (item.0@, item.1@);
    let mut k: usize = 0;
    while k < v.len()
        invariant
            k <= v@.len(),
            v@ == s,
            key == (item.0@, item.1@),
            forall|i: int| 0 <= i < k ==> user_entry_lt(((#[trigger] s[i]).0@, s[i].1@), key),
        ensures
            k <= s.len(),
            forall|i: int| 0 <= i < k ==> user_entry_lt(((#[trigger] s[i]).0@, s[i].1@), key),
            k < s.len() ==> !user_entry_lt((s[k as int].0@, s[k as int].1@), key),
        decreases v@.len() - k,
    {
        let cur = &v[k];
        let name_lt = str_lt(cur.1.as_str(), item.1.as_str());
        let name_eq = crate::text::str_eq(cur.1.as_str(), item.1.as_str());
        let uuid_lt = str_lt(cur.0.as_str(), item.0.as_str());
        let lt = name_lt || (name_eq && uuid_lt);
        assert(lt == user_entry_lt((s[k as int].0@, s[k as int].1@), key));
        if !lt {
            break;
        }
        k = k + 1;
    }
    proof {
        if k < s.len() {
            let e = (s[k as int].0@, s[k as int].1@);
            lemma_user_entry_lt(e, key, key);
            assert(user_entry_lt(key, e));
        }
    }
    v.insert(k, item);
    let ghost t = v@;
    assert(t =~= s.insert(k as int, item));
    assert forall|i: int, j: int| 0 <= i < j < t.len() implies user_entry_lt(
        ((#[trigger] t[i]).0@, t[i].1@),
        ((#[trigger] t[j]).0@, t[j].1@),
    ) by {
        let ei = (t[i].0@, t[i].1@);
        let ej = (t[j].0@, t[j].1@);
        if j < k {
            assert(t[i] == s[i] && t[j] == s[j]);
        } else if j == k {
            assert(t[i] == s[i]);
        } else if i < k {
            assert(t[i] == s[i] && t[j] == s[j - 1]);
            let ek = (s[k as int].0@, s[k as int].1@);
            lemma_user_entry_lt(ei, key, ek);
            if j - 1 > k {
                assert(user_entry_lt(ek, ej));
                lemma_user_entry_lt(ei, ek, ej);
            }
        } else if i == k {
            assert(t[j] == s[j - 1]);
            let ek = (s[k as int].0@, s[k as int].1@);
            if j - 1 > k {
                assert(user_entry_lt(ek, ej));
                lemma_user_entry_lt(key, ek, ej);
            }
        } else {
            assert(t[i] == s[i - 1] && t[j] == s[j - 1]);
        }
    }
    assert forall|i: int| 0 <= i < t.len() implies #[trigger] t[i] == item || s.contains(t[i]) by {
        if i < k {
            assert(t[i] == s[i]);
        } else if i > k {
            assert(t[i] == s[i - 1]);
        }
    }
    assert(t[k as int] == item);
    assert forall|i: int| 0 <= i < s.len() implies t.contains(#[trigger] s[i]) by {
        if i < k {
            assert(t[i] == s[i]);
        } else {
            assert(t[i + 1] == s[i]);
        }
    }
}

impl UserStore {
    /// The store's invariant: maps are well formed, subscription sets are
    /// well formed and not empty, and session counts are positive.
    pub closed spec fn wf(&self) -> bool {
        &&& self.by_name.wf()
        &&& self.by_uuid.wf()
        &&& self.online_sessions.wf()
        &&& self.team_subscribers.wf()
        &&& self.user_subscriptions.wf()
        &&& sets_wf(self.team_subscribers@)
        &&& sets_wf(self.user_subscriptions@)
        &&& forall|u: Seq<char>| #[trigger]
            self.online_sessions@.contains_key(u) ==> self.online_sessions@[u] > 0
        &&& subscriptions_symmetric(self@)
    }

    /// What a well-formed store holds of its content: the two subscription
    /// maps agree, no stored subscription set is empty, and every stored
    /// session count is positive.
    pub proof fn lemma_wf_content(&self)
        requires
            self.wf(),
        ensures
            subscriptions_symmetric(self@),
            forall|k: Seq<char>| #[trigger] self@.user_subscriptions.contains_key(k)
                ==> self@.user_subscriptions[k] != Set::<Seq<char>>::empty(),
            forall|k: Seq<char>| #[trigger] self@.team_subscribers.contains_key(k)
                ==> self@.team_subscribers[k] != Set::<Seq<char>>::empty(),
            forall|u: Seq<char>| #[trigger] self@.online.contains_key(u) ==> self@.online[u] > 0,
    {
        assert forall|k: Seq<char>| #[trigger] self@.user_subscriptions.contains_key(k)
            implies self@.user_subscriptions[k] != Set::<Seq<char>>::empty() by {
            assert(self.user_subscriptions@.contains_key(k));
        }
        assert forall|k: Seq<char>| #[trigger] self@.team_subscribers.contains_key(k)
            implies self@.team_subscribers[k] != Set::<Seq<char>>::empty() by {
            assert(self.team_subscribers@.contains_key(k));
        }
        assert forall|u: Seq<char>| #[trigger] self@.online.contains_key(u) implies self@.online[u] > 0 by {
            assert(self.online_sessions@.contains_key(u));
        }
    }

    /// The two subscription queries agree: `t` is among the teams of `u`
    /// exactly when `u` is among the subscribers of `t`.
    pub proof fn lemma_subscription_queries_agree(&self)
        requires
            self.wf(),
        ensures
            forall|u: Seq<char>, t: Seq<char>|
                #[trigger] members(self@.user_subscriptions, u).contains(t) <==> #[trigger] members(
                    self@.team_subscribers,
                    t,
                ).contains(u),
    {
    }

    /// A store knowing the given `(name, uuid)` pairs, nobody online and no
    /// subscription.
    pub fn from_pairs(pairs: Vec<(String, String)>) -> (r: UserStore)
        ensures
            r.wf(),
            r@.by_name == map_of_pairs(pairs_view(pairs@)),
            r@.by_uuid == map_of_pairs(swap_pairs(pairs_view(pairs@))),
            r@.online == Map::<Seq<char>, nat>::empty(),
            r@.team_subscribers == Map::<Seq<char>, Set<Seq<char>>>::empty(),
            r@.user_subscriptions == Map::<Seq<char>, Set<Seq<char>>>::empty(),
            r@.sequence == 0,
            pairs_distinct(pairs_view(pairs@)) ==> names_linked(r@),
            pairs_distinct(pairs_view(pairs@)) ==> r@.by_uuid.dom().len() == pairs@.len(),
            pairs_distinct(pairs_view(pairs@)) ==> forall|i: int|
                0 <= i < pairs@.len() ==> details_spec(r@, (#[trigger] pairs@[i]).1@) == Some(
                    (pairs@[i].0@, false),
                ),
            forall|x: Seq<char>| members(r@.user_subscriptions, x) == Set::<Seq<char>>::empty()
                && #[trigger] members(r@.team_subscribers, x) == Set::<Seq<char>>::empty(),
    {
        let mut by_name: AssocList<String> = AssocList::new();
        let mut by_uuid: AssocList<String> = AssocList::new();
        let mut i: usize = 0;
        while i < pairs.len()
            invariant
                i <= pairs@.len(),
                by_name.wf(),
                by_uuid.wf(),
                by_name@.map_values(|v: String| v@) == map_of_pairs(
                    pairs_view(pairs@.subrange(0, i as int)),
                ),
                by_uuid@.map_values(|v: String| v@) == map_of_pairs(
                    swap_pairs(pairs_view(pairs@.subrange(0, i as int))),
                ),
            decreases pairs@.len() - i,
        {
            let ghost p0 = pairs_view(pairs@.subrange(0, i as int));
            let ghost p1 = pairs_view(pairs@.subrange(0, i + 1));
            assert(p1.drop_last() =~= p0);
            assert(swap_pairs(p1).drop_last() =~= swap_pairs(p0));
            let name = pairs[i].0.clone();
            let uuid = pairs[i].1.clone();
            let ghost bn = by_name@;
            let ghost bu = by_uuid@;
            by_uuid.insert(uuid.clone(), name.clone());
            by_name.insert(name, uuid);
            i = i + 1;
            assert(by_name@.map_values(|v: String| v@) =~= map_of_pairs(p1));
            assert(by_uuid@.map_values(|v: String| v@) =~= map_of_pairs(swap_pairs(p1)));
        }
        assert(pairs@.subrange(0, i as int) =~= pairs@);
        let r = UserStore {
            by_name,
            by_uuid,
            online_sessions: AssocList::new(),
            team_subscribers: AssocList::new(),
            user_subscriptions: AssocList::new(),
            sequence: 0,
        };
        assert(r@.online =~= Map::<Seq<char>, nat>::empty());
        assert(r@.team_subscribers =~= Map::<Seq<char>, Set<Seq<char>>>::empty());
        assert(r@.user_subscriptions =~= Map::<Seq<char>, Set<Seq<char>>>::empty());
        proof {
            if pairs_distinct(pairs_view(pairs@)) {
                let pv = pairs_view(pairs@);
                lemma_pairs_linked(pv, r@);
                let sp = swap_pairs(pv);
                assert forall|i: int, j: int| 0 <= i < j < sp.len() implies (#[trigger] sp[i]).0 != (
                #[trigger] sp[j]).0 by {
                    assert(sp[i].0 == pv[i].1 && sp[j].0 == pv[j].1);
                }
                lemma_map_of_distinct_pairs(sp);
                assert forall|i: int| 0 <= i < pairs@.len() implies details_spec(r@, (#[trigger] pairs@[i]).1@)
                    == Some((pairs@[i].0@, false)) by {
                    assert(sp[i] == (pairs@[i].1@, pairs@[i].0@));
                }
            }
        }
        r
    }

    /// Counts one more session of `user_uuid`.
    fn bump_online(&mut self, user_uuid: &str)
        requires
            old(self).wf(),
        ensures
            final(self).wf(),
            final(self)@ == (UserStoreView {
                online: bump_spec(old(self)@.online, user_uuid@),
                ..old(self)@
            }),
    {
        let ghost before = self.online_sessions@;
        let count = match self.online_sessions.remove(user_uuid) {
            Some(c) => c,
            None => 0,
        };
        let next = if count < usize::MAX {
            count + 1
        } else {
            count
        };
        self.online_sessions.insert(user_uuid.to_owned(), next);
        assert(self@.online =~= bump_spec(old(self)@.online, user_uuid@));
        assert(self@ =~= (UserStoreView {
            online: bump_spec(old(self)@.online, user_uuid@),
            ..old(self)@
        }));
    }

    /// Whether `user_uuid` has an open session.
    fn is_online(&self, user_uuid: &str) -> (r: bool)
        requires
            self.wf(),
        ensures
            r == online_in(self@, user_uuid@),
    {
        match self.online_sessions.get(user_uuid) {
            Some(c) => *c > 0,
            None => false,
        }
    }

    /// Logs `user_name` in: an existing user keeps its UUID; an unknown name
    /// gets a new UUID-shaped identifier. Returns the UUID and whether the
    /// user was created.
    pub fn login(&mut self, user_name: &str) -> (r: (String, bool))
        requires
            old(self).wf(),
        ensures
            final(self).wf(),
            (final(self)@, r.0@, r.1) == login_step(old(self)@, user_name@, r.0@),
            old(self)@.by_name.contains_key(user_name@) ==> {
                &&& r.0@ == old(self)@.by_name[user_name@]
                &&& !r.1
                &&& final(self)@ == (UserStoreView {
                    online: bump_spec(old(self)@.online, r.0@),
                    ..old(self)@
                })
            },
            !old(self)@.by_name.contains_key(user_name@) ==> {
                &&& r.1
                &&& exists|nanos: u128|
                    r.0@ == #[trigger] uuid_for(user_name@, nanos, old(self)@.sequence.wrapping_add(1))
                &&& final(self)@ == (UserStoreView {
                    by_name: old(self)@.by_name.insert(user_name@, r.0@),
                    by_uuid: old(self)@.by_uuid.insert(r.0@, user_name@),
                    online: bump_spec(old(self)@.online, r.0@),
                    sequence: old(self)@.sequence.wrapping_add(1),
                    ..old(self)@
                })
            },
    {
        match self.by_name.get(user_name) {
            Some(existing) => {
                let existing_uuid = existing.clone();
                self.bump_online(existing_uuid.as_str());
                return (existing_uuid, false);
            },
            None => {},
        }
        self.sequence = self.sequence.wrapping_add(1);
        let uuid = make_uuid_v4_like(user_name, self.sequence);
        self.by_name.insert(user_name.to_owned(), uuid.clone());
        self.by_uuid.insert(uuid.clone(), user_name.to_owned());
        assert(self@.team_subscribers == old(self)@.team_subscribers);
        assert(self@.user_subscriptions == old(self)@.user_subscriptions);
        self.bump_online(uuid.as_str());
        assert(self@.by_name =~= old(self)@.by_name.insert(user_name@, uuid@));
        assert(self@.by_uuid =~= old(self)@.by_uuid.insert(uuid@, user_name@));
        (uuid, true)
    }

    /// Whether `user_uuid` is a known user.
    pub fn exists_uuid(&self, user_uuid: &str) -> (r: bool)
        requires
            self.wf(),
        ensures
            r == self@.by_uuid.contains_key(user_uuid@),
    {
        self.by_uuid.contains_key(user_uuid)
    }

    /// Ends one session of `user_uuid`.
    pub fn logout(&mut self, user_uuid: &str)
        requires
            old(self).wf(),
        ensures
            final(self).wf(),
            final(self)@ == (UserStoreView {
                online: drop_session_spec(old(self)@.online, user_uuid@),
                ..old(self)@
            }),
    {
        match self.online_sessions.remove(user_uuid) {
            Some(count) => {
                if count > 1 {
                    self.online_sessions.insert(user_uuid.to_owned(), count - 1);
                }
            },
            None => {},
        }
        assert(self@.online =~= drop_session_spec(old(self)@.online, user_uuid@));
        assert(self@ =~= (UserStoreView {
            online: drop_session_spec(old(self)@.online, user_uuid@),
            ..old(self)@
        }));
    }

    /// Every known user as `(uuid, name, online)`, sorted by name then UUID.
    pub fn list_users(&self) -> (r: Vec<(String, String, bool)>)
        requires
            self.wf(),
        ensures
            listing_ok(self@, rows_view(r@)),
            rows_view(r@) == users_listing(self@),
            users_sorted(r@),
            r@.len() == self@.by_uuid.dom().len(),
            forall|i: int|
                0 <= i < r@.len() ==> {
                    &&& self@.by_uuid.contains_key((#[trigger] r@[i]).0@)
                    &&& r@[i].1@ == self@.by_uuid[r@[i].0@]
                    &&& r@[i].2 == online_in(self@, r@[i].0@)
                },
            forall|u: Seq<char>| #[trigger]
                self@.by_uuid.contains_key(u) ==> exists|i: int|
                    0 <= i < r@.len() && (#[trigger] r@[i]).0@ == u,
    {
        let keys = self.by_uuid.keys();
        let mut out: Vec<(String, String, bool)> = Vec::new();
        let mut i: usize = 0;
        while i < keys.len()
            invariant
                self.wf(),
                keys.deep_view().no_duplicates(),
                keys.deep_view().to_set() == self@.by_uuid.dom(),
                i <= keys@.len(),
                users_sorted(out@),
                out@.len() == i,
                forall|j: int|
                    0 <= j < out@.len() ==> {
                        &&& self@.by_uuid.contains_key((#[trigger] out@[j]).0@)
                        &&& out@[j].1@ == self@.by_uuid[out@[j].0@]
                        &&& out@[j].2 == online_in(self@, out@[j].0@)
                        &&& exists|m: int| 0 <= m < i && keys.deep_view()[m] == out@[j].0@
                    },
                forall|m: int| #![trigger keys.deep_view()[m]]
                    0 <= m < i ==> exists|j: int|
                        0 <= j < out@.len() && (#[trigger] out@[j]).0@ == keys.deep_view()[m],
            decreases keys@.len() - i,
        {
            let uuid = keys[i].clone();
            assert(keys.deep_view().to_set().contains(keys.deep_view()[i as int]));
            let name = match self.by_uuid.get(uuid.as_str()) {
                Some(n) => n.clone(),
                None => {
                    assert(false);
                    String::new()
                },
            };
            let online = self.is_online(uuid.as_str());
            let ghost before = out@;
            assert forall|j: int| 0 <= j < before.len() implies (#[trigger] before[j]).0@
                != uuid@ by {
                let m = choose|m: int| 0 <= m < i && keys.deep_view()[m] == before[j].0@;
                assert(keys.deep_view()[m] != keys.deep_view()[i as int]);
            }
            let item = (uuid, name, online);
            insert_user_sorted(&mut out, item);
            i = i + 1;
            assert forall|j: int| 0 <= j < out@.len() implies {
                &&& self@.by_uuid.contains_key((#[trigger] out@[j]).0@)
                &&& out@[j].1@ == self@.by_uuid[out@[j].0@]
                &&& out@[j].2 == online_in(self@, out@[j].0@)
                &&& exists|m: int| 0 <= m < i && keys.deep_view()[m] == out@[j].0@
            } by {
                if out@[j] == item {
                    assert(keys.deep_view()[i - 1] == out@[j].0@);
                } else {
                    let j2 = choose|j2: int| 0 <= j2 < before.len() && before[j2] == out@[j];
                    assert(before[j2] == out@[j]);
                }
            }
            assert forall|m: int| #![trigger keys.deep_view()[m]] 0 <= m < i implies exists|j: int|
                0 <= j < out@.len() && (#[trigger] out@[j]).0@ == keys.deep_view()[m] by {
                if m == i - 1 {
                    let j = choose|j: int| 0 <= j < out@.len() && out@[j] == item;
                    assert(out@[j].0@ == keys.deep_view()[m]);
                } else {
                    let j0 = choose|j0: int|
                        0 <= j0 < before.len() && (#[trigger] before[j0]).0@ == keys.deep_view()[m];
                    assert(out@.contains(before[j0]));
                    let j = choose|j: int| 0 <= j < out@.len() && out@[j] == before[j0];
                    assert(out@[j].0@ == keys.deep_view()[m]);
                }
            }
        }
        assert forall|u: Seq<char>| #[trigger]
            self@.by_uuid.contains_key(u) implies exists|j: int|
            0 <= j < out@.len() && (#[trigger] out@[j]).0@ == u by {
            assert(keys.deep_view().to_set().contains(u));
            let m = choose|m: int| 0 <= m < keys@.len() && keys.deep_view()[m] == u;
            assert(exists|j: int|
                0 <= j < out@.len() && (#[trigger] out@[j]).0@ == keys.deep_view()[m]);
        }
        proof {
            keys.deep_view().unique_seq_to_set();
            assert(self@.by_uuid.dom() =~= self.by_uuid@.dom());
            let rv = rows_view(out@);
            assert forall|u: Seq<char>| #[trigger]
                self@.by_uuid.contains_key(u) implies exists|i: int|
                0 <= i < rv.len() && (#[trigger] rv[i]).0 == u by {
                let j = choose|j: int| 0 <= j < out@.len() && (#[trigger] out@[j]).0@ == u;
                assert(rv[j].0 == u);
            }
            assert(listing_ok(self@, rv));
            lemma_listing_unique(self@, rv);
        }
        out
    }

    /// The UUIDs of the users online, in the order of the user listing.
    pub fn online_user_ids(&self) -> (r: Vec<String>)
        requires
            self.wf(),
        ensures
            r.deep_view() == online_ids(users_listing(self@)),
    {
        let rows = self.list_users();
        let ghost rv = rows_view(rows@);
        proof {
            lemma_listing_unique(self@, rv);
        }
        let mut out: Vec<String> = Vec::new();
        let mut i: usize = 0;
        assert(rv.take(0) =~= Seq::<(Seq<char>, Seq<char>, bool)>::empty());
        while i < rows.len()
            invariant
                i <= rows@.len(),
                rv == rows_view(rows@),
                rv.len() == rows@.len(),
                out.deep_view() == online_ids(rv.take(i as int)),
            decreases rows@.len() - i,
        {
            let ghost before = out.deep_view();
            proof {
                assert(rv.take(i + 1).drop_last() =~= rv.take(i as int));
                assert(rv.take(i + 1).last() == rv[i as int]);
                assert(rv[i as int] == (rows@[i as int].0@, rows@[i as int].1@, rows@[i as int].2));
            }
            if rows[i].2 {
                let id = rows[i].0.clone();
                out.push(id);
                assert(out.deep_view() =~= before.push(rows@[i as int].0@));
            }
            i = i + 1;
        }
        assert(rv.take(rows@.len() as int) =~= rv);
        out
    }

    /// The name and online state of user `user_uuid`, if known.
    pub fn user_details(&self, user_uuid: &str) -> (r: Option<(String, bool)>)
        requires
            self.wf(),
        ensures
            r is Some == self@.by_uuid.contains_key(user_uuid@),
            r matches Some(d) ==> d.0@ == self@.by_uuid[user_uuid@] && d.1 == online_in(
                self@,
                user_uuid@,
            ),
            match r {
                Some(d) => details_spec(self@, user_uuid@) == Some((d.0@, d.1)),
                None => details_spec(self@, user_uuid@) is None,
            },
    {
        match self.by_uuid.get(user_uuid) {
            Some(name) => Some((name.clone(), self.is_online(user_uuid))),
            None => None,
        }
    }

    /// Subscribes `user_uuid` to `team_uuid`.
    pub fn subscribe_to_team(&mut self, user_uuid: &str, team_uuid: &str)
        requires
            old(self).wf(),
        ensures
            final(self).wf(),
            final(self)@ == (UserStoreView {
                team_subscribers: add_member(old(self)@.team_subscribers, team_uuid@, user_uuid@),
                user_subscriptions: add_member(
                    old(self)@.user_subscriptions,
                    user_uuid@,
                    team_uuid@,
                ),
                ..old(self)@
            }),
    {
        proof {
            lemma_subscribe_symmetric(self@, user_uuid@, team_uuid@);
        }
        add_to(&mut self.team_subscribers, team_uuid, user_uuid);
        add_to(&mut self.user_subscriptions, user_uuid, team_uuid);
    }

    /// Unsubscribes `user_uuid` from `team_uuid`.
    pub fn unsubscribe_from_team(&mut self, user_uuid: &str, team_uuid: &str)
        requires
            old(self).wf(),
        ensures
            final(self).wf(),
            final(self)@ == (UserStoreView {
                team_subscribers: remove_member(
                    old(self)@.team_subscribers,
                    team_uuid@,
                    user_uuid@,
                ),
                user_subscriptions: remove_member(
                    old(self)@.user_subscriptions,
                    user_uuid@,
                    team_uuid@,
                ),
                ..old(self)@
            }),
    {
        proof {
            lemma_unsubscribe_symmetric(self@, user_uuid@, team_uuid@);
        }
        remove_from(&mut self.team_subscribers, team_uuid, user_uuid);
        remove_from(&mut self.user_subscriptions, user_uuid, team_uuid);
    }

    /// The teams `user_uuid` subscribed to, sorted.
    pub fn subscribed_team_ids(&self, user_uuid: &str) -> (r: Vec<String>)
        requires
            self.wf(),
        ensures
            sorted(r.deep_view()),
            r.deep_view().to_set() == members(self@.user_subscriptions, user_uuid@),
    {
        match self.user_subscriptions.get(user_uuid) {
            Some(s) => s.to_sorted_vec(),
            None => {
                let v: Vec<String> = Vec::new();
                assert(v.deep_view().to_set() =~= Set::<Seq<char>>::empty());
                v
            },
        }
    }

    /// The users subscribed to `team_uuid`, sorted.
    pub fn subscribed_user_ids(&self, team_uuid: &str) -> (r: Vec<String>)
        requires
            self.wf(),
        ensures
            sorted(r.deep_view()),
            r.deep_view().to_set() == members(self@.team_subscribers, team_uuid@),
    {
        match self.team_subscribers.get(team_uuid) {
            Some(s) => s.to_sorted_vec(),
            None => {
                let v: Vec<String> = Vec::new();
                assert(v.deep_view().to_set() =~= Set::<Seq<char>>::empty());
                v
            },
        }
    }
}

impl Default for UserStore {
    /// An empty store.
    fn default() -> (r: UserStore)
        ensures
            r.wf(),
            r@.by_name == Map::<Seq<char>, Seq<char>>::empty(),
            r@.by_uuid == Map::<Seq<char>, Seq<char>>::empty(),
            r@.online == Map::<Seq<char>, nat>::empty(),
            r@.team_subscribers == Map::<Seq<char>, Set<Seq<char>>>::empty(),
            r@.user_subscriptions == Map::<Seq<char>, Set<Seq<char>>>::empty(),
            r@.sequence == 0,
    {
        let r = UserStore {
            by_name: AssocList::new(),
            by_uuid: AssocList::new(),
            online_sessions: AssocList::new(),
            team_subscribers: AssocList::new(),
            user_subscriptions: AssocList::new(),
            sequence: 0,
        };
        assert(r@.by_name =~= Map::<Seq<char>, Seq<char>>::empty());
        assert(r@.by_uuid =~= Map::<Seq<char>, Seq<char>>::empty());
        assert(r@.online =~= Map::<Seq<char>, nat>::empty());
        assert(r@.team_subscribers =~= Map::<Seq<char>, Set<Seq<char>>>::empty());
        assert(r@.user_subscriptions =~= Map::<Seq<char>, Set<Seq<char>>>::empty());
        r
    }
}

} // verus!
