//! Health checks of the registered servers: which of them are checked, what becomes of those that
//! are not well, and what is reported of the others.
use vstd::prelude::*;

use crate::error::ServerError;
use crate::server::{
    id_names, id_readable, ServerGroup, ServerKind, ServerView, ServiceKind,
};
use crate::state::{
    all_sound, drop_all, drop_server, group_kinds, knows, law_registered_is_known,
    law_unregistered_is_gone, lemma_filter_all, lemma_filter_twice, lemma_turns_kept_twice, listed,
    named_in, not_found, turns_kept, AppState, Registered,
};
use crate::text::{equal, text_of, texts};

verus! {

/// The servers of the groups, one group after another.
pub open spec fn all_servers(groups: Seq<Seq<ServerView>>) -> Seq<ServerView>
    decreases groups.len(),
{
    if groups.len() == 0 {
        seq![]
    } else {
        all_servers(groups.drop_last()) + groups.last()
    }
}

/// A server that is to be checked.
#[derive(Debug)]
pub struct HealthTarget {
    pub id: String,
    pub url: String,
    pub kind: ServerKind,
}

/// A server that is to be checked with its texts.
pub struct TargetView {
    pub id: Seq<char>,
    pub url: Seq<char>,
    pub kind: ServerKind,
}

impl View for HealthTarget {
    type V = TargetView;

    open spec fn view(&self) -> TargetView {
        TargetView { id: self.id@, url: self.url@, kind: self.kind }
    }
}

/// The targets with their texts.
pub open spec fn target_views(targets: Seq<HealthTarget>) -> Seq<TargetView> {
    targets.map_values(|t: HealthTarget| t@)
}

/// What matters of a server to its check.
pub open spec fn target_of(server: ServerView) -> TargetView {
    TargetView { id: server.id, url: server.url, kind: server.kind }
}

/// What matters of the servers to their checks.
pub open spec fn targets_of(servers: Seq<ServerView>) -> Seq<TargetView> {
    servers.map_values(|s: ServerView| target_of(s))
}

/// Two different servers with the same url and a service in common.
pub open spec fn twins(a: TargetView, b: TargetView) -> bool {
    a.id != b.id && a.url == b.url && a.kind.overlaps(b.kind)
}

/// One of the servers is a twin of `server`.
pub open spec fn has_twin(servers: Seq<TargetView>, server: TargetView) -> bool {
    exists|j: int| 0 <= j < servers.len() && twins(#[trigger] servers[j], server)
}

/// Twins stand at the url.
pub open spec fn crowded(servers: Seq<TargetView>, url: Seq<char>) -> bool {
    exists|j: int|
        0 <= j < servers.len() && (#[trigger] servers[j]).url == url && has_twin(
            servers,
            servers[j],
        )
}

/// No server before `i` has that id.
pub open spec fn new_id(servers: Seq<TargetView>, i: int) -> bool {
    forall|j: int| 0 <= j < i ==> (#[trigger] servers[j]).id != servers[i].id
}

/// No server before `i` has that url.
pub open spec fn new_url(servers: Seq<TargetView>, i: int) -> bool {
    forall|j: int| 0 <= j < i ==> (#[trigger] servers[j]).url != servers[i].url
}

/// The server at `i` is checked. A server that offers several services is checked where it occurs
/// first. Several servers of one service are all checked. Servers of different services at one url
/// need one check between them.
pub open spec fn is_checked(servers: Seq<TargetView>, i: int) -> bool {
    &&& new_id(servers, i)
    &&& has_twin(servers, servers[i]) || new_url(servers, i) && !crowded(servers, servers[i].url)
}

/// Those among the first `n` servers that are checked.
pub open spec fn checked_up_to(servers: Seq<TargetView>, n: int) -> Seq<TargetView>
    decreases n,
{
    if n <= 0 {
        seq![]
    } else if is_checked(servers, n - 1) {
        checked_up_to(servers, n - 1).push(servers[n - 1])
    } else {
        checked_up_to(servers, n - 1)
    }
}

/// The servers that are checked.
pub open spec fn to_check(servers: Seq<TargetView>) -> Seq<TargetView> {
    checked_up_to(servers, servers.len() as int)
}

/// An id stands for one server.
pub open spec fn ids_are_settled(servers: Seq<TargetView>) -> bool {
    forall|a: int, b: int|
        0 <= a < servers.len() && 0 <= b < servers.len() && (#[trigger] servers[a]).id == (
        #[trigger] servers[b]).id ==> servers[a] == servers[b]
}

/// The target is one of the first `n` servers, at a place that is checked.
spec fn checked_among(servers: Seq<TargetView>, n: int, target: TargetView) -> bool {
    exists|i: int| 0 <= i < n && is_checked(servers, i) && #[trigger] servers[i] == target
}

/// What is checked is one of the servers that are to be, and the other way round.
proof fn lemma_checked(servers: Seq<TargetView>, n: int)
    requires
        0 <= n <= servers.len(),
    ensures
        forall|k: int|
            0 <= k < checked_up_to(servers, n).len() ==> checked_among(
                servers,
                n,
                #[trigger] checked_up_to(servers, n)[k],
            ),
        forall|i: int|
            0 <= i < n && is_checked(servers, i) ==> checked_up_to(servers, n).contains(
                #[trigger] servers[i],
            ),
    decreases n,
{
    if n > 0 {
        lemma_checked(servers, n - 1);
        let before = checked_up_to(servers, n - 1);
        let after = checked_up_to(servers, n);
        assert forall|k: int| 0 <= k < after.len() implies checked_among(
            servers,
            n,
            #[trigger] after[k],
        ) by {
            if k < before.len() {
                assert(after[k] == before[k]);
                assert(checked_among(servers, n - 1, before[k]));
                let i = choose|i: int|
                    0 <= i < n - 1 && is_checked(servers, i) && #[trigger] servers[i] == before[k];
                assert(servers[i] == after[k]);
            } else {
                assert(servers[n - 1] == after[k]);
            }
        }
        assert forall|i: int| 0 <= i < n && is_checked(servers, i) implies after.contains(
            #[trigger] servers[i],
        ) by {
            if i < n - 1 {
                let k = before.index_of(servers[i]);
                assert(after[k] == servers[i]);
            } else {
                assert(after[before.len() as int] == servers[i]);
            }
        }
    }
}

/// Among the first `n` servers none is checked twice.
proof fn lemma_none_is_checked_twice(servers: Seq<TargetView>, n: int)
    requires
        0 <= n <= servers.len(),
    ensures
        forall|j: int, k: int|
            0 <= j < k < checked_up_to(servers, n).len() ==> {
                let a = #[trigger] checked_up_to(servers, n)[j];
                let b = #[trigger] checked_up_to(servers, n)[k];
                a.id != b.id && (a.url == b.url ==> has_twin(servers, a) && has_twin(servers, b))
            },
    decreases n,
{
    if n > 0 {
        lemma_none_is_checked_twice(servers, n - 1);
        lemma_checked(servers, n - 1);
        let before = checked_up_to(servers, n - 1);
        let after = checked_up_to(servers, n);
        assert forall|j: int, k: int| 0 <= j < k < after.len() implies ({
            let a = #[trigger] after[j];
            let b = #[trigger] after[k];
            a.id != b.id && (a.url == b.url ==> has_twin(servers, a) && has_twin(servers, b))
        }) by {
            assert(after[j] == before[j]);
            if k < before.len() {
                assert(after[k] == before[k]);
            } else {
                assert(checked_among(servers, n - 1, before[j]));
                let i = choose|i: int|
                    0 <= i < n - 1 && is_checked(servers, i) && #[trigger] servers[i] == before[j];
                assert(servers[i].id != servers[n - 1].id);
                if has_twin(servers, servers[n - 1]) {
                    assert(crowded(servers, servers[n - 1].url));
                }
            }
        }
    }
}

/// No server is checked twice, and two that are checked at one url are there because twins are:
/// each of them has a twin.
pub proof fn law_none_is_checked_twice(servers: Seq<TargetView>, j: int, k: int)
    requires
        0 <= j < k < to_check(servers).len(),
    ensures
        to_check(servers)[j].id != to_check(servers)[k].id,
        to_check(servers)[j].url == to_check(servers)[k].url ==> has_twin(
            servers,
            to_check(servers)[j],
        ) && has_twin(servers, to_check(servers)[k]),
{
    lemma_none_is_checked_twice(servers, servers.len() as int);
}

/// The server of that id where it occurs first.
proof fn lemma_first_of_id(servers: Seq<TargetView>, i: int) -> (f: int)
    requires
        0 <= i < servers.len(),
    ensures
        0 <= f <= i,
        servers[f].id == servers[i].id,
        new_id(servers, f),
    decreases i,
{
    if new_id(servers, i) {
        i
    } else {
        let j = choose|j: int| 0 <= j < i && (#[trigger] servers[j]).id == servers[i].id;
        lemma_first_of_id(servers, j)
    }
}

/// The server at that url that occurs first.
proof fn lemma_first_at_url(servers: Seq<TargetView>, i: int) -> (f: int)
    requires
        0 <= i < servers.len(),
    ensures
        0 <= f <= i,
        servers[f].url == servers[i].url,
        new_url(servers, f),
    decreases i,
{
    if new_url(servers, i) {
        i
    } else {
        let j = choose|j: int| 0 <= j < i && (#[trigger] servers[j]).url == servers[i].url;
        lemma_first_at_url(servers, j)
    }
}

/// Of several servers of one service at one url, each is checked.
pub proof fn law_twins_are_all_checked(servers: Seq<TargetView>, i: int)
    requires
        ids_are_settled(servers),
        0 <= i < servers.len(),
        has_twin(servers, servers[i]),
    ensures
        to_check(servers).contains(servers[i]),
{
    let f = lemma_first_of_id(servers, i);
    assert(servers[f] == servers[i]);
    assert(is_checked(servers, f));
    lemma_checked(servers, servers.len() as int);
}

/// Each server is checked, or another is that has the same url and no service in common with it.
pub proof fn law_each_is_checked(servers: Seq<TargetView>, i: int)
    requires
        ids_are_settled(servers),
        0 <= i < servers.len(),
    ensures
        to_check(servers).contains(servers[i]) || exists|k: int|
            0 <= k < to_check(servers).len() && (#[trigger] to_check(servers)[k]).url
                == servers[i].url && !to_check(servers)[k].kind.overlaps(servers[i].kind),
{
    let chosen = to_check(servers);
    let server = servers[i];
    lemma_checked(servers, servers.len() as int);
    if has_twin(servers, server) {
        law_twins_are_all_checked(servers, i);
    } else if crowded(servers, server.url) {
        let j = choose|j: int|
            0 <= j < servers.len() && (#[trigger] servers[j]).url == server.url && has_twin(
                servers,
                servers[j],
            );
        law_twins_are_all_checked(servers, j);
        assert(servers[j].id != server.id);
        assert(!twins(servers[j], server));
        let k = chosen.index_of(servers[j]);
        assert(chosen[k] == servers[j]);
    } else {
        let f = lemma_first_at_url(servers, i);
        assert(new_id(servers, f)) by {
            assert forall|j: int| 0 <= j < f implies (#[trigger] servers[j]).id != servers[f].id by {
                if servers[j].id == servers[f].id {
                    assert(servers[j].url != servers[f].url);
                }
            }
        }
        assert(is_checked(servers, f));
        assert(chosen.contains(servers[f]));
        let k = chosen.index_of(servers[f]);
        assert(chosen[k] == servers[f]);
        if servers[f].id == server.id {
            assert(servers[f] == server);
        } else {
            assert(!twins(servers[f], server));
        }
    }
}

/// Each url is checked exactly once, where the servers of one service have different urls.
pub proof fn law_each_url_is_checked_once(servers: Seq<TargetView>, i: int)
    requires
        ids_are_settled(servers),
        forall|a: int, b: int|
            0 <= a < servers.len() && 0 <= b < servers.len() ==> !twins(
                #[trigger] servers[a],
                #[trigger] servers[b],
            ),
        0 <= i < servers.len(),
    ensures
        exists|k: int|
            0 <= k < to_check(servers).len() && (#[trigger] to_check(servers)[k]).url
                == servers[i].url,
        forall|j: int, k: int|
            0 <= j < k < to_check(servers).len() ==> (#[trigger] to_check(servers)[j]).url != (
            #[trigger] to_check(servers)[k]).url,
{
    let n = servers.len() as int;
    let chosen = to_check(servers);
    law_each_is_checked(servers, i);
    if chosen.contains(servers[i]) {
        let k = chosen.index_of(servers[i]);
        assert(chosen[k].url == servers[i].url);
    }
    lemma_checked(servers, n);
    lemma_none_is_checked_twice(servers, n);
    assert forall|j: int, k: int| 0 <= j < k < chosen.len() implies (#[trigger] chosen[j]).url != (
    #[trigger] chosen[k]).url by {
        assert(checked_among(servers, n, chosen[j]));
        let a = choose|a: int|
            0 <= a < n && is_checked(servers, a) && #[trigger] servers[a] == chosen[j];
        assert(!has_twin(servers, servers[a]));
    }
}

/// The ids of the targets.
pub open spec fn target_ids(targets: Seq<HealthTarget>) -> Seq<Seq<char>> {
    targets.map_values(|t: HealthTarget| t.id@)
}

/// Those of `ids` whose outcome is bad, in their order.
pub open spec fn unwell(ids: Seq<Seq<char>>, healthy: Seq<bool>) -> Seq<Seq<char>>
    decreases ids.len(),
{
    if ids.len() == 0 {
        seq![]
    } else {
        let rest = unwell(ids.drop_last(), healthy.drop_last());
        if healthy.last() {
            rest
        } else {
            rest.push(ids.last())
        }
    }
}

/// The ids of the targets that turned out not to be well, in their order; `healthy` has the outcome
/// for each target.
pub fn unhealthy_ids(targets: &Vec<HealthTarget>, healthy: &Vec<bool>) -> (r: Vec<String>)
    requires
        targets@.len() == healthy@.len(),
    ensures
        texts(r@) == unwell(target_ids(targets@), healthy@),
{
    let mut out: Vec<String> = Vec::new();
    let ghost ids = target_ids(targets@);
    let mut i: usize = 0;
    assert(texts(out@) =~= unwell(ids.take(0), healthy@.take(0)));
    while i < targets.len()
        invariant
            i <= targets@.len(),
            targets@.len() == healthy@.len(),
            ids == target_ids(targets@),
            texts(out@) == unwell(ids.take(i as int), healthy@.take(i as int)),
        decreases targets@.len() - i,
    {
        let ghost before = out@;
        assert(ids.take(i + 1).drop_last() =~= ids.take(i as int));
        assert(healthy@.take(i + 1).drop_last() =~= healthy@.take(i as int));
        if !healthy[i] {
            out.push(targets[i].id.clone());
            assert(texts(out@) =~= texts(before).push(ids[i as int]));
        }
        i += 1;
    }
    assert(ids.take(i as int) =~= ids);
    assert(healthy@.take(i as int) =~= healthy@);
    out
}

/// An id is among those that are not well exactly where an outcome of it is bad.
pub proof fn law_unwell_are_those_with_bad_outcomes(
    ids: Seq<Seq<char>>,
    healthy: Seq<bool>,
    id: Seq<char>,
)
    requires
        ids.len() == healthy.len(),
    ensures
        unwell(ids, healthy).contains(id) <==> exists|i: int|
            0 <= i < ids.len() && #[trigger] ids[i] == id && !healthy[i],
    decreases ids.len(),
{
    if ids.len() > 0 {
        let n = ids.len() - 1;
        let fewer = ids.drop_last();
        let outcomes = healthy.drop_last();
        let rest = unwell(fewer, outcomes);
        let all = unwell(ids, healthy);
        law_unwell_are_those_with_bad_outcomes(fewer, outcomes, id);
        if all.contains(id) {
            let k = all.index_of(id);
            if k < rest.len() {
                assert(rest[k] == id);
                let i = choose|i: int|
                    0 <= i < fewer.len() && #[trigger] fewer[i] == id && !outcomes[i];
                assert(ids[i] == id && !healthy[i]);
            } else {
                assert(ids[n] == id && !healthy[n]);
            }
        }
        if exists|i: int| 0 <= i < ids.len() && #[trigger] ids[i] == id && !healthy[i] {
            let i = choose|i: int| 0 <= i < ids.len() && #[trigger] ids[i] == id && !healthy[i];
            if i < n {
                assert(fewer[i] == id && !outcomes[i]);
                let k = rest.index_of(id);
                assert(all[k] == id);
            } else {
                assert(all[rest.len() as int] == id);
            }
        }
    }
}

/// Seconds between two health checks, by the setting of the command line.
pub fn check_interval(set: Option<u64>) -> (r: u64)
    ensures
        r == match set {
            Some(seconds) => seconds,
            None => 60,
        },
{
    match set {
        Some(seconds) => seconds,
        None => 60,
    }
}

/// What is reported after a health check: where to, and the servers that are left behind each
/// service.
#[derive(Debug)]
pub struct HealthReport {
    pub push_url: String,
    /// Whether retrieval is switched on.
    pub rag: bool,
    pub servers: Vec<(ServiceKind, Vec<String>)>,
}

/// The contents of the groups, in order.
pub open spec fn group_views(state: &AppState) -> Seq<Seq<ServerView>> {
    state.server_group@.map_values(|g: ServerGroup| g@)
}

/// Whether one of the servers is a twin of that at `i`.
fn finds_twin(servers: &Vec<HealthTarget>, i: usize) -> (r: bool)
    requires
        i < servers@.len(),
    ensures
        r == has_twin(target_views(servers@), servers@[i as int]@),
{
    let ghost all = target_views(servers@);
    let mut j: usize = 0;
    while j < servers.len()
        invariant
            i < servers@.len(),
            j <= servers@.len(),
            all == target_views(servers@),
            forall|k: int| 0 <= k < j ==> !twins(#[trigger] all[k], servers@[i as int]@),
        decreases servers@.len() - j,
    {
        assert(all[j as int] == servers@[j as int]@);
        if !equal(servers[j].id.as_str(), servers[i].id.as_str()) && equal(
            servers[j].url.as_str(),
            servers[i].url.as_str(),
        ) && servers[j].kind.overlaps_with(&servers[i].kind) {
            assert(twins(all[j as int], servers@[i as int]@));
            return true;
        }
        j += 1;
    }
    false
}

/// Whether twins stand at the url of the server at `i`.
fn finds_crowd(servers: &Vec<HealthTarget>, i: usize) -> (r: bool)
    requires
        i < servers@.len(),
    ensures
        r == crowded(target_views(servers@), servers@[i as int]@.url),
{
    let ghost all = target_views(servers@);
    let ghost url = servers@[i as int]@.url;
    let mut j: usize = 0;
    while j < servers.len()
        invariant
            i < servers@.len(),
            j <= servers@.len(),
            all == target_views(servers@),
            url == servers@[i as int]@.url,
            forall|k: int|
                0 <= k < j ==> !((#[trigger] all[k]).url == url && has_twin(all, all[k])),
        decreases servers@.len() - j,
    {
        assert(all[j as int] == servers@[j as int]@);
        if equal(servers[j].url.as_str(), servers[i].url.as_str()) && finds_twin(servers, j) {
            assert(all[j as int].url == url && has_twin(all, all[j as int]));
            return true;
        }
        j += 1;
    }
    false
}

/// Whether the server at `i` is checked.
fn needs_check(servers: &Vec<HealthTarget>, i: usize) -> (r: bool)
    requires
        i < servers@.len(),
    ensures
        r == is_checked(target_views(servers@), i as int),
{
    let ghost all = target_views(servers@);
    assert(all[i as int] == servers@[i as int]@);
    let mut first_at_url: bool = true;
    let mut j: usize = 0;
    while j < i
        invariant
            j <= i < servers@.len(),
            all == target_views(servers@),
            all[i as int] == servers@[i as int]@,
            forall|k: int| 0 <= k < j ==> (#[trigger] all[k]).id != all[i as int].id,
            first_at_url == forall|k: int|
                0 <= k < j ==> (#[trigger] all[k]).url != all[i as int].url,
        decreases i - j,
    {
        assert(all[j as int] == servers@[j as int]@);
        if equal(servers[j].id.as_str(), servers[i].id.as_str()) {
            assert(!new_id(all, i as int));
            return false;
        }
        if equal(servers[j].url.as_str(), servers[i].url.as_str()) {
            first_at_url = false;
        }
        j += 1;
    }
    finds_twin(servers, i) || first_at_url && !finds_crowd(servers, i)
}

impl AppState {
    /// All registered servers, one group after another.
    fn all_targets(&self) -> (r: Vec<HealthTarget>)
        ensures
            target_views(r@) == targets_of(all_servers(group_views(self))),
    {
        let mut out: Vec<HealthTarget> = Vec::new();
        let ghost mut seen: Seq<ServerView> = seq![];
        let mut g: usize = 0;
        assert(target_views(out@) =~= targets_of(seen));
        assert(group_views(self).take(0) =~= seq![]);
        while g < self.server_group.len()
            invariant
                g <= self.server_group@.len(),
                seen == all_servers(group_views(self).take(g as int)),
                target_views(out@) == targets_of(seen),
            decreases self.server_group@.len() - g,
        {
            let group = &self.server_group[g];
            let mut i: usize = 0;
            let ghost earlier = seen;
            assert(earlier + group@.take(0) =~= earlier);
            while i < group.servers.len()
                invariant
                    i <= group.servers@.len(),
                    seen == earlier + group@.take(i as int),
                    target_views(out@) == targets_of(seen),
                decreases group.servers@.len() - i,
            {
                let server = &group.servers[i];
                let ghost before = out@;
                out.push(
                    HealthTarget {
                        id: server.id.clone(),
                        url: server.url.clone(),
                        kind: server.kind,
                    },
                );
                proof {
                    let more = seen.push(server@);
                    assert(earlier + group@.take(i + 1) =~= more);
                    assert(target_views(out@) =~= target_views(before).push(target_of(server@)));
                    assert(targets_of(more) =~= targets_of(seen).push(target_of(server@)));
                    seen = more;
                }
                i += 1;
            }
            proof {
                assert(group@.take(i as int) =~= group@);
                assert(group_views(self).take(g + 1).drop_last() =~= group_views(self).take(
                    g as int,
                ));
                assert(group_views(self).take(g + 1).last() == group@);
            }
            g += 1;
        }
        assert(group_views(self).take(g as int) =~= group_views(self));
        out
    }

    /// The servers that are to be checked; `None` where there is no group, so that a check has
    /// nothing to do.
    pub fn health_targets(&self) -> (r: Option<Vec<HealthTarget>>)
        ensures
            match r {
                Some(targets) => self.server_group@.len() > 0 && target_views(targets@) == to_check(
                    targets_of(all_servers(group_views(self))),
                ),
                None => self.server_group@.len() == 0,
            },
    {
        if self.server_group.len() == 0 {
            return None;
        }
        let servers = self.all_targets();
        let ghost all = target_views(servers@);
        let mut targets: Vec<HealthTarget> = Vec::new();
        let mut i: usize = 0;
        assert(target_views(targets@) =~= checked_up_to(all, 0));
        while i < servers.len()
            invariant
                i <= servers@.len(),
                all == target_views(servers@),
                target_views(targets@) == checked_up_to(all, i as int),
            decreases servers@.len() - i,
        {
            let ghost before = targets@;
            if needs_check(&servers, i) {
                targets.push(
                    HealthTarget {
                        id: servers[i].id.clone(),
                        url: servers[i].url.clone(),
                        kind: servers[i].kind,
                    },
                );
                assert(target_views(targets@) =~= target_views(before).push(all[i as int]));
            }
            i += 1;
        }
        Some(targets)
    }

    /// Takes out the servers of these ids, one after another, up to the first that is not known.
    pub fn drop_unhealthy(&mut self, unhealthy: &Vec<String>) -> (r: Result<(), ServerError>)
        requires
            old(self).wf(),
            forall|i: int| 0 <= i < unhealthy@.len() ==> id_readable((#[trigger] unhealthy@[i])@),
        ensures
            final(self).wf(),
            final(self).same_aside(old(self)),
            final(self).registered() == drop_all(old(self).registered(), texts(unhealthy@)).0,
            match (r, drop_all(old(self).registered(), texts(unhealthy@)).1) {
                (Ok(_), None) => true,
                (Err(e), Some(id)) => e@ == not_found(id),
                _ => false,
            },
            turns_kept(
                old(self).server_group@,
                final(self).server_group@,
                Set::<ServiceKind>::full(),
            ),
    {
        let ghost ids = texts(unhealthy@);
        let ghost full = Set::<ServiceKind>::full();
        let mut i: usize = 0;
        assert(ids.skip(0) =~= ids);
        while i < unhealthy.len()
            invariant
                i <= unhealthy@.len(),
                self.wf(),
                self.same_aside(old(self)),
                ids == texts(unhealthy@),
                full == Set::<ServiceKind>::full(),
                forall|j: int|
                    0 <= j < unhealthy@.len() ==> id_readable((#[trigger] unhealthy@[j])@),
                drop_all(old(self).registered(), ids) == drop_all(
                    self.registered(),
                    ids.skip(i as int),
                ),
                turns_kept(old(self).server_group@, self.server_group@, full),
            decreases unhealthy@.len() - i,
        {
            let ghost left = ids.skip(i as int);
            let ghost before = self.server_group@;
            assert(left[0] == unhealthy@[i as int]@);
            assert(left.drop_first() =~= ids.skip(i + 1));
            let dropped = self.unregister_downstream_server(unhealthy[i].as_str());
            proof {
                lemma_turns_kept_twice(
                    old(self).server_group@,
                    before,
                    self.server_group@,
                    full,
                    named_in(unhealthy@[i as int]@),
                    full,
                );
            }
            match dropped {
                Ok(_) => {},
                Err(e) => {
                    return Err(e);
                },
            }
            i += 1;
        }
        Ok(())
    }

    /// Takes out the servers that turned out not to be well, and reports the others, where the
    /// settings say where to.
    pub fn check_server_health(&mut self, unhealthy: &Vec<String>) -> (r: Result<
        Option<HealthReport>,
        ServerError,
    >)
        requires
            old(self).wf(),
            forall|i: int| 0 <= i < unhealthy@.len() ==> id_readable((#[trigger] unhealthy@[i])@),
            old(self).server_group@.len() > 0 && drop_all(
                old(self).registered(),
                texts(unhealthy@),
            ).1 is None && old(self).config.server_health_push_url is Some ==> old(
                self,
            ).config.rag is Some,
        ensures
            final(self).wf(),
            final(self).same_aside(old(self)),
            turns_kept(
                old(self).server_group@,
                final(self).server_group@,
                Set::<ServiceKind>::full(),
            ),
            old(self).server_group@.len() == 0 ==> r == Ok::<Option<HealthReport>, ServerError>(
                None,
            ) && final(self).registered() == old(self).registered(),
            old(self).server_group@.len() > 0 ==> {
                let outcome = drop_all(old(self).registered(), texts(unhealthy@));
                &&& final(self).registered() == outcome.0
                &&& match r {
                    Err(e) => outcome.1 is Some && e@ == not_found(outcome.1->0),
                    Ok(report) => outcome.1 is None && match report {
                        Some(report) => {
                            &&& text_of(old(self).config.server_health_push_url) == Some(
                                report.push_url@,
                            )
                            &&& report.rag == old(self).config.rag->0.enable
                            &&& reports(report.servers@, outcome.0.groups)
                        },
                        None => old(self).config.server_health_push_url is None,
                    },
                }
            },
    {
        if self.server_group.len() == 0 {
            return Ok(None);
        }
        match self.drop_unhealthy(unhealthy) {
            Ok(_) => {},
            Err(e) => {
                return Err(e);
            },
        }
        match &self.config.server_health_push_url {
            Some(push_url) => {
                let rag: bool = match &self.config.rag {
                    Some(rag) => rag.enable,
                    None => false,
                };
                let report = HealthReport {
                    push_url: push_url.clone(),
                    rag,
                    servers: self.healthy_servers(),
                };
                Ok(Some(report))
            },
            None => Ok(None),
        }
    }

    /// The ids of the servers behind each service that has a group.
    pub fn healthy_servers(&self) -> (r: Vec<(ServiceKind, Vec<String>)>)
        requires
            self.wf(),
        ensures
            reports(r@, self.registered().groups),
    {
        let mut out: Vec<(ServiceKind, Vec<String>)> = Vec::new();
        let mut i: usize = 0;
        while i < self.server_group.len()
            invariant
                i <= self.server_group@.len(),
                out@.len() == i,
                forall|j: int|
                    0 <= j < i ==> (#[trigger] out@[j]).0 == self.server_group@[j].kind && texts(
                        out@[j].1@,
                    ) == self.server_group@[j]@.map_values(|s: ServerView| s.id),
            decreases self.server_group@.len() - i,
        {
            out.push((self.server_group[i].kind, self.server_group[i].ids()));
            i += 1;
        }
        proof {
            let groups = self.server_group@;
            let kinds = group_kinds(groups);
            assert(listed(out@) =~= kinds);
            assert forall|j: int| 0 <= j < out@.len() implies self.registered().groups.dom().contains(
                (#[trigger] out@[j]).0,
            ) && texts(out@[j].1@) == self.registered().groups[out@[j].0].map_values(
                |s: ServerView| s.id,
            ) by {
                AppState::lemma_group_at(groups, j);
            }
        }
        out
    }
}

/// `list` has each service that has a group, once, with the ids of the servers behind it.
pub open spec fn reports(
    list: Seq<(ServiceKind, Vec<String>)>,
    groups: Map<ServiceKind, Seq<ServerView>>,
) -> bool {
    &&& listed(list).no_duplicates()
    &&& forall|k: ServiceKind| #[trigger] listed(list).contains(k) <==> groups.dom().contains(k)
    &&& forall|i: int|
        0 <= i < list.len() ==> groups.dom().contains((#[trigger] list[i]).0) && texts(list[i].1@)
            == groups[list[i].0].map_values(|s: ServerView| s.id)
}

/// `servers` without those whose id is among `ids`.
pub open spec fn without_ids(servers: Seq<ServerView>, ids: Seq<Seq<char>>) -> Seq<ServerView> {
    servers.filter(|s: ServerView| !ids.contains(s.id))
}

/// The entries of `table` but those whose key is among `ids`.
pub open spec fn without_keys<V>(table: Map<Seq<char>, V>, ids: Seq<Seq<char>>) -> Map<
    Seq<char>,
    V,
> {
    Map::new(
        |id: Seq<char>| table.dom().contains(id) && !ids.contains(id),
        |id: Seq<char>| table[id],
    )
}

/// Where the servers that are not well are registered, a health check succeeds: none of them is
/// left behind any service or in the tables, and the others stay in their order.
pub proof fn law_unhealthy_are_gone(r: Registered, ids: Seq<Seq<char>>)
    requires
        all_sound(r),
        forall|i: int| 0 <= i < ids.len() ==> knows(r, #[trigger] ids[i]),
    ensures
        drop_all(r, ids).1 is None,
        drop_all(r, ids).0.groups.dom() == r.groups.dom(),
        forall|k: ServiceKind|
            r.groups.dom().contains(k) ==> #[trigger] drop_all(r, ids).0.groups[k] == without_ids(
                r.groups[k],
                ids,
            ),
        drop_all(r, ids).0.models == without_keys(r.models, ids),
        drop_all(r, ids).0.info == without_keys(r.info, ids),
        all_sound(drop_all(r, ids).0),
    decreases ids.len(),
{
    if ids.len() == 0 {
        assert(without_keys(r.models, ids) =~= r.models);
        assert(without_keys(r.info, ids) =~= r.info);
        assert forall|k: ServiceKind| r.groups.dom().contains(k) implies #[trigger] r.groups[k]
            == without_ids(r.groups[k], ids) by {
            lemma_filter_all(r.groups[k], |s: ServerView| !ids.contains(s.id));
        }
    } else {
        let id = ids[0];
        let rest = ids.drop_first();
        let mid = drop_server(r, id);
        law_unregistered_is_gone(r, id);
        assert forall|i: int| 0 <= i < rest.len() implies knows(mid, #[trigger] rest[i]) by {
            assert(knows(r, ids[i + 1]));
            let k = choose|k: ServiceKind| #[trigger]
                id_names(ids[i + 1], k) && r.groups.dom().contains(k);
            assert(id_names(rest[i], k) && mid.groups.dom().contains(k));
        }
        law_unhealthy_are_gone(mid, rest);
        assert forall|x: Seq<char>| #[trigger] ids.contains(x) == (x == id || rest.contains(x)) by {
            if rest.contains(x) {
                let j = rest.index_of(x);
                assert(ids[j + 1] == x);
            }
            if ids.contains(x) && x != id {
                let j = ids.index_of(x);
                assert(rest[j - 1] == x);
            }
        }
        assert(without_keys(mid.models, rest) =~= without_keys(r.models, ids));
        assert(without_keys(mid.info, rest) =~= without_keys(r.info, ids));
        assert forall|k: ServiceKind| r.groups.dom().contains(k) implies #[trigger] drop_all(
            r,
            ids,
        ).0.groups[k] == without_ids(r.groups[k], ids) by {
            let a = |s: ServerView| s.id != id;
            let b = |s: ServerView| !rest.contains(s.id);
            let both = |s: ServerView| !ids.contains(s.id);
            assert forall|s: ServerView| #[trigger] both(s) == (a(s) && b(s)) by {
                assert(ids.contains(s.id) == (s.id == id || rest.contains(s.id)));
            }
            lemma_filter_twice(r.groups[k], a, b, both);
        }
    }
}

/// Every server that is checked is one that the state knows by its id, so that it can be taken out.
pub proof fn law_checked_is_known(state: AppState, k: int)
    requires
        state.wf(),
        all_sound(state.registered()),
        0 <= k < to_check(targets_of(all_servers(group_views(&state)))).len(),
    ensures
        knows(
            state.registered(),
            to_check(targets_of(all_servers(group_views(&state))))[k].id,
        ),
        id_readable(to_check(targets_of(all_servers(group_views(&state))))[k].id),
{
    let groups = group_views(&state);
    let servers = all_servers(groups);
    let targets = targets_of(servers);
    lemma_checked(targets, targets.len() as int);
    assert(checked_among(targets, targets.len() as int, to_check(targets)[k]));
    let i = choose|i: int|
        0 <= i < targets.len() && is_checked(targets, i) && #[trigger] targets[i]
            == to_check(targets)[k];
    let server = servers[i];
    assert(servers.contains(server));
    lemma_in_some_group(groups, server);
    let g = choose|g: int| 0 <= g < groups.len() && (#[trigger] groups[g]).contains(server);
    AppState::lemma_group_at(state.server_group@, g);
    let j = groups[g].index_of(server);
    law_registered_is_known(state.registered(), state.server_group@[g].kind, j);
}

/// Whatever comes of the checks, a health check of servers that are in order succeeds: those that
/// were found not to be well can all be taken out.
pub proof fn law_checks_can_be_acted_on(state: AppState, healthy: Seq<bool>)
    requires
        state.wf(),
        all_sound(state.registered()),
        healthy.len() == to_check(targets_of(all_servers(group_views(&state)))).len(),
    ensures
        ({
            let targets = to_check(targets_of(all_servers(group_views(&state))));
            let ids = unwell(targets.map_values(|t: TargetView| t.id), healthy);
            &&& forall|i: int| 0 <= i < ids.len() ==> id_readable(#[trigger] ids[i])
            &&& drop_all(state.registered(), ids).1 is None
        }),
{
    let targets = to_check(targets_of(all_servers(group_views(&state))));
    let names = targets.map_values(|t: TargetView| t.id);
    let ids = unwell(names, healthy);
    assert forall|i: int| 0 <= i < ids.len() implies id_readable(#[trigger] ids[i]) && knows(
        state.registered(),
        ids[i],
    ) by {
        law_unwell_are_those_with_bad_outcomes(names, healthy, ids[i]);
        assert(ids.contains(ids[i]));
        let k = choose|k: int| 0 <= k < names.len() && #[trigger] names[k] == ids[i] && !healthy[k];
        assert(names[k] == targets[k].id);
        law_checked_is_known(state, k);
    }
    law_unhealthy_are_gone(state.registered(), ids);
}

/// Each of the servers stands in one of the groups.
proof fn lemma_in_some_group(groups: Seq<Seq<ServerView>>, server: ServerView)
    requires
        all_servers(groups).contains(server),
    ensures
        exists|g: int| 0 <= g < groups.len() && (#[trigger] groups[g]).contains(server),
    decreases groups.len(),
{
    if groups.len() > 0 {
        let rest = groups.drop_last();
        let i = all_servers(groups).index_of(server);
        if i < all_servers(rest).len() {
            assert(all_servers(rest)[i] == server);
            lemma_in_some_group(rest, server);
            let g = choose|g: int| 0 <= g < rest.len() && (#[trigger] rest[g]).contains(server);
            assert(groups[g].contains(server));
        } else {
            assert(groups.last()[i - all_servers(rest).len()] == server);
            assert(groups[groups.len() - 1].contains(server));
        }
    }
}

/// The servers of the groups follow one another, group by group; what matters of each to its check
/// is its id, its url and its services.
pub proof fn law_servers_group_by_group(
    groups: Seq<Seq<ServerView>>,
    last: Seq<ServerView>,
    i: int,
)
    ensures
        all_servers(seq![]) == Seq::<ServerView>::empty(),
        all_servers(groups.push(last)) == all_servers(groups) + last,
        targets_of(last).len() == last.len(),
        0 <= i < last.len() ==> {
            let target = targets_of(last)[i];
            target.id == last[i].id && target.url == last[i].url && target.kind == last[i].kind
        },
{
    assert(groups.push(last).drop_last() =~= groups);
}

/// Twins are different servers with one url and a service that both offer.
pub proof fn law_twins_by_their_fields(a: TargetView, b: TargetView)
    ensures
        twins(a, b) <==> a.id != b.id && a.url == b.url && (a.kind.chat && b.kind.chat
            || a.kind.embeddings && b.kind.embeddings || a.kind.image && b.kind.image || a.kind.tts
            && b.kind.tts || a.kind.translate && b.kind.translate || a.kind.transcribe
            && b.kind.transcribe),
{
    assert(a.kind.has(ServiceKind::Chat) == a.kind.chat);
    assert(a.kind.has(ServiceKind::Embeddings) == a.kind.embeddings);
    assert(a.kind.has(ServiceKind::Image) == a.kind.image);
    assert(a.kind.has(ServiceKind::Tts) == a.kind.tts);
    assert(a.kind.has(ServiceKind::Translate) == a.kind.translate);
    assert(a.kind.has(ServiceKind::Transcribe) == a.kind.transcribe);
}

/// What is checked are registered servers, in their order: each is one of them, where it occurs
/// first.
pub proof fn law_checked_in_order(servers: Seq<TargetView>, j: int, k: int)
    requires
        0 <= j < k < to_check(servers).len(),
    ensures
        exists|a: int, b: int|
            0 <= a < b < servers.len() && #[trigger] servers[a] == to_check(servers)[j]
                && #[trigger] servers[b] == to_check(servers)[k],
{
    lemma_checked_in_order(servers, servers.len() as int, j, k);
}

proof fn lemma_checked_in_order(servers: Seq<TargetView>, n: int, j: int, k: int)
    requires
        0 <= n <= servers.len(),
        0 <= j < k < checked_up_to(servers, n).len(),
    ensures
        exists|a: int, b: int|
            0 <= a < b < n && #[trigger] servers[a] == checked_up_to(servers, n)[j]
                && #[trigger] servers[b] == checked_up_to(servers, n)[k],
    decreases n,
{
    let before = checked_up_to(servers, n - 1);
    lemma_checked(servers, n - 1);
    if k < before.len() {
        lemma_checked_in_order(servers, n - 1, j, k);
        let (a, b) = choose|a: int, b: int|
            0 <= a < b < n - 1 && #[trigger] servers[a] == before[j] && #[trigger] servers[b]
                == before[k];
        assert(servers[a] == checked_up_to(servers, n)[j]);
        assert(servers[b] == checked_up_to(servers, n)[k]);
    } else {
        assert(checked_among(servers, n - 1, before[j]));
        let a = choose|a: int|
            0 <= a < n - 1 && is_checked(servers, a) && #[trigger] servers[a] == before[j];
        assert(servers[a] == checked_up_to(servers, n)[j]);
        assert(servers[n - 1] == checked_up_to(servers, n)[k]);
    }
}

/// Outcomes are taken in order: a bad one adds its id at the end, a good one adds nothing.
pub proof fn law_unwell_one_by_one(
    ids: Seq<Seq<char>>,
    healthy: Seq<bool>,
    id: Seq<char>,
)
    requires
        ids.len() == healthy.len(),
    ensures
        unwell(seq![], seq![]) == Seq::<Seq<char>>::empty(),
        unwell(ids.push(id), healthy.push(true)) == unwell(ids, healthy),
        unwell(ids.push(id), healthy.push(false)) == unwell(ids, healthy).push(id),
{
    assert(ids.push(id).drop_last() =~= ids);
    assert(healthy.push(true).drop_last() =~= healthy);
    assert(healthy.push(false).drop_last() =~= healthy);
}

/// A report names each service that has a group, once, and under it the ids of the servers behind
/// it, in their order.
pub proof fn law_report_of_each_group(
    list: Seq<(ServiceKind, Vec<String>)>,
    groups: Map<ServiceKind, Seq<ServerView>>,
    kind: ServiceKind,
)
    requires
        reports(list, groups),
    ensures
        groups.dom().contains(kind) <==> exists|i: int|
            0 <= i < list.len() && (#[trigger] list[i]).0 == kind,
        forall|i: int, j: int|
            0 <= i < j < list.len() ==> (#[trigger] list[i]).0 != (#[trigger] list[j]).0,
        forall|i: int|
            0 <= i < list.len() && (#[trigger] list[i]).0 == kind ==> {
                &&& list[i].1@.len() == groups[kind].len()
                &&& forall|k: int|
                    0 <= k < groups[kind].len() ==> #[trigger] list[i].1@[k]@ == groups[kind][k].id
            },
{
    let kinds = listed(list);
    if groups.dom().contains(kind) {
        assert(kinds.contains(kind));
        let i = kinds.index_of(kind);
        assert(list[i].0 == kind);
    }
    assert forall|i: int, j: int| 0 <= i < j < list.len() implies (#[trigger] list[i]).0 != (
    #[trigger] list[j]).0 by {
        assert(kinds[i] != kinds[j]);
    }
    assert forall|i: int| 0 <= i < list.len() && (#[trigger] list[i]).0 == kind implies {
        &&& list[i].1@.len() == groups[kind].len()
        &&& forall|k: int|
            0 <= k < groups[kind].len() ==> #[trigger] list[i].1@[k]@ == groups[kind][k].id
    } by {
        let ids = groups[kind].map_values(|s: ServerView| s.id);
        assert(texts(list[i].1@) == ids);
        assert(texts(list[i].1@).len() == ids.len());
        assert forall|k: int| 0 <= k < groups[kind].len() implies #[trigger] list[i].1@[k]@
            == groups[kind][k].id by {
            assert(texts(list[i].1@)[k] == ids[k]);
        }
    }
}

/// Of a list without some ids, the servers with another id stay, in their order, and the others go;
/// of a table, the entries under another key stay as they are.
pub proof fn law_without_ids_one_by_one(
    servers: Seq<ServerView>,
    last: ServerView,
    ids: Seq<Seq<char>>,
    table: Map<Seq<char>, Seq<char>>,
    key: Seq<char>,
)
    ensures
        without_ids(seq![], ids) == Seq::<ServerView>::empty(),
        ids.contains(last.id) ==> without_ids(servers.push(last), ids) == without_ids(servers, ids),
        !ids.contains(last.id) ==> without_ids(servers.push(last), ids) == without_ids(
            servers,
            ids,
        ).push(last),
        without_keys(table, ids).dom().contains(key) <==> table.dom().contains(key)
            && !ids.contains(key),
        without_keys(table, ids).dom().contains(key) ==> without_keys(table, ids)[key]
            == table[key],
{
    reveal(Seq::filter);
    assert(servers.push(last).drop_last() =~= servers);
}

/// What contracts say of targets and groups is said of what they hold, one by one.
pub proof fn law_what_stands_for_targets(
    targets: Seq<HealthTarget>,
    state: AppState,
    i: int,
)
    ensures
        target_views(targets).len() == targets.len(),
        target_ids(targets).len() == targets.len(),
        0 <= i < targets.len() ==> {
            let view = target_views(targets)[i];
            &&& view.id == targets[i].id@
            &&& view.url == targets[i].url@
            &&& view.kind == targets[i].kind
            &&& target_ids(targets)[i] == targets[i].id@
        },
        group_views(&state).len() == state.server_group@.len(),
        0 <= i < state.server_group@.len() ==> group_views(&state)[i] == state.server_group@[i]@,
{
}

} // verus!
