//! The state that the requests to the gateway share: which servers are registered, and what they
//! offer.
use vstd::prelude::*;

use crate::config::Config;
use crate::database::way_to;
use crate::error::{operation, ErrorView, ServerError};
use crate::server::{
    id_kinds, id_names, id_readable, kinds_of_id, lemma_list_contains, server_views, without_id,
    Server, ServerGroup, ServerKind, ServerView, ServiceKind,
};
use crate::storage::ChatStorage;
use crate::table::Table;

verus! {

/// A model that a server serves.
#[derive(Debug)]
pub struct Model {
    pub id: String,
    /// When the model was entered, in seconds since 1970-01-01 00:00:00 UTC.
    pub created: u64,
    pub object: String,
    pub owned_by: String,
}

/// A model with its texts.
pub struct ModelView {
    pub id: Seq<char>,
    pub created: u64,
    pub object: Seq<char>,
    pub owned_by: Seq<char>,
}

impl View for Model {
    type V = ModelView;

    open spec fn view(&self) -> ModelView {
        ModelView {
            id: self.id@,
            created: self.created,
            object: self.object@,
            owned_by: self.owned_by@,
        }
    }
}

/// The models of a list with their texts.
pub open spec fn model_views(models: Seq<Model>) -> Seq<ModelView> {
    models.map_values(|m: Model| m@)
}

/// What the downstream servers say of themselves, by server id.
#[derive(Debug)]
pub struct ServerInfo {
    pub servers: Table<String>,
}

/// The state that the requests to the gateway share.
#[derive(Debug)]
pub struct AppState {
    pub server_group: Vec<ServerGroup>,
    pub config: Config,
    pub server_info: ServerInfo,
    /// The models of each server, by server id.
    pub models: Table<Vec<Model>>,
    pub chat_storage: ChatStorage,
}

/// Which servers are registered: the servers behind each service, and by server id the models and
/// what the server says of itself.
#[verifier::ext_equal]
pub struct Registered {
    pub groups: Map<ServiceKind, Seq<ServerView>>,
    pub models: Map<Seq<char>, Seq<ModelView>>,
    pub info: Map<Seq<char>, Seq<char>>,
}

/// The services of a list of groups.
pub open spec fn group_kinds(groups: Seq<ServerGroup>) -> Seq<ServiceKind> {
    groups.map_values(|g: ServerGroup| g.kind)
}

/// The servers behind each service.
pub open spec fn group_map(groups: Seq<ServerGroup>) -> Map<ServiceKind, Seq<ServerView>> {
    Map::new(
        |k: ServiceKind| group_kinds(groups).contains(k),
        |k: ServiceKind| groups[group_kinds(groups).index_of(k)]@,
    )
}

/// The servers behind a service, none where it has no group.
pub open spec fn servers_behind(
    groups: Map<ServiceKind, Seq<ServerView>>,
    kind: ServiceKind,
) -> Seq<ServerView> {
    if groups.dom().contains(kind) {
        groups[kind]
    } else {
        seq![]
    }
}

/// `server` stands last behind each service that it offers.
pub open spec fn add_server(r: Registered, server: ServerView) -> Registered {
    Registered {
        groups: Map::new(
            |k: ServiceKind| r.groups.dom().contains(k) || server.kind.has(k),
            |k: ServiceKind|
                if server.kind.has(k) {
                    servers_behind(r.groups, k).push(server)
                } else {
                    r.groups[k]
                },
        ),
        ..r
    }
}

/// There is a group for one of the services that the id names.
pub open spec fn knows(r: Registered, id: Seq<char>) -> bool {
    exists|k: ServiceKind| #[trigger] id_names(id, k) && r.groups.dom().contains(k)
}

/// No server of that id stands behind the services that the id names, and nothing else is kept of
/// the id.
pub open spec fn drop_server(r: Registered, id: Seq<char>) -> Registered {
    Registered {
        groups: Map::new(
            |k: ServiceKind| r.groups.dom().contains(k),
            |k: ServiceKind|
                if id_names(id, k) {
                    without_id(r.groups[k], id)
                } else {
                    r.groups[k]
                },
        ),
        models: r.models.remove(id),
        info: r.info.remove(id),
    }
}

/// The ids are dropped one after another, up to the first that is not known, which is the second
/// part of the result.
pub open spec fn drop_all(r: Registered, ids: Seq<Seq<char>>) -> (Registered, Option<Seq<char>>)
    decreases ids.len(),
{
    if ids.len() == 0 {
        (r, None)
    } else if !knows(r, ids[0]) {
        (r, Some(ids[0]))
    } else {
        drop_all(drop_server(r, ids[0]), ids.drop_first())
    }
}

/// What is said of an id that is not known.
pub open spec fn not_found(id: Seq<char>) -> ErrorView {
    ErrorView::Operation("Server "@ + id + " not found"@)
}

/// Every server that is registered stands only behind what it offers, and its id names that.
pub open spec fn all_sound(r: Registered) -> bool {
    forall|k: ServiceKind, i: int|
        #![trigger r.groups[k][i]]
        r.groups.dom().contains(k) && 0 <= i < r.groups[k].len() ==> r.groups[k][i].wf()
            && r.groups[k][i].kind.has(k)
}

/// The groups stay in their places and keep their turns, those of services that are not among
/// `touched` stay as they are, and a group that is new begins with its first server.
pub open spec fn turns_kept(
    before: Seq<ServerGroup>,
    after: Seq<ServerGroup>,
    touched: Set<ServiceKind>,
) -> bool {
    &&& before.len() <= after.len()
    &&& forall|i: int|
        0 <= i < before.len() ==> {
            &&& (#[trigger] after[i]).kind == before[i].kind
            &&& after[i].cursor == before[i].cursor
            &&& !touched.contains(before[i].kind) ==> after[i] == before[i]
        }
    &&& forall|i: int|
        before.len() <= i < after.len() ==> (#[trigger] after[i]).cursor == 0
            && touched.contains(after[i].kind)
}

/// The services that a server of that kind offers.
pub open spec fn offered(kind: ServerKind) -> Set<ServiceKind> {
    Set::new(|k: ServiceKind| kind.has(k))
}

/// The services that an id names.
pub open spec fn named_in(id: Seq<char>) -> Set<ServiceKind> {
    Set::new(|k: ServiceKind| id_names(id, k))
}

/// Turns that are kept twice are kept.
pub proof fn lemma_turns_kept_twice(
    a: Seq<ServerGroup>,
    b: Seq<ServerGroup>,
    c: Seq<ServerGroup>,
    first: Set<ServiceKind>,
    second: Set<ServiceKind>,
    all: Set<ServiceKind>,
)
    requires
        turns_kept(a, b, first),
        turns_kept(b, c, second),
        first.subset_of(all),
        second.subset_of(all),
    ensures
        turns_kept(a, c, all),
{
    assert forall|i: int| 0 <= i < a.len() implies (#[trigger] c[i]).kind == a[i].kind
        && c[i].cursor == a[i].cursor && (!all.contains(a[i].kind) ==> c[i] == a[i]) by {
        assert(b[i].kind == a[i].kind);
    }
    assert forall|i: int| a.len() <= i < c.len() implies (#[trigger] c[i]).cursor == 0
        && all.contains(c[i].kind) by {
        if i < b.len() {
            assert(b[i].cursor == 0);
        }
    }
}

impl AppState {
    /// Which servers are registered.
    pub open spec fn registered(&self) -> Registered {
        Registered {
            groups: group_map(self.server_group@),
            models: self.models@.map_values(|list: Vec<Model>| model_views(list@)),
            info: self.server_info.servers@.map_values(|s: String| s@),
        }
    }

    /// No service has two groups, and the tables and the record of conversations are in order.
    pub open spec fn wf(&self) -> bool {
        &&& group_kinds(self.server_group@).no_duplicates()
        &&& self.models.wf()
        &&& self.server_info.servers.wf()
        &&& self.chat_storage.wf()
    }

    /// The settings and the record of conversations are the same.
    pub open spec fn same_aside(&self, other: &AppState) -> bool {
        &&& self.config == other.config
        &&& self.chat_storage == other.chat_storage
    }

    /// A state in which no server is registered and conversations are kept in memory.
    pub fn new(config: Config, server_info: ServerInfo) -> (r: AppState)
        requires
            server_info.servers.wf(),
        ensures
            r.wf(),
            r.config == config,
            r.server_info == server_info,
            r.server_group@.len() == 0,
            all_sound(r.registered()),
            r.models.keys() == Seq::<Seq<char>>::empty(),
            r.registered().groups == Map::<ServiceKind, Seq<ServerView>>::empty(),
            r.registered().models == Map::<Seq<char>, Seq<ModelView>>::empty(),
            !r.chat_storage.persistent(),
            r.chat_storage.session_ids() == Seq::<Seq<char>>::empty(),
    {
        let r = AppState {
            server_group: Vec::new(),
            config,
            server_info,
            models: Table::new(),
            chat_storage: ChatStorage::new_memory_only(),
        };
        proof {
            r.lemma_fresh();
        }
        r
    }

    /// A state in which no server is registered and conversations are kept in a database.
    pub fn new_with_database(config: Config, server_info: ServerInfo, database_url: &str) -> (r:
        AppState)
        requires
            server_info.servers.wf(),
        ensures
            r.wf(),
            r.config == config,
            r.server_info == server_info,
            r.server_group@.len() == 0,
            all_sound(r.registered()),
            r.models.keys() == Seq::<Seq<char>>::empty(),
            r.registered().groups == Map::<ServiceKind, Seq<ServerView>>::empty(),
            r.registered().models == Map::<Seq<char>, Seq<ModelView>>::empty(),
            r.chat_storage.way() == Some(way_to(database_url@)),
            r.chat_storage.session_ids() == Seq::<Seq<char>>::empty(),
    {
        let r = AppState {
            server_group: Vec::new(),
            config,
            server_info,
            models: Table::new(),
            chat_storage: ChatStorage::new_with_database(database_url),
        };
        proof {
            r.lemma_fresh();
        }
        r
    }

    proof fn lemma_fresh(&self)
        requires
            self.server_group@.len() == 0,
            self.models@ == Map::<Seq<char>, Vec<Model>>::empty(),
        ensures
            group_kinds(self.server_group@).no_duplicates(),
            self.registered().groups == Map::<ServiceKind, Seq<ServerView>>::empty(),
            self.registered().models == Map::<Seq<char>, Seq<ModelView>>::empty(),
    {
        assert(self.registered().groups =~= Map::<ServiceKind, Seq<ServerView>>::empty());
        assert(self.registered().models =~= Map::<Seq<char>, Seq<ModelView>>::empty());
    }

    /// The group of a service stands where its service stands.
    pub proof fn lemma_group_at(groups: Seq<ServerGroup>, i: int)
        requires
            group_kinds(groups).no_duplicates(),
            0 <= i < groups.len(),
        ensures
            group_map(groups).dom().contains(groups[i].kind),
            group_map(groups)[groups[i].kind] == groups[i]@,
    {
        let kinds = group_kinds(groups);
        assert(kinds[i] == groups[i].kind);
        assert(kinds.contains(groups[i].kind));
        let j = kinds.index_of(groups[i].kind);
        assert(kinds[j] == kinds[i]);
    }

    /// A group that is put in the place of another of its service changes what stands behind that
    /// service alone.
    pub proof fn lemma_group_put(before: Seq<ServerGroup>, after: Seq<ServerGroup>, i: int)
        requires
            group_kinds(before).no_duplicates(),
            0 <= i < before.len(),
            after.len() == before.len(),
            after[i].kind == before[i].kind,
            forall|j: int| 0 <= j < before.len() && j != i ==> after[j] == before[j],
        ensures
            group_kinds(after) == group_kinds(before),
            group_map(after) == group_map(before).insert(before[i].kind, after[i]@),
    {
        assert(group_kinds(after) =~= group_kinds(before));
        Self::lemma_group_at(before, i);
        Self::lemma_group_at(after, i);
        assert forall|k: ServiceKind| group_map(after).dom().contains(k) implies group_map(after)[k]
            == group_map(before).insert(before[i].kind, after[i]@)[k] by {
            let j = group_kinds(after).index_of(k);
            assert(group_kinds(after)[j] == k);
            Self::lemma_group_at(before, j);
            Self::lemma_group_at(after, j);
        }
        assert(group_map(after) =~= group_map(before).insert(before[i].kind, after[i]@));
    }

    /// A new group adds its service.
    proof fn lemma_group_push(before: Seq<ServerGroup>, group: ServerGroup)
        requires
            group_kinds(before).no_duplicates(),
            !group_kinds(before).contains(group.kind),
        ensures
            group_kinds(before.push(group)).no_duplicates(),
            group_map(before.push(group)) == group_map(before).insert(group.kind, group@),
    {
        let after = before.push(group);
        assert(group_kinds(after) =~= group_kinds(before).push(group.kind));
        Self::lemma_group_at(after, before.len() as int);
        assert forall|k: ServiceKind|
            group_map(after).dom().contains(k) == group_map(before).insert(
                group.kind,
                group@,
            ).dom().contains(k) by {
            if group_kinds(before).contains(k) {
                let j = group_kinds(before).index_of(k);
                assert(group_kinds(after)[j] == k);
            }
            if group_kinds(after).contains(k) && k != group.kind {
                let j = group_kinds(after).index_of(k);
                assert(group_kinds(before)[j] == k);
            }
        }
        assert forall|k: ServiceKind| group_map(after).dom().contains(k) implies group_map(after)[k]
            == group_map(before).insert(group.kind, group@)[k] by {
            let j = group_kinds(after).index_of(k);
            assert(group_kinds(after)[j] == k);
            Self::lemma_group_at(after, j);
            if k != group.kind {
                assert(group_kinds(before)[j] == k);
                Self::lemma_group_at(before, j);
            }
        }
        assert(group_map(after) =~= group_map(before).insert(group.kind, group@));
    }

    /// The position of the group of a service.
    pub fn find_group(&self, kind: ServiceKind) -> (r: Option<usize>)
        requires
            self.wf(),
        ensures
            match r {
                Some(i) => {
                    &&& i < self.server_group@.len()
                    &&& self.server_group@[i as int].kind == kind
                    &&& self.registered().groups.dom().contains(kind)
                    &&& self.registered().groups[kind] == self.server_group@[i as int]@
                },
                None => !self.registered().groups.dom().contains(kind),
            },
    {
        let mut i: usize = 0;
        while i < self.server_group.len()
            invariant
                self.wf(),
                i <= self.server_group@.len(),
                forall|j: int|
                    0 <= j < i ==> #[trigger] group_kinds(self.server_group@)[j] != kind,
            decreases self.server_group@.len() - i,
        {
            if self.server_group[i].kind == kind {
                proof {
                    Self::lemma_group_at(self.server_group@, i as int);
                }
                return Some(i);
            }
            i += 1;
        }
        None
    }

    /// Puts `server` last behind one service.
    fn add_behind(&mut self, kind: ServiceKind, server: Server)
        requires
            old(self).wf(),
        ensures
            final(self).wf(),
            final(self).same_aside(old(self)),
            final(self).registered() == (Registered {
                groups: old(self).registered().groups.insert(
                    kind,
                    servers_behind(old(self).registered().groups, kind).push(server@),
                ),
                ..old(self).registered()
            }),
            turns_kept(old(self).server_group@, final(self).server_group@, set![kind]),
    {
        match self.find_group(kind) {
            Some(i) => {
                self.server_group[i].register(server);
                proof {
                    Self::lemma_group_put(
                        old(self).server_group@,
                        self.server_group@,
                        i as int,
                    );
                }
            },
            None => {
                let mut group = ServerGroup::new(kind);
                group.register(server);
                self.server_group.push(group);
                proof {
                    Self::lemma_group_push(old(self).server_group@, group);
                }
            },
        }
    }

    /// Puts `server` last behind one service, where it offers that.
    fn add_where_offered(
        &mut self,
        kind: ServiceKind,
        server: &Server,
        Ghost(first): Ghost<Seq<ServerGroup>>,
    )
        requires
            old(self).wf(),
            turns_kept(first, old(self).server_group@, offered(server.kind)),
        ensures
            final(self).wf(),
            final(self).same_aside(old(self)),
            final(self).registered() == if server.kind.has(kind) {
                Registered {
                    groups: old(self).registered().groups.insert(
                        kind,
                        servers_behind(old(self).registered().groups, kind).push(server@),
                    ),
                    ..old(self).registered()
                }
            } else {
                old(self).registered()
            },
            turns_kept(first, final(self).server_group@, offered(server.kind)),
    {
        if server.kind.contains(kind) {
            self.add_behind(kind, server.copy());
            proof {
                lemma_turns_kept_twice(
                    first,
                    old(self).server_group@,
                    self.server_group@,
                    offered(server.kind),
                    set![kind],
                    offered(server.kind),
                );
            }
        }
    }

    /// Registers a server behind each service that it offers.
    pub fn register_downstream_server(&mut self, server: Server)
        requires
            old(self).wf(),
        ensures
            final(self).wf(),
            final(self).same_aside(old(self)),
            final(self).registered() == add_server(old(self).registered(), server@),
            forall|k: ServiceKind| #[trigger]
                server.kind.has(k) ==> {
                    let before = old(self).registered().groups;
                    let after = final(self).registered().groups;
                    &&& after.dom().contains(k)
                    &&& after[k].len() > 0
                    &&& after[k].last() == server@
                    &&& before.dom().contains(k) ==> after[k].drop_last() == before[k]
                    &&& !before.dom().contains(k) ==> after[k].len() == 1
                },
            forall|k: ServiceKind|
                !(#[trigger] server.kind.has(k)) ==> {
                    let before = old(self).registered().groups;
                    let after = final(self).registered().groups;
                    &&& after.dom().contains(k) == before.dom().contains(k)
                    &&& before.dom().contains(k) ==> after[k] == before[k]
                },
            forall|k: ServiceKind| #[trigger]
                server.kind.has(k) ==> exists|i: int|
                    0 <= i < final(self).server_group@.len() && (
                    #[trigger] final(self).server_group@[i]).kind == k
                        && final(self).server_group@[i].servers@.len() > 0
                        && final(self).server_group@[i].servers@.last()@ == server@,
            final(self).registered().models == old(self).registered().models,
            final(self).registered().info == old(self).registered().info,
            turns_kept(
                old(self).server_group@,
                final(self).server_group@,
                offered(server.kind),
            ),
    {
        let ghost first = self.server_group@;
        self.add_where_offered(ServiceKind::Chat, &server, Ghost(first));
        self.add_where_offered(ServiceKind::Embeddings, &server, Ghost(first));
        self.add_where_offered(ServiceKind::Image, &server, Ghost(first));
        self.add_where_offered(ServiceKind::Tts, &server, Ghost(first));
        self.add_where_offered(ServiceKind::Translate, &server, Ghost(first));
        self.add_where_offered(ServiceKind::Transcribe, &server, Ghost(first));
        assert(self.registered() =~= add_server(old(self).registered(), server@));
        proof {
            let r = old(self).registered();
            assert forall|k: ServiceKind| #[trigger] server.kind.has(k) implies exists|i: int|
                0 <= i < self.server_group@.len() && (#[trigger] self.server_group@[i]).kind == k
                    && self.server_group@[i].servers@.len() > 0
                    && self.server_group@[i].servers@.last()@ == server@ by {
                law_registering_reaches_each_service(r, server@, k);
                let i = group_kinds(self.server_group@).index_of(k);
                assert(group_kinds(self.server_group@)[i] == k);
                Self::lemma_group_at(self.server_group@, i);
                assert(self.server_group@[i]@.last() == server@);
            }
            assert forall|k: ServiceKind| #[trigger] server.kind.has(k) implies {
                let before = r.groups;
                let after = self.registered().groups;
                &&& after.dom().contains(k)
                &&& after[k].len() > 0
                &&& after[k].last() == server@
                &&& before.dom().contains(k) ==> after[k].drop_last() == before[k]
                &&& !before.dom().contains(k) ==> after[k].len() == 1
            } by {
                law_registering_reaches_each_service(r, server@, k);
            }
        }
    }
}

/// The servers behind the services that stand among the first `n` parts of the id are without that
/// id.
spec fn dropped_up_to(
    groups: Map<ServiceKind, Seq<ServerView>>,
    id: Seq<char>,
    n: int,
) -> Map<ServiceKind, Seq<ServerView>> {
    Map::new(
        |k: ServiceKind| groups.dom().contains(k),
        |k: ServiceKind|
            if id_kinds(id).take(n).contains(Some(k)) {
                without_id(groups[k], id)
            } else {
                groups[k]
            },
    )
}

/// Taking an id out twice is taking it out once.
proof fn lemma_without_twice(servers: Seq<ServerView>, id: Seq<char>)
    ensures
        without_id(without_id(servers, id), id) == without_id(servers, id),
    decreases servers.len(),
{
    let pred = |s: ServerView| s.id != id;
    reveal(Seq::filter);
    if servers.len() > 0 {
        let rest = servers.drop_last();
        lemma_without_twice(rest, id);
        if pred(servers.last()) {
            let kept = rest.filter(pred);
            kept.lemma_filter_push(servers.last(), pred);
        }
    }
}

impl AppState {
    /// Takes a server out: from behind the services that its id names, and from the tables.
    pub fn unregister_downstream_server(&mut self, server_id: &str) -> (r: Result<(), ServerError>)
        requires
            old(self).wf(),
            id_readable(server_id@),
        ensures
            final(self).wf(),
            final(self).same_aside(old(self)),
            match r {
                Ok(_) => knows(old(self).registered(), server_id@) && final(self).registered()
                    == drop_server(old(self).registered(), server_id@),
                Err(e) => !knows(old(self).registered(), server_id@) && final(self).registered()
                    == old(self).registered() && e@ == not_found(server_id@),
            },
            final(self).server_group@.len() == old(self).server_group@.len(),
            turns_kept(
                old(self).server_group@,
                final(self).server_group@,
                named_in(server_id@),
            ),
    {
        let mut found: bool = false;
        if let Some(kinds) = kinds_of_id(server_id) {
            let mut i: usize = 0;
            let ghost groups = self.registered().groups;
            let ghost all = id_kinds(server_id@);
            assert(dropped_up_to(groups, server_id@, 0) =~= groups);
            while i < kinds.len()
                invariant
                    i <= kinds@.len(),
                    self.wf(),
                    self.same_aside(old(self)),
                    self.models == old(self).models,
                    self.server_info == old(self).server_info,
                    groups == old(self).registered().groups,
                    self.server_group@.len() == old(self).server_group@.len(),
                    turns_kept(
                        old(self).server_group@,
                        self.server_group@,
                        named_in(server_id@),
                    ),
                    all == id_kinds(server_id@),
                    kinds@.map_values(|k: ServiceKind| Some(k)) == all,
                    self.registered().groups == dropped_up_to(groups, server_id@, i as int),
                    found == exists|j: int|
                        0 <= j < i && groups.dom().contains(#[trigger] kinds@[j]),
                decreases kinds@.len() - i,
            {
                let ghost before = *self;
                let ghost kind = kinds@[i as int];
                assert(kinds@.map_values(|k: ServiceKind| Some(k))[i as int] == Some(kind));
                match self.find_group(kinds[i]) {
                    Some(at) => {
                        self.server_group[at].unregister(server_id);
                        proof {
                            Self::lemma_group_put(
                                before.server_group@,
                                self.server_group@,
                                at as int,
                            );
                            assert(groups.dom().contains(kinds@[i as int]));
                            assert(all[i as int] == Some(kind));
                            assert(id_names(server_id@, kind));
                            lemma_turns_kept_twice(
                                old(self).server_group@,
                                before.server_group@,
                                self.server_group@,
                                named_in(server_id@),
                                set![kind],
                                named_in(server_id@),
                            );
                        }
                        found = true;
                    },
                    None => {},
                }
                proof {
                    let done = all.take(i as int);
                    let more = all.take(i + 1);
                    assert(more =~= done.push(Some(kind)));
                    assert forall|k: ServiceKind|
                        more.contains(Some(k)) == (done.contains(Some(k)) || k == kind) by {
                        if done.contains(Some(k)) {
                            let j = done.index_of(Some(k));
                            assert(more[j] == Some(k));
                        }
                        if k == kind {
                            assert(more[i as int] == Some(k));
                        }
                        if more.contains(Some(k)) && k != kind {
                            let j = more.index_of(Some(k));
                            assert(done[j] == Some(k));
                        }
                    }
                    if groups.dom().contains(kind) {
                        lemma_without_twice(groups[kind], server_id@);
                    }
                    assert(self.registered().groups =~= dropped_up_to(
                        groups,
                        server_id@,
                        i + 1,
                    ));
                    if found {
                        if exists|j: int| 0 <= j < i && groups.dom().contains(#[trigger] kinds@[j]) {
                            let j = choose|j: int|
                                0 <= j < i && groups.dom().contains(#[trigger] kinds@[j]);
                            assert(0 <= j < i + 1);
                        } else {
                            assert(groups.dom().contains(kinds@[i as int]));
                        }
                    }
                }
                i += 1;
            }
            proof {
                let id = server_id@;
                assert(all.take(i as int) =~= all);
                assert(self.registered().groups =~= drop_server(
                    old(self).registered(),
                    id,
                ).groups);
                if found {
                    let j = choose|j: int| 0 <= j < i && groups.dom().contains(#[trigger] kinds@[j]);
                    assert(kinds@.map_values(|k: ServiceKind| Some(k))[j] == Some(kinds@[j]));
                    assert(all[j] == Some(kinds@[j]));
                    assert(id_names(id, kinds@[j]));
                }
                if knows(old(self).registered(), id) {
                    let k = choose|k: ServiceKind| #[trigger]
                        id_names(id, k) && groups.dom().contains(k);
                    let j = all.index_of(Some(k));
                    assert(all[j] == Some(k));
                    assert(kinds@.map_values(|k: ServiceKind| Some(k))[j] == Some(kinds@[j]));
                    assert(groups.dom().contains(kinds@[j]));
                } else {
                    assert forall|k: ServiceKind| groups.dom().contains(k) implies !id_names(
                        id,
                        k,
                    ) by {}
                    assert(self.registered().groups =~= groups);
                }
            }
        }
        if found {
            self.server_info.servers.remove(server_id);
            self.models.remove(server_id);
            assert(self.registered() =~= drop_server(old(self).registered(), server_id@));
            Ok(())
        } else {
            assert(self.registered() =~= old(self).registered());
            let mut message: String = "Server ".to_owned();
            message.append(server_id);
            Err(operation(message.as_str(), " not found"))
        }
    }

    /// The servers behind each service that has any.
    pub fn list_downstream_servers(&self) -> (r: Vec<(ServiceKind, Vec<Server>)>)
        requires
            self.wf(),
        ensures
            listed(r@).no_duplicates(),
            forall|i: int|
                0 <= i < r@.len() ==> {
                    &&& self.registered().groups.dom().contains((#[trigger] r@[i]).0)
                    &&& self.registered().groups[r@[i].0] == server_views(r@[i].1@)
                    &&& r@[i].1@.len() > 0
                },
            forall|k: ServiceKind| #[trigger]
                listed(r@).contains(k) <==> servers_behind(self.registered().groups, k).len() > 0,
    {
        let mut out: Vec<(ServiceKind, Vec<Server>)> = Vec::new();
        let mut i: usize = 0;
        while i < self.server_group.len()
            invariant
                self.wf(),
                i <= self.server_group@.len(),
                listed(out@).no_duplicates(),
                forall|j: int|
                    0 <= j < out@.len() ==> {
                        &&& self.registered().groups.dom().contains((#[trigger] out@[j]).0)
                        &&& self.registered().groups[out@[j].0] == server_views(out@[j].1@)
                        &&& out@[j].1@.len() > 0
                    },
                forall|k: ServiceKind| #[trigger]
                    listed(out@).contains(k) <==> group_kinds(
                        self.server_group@.take(i as int),
                    ).contains(k) && servers_behind(self.registered().groups, k).len() > 0,
            decreases self.server_group@.len() - i,
        {
            let group = &self.server_group[i];
            let ghost done = group_kinds(self.server_group@.take(i as int));
            let ghost more = group_kinds(self.server_group@.take(i + 1));
            let ghost listed_before = listed(out@);
            proof {
                Self::lemma_group_at(self.server_group@, i as int);
                assert(more =~= done.push(group.kind));
                lemma_push_contains(done, group.kind);
                if done.contains(group.kind) {
                    let j = done.index_of(group.kind);
                    assert(group_kinds(self.server_group@)[j] == group_kinds(
                        self.server_group@,
                    )[i as int]);
                }
            }
            if !group.is_empty() {
                out.push((group.kind, copy_servers(&group.servers)));
                proof {
                    assert(listed(out@) =~= listed_before.push(group.kind));
                    assert(!listed_before.contains(group.kind));
                    assert forall|a: int, b: int|
                        0 <= a < listed(out@).len() && 0 <= b < listed(out@).len() && a
                            != b implies listed(out@)[a] != listed(out@)[b] by {
                        if a < listed_before.len() {
                            assert(listed_before.contains(listed_before[a]));
                        }
                        if b < listed_before.len() {
                            assert(listed_before.contains(listed_before[b]));
                        }
                    }
                    lemma_push_contains(listed_before, group.kind);
                }
            }
            i += 1;
        }
        assert(self.server_group@.take(i as int) =~= self.server_group@);
        assert forall|k: ServiceKind| #[trigger]
            listed(out@).contains(k) <==> servers_behind(self.registered().groups, k).len() > 0 by {}
        out
    }
}

/// The services of a listing.
pub open spec fn listed<T>(list: Seq<(ServiceKind, T)>) -> Seq<ServiceKind> {
    list.map_values(|e: (ServiceKind, T)| e.0)
}

proof fn lemma_push_contains(kinds: Seq<ServiceKind>, last: ServiceKind)
    ensures
        forall|k: ServiceKind| #[trigger]
            kinds.push(last).contains(k) <==> kinds.contains(k) || k == last,
{
    assert forall|k: ServiceKind| #[trigger] kinds.push(last).contains(k) <==> kinds.contains(k) || k
        == last by {
        if kinds.contains(k) {
            let j = kinds.index_of(k);
            assert(kinds.push(last)[j] == k);
        }
        if k == last {
            assert(kinds.push(last)[kinds.len() as int] == k);
        }
        if kinds.push(last).contains(k) && k != last {
            let j = kinds.push(last).index_of(k);
            assert(kinds[j] == k);
        }
    }
}

/// A copy of a list of servers.
fn copy_servers(servers: &Vec<Server>) -> (r: Vec<Server>)
    ensures
        server_views(r@) == server_views(servers@),
        r@.len() == servers@.len(),
{
    let mut out: Vec<Server> = Vec::new();
    let mut i: usize = 0;
    while i < servers.len()
        invariant
            i <= servers@.len(),
            out@.len() == i,
            forall|j: int| 0 <= j < i ==> (#[trigger] out@[j])@ == servers@[j]@,
        decreases servers@.len() - i,
    {
        out.push(servers[i].copy());
        i += 1;
    }
    assert(server_views(out@) =~= server_views(servers@));
    out
}

/// Two passes of a filter are one.
pub proof fn lemma_filter_twice(
    servers: Seq<ServerView>,
    a: spec_fn(ServerView) -> bool,
    b: spec_fn(ServerView) -> bool,
    both: spec_fn(ServerView) -> bool,
)
    requires
        forall|s: ServerView| #[trigger] both(s) == (a(s) && b(s)),
    ensures
        servers.filter(a).filter(b) == servers.filter(both),
    decreases servers.len(),
{
    reveal(Seq::filter);
    if servers.len() > 0 {
        let rest = servers.drop_last();
        let last = servers.last();
        lemma_filter_twice(rest, a, b, both);
        assert(both(last) == (a(last) && b(last)));
        if a(last) {
            rest.filter(a).lemma_filter_push(last, b);
        }
    }
}

/// A filter that nothing fails keeps everything.
pub proof fn lemma_filter_all(servers: Seq<ServerView>, a: spec_fn(ServerView) -> bool)
    requires
        forall|i: int| 0 <= i < servers.len() ==> a(#[trigger] servers[i]),
    ensures
        servers.filter(a) == servers,
    decreases servers.len(),
{
    reveal(Seq::filter);
    if servers.len() > 0 {
        let rest = servers.drop_last();
        assert forall|i: int| 0 <= i < rest.len() implies a(#[trigger] rest[i]) by {
            assert(rest[i] == servers[i]);
        }
        lemma_filter_all(rest, a);
        assert(a(servers[servers.len() - 1]));
        assert(rest.push(servers.last()) =~= servers);
    }
}

/// What a filter keeps was there before.
proof fn lemma_filter_keeps(servers: Seq<ServerView>, a: spec_fn(ServerView) -> bool, i: int)
    requires
        0 <= i < servers.filter(a).len(),
    ensures
        servers.contains(servers.filter(a)[i]),
        a(servers.filter(a)[i]),
    decreases servers.len(),
{
    reveal(Seq::filter);
    if servers.len() > 0 {
        let rest = servers.drop_last();
        let kept = servers.filter(a)[i];
        if i < rest.filter(a).len() {
            lemma_filter_keeps(rest, a, i);
            let j = rest.index_of(kept);
            assert(servers[j] == kept);
        } else {
            assert(servers[servers.len() - 1] == kept);
        }
    }
}

/// A server that is taken out is gone from behind every service, and all others stay as they were.
pub proof fn law_unregistered_is_gone(r: Registered, id: Seq<char>)
    requires
        all_sound(r),
    ensures
        drop_server(r, id).groups.dom() == r.groups.dom(),
        forall|k: ServiceKind|
            r.groups.dom().contains(k) ==> #[trigger] drop_server(r, id).groups[k] == without_id(
                r.groups[k],
                id,
            ),
        all_sound(drop_server(r, id)),
{
    let after = drop_server(r, id);
    let pred = |s: ServerView| s.id != id;
    assert(after.groups.dom() =~= r.groups.dom());
    assert forall|k: ServiceKind| r.groups.dom().contains(k) implies #[trigger] after.groups[k]
        == without_id(r.groups[k], id) by {
        if !id_names(id, k) {
            assert forall|i: int| 0 <= i < r.groups[k].len() implies pred(
                #[trigger] r.groups[k][i],
            ) by {
                assert(r.groups[k][i].wf());
            }
            lemma_filter_all(r.groups[k], pred);
        }
    }
    assert forall|k: ServiceKind, i: int|
        #![trigger after.groups[k][i]]
        after.groups.dom().contains(k) && 0 <= i < after.groups[k].len() implies
        after.groups[k][i].wf() && after.groups[k][i].kind.has(k) by {
        assert(after.groups[k] == without_id(r.groups[k], id));
        lemma_filter_keeps(r.groups[k], pred, i);
        let j = r.groups[k].index_of(after.groups[k][i]);
        assert(r.groups[k][j].wf());
    }
}

/// A server that is registered is known by its id.
pub proof fn law_registered_is_known(r: Registered, kind: ServiceKind, i: int)
    requires
        all_sound(r),
        r.groups.dom().contains(kind),
        0 <= i < r.groups[kind].len(),
    ensures
        knows(r, r.groups[kind][i].id),
        id_readable(r.groups[kind][i].id),
{
    assert(r.groups[kind][i].wf());
    assert(id_names(r.groups[kind][i].id, kind));
}

/// Registering a server that is in order leaves every server in order.
pub proof fn law_registering_keeps_sound(r: Registered, server: ServerView)
    requires
        all_sound(r),
        server.wf(),
    ensures
        all_sound(add_server(r, server)),
{
    let after = add_server(r, server);
    assert forall|k: ServiceKind, i: int|
        #![trigger after.groups[k][i]]
        after.groups.dom().contains(k) && 0 <= i < after.groups[k].len() implies
        after.groups[k][i].wf() && after.groups[k][i].kind.has(k) by {
        if r.groups.dom().contains(k) && i < r.groups[k].len() {
            assert(after.groups[k][i] == r.groups[k][i]);
            assert(r.groups[k][i].wf());
        }
    }
}

/// A server of a new id that is registered and taken out again leaves behind every service what
/// stood there before.
pub proof fn law_unregistering_undoes(r: Registered, server: ServerView)
    requires
        server.wf(),
        forall|k: ServiceKind, i: int|
            #![trigger r.groups[k][i]]
            r.groups.dom().contains(k) && 0 <= i < r.groups[k].len() ==> r.groups[k][i].id
                != server.id,
    ensures
        knows(add_server(r, server), server.id),
        forall|k: ServiceKind| #[trigger]
            servers_behind(drop_server(add_server(r, server), server.id).groups, k)
                == servers_behind(r.groups, k),
        drop_server(add_server(r, server), server.id).models == r.models.remove(server.id),
        drop_server(add_server(r, server), server.id).info == r.info.remove(server.id),
{
    let added = add_server(r, server);
    let after = drop_server(added, server.id);
    let pred = |s: ServerView| s.id != server.id;
    let k0 = server.kind.list()[0];
    lemma_list_contains(server.kind, k0);
    assert(server.kind.list().contains(k0));
    assert(id_names(server.id, k0) && added.groups.dom().contains(k0));
    assert forall|k: ServiceKind| #[trigger] servers_behind(after.groups, k) == servers_behind(
        r.groups,
        k,
    ) by {
        let before = servers_behind(r.groups, k);
        lemma_filter_all(before, pred);
        if server.kind.has(k) {
            before.lemma_filter_push(server, pred);
        }
    }
}

/// A server that is registered stands last behind each service that it offers, whatever else it
/// offers; behind every other service, and in the tables, nothing changes.
pub proof fn law_registering_reaches_each_service(
    r: Registered,
    server: ServerView,
    kind: ServiceKind,
)
    ensures
        server.kind.has(kind) ==> {
            let after = add_server(r, server).groups;
            &&& after.dom().contains(kind)
            &&& after[kind].len() > 0
            &&& after[kind].last() == server
            &&& r.groups.dom().contains(kind) ==> after[kind].drop_last() == r.groups[kind]
            &&& !r.groups.dom().contains(kind) ==> after[kind].len() == 1
        },
        !server.kind.has(kind) ==> {
            let after = add_server(r, server).groups;
            &&& after.dom().contains(kind) == r.groups.dom().contains(kind)
            &&& r.groups.dom().contains(kind) ==> after[kind] == r.groups[kind]
        },
        add_server(r, server).models == r.models,
        add_server(r, server).info == r.info,
{
    let after = add_server(r, server).groups;
    if server.kind.has(kind) && r.groups.dom().contains(kind) {
        assert(after[kind].drop_last() =~= r.groups[kind]);
    }
}

/// What a state has registered is what its groups and tables hold: each group stands under its
/// service, and each entry of a table under its key.
pub proof fn law_what_is_registered(state: AppState, kind: ServiceKind, id: Seq<char>)
    requires
        state.wf(),
    ensures
        state.registered().groups.dom().contains(kind) <==> exists|i: int|
            0 <= i < state.server_group@.len() && (#[trigger] state.server_group@[i]).kind == kind,
        forall|i: int|
            0 <= i < state.server_group@.len() && (#[trigger] state.server_group@[i]).kind == kind
                ==> state.registered().groups[kind] == state.server_group@[i]@,
        state.registered().models.dom().contains(id) == state.models@.dom().contains(id),
        state.models@.dom().contains(id) ==> {
            let models = state.registered().models[id];
            &&& models.len() == state.models@[id]@.len()
            &&& forall|i: int|
                0 <= i < models.len() ==> {
                    let model = state.models@[id]@[i];
                    &&& (#[trigger] models[i]).id == model.id@
                    &&& models[i].created == model.created
                    &&& models[i].object == model.object@
                    &&& models[i].owned_by == model.owned_by@
                }
        },
        state.registered().info.dom().contains(id) == state.server_info.servers@.dom().contains(id),
        state.server_info.servers@.dom().contains(id) ==> state.registered().info[id]
            == state.server_info.servers@[id]@,
{
    let groups = state.server_group@;
    let kinds = group_kinds(groups);
    if kinds.contains(kind) {
        let i = kinds.index_of(kind);
        assert(groups[i].kind == kind);
    }
    assert forall|i: int| 0 <= i < groups.len() && (#[trigger] groups[i]).kind == kind implies
        state.registered().groups[kind] == groups[i]@ && state.registered().groups.dom().contains(
        kind,
    ) by {
        AppState::lemma_group_at(groups, i);
    }
}

/// A server that is taken out leaves the services that its id names, and no other; the other
/// servers behind those keep their order; of the tables only what is kept of the id goes.
pub proof fn law_unregistering_reaches_what_the_id_names(
    r: Registered,
    id: Seq<char>,
    kind: ServiceKind,
    other: Seq<char>,
)
    ensures
        knows(r, id) <==> exists|k: ServiceKind| #[trigger]
            id_kinds(id).contains(Some(k)) && r.groups.dom().contains(k),
        drop_server(r, id).groups.dom().contains(kind) == r.groups.dom().contains(kind),
        r.groups.dom().contains(kind) && !id_kinds(id).contains(Some(kind)) ==> drop_server(
            r,
            id,
        ).groups[kind] == r.groups[kind],
        r.groups.dom().contains(kind) && id_kinds(id).contains(Some(kind)) ==> drop_server(
            r,
            id,
        ).groups[kind] == r.groups[kind].filter(|s: ServerView| s.id != id),
        drop_server(r, id).models.dom().contains(other) <==> r.models.dom().contains(other) && other
            != id,
        drop_server(r, id).models.dom().contains(other) ==> drop_server(r, id).models[other]
            == r.models[other],
        drop_server(r, id).info.dom().contains(other) <==> r.info.dom().contains(other) && other
            != id,
        drop_server(r, id).info.dom().contains(other) ==> drop_server(r, id).info[other]
            == r.info[other],
{
    if knows(r, id) {
        let k = choose|k: ServiceKind| #[trigger] id_names(id, k) && r.groups.dom().contains(k);
        assert(id_kinds(id).contains(Some(k)) && r.groups.dom().contains(k));
    }
    if exists|k: ServiceKind| #[trigger]
        id_kinds(id).contains(Some(k)) && r.groups.dom().contains(k) {
        let k = choose|k: ServiceKind| #[trigger]
            id_kinds(id).contains(Some(k)) && r.groups.dom().contains(k);
        assert(id_names(id, k) && r.groups.dom().contains(k));
    }
}

/// Ids are taken out one after another, up to the first that is not known, which is named; what was
/// taken out before it stays out.
pub proof fn law_dropping_one_by_one(r: Registered, id: Seq<char>, rest: Seq<Seq<char>>)
    ensures
        drop_all(r, seq![]).0 == r && drop_all(r, seq![]).1 is None,
        !knows(r, id) ==> drop_all(r, seq![id] + rest).0 == r && drop_all(r, seq![id] + rest).1
            == Some(id),
        knows(r, id) ==> drop_all(r, seq![id] + rest) == drop_all(drop_server(r, id), rest),
        not_found(id) == ErrorView::Operation("Server "@ + id + " not found"@),
{
    assert((seq![id] + rest).drop_first() =~= rest);
}

/// A listing is read entry by entry, and a service without a group has no servers behind it.
pub proof fn law_listing_entry_by_entry(
    list: Seq<(ServiceKind, Vec<Server>)>,
    groups: Map<ServiceKind, Seq<ServerView>>,
    kind: ServiceKind,
    servers: Seq<Server>,
    i: int,
)
    ensures
        listed(list).len() == list.len(),
        0 <= i < list.len() ==> listed(list)[i] == list[i].0,
        groups.dom().contains(kind) ==> servers_behind(groups, kind) == groups[kind],
        !groups.dom().contains(kind) ==> servers_behind(groups, kind).len() == 0,
        server_views(servers).len() == servers.len(),
        0 <= i < servers.len() ==> server_views(servers)[i] == servers[i]@,
{
}

/// Two states that are the same aside of their servers have the same settings and the same record
/// of conversations.
pub proof fn law_what_stays_aside(a: AppState, b: AppState)
    requires
        a.same_aside(&b),
    ensures
        a.config == b.config,
        a.chat_storage == b.chat_storage,
{
}

} // verus!
