//! Models that the settings name: the servers behind them are registered at the start.
use vstd::prelude::*;

use crate::clock::{fresh_uuid, is_uuid_text, utc_now, Timestamp};
use crate::config::InlineModelConfig;
use crate::server::{
    kind_name, kind_named, kind_names, law_id_names_services, law_only_one_service,
    lemma_list_contains, server_id, Server, ServerKind, ServerView, ServiceKind,
};
use crate::state::{
    add_server, all_sound, law_registering_keeps_sound, law_registering_reaches_each_service,
    lemma_turns_kept_twice, model_views, offered, turns_kept, AppState, Model, ModelView,
    Registered,
};
use crate::text::{starts_with, text_of};

verus! {

/// A key with the word in front of it that the authorization header asks for.
pub open spec fn bearer(key: Seq<char>) -> Seq<char> {
    if "Bearer "@.is_prefix_of(key) {
        key
    } else {
        "Bearer "@ + key
    }
}

/// A key with the word in front of it that the authorization header asks for.
pub fn bearer_key(key: &str) -> (r: String)
    ensures
        r@ == bearer(key@),
{
    if starts_with(key, "Bearer ") {
        key.to_owned()
    } else {
        let mut out: String = "Bearer ".to_owned();
        out.append(key);
        out
    }
}

/// The word stands in front of the key, and it is not put there twice.
pub proof fn law_bearer_stands_once(key: Seq<char>)
    ensures
        "Bearer "@.is_prefix_of(bearer(key)),
        bearer(bearer(key)) == bearer(key),
{
    assert(("Bearer "@ + key).subrange(0, "Bearer "@.len() as int) =~= "Bearer "@);
}

/// The server behind a model of the settings that offers `kind`.
pub open spec fn inline_server(
    model: InlineModelConfig,
    kind: ServiceKind,
    unique: Seq<char>,
) -> ServerView {
    ServerView {
        id: server_id(ServerKind::only(kind), unique),
        url: model.url@,
        kind: ServerKind::only(kind),
        api_key: match model.api_key {
            Some(key) => Some(bearer(key@)),
            None => None,
        },
    }
}

/// What the table of models says of the server behind a model of the settings.
pub open spec fn inline_entry(model: InlineModelConfig, seconds: i64) -> Seq<ModelView> {
    seq![
        ModelView {
            id: model.id@,
            created: seconds as u64,
            object: "model"@,
            owned_by: "inline"@,
        },
    ]
}

/// The server behind a model of the settings is registered, and the model is entered for it; a
/// model of an unknown kind is passed over.
pub open spec fn add_inline(
    r: Registered,
    model: InlineModelConfig,
    unique: Seq<char>,
    seconds: i64,
) -> Registered {
    match kind_named(model.kind@) {
        None => r,
        Some(kind) => {
            let server = inline_server(model, kind, unique);
            let added = add_server(r, server);
            Registered {
                models: added.models.insert(server.id, inline_entry(model, seconds)),
                ..added
            }
        },
    }
}

/// The models are added one after another, each under the identifier and at the time that stand at
/// its place.
pub open spec fn add_all_inline(
    r: Registered,
    models: Seq<InlineModelConfig>,
    uniques: Seq<Seq<char>>,
    times: Seq<i64>,
) -> Registered
    decreases models.len(),
{
    if models.len() == 0 {
        r
    } else {
        add_inline(
            add_all_inline(r, models.drop_last(), uniques.drop_last(), times.drop_last()),
            models.last(),
            uniques.last(),
            times.last(),
        )
    }
}

impl InlineModelConfig {
    /// A copy of the settings.
    pub fn copy(&self) -> (r: InlineModelConfig)
        ensures
            r == *self,
    {
        InlineModelConfig {
            id: self.id.clone(),
            kind: self.kind.clone(),
            url: self.url.clone(),
            api_key: match &self.api_key {
                Some(key) => Some(key.clone()),
                None => None,
            },
        }
    }
}

impl AppState {
    /// Registers the server behind a model of the settings and enters the model for it. The result
    /// is the id of the server, or `None` where the kind of the model is unknown.
    pub fn register_inline_model(
        &mut self,
        model: &InlineModelConfig,
        unique: &str,
        now: Timestamp,
    ) -> (r: Option<String>)
        requires
            old(self).wf(),
        ensures
            final(self).wf(),
            final(self).same_aside(old(self)),
            final(self).registered() == add_inline(
                old(self).registered(),
                *model,
                unique@,
                now.seconds,
            ),
            text_of(r) == match kind_named(model.kind@) {
                Some(kind) => Some(inline_server(*model, kind, unique@).id),
                None => None,
            },
            kind_named(model.kind@) matches Some(kind) ==> {
                let servers = final(self).registered().groups[kind];
                let id = kind_name(kind) + "-server-"@ + unique@;
                &&& final(self).registered().groups.dom().contains(kind)
                &&& servers.len() > 0
                &&& servers.last().url == model.url@
                &&& servers.last().id == id
                &&& text_of(r) == Some(id)
                &&& final(self).registered().models.dom().contains(id)
                &&& final(self).registered().models[id].len() == 1
                &&& final(self).registered().models[id][0].id == model.id@
            },
            kind_named(model.kind@) is None ==> r is None && final(self).registered() == old(
                self,
            ).registered(),
            turns_kept(
                old(self).server_group@,
                final(self).server_group@,
                match kind_named(model.kind@) {
                    Some(kind) => offered(ServerKind::only(kind)),
                    None => Set::empty(),
                },
            ),
    {
        proof {
            if let Some(kind) = kind_named(model.kind@) {
                law_inline_model_as_it_is_written(
                    self.registered(),
                    *model,
                    kind,
                    kind,
                    unique@,
                    now.seconds,
                );
            }
        }
        let kind = match ServerKind::from_str(model.kind.as_str()) {
            Some(kind) => kind,
            None => {
                return None;
            },
        };
        let api_key: Option<String> = match &model.api_key {
            Some(key) => Some(bearer_key(key.as_str())),
            None => None,
        };
        let server = Server::new(kind, model.url.clone(), api_key, unique);
        let id = server.id.clone();
        let ghost view = server@;
        self.register_downstream_server(server);
        let entry = Model {
            id: model.id.clone(),
            created: now.seconds as u64,
            object: "model".to_owned(),
            owned_by: "inline".to_owned(),
        };
        let mut entries: Vec<Model> = Vec::new();
        entries.push(entry);
        let ghost added = self.registered();
        assert(model_views(entries@) =~= inline_entry(*model, now.seconds));
        self.models.insert(id.clone(), entries);
        assert(self.registered().models =~= added.models.insert(
            view.id,
            inline_entry(*model, now.seconds),
        ));
        Some(id)
    }

    /// Registers the servers behind all models of the settings, each under an identifier of its
    /// own. Which identifiers those are, and the times of the entries, is left open.
    pub fn register_inline_models(&mut self)
        requires
            old(self).wf(),
        ensures
            final(self).wf(),
            final(self).same_aside(old(self)),
            exists|uniques: Seq<Seq<char>>, times: Seq<i64>|
                uniques.len() == old(self).config.models@.len() && times.len() == old(
                    self,
                ).config.models@.len() && (forall|i: int|
                    0 <= i < uniques.len() ==> is_uuid_text(#[trigger] uniques[i]))
                    && final(self).registered() == #[trigger] add_all_inline(
                    old(self).registered(),
                    old(self).config.models@,
                    uniques,
                    times,
                ),
            turns_kept(
                old(self).server_group@,
                final(self).server_group@,
                Set::<ServiceKind>::full(),
            ),
    {
        let ghost full = Set::<ServiceKind>::full();
        let mut i: usize = 0;
        let ghost mut uniques: Seq<Seq<char>> = seq![];
        let ghost mut times: Seq<i64> = seq![];
        let ghost models = self.config.models@;
        assert(models.take(0) =~= seq![]);
        while i < self.config.models.len()
            invariant
                self.wf(),
                self.same_aside(old(self)),
                models == self.config.models@,
                i <= models.len(),
                full == Set::<ServiceKind>::full(),
                turns_kept(old(self).server_group@, self.server_group@, full),
                uniques.len() == i,
                times.len() == i,
                forall|j: int| 0 <= j < i ==> is_uuid_text(#[trigger] uniques[j]),
                self.registered() == add_all_inline(
                    old(self).registered(),
                    models.take(i as int),
                    uniques,
                    times,
                ),
            decreases models.len() - i,
        {
            let model = self.config.models[i].copy();
            let unique = fresh_uuid();
            let now = utc_now();
            let ghost before = self.server_group@;
            let _ = self.register_inline_model(&model, unique.as_str(), now);
            proof {
                let touched = match kind_named(model.kind@) {
                    Some(kind) => offered(ServerKind::only(kind)),
                    None => Set::empty(),
                };
                lemma_turns_kept_twice(
                    old(self).server_group@,
                    before,
                    self.server_group@,
                    full,
                    touched,
                    full,
                );
                let more_uniques = uniques.push(unique@);
                let more_times = times.push(now.seconds);
                assert(models.take(i + 1).drop_last() =~= models.take(i as int));
                assert(more_uniques.drop_last() =~= uniques);
                assert(more_times.drop_last() =~= times);
                uniques = more_uniques;
                times = more_times;
            }
            i += 1;
        }
        assert(models.take(i as int) =~= models);
    }
}

/// Adding models from the settings leaves every server in order.
pub proof fn law_inline_models_are_sound(
    r: Registered,
    models: Seq<InlineModelConfig>,
    uniques: Seq<Seq<char>>,
    times: Seq<i64>,
)
    requires
        all_sound(r),
    ensures
        all_sound(add_all_inline(r, models, uniques, times)),
    decreases models.len(),
{
    if models.len() > 0 {
        law_inline_models_are_sound(
            r,
            models.drop_last(),
            uniques.drop_last(),
            times.drop_last(),
        );
        let before = add_all_inline(r, models.drop_last(), uniques.drop_last(), times.drop_last());
        match kind_named(models.last().kind@) {
            None => {},
            Some(kind) => {
                let server = inline_server(models.last(), kind, uniques.last());
                let offered = ServerKind::only(kind);
                lemma_list_contains(offered, kind);
                law_id_names_services(offered, uniques.last());
                law_registering_keeps_sound(before, server);
                let after = add_all_inline(r, models, uniques, times);
                assert(after.groups == add_server(before, server).groups);
            },
        }
    }
}

/// Each model of the settings whose kind is known ends up in the table of models under the id of
/// its server, and that server stands behind the service: so long as no identifier was given out
/// twice.
pub proof fn law_inline_models_are_offered(
    r: Registered,
    models: Seq<InlineModelConfig>,
    uniques: Seq<Seq<char>>,
    times: Seq<i64>,
    i: int,
    kind: ServiceKind,
)
    requires
        uniques.len() == models.len(),
        times.len() == models.len(),
        forall|j: int| 0 <= j < uniques.len() ==> is_uuid_text(#[trigger] uniques[j]),
        uniques.no_duplicates(),
        0 <= i < models.len(),
        kind_named(models[i].kind@) == Some(kind),
    ensures
        ({
            let after = add_all_inline(r, models, uniques, times);
            let server = inline_server(models[i], kind, uniques[i]);
            &&& after.models.dom().contains(server.id)
            &&& after.models[server.id] == inline_entry(models[i], times[i])
            &&& after.groups.dom().contains(kind)
            &&& after.groups[kind].contains(server)
        }),
    decreases models.len(),
{
    let n = models.len() - 1;
    let before = add_all_inline(r, models.drop_last(), uniques.drop_last(), times.drop_last());
    let after = add_all_inline(r, models, uniques, times);
    let server = inline_server(models[i], kind, uniques[i]);
    if i == n {
        let behind = after.groups[kind];
        assert(behind[behind.len() - 1] == server);
    } else {
        assert forall|a: int, b: int|
            0 <= a < n && 0 <= b < n && a != b implies uniques.drop_last()[a]
            != uniques.drop_last()[b] by {
            assert(uniques[a] != uniques[b]);
        }
        law_inline_models_are_offered(
            r,
            models.drop_last(),
            uniques.drop_last(),
            times.drop_last(),
            i,
            kind,
        );
        let at = before.groups[kind].index_of(server);
        match kind_named(models[n].kind@) {
            None => {},
            Some(other) => {
                let last = inline_server(models[n], other, uniques[n]);
                assert(uniques[i] != uniques[n]);
                lemma_ids_differ(kind, uniques[i], other, uniques[n]);
                assert(after.groups[kind][at] == server);
            },
        }
    }
}

/// Servers with different identifiers of one length have different ids.
proof fn lemma_ids_differ(a: ServiceKind, u: Seq<char>, b: ServiceKind, w: Seq<char>)
    requires
        u.len() == w.len(),
        u != w,
    ensures
        server_id(ServerKind::only(a), u) != server_id(ServerKind::only(b), w),
{
    let x = server_id(ServerKind::only(a), u);
    let y = server_id(ServerKind::only(b), w);
    if x == y {
        assert(x.skip(x.len() - u.len()) =~= u);
        assert(y.skip(y.len() - w.len()) =~= w);
    }
}

/// A key that has the word in front is used as it is; any other gets the word and nothing else.
pub proof fn law_bearer_adds_the_word_only(key: Seq<char>)
    ensures
        "Bearer "@.is_prefix_of(key) ==> bearer(key) == key,
        !"Bearer "@.is_prefix_of(key) ==> bearer(key) == "Bearer "@ + key,
{
}

/// A model of the settings whose kind is known is registered as it is written: behind the service
/// of its kind stands last a server with its url, which offers that service alone, whose id names
/// it, and whose key is the one of the settings with the word in front; the table has under that id
/// the model, made at that time. Behind the other services nothing changes.
pub proof fn law_inline_model_as_it_is_written(
    r: Registered,
    model: InlineModelConfig,
    kind: ServiceKind,
    other: ServiceKind,
    unique: Seq<char>,
    seconds: i64,
)
    requires
        kind_named(model.kind@) == Some(kind),
    ensures
        ({
            let after = add_inline(r, model, unique, seconds);
            let id = kind_name(kind) + "-server-"@ + unique;
            let servers = after.groups[kind];
            &&& after.groups.dom().contains(kind)
            &&& servers.len() > 0
            &&& servers.last().url == model.url@
            &&& servers.last().id == id
            &&& servers.last().kind.has(other) == (other == kind)
            &&& model.api_key is None ==> servers.last().api_key is None
            &&& model.api_key matches Some(key) ==> servers.last().api_key == Some(
                if "Bearer "@.is_prefix_of(key@) {
                    key@
                } else {
                    "Bearer "@ + key@
                },
            )
            &&& r.groups.dom().contains(kind) ==> servers.drop_last() == r.groups[kind]
            &&& !r.groups.dom().contains(kind) ==> servers.len() == 1
            &&& other != kind ==> after.groups.dom().contains(other) == r.groups.dom().contains(
                other,
            )
            &&& other != kind && r.groups.dom().contains(other) ==> after.groups[other]
                == r.groups[other]
            &&& after.models.dom() == r.models.dom().insert(id)
            &&& after.models[id].len() == 1
            &&& after.models[id][0].id == model.id@
            &&& after.models[id][0].created == seconds as u64
            &&& after.models[id][0].object == "model"@
            &&& after.models[id][0].owned_by == "inline"@
            &&& forall|known: Seq<char>|
                known != id && r.models.dom().contains(known) ==> #[trigger] after.models[known]
                    == r.models[known]
            &&& after.info == r.info
        }),
{
    let server = inline_server(model, kind, unique);
    law_only_one_service(kind, kind);
    law_only_one_service(kind, other);
    law_registering_reaches_each_service(r, server, kind);
    law_registering_reaches_each_service(r, server, other);
    assert(kind_names(seq![kind]) =~= seq![kind_name(kind)]);
    let after = add_inline(r, model, unique, seconds);
    assert(after.models.dom() =~= r.models.dom().insert(server.id));
}

/// A model of a kind that is not known is passed over, and the models are taken in order.
pub proof fn law_inline_models_one_by_one(
    r: Registered,
    models: Seq<InlineModelConfig>,
    uniques: Seq<Seq<char>>,
    times: Seq<i64>,
    model: InlineModelConfig,
    unique: Seq<char>,
    seconds: i64,
)
    ensures
        kind_named(model.kind@) is None ==> add_inline(r, model, unique, seconds) == r,
        add_all_inline(r, seq![], uniques, times) == r,
        add_all_inline(r, models.push(model), uniques.push(unique), times.push(seconds))
            == add_inline(add_all_inline(r, models, uniques, times), model, unique, seconds),
{
    assert(models.push(model).drop_last() =~= models);
    assert(uniques.push(unique).drop_last() =~= uniques);
    assert(times.push(seconds).drop_last() =~= times);
}

} // verus!
