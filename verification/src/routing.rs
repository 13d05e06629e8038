//! Which model and which server a conversation goes to.
use vstd::prelude::*;

use crate::error::{operation, ErrorView, ServerError};
use crate::server::{kind_name, Server, ServerView, ServiceKind};
use crate::state::{group_kinds, group_map, model_views, AppState, Model, ModelView};
use crate::text::text_of;

verus! {

/// The first model of the first list that has one.
pub open spec fn first_model(lists: Seq<Seq<ModelView>>) -> Option<ModelView>
    decreases lists.len(),
{
    if lists.len() == 0 {
        None
    } else if lists[0].len() > 0 {
        Some(lists[0][0])
    } else {
        first_model(lists.drop_first())
    }
}

/// The first model is one of those in the lists; there is none only where all lists are empty.
pub proof fn law_first_model_is_offered(lists: Seq<Seq<ModelView>>)
    ensures
        match first_model(lists) {
            Some(model) => exists|i: int|
                0 <= i < lists.len() && (#[trigger] lists[i]).contains(model),
            None => forall|i: int| 0 <= i < lists.len() ==> (#[trigger] lists[i]).len() == 0,
        },
    decreases lists.len(),
{
    if lists.len() > 0 {
        if lists[0].len() > 0 {
            assert(lists[0].contains(lists[0][0]));
        } else {
            let rest = lists.drop_first();
            law_first_model_is_offered(rest);
            match first_model(lists) {
                Some(model) => {
                    let i = choose|i: int|
                        0 <= i < rest.len() && (#[trigger] rest[i]).contains(model);
                    assert(lists[i + 1].contains(model));
                },
                None => {
                    assert forall|i: int| 0 <= i < lists.len() implies (
                    #[trigger] lists[i]).len() == 0 by {
                        if i > 0 {
                            assert(rest[i - 1].len() == 0);
                        }
                    }
                },
            }
        }
    }
}

/// The lists of models with their texts.
pub open spec fn list_views(lists: Seq<Vec<Model>>) -> Seq<Seq<ModelView>> {
    lists.map_values(|list: Vec<Model>| model_views(list@))
}

/// The model that a conversation goes to: the one that was asked for, or else the first that is
/// registered.
pub open spec fn chosen_model(
    asked: Option<Seq<char>>,
    lists: Seq<Seq<ModelView>>,
) -> Result<Seq<char>, ErrorView> {
    match asked {
        Some(model) => Ok(model),
        None => match first_model(lists) {
            Some(model) => Ok(model.id),
            None => Err(ErrorView::Operation("No chat model registered"@)),
        },
    }
}

/// The server that a conversation goes to, where the chat servers are `group`, if there is such a
/// group, and it is the turn of the one at `turn`.
pub open spec fn chosen_server(group: Option<Seq<ServerView>>, turn: int) -> Result<
    ServerView,
    ErrorView,
> {
    match group {
        None => Err(ErrorView::Operation("No chat server available"@)),
        Some(servers) => if servers.len() == 0 {
            Err(
                ErrorView::Operation(
                    "Failed to acquire chat server: no server registered for "@ + kind_name(
                        ServiceKind::Chat,
                    ),
                ),
            )
        } else {
            Ok(servers[turn])
        },
    }
}

impl AppState {
    /// The chat servers, where there is a group of them.
    pub open spec fn chat_group(&self) -> Option<Seq<ServerView>> {
        if self.registered().groups.dom().contains(ServiceKind::Chat) {
            Some(self.registered().groups[ServiceKind::Chat])
        } else {
            None
        }
    }

    /// The position of the chat server whose turn it is.
    pub open spec fn chat_turn(&self) -> int {
        self.server_group@[group_kinds(self.server_group@).index_of(ServiceKind::Chat)].turn()
    }

    /// The two states differ at most in whose turn it is among the chat servers.
    pub open spec fn same_but_for_chat_turn(&self, other: &AppState) -> bool {
        &&& self.same_aside(other)
        &&& self.registered() == other.registered()
        &&& self.models == other.models
        &&& self.server_info == other.server_info
        &&& self.server_group@.len() == other.server_group@.len()
        &&& forall|i: int|
            0 <= i < self.server_group@.len() && other.server_group@[i].kind != ServiceKind::Chat
                ==> #[trigger] self.server_group@[i] == other.server_group@[i]
    }

    /// The model that a conversation goes to.
    pub fn choose_model(&self, asked: &Option<String>) -> (r: Result<String, ServerError>)
        ensures
            match r {
                Ok(model) => chosen_model(text_of(*asked), list_views(self.models.values()))
                    == Ok::<Seq<char>, ErrorView>(model@),
                Err(e) => chosen_model(text_of(*asked), list_views(self.models.values())) == Err::<
                    Seq<char>,
                    ErrorView,
                >(e@),
            },
    {
        match asked {
            Some(model) => Ok(model.clone()),
            None => {
                let ghost lists = list_views(self.models.values());
                let mut i: usize = 0;
                assert(lists.skip(0) =~= lists);
                while i < self.models.len()
                    invariant
                        asked is None,
                        lists == list_views(self.models.values()),
                        i <= lists.len(),
                        first_model(lists) == first_model(lists.skip(i as int)),
                    decreases lists.len() - i,
                {
                    let list = self.models.value_at(i);
                    assert(lists.skip(i as int)[0] == model_views(list@));
                    assert(lists.skip(i as int).drop_first() =~= lists.skip(i + 1));
                    if list.len() > 0 {
                        assert(model_views(list@)[0] == list@[0]@);
                        return Ok(list[0].id.clone());
                    }
                    i += 1;
                }
                Err(ServerError::Operation("No chat model registered".to_owned()))
            },
        }
    }

    /// The chat server whose turn it is; the turn moves on to the one after it.
    pub fn acquire_chat_server(&mut self) -> (r: Result<Server, ServerError>)
        requires
            old(self).wf(),
        ensures
            final(self).wf(),
            final(self).same_but_for_chat_turn(old(self)),
            match r {
                Ok(server) => {
                    &&& chosen_server(old(self).chat_group(), old(self).chat_turn()) == Ok::<
                        ServerView,
                        ErrorView,
                    >(server@)
                    &&& final(self).chat_turn() == (old(self).chat_turn() + 1) % (
                    old(self).chat_group()->0.len() as int)
                },
                Err(e) => chosen_server(old(self).chat_group(), old(self).chat_turn()) == Err::<
                    ServerView,
                    ErrorView,
                >(e@),
            },
    {
        match self.find_group(ServiceKind::Chat) {
            None => Err(ServerError::Operation("No chat server available".to_owned())),
            Some(i) => {
                let next = self.server_group[i].next();
                proof {
                    let before = old(self).server_group@;
                    let after = self.server_group@;
                    AppState::lemma_group_put(before, after, i as int);
                    assert(group_map(after) =~= group_map(before));
                    let at = group_kinds(before).index_of(ServiceKind::Chat);
                    assert(group_kinds(before)[i as int] == ServiceKind::Chat);
                    assert(group_kinds(before)[at] == ServiceKind::Chat);
                    assert(self.registered() =~= old(self).registered());
                }
                match next {
                    Ok(server) => Ok(server),
                    Err(e) => {
                        let failed = operation(
                            "Failed to acquire chat server: ",
                            e.message().as_str(),
                        );
                        proof {
                            lemma_acquire_message(kind_name(ServiceKind::Chat));
                        }
                        Err(failed)
                    },
                }
            },
        }
    }
}

/// The two introductions of a failure are one.
proof fn lemma_acquire_message(kind: Seq<char>)
    ensures
        "Failed to acquire chat server: "@ + ("no server registered for "@ + kind)
            == "Failed to acquire chat server: no server registered for "@ + kind,
{
    reveal_strlit("Failed to acquire chat server: ");
    reveal_strlit("no server registered for ");
    reveal_strlit("Failed to acquire chat server: no server registered for ");
    assert("Failed to acquire chat server: "@ + "no server registered for "@
        =~= "Failed to acquire chat server: no server registered for "@);
    assert("Failed to acquire chat server: "@ + ("no server registered for "@ + kind) =~= (
    "Failed to acquire chat server: "@ + "no server registered for "@) + kind);
}

/// The lists are looked through in order, and the first model of the first that is not empty is
/// taken.
pub proof fn law_first_model_list_by_list(first: Seq<ModelView>, rest: Seq<Seq<ModelView>>)
    ensures
        first_model(seq![]) is None,
        first.len() > 0 ==> first_model(seq![first] + rest) == Some(first[0]),
        first.len() == 0 ==> first_model(seq![first] + rest) == first_model(rest),
{
    assert((seq![first] + rest).drop_first() =~= rest);
}

/// A model that was asked for is used as it is; else the first that is registered is, by its id; and
/// where none is registered, that is said.
pub proof fn law_model_of_a_conversation(
    asked: Seq<char>,
    lists: Seq<Seq<ModelView>>,
    servers: Seq<ServerView>,
    turn: int,
)
    ensures
        chosen_model(Some(asked), lists) == Ok::<Seq<char>, ErrorView>(asked),
        forall|i: int|
            0 <= i < lists.len() && (#[trigger] lists[i]).len() > 0 && (forall|j: int|
                0 <= j < i ==> (#[trigger] lists[j]).len() == 0) ==> chosen_model(None, lists)
                == Ok::<Seq<char>, ErrorView>(lists[i][0].id),
        (forall|i: int| 0 <= i < lists.len() ==> (#[trigger] lists[i]).len() == 0) ==> chosen_model(
            None,
            lists,
        ) == Err::<Seq<char>, ErrorView>(ErrorView::Operation("No chat model registered"@)),
        chosen_server(None, turn) == Err::<ServerView, ErrorView>(
            ErrorView::Operation("No chat server available"@),
        ),
        servers.len() == 0 ==> chosen_server(Some(servers), turn) == Err::<ServerView, ErrorView>(
            ErrorView::Operation(
                "Failed to acquire chat server: no server registered for "@ + "chat"@,
            ),
        ),
        0 <= turn < servers.len() ==> chosen_server(Some(servers), turn) == Ok::<
            ServerView,
            ErrorView,
        >(servers[turn]),
{
    assert forall|i: int|
        0 <= i < lists.len() && (#[trigger] lists[i]).len() > 0 && (forall|j: int|
            0 <= j < i ==> (#[trigger] lists[j]).len() == 0) implies first_model(lists) == Some(
        lists[i][0],
    ) by {
        lemma_first_model_at(lists, i);
    }
    law_first_model_is_offered(lists);
    if forall|i: int| 0 <= i < lists.len() ==> (#[trigger] lists[i]).len() == 0 {
        assert(first_model(lists) is None);
    }
}

proof fn lemma_first_model_at(lists: Seq<Seq<ModelView>>, i: int)
    requires
        0 <= i < lists.len(),
        lists[i].len() > 0,
        forall|j: int| 0 <= j < i ==> (#[trigger] lists[j]).len() == 0,
    ensures
        first_model(lists) == Some(lists[i][0]),
    decreases i,
{
    if i > 0 {
        let rest = lists.drop_first();
        assert(lists[0].len() == 0);
        assert forall|j: int| 0 <= j < i - 1 implies (#[trigger] rest[j]).len() == 0 by {
            assert(lists[j + 1].len() == 0);
        }
        lemma_first_model_at(rest, i - 1);
    }
}

/// The chat servers of a state are the servers of its group for chats, and the turn among them is
/// where the cursor of that group stands, or at the first once it has passed the last.
pub proof fn law_turn_of_the_chat_servers(state: AppState, i: int)
    requires
        state.wf(),
        0 <= i < state.server_group@.len(),
        state.server_group@[i].kind == ServiceKind::Chat,
    ensures
        state.chat_group() == Some(state.server_group@[i]@),
        state.server_group@[i].cursor < state.server_group@[i].servers@.len() ==> state.chat_turn()
            == state.server_group@[i].cursor,
        state.server_group@[i].cursor >= state.server_group@[i].servers@.len()
            ==> state.chat_turn() == 0,
{
    AppState::lemma_group_at(state.server_group@, i);
    let kinds = group_kinds(state.server_group@);
    let at = kinds.index_of(ServiceKind::Chat);
    assert(kinds[i] == ServiceKind::Chat);
    assert(kinds[at] == kinds[i]);
}

/// The lists of models hold the ids of the models, one by one.
pub proof fn law_lists_one_by_one(lists: Seq<Vec<Model>>, i: int, k: int)
    requires
        0 <= i < lists.len(),
    ensures
        list_views(lists).len() == lists.len(),
        list_views(lists)[i].len() == lists[i]@.len(),
        0 <= k < lists[i]@.len() ==> list_views(lists)[i][k].id == lists[i]@[k].id@,
{
}

} // verus!
