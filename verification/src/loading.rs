//! What a whole load of the settings comes to, whatever the tool servers answer on the way.
use vstd::prelude::*;

use crate::config::{
    has_advanced, has_begun, law_loading_passes_over_disabled, Config, ConfigLoad,
    LoadView,
};
use crate::mcp::{
    law_entering_a_server, law_tools_are_kept_as_listed, opening, progress, tool_names, ConnectionView, EventView,
    McpPhase, McpRegistry, McpTool, McpToolServerConfig, SettingsView,
};
use crate::text::{text_of, texts};

verus! {

/// The states, the registries and the replies of a load, one more than there are events: the first
/// are those that the load of `config` begins with, and each event leads from one to the next.
pub open spec fn is_load(
    config: Config,
    loads: Seq<ConfigLoad>,
    registries: Seq<McpRegistry>,
    events: Seq<EventView>,
    replies: Seq<LoadView>,
) -> bool {
    &&& loads.len() == events.len() + 1
    &&& registries.len() == events.len() + 1
    &&& replies.len() == events.len() + 1
    &&& has_begun(config, loads[0], replies[0])
    &&& forall|t: int|
        0 <= t < events.len() ==> has_advanced(
            loads[t],
            registries[t],
            #[trigger] events[t],
            loads[t + 1],
            registries[t + 1],
            replies[t + 1],
        )
}

/// The connection is the one that the settings open, however far it has come.
pub open spec fn belongs_to(c: ConnectionView, s: SettingsView) -> bool {
    opening(s) is Ok && c == (ConnectionView { phase: c.phase, ..opening(s)->Ok_0.0 })
}

/// The tools that `event` brings to the connection of the server at `i`, where that has asked for
/// them.
pub open spec fn listed_tools(load: ConfigLoad, event: EventView, i: int) -> Option<Seq<McpTool>> {
    match (load.connection, event) {
        (Some(c), EventView::Tools(tools)) => if load.index == i && c.phase == McpPhase::Tools {
            Some(tools)
        } else {
            None
        },
        _ => None,
    }
}

/// With one of the first `n` events the connection of the server at `i` listed `tools`.
pub open spec fn has_listed(
    loads: Seq<ConfigLoad>,
    events: Seq<EventView>,
    n: int,
    i: int,
    tools: Seq<McpTool>,
) -> bool {
    exists|t: int| 0 <= t < n && #[trigger] listed_tools(loads[t], events[t], i) == Some(tools)
}

/// The server is enabled and offers the tool.
pub open spec fn offers(server: McpToolServerConfig, tool: Seq<char>) -> bool {
    server.enable && tool_names(server.tools->0@).contains(tool)
}

/// The owner of a tool once the first `n` servers are connected: the last of them that is enabled
/// and offers it, or else the owner it had.
pub open spec fn owner_after(
    servers: Seq<McpToolServerConfig>,
    n: int,
    before: McpRegistry,
    tool: Seq<char>,
) -> Option<Seq<char>>
    decreases n,
{
    if n <= 0 {
        before.owner(tool)
    } else if offers(servers[n - 1], tool) {
        Some(servers[n - 1].name@)
    } else {
        owner_after(servers, n - 1, before, tool)
    }
}

/// The last of the first `n` servers that is enabled and has that name.
pub open spec fn last_named(servers: Seq<McpToolServerConfig>, n: int, name: Seq<char>) -> Option<
    int,
>
    decreases n,
{
    if n <= 0 {
        None
    } else if servers[n - 1].enable && servers[n - 1].name@ == name {
        Some(n - 1)
    } else {
        last_named(servers, n - 1, name)
    }
}

/// The registry is `before` with those of the first `n` servers entered that are enabled, a later
/// server of the same name in the place of an earlier one.
pub open spec fn has_all(
    registry: McpRegistry,
    before: McpRegistry,
    servers: Seq<McpToolServerConfig>,
    n: int,
) -> bool {
    &&& forall|tool: Seq<char>| #[trigger]
        registry.owner(tool) == owner_after(servers, n, before, tool)
    &&& forall|name: Seq<char>| #[trigger]
        service_fits(registry, before, servers, n, name)
}

/// What the registry has under a name is the last of the first `n` servers that is enabled and has
/// the name, or where there is none what `before` had.
pub open spec fn service_fits(
    registry: McpRegistry,
    before: McpRegistry,
    servers: Seq<McpToolServerConfig>,
    n: int,
    name: Seq<char>,
) -> bool {
    match last_named(servers, n, name) {
        Some(i) => {
            &&& registry.services@.dom().contains(name)
            &&& registry.services@[name].name@ == name
            &&& texts(registry.services@[name].tools@) == tool_names(servers[i].tools->0@)
            &&& text_of(registry.services@[name].fallback_message) == text_of(
                servers[i].fallback_message,
            )
        },
        None => {
            &&& registry.services@.dom().contains(name) == before.services@.dom().contains(name)
            &&& before.services@.dom().contains(name) ==> registry.services@[name]
                == before.services@[name]
        },
    }
}

/// The last server of a name is one of those before `n`, and is enabled.
proof fn lemma_last_named(servers: Seq<McpToolServerConfig>, n: int, name: Seq<char>)
    requires
        0 <= n <= servers.len(),
    ensures
        last_named(servers, n, name) matches Some(i) ==> 0 <= i < n && servers[i].enable
            && servers[i].name@ == name,
    decreases n,
{
    if n > 0 {
        lemma_last_named(servers, n - 1, name);
    }
}

/// Only the first `n` servers matter.
proof fn lemma_same_prefix(
    a: Seq<McpToolServerConfig>,
    b: Seq<McpToolServerConfig>,
    n: int,
    before: McpRegistry,
)
    requires
        0 <= n <= a.len(),
        n <= b.len(),
        forall|i: int| 0 <= i < n ==> #[trigger] a[i] == b[i],
    ensures
        forall|tool: Seq<char>| #[trigger]
            owner_after(a, n, before, tool) == owner_after(b, n, before, tool),
        forall|name: Seq<char>| #[trigger] last_named(a, n, name) == last_named(b, n, name),
    decreases n,
{
    if n > 0 {
        lemma_same_prefix(a, b, n - 1, before);
        assert(a[n - 1] == b[n - 1]);
        assert forall|tool: Seq<char>| #[trigger] owner_after(a, n, before, tool) == owner_after(
            b,
            n,
            before,
            tool,
        ) by {
            assert(owner_after(a, n - 1, before, tool) == owner_after(b, n - 1, before, tool));
        }
        assert forall|name: Seq<char>| #[trigger] last_named(a, n, name) == last_named(b, n, name) by {
            assert(last_named(a, n - 1, name) == last_named(b, n - 1, name));
        }
    }
}

/// Servers that are not enabled do not matter.
proof fn lemma_disabled_do_not_matter(
    servers: Seq<McpToolServerConfig>,
    from: int,
    n: int,
    before: McpRegistry,
)
    requires
        0 <= from <= n <= servers.len(),
        forall|i: int| from <= i < n ==> !(#[trigger] servers[i]).enable,
    ensures
        forall|tool: Seq<char>| #[trigger]
            owner_after(servers, n, before, tool) == owner_after(servers, from, before, tool),
        forall|name: Seq<char>| #[trigger]
            last_named(servers, n, name) == last_named(servers, from, name),
    decreases n - from,
{
    if from < n {
        lemma_disabled_do_not_matter(servers, from, n - 1, before);
        assert(!servers[n - 1].enable);
        assert forall|tool: Seq<char>| #[trigger] owner_after(servers, n, before, tool)
            == owner_after(servers, from, before, tool) by {
            assert(owner_after(servers, n - 1, before, tool) == owner_after(
                servers,
                from,
                before,
                tool,
            ));
        }
        assert forall|name: Seq<char>| #[trigger] last_named(servers, n, name) == last_named(
            servers,
            from,
            name,
        ) by {
            assert(last_named(servers, n - 1, name) == last_named(servers, from, name));
        }
    }
}

/// A registry that has the first servers still has them when servers are passed over that are not
/// enabled.
proof fn lemma_has_all_moves_on(
    registry: McpRegistry,
    before: McpRegistry,
    servers: Seq<McpToolServerConfig>,
    from: int,
    n: int,
)
    requires
        has_all(registry, before, servers, from),
        0 <= from <= n <= servers.len(),
        forall|i: int| from <= i < n ==> !(#[trigger] servers[i]).enable,
    ensures
        has_all(registry, before, servers, n),
{
    lemma_disabled_do_not_matter(servers, from, n, before);
    assert forall|tool: Seq<char>| #[trigger] registry.owner(tool) == owner_after(
        servers,
        n,
        before,
        tool,
    ) by {
        assert(owner_after(servers, n, before, tool) == owner_after(servers, from, before, tool));
    }
    assert forall|name: Seq<char>| #[trigger] service_fits(registry, before, servers, n, name) by {
        assert(service_fits(registry, before, servers, from, name));
        assert(last_named(servers, n, name) == last_named(servers, from, name));
    }
}

/// Entering the next server gives a registry that has one server more.
proof fn lemma_has_one_more(
    registry: McpRegistry,
    entered: McpRegistry,
    before: McpRegistry,
    servers: Seq<McpToolServerConfig>,
    now: Seq<McpToolServerConfig>,
    done: int,
)
    requires
        has_all(registry, before, servers, done),
        0 <= done < servers.len(),
        now.len() == servers.len(),
        forall|i: int| 0 <= i < servers.len() && i != done ==> #[trigger] now[i] == servers[i],
        now[done].settings() == servers[done].settings(),
        now[done].enable,
        entered.has_entered(&registry, servers[done].settings(), now[done].tools->0@),
    ensures
        has_all(entered, before, now, done + 1),
{
    let server = now[done];
    let name = server.name@;
    assert(server.settings().name == servers[done].settings().name);
    assert(server.settings().fallback_message == servers[done].settings().fallback_message);
    lemma_same_prefix(servers, now, done, before);
    assert forall|tool: Seq<char>| #[trigger] entered.owner(tool) == owner_after(
        now,
        done + 1,
        before,
        tool,
    ) by {
        assert(registry.owner(tool) == owner_after(servers, done, before, tool));
        assert(owner_after(servers, done, before, tool) == owner_after(now, done, before, tool));
    }
    assert forall|other: Seq<char>| #[trigger] service_fits(
        entered,
        before,
        now,
        done + 1,
        other,
    ) by {
        assert(service_fits(registry, before, servers, done, other));
        assert(last_named(servers, done, other) == last_named(now, done, other));
        lemma_last_named(now, done, other);
        assert(entered.services@.dom().contains(other) == (registry.services@.dom().contains(other)
            || other == name));
        if other != name {
            assert(last_named(now, done + 1, other) == last_named(now, done, other));
            match last_named(now, done, other) {
                Some(i) => {
                    assert(now[i] == servers[i]);
                    assert(entered.services@[other] == registry.services@[other]);
                },
                None => {},
            }
        }
    }
}

/// How far a load has come after `t` events: the servers before the one whose turn it is are as the
/// load leaves them, the others are as they were written.
pub open spec fn loaded_so_far(
    config: Config,
    loads: Seq<ConfigLoad>,
    registries: Seq<McpRegistry>,
    events: Seq<EventView>,
    t: int,
) -> bool {
    let written = config.tool_servers();
    let load = loads[t];
    let servers = load.config.tool_servers();
    &&& load.config.same_but_for_tools(&config)
    &&& servers.len() == written.len()
    &&& load.index <= servers.len()
    &&& forall|i: int|
        0 <= i < written.len() ==> (#[trigger] servers[i]).settings() == written[i].settings()
    &&& forall|i: int|
        0 <= i < written.len() && (i >= load.index || !written[i].enable) ==> #[trigger] servers[i]
            == written[i]
    &&& load.connection matches Some(c) ==> load.index < servers.len()
        && written[load.index as int].enable && belongs_to(
        c@,
        written[load.index as int].settings(),
    )
    &&& forall|i: int|
        0 <= i < load.index && (#[trigger] written[i]).enable ==> servers[i].tools is Some
            && has_listed(loads, events, t, i, servers[i].tools->0@)
    &&& forall|k: int, i: int|
        0 <= k < t && (#[trigger] listed_tools(loads[k], events[k], i)) is Some ==> 0 <= i
            < load.index && written[i].enable && servers[i].tools is Some && Some(
            servers[i].tools->0@,
        ) == listed_tools(loads[k], events[k], i)
    &&& has_all(registries[t], registries[0], servers, load.index as int)
}

/// A load has come as far as its events have brought it.
proof fn lemma_loaded_so_far(
    config: Config,
    loads: Seq<ConfigLoad>,
    registries: Seq<McpRegistry>,
    events: Seq<EventView>,
    replies: Seq<LoadView>,
    t: int,
)
    requires
        is_load(config, loads, registries, events, replies),
        0 <= t <= events.len(),
    ensures
        loaded_so_far(config, loads, registries, events, t),
    decreases t,
{
    let written = config.tool_servers();
    if t == 0 {
        law_loading_passes_over_disabled(written, 0);
        let registry = registries[0];
        assert(has_all(registry, registry, written, 0));
        lemma_has_all_moves_on(registry, registry, written, 0, loads[0].index as int);
    } else {
        lemma_loaded_so_far(config, loads, registries, events, replies, t - 1);
        let before = loads[t - 1];
        let after = loads[t];
        let event = events[t - 1];
        assert(has_advanced(before, registries[t - 1], event, after, registries[t], replies[t]));
        let done = before.index as int;
        let servers = before.config.tool_servers();
        let now = after.config.tool_servers();
        if let Some(c) = before.connection {
            if let EventView::Tools(tools) = event {
                law_tools_are_kept_as_listed(c@, tools);
            }
            law_tools_are_kept_as_listed(c@, seq![]);
            assert(progress(c@, event).1 is Connected ==> event is Tools && c.phase
                == McpPhase::Tools);
        }
        if listed_tools(before, event, done) is Some {
            let tools = listed_tools(before, event, done)->0;
            assert(now[done].tools->0@ == tools);
            assert(servers[done].settings() == written[done].settings());
            law_loading_passes_over_disabled(now, done + 1);
            lemma_has_one_more(
                registries[t - 1],
                registries[t],
                registries[0],
                servers,
                now,
                done,
            );
            lemma_has_all_moves_on(
                registries[t],
                registries[0],
                now,
                done + 1,
                after.index as int,
            );
            assert forall|i: int| 0 <= i < written.len() implies (#[trigger] now[i]).settings()
                == written[i].settings() by {
                assert(servers[i].settings() == written[i].settings());
            }
            assert forall|i: int|
                0 <= i < written.len() && (i >= after.index || !written[i].enable) implies
                #[trigger] now[i] == written[i] by {
                assert(i != done);
                assert(servers[i] == written[i]);
            }
            assert forall|i: int| 0 <= i < after.index && (#[trigger] written[i]).enable implies
                now[i].tools is Some && has_listed(loads, events, t, i, now[i].tools->0@) by {
                assert(now[i].settings() == written[i].settings());
                if i < done {
                    assert(has_listed(loads, events, t - 1, i, servers[i].tools->0@));
                    let k = choose|k: int|
                        0 <= k < t - 1 && #[trigger] listed_tools(loads[k], events[k], i) == Some(
                            servers[i].tools->0@,
                        );
                    assert(now[i] == servers[i]);
                    assert(listed_tools(loads[k], events[k], i) == Some(now[i].tools->0@));
                } else {
                    assert(i == done);
                    assert(listed_tools(loads[t - 1], events[t - 1], i) == Some(
                        now[i].tools->0@,
                    ));
                }
            }
            assert forall|k: int, i: int|
                0 <= k < t && (#[trigger] listed_tools(loads[k], events[k], i)) is Some implies 0
                <= i < after.index && written[i].enable && now[i].tools is Some && Some(
                now[i].tools->0@,
            ) == listed_tools(loads[k], events[k], i) by {
                if k < t - 1 {
                    assert(now[i] == servers[i]);
                }
            }
            if after.connection is Some {
                let at = after.index as int;
                assert(now[at].settings() == written[at].settings());
            }
        } else {
            assert(after.config == before.config);
            assert(after.index == before.index);
            assert forall|i: int| 0 <= i < after.index && (#[trigger] written[i]).enable implies
                now[i].tools is Some && has_listed(loads, events, t, i, now[i].tools->0@) by {
                assert(has_listed(loads, events, t - 1, i, servers[i].tools->0@));
                let k = choose|k: int|
                    0 <= k < t - 1 && #[trigger] listed_tools(loads[k], events[k], i) == Some(
                        servers[i].tools->0@,
                    );
                assert(listed_tools(loads[k], events[k], i) == Some(now[i].tools->0@));
            }
            assert forall|k: int, i: int|
                0 <= k < t && (#[trigger] listed_tools(loads[k], events[k], i)) is Some implies 0
                <= i < after.index && written[i].enable && now[i].tools is Some && Some(
                now[i].tools->0@,
            ) == listed_tools(loads[k], events[k], i) by {
                assert(k < t - 1);
            }
        }
    }
}

/// Once the settings are loaded, whatever came back on the way:
/// every tool server that is enabled has exactly the tools that its own connection listed;
/// every other one is as it was written; all else of the settings is as it was written too;
/// and the registry knows each server that is enabled by its name, and each of its tools, a later
/// server in the place of an earlier one of the same name or with the same tool.
pub proof fn law_load_connects_what_is_enabled(
    config: Config,
    loads: Seq<ConfigLoad>,
    registries: Seq<McpRegistry>,
    events: Seq<EventView>,
    replies: Seq<LoadView>,
)
    requires
        is_load(config, loads, registries, events, replies),
        replies.last() == LoadView::Loaded,
    ensures
        loads.last().config.same_but_for_tools(&config),
        loads.last().config.tool_servers().len() == config.tool_servers().len(),
        forall|i: int|
            0 <= i < config.tool_servers().len() ==> (
            #[trigger] loads.last().config.tool_servers()[i]).settings()
                == config.tool_servers()[i].settings(),
        forall|i: int|
            0 <= i < config.tool_servers().len() && !config.tool_servers()[i].enable ==> (
            #[trigger] loads.last().config.tool_servers()[i]) == config.tool_servers()[i],
        forall|i: int|
            0 <= i < config.tool_servers().len() && (#[trigger] config.tool_servers()[i]).enable
                ==> {
                let tools = loads.last().config.tool_servers()[i].tools;
                tools is Some && has_listed(loads, events, events.len() as int, i, tools->0@)
            },
        forall|t: int, i: int|
            0 <= t < events.len() && (#[trigger] listed_tools(loads[t], events[t], i)) is Some
                ==> {
                let tools = loads.last().config.tool_servers()[i].tools;
                &&& 0 <= i < config.tool_servers().len()
                &&& config.tool_servers()[i].enable
                &&& tools is Some
                &&& Some(tools->0@) == listed_tools(loads[t], events[t], i)
            },
        forall|t: int|
            0 <= t < loads.len() && (#[trigger] loads[t]).connection is Some ==> loads[t].index
                < config.tool_servers().len() && belongs_to(
                loads[t].connection->0@,
                config.tool_servers()[loads[t].index as int].settings(),
            ),
        has_all(
            registries.last(),
            registries[0],
            loads.last().config.tool_servers(),
            config.tool_servers().len() as int,
        ),
{
    let n = events.len() as int;
    let written = config.tool_servers();
    let servers = loads[n].config.tool_servers();
    lemma_loaded_so_far(config, loads, registries, events, replies, n);
    if n == 0 {
        law_loading_passes_over_disabled(written, 0);
    } else {
        assert(has_advanced(
            loads[n - 1],
            registries[n - 1],
            events[n - 1],
            loads[n],
            registries[n],
            replies[n],
        ));
        lemma_loaded_so_far(config, loads, registries, events, replies, n - 1);
        law_loading_passes_over_disabled(servers, loads[n - 1].index + 1);
    }
    assert(loads[n].index == written.len());
    assert forall|t: int| 0 <= t < loads.len() && (#[trigger] loads[t]).connection is Some implies
        loads[t].index < written.len() && belongs_to(
        loads[t].connection->0@,
        written[loads[t].index as int].settings(),
    ) by {
        lemma_loaded_so_far(config, loads, registries, events, replies, t);
    }
}

/// The registry of a load is settled server by server: a server that is enabled has each of its
/// tools and stands under its name, in the place of an earlier one; a server that is not enabled
/// changes nothing.
pub proof fn law_registry_server_by_server(
    servers: Seq<McpToolServerConfig>,
    before: McpRegistry,
    n: int,
    tool: Seq<char>,
    name: Seq<char>,
)
    requires
        0 <= n < servers.len(),
    ensures
        owner_after(servers, 0, before, tool) == before.owner(tool),
        last_named(servers, 0, name) is None,
        servers[n].enable && (exists|i: int|
            0 <= i < servers[n].tools->0@.len() && (#[trigger] servers[n].tools->0@[i]).name@
                == tool) ==> owner_after(servers, n + 1, before, tool) == Some(servers[n].name@),
        !servers[n].enable || (forall|i: int|
            0 <= i < servers[n].tools->0@.len() ==> (#[trigger] servers[n].tools->0@[i]).name@
                != tool) ==> owner_after(servers, n + 1, before, tool) == owner_after(
            servers,
            n,
            before,
            tool,
        ),
        servers[n].enable && servers[n].name@ == name ==> last_named(servers, n + 1, name) == Some(
            n,
        ),
        !servers[n].enable || servers[n].name@ != name ==> last_named(servers, n + 1, name)
            == last_named(servers, n, name),
{
    let tools = servers[n].tools->0@;
    let names = tool_names(tools);
    if exists|i: int| 0 <= i < tools.len() && (#[trigger] tools[i]).name@ == tool {
        let i = choose|i: int| 0 <= i < tools.len() && (#[trigger] tools[i]).name@ == tool;
        assert(names[i] == tool);
    }
    if names.contains(tool) {
        let i = names.index_of(tool);
        assert(tools[i].name@ == tool);
    }
}

/// At the end of a load each server that is enabled has exactly the tools in the list that came for
/// its connection when it had asked for them.
pub proof fn law_loaded_tools_are_the_lists_that_came(
    config: Config,
    loads: Seq<ConfigLoad>,
    registries: Seq<McpRegistry>,
    events: Seq<EventView>,
    replies: Seq<LoadView>,
    t: int,
    tools: Seq<McpTool>,
)
    requires
        is_load(config, loads, registries, events, replies),
        replies.last() == LoadView::Loaded,
        0 <= t < events.len(),
        events[t] == EventView::Tools(tools),
        loads[t].connection matches Some(c) && c.phase == McpPhase::Tools,
    ensures
        ({
            let at = loads[t].index as int;
            let servers = loads.last().config.tool_servers();
            &&& at < servers.len()
            &&& servers[at].enable
            &&& servers[at].tools matches Some(kept) && kept@ == tools
            &&& forall|i: int|
                0 <= i < tools.len() ==> registries[t + 1].owner((#[trigger] tools[i]).name@)
                    == Some(servers[at].name@)
        }),
{
    law_load_connects_what_is_enabled(config, loads, registries, events, replies);
    let at = loads[t].index as int;
    assert(listed_tools(loads[t], events[t], at) is Some);
    let servers = loads.last().config.tool_servers();
    assert(servers[at].settings() == config.tool_servers()[at].settings());
    assert(has_advanced(
        loads[t],
        registries[t],
        events[t],
        loads[t + 1],
        registries[t + 1],
        replies[t + 1],
    ));
    lemma_loaded_so_far(config, loads, registries, events, replies, t);
    let before = loads[t].config.tool_servers();
    assert(before[at].settings() == config.tool_servers()[at].settings());
    law_tools_are_kept_as_listed(loads[t].connection->0@, tools);
    law_entering_a_server(
        registries[t],
        registries[t + 1],
        before[at].settings(),
        tools,
        seq![],
        seq![],
    );
}

} // verus!
