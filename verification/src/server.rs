//! Downstream servers, the services they offer, and the group of servers behind one service.
use vstd::prelude::*;

use crate::error::{operation, ErrorView, ServerError};
use crate::text::{
    before, cut_before, equal, fields, first_at, joined, lemma_fields_of_joined, occurs_at,
    split_on, text_of, texts,
};

verus! {

/// A service that a downstream server can offer.
#[derive(Clone, Copy, Debug, PartialEq, Eq, Structural)]
pub enum ServiceKind {
    Chat,
    Embeddings,
    Image,
    Tts,
    Translate,
    Transcribe,
}

/// The name of a service.
pub open spec fn kind_name(kind: ServiceKind) -> Seq<char> {
    match kind {
        ServiceKind::Chat => "chat"@,
        ServiceKind::Embeddings => "embeddings"@,
        ServiceKind::Image => "image"@,
        ServiceKind::Tts => "tts"@,
        ServiceKind::Translate => "translate"@,
        ServiceKind::Transcribe => "transcribe"@,
    }
}

/// The service of that name.
pub open spec fn kind_named(name: Seq<char>) -> Option<ServiceKind> {
    if name == kind_name(ServiceKind::Chat) {
        Some(ServiceKind::Chat)
    } else if name == kind_name(ServiceKind::Embeddings) {
        Some(ServiceKind::Embeddings)
    } else if name == kind_name(ServiceKind::Image) {
        Some(ServiceKind::Image)
    } else if name == kind_name(ServiceKind::Tts) {
        Some(ServiceKind::Tts)
    } else if name == kind_name(ServiceKind::Translate) {
        Some(ServiceKind::Translate)
    } else if name == kind_name(ServiceKind::Transcribe) {
        Some(ServiceKind::Transcribe)
    } else {
        None
    }
}

impl ServiceKind {
    /// The name of the service.
    pub fn name(self) -> (r: &'static str)
        ensures
            r@ == kind_name(self),
    {
        match self {
            ServiceKind::Chat => "chat",
            ServiceKind::Embeddings => "embeddings",
            ServiceKind::Image => "image",
            ServiceKind::Tts => "tts",
            ServiceKind::Translate => "translate",
            ServiceKind::Transcribe => "transcribe",
        }
    }

    /// The service of that name.
    pub fn from_name(name: &str) -> (r: Option<ServiceKind>)
        ensures
            r == kind_named(name@),
    {
        if equal(name, "chat") {
            Some(ServiceKind::Chat)
        } else if equal(name, "embeddings") {
            Some(ServiceKind::Embeddings)
        } else if equal(name, "image") {
            Some(ServiceKind::Image)
        } else if equal(name, "tts") {
            Some(ServiceKind::Tts)
        } else if equal(name, "translate") {
            Some(ServiceKind::Translate)
        } else if equal(name, "transcribe") {
            Some(ServiceKind::Transcribe)
        } else {
            None
        }
    }
}

/// A name stands for one service, and each service is found by its name.
pub proof fn lemma_kind_names(kind: ServiceKind)
    ensures
        kind_named(kind_name(kind)) == Some(kind),
{
    reveal_strlit("chat");
    reveal_strlit("embeddings");
    reveal_strlit("image");
    reveal_strlit("tts");
    reveal_strlit("translate");
    reveal_strlit("transcribe");
    assert("chat"@.len() == 4 && "image"@.len() == 5 && "tts"@.len() == 3);
    assert("embeddings"@.len() == 10 && "translate"@.len() == 9 && "transcribe"@.len() == 10);
    assert(kind_name(ServiceKind::Embeddings)[0] == 'e');
    assert(kind_name(ServiceKind::Transcribe)[0] == 't');
}

/// What a server id is read as: no name holds a hyphen, none is empty, none begins with `s`.
proof fn lemma_kind_name_letters(kind: ServiceKind)
    ensures
        kind_name(kind).len() > 0,
        kind_name(kind)[0] != 's',
        forall|i: int| 0 <= i < kind_name(kind).len() ==> kind_name(kind)[i] != '-',
{
    reveal_strlit("chat");
    reveal_strlit("embeddings");
    reveal_strlit("image");
    reveal_strlit("tts");
    reveal_strlit("translate");
    reveal_strlit("transcribe");
}

/// The services that one server offers.
#[derive(Clone, Copy, Debug, PartialEq, Eq, Structural)]
pub struct ServerKind {
    pub chat: bool,
    pub embeddings: bool,
    pub image: bool,
    pub tts: bool,
    pub translate: bool,
    pub transcribe: bool,
}

/// `kind` alone where `held`, nothing otherwise.
pub open spec fn kind_if(held: bool, kind: ServiceKind) -> Seq<ServiceKind> {
    if held {
        seq![kind]
    } else {
        seq![]
    }
}

impl ServerKind {
    /// Whether `kind` is among the services.
    pub open spec fn has(self, kind: ServiceKind) -> bool {
        match kind {
            ServiceKind::Chat => self.chat,
            ServiceKind::Embeddings => self.embeddings,
            ServiceKind::Image => self.image,
            ServiceKind::Tts => self.tts,
            ServiceKind::Translate => self.translate,
            ServiceKind::Transcribe => self.transcribe,
        }
    }

    /// The services, in their fixed order.
    pub open spec fn list(self) -> Seq<ServiceKind> {
        kind_if(self.chat, ServiceKind::Chat) + kind_if(self.embeddings, ServiceKind::Embeddings)
            + kind_if(self.image, ServiceKind::Image) + kind_if(self.tts, ServiceKind::Tts)
            + kind_if(self.translate, ServiceKind::Translate) + kind_if(
            self.transcribe,
            ServiceKind::Transcribe,
        )
    }

    /// A service is among both.
    pub open spec fn overlaps(self, other: ServerKind) -> bool {
        exists|kind: ServiceKind| #[trigger] self.has(kind) && other.has(kind)
    }

    /// Exactly one service.
    pub open spec fn only(kind: ServiceKind) -> ServerKind {
        ServerKind {
            chat: kind == ServiceKind::Chat,
            embeddings: kind == ServiceKind::Embeddings,
            image: kind == ServiceKind::Image,
            tts: kind == ServiceKind::Tts,
            translate: kind == ServiceKind::Translate,
            transcribe: kind == ServiceKind::Transcribe,
        }
    }

    /// Whether `kind` is among the services.
    pub fn contains(&self, kind: ServiceKind) -> (r: bool)
        ensures
            r == self.has(kind),
    {
        match kind {
            ServiceKind::Chat => self.chat,
            ServiceKind::Embeddings => self.embeddings,
            ServiceKind::Image => self.image,
            ServiceKind::Tts => self.tts,
            ServiceKind::Translate => self.translate,
            ServiceKind::Transcribe => self.transcribe,
        }
    }

    /// Whether a service is among both.
    pub fn overlaps_with(&self, other: &ServerKind) -> (r: bool)
        ensures
            r == self.overlaps(*other),
    {
        proof {
            assert(self.has(ServiceKind::Chat) == self.chat);
            assert(self.has(ServiceKind::Embeddings) == self.embeddings);
            assert(self.has(ServiceKind::Image) == self.image);
            assert(self.has(ServiceKind::Tts) == self.tts);
            assert(self.has(ServiceKind::Translate) == self.translate);
            assert(self.has(ServiceKind::Transcribe) == self.transcribe);
        }
        self.chat && other.chat || self.embeddings && other.embeddings || self.image && other.image
            || self.tts && other.tts || self.translate && other.translate || self.transcribe
            && other.transcribe
    }

    /// The services, in their fixed order.
    pub fn kinds(&self) -> (r: Vec<ServiceKind>)
        ensures
            r@ == self.list(),
    {
        let mut out: Vec<ServiceKind> = Vec::new();
        if self.chat {
            out.push(ServiceKind::Chat);
        }
        if self.embeddings {
            out.push(ServiceKind::Embeddings);
        }
        if self.image {
            out.push(ServiceKind::Image);
        }
        if self.tts {
            out.push(ServiceKind::Tts);
        }
        if self.translate {
            out.push(ServiceKind::Translate);
        }
        if self.transcribe {
            out.push(ServiceKind::Transcribe);
        }
        assert(out@ =~= self.list());
        out
    }

    /// The one service of that name.
    pub fn from_str(name: &str) -> (r: Option<ServerKind>)
        ensures
            r == match kind_named(name@) {
                Some(kind) => Some(ServerKind::only(kind)),
                None => None,
            },
    {
        match ServiceKind::from_name(name) {
            Some(kind) => Some(
                ServerKind {
                    chat: kind == ServiceKind::Chat,
                    embeddings: kind == ServiceKind::Embeddings,
                    image: kind == ServiceKind::Image,
                    tts: kind == ServiceKind::Tts,
                    translate: kind == ServiceKind::Translate,
                    transcribe: kind == ServiceKind::Transcribe,
                },
            ),
            None => None,
        }
    }
}

/// The list of services holds a service exactly where the server offers it.
pub proof fn lemma_list_contains(kind: ServerKind, k: ServiceKind)
    ensures
        kind.list().contains(k) == kind.has(k),
{
    let a = kind_if(kind.chat, ServiceKind::Chat);
    let b = kind_if(kind.embeddings, ServiceKind::Embeddings);
    let c = kind_if(kind.image, ServiceKind::Image);
    let d = kind_if(kind.tts, ServiceKind::Tts);
    let e = kind_if(kind.translate, ServiceKind::Translate);
    let f = kind_if(kind.transcribe, ServiceKind::Transcribe);
    lemma_kind_if(kind.chat, ServiceKind::Chat, k);
    lemma_kind_if(kind.embeddings, ServiceKind::Embeddings, k);
    lemma_kind_if(kind.image, ServiceKind::Image, k);
    lemma_kind_if(kind.tts, ServiceKind::Tts, k);
    lemma_kind_if(kind.translate, ServiceKind::Translate, k);
    lemma_kind_if(kind.transcribe, ServiceKind::Transcribe, k);
    lemma_contains_sum(a, b, k);
    lemma_contains_sum(a + b, c, k);
    lemma_contains_sum(a + b + c, d, k);
    lemma_contains_sum(a + b + c + d, e, k);
    lemma_contains_sum(a + b + c + d + e, f, k);
}

proof fn lemma_kind_if(held: bool, kind: ServiceKind, k: ServiceKind)
    ensures
        kind_if(held, kind).contains(k) == (held && k == kind),
{
    if held {
        assert(kind_if(held, kind)[0] == kind);
    }
}

proof fn lemma_contains_sum(a: Seq<ServiceKind>, b: Seq<ServiceKind>, k: ServiceKind)
    ensures
        (a + b).contains(k) == (a.contains(k) || b.contains(k)),
{
    if a.contains(k) {
        let i = a.index_of(k);
        assert((a + b)[i] == k);
    }
    if b.contains(k) {
        let i = b.index_of(k);
        assert((a + b)[a.len() + i] == k);
    }
    if (a + b).contains(k) {
        let i = (a + b).index_of(k);
        if i < a.len() {
            assert(a[i] == k);
        } else {
            assert(b[i - a.len()] == k);
        }
    }
}

/// The names of the services, in the order of `kinds`.
pub open spec fn kind_names(kinds: Seq<ServiceKind>) -> Seq<Seq<char>> {
    kinds.map_values(|k: ServiceKind| kind_name(k))
}

/// The id of a server: the names of its services, then `unique`.
pub open spec fn server_id(kind: ServerKind, unique: Seq<char>) -> Seq<char> {
    joined(kind_names(kind.list()), '-') + "-server-"@ + unique
}

/// The services that a server id names, one for each part before `-server-`; a part that names no
/// service is `None`.
pub open spec fn id_kinds(id: Seq<char>) -> Seq<Option<ServiceKind>> {
    fields(before(id, "-server-"@), '-').map_values(|name: Seq<char>| kind_named(name))
}

/// Every part of the id before `-server-` names a service.
pub open spec fn id_readable(id: Seq<char>) -> bool {
    forall|i: int| 0 <= i < id_kinds(id).len() ==> (#[trigger] id_kinds(id)[i]) is Some
}

/// The id names `kind`.
pub open spec fn id_names(id: Seq<char>, kind: ServiceKind) -> bool {
    id_kinds(id).contains(Some(kind))
}

/// The services that a server id names; `None` where a part before `-server-` names no service.
pub fn kinds_of_id(id: &str) -> (r: Option<Vec<ServiceKind>>)
    ensures
        match r {
            Some(kinds) => id_readable(id@) && kinds@.map_values(|k: ServiceKind| Some(k))
                == id_kinds(id@),
            None => !id_readable(id@),
        },
{
    let names = split_on(cut_before(id, "-server-").as_str(), '-');
    let mut out: Vec<ServiceKind> = Vec::new();
    let mut i: usize = 0;
    while i < names.len()
        invariant
            i <= names@.len(),
            out@.len() == i,
            texts(names@) == fields(before(id@, "-server-"@), '-'),
            forall|j: int| 0 <= j < i ==> #[trigger] id_kinds(id@)[j] == Some(out@[j]),
        decreases names@.len() - i,
    {
        assert(texts(names@)[i as int] == names@[i as int]@);
        match ServiceKind::from_name(names[i].as_str()) {
            Some(kind) => {
                out.push(kind);
            },
            None => {
                assert(id_kinds(id@)[i as int] is None);
                return None;
            },
        }
        i += 1;
    }
    assert(out@.map_values(|k: ServiceKind| Some(k)) =~= id_kinds(id@));
    Some(out)
}

/// Every hyphen in the joined names is followed by the first letter of a name.
proof fn lemma_joined_names(kinds: Seq<ServiceKind>)
    requires
        kinds.len() > 0,
    ensures
        joined(kind_names(kinds), '-').len() > 0,
        joined(kind_names(kinds), '-')[0] != 's',
        forall|i: int|
            0 <= i < joined(kind_names(kinds), '-').len() && (#[trigger] joined(
                kind_names(kinds),
                '-',
            )[i]) == '-' ==> i + 1 < joined(kind_names(kinds), '-').len() && joined(
                kind_names(kinds),
                '-',
            )[i + 1] != 's',
    decreases kinds.len(),
{
    let names = kind_names(kinds);
    let whole = joined(names, '-');
    let first = kind_name(kinds[0]);
    lemma_kind_name_letters(kinds[0]);
    assert(names[0] == first);
    if kinds.len() > 1 {
        let rest = kinds.drop_first();
        assert(names.drop_first() =~= kind_names(rest));
        lemma_joined_names(rest);
        let tail = joined(kind_names(rest), '-');
        assert(whole == first + seq!['-'] + tail);
        assert forall|i: int| 0 <= i < whole.len() && (#[trigger] whole[i]) == '-' implies i + 1
            < whole.len() && whole[i + 1] != 's' by {
            if i < first.len() {
                assert(first[i] == '-');
            } else if i == first.len() {
                assert(whole[i + 1] == tail[0]);
            } else {
                let j = i - first.len() - 1;
                assert(tail[j] == '-');
                assert(whole[i + 1] == tail[j + 1]);
            }
        }
    }
}

/// The services are read back out of the id that was made from them.
pub proof fn law_id_names_services(kind: ServerKind, unique: Seq<char>)
    requires
        kind.list().len() > 0,
    ensures
        id_kinds(server_id(kind, unique)) == kind.list().map_values(|k: ServiceKind| Some(k)),
        id_readable(server_id(kind, unique)),
        forall|k: ServiceKind| id_names(server_id(kind, unique), k) == kind.has(k),
{
    let kinds = kind.list();
    let names = kind_names(kinds);
    let head = joined(names, '-');
    let mark = "-server-"@;
    let id = server_id(kind, unique);
    reveal_strlit("-server-");
    assert(mark.len() == 8);
    assert(mark[0] == '-');
    assert(mark[1] == 's');
    lemma_joined_names(kinds);
    assert(id =~= head + (mark + unique));
    assert(occurs_at(id, mark, head.len() as int)) by {
        assert(id.subrange(head.len() as int, (head.len() + mark.len()) as int) =~= mark);
    }
    assert forall|i: int| 0 <= i < head.len() implies !occurs_at(id, mark, i) by {
        if occurs_at(id, mark, i) {
            let cut = id.subrange(i, i + mark.len());
            assert(cut[0] == '-' && cut[1] == 's');
            assert(id[i] == '-' && id[i + 1] == 's');
            assert(head[i] == '-');
            assert(id[i + 1] == head[i + 1]);
        }
    }
    lemma_first_found(id, mark, head.len() as int, 0);
    assert(before(id, mark) =~= head);
    assert forall|k: int, i: int| 0 <= k < names.len() && 0 <= i < names[k].len() implies
        #[trigger] names[k][i] != '-' by {
        lemma_kind_name_letters(kinds[k]);
    }
    lemma_fields_of_joined(names, '-');
    let read = id_kinds(id);
    let all = kinds.map_values(|k: ServiceKind| Some(k));
    assert forall|i: int| 0 <= i < kinds.len() implies read[i] == all[i] by {
        lemma_kind_names(kinds[i]);
        assert(names[i] == kind_name(kinds[i]));
    }
    assert(read =~= all);
    assert forall|k: ServiceKind| id_names(id, k) == kind.has(k) by {
        lemma_list_contains(kind, k);
        if kinds.contains(k) {
            let i = kinds.index_of(k);
            assert(all[i] == Some(k));
        }
        if all.contains(Some(k)) {
            let i = all.index_of(Some(k));
            assert(kinds[i] == k);
        }
    }
}

/// The first place where `needle` stands is the one that the search finds.
proof fn lemma_first_found(s: Seq<char>, needle: Seq<char>, at: int, from: int)
    requires
        0 <= from <= at,
        occurs_at(s, needle, at),
        forall|i: int| from <= i < at ==> !occurs_at(s, needle, i),
    ensures
        first_at(s, needle, from) == Some(at),
    decreases at - from,
{
    if from < at {
        lemma_first_found(s, needle, at, from + 1);
    }
}

/// A downstream server.
#[derive(Debug)]
pub struct Server {
    pub id: String,
    pub url: String,
    pub kind: ServerKind,
    pub api_key: Option<String>,
}

/// A downstream server with its texts.
pub struct ServerView {
    pub id: Seq<char>,
    pub url: Seq<char>,
    pub kind: ServerKind,
    pub api_key: Option<Seq<char>>,
}

impl View for Server {
    type V = ServerView;

    open spec fn view(&self) -> ServerView {
        ServerView {
            id: self.id@,
            url: self.url@,
            kind: self.kind,
            api_key: text_of(self.api_key),
        }
    }
}

impl ServerView {
    /// The server offers something, and its id names what it offers.
    pub open spec fn wf(self) -> bool {
        &&& self.kind.list().len() > 0
        &&& id_readable(self.id)
        &&& forall|k: ServiceKind| id_names(self.id, k) == self.kind.has(k)
    }
}

impl Server {
    /// A server whose id names its services and ends in `unique`.
    pub fn new(kind: ServerKind, url: String, api_key: Option<String>, unique: &str) -> (r: Server)
        ensures
            r@ == (ServerView {
                id: server_id(kind, unique@),
                url: url@,
                kind,
                api_key: text_of(api_key),
            }),
            kind.list().len() > 0 ==> r@.wf(),
    {
        let mut id = joined_kind_names(&kind.kinds());
        id.append("-server-");
        id.append(unique);
        proof {
            if kind.list().len() > 0 {
                law_id_names_services(kind, unique@);
            }
        }
        Server { id, url, kind, api_key }
    }

    /// A copy of the server.
    pub fn copy(&self) -> (r: Server)
        ensures
            r@ == self@,
    {
        Server {
            id: self.id.clone(),
            url: self.url.clone(),
            kind: self.kind,
            api_key: match &self.api_key {
                Some(key) => Some(key.clone()),
                None => None,
            },
        }
    }
}

/// The names of the services with hyphens between them.
fn joined_kind_names(kinds: &Vec<ServiceKind>) -> (r: String)
    ensures
        r@ == joined(kind_names(kinds@), '-'),
{
    let mut out: String = String::new();
    let mut i: usize = kinds.len();
    assert(kind_names(kinds@.skip(i as int)) =~= seq![]);
    while i > 0
        invariant
            i <= kinds@.len(),
            out@ == joined(kind_names(kinds@.skip(i as int)), '-'),
        decreases i,
    {
        let mut next: String = kinds[i - 1].name().to_owned();
        let ghost rest = kind_names(kinds@.skip(i as int));
        let ghost all = kind_names(kinds@.skip(i - 1));
        assert(all[0] == kind_name(kinds@[i - 1]));
        assert(all.drop_first() =~= rest);
        if i < kinds.len() {
            next.append("-");
            next.append(out.as_str());
            proof {
                reveal_strlit("-");
                assert("-"@ =~= seq!['-']);
            }
        }
        out = next;
        i -= 1;
    }
    assert(kinds@.skip(0) =~= kinds@);
    out
}

/// The servers of a list with their texts.
pub open spec fn server_views(servers: Seq<Server>) -> Seq<ServerView> {
    servers.map_values(|s: Server| s@)
}

/// `servers` without those that have that id.
pub open spec fn without_id(servers: Seq<ServerView>, id: Seq<char>) -> Seq<ServerView> {
    servers.filter(|s: ServerView| s.id != id)
}

/// The servers that offer one service, and whose turn it is.
#[derive(Debug)]
pub struct ServerGroup {
    pub kind: ServiceKind,
    pub servers: Vec<Server>,
    /// The position after the server that was taken last.
    pub cursor: usize,
}

impl View for ServerGroup {
    type V = Seq<ServerView>;

    open spec fn view(&self) -> Seq<ServerView> {
        server_views(self.servers@)
    }
}

impl ServerGroup {
    /// The position of the server whose turn it is.
    pub open spec fn turn(self) -> int {
        if self.cursor < self.servers@.len() {
            self.cursor as int
        } else {
            0
        }
    }

    /// A group without servers.
    pub fn new(kind: ServiceKind) -> (r: ServerGroup)
        ensures
            r.kind == kind,
            r@ == Seq::<ServerView>::empty(),
            r.cursor == 0,
    {
        let servers: Vec<Server> = Vec::new();
        assert(server_views(servers@) =~= seq![]);
        ServerGroup { kind, servers, cursor: 0 }
    }

    /// Adds `server` at the end of the group.
    pub fn register(&mut self, server: Server)
        ensures
            final(self).kind == old(self).kind,
            final(self)@ == old(self)@.push(server@),
            final(self).cursor == old(self).cursor,
    {
        self.servers.push(server);
        assert(server_views(self.servers@) =~= old(self)@.push(server@));
    }

    /// Takes the servers with that id out of the group; the others keep their order.
    pub fn unregister(&mut self, id: &str)
        ensures
            final(self).kind == old(self).kind,
            final(self)@ == without_id(old(self)@, id@),
            final(self).cursor == old(self).cursor,
    {
        let mut kept: Vec<Server> = Vec::new();
        let mut i: usize = 0;
        let ghost pred = |s: ServerView| s.id != id@;
        assert(server_views(self.servers@.take(0)) =~= seq![]);
        assert(server_views(kept@) =~= without_id(server_views(self.servers@.take(0)), id@));
        while i < self.servers.len()
            invariant
                i <= self.servers@.len(),
                *self == *old(self),
                pred == (|s: ServerView| s.id != id@),
                server_views(kept@) == without_id(server_views(self.servers@.take(i as int)), id@),
            decreases self.servers@.len() - i,
        {
            let ghost before_views = server_views(self.servers@.take(i as int));
            let ghost kept_before = kept@;
            proof {
                assert(server_views(self.servers@.take(i + 1)) =~= before_views.push(
                    self.servers@[i as int]@,
                ));
                before_views.lemma_filter_push(self.servers@[i as int]@, pred);
            }
            if !equal(self.servers[i].id.as_str(), id) {
                kept.push(self.servers[i].copy());
                assert(server_views(kept@) =~= server_views(kept_before).push(
                    self.servers@[i as int]@,
                ));
            }
            i += 1;
        }
        assert(self.servers@.take(i as int) =~= self.servers@);
        self.servers = kept;
    }

    /// Whether the group has no server.
    pub fn is_empty(&self) -> (r: bool)
        ensures
            r == (self@.len() == 0),
    {
        self.servers.len() == 0
    }

    /// The server whose turn it is; the turn moves on to the one after it.
    pub fn next(&mut self) -> (r: Result<Server, ServerError>)
        ensures
            final(self).kind == old(self).kind,
            final(self)@ == old(self)@,
            match r {
                Ok(server) => {
                    &&& old(self)@.len() > 0
                    &&& server@ == old(self)@[old(self).turn()]
                    &&& final(self).cursor == old(self).turn() + 1
                    &&& final(self).turn() == (old(self).turn() + 1) % (old(self)@.len() as int)
                },
                Err(e) => {
                    &&& old(self)@.len() == 0
                    &&& e@ == ErrorView::Operation("no server registered for "@ + kind_name(old(self).kind))
                    &&& final(self).cursor == old(self).cursor
                },
            },
    {
        if self.servers.len() == 0 {
            return Err(operation("no server registered for ", self.kind.name()));
        }
        let turn: usize = if self.cursor < self.servers.len() {
            self.cursor
        } else {
            0
        };
        self.cursor = turn + 1;
        proof {
            let n = self.servers@.len();
            if turn + 1 < n {
                vstd::arithmetic::div_mod::lemma_small_mod((turn + 1) as nat, n);
            } else {
                vstd::arithmetic::div_mod::lemma_mod_self_0(n as int);
            }
        }
        Ok(self.servers[turn].copy())
    }

    /// The ids of the servers.
    pub fn ids(&self) -> (r: Vec<String>)
        ensures
            texts(r@) == self@.map_values(|s: ServerView| s.id),
    {
        let mut out: Vec<String> = Vec::new();
        let mut i: usize = 0;
        while i < self.servers.len()
            invariant
                i <= self.servers@.len(),
                texts(out@) == self@.take(i as int).map_values(|s: ServerView| s.id),
            decreases self.servers@.len() - i,
        {
            let ghost done = out@;
            out.push(self.servers[i].id.clone());
            assert(texts(out@) =~= texts(done).push(self@[i as int].id));
            assert(self@.take(i + 1).map_values(|s: ServerView| s.id) =~= self@.take(
                i as int,
            ).map_values(|s: ServerView| s.id).push(self@[i as int].id));
            i += 1;
        }
        assert(self@.take(i as int) =~= self@);
        out
    }
}

/// The services have these names, and a name that is none of them stands for no service.
pub proof fn law_names_of_services(name: Seq<char>)
    ensures
        kind_name(ServiceKind::Chat) == "chat"@,
        kind_name(ServiceKind::Embeddings) == "embeddings"@,
        kind_name(ServiceKind::Image) == "image"@,
        kind_name(ServiceKind::Tts) == "tts"@,
        kind_name(ServiceKind::Translate) == "translate"@,
        kind_name(ServiceKind::Transcribe) == "transcribe"@,
        forall|kind: ServiceKind| kind_named(name) == Some(kind) <==> name == #[trigger] kind_name(
            kind,
        ),
{
    assert forall|kind: ServiceKind| kind_named(name) == Some(kind) <==> name == #[trigger] kind_name(
        kind,
    ) by {
        lemma_kind_names(kind);
    }
}

/// The place of a service in the fixed order.
pub open spec fn kind_place(kind: ServiceKind) -> int {
    match kind {
        ServiceKind::Chat => 0,
        ServiceKind::Embeddings => 1,
        ServiceKind::Image => 2,
        ServiceKind::Tts => 3,
        ServiceKind::Translate => 4,
        ServiceKind::Transcribe => 5,
    }
}

/// What a server offers is what its flags say, and the list has each of it once, in the fixed
/// order.
pub proof fn law_services_of_a_server(kind: ServerKind)
    ensures
        kind.has(ServiceKind::Chat) == kind.chat,
        kind.has(ServiceKind::Embeddings) == kind.embeddings,
        kind.has(ServiceKind::Image) == kind.image,
        kind.has(ServiceKind::Tts) == kind.tts,
        kind.has(ServiceKind::Translate) == kind.translate,
        kind.has(ServiceKind::Transcribe) == kind.transcribe,
        forall|k: ServiceKind| #[trigger] kind.list().contains(k) == kind.has(k),
        forall|i: int, j: int|
            0 <= i < j < kind.list().len() ==> kind_place(#[trigger] kind.list()[i]) < kind_place(
                #[trigger] kind.list()[j],
            ),
{
    assert forall|k: ServiceKind| #[trigger] kind.list().contains(k) == kind.has(k) by {
        lemma_list_contains(kind, k);
    }
    let a = kind_if(kind.chat, ServiceKind::Chat);
    let b = kind_if(kind.embeddings, ServiceKind::Embeddings);
    let c = kind_if(kind.image, ServiceKind::Image);
    let d = kind_if(kind.tts, ServiceKind::Tts);
    let e = kind_if(kind.translate, ServiceKind::Translate);
    let f = kind_if(kind.transcribe, ServiceKind::Transcribe);
    lemma_places_add_up(a, b, 0, 1, 2);
    lemma_places_add_up(a + b, c, 0, 2, 3);
    lemma_places_add_up(a + b + c, d, 0, 3, 4);
    lemma_places_add_up(a + b + c + d, e, 0, 4, 5);
    lemma_places_add_up(a + b + c + d + e, f, 0, 5, 6);
    assert(in_places(kind.list(), 0, 6));
}

/// The services stand in the fixed order, with places from `low` up to below `high`.
spec fn in_places(kinds: Seq<ServiceKind>, low: int, high: int) -> bool {
    &&& forall|i: int| 0 <= i < kinds.len() ==> low <= kind_place(#[trigger] kinds[i]) < high
    &&& forall|i: int, j: int|
        0 <= i < j < kinds.len() ==> kind_place(#[trigger] kinds[i]) < kind_place(
            #[trigger] kinds[j],
        )
}

proof fn lemma_places_add_up(
    a: Seq<ServiceKind>,
    b: Seq<ServiceKind>,
    low: int,
    mid: int,
    high: int,
)
    requires
        in_places(a, low, mid),
        in_places(b, mid, high),
        low <= mid <= high,
    ensures
        in_places(a + b, low, high),
{
    let all = a + b;
    assert forall|i: int| 0 <= i < all.len() implies low <= kind_place(#[trigger] all[i]) < high by {
        if i < a.len() {
            assert(all[i] == a[i]);
        } else {
            assert(all[i] == b[i - a.len()]);
        }
    }
    assert forall|i: int, j: int| 0 <= i < j < all.len() implies kind_place(#[trigger] all[i])
        < kind_place(#[trigger] all[j]) by {
        if j < a.len() {
            assert(all[i] == a[i] && all[j] == a[j]);
        } else if i < a.len() {
            assert(all[i] == a[i] && all[j] == b[j - a.len()]);
        } else {
            assert(all[i] == b[i - a.len()] && all[j] == b[j - a.len()]);
        }
    }
}

/// A server of one service offers that and nothing else.
pub proof fn law_only_one_service(kind: ServiceKind, other: ServiceKind)
    ensures
        ServerKind::only(kind).has(other) <==> other == kind,
        ServerKind::only(kind).list() == seq![kind],
{
    assert(ServerKind::only(kind).list() =~= seq![kind]);
}

/// An id ends in the mark and what makes it unique; before that stand the names of the services,
/// in their order, with hyphens between them.
pub proof fn law_id_is_names_mark_unique(kind: ServerKind, unique: Seq<char>)
    requires
        kind.list().len() > 0,
    ensures
        ("-server-"@ + unique).is_suffix_of(server_id(kind, unique)),
        ({
            let id = server_id(kind, unique);
            let head = id.take(id.len() - 8 - unique.len());
            let parts = fields(head, '-');
            &&& parts.len() == kind.list().len()
            &&& forall|i: int| 0 <= i < parts.len() ==> #[trigger] parts[i] == kind_name(kind.list()[i])
        }),
{
    let kinds = kind.list();
    let names = kind_names(kinds);
    let id = server_id(kind, unique);
    let head = joined(names, '-');
    reveal_strlit("-server-");
    assert("-server-"@.len() == 8);
    assert(id =~= head + ("-server-"@ + unique));
    assert(id.take(id.len() - 8 - unique.len()) =~= head);
    assert(id.subrange((id.len() - 8 - unique.len()) as int, id.len() as int) =~= "-server-"@
        + unique);
    assert forall|k: int, i: int| 0 <= k < names.len() && 0 <= i < names[k].len() implies
        #[trigger] names[k][i] != '-' by {
        lemma_kind_name_letters(kinds[k]);
    }
    lemma_fields_of_joined(names, '-');
}

/// The services that an id names are those whose names stand between hyphens before the first mark.
pub proof fn law_id_is_read_part_by_part(id: Seq<char>, kind: ServiceKind)
    ensures
        id_names(id, kind) <==> fields(before(id, "-server-"@), '-').contains(kind_name(kind)),
        id_readable(id) <==> forall|i: int|
            0 <= i < fields(before(id, "-server-"@), '-').len() ==> kind_named(
                #[trigger] fields(before(id, "-server-"@), '-')[i],
            ) is Some,
{
    let parts = fields(before(id, "-server-"@), '-');
    let kinds = id_kinds(id);
    if id_names(id, kind) {
        let i = kinds.index_of(Some(kind));
        law_names_of_services(parts[i]);
        assert(kind_named(parts[i]) == Some(kind));
        assert(parts[i] == kind_name(kind));
    }
    if parts.contains(kind_name(kind)) {
        let i = parts.index_of(kind_name(kind));
        lemma_kind_names(kind);
        assert(kinds[i] == Some(kind));
    }
    if id_readable(id) {
        assert forall|i: int| 0 <= i < parts.len() implies kind_named(#[trigger] parts[i]) is Some by {
            assert(kinds[i] is Some);
        }
    }
}

/// Of a list without an id, those with another id stay, in their order, and those with it go.
pub proof fn law_without_id_one_by_one(servers: Seq<ServerView>, last: ServerView, id: Seq<char>)
    ensures
        without_id(seq![], id) == Seq::<ServerView>::empty(),
        last.id != id ==> without_id(servers.push(last), id) == without_id(servers, id).push(last),
        last.id == id ==> without_id(servers.push(last), id) == without_id(servers, id),
{
    reveal(Seq::filter);
    assert(servers.push(last).drop_last() =~= servers);
}

/// What contracts say of a server is said of its fields, and what they say of a group of its
/// servers, in their order.
pub proof fn law_what_stands_for_a_server(server: Server, group: ServerGroup, i: int)
    ensures
        server@.id == server.id@,
        server@.url == server.url@,
        server@.kind == server.kind,
        server@.api_key == match server.api_key {
            Some(key) => Some(key@),
            None => None,
        },
        group@.len() == group.servers@.len(),
        0 <= i < group@.len() ==> group@[i] == group.servers@[i]@,
{
}

} // verus!
