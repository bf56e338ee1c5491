//! The server that tells browsers to reload: which clients it knows and what becomes of what
//! they send.

use vstd::prelude::*;

use crate::json::Json;
use crate::json::JsonView;
use crate::json::field_of;
use crate::strmap::StrMap;
use crate::text;

verus! {

/// A client that told its name.
pub struct HmrWebSocketClient {
    /// Where the client is.
    pub addr: String,
    pub name: String,
}

/// What a [`HmrWebSocketClient`] says.
pub struct ClientView {
    pub addr: Seq<char>,
    pub name: Seq<char>,
}

impl View for HmrWebSocketClient {
    type V = ClientView;

    open spec fn view(&self) -> ClientView {
        ClientView { addr: self.addr@, name: self.name@ }
    }
}

impl HmrWebSocketClient {
    /// A client.
    pub fn new(addr: &str, name: &str) -> (r: Self)
        ensures
            r@ == (ClientView { addr: addr@, name: name@ }),
    {
        HmrWebSocketClient { addr: addr.to_owned(), name: name.to_owned() }
    }
}

/// The clients of the server.
pub struct HmrWebSocketClientManager {
    pub clients: StrMap<HmrWebSocketClient>,
    pub name_to_addr: StrMap<String>,
}

impl HmrWebSocketClientManager {
    /// No address and no name occurs twice.
    pub open spec fn wf(&self) -> bool {
        self.clients.wf() && self.name_to_addr.wf()
    }

    /// The clients, by address.
    pub open spec fn known(&self) -> Map<Seq<char>, ClientView> {
        self.clients@.map_values(|c: HmrWebSocketClient| c@)
    }

    /// No client is known.
    pub fn new() -> (r: Self)
        ensures
            r.wf(),
            r.known() == Map::<Seq<char>, ClientView>::empty(),
            r.name_to_addr@ == Map::<Seq<char>, String>::empty(),
    {
        let r = HmrWebSocketClientManager { clients: StrMap::new(), name_to_addr: StrMap::new() };
        assert(r.known() =~= Map::<Seq<char>, ClientView>::empty());
        r
    }

    /// Remembers a client under its address.
    pub fn add_client(&mut self, addr: &str, name: &str)
        requires
            old(self).wf(),
        ensures
            final(self).wf(),
            final(self).known() == old(self).known().insert(
                addr@,
                ClientView { addr: addr@, name: name@ },
            ),
            final(self).name_to_addr == old(self).name_to_addr,
    {
        self.clients.insert(addr.to_owned(), HmrWebSocketClient::new(addr, name));
        assert(self.known() =~= old(self).known().insert(
            addr@,
            ClientView { addr: addr@, name: name@ },
        ));
    }

    /// Forgets the client at an address.
    pub fn remove_client(&mut self, addr: &str)
        requires
            old(self).wf(),
        ensures
            final(self).wf(),
            final(self).known() == old(self).known().remove(addr@),
            final(self).name_to_addr == old(self).name_to_addr,
    {
        let gone = self.clients.remove(addr);
        assert(self.known() =~= old(self).known().remove(addr@));
    }

    /// Where a message to the client of a given name goes: nowhere where no address is known
    /// for the name, or no client at that address.
    pub fn send_message(&self, name: &str) -> (r: Option<String>)
        requires
            self.wf(),
        ensures
            text::opt_text(r) == (if self.name_to_addr@.contains_key(name@)
                && self.clients@.contains_key(self.name_to_addr@[name@]@) {
                Some(self.name_to_addr@[name@]@)
            } else {
                None
            }),
    {
        match self.name_to_addr.get(name) {
            Some(addr) => if self.clients.contains_key(addr.as_str()) {
                Some(addr.clone())
            } else {
                None
            },
            None => None,
        }
    }

    /// Where a message to every client goes.
    pub fn send_message_to_all(&self) -> (r: Vec<String>)
        ensures
            text::texts(r@) == self.clients.keys(),
    {
        let mut out: Vec<String> = Vec::new();
        let mut i: usize = 0;
        assert(text::texts(out@) =~= self.clients.keys().take(0));
        while i < self.clients.len()
            invariant
                i <= self.clients.keys().len(),
                text::texts(out@) == self.clients.keys().take(i as int),
            decreases self.clients.keys().len() - i,
        {
            let ghost before = text::texts(out@);
            out.push(self.clients.key_at(i).clone());
            proof {
                assert(text::texts(out@) =~= before.push(self.clients.keys()[i as int]));
                assert(self.clients.keys().take(i + 1) =~= self.clients.keys().take(
                    i as int,
                ).push(self.clients.keys()[i as int]));
            }
            i += 1;
        }
        assert(self.clients.keys().take(i as int) =~= self.clients.keys());
        out
    }
}

/// What came from a connection that has not told its name yet.
pub enum Incoming {
    Text(String),
    Close,
    /// A message of another kind.
    Other,
    Error,
    /// The connection has ended.
    End,
}

/// What becomes of a connection.
#[derive(Debug, Clone, Copy, PartialEq, Eq, Structural)]
pub enum Connection {
    /// It is a client from now on.
    Registered,
    /// It is listened to further.
    Kept,
    /// It is let go.
    Dropped,
}

/// The name that a message tells: nothing where it has no field `name` that is a text.
pub open spec fn told_name(message: JsonView) -> Option<Seq<char>> {
    match field_of(message, "name"@) {
        Some(JsonView::Str(s)) => Some(s),
        _ => None,
    }
}

/// The name that a message tells.
pub fn client_name(message: &Json) -> (r: Option<String>)
    ensures
        text::opt_text(r) == told_name(message@),
{
    match message.field("name") {
        Some(Json::Str(s)) => Some(s.clone()),
        _ => None,
    }
}

/// What becomes of a connection that sent `message`, and what it does to the clients: one that
/// tells its name is a client, one that sends another document is listened to further, one
/// that sends no document is let go.
pub open spec fn message_outcome(message: Option<JsonView>) -> (Connection, Option<Seq<char>>) {
    match message {
        Some(j) => match told_name(j) {
            Some(name) => (Connection::Registered, Some(name)),
            None => (Connection::Kept, None),
        },
        None => (Connection::Dropped, None),
    }
}

/// The server.
pub struct HmrWebSocket {
    pub port: u16,
    pub client_manager: HmrWebSocketClientManager,
}

impl HmrWebSocket {
    /// The clients are well-formed.
    pub open spec fn wf(&self) -> bool {
        self.client_manager.wf()
    }

    /// A server without clients.
    pub fn new(port: u16) -> (r: Self)
        ensures
            r.wf(),
            r.port == port,
            r.client_manager.known() == Map::<Seq<char>, ClientView>::empty(),
            r.client_manager.name_to_addr@ == Map::<Seq<char>, String>::empty(),
    {
        HmrWebSocket { port, client_manager: HmrWebSocketClientManager::new() }
    }

    /// The server listens on a port, which need not be the one that was asked for.
    pub fn listening_on(&mut self, port: u16)
        requires
            old(self).wf(),
        ensures
            final(self).wf(),
            final(self).port == port,
            final(self).client_manager == old(self).client_manager,
    {
        self.port = port;
    }

    /// Whether a connection whose turn it is is read from: only while others wait too. One
    /// that waits alone is let go.
    pub fn reads_from(&self, others_waiting: usize) -> (r: bool)
        ensures
            r == (others_waiting > 0),
    {
        others_waiting > 0
    }

    /// A message, as a document where it is one.
    pub fn message_received(&mut self, addr: &str, message: &Option<Json>) -> (r: Connection)
        requires
            old(self).wf(),
        ensures
            final(self).wf(),
            final(self).port == old(self).port,
            final(self).client_manager.name_to_addr == old(self).client_manager.name_to_addr,
            ({
                let told = match *message {
                    Some(j) => Some(j@),
                    None => None,
                };
                let (outcome, name) = message_outcome(told);
                r == outcome && final(self).client_manager.known() == (match name {
                    Some(n) => old(self).client_manager.known().insert(
                        addr@,
                        ClientView { addr: addr@, name: n },
                    ),
                    None => old(self).client_manager.known(),
                })
            }),
    {
        match message {
            Some(j) => match client_name(j) {
                Some(name) => {
                    self.client_manager.add_client(addr, name.as_str());
                    Connection::Registered
                },
                None => Connection::Kept,
            },
            None => Connection::Dropped,
        }
    }

    /// What came from a connection that has not told its name yet.
    pub fn main_loop(&mut self, addr: &str, incoming: &Incoming) -> (r: Connection)
        requires
            old(self).wf(),
        ensures
            final(self).wf(),
            final(self).port == old(self).port,
            final(self).client_manager.name_to_addr == old(self).client_manager.name_to_addr,
            match *incoming {
                Incoming::Text(t) => {
                    let (outcome, name) = message_outcome(crate::json::parsed_json(t@));
                    r == outcome && final(self).client_manager.known() == (match name {
                        Some(n) => old(self).client_manager.known().insert(
                            addr@,
                            ClientView { addr: addr@, name: n },
                        ),
                        None => old(self).client_manager.known(),
                    })
                },
                Incoming::Other => r == Connection::Kept && *final(self) == *old(self),
                _ => r == Connection::Dropped && final(self).client_manager.known() == old(
                    self,
                ).client_manager.known().remove(addr@),
            },
    {
        match incoming {
            Incoming::Text(t) => {
                let message = crate::json::parse(t.as_str());
                self.message_received(addr, &message)
            },
            Incoming::Other => Connection::Kept,
            Incoming::Close => {
                self.client_manager.remove_client(addr);
                Connection::Dropped
            },
            Incoming::Error => {
                self.client_manager.remove_client(addr);
                Connection::Dropped
            },
            Incoming::End => {
                self.client_manager.remove_client(addr);
                Connection::Dropped
            },
        }
    }
}

/// A client that registered and then goes leaves the others as they were.
pub proof fn lemma_register_then_remove(
    known: Map<Seq<char>, ClientView>,
    addr: Seq<char>,
    name: Seq<char>,
)
    requires
        !known.contains_key(addr),
    ensures
        known.insert(addr, ClientView { addr, name }).remove(addr) == known,
{
    assert(known.insert(addr, ClientView { addr, name }).remove(addr) =~= known);
}

} // verus!
