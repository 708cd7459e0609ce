//! Remote control: the server's life, and what it tells its clients.

pub mod commands;
pub mod handler;

use crate::text;
use vstd::prelude::*;

verus! {

/// Why a request was refused.
#[derive(Clone, Copy, Debug, PartialEq, Eq, Structural)]
pub enum ErrorCode {
    AuthRequired,
    AuthInvalid,
    PairingRejected,
    NotFound,
    Internal,
}

/// The refusal of a request.
#[derive(Debug)]
pub struct RpcError {
    pub code: ErrorCode,
    pub message: String,
}

impl RpcError {
    pub fn new(code: ErrorCode, message: &str) -> (e: Self)
        ensures
            e.code == code,
            e.message@ == message@,
    {
        RpcError { code, message: message.to_owned() }
    }
}

/// The server for remote clients, as far as it is decided here. `S` is a snapshot of what clients
/// can see.
#[derive(Debug)]
pub struct RemoteAccess<S> {
    /// The id of the endpoint of the server that runs, if one does.
    pub server: Option<String>,
    /// What the snapshot that was last pushed hashed to.
    pub last_snapshot_hash: Option<u64>,
    /// The snapshot that was last pushed.
    pub state: S,
}

/// What came of the last step towards the secret of the endpoint.
#[derive(Debug)]
pub enum SecretEvent {
    /// The store was read.
    Loaded(Result<Option<[u8; 32]>, String>),
    /// Fresh bytes were written to the store.
    Saved([u8; 32], Result<(), String>),
}

/// The next step towards the secret of the endpoint.
#[derive(Debug)]
pub enum SecretAction {
    /// Write these to the store.
    Save([u8; 32]),
    /// The secret, or why there is none.
    Finish(Result<[u8; 32], String>),
}

/// An event on the way to the secret, with its contents as sequences.
pub enum SecretEventView {
    Loaded(Result<Option<Seq<u8>>, Seq<char>>),
    Saved(Seq<u8>, Result<(), Seq<char>>),
}

/// A step towards the secret, with its contents as sequences.
pub enum SecretActionView {
    Save(Seq<u8>),
    Finish(Result<Seq<u8>, Seq<char>>),
}

impl View for SecretEvent {
    type V = SecretEventView;

    open spec fn view(&self) -> SecretEventView {
        match *self {
            SecretEvent::Loaded(Ok(Some(bytes))) => SecretEventView::Loaded(Ok(Some(bytes@))),
            SecretEvent::Loaded(Ok(None)) => SecretEventView::Loaded(Ok(None)),
            SecretEvent::Loaded(Err(e)) => SecretEventView::Loaded(Err(e@)),
            SecretEvent::Saved(bytes, Ok(_)) => SecretEventView::Saved(bytes@, Ok(())),
            SecretEvent::Saved(bytes, Err(e)) => SecretEventView::Saved(bytes@, Err(e@)),
        }
    }
}

impl View for SecretAction {
    type V = SecretActionView;

    open spec fn view(&self) -> SecretActionView {
        match *self {
            SecretAction::Save(bytes) => SecretActionView::Save(bytes@),
            SecretAction::Finish(Ok(bytes)) => SecretActionView::Finish(Ok(bytes@)),
            SecretAction::Finish(Err(e)) => SecretActionView::Finish(Err(e@)),
        }
    }
}

/// Random bytes or the text of an error, as sequences.
pub open spec fn drawn_view(fresh: Result<[u8; 32], String>) -> Result<Seq<u8>, Seq<char>> {
    match fresh {
        Ok(bytes) => Ok(bytes@),
        Err(e) => Err(e@),
    }
}

/// Random bytes of the length of a secret, or the text of an error.
pub open spec fn can_be_drawn(fresh: Result<Seq<u8>, Seq<char>>) -> bool {
    fresh matches Ok(bytes) ==> bytes.len() == 32
}

/// The next step towards the secret: a stored one is taken as it is; where there is none, fresh
/// bytes count once they are stored. `fresh` is what the random bytes are, where any are asked
/// for.
pub open spec fn secret_step(
    event: SecretEventView,
    fresh: Result<Seq<u8>, Seq<char>>,
) -> SecretActionView {
    match event {
        SecretEventView::Loaded(Ok(Some(bytes))) => SecretActionView::Finish(Ok(bytes)),
        SecretEventView::Loaded(Ok(None)) => match fresh {
            Ok(bytes) => SecretActionView::Save(bytes),
            Err(e) => SecretActionView::Finish(Err("generate endpoint secret: "@ + e)),
        },
        SecretEventView::Loaded(Err(e)) => SecretActionView::Finish(Err(e)),
        SecretEventView::Saved(bytes, Ok(_)) => SecretActionView::Finish(Ok(bytes)),
        SecretEventView::Saved(_, Err(e)) => SecretActionView::Finish(Err(e)),
    }
}

/// The steps run to their end over a store that can be read and holds `stored`: the secret they
/// end with, where they end with one, and what the store then holds. `fresh` is what the random
/// bytes are, where there are any, and `saves` says whether the store takes them.
pub open spec fn secret_run(
    stored: Option<Seq<u8>>,
    fresh: Result<Seq<u8>, Seq<char>>,
    saves: Result<(), Seq<char>>,
) -> (Option<Seq<u8>>, Option<Seq<u8>>) {
    match secret_step(SecretEventView::Loaded(Ok(stored)), fresh) {
        SecretActionView::Finish(Ok(secret)) => (Some(secret), stored),
        SecretActionView::Finish(Err(_)) => (None, stored),
        SecretActionView::Save(bytes) => {
            let after = if saves is Ok {
                Some(bytes)
            } else {
                stored
            };
            match secret_step(SecretEventView::Saved(bytes, saves), fresh) {
                SecretActionView::Finish(Ok(secret)) => (Some(secret), after),
                _ => (None, after),
            }
        },
    }
}

/// What a change of the endpoint's secret does next.
#[derive(Debug)]
pub enum RotateAction {
    /// Shut the running server down, and wait.
    ShutDown,
    /// Forget every paired device and the stored secret.
    Wipe,
    /// Start the server with a fresh secret.
    Start,
    /// All is done: the new id, where the server was started again.
    Finish(Result<Option<String>, String>),
}

/// What came of the last action of such a change.
#[derive(Debug)]
pub enum RotateEvent {
    Begin,
    ShutDown(Result<(), String>),
    Wiped(Result<(), String>),
    Started(Result<String, String>),
}

/// What a snapshot that hashes to `hash` makes of the state, and whether the clients are told.
pub open spec fn pushed<S>(access: RemoteAccess<S>, snapshot: S, hash: u64) -> (
    RemoteAccess<S>,
    bool,
) {
    (
        RemoteAccess { last_snapshot_hash: Some(hash), state: snapshot, ..access },
        access.last_snapshot_hash != Some(hash),
    )
}

impl<S> RemoteAccess<S> {
    /// No server runs, and nothing was pushed; `state` is an empty snapshot.
    pub fn new(state: S) -> (a: Self)
        ensures
            a == (RemoteAccess { server: None, last_snapshot_hash: None, state }),
    {
        RemoteAccess { server: None, last_snapshot_hash: None, state }
    }

    /// What clients can see.
    pub fn state(&self) -> (r: &S)
        ensures
            *r == self.state,
    {
        &self.state
    }

    pub fn is_running(&self) -> (r: bool)
        ensures
            r == (self.server is Some),
    {
        self.server.is_some()
    }

    /// The id of the endpoint while the server runs.
    pub fn endpoint_id(&self) -> (r: Option<String>)
        ensures
            text::optional_text(r) == text::optional_text(self.server),
    {
        match &self.server {
            Some(id) => Some(id.clone()),
            None => None,
        }
    }

    /// The host's id: that of the running server, else what the stored secret gives.
    pub fn host_id(&self, stored: Option<String>) -> (r: Option<String>)
        ensures
            text::optional_text(r) == host_id_of(
                text::optional_text(self.server),
                text::optional_text(stored),
            ),
    {
        match &self.server {
            Some(id) => Some(id.clone()),
            None => stored,
        }
    }

    /// Replaces what clients can see by a snapshot, which hashes to `hash`. Tells whether clients
    /// must be told: whether it differs from the last.
    pub fn push_snapshot(&mut self, snapshot: S, hash: u64) -> (changed: bool)
        ensures
            (*final(self), changed) == pushed(*old(self), snapshot, hash),
    {
        let changed = match self.last_snapshot_hash {
            Some(last) => last != hash,
            None => true,
        };
        self.last_snapshot_hash = Some(hash);
        self.state = snapshot;
        changed
    }

    /// Whether starting the server does anything: it does not while one runs.
    pub fn start(&self) -> (begin: bool)
        ensures
            begin == (self.server is None),
    {
        self.server.is_none()
    }

    /// The server came up under an id.
    pub fn started(&mut self, id: String)
        requires
            old(self).server is None,
        ensures
            *final(self) == (RemoteAccess { server: Some(id), ..*old(self) }),
    {
        self.server = Some(id);
    }

    /// Lets go of the server, which is then shut down by itself.
    pub fn stop(&mut self) -> (server: Option<String>)
        ensures
            server == old(self).server,
            *final(self) == (RemoteAccess { server: None, ..*old(self) }),
    {
        self.server.take()
    }

    /// Goes on with a change of the endpoint's secret. The old endpoint is down before anything is
    /// wiped; where it does not go down, the change ends there.
    pub fn rotate_endpoint_secret(&mut self, event: RotateEvent, restart: bool) -> (action:
        RotateAction)
        ensures
            *final(self) == (RemoteAccess { server: final(self).server, ..*old(self) }),
            (event is Begin || old(self).server is None) && (action is Wipe || action is Start)
                ==> final(self).server is None,
            match event {
                RotateEvent::Begin => {
                    &&& final(self).server is None
                    &&& action == (if old(self).server is Some {
                        RotateAction::ShutDown
                    } else {
                        RotateAction::Wipe
                    })
                },
                RotateEvent::ShutDown(Ok(_)) => action == RotateAction::Wipe && final(self).server
                    == old(self).server,
                RotateEvent::ShutDown(Err(e)) => {
                    &&& action matches RotateAction::Finish(Err(message)) && message@
                        == "aborting rotate; endpoint shutdown failed: "@ + e@
                    &&& final(self).server == old(self).server
                },
                RotateEvent::Wiped(Ok(_)) => {
                    &&& action == (if restart {
                        RotateAction::Start
                    } else {
                        RotateAction::Finish(Ok(None))
                    })
                    &&& final(self).server == old(self).server
                },
                RotateEvent::Wiped(Err(e)) => action == RotateAction::Finish(Err(e)) && final(
                    self).server == old(self).server,
                RotateEvent::Started(Ok(id)) => {
                    &&& final(self).server == Some(id)
                    &&& action matches RotateAction::Finish(Ok(Some(told))) && told@ == id@
                },
                RotateEvent::Started(Err(e)) => action == RotateAction::Finish(Err(e)) && final(
                    self).server == old(self).server,
            },
    {
        match event {
            RotateEvent::Begin => {
                let running = self.server.take();
                if running.is_some() {
                    RotateAction::ShutDown
                } else {
                    RotateAction::Wipe
                }
            },
            RotateEvent::ShutDown(Ok(_)) => RotateAction::Wipe,
            RotateEvent::ShutDown(Err(e)) => {
                let mut message = "aborting rotate; endpoint shutdown failed: ".to_owned();
                message.append(e.as_str());
                RotateAction::Finish(Err(message))
            },
            RotateEvent::Wiped(Ok(_)) => if restart {
                RotateAction::Start
            } else {
                RotateAction::Finish(Ok(None))
            },
            RotateEvent::Wiped(Err(e)) => RotateAction::Finish(Err(e)),
            RotateEvent::Started(Ok(id)) => {
                let told = id.clone();
                self.server = Some(id);
                RotateAction::Finish(Ok(Some(told)))
            },
            RotateEvent::Started(Err(e)) => RotateAction::Finish(Err(e)),
        }
    }
}

/// The host's id: that of the running server, else what the stored secret gives.
pub open spec fn host_id_of(server: Option<Seq<char>>, stored: Option<Seq<char>>) -> Option<
    Seq<char>,
> {
    match server {
        Some(id) => Some(id),
        None => stored,
    }
}

/// Calls `getrandom::getrandom`, which fills the bytes from the system's source of randomness, or
/// tells why it cannot. Nothing is said of the bytes: they are left to chance, and after an error
/// they are left open. The error is handed on as its text, which the system words.
#[verifier::external_body]
fn fill_random(bytes: &mut [u8; 32]) -> (r: Result<(), String>) {
    getrandom::getrandom(bytes).map_err(|e| e.to_string())
}

/// The step that follows when random bytes were asked for.
pub fn secret_drawn(fresh: Result<[u8; 32], String>) -> (action: SecretAction)
    ensures
        action@ == secret_step(
            SecretEventView::Loaded(Ok(None)),
            drawn_view(fresh),
        ),
{
    match fresh {
        Ok(bytes) => SecretAction::Save(bytes),
        Err(e) => {
            let mut message = "generate endpoint secret: ".to_owned();
            message.append(e.as_str());
            SecretAction::Finish(Err(message))
        },
    }
}

/// The next step towards the secret of the endpoint: the stored one, so that the host's id stays,
/// else a fresh one that was stored. Fresh bytes are random.
pub fn load_or_generate_secret(event: SecretEvent) -> (action: SecretAction)
    ensures
        exists|fresh: Result<Seq<u8>, Seq<char>>|
            can_be_drawn(fresh) && action@ == #[trigger] secret_step(event@, fresh),
{
    let ghost mut drawn: Result<Seq<u8>, Seq<char>> = Err(seq![]);
    let action = match event {
        SecretEvent::Loaded(Ok(Some(bytes))) => SecretAction::Finish(Ok(bytes)),
        SecretEvent::Loaded(Ok(None)) => {
            let mut bytes: [u8; 32] = [0; 32];
            let fresh = match fill_random(&mut bytes) {
                Ok(_) => Ok(bytes),
                Err(e) => Err(e),
            };
            proof {
                drawn = drawn_view(fresh);
            }
            secret_drawn(fresh)
        },
        SecretEvent::Loaded(Err(e)) => SecretAction::Finish(Err(e)),
        SecretEvent::Saved(bytes, Ok(_)) => SecretAction::Finish(Ok(bytes)),
        SecretEvent::Saved(_, Err(e)) => SecretAction::Finish(Err(e)),
    };
    assert(can_be_drawn(drawn) && action@ == secret_step(event@, drawn));
    action
}

/// The name of the machine, as the `hostname` command printed it, where it printed any.
pub fn hostname(output: &Vec<u8>) -> (r: Option<String>)
    ensures
        ({
            let name = text::trimmed(text::utf8_lossy(output@));
            match r {
                Some(s) => name.len() > 0 && s@ == name,
                None => name.len() == 0,
            }
        }),
{
    let all = text::from_utf8_lossy(output.as_slice());
    let name = text::trim(all.as_str());
    if text::same_text(name.as_str(), "") {
        proof {
            reveal_strlit("");
        }
        return None;
    }
    proof {
        reveal_strlit("");
        assert(name@.len() == 0 ==> name@ =~= ""@);
    }
    Some(name)
}

/// Clients can see the snapshot that was pushed last. They are told of it, once, where none was
/// pushed before or where its text differs from that of the one before, and of nothing where the
/// texts are the same. `json` is the text of a snapshot, where it has one, and `hash` any hash
/// that tells these two texts apart.
pub proof fn law_clients_are_told_of_changes<S>(
    access: RemoteAccess<S>,
    first: S,
    next: S,
    json: spec_fn(S) -> Option<Seq<char>>,
    hash: spec_fn(Option<Seq<char>>) -> u64,
)
    requires
        json(first) != json(next) ==> hash(json(first)) != hash(json(next)),
    ensures
        access.last_snapshot_hash is None ==> pushed(access, first, hash(json(first))).1,
        ({
            let (between, _) = pushed(access, first, hash(json(first)));
            let (after, told) = pushed(between, next, hash(json(next)));
            &&& between.state == first
            &&& after.state == next
            &&& told == (json(next) != json(first))
        }),
{
}

/// Once the steps ended with a secret, they end with the same one on the next run, whatever random
/// bytes there are then, and the store is left as it is.
pub proof fn law_secret_stays(
    stored: Option<Seq<u8>>,
    fresh: Result<Seq<u8>, Seq<char>>,
    saves: Result<(), Seq<char>>,
    fresh_later: Result<Seq<u8>, Seq<char>>,
    saves_later: Result<(), Seq<char>>,
)
    requires
        secret_run(stored, fresh, saves).0 is Some,
    ensures
        ({
            let (secret, after) = secret_run(stored, fresh, saves);
            secret_run(after, fresh_later, saves_later) == (secret, after) && after == secret
        }),
{
}

/// A server that was started with the secret has the id that the store gives after it stopped.
/// `public` is the id that belongs to a secret.
pub proof fn law_host_id_outlives_server(
    stored: Option<Seq<u8>>,
    fresh: Result<Seq<u8>, Seq<char>>,
    saves: Result<(), Seq<char>>,
    public: spec_fn(Seq<u8>) -> Seq<char>,
)
    requires
        secret_run(stored, fresh, saves).0 is Some,
    ensures
        ({
            let (secret, after) = secret_run(stored, fresh, saves);
            let id = public(secret->0);
            let stored_id = match after {
                Some(bytes) => Some(public(bytes)),
                None => None,
            };
            &&& host_id_of(Some(id), stored_id) == Some(id)
            &&& host_id_of(None, stored_id) == Some(id)
        }),
{
}

} // verus!
