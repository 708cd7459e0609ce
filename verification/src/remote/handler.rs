//! What the host answers to remote requests: who is let in, pairing, and terminals.

use crate::remote::{ErrorCode, RpcError};
use crate::text;
use crate::text_map;
use crate::text_map::TextMap;
use vstd::prelude::*;

verus! {

/// The bytes that `STANDARD.decode` of base64 gives for a text, where it takes the text.
pub uninterp spec fn base64_decoded(s: Seq<char>) -> Option<Seq<u8>>;

/// The text that `STANDARD.encode` of base64 gives for bytes.
pub uninterp spec fn base64_text(bytes: Seq<u8>) -> Seq<char>;

/// Calls `Engine::decode` with base64's standard engine. Its result is named; the reason for a
/// refusal is dropped.
#[verifier::external_body]
fn decode_base64(s: &str) -> (r: Option<Vec<u8>>)
    ensures
        match r {
            Some(bytes) => base64_decoded(s@) == Some(bytes@),
            None => base64_decoded(s@) is None,
        },
{
    base64::Engine::decode(&base64::engine::general_purpose::STANDARD, s.as_bytes()).ok()
}

/// Calls `Engine::encode` with base64's standard engine, which pads. Its result is named, and
/// decoding gives the bytes back. Its length must be one that a buffer can have.
#[verifier::external_body]
fn encode_base64(bytes: &[u8]) -> (s: String)
    requires
        4 * ((bytes@.len() + 2) / 3) <= isize::MAX,
    ensures
        s@ == base64_text(bytes@),
        base64_decoded(s@) == Some(bytes@),
{
    base64::Engine::encode(&base64::engine::general_purpose::STANDARD, bytes)
}

/// A digit of a hexadecimal number in small letters.
pub open spec fn is_hex(c: char) -> bool {
    '0' <= c <= '9' || 'a' <= c <= 'f'
}

/// The shape of a random id without hyphens: 32 digits, with the version and the variant in their
/// places.
pub open spec fn is_simple_id(s: Seq<char>) -> bool {
    &&& s.len() == 32
    &&& forall|i: int| 0 <= i < 32 ==> is_hex(#[trigger] s[i])
    &&& s[12] == '4'
    &&& s[16] == '8' || s[16] == '9' || s[16] == 'a' || s[16] == 'b'
}

/// The shape of a random id with hyphens.
pub open spec fn is_hyphenated_id(s: Seq<char>) -> bool {
    &&& s.len() == 36
    &&& s[8] == '-' && s[13] == '-' && s[18] == '-' && s[23] == '-'
    &&& is_simple_id(
        s.subrange(0, 8) + s.subrange(9, 13) + s.subrange(14, 18) + s.subrange(19, 23)
            + s.subrange(24, 36),
    )
}

/// Calls `Uuid::new_v4` and writes it without hyphens. The digits are random; the shape is that of
/// every such id. Like the call, it ends the program where the system has no random bytes.
#[verifier::external_body]
fn new_simple_id() -> (s: String)
    ensures
        is_simple_id(s@),
{
    uuid::Uuid::new_v4().simple().to_string()
}

/// Calls `Uuid::new_v4` and writes it with hyphens, otherwise as above.
#[verifier::external_body]
fn new_hyphenated_id() -> (s: String)
    ensures
        is_hyphenated_id(s@),
{
    uuid::Uuid::new_v4().to_string()
}

/// What a client shows to be let in.
#[derive(Debug)]
pub struct SessionAuth {
    pub device_id: String,
    pub timestamp: u64,
    pub proof: String,
}

/// A device that was paired.
#[derive(Debug)]
pub struct PairedDevice {
    pub device_id: String,
    pub device_label: String,
    pub device_key_b64: String,
    pub created_at: u64,
}

/// What a device is told when it is paired.
#[derive(Debug)]
pub struct PairingRequestResult {
    pub device_id: String,
    pub device_key: String,
}

/// The ids of a new session.
#[derive(Debug)]
pub struct SessionIds {
    pub protocol_version: u32,
    pub session_id: String,
    pub resume_token: String,
}

/// What a request to be let in comes to, before the proof is checked.
#[derive(Debug)]
pub enum AuthStep {
    Accepted,
    Refused(RpcError),
    /// The proof is to be checked with this key, for this host.
    Verify { key: Vec<u8>, host_id: String },
}

/// What a request to be paired comes to.
#[derive(Debug)]
pub enum PairingStep {
    Refused(RpcError),
    /// The user is asked.
    Ask,
    /// The device is paired.
    Issue,
}

/// The host's side of the remote sessions.
#[derive(Debug)]
pub struct AppHandler<A> {
    pub require_auth: bool,
    pub auto_approve_pairings: bool,
    pub host_node_id: Option<String>,
    /// For each device the time of the last proof that was taken.
    pub replay_guard: TextMap<u64>,
    /// The agents that clients are told of. `A` is what they are told of one.
    pub agents: Vec<A>,
}

/// Whether two texts are the same but for capitals of ASCII, the second being in small letters.
pub open spec fn same_ignoring_case(s: Seq<char>, small: Seq<char>) -> bool {
    s.map_values(|c: char| text::ascii_lower(c)) == small
}

/// Whether the setting demands proof: unless it is `0` or `false`.
pub open spec fn demands_auth(setting: Option<Seq<char>>) -> bool {
    match setting {
        Some(v) => !(v == "0"@ || same_ignoring_case(v, "false"@)),
        None => true,
    }
}

/// Whether the setting pairs without asking: only `1` or `true`.
pub open spec fn approves_all(setting: Option<Seq<char>>) -> bool {
    match setting {
        Some(v) => v == "1"@ || same_ignoring_case(v, "true"@),
        None => false,
    }
}

/// The time of the last proof of a device that was taken, or 0.
pub open spec fn last_accepted(guard: Map<Seq<char>, u64>, device: Seq<char>) -> u64 {
    match text_map::find(guard, device) {
        Some(t) => t,
        None => 0,
    }
}

/// The times after a proof of a device comes in: it is taken only where its time is later than
/// that of the last.
pub open spec fn guarded(
    guard: Map<Seq<char>, u64>,
    device: Seq<char>,
    timestamp: u64,
) -> (Map<Seq<char>, u64>, bool) {
    if timestamp > last_accepted(guard, device) {
        (guard.insert(device, timestamp), true)
    } else {
        (guard, false)
    }
}

/// What a request with a proof comes to once the proof was checked, and the times after it.
pub open spec fn proof_outcome(
    guard: Map<Seq<char>, u64>,
    auth: SessionAuth,
    verdict: Result<(), Seq<char>>,
) -> (Result<(), (ErrorCode, Seq<char>)>, Map<Seq<char>, u64>) {
    match verdict {
        Err(e) => (Err((ErrorCode::AuthInvalid, e)), guard),
        Ok(_) => {
            let (after, taken) = guarded(guard, auth.device_id@, auth.timestamp);
            if taken {
                (Ok(()), after)
            } else {
                (
                    Err(
                        (
                            ErrorCode::AuthInvalid,
                            "replay rejected: timestamp not greater than last accepted"@,
                        ),
                    ),
                    guard,
                )
            }
        },
    }
}

/// An answer, with the message of a refusal as characters.
pub open spec fn answer(r: Result<(), RpcError>) -> Result<(), (ErrorCode, Seq<char>)> {
    match r {
        Ok(_) => Ok(()),
        Err(e) => Err((e.code, e.message@)),
    }
}

/// The device that was seen, with the time, where a request with a proof was let in.
pub open spec fn device_seen(auth: Option<SessionAuth>, accepted: bool, now: u64) -> Option<
    (Seq<char>, u64),
> {
    match auth {
        Some(a) => if accepted {
            Some((a.device_id@, now))
        } else {
            None
        },
        None => None,
    }
}

/// What a request to be let in comes to as a whole: the answer, the times of the last proofs, and
/// the device whose time of last being seen is set.
pub struct AuthRun {
    pub answer: Result<(), (ErrorCode, Seq<char>)>,
    pub guard: Map<Seq<char>, u64>,
    pub seen: Option<(Seq<char>, u64)>,
}

/// The steps of a request to be let in, run to their end. `key` is what is stored for the device,
/// `verify` is the check of a proof with a key for a host, and `now` is the time.
pub open spec fn auth_run<A>(
    handler: AppHandler<A>,
    auth: Option<SessionAuth>,
    key: Option<Seq<char>>,
    verify: spec_fn(Seq<u8>, Seq<char>, SessionAuth) -> Result<(), Seq<char>>,
    now: u64,
) -> AuthRun {
    let guard = handler.replay_guard@;
    match auth_refusal(handler, auth, key) {
        Some(refusal) => AuthRun { answer: Err(refusal), guard, seen: None },
        None => match auth {
            None => AuthRun { answer: Ok(()), guard, seen: device_seen(auth, true, now) },
            Some(a) => {
                let bytes = base64_decoded(key->0)->0;
                let (answer, after) = proof_outcome(
                    guard,
                    a,
                    verify(bytes, handler.host_node_id->0@, a),
                );
                AuthRun { answer, guard: after, seen: device_seen(auth, answer is Ok, now) }
            },
        },
    }
}

fn same_in_small(s: &str, small: &str) -> (r: bool)
    ensures
        r == same_ignoring_case(s@, small@),
{
    let lowered = text::lower_ascii(s);
    text::same_text(lowered.as_str(), small)
}

/// Whether the setting demands proof.
pub fn require_auth(setting: Option<&str>) -> (r: bool)
    ensures
        r == demands_auth(
            match setting {
                Some(v) => Some(v@),
                None => None,
            },
        ),
{
    match setting {
        Some(v) => !(text::same_text(v, "0") || same_in_small(v, "false")),
        None => true,
    }
}

/// Whether the setting pairs without asking.
pub fn auto_approve_pairings(setting: Option<&str>) -> (r: bool)
    ensures
        r == approves_all(
            match setting {
                Some(v) => Some(v@),
                None => None,
            },
        ),
{
    match setting {
        Some(v) => text::same_text(v, "1") || same_in_small(v, "true"),
        None => false,
    }
}

/// Whether a request without proof, or with it, can go on to the check of the proof, and the
/// refusal where it cannot.
pub open spec fn auth_refusal<A>(
    handler: AppHandler<A>,
    auth: Option<SessionAuth>,
    key: Option<Seq<char>>,
) -> Option<(ErrorCode, Seq<char>)> {
    match auth {
        None => if handler.require_auth {
            Some(
                (
                    ErrorCode::AuthRequired,
                    "session.hello requires auth (pair first via pairing.request)"@,
                ),
            )
        } else {
            None
        },
        Some(a) => if handler.host_node_id is None {
            Some((ErrorCode::AuthInvalid, "host node id not yet available"@))
        } else if key is None {
            Some((ErrorCode::AuthInvalid, "unknown device_id: "@ + a.device_id@))
        } else if base64_decoded(key->0) is None {
            Some((ErrorCode::AuthInvalid, "stored device key malformed"@))
        } else {
            None
        },
    }
}

impl<A> AppHandler<A> {
    pub fn new(require_auth: bool, auto_approve_pairings: bool) -> (h: Self)
        ensures
            h.require_auth == require_auth,
            h.auto_approve_pairings == auto_approve_pairings,
            h.host_node_id is None,
            h.replay_guard@ == Map::<Seq<char>, u64>::empty(),
            h.agents@.len() == 0,
    {
        let replay_guard: TextMap<u64> = TextMap::new();
        assert(replay_guard@ =~= Map::<Seq<char>, u64>::empty());
        AppHandler {
            require_auth,
            auto_approve_pairings,
            host_node_id: None,
            replay_guard,
            agents: Vec::new(),
        }
    }

    pub fn set_host_node_id(&mut self, id: String)
        ensures
            *final(self) == (AppHandler { host_node_id: Some(id), ..*old(self) }),
    {
        self.host_node_id = Some(id);
    }

    /// Replaces the agents that clients are told of.
    pub fn set_agents(&mut self, agents: Vec<A>)
        ensures
            *final(self) == (AppHandler { agents, ..*old(self) }),
    {
        self.agents = agents;
    }

    /// Takes a request to be let in as far as the proof. `key` is the key stored for the device,
    /// in base64.
    pub fn check_auth(&self, auth: Option<&SessionAuth>, key: Option<&str>) -> (step: AuthStep)
        ensures
            ({
                let given = match auth {
                    Some(a) => Some(*a),
                    None => None,
                };
                let stored = match key {
                    Some(k) => Some(k@),
                    None => None,
                };
                match auth_refusal(*self, given, stored) {
                    Some((code, message)) => step matches AuthStep::Refused(e) && e.code == code
                        && e.message@ == message,
                    None => match auth {
                        None => step is Accepted,
                        Some(_) => step matches AuthStep::Verify { key: bytes, host_id }
                            && base64_decoded(stored->0) == Some(bytes@) && host_id@
                            == self.host_node_id->0@,
                    },
                }
            }),
    {
        let a = match auth {
            None => {
                if self.require_auth {
                    return AuthStep::Refused(
                        RpcError::new(
                            ErrorCode::AuthRequired,
                            "session.hello requires auth (pair first via pairing.request)",
                        ),
                    );
                }
                return AuthStep::Accepted;
            },
            Some(a) => a,
        };
        let host_id = match &self.host_node_id {
            None => {
                return AuthStep::Refused(
                    RpcError::new(ErrorCode::AuthInvalid, "host node id not yet available"),
                );
            },
            Some(id) => id.clone(),
        };
        match key {
            None => {
                let mut message = "unknown device_id: ".to_owned();
                message.append(a.device_id.as_str());
                AuthStep::Refused(RpcError { code: ErrorCode::AuthInvalid, message })
            },
            Some(k) => match decode_base64(k) {
                None => AuthStep::Refused(
                    RpcError::new(ErrorCode::AuthInvalid, "stored device key malformed"),
                ),
                Some(bytes) => AuthStep::Verify { key: bytes, host_id },
            },
        }
    }

    /// Ends a request to be let in, once its proof was checked. A proof is taken once at most:
    /// each must be later than the last of its device.
    pub fn proof_checked(&mut self, auth: &SessionAuth, verdict: Result<(), String>) -> (r: Result<
        (),
        RpcError,
    >)
        ensures
            *final(self) == (AppHandler { replay_guard: final(self).replay_guard, ..*old(self) }),
            (answer(r), final(self).replay_guard@) == proof_outcome(
                old(self).replay_guard@,
                *auth,
                match verdict {
                    Ok(_) => Ok(()),
                    Err(e) => Err(e@),
                },
            ),
    {
        match verdict {
            Err(e) => {
                return Err(RpcError { code: ErrorCode::AuthInvalid, message: e });
            },
            Ok(_) => {},
        }
        let last: u64 = match self.replay_guard.get(auth.device_id.as_str()) {
            Some(t) => t,
            None => 0,
        };
        if auth.timestamp <= last {
            return Err(
                RpcError::new(
                    ErrorCode::AuthInvalid,
                    "replay rejected: timestamp not greater than last accepted",
                ),
            );
        }
        self.replay_guard.insert(auth.device_id.as_str(), auth.timestamp);
        Ok(())
    }

    /// Takes a request to be paired.
    pub fn pairing_request(&self, has_code: bool) -> (step: PairingStep)
        ensures
            match step {
                PairingStep::Refused(e) => has_code && e.code == ErrorCode::PairingRejected
                    && e.message@ == "TOTP pairing not yet implemented (V1)"@,
                PairingStep::Ask => !has_code && !self.auto_approve_pairings,
                PairingStep::Issue => !has_code && self.auto_approve_pairings,
            },
    {
        if has_code {
            return PairingStep::Refused(
                RpcError::new(
                    ErrorCode::PairingRejected,
                    "TOTP pairing not yet implemented (V1)",
                ),
            );
        }
        if self.auto_approve_pairings {
            PairingStep::Issue
        } else {
            PairingStep::Ask
        }
    }
}

/// The device whose time of last being seen is set, and to which time, when a request to be let
/// in was answered: that of a proof that was accepted, and no other.
pub fn last_seen(auth: Option<&SessionAuth>, result: &Result<(), RpcError>, now: u64) -> (r: Option<
    (String, u64),
>)
    ensures
        (match r {
            Some((id, time)) => Some((id@, time)),
            None => None,
        }) == device_seen(
            match auth {
                Some(a) => Some(*a),
                None => None,
            },
            result is Ok,
            now,
        ),
{
    match auth {
        Some(a) => match result {
            Ok(_) => Some((a.device_id.clone(), now)),
            Err(_) => None,
        },
        None => None,
    }
}

/// The user's answer to a request to be paired.
pub fn pairing_answered(approved: bool) -> (r: Result<(), RpcError>)
    ensures
        match r {
            Ok(_) => approved,
            Err(e) => !approved && e.code == ErrorCode::PairingRejected && e.message@
                == "pairing rejected by host"@,
        },
{
    if approved {
        Ok(())
    } else {
        Err(RpcError::new(ErrorCode::PairingRejected, "pairing rejected by host"))
    }
}

/// Pairs a device: under a fresh id, with its key kept in base64. What is stored and what the
/// device is told agree, and the key can be had back from what is stored.
pub fn issue_credentials(device_label: String, device_key: &[u8], now: u64) -> (r: (
    PairedDevice,
    PairingRequestResult,
))
    requires
        4 * ((device_key@.len() + 2) / 3) <= isize::MAX,
    ensures
        r.0.device_label == device_label,
        r.0.created_at == now,
        r.0.device_key_b64@ == base64_text(device_key@),
        base64_decoded(r.0.device_key_b64@) == Some(device_key@),
        r.0.device_id@.len() == 36,
        r.0.device_id@.take(4) == "dev_"@,
        is_simple_id(r.0.device_id@.skip(4)),
        r.1.device_id@ == r.0.device_id@,
        r.1.device_key@ == r.0.device_key_b64@,
{
    let id = new_simple_id();
    let mut device_id = "dev_".to_owned();
    device_id.append(id.as_str());
    proof {
        reveal_strlit("dev_");
        assert(device_id@.take(4) =~= "dev_"@);
        assert(device_id@.skip(4) =~= id@);
    }
    let device_key_b64 = encode_base64(device_key);
    let told = PairingRequestResult {
        device_id: device_id.clone(),
        device_key: device_key_b64.clone(),
    };
    (PairedDevice { device_id, device_label, device_key_b64, created_at: now }, told)
}

/// The ids of a new session, which speaks the older of the two sides' protocols.
pub fn session_hello(theirs: u32, ours: u32) -> (s: SessionIds)
    ensures
        s.protocol_version == (if theirs < ours {
            theirs
        } else {
            ours
        }),
        is_hyphenated_id(s.session_id@),
        is_hyphenated_id(s.resume_token@),
{
    SessionIds {
        protocol_version: if theirs < ours {
            theirs
        } else {
            ours
        },
        session_id: new_hyphenated_id(),
        resume_token: new_hyphenated_id(),
    }
}

/// What a client is told that there is no terminal to attach to.
pub open spec fn no_terminal(workspace_id: i64, tab_id: u64) -> Seq<char> {
    "no terminal for workspace="@ + text::signed_decimal(workspace_id as int) + " tab="@
        + text::decimal(tab_id as nat)
}

/// Attaches to a terminal, given its columns and rows where there is one.
pub fn pty_attach(size: Option<(u16, u16)>, workspace_id: i64, tab_id: u64) -> (r: Result<
    (u16, u16),
    RpcError,
>)
    ensures
        match size {
            Some(s) => r == Ok::<(u16, u16), RpcError>(s),
            None => r matches Err(e) && e.code == ErrorCode::NotFound && e.message@ == no_terminal(
                workspace_id,
                tab_id,
            ),
        },
{
    match size {
        Some(s) => Ok(s),
        None => {
            let mut message = "no terminal for workspace=".to_owned();
            let w = text::signed_decimal_text(workspace_id);
            message.append(w.as_str());
            message.append(" tab=");
            text::push_decimal(&mut message, tab_id);
            Err(RpcError { code: ErrorCode::NotFound, message })
        },
    }
}

/// A request that needs a terminal and finds none.
#[derive(Clone, Copy, Debug)]
pub enum PtyRequest {
    Resize,
    Stream,
}

/// The refusal of a request whose terminal is not there.
pub fn pty_missing(request: PtyRequest) -> (e: RpcError)
    ensures
        e.code == ErrorCode::NotFound,
        e.message@ == (match request {
            PtyRequest::Resize => "pty.resize: tab not found"@,
            PtyRequest::Stream => "pty.stream: tab not found"@,
        }),
{
    match request {
        PtyRequest::Resize => RpcError::new(ErrorCode::NotFound, "pty.resize: tab not found"),
        PtyRequest::Stream => RpcError::new(ErrorCode::NotFound, "pty.stream: tab not found"),
    }
}

/// What happened on the way from a terminal to its client.
#[derive(Clone, Copy, Debug)]
pub enum OutputEvent {
    /// The stream begins; whether there is output from before.
    Begin { scrollback: bool },
    /// A write ended, well or not.
    Wrote { ok: bool },
    /// The terminal put something out.
    Chunk,
    /// Output was missed because the client was slow.
    Lagged,
    /// The terminal is gone.
    Closed,
}

/// What is done next on that way.
#[derive(Clone, Copy, Debug, PartialEq, Eq, Structural)]
pub enum OutputAction {
    WriteScrollback,
    WriteChunk,
    Receive,
    Finish,
}

/// What is done next on the way from a terminal to its client.
pub fn output_step(event: OutputEvent) -> (action: OutputAction)
    ensures
        action == (match event {
            OutputEvent::Begin { scrollback: true } => OutputAction::WriteScrollback,
            OutputEvent::Begin { scrollback: false } => OutputAction::Receive,
            OutputEvent::Wrote { ok: true } => OutputAction::Receive,
            OutputEvent::Wrote { ok: false } => OutputAction::Finish,
            OutputEvent::Chunk => OutputAction::WriteChunk,
            OutputEvent::Lagged => OutputAction::Receive,
            OutputEvent::Closed => OutputAction::Finish,
        }),
{
    match event {
        OutputEvent::Begin { scrollback } => if scrollback {
            OutputAction::WriteScrollback
        } else {
            OutputAction::Receive
        },
        OutputEvent::Wrote { ok } => if ok {
            OutputAction::Receive
        } else {
            OutputAction::Finish
        },
        OutputEvent::Chunk => OutputAction::WriteChunk,
        OutputEvent::Lagged => OutputAction::Receive,
        OutputEvent::Closed => OutputAction::Finish,
    }
}

/// How many bytes go on from a client to its terminal after a read of some, of none, or of a
/// stream at its end; without any the way ends.
pub fn input_step(read: Option<usize>, failed: bool) -> (forward: Option<usize>)
    ensures
        forward == (match read {
            Some(n) => if failed || n == 0 {
                None
            } else {
                Some(n)
            },
            None => None,
        }),
{
    match read {
        Some(n) => if failed || n == 0 {
            None
        } else {
            Some(n)
        },
        None => None,
    }
}

/// The times after a number of proofs came in, of any devices and taken or not.
pub open spec fn guarded_all(
    guard: Map<Seq<char>, u64>,
    proofs: Seq<(Seq<char>, u64)>,
) -> Map<Seq<char>, u64>
    decreases proofs.len(),
{
    if proofs.len() == 0 {
        guard
    } else {
        let before = guarded_all(guard, proofs.drop_last());
        guarded(before, proofs.last().0, proofs.last().1).0
    }
}

proof fn lemma_times_grow(guard: Map<Seq<char>, u64>, proofs: Seq<(Seq<char>, u64)>)
    ensures
        forall|d: Seq<char>| #[trigger]
            last_accepted(guarded_all(guard, proofs), d) >= last_accepted(guard, d),
    decreases proofs.len(),
{
    if proofs.len() > 0 {
        lemma_times_grow(guard, proofs.drop_last());
        let before = guarded_all(guard, proofs.drop_last());
        text_map::lemma_find(before, proofs.last().0, proofs.last().1);
        assert forall|d: Seq<char>| #[trigger]
            last_accepted(guarded_all(guard, proofs), d) >= last_accepted(guard, d) by {
            assert(last_accepted(before, d) >= last_accepted(guard, d));
        }
    }
}

/// A request without proof is let in where none is demanded. One with a proof is let in exactly
/// where the host has its id, the device is paired under a key that can be read, the proof holds,
/// and its time is later than that of the last proof of the device; its time is then kept, and
/// that device alone was seen. A request that is refused changes nothing.
pub proof fn law_who_is_let_in<A>(
    handler: AppHandler<A>,
    auth: Option<SessionAuth>,
    key: Option<Seq<char>>,
    verify: spec_fn(Seq<u8>, Seq<char>, SessionAuth) -> Result<(), Seq<char>>,
    now: u64,
)
    ensures
        ({
            let run = auth_run(handler, auth, key, verify, now);
            let guard = handler.replay_guard@;
            &&& run.answer is Err ==> run.guard == guard && run.seen is None
            &&& match auth {
                None => {
                    &&& run.answer is Ok <==> !handler.require_auth
                    &&& run.answer matches Err(e) ==> e.0 == ErrorCode::AuthRequired
                    &&& run.guard == guard
                    &&& run.seen is None
                },
                Some(a) => {
                    &&& run.answer is Ok <==> {
                        &&& handler.host_node_id is Some
                        &&& key is Some
                        &&& base64_decoded(key->0) is Some
                        &&& verify(base64_decoded(key->0)->0, handler.host_node_id->0@, a) is Ok
                        &&& a.timestamp > last_accepted(guard, a.device_id@)
                    }
                    &&& run.answer matches Err(e) ==> e.0 == ErrorCode::AuthInvalid
                    &&& run.answer is Ok ==> run.guard == guard.insert(a.device_id@, a.timestamp)
                        && run.seen == Some((a.device_id@, now))
                },
            }
        }),
{
}

/// A proof that was taken once is refused ever after, whatever other proofs come in between, and
/// so is every older one of its device.
pub proof fn law_no_replay(
    guard: Map<Seq<char>, u64>,
    device: Seq<char>,
    timestamp: u64,
    between: Seq<(Seq<char>, u64)>,
    again: u64,
)
    requires
        guarded(guard, device, timestamp).1,
        again <= timestamp,
    ensures
        !guarded(
            guarded_all(guarded(guard, device, timestamp).0, between),
            device,
            again,
        ).1,
{
    let taken = guarded(guard, device, timestamp).0;
    text_map::lemma_find(guard, device, timestamp);
    assert(last_accepted(taken, device) == timestamp);
    lemma_times_grow(taken, between);
    assert(last_accepted(guarded_all(taken, between), device) >= last_accepted(taken, device));
}

/// Two proofs of a device that are taken one after the other are in the order of their times.
pub proof fn law_accepted_in_order(
    guard: Map<Seq<char>, u64>,
    device: Seq<char>,
    first: u64,
    second: u64,
)
    requires
        guarded(guard, device, first).1,
        guarded(guarded(guard, device, first).0, device, second).1,
    ensures
        first < second,
{
    text_map::lemma_find(guard, device, first);
}

/// Proof is demanded unless the setting is `0` or `false`, in capitals or not; without a setting it
/// is. Pairings are approved unasked only where it is `1` or `true`. No setting that approves
/// everyone also lets everyone in.
pub proof fn law_settings_are_safe(v: Seq<char>)
    ensures
        demands_auth(None),
        !approves_all(None),
        !demands_auth(Some(v)) <==> {
            ||| v == seq!['0']
            ||| v.len() == 5 && (v[0] == 'f' || v[0] == 'F') && (v[1] == 'a' || v[1] == 'A') && (
            v[2] == 'l' || v[2] == 'L') && (v[3] == 's' || v[3] == 'S') && (v[4] == 'e' || v[4]
                == 'E')
        },
        approves_all(Some(v)) <==> {
            ||| v == seq!['1']
            ||| v.len() == 4 && (v[0] == 't' || v[0] == 'T') && (v[1] == 'r' || v[1] == 'R') && (
            v[2] == 'u' || v[2] == 'U') && (v[3] == 'e' || v[3] == 'E')
        },
        approves_all(Some(v)) ==> demands_auth(Some(v)),
{
    reveal_strlit("0");
    reveal_strlit("1");
    reveal_strlit("false");
    reveal_strlit("true");
    assert("0"@ =~= seq!['0']);
    assert("1"@ =~= seq!['1']);
    assert("false"@ =~= seq!['f', 'a', 'l', 's', 'e']);
    assert("true"@ =~= seq!['t', 'r', 'u', 'e']);
    assert("0"@[0] == '0' && "1"@[0] == '1');
    assert("0"@.len() == 1 && "1"@.len() == 1 && "false"@.len() == 5 && "true"@.len() == 4);
    lemma_same_ignoring_case(v, "false"@);
    lemma_same_ignoring_case(v, "true"@);
    assert forall|c: char| #![trigger text::ascii_lower(c)]
        'a' <= text::ascii_lower(c) <= 'z' implies c == text::ascii_lower(c) || c as int + 32
        == text::ascii_lower(c) as int by {
        text::law_small_letters(c);
    }
    if v.len() == 5 {
        let l = Seq::new(5, |i: int| text::ascii_lower(v[i]));
        assert(l[0] == text::ascii_lower(v[0]) && l[1] == text::ascii_lower(v[1]) && l[2]
            == text::ascii_lower(v[2]) && l[3] == text::ascii_lower(v[3]) && l[4]
            == text::ascii_lower(v[4]));
    }
    if v.len() == 4 {
        let l = Seq::new(4, |i: int| text::ascii_lower(v[i]));
        assert(l[0] == text::ascii_lower(v[0]) && l[1] == text::ascii_lower(v[1]) && l[2]
            == text::ascii_lower(v[2]) && l[3] == text::ascii_lower(v[3]));
    }
    if same_ignoring_case(v, "false"@) {
        assert("false"@[0] == 'f' && "false"@[1] == 'a' && "false"@[2] == 'l' && "false"@[3] == 's'
            && "false"@[4] == 'e');
    }
    if same_ignoring_case(v, "true"@) {
        assert("true"@[0] == 't' && "true"@[1] == 'r' && "true"@[2] == 'u' && "true"@[3] == 'e');
    }
}

proof fn lemma_same_ignoring_case(s: Seq<char>, small: Seq<char>)
    ensures
        same_ignoring_case(s, small) <==> s.len() == small.len() && forall|i: int|
            0 <= i < s.len() ==> text::ascii_lower(#[trigger] s[i]) == small[i],
{
    let low = s.map_values(|c: char| text::ascii_lower(c));
    if s.len() == small.len() && forall|i: int|
        0 <= i < s.len() ==> text::ascii_lower(#[trigger] s[i]) == small[i] {
        assert(low =~= small);
    }
    if same_ignoring_case(s, small) {
        assert forall|i: int| 0 <= i < s.len() implies text::ascii_lower(#[trigger] s[i])
            == small[i] by {
            assert(low[i] == small[i]);
        }
    }
}

/// A proof of one device leaves the times of all others as they are, and a proof that is refused
/// leaves all of them.
pub proof fn law_devices_are_apart(
    guard: Map<Seq<char>, u64>,
    device: Seq<char>,
    timestamp: u64,
    other: Seq<char>,
    later: u64,
)
    requires
        other != device,
    ensures
        ({
            let (after, taken) = guarded(guard, device, timestamp);
            &&& guarded(after, other, later).1 == guarded(guard, other, later).1
            &&& !taken ==> after == guard
            &&& taken ==> after.contains_key(device) && after[device] == timestamp
            &&& !guard.contains_key(device) && timestamp > 0 ==> taken
        }),
{
}

} // verus!
