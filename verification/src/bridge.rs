//! The proxy session bridges, as one state machine.
//!
//! The three transports share their contract: read the handshake within
//! the deadline, authorize the client identifier against the store,
//! register the session, bridge until something ends it, unregister.
//! The machine decides; the surrounding process moves the bytes and
//! feeds the events back in.

use vstd::prelude::*;

use crate::sniff::{Transport, HANDSHAKE_LEN};
use crate::store::{has_uuid, UserStore};
use crate::uuid::uuid_str_of;

verus! {

/// Seconds without any data after which a session is torn down.
pub const CONNECTION_TIMEOUT_SECS: u64 = 300;

/// Seconds of quiet after which a keepalive is sent.
pub const KEEPALIVE_INTERVAL_SECS: u64 = 30;

/// Why a session ended.
#[derive(PartialEq, Eq, Structural, Clone, Copy, Debug)]
pub enum BridgeReason {
    /// The handshake was short or late.
    HandshakeInvalid,
    /// The identifier is not in the store.
    UuidUnknown,
    /// The client closed.
    ClientClosed,
    /// The upstream closed.
    UpstreamClosed,
    /// The cancel handle fired.
    Cancelled,
    /// Nothing moved for the whole connection timeout.
    IdleTimeout,
    /// A read or write failed.
    IoError,
}

/// Where a session stands.
pub enum BridgeState {
    /// Waiting for the handshake prefix, deadline running.
    AwaitHandshake,
    /// Authorized and bridging; the identifier is registered.
    Bridging { uuid: String, last_activity: u64 },
    /// Torn down.
    Closed { reason: BridgeReason },
}

/// What reached the session.
pub enum BridgeEvent {
    /// The handshake bytes, transport framing stripped.
    HandshakeReceived(Vec<u8>),
    /// The handshake deadline passed first.
    HandshakeTimeout,
    /// Data moved in either direction.
    Activity,
    ClientEof,
    UpstreamEof,
    /// The cancel handle fired.
    Cancel,
    IoError,
    /// The keepalive timer fired.
    KeepaliveTick,
}

/// What the caller must do after a step.
pub enum BridgeAction {
    /// Answer the transport-specific authorization error and close.
    SendAuthError,
    /// Put the identifier into the active-connections map.
    RegisterConnection(String),
    /// Dial the local upstream.
    ConnectUpstream,
    /// Forward the verbatim handshake bytes to the upstream.
    ForwardHandshake(Vec<u8>),
    /// Send the transport-specific keepalive payload.
    SendKeepalive,
    /// Take the identifier out of the active-connections map.
    UnregisterConnection(String),
}

/// The authorization error token of each transport, as the client
/// sees it.
pub fn erro_autenticacao(transport: Transport) -> (r: &'static str)
    ensures
        transport == Transport::Tcp ==> r@ == "UUID INVALIDO\n"@,
        transport == Transport::WebSocket ==> r@ == "UUID INVALIDO"@,
        transport == Transport::Xhttp ==> r@
            == "HTTP/1.1 403 Forbidden\r\nConnection: close\r\n\r\nUUID Invalido"@,
{
    match transport {
        Transport::Tcp => "UUID INVALIDO\n",
        Transport::WebSocket => "UUID INVALIDO",
        Transport::Xhttp => "HTTP/1.1 403 Forbidden\r\nConnection: close\r\n\r\nUUID Invalido",
    }
}

/// The action registers this identifier.
pub open spec fn regista_chave(a: BridgeAction, chave: Seq<char>) -> bool {
    a matches BridgeAction::RegisterConnection(x) && x@ == chave
}

/// The action unregisters this identifier.
pub open spec fn remove_chave(a: BridgeAction, chave: Seq<char>) -> bool {
    a matches BridgeAction::UnregisterConnection(y) && y@ == chave
}

/// A step's registration work matches its states: a step that lands in
/// `Bridging` either registered the identifier or stayed in the same
/// session without touching the map, and never unregistered it.
pub open spec fn transicao_registro_ok(
    antes: BridgeState,
    depois: BridgeState,
    acoes: Seq<BridgeAction>,
) -> bool {
    depois matches BridgeState::Bridging { uuid: u2, .. } ==> {
        ||| exists|k: int|
            0 <= k < acoes.len() && regista_chave(#[trigger] acoes[k], u2@) && (forall|m: int|
                k < m < acoes.len() ==> !remove_chave(#[trigger] acoes[m], u2@))
        ||| (antes matches BridgeState::Bridging { uuid: u1, .. } && u1@ == u2@ && (forall|m: int|
            0 <= m < acoes.len() ==> !remove_chave(#[trigger] acoes[m], u2@)))
    }
}

/// What one step must yield, case by case: the handshake must arrive
/// whole and in time, else the session is invalid; the identifier must
/// be in the store, else the session is refused; while bridging, data
/// refreshes the activity clock, a keepalive tick past the connection
/// timeout tears the session down, and any end of stream, cancel or
/// error does too, always unregistering.
pub open spec fn bridge_step_spec(
    estado: BridgeState,
    evento: BridgeEvent,
    users: Seq<crate::user::User>,
    now: u64,
    novo: BridgeState,
    acoes: Seq<BridgeAction>,
) -> bool {
    match estado {
        BridgeState::Closed { reason } => novo == (BridgeState::Closed { reason }) && acoes.len()
            == 0,
        BridgeState::AwaitHandshake => match evento {
            BridgeEvent::HandshakeReceived(dados) => {
                if dados@.len() < HANDSHAKE_LEN as int {
                    novo == (BridgeState::Closed { reason: BridgeReason::HandshakeInvalid })
                        && acoes.len() == 0
                } else {
                    let texto = uuid_str_of(dados@.subrange(1, 17));
                    if has_uuid(users, texto) {
                        &&& novo matches BridgeState::Bridging { uuid, last_activity } && uuid@
                            == texto && last_activity == now
                        &&& acoes.len() == 3
                        &&& acoes[0] matches BridgeAction::RegisterConnection(u) && u@ == texto
                        &&& acoes[1] is ConnectUpstream
                        &&& acoes[2] matches BridgeAction::ForwardHandshake(d) && d@ == dados@
                    } else {
                        &&& novo == (BridgeState::Closed { reason: BridgeReason::UuidUnknown })
                        &&& acoes.len() == 1 && acoes[0] is SendAuthError
                    }
                }
            },
            _ => novo == (BridgeState::Closed { reason: BridgeReason::HandshakeInvalid })
                && acoes.len() == 0,
        },
        BridgeState::Bridging { uuid, last_activity } => match evento {
            BridgeEvent::Activity => (novo matches BridgeState::Bridging {
                uuid: u2,
                last_activity: l2,
            } && u2@ == uuid@ && l2 == now) && acoes.len() == 0,
            BridgeEvent::KeepaliveTick => {
                if now as int - last_activity as int > CONNECTION_TIMEOUT_SECS as int {
                    fecho(novo, acoes, uuid@, BridgeReason::IdleTimeout)
                } else {
                    (novo matches BridgeState::Bridging { uuid: u2, last_activity: l2 } && u2@
                        == uuid@ && l2 == last_activity) && acoes.len() == 1 && acoes[0]
                        is SendKeepalive
                }
            },
            BridgeEvent::ClientEof => fecho(novo, acoes, uuid@, BridgeReason::ClientClosed),
            BridgeEvent::UpstreamEof => fecho(novo, acoes, uuid@, BridgeReason::UpstreamClosed),
            BridgeEvent::Cancel => fecho(novo, acoes, uuid@, BridgeReason::Cancelled),
            _ => fecho(novo, acoes, uuid@, BridgeReason::IoError),
        },
    }
}

/// One step of a bridge session; see `bridge_step_spec` for what each
/// case yields.
pub fn bridge_step(estado: BridgeState, evento: BridgeEvent, store: &UserStore, now: u64) -> (r: (
    BridgeState,
    Vec<BridgeAction>,
))
    ensures
        bridge_step_spec(estado, evento, store.users@, now, r.0, r.1@),
        transicao_registro_ok(estado, r.0, r.1@),
{
    match estado {
        BridgeState::Closed { reason } => (BridgeState::Closed { reason }, Vec::new()),
        BridgeState::AwaitHandshake => {
            match evento {
                BridgeEvent::HandshakeReceived(dados) => {
                    match crate::sniff::parse_handshake(&dados) {
                        Err(_) => (
                            BridgeState::Closed { reason: BridgeReason::HandshakeInvalid },
                            Vec::new(),
                        ),
                        Ok(id_bytes) => {
                            let texto = crate::uuid::format_uuid(&id_bytes);
                            proof {
                                assert(id_bytes@ =~= dados@.subrange(1, 17));
                            }
                            if crate::store::validar_uuid(store, &texto) {
                                let mut acoes: Vec<BridgeAction> = Vec::new();
                                acoes.push(BridgeAction::RegisterConnection(texto.clone()));
                                acoes.push(BridgeAction::ConnectUpstream);
                                acoes.push(BridgeAction::ForwardHandshake(dados));
                                (
                                    BridgeState::Bridging { uuid: texto, last_activity: now },
                                    acoes,
                                )
                            } else {
                                let mut acoes: Vec<BridgeAction> = Vec::new();
                                acoes.push(BridgeAction::SendAuthError);
                                (BridgeState::Closed { reason: BridgeReason::UuidUnknown }, acoes)
                            }
                        },
                    }
                },
                _ => (BridgeState::Closed { reason: BridgeReason::HandshakeInvalid }, Vec::new()),
            }
        },
        BridgeState::Bridging { uuid, last_activity } => {
            match evento {
                BridgeEvent::Activity => (
                    BridgeState::Bridging { uuid, last_activity: now },
                    Vec::new(),
                ),
                BridgeEvent::KeepaliveTick => {
                    if now > last_activity && now - last_activity > CONNECTION_TIMEOUT_SECS {
                        let mut acoes: Vec<BridgeAction> = Vec::new();
                        acoes.push(BridgeAction::UnregisterConnection(uuid));
                        (BridgeState::Closed { reason: BridgeReason::IdleTimeout }, acoes)
                    } else {
                        let mut acoes: Vec<BridgeAction> = Vec::new();
                        acoes.push(BridgeAction::SendKeepalive);
                        (BridgeState::Bridging { uuid, last_activity }, acoes)
                    }
                },
                BridgeEvent::ClientEof => fechar(uuid, BridgeReason::ClientClosed),
                BridgeEvent::UpstreamEof => fechar(uuid, BridgeReason::UpstreamClosed),
                BridgeEvent::Cancel => fechar(uuid, BridgeReason::Cancelled),
                BridgeEvent::IoError => fechar(uuid, BridgeReason::IoError),
                _ => fechar(uuid, BridgeReason::IoError),
            }
        },
    }
}

/// A teardown from bridging: closed for the reason, unregistered.
pub open spec fn fecho(
    estado: BridgeState,
    acoes: Seq<BridgeAction>,
    uuid: Seq<char>,
    reason: BridgeReason,
) -> bool {
    &&& estado == (BridgeState::Closed { reason })
    &&& acoes.len() == 1
    &&& acoes[0] matches BridgeAction::UnregisterConnection(u) && u@ == uuid
}

/// Tear a bridging session down.
fn fechar(uuid: String, reason: BridgeReason) -> (r: (BridgeState, Vec<BridgeAction>))
    ensures
        fecho(r.0, r.1@, uuid@, reason),
{
    let mut acoes: Vec<BridgeAction> = Vec::new();
    acoes.push(BridgeAction::UnregisterConnection(uuid));
    (BridgeState::Closed { reason }, acoes)
}

/// What the registration actions of a step do to the map, with the
/// fresh token the caller picked.
pub open spec fn aplicar_acoes(
    reg: Map<Seq<char>, u64>,
    acoes: Seq<BridgeAction>,
    token: u64,
) -> Map<Seq<char>, u64>
    decreases acoes.len(),
{
    if acoes.len() == 0 {
        reg
    } else {
        let passo = match acoes.first() {
            BridgeAction::RegisterConnection(u) => reg.insert(u@, token),
            BridgeAction::UnregisterConnection(u) => reg.remove(u@),
            _ => reg,
        };
        aplicar_acoes(passo, acoes.drop_first(), token)
    }
}

/// A session that is bridging stands in the map.
pub open spec fn sessao_registrada(estado: BridgeState, reg: Map<Seq<char>, u64>) -> bool {
    estado matches BridgeState::Bridging { uuid, .. } ==> reg.dom().contains(uuid@)
}

/// For every session alive after a step there is an entry in the
/// active-connections map: a step whose actions are applied to the map
/// keeps every bridging session registered.
pub proof fn lemma_sessao_viva_esta_registrada(
    antes: BridgeState,
    depois: BridgeState,
    acoes: Seq<BridgeAction>,
    reg: Map<Seq<char>, u64>,
    token: u64,
)
    requires
        sessao_registrada(antes, reg),
        transicao_registro_ok(antes, depois, acoes),
    ensures
        sessao_registrada(depois, aplicar_acoes(reg, acoes, token)),
{
    if depois is Bridging {
        let u2 = depois->Bridging_uuid;
        if exists|k: int|
            0 <= k < acoes.len() && regista_chave(#[trigger] acoes[k], u2@) && (forall|m: int|
                k < m < acoes.len() ==> !remove_chave(#[trigger] acoes[m], u2@)) {
            let k = choose|k: int|
                0 <= k < acoes.len() && regista_chave(#[trigger] acoes[k], u2@) && (forall|m: int|
                    k < m < acoes.len() ==> !remove_chave(#[trigger] acoes[m], u2@));
            lemma_registro_apos_insercao(reg, acoes, token, u2@, k);
        } else {
            lemma_registro_preservado(reg, acoes, token, u2@);
        }
    }
}

/// After the register action, no later action drops the key.
proof fn lemma_registro_apos_insercao(
    reg: Map<Seq<char>, u64>,
    acoes: Seq<BridgeAction>,
    token: u64,
    chave: Seq<char>,
    k: int,
)
    requires
        0 <= k < acoes.len(),
        regista_chave(acoes[k], chave),
        forall|m: int| k < m < acoes.len() ==> !remove_chave(#[trigger] acoes[m], chave),
    ensures
        aplicar_acoes(reg, acoes, token).dom().contains(chave),
    decreases acoes.len(),
{
    let passo = match acoes.first() {
        BridgeAction::RegisterConnection(u) => reg.insert(u@, token),
        BridgeAction::UnregisterConnection(u) => reg.remove(u@),
        _ => reg,
    };
    assert(forall|m: int| 0 <= m < acoes.drop_first().len() ==> #[trigger] acoes.drop_first()[m]
        == acoes[m + 1]);
    if k == 0 {
        assert(passo.dom().contains(chave));
        lemma_registro_preservado(passo, acoes.drop_first(), token, chave);
    } else {
        lemma_registro_apos_insercao(passo, acoes.drop_first(), token, chave, k - 1);
    }
}

/// A key no action drops stays in the map.
proof fn lemma_registro_preservado(
    reg: Map<Seq<char>, u64>,
    acoes: Seq<BridgeAction>,
    token: u64,
    chave: Seq<char>,
)
    requires
        reg.dom().contains(chave),
        forall|m: int| 0 <= m < acoes.len() ==> !remove_chave(#[trigger] acoes[m], chave),
    ensures
        aplicar_acoes(reg, acoes, token).dom().contains(chave),
    decreases acoes.len(),
{
    if acoes.len() > 0 {
        let passo = match acoes.first() {
            BridgeAction::RegisterConnection(u) => reg.insert(u@, token),
            BridgeAction::UnregisterConnection(u) => reg.remove(u@),
            _ => reg,
        };
        assert(passo.dom().contains(chave));
        assert(forall|m: int|
            0 <= m < acoes.drop_first().len() ==> #[trigger] acoes.drop_first()[m] == acoes[m
                + 1]);
        lemma_registro_preservado(passo, acoes.drop_first(), token, chave);
    }
}

} // verus!
