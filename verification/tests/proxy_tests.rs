use vless_control::bridge::{
    bridge_step, erro_autenticacao, BridgeAction, BridgeEvent, BridgeReason, BridgeState,
    CONNECTION_TIMEOUT_SECS,
};
use vless_control::registry::{
    adicionar_conexao, derrubar_conexao, listar_usuarios_online, novas_conexoes, remover_conexao,
};
use vless_control::sniff::{classify_connection, parse_handshake, HandshakeError, Transport};
use vless_control::store::{criar_usuario, UserStore};
use vless_control::user::User;
use vless_control::uuid::{format_uuid, parse_uuid_text};

fn usuario(login: &str, uuid: &str, tipo: &str) -> User {
    User {
        login: login.to_string(),
        senha: "s".to_string(),
        dias: 30,
        limite: 1,
        uuid: Some(uuid.to_string()),
        tipo: tipo.to_string(),
        suspenso: false,
        dono: "admin".to_string(),
        byid: 1,
    }
}

const UUID_UNS: &str = "11111111-1111-1111-1111-111111111111";

fn handshake_uns() -> Vec<u8> {
    let mut dados = vec![0x01u8];
    dados.extend_from_slice(&[0x11u8; 16]);
    dados.extend_from_slice(b"HELLO");
    dados
}

#[test]
fn sniff_classifica_os_tres_transportes() {
    assert_eq!(classify_connection(&b"GET / HTTP/1.1".to_vec()), Transport::WebSocket);
    assert_eq!(classify_connection(&b"POST /upload HT".to_vec()), Transport::Xhttp);
    assert_eq!(classify_connection(&b"\x01\x11\x11\x11\x11\x11\x11\x11\x11\x11\x11\x11\x11\x11".to_vec()), Transport::Tcp);
    assert_eq!(classify_connection(&b"GE".to_vec()), Transport::Tcp);
}

#[test]
fn sniff_mesmos_quatorze_bytes_mesma_decisao() {
    let a = b"GET /a HTTP/1.1\r\nHost: um\r\n\r\n".to_vec();
    let b = b"GET /a HTTP/1.1\r\nHost: dois\r\n\r\n".to_vec();
    assert_eq!(&a[..14], &b[..14]);
    assert_eq!(classify_connection(&a), classify_connection(&b));
}

#[test]
fn handshake_curto_e_invalido() {
    let r = parse_handshake(&vec![0x01u8; 16]);
    assert_eq!(r.unwrap_err(), HandshakeError::HandshakeInvalid);
}

#[test]
fn handshake_extrai_o_identificador() {
    let id = parse_handshake(&handshake_uns()).unwrap();
    assert_eq!(id.len(), 16);
    assert_eq!(format_uuid(&id), UUID_UNS);
}

#[test]
fn ponte_autoriza_uuid_conhecido() {
    let mut store = UserStore::new();
    criar_usuario(&mut store, usuario("ana", UUID_UNS, "xray")).unwrap();
    let dados = handshake_uns();
    let (estado, acoes) = bridge_step(
        BridgeState::AwaitHandshake,
        BridgeEvent::HandshakeReceived(dados.clone()),
        &store,
        1000,
    );
    match estado {
        BridgeState::Bridging { uuid, last_activity } => {
            assert_eq!(uuid, UUID_UNS);
            assert_eq!(last_activity, 1000);
        },
        _ => panic!("a sessao devia estar encaminhando"),
    }
    assert_eq!(acoes.len(), 3);
    assert!(matches!(&acoes[0], BridgeAction::RegisterConnection(u) if u == UUID_UNS));
    assert!(matches!(&acoes[1], BridgeAction::ConnectUpstream));
    assert!(matches!(&acoes[2], BridgeAction::ForwardHandshake(d) if *d == dados));
}

#[test]
fn ponte_recusa_uuid_desconhecido() {
    let store = UserStore::new();
    let mut dados = vec![0x01u8];
    dados.extend_from_slice(&[0x22u8; 16]);
    let (estado, acoes) = bridge_step(
        BridgeState::AwaitHandshake,
        BridgeEvent::HandshakeReceived(dados),
        &store,
        1000,
    );
    assert!(matches!(estado, BridgeState::Closed { reason: BridgeReason::UuidUnknown }));
    assert_eq!(acoes.len(), 1);
    assert!(matches!(acoes[0], BridgeAction::SendAuthError));
    assert_eq!(erro_autenticacao(Transport::WebSocket), "UUID INVALIDO");
    assert_eq!(erro_autenticacao(Transport::Tcp), "UUID INVALIDO\n");
    assert!(erro_autenticacao(Transport::Xhttp).starts_with("HTTP/1.1 403 Forbidden"));
}

#[test]
fn ponte_handshake_curto_fecha() {
    let store = UserStore::new();
    let (estado, acoes) = bridge_step(
        BridgeState::AwaitHandshake,
        BridgeEvent::HandshakeReceived(vec![0x01u8; 10]),
        &store,
        0,
    );
    assert!(matches!(estado, BridgeState::Closed { reason: BridgeReason::HandshakeInvalid }));
    assert!(acoes.is_empty());
}

#[test]
fn ponte_timeout_de_handshake_fecha() {
    let store = UserStore::new();
    let (estado, acoes) = bridge_step(
        BridgeState::AwaitHandshake,
        BridgeEvent::HandshakeTimeout,
        &store,
        5,
    );
    assert!(matches!(estado, BridgeState::Closed { reason: BridgeReason::HandshakeInvalid }));
    assert!(acoes.is_empty());
}

#[test]
fn ponte_inatividade_encerra_e_desregistra() {
    let store = UserStore::new();
    let encaminhando = BridgeState::Bridging { uuid: UUID_UNS.to_string(), last_activity: 0 };
    let (estado, acoes) = bridge_step(
        encaminhando,
        BridgeEvent::KeepaliveTick,
        &store,
        CONNECTION_TIMEOUT_SECS + 1,
    );
    assert!(matches!(estado, BridgeState::Closed { reason: BridgeReason::IdleTimeout }));
    assert_eq!(acoes.len(), 1);
    assert!(matches!(&acoes[0], BridgeAction::UnregisterConnection(u) if u == UUID_UNS));
}

#[test]
fn ponte_quieta_mas_dentro_do_prazo_manda_keepalive() {
    let store = UserStore::new();
    let encaminhando = BridgeState::Bridging { uuid: UUID_UNS.to_string(), last_activity: 0 };
    let (estado, acoes) = bridge_step(
        encaminhando,
        BridgeEvent::KeepaliveTick,
        &store,
        CONNECTION_TIMEOUT_SECS,
    );
    assert!(matches!(estado, BridgeState::Bridging { .. }));
    assert_eq!(acoes.len(), 1);
    assert!(matches!(acoes[0], BridgeAction::SendKeepalive));
}

#[test]
fn ponte_atividade_renova_o_relogio() {
    let store = UserStore::new();
    let encaminhando = BridgeState::Bridging { uuid: UUID_UNS.to_string(), last_activity: 10 };
    let (estado, acoes) = bridge_step(encaminhando, BridgeEvent::Activity, &store, 250);
    match estado {
        BridgeState::Bridging { last_activity, .. } => assert_eq!(last_activity, 250),
        _ => panic!("a sessao devia seguir encaminhando"),
    }
    assert!(acoes.is_empty());
}

#[test]
fn ponte_cancelamento_desregistra() {
    let store = UserStore::new();
    let encaminhando = BridgeState::Bridging { uuid: UUID_UNS.to_string(), last_activity: 10 };
    let (estado, acoes) = bridge_step(encaminhando, BridgeEvent::Cancel, &store, 20);
    assert!(matches!(estado, BridgeState::Closed { reason: BridgeReason::Cancelled }));
    assert!(matches!(&acoes[0], BridgeAction::UnregisterConnection(u) if u == UUID_UNS));
}

#[test]
fn registro_de_conexoes_vai_e_volta() {
    let mut ativas = novas_conexoes();
    assert!(listar_usuarios_online(&ativas).is_empty());
    let chave = UUID_UNS.to_string();
    assert_eq!(adicionar_conexao(&mut ativas, &chave, 41), None);
    assert_eq!(adicionar_conexao(&mut ativas, &chave, 42), Some(41));
    let listado = listar_usuarios_online(&ativas);
    assert_eq!(listado, vec![UUID_UNS.to_string()]);
    assert_eq!(derrubar_conexao(&mut ativas, &chave), Some(42));
    assert_eq!(remover_conexao(&mut ativas, &chave), None);
    assert!(listar_usuarios_online(&ativas).is_empty());
}

#[test]
fn uuid_sem_tracos_tambem_e_aceito() {
    let bytes = vec![0x11u8; 16];
    let simples = "11111111111111111111111111111111";
    assert_eq!(parse_uuid_text(simples).unwrap(), bytes);
    let misto = "1111111111111111111111111111111A";
    assert!(parse_uuid_text(misto).unwrap()[15] == 0x1a);
    assert!(parse_uuid_text("111111111111111111111111111111").is_none());
    let pelo_caminho_simples =
        b"GET /11111111111111111111111111111111/s HTTP/1.1\r\nHost: x\r\n\r\n".to_vec();
    assert_eq!(
        vless_control::xhttp::parse_uuid_from_buf(&pelo_caminho_simples).as_deref(),
        Some("11111111-1111-1111-1111-111111111111")
    );
}

#[test]
fn uuid_texto_vai_e_volta() {
    let bytes: Vec<u8> = (0u8..16u8).collect();
    let texto = format_uuid(&bytes);
    assert_eq!(texto, "00010203-0405-0607-0809-0a0b0c0d0e0f");
    assert_eq!(parse_uuid_text(&texto).unwrap(), bytes);
    let maiusculo = "00010203-0405-0607-0809-0A0B0C0D0E0F";
    assert_eq!(parse_uuid_text(maiusculo).unwrap(), bytes);
    assert!(parse_uuid_text("nao-e-um-uuid").is_none());
    assert!(parse_uuid_text("00010203_0405_0607_0809_0a0b0c0d0e0f").is_none());
}
