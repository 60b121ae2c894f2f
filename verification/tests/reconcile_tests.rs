use vless_control::reconcile::{
    excluir_global, progress_percentage, sincronizar_usuarios, with_retry_decide, ConfigCache,
    ExcluirGlobalError, RetryDecision, SyncStatus, MAX_RETRIES,
};
use vless_control::store::{criar_usuario, UserStore};
use vless_control::upstream::{ClientEntry, Inbound, UpstreamDoc};
use vless_control::user::{ExcluirGlobalRequest, User, Usuario};

fn usuario(login: &str, uuid: Option<&str>, tipo: &str) -> User {
    User {
        login: login.to_string(),
        senha: "s".to_string(),
        dias: 30,
        limite: 1,
        uuid: uuid.map(|u| u.to_string()),
        tipo: tipo.to_string(),
        suspenso: false,
        dono: "admin".to_string(),
        byid: 1,
    }
}

fn doc_com_vless() -> UpstreamDoc {
    UpstreamDoc {
        inbounds: vec![
            Inbound { protocol: "vless".to_string(), clients: Vec::new() },
            Inbound { protocol: "dokodemo-door".to_string(), clients: Vec::new() },
        ],
    }
}

fn doc_v2ray() -> UpstreamDoc {
    UpstreamDoc {
        inbounds: vec![Inbound {
            protocol: "vmess".to_string(),
            clients: vec![ClientEntry { id: "velho".to_string(), email: "x".to_string() }],
        }],
    }
}

fn ids(clients: &[ClientEntry]) -> Vec<String> {
    clients.iter().map(|c| c.id.clone()).collect()
}

#[test]
fn sync_em_massa_converge() {
    let mut store = UserStore::new();
    criar_usuario(&mut store, usuario("a", Some("id-a"), "v2ray")).unwrap();
    criar_usuario(&mut store, usuario("b", Some("id-b"), "v2ray")).unwrap();
    let alvo = vec![usuario("b", Some("id-b"), "v2ray"), usuario("c", Some("id-c"), "xray")];
    let mut v2 = doc_v2ray();
    let mut xr = doc_com_vless();
    let removidos = sincronizar_usuarios(&mut store, &mut v2, &mut xr, &alvo);
    assert_eq!(removidos, vec!["a".to_string()]);
    let logins: Vec<String> = store.users.iter().map(|u| u.login.clone()).collect();
    assert_eq!(logins, vec!["b".to_string(), "c".to_string()]);
    assert_eq!(ids(&v2.inbounds[0].clients), vec!["id-b".to_string()]);
    assert_eq!(ids(&xr.inbounds[0].clients), vec!["id-c".to_string()]);
    assert!(xr.inbounds[1].clients.is_empty());
    let mut progresso = SyncStatus::new(alvo.len());
    progresso.update(1, None);
    progresso.update(1, None);
    assert_eq!(progresso.metrics.total_users, 2);
    assert_eq!(progresso.metrics.processed_users, 2);
    assert!(progresso.metrics.errors.is_empty());
}

#[test]
fn sync_duas_vezes_da_o_mesmo_estado() {
    let mut store = UserStore::new();
    criar_usuario(&mut store, usuario("a", Some("id-a"), "v2ray")).unwrap();
    criar_usuario(&mut store, usuario("b", Some("id-b"), "v2ray")).unwrap();
    let alvo = vec![usuario("b", Some("id-b"), "v2ray"), usuario("c", Some("id-c"), "xray")];
    let mut v2 = doc_v2ray();
    let mut xr = doc_com_vless();
    sincronizar_usuarios(&mut store, &mut v2, &mut xr, &alvo);
    let primeira: Vec<(String, String)> = store
        .users
        .iter()
        .map(|u| (u.login.clone(), u.uuid.clone().unwrap_or_default()))
        .collect();
    let v2_primeira = ids(&v2.inbounds[0].clients);
    let removidos = sincronizar_usuarios(&mut store, &mut v2, &mut xr, &alvo);
    assert!(removidos.is_empty());
    let segunda: Vec<(String, String)> = store
        .users
        .iter()
        .map(|u| (u.login.clone(), u.uuid.clone().unwrap_or_default()))
        .collect();
    assert_eq!(primeira, segunda);
    assert_eq!(v2_primeira, ids(&v2.inbounds[0].clients));
}

#[test]
fn sync_vazio_esvazia_as_listas() {
    let mut store = UserStore::new();
    criar_usuario(&mut store, usuario("a", Some("id-a"), "v2ray")).unwrap();
    criar_usuario(&mut store, usuario("x", Some("id-x"), "xray")).unwrap();
    let alvo: Vec<User> = Vec::new();
    let mut v2 = doc_v2ray();
    let mut xr = doc_com_vless();
    xr.inbounds[0].clients.push(ClientEntry { id: "id-x".to_string(), email: "x".to_string() });
    let removidos = sincronizar_usuarios(&mut store, &mut v2, &mut xr, &alvo);
    assert_eq!(removidos.len(), 2);
    assert!(store.users.is_empty());
    assert!(v2.inbounds[0].clients.is_empty());
    assert!(xr.inbounds[0].clients.is_empty());
}

#[test]
fn excluir_global_remove_e_reconstroi() {
    let mut store = UserStore::new();
    criar_usuario(&mut store, usuario("a", Some("id-a"), "v2ray")).unwrap();
    criar_usuario(&mut store, usuario("b", Some("id-b"), "xray")).unwrap();
    criar_usuario(&mut store, usuario("c", Some("id-c"), "v2ray")).unwrap();
    let pedido = ExcluirGlobalRequest {
        usuarios: vec![
            Usuario { usuario: "a".to_string(), uuid: Some("id-a".to_string()) },
            Usuario { usuario: "nao-ha".to_string(), uuid: None },
        ],
    };
    let out = excluir_global(&mut store, &pedido).unwrap();
    assert_eq!(out.removidos, vec!["a".to_string()]);
    assert_eq!(store.users.len(), 2);
    assert_eq!(ids(&out.v2ray_clients), vec!["id-c".to_string()]);
    assert_eq!(ids(&out.xray_clients), vec!["id-b".to_string()]);
}

#[test]
fn excluir_global_sem_alvo_e_erro() {
    let mut store = UserStore::new();
    criar_usuario(&mut store, usuario("a", Some("id-a"), "v2ray")).unwrap();
    let pedido = ExcluirGlobalRequest {
        usuarios: vec![Usuario { usuario: "zeta".to_string(), uuid: None }],
    };
    let r = excluir_global(&mut store, &pedido);
    assert!(matches!(r, Err(ExcluirGlobalError::NenhumUsuarioEncontrado)));
    assert_eq!(store.users.len(), 1);
}

#[test]
fn percentual_de_progresso() {
    assert_eq!(progress_percentage(0, 0), 0);
    assert_eq!(progress_percentage(0, 4), 0);
    assert_eq!(progress_percentage(1, 4), 25);
    assert_eq!(progress_percentage(1, 3), 33);
    assert_eq!(progress_percentage(3, 3), 100);
}

#[test]
fn retentativas_respeitam_o_teto() {
    assert_eq!(with_retry_decide(0, true), RetryDecision::Concluir);
    assert_eq!(with_retry_decide(0, false), RetryDecision::TentarNovamente);
    assert_eq!(with_retry_decide(MAX_RETRIES - 1, false), RetryDecision::TentarNovamente);
    assert_eq!(with_retry_decide(MAX_RETRIES, false), RetryDecision::Desistir);
}

#[test]
fn cache_expira_em_cinco_minutos() {
    let cache = ConfigCache::new(1000);
    assert!(!cache.need_refresh(1000));
    assert!(!cache.need_refresh(1300));
    assert!(cache.need_refresh(1301));
    assert!(!cache.need_refresh(900));
}

#[test]
fn update_registra_erros() {
    let mut progresso = SyncStatus::new(3);
    progresso.update(1, None);
    progresso.update(0, Some("conta recusada".to_string()));
    assert_eq!(progresso.metrics.processed_users, 1);
    assert_eq!(progresso.metrics.errors, vec!["conta recusada".to_string()]);
}
