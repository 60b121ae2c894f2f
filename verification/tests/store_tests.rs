use vless_control::store::{
    buscar_subdominio, criar_usuario, editar_usuario, excluir_usuario, salvar_subdominio,
    validar_uuid, CriarError, EditarError, UserStore,
};
use vless_control::user::{EditRequest, User};

fn usuario(login: &str, uuid: Option<&str>, tipo: &str) -> User {
    User {
        login: login.to_string(),
        senha: "segredo".to_string(),
        dias: 30,
        limite: 2,
        uuid: uuid.map(|u| u.to_string()),
        tipo: tipo.to_string(),
        suspenso: false,
        dono: "admin".to_string(),
        byid: 7,
    }
}

#[test]
fn criar_insere_linha() {
    let mut store = UserStore::new();
    let r = criar_usuario(&mut store, usuario("alice", Some("aaaa"), "v2ray"));
    assert!(r.is_ok());
    assert_eq!(store.users.len(), 1);
    assert_eq!(store.users[0].login, "alice");
}

#[test]
fn criar_duplicado_conflita_e_preserva_linha() {
    let mut store = UserStore::new();
    criar_usuario(&mut store, usuario("alice", Some("aaaa"), "v2ray")).unwrap();
    let mut segunda = usuario("alice", Some("bbbb"), "xray");
    segunda.senha = "outra".to_string();
    let r = criar_usuario(&mut store, segunda);
    assert!(matches!(r, Err(CriarError::UsuarioJaExiste)));
    assert_eq!(store.users.len(), 1);
    assert_eq!(store.users[0].senha, "segredo");
    assert_eq!(store.users[0].tipo, "v2ray");
}

#[test]
fn criar_uuid_duplicado_conflita() {
    let mut store = UserStore::new();
    criar_usuario(&mut store, usuario("alice", Some("aaaa"), "v2ray")).unwrap();
    let r = criar_usuario(&mut store, usuario("bob", Some("aaaa"), "v2ray"));
    assert!(matches!(r, Err(CriarError::InserirUsuario(_))));
    assert_eq!(store.users.len(), 1);
}

#[test]
fn criar_e_excluir_volta_ao_tamanho_anterior() {
    let mut store = UserStore::new();
    criar_usuario(&mut store, usuario("base", Some("9999"), "v2ray")).unwrap();
    let antes = store.users.len();
    criar_usuario(&mut store, usuario("alice", Some("aaaa"), "v2ray")).unwrap();
    let login = "alice".to_string();
    let uuid = Some("aaaa".to_string());
    let r = excluir_usuario(&mut store, &login, &uuid, true);
    assert!(r.is_ok());
    assert_eq!(store.users.len(), antes);
}

#[test]
fn excluir_decide_upstream_pelo_tipo() {
    let mut store = UserStore::new();
    criar_usuario(&mut store, usuario("xu", Some("xid"), "xray")).unwrap();
    let login = "xu".to_string();
    let uuid = Some("xid".to_string());
    let out = excluir_usuario(&mut store, &login, &uuid, true).unwrap();
    let (tipo, id) = out.remover_upstream.unwrap();
    assert_eq!(tipo, "xray");
    assert_eq!(id, "xid");
    assert!(out.remover_conta);
    assert_eq!(store.users.len(), 0);
}

#[test]
fn excluir_sem_conta_ainda_remove_linha() {
    let mut store = UserStore::new();
    criar_usuario(&mut store, usuario("ghost", None, "v2ray")).unwrap();
    let login = "ghost".to_string();
    let out = excluir_usuario(&mut store, &login, &None, false).unwrap();
    assert!(out.remover_upstream.is_none());
    assert!(!out.remover_conta);
    assert_eq!(store.users.len(), 0);
}

#[test]
fn validar_uuid_consulta_o_store() {
    let mut store = UserStore::new();
    criar_usuario(&mut store, usuario("alice", Some("id-1"), "v2ray")).unwrap();
    assert!(validar_uuid(&store, &"id-1".to_string()));
    assert!(!validar_uuid(&store, &"id-2".to_string()));
}

#[test]
fn editar_ausente_falha() {
    let mut store = UserStore::new();
    let req = EditRequest {
        login_antigo: "nao-ha".to_string(),
        login_novo: "novo".to_string(),
        senha: "s".to_string(),
        dias: 1,
        limite: 1,
        uuid: None,
        tipo: "v2ray".to_string(),
    };
    let r = editar_usuario(&mut store, &req);
    assert!(matches!(r, Err(EditarError::UsuarioNaoEncontrado)));
}

#[test]
fn editar_novo_login_ocupado_falha() {
    let mut store = UserStore::new();
    criar_usuario(&mut store, usuario("a", Some("ua"), "v2ray")).unwrap();
    criar_usuario(&mut store, usuario("b", Some("ub"), "v2ray")).unwrap();
    let req = EditRequest {
        login_antigo: "a".to_string(),
        login_novo: "b".to_string(),
        senha: "s".to_string(),
        dias: 1,
        limite: 1,
        uuid: Some("ua".to_string()),
        tipo: "v2ray".to_string(),
    };
    let r = editar_usuario(&mut store, &req);
    assert!(matches!(r, Err(EditarError::NovoLoginExiste)));
    assert_eq!(store.users.len(), 2);
}

#[test]
fn editar_identidade_mudou_remove_e_readiciona() {
    let mut store = UserStore::new();
    criar_usuario(&mut store, usuario("a", Some("ua"), "v2ray")).unwrap();
    let req = EditRequest {
        login_antigo: "a".to_string(),
        login_novo: "a".to_string(),
        senha: "nova".to_string(),
        dias: 10,
        limite: 3,
        uuid: Some("ux".to_string()),
        tipo: "xray".to_string(),
    };
    let out = editar_usuario(&mut store, &req).unwrap();
    assert!(out.reprocessar);
    let (tipo, id) = out.remover_antigo.unwrap();
    assert_eq!(tipo, "v2ray");
    assert_eq!(id, "ua");
    assert!(out.atualizar_email.is_none());
    assert_eq!(store.users[0].tipo, "xray");
    assert_eq!(store.users[0].uuid.as_deref(), Some("ux"));
}

#[test]
fn editar_so_login_atualiza_email() {
    let mut store = UserStore::new();
    criar_usuario(&mut store, usuario("a", Some("ua"), "xray")).unwrap();
    let req = EditRequest {
        login_antigo: "a".to_string(),
        login_novo: "a2".to_string(),
        senha: "segredo".to_string(),
        dias: 30,
        limite: 2,
        uuid: Some("ua".to_string()),
        tipo: "xray".to_string(),
    };
    let out = editar_usuario(&mut store, &req).unwrap();
    assert!(!out.reprocessar);
    assert!(out.remover_antigo.is_none());
    let (tipo, id, novo) = out.atualizar_email.unwrap();
    assert_eq!(tipo, "xray");
    assert_eq!(id, "ua");
    assert_eq!(novo, "a2");
    assert_eq!(store.users[0].login, "a2");
}

#[test]
fn subdominio_sobrescreve_e_volta() {
    let mut store = UserStore::new();
    assert!(buscar_subdominio(&store).is_none());
    salvar_subdominio(&mut store, &"painel.example.net".to_string());
    assert_eq!(buscar_subdominio(&store).as_deref(), Some("painel.example.net"));
    salvar_subdominio(&mut store, &"outro.example.net".to_string());
    assert_eq!(buscar_subdominio(&store).as_deref(), Some("outro.example.net"));
}
