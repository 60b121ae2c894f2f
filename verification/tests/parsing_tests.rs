use vless_control::channel::{
    autenticar_frame, deve_enviar, handle_message, validar_payload, Comando, PayloadInfo,
    WsHandlerError,
};
use vless_control::config::{disable_logs, enable_logs, Config, ConfigError, LogSettings};
use vless_control::email::gerar_email_aleatorio;
use vless_control::sessions::{
    get_all_online_users, get_users, get_xray_online_users, parse_openvpn_line, parse_sshd_login,
    parse_xray_stat, XrayStat,
};
use vless_control::text::{parse_u64_dec, u64_to_string, u64_to_two_digits};
use vless_control::upstream::{
    adicionar_uuid_ao_v2ray, adicionar_usuario_xray, atualizar_configs_v2ray, atualizar_email_xray,
    clients_for_kind, process_user_data, remover_uuid_v2ray, remover_uuids_xray, ClientEntry,
    Inbound, UpstreamDoc,
};
use vless_control::user::User;
use vless_control::xhttp::parse_uuid_from_buf;

fn usuario(login: &str, uuid: Option<&str>, tipo: &str) -> User {
    User {
        login: login.to_string(),
        senha: "s".to_string(),
        dias: 30,
        limite: 1,
        uuid: uuid.map(|u| u.to_string()),
        tipo: tipo.to_string(),
        suspenso: false,
        dono: "admin".to_string(),
        byid: 1,
    }
}

fn ids(clients: &[ClientEntry]) -> Vec<String> {
    clients.iter().map(|c| c.id.clone()).collect()
}

#[test]
fn numeros_em_decimal() {
    assert_eq!(parse_u64_dec(&"1234".to_string()), 1234);
    assert_eq!(parse_u64_dec(&"0".to_string()), 0);
    assert_eq!(parse_u64_dec(&"".to_string()), 0);
    assert_eq!(parse_u64_dec(&"12a".to_string()), 0);
    assert_eq!(parse_u64_dec(&"18446744073709551615".to_string()), u64::MAX);
    assert_eq!(parse_u64_dec(&"18446744073709551616".to_string()), 0);
    assert_eq!(u64_to_string(0), "0");
    assert_eq!(u64_to_string(907), "907");
    assert_eq!(u64_to_two_digits(5), "05");
    assert_eq!(u64_to_two_digits(59), "59");
    assert_eq!(u64_to_two_digits(100), "100");
}

#[test]
fn email_aleatorio_tem_forma_fixa() {
    let mail = gerar_email_aleatorio(10);
    assert_eq!(mail.len(), 20);
    assert!(mail.ends_with("@gmail.com"));
    assert!(mail[..10].chars().all(|c| c.is_ascii_alphanumeric()));
    let outra = gerar_email_aleatorio(0);
    assert_eq!(outra, "@gmail.com");
}

#[test]
fn linha_do_ps_revela_o_login() {
    let linha = "root      1234  0.0  0.0 13796  8912 ?  Ss  10:00  0:00 sshd: bob [priv]";
    assert_eq!(parse_sshd_login(linha).as_deref(), Some("bob"));
    let sem_priv = "root 1234 sshd: bob";
    assert!(parse_sshd_login(sem_priv).is_none());
    let de_root = "root 1 sshd: root [priv]";
    assert!(parse_sshd_login(de_root).is_none());
    let qualquer = "bob 999 bash";
    assert!(parse_sshd_login(qualquer).is_none());
}

#[test]
fn linha_do_openvpn_revela_o_login() {
    assert_eq!(parse_openvpn_line("carol,10.8.0.2:4444,123,456").as_deref(), Some("carol"));
    assert_eq!(parse_openvpn_line("  carol ,10.8.0.2").as_deref(), Some("carol"));
    assert!(parse_openvpn_line("root,10.8.0.2").is_none());
    assert!(parse_openvpn_line("sem virgula").is_none());
    assert!(parse_openvpn_line(",vazio").is_none());
}

#[test]
fn nome_de_contador_e_decifrado() {
    let r = parse_xray_stat("user>>>ana>>>traffic>>>downlink").unwrap();
    assert_eq!(r.0, "ana");
    assert!(r.1);
    let r2 = parse_xray_stat("user>>>ana>>>traffic>>>uplink").unwrap();
    assert!(!r2.1);
    assert!(parse_xray_stat("inbound>>>x>>>traffic>>>downlink").is_none());
    assert!(parse_xray_stat("user>>>ana>>>memoria>>>downlink").is_none());
    assert!(parse_xray_stat("user>>>ana>>>traffic>>>total").is_none());
}

#[test]
fn contadores_agregados_por_login() {
    let stats = vec![
        XrayStat { nome: "user>>>ana>>>traffic>>>downlink".to_string(), valor: 111 },
        XrayStat { nome: "user>>>bia>>>traffic>>>uplink".to_string(), valor: 5 },
        XrayStat { nome: "user>>>ana>>>traffic>>>uplink".to_string(), valor: 222 },
        XrayStat { nome: "lixo".to_string(), valor: 9 },
    ];
    let r = get_xray_online_users(&stats);
    assert_eq!(r.len(), 2);
    assert_eq!(r[0], ("ana".to_string(), "111".to_string(), "222".to_string()));
    assert_eq!(r[1], ("bia".to_string(), "".to_string(), "5".to_string()));
}

#[test]
fn todas_as_fontes_juntas() {
    let ps = vec![
        "root 1 sshd: bob [priv]".to_string(),
        "nada a ver".to_string(),
    ];
    let ovpn = vec!["carol,10.8.0.2:4444".to_string()];
    let xray = vec![("ana".to_string(), "111".to_string(), "222".to_string())];
    let todos = get_all_online_users(&ps, &ovpn, &xray);
    assert_eq!(todos.len(), 3);
    assert_eq!(todos[0].login, "bob");
    assert_eq!(todos[0].tipo, "ssh");
    assert!(todos[0].downlink.is_none());
    assert_eq!(todos[1].login, "carol");
    assert_eq!(todos[1].tipo, "openvpn");
    assert_eq!(todos[2].login, "ana");
    assert_eq!(todos[2].tipo, "xray");
    assert_eq!(todos[2].downlink.as_deref(), Some("111"));
    assert_eq!(todos[2].uplink.as_deref(), Some("222"));
    let logins = get_users(&ps, &ovpn);
    assert_eq!(logins, vec!["bob".to_string(), "carol".to_string()]);
}

#[test]
fn cabecalho_http_revela_o_identificador() {
    let com_header = b"POST /stream HTTP/1.1\r\nHost: x\r\nx-uuid: 22222222-2222-2222-2222-222222222222\r\n\r\n".to_vec();
    assert_eq!(
        parse_uuid_from_buf(&com_header).as_deref(),
        Some("22222222-2222-2222-2222-222222222222")
    );
    let pelo_caminho =
        b"GET /11111111-1111-1111-1111-111111111111/stream HTTP/1.1\r\nHost: x\r\n\r\n".to_vec();
    assert_eq!(
        parse_uuid_from_buf(&pelo_caminho).as_deref(),
        Some("11111111-1111-1111-1111-111111111111")
    );
    let maiusculo =
        b"GET /33333333-3333-3333-3333-33333333333A/ HTTP/1.1\r\nHost: x\r\n\r\n".to_vec();
    assert_eq!(
        parse_uuid_from_buf(&maiusculo).as_deref(),
        Some("33333333-3333-3333-3333-33333333333a")
    );
    let incompleto = b"GET /11111111-1111-1111-1111-111111111111".to_vec();
    assert!(parse_uuid_from_buf(&incompleto).is_none());
    let sem_uuid = b"GET /index.html HTTP/1.1\r\nHost: x\r\n\r\n".to_vec();
    assert!(parse_uuid_from_buf(&sem_uuid).is_none());
}

#[test]
fn frame_de_controle_bem_formado() {
    let token = "tok123".to_string();
    let frame = format!("{}:CREATE:{{\"login\":\"a\"}}", token);
    let (comando, resposta) = handle_message(&frame, &token).unwrap();
    assert!(matches!(comando, Comando::Criar(p) if p == "{\"login\":\"a\"}"));
    assert_eq!(resposta, "CREATE accepted");
    let frame_sync = format!("{}:SYNC:[]", token);
    let (comando, resposta) = handle_message(&frame_sync, &token).unwrap();
    assert!(matches!(comando, Comando::Sincronizar(p) if p == "[]"));
    assert_eq!(resposta, "SYNC accepted");
}

#[test]
fn frame_com_token_errado_e_recusado() {
    let token = "bom".to_string();
    let frame = "mau:CREATE:{}".to_string();
    assert!(matches!(handle_message(&frame, &token), Err(WsHandlerError::TokenInvalido)));
}

#[test]
fn frame_mal_formado_e_recusado() {
    let token = "bom".to_string();
    assert!(matches!(
        handle_message(&"sem separadores".to_string(), &token),
        Err(WsHandlerError::FormatoInvalido)
    ));
    assert!(matches!(
        handle_message(&"bom:so-um".to_string(), &token),
        Err(WsHandlerError::FormatoInvalido)
    ));
    assert!(matches!(
        handle_message(&"bom:VOAR:{}".to_string(), &token),
        Err(WsHandlerError::FormatoInvalido)
    ));
}

#[test]
fn autenticacao_e_reenvio() {
    let token = "tk".to_string();
    assert!(autenticar_frame(&"tk".to_string(), &token));
    assert!(!autenticar_frame(&"outro".to_string(), &token));
    assert!(deve_enviar(&"a".to_string(), &"b".to_string()));
    assert!(!deve_enviar(&"a".to_string(), &"a".to_string()));
}

#[test]
fn configuracao_valida_chaves_obrigatorias() {
    let cfg = Config {
        api_token: "".to_string(),
        database_url: "postgres://x".to_string(),
        logs_enabled: None,
        tunnel_api_key: "".to_string(),
        tunnel_domain: "".to_string(),
        upstream_port: 1080,
    };
    assert!(matches!(cfg.validate(), Err(ConfigError::MissingApiToken)));
    let sem_banco = Config {
        api_token: "tk".to_string(),
        database_url: "".to_string(),
        logs_enabled: None,
        tunnel_api_key: "".to_string(),
        tunnel_domain: "".to_string(),
        upstream_port: 1080,
    };
    assert!(matches!(sem_banco.validate(), Err(ConfigError::MissingDatabaseUrl)));
    let boa = Config {
        api_token: "tk".to_string(),
        database_url: "postgres://x".to_string(),
        logs_enabled: Some(false),
        tunnel_api_key: "".to_string(),
        tunnel_domain: "".to_string(),
        upstream_port: 1080,
    };
    let boa = boa.validate().unwrap();
    assert!(!boa.logs_wanted());
    let carregada = Some(boa);
    assert_eq!(Config::get(&carregada).upstream_port, 1080);
    let mut logs = LogSettings { enabled: false };
    enable_logs(&mut logs);
    assert!(logs.enabled);
    disable_logs(&mut logs);
    assert!(!logs.enabled);
}

#[test]
fn lista_de_clientes_deduplicada() {
    let users = vec![
        usuario("a", Some("X"), "v2ray"),
        usuario("b", Some("X"), "v2ray"),
        usuario("c", Some("Y"), "v2ray"),
        usuario("d", Some(""), "v2ray"),
        usuario("e", Some("Z"), "xray"),
        usuario("f", None, "v2ray"),
    ];
    let clients = clients_for_kind(&users, "v2ray");
    assert_eq!(ids(&clients), vec!["X".to_string(), "Y".to_string()]);
    assert_eq!(clients[0].email, "a");
}

#[test]
fn editar_listas_de_clientes_no_documento() {
    let mut doc = UpstreamDoc {
        inbounds: vec![
            Inbound { protocol: "vless".to_string(), clients: Vec::new() },
            Inbound { protocol: "http".to_string(), clients: Vec::new() },
        ],
    };
    adicionar_usuario_xray(&mut doc, &"ana".to_string(), &"id-1".to_string()).unwrap();
    adicionar_usuario_xray(&mut doc, &"bia".to_string(), &"id-2".to_string()).unwrap();
    // a second add of the same identifier leaves the inbound alone
    adicionar_usuario_xray(&mut doc, &"ana".to_string(), &"id-1".to_string()).unwrap();
    assert_eq!(ids(&doc.inbounds[0].clients), vec!["id-1".to_string(), "id-2".to_string()]);
    assert!(doc.inbounds[1].clients.is_empty());
    atualizar_email_xray(&mut doc, &"id-1".to_string(), &"ana2".to_string());
    assert_eq!(doc.inbounds[0].clients[0].email, "ana2");
    remover_uuids_xray(&mut doc, &vec!["id-1".to_string()]);
    assert_eq!(ids(&doc.inbounds[0].clients), vec!["id-2".to_string()]);

    let sem_vless = UpstreamDoc {
        inbounds: vec![Inbound { protocol: "http".to_string(), clients: Vec::new() }],
    };
    let mut sem_vless = sem_vless;
    assert!(adicionar_usuario_xray(&mut sem_vless, &"x".to_string(), &"id".to_string()).is_err());
}

#[test]
fn documento_padrao_usa_o_primeiro_inbound() {
    let mut doc = UpstreamDoc {
        inbounds: vec![Inbound { protocol: "vmess".to_string(), clients: Vec::new() }],
    };
    assert!(adicionar_uuid_ao_v2ray(&mut doc, &"id-1".to_string(), &"mail@gmail.com".to_string()));
    assert!(!adicionar_uuid_ao_v2ray(&mut doc, &"id-1".to_string(), &"outro@gmail.com".to_string()));
    assert_eq!(doc.inbounds[0].clients.len(), 1);
    assert_eq!(doc.inbounds[0].clients[0].email, "mail@gmail.com");
    remover_uuid_v2ray(&mut doc, &"id-1".to_string());
    assert!(doc.inbounds[0].clients.is_empty());
    let users = vec![usuario("a", Some("A"), "v2ray")];
    atualizar_configs_v2ray(&mut doc, &users).unwrap();
    assert_eq!(ids(&doc.inbounds[0].clients), vec!["A".to_string()]);
    let mut vazio = UpstreamDoc { inbounds: Vec::new() };
    assert!(atualizar_configs_v2ray(&mut vazio, &users).is_err());
}

#[test]
fn processa_dados_do_usuario_por_tipo() {
    let mut doc = UpstreamDoc {
        inbounds: vec![Inbound { protocol: "vless".to_string(), clients: Vec::new() }],
    };
    let u = usuario("ana", Some("id-9"), "xray");
    let reload = process_user_data(&u, &"m@gmail.com".to_string(), &mut doc, true).unwrap();
    assert!(reload);
    assert_eq!(ids(&doc.inbounds[0].clients), vec!["id-9".to_string()]);
    assert_eq!(doc.inbounds[0].clients[0].email, "ana");

    let mut doc_v2 = UpstreamDoc {
        inbounds: vec![Inbound { protocol: "vmess".to_string(), clients: Vec::new() }],
    };
    let v = usuario("v", Some("id-v"), "v2ray");
    let reload = process_user_data(&v, &"m@gmail.com".to_string(), &mut doc_v2, true).unwrap();
    assert!(reload);
    assert_eq!(doc_v2.inbounds[0].clients[0].email, "m@gmail.com");
    // absent config file: nothing to do
    let reload = process_user_data(&v, &"m@gmail.com".to_string(), &mut doc_v2, false).unwrap();
    assert!(!reload);
}

#[test]
fn payload_recusado_tem_o_erro_do_verbo() {
    // a document that does not decode
    assert!(matches!(
        validar_payload(&PayloadInfo::Registro(None)),
        Err(WsHandlerError::DadosUsuarioInvalidos)
    ));
    assert!(matches!(
        validar_payload(&PayloadInfo::Edicao(None)),
        Err(WsHandlerError::DadosEdicaoInvalidos)
    ));
    assert!(matches!(
        validar_payload(&PayloadInfo::Exclusao(false)),
        Err(WsHandlerError::DadosExclusaoInvalidos)
    ));
    assert!(matches!(
        validar_payload(&PayloadInfo::ExclusaoGlobal(false)),
        Err(WsHandlerError::DadosExclusaoGlobalInvalidos)
    ));
    assert!(matches!(
        validar_payload(&PayloadInfo::Sincronizacao(None)),
        Err(WsHandlerError::DadosUsuarioInvalidos)
    ));
    // a kind the channel does not accept
    assert!(matches!(
        validar_payload(&PayloadInfo::Registro(Some("ssh".to_string()))),
        Err(WsHandlerError::DadosUsuarioInvalidos)
    ));
    assert!(matches!(
        validar_payload(&PayloadInfo::Sincronizacao(Some(vec![
            "v2ray".to_string(),
            "openvpn".to_string()
        ]))),
        Err(WsHandlerError::DadosUsuarioInvalidos)
    ));
    // accepted shapes go through
    assert!(validar_payload(&PayloadInfo::Registro(Some("xray".to_string()))).is_ok());
    assert!(validar_payload(&PayloadInfo::Edicao(Some("v2ray".to_string()))).is_ok());
    assert!(validar_payload(&PayloadInfo::Exclusao(true)).is_ok());
    assert!(validar_payload(&PayloadInfo::ExclusaoGlobal(true)).is_ok());
    assert!(validar_payload(&PayloadInfo::Sincronizacao(Some(Vec::new()))).is_ok());
}

#[test]
fn mensagens_de_erro_do_canal() {
    assert_eq!(WsHandlerError::TokenInvalido.mensagem(), "Token invalido");
    assert_eq!(
        WsHandlerError::FormatoInvalido.mensagem(),
        "Formato invalido. Use TOKEN:VERBO:DADOS"
    );
    assert_eq!(WsHandlerError::DadosUsuarioInvalidos.mensagem(), "Dados de usuario invalidos");
    assert_eq!(WsHandlerError::DadosEdicaoInvalidos.mensagem(), "Dados de edicao invalidos");
}
