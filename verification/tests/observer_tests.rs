use vless_control::observer::{
    monitor_online_users, monitor_users, render_hms, xray_step, PresenceEntry, PresenceStore,
    Status,
};
use vless_control::store::{criar_usuario, UserStore};
use vless_control::user::{OnlineUser, User};

fn usuario(login: &str, uuid: Option<&str>, tipo: &str, limite: i32) -> User {
    User {
        login: login.to_string(),
        senha: "s".to_string(),
        dias: 30,
        limite,
        uuid: uuid.map(|u| u.to_string()),
        tipo: tipo.to_string(),
        suspenso: false,
        dono: "admin".to_string(),
        byid: 9,
    }
}

fn obs_ssh(login: &str) -> OnlineUser {
    OnlineUser { login: login.to_string(), downlink: None, uplink: None, tipo: "ssh".to_string() }
}

fn obs_xray(login: &str, down: &str, up: &str) -> OnlineUser {
    OnlineUser {
        login: login.to_string(),
        downlink: Some(down.to_string()),
        uplink: Some(up.to_string()),
        tipo: "xray".to_string(),
    }
}

#[test]
fn passo_xray_ativo_liga_e_zera() {
    let r = xray_step(20000, 0, 1000, 0, 2);
    assert_eq!(r.status, Status::On);
    assert_eq!(r.no_change_ticks, 0);
}

#[test]
fn passo_xray_pouco_trafego_nao_conta_como_atividade() {
    // the counters moved, but stay under the byte floor
    let r = xray_step(5000, 0, 0, 0, 0);
    assert_eq!(r.status, Status::On);
    assert_eq!(r.no_change_ticks, 1);
}

#[test]
fn tres_ticks_parados_desligam() {
    let mut ticks = 0;
    let mut status = Status::On;
    for _ in 0..3 {
        let r = xray_step(10000, 10000, 10000, 10000, ticks);
        ticks = r.no_change_ticks;
        status = r.status;
    }
    assert_eq!(status, Status::Off);
    assert_eq!(ticks, 3);
}

#[test]
fn tick_registra_sessao_ssh() {
    let mut presenca = PresenceStore::new();
    let mut store = UserStore::new();
    criar_usuario(&mut store, usuario("bob", None, "ssh", 5)).unwrap();
    let online = vec![obs_ssh("bob")];
    let kills = monitor_online_users(&mut presenca, &store, &online, 100);
    assert!(kills.is_empty());
    assert_eq!(presenca.entries.len(), 1);
    let e = &presenca.entries[0];
    assert_eq!(e.login, "bob");
    assert_eq!(e.session_tag, "bob");
    assert_eq!(e.status, Status::On);
    assert_eq!(e.last_seen, 100);
    assert_eq!(e.dono, "admin");
    assert_eq!(e.limite, 5);
    assert_eq!(e.conexoes, 1);
}

#[test]
fn limite_excedido_derruba_o_login() {
    let mut presenca = PresenceStore::new();
    let mut store = UserStore::new();
    criar_usuario(&mut store, usuario("bob", None, "ssh", 1)).unwrap();
    let online = vec![obs_ssh("bob"), obs_ssh("bob")];
    let kills = monitor_online_users(&mut presenca, &store, &online, 100);
    assert_eq!(kills, vec!["bob".to_string()]);
}

#[test]
fn limite_zero_nunca_derruba() {
    let mut presenca = PresenceStore::new();
    let mut store = UserStore::new();
    criar_usuario(&mut store, usuario("bob", None, "ssh", 0)).unwrap();
    let online = vec![obs_ssh("bob"), obs_ssh("bob"), obs_ssh("bob")];
    let kills = monitor_online_users(&mut presenca, &store, &online, 100);
    assert!(kills.is_empty());
}

#[test]
fn entrada_vencida_some_em_oito_segundos() {
    let mut presenca = PresenceStore::new();
    let mut store = UserStore::new();
    criar_usuario(&mut store, usuario("bob", None, "ssh", 5)).unwrap();
    let online = vec![obs_ssh("bob")];
    monitor_online_users(&mut presenca, &store, &online, 100);
    // the session vanishes; within the lifetime the entry survives
    let vazio: Vec<OnlineUser> = Vec::new();
    monitor_online_users(&mut presenca, &store, &vazio, 105);
    assert_eq!(presenca.entries.len(), 1);
    // past the lifetime it is dropped
    monitor_online_users(&mut presenca, &store, &vazio, 109);
    assert!(presenca.entries.is_empty());
}

#[test]
fn xray_parado_tres_ticks_sai_do_store() {
    let mut presenca = PresenceStore::new();
    let mut store = UserStore::new();
    criar_usuario(&mut store, usuario("ana", Some("id-ana"), "xray", 0)).unwrap();
    // first tick: enough traffic to be on
    monitor_online_users(&mut presenca, &store, &vec![obs_xray("ana", "20000", "0")], 10);
    assert_eq!(presenca.entries.len(), 1);
    assert_eq!(presenca.entries[0].session_tag, "id-ana");
    // three quiet ticks: counters frozen
    monitor_online_users(&mut presenca, &store, &vec![obs_xray("ana", "20000", "0")], 12);
    monitor_online_users(&mut presenca, &store, &vec![obs_xray("ana", "20000", "0")], 14);
    assert_eq!(presenca.entries.len(), 1);
    monitor_online_users(&mut presenca, &store, &vec![obs_xray("ana", "20000", "0")], 16);
    assert!(presenca.entries.is_empty());
}

#[test]
fn inicio_de_sessao_e_mantido_enquanto_ligada() {
    let mut presenca = PresenceStore::new();
    let mut store = UserStore::new();
    criar_usuario(&mut store, usuario("bob", None, "ssh", 5)).unwrap();
    monitor_online_users(&mut presenca, &store, &vec![obs_ssh("bob")], 100);
    monitor_online_users(&mut presenca, &store, &vec![obs_ssh("bob")], 104);
    assert_eq!(presenca.entries[0].inicio_sessao, 100);
    assert_eq!(presenca.entries[0].last_seen, 104);
}

#[test]
fn relogio_em_hms() {
    assert_eq!(render_hms(0), "00:00:00");
    assert_eq!(render_hms(3661), "01:01:01");
    assert_eq!(render_hms(86399), "23:59:59");
    assert_eq!(render_hms(360000), "100:00:00");
}

#[test]
fn snapshot_lista_somente_ligados() {
    let ligado = PresenceEntry {
        login: "bob".to_string(),
        session_tag: "bob".to_string(),
        tipo: "ssh".to_string(),
        status: Status::On,
        inicio_sessao: 100,
        dono: "admin".to_string(),
        byid: 9,
        limite: 5,
        conexoes: 2,
        last_seen: 3761,
        downlink: 0,
        uplink: 0,
        downlink_prev: 0,
        uplink_prev: 0,
        no_change_ticks: 0,
    };
    let mut desligado = ligado.clone();
    desligado.login = "eva".to_string();
    desligado.session_tag = "eva".to_string();
    desligado.status = Status::Off;
    let presenca = PresenceStore { entries: vec![ligado, desligado] };
    let snap = monitor_users(&presenca, 3761);
    assert_eq!(snap.total, 1);
    assert_eq!(snap.users.len(), 1);
    assert_eq!(snap.users[0].login, "bob");
    assert_eq!(snap.users[0].tempo_online, "01:01:01");
    assert_eq!(snap.users[0].conexoes_simultaneas, 2);
    assert_eq!(snap.users[0].byid, 9);
}

#[test]
fn contadores_observados_viram_o_novo_prev() {
    // a trickle below the byte floor each tick never counts as
    // activity, because the deltas read against the last observed
    // values; the session goes off after three quiet ticks
    let mut presenca = PresenceStore::new();
    let mut store = UserStore::new();
    criar_usuario(&mut store, usuario("ana", Some("id-ana"), "xray", 0)).unwrap();
    monitor_online_users(&mut presenca, &store, &vec![obs_xray("ana", "20000", "0")], 10);
    assert_eq!(presenca.entries[0].downlink, 20000);
    monitor_online_users(&mut presenca, &store, &vec![obs_xray("ana", "24000", "0")], 12);
    assert_eq!(presenca.entries[0].downlink, 24000);
    assert_eq!(presenca.entries[0].downlink_prev, 20000);
    assert_eq!(presenca.entries[0].no_change_ticks, 1);
    monitor_online_users(&mut presenca, &store, &vec![obs_xray("ana", "28000", "0")], 14);
    assert_eq!(presenca.entries[0].no_change_ticks, 2);
    monitor_online_users(&mut presenca, &store, &vec![obs_xray("ana", "32000", "0")], 16);
    assert!(presenca.entries.is_empty());
}
