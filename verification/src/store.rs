//! The authoritative store: the durable mapping from logins to user
//! records, plus the single-row tunnel hostname.  The surrounding
//! process mirrors every transition of this model into its database;
//! the model is the sole place the membership rules live.

use vstd::prelude::*;

use crate::text::str_is;
use crate::user::{opt_view, EditRequest, User};

verus! {

/// In-memory model of the authoritative store.
pub struct UserStore {
    /// The user rows.  Logins are unique (`wf`).
    pub users: Vec<User>,
    /// The single tunnel hostname row, if one was saved.
    pub dominio: Option<String>,
}

/// Logins are pairwise distinct.
pub open spec fn wf_users(users: Seq<User>) -> bool {
    forall|i: int, j: int|
        0 <= i < j < users.len() ==> (#[trigger] users[i]).login@ != (#[trigger] users[j]).login@
}

/// Some row carries this login.
pub open spec fn has_login(users: Seq<User>, login: Seq<char>) -> bool {
    exists|i: int| 0 <= i < users.len() && (#[trigger] users[i]).login@ == login
}

/// Some row carries this client identifier.
pub open spec fn has_uuid(users: Seq<User>, uuid: Seq<char>) -> bool {
    exists|i: int| 0 <= i < users.len() && opt_view((#[trigger] users[i]).uuid) == Some(uuid)
}

/// Client identifiers are pairwise distinct over the rows that have one.
pub open spec fn uuids_unique(users: Seq<User>) -> bool {
    forall|i: int, j: int|
        0 <= i < j < users.len() && (#[trigger] users[i]).uuid is Some && (
        #[trigger] users[j]).uuid is Some ==> opt_view(users[i].uuid) != opt_view(users[j].uuid)
}

/// The index of the first row with this login.
pub open spec fn login_index(users: Seq<User>, login: Seq<char>) -> int {
    choose|i: int| 0 <= i < users.len() && (#[trigger] users[i]).login@ == login
}

impl UserStore {
    /// The store invariant: logins unique.
    pub open spec fn wf(self) -> bool {
        wf_users(self.users@)
    }

    /// An empty store.
    pub fn new() -> (r: UserStore)
        ensures
            r.wf(),
            r.users@.len() == 0,
            r.dominio is None,
            uuids_unique(r.users@),
    {
        UserStore { users: Vec::new(), dominio: None }
    }
}

/// Find the first row with this login.
pub fn find_login(users: &Vec<User>, login: &String) -> (r: Option<usize>)
    ensures
        match r {
            Some(i) => i < users@.len() && users@[i as int].login@ == login@ && forall|j: int|
                0 <= j < i ==> (#[trigger] users@[j]).login@ != login@,
            None => !has_login(users@, login@),
        },
{
    let mut i: usize = 0;
    while i < users.len()
        invariant
            0 <= i <= users@.len(),
            forall|j: int| 0 <= j < i ==> (#[trigger] users@[j]).login@ != login@,
        decreases users@.len() - i,
    {
        if str_is(&users[i].login, login.as_str()) {
            return Some(i);
        }
        i = i + 1;
    }
    None
}

/// Find the first row whose client identifier equals the given text.
pub fn find_uuid(users: &Vec<User>, uuid: &String) -> (r: Option<usize>)
    ensures
        match r {
            Some(i) => i < users@.len() && opt_view(users@[i as int].uuid) == Some(uuid@),
            None => !has_uuid(users@, uuid@),
        },
{
    let mut i: usize = 0;
    while i < users.len()
        invariant
            0 <= i <= users@.len(),
            forall|j: int| 0 <= j < i ==> opt_view((#[trigger] users@[j]).uuid) != Some(uuid@),
        decreases users@.len() - i,
    {
        match &users[i].uuid {
            Some(u) => {
                if str_is(u, uuid.as_str()) {
                    return Some(i);
                }
            },
            None => {},
        }
        i = i + 1;
    }
    None
}

/// Whether a user with this client identifier exists: the sole
/// authorization question the proxy bridges ask.
pub fn validar_uuid(store: &UserStore, uuid: &String) -> (r: bool)
    ensures
        r == has_uuid(store.users@, uuid@),
{
    find_uuid(&store.users, uuid).is_some()
}

/// Replace the tunnel hostname row: delete-then-insert collapses to a
/// plain overwrite of the single row.
pub fn salvar_subdominio(store: &mut UserStore, subdominio: &String)
    ensures
        final(store).users == old(store).users,
        final(store).dominio matches Some(d) && d@ == subdominio@,
{
    store.dominio = Some(subdominio.clone());
}

/// Read the tunnel hostname row.
pub fn buscar_subdominio(store: &UserStore) -> (r: Option<String>)
    ensures
        opt_view(r) == opt_view(store.dominio),
{
    crate::user::clone_opt_string(&store.dominio)
}

/// Why a create was refused.
#[derive(Debug)]
pub enum CriarError {
    /// The membership probe itself failed (database unreachable).
    VerificarUsuario(String),
    /// The login is already taken.
    UsuarioJaExiste,
    /// The row could not be inserted; inside this model, only a
    /// duplicate client identifier.
    InserirUsuario(String),
    /// The follow-up work on the account data failed.
    ProcessarDadosUsuario,
}

/// Create one user: reject a duplicate login or a duplicate client
/// identifier, else append the row.
pub fn criar_usuario(store: &mut UserStore, user: User) -> (r: Result<(), CriarError>)
    requires
        old(store).wf(),
    ensures
        final(store).wf(),
        final(store).dominio == old(store).dominio,
        match r {
            Ok(()) => !has_login(old(store).users@, user.login@) && (user.uuid is Some
                ==> !has_uuid(old(store).users@, user.uuid->0@)) && final(store).users@
                == old(store).users@.push(user),
            Err(CriarError::UsuarioJaExiste) => has_login(old(store).users@, user.login@) && final(store).users == old(store).users,
            Err(CriarError::InserirUsuario(_)) => !has_login(old(store).users@, user.login@) && (
            user.uuid matches Some(u) && has_uuid(old(store).users@, u@)) && final(store).users
                == old(store).users,
            _ => false,
        },
        uuids_unique(old(store).users@) && r is Ok ==> uuids_unique(final(store).users@),
{
    if find_login(&store.users, &user.login).is_some() {
        return Err(CriarError::UsuarioJaExiste);
    }
    match &user.uuid {
        Some(u) => {
            if find_uuid(&store.users, u).is_some() {
                return Err(
                    CriarError::InserirUsuario(
                        "um usuario com este uuid ja existe".to_owned(),
                    ),
                );
            }
        },
        None => {},
    }
    let ghost pre = store.users@;
    store.users.push(user);
    proof {
        assert forall|i: int, j: int|
            0 <= i < j < store.users@.len() implies (#[trigger] store.users@[i]).login@ != (
        #[trigger] store.users@[j]).login@ by {
            if j == pre.len() as int {
                assert(!has_login(pre, user.login@));
            }
        }
    }
    Ok(())
}

/// Why a single-user delete failed; inside this model it cannot, and
/// these report command or database failures of the surrounding process.
#[derive(Debug)]
pub enum ExcluirError {
    FalhaComando,
    ExcluirUsuarioBanco(String),
}

/// What the caller must carry out around a single-user delete.
pub struct ExcluirOutcome {
    /// Remove this client identifier from this upstream kind's config
    /// before the account goes.
    pub remover_upstream: Option<(String, String)>,
    /// Kill the account's sessions and delete the OS account.
    pub remover_conta: bool,
}

/// Delete one user.  The row goes whether or not the OS account was
/// there (the store self-heals); the OS and upstream-config work is
/// returned as the outcome.
pub fn excluir_usuario(
    store: &mut UserStore,
    usuario: &String,
    uuid: &Option<String>,
    conta_existe: bool,
) -> (r: Result<ExcluirOutcome, ExcluirError>)
    requires
        old(store).wf(),
    ensures
        final(store).wf(),
        final(store).dominio == old(store).dominio,
        r is Ok,
        !has_login(final(store).users@, usuario@),
        has_login(old(store).users@, usuario@) ==> final(store).users@ == old(
            store,
        ).users@.remove(login_index(old(store).users@, usuario@)),
        !has_login(old(store).users@, usuario@) ==> final(store).users == old(store).users,
        match r {
            Ok(out) => {
                &&& out.remover_conta == conta_existe
                &&& match out.remover_upstream {
                    Some((tipo, u)) => {
                        &&& conta_existe
                        &&& uuid matches Some(w) && w@ == u@
                        &&& tipo@ == row_tipo_decision(old(store).users@, usuario@)
                    },
                    None => !(conta_existe && uuid is Some),
                }
            },
            Err(_) => false,
        },
{
    let idx = find_login(&store.users, usuario);
    let remover_upstream: Option<(String, String)> = if conta_existe {
        match uuid {
            Some(u) => {
                let tipo_xray = match idx {
                    Some(i) => str_is(&store.users[i].tipo, "xray"),
                    None => false,
                };
                if tipo_xray {
                    Some(("xray".to_owned(), u.clone()))
                } else {
                    Some(("v2ray".to_owned(), u.clone()))
                }
            },
            None => None,
        }
    } else {
        None
    };
    match idx {
        Some(i) => {
            proof {
                lemma_wf_first_index(store.users@, usuario@, i as int);
                lemma_remove_keeps_wf(store.users@, i as int);
                lemma_remove_drops_login(store.users@, i as int);
            }
            store.users.remove(i);
        },
        None => {},
    }
    Ok(ExcluirOutcome { remover_upstream, remover_conta: conta_existe })
}

/// Which upstream kind a delete strips the client from: the row's kind
/// when it is "xray", else the default kind.
pub open spec fn row_tipo_decision(users: Seq<User>, login: Seq<char>) -> Seq<char> {
    if has_login(users, login) && users[login_index(users, login)].tipo@ == "xray"@ {
        "xray"@
    } else {
        "v2ray"@
    }
}

/// Under `wf_users`, the first index found for a login is the chosen one.
pub proof fn lemma_wf_first_index(users: Seq<User>, login: Seq<char>, i: int)
    requires
        wf_users(users),
        0 <= i < users.len(),
        users[i].login@ == login,
    ensures
        login_index(users, login) == i,
{
    let j = login_index(users, login);
    assert(has_login(users, login));
    if j < i {
        assert(users[j].login@ != users[i].login@);
    } else if j > i {
        assert(users[i].login@ != users[j].login@);
    }
}

/// Removing a row keeps logins unique.
pub proof fn lemma_remove_keeps_wf(users: Seq<User>, i: int)
    requires
        wf_users(users),
        0 <= i < users.len(),
    ensures
        wf_users(users.remove(i)),
{
    let rest = users.remove(i);
    assert forall|p: int, q: int|
        0 <= p < q < rest.len() implies (#[trigger] rest[p]).login@ != (
    #[trigger] rest[q]).login@ by {
        let p0 = if p < i {
            p
        } else {
            p + 1
        };
        let q0 = if q < i {
            q
        } else {
            q + 1
        };
        assert(rest[p] == users[p0]);
        assert(rest[q] == users[q0]);
    }
}

/// Removing the one row with a login removes the login.
pub proof fn lemma_remove_drops_login(users: Seq<User>, i: int)
    requires
        wf_users(users),
        0 <= i < users.len(),
    ensures
        !has_login(users.remove(i), users[i].login@),
        forall|l: Seq<char>|
            l != users[i].login@ ==> (#[trigger] has_login(users.remove(i), l)) == has_login(
                users,
                l,
            ),
{
    let rest = users.remove(i);
    let login = users[i].login@;
    assert forall|k: int| 0 <= k < rest.len() implies (#[trigger] rest[k]).login@ != login by {
        let k0 = if k < i {
            k
        } else {
            k + 1
        };
        assert(rest[k] == users[k0]);
        if k0 < i {
            assert(users[k0].login@ != users[i].login@);
        } else {
            assert(users[i].login@ != users[k0].login@);
        }
    }
    assert forall|l: Seq<char>| l != login implies (#[trigger] has_login(rest, l)) == has_login(
        users,
        l,
    ) by {
        if has_login(users, l) {
            let k = choose|k: int| 0 <= k < users.len() && (#[trigger] users[k]).login@ == l;
            let k1 = if k < i {
                k
            } else {
                k - 1
            };
            assert(rest[k1] == users[k]);
            assert(has_login(rest, l));
        }
        if has_login(rest, l) {
            let k = choose|k: int| 0 <= k < rest.len() && (#[trigger] rest[k]).login@ == l;
            let k0 = if k < i {
                k
            } else {
                k + 1
            };
            assert(users[k0] == rest[k]);
            assert(has_login(users, l));
        }
    }
}

/// Why an edit was refused.
#[derive(Debug)]
pub enum EditarError {
    /// The membership probe itself failed (database unreachable).
    VerificarUsuario(String),
    /// The login to edit is not in the store.
    UsuarioNaoEncontrado,
    /// The row update failed in the surrounding process.
    AtualizarUsuarioBanco(String),
    /// The follow-up work on the account data failed.
    ProcessarDadosUsuario,
    /// The new login is already taken by another row.
    NovoLoginExiste,
}

/// What the caller must carry out around an edit.
pub struct EditOutcome {
    /// Strip this client identifier from this upstream kind's config:
    /// the upstream identity changed.
    pub remover_antigo: Option<(String, String)>,
    /// Rewrite the client's email field in place: only the login
    /// changed.  Kind, client identifier, new login.
    pub atualizar_email: Option<(String, String, String)>,
    /// Append the new identity's client to its upstream config.
    pub reprocessar: bool,
    /// The row as it stands after the edit.
    pub novo: User,
}

/// Whether the edit moves the account to another upstream identity.
pub open spec fn identity_changed(row: User, req: EditRequest) -> bool {
    opt_view(row.uuid) != opt_view(req.uuid) || row.tipo@ != req.tipo@
}

/// The row an edit writes: the requested fields, with ownership and
/// suspension carried over from the old row.
pub open spec fn edited_row(row: User, req: EditRequest) -> User {
    User {
        login: req.login_novo,
        senha: req.senha,
        dias: req.dias as i32,
        limite: req.limite as i32,
        uuid: req.uuid,
        tipo: req.tipo,
        suspenso: row.suspenso,
        dono: row.dono,
        byid: row.byid,
    }
}

/// Edit one user: fail when the old login is absent or the new login
/// taken; else rewrite the row in place and say which upstream-config
/// work the change needs.
pub fn editar_usuario(store: &mut UserStore, req: &EditRequest) -> (r: Result<
    EditOutcome,
    EditarError,
>)
    requires
        old(store).wf(),
        req.dias <= i32::MAX,
        req.limite <= i32::MAX,
    ensures
        final(store).wf(),
        final(store).dominio == old(store).dominio,
        match r {
            Ok(out) => {
                let i = login_index(old(store).users@, req.login_antigo@);
                let row = old(store).users@[i];
                &&& has_login(old(store).users@, req.login_antigo@)
                &&& req.login_novo@ != req.login_antigo@ ==> !has_login(
                    old(store).users@,
                    req.login_novo@,
                )
                &&& out.novo == edited_row(row, *req)
                &&& final(store).users@ == old(store).users@.update(i, out.novo)
                &&& out.reprocessar == identity_changed(row, *req)
                &&& match out.remover_antigo {
                    Some((tipo, u)) => identity_changed(row, *req) && (
                    row.uuid matches Some(w) && w@ == u@) && tipo@ == (if row.tipo@ == "xray"@ {
                        "xray"@
                    } else {
                        "v2ray"@
                    }),
                    None => !(identity_changed(row, *req) && row.uuid is Some),
                }
                &&& match out.atualizar_email {
                    Some((tipo, u, novo)) => !identity_changed(row, *req) && req.login_antigo@
                        != req.login_novo@ && (row.uuid matches Some(w) && w@ == u@) && tipo@
                        == row.tipo@ && (row.tipo@ == "xray"@ || row.tipo@ == "v2ray"@) && novo@
                        == req.login_novo@,
                    None => !(!identity_changed(row, *req) && req.login_antigo@
                        != req.login_novo@ && row.uuid is Some && (row.tipo@ == "xray"@
                        || row.tipo@ == "v2ray"@)),
                }
            },
            Err(EditarError::UsuarioNaoEncontrado) => !has_login(
                old(store).users@,
                req.login_antigo@,
            ) && final(store).users == old(store).users,
            Err(EditarError::NovoLoginExiste) => has_login(old(store).users@, req.login_antigo@)
                && req.login_novo@ != req.login_antigo@ && has_login(
                old(store).users@,
                req.login_novo@,
            ) && final(store).users == old(store).users,
            _ => false,
        },
{
    let idx = match find_login(&store.users, &req.login_antigo) {
        Some(i) => i,
        None => {
            return Err(EditarError::UsuarioNaoEncontrado);
        },
    };
    proof {
        lemma_wf_first_index(store.users@, req.login_antigo@, idx as int);
    }
    let login_igual = req.login_antigo == req.login_novo;
    if !login_igual && find_login(&store.users, &req.login_novo).is_some() {
        return Err(EditarError::NovoLoginExiste);
    }
    let row = &store.users[idx];
    let muda_identidade = !(crate::text::opt_str_eq(&row.uuid, &req.uuid) && row.tipo
        == req.tipo);
    let remover_antigo: Option<(String, String)> = if muda_identidade {
        match &row.uuid {
            Some(u) => {
                if str_is(&row.tipo, "xray") {
                    Some(("xray".to_owned(), u.clone()))
                } else {
                    Some(("v2ray".to_owned(), u.clone()))
                }
            },
            None => None,
        }
    } else {
        None
    };
    let atualizar_email: Option<(String, String, String)> = if !muda_identidade && !login_igual {
        match &row.uuid {
            Some(u) => {
                if str_is(&row.tipo, "xray") || str_is(&row.tipo, "v2ray") {
                    Some((row.tipo.clone(), u.clone(), req.login_novo.clone()))
                } else {
                    None
                }
            },
            None => None,
        }
    } else {
        None
    };
    let novo = User {
        login: req.login_novo.clone(),
        senha: req.senha.clone(),
        dias: req.dias as i32,
        limite: req.limite as i32,
        uuid: crate::user::clone_opt_string(&req.uuid),
        tipo: req.tipo.clone(),
        suspenso: row.suspenso,
        dono: row.dono.clone(),
        byid: row.byid,
    };
    let ghost pre = store.users@;
    let novo2 = novo.clone();
    store.users[idx] = novo;
    proof {
        assert(store.users@ =~= pre.update(idx as int, novo2));
        assert forall|i: int, j: int|
            0 <= i < j < store.users@.len() implies (#[trigger] store.users@[i]).login@ != (
        #[trigger] store.users@[j]).login@ by {
            if i != idx as int && j != idx as int {
                assert(pre[i].login@ != pre[j].login@);
            } else {
                if req.login_novo@ == req.login_antigo@ {
                    assert(pre[i].login@ != pre[j].login@);
                } else {
                    assert(!has_login(pre, req.login_novo@));
                }
            }
        }
    }
    Ok(EditOutcome { remover_antigo, atualizar_email, reprocessar: muda_identidade, novo: novo2 })
}

/// A create followed by a delete of the same login returns the store to
/// its prior row count.
pub proof fn lemma_create_delete_row_count(pre: Seq<User>, user: User)
    requires
        wf_users(pre),
        !has_login(pre, user.login@),
    ensures
        pre.push(user).remove(login_index(pre.push(user), user.login@)).len() == pre.len(),
{
    let mid = pre.push(user);
    assert(mid[pre.len() as int].login@ == user.login@);
    assert forall|i: int, j: int|
        0 <= i < j < mid.len() implies (#[trigger] mid[i]).login@ != (
    #[trigger] mid[j]).login@ by {
        if j == pre.len() as int {
            assert(!has_login(pre, user.login@));
        }
    }
    lemma_wf_first_index(mid, user.login@, pre.len() as int);
}

} // verus!
