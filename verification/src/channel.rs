//! The command channel: token-checked text frames of the form
//! `TOKEN:VERB:PAYLOAD`, dispatched to the mutators and the
//! synchronizer.  The payload document is carried through as text; the
//! surrounding process decodes it and calls the store transitions.

use vstd::prelude::*;

use crate::text::{str_eq, str_is};

verus! {

/// A control command, with its payload document still as text.
pub enum Comando {
    Criar(String),
    Editar(String),
    Excluir(String),
    ExcluirGlobal(String),
    Sincronizar(String),
}

/// Why a control frame was refused.
#[derive(Debug)]
pub enum WsHandlerError {
    /// The frame's token is not the configured token.
    TokenInvalido,
    /// The frame is not of the form `TOKEN:VERB:PAYLOAD`, or the verb
    /// is unknown.
    FormatoInvalido,
    /// The payload is not a user record, or its kind is not accepted.
    DadosUsuarioInvalidos,
    /// The payload is not a single delete.
    DadosExclusaoInvalidos,
    /// The payload is not a bulk delete.
    DadosExclusaoGlobalInvalidos,
    /// The payload is not an edit.
    DadosEdicaoInvalidos,
    CriarUsuario(crate::store::CriarError),
    ExcluirUsuario(crate::store::ExcluirError),
    ExcluirGlobal(crate::reconcile::ExcluirGlobalError),
    SincronizarUsuarios(crate::reconcile::SyncError),
    EditarUsuario(crate::store::EditarError),
}

impl WsHandlerError {
    /// The reply text of this error, as the channel sends it.
    pub fn mensagem(&self) -> (r: String)
        ensures
            match self {
                WsHandlerError::TokenInvalido => r@ == "Token invalido"@,
                WsHandlerError::FormatoInvalido => r@
                    == "Formato invalido. Use TOKEN:VERBO:DADOS"@,
                WsHandlerError::DadosUsuarioInvalidos => r@ == "Dados de usuario invalidos"@,
                WsHandlerError::DadosExclusaoInvalidos => r@ == "Dados de exclusao invalidos"@,
                WsHandlerError::DadosExclusaoGlobalInvalidos => r@
                    == "Dados de exclusao global invalidos"@,
                WsHandlerError::DadosEdicaoInvalidos => r@ == "Dados de edicao invalidos"@,
                WsHandlerError::CriarUsuario(_) => r@ == "Erro ao criar usuario"@,
                WsHandlerError::ExcluirUsuario(_) => r@ == "Erro ao excluir usuario"@,
                WsHandlerError::ExcluirGlobal(_) => r@ == "Erro ao excluir usuarios globais"@,
                WsHandlerError::SincronizarUsuarios(_) => r@ == "Erro ao sincronizar usuarios"@,
                WsHandlerError::EditarUsuario(_) => r@ == "Erro ao editar usuario"@,
            },
    {
        match self {
            WsHandlerError::TokenInvalido => "Token invalido".to_owned(),
            WsHandlerError::FormatoInvalido => "Formato invalido. Use TOKEN:VERBO:DADOS".to_owned(),
            WsHandlerError::DadosUsuarioInvalidos => "Dados de usuario invalidos".to_owned(),
            WsHandlerError::DadosExclusaoInvalidos => "Dados de exclusao invalidos".to_owned(),
            WsHandlerError::DadosExclusaoGlobalInvalidos => "Dados de exclusao global invalidos".to_owned(),
            WsHandlerError::DadosEdicaoInvalidos => "Dados de edicao invalidos".to_owned(),
            WsHandlerError::CriarUsuario(_) => "Erro ao criar usuario".to_owned(),
            WsHandlerError::ExcluirUsuario(_) => "Erro ao excluir usuario".to_owned(),
            WsHandlerError::ExcluirGlobal(_) => "Erro ao excluir usuarios globais".to_owned(),
            WsHandlerError::SincronizarUsuarios(_) => "Erro ao sincronizar usuarios".to_owned(),
            WsHandlerError::EditarUsuario(_) => "Erro ao editar usuario".to_owned(),
        }
    }
}

/// The first colon of the frame stands here.
pub open spec fn primeiro_separador(s: Seq<char>, i: int) -> bool {
    0 <= i < s.len() && s[i] == ':' && forall|k: int| 0 <= k < i ==> s[k] != ':'
}

/// The second colon of the frame stands here, the first being at `i`.
pub open spec fn segundo_separador(s: Seq<char>, i: int, j: int) -> bool {
    i < j < s.len() && s[j] == ':' && forall|k: int| i < k < j ==> s[k] != ':'
}

/// What dispatching decides for a well-split frame.
pub open spec fn despacho_ok(
    s: Seq<char>,
    token: Seq<char>,
    i: int,
    j: int,
    r: Result<(Comando, String), WsHandlerError>,
) -> bool {
    let frame_token = s.take(i);
    let verbo = s.subrange(i + 1, j);
    let payload = s.skip(j + 1);
    if frame_token != token {
        r == Result::<(Comando, String), WsHandlerError>::Err(WsHandlerError::TokenInvalido)
    } else if verbo == "CREATE"@ {
        r matches Ok((Comando::Criar(p), resposta)) && p@ == payload && resposta@ == verbo
            + " accepted"@
    } else if verbo == "EDIT"@ {
        r matches Ok((Comando::Editar(p), resposta)) && p@ == payload && resposta@ == verbo
            + " accepted"@
    } else if verbo == "DELETE"@ {
        r matches Ok((Comando::Excluir(p), resposta)) && p@ == payload && resposta@ == verbo
            + " accepted"@
    } else if verbo == "DELETE_GLOBAL"@ {
        r matches Ok((Comando::ExcluirGlobal(p), resposta)) && p@ == payload && resposta@ == verbo
            + " accepted"@
    } else if verbo == "SYNC"@ {
        r matches Ok((Comando::Sincronizar(p), resposta)) && p@ == payload && resposta@ == verbo
            + " accepted"@
    } else {
        r == Result::<(Comando, String), WsHandlerError>::Err(WsHandlerError::FormatoInvalido)
    }
}

/// Find the first colon at or after `from`.
fn achar_separador(s: &str, from: usize) -> (r: Option<usize>)
    requires
        from <= s@.len(),
    ensures
        match r {
            Some(i) => from <= i < s@.len() && s@[i as int] == ':' && forall|k: int|
                from <= k < i ==> s@[k] != ':',
            None => forall|k: int| from <= k < s@.len() ==> s@[k] != ':',
        },
{
    let n = s.unicode_len();
    let mut i: usize = from;
    while i < n
        invariant
            from <= i <= n,
            n == s@.len(),
            forall|k: int| from <= k < i ==> s@[k] != ':',
        decreases n - i,
    {
        if s.get_char(i) == ':' {
            return Some(i);
        }
        i = i + 1;
    }
    None
}

/// Take a control frame apart and decide its dispatch: the shape must
/// be `TOKEN:VERB:PAYLOAD`, the token must match, the verb must be
/// known; the accepted reply names the verb.
pub fn handle_message(text: &String, api_token: &String) -> (r: Result<
    (Comando, String),
    WsHandlerError,
>)
    ensures
        (forall|i: int| !primeiro_separador(text@, i)) ==> r == Result::<
            (Comando, String),
            WsHandlerError,
        >::Err(WsHandlerError::FormatoInvalido),
        forall|i: int|
            #[trigger] primeiro_separador(text@, i) && (forall|j: int|
                !#[trigger] segundo_separador(text@, i, j)) ==> r == Result::<
                (Comando, String),
                WsHandlerError,
            >::Err(WsHandlerError::FormatoInvalido),
        forall|i: int, j: int|
            #[trigger] primeiro_separador(text@, i) && #[trigger] segundo_separador(text@, i, j)
                ==> despacho_ok(text@, api_token@, i, j, r),
{
    proof {
        reveal_strlit("CREATE");
        reveal_strlit("EDIT");
        reveal_strlit("DELETE");
        reveal_strlit("DELETE_GLOBAL");
        reveal_strlit("SYNC");
        reveal_strlit(" accepted");
    }
    let n = text.as_str().unicode_len();
    let i = match achar_separador(text.as_str(), 0) {
        Some(i) => i,
        None => {
            proof {
                assert(forall|i: int| !primeiro_separador(text@, i));
            }
            return Err(WsHandlerError::FormatoInvalido);
        },
    };
    proof {
        assert(primeiro_separador(text@, i as int));
        assert forall|i2: int| #[trigger] primeiro_separador(text@, i2) implies i2 == i as int by {
            if i2 < i as int {
                assert(text@[i2] != ':');
            } else if i2 > i as int {
                assert(text@[i as int] != ':');
            }
        }
    }
    let j = match achar_separador(text.as_str(), i + 1) {
        Some(j) => j,
        None => {
            proof {
                assert(forall|j: int| !segundo_separador(text@, i as int, j));
            }
            return Err(WsHandlerError::FormatoInvalido);
        },
    };
    proof {
        assert(segundo_separador(text@, i as int, j as int));
        assert forall|j2: int| #[trigger] segundo_separador(text@, i as int, j2) implies j2
            == j as int by {
            if j2 < j as int {
                assert(text@[j2] != ':');
            } else if j2 > j as int {
                assert(text@[j as int] != ':');
            }
        }
    }
    let frame_token = text.as_str().substring_char(0, i);
    let verbo = text.as_str().substring_char(i + 1, j);
    let payload = text.as_str().substring_char(j + 1, n);
    proof {
        assert(frame_token@ =~= text@.take(i as int));
        assert(verbo@ =~= text@.subrange(i as int + 1, j as int));
        assert(payload@ =~= text@.skip(j as int + 1));
    }
    if !str_eq(frame_token, api_token.as_str()) {
        return Err(WsHandlerError::TokenInvalido);
    }
    if str_eq(verbo, "CREATE") {
        let mut resp = verbo.to_owned();
        resp.append(" accepted");
        Ok((Comando::Criar(payload.to_owned()), resp))
    } else if str_eq(verbo, "EDIT") {
        let mut resp = verbo.to_owned();
        resp.append(" accepted");
        Ok((Comando::Editar(payload.to_owned()), resp))
    } else if str_eq(verbo, "DELETE") {
        let mut resp = verbo.to_owned();
        resp.append(" accepted");
        Ok((Comando::Excluir(payload.to_owned()), resp))
    } else if str_eq(verbo, "DELETE_GLOBAL") {
        let mut resp = verbo.to_owned();
        resp.append(" accepted");
        Ok((Comando::ExcluirGlobal(payload.to_owned()), resp))
    } else if str_eq(verbo, "SYNC") {
        let mut resp = verbo.to_owned();
        resp.append(" accepted");
        Ok((Comando::Sincronizar(payload.to_owned()), resp))
    } else {
        Err(WsHandlerError::FormatoInvalido)
    }
}

/// What the surrounding process found when it decoded a payload
/// document, handed back as plain values: for the single-record verbs
/// the decoded kind (or nothing when the document is not such a
/// record), for the bulk sync the kinds of all records, for the
/// deletes only whether the document decoded.
pub enum PayloadInfo {
    Registro(Option<String>),
    Edicao(Option<String>),
    Exclusao(bool),
    ExclusaoGlobal(bool),
    Sincronizacao(Option<Vec<String>>),
}

/// The kind is one the channel accepts.
pub open spec fn tipo_aceito(tipo: Seq<char>) -> bool {
    tipo == "v2ray"@ || tipo == "xray"@
}

/// Every kind of the list is accepted.
pub open spec fn todos_tipos_aceitos(tipos: Seq<String>) -> bool {
    forall|i: int| 0 <= i < tipos.len() ==> tipo_aceito((#[trigger] tipos[i])@)
}

/// Decide whether a decoded payload is dispatched or refused, and with
/// which error: a document that does not decode is the verb's own
/// payload error, a record or sync element whose kind is not accepted
/// is refused as invalid user data.  Only an `Ok` here lets the verb's
/// accepted reply go out and the background work start; on an error
/// the channel replies the error and stays open.
pub fn validar_payload(info: &PayloadInfo) -> (r: Result<(), WsHandlerError>)
    ensures
        match info {
            PayloadInfo::Registro(tipo) => match tipo {
                Some(t) => if tipo_aceito(t@) {
                    r is Ok
                } else {
                    r == Result::<(), WsHandlerError>::Err(WsHandlerError::DadosUsuarioInvalidos)
                },
                None => r == Result::<(), WsHandlerError>::Err(
                    WsHandlerError::DadosUsuarioInvalidos,
                ),
            },
            PayloadInfo::Edicao(tipo) => match tipo {
                Some(t) => if tipo_aceito(t@) {
                    r is Ok
                } else {
                    r == Result::<(), WsHandlerError>::Err(WsHandlerError::DadosUsuarioInvalidos)
                },
                None => r == Result::<(), WsHandlerError>::Err(
                    WsHandlerError::DadosEdicaoInvalidos,
                ),
            },
            PayloadInfo::Exclusao(ok) => if *ok {
                r is Ok
            } else {
                r == Result::<(), WsHandlerError>::Err(WsHandlerError::DadosExclusaoInvalidos)
            },
            PayloadInfo::ExclusaoGlobal(ok) => if *ok {
                r is Ok
            } else {
                r == Result::<(), WsHandlerError>::Err(
                    WsHandlerError::DadosExclusaoGlobalInvalidos,
                )
            },
            PayloadInfo::Sincronizacao(tipos) => match tipos {
                Some(ts) => if todos_tipos_aceitos(ts@) {
                    r is Ok
                } else {
                    r == Result::<(), WsHandlerError>::Err(WsHandlerError::DadosUsuarioInvalidos)
                },
                None => r == Result::<(), WsHandlerError>::Err(
                    WsHandlerError::DadosUsuarioInvalidos,
                ),
            },
        },
{
    match info {
        PayloadInfo::Registro(tipo) => match tipo {
            Some(t) => {
                if validar_tipo(t) {
                    Ok(())
                } else {
                    Err(WsHandlerError::DadosUsuarioInvalidos)
                }
            },
            None => Err(WsHandlerError::DadosUsuarioInvalidos),
        },
        PayloadInfo::Edicao(tipo) => match tipo {
            Some(t) => {
                if validar_tipo(t) {
                    Ok(())
                } else {
                    Err(WsHandlerError::DadosUsuarioInvalidos)
                }
            },
            None => Err(WsHandlerError::DadosEdicaoInvalidos),
        },
        PayloadInfo::Exclusao(ok) => {
            if *ok {
                Ok(())
            } else {
                Err(WsHandlerError::DadosExclusaoInvalidos)
            }
        },
        PayloadInfo::ExclusaoGlobal(ok) => {
            if *ok {
                Ok(())
            } else {
                Err(WsHandlerError::DadosExclusaoGlobalInvalidos)
            }
        },
        PayloadInfo::Sincronizacao(tipos) => match tipos {
            Some(ts) => {
                if todos_aceitos(ts) {
                    Ok(())
                } else {
                    Err(WsHandlerError::DadosUsuarioInvalidos)
                }
            },
            None => Err(WsHandlerError::DadosUsuarioInvalidos),
        },
    }
}

/// Check every kind of a sync payload.
fn todos_aceitos(ts: &Vec<String>) -> (r: bool)
    ensures
        r == todos_tipos_aceitos(ts@),
{
    let mut i: usize = 0;
    while i < ts.len()
        invariant
            0 <= i <= ts@.len(),
            forall|j: int| 0 <= j < i ==> tipo_aceito((#[trigger] ts@[j])@),
        decreases ts@.len() - i,
    {
        if !validar_tipo(&ts[i]) {
            return false;
        }
        i = i + 1;
    }
    true
}

/// The first frame of every endpoint must be exactly the configured
/// token.
pub fn autenticar_frame(frame: &String, api_token: &String) -> (r: bool)
    ensures
        r == (frame@ == api_token@),
{
    *frame == *api_token
}

/// The live-session stream sends a snapshot only when it differs from
/// the last one sent.
pub fn deve_enviar(atual: &String, ultimo: &String) -> (r: bool)
    ensures
        r == (atual@ != ultimo@),
{
    !(*atual == *ultimo)
}

/// The kinds a create or sync payload may carry.
pub fn validar_tipo(tipo: &String) -> (r: bool)
    ensures
        r == (tipo@ == "v2ray"@ || tipo@ == "xray"@),
{
    str_is(tipo, "v2ray") || str_is(tipo, "xray")
}

} // verus!
