//! The user records and request shapes carried over the command channel.

use vstd::prelude::*;

verus! {

/// One user of the panel, as the authoritative store holds it.
pub struct User {
    /// Unique primary identity.
    pub login: String,
    /// Opaque credential.
    pub senha: String,
    /// Lifetime in days from creation.
    pub dias: i32,
    /// Greatest number of concurrent sessions; zero means unlimited.
    pub limite: i32,
    /// Client identifier for the VLESS upstreams, hyphenated text form.
    pub uuid: Option<String>,
    /// Upstream kind: "ssh", "v2ray", "xray" or "openvpn".
    pub tipo: String,
    /// Whether the account is suspended.
    pub suspenso: bool,
    /// Operator that owns the account.
    pub dono: String,
    /// Numeric identity of the owner.
    pub byid: i32,
}

impl User {
    /// Field-for-field equality, as the reconciler uses to detect a
    /// record that needs an update.
    pub open spec fn same_record(self, other: User) -> bool {
        &&& self.login@ == other.login@
        &&& self.senha@ == other.senha@
        &&& self.dias == other.dias
        &&& self.limite == other.limite
        &&& opt_view(self.uuid) == opt_view(other.uuid)
        &&& self.tipo@ == other.tipo@
        &&& self.suspenso == other.suspenso
        &&& self.dono@ == other.dono@
        &&& self.byid == other.byid
    }

    /// Compare two records field for field.
    pub fn eq_record(&self, other: &User) -> (r: bool)
        ensures
            r == self.same_record(*other),
    {
        self.login == other.login && self.senha == other.senha && self.dias == other.dias
            && self.limite == other.limite && crate::text::opt_str_eq(&self.uuid, &other.uuid)
            && self.tipo == other.tipo && self.suspenso == other.suspenso && self.dono
            == other.dono && self.byid == other.byid
    }
}

impl Clone for User {
    fn clone(&self) -> (r: Self)
        ensures
            r == *self,
    {
        User {
            login: self.login.clone(),
            senha: self.senha.clone(),
            dias: self.dias,
            limite: self.limite,
            uuid: clone_opt_string(&self.uuid),
            tipo: self.tipo.clone(),
            suspenso: self.suspenso,
            dono: self.dono.clone(),
            byid: self.byid,
        }
    }
}

/// The view of an optional string, for contracts.
pub open spec fn opt_view(o: Option<String>) -> Option<Seq<char>> {
    match o {
        Some(s) => Some(s@),
        None => None,
    }
}

/// Clone an optional string.
pub fn clone_opt_string(o: &Option<String>) -> (r: Option<String>)
    ensures
        r == *o,
{
    match o {
        Some(s) => Some(s.clone()),
        None => None,
    }
}

/// Payload of a single-user delete.
pub struct DeleteRequest {
    /// Login of the account to remove.
    pub usuario: String,
    /// Client identifier to strip from the upstream config, if any.
    pub uuid: Option<String>,
}

/// One element of a bulk delete.
pub struct Usuario {
    /// Login of the account to remove.
    pub usuario: String,
    /// Client identifier to strip from the upstream config, if any.
    pub uuid: Option<String>,
}

/// Payload of a bulk delete.
pub struct ExcluirGlobalRequest {
    pub usuarios: Vec<Usuario>,
}

/// Payload of a single-user edit.
pub struct EditRequest {
    /// Login the account holds now.
    pub login_antigo: String,
    /// Login the account shall hold afterwards.
    pub login_novo: String,
    pub senha: String,
    pub dias: u32,
    pub limite: u32,
    pub uuid: Option<String>,
    /// Upstream kind after the edit.
    pub tipo: String,
}

/// One observed live session, before it is merged into the presence
/// store: a login, the transport kind, and for telemetry-derived entries
/// the cumulative byte counters as the telemetry endpoint reports them.
pub struct OnlineUser {
    pub login: String,
    pub downlink: Option<String>,
    pub uplink: Option<String>,
    /// "ssh", "openvpn" or "xray".
    pub tipo: String,
}

impl Clone for OnlineUser {
    fn clone(&self) -> (r: Self)
        ensures
            r == *self,
    {
        OnlineUser {
            login: self.login.clone(),
            downlink: clone_opt_string(&self.downlink),
            uplink: clone_opt_string(&self.uplink),
            tipo: self.tipo.clone(),
        }
    }
}

} // verus!
