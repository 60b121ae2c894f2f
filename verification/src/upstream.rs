//! The upstream VLESS client lists.
//!
//! The two upstream engines each read a JSON config whose inbounds carry
//! a client list.  This module models exactly what the control plane
//! reads and rewrites of those documents: the protocol tag of each
//! inbound and its client entries.  The surrounding process parses the
//! file into this shape, lets these functions rewrite it, and splices
//! the result back into the full document, leaving every other field
//! untouched.

use vstd::prelude::*;

use crate::text::str_is;
use crate::user::User;

verus! {

/// One client entry of an inbound: the identifier and the mail tag.
/// The per-kind constant fields (`alterId`, `level`) are not modeled.
pub struct ClientEntry {
    pub id: String,
    pub email: String,
}

impl Clone for ClientEntry {
    fn clone(&self) -> (r: Self)
        ensures
            r == *self,
    {
        ClientEntry { id: self.id.clone(), email: self.email.clone() }
    }
}

/// One inbound of an upstream config: its protocol and its clients.
pub struct Inbound {
    pub protocol: String,
    pub clients: Vec<ClientEntry>,
}

/// The part of an upstream config document the control plane touches.
pub struct UpstreamDoc {
    pub inbounds: Vec<Inbound>,
}

/// Some client in the list carries this identifier.
pub open spec fn has_id(clients: Seq<ClientEntry>, id: Seq<char>) -> bool {
    exists|i: int| 0 <= i < clients.len() && (#[trigger] clients[i]).id@ == id
}

/// Whether a user belongs on the client list of this upstream kind.
pub open spec fn user_matches(u: User, kind: Seq<char>) -> bool {
    u.tipo@ == kind && (u.uuid matches Some(x) && x@.len() > 0)
}

/// The client entry a user contributes.
pub open spec fn client_of(u: User) -> ClientEntry
    recommends
        u.uuid is Some,
{
    ClientEntry { id: u.uuid->0, email: u.login }
}

/// The client list a user set induces for one upstream kind: every user
/// of that kind with a non-empty identifier, first occurrence of each
/// identifier kept.
pub open spec fn build_clients(users: Seq<User>, kind: Seq<char>) -> Seq<ClientEntry>
    decreases users.len(),
{
    if users.len() == 0 {
        Seq::empty()
    } else {
        let pre = build_clients(users.drop_last(), kind);
        let u = users.last();
        if user_matches(u, kind) && !has_id(pre, u.uuid->0@) {
            pre.push(client_of(u))
        } else {
            pre
        }
    }
}

/// Build the deduplicated client list for one upstream kind.
pub fn clients_for_kind(users: &Vec<User>, kind: &str) -> (r: Vec<ClientEntry>)
    ensures
        r@ == build_clients(users@, kind@),
{
    let mut out: Vec<ClientEntry> = Vec::new();
    let mut i: usize = 0;
    while i < users.len()
        invariant
            0 <= i <= users@.len(),
            out@ == build_clients(users@.take(i as int), kind@),
        decreases users@.len() - i,
    {
        let u = &users[i];
        proof {
            assert(users@.take(i + 1).drop_last() =~= users@.take(i as int));
            assert(users@.take(i + 1).last() == users@[i as int]);
        }
        if str_is(&u.tipo, kind) {
            match &u.uuid {
                Some(x) => {
                    if x.as_str().unicode_len() > 0 && !contains_id(&out, x) {
                        out.push(ClientEntry { id: x.clone(), email: u.login.clone() });
                    }
                },
                None => {},
            }
        }
        i = i + 1;
    }
    proof {
        assert(users@.take(users@.len() as int) =~= users@);
    }
    out
}

/// Scan a client list for an identifier.
pub fn contains_id(clients: &Vec<ClientEntry>, id: &String) -> (r: bool)
    ensures
        r == has_id(clients@, id@),
{
    let mut i: usize = 0;
    while i < clients.len()
        invariant
            0 <= i <= clients@.len(),
            forall|j: int| 0 <= j < i ==> (#[trigger] clients@[j]).id@ != id@,
        decreases clients@.len() - i,
    {
        if str_is(&clients[i].id, id.as_str()) {
            return true;
        }
        i = i + 1;
    }
    false
}

/// Clone a client list.
fn clone_clients(clients: &Vec<ClientEntry>) -> (r: Vec<ClientEntry>)
    ensures
        r@ == clients@,
{
    let mut out: Vec<ClientEntry> = Vec::new();
    let mut i: usize = 0;
    while i < clients.len()
        invariant
            0 <= i <= clients@.len(),
            out@ == clients@.take(i as int),
        decreases clients@.len() - i,
    {
        out.push(clients[i].clone());
        proof {
            assert(out@ =~= clients@.take(i + 1));
        }
        i = i + 1;
    }
    proof {
        assert(clients@.take(clients@.len() as int) =~= clients@);
    }
    out
}

/// Replace the clients of one inbound, keeping its protocol.
fn set_clients(inbounds: &mut Vec<Inbound>, i: usize, clients: Vec<ClientEntry>)
    requires
        i < old(inbounds)@.len(),
    ensures
        final(inbounds)@ == old(inbounds)@.update(
            i as int,
            Inbound { protocol: old(inbounds)@[i as int].protocol, clients: clients },
        ),
{
    let protocol = inbounds[i].protocol.clone();
    inbounds[i] = Inbound { protocol, clients };
}

/// The first inbound carries exactly this client list afterwards; the
/// other inbounds, and the first inbound's protocol, are untouched.
pub open spec fn first_inbound_replaced(
    before: Seq<Inbound>,
    after: Seq<Inbound>,
    clients: Seq<ClientEntry>,
) -> bool {
    &&& before.len() > 0
    &&& after.len() == before.len()
    &&& after[0].protocol == before[0].protocol
    &&& after[0].clients@ == clients
    &&& forall|j: int| 1 <= j < before.len() ==> #[trigger] after[j] == before[j]
}

/// Rewrite the default-kind client list from the user set: deduplicated,
/// first occurrence kept, into the first inbound.
pub fn atualizar_configs_v2ray(doc: &mut UpstreamDoc, usuarios: &Vec<User>) -> (r: Result<
    (),
    String,
>)
    ensures
        match r {
            Ok(()) => first_inbound_replaced(
                old(doc).inbounds@,
                final(doc).inbounds@,
                build_clients(usuarios@, "v2ray"@),
            ),
            Err(_) => old(doc).inbounds@.len() == 0 && *final(doc) == *old(doc),
        },
{
    if doc.inbounds.len() == 0 {
        return Err("configuracao sem inbounds".to_owned());
    }
    let clients = clients_for_kind(usuarios, "v2ray");
    set_clients(&mut doc.inbounds, 0, clients);
    Ok(())
}

/// Every inbound that speaks the VLESS protocol carries exactly this
/// client list afterwards; the others, and every protocol tag, are
/// untouched.
pub open spec fn vless_replaced(
    before: Seq<Inbound>,
    after: Seq<Inbound>,
    clients: Seq<ClientEntry>,
) -> bool {
    &&& after.len() == before.len()
    &&& forall|i: int|
        0 <= i < before.len() && before[i].protocol@ == "vless"@ ==> (#[trigger] after[i]).protocol
            == before[i].protocol && after[i].clients@ == clients
    &&& forall|i: int|
        0 <= i < before.len() && before[i].protocol@ != "vless"@ ==> #[trigger] after[i]
            == before[i]
}

/// Rewrite the telemetry-kind client list from the user set, into every
/// VLESS inbound.
pub fn atualizar_configs_xray(doc: &mut UpstreamDoc, usuarios: &Vec<User>) -> (r: Result<
    (),
    String,
>)
    ensures
        r is Ok,
        vless_replaced(
            old(doc).inbounds@,
            final(doc).inbounds@,
            build_clients(usuarios@, "xray"@),
        ),
{
    let clients = clients_for_kind(usuarios, "xray");
    let ghost pre = doc.inbounds@;
    let ghost target = build_clients(usuarios@, "xray"@);
    let mut i: usize = 0;
    while i < doc.inbounds.len()
        invariant
            0 <= i <= pre.len(),
            doc.inbounds@.len() == pre.len(),
            clients@ == target,
            forall|j: int|
                0 <= j < i && pre[j].protocol@ == "vless"@ ==> (#[trigger] doc.inbounds@[j]).protocol
                    == pre[j].protocol && doc.inbounds@[j].clients@ == target,
            forall|j: int|
                0 <= j < pre.len() && (j >= i || pre[j].protocol@ != "vless"@)
                    ==> #[trigger] doc.inbounds@[j] == pre[j],
        decreases pre.len() - i,
    {
        if str_is(&doc.inbounds[i].protocol, "vless") {
            let copy = clone_clients(&clients);
            set_clients(&mut doc.inbounds, i, copy);
        }
        i = i + 1;
    }
    Ok(())
}

/// The identifier occurs in a list of identifiers.
pub open spec fn id_in_list(ids: Seq<String>, id: Seq<char>) -> bool {
    exists|i: int| 0 <= i < ids.len() && (#[trigger] ids[i])@ == id
}

/// Scan a list of identifiers for one.
fn list_has_id(ids: &Vec<String>, id: &String) -> (r: bool)
    ensures
        r == id_in_list(ids@, id@),
{
    let mut i: usize = 0;
    while i < ids.len()
        invariant
            0 <= i <= ids@.len(),
            forall|j: int| 0 <= j < i ==> (#[trigger] ids@[j])@ != id@,
        decreases ids@.len() - i,
    {
        if str_is(&ids[i], id.as_str()) {
            return true;
        }
        i = i + 1;
    }
    false
}

/// The clients whose identifier is not in the list, in order.
pub open spec fn clients_sans(clients: Seq<ClientEntry>, ids: Seq<String>) -> Seq<ClientEntry>
    decreases clients.len(),
{
    if clients.len() == 0 {
        Seq::empty()
    } else {
        let pre = clients_sans(clients.drop_last(), ids);
        if !id_in_list(ids, clients.last().id@) {
            pre.push(clients.last())
        } else {
            pre
        }
    }
}

/// The clients whose identifier differs from the given one, in order.
pub open spec fn clients_sans_um(clients: Seq<ClientEntry>, id: Seq<char>) -> Seq<ClientEntry>
    decreases clients.len(),
{
    if clients.len() == 0 {
        Seq::empty()
    } else {
        let pre = clients_sans_um(clients.drop_last(), id);
        if clients.last().id@ != id {
            pre.push(clients.last())
        } else {
            pre
        }
    }
}

/// Keep the clients whose identifier differs from the given one.
fn clients_without_one(clients: &Vec<ClientEntry>, id: &String) -> (r: Vec<ClientEntry>)
    ensures
        r@ == clients_sans_um(clients@, id@),
{
    let mut out: Vec<ClientEntry> = Vec::new();
    let mut i: usize = 0;
    while i < clients.len()
        invariant
            0 <= i <= clients@.len(),
            out@ == clients_sans_um(clients@.take(i as int), id@),
        decreases clients@.len() - i,
    {
        proof {
            assert(clients@.take(i + 1).drop_last() =~= clients@.take(i as int));
            assert(clients@.take(i + 1).last() == clients@[i as int]);
        }
        if !str_is(&clients[i].id, id.as_str()) {
            out.push(clients[i].clone());
        }
        i = i + 1;
    }
    proof {
        assert(clients@.take(clients@.len() as int) =~= clients@);
    }
    out
}

/// Keep the clients whose identifier is not in the list.
fn clients_without(clients: &Vec<ClientEntry>, ids: &Vec<String>) -> (r: Vec<ClientEntry>)
    ensures
        r@ == clients_sans(clients@, ids@),
{
    let mut out: Vec<ClientEntry> = Vec::new();
    let mut i: usize = 0;
    while i < clients.len()
        invariant
            0 <= i <= clients@.len(),
            out@ == clients_sans(clients@.take(i as int), ids@),
        decreases clients@.len() - i,
    {
        proof {
            assert(clients@.take(i + 1).drop_last() =~= clients@.take(i as int));
            assert(clients@.take(i + 1).last() == clients@[i as int]);
        }
        if !list_has_id(ids, &clients[i].id) {
            out.push(clients[i].clone());
        }
        i = i + 1;
    }
    proof {
        assert(clients@.take(clients@.len() as int) =~= clients@);
    }
    out
}

/// Remove one client identifier from the default-kind config: the first
/// inbound keeps every client but those with this identifier.  A
/// document without inbounds is left as it stands, as when the config
/// file is absent.
pub fn remover_uuid_v2ray(doc: &mut UpstreamDoc, uuid: &String)
    ensures
        old(doc).inbounds@.len() == 0 ==> *final(doc) == *old(doc),
        old(doc).inbounds@.len() > 0 ==> {
            &&& final(doc).inbounds@.len() == old(doc).inbounds@.len()
            &&& final(doc).inbounds@[0].protocol == old(doc).inbounds@[0].protocol
            &&& final(doc).inbounds@[0].clients@ == clients_sans_um(
                old(doc).inbounds@[0].clients@,
                uuid@,
            )
            &&& forall|j: int|
                1 <= j < old(doc).inbounds@.len() ==> #[trigger] final(doc).inbounds@[j] == old(doc).inbounds@[j]
        },
{
    if doc.inbounds.len() == 0 {
        return ;
    }
    let kept = clients_without_one(&doc.inbounds[0].clients, uuid);
    set_clients(&mut doc.inbounds, 0, kept);
}

/// Remove a set of client identifiers from the telemetry-kind config:
/// every VLESS inbound keeps the clients whose identifier is not in the
/// list; the other inbounds are untouched.
pub fn remover_uuids_xray(doc: &mut UpstreamDoc, uuids: &Vec<String>)
    ensures
        final(doc).inbounds@.len() == old(doc).inbounds@.len(),
        forall|i: int|
            0 <= i < old(doc).inbounds@.len() && old(doc).inbounds@[i].protocol@ == "vless"@ ==> (
            #[trigger] final(doc).inbounds@[i]).protocol == old(doc).inbounds@[i].protocol
                && final(doc).inbounds@[i].clients@ == clients_sans(
                old(doc).inbounds@[i].clients@,
                uuids@,
            ),
        forall|i: int|
            0 <= i < old(doc).inbounds@.len() && old(doc).inbounds@[i].protocol@ != "vless"@
                ==> #[trigger] final(doc).inbounds@[i] == old(doc).inbounds@[i],
{
    let ghost pre = doc.inbounds@;
    let mut i: usize = 0;
    while i < doc.inbounds.len()
        invariant
            0 <= i <= pre.len(),
            doc.inbounds@.len() == pre.len(),
            forall|j: int|
                0 <= j < i && pre[j].protocol@ == "vless"@ ==> (
                #[trigger] doc.inbounds@[j]).protocol == pre[j].protocol
                    && doc.inbounds@[j].clients@ == clients_sans(pre[j].clients@, uuids@),
            forall|j: int|
                0 <= j < pre.len() && (j >= i || pre[j].protocol@ != "vless"@)
                    ==> #[trigger] doc.inbounds@[j] == pre[j],
        decreases pre.len() - i,
    {
        if str_is(&doc.inbounds[i].protocol, "vless") {
            let kept = clients_without(&doc.inbounds[i].clients, uuids);
            set_clients(&mut doc.inbounds, i, kept);
        }
        i = i + 1;
    }
}

/// A client list after one entry is appended to it.
pub open spec fn client_appended(
    before: Seq<ClientEntry>,
    after: Seq<ClientEntry>,
    id: Seq<char>,
    email: Seq<char>,
) -> bool {
    &&& after.len() == before.len() + 1
    &&& after.take(before.len() as int) == before
    &&& after.last().id@ == id
    &&& after.last().email@ == email
}

/// Append one client to the default-kind config's first inbound,
/// deduplicating on the identifier.  Yields whether the list changed.
pub fn adicionar_uuid_ao_v2ray(doc: &mut UpstreamDoc, uuid: &String, email: &String) -> (r:
    bool)
    ensures
        old(doc).inbounds@.len() == 0 ==> *final(doc) == *old(doc) && !r,
        old(doc).inbounds@.len() > 0 ==> {
            &&& final(doc).inbounds@.len() == old(doc).inbounds@.len()
            &&& forall|j: int|
                1 <= j < old(doc).inbounds@.len() ==> #[trigger] final(doc).inbounds@[j] == old(doc).inbounds@[j]
            &&& r == !has_id(old(doc).inbounds@[0].clients@, uuid@)
            &&& if r {
                final(doc).inbounds@[0].protocol == old(doc).inbounds@[0].protocol
                    && client_appended(
                    old(doc).inbounds@[0].clients@,
                    final(doc).inbounds@[0].clients@,
                    uuid@,
                    email@,
                )
            } else {
                final(doc).inbounds@[0] == old(doc).inbounds@[0]
            }
        },
{
    if doc.inbounds.len() == 0 {
        return false;
    }
    if contains_id(&doc.inbounds[0].clients, uuid) {
        return false;
    }
    let mut clients = clone_clients(&doc.inbounds[0].clients);
    clients.push(ClientEntry { id: uuid.clone(), email: email.clone() });
    proof {
        assert(clients@.take(clients@.len() - 1) =~= old(doc).inbounds@[0].clients@);
    }
    set_clients(&mut doc.inbounds, 0, clients);
    true
}

/// Append one client to every VLESS inbound of the telemetry-kind
/// config, deduplicating on the identifier per inbound; an inbound that
/// already lists it is untouched.  A document without a VLESS inbound is
/// refused and left as it stands.
pub fn adicionar_usuario_xray(doc: &mut UpstreamDoc, username: &String, uuid: &String) -> (r:
    Result<(), String>)
    ensures
        final(doc).inbounds@.len() == old(doc).inbounds@.len(),
        match r {
            Ok(()) => {
                &&& exists|i: int|
                    0 <= i < old(doc).inbounds@.len() && (#[trigger] old(doc).inbounds@[i]).protocol@ == "vless"@
                &&& forall|i: int|
                    0 <= i < old(doc).inbounds@.len() && old(doc).inbounds@[i].protocol@
                        == "vless"@ && !has_id(old(doc).inbounds@[i].clients@, uuid@) ==> (
                    #[trigger] final(doc).inbounds@[i]).protocol == old(doc).inbounds@[i].protocol && client_appended(
                        old(doc).inbounds@[i].clients@,
                        final(doc).inbounds@[i].clients@,
                        uuid@,
                        username@,
                    )
                &&& forall|i: int|
                    0 <= i < old(doc).inbounds@.len() && (old(doc).inbounds@[i].protocol@
                        != "vless"@ || has_id(old(doc).inbounds@[i].clients@, uuid@))
                        ==> #[trigger] final(doc).inbounds@[i] == old(doc).inbounds@[i]
            },
            Err(_) => *final(doc) == *old(doc) && !(exists|i: int|
                0 <= i < old(doc).inbounds@.len() && (#[trigger] old(doc).inbounds@[i]).protocol@ == "vless"@),
        },
{
    let ghost pre = doc.inbounds@;
    let ghost predoc = *doc;
    let mut achou_vless = false;
    let mut i: usize = 0;
    while i < doc.inbounds.len()
        invariant
            0 <= i <= pre.len(),
            doc.inbounds@.len() == pre.len(),
            achou_vless == exists|j: int|
                0 <= j < i && (#[trigger] pre[j]).protocol@ == "vless"@,
            achou_vless || *doc == predoc,
            forall|j: int|
                0 <= j < i && pre[j].protocol@ == "vless"@ && !has_id(pre[j].clients@, uuid@)
                    ==> (#[trigger] doc.inbounds@[j]).protocol == pre[j].protocol
                    && client_appended(
                    pre[j].clients@,
                    doc.inbounds@[j].clients@,
                    uuid@,
                    username@,
                ),
            forall|j: int|
                0 <= j < pre.len() && (j >= i || pre[j].protocol@ != "vless"@ || has_id(
                    pre[j].clients@,
                    uuid@,
                )) ==> #[trigger] doc.inbounds@[j] == pre[j],
        decreases pre.len() - i,
    {
        if str_is(&doc.inbounds[i].protocol, "vless") {
            achou_vless = true;
            if !contains_id(&doc.inbounds[i].clients, uuid) {
                let mut clients = clone_clients(&doc.inbounds[i].clients);
                clients.push(ClientEntry { id: uuid.clone(), email: username.clone() });
                proof {
                    assert(clients@.take(clients@.len() - 1) =~= pre[i as int].clients@);
                }
                set_clients(&mut doc.inbounds, i, clients);
            }
        }
        i = i + 1;
    }
    if achou_vless {
        Ok(())
    } else {
        Err("nenhum inbound vless para receber o usuario".to_owned())
    }
}

/// Rewrite the mail tag of the clients with this identifier in the
/// default-kind config's first inbound.
pub fn atualizar_email_v2ray(doc: &mut UpstreamDoc, uuid: &String, email: &String)
    ensures
        old(doc).inbounds@.len() == 0 ==> *final(doc) == *old(doc),
        old(doc).inbounds@.len() > 0 ==> {
            &&& final(doc).inbounds@.len() == old(doc).inbounds@.len()
            &&& final(doc).inbounds@[0].protocol == old(doc).inbounds@[0].protocol
            &&& emails_updated(
                old(doc).inbounds@[0].clients@,
                final(doc).inbounds@[0].clients@,
                uuid@,
                email@,
            )
            &&& forall|j: int|
                1 <= j < old(doc).inbounds@.len() ==> #[trigger] final(doc).inbounds@[j] == old(doc).inbounds@[j]
        },
{
    if doc.inbounds.len() == 0 {
        return ;
    }
    let updated = clients_with_email(&doc.inbounds[0].clients, uuid, email);
    set_clients(&mut doc.inbounds, 0, updated);
}

/// Rewrite the mail tag of the clients with this identifier in every
/// VLESS inbound of the telemetry-kind config.
pub fn atualizar_email_xray(doc: &mut UpstreamDoc, uuid: &String, email: &String)
    ensures
        final(doc).inbounds@.len() == old(doc).inbounds@.len(),
        forall|i: int|
            0 <= i < old(doc).inbounds@.len() && old(doc).inbounds@[i].protocol@ == "vless"@ ==> (
            #[trigger] final(doc).inbounds@[i]).protocol == old(doc).inbounds@[i].protocol
                && emails_updated(
                old(doc).inbounds@[i].clients@,
                final(doc).inbounds@[i].clients@,
                uuid@,
                email@,
            ),
        forall|i: int|
            0 <= i < old(doc).inbounds@.len() && old(doc).inbounds@[i].protocol@ != "vless"@
                ==> #[trigger] final(doc).inbounds@[i] == old(doc).inbounds@[i],
{
    let ghost pre = doc.inbounds@;
    let mut i: usize = 0;
    while i < doc.inbounds.len()
        invariant
            0 <= i <= pre.len(),
            doc.inbounds@.len() == pre.len(),
            forall|j: int|
                0 <= j < i && pre[j].protocol@ == "vless"@ ==> (
                #[trigger] doc.inbounds@[j]).protocol == pre[j].protocol && emails_updated(
                    pre[j].clients@,
                    doc.inbounds@[j].clients@,
                    uuid@,
                    email@,
                ),
            forall|j: int|
                0 <= j < pre.len() && (j >= i || pre[j].protocol@ != "vless"@)
                    ==> #[trigger] doc.inbounds@[j] == pre[j],
        decreases pre.len() - i,
    {
        if str_is(&doc.inbounds[i].protocol, "vless") {
            let updated = clients_with_email(&doc.inbounds[i].clients, uuid, email);
            set_clients(&mut doc.inbounds, i, updated);
        }
        i = i + 1;
    }
}

/// Write a user's client entry into the config of the user's own kind:
/// the follow-up step of a create or an edit.  `doc` is the document of
/// the kind named by `user.tipo`; `config_existe` says whether its file
/// is present at all.  Yields whether the upstream must be reloaded.
pub fn process_user_data(
    user: &User,
    email_aleatorio: &String,
    doc: &mut UpstreamDoc,
    config_existe: bool,
) -> (r: Result<bool, String>)
    ensures
        !config_existe || user.uuid is None ==> r == Result::<bool, String>::Ok(false)
            && *final(doc) == *old(doc),
        config_existe && user.uuid is Some && user.tipo@ == "xray"@ ==> match r {
            Ok(reload) => reload && final(doc).inbounds@.len() == old(doc).inbounds@.len() && (
            exists|i: int|
                0 <= i < old(doc).inbounds@.len() && (#[trigger] old(doc).inbounds@[i]).protocol@
                    == "vless"@) && forall|i: int|
                0 <= i < old(doc).inbounds@.len() ==> (#[trigger] final(doc).inbounds@[i]).protocol
                    == old(doc).inbounds@[i].protocol && (if old(doc).inbounds@[i].protocol@
                    == "vless"@ && !has_id(old(doc).inbounds@[i].clients@, user.uuid->0@) {
                    client_appended(
                        old(doc).inbounds@[i].clients@,
                        final(doc).inbounds@[i].clients@,
                        user.uuid->0@,
                        user.login@,
                    )
                } else {
                    final(doc).inbounds@[i] == old(doc).inbounds@[i]
                }),
            Err(_) => *final(doc) == *old(doc) && !(exists|i: int|
                0 <= i < old(doc).inbounds@.len() && (#[trigger] old(doc).inbounds@[i]).protocol@
                    == "vless"@),
        },
        config_existe && user.uuid is Some && user.tipo@ != "xray"@ ==> match r {
            Ok(reload) => {
                &&& old(doc).inbounds@.len() == 0 ==> !reload && *final(doc) == *old(doc)
                &&& old(doc).inbounds@.len() > 0 ==> {
                    &&& reload == !has_id(old(doc).inbounds@[0].clients@, user.uuid->0@)
                    &&& final(doc).inbounds@.len() == old(doc).inbounds@.len()
                    &&& forall|j: int|
                        1 <= j < old(doc).inbounds@.len() ==> #[trigger] final(doc).inbounds@[j]
                            == old(doc).inbounds@[j]
                    &&& if reload {
                        final(doc).inbounds@[0].protocol == old(doc).inbounds@[0].protocol
                            && client_appended(
                            old(doc).inbounds@[0].clients@,
                            final(doc).inbounds@[0].clients@,
                            user.uuid->0@,
                            email_aleatorio@,
                        )
                    } else {
                        final(doc).inbounds@[0] == old(doc).inbounds@[0]
                    }
                }
            },
            Err(_) => false,
        },
{
    if !config_existe {
        return Ok(false);
    }
    let uuid = match &user.uuid {
        Some(u) => u,
        None => {
            return Ok(false);
        },
    };
    if str_is(&user.tipo, "xray") {
        match adicionar_usuario_xray(doc, &user.login, uuid) {
            Ok(()) => Ok(true),
            Err(e) => Err(e),
        }
    } else {
        let added = adicionar_uuid_ao_v2ray(doc, uuid, email_aleatorio);
        Ok(added)
    }
}

/// Clients with the identifier carry the new mail tag; the others stand.
pub open spec fn emails_updated(
    before: Seq<ClientEntry>,
    after: Seq<ClientEntry>,
    id: Seq<char>,
    email: Seq<char>,
) -> bool {
    &&& after.len() == before.len()
    &&& forall|k: int|
        0 <= k < before.len() && before[k].id@ == id ==> (#[trigger] after[k]).id == before[k].id
            && after[k].email@ == email
    &&& forall|k: int|
        0 <= k < before.len() && before[k].id@ != id ==> #[trigger] after[k] == before[k]
}

/// Copy a client list, rewriting the mail tag of the matching entries.
fn clients_with_email(clients: &Vec<ClientEntry>, uuid: &String, email: &String) -> (r: Vec<
    ClientEntry,
>)
    ensures
        emails_updated(clients@, r@, uuid@, email@),
{
    let mut out: Vec<ClientEntry> = Vec::new();
    let mut i: usize = 0;
    while i < clients.len()
        invariant
            0 <= i <= clients@.len(),
            out@.len() == i,
            forall|k: int|
                0 <= k < i && clients@[k].id@ == uuid@ ==> (#[trigger] out@[k]).id
                    == clients@[k].id && out@[k].email@ == email@,
            forall|k: int|
                0 <= k < i && clients@[k].id@ != uuid@ ==> #[trigger] out@[k] == clients@[k],
        decreases clients@.len() - i,
    {
        if str_is(&clients[i].id, uuid.as_str()) {
            out.push(ClientEntry { id: clients[i].id.clone(), email: email.clone() });
        } else {
            out.push(clients[i].clone());
        }
        i = i + 1;
    }
    out
}

} // verus!
