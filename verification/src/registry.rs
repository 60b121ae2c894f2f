//! The active-connections map: client identifier to cancel handle.
//!
//! The map itself is an outside concurrent map; this module holds it
//! behind trusted wrappers whose contracts speak of its abstract
//! contents.  A cancel handle is carried as a plain token; the
//! surrounding process keeps the token-to-channel table and fires the
//! channel when a token comes back from `derrubar_conexao`.

use vstd::prelude::*;

verus! {

/// The in-memory map of live proxy sessions.  The one field is the
/// outside concurrent map, hidden whole because its type cannot be
/// declared with its hasher parameter.
#[verifier::external_body]
pub struct ConexoesAtivas {
    mapa: dashmap::DashMap<String, u64>,
}

/// What the map holds: identifier text to cancel token.
pub uninterp spec fn conexoes_map(c: ConexoesAtivas) -> Map<Seq<char>, u64>;

/// Relies on dashmap's `DashMap::new`: a fresh map is empty.
#[verifier::external_body]
pub fn novas_conexoes() -> (r: ConexoesAtivas)
    ensures
        ({
            let inicial = r;
            conexoes_map(inicial) == Map::<Seq<char>, u64>::empty()
        }),
{
    ConexoesAtivas { mapa: dashmap::DashMap::new() }
}

/// Relies on dashmap's `DashMap::insert`: afterwards the key maps to
/// the value, nothing else moved, and the displaced value comes back.
#[verifier::external_body]
fn mapa_inserir(c: &mut ConexoesAtivas, chave: &String, valor: u64) -> (velho: Option<u64>)
    ensures
        conexoes_map(*final(c)) == conexoes_map(*old(c)).insert(chave@, valor),
        velho == (if conexoes_map(*old(c)).dom().contains(chave@) {
            Some(conexoes_map(*old(c))[chave@])
        } else {
            None::<u64>
        }),
{
    c.mapa.insert(chave.clone(), valor)
}

/// Relies on dashmap's `DashMap::remove`: afterwards the key is gone,
/// nothing else moved, and the removed value comes back.
#[verifier::external_body]
fn mapa_remover(c: &mut ConexoesAtivas, chave: &String) -> (velho: Option<u64>)
    ensures
        conexoes_map(*final(c)) == conexoes_map(*old(c)).remove(chave@),
        velho == (if conexoes_map(*old(c)).dom().contains(chave@) {
            Some(conexoes_map(*old(c))[chave@])
        } else {
            None::<u64>
        }),
{
    c.mapa.remove(chave).map(|par| par.1)
}

/// Relies on dashmap's `DashMap::iter`: every key of the map is walked
/// exactly once, in no particular order.
#[verifier::external_body]
fn mapa_chaves(c: &ConexoesAtivas) -> (r: Vec<String>)
    ensures
        forall|l: Seq<char>|
            #[trigger] crate::text::str_views(r@).contains(l) <==> conexoes_map(
                *c,
            ).dom().contains(l),
        forall|p: int, q: int| 0 <= p < q < r@.len() ==> (#[trigger] r@[p])@ != (#[trigger] r@[q])@,
{
    c.mapa.iter().map(|entrada| entrada.key().clone()).collect()
}

/// Register a live session: the identifier maps to the fresh cancel
/// token; a displaced token comes back so its channel can be dropped,
/// not fired.
pub fn adicionar_conexao(ativas: &mut ConexoesAtivas, uuid: &String, token: u64) -> (velho:
    Option<u64>)
    ensures
        conexoes_map(*final(ativas)) == conexoes_map(*old(ativas)).insert(uuid@, token),
        velho == (if conexoes_map(*old(ativas)).dom().contains(uuid@) {
            Some(conexoes_map(*old(ativas))[uuid@])
        } else {
            None::<u64>
        }),
{
    mapa_inserir(ativas, uuid, token)
}

/// Tear a session's registration down; the token comes back so the
/// caller can drop it.
pub fn remover_conexao(ativas: &mut ConexoesAtivas, uuid: &String) -> (velho: Option<u64>)
    ensures
        conexoes_map(*final(ativas)) == conexoes_map(*old(ativas)).remove(uuid@),
        velho == (if conexoes_map(*old(ativas)).dom().contains(uuid@) {
            Some(conexoes_map(*old(ativas))[uuid@])
        } else {
            None::<u64>
        }),
{
    mapa_remover(ativas, uuid)
}

/// Kick one client: remove its registration and hand the cancel token
/// back; the caller fires the channel it stands for.
pub fn derrubar_conexao(ativas: &mut ConexoesAtivas, uuid: &String) -> (token: Option<u64>)
    ensures
        conexoes_map(*final(ativas)) == conexoes_map(*old(ativas)).remove(uuid@),
        token == (if conexoes_map(*old(ativas)).dom().contains(uuid@) {
            Some(conexoes_map(*old(ativas))[uuid@])
        } else {
            None::<u64>
        }),
{
    mapa_remover(ativas, uuid)
}

/// The identifiers with a live session, one each, in no set order.
pub fn listar_usuarios_online(ativas: &ConexoesAtivas) -> (r: Vec<String>)
    ensures
        forall|l: Seq<char>|
            #[trigger] crate::text::str_views(r@).contains(l) <==> conexoes_map(
                *ativas,
            ).dom().contains(l),
        forall|p: int, q: int| 0 <= p < q < r@.len() ==> (#[trigger] r@[p])@ != (#[trigger] r@[q])@,
{
    mapa_chaves(ativas)
}

} // verus!
