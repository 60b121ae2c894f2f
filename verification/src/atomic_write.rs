//! The crash-safe write protocol of the upstream config writer.
//!
//! Every config write serializes to a sibling temp path, syncs it, and
//! renames it over the target; the rename alone moves the target.  The
//! model here says what each step does to the two files and proves
//! that a power cut between any two steps leaves the target parsing as
//! the pre-write document.

use vstd::prelude::*;

verus! {

/// The two files a write touches: the target and the sibling temp.
pub struct FileState {
    /// Bytes of the target path.
    pub alvo: Seq<u8>,
    /// Bytes of the temp path, if it exists.
    pub temporario: Option<Seq<u8>>,
    /// Whether the temp bytes are known durable.
    pub temporario_sincronizado: bool,
}

/// The steps of one write, in protocol order.
pub enum WriteStep {
    /// Serialize the new document to the temp path.
    GravarTemporario,
    /// Sync the temp path.
    Sincronizar,
    /// Atomically rename the temp path over the target.
    Renomear,
}

/// What one step does.  Only the rename touches the target, and it
/// lands the whole new document at once.
pub open spec fn passo(f: FileState, p: WriteStep, novo: Seq<u8>) -> FileState {
    match p {
        WriteStep::GravarTemporario => FileState {
            alvo: f.alvo,
            temporario: Some(novo),
            temporario_sincronizado: false,
        },
        WriteStep::Sincronizar => FileState {
            alvo: f.alvo,
            temporario: f.temporario,
            temporario_sincronizado: true,
        },
        WriteStep::Renomear => match f.temporario {
            Some(conteudo) => FileState {
                alvo: conteudo,
                temporario: None,
                temporario_sincronizado: false,
            },
            None => f,
        },
    }
}

/// A run of steps.
pub open spec fn executa(f: FileState, passos: Seq<WriteStep>, novo: Seq<u8>) -> FileState
    decreases passos.len(),
{
    if passos.len() == 0 {
        f
    } else {
        executa(passo(f, passos.first(), novo), passos.drop_first(), novo)
    }
}

/// The write protocol: temp, sync, rename.
pub open spec fn protocolo() -> Seq<WriteStep> {
    seq![WriteStep::GravarTemporario, WriteStep::Sincronizar, WriteStep::Renomear]
}

/// A power cut keeps the target; an unsynced temp may hold anything or
/// be gone, which the next write overwrites whole anyway.
pub open spec fn apos_queda(f: FileState) -> FileState {
    FileState { alvo: f.alvo, temporario: None, temporario_sincronizado: false }
}

/// The writer never loses or corrupts the target: after a power cut
/// between any two steps of the protocol, the target file holds the
/// pre-write document whole, until the final rename lands the new
/// document whole.
pub proof fn lemma_escrita_atomica(inicial: FileState, novo: Seq<u8>, k: int)
    requires
        0 <= k <= 3,
    ensures
        k < 3 ==> apos_queda(executa(inicial, protocolo().take(k), novo)).alvo == inicial.alvo,
        k == 3 ==> executa(inicial, protocolo().take(k), novo).alvo == novo,
{
    let p = protocolo();
    let f1 = passo(inicial, WriteStep::GravarTemporario, novo);
    let f2 = passo(f1, WriteStep::Sincronizar, novo);
    let f3 = passo(f2, WriteStep::Renomear, novo);
    assert(p.take(0) =~= Seq::<WriteStep>::empty());
    assert(executa(inicial, p.take(0), novo) == inicial);
    let p1 = p.take(1);
    assert(p1 =~= seq![WriteStep::GravarTemporario]);
    assert(p1.first() == WriteStep::GravarTemporario);
    assert(p1.drop_first() =~= Seq::<WriteStep>::empty());
    assert(executa(inicial, p1, novo) == executa(f1, p1.drop_first(), novo));
    assert(executa(inicial, p1, novo) == f1);
    let p2 = p.take(2);
    assert(p2 =~= seq![WriteStep::GravarTemporario, WriteStep::Sincronizar]);
    assert(p2.first() == WriteStep::GravarTemporario);
    assert(p2.drop_first() =~= seq![WriteStep::Sincronizar]);
    assert(p2.drop_first().first() == WriteStep::Sincronizar);
    assert(p2.drop_first().drop_first() =~= Seq::<WriteStep>::empty());
    assert(executa(inicial, p2, novo) == executa(f1, p2.drop_first(), novo));
    assert(executa(f1, p2.drop_first(), novo) == executa(f2, p2.drop_first().drop_first(), novo));
    assert(executa(inicial, p2, novo) == f2);
    let p3 = p.take(3);
    assert(p3 =~= p);
    assert(p.first() == WriteStep::GravarTemporario);
    assert(p.drop_first() =~= seq![WriteStep::Sincronizar, WriteStep::Renomear]);
    assert(p.drop_first().first() == WriteStep::Sincronizar);
    assert(p.drop_first().drop_first() =~= seq![WriteStep::Renomear]);
    assert(p.drop_first().drop_first().first() == WriteStep::Renomear);
    assert(p.drop_first().drop_first().drop_first() =~= Seq::<WriteStep>::empty());
    assert(executa(inicial, p, novo) == executa(f1, p.drop_first(), novo));
    assert(executa(f1, p.drop_first(), novo) == executa(f2, p.drop_first().drop_first(), novo));
    assert(executa(f2, p.drop_first().drop_first(), novo) == executa(
        f3,
        p.drop_first().drop_first().drop_first(),
        novo,
    ));
    assert(executa(inicial, p, novo) == f3);
    assert(f3.alvo == novo);
}

} // verus!
