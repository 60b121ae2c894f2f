//! Random mail tags for client entries of the default upstream kind.

use rand::RngExt;
use vstd::prelude::*;

verus! {

/// An ASCII letter or digit.
pub open spec fn is_alnum(c: char) -> bool {
    ('a' <= c && c <= 'z') || ('A' <= c && c <= 'Z') || ('0' <= c && c <= '9')
}

/// Relies on rand's `Alphanumeric` distribution: every sampled byte is
/// an ASCII letter or digit, so the collected string has exactly `len`
/// such characters.  Which ones come out is chance; nothing more is
/// stated.
#[verifier::external_body]
fn random_alphanumeric(len: usize) -> (r: String)
    ensures
        r@.len() == len as nat,
        forall|i: int| 0 <= i < r@.len() ==> is_alnum(#[trigger] r@[i]),
{
    rand::rng().sample_iter(rand::distr::Alphanumeric).take(len).map(char::from).collect()
}

/// A fresh mail tag: random letters and digits of the asked length,
/// with the fixed mail domain behind them.
pub fn gerar_email_aleatorio(tamanho: usize) -> (r: String)
    ensures
        r@.len() == tamanho as nat + 10,
        r@.skip(tamanho as int) == "@gmail.com"@,
        forall|i: int| 0 <= i < tamanho ==> is_alnum(#[trigger] r@[i]),
{
    let mut local = random_alphanumeric(tamanho);
    proof {
        reveal_strlit("@gmail.com");
    }
    local.append("@gmail.com");
    proof {
        assert(local@.skip(tamanho as int) =~= "@gmail.com"@);
    }
    local
}

} // verus!
