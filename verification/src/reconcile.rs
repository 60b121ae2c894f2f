//! The reconciling bulk synchronizer and the bulk delete.
//!
//! A sync takes a declarative target user set and converges the
//! authoritative store to it: rows absent from the target go, target
//! rows are upserted, and the upstream client lists are rebuilt from
//! the converged state.  The surrounding process runs the OS-account
//! work, the batching and the retries around these transitions.

use vstd::prelude::*;

use crate::store::{has_login, login_index, wf_users, UserStore};
use crate::text::str_is;
use crate::upstream::{build_clients, clients_for_kind, ClientEntry};
use crate::user::{ExcluirGlobalRequest, User, Usuario};

verus! {

/// How many users one batch of the background processing takes.
pub const BATCH_SIZE: usize = 50;

/// How often a failed OS-account operation is retried.
pub const MAX_RETRIES: u32 = 3;

/// The row a store holds for a login.
pub open spec fn record_of(s: Seq<User>, l: Seq<char>) -> User {
    s[login_index(s, l)]
}

/// The rows whose login the target also carries, in store order.
pub open spec fn keep_targets(s: Seq<User>, t: Seq<User>) -> Seq<User>
    decreases s.len(),
{
    if s.len() == 0 {
        Seq::empty()
    } else {
        let pre = keep_targets(s.drop_last(), t);
        if has_login(t, s.last().login@) {
            pre.push(s.last())
        } else {
            pre
        }
    }
}

/// The logins the target does not carry, in store order.
pub open spec fn dropped_logins(s: Seq<User>, t: Seq<User>) -> Seq<Seq<char>>
    decreases s.len(),
{
    if s.len() == 0 {
        Seq::empty()
    } else {
        let pre = dropped_logins(s.drop_last(), t);
        if !has_login(t, s.last().login@) {
            pre.push(s.last().login@)
        } else {
            pre
        }
    }
}

/// One row upserted: replace the row with the same login, else append.
pub open spec fn upsert_one(s: Seq<User>, u: User) -> Seq<User> {
    if has_login(s, u.login@) {
        s.update(login_index(s, u.login@), u)
    } else {
        s.push(u)
    }
}

/// Every target row upserted, in target order.
pub open spec fn upsert_all(s: Seq<User>, t: Seq<User>) -> Seq<User>
    decreases t.len(),
{
    if t.len() == 0 {
        s
    } else {
        upsert_all(upsert_one(s, t.first()), t.drop_first())
    }
}

/// What a sync leaves in the store: rows outside the target dropped,
/// every target row upserted.
pub open spec fn sync_spec(s: Seq<User>, t: Seq<User>) -> Seq<User> {
    upsert_all(keep_targets(s, t), t)
}

/// `keep_targets` keeps exactly the rows whose login the target has,
/// unchanged and in order, and keeps the logins unique.
pub proof fn lemma_keep_targets(s: Seq<User>, t: Seq<User>)
    ensures
        forall|l: Seq<char>|
            #[trigger] has_login(keep_targets(s, t), l) <==> has_login(s, l) && has_login(t, l),
        wf_users(s) ==> wf_users(keep_targets(s, t)),
        forall|k: int|
            0 <= k < keep_targets(s, t).len() ==> exists|j: int|
                0 <= j < s.len() && #[trigger] keep_targets(s, t)[k] == s[j],
    decreases s.len(),
{
    if s.len() > 0 {
        lemma_keep_targets(s.drop_last(), t);
        let pre = keep_targets(s.drop_last(), t);
        let out = keep_targets(s, t);
        assert forall|l: Seq<char>| #[trigger] has_login(out, l) implies has_login(s, l)
            && has_login(t, l) by {
            let k = choose|k: int| 0 <= k < out.len() && (#[trigger] out[k]).login@ == l;
            if k < pre.len() {
                assert(has_login(pre, l));
                assert(exists|j: int|
                    0 <= j < s.drop_last().len() && (#[trigger] s.drop_last()[j]).login@ == l);
                let j = choose|j: int|
                    0 <= j < s.drop_last().len() && (#[trigger] s.drop_last()[j]).login@ == l;
                assert(s[j] == s.drop_last()[j]);
                assert(has_login(s, l));
            } else {
                assert(out[k] == s.last());
                assert(has_login(s, l));
            }
        }
        assert forall|l: Seq<char>| has_login(s, l) && has_login(t, l) implies #[trigger] has_login(
            out,
            l,
        ) by {
            let j = choose|j: int| 0 <= j < s.len() && (#[trigger] s[j]).login@ == l;
            if j < s.len() - 1 {
                assert(s.drop_last()[j] == s[j]);
                assert(has_login(s.drop_last(), l));
                assert(has_login(pre, l));
                let k = choose|k: int| 0 <= k < pre.len() && (#[trigger] pre[k]).login@ == l;
                assert(out[k] == pre[k]);
            } else {
                if has_login(t, s.last().login@) {
                    assert(out.last().login@ == l);
                } else {
                    assert(has_login(pre, l));
                    let k = choose|k: int| 0 <= k < pre.len() && (#[trigger] pre[k]).login@ == l;
                    assert(out[k] == pre[k]);
                }
            }
        }
        if wf_users(s) {
            assert(wf_users(s.drop_last())) by {
                assert(forall|i: int, j: int|
                    0 <= i < j < s.drop_last().len() ==> (#[trigger] s.drop_last()[i]).login@ != (
                    #[trigger] s.drop_last()[j]).login@) by {
                    assert(forall|i: int|
                        0 <= i < s.drop_last().len() ==> #[trigger] s.drop_last()[i] == s[i]);
                }
            }
            assert forall|p: int, q: int| 0 <= p < q < out.len() implies (
            #[trigger] out[p]).login@ != (#[trigger] out[q]).login@ by {
                if q < pre.len() {
                } else {
                    assert(out[q] == s.last());
                    assert(has_login(pre, out[p].login@)) by {
                        assert(out[p] == pre[p]);
                    }
                    assert(has_login(s.drop_last(), out[p].login@));
                    let j = choose|j: int|
                        0 <= j < s.drop_last().len() && (#[trigger] s.drop_last()[j]).login@
                            == out[p].login@;
                    assert(s[j] == s.drop_last()[j]);
                    assert(s[j].login@ != s.last().login@);
                }
            }
        }
        assert forall|k: int| 0 <= k < out.len() implies exists|j: int|
            0 <= j < s.len() && #[trigger] out[k] == s[j] by {
            if k < pre.len() {
                assert(out[k] == pre[k]);
                let j = choose|j: int|
                    0 <= j < s.drop_last().len() && #[trigger] pre[k] == s.drop_last()[j];
                assert(s[j] == s.drop_last()[j]);
                assert(out[k] == s[j]);
            } else {
                assert(out[k] == s[s.len() - 1]);
            }
        }
    }
}

/// Drop the rows whose login the target lacks; yield those logins.
fn reter_alvos(users: &mut Vec<User>, alvo: &Vec<User>) -> (removidos: Vec<String>)
    ensures
        final(users)@ == keep_targets(old(users)@, alvo@),
        removidos@.map_values(|x: String| x@) == dropped_logins(old(users)@, alvo@),
{
    let ghost pre = users@;
    let mut kept: Vec<User> = Vec::new();
    let mut removidos: Vec<String> = Vec::new();
    let mut i: usize = 0;
    while i < users.len()
        invariant
            0 <= i <= pre.len(),
            users@ == pre,
            kept@ == keep_targets(pre.take(i as int), alvo@),
            removidos@.map_values(|x: String| x@) == dropped_logins(pre.take(i as int), alvo@),
        decreases pre.len() - i,
    {
        proof {
            assert(pre.take(i + 1).drop_last() =~= pre.take(i as int));
            assert(pre.take(i + 1).last() == pre[i as int]);
        }
        let ghost rpre = removidos@;
        if crate::store::find_login(alvo, &users[i].login).is_some() {
            kept.push(users[i].clone());
        } else {
            removidos.push(users[i].login.clone());
            proof {
                assert(removidos@.map_values(|x: String| x@) =~= rpre.map_values(
                    |x: String| x@,
                ).push(pre[i as int].login@));
            }
        }
        i = i + 1;
    }
    proof {
        assert(pre.take(pre.len() as int) =~= pre);
    }
    *users = kept;
    removidos
}

/// `upsert_all` over a target grown by one row is the upsert of that
/// row into the result.
pub proof fn lemma_upsert_all_push(s: Seq<User>, t: Seq<User>, u: User)
    ensures
        upsert_all(s, t.push(u)) == upsert_one(upsert_all(s, t), u),
    decreases t.len(),
{
    let t1 = t.push(u);
    if t.len() == 0 {
        assert(t1.first() == u);
        assert(t1.drop_first() =~= t);
        assert(upsert_all(s, t1) == upsert_all(upsert_one(s, u), t1.drop_first()));
        assert(upsert_all(upsert_one(s, u), t) == upsert_one(s, u));
        assert(upsert_all(s, t) == s);
    } else {
        assert(t1.first() == t.first());
        assert(t1.drop_first() =~= t.drop_first().push(u));
        assert(upsert_all(s, t1) == upsert_all(upsert_one(s, t.first()), t1.drop_first()));
        lemma_upsert_all_push(upsert_one(s, t.first()), t.drop_first(), u);
        assert(upsert_all(s, t) == upsert_all(upsert_one(s, t.first()), t.drop_first()));
    }
}

/// Upsert every target row into the store rows.
fn upsert_alvos(users: &mut Vec<User>, alvo: &Vec<User>)
    requires
        wf_users(old(users)@),
    ensures
        final(users)@ == upsert_all(old(users)@, alvo@),
        wf_users(final(users)@),
{
    let ghost pre = users@;
    let mut i: usize = 0;
    while i < alvo.len()
        invariant
            0 <= i <= alvo@.len(),
            users@ == upsert_all(pre, alvo@.take(i as int)),
            wf_users(users@),
        decreases alvo@.len() - i,
    {
        let ghost cur = users@;
        let u = alvo[i].clone();
        proof {
            assert(alvo@.take(i + 1) =~= alvo@.take(i as int).push(alvo@[i as int]));
            lemma_upsert_all_push(pre, alvo@.take(i as int), alvo@[i as int]);
        }
        match crate::store::find_login(users, &u.login) {
            Some(j) => {
                proof {
                    crate::store::lemma_wf_first_index(cur, u.login@, j as int);
                    assert(has_login(cur, u.login@));
                }
                users[j] = u;
                proof {
                    assert(users@ == upsert_one(cur, alvo@[i as int]));
                    assert forall|p: int, q: int|
                        0 <= p < q < users@.len() implies (#[trigger] users@[p]).login@ != (
                    #[trigger] users@[q]).login@ by {
                        assert(cur[p].login@ != cur[q].login@);
                    }
                }
            },
            None => {
                users.push(u);
                proof {
                    assert(users@ == upsert_one(cur, alvo@[i as int]));
                    assert forall|p: int, q: int|
                        0 <= p < q < users@.len() implies (#[trigger] users@[p]).login@ != (
                    #[trigger] users@[q]).login@ by {
                        if q == cur.len() as int {
                            assert(!has_login(cur, alvo@[i as int].login@));
                        }
                    }
                }
            },
        }
        i = i + 1;
    }
    proof {
        assert(alvo@.take(alvo@.len() as int) =~= alvo@);
    }
}

/// Converge the store to the target set: rows outside the target go,
/// target rows are upserted in order.  Yields the removed logins, whose
/// OS accounts the caller tears down.
pub fn aplicar_sincronizacao(store: &mut UserStore, usuarios: &Vec<User>) -> (removidos: Vec<
    String,
>)
    requires
        old(store).wf(),
    ensures
        final(store).wf(),
        final(store).dominio == old(store).dominio,
        final(store).users@ == sync_spec(old(store).users@, usuarios@),
        removidos@.map_values(|x: String| x@) == dropped_logins(old(store).users@, usuarios@),
{
    let removidos = reter_alvos(&mut store.users, usuarios);
    proof {
        lemma_keep_targets(old(store).users@, usuarios@);
    }
    upsert_alvos(&mut store.users, usuarios);
    removidos
}

/// One row upserted: the row stands at its login, every other login's
/// row stands untouched, and well-formedness is kept.
pub proof fn lemma_upsert_one(s: Seq<User>, u: User)
    requires
        wf_users(s),
    ensures
        wf_users(upsert_one(s, u)),
        forall|l: Seq<char>|
            #[trigger] has_login(upsert_one(s, u), l) <==> (has_login(s, l) || l == u.login@),
        record_of(upsert_one(s, u), u.login@) == u,
        forall|l: Seq<char>|
            l != u.login@ && has_login(s, l) ==> #[trigger] record_of(upsert_one(s, u), l)
                == record_of(s, l),
{
    let out = upsert_one(s, u);
    if has_login(s, u.login@) {
        let i = login_index(s, u.login@);
        assert(0 <= i < s.len() && s[i].login@ == u.login@);
        assert forall|p: int, q: int| 0 <= p < q < out.len() implies (
        #[trigger] out[p]).login@ != (#[trigger] out[q]).login@ by {
            assert(s[p].login@ != s[q].login@);
        }
        assert forall|l: Seq<char>| #[trigger] has_login(out, l) implies (has_login(s, l) || l
            == u.login@) by {
            let k = choose|k: int| 0 <= k < out.len() && (#[trigger] out[k]).login@ == l;
            if k != i {
                assert(out[k] == s[k]);
            }
        }
        assert forall|l: Seq<char>| (has_login(s, l) || l == u.login@) implies #[trigger] has_login(
            out,
            l,
        ) by {
            if l == u.login@ {
                assert(out[i].login@ == l);
            } else {
                let k = choose|k: int| 0 <= k < s.len() && (#[trigger] s[k]).login@ == l;
                assert(k != i);
                assert(out[k] == s[k]);
            }
        }
        crate::store::lemma_wf_first_index(out, u.login@, i);
        assert forall|l: Seq<char>| l != u.login@ && has_login(s, l) implies #[trigger] record_of(
            out,
            l,
        ) == record_of(s, l) by {
            let j = login_index(s, l);
            assert(0 <= j < s.len() && s[j].login@ == l);
            assert(j != i);
            assert(out[j] == s[j]);
            crate::store::lemma_wf_first_index(out, l, j);
        }
    } else {
        assert(out == s.push(u));
        assert forall|p: int, q: int| 0 <= p < q < out.len() implies (
        #[trigger] out[p]).login@ != (#[trigger] out[q]).login@ by {
            if q == s.len() as int {
                assert(!has_login(s, u.login@));
            }
        }
        assert forall|l: Seq<char>| #[trigger] has_login(out, l) implies (has_login(s, l) || l
            == u.login@) by {
            let k = choose|k: int| 0 <= k < out.len() && (#[trigger] out[k]).login@ == l;
            if k < s.len() {
                assert(out[k] == s[k]);
            }
        }
        assert(out[s.len() as int].login@ == u.login@);
        assert forall|l: Seq<char>| (has_login(s, l) || l == u.login@) implies #[trigger] has_login(
            out,
            l,
        ) by {
            if l != u.login@ {
                let k = choose|k: int| 0 <= k < s.len() && (#[trigger] s[k]).login@ == l;
                assert(out[k] == s[k]);
            }
        }
        crate::store::lemma_wf_first_index(out, u.login@, s.len() as int);
        assert forall|l: Seq<char>| l != u.login@ && has_login(s, l) implies #[trigger] record_of(
            out,
            l,
        ) == record_of(s, l) by {
            let j = login_index(s, l);
            assert(0 <= j < s.len() && s[j].login@ == l);
            assert(out[j] == s[j]);
            crate::store::lemma_wf_first_index(out, l, j);
        }
    }
}

/// The logins of a target also stand in its first row or its tail.
proof fn lemma_split_logins(t: Seq<User>)
    requires
        t.len() > 0,
    ensures
        forall|l: Seq<char>|
            #[trigger] has_login(t, l) <==> (l == t.first().login@ || has_login(
                t.drop_first(),
                l,
            )),
{
    let rest = t.drop_first();
    assert(forall|k: int| 0 <= k < rest.len() ==> #[trigger] rest[k] == t[k + 1]);
    assert forall|l: Seq<char>| #[trigger] has_login(t, l) implies (l == t.first().login@
        || has_login(rest, l)) by {
        let k = choose|k: int| 0 <= k < t.len() && (#[trigger] t[k]).login@ == l;
        if k > 0 {
            assert(rest[k - 1] == t[k]);
            assert(has_login(rest, l));
        }
    }
    assert forall|l: Seq<char>| (l == t.first().login@ || has_login(rest, l)) implies
        #[trigger] has_login(t, l) by {
        if l == t.first().login@ {
            assert(t[0].login@ == l);
        } else {
            let k = choose|k: int| 0 <= k < rest.len() && (#[trigger] rest[k]).login@ == l;
            assert(t[k + 1] == rest[k]);
        }
    }
}

/// All rows upserted: the store stays well-formed and holds the union
/// of the logins.
pub proof fn lemma_upsert_all(s: Seq<User>, t: Seq<User>)
    requires
        wf_users(s),
    ensures
        wf_users(upsert_all(s, t)),
        forall|l: Seq<char>|
            #[trigger] has_login(upsert_all(s, t), l) <==> (has_login(s, l) || has_login(t, l)),
    decreases t.len(),
{
    if t.len() > 0 {
        let u = t.first();
        let s1 = upsert_one(s, u);
        lemma_upsert_one(s, u);
        lemma_upsert_all(s1, t.drop_first());
        lemma_split_logins(t);
    }
}

/// A row whose login the target lacks stands untouched by the upserts.
pub proof fn lemma_upsert_all_outside(s: Seq<User>, t: Seq<User>, l: Seq<char>)
    requires
        wf_users(s),
        !has_login(t, l),
        has_login(s, l),
    ensures
        record_of(upsert_all(s, t), l) == record_of(s, l),
    decreases t.len(),
{
    if t.len() > 0 {
        let u = t.first();
        let s1 = upsert_one(s, u);
        lemma_upsert_one(s, u);
        lemma_split_logins(t);
        assert(l != u.login@);
        lemma_upsert_all_outside(s1, t.drop_first(), l);
    }
}

/// A target row with no later duplicate stands in the upserted store
/// exactly as the target gives it.
pub proof fn lemma_upsert_all_last_wins(s: Seq<User>, t: Seq<User>, i: int)
    requires
        wf_users(s),
        0 <= i < t.len(),
        forall|j: int| i < j < t.len() ==> (#[trigger] t[j]).login@ != t[i].login@,
    ensures
        record_of(upsert_all(s, t), t[i].login@) == t[i],
    decreases t.len(),
{
    let u = t.first();
    let s1 = upsert_one(s, u);
    let rest = t.drop_first();
    lemma_upsert_one(s, u);
    assert(forall|k: int| 0 <= k < rest.len() ==> #[trigger] rest[k] == t[k + 1]);
    if i == 0 {
        assert(!has_login(rest, u.login@)) by {
            if has_login(rest, u.login@) {
                let k = choose|k: int|
                    0 <= k < rest.len() && (#[trigger] rest[k]).login@ == u.login@;
                assert(t[k + 1] == rest[k]);
            }
        }
        assert(has_login(s1, u.login@));
        assert(record_of(s1, u.login@) == u);
        lemma_upsert_all_outside(s1, rest, u.login@);
    } else {
        assert(rest[i - 1] == t[i]);
        assert forall|j: int| i - 1 < j < rest.len() implies (#[trigger] rest[j]).login@ != rest[i
            - 1].login@ by {
            assert(rest[j] == t[j + 1]);
        }
        lemma_upsert_all_last_wins(s1, rest, i - 1);
    }
}

/// After any sync, the store's logins are exactly the target's logins.
pub proof fn lemma_sync_logins(s: Seq<User>, t: Seq<User>)
    requires
        wf_users(s),
    ensures
        wf_users(sync_spec(s, t)),
        forall|l: Seq<char>| #[trigger] has_login(sync_spec(s, t), l) <==> has_login(t, l),
{
    lemma_keep_targets(s, t);
    lemma_upsert_all(keep_targets(s, t), t);
}

/// After a sync with a well-formed target, every target row stands in
/// the store exactly as the target gives it.
pub proof fn lemma_sync_records(s: Seq<User>, t: Seq<User>)
    requires
        wf_users(s),
        wf_users(t),
    ensures
        forall|i: int|
            0 <= i < t.len() ==> record_of(sync_spec(s, t), (#[trigger] t[i]).login@) == t[i],
{
    lemma_keep_targets(s, t);
    assert forall|i: int| 0 <= i < t.len() implies record_of(
        sync_spec(s, t),
        (#[trigger] t[i]).login@,
    ) == t[i] by {
        assert(forall|j: int| i < j < t.len() ==> (#[trigger] t[j]).login@ != t[i].login@);
        lemma_upsert_all_last_wins(keep_targets(s, t), t, i);
    }
}

/// A store whose every login the target carries is kept whole.
proof fn lemma_keep_all(s: Seq<User>, t: Seq<User>)
    requires
        forall|k: int| 0 <= k < s.len() ==> has_login(t, (#[trigger] s[k]).login@),
    ensures
        keep_targets(s, t) == s,
    decreases s.len(),
{
    if s.len() > 0 {
        assert(forall|k: int| 0 <= k < s.len() - 1 ==> #[trigger] s.drop_last()[k] == s[k]);
        lemma_keep_all(s.drop_last(), t);
        assert(has_login(t, s.last().login@)) by {
            assert(s[s.len() - 1] == s.last());
        }
        assert(keep_targets(s, t) =~= s);
    }
}

/// Upserting rows the store already holds, value for value, changes
/// nothing.
proof fn lemma_upsert_identity(s: Seq<User>, t: Seq<User>)
    requires
        wf_users(s),
        forall|i: int|
            0 <= i < t.len() ==> has_login(s, (#[trigger] t[i]).login@) && record_of(
                s,
                t[i].login@,
            ) == t[i],
    ensures
        upsert_all(s, t) == s,
    decreases t.len(),
{
    if t.len() > 0 {
        let u = t.first();
        assert(t[0] == u);
        let i = login_index(s, u.login@);
        assert(0 <= i < s.len() && s[i].login@ == u.login@);
        assert(s[i] == u);
        assert(upsert_one(s, u) =~= s);
        assert(forall|k: int| 0 <= k < t.drop_first().len() ==> #[trigger] t.drop_first()[k]
            == t[k + 1]);
        lemma_upsert_identity(s, t.drop_first());
    }
}

/// Running the reconciler twice with the same target leaves exactly the
/// state the first run left: the second run changes nothing.
pub proof fn lemma_sync_idempotente(s: Seq<User>, t: Seq<User>)
    requires
        wf_users(s),
        wf_users(t),
    ensures
        sync_spec(sync_spec(s, t), t) == sync_spec(s, t),
{
    let r = sync_spec(s, t);
    lemma_sync_logins(s, t);
    lemma_sync_records(s, t);
    assert forall|k: int| 0 <= k < r.len() implies has_login(t, (#[trigger] r[k]).login@) by {
        assert(has_login(r, r[k].login@));
    }
    lemma_keep_all(r, t);
    assert forall|i: int| 0 <= i < t.len() implies has_login(r, (#[trigger] t[i]).login@)
        && record_of(r, t[i].login@) == t[i] by {
        assert(has_login(t, t[i].login@));
    }
    lemma_upsert_identity(r, t);
}

/// A sync with an empty target empties the store, and the client list
/// either upstream kind builds from it is empty.
pub proof fn lemma_sync_vazio(s: Seq<User>, kind: Seq<char>)
    ensures
        sync_spec(s, Seq::<User>::empty()).len() == 0,
        build_clients(sync_spec(s, Seq::<User>::empty()), kind) == Seq::<ClientEntry>::empty(),
{
    lemma_keep_nothing(s);
    assert(sync_spec(s, Seq::<User>::empty()) == keep_targets(s, Seq::<User>::empty()));
}

/// No row survives a filter against an empty target.
proof fn lemma_keep_nothing(s: Seq<User>)
    ensures
        keep_targets(s, Seq::<User>::empty()).len() == 0,
    decreases s.len(),
{
    if s.len() > 0 {
        lemma_keep_nothing(s.drop_last());
    }
}

/// An identifier stands on the built client list exactly when some
/// user of the kind carries it.
pub proof fn lemma_build_clients_ids(users: Seq<User>, kind: Seq<char>, x: Seq<char>)
    ensures
        crate::upstream::has_id(build_clients(users, kind), x) <==> exists|i: int|
            0 <= i < users.len() && crate::upstream::user_matches(#[trigger] users[i], kind)
                && users[i].uuid->0@ == x,
    decreases users.len(),
{
    if users.len() > 0 {
        lemma_build_clients_ids(users.drop_last(), kind, x);
        let pre = build_clients(users.drop_last(), kind);
        let out = build_clients(users, kind);
        let u = users.last();
        assert(forall|k: int| 0 <= k < users.len() - 1 ==> #[trigger] users.drop_last()[k]
            == users[k]);
        if crate::upstream::has_id(out, x) {
            let k = choose|k: int| 0 <= k < out.len() && (#[trigger] out[k]).id@ == x;
            if k < pre.len() {
                assert(crate::upstream::has_id(pre, x));
            } else {
                assert(out[k] == crate::upstream::client_of(u));
                assert(users[users.len() - 1] == u);
            }
        }
        if exists|i: int|
            0 <= i < users.len() && crate::upstream::user_matches(#[trigger] users[i], kind)
                && users[i].uuid->0@ == x {
            let i = choose|i: int|
                0 <= i < users.len() && crate::upstream::user_matches(#[trigger] users[i], kind)
                    && users[i].uuid->0@ == x;
            if i < users.len() - 1 {
                assert(users.drop_last()[i] == users[i]);
                assert(crate::upstream::has_id(pre, x));
                let k = choose|k: int| 0 <= k < pre.len() && (#[trigger] pre[k]).id@ == x;
                if crate::upstream::user_matches(u, kind) && !crate::upstream::has_id(
                    pre,
                    u.uuid->0@,
                ) {
                    assert(out[k] == pre[k]);
                } else {
                    assert(out == pre);
                }
                assert(crate::upstream::has_id(out, x));
            } else {
                if !crate::upstream::has_id(pre, x) {
                    assert(out.last().id@ == x);
                } else {
                    let k = choose|k: int| 0 <= k < pre.len() && (#[trigger] pre[k]).id@ == x;
                    if crate::upstream::user_matches(u, kind) && !crate::upstream::has_id(
                        pre,
                        u.uuid->0@,
                    ) {
                        assert(out[k] == pre[k]);
                    } else {
                        assert(out == pre);
                    }
                }
                assert(crate::upstream::has_id(out, x));
            }
        }
    }
}

/// Every row of a synced store is a row of its well-formed target.
pub proof fn lemma_sync_rows_are_target_rows(s: Seq<User>, t: Seq<User>, k: int)
    requires
        wf_users(s),
        wf_users(t),
        0 <= k < sync_spec(s, t).len(),
    ensures
        exists|i: int| 0 <= i < t.len() && #[trigger] t[i] == sync_spec(s, t)[k],
{
    let r = sync_spec(s, t);
    lemma_sync_logins(s, t);
    lemma_sync_records(s, t);
    assert(has_login(r, r[k].login@));
    assert(has_login(t, r[k].login@));
    let i = choose|i: int| 0 <= i < t.len() && (#[trigger] t[i]).login@ == r[k].login@;
    assert(record_of(r, t[i].login@) == t[i]);
    crate::store::lemma_wf_first_index(r, r[k].login@, k);
}

/// After any successful sync with a well-formed target, the built
/// client list of either kind carries exactly the identifiers of the
/// target's users of that kind.
pub proof fn lemma_sync_converge_clientes(s: Seq<User>, t: Seq<User>, kind: Seq<char>)
    requires
        wf_users(s),
        wf_users(t),
    ensures
        forall|x: Seq<char>|
            crate::upstream::has_id(#[trigger] build_clients(sync_spec(s, t), kind), x) <==> exists|
                i: int,
            |
                0 <= i < t.len() && crate::upstream::user_matches(#[trigger] t[i], kind)
                    && t[i].uuid->0@ == x,
{
    let r = sync_spec(s, t);
    lemma_sync_logins(s, t);
    lemma_sync_records(s, t);
    assert forall|x: Seq<char>|
        crate::upstream::has_id(#[trigger] build_clients(r, kind), x) implies exists|i: int|
        0 <= i < t.len() && crate::upstream::user_matches(#[trigger] t[i], kind) && t[i].uuid->0@
            == x by {
        lemma_build_clients_ids(r, kind, x);
        let k = choose|k: int|
            0 <= k < r.len() && crate::upstream::user_matches(#[trigger] r[k], kind)
                && r[k].uuid->0@ == x;
        lemma_sync_rows_are_target_rows(s, t, k);
        let i = choose|i: int| 0 <= i < t.len() && #[trigger] t[i] == r[k];
        assert(crate::upstream::user_matches(t[i], kind));
    }
    assert forall|x: Seq<char>|
        (exists|i: int|
            0 <= i < t.len() && crate::upstream::user_matches(#[trigger] t[i], kind)
                && t[i].uuid->0@ == x) implies crate::upstream::has_id(
        #[trigger] build_clients(r, kind),
        x,
    ) by {
        let i = choose|i: int|
            0 <= i < t.len() && crate::upstream::user_matches(#[trigger] t[i], kind)
                && t[i].uuid->0@ == x;
        assert(record_of(r, t[i].login@) == t[i]);
        assert(has_login(t, t[i].login@));
        assert(has_login(r, t[i].login@));
        let k = login_index(r, t[i].login@);
        assert(0 <= k < r.len() && r[k] == t[i]);
        lemma_build_clients_ids(r, kind, x);
    }
}

/// A bulk delete's request list names this login.
pub open spec fn req_contains(reqs: Seq<Usuario>, l: Seq<char>) -> bool {
    exists|i: int| 0 <= i < reqs.len() && (#[trigger] reqs[i]).usuario@ == l
}

/// The rows whose login the bulk delete does not name, in store order.
pub open spec fn remove_reqs(s: Seq<User>, reqs: Seq<Usuario>) -> Seq<User>
    decreases s.len(),
{
    if s.len() == 0 {
        Seq::empty()
    } else {
        let pre = remove_reqs(s.drop_last(), reqs);
        if !req_contains(reqs, s.last().login@) {
            pre.push(s.last())
        } else {
            pre
        }
    }
}

/// The logins the bulk delete removes, in store order.
pub open spec fn removed_reqs(s: Seq<User>, reqs: Seq<Usuario>) -> Seq<Seq<char>>
    decreases s.len(),
{
    if s.len() == 0 {
        Seq::empty()
    } else {
        let pre = removed_reqs(s.drop_last(), reqs);
        if req_contains(reqs, s.last().login@) {
            pre.push(s.last().login@)
        } else {
            pre
        }
    }
}

/// Dropping the named rows keeps the logins unique.
pub proof fn lemma_remove_reqs_wf(s: Seq<User>, reqs: Seq<Usuario>)
    requires
        wf_users(s),
    ensures
        wf_users(remove_reqs(s, reqs)),
        forall|l: Seq<char>|
            #[trigger] has_login(remove_reqs(s, reqs), l) <==> has_login(s, l) && !req_contains(
                reqs,
                l,
            ),
    decreases s.len(),
{
    if s.len() > 0 {
        assert(wf_users(s.drop_last())) by {
            assert(forall|k: int| 0 <= k < s.len() - 1 ==> #[trigger] s.drop_last()[k] == s[k]);
        }
        lemma_remove_reqs_wf(s.drop_last(), reqs);
        let pre = remove_reqs(s.drop_last(), reqs);
        let out = remove_reqs(s, reqs);
        assert(forall|k: int| 0 <= k < s.len() - 1 ==> #[trigger] s.drop_last()[k] == s[k]);
        assert forall|l: Seq<char>| #[trigger] has_login(out, l) implies has_login(s, l)
            && !req_contains(reqs, l) by {
            let k = choose|k: int| 0 <= k < out.len() && (#[trigger] out[k]).login@ == l;
            if k < pre.len() {
                assert(out[k] == pre[k]);
                assert(has_login(pre, l));
                assert(has_login(s.drop_last(), l));
                let j = choose|j: int|
                    0 <= j < s.drop_last().len() && (#[trigger] s.drop_last()[j]).login@ == l;
                assert(s[j].login@ == l);
            } else {
                assert(out[k] == s.last());
                assert(s[s.len() - 1].login@ == l);
            }
        }
        assert forall|l: Seq<char>| has_login(s, l) && !req_contains(reqs, l) implies
            #[trigger] has_login(out, l) by {
            let j = choose|j: int| 0 <= j < s.len() && (#[trigger] s[j]).login@ == l;
            if j < s.len() - 1 {
                assert(s.drop_last()[j].login@ == l);
                assert(has_login(s.drop_last(), l));
                assert(has_login(pre, l));
                let k = choose|k: int| 0 <= k < pre.len() && (#[trigger] pre[k]).login@ == l;
                assert(out[k] == pre[k]);
            } else {
                assert(out.last().login@ == l);
            }
        }
        assert forall|p: int, q: int| 0 <= p < q < out.len() implies (
        #[trigger] out[p]).login@ != (#[trigger] out[q]).login@ by {
            if q == out.len() - 1 && out.len() == pre.len() + 1 {
                assert(out[p] == pre[p]);
                assert(has_login(pre, out[p].login@));
                assert(has_login(s.drop_last(), out[p].login@));
                let j = choose|j: int|
                    0 <= j < s.drop_last().len() && (#[trigger] s.drop_last()[j]).login@
                        == out[p].login@;
                assert(s[j].login@ == out[p].login@);
                assert(s[j].login@ != s[s.len() - 1].login@);
            }
        }
    }
}

/// Why a bulk delete was refused.
#[derive(Debug)]
pub enum ExcluirGlobalError {
    /// The membership probe itself failed (database unreachable).
    VerificarUsuario,
    /// An OS command could not be run.
    FalhaComando,
    /// None of the named logins is in the store.
    NenhumUsuarioEncontrado,
    /// An OS account could not be deleted.
    ExcluirUsuario,
    /// A row could not be deleted in the surrounding process.
    RemoverUsuarioBanco,
}

/// What a bulk delete leaves for the caller to carry out.
pub struct ExcluirGlobalOutcome {
    /// The logins removed, whose OS accounts are to be torn down.
    pub removidos: Vec<String>,
    /// The full default-kind client list of the post-delete store.
    pub v2ray_clients: Vec<ClientEntry>,
    /// The full telemetry-kind client list of the post-delete store.
    pub xray_clients: Vec<ClientEntry>,
}

/// Whether the request list names this login.
fn req_has_login(reqs: &Vec<crate::user::Usuario>, login: &String) -> (r: bool)
    ensures
        r == req_contains(reqs@, login@),
{
    let mut i: usize = 0;
    while i < reqs.len()
        invariant
            0 <= i <= reqs@.len(),
            forall|j: int| 0 <= j < i ==> (#[trigger] reqs@[j]).usuario@ != login@,
        decreases reqs@.len() - i,
    {
        if str_is(&reqs[i].usuario, login.as_str()) {
            return true;
        }
        i = i + 1;
    }
    false
}

/// Bulk delete: drop every named row, then rebuild both upstream client
/// lists from what remains.  Refused when none of the named logins is
/// in the store.
pub fn excluir_global(store: &mut UserStore, payload: &ExcluirGlobalRequest) -> (r: Result<
    ExcluirGlobalOutcome,
    ExcluirGlobalError,
>)
    requires
        old(store).wf(),
    ensures
        final(store).wf(),
        final(store).dominio == old(store).dominio,
        match r {
            Ok(out) => {
                &&& removed_reqs(old(store).users@, payload.usuarios@).len() > 0
                &&& final(store).users@ == remove_reqs(old(store).users@, payload.usuarios@)
                &&& out.removidos@.map_values(|x: String| x@) == removed_reqs(
                    old(store).users@,
                    payload.usuarios@,
                )
                &&& out.v2ray_clients@ == build_clients(final(store).users@, "v2ray"@)
                &&& out.xray_clients@ == build_clients(final(store).users@, "xray"@)
            },
            Err(ExcluirGlobalError::NenhumUsuarioEncontrado) => removed_reqs(
                old(store).users@,
                payload.usuarios@,
            ).len() == 0 && *final(store) == *old(store),
            Err(_) => false,
        },
{
    let ghost pre = store.users@;
    let mut kept: Vec<User> = Vec::new();
    let mut removidos: Vec<String> = Vec::new();
    let mut i: usize = 0;
    while i < store.users.len()
        invariant
            0 <= i <= pre.len(),
            store.users@ == pre,
            kept@ == remove_reqs(pre.take(i as int), payload.usuarios@),
            removidos@.map_values(|x: String| x@) == removed_reqs(
                pre.take(i as int),
                payload.usuarios@,
            ),
        decreases pre.len() - i,
    {
        proof {
            assert(pre.take(i + 1).drop_last() =~= pre.take(i as int));
            assert(pre.take(i + 1).last() == pre[i as int]);
        }
        let ghost rpre = removidos@;
        if req_has_login(&payload.usuarios, &store.users[i].login) {
            removidos.push(store.users[i].login.clone());
            proof {
                assert(removidos@.map_values(|x: String| x@) =~= rpre.map_values(
                    |x: String| x@,
                ).push(pre[i as int].login@));
            }
        } else {
            kept.push(store.users[i].clone());
        }
        i = i + 1;
    }
    proof {
        assert(pre.take(pre.len() as int) =~= pre);
    }
    if removidos.len() == 0 {
        proof {
            assert(removidos@.map_values(|x: String| x@).len() == 0);
        }
        return Err(ExcluirGlobalError::NenhumUsuarioEncontrado);
    }
    store.users = kept;
    proof {
        lemma_remove_reqs_wf(pre, payload.usuarios@);
    }
    let v2ray_clients = clients_for_kind(&store.users, "v2ray");
    let xray_clients = clients_for_kind(&store.users, "xray");
    Ok(ExcluirGlobalOutcome { removidos, v2ray_clients, xray_clients })
}

/// Progress counters of one sync run.
pub struct ProcessingMetrics {
    pub total_users: usize,
    pub processed_users: usize,
    pub errors: Vec<String>,
}

/// The mutable progress state a sync run broadcasts from.
pub struct SyncStatus {
    pub metrics: ProcessingMetrics,
}

impl SyncStatus {
    /// Fresh progress state for a run over this many users.
    pub fn new(total_users: usize) -> (r: SyncStatus)
        ensures
            r.metrics.total_users == total_users,
            r.metrics.processed_users == 0,
            r.metrics.errors@.len() == 0,
    {
        SyncStatus {
            metrics: ProcessingMetrics { total_users, processed_users: 0, errors: Vec::new() },
        }
    }

    /// Count finished work and record a failure, if one came.
    pub fn update(&mut self, processed: usize, error: Option<String>)
        requires
            old(self).metrics.processed_users + processed <= usize::MAX,
        ensures
            final(self).metrics.total_users == old(self).metrics.total_users,
            final(self).metrics.processed_users == old(self).metrics.processed_users + processed,
            final(self).metrics.errors@ == (match error {
                Some(e) => old(self).metrics.errors@.push(e),
                None => old(self).metrics.errors@,
            }),
    {
        self.metrics.processed_users = self.metrics.processed_users + processed;
        match error {
            Some(e) => self.metrics.errors.push(e),
            None => {},
        }
    }
}

/// Whole percentage of finished work, zero while nothing is owed.
pub fn progress_percentage(processed: usize, total: usize) -> (r: u32)
    requires
        processed <= total,
    ensures
        total > 0 ==> r == processed as int * 100 / total as int,
        total == 0 ==> r == 0,
{
    if total == 0 {
        0
    } else {
        let p: u128 = (processed as u128) * 100 / (total as u128);
        assert(p as int <= 100) by (nonlinear_arith)
            requires
                processed as int <= total as int,
                total as int > 0,
                p as int == (processed as int) * 100 / (total as int),
        ;
        p as u32
    }
}

/// Seconds an upstream config read stays fresh.
pub const CACHE_TTL_SECS: u64 = 300;

/// The in-memory copies of the last-parsed upstream configs.
pub struct ConfigCache {
    pub xray_config: Option<crate::upstream::UpstreamDoc>,
    pub v2ray_config: Option<crate::upstream::UpstreamDoc>,
    /// When the copies were last read from disk, epoch seconds.
    pub last_update: u64,
}

impl ConfigCache {
    /// An empty cache stamped now.
    pub fn new(now: u64) -> (r: ConfigCache)
        ensures
            r.xray_config is None,
            r.v2ray_config is None,
            r.last_update == now,
    {
        ConfigCache { xray_config: None, v2ray_config: None, last_update: now }
    }

    /// A cache older than its lifetime must be re-read from disk.
    pub fn need_refresh(&self, now: u64) -> (r: bool)
        ensures
            r == (now as int - self.last_update as int > CACHE_TTL_SECS as int),
    {
        now > self.last_update && now - self.last_update > CACHE_TTL_SECS
    }
}

/// What the retry combinator does after one attempt.
#[derive(PartialEq, Eq, Structural, Clone, Copy, Debug)]
pub enum RetryDecision {
    /// The attempt succeeded: hand the value out.
    Concluir,
    /// The attempt failed and attempts remain: wait and try again.
    TentarNovamente,
    /// The attempt failed and the attempts are spent: report the error.
    Desistir,
}

/// The retry policy of the OS-account operations: up to `MAX_RETRIES`
/// further attempts after a failure.
pub fn with_retry_decide(tentativas: u32, sucesso: bool) -> (r: RetryDecision)
    ensures
        sucesso ==> r == RetryDecision::Concluir,
        !sucesso && tentativas >= MAX_RETRIES ==> r == RetryDecision::Desistir,
        !sucesso && tentativas < MAX_RETRIES ==> r == RetryDecision::TentarNovamente,
{
    if sucesso {
        RetryDecision::Concluir
    } else if tentativas >= MAX_RETRIES {
        RetryDecision::Desistir
    } else {
        RetryDecision::TentarNovamente
    }
}

/// The whole synchronizer transition: converge the store to the target
/// and rebuild both upstream client lists from the converged state.
/// The removed logins come back for the OS-account teardown.
pub fn sincronizar_usuarios(
    store: &mut UserStore,
    v2doc: &mut crate::upstream::UpstreamDoc,
    xraydoc: &mut crate::upstream::UpstreamDoc,
    usuarios: &Vec<User>,
) -> (removidos: Vec<String>)
    requires
        old(store).wf(),
    ensures
        final(store).wf(),
        final(store).dominio == old(store).dominio,
        final(store).users@ == sync_spec(old(store).users@, usuarios@),
        removidos@.map_values(|x: String| x@) == dropped_logins(old(store).users@, usuarios@),
        crate::upstream::vless_replaced(
            old(xraydoc).inbounds@,
            final(xraydoc).inbounds@,
            build_clients(final(store).users@, "xray"@),
        ),
        old(v2doc).inbounds@.len() > 0 ==> crate::upstream::first_inbound_replaced(
            old(v2doc).inbounds@,
            final(v2doc).inbounds@,
            build_clients(final(store).users@, "v2ray"@),
        ),
        old(v2doc).inbounds@.len() == 0 ==> *final(v2doc) == *old(v2doc),
{
    let removidos = aplicar_sincronizacao(store, usuarios);
    let _ = crate::upstream::atualizar_configs_v2ray(v2doc, &store.users);
    let _ = crate::upstream::atualizar_configs_xray(xraydoc, &store.users);
    removidos
}

/// Why a sync run was aborted.  Per-user failures are only recorded in
/// the progress stream; a store transaction failure aborts the run.
#[derive(Debug)]
pub enum SyncError {
    StoreIndisponivel(String),
}

} // verus!
