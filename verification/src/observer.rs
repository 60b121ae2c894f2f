//! The session observer: merges the observed live sessions into the
//! ephemeral presence store, ages entries out, and decides which
//! accounts exceed their concurrent-session limit.
//!
//! The surrounding process enumerates sessions (process listing, status
//! log, telemetry endpoint), hands the observations in with the clock,
//! mirrors the returned store into its key-value backend and runs the
//! kill signals.

use vstd::prelude::*;

use crate::store::{has_login, login_index, UserStore};
use crate::text::{str_is, str_views};
use crate::user::{OnlineUser, User};

verus! {

/// Presence of one observed session.
#[derive(PartialEq, Eq, Structural, Clone, Copy, Debug)]
pub enum Status {
    On,
    Off,
}

/// Byte floor under which telemetry traffic does not count as activity.
pub const MIN_TRAFFIC_BYTES: u64 = 5120;

/// Consecutive quiet ticks after which a telemetry session is off.
pub const MAX_QUIET_TICKS: u32 = 3;

/// Seconds after which an unrefreshed entry is dropped.
pub const ENTRY_TTL_SECS: u64 = 8;

/// One live-session entry, keyed by login and session tag.
pub struct PresenceEntry {
    pub login: String,
    /// The login again for the OS kinds, the client identifier for the
    /// telemetry kind.
    pub session_tag: String,
    pub tipo: String,
    pub status: Status,
    /// Epoch seconds of the On transition.
    pub inicio_sessao: u64,
    pub dono: String,
    pub byid: i32,
    pub limite: i32,
    /// Concurrent sessions counted for the login this tick.
    pub conexoes: u64,
    /// Epoch seconds of the last refresh.
    pub last_seen: u64,
    /// Cumulative byte counters, telemetry kind only.
    pub downlink: u64,
    pub uplink: u64,
    /// The counters as of the previous refresh.
    pub downlink_prev: u64,
    pub uplink_prev: u64,
    /// Ticks in a row without significant traffic.
    pub no_change_ticks: u32,
}

impl Clone for PresenceEntry {
    fn clone(&self) -> (r: Self)
        ensures
            r == *self,
    {
        PresenceEntry {
            login: self.login.clone(),
            session_tag: self.session_tag.clone(),
            tipo: self.tipo.clone(),
            status: self.status,
            inicio_sessao: self.inicio_sessao,
            dono: self.dono.clone(),
            byid: self.byid,
            limite: self.limite,
            conexoes: self.conexoes,
            last_seen: self.last_seen,
            downlink: self.downlink,
            uplink: self.uplink,
            downlink_prev: self.downlink_prev,
            uplink_prev: self.uplink_prev,
            no_change_ticks: self.no_change_ticks,
        }
    }
}

/// The ephemeral presence store.
pub struct PresenceStore {
    pub entries: Vec<PresenceEntry>,
}

/// Some entry carries this key.
pub open spec fn has_key(entries: Seq<PresenceEntry>, login: Seq<char>, tag: Seq<char>) -> bool {
    exists|i: int|
        0 <= i < entries.len() && (#[trigger] entries[i]).login@ == login && entries[i].session_tag@
            == tag
}

/// Keys are pairwise distinct.
pub open spec fn wf_entries(entries: Seq<PresenceEntry>) -> bool {
    forall|i: int, j: int|
        0 <= i < j < entries.len() ==> !((#[trigger] entries[i]).login@ == (
        #[trigger] entries[j]).login@ && entries[i].session_tag@ == entries[j].session_tag@)
}

impl PresenceStore {
    pub open spec fn wf(self) -> bool {
        wf_entries(self.entries@)
    }

    /// An empty presence store, as after a backend restart.
    pub fn new() -> (r: PresenceStore)
        ensures
            r.wf(),
            r.entries@.len() == 0,
    {
        PresenceStore { entries: Vec::new() }
    }
}

/// Find the first entry with this key.
pub fn find_entry(entries: &Vec<PresenceEntry>, login: &String, tag: &String) -> (r: Option<
    usize,
>)
    ensures
        match r {
            Some(i) => i < entries@.len() && entries@[i as int].login@ == login@
                && entries@[i as int].session_tag@ == tag@,
            None => !has_key(entries@, login@, tag@),
        },
{
    let mut i: usize = 0;
    while i < entries.len()
        invariant
            0 <= i <= entries@.len(),
            forall|j: int|
                0 <= j < i ==> !((#[trigger] entries@[j]).login@ == login@
                    && entries@[j].session_tag@ == tag@),
        decreases entries@.len() - i,
    {
        if str_is(&entries[i].login, login.as_str()) && str_is(
            &entries[i].session_tag,
            tag.as_str(),
        ) {
            return Some(i);
        }
        i = i + 1;
    }
    None
}

/// Whether there was significant new traffic and the counters are past
/// the floor: the delta-activity rule of the telemetry kind.
pub open spec fn xray_activity(d: u64, u: u64, dp: u64, up: u64) -> bool {
    (d as int > dp as int + MIN_TRAFFIC_BYTES as int || u as int > up as int
        + MIN_TRAFFIC_BYTES as int) && (d > MIN_TRAFFIC_BYTES || u > MIN_TRAFFIC_BYTES)
}

/// The quiet-tick counter after one more tick without activity.
pub open spec fn quiet_ticks_next(t: u32) -> u32 {
    if t == u32::MAX {
        t
    } else {
        (t + 1) as u32
    }
}

/// Outcome of one presence step of a telemetry session.
pub struct XrayStep {
    pub status: Status,
    pub no_change_ticks: u32,
}

/// One presence step of a telemetry session: activity turns it on and
/// clears the quiet counter; a quiet tick counts up, and enough of them
/// turn it off.
pub fn xray_step(d: u64, u: u64, dp: u64, up: u64, ticks: u32) -> (r: XrayStep)
    ensures
        xray_activity(d, u, dp, up) ==> r == (XrayStep { status: Status::On, no_change_ticks: 0u32 }),
        !xray_activity(d, u, dp, up) ==> {
            &&& r.no_change_ticks == quiet_ticks_next(ticks)
            &&& r.status == (if quiet_ticks_next(ticks) >= MAX_QUIET_TICKS {
                Status::Off
            } else {
                Status::On
            })
        },
{
    let traffic_changed = (d > dp && d - dp > MIN_TRAFFIC_BYTES) || (u > up && u - up
        > MIN_TRAFFIC_BYTES);
    let has_minimum = d > MIN_TRAFFIC_BYTES || u > MIN_TRAFFIC_BYTES;
    if traffic_changed && has_minimum {
        XrayStep { status: Status::On, no_change_ticks: 0 }
    } else {
        let nc: u32 = if ticks == u32::MAX {
            ticks
        } else {
            ticks + 1
        };
        XrayStep {
            status: if nc >= MAX_QUIET_TICKS {
                Status::Off
            } else {
                Status::On
            },
            no_change_ticks: nc,
        }
    }
}

/// A telemetry session whose counters do not move for three consecutive
/// ticks is off: with zero deltas each step only counts the quiet
/// counter up, and the third step at the latest reports `Off`.
pub proof fn lemma_three_quiet_ticks_off(d: u64, u: u64, t0: u32)
    ensures
        ({
            let t1 = quiet_ticks_next(t0);
            let t2 = quiet_ticks_next(t1);
            let t3 = quiet_ticks_next(t2);
            &&& !xray_activity(d, u, d, u)
            &&& t3 >= MAX_QUIET_TICKS
        }),
{
    assert(!(d as int > d as int + MIN_TRAFFIC_BYTES as int));
}

/// The session tag an observation is keyed under: the client
/// identifier the store holds for a telemetry session, the login
/// itself otherwise.
#[verifier::opaque]
pub open spec fn tag_de(users: Seq<User>, o: OnlineUser) -> Seq<char> {
    if o.tipo@ == "xray"@ && has_login(users, o.login@) && users[login_index(
        users,
        o.login@,
    )].uuid is Some {
        users[login_index(users, o.login@)].uuid->0@
    } else {
        o.login@
    }
}

/// Some observation of this tick carries this key.
#[verifier::opaque]
pub open spec fn observada(
    users: Seq<User>,
    online: Seq<OnlineUser>,
    login: Seq<char>,
    tag: Seq<char>,
) -> bool {
    exists|i: int|
        0 <= i < online.len() && (#[trigger] online[i]).login@ == login && tag_de(
            users,
            online[i],
        ) == tag
}

/// The index of the entry with this key.
pub open spec fn chave_indice(entries: Seq<PresenceEntry>, login: Seq<char>, tag: Seq<char>) -> int {
    choose|i: int|
        0 <= i < entries.len() && (#[trigger] entries[i]).login@ == login && entries[i].session_tag@
            == tag
}

/// Under distinct keys, any index with a key is the chosen one.
pub proof fn lemma_wf_chave_indice(entries: Seq<PresenceEntry>, i: int)
    requires
        wf_entries(entries),
        0 <= i < entries.len(),
    ensures
        chave_indice(entries, entries[i].login@, entries[i].session_tag@) == i,
{
    assert(has_key(entries, entries[i].login@, entries[i].session_tag@));
    let j = chave_indice(entries, entries[i].login@, entries[i].session_tag@);
    if j < i {
        assert(!(entries[j].login@ == entries[i].login@ && entries[j].session_tag@
            == entries[i].session_tag@));
    } else if j > i {
        assert(!(entries[i].login@ == entries[j].login@ && entries[i].session_tag@
            == entries[j].session_tag@));
    }
}

/// Numeric value of an optional counter string: zero when absent or
/// not a plain number.
pub open spec fn valor_contador(x: Option<String>) -> int {
    match x {
        Some(s) => crate::text::lenient_u64(s@),
        None => 0,
    }
}

/// The delta-activity test over mathematical counters.
pub open spec fn atividade_xray(d: int, u: int, pd: int, pu: int) -> bool {
    (d > pd + MIN_TRAFFIC_BYTES as int || u > pu + MIN_TRAFFIC_BYTES as int) && (d
        > MIN_TRAFFIC_BYTES as int || u > MIN_TRAFFIC_BYTES as int)
}

/// What the delta rule decides for one telemetry observation against
/// the prior store.
#[verifier::opaque]
pub open spec fn passo_xray_obs(
    entries: Seq<PresenceEntry>,
    users: Seq<User>,
    o: OnlineUser,
) -> Status {
    let t = tag_de(users, o);
    let d = valor_contador(o.downlink);
    let u = valor_contador(o.uplink);
    let pd = if has_key(entries, o.login@, t) {
        entries[chave_indice(entries, o.login@, t)].downlink as int
    } else {
        0
    };
    let pu = if has_key(entries, o.login@, t) {
        entries[chave_indice(entries, o.login@, t)].uplink as int
    } else {
        0
    };
    let pt = if has_key(entries, o.login@, t) {
        entries[chave_indice(entries, o.login@, t)].no_change_ticks
    } else {
        0u32
    };
    if atividade_xray(d, u, pd, pu) {
        Status::On
    } else if quiet_ticks_next(pt) >= MAX_QUIET_TICKS {
        Status::Off
    } else {
        Status::On
    }
}

/// The entry one telemetry observation leaves, field by field: spec
/// data flows from the store row, the counters always become the new
/// prev values, the quiet counter follows the delta rule, and the
/// session start survives exactly while the session was already on.
#[verifier::opaque]
pub open spec fn entrada_xray_ok(
    entries: Seq<PresenceEntry>,
    users: Seq<User>,
    online: Seq<OnlineUser>,
    o: OnlineUser,
    now: u64,
    e: PresenceEntry,
) -> bool {
    let t = tag_de(users, o);
    let havia = has_key(entries, o.login@, t);
    let ant = entries[chave_indice(entries, o.login@, t)];
    let d = valor_contador(o.downlink);
    let u = valor_contador(o.uplink);
    let pd: int = if havia {
        ant.downlink as int
    } else {
        0
    };
    let pu: int = if havia {
        ant.uplink as int
    } else {
        0
    };
    let pt: u32 = if havia {
        ant.no_change_ticks
    } else {
        0u32
    };
    &&& e.login@ == o.login@
    &&& e.session_tag@ == t
    &&& e.tipo@ == o.tipo@
    &&& e.status == Status::On
    &&& e.last_seen == now
    &&& e.dono@ == dono_de(users, o.login@)
    &&& e.byid as int == byid_de(users, o.login@)
    &&& e.limite as int == limite_de(users, o.login@)
    &&& e.conexoes as int == conta_sessoes_spec(online, o.login@)
    &&& e.downlink as int == d
    &&& e.uplink as int == u
    &&& e.downlink_prev as int == pd
    &&& e.uplink_prev as int == pu
    &&& e.no_change_ticks == (if atividade_xray(d, u, pd, pu) {
        0u32
    } else {
        quiet_ticks_next(pt)
    })
    &&& e.inicio_sessao == (if havia && ant.status == Status::On {
        ant.inicio_sessao
    } else {
        now
    })
}

/// Some key seen this tick equals the key.
pub open spec fn vista_contem(
    vistas: Seq<(String, String)>,
    login: Seq<char>,
    tag: Seq<char>,
) -> bool {
    exists|m: int|
        0 <= m < vistas.len() && (#[trigger] vistas[m]).0@ == login && vistas[m].1@ == tag
}

/// The limit the store holds for a login, zero when the login is
/// absent.
pub open spec fn limite_de(users: Seq<User>, l: Seq<char>) -> int {
    if has_login(users, l) {
        users[login_index(users, l)].limite as int
    } else {
        0
    }
}

/// The owner the store holds for a login.
pub open spec fn dono_de(users: Seq<User>, l: Seq<char>) -> Seq<char> {
    if has_login(users, l) {
        users[login_index(users, l)].dono@
    } else {
        Seq::empty()
    }
}

/// The owner identity the store holds for a login.
pub open spec fn byid_de(users: Seq<User>, l: Seq<char>) -> int {
    if has_login(users, l) {
        users[login_index(users, l)].byid as int
    } else {
        0
    }
}

/// An observation of one of the OS kinds.
pub open spec fn os_kind(tipo: Seq<char>) -> bool {
    tipo == "ssh"@ || tipo == "openvpn"@
}

/// How many OS-kind sessions of this login were observed this tick.
pub open spec fn conta_sessoes_spec(online: Seq<OnlineUser>, l: Seq<char>) -> int
    decreases online.len(),
{
    if online.len() == 0 {
        0int
    } else {
        conta_sessoes_spec(online.drop_last(), l) + (if online.last().login@ == l && os_kind(
            online.last().tipo@,
        ) {
            1int
        } else {
            0int
        })
    }
}

/// Count the observed OS-kind sessions of a login.
pub fn conta_sessoes(online: &Vec<OnlineUser>, login: &String) -> (r: u64)
    ensures
        r == conta_sessoes_spec(online@, login@),
{
    let mut n: u64 = 0;
    let mut i: usize = 0;
    while i < online.len()
        invariant
            0 <= i <= online@.len(),
            n == conta_sessoes_spec(online@.take(i as int), login@),
            n <= i,
        decreases online@.len() - i,
    {
        proof {
            assert(online@.take(i + 1).drop_last() =~= online@.take(i as int));
            assert(online@.take(i + 1).last() == online@[i as int]);
            lemma_conta_bound(online@.take(i as int), login@);
        }
        if str_is(&online[i].login, login.as_str()) && (str_is(&online[i].tipo, "ssh") || str_is(
            &online[i].tipo,
            "openvpn",
        )) {
            n = n + 1;
        }
        i = i + 1;
    }
    proof {
        assert(online@.take(online@.len() as int) =~= online@);
    }
    n
}

/// The session count never exceeds the number of observations.
proof fn lemma_conta_bound(online: Seq<OnlineUser>, l: Seq<char>)
    ensures
        0 <= conta_sessoes_spec(online, l) <= online.len(),
    decreases online.len(),
{
    if online.len() > 0 {
        lemma_conta_bound(online.drop_last(), l);
    }
}

/// The concurrent-limit rule: an OS-kind session of the login was
/// observed, the login's limit is positive, and the observed session
/// count exceeds it.
pub open spec fn deve_derrubar(users: Seq<User>, online: Seq<OnlineUser>, l: Seq<char>) -> bool {
    &&& exists|i: int|
        0 <= i < online.len() && (#[trigger] online[i]).login@ == l && os_kind(online[i].tipo@)
    &&& limite_de(users, l) > 0
    &&& conta_sessoes_spec(online, l) > limite_de(users, l)
}

/// Decide which logins the observer signals a kill for: exactly those
/// with an observed OS-kind session over a positive limit.  A user with
/// limit zero is never killed.
pub fn decidir_derrubadas(store: &UserStore, online: &Vec<OnlineUser>) -> (kills: Vec<String>)
    requires
        store.wf(),
    ensures
        forall|l: Seq<char>|
            #[trigger] str_views(kills@).contains(l) <==> deve_derrubar(
                store.users@,
                online@,
                l,
            ),
        forall|p: int, q: int|
            0 <= p < q < kills@.len() ==> (#[trigger] kills@[p])@ != (#[trigger] kills@[q])@,
{
    let mut kills: Vec<String> = Vec::new();
    let mut i: usize = 0;
    while i < online.len()
        invariant
            0 <= i <= online@.len(),
            store.wf(),
            forall|l: Seq<char>|
                #[trigger] str_views(kills@).contains(l) <==> (deve_derrubar(
                    store.users@,
                    online@,
                    l,
                ) && exists|j: int|
                    0 <= j < i && (#[trigger] online@[j]).login@ == l && os_kind(
                        online@[j].tipo@,
                    )),
            forall|p: int, q: int|
                0 <= p < q < kills@.len() ==> (#[trigger] kills@[p])@ != (#[trigger] kills@[q])@,
        decreases online@.len() - i,
    {
        let o = &online[i];
        let ghost kpre = kills@;
        if str_is(&o.tipo, "ssh") || str_is(&o.tipo, "openvpn") {
            let mut ja_presente = false;
            let mut k: usize = 0;
            while k < kills.len()
                invariant
                    0 <= k <= kills@.len(),
                    kills@ == kpre,
                    ja_presente == exists|j: int|
                        0 <= j < k && (#[trigger] kills@[j])@ == o.login@,
                decreases kills@.len() - k,
            {
                if str_is(&kills[k], o.login.as_str()) {
                    ja_presente = true;
                }
                k = k + 1;
            }
            if !ja_presente {
                let limite: i32 = match crate::store::find_login(&store.users, &o.login) {
                    Some(j) => {
                        proof {
                            crate::store::lemma_wf_first_index(store.users@, o.login@, j as int);
                        }
                        store.users[j].limite
                    },
                    None => 0,
                };
                if limite > 0 {
                    let sessoes = conta_sessoes(online, &o.login);
                    if sessoes > (limite as u64) {
                        kills.push(o.login.clone());
                        proof {
                            assert(str_views(kills@) =~= str_views(kpre).push(o.login@));
                        }
                    }
                }
            }
        }
        proof {
            assert(forall|j: int| 0 <= j < kpre.len() ==> str_views(kpre)[j] == (
            #[trigger] kpre[j])@);
            assert(forall|j: int| 0 <= j < kills@.len() ==> str_views(kills@)[j] == (
            #[trigger] kills@[j])@);
            assert forall|l: Seq<char>| #[trigger] str_views(kills@).contains(l)
                implies (deve_derrubar(store.users@, online@, l) && exists|j: int|
                0 <= j < i + 1 && (#[trigger] online@[j]).login@ == l && os_kind(
                    online@[j].tipo@,
                )) by {
                let k = choose|k: int|
                    0 <= k < str_views(kills@).len() && str_views(kills@)[k] == l;
                if k < kpre.len() {
                    assert(str_views(kpre)[k] == l);
                    assert(str_views(kpre).contains(l));
                } else {
                    assert(l == online@[i as int].login@);
                    assert(os_kind(online@[i as int].tipo@));
                }
            }
            assert forall|l: Seq<char>|
                (deve_derrubar(store.users@, online@, l) && exists|j: int|
                    0 <= j < i + 1 && (#[trigger] online@[j]).login@ == l && os_kind(
                        online@[j].tipo@,
                    )) implies #[trigger] str_views(kills@).contains(l) by {
                if exists|j: int|
                    0 <= j < i && (#[trigger] online@[j]).login@ == l && os_kind(
                        online@[j].tipo@,
                    ) {
                    assert(str_views(kpre).contains(l));
                    let k = choose|k: int|
                        0 <= k < str_views(kpre).len() && str_views(kpre)[k] == l;
                    assert(str_views(kills@)[k] == l);
                    assert(str_views(kills@).contains(l));
                } else {
                    assert(l == online@[i as int].login@);
                    if str_views(kpre).contains(l) {
                        let k = choose|k: int|
                            0 <= k < str_views(kpre).len() && str_views(kpre)[k] == l;
                        assert(str_views(kills@)[k] == l);
                        assert(str_views(kills@).contains(l));
                    } else {
                        assert(str_views(kills@).last() == l);
                        assert(str_views(kills@).contains(l));
                    }
                }
            }
        }
        i = i + 1;
    }
    kills
}

/// Process one telemetry observation: read its counters, look the
/// prior entry up, run the delta rule, and build the refreshed entry,
/// or nothing when the rule reports the session off.
fn processar_xray(
    entries: &Vec<PresenceEntry>,
    store: &UserStore,
    online: &Vec<OnlineUser>,
    i: usize,
    tag: String,
    dono: String,
    byid: i32,
    limite: i32,
    conexoes: u64,
    now: u64,
) -> (r: Option<PresenceEntry>)
    requires
        wf_entries(entries@),
        store.wf(),
        i < online@.len(),
        online@[i as int].tipo@ == "xray"@,
        tag@ == tag_de(store.users@, online@[i as int]),
        dono@ == dono_de(store.users@, online@[i as int].login@),
        byid as int == byid_de(store.users@, online@[i as int].login@),
        limite as int == limite_de(store.users@, online@[i as int].login@),
        conexoes as int == conta_sessoes_spec(online@, online@[i as int].login@),
    ensures
        match r {
            Some(e) => {
                &&& passo_xray_obs(entries@, store.users@, online@[i as int]) == Status::On
                &&& entrada_xray_ok(entries@, store.users@, online@, online@[i as int], now, e)
                &&& e.login@ == online@[i as int].login@
                &&& e.session_tag@ == tag@
                &&& e.status == Status::On
                &&& e.last_seen == now
            },
            None => passo_xray_obs(entries@, store.users@, online@[i as int]) == Status::Off,
        },
{
    let o = &online[i];
    let d = match &o.downlink {
        Some(s) => crate::text::parse_u64_dec(s),
        None => 0,
    };
    let u = match &o.uplink {
        Some(s) => crate::text::parse_u64_dec(s),
        None => 0,
    };
    let indice_ant = find_entry(entries, &o.login, &tag);
    let anterior = match indice_ant {
        Some(k) => Some(entries[k].clone()),
        None => None,
    };
    let (pd, pu, pticks, era_on, pinicio): (u64, u64, u32, bool, u64) = match &anterior {
        Some(e) => (e.downlink, e.uplink, e.no_change_ticks, e.status == Status::On, e.inicio_sessao),
        None => (0, 0, 0, false, now),
    };
    let passo = xray_step(d, u, pd, pu, pticks);
    proof {
        reveal(passo_xray_obs);
        match indice_ant {
            Some(k) => {
                lemma_wf_chave_indice(entries@, k as int);
                assert(has_key(entries@, o.login@, tag@));
            },
            None => {},
        }
        assert(passo_xray_obs(entries@, store.users@, online@[i as int]) == passo.status);
    }
    if passo.status == Status::On {
        let e = PresenceEntry {
            login: o.login.clone(),
            session_tag: tag,
            tipo: o.tipo.clone(),
            status: Status::On,
            inicio_sessao: if era_on {
                pinicio
            } else {
                now
            },
            dono,
            byid,
            limite,
            conexoes,
            last_seen: now,
            // the observed counters always become the new prev values:
            // the next tick's deltas read against them
            downlink: d,
            uplink: u,
            downlink_prev: pd,
            uplink_prev: pu,
            no_change_ticks: passo.no_change_ticks,
        };
        proof {
            reveal(passo_xray_obs);
            reveal(entrada_xray_ok);
            assert(entrada_xray_ok(entries@, store.users@, online@, online@[i as int], now, e));
        }
        Some(e)
    } else {
        None
    }
}

/// One observer tick: merge the observed sessions into the presence
/// store, age unrefreshed entries out, and name the logins whose
/// concurrent-session limit is exceeded.
///
/// Every surviving entry was refreshed no longer than the entry
/// lifetime ago; every observed OS-kind session stands as a live `On`
/// entry; a telemetry session the delta rule turns on stands under its
/// key, the entry built field by field by `processar_xray`, whose
/// contract carries the whole per-observation rule; a fresh entry of
/// an unobserved key survives untouched, while a key seen this tick
/// never comes back through the carry-over, which is what drops an
/// off telemetry session at once; the kill list is exactly the limit
/// rule.
#[verifier::rlimit(100)]
#[verifier::spinoff_prover]
pub fn monitor_online_users(
    presence: &mut PresenceStore,
    store: &UserStore,
    online: &Vec<OnlineUser>,
    now: u64,
) -> (kills: Vec<String>)
    requires
        old(presence).wf(),
        store.wf(),
    ensures
        final(presence).wf(),
        forall|k: int|
            0 <= k < final(presence).entries@.len() ==> now as int - (#[trigger] final(presence).entries@[k]).last_seen as int <= ENTRY_TTL_SECS as int,
        forall|i: int|
            0 <= i < online@.len() && os_kind((#[trigger] online@[i]).tipo@) ==> exists|k: int|
                0 <= k < final(presence).entries@.len() && (#[trigger] final(presence).entries@[k]).login@ == online@[i].login@ && final(presence).entries@[k].session_tag@ == online@[i].login@ && final(presence).entries@[k].status == Status::On && final(presence).entries@[k].last_seen
                == now,
        forall|k: int|
            0 <= k < final(presence).entries@.len() ==> (#[trigger] final(presence).entries@[k]).last_seen == now || exists|j: int|
                0 <= j < old(presence).entries@.len() && #[trigger] old(presence).entries@[j]
                    == final(presence).entries@[k],
        forall|j: int|
            0 <= j < old(presence).entries@.len() && now as int - (#[trigger] old(
                presence,
            ).entries@[j]).last_seen as int <= ENTRY_TTL_SECS as int && !observada(
                store.users@,
                online@,
                old(presence).entries@[j].login@,
                old(presence).entries@[j].session_tag@,
            ) ==> has_key(
                final(presence).entries@,
                old(presence).entries@[j].login@,
                old(presence).entries@[j].session_tag@,
            ),
        forall|i: int|
            0 <= i < online@.len() && (#[trigger] online@[i]).tipo@ == "xray"@ && passo_xray_obs(
                old(presence).entries@,
                store.users@,
                online@[i],
            ) == Status::On ==> has_key(
                final(presence).entries@,
                online@[i].login@,
                tag_de(store.users@, online@[i]),
            ),
        forall|l: Seq<char>|
            #[trigger] str_views(kills@).contains(l) <==> deve_derrubar(
                store.users@,
                online@,
                l,
            ),
        forall|p: int, q: int|
            0 <= p < q < kills@.len() ==> (#[trigger] kills@[p])@ != (#[trigger] kills@[q])@,
{
    let mut novo: Vec<PresenceEntry> = Vec::new();
    let mut vistas: Vec<(String, String)> = Vec::new();
    let mut i: usize = 0;
    while i < online.len()
        invariant
            0 <= i <= online@.len(),
            store.wf(),
            wf_entries(presence.entries@),
            presence.entries@ == old(presence).entries@,
            wf_entries(novo@),
            forall|k: int|
                0 <= k < novo@.len() ==> (#[trigger] novo@[k]).last_seen == now
                    && novo@[k].status == Status::On,
            forall|j: int|
                0 <= j < i && os_kind((#[trigger] online@[j]).tipo@) ==> exists|k: int|
                    0 <= k < novo@.len() && (#[trigger] novo@[k]).login@ == online@[j].login@
                        && novo@[k].session_tag@ == online@[j].login@,
            forall|m: int|
                0 <= m < vistas@.len() ==> observada(
                    store.users@,
                    online@,
                    (#[trigger] vistas@[m]).0@,
                    vistas@[m].1@,
                ),
            forall|j: int|
                0 <= j < i && (#[trigger] online@[j]).tipo@ == "xray"@ && passo_xray_obs(
                    presence.entries@,
                    store.users@,
                    online@[j],
                ) == Status::On ==> has_key(
                    novo@,
                    online@[j].login@,
                    tag_de(store.users@, online@[j]),
                ),
        decreases online@.len() - i,
    {
        let o = &online[i];
        let ghost npre = novo@;
        proof {
            reveal_strlit("ssh");
            reveal_strlit("openvpn");
            reveal_strlit("xray");
        }
        let is_xray = str_is(&o.tipo, "xray");
        let tag: String = if is_xray {
            match crate::store::find_login(&store.users, &o.login) {
                Some(j) => {
                    proof {
                        crate::store::lemma_wf_first_index(store.users@, o.login@, j as int);
                    }
                    match &store.users[j].uuid {
                        Some(u) => u.clone(),
                        None => o.login.clone(),
                    }
                },
                None => o.login.clone(),
            }
        } else {
            o.login.clone()
        };
        proof {
            reveal(tag_de);
            assert(tag@ == tag_de(store.users@, online@[i as int]));
            reveal(observada);
            assert(observada(store.users@, online@, online@[i as int].login@, tag@)) by {
                assert((#[trigger] online@[i as int]).login@ == online@[i as int].login@);
            }
        }
        let existente = find_entry(&novo, &o.login, &tag);
        vistas.push((o.login.clone(), tag.clone()));
        if existente.is_none() {
            let (dono, byid, limite): (String, i32, i32) = match crate::store::find_login(
                &store.users,
                &o.login,
            ) {
                Some(j) => {
                    proof {
                        crate::store::lemma_wf_first_index(store.users@, o.login@, j as int);
                    }
                    (store.users[j].dono.clone(), store.users[j].byid, store.users[j].limite)
                },
                None => (String::new(), 0, 0),
            };
            let conexoes = conta_sessoes(online, &o.login);
            if is_xray {
                match processar_xray(
                    &presence.entries,
                    store,
                    online,
                    i,
                    tag,
                    dono,
                    byid,
                    limite,
                    conexoes,
                    now,
                ) {
                    Some(e) => {
                        novo.push(e);
                    },
                    None => {},
                }
            } else {
                novo.push(
                    PresenceEntry {
                        login: o.login.clone(),
                        session_tag: tag,
                        tipo: o.tipo.clone(),
                        status: Status::On,
                        inicio_sessao: match find_entry(&presence.entries, &o.login, &o.login) {
                            Some(k) => {
                                let e = &presence.entries[k];
                                if e.status == Status::On {
                                    e.inicio_sessao
                                } else {
                                    now
                                }
                            },
                            None => now,
                        },
                        dono,
                        byid,
                        limite,
                        conexoes,
                        last_seen: now,
                        downlink: 0,
                        uplink: 0,
                        downlink_prev: 0,
                        uplink_prev: 0,
                        no_change_ticks: 0,
                    },
                );
            }
        }
        proof {
            reveal_strlit("ssh");
            reveal_strlit("openvpn");
            reveal_strlit("xray");
            assert("ssh"@.len() == 3 && "openvpn"@.len() == 7 && "xray"@.len() == 4);
            assert(novo@.len() >= npre.len());
            assert(forall|k: int| 0 <= k < npre.len() ==> #[trigger] novo@[k] == npre[k]);
            assert forall|k: int, l: int|
                0 <= k < l < novo@.len() implies !((#[trigger] novo@[k]).login@ == (
            #[trigger] novo@[l]).login@ && novo@[k].session_tag@ == novo@[l].session_tag@) by {
                if l == novo@.len() - 1 && novo@.len() == npre.len() + 1 {
                    assert(novo@[k] == npre[k]);
                    assert(!has_key(npre, o.login@, tag@));
                }
            }
            assert forall|j: int|
                0 <= j < i + 1 && (#[trigger] online@[j]).tipo@ == "xray"@ && passo_xray_obs(
                    presence.entries@,
                    store.users@,
                    online@[j],
                ) == Status::On implies has_key(
                novo@,
                online@[j].login@,
                tag_de(store.users@, online@[j]),
            ) by {
                if j < i {
                    let k = choose|k: int|
                        0 <= k < npre.len() && (#[trigger] npre[k]).login@ == online@[j].login@
                            && npre[k].session_tag@ == tag_de(store.users@, online@[j]);
                    assert(novo@[k] == npre[k]);
                    assert(has_key(novo@, online@[j].login@, tag_de(store.users@, online@[j])));
                } else {
                    match existente {
                        Some(k0) => {
                            assert(npre[k0 as int].login@ == online@[i as int].login@);
                            assert(npre[k0 as int].session_tag@ == tag@);
                            assert(novo@[k0 as int] == npre[k0 as int]);
                            assert(has_key(
                                novo@,
                                online@[i as int].login@,
                                tag_de(store.users@, online@[i as int]),
                            ));
                        },
                        None => {
                            assert(novo@.len() == npre.len() + 1);
                            assert(novo@.last().login@ == online@[i as int].login@);
                            assert(novo@.last().session_tag@ == tag_de(
                                store.users@,
                                online@[i as int],
                            ));
                            assert(has_key(
                                novo@,
                                online@[i as int].login@,
                                tag_de(store.users@, online@[i as int]),
                            ));
                        },
                    }
                }
            }
            assert forall|j: int|
                0 <= j < i + 1 && os_kind((#[trigger] online@[j]).tipo@) implies exists|k: int|
                0 <= k < novo@.len() && (#[trigger] novo@[k]).login@ == online@[j].login@
                    && novo@[k].session_tag@ == online@[j].login@ by {
                if j < i {
                    let k = choose|k: int|
                        0 <= k < npre.len() && (#[trigger] npre[k]).login@ == online@[j].login@
                            && npre[k].session_tag@ == online@[j].login@;
                    assert(novo@[k] == npre[k]);
                } else {
                    assert(online@[i as int].tipo@ != "xray"@);
                    assert(tag@ == online@[i as int].login@);
                    match existente {
                        Some(k) => {
                            assert(novo@[k as int].login@ == online@[i as int].login@);
                            assert(novo@[k as int].session_tag@ == online@[i as int].login@);
                        },
                        None => {
                            assert(novo@.last().login@ == online@[i as int].login@);
                            assert(novo@.last().session_tag@ == online@[i as int].login@);
                        },
                    }
                }
            }
        }
        i = i + 1;
    }
    proof {
        assert forall|j: int|
            0 <= j < online@.len() && os_kind((#[trigger] online@[j]).tipo@) implies exists|k: int|
            0 <= k < novo@.len() && (#[trigger] novo@[k]).login@ == online@[j].login@
                && novo@[k].session_tag@ == online@[j].login@ && novo@[k].status == Status::On
                && novo@[k].last_seen == now by {
            let k = choose|k: int|
                0 <= k < novo@.len() && (#[trigger] novo@[k]).login@ == online@[j].login@
                    && novo@[k].session_tag@ == online@[j].login@;
            assert(novo@[k].status == Status::On && novo@[k].last_seen == now);
        }
    }
    let ghost fase1 = novo@;
    let mut k: usize = 0;
    while k < presence.entries.len()
        invariant
            0 <= k <= presence.entries@.len(),
            store.wf(),
            wf_entries(novo@),
            novo@.len() >= fase1.len(),
            forall|p: int| 0 <= p < fase1.len() ==> #[trigger] novo@[p] == fase1[p],
            forall|p: int|
                0 <= p < novo@.len() ==> now as int - (#[trigger] novo@[p]).last_seen as int
                    <= ENTRY_TTL_SECS as int,
            forall|p: int|
                0 <= p < novo@.len() ==> (#[trigger] novo@[p]).last_seen == now || exists|j: int|
                    0 <= j < presence.entries@.len() && #[trigger] presence.entries@[j]
                        == novo@[p],
            forall|m: int|
                0 <= m < vistas@.len() ==> observada(
                    store.users@,
                    online@,
                    (#[trigger] vistas@[m]).0@,
                    vistas@[m].1@,
                ),
            forall|j: int|
                0 <= j < k && now as int - (#[trigger] presence.entries@[j]).last_seen as int
                    <= ENTRY_TTL_SECS as int && !observada(
                    store.users@,
                    online@,
                    presence.entries@[j].login@,
                    presence.entries@[j].session_tag@,
                ) ==> has_key(
                    novo@,
                    presence.entries@[j].login@,
                    presence.entries@[j].session_tag@,
                ),
        decreases presence.entries@.len() - k,
    {
        let ghost npre2 = novo@;
        let e = &presence.entries[k];
        let vencido = e.last_seen < now && now - e.last_seen > ENTRY_TTL_SECS;
        let vista = chave_vista(&vistas, &e.login, &e.session_tag);
        let ja_no_novo = find_entry(&novo, &e.login, &e.session_tag);
        if !vencido && !vista && ja_no_novo.is_none() {
            novo.push(e.clone());
        }
        proof {
            assert(forall|p: int| 0 <= p < npre2.len() ==> #[trigger] novo@[p] == npre2[p]);
            let login = presence.entries@[k as int].login@;
            let tag = presence.entries@[k as int].session_tag@;
            if now as int - presence.entries@[k as int].last_seen as int <= ENTRY_TTL_SECS as int
                && !observada(store.users@, online@, login, tag) {
                if vista {
                    let m = choose|m: int|
                        0 <= m < vistas@.len() && (#[trigger] vistas@[m]).0@ == login
                            && vistas@[m].1@ == tag;
                    assert(observada(store.users@, online@, login, tag));
                } else {
                    match ja_no_novo {
                        Some(x) => {
                            assert(npre2[x as int].login@ == login);
                            assert(has_key(novo@, login, tag));
                        },
                        None => {
                            assert(novo@.last().login@ == login && novo@.last().session_tag@
                                == tag);
                            assert(has_key(novo@, login, tag));
                        },
                    }
                }
            }
            assert forall|j: int|
                0 <= j < k + 1 && now as int - (#[trigger] presence.entries@[j]).last_seen as int
                    <= ENTRY_TTL_SECS as int && !observada(
                    store.users@,
                    online@,
                    presence.entries@[j].login@,
                    presence.entries@[j].session_tag@,
                ) implies has_key(
                novo@,
                presence.entries@[j].login@,
                presence.entries@[j].session_tag@,
            ) by {
                if j < k {
                    let p = choose|p: int|
                        0 <= p < npre2.len() && (#[trigger] npre2[p]).login@
                            == presence.entries@[j].login@ && npre2[p].session_tag@
                            == presence.entries@[j].session_tag@;
                    assert(novo@[p] == npre2[p]);
                }
            }
        }
        k = k + 1;
    }
    proof {
        assert forall|j: int|
            0 <= j < online@.len() && os_kind((#[trigger] online@[j]).tipo@) implies exists|k: int|
            0 <= k < novo@.len() && (#[trigger] novo@[k]).login@ == online@[j].login@
                && novo@[k].session_tag@ == online@[j].login@ && novo@[k].status == Status::On
                && novo@[k].last_seen == now by {
            let k = choose|k: int|
                0 <= k < fase1.len() && (#[trigger] fase1[k]).login@ == online@[j].login@
                    && fase1[k].session_tag@ == online@[j].login@ && fase1[k].status == Status::On
                    && fase1[k].last_seen == now;
            assert(novo@[k] == fase1[k]);
        }
        assert forall|i2: int|
            0 <= i2 < online@.len() && (#[trigger] online@[i2]).tipo@ == "xray"@ && passo_xray_obs(
                presence.entries@,
                store.users@,
                online@[i2],
            ) == Status::On implies has_key(
            novo@,
            online@[i2].login@,
            tag_de(store.users@, online@[i2]),
        ) by {
            let p = choose|p: int|
                0 <= p < fase1.len() && (#[trigger] fase1[p]).login@ == online@[i2].login@
                    && fase1[p].session_tag@ == tag_de(store.users@, online@[i2]);
            assert(novo@[p] == fase1[p]);
        }
    }
    let kills = decidir_derrubadas(store, online);
    presence.entries = novo;
    kills
}

/// Whether a key was observed this tick; an observed key never comes
/// back through the carry-over, so a telemetry session that went off
/// is dropped at once.
fn chave_vista(vistas: &Vec<(String, String)>, login: &String, tag: &String) -> (r: bool)
    ensures
        r == vista_contem(vistas@, login@, tag@),
{
    let mut i: usize = 0;
    while i < vistas.len()
        invariant
            0 <= i <= vistas@.len(),
            forall|j: int|
                0 <= j < i ==> !((#[trigger] vistas@[j]).0@ == login@ && vistas@[j].1@ == tag@),
        decreases vistas@.len() - i,
    {
        if str_is(&vistas[i].0, login.as_str()) && str_is(&vistas[i].1, tag.as_str()) {
            return true;
        }
        i = i + 1;
    }
    false
}

/// Indices of the entries that are on, in order.
pub open spec fn on_indices(entries: Seq<PresenceEntry>) -> Seq<int>
    decreases entries.len(),
{
    if entries.len() == 0 {
        Seq::empty()
    } else {
        let pre = on_indices(entries.drop_last());
        if entries.last().status == Status::On {
            pre.push(entries.len() - 1)
        } else {
            pre
        }
    }
}

/// Each On index points into the store.
pub proof fn lemma_on_indices_bounds(entries: Seq<PresenceEntry>)
    ensures
        forall|k: int|
            0 <= k < on_indices(entries).len() ==> 0 <= #[trigger] on_indices(entries)[k]
                < entries.len(),
    decreases entries.len(),
{
    if entries.len() > 0 {
        lemma_on_indices_bounds(entries.drop_last());
        let pre = on_indices(entries.drop_last());
        assert forall|k: int| 0 <= k < on_indices(entries).len() implies 0 <= #[trigger] on_indices(
            entries,
        )[k] < entries.len() by {
            if entries.last().status == Status::On {
                assert(on_indices(entries) == pre.push(entries.len() - 1));
                if k < pre.len() {
                    assert(on_indices(entries)[k] == pre[k]);
                }
            } else {
                assert(on_indices(entries) == pre);
            }
        }
    }
}

/// Seconds a session has been up.
pub open spec fn uptime_of(now: u64, inicio: u64) -> int {
    if now >= inicio {
        now as int - inicio as int
    } else {
        0
    }
}

/// The clock rendering `HH:MM:SS` of a second count.
pub open spec fn hms_str(t: int) -> Seq<char> {
    crate::text::two_digit_str(t / 3600) + seq![':'] + crate::text::two_digit_str((t % 3600) / 60)
        + seq![':'] + crate::text::two_digit_str(t % 60)
}

/// Render a second count as `HH:MM:SS`.
pub fn render_hms(t: u64) -> (r: String)
    ensures
        r@ == hms_str(t as int),
{
    proof {
        reveal_strlit(":");
    }
    let mut out = crate::text::u64_to_two_digits(t / 3600);
    out.append(":");
    let m = crate::text::u64_to_two_digits((t % 3600) / 60);
    out.append(m.as_str());
    out.append(":");
    let s = crate::text::u64_to_two_digits(t % 60);
    out.append(s.as_str());
    out
}

/// One line of the live-session snapshot.
pub struct SnapshotUser {
    pub login: String,
    pub tipo: String,
    pub limite: i32,
    pub conexoes_simultaneas: u64,
    pub tempo_online: String,
    pub dono: String,
    pub byid: i32,
}

/// The live-session snapshot the stream sends every period.
pub struct Snapshot {
    pub total: usize,
    pub users: Vec<SnapshotUser>,
}

/// The snapshot line for one entry.
pub open spec fn snap_matches(e: PresenceEntry, it: SnapshotUser, now: u64) -> bool {
    &&& it.login == e.login
    &&& it.tipo == e.tipo
    &&& it.limite == e.limite
    &&& it.conexoes_simultaneas == e.conexoes
    &&& it.dono == e.dono
    &&& it.byid == e.byid
    &&& it.tempo_online@ == hms_str(uptime_of(now, e.inicio_sessao))
}

/// Build the live-session snapshot: one line for each entry that is
/// on, in store order, with the session uptime rendered as a clock.
pub fn monitor_users(presence: &PresenceStore, now: u64) -> (r: Snapshot)
    ensures
        r.total == r.users@.len(),
        r.users@.len() == on_indices(presence.entries@).len(),
        forall|k: int|
            0 <= k < r.users@.len() ==> snap_matches(
                presence.entries@[on_indices(presence.entries@)[k]],
                #[trigger] r.users@[k],
                now,
            ),
{
    let mut users: Vec<SnapshotUser> = Vec::new();
    let entries = &presence.entries;
    let mut i: usize = 0;
    while i < entries.len()
        invariant
            0 <= i <= entries@.len(),
            users@.len() == on_indices(entries@.take(i as int)).len(),
            forall|k: int|
                0 <= k < users@.len() ==> 0 <= #[trigger] on_indices(entries@.take(i as int))[k]
                    < i,
            forall|k: int|
                0 <= k < users@.len() ==> snap_matches(
                    entries@[on_indices(entries@.take(i as int))[k]],
                    #[trigger] users@[k],
                    now,
                ),
        decreases entries@.len() - i,
    {
        proof {
            assert(entries@.take(i + 1).drop_last() =~= entries@.take(i as int));
            assert(entries@.take(i + 1).last() == entries@[i as int]);
        }
        let e = &entries[i];
        if e.status == Status::On {
            let tempo = if now >= e.inicio_sessao {
                now - e.inicio_sessao
            } else {
                0
            };
            users.push(
                SnapshotUser {
                    login: e.login.clone(),
                    tipo: e.tipo.clone(),
                    limite: e.limite,
                    conexoes_simultaneas: e.conexoes,
                    tempo_online: render_hms(tempo),
                    dono: e.dono.clone(),
                    byid: e.byid,
                },
            );
        }
        i = i + 1;
    }
    proof {
        assert(entries@.take(entries@.len() as int) =~= entries@);
    }
    let total = users.len();
    Snapshot { total, users }
}

} // verus!
