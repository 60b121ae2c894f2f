//! Parsing the observed sessions out of their three sources: the
//! process listing for SSH, the status log for OpenVPN, and the
//! telemetry counters for the VLESS engine.  The surrounding process
//! reads the raw text and hands the lines in.

use vstd::prelude::*;

use crate::text::{str_eq, str_views};
use crate::user::OnlineUser;

verus! {

/// The pattern stands in the text at this position.
pub open spec fn occurs_at(s: Seq<char>, pat: Seq<char>, k: int) -> bool {
    0 <= k && k + pat.len() <= s.len() && s.subrange(k, k + pat.len()) == pat
}

/// The pattern's first occurrence at or past `from` is at `k`.
pub open spec fn eh_primeira(s: Seq<char>, pat: Seq<char>, from: int, k: int) -> bool {
    from <= k && occurs_at(s, pat, k) && forall|m: int| from <= m < k ==> !occurs_at(s, pat, m)
}

/// Whether the pattern stands at the position.
fn confere(s: &str, pat: &str, k: usize) -> (r: bool)
    requires
        k + pat@.len() <= s@.len(),
    ensures
        r == occurs_at(s@, pat@, k as int),
{
    let n = s.unicode_len();
    let m = pat.unicode_len();
    let mut j: usize = 0;
    while j < m
        invariant
            0 <= j <= m,
            m == pat@.len(),
            n == s@.len(),
            k + m <= n,
            forall|t: int| 0 <= t < j ==> s@[k + t] == pat@[t],
        decreases m - j,
    {
        if s.get_char(k + j) != pat.get_char(j) {
            assert(s@.subrange(k as int, k + m) != pat@) by {
                assert(s@.subrange(k as int, k + m)[j as int] == s@[k + j]);
            }
            return false;
        }
        j = j + 1;
    }
    assert(s@.subrange(k as int, k + m) =~= pat@);
    true
}

/// Find the first occurrence of the pattern at or past `from`.
fn acha_sub(s: &str, pat: &str, from: usize) -> (r: Option<usize>)
    requires
        from <= s@.len(),
    ensures
        match r {
            Some(k) => eh_primeira(s@, pat@, from as int, k as int),
            None => forall|m: int| from <= m ==> !occurs_at(s@, pat@, m),
        },
{
    let n = s.unicode_len();
    let m = pat.unicode_len();
    if m > n {
        return None;
    }
    if m == 0 {
        proof {
            assert(s@.subrange(from as int, from as int) =~= pat@);
        }
        return Some(from);
    }
    if from > n - m {
        return None;
    }
    let mut k: usize = from;
    while k <= n - m
        invariant
            from <= k <= n - m + 1,
            n == s@.len(),
            m == pat@.len(),
            1 <= m <= n,
            forall|t: int| from <= t < k ==> !occurs_at(s@, pat@, t),
        decreases n - k,
    {
        if confere(s, pat, k) {
            return Some(k);
        }
        k = k + 1;
    }
    None
}

/// Whether the character at the position is blank.
fn branco_em(s: &str, i: usize) -> (r: bool)
    requires
        i < s@.len(),
    ensures
        r == espaco(s@[i as int]),
{
    let c = s.get_char(i);
    c == ' ' || c == '\t' || c == '\r'
}

/// A character the line parsers treat as blank.
pub open spec fn espaco(c: char) -> bool {
    c == ' ' || c == '\t' || c == '\r'
}

/// The run of non-blank characters starting at the position.
pub open spec fn palavra_em(s: Seq<char>, p: int) -> Seq<char>
    decreases s.len() - p,
{
    if p < 0 || p >= s.len() || espaco(s[p]) {
        Seq::empty()
    } else {
        seq![s[p]] + palavra_em(s, p + 1)
    }
}

/// The word equals the slice up to its first blank.
proof fn lemma_palavra(s: Seq<char>, p: int, e: int)
    requires
        0 <= p <= e <= s.len(),
        forall|k: int| p <= k < e ==> !espaco(s[k]),
        e == s.len() || espaco(s[e]),
    ensures
        palavra_em(s, p) == s.subrange(p, e),
    decreases e - p,
{
    if p == e {
        assert(palavra_em(s, p) =~= s.subrange(p, e));
    } else {
        lemma_palavra(s, p + 1, e);
        assert(palavra_em(s, p) =~= s.subrange(p, e));
    }
}

/// Extract the word starting at the position.
fn palavra(s: &str, p: usize) -> (r: String)
    requires
        p <= s@.len(),
    ensures
        r@ == palavra_em(s@, p as int),
{
    let n = s.unicode_len();
    let mut e: usize = p;
    while e < n
        invariant
            p <= e <= n,
            n == s@.len(),
            forall|k: int| p <= k < e ==> !espaco(s@[k]),
        decreases n - e,
    {
        let c = s.get_char(e);
        if c == ' ' || c == '\t' || c == '\r' {
            let seg = s.substring_char(p, e);
            proof {
                lemma_palavra(s@, p as int, e as int);
            }
            return seg.to_owned();
        }
        e = e + 1;
    }
    let seg = s.substring_char(p, n);
    proof {
        lemma_palavra(s@, p as int, n as int);
    }
    seg.to_owned()
}

/// The trimmed run of the text: blanks stripped from both ends.
pub open spec fn eh_aparado(s: Seq<char>, a: int, b: int) -> bool {
    &&& 0 <= a <= b <= s.len()
    &&& forall|k: int| 0 <= k < a ==> espaco(s[k])
    &&& forall|k: int| b <= k < s.len() ==> espaco(s[k])
    &&& (a == b || (!espaco(s[a]) && !espaco(s[b - 1])))
}

/// Strip blanks from both ends.
fn aparar(s: &str) -> (r: String)
    ensures
        exists|a: int, b: int| #[trigger] eh_aparado(s@, a, b) && r@ == s@.subrange(a, b),
{
    let n = s.unicode_len();
    let mut a: usize = 0;
    while a < n && branco_em(s, a)
        invariant
            0 <= a <= n,
            n == s@.len(),
            forall|k: int| 0 <= k < a ==> espaco(s@[k]),
        decreases n - a,
    {
        a = a + 1;
    }
    if a == n {
        let vazio = String::new();
        proof {
            assert(eh_aparado(s@, n as int, n as int));
            assert(vazio@ =~= s@.subrange(n as int, n as int));
        }
        return vazio;
    }
    let mut b: usize = n;
    while b > a && branco_em(s, b - 1)
        invariant
            a <= b <= n,
            n == s@.len(),
            a < n,
            !espaco(s@[a as int]),
            forall|k: int| b <= k < n ==> espaco(s@[k]),
        decreases b,
    {
        b = b - 1;
    }
    proof {
        assert(b > a);
        assert(eh_aparado(s@, a as int, b as int));
    }
    let seg = s.substring_char(a, b);
    seg.to_owned()
}

/// The login of one process-listing line: the word after the first
/// `sshd: ` of a line that also carries the privilege-separation mark,
/// unless it is empty or a system name.
pub open spec fn sshd_login_spec(l: Seq<char>) -> Option<Seq<char>> {
    if (exists|k: int| #[trigger] occurs_at(l, "[priv]"@, k)) && (exists|k: int|
        #[trigger] occurs_at(l, "sshd: "@, k)) {
        let k = choose|k: int| #[trigger] eh_primeira(l, "sshd: "@, 0, k);
        let login = palavra_em(l, k + 6);
        if login.len() == 0 || login == "root"@ || login == "unknown"@ {
            None
        } else {
            Some(login)
        }
    } else {
        None
    }
}

/// Two first occurrences are the same occurrence.
proof fn lemma_primeira_unica(s: Seq<char>, pat: Seq<char>, from: int, k1: int, k2: int)
    requires
        eh_primeira(s, pat, from, k1),
        eh_primeira(s, pat, from, k2),
    ensures
        k1 == k2,
{
}

/// Parse one process-listing line.
pub fn parse_sshd_login(line: &str) -> (r: Option<String>)
    ensures
        crate::user::opt_view(r) == sshd_login_spec(line@),
{
    let n = line.unicode_len();
    if acha_sub(line, "[priv]", 0).is_none() {
        return None;
    }
    let k = match acha_sub(line, "sshd: ", 0) {
        Some(k) => k,
        None => {
            return None;
        },
    };
    proof {
        reveal_strlit("sshd: ");
        assert("sshd: "@.len() == 6);
        let k2 = choose|k2: int| #[trigger] eh_primeira(line@, "sshd: "@, 0, k2);
        lemma_primeira_unica(line@, "sshd: "@, 0, k as int, k2);
    }
    let login = palavra(line, k + 6);
    if login.as_str().unicode_len() == 0 || str_eq(login.as_str(), "root") || str_eq(
        login.as_str(),
        "unknown",
    ) {
        None
    } else {
        Some(login)
    }
}

/// The trimmed text kept as a login, unless empty or a system name.
pub open spec fn login_util(login: Seq<char>) -> Option<Seq<char>> {
    if login.len() == 0 || login == "root"@ || login == "unknown"@ {
        None
    } else {
        Some(login)
    }
}

/// The login of one status-log line: the text before the first comma,
/// trimmed, unless it is empty or a system name.  A line without a
/// comma carries no login.
pub open spec fn openvpn_login_spec(l: Seq<char>) -> Option<Seq<char>> {
    if exists|k: int| #[trigger] eh_primeira(l, ","@, 0, k) {
        let k = choose|k: int| #[trigger] eh_primeira(l, ","@, 0, k);
        let cab = l.take(k);
        let par = choose|a: int, b: int| #[trigger] eh_aparado(cab, a, b);
        login_util(cab.subrange(par.0, par.1))
    } else {
        None
    }
}

/// Two non-empty trims demarcate the same run; an empty trim means the
/// whole text is blank, so every trim is empty.
proof fn lemma_aparado_unico(s: Seq<char>, a1: int, b1: int, a2: int, b2: int)
    requires
        eh_aparado(s, a1, b1),
        eh_aparado(s, a2, b2),
    ensures
        s.subrange(a1, b1).len() == 0 <==> s.subrange(a2, b2).len() == 0,
        s.subrange(a1, b1).len() > 0 ==> a1 == a2 && b1 == b2,
{
    if a1 < b1 && a2 < b2 {
        assert(!espaco(s[a1]) && !espaco(s[a2]));
        if a1 < a2 {
            assert(espaco(s[a1]));
        }
        if a2 < a1 {
            assert(espaco(s[a2]));
        }
        assert(!espaco(s[b1 - 1]) && !espaco(s[b2 - 1]));
        if b1 < b2 {
            assert(espaco(s[b2 - 1]));
        }
        if b2 < b1 {
            assert(espaco(s[b1 - 1]));
        }
    } else if a1 == b1 && a2 < b2 {
        assert(espaco(s[a2]) || !espaco(s[a2]));
        if a2 < a1 {
            assert(espaco(s[a2]));
        } else {
            assert(espaco(s[a2]));
        }
    } else if a2 == b2 && a1 < b1 {
        if a1 < a2 {
            assert(espaco(s[a1]));
        } else {
            assert(espaco(s[a1]));
        }
    }
}

/// Parse one status-log line.
pub fn parse_openvpn_line(line: &str) -> (r: Option<String>)
    ensures
        crate::user::opt_view(r) == openvpn_login_spec(line@),
{
    let k = match acha_sub(line, ",", 0) {
        Some(k) => k,
        None => {
            proof {
                assert(!(exists|k: int| #[trigger] eh_primeira(line@, ","@, 0, k))) by {
                    if exists|k: int| #[trigger] eh_primeira(line@, ","@, 0, k) {
                        let k = choose|k: int| #[trigger] eh_primeira(line@, ","@, 0, k);
                        assert(!occurs_at(line@, ","@, k));
                    }
                }
            }
            return None;
        },
    };
    proof {
        let k2 = choose|k2: int| #[trigger] eh_primeira(line@, ","@, 0, k2);
        lemma_primeira_unica(line@, ","@, 0, k as int, k2);
    }
    let cabeca = line.substring_char(0, k);
    proof {
        assert(cabeca@ =~= line@.take(k as int));
    }
    let login = aparar(cabeca);
    proof {
        let (a, b) = choose|a: int, b: int|
            #[trigger] eh_aparado(cabeca@, a, b) && login@ == cabeca@.subrange(a, b);
        let par = choose|a2: int, b2: int| #[trigger] eh_aparado(cabeca@, a2, b2);
        lemma_aparado_unico(cabeca@, a, b, par.0, par.1);
        if login@.len() > 0 {
            assert(par == (a, b));
        } else {
            assert(cabeca@.subrange(par.0, par.1).len() == 0);
            assert(cabeca@.subrange(par.0, par.1) =~= login@);
        }
    }
    if login.as_str().unicode_len() == 0 || str_eq(login.as_str(), "root") || str_eq(
        login.as_str(),
        "unknown",
    ) {
        None
    } else {
        Some(login)
    }
}

/// One telemetry counter row, as the stats endpoint reports it.
pub struct XrayStat {
    pub nome: String,
    pub valor: u64,
}

/// What a counter name says: the login and whether the counter is the
/// downlink one.  The name must read `user>>>LOGIN>>>traffic>>>` and
/// then `downlink` or `uplink` as a whole segment.
pub open spec fn stat_spec(l: Seq<char>) -> Option<(Seq<char>, bool)> {
    if occurs_at(l, "user>>>"@, 0) && (exists|k: int| #[trigger] eh_primeira(l, ">>>"@, 7, k)) {
        let k = choose|k: int| #[trigger] eh_primeira(l, ">>>"@, 7, k);
        if occurs_at(l, "traffic>>>"@, k + 3) {
            let seg3 = if exists|e: int| #[trigger] eh_primeira(l, ">>>"@, k + 13, e) {
                l.subrange(k + 13, choose|e: int| #[trigger] eh_primeira(l, ">>>"@, k + 13, e))
            } else {
                l.skip(k + 13)
            };
            if seg3 == "downlink"@ {
                Some((l.subrange(7, k), true))
            } else if seg3 == "uplink"@ {
                Some((l.subrange(7, k), false))
            } else {
                None
            }
        } else {
            None
        }
    } else {
        None
    }
}

/// Parse one counter name.
pub fn parse_xray_stat(nome: &str) -> (r: Option<(String, bool)>)
    ensures
        match r {
            Some(par) => stat_spec(nome@) matches Some(s) && s.0 == par.0@ && s.1 == par.1,
            None => stat_spec(nome@) is None,
        },
{
    proof {
        reveal_strlit("user>>>");
        reveal_strlit(">>>");
        reveal_strlit("traffic>>>");
    }
    let n = nome.unicode_len();
    proof {
        assert("user>>>"@.len() == 7);
        assert(">>>"@.len() == 3);
        assert("traffic>>>"@.len() == 10);
    }
    if n < 7 || !confere(nome, "user>>>", 0) {
        return None;
    }
    let k = match acha_sub(nome, ">>>", 7) {
        Some(k) => k,
        None => {
            return None;
        },
    };
    proof {
        let k2 = choose|k2: int| #[trigger] eh_primeira(nome@, ">>>"@, 7, k2);
        lemma_primeira_unica(nome@, ">>>"@, 7, k as int, k2);
    }
    if n < 13 || k > n - 13 || !confere(nome, "traffic>>>", k + 3) {
        proof {
            if n < 13 || k as int > n as int - 13 {
                assert(!occurs_at(nome@, "traffic>>>"@, k as int + 3));
            }
        }
        return None;
    }
    let seg3 = match acha_sub(nome, ">>>", k + 13) {
        Some(e) => {
            proof {
                let e2 = choose|e2: int| #[trigger] eh_primeira(nome@, ">>>"@, k as int + 13, e2);
                lemma_primeira_unica(nome@, ">>>"@, k as int + 13, e as int, e2);
            }
            nome.substring_char(k + 13, e)
        },
        None => nome.substring_char(k + 13, n),
    };
    proof {
        assert(nome@.skip(k as int + 13) =~= nome@.subrange(k as int + 13, n as int));
    }
    let login = nome.substring_char(7, k);
    if str_eq(seg3, "downlink") {
        Some((login.to_owned(), true))
    } else if str_eq(seg3, "uplink") {
        Some((login.to_owned(), false))
    } else {
        None
    }
}


/// The SSH logins of the process listing, in line order.
pub open spec fn ssh_logins(linhas: Seq<String>) -> Seq<Seq<char>>
    decreases linhas.len(),
{
    if linhas.len() == 0 {
        Seq::empty()
    } else {
        let pre = ssh_logins(linhas.drop_last());
        match sshd_login_spec(linhas.last()@) {
            Some(l) => pre.push(l),
            None => pre,
        }
    }
}

/// The OpenVPN logins of the status log, in line order.
pub open spec fn openvpn_logins(linhas: Seq<String>) -> Seq<Seq<char>>
    decreases linhas.len(),
{
    if linhas.len() == 0 {
        Seq::empty()
    } else {
        let pre = openvpn_logins(linhas.drop_last());
        match openvpn_login_spec(linhas.last()@) {
            Some(l) => pre.push(l),
            None => pre,
        }
    }
}

/// The logins with an observed OS session: SSH first, OpenVPN after,
/// in line order.
pub fn get_users(linhas_ps: &Vec<String>, linhas_openvpn: &Vec<String>) -> (r: Vec<String>)
    ensures
        str_views(r@) == ssh_logins(linhas_ps@) + openvpn_logins(linhas_openvpn@),
{
    let mut out: Vec<String> = Vec::new();
    let mut i: usize = 0;
    while i < linhas_ps.len()
        invariant
            0 <= i <= linhas_ps@.len(),
            str_views(out@) == ssh_logins(linhas_ps@.take(i as int)),
        decreases linhas_ps@.len() - i,
    {
        let ghost opre = out@;
        proof {
            assert(linhas_ps@.take(i + 1).drop_last() =~= linhas_ps@.take(i as int));
            assert(linhas_ps@.take(i + 1).last() == linhas_ps@[i as int]);
        }
        match parse_sshd_login(linhas_ps[i].as_str()) {
            Some(login) => {
                out.push(login);
                proof {
                    assert(str_views(out@) =~= str_views(opre).push(out@.last()@));
                }
            },
            None => {},
        }
        i = i + 1;
    }
    proof {
        assert(linhas_ps@.take(linhas_ps@.len() as int) =~= linhas_ps@);
    }
    let ghost meio = out@;
    let mut j: usize = 0;
    while j < linhas_openvpn.len()
        invariant
            0 <= j <= linhas_openvpn@.len(),
            str_views(meio) == ssh_logins(linhas_ps@),
            str_views(out@) == str_views(meio) + openvpn_logins(linhas_openvpn@.take(j as int)),
        decreases linhas_openvpn@.len() - j,
    {
        let ghost opre = out@;
        proof {
            assert(linhas_openvpn@.take(j + 1).drop_last() =~= linhas_openvpn@.take(j as int));
            assert(linhas_openvpn@.take(j + 1).last() == linhas_openvpn@[j as int]);
        }
        match parse_openvpn_line(linhas_openvpn[j].as_str()) {
            Some(login) => {
                out.push(login);
                proof {
                    assert(str_views(out@) =~= str_views(opre).push(out@.last()@));
                }
            },
            None => {},
        }
        j = j + 1;
    }
    proof {
        assert(linhas_openvpn@.take(linhas_openvpn@.len() as int) =~= linhas_openvpn@);
    }
    out
}

/// One aggregated telemetry row: login and the two counters, each
/// absent until its direction was reported.
pub struct Contadores {
    pub login: Seq<char>,
    pub down: Option<int>,
    pub up: Option<int>,
}

/// Some aggregated row carries this login.
pub open spec fn tem_conta(acc: Seq<Contadores>, l: Seq<char>) -> bool {
    exists|i: int| 0 <= i < acc.len() && (#[trigger] acc[i]).login == l
}

/// The index of the row with this login.
pub open spec fn conta_index(acc: Seq<Contadores>, l: Seq<char>) -> int {
    choose|i: int| 0 <= i < acc.len() && (#[trigger] acc[i]).login == l
}

/// The telemetry counters aggregated per login, first seen first, each
/// counter the last value the stream reported for it.
pub open spec fn agrega(stats: Seq<XrayStat>) -> Seq<Contadores>
    decreases stats.len(),
{
    if stats.len() == 0 {
        Seq::empty()
    } else {
        let pre = agrega(stats.drop_last());
        let s = stats.last();
        match stat_spec(s.nome@) {
            None => pre,
            Some(par) => {
                if tem_conta(pre, par.0) {
                    let i = conta_index(pre, par.0);
                    pre.update(
                        i,
                        if par.1 {
                            Contadores {
                                login: pre[i].login,
                                down: Some(s.valor as int),
                                up: pre[i].up,
                            }
                        } else {
                            Contadores {
                                login: pre[i].login,
                                down: pre[i].down,
                                up: Some(s.valor as int),
                            }
                        },
                    )
                } else {
                    pre.push(
                        if par.1 {
                            Contadores { login: par.0, down: Some(s.valor as int), up: None }
                        } else {
                            Contadores { login: par.0, down: None, up: Some(s.valor as int) }
                        },
                    )
                }
            },
        }
    }
}

/// Logins of the aggregate are pairwise distinct.
pub open spec fn contas_wf(acc: Seq<Contadores>) -> bool {
    forall|i: int, j: int|
        0 <= i < j < acc.len() ==> (#[trigger] acc[i]).login != (#[trigger] acc[j]).login
}

/// Under distinct logins the found index is the chosen one.
proof fn lemma_conta_index(acc: Seq<Contadores>, i: int)
    requires
        contas_wf(acc),
        0 <= i < acc.len(),
    ensures
        conta_index(acc, acc[i].login) == i,
{
    let j = conta_index(acc, acc[i].login);
    assert(tem_conta(acc, acc[i].login));
    if j < i {
        assert(acc[j].login != acc[i].login);
    } else if j > i {
        assert(acc[i].login != acc[j].login);
    }
}

/// The view of the aggregated rows a vector holds.
pub open spec fn contas_view(v: Seq<(String, Option<u64>, Option<u64>)>) -> Seq<Contadores> {
    v.map_values(
        |t: (String, Option<u64>, Option<u64>)|
            Contadores {
                login: t.0@,
                down: match t.1 {
                    Some(d) => Some(d as int),
                    None => None,
                },
                up: match t.2 {
                    Some(u) => Some(u as int),
                    None => None,
                },
            },
    )
}

/// The decimal text of an aggregated counter: empty while its
/// direction was never reported.
pub open spec fn texto_contador(c: Option<int>) -> Seq<char> {
    match c {
        Some(v) => crate::text::dec_str(v),
        None => Seq::empty(),
    }
}

/// Aggregate the telemetry counters per login: one row per login in
/// first-seen order, the counters rendered in decimal as the live view
/// carries them, an unreported direction as the empty string.
pub fn get_xray_online_users(stats: &Vec<XrayStat>) -> (r: Vec<(String, String, String)>)
    ensures
        r@.len() == agrega(stats@).len(),
        forall|k: int|
            0 <= k < r@.len() ==> {
                &&& (#[trigger] r@[k]).0@ == agrega(stats@)[k].login
                &&& r@[k].1@ == texto_contador(agrega(stats@)[k].down)
                &&& r@[k].2@ == texto_contador(agrega(stats@)[k].up)
            },
{
    let mut acc: Vec<(String, Option<u64>, Option<u64>)> = Vec::new();
    let mut i: usize = 0;
    while i < stats.len()
        invariant
            0 <= i <= stats@.len(),
            contas_view(acc@) == agrega(stats@.take(i as int)),
            contas_wf(contas_view(acc@)),
        decreases stats@.len() - i,
    {
        let ghost apre = contas_view(acc@);
        proof {
            assert(stats@.take(i + 1).drop_last() =~= stats@.take(i as int));
            assert(stats@.take(i + 1).last() == stats@[i as int]);
            assert(forall|k: int| 0 <= k < acc@.len() ==> (#[trigger] contas_view(acc@)[k]).login
                == acc@[k].0@);
        }
        match parse_xray_stat(stats[i].nome.as_str()) {
            Some(par) => {
                let mut achado: Option<usize> = None;
                let mut j: usize = 0;
                while j < acc.len()
                    invariant
                        0 <= j <= acc@.len(),
                        contas_view(acc@) == apre,
                        match achado {
                            Some(x) => x < acc@.len() && acc@[x as int].0@ == par.0@,
                            None => forall|m: int|
                                0 <= m < j ==> (#[trigger] acc@[m]).0@ != par.0@,
                        },
                    decreases acc@.len() - j,
                {
                    if achado.is_none() && str_eq(acc[j].0.as_str(), par.0.as_str()) {
                        achado = Some(j);
                    }
                    j = j + 1;
                }
                match achado {
                    Some(x) => {
                        proof {
                            assert(apre[x as int].login == par.0@);
                            lemma_conta_index(apre, x as int);
                            assert(tem_conta(apre, par.0@)) by {
                                assert(apre[x as int].login == par.0@);
                            }
                        }
                        let antigo = (acc[x].0.clone(), acc[x].1, acc[x].2);
                        if par.1 {
                            acc[x] = (antigo.0, Some(stats[i].valor), antigo.2);
                        } else {
                            acc[x] = (antigo.0, antigo.1, Some(stats[i].valor));
                        }
                        proof {
                            assert(contas_view(acc@) =~= agrega(stats@.take(i + 1)));
                            assert forall|p: int, q: int|
                                0 <= p < q < contas_view(acc@).len() implies (#[trigger] contas_view(
                                acc@,
                            )[p]).login != (#[trigger] contas_view(acc@)[q]).login by {
                                assert(apre[p].login != apre[q].login);
                            }
                        }
                    },
                    None => {
                        proof {
                            assert(!tem_conta(apre, par.0@)) by {
                                if tem_conta(apre, par.0@) {
                                    let m = choose|m: int|
                                        0 <= m < apre.len() && (#[trigger] apre[m]).login
                                            == par.0@;
                                    assert(acc@[m].0@ == par.0@);
                                }
                            }
                        }
                        if par.1 {
                            acc.push((par.0, Some(stats[i].valor), None));
                        } else {
                            acc.push((par.0, None, Some(stats[i].valor)));
                        }
                        proof {
                            assert(contas_view(acc@) =~= agrega(stats@.take(i + 1)));
                            assert forall|p: int, q: int|
                                0 <= p < q < contas_view(acc@).len() implies (#[trigger] contas_view(
                                acc@,
                            )[p]).login != (#[trigger] contas_view(acc@)[q]).login by {
                                if q < apre.len() {
                                    assert(apre[p].login != apre[q].login);
                                } else {
                                    assert(!tem_conta(apre, contas_view(acc@)[q].login));
                                    assert(apre[p].login == contas_view(acc@)[p].login);
                                }
                            }
                        }
                    },
                }
            },
            None => {},
        }
        i = i + 1;
    }
    proof {
        assert(stats@.take(stats@.len() as int) =~= stats@);
    }
    let mut out: Vec<(String, String, String)> = Vec::new();
    let mut k: usize = 0;
    while k < acc.len()
        invariant
            0 <= k <= acc@.len(),
            contas_view(acc@) == agrega(stats@),
            out@.len() == k,
            forall|m: int|
                0 <= m < k ==> {
                    &&& (#[trigger] out@[m]).0@ == agrega(stats@)[m].login
                    &&& out@[m].1@ == texto_contador(agrega(stats@)[m].down)
                    &&& out@[m].2@ == texto_contador(agrega(stats@)[m].up)
                },
        decreases acc@.len() - k,
    {
        proof {
            assert(contas_view(acc@)[k as int].login == acc@[k as int].0@);
        }
        let down = match acc[k].1 {
            Some(v) => crate::text::u64_to_string(v),
            None => String::new(),
        };
        let up = match acc[k].2 {
            Some(v) => crate::text::u64_to_string(v),
            None => String::new(),
        };
        out.push((acc[k].0.clone(), down, up));
        k = k + 1;
    }
    out
}

/// Merge the three sources into the observed-session list: SSH lines,
/// then OpenVPN lines, then the aggregated telemetry rows.
pub fn get_all_online_users(
    linhas_ps: &Vec<String>,
    linhas_openvpn: &Vec<String>,
    xray: &Vec<(String, String, String)>,
) -> (r: Vec<OnlineUser>)
    ensures
        ({
            let nssh = ssh_logins(linhas_ps@).len();
            let novpn = openvpn_logins(linhas_openvpn@).len();
            &&& r@.len() == nssh + novpn + xray@.len()
            &&& forall|k: int|
                0 <= k < nssh ==> (#[trigger] r@[k]).login@ == ssh_logins(linhas_ps@)[k]
                    && r@[k].tipo@ == "ssh"@ && r@[k].downlink is None && r@[k].uplink is None
            &&& forall|k: int|
                nssh <= k < nssh + novpn ==> (#[trigger] r@[k]).login@ == openvpn_logins(
                    linhas_openvpn@,
                )[k - nssh] && r@[k].tipo@ == "openvpn"@ && r@[k].downlink is None
                    && r@[k].uplink is None
            &&& forall|k: int|
                nssh + novpn <= k < r@.len() ==> (#[trigger] r@[k]).login@ == xray@[k - nssh
                    - novpn].0@ && r@[k].tipo@ == "xray"@ && (r@[k].downlink matches Some(d)
                    && d@ == xray@[k - nssh - novpn].1@) && (r@[k].uplink matches Some(u) && u@
                    == xray@[k - nssh - novpn].2@)
        }),
{
    let logins = get_users(linhas_ps, linhas_openvpn);
    let ghost nssh = ssh_logins(linhas_ps@).len() as int;
    let ghost novpn = openvpn_logins(linhas_openvpn@).len() as int;
    proof {
        assert(forall|k: int| 0 <= k < logins@.len() ==> str_views(logins@)[k] == (
        #[trigger] logins@[k])@);
    }
    let mut out: Vec<OnlineUser> = Vec::new();
    proof {
        assert(str_views(logins@).len() == logins@.len());
    }
    let divisa = logins.len() - contar_openvpn(linhas_openvpn);
    proof {
        assert(divisa == nssh);
    }
    let mut k: usize = 0;
    while k < logins.len()
        invariant
            0 <= k <= logins@.len(),
            nssh == ssh_logins(linhas_ps@).len(),
            novpn == openvpn_logins(linhas_openvpn@).len(),
            logins@.len() == nssh + novpn,
            divisa == nssh,
            str_views(logins@) == ssh_logins(linhas_ps@) + openvpn_logins(linhas_openvpn@),
            forall|m: int| 0 <= m < logins@.len() ==> str_views(logins@)[m] == (
            #[trigger] logins@[m])@,
            out@.len() == k,
            forall|m: int|
                0 <= m < k && m < nssh ==> (#[trigger] out@[m]).login@ == ssh_logins(
                    linhas_ps@,
                )[m] && out@[m].tipo@ == "ssh"@ && out@[m].downlink is None && out@[m].uplink
                    is None,
            forall|m: int|
                nssh <= m < k ==> (#[trigger] out@[m]).login@ == openvpn_logins(
                    linhas_openvpn@,
                )[m - nssh] && out@[m].tipo@ == "openvpn"@ && out@[m].downlink is None
                    && out@[m].uplink is None,
        decreases logins@.len() - k,
    {
        let tipo: &str = if k < divisa {
            "ssh"
        } else {
            "openvpn"
        };
        out.push(
            OnlineUser {
                login: logins[k].clone(),
                downlink: None,
                uplink: None,
                tipo: tipo.to_owned(),
            },
        );
        proof {
            assert(out@.last().login@ == logins@[k as int]@);
            assert(logins@[k as int]@ == str_views(logins@)[k as int]);
            if (k as int) < nssh {
                assert(ssh_logins(linhas_ps@).add(openvpn_logins(linhas_openvpn@))[k as int]
                    == ssh_logins(linhas_ps@)[k as int]);
                assert(str_views(logins@)[k as int] == ssh_logins(linhas_ps@)[k as int]);
            } else {
                assert(ssh_logins(linhas_ps@).add(openvpn_logins(linhas_openvpn@))[k as int]
                    == openvpn_logins(linhas_openvpn@)[k as int - nssh]);
                assert(str_views(logins@)[k as int] == openvpn_logins(linhas_openvpn@)[k as int
                    - nssh]);
            }
        }
        k = k + 1;
    }
    let mut x: usize = 0;
    while x < xray.len()
        invariant
            0 <= x <= xray@.len(),
            nssh == ssh_logins(linhas_ps@).len(),
            novpn == openvpn_logins(linhas_openvpn@).len(),
            logins@.len() == nssh + novpn,
            out@.len() == nssh + novpn + x,
            forall|m: int|
                0 <= m < nssh ==> (#[trigger] out@[m]).login@ == ssh_logins(linhas_ps@)[m]
                    && out@[m].tipo@ == "ssh"@ && out@[m].downlink is None && out@[m].uplink
                    is None,
            forall|m: int|
                nssh <= m < nssh + novpn ==> (#[trigger] out@[m]).login@ == openvpn_logins(
                    linhas_openvpn@,
                )[m - nssh] && out@[m].tipo@ == "openvpn"@ && out@[m].downlink is None
                    && out@[m].uplink is None,
            forall|m: int|
                nssh + novpn <= m < out@.len() ==> (#[trigger] out@[m]).login@ == xray@[m - nssh
                    - novpn].0@ && out@[m].tipo@ == "xray"@ && (out@[m].downlink matches Some(d)
                    && d@ == xray@[m - nssh - novpn].1@) && (out@[m].uplink matches Some(u) && u@
                    == xray@[m - nssh - novpn].2@),
        decreases xray@.len() - x,
    {
        out.push(
            OnlineUser {
                login: xray[x].0.clone(),
                downlink: Some(xray[x].1.clone()),
                uplink: Some(xray[x].2.clone()),
                tipo: "xray".to_owned(),
            },
        );
        x = x + 1;
    }
    out
}

/// Count the status-log lines that carry a login.
fn contar_openvpn(linhas: &Vec<String>) -> (r: usize)
    ensures
        r == openvpn_logins(linhas@).len(),
{
    let mut n: usize = 0;
    let mut i: usize = 0;
    while i < linhas.len()
        invariant
            0 <= i <= linhas@.len(),
            n == openvpn_logins(linhas@.take(i as int)).len(),
            n <= i,
        decreases linhas@.len() - i,
    {
        proof {
            assert(linhas@.take(i + 1).drop_last() =~= linhas@.take(i as int));
            assert(linhas@.take(i + 1).last() == linhas@[i as int]);
            lemma_openvpn_logins_bound(linhas@.take(i as int));
        }
        if parse_openvpn_line(linhas[i].as_str()).is_some() {
            n = n + 1;
        }
        i = i + 1;
    }
    proof {
        assert(linhas@.take(linhas@.len() as int) =~= linhas@);
    }
    n
}

/// No more logins than lines.
proof fn lemma_openvpn_logins_bound(linhas: Seq<String>)
    ensures
        openvpn_logins(linhas).len() <= linhas.len(),
    decreases linhas.len(),
{
    if linhas.len() > 0 {
        lemma_openvpn_logins_bound(linhas.drop_last());
    }
}

} // verus!
