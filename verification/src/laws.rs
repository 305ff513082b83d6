//! Round-trip laws: decoding what the encoder wrote yields the record it
//! was given, field for field.

use crate::ddd::enc_cities;
use crate::ddd::enc_cities_from;
use crate::ddd::enc_opt_regiao;
use crate::ddd::enc_opt_str;
use crate::ddd::scan_ddd_members;
use crate::ddd::spec_decode_ddd;
use crate::ddd::spec_encode_ddd;
use crate::ddd::DddV;
use crate::ddd::scan_cities_items;
use crate::ddd::scan_err_members;
use crate::ddd::scan_regiao_members;
use crate::ddd::spec_decode_err;
use crate::ddd::spec_encode_err;
use crate::ddd::spec_encode_regiao;
use crate::ddd::DddErrorV;
use crate::ddd::RegiaoV;
use crate::json::enc_int;
use crate::json::esc;
use crate::json::is_digit;
use crate::json::lemma_scan_enc_int;
use crate::json::lemma_scan_quoted;
use crate::json::quoted;
use crate::json::skip_ws;
use vstd::prelude::*;

verus! {

/// Encoding an error record and decoding the text yields the record back.
#[verifier::rlimit(80)]
pub proof fn lemma_err_round_trip(e: DddErrorV)
    ensures
        spec_decode_err(spec_encode_err(e)) == Some(e),
{
    let s = spec_encode_err(e);
    let mk = "message"@;
    let nk = "name"@;
    let tk = "type"@;
    reveal_strlit("message");
    reveal_strlit("name");
    reveal_strlit("type");
    assert(mk.len() == 7);
    assert(nk.len() == 4);
    assert(tk.len() == 4);
    assert(nk[0] != tk[0]);
    assert(mk != nk && mk != tk && nk != tk);
    let em = esc(mk).len() as int;
    let vm = esc(e.message).len() as int;
    let en = esc(nk).len() as int;
    let vn = esc(e.name).len() as int;
    let et = esc(tk).len() as int;
    let vt = esc(e.kind).len() as int;
    let m2s = em + vm + 7;
    let m3s = m2s + en + vn + 6;
    let total = m3s + et + vt + 6;
    assert(s.len() == total);
    // the characters that drive the scan
    assert(s[0] == '{');
    assert(s[1] == '"');
    assert(s[em + 3] == ':');
    assert(s[em + 4] == '"');
    assert(s[em + vm + 6] == ',');
    assert(s[m2s] == '"');
    assert(s[m2s + en + 2] == ':');
    assert(s[m2s + en + 3] == '"');
    assert(s[m2s + en + vn + 5] == ',');
    assert(s[m3s] == '"');
    assert(s[m3s + et + 2] == ':');
    assert(s[m3s + et + 3] == '"');
    assert(s[m3s + et + vt + 5] == '}');
    // the three keys and the three values scan back exactly
    assert(s.subrange(2, em + 3) =~= esc(mk) + seq!['"']);
    lemma_scan_quoted(s, 2, mk);
    assert(s.subrange(em + 5, em + vm + 6) =~= esc(e.message) + seq!['"']);
    lemma_scan_quoted(s, em + 5, e.message);
    assert(s.subrange(m2s + 1, m2s + en + 2) =~= esc(nk) + seq!['"']);
    lemma_scan_quoted(s, m2s + 1, nk);
    assert(s.subrange(m2s + en + 4, m2s + en + vn + 5) =~= esc(e.name) + seq!['"']);
    lemma_scan_quoted(s, m2s + en + 4, e.name);
    assert(s.subrange(m3s + 1, m3s + et + 2) =~= esc(tk) + seq!['"']);
    lemma_scan_quoted(s, m3s + 1, tk);
    assert(s.subrange(m3s + et + 4, m3s + et + vt + 5) =~= esc(e.kind) + seq!['"']);
    lemma_scan_quoted(s, m3s + et + 4, e.kind);
    // the member loop, unfolded from the last member back to the first
    assert(scan_err_members(s, m3s, Some(e.message), Some(e.name), None) == Some(
        (DddErrorV { message: e.message, name: e.name, kind: e.kind }, total),
    ));
    assert(scan_err_members(s, m2s, Some(e.message), None, None) == Some(
        (DddErrorV { message: e.message, name: e.name, kind: e.kind }, total),
    ));
    assert(scan_err_members(s, 1, None, None, None) == Some(
        (DddErrorV { message: e.message, name: e.name, kind: e.kind }, total),
    ));
    assert(skip_ws(s, total) == total);
    assert(DddErrorV { message: e.message, name: e.name, kind: e.kind } == e);
}

/// Scanning the encoded city list from element `k` on appends exactly the
/// remaining cities; at the end of the encoded elements stands `]`.
#[verifier::rlimit(80)]
pub proof fn lemma_scan_cities_from(
    s: Seq<char>,
    i: int,
    cs: Seq<Seq<char>>,
    k: int,
    acc: Seq<Seq<char>>,
)
    requires
        0 <= k < cs.len(),
        0 <= i,
        i + enc_cities_from(cs, k).len() + 1 <= s.len(),
        s.subrange(i, i + enc_cities_from(cs, k).len() + 1) == enc_cities_from(cs, k) + seq![']'],
    ensures
        scan_cities_items(s, i, acc) == Some(
            (acc + cs.subrange(k, cs.len() as int), i + enc_cities_from(cs, k).len() + 1),
        ),
    decreases cs.len() - k,
{
    let x = cs[k];
    let q = esc(x).len() as int;
    let el = enc_cities_from(cs, k).len() as int;
    assert(s[i] == s.subrange(i, i + el + 1)[0]);
    assert(s[i] == '"');
    assert(s.subrange(i + 1, i + q + 2) =~= s.subrange(i, i + el + 1).subrange(1, q + 2));
    assert((enc_cities_from(cs, k) + seq![']']).subrange(1, q + 2) =~= esc(x) + seq!['"']);
    lemma_scan_quoted(s, i + 1, x);
    if k == cs.len() - 1 {
        assert(el == q + 2);
        assert(s[i + q + 2] == s.subrange(i, i + el + 1)[el]);
        assert(s[i + q + 2] == ']');
        assert(skip_ws(s, i + q + 2) == i + q + 2);
        assert(acc.push(x) =~= acc + cs.subrange(k, cs.len() as int));
    } else {
        let rest = enc_cities_from(cs, k + 1).len() as int;
        assert(el == q + 3 + rest);
        assert(s[i + q + 2] == s.subrange(i, i + el + 1)[q + 2]);
        assert(s[i + q + 2] == ',');
        assert(skip_ws(s, i + q + 2) == i + q + 2);
        assert(s.subrange(i + q + 3, i + el + 1) =~= s.subrange(i, i + el + 1).subrange(
            q + 3,
            el + 1,
        ));
        assert((enc_cities_from(cs, k) + seq![']']).subrange(q + 3, el + 1) =~= enc_cities_from(
            cs,
            k + 1,
        ) + seq![']']);
        assert(s[i + q + 3] == s.subrange(i, i + el + 1)[q + 3]);
        assert(s[i + q + 3] == '"');
        assert(skip_ws(s, i + q + 3) == i + q + 3);
        lemma_scan_cities_from(s, i + q + 3, cs, k + 1, acc.push(x));
        assert(acc.push(x) + cs.subrange(k + 1, cs.len() as int) =~= acc + cs.subrange(
            k,
            cs.len() as int,
        ));
    }
}

/// Scanning the members of an encoded region object gives back exactly the
/// region: at `i` stands its whole encoding.
#[verifier::rlimit(80)]
pub proof fn lemma_scan_regiao_at(s: Seq<char>, i: int, r: RegiaoV)
    requires
        i32::MIN as int <= r.id <= i32::MAX as int,
        0 <= i,
        i + spec_encode_regiao(r).len() < s.len(),
        s.subrange(i, i + spec_encode_regiao(r).len()) == spec_encode_regiao(r),
    ensures
        scan_regiao_members(s, i + 1, None, None, None) == Some(
            (r, i + spec_encode_regiao(r).len()),
        ),
{
    let ik = "id"@;
    let sk = "sigla"@;
    let nk = "nome"@;
    reveal_strlit("id");
    reveal_strlit("sigla");
    reveal_strlit("nome");
    assert(ik.len() == 2);
    assert(sk.len() == 5);
    assert(nk.len() == 4);
    assert(ik != sk && ik != nk && sk != nk);
    let ei = esc(ik).len() as int;
    let di = enc_int(r.id).len() as int;
    let es = esc(sk).len() as int;
    let vs = esc(r.sigla).len() as int;
    let en = esc(nk).len() as int;
    let vn = esc(r.nome).len() as int;
    let ll = spec_encode_regiao(r).len() as int;
    let m2 = i + ei + di + 5;
    let m3 = m2 + es + vs + 6;
    assert(spec_encode_regiao(r) == seq!['{'] + quoted(ik) + seq![':'] + enc_int(r.id) + seq![',']
        + quoted(sk) + seq![':'] + quoted(r.sigla) + seq![','] + quoted(nk) + seq![':'] + quoted(
        r.nome,
    ) + seq!['}']);
    assert(quoted(ik).len() == ei + 2);
    assert(quoted(sk).len() == es + 2);
    assert(quoted(nk).len() == en + 2);
    assert(quoted(r.sigla).len() == vs + 2);
    assert(quoted(r.nome).len() == vn + 2);
    assert(ll == ei + di + es + vs + en + vn + 17);
    assert(s[i + 1] == s.subrange(i, i + ll)[1]);
    assert(s[i + 1] == '"');
    assert(s[i + ei + 3] == s.subrange(i, i + ll)[ei + 3]);
    assert(s[i + ei + 3] == ':');
    assert(s[i + ei + 4 + di] == s.subrange(i, i + ll)[ei + 4 + di]);
    assert(s[i + ei + 4 + di] == ',');
    assert(s[m2] == s.subrange(i, i + ll)[m2 - i]);
    assert(s[m2] == '"');
    assert(s[m2 + es + 2] == s.subrange(i, i + ll)[m2 - i + es + 2]);
    assert(s[m2 + es + 2] == ':');
    assert(s[m2 + es + 3] == s.subrange(i, i + ll)[m2 - i + es + 3]);
    assert(s[m2 + es + 3] == '"');
    assert(s[m2 + es + vs + 5] == s.subrange(i, i + ll)[m2 - i + es + vs + 5]);
    assert(s[m2 + es + vs + 5] == ',');
    assert(s[m3] == s.subrange(i, i + ll)[m3 - i]);
    assert(s[m3] == '"');
    assert(s[m3 + en + 2] == s.subrange(i, i + ll)[m3 - i + en + 2]);
    assert(s[m3 + en + 2] == ':');
    assert(s[m3 + en + 3] == s.subrange(i, i + ll)[m3 - i + en + 3]);
    assert(s[m3 + en + 3] == '"');
    assert(s[m3 + en + vn + 5] == s.subrange(i, i + ll)[m3 - i + en + vn + 5]);
    assert(s[m3 + en + vn + 5] == '}');
    // keys and string values scan back exactly
    assert(s.subrange(i + 2, i + ei + 3) =~= s.subrange(i, i + ll).subrange(2, ei + 3));
    assert(spec_encode_regiao(r).subrange(2, ei + 3) =~= esc(ik) + seq!['"']);
    lemma_scan_quoted(s, i + 2, ik);
    assert(s.subrange(m2 + 1, m2 + es + 2) =~= s.subrange(i, i + ll).subrange(
        m2 - i + 1,
        m2 - i + es + 2,
    ));
    assert(spec_encode_regiao(r).subrange(m2 - i + 1, m2 - i + es + 2) =~= esc(sk) + seq!['"']);
    lemma_scan_quoted(s, m2 + 1, sk);
    assert(s.subrange(m2 + es + 4, m2 + es + vs + 5) =~= s.subrange(i, i + ll).subrange(
        m2 - i + es + 4,
        m2 - i + es + vs + 5,
    ));
    assert(spec_encode_regiao(r).subrange(m2 - i + es + 4, m2 - i + es + vs + 5) =~= esc(r.sigla)
        + seq!['"']);
    lemma_scan_quoted(s, m2 + es + 4, r.sigla);
    assert(s.subrange(m3 + 1, m3 + en + 2) =~= s.subrange(i, i + ll).subrange(
        m3 - i + 1,
        m3 - i + en + 2,
    ));
    assert(spec_encode_regiao(r).subrange(m3 - i + 1, m3 - i + en + 2) =~= esc(nk) + seq!['"']);
    lemma_scan_quoted(s, m3 + 1, nk);
    assert(s.subrange(m3 + en + 4, m3 + en + vn + 5) =~= s.subrange(i, i + ll).subrange(
        m3 - i + en + 4,
        m3 - i + en + vn + 5,
    ));
    assert(spec_encode_regiao(r).subrange(m3 - i + en + 4, m3 - i + en + vn + 5) =~= esc(r.nome)
        + seq!['"']);
    lemma_scan_quoted(s, m3 + en + 4, r.nome);
    // the integer value scans back exactly
    assert(s.subrange(i + ei + 4, i + ei + 4 + di) =~= s.subrange(i, i + ll).subrange(
        ei + 4,
        ei + 4 + di,
    ));
    assert(spec_encode_regiao(r).subrange(ei + 4, ei + 4 + di) =~= enc_int(r.id));
    assert(!is_digit(','));
    lemma_scan_enc_int(s, i + ei + 4, r.id);
    // the member loop, unfolded from the last member back to the first
    assert(scan_regiao_members(s, m3, Some(r.id), Some(r.sigla), None) == Some(
        (RegiaoV { id: r.id, sigla: r.sigla, nome: r.nome }, i + ll),
    ));
    assert(scan_regiao_members(s, m2, Some(r.id), None, None) == Some(
        (RegiaoV { id: r.id, sigla: r.sigla, nome: r.nome }, i + ll),
    ));
    assert(scan_regiao_members(s, i + 1, None, None, None) == Some(
        (RegiaoV { id: r.id, sigla: r.sigla, nome: r.nome }, i + ll),
    ));
    assert(RegiaoV { id: r.id, sigla: r.sigla, nome: r.nome } == r);
}

/// Scanning the last member (`regiao`) and the closing brace completes
/// the record: from `m4` on, the text is the key, the encoded value and
/// `}`.
#[verifier::rlimit(80)]
proof fn lemma_ddd_member4(
    s: Seq<char>,
    m4: int,
    st: Seq<char>,
    cs: Seq<Seq<char>>,
    no: Option<Seq<char>>,
    re: Option<RegiaoV>,
)
    requires
        re matches Some(r) ==> i32::MIN as int <= r.id <= i32::MAX as int,
        0 <= m4 <= s.len(),
        s.subrange(m4, s.len() as int) == quoted("regiao"@) + seq![':'] + enc_opt_regiao(re)
            + seq!['}'],
    ensures
        scan_ddd_members(s, m4, Some(st), Some(cs), Some(no), None) == Some(
            (DddV { state: st, cities: cs, nome: no, regiao: re }, s.len() as int),
        ),
{
    let sk = "state"@;
    let ck = "cities"@;
    let nk = "nome"@;
    let rk = "regiao"@;
    reveal_strlit("state");
    reveal_strlit("cities");
    reveal_strlit("nome");
    reveal_strlit("regiao");
    assert(sk.len() == 5 && ck.len() == 6 && nk.len() == 4 && rk.len() == 6);
    assert(ck[0] != rk[0]);
    assert(rk != sk && rk != ck && rk != nk);
    let total = s.len() as int;
    let es4 = esc(rk).len() as int;
    let rl = enc_opt_regiao(re).len() as int;
    let v4 = m4 + es4 + 3;
    assert(s.subrange(m4, total).len() == total - m4);
    assert(quoted(rk).len() == es4 + 2);
    assert((quoted("regiao"@) + seq![':'] + enc_opt_regiao(re) + seq!['}']).len() == es4 + rl + 4);
    assert(total - m4 == es4 + rl + 4);
    assert(s[m4] == s.subrange(m4, total)[0]);
    assert(s[m4] == '"');
    assert(s.subrange(m4 + 1, m4 + es4 + 2) =~= s.subrange(m4, total).subrange(1, es4 + 2));
    assert(s.subrange(m4, total).subrange(1, es4 + 2) =~= esc(rk) + seq!['"']);
    lemma_scan_quoted(s, m4 + 1, rk);
    assert(s[m4 + es4 + 2] == s.subrange(m4, total)[es4 + 2]);
    assert(s[m4 + es4 + 2] == ':');
    assert(s[v4 + rl] == s.subrange(m4, total)[es4 + rl + 3]);
    assert(s[v4 + rl] == '}');
    match re {
        Some(r) => {
            assert(s.subrange(v4, v4 + rl) =~= s.subrange(m4, total).subrange(
                es4 + 3,
                es4 + rl + 3,
            ));
            assert(s.subrange(v4, v4 + rl) =~= spec_encode_regiao(r));
            assert(spec_encode_regiao(r)[0] == '{');
            assert(spec_encode_regiao(r)[1] == '"');
            assert(s[v4] == s.subrange(v4, v4 + rl)[0]);
            assert(s[v4] == '{');
            assert(s[v4 + 1] == s.subrange(v4, v4 + rl)[1]);
            assert(s[v4 + 1] == '"');
            lemma_scan_regiao_at(s, v4, r);
        },
        None => {
            assert(rl == 4);
            assert(s[v4] == s.subrange(m4, total)[es4 + 3]);
            assert(s[v4 + 1] == s.subrange(m4, total)[es4 + 4]);
            assert(s[v4 + 2] == s.subrange(m4, total)[es4 + 5]);
            assert(s[v4 + 3] == s.subrange(m4, total)[es4 + 6]);
            assert(s[v4] == 'n' && s[v4 + 1] == 'u' && s[v4 + 2] == 'l' && s[v4 + 3] == 'l');
        },
    }
    assert(scan_ddd_members(s, m4, Some(st), Some(cs), Some(no), None) == Some(
        (DddV { state: st, cities: cs, nome: no, regiao: re }, total),
    ));
}

/// Scanning from the `nome` member on completes the record.
#[verifier::rlimit(80)]
proof fn lemma_ddd_member3(
    s: Seq<char>,
    m3: int,
    st: Seq<char>,
    cs: Seq<Seq<char>>,
    no: Option<Seq<char>>,
    re: Option<RegiaoV>,
)
    requires
        re matches Some(r) ==> i32::MIN as int <= r.id <= i32::MAX as int,
        0 <= m3 <= s.len(),
        s.subrange(m3, s.len() as int) == quoted("nome"@) + seq![':'] + enc_opt_str(no)
            + seq![','] + quoted("regiao"@) + seq![':'] + enc_opt_regiao(re) + seq!['}'],
    ensures
        scan_ddd_members(s, m3, Some(st), Some(cs), None, None) == Some(
            (DddV { state: st, cities: cs, nome: no, regiao: re }, s.len() as int),
        ),
{
    let sk = "state"@;
    let ck = "cities"@;
    let nk = "nome"@;
    let rk = "regiao"@;
    reveal_strlit("state");
    reveal_strlit("cities");
    reveal_strlit("nome");
    reveal_strlit("regiao");
    assert(sk.len() == 5 && ck.len() == 6 && nk.len() == 4 && rk.len() == 6);
    assert(nk != sk && nk != ck && nk != rk);
    let total = s.len() as int;
    let es3 = esc(nk).len() as int;
    let nl = enc_opt_str(no).len() as int;
    let es4 = esc(rk).len() as int;
    let rl = enc_opt_regiao(re).len() as int;
    let v3 = m3 + es3 + 3;
    let m4 = v3 + nl + 1;
    assert(s.subrange(m3, total).len() == total - m3);
    assert(quoted(nk).len() == es3 + 2);
    assert(quoted(rk).len() == es4 + 2);
    assert((quoted("nome"@) + seq![':'] + enc_opt_str(no) + seq![','] + quoted("regiao"@)
        + seq![':'] + enc_opt_regiao(re) + seq!['}']).len() == es3 + nl + es4 + rl + 8);
    assert(total - m3 == es3 + nl + es4 + rl + 8);
    assert(s[m3] == s.subrange(m3, total)[0]);
    assert(s[m3] == '"');
    assert(s.subrange(m3 + 1, m3 + es3 + 2) =~= s.subrange(m3, total).subrange(1, es3 + 2));
    assert(s.subrange(m3, total).subrange(1, es3 + 2) =~= esc(nk) + seq!['"']);
    lemma_scan_quoted(s, m3 + 1, nk);
    assert(s[m3 + es3 + 2] == s.subrange(m3, total)[es3 + 2]);
    assert(s[m3 + es3 + 2] == ':');
    assert(s[v3 + nl] == s.subrange(m3, total)[es3 + nl + 3]);
    assert(s[v3 + nl] == ',');
    match no {
        Some(t) => {
            assert(enc_opt_str(no) == quoted(t));
            assert(quoted(t) == seq!['"'] + esc(t) + seq!['"']);
            assert(nl == esc(t).len() + 2);
            assert(s.subrange(v3, v3 + nl) =~= s.subrange(m3, total).subrange(
                es3 + 3,
                es3 + nl + 3,
            ));
            assert(s.subrange(m3, total).subrange(es3 + 3, es3 + nl + 3) =~= enc_opt_str(no));
            assert(s[v3] == s.subrange(v3, v3 + nl)[0]);
            assert(s[v3] == '"');
            assert(s.subrange(v3 + 1, v3 + nl) =~= s.subrange(v3, v3 + nl).subrange(1, nl));
            assert(enc_opt_str(no).subrange(1, nl) =~= esc(t) + seq!['"']);
            lemma_scan_quoted(s, v3 + 1, t);
        },
        None => {
            assert(nl == 4);
            assert(s[v3] == s.subrange(m3, total)[es3 + 3]);
            assert(s[v3 + 1] == s.subrange(m3, total)[es3 + 4]);
            assert(s[v3 + 2] == s.subrange(m3, total)[es3 + 5]);
            assert(s[v3 + 3] == s.subrange(m3, total)[es3 + 6]);
            assert(s[v3] == 'n' && s[v3 + 1] == 'u' && s[v3 + 2] == 'l' && s[v3 + 3] == 'l');
        },
    }
    assert(s[m4] == s.subrange(m3, total)[m4 - m3]);
    assert(s[m4] == '"');
    assert(s.subrange(m4, total) =~= s.subrange(m3, total).subrange(m4 - m3, total - m3));
    assert(s.subrange(m3, total).subrange(m4 - m3, total - m3) =~= quoted(rk) + seq![':']
        + enc_opt_regiao(re) + seq!['}']);
    lemma_ddd_member4(s, m4, st, cs, no, re);
    assert(scan_ddd_members(s, m3, Some(st), Some(cs), None, None) == Some(
        (DddV { state: st, cities: cs, nome: no, regiao: re }, total),
    ));
}

/// Scanning from the `cities` member on completes the record.
#[verifier::rlimit(80)]
proof fn lemma_ddd_member2(
    s: Seq<char>,
    m2: int,
    st: Seq<char>,
    cs: Seq<Seq<char>>,
    no: Option<Seq<char>>,
    re: Option<RegiaoV>,
)
    requires
        re matches Some(r) ==> i32::MIN as int <= r.id <= i32::MAX as int,
        0 <= m2 <= s.len(),
        s.subrange(m2, s.len() as int) == quoted("cities"@) + seq![':'] + enc_cities(cs)
            + seq![','] + quoted("nome"@) + seq![':'] + enc_opt_str(no) + seq![','] + quoted(
            "regiao"@,
        ) + seq![':'] + enc_opt_regiao(re) + seq!['}'],
    ensures
        scan_ddd_members(s, m2, Some(st), None, None, None) == Some(
            (DddV { state: st, cities: cs, nome: no, regiao: re }, s.len() as int),
        ),
{
    let sk = "state"@;
    let ck = "cities"@;
    let nk = "nome"@;
    let rk = "regiao"@;
    reveal_strlit("state");
    reveal_strlit("cities");
    reveal_strlit("nome");
    reveal_strlit("regiao");
    assert(sk.len() == 5 && ck.len() == 6 && nk.len() == 4 && rk.len() == 6);
    assert(ck != sk && ck != nk && ck != rk);
    let total = s.len() as int;
    let es2 = esc(ck).len() as int;
    let cl = enc_cities(cs).len() as int;
    let ecf = enc_cities_from(cs, 0).len() as int;
    let es3 = esc(nk).len() as int;
    let nl = enc_opt_str(no).len() as int;
    let es4 = esc(rk).len() as int;
    let rl = enc_opt_regiao(re).len() as int;
    let c2 = m2 + es2 + 3;
    let m3 = c2 + cl + 1;
    assert(cl == ecf + 2);
    assert(s.subrange(m2, total).len() == total - m2);
    assert(quoted(ck).len() == es2 + 2);
    assert(quoted(nk).len() == es3 + 2);
    assert(quoted(rk).len() == es4 + 2);
    assert((quoted("cities"@) + seq![':'] + enc_cities(cs) + seq![','] + quoted("nome"@)
        + seq![':'] + enc_opt_str(no) + seq![','] + quoted("regiao"@) + seq![':']
        + enc_opt_regiao(re) + seq!['}']).len() == es2 + cl + es3 + nl + es4 + rl + 12);
    assert(total - m2 == es2 + cl + es3 + nl + es4 + rl + 12);
    assert(s[m2] == s.subrange(m2, total)[0]);
    assert(s[m2] == '"');
    assert(s.subrange(m2 + 1, m2 + es2 + 2) =~= s.subrange(m2, total).subrange(1, es2 + 2));
    assert(s.subrange(m2, total).subrange(1, es2 + 2) =~= esc(ck) + seq!['"']);
    lemma_scan_quoted(s, m2 + 1, ck);
    assert(s[m2 + es2 + 2] == s.subrange(m2, total)[es2 + 2]);
    assert(s[m2 + es2 + 2] == ':');
    assert(s[c2] == s.subrange(m2, total)[es2 + 3]);
    assert(s[c2] == '[');
    assert(s[c2 + cl] == s.subrange(m2, total)[es2 + cl + 3]);
    assert(s[c2 + cl] == ',');
    if cs.len() == 0 {
        assert(ecf == 0);
        assert(s[c2 + 1] == s.subrange(m2, total)[es2 + 4]);
        assert(s[c2 + 1] == ']');
        assert(skip_ws(s, c2 + 1) == c2 + 1);
        assert(cs =~= Seq::<Seq<char>>::empty());
    } else {
        assert(s.subrange(c2 + 1, c2 + 1 + ecf + 1) =~= s.subrange(m2, total).subrange(
            es2 + 4,
            es2 + ecf + 5,
        ));
        assert(s.subrange(c2 + 1, c2 + 1 + ecf + 1) =~= enc_cities_from(cs, 0) + seq![']']);
        assert(enc_cities_from(cs, 0)[0] == '"');
        assert(s[c2 + 1] == s.subrange(c2 + 1, c2 + 1 + ecf + 1)[0]);
        assert(s[c2 + 1] == '"');
        lemma_scan_cities_from(s, c2 + 1, cs, 0, Seq::empty());
        assert(Seq::<Seq<char>>::empty() + cs.subrange(0, cs.len() as int) =~= cs);
    }
    assert(s[m3] == s.subrange(m2, total)[m3 - m2]);
    assert(s[m3] == '"');
    assert(skip_ws(s, c2 + cl) == c2 + cl);
    assert(skip_ws(s, m3) == m3);
    assert(s.subrange(m3, total) =~= s.subrange(m2, total).subrange(m3 - m2, total - m2));
    assert(s.subrange(m2, total).subrange(m3 - m2, total - m2) =~= quoted(nk) + seq![':']
        + enc_opt_str(no) + seq![','] + quoted(rk) + seq![':'] + enc_opt_regiao(re) + seq!['}']);
    lemma_ddd_member3(s, m3, st, cs, no, re);
    assert(scan_ddd_members(s, m2, Some(st), None, None, None) == Some(
        (DddV { state: st, cities: cs, nome: no, regiao: re }, total),
    ));
}

/// Encoding a lookup record and decoding the text yields the record back,
/// field for field. The region identifier of a `Ddd` value always lies in
/// the range its field type allows; the bound states that of the view.
#[verifier::rlimit(80)]
pub proof fn lemma_ddd_round_trip(d: DddV)
    requires
        d.regiao matches Some(r) ==> i32::MIN as int <= r.id <= i32::MAX as int,
    ensures
        spec_decode_ddd(spec_encode_ddd(d)) == Some(d),
{
    let s = spec_encode_ddd(d);
    let sk = "state"@;
    let ck = "cities"@;
    let nk = "nome"@;
    let rk = "regiao"@;
    reveal_strlit("state");
    reveal_strlit("cities");
    reveal_strlit("nome");
    reveal_strlit("regiao");
    assert(sk.len() == 5 && ck.len() == 6 && nk.len() == 4 && rk.len() == 6);
    assert(sk != ck && sk != nk && sk != rk);
    let es1 = esc(sk).len() as int;
    let vs1 = esc(d.state).len() as int;
    let m2 = es1 + vs1 + 7;
    let total = s.len() as int;
    assert(s[0] == '{');
    assert(s[1] == '"');
    assert(s[es1 + 3] == ':');
    assert(s[es1 + 4] == '"');
    assert(s[es1 + vs1 + 6] == ',');
    assert(s[m2] == '"');
    assert(s.subrange(2, es1 + 3) =~= esc(sk) + seq!['"']);
    lemma_scan_quoted(s, 2, sk);
    assert(s.subrange(es1 + 5, es1 + vs1 + 6) =~= esc(d.state) + seq!['"']);
    lemma_scan_quoted(s, es1 + 5, d.state);
    assert(s.subrange(m2, total) =~= quoted(ck) + seq![':'] + enc_cities(d.cities) + seq![',']
        + quoted(nk) + seq![':'] + enc_opt_str(d.nome) + seq![','] + quoted(rk) + seq![':']
        + enc_opt_regiao(d.regiao) + seq!['}']);
    lemma_ddd_member2(s, m2, d.state, d.cities, d.nome, d.regiao);
    assert(scan_ddd_members(s, 1, None, None, None, None) == Some(
        (DddV { state: d.state, cities: d.cities, nome: d.nome, regiao: d.regiao }, total),
    ));
    assert(skip_ws(s, total) == total);
    assert(DddV { state: d.state, cities: d.cities, nome: d.nome, regiao: d.regiao } == d);
}

} // verus!
