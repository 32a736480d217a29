//! General laws of the decomposer, proved over the transition function of
//! `crate::model`.

use vstd::prelude::*;

use crate::model::{decompose_spec, empty_model, kv_scan, kv_split, query_insert, scan, Phase, UrlModel};

verus! {

/// Holds when no character of `s` is one of the four characters that end the
/// protocol phase (`:`, `.`, `?`, `/`).
pub open spec fn delimiter_free(s: Seq<char>) -> bool {
    forall|i: int|
        0 <= i < s.len() ==> (s[i] != ':' && s[i] != '.' && s[i] != '?' && s[i] != '/')
}

proof fn lemma_protocol_inert(s: Seq<char>, i: int, acc: Seq<char>, m: UrlModel)
    requires
        0 <= i,
        forall|j: int|
            i <= j < s.len() ==> (s[j] != ':' && s[j] != '.' && s[j] != '?' && s[j] != '/'),
    ensures
        scan(s, i, Phase::Protocol, acc, m) == m,
    decreases s.len() - i,
{
    if i < s.len() {
        lemma_protocol_inert(s, i + 1, acc.push(s[i]), m);
    }
}

/// Every field of the result defaults to empty when no corresponding syntax
/// is present: an input with no structural delimiter at all never leaves the
/// protocol phase, flushes nothing, and yields the all-default record.
pub proof fn lemma_no_delimiters_all_default(s: Seq<char>)
    requires
        delimiter_free(s),
    ensures
        decompose_spec(s) == empty_model(),
{
    lemma_protocol_inert(s, 0, Seq::<char>::empty(), empty_model());
}

/// The empty input yields the all-default record.
pub proof fn lemma_empty_input_all_default()
    ensures
        decompose_spec(Seq::<char>::empty()) == empty_model(),
{
}

/// Decomposition is a pure function of the characters of the input: running
/// it twice over the same characters yields the same record.
pub proof fn lemma_decompose_deterministic(s1: Seq<char>, s2: Seq<char>)
    requires
        s1 == s2,
    ensures
        decompose_spec(s1) == decompose_spec(s2),
{
}

proof fn lemma_kv_scan_no_eq(t: Seq<char>, i: int, key: Seq<char>, value: Seq<char>)
    requires
        0 <= i <= t.len(),
        forall|j: int| i <= j < t.len() ==> t[j] != '=',
    ensures
        kv_scan(t, i, key, value, true) == (key + t.skip(i), value),
    decreases t.len() - i,
{
    if i >= t.len() {
        assert(key + t.skip(i) =~= key);
    } else {
        lemma_kv_scan_no_eq(t, i + 1, key.push(t[i]), value);
        assert(key.push(t[i]) + t.skip(i + 1) =~= key + t.skip(i));
    }
}

/// A query token with no `=` yields the whole token as the key and an empty
/// value.
pub proof fn lemma_query_token_without_eq(t: Seq<char>)
    requires
        forall|i: int| 0 <= i < t.len() ==> t[i] != '=',
    ensures
        kv_split(t) == (t, Seq::<char>::empty()),
{
    lemma_kv_scan_no_eq(t, 0, Seq::<char>::empty(), Seq::<char>::empty());
    assert(Seq::<char>::empty() + t.skip(0) =~= t);
}

/// In the path phase a slash commits the accumulated segment even when it is
/// empty: two consecutive slashes leave an empty segment between them, with
/// no segment suppression.
pub proof fn lemma_consecutive_slashes_empty_segment(
    s: Seq<char>,
    i: int,
    acc: Seq<char>,
    m: UrlModel,
)
    requires
        0 <= i,
        i + 1 < s.len(),
        s[i] == '/',
        s[i + 1] == '/',
    ensures
        scan(s, i, Phase::Path, acc, m) == scan(
            s,
            i + 2,
            Phase::Path,
            Seq::<char>::empty(),
            UrlModel { path_segments: m.path_segments.push(acc).push(Seq::<char>::empty()), ..m },
        ),
{
    let m1 = UrlModel { path_segments: m.path_segments.push(acc), ..m };
    assert(scan(s, i, Phase::Path, acc, m) == scan(s, i + 1, Phase::Path, Seq::<char>::empty(), m1));
}

proof fn lemma_scan_absent_syntax(s: Seq<char>, i: int, ph: Phase, acc: Seq<char>, m: UrlModel)
    requires
        0 <= i,
    ensures
        (!(ph is Protocol) || (forall|j: int|
            i <= j && j + 2 < s.len() ==> !((#[trigger] s[j]) == ':' && s[j + 1] == '/' && s[j + 2] == '/')))
            ==> scan(s, i, ph, acc, m).protocol == m.protocol,
        (!(ph is Port) && (forall|j: int| i <= j < s.len() ==> s[j] != ':')) ==> scan(
            s,
            i,
            ph,
            acc,
            m,
        ).port == m.port,
        (!(ph is Path) && (forall|j: int| i <= j < s.len() ==> s[j] != '/')) ==> scan(
            s,
            i,
            ph,
            acc,
            m,
        ).path_segments == m.path_segments,
        (!(ph is Query) && (forall|j: int| i <= j < s.len() ==> s[j] != '?')) ==> scan(
            s,
            i,
            ph,
            acc,
            m,
        ).query == m.query,
        (!(ph is Fragment) && (forall|j: int| i <= j < s.len() ==> s[j] != '#')) ==> scan(
            s,
            i,
            ph,
            acc,
            m,
        ).fragment == m.fragment,
        (forall|j: int| i <= j < s.len() ==> s[j] != '.') ==> scan(
            s,
            i,
            ph,
            acc,
            m,
        ).sub_domains == m.sub_domains,
    decreases s.len() - i,
{
    if i < s.len() {
        let c = s[i];
        match ph {
            Phase::Protocol => {
                if c == ':' && i + 2 < s.len() && s[i + 1] == '/' && s[i + 2] == '/' {
                    if i + 3 < s.len() {
                        lemma_scan_absent_syntax(
                            s,
                            i + 3,
                            Phase::Domain,
                            Seq::<char>::empty(),
                            UrlModel { protocol: acc, ..m },
                        );
                    }
                } else if c == '.' || c == ':' || c == '?' || c == '/' {
                    lemma_scan_absent_syntax(
                        s,
                        i + 1,
                        Phase::Domain,
                        Seq::<char>::empty(),
                        UrlModel { domain: acc, ..m },
                    );
                } else {
                    lemma_scan_absent_syntax(s, i + 1, Phase::Protocol, acc.push(c), m);
                }
            }
            Phase::Domain => {
                if c == '.' {
                    if m.domain.len() == 0 {
                        lemma_scan_absent_syntax(
                            s,
                            i + 1,
                            Phase::Domain,
                            Seq::<char>::empty(),
                            UrlModel { domain: acc, ..m },
                        );
                    } else {
                        lemma_scan_absent_syntax(
                            s,
                            i + 1,
                            Phase::Domain,
                            Seq::<char>::empty(),
                            UrlModel {
                                sub_domains: m.sub_domains.push(m.domain),
                                domain: acc,
                                ..m
                            },
                        );
                    }
                } else if c == ':' {
                    if m.domain.len() > 0 {
                        lemma_scan_absent_syntax(
                            s,
                            i + 1,
                            Phase::Port,
                            Seq::<char>::empty(),
                            UrlModel { top_level_domain: acc, ..m },
                        );
                    } else {
                        lemma_scan_absent_syntax(s, i + 1, Phase::Domain, acc, m);
                    }
                } else if i < s.len() - 1 {
                    lemma_scan_absent_syntax(s, i + 1, Phase::Domain, acc.push(c), m);
                }
            }
            Phase::Port => {
                if c == '/' {
                    lemma_scan_absent_syntax(
                        s,
                        i + 1,
                        Phase::Path,
                        Seq::<char>::empty(),
                        UrlModel { port: acc, ..m },
                    );
                } else if c == '?' {
                    lemma_scan_absent_syntax(
                        s,
                        i + 1,
                        Phase::Query,
                        Seq::<char>::empty(),
                        UrlModel { port: acc, ..m },
                    );
                } else if c == '#' {
                    lemma_scan_absent_syntax(
                        s,
                        i + 1,
                        Phase::Fragment,
                        Seq::<char>::empty(),
                        UrlModel { port: acc, ..m },
                    );
                } else if i < s.len() - 1 {
                    lemma_scan_absent_syntax(s, i + 1, Phase::Port, acc.push(c), m);
                }
            }
            Phase::Path => {
                let pushed = UrlModel { path_segments: m.path_segments.push(acc), ..m };
                if c == '/' {
                    lemma_scan_absent_syntax(s, i + 1, Phase::Path, Seq::<char>::empty(), pushed);
                } else if c == '?' {
                    lemma_scan_absent_syntax(s, i + 1, Phase::Query, Seq::<char>::empty(), pushed);
                } else if c == '#' {
                    lemma_scan_absent_syntax(
                        s,
                        i + 1,
                        Phase::Fragment,
                        Seq::<char>::empty(),
                        pushed,
                    );
                } else {
                    lemma_scan_absent_syntax(s, i + 1, Phase::Path, acc.push(c), m);
                }
            }
            Phase::Query => {
                if c == '&' || c == '#' {
                    let m2 = UrlModel {
                        query: query_insert(m.query, kv_split(acc).0, kv_split(acc).1),
                        ..m
                    };
                    let ph2 = if c == '#' {
                        Phase::Fragment
                    } else {
                        Phase::Query
                    };
                    lemma_scan_absent_syntax(s, i + 1, ph2, Seq::<char>::empty(), m2);
                } else if i < s.len() - 1 {
                    lemma_scan_absent_syntax(s, i + 1, Phase::Query, acc.push(c), m);
                }
            }
            Phase::Fragment => {
                if i < s.len() - 1 {
                    lemma_scan_absent_syntax(s, i + 1, Phase::Fragment, acc.push(c), m);
                }
            }
        }
    }
}

/// Every field of the record defaults to empty when the syntax that fills it
/// is absent from the input: with no scheme separator the protocol stays
/// empty, with no colon the port stays empty, with no slash no path segment
/// is committed, with no question mark the query stays empty, with no hash
/// the fragment stays empty, and with no dot no sub-domain label is
/// committed.
pub proof fn lemma_absent_syntax_fields_default(s: Seq<char>)
    ensures
        (forall|j: int|
            0 <= j && j + 2 < s.len() ==> !((#[trigger] s[j]) == ':' && s[j + 1] == '/' && s[j + 2] == '/'))
            ==> decompose_spec(s).protocol == Seq::<char>::empty(),
        (forall|j: int| 0 <= j < s.len() ==> s[j] != ':') ==> decompose_spec(s).port
            == Seq::<char>::empty(),
        (forall|j: int| 0 <= j < s.len() ==> s[j] != '/') ==> decompose_spec(s).path_segments
            == Seq::<Seq<char>>::empty(),
        (forall|j: int| 0 <= j < s.len() ==> s[j] != '?') ==> decompose_spec(s).query == Seq::<
            (Seq<char>, Seq<char>),
        >::empty(),
        (forall|j: int| 0 <= j < s.len() ==> s[j] != '#') ==> decompose_spec(s).fragment
            == Seq::<char>::empty(),
        (forall|j: int| 0 <= j < s.len() ==> s[j] != '.') ==> decompose_spec(s).sub_domains
            == Seq::<Seq<char>>::empty(),
{
    lemma_scan_absent_syntax(s, 0, Phase::Protocol, Seq::<char>::empty(), empty_model());
}

/// Holds when no two pairs of `q` carry the same key.
pub open spec fn distinct_keys(q: Seq<(Seq<char>, Seq<char>)>) -> bool {
    forall|i: int, j: int| 0 <= i < j < q.len() ==> q[i].0 != q[j].0
}

/// Holds when some pair of `q` carries the key `k`.
pub open spec fn has_key(q: Seq<(Seq<char>, Seq<char>)>, k: Seq<char>) -> bool {
    exists|i: int| 0 <= i < q.len() && q[i].0 == k
}

proof fn lemma_query_insert_has_key(
    q: Seq<(Seq<char>, Seq<char>)>,
    k: Seq<char>,
    v: Seq<char>,
    k2: Seq<char>,
)
    ensures
        has_key(query_insert(q, k, v), k2) <==> (has_key(q, k2) || k2 == k),
    decreases q.len(),
{
    let r = query_insert(q, k, v);
    if q.len() == 0 {
        if k2 == k {
            assert(r[0].0 == k2);
        }
        if has_key(r, k2) {
            let i = choose|i: int| 0 <= i < r.len() && r[i].0 == k2;
            assert(i == 0);
        }
    } else if q[0].0 == k {
        if has_key(r, k2) {
            let i = choose|i: int| 0 <= i < r.len() && r[i].0 == k2;
            if i > 0 {
                assert(q[i].0 == k2);
            }
        }
        if k2 == k {
            assert(r[0].0 == k2);
        }
        if has_key(q, k2) && k2 != k {
            let i = choose|i: int| 0 <= i < q.len() && q[i].0 == k2;
            assert(r[i].0 == k2);
        }
    } else {
        lemma_query_insert_has_key(q.drop_first(), k, v, k2);
        let rr = query_insert(q.drop_first(), k, v);
        if has_key(r, k2) {
            let i = choose|i: int| 0 <= i < r.len() && r[i].0 == k2;
            if i == 0 {
                assert(q[0].0 == k2);
            } else {
                assert(rr[i - 1].0 == k2);
                if has_key(q.drop_first(), k2) {
                    let j = choose|j: int|
                        0 <= j < q.drop_first().len() && q.drop_first()[j].0 == k2;
                    assert(q[j + 1].0 == k2);
                }
            }
        }
        if has_key(q, k2) || k2 == k {
            if k2 == k {
                let j = choose|j: int| 0 <= j < rr.len() && rr[j].0 == k2;
                assert(r[j + 1].0 == k2);
            } else {
                let i = choose|i: int| 0 <= i < q.len() && q[i].0 == k2;
                if i == 0 {
                    assert(r[0].0 == k2);
                } else {
                    assert(q.drop_first()[i - 1].0 == k2);
                    assert(has_key(q.drop_first(), k2));
                    let j = choose|j: int| 0 <= j < rr.len() && rr[j].0 == k2;
                    assert(r[j + 1].0 == k2);
                }
            }
        }
    }
}

proof fn lemma_query_insert_distinct(q: Seq<(Seq<char>, Seq<char>)>, k: Seq<char>, v: Seq<char>)
    requires
        distinct_keys(q),
    ensures
        distinct_keys(query_insert(q, k, v)),
    decreases q.len(),
{
    let r = query_insert(q, k, v);
    if q.len() == 0 {
        assert(distinct_keys(r));
    } else if q[0].0 == k {
        assert(distinct_keys(r));
    } else {
        assert forall|i: int, j: int|
            0 <= i < j < q.drop_first().len() implies q.drop_first()[i].0
            != q.drop_first()[j].0 by {
            assert(q.drop_first()[i] == q[i + 1]);
            assert(q.drop_first()[j] == q[j + 1]);
        }
        lemma_query_insert_distinct(q.drop_first(), k, v);
        let rr = query_insert(q.drop_first(), k, v);
        assert forall|i: int, j: int| 0 <= i < j < r.len() implies r[i].0 != r[j].0 by {
            if i == 0 {
                assert(r[j].0 == rr[j - 1].0);
                if r[0].0 == r[j].0 {
                    assert(has_key(rr, q[0].0));
                    lemma_query_insert_has_key(q.drop_first(), k, v, q[0].0);
                    let t = choose|t: int|
                        0 <= t < q.drop_first().len() && q.drop_first()[t].0 == q[0].0;
                    assert(q[t + 1].0 == q[0].0);
                }
            } else {
                assert(r[i].0 == rr[i - 1].0);
                assert(r[j].0 == rr[j - 1].0);
            }
        }
    }
}

proof fn lemma_scan_distinct(s: Seq<char>, i: int, ph: Phase, acc: Seq<char>, m: UrlModel)
    requires
        0 <= i,
        distinct_keys(m.query),
    ensures
        distinct_keys(scan(s, i, ph, acc, m).query),
    decreases s.len() - i,
{
    if i < s.len() {
        let c = s[i];
        match ph {
            Phase::Protocol => {
                if c == ':' && i + 2 < s.len() && s[i + 1] == '/' && s[i + 2] == '/' {
                    if i + 3 < s.len() {
                        lemma_scan_distinct(
                            s,
                            i + 3,
                            Phase::Domain,
                            Seq::<char>::empty(),
                            UrlModel { protocol: acc, ..m },
                        );
                    }
                } else if c == '.' || c == ':' || c == '?' || c == '/' {
                    lemma_scan_distinct(
                        s,
                        i + 1,
                        Phase::Domain,
                        Seq::<char>::empty(),
                        UrlModel { domain: acc, ..m },
                    );
                } else {
                    lemma_scan_distinct(s, i + 1, Phase::Protocol, acc.push(c), m);
                }
            }
            Phase::Domain => {
                if c == '.' {
                    if m.domain.len() == 0 {
                        lemma_scan_distinct(
                            s,
                            i + 1,
                            Phase::Domain,
                            Seq::<char>::empty(),
                            UrlModel { domain: acc, ..m },
                        );
                    } else {
                        lemma_scan_distinct(
                            s,
                            i + 1,
                            Phase::Domain,
                            Seq::<char>::empty(),
                            UrlModel {
                                sub_domains: m.sub_domains.push(m.domain),
                                domain: acc,
                                ..m
                            },
                        );
                    }
                } else if c == ':' {
                    if m.domain.len() > 0 {
                        lemma_scan_distinct(
                            s,
                            i + 1,
                            Phase::Port,
                            Seq::<char>::empty(),
                            UrlModel { top_level_domain: acc, ..m },
                        );
                    } else {
                        lemma_scan_distinct(s, i + 1, Phase::Domain, acc, m);
                    }
                } else if i < s.len() - 1 {
                    lemma_scan_distinct(s, i + 1, Phase::Domain, acc.push(c), m);
                }
            }
            Phase::Port => {
                if c == '/' {
                    lemma_scan_distinct(
                        s,
                        i + 1,
                        Phase::Path,
                        Seq::<char>::empty(),
                        UrlModel { port: acc, ..m },
                    );
                } else if c == '?' {
                    lemma_scan_distinct(
                        s,
                        i + 1,
                        Phase::Query,
                        Seq::<char>::empty(),
                        UrlModel { port: acc, ..m },
                    );
                } else if c == '#' {
                    lemma_scan_distinct(
                        s,
                        i + 1,
                        Phase::Fragment,
                        Seq::<char>::empty(),
                        UrlModel { port: acc, ..m },
                    );
                } else if i < s.len() - 1 {
                    lemma_scan_distinct(s, i + 1, Phase::Port, acc.push(c), m);
                }
            }
            Phase::Path => {
                let pushed = UrlModel { path_segments: m.path_segments.push(acc), ..m };
                if c == '/' {
                    lemma_scan_distinct(s, i + 1, Phase::Path, Seq::<char>::empty(), pushed);
                } else if c == '?' {
                    lemma_scan_distinct(s, i + 1, Phase::Query, Seq::<char>::empty(), pushed);
                } else if c == '#' {
                    lemma_scan_distinct(s, i + 1, Phase::Fragment, Seq::<char>::empty(), pushed);
                } else {
                    lemma_scan_distinct(s, i + 1, Phase::Path, acc.push(c), m);
                }
            }
            Phase::Query => {
                if c == '&' || c == '#' {
                    lemma_query_insert_distinct(m.query, kv_split(acc).0, kv_split(acc).1);
                    let m2 = UrlModel {
                        query: query_insert(m.query, kv_split(acc).0, kv_split(acc).1),
                        ..m
                    };
                    let ph2 = if c == '#' {
                        Phase::Fragment
                    } else {
                        Phase::Query
                    };
                    lemma_scan_distinct(s, i + 1, ph2, Seq::<char>::empty(), m2);
                } else if i < s.len() - 1 {
                    lemma_scan_distinct(s, i + 1, Phase::Query, acc.push(c), m);
                } else {
                    lemma_query_insert_distinct(
                        m.query,
                        kv_split(acc.push(c)).0,
                        kv_split(acc.push(c)).1,
                    );
                }
            }
            Phase::Fragment => {
                if i < s.len() - 1 {
                    lemma_scan_distinct(s, i + 1, Phase::Fragment, acc.push(c), m);
                }
            }
        }
    }
}

/// The query of any decomposed record maps each key to one value: its keys
/// are unique, a later occurrence of a key having replaced the earlier value.
pub proof fn lemma_query_keys_unique(s: Seq<char>)
    ensures
        distinct_keys(decompose_spec(s).query),
{
    lemma_scan_distinct(s, 0, Phase::Protocol, Seq::<char>::empty(), empty_model());
}

proof fn lemma_scan_host_pair(s: Seq<char>, i: int, ph: Phase, acc: Seq<char>, m: UrlModel)
    requires
        0 <= i,
        (ph is Protocol || ph is Domain) ==> m.top_level_domain.len() == 0,
        !(ph is Protocol || ph is Domain) ==> (m.top_level_domain.len() > 0 ==> m.domain.len()
            > 0),
    ensures
        scan(s, i, ph, acc, m).top_level_domain.len() > 0 ==> scan(s, i, ph, acc, m).domain.len()
            > 0,
    decreases s.len() - i,
{
    if i < s.len() {
        let c = s[i];
        match ph {
            Phase::Protocol => {
                if c == ':' && i + 2 < s.len() && s[i + 1] == '/' && s[i + 2] == '/' {
                    if i + 3 < s.len() {
                        lemma_scan_host_pair(
                            s,
                            i + 3,
                            Phase::Domain,
                            Seq::<char>::empty(),
                            UrlModel { protocol: acc, ..m },
                        );
                    }
                } else if c == '.' || c == ':' || c == '?' || c == '/' {
                    lemma_scan_host_pair(
                        s,
                        i + 1,
                        Phase::Domain,
                        Seq::<char>::empty(),
                        UrlModel { domain: acc, ..m },
                    );
                } else {
                    lemma_scan_host_pair(s, i + 1, Phase::Protocol, acc.push(c), m);
                }
            }
            Phase::Domain => {
                if c == '.' {
                    if m.domain.len() == 0 {
                        lemma_scan_host_pair(
                            s,
                            i + 1,
                            Phase::Domain,
                            Seq::<char>::empty(),
                            UrlModel { domain: acc, ..m },
                        );
                    } else {
                        lemma_scan_host_pair(
                            s,
                            i + 1,
                            Phase::Domain,
                            Seq::<char>::empty(),
                            UrlModel {
                                sub_domains: m.sub_domains.push(m.domain),
                                domain: acc,
                                ..m
                            },
                        );
                    }
                } else if c == ':' {
                    if m.domain.len() > 0 {
                        lemma_scan_host_pair(
                            s,
                            i + 1,
                            Phase::Port,
                            Seq::<char>::empty(),
                            UrlModel { top_level_domain: acc, ..m },
                        );
                    } else {
                        lemma_scan_host_pair(s, i + 1, Phase::Domain, acc, m);
                    }
                } else if i < s.len() - 1 {
                    lemma_scan_host_pair(s, i + 1, Phase::Domain, acc.push(c), m);
                }
            }
            Phase::Port => {
                if c == '/' {
                    lemma_scan_host_pair(
                        s,
                        i + 1,
                        Phase::Path,
                        Seq::<char>::empty(),
                        UrlModel { port: acc, ..m },
                    );
                } else if c == '?' {
                    lemma_scan_host_pair(
                        s,
                        i + 1,
                        Phase::Query,
                        Seq::<char>::empty(),
                        UrlModel { port: acc, ..m },
                    );
                } else if c == '#' {
                    lemma_scan_host_pair(
                        s,
                        i + 1,
                        Phase::Fragment,
                        Seq::<char>::empty(),
                        UrlModel { port: acc, ..m },
                    );
                } else if i < s.len() - 1 {
                    lemma_scan_host_pair(s, i + 1, Phase::Port, acc.push(c), m);
                }
            }
            Phase::Path => {
                let pushed = UrlModel { path_segments: m.path_segments.push(acc), ..m };
                if c == '/' {
                    lemma_scan_host_pair(s, i + 1, Phase::Path, Seq::<char>::empty(), pushed);
                } else if c == '?' {
                    lemma_scan_host_pair(s, i + 1, Phase::Query, Seq::<char>::empty(), pushed);
                } else if c == '#' {
                    lemma_scan_host_pair(s, i + 1, Phase::Fragment, Seq::<char>::empty(), pushed);
                } else {
                    lemma_scan_host_pair(s, i + 1, Phase::Path, acc.push(c), m);
                }
            }
            Phase::Query => {
                if c == '&' || c == '#' {
                    let m2 = UrlModel {
                        query: query_insert(m.query, kv_split(acc).0, kv_split(acc).1),
                        ..m
                    };
                    let ph2 = if c == '#' {
                        Phase::Fragment
                    } else {
                        Phase::Query
                    };
                    lemma_scan_host_pair(s, i + 1, ph2, Seq::<char>::empty(), m2);
                } else if i < s.len() - 1 {
                    lemma_scan_host_pair(s, i + 1, Phase::Query, acc.push(c), m);
                }
            }
            Phase::Fragment => {
                if i < s.len() - 1 {
                    lemma_scan_host_pair(s, i + 1, Phase::Fragment, acc.push(c), m);
                }
            }
        }
    }
}

/// `domain` and `top_level_domain` are only finalized together: no input
/// decomposes to a record with a top-level domain but no domain.
pub proof fn lemma_tld_requires_domain(s: Seq<char>)
    ensures
        decompose_spec(s).top_level_domain.len() > 0 ==> decompose_spec(s).domain.len() > 0,
{
    lemma_scan_host_pair(s, 0, Phase::Protocol, Seq::<char>::empty(), empty_model());
}

proof fn lemma_scan_shift(s: Seq<char>, i: int, k: int, ph: Phase, acc: Seq<char>, m: UrlModel)
    requires
        0 <= i <= s.len(),
        0 <= k,
    ensures
        scan(s, i + k, ph, acc, m) == scan(s.skip(i), k, ph, acc, m),
    decreases s.len() - (i + k),
{
    let t = s.skip(i);
    assert(t.len() == s.len() - i);
    if i + k < s.len() {
        let c = s[i + k];
        assert(t[k] == c);
        match ph {
            Phase::Protocol => {
                if c == ':' && i + k + 2 < s.len() && s[i + k + 1] == '/' && s[i + k + 2] == '/' {
                    assert(t[k + 1] == s[i + k + 1]);
                    assert(t[k + 2] == s[i + k + 2]);
                    if i + k + 3 < s.len() {
                        lemma_scan_shift(
                            s,
                            i,
                            k + 3,
                            Phase::Domain,
                            Seq::<char>::empty(),
                            UrlModel { protocol: acc, ..m },
                        );
                    }
                } else if c == '.' || c == ':' || c == '?' || c == '/' {
                    if k + 2 < t.len() {
                        assert(t[k + 1] == s[i + k + 1]);
                        assert(t[k + 2] == s[i + k + 2]);
                    }
                    lemma_scan_shift(
                        s,
                        i,
                        k + 1,
                        Phase::Domain,
                        Seq::<char>::empty(),
                        UrlModel { domain: acc, ..m },
                    );
                } else {
                    if k + 2 < t.len() {
                        assert(t[k + 1] == s[i + k + 1]);
                        assert(t[k + 2] == s[i + k + 2]);
                    }
                    lemma_scan_shift(s, i, k + 1, Phase::Protocol, acc.push(c), m);
                }
            }
            Phase::Domain => {
                if c == '.' {
                    if m.domain.len() == 0 {
                        lemma_scan_shift(
                            s,
                            i,
                            k + 1,
                            Phase::Domain,
                            Seq::<char>::empty(),
                            UrlModel { domain: acc, ..m },
                        );
                    } else {
                        lemma_scan_shift(
                            s,
                            i,
                            k + 1,
                            Phase::Domain,
                            Seq::<char>::empty(),
                            UrlModel {
                                sub_domains: m.sub_domains.push(m.domain),
                                domain: acc,
                                ..m
                            },
                        );
                    }
                } else if c == ':' {
                    if m.domain.len() > 0 {
                        lemma_scan_shift(
                            s,
                            i,
                            k + 1,
                            Phase::Port,
                            Seq::<char>::empty(),
                            UrlModel { top_level_domain: acc, ..m },
                        );
                    } else {
                        lemma_scan_shift(s, i, k + 1, Phase::Domain, acc, m);
                    }
                } else if i + k < s.len() - 1 {
                    lemma_scan_shift(s, i, k + 1, Phase::Domain, acc.push(c), m);
                }
            }
            Phase::Port => {
                if c == '/' {
                    lemma_scan_shift(
                        s,
                        i,
                        k + 1,
                        Phase::Path,
                        Seq::<char>::empty(),
                        UrlModel { port: acc, ..m },
                    );
                } else if c == '?' {
                    lemma_scan_shift(
                        s,
                        i,
                        k + 1,
                        Phase::Query,
                        Seq::<char>::empty(),
                        UrlModel { port: acc, ..m },
                    );
                } else if c == '#' {
                    lemma_scan_shift(
                        s,
                        i,
                        k + 1,
                        Phase::Fragment,
                        Seq::<char>::empty(),
                        UrlModel { port: acc, ..m },
                    );
                } else if i + k < s.len() - 1 {
                    lemma_scan_shift(s, i, k + 1, Phase::Port, acc.push(c), m);
                }
            }
            Phase::Path => {
                if c == '/' {
                    lemma_scan_shift(
                        s,
                        i,
                        k + 1,
                        Phase::Path,
                        Seq::<char>::empty(),
                        UrlModel { path_segments: m.path_segments.push(acc), ..m },
                    );
                } else if c == '?' {
                    lemma_scan_shift(
                        s,
                        i,
                        k + 1,
                        Phase::Query,
                        Seq::<char>::empty(),
                        UrlModel { path_segments: m.path_segments.push(acc), ..m },
                    );
                } else if c == '#' {
                    lemma_scan_shift(
                        s,
                        i,
                        k + 1,
                        Phase::Fragment,
                        Seq::<char>::empty(),
                        UrlModel { path_segments: m.path_segments.push(acc), ..m },
                    );
                } else {
                    lemma_scan_shift(s, i, k + 1, Phase::Path, acc.push(c), m);
                }
            }
            Phase::Query => {
                if c == '&' || c == '#' {
                    let m2 = UrlModel {
                        query: query_insert(m.query, kv_split(acc).0, kv_split(acc).1),
                        ..m
                    };
                    let ph2 = if c == '#' {
                        Phase::Fragment
                    } else {
                        Phase::Query
                    };
                    lemma_scan_shift(s, i, k + 1, ph2, Seq::<char>::empty(), m2);
                } else if i + k < s.len() - 1 {
                    lemma_scan_shift(s, i, k + 1, Phase::Query, acc.push(c), m);
                }
            }
            Phase::Fragment => {
                if i + k < s.len() - 1 {
                    lemma_scan_shift(s, i, k + 1, Phase::Fragment, acc.push(c), m);
                }
            }
        }
    }
}

proof fn lemma_protocol_field_frame(
    s: Seq<char>,
    i: int,
    ph: Phase,
    acc: Seq<char>,
    m: UrlModel,
    p: Seq<char>,
)
    requires
        0 <= i,
        !(ph is Protocol),
    ensures
        scan(s, i, ph, acc, UrlModel { protocol: p, ..m }) == (UrlModel {
            protocol: p,
            ..scan(s, i, ph, acc, m)
        }),
    decreases s.len() - i,
{
    if i < s.len() {
        let c = s[i];
        match ph {
            Phase::Protocol => {
                assert(false);
            }
            Phase::Domain => {
                if c == '.' {
                    if m.domain.len() == 0 {
                        lemma_protocol_field_frame(
                            s,
                            i + 1,
                            Phase::Domain,
                            Seq::<char>::empty(),
                            UrlModel { domain: acc, ..m },
                            p,
                        );
                    } else {
                        lemma_protocol_field_frame(
                            s,
                            i + 1,
                            Phase::Domain,
                            Seq::<char>::empty(),
                            UrlModel {
                                sub_domains: m.sub_domains.push(m.domain),
                                domain: acc,
                                ..m
                            },
                            p,
                        );
                    }
                } else if c == ':' {
                    if m.domain.len() > 0 {
                        lemma_protocol_field_frame(
                            s,
                            i + 1,
                            Phase::Port,
                            Seq::<char>::empty(),
                            UrlModel { top_level_domain: acc, ..m },
                            p,
                        );
                    } else {
                        lemma_protocol_field_frame(s, i + 1, Phase::Domain, acc, m, p);
                    }
                } else if i < s.len() - 1 {
                    lemma_protocol_field_frame(s, i + 1, Phase::Domain, acc.push(c), m, p);
                }
            }
            Phase::Port => {
                if c == '/' {
                    lemma_protocol_field_frame(
                        s,
                        i + 1,
                        Phase::Path,
                        Seq::<char>::empty(),
                        UrlModel { port: acc, ..m },
                        p,
                    );
                } else if c == '?' {
                    lemma_protocol_field_frame(
                        s,
                        i + 1,
                        Phase::Query,
                        Seq::<char>::empty(),
                        UrlModel { port: acc, ..m },
                        p,
                    );
                } else if c == '#' {
                    lemma_protocol_field_frame(
                        s,
                        i + 1,
                        Phase::Fragment,
                        Seq::<char>::empty(),
                        UrlModel { port: acc, ..m },
                        p,
                    );
                } else if i < s.len() - 1 {
                    lemma_protocol_field_frame(s, i + 1, Phase::Port, acc.push(c), m, p);
                }
            }
            Phase::Path => {
                let pushed = UrlModel { path_segments: m.path_segments.push(acc), ..m };
                if c == '/' {
                    lemma_protocol_field_frame(s, i + 1, Phase::Path, Seq::<char>::empty(), pushed, p);
                } else if c == '?' {
                    lemma_protocol_field_frame(s, i + 1, Phase::Query, Seq::<char>::empty(), pushed, p);
                } else if c == '#' {
                    lemma_protocol_field_frame(
                        s,
                        i + 1,
                        Phase::Fragment,
                        Seq::<char>::empty(),
                        pushed,
                        p,
                    );
                } else {
                    lemma_protocol_field_frame(s, i + 1, Phase::Path, acc.push(c), m, p);
                }
            }
            Phase::Query => {
                if c == '&' || c == '#' {
                    let m2 = UrlModel {
                        query: query_insert(m.query, kv_split(acc).0, kv_split(acc).1),
                        ..m
                    };
                    let ph2 = if c == '#' {
                        Phase::Fragment
                    } else {
                        Phase::Query
                    };
                    lemma_protocol_field_frame(s, i + 1, ph2, Seq::<char>::empty(), m2, p);
                } else if i < s.len() - 1 {
                    lemma_protocol_field_frame(s, i + 1, Phase::Query, acc.push(c), m, p);
                }
            }
            Phase::Fragment => {
                if i < s.len() - 1 {
                    lemma_protocol_field_frame(s, i + 1, Phase::Fragment, acc.push(c), m, p);
                }
            }
        }
    }
}

proof fn lemma_protocol_accumulates(s: Seq<char>, i: int, j: int, acc: Seq<char>, m: UrlModel)
    requires
        0 <= i <= j <= s.len(),
        forall|t: int|
            i <= t < j ==> (s[t] != ':' && s[t] != '.' && s[t] != '?' && s[t] != '/'),
    ensures
        scan(s, i, Phase::Protocol, acc, m) == scan(
            s,
            j,
            Phase::Protocol,
            acc + s.subrange(i, j),
            m,
        ),
    decreases j - i,
{
    if i == j {
        assert(acc + s.subrange(i, i) =~= acc);
    } else {
        lemma_protocol_accumulates(s, i + 1, j, acc.push(s[i]), m);
        assert(acc.push(s[i]) + s.subrange(i + 1, j) =~= acc + s.subrange(i, j));
    }
}

proof fn lemma_domain_accumulates(s: Seq<char>, i: int, j: int, acc: Seq<char>, m: UrlModel)
    requires
        0 <= i <= j < s.len(),
        forall|t: int| i <= t < j ==> (s[t] != '.' && s[t] != ':'),
    ensures
        scan(s, i, Phase::Domain, acc, m) == scan(s, j, Phase::Domain, acc + s.subrange(i, j), m),
    decreases j - i,
{
    if i == j {
        assert(acc + s.subrange(i, i) =~= acc);
    } else {
        lemma_domain_accumulates(s, i + 1, j, acc.push(s[i]), m);
        assert(acc.push(s[i]) + s.subrange(i + 1, j) =~= acc + s.subrange(i, j));
    }
}

/// A host written without a scheme parses exactly as the same host written
/// after a scheme separator: the input `p.rest` (with `p` free of structural
/// delimiters, so that the dot is the first delimiter met) leaves `protocol`
/// empty, and prefixing `sch://` to it changes nothing but the `protocol`
/// field, which then holds the scheme.
pub proof fn lemma_no_scheme_like_scheme(sch: Seq<char>, p: Seq<char>, rest: Seq<char>)
    requires
        delimiter_free(sch),
        delimiter_free(p),
    ensures
        ({
            let bare = p + seq!['.'] + rest;
            let with_scheme = sch + seq![':', '/', '/'] + bare;
            decompose_spec(bare).protocol == Seq::<char>::empty() && decompose_spec(with_scheme)
                == (UrlModel { protocol: sch, ..decompose_spec(bare) })
        }),
{
    let bare = p + seq!['.'] + rest;
    let ws = sch + seq![':', '/', '/'] + bare;
    let em = empty_model();
    let mid = UrlModel { domain: p, ..em };

    // The bare input: the protocol phase accumulates `p`, the dot commits it
    // as the domain, and the scan continues over `rest` in the domain phase.
    let pl = p.len() as int;
    assert forall|t: int| 0 <= t < pl implies bare[t] == p[t] by {}
    lemma_protocol_accumulates(bare, 0, pl, Seq::<char>::empty(), em);
    assert(Seq::<char>::empty() + bare.subrange(0, pl) =~= p);
    assert(bare[pl] == '.');
    assert(decompose_spec(bare) == scan(bare, pl + 1, Phase::Domain, Seq::<char>::empty(), mid));
    lemma_scan_shift(bare, pl + 1, 0, Phase::Domain, Seq::<char>::empty(), mid);
    assert(bare.skip(pl + 1) =~= rest);
    assert(decompose_spec(bare) == scan(rest, 0, Phase::Domain, Seq::<char>::empty(), mid));
    lemma_protocol_field_frame(rest, 0, Phase::Domain, Seq::<char>::empty(), mid, Seq::<char>::empty());
    assert((UrlModel { protocol: Seq::<char>::empty(), ..mid }) == mid);
    assert(decompose_spec(bare).protocol == Seq::<char>::empty());

    // The scheme-present input: the protocol phase accumulates `sch`, the
    // separator commits it as the protocol, the domain phase accumulates `p`,
    // the dot commits it as the domain, and the scan continues over `rest`.
    let i0 = sch.len() as int;
    assert forall|t: int| 0 <= t < sch.len() implies ws[t] == sch[t] by {}
    lemma_protocol_accumulates(ws, 0, i0, Seq::<char>::empty(), em);
    assert(Seq::<char>::empty() + ws.subrange(0, i0) =~= sch);
    assert(ws[i0] == ':');
    assert(ws[i0 + 1] == '/');
    assert(ws[i0 + 2] == '/');
    let m2 = UrlModel { protocol: sch, ..em };
    assert(decompose_spec(ws) == scan(ws, i0 + 3, Phase::Domain, Seq::<char>::empty(), m2));
    let d = i0 + 3 + pl;
    assert forall|t: int| i0 + 3 <= t < d implies ws[t] == p[t - (i0 + 3)] by {}
    lemma_domain_accumulates(ws, i0 + 3, d, Seq::<char>::empty(), m2);
    assert(Seq::<char>::empty() + ws.subrange(i0 + 3, d) =~= p);
    assert(ws[d] == '.');
    let m3 = UrlModel { domain: p, ..m2 };
    assert(decompose_spec(ws) == scan(ws, d + 1, Phase::Domain, Seq::<char>::empty(), m3));
    lemma_scan_shift(ws, d + 1, 0, Phase::Domain, Seq::<char>::empty(), m3);
    assert(ws.skip(d + 1) =~= rest);
    assert(m3 == (UrlModel { protocol: sch, ..mid }));
    lemma_protocol_field_frame(rest, 0, Phase::Domain, Seq::<char>::empty(), mid, sch);
    assert(decompose_spec(ws) == (UrlModel { protocol: sch, ..decompose_spec(bare) }));
}

} // verus!
