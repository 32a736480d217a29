//! The mathematical model of the decomposer: the scanner's phases, the shape
//! of a decomposed record, and the transition function of the single-pass
//! scan, stated over sequences of characters.

use vstd::prelude::*;

verus! {

/// The scanner's current interpretation phase. Phases are strictly ordered:
/// once the scanner leaves a phase it never re-enters it.
#[derive(Clone, Copy)]
pub enum Phase {
    Protocol,
    Domain,
    Port,
    Path,
    Query,
    Fragment,
}

/// The model of a decomposed URL record: every field as a sequence of
/// characters, the query as the sequence of key/value pairs in insertion
/// order.
#[verifier::ext_equal]
pub struct UrlModel {
    pub protocol: Seq<char>,
    pub sub_domains: Seq<Seq<char>>,
    pub domain: Seq<char>,
    pub top_level_domain: Seq<char>,
    pub port: Seq<char>,
    pub path_segments: Seq<Seq<char>>,
    pub query: Seq<(Seq<char>, Seq<char>)>,
    pub fragment: Seq<char>,
}

/// The record every decomposition starts from: each field empty.
pub open spec fn empty_model() -> UrlModel {
    UrlModel {
        protocol: Seq::<char>::empty(),
        sub_domains: Seq::<Seq<char>>::empty(),
        domain: Seq::<char>::empty(),
        top_level_domain: Seq::<char>::empty(),
        port: Seq::<char>::empty(),
        path_segments: Seq::<Seq<char>>::empty(),
        query: Seq::<(Seq<char>, Seq<char>)>::empty(),
        fragment: Seq::<char>::empty(),
    }
}

/// The views of a vector of strings, in order.
pub open spec fn strs_view(v: Seq<String>) -> Seq<Seq<char>> {
    Seq::new(v.len(), |i: int| v[i]@)
}

/// The views of a vector of string pairs, in order.
pub open spec fn pairs_view(v: Seq<(String, String)>) -> Seq<(Seq<char>, Seq<char>)> {
    Seq::new(v.len(), |i: int| (v[i].0@, v[i].1@))
}

/// One pass of the key/value split of a query token: characters before the
/// first `=` belong to the key, every character after it belongs to the
/// value, later `=` characters included.
pub open spec fn kv_scan(
    t: Seq<char>,
    i: int,
    key: Seq<char>,
    value: Seq<char>,
    in_key: bool,
) -> (Seq<char>, Seq<char>)
    decreases t.len() - i,
{
    if i < 0 || i >= t.len() {
        (key, value)
    } else if in_key {
        if t[i] == '=' {
            kv_scan(t, i + 1, key, value, false)
        } else {
            kv_scan(t, i + 1, key.push(t[i]), value, true)
        }
    } else {
        kv_scan(t, i + 1, key, value.push(t[i]), false)
    }
}

/// The key/value split of a whole query token. A token with no `=` yields
/// the whole token as the key and an empty value.
pub open spec fn kv_split(t: Seq<char>) -> (Seq<char>, Seq<char>) {
    kv_scan(t, 0, Seq::<char>::empty(), Seq::<char>::empty(), true)
}

/// Recording a key/value pair: a pair whose key is already present has its
/// value replaced in place, a fresh key goes to the end.
pub open spec fn query_insert(
    q: Seq<(Seq<char>, Seq<char>)>,
    k: Seq<char>,
    v: Seq<char>,
) -> Seq<(Seq<char>, Seq<char>)>
    decreases q.len(),
{
    if q.len() == 0 {
        seq![(k, v)]
    } else if q[0].0 == k {
        seq![(k, v)] + q.drop_first()
    } else {
        seq![q[0]] + query_insert(q.drop_first(), k, v)
    }
}

/// The transition function of the scanner, from position `i` onward in phase
/// `ph`, with `acc` the accumulator and `m` the record built so far.
///
/// A scheme is recognized only when a colon is immediately followed by two
/// slashes; any other colon, dot, slash or question mark met in the protocol
/// phase means no scheme was present and starts the host instead. The final
/// character of the input acts as an implicit flush in the domain, port and
/// query phases and assigns the fragment, while the protocol and path phases
/// flush on explicit delimiters only.
pub open spec fn scan(s: Seq<char>, i: int, ph: Phase, acc: Seq<char>, m: UrlModel) -> UrlModel
    decreases s.len() - i,
{
    if i < 0 || i >= s.len() {
        m
    } else {
        let c = s[i];
        let last = i == s.len() - 1;
        match ph {
            Phase::Protocol => {
                if c == ':' && i + 2 < s.len() && s[i + 1] == '/' && s[i + 2] == '/' {
                    let m2 = UrlModel { protocol: acc, ..m };
                    if i + 3 < s.len() {
                        scan(s, i + 3, Phase::Domain, Seq::<char>::empty(), m2)
                    } else {
                        m2
                    }
                } else if c == '.' || c == ':' || c == '?' || c == '/' {
                    scan(s, i + 1, Phase::Domain, Seq::<char>::empty(), UrlModel { domain: acc, ..m })
                } else {
                    scan(s, i + 1, Phase::Protocol, acc.push(c), m)
                }
            }
            Phase::Domain => {
                if c == '.' {
                    if m.domain.len() == 0 {
                        scan(s, i + 1, Phase::Domain, Seq::<char>::empty(), UrlModel { domain: acc, ..m })
                    } else {
                        scan(
                            s,
                            i + 1,
                            Phase::Domain,
                            Seq::<char>::empty(),
                            UrlModel { sub_domains: m.sub_domains.push(m.domain), domain: acc, ..m },
                        )
                    }
                } else if c == ':' {
                    if m.domain.len() > 0 {
                        scan(s, i + 1, Phase::Port, Seq::<char>::empty(), UrlModel { top_level_domain: acc, ..m })
                    } else {
                        scan(s, i + 1, Phase::Domain, acc, m)
                    }
                } else {
                    if last {
                        if m.domain.len() > 0 {
                            UrlModel { top_level_domain: acc.push(c), ..m }
                        } else {
                            UrlModel { domain: acc.push(c), ..m }
                        }
                    } else {
                        scan(s, i + 1, Phase::Domain, acc.push(c), m)
                    }
                }
            }
            Phase::Port => {
                if c == '/' {
                    scan(s, i + 1, Phase::Path, Seq::<char>::empty(), UrlModel { port: acc, ..m })
                } else if c == '?' {
                    scan(s, i + 1, Phase::Query, Seq::<char>::empty(), UrlModel { port: acc, ..m })
                } else if c == '#' {
                    scan(s, i + 1, Phase::Fragment, Seq::<char>::empty(), UrlModel { port: acc, ..m })
                } else {
                    if last {
                        UrlModel { port: acc.push(c), ..m }
                    } else {
                        scan(s, i + 1, Phase::Port, acc.push(c), m)
                    }
                }
            }
            Phase::Path => {
                if c == '/' {
                    scan(s, i + 1, Phase::Path, Seq::<char>::empty(), UrlModel { path_segments: m.path_segments.push(acc), ..m })
                } else if c == '?' {
                    scan(s, i + 1, Phase::Query, Seq::<char>::empty(), UrlModel { path_segments: m.path_segments.push(acc), ..m })
                } else if c == '#' {
                    scan(s, i + 1, Phase::Fragment, Seq::<char>::empty(), UrlModel { path_segments: m.path_segments.push(acc), ..m })
                } else {
                    scan(s, i + 1, Phase::Path, acc.push(c), m)
                }
            }
            Phase::Query => {
                if c == '&' || c == '#' {
                    let m2 = UrlModel { query: query_insert(m.query, kv_split(acc).0, kv_split(acc).1), ..m };
                    let ph2 = if c == '#' { Phase::Fragment } else { Phase::Query };
                    scan(s, i + 1, ph2, Seq::<char>::empty(), m2)
                } else {
                    if last {
                        UrlModel { query: query_insert(m.query, kv_split(acc.push(c)).0, kv_split(acc.push(c)).1), ..m }
                    } else {
                        scan(s, i + 1, Phase::Query, acc.push(c), m)
                    }
                }
            }
            Phase::Fragment => {
                if last {
                    UrlModel { fragment: acc.push(c), ..m }
                } else {
                    scan(s, i + 1, Phase::Fragment, acc.push(c), m)
                }
            }
        }
    }
}

/// The whole decomposition of an input, starting from the record `m`.
pub open spec fn scan_from(s: Seq<char>, m: UrlModel) -> UrlModel {
    scan(s, 0, Phase::Protocol, Seq::<char>::empty(), m)
}

/// The decomposition of an input into a fresh record.
pub open spec fn decompose_spec(s: Seq<char>) -> UrlModel {
    scan_from(s, empty_model())
}

/// Replacing the value of a key that is already present leaves the pair in
/// place: recording at the first matching position is an update there.
pub proof fn lemma_query_insert_hit(q: Seq<(Seq<char>, Seq<char>)>, k: Seq<char>, v: Seq<char>, j: int)
    requires
        0 <= j < q.len(),
        forall|i: int| 0 <= i < j ==> q[i].0 != k,
        q[j].0 == k,
    ensures
        query_insert(q, k, v) == q.update(j, (k, v)),
    decreases j,
{
    if j == 0 {
        assert(query_insert(q, k, v) =~= q.update(0, (k, v)));
    } else {
        assert forall|i: int| 0 <= i < j - 1 implies q.drop_first()[i].0 != k by {
            assert(q.drop_first()[i] == q[i + 1]);
        }
        lemma_query_insert_hit(q.drop_first(), k, v, j - 1);
        assert(query_insert(q, k, v) =~= q.update(j, (k, v)));
    }
}

/// Recording a key that is not yet present appends the pair at the end.
pub proof fn lemma_query_insert_fresh(q: Seq<(Seq<char>, Seq<char>)>, k: Seq<char>, v: Seq<char>)
    requires
        forall|i: int| 0 <= i < q.len() ==> q[i].0 != k,
    ensures
        query_insert(q, k, v) == q.push((k, v)),
    decreases q.len(),
{
    if q.len() == 0 {
        assert(query_insert(q, k, v) =~= q.push((k, v)));
    } else {
        assert forall|i: int| 0 <= i < q.drop_first().len() implies q.drop_first()[i].0 != k by {
            assert(q.drop_first()[i] == q[i + 1]);
        }
        lemma_query_insert_fresh(q.drop_first(), k, v);
        assert(query_insert(q, k, v) =~= q.push((k, v)));
    }
}

} // verus!
