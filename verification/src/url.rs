//! The URL decomposer: a record type for the result and the single-pass
//! scanner that fills it, verified against the transition function of
//! `crate::model`.

use vstd::prelude::*;

use crate::model::{
    decompose_spec, empty_model, kv_scan, kv_split, lemma_query_insert_fresh,
    lemma_query_insert_hit, pairs_view, query_insert, scan, scan_from, strs_view, Phase, UrlModel,
};

verus! {

/// A decomposed URL. Every field starts empty and is populated only when the
/// corresponding syntax is present in the input; the query holds key/value
/// pairs in insertion order, a later occurrence of a key replacing the
/// earlier value in place.
#[derive(Debug, PartialEq, Eq)]
pub struct Url {
    pub protocol: String,
    pub sub_domain: Vec<String>,
    pub domain: String,
    pub top_level_domain: String,
    pub port: String,
    pub path: Vec<String>,
    pub query: Vec<(String, String)>,
    pub fragment: String,
}

impl View for Url {
    type V = UrlModel;

    open spec fn view(&self) -> UrlModel {
        UrlModel {
            protocol: self.protocol@,
            sub_domains: strs_view(self.sub_domain@),
            domain: self.domain@,
            top_level_domain: self.top_level_domain@,
            port: self.port@,
            path_segments: strs_view(self.path@),
            query: pairs_view(self.query@),
            fragment: self.fragment@,
        }
    }
}

/// Relies on `String::push`: it appends exactly the given character at the
/// end of the string.
#[verifier::external_body]
fn push_char(s: &mut String, c: char)
    ensures
        final(s)@ == old(s)@.push(c),
{
    s.push(c);
}

/// Records `(key, value)`: the value of a key already present is replaced in
/// place, a fresh key is appended.
#[verifier::loop_isolation(false)]
fn insert_query(q: &mut Vec<(String, String)>, key: String, value: String)
    ensures
        pairs_view(final(q)@) == query_insert(pairs_view(old(q)@), key@, value@),
{
    let ghost q0 = q@;
    let n: usize = q.len();
    let mut j: usize = 0;
    while j < n
        invariant
            q@ == q0,
            n == q0.len(),
            j <= n,
            forall|i: int| 0 <= i < j ==> q0[i].0@ != key@,
        decreases n - j,
    {
        let hit = q[j].0 == key;
        if hit {
            q[j] = (key, value);
            proof {
                assert(forall|i: int|
                    0 <= i < j ==> pairs_view(q0)[i].0 != key@);
                lemma_query_insert_hit(pairs_view(q0), key@, value@, j as int);
                assert(pairs_view(q@) =~= query_insert(pairs_view(q0), key@, value@));
            }
            return;
        }
        j = j + 1;
    }
    q.push((key, value));
    proof {
        assert(forall|i: int| 0 <= i < q0.len() ==> pairs_view(q0)[i].0 != key@);
        lemma_query_insert_fresh(pairs_view(q0), key@, value@);
        assert(pairs_view(q@) =~= query_insert(pairs_view(q0), key@, value@));
    }
}

impl Url {
    /// A fresh record with every field empty.
    pub fn new() -> (url: Url)
        ensures
            url@ == empty_model(),
    {
        let url = Url {
            protocol: String::new(),
            sub_domain: Vec::new(),
            domain: String::new(),
            top_level_domain: String::new(),
            port: String::new(),
            path: Vec::new(),
            query: Vec::new(),
            fragment: String::new(),
        };
        proof {
            assert(strs_view(url.sub_domain@) =~= Seq::<Seq<char>>::empty());
            assert(strs_view(url.path@) =~= Seq::<Seq<char>>::empty());
            assert(pairs_view(url.query@) =~= Seq::<(Seq<char>, Seq<char>)>::empty());
            assert(url@ =~= empty_model());
        }
        url
    }

    /// Commits the accumulator into an output field and clears the
    /// accumulator.
    pub fn assign_value(value: &mut String, parameter: &mut String)
        ensures
            final(value)@ == old(parameter)@,
            final(parameter)@ == Seq::<char>::empty(),
    {
        *value = parameter.clone();
        *parameter = String::new();
    }

    /// Pushes the accumulator onto an output sequence and clears the
    /// accumulator.
    pub fn assign_vector_value(value: &mut Vec<String>, parameter: &mut String)
        ensures
            strs_view(final(value)@) == strs_view(old(value)@).push(old(parameter)@),
            final(parameter)@ == Seq::<char>::empty(),
    {
        value.push(parameter.clone());
        *parameter = String::new();
        proof {
            assert(strs_view(value@) =~= strs_view(old(value)@).push(old(parameter)@));
        }
    }

    /// Splits the accumulated query token on its first `=` into a key and a
    /// value (later `=` characters stay in the value; a token with no `=` is
    /// all key, with an empty value), records the pair and clears the
    /// accumulator.
    pub fn assign_query_values(&mut self, parameter: &mut String)
        ensures
            final(self)@ == (UrlModel {
                query: query_insert(
                    old(self)@.query,
                    kv_split(old(parameter)@).0,
                    kv_split(old(parameter)@).1,
                ),
                ..old(self)@
            }),
            final(parameter)@ == Seq::<char>::empty(),
    {
        let mut key = String::new();
        let mut value = String::new();
        let mut is_key = true;
        let ghost tok = parameter@;
        let t = parameter.as_str();
        let n: usize = t.unicode_len();
        let mut j: usize = 0;
        while j < n
            invariant
                t@ == tok,
                n == tok.len(),
                j <= n,
                kv_scan(tok, j as int, key@, value@, is_key) == kv_split(tok),
            decreases n - j,
        {
            let c = t.get_char(j);
            if is_key {
                if c == '=' {
                    is_key = false;
                } else {
                    push_char(&mut key, c);
                }
            } else {
                push_char(&mut value, c);
            }
            j = j + 1;
        }
        assert(kv_split(tok) == (key@, value@));
        insert_query(&mut self.query, key, value);
        *parameter = String::new();
        proof {
            assert(self@ =~= (UrlModel {
                query: query_insert(old(self)@.query, kv_split(tok).0, kv_split(tok).1),
                ..old(self)@
            }));
        }
    }

    /// The single-pass scan: reads the raw input once, left to right, and
    /// fills the record's fields as boundaries are recognized. It never
    /// fails: malformed input leaves the fields that had no corresponding
    /// syntax at their previous contents.
    pub fn from_raw(&mut self, raw: &str)
        ensures
            final(self)@ == scan_from(raw@, old(self)@),
    {
        let mut state = Phase::Protocol;
        let mut parameter = String::new();
        let n: usize = raw.unicode_len();
        let ghost m0 = self@;
        let ghost s = raw@;
        let ghost target = scan(s, 0, Phase::Protocol, Seq::<char>::empty(), m0);
        let mut i: usize = 0;
        while i < n
            invariant
                n == s.len(),
                s == raw@,
                i <= n,
                scan(s, i as int, state, parameter@, self@) == target,
            decreases n - i,
        {
            let c = raw.get_char(i);
            let ghost gi = i as int;
            let ghost gst = state;
            let ghost gp = parameter@;
            let ghost gm = self@;
            match state {
                Phase::Protocol => {
                    let next_1 = if n - i > 1 {
                        raw.get_char(i + 1)
                    } else {
                        '\0'
                    };
                    let next_2 = if n - i > 2 {
                        raw.get_char(i + 2)
                    } else {
                        '\0'
                    };
                    if c == ':' && next_1 == '/' && next_2 == '/' {
                        state = Phase::Domain;
                        Url::assign_value(&mut self.protocol, &mut parameter);
                        i = i + 3;
                        proof {
                            assert(self@ =~= (UrlModel { protocol: gp, ..gm }));
                            assert(scan(s, gi, gst, gp, gm) == scan(s, i as int, state, parameter@, self@));
                        }
                    } else if c == '.' || c == ':' || c == '?' || c == '/' {
                        state = Phase::Domain;
                        Url::assign_value(&mut self.domain, &mut parameter);
                        i = i + 1;
                        proof {
                            assert(self@ =~= (UrlModel { domain: gp, ..gm }));
                            assert(scan(s, gi, gst, gp, gm) == scan(s, i as int, state, parameter@, self@));
                        }
                    } else {
                        push_char(&mut parameter, c);
                        i = i + 1;
                        proof {
                            assert(scan(s, gi, gst, gp, gm) == scan(s, i as int, state, parameter@, self@));
                        }
                    }
                }
                Phase::Domain => {
                    if c == '.' {
                        if self.domain.as_str().is_empty() {
                            Url::assign_value(&mut self.domain, &mut parameter);
                            i = i + 1;
                            proof {
                                assert(self@ =~= (UrlModel { domain: gp, ..gm }));
                                assert(scan(s, gi, gst, gp, gm) == scan(s, i as int, state, parameter@, self@));
                            }
                        } else {
                            Url::assign_vector_value(&mut self.sub_domain, &mut self.domain);
                            Url::assign_value(&mut self.domain, &mut parameter);
                            i = i + 1;
                            proof {
                                assert(self@ =~= (UrlModel {
                                    sub_domains: gm.sub_domains.push(gm.domain),
                                    domain: gp,
                                    ..gm
                                }));
                                assert(scan(s, gi, gst, gp, gm) == scan(s, i as int, state, parameter@, self@));
                            }
                        }
                    } else if c == ':' {
                        if !self.domain.as_str().is_empty() {
                            Url::assign_value(&mut self.top_level_domain, &mut parameter);
                            state = Phase::Port;
                            i = i + 1;
                            proof {
                                assert(self@ =~= (UrlModel { top_level_domain: gp, ..gm }));
                                assert(scan(s, gi, gst, gp, gm) == scan(s, i as int, state, parameter@, self@));
                            }
                        } else {
                            i = i + 1;
                            proof {
                                assert(scan(s, gi, gst, gp, gm) == scan(s, i as int, state, parameter@, self@));
                            }
                        }
                    } else {
                        push_char(&mut parameter, c);
                        if i == n - 1 {
                            if !self.domain.as_str().is_empty() {
                                Url::assign_value(&mut self.top_level_domain, &mut parameter);
                                proof {
                                    assert(self@ =~= (UrlModel { top_level_domain: gp.push(c), ..gm }));
                                }
                            } else {
                                Url::assign_value(&mut self.domain, &mut parameter);
                                proof {
                                    assert(self@ =~= (UrlModel { domain: gp.push(c), ..gm }));
                                }
                            }
                        }
                        i = i + 1;
                        proof {
                            assert(scan(s, gi, gst, gp, gm) == scan(s, i as int, state, parameter@, self@));
                        }
                    }
                }
                Phase::Port => {
                    if c == '/' {
                        Url::assign_value(&mut self.port, &mut parameter);
                        state = Phase::Path;
                        i = i + 1;
                        proof {
                            assert(self@ =~= (UrlModel { port: gp, ..gm }));
                            assert(scan(s, gi, gst, gp, gm) == scan(s, i as int, state, parameter@, self@));
                        }
                    } else if c == '?' {
                        Url::assign_value(&mut self.port, &mut parameter);
                        state = Phase::Query;
                        i = i + 1;
                        proof {
                            assert(self@ =~= (UrlModel { port: gp, ..gm }));
                            assert(scan(s, gi, gst, gp, gm) == scan(s, i as int, state, parameter@, self@));
                        }
                    } else if c == '#' {
                        Url::assign_value(&mut self.port, &mut parameter);
                        state = Phase::Fragment;
                        i = i + 1;
                        proof {
                            assert(self@ =~= (UrlModel { port: gp, ..gm }));
                            assert(scan(s, gi, gst, gp, gm) == scan(s, i as int, state, parameter@, self@));
                        }
                    } else {
                        push_char(&mut parameter, c);
                        if i == n - 1 {
                            Url::assign_value(&mut self.port, &mut parameter);
                            proof {
                                assert(self@ =~= (UrlModel { port: gp.push(c), ..gm }));
                            }
                        }
                        i = i + 1;
                        proof {
                            assert(scan(s, gi, gst, gp, gm) == scan(s, i as int, state, parameter@, self@));
                        }
                    }
                }
                Phase::Path => {
                    if c == '/' {
                        Url::assign_vector_value(&mut self.path, &mut parameter);
                        i = i + 1;
                        proof {
                            assert(self@ =~= (UrlModel { path_segments: gm.path_segments.push(gp), ..gm }));
                            assert(scan(s, gi, gst, gp, gm) == scan(s, i as int, state, parameter@, self@));
                        }
                    } else if c == '?' {
                        Url::assign_vector_value(&mut self.path, &mut parameter);
                        state = Phase::Query;
                        i = i + 1;
                        proof {
                            assert(self@ =~= (UrlModel { path_segments: gm.path_segments.push(gp), ..gm }));
                            assert(scan(s, gi, gst, gp, gm) == scan(s, i as int, state, parameter@, self@));
                        }
                    } else if c == '#' {
                        Url::assign_vector_value(&mut self.path, &mut parameter);
                        state = Phase::Fragment;
                        i = i + 1;
                        proof {
                            assert(self@ =~= (UrlModel { path_segments: gm.path_segments.push(gp), ..gm }));
                            assert(scan(s, gi, gst, gp, gm) == scan(s, i as int, state, parameter@, self@));
                        }
                    } else {
                        push_char(&mut parameter, c);
                        i = i + 1;
                        proof {
                            assert(scan(s, gi, gst, gp, gm) == scan(s, i as int, state, parameter@, self@));
                        }
                    }
                }
                Phase::Query => {
                    if c == '&' || c == '#' {
                        self.assign_query_values(&mut parameter);
                        if c == '#' {
                            state = Phase::Fragment;
                        }
                        i = i + 1;
                        proof {
                            assert(self@ =~= (UrlModel {
                                query: query_insert(gm.query, kv_split(gp).0, kv_split(gp).1),
                                ..gm
                            }));
                            assert(scan(s, gi, gst, gp, gm) == scan(s, i as int, state, parameter@, self@));
                        }
                    } else {
                        push_char(&mut parameter, c);
                        if i == n - 1 {
                            self.assign_query_values(&mut parameter);
                            proof {
                                assert(self@ =~= (UrlModel {
                                    query: query_insert(
                                        gm.query,
                                        kv_split(gp.push(c)).0,
                                        kv_split(gp.push(c)).1,
                                    ),
                                    ..gm
                                }));
                            }
                        }
                        i = i + 1;
                        proof {
                            assert(scan(s, gi, gst, gp, gm) == scan(s, i as int, state, parameter@, self@));
                        }
                    }
                }
                Phase::Fragment => {
                    push_char(&mut parameter, c);
                    if i == n - 1 {
                        Url::assign_value(&mut self.fragment, &mut parameter);
                        proof {
                            assert(self@ =~= (UrlModel { fragment: gp.push(c), ..gm }));
                        }
                    }
                    i = i + 1;
                    proof {
                        assert(scan(s, gi, gst, gp, gm) == scan(s, i as int, state, parameter@, self@));
                    }
                }
            }
        }
        assert(scan(s, i as int, state, parameter@, self@) == self@);
    }
}

/// Decomposes a raw URL into a fresh record. It always succeeds: absence of
/// a component leaves the corresponding field empty, never an error.
pub fn decompose(raw: &str) -> (url: Url)
    ensures
        url@ == decompose_spec(raw@),
{
    let mut url = Url::new();
    url.from_raw(raw);
    url
}

} // verus!
