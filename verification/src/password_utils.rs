//! Password replacement utilities for the HTTP request layer.

use std::sync::Arc;

use vstd::prelude::*;

use crate::password_store::{
    answers_agree, answers_once, law_only_matching_answers_count, replace_placeholders, replaces_for, spec_lookup,
    targets_from, PasswordStore,
};
use crate::text::{chars_of, string_of};

verus! {

/// The characters that separate a URL's scheme from the rest.
pub open spec fn scheme_separator() -> Seq<char> {
    seq![':', '/', '/']
}

/// The first position at or after `k` where `://` starts in `s`, if any.
pub open spec fn separator_from(s: Seq<char>, k: int) -> Option<int>
    decreases s.len() - k,
{
    if k < 0 || k + 3 > s.len() {
        None
    } else if s.subrange(k, k + 3) == scheme_separator() {
        Some(k)
    } else {
        separator_from(s, k + 1)
    }
}

/// `s` up to (not including) the first `c`, or all of `s` if it holds no `c`.
pub open spec fn before_char(s: Seq<char>, c: char) -> Seq<char>
    decreases s.len(),
{
    if s.len() == 0 {
        s
    } else if s[0] == c {
        Seq::empty()
    } else {
        seq![s[0]] + before_char(s.drop_first(), c)
    }
}

/// The host part of `url`: after the first `://` if there is one, up to the
/// first `/`, then up to the first `:`.
pub open spec fn spec_domain_of_url(url: Seq<char>) -> Seq<char> {
    let rest = match separator_from(url, 0) {
        Some(k) => url.skip(k + 3),
        None => url,
    };
    before_char(before_char(rest, '/'), ':')
}

proof fn lemma_before_char_step(s: Seq<char>, c: char, i: int)
    requires
        0 <= i < s.len(),
        forall|j: int| 0 <= j < i ==> s[j] != c,
    ensures
        s[i] == c ==> before_char(s, c) == s.take(i),
        s[i] != c ==> before_char(s, c) == s.take(i + 1) + before_char(s.skip(i + 1), c),
    decreases i,
{
    if i > 0 {
        lemma_before_char_step(s.drop_first(), c, i - 1);
        assert(s.drop_first().take(i - 1) == s.take(i).drop_first());
        assert(s.drop_first().take(i) == s.take(i + 1).drop_first());
        assert(s.drop_first().skip(i) == s.skip(i + 1));
        assert(seq![s[0]] + s.take(i).drop_first() == s.take(i));
        assert(seq![s[0]] + s.take(i + 1).drop_first() == s.take(i + 1));
    } else {
        assert(s.take(1) == seq![s[0]]);
        assert(s.skip(1) == s.drop_first());
    }
}

/// The characters of `s` up to the first `c`.
fn chars_before(s: &[char], c: char) -> (r: Vec<char>)
    ensures
        r@ == before_char(s@, c),
{
    let n = s.len();
    let mut i: usize = 0;
    while i < n
        invariant
            n == s@.len(),
            i <= n,
            forall|j: int| 0 <= j < i ==> s@[j] != c,
        decreases n - i,
    {
        if s[i] == c {
            proof {
                lemma_before_char_step(s@, c, i as int);
            }
            return crate::text::copy_range(s, 0, i);
        }
        i = i + 1;
    }
    proof {
        lemma_no_char_before(s@, c);
    }
    crate::text::copy_range(s, 0, n)
}

proof fn lemma_no_char_before(s: Seq<char>, c: char)
    requires
        forall|j: int| 0 <= j < s.len() ==> s[j] != c,
    ensures
        before_char(s, c) == s.subrange(0, s.len() as int),
    decreases s.len(),
{
    if s.len() > 0 {
        lemma_no_char_before(s.drop_first(), c);
        assert(seq![s[0]] + s.drop_first() == s);
    }
    assert(s.subrange(0, s.len() as int) == s);
}

/// Where `://` first occurs in `s`, if it does.
fn find_separator(s: &[char]) -> (r: Option<usize>)
    ensures
        match r {
            Some(k) => separator_from(s@, 0) == Some(k as int) && k + 3 <= s@.len(),
            None => separator_from(s@, 0) is None,
        },
{
    let n = s.len();
    let mut k: usize = 0;
    while n >= 3 && k <= n - 3
        invariant
            n == s@.len(),
            k <= n,
            separator_from(s@, 0) == separator_from(s@, k as int),
        decreases n - k,
    {
        if s[k] == ':' && s[k + 1] == '/' && s[k + 2] == '/' {
            assert(s@.subrange(k as int, k + 3) =~= scheme_separator());
            return Some(k);
        }
        assert(s@.subrange(k as int, k + 3) != scheme_separator()) by {
            if s@.subrange(k as int, k + 3) == scheme_separator() {
                assert(s@.subrange(k as int, k + 3)[0] == s@[k as int]);
                assert(s@.subrange(k as int, k + 3)[1] == s@[k + 1]);
                assert(s@.subrange(k as int, k + 3)[2] == s@[k + 2]);
            }
        }
        k = k + 1;
    }
    assert(separator_from(s@, k as int) is None);
    None
}

proof fn lemma_before_char_prefix(s: Seq<char>, c: char)
    ensures
        before_char(s, c).len() <= s.len(),
        forall|i: int| 0 <= i < before_char(s, c).len() ==> #[trigger] before_char(s, c)[i] == s[i] && s[i] != c,
    decreases s.len(),
{
    if s.len() > 0 && s[0] != c {
        lemma_before_char_prefix(s.drop_first(), c);
        let t = before_char(s.drop_first(), c);
        assert forall|i: int| 0 <= i < before_char(s, c).len() implies #[trigger] before_char(s, c)[i] == s[i] && s[i] != c by {
            if i > 0 {
                assert(before_char(s, c)[i] == t[i - 1]);
            }
        }
    }
}

proof fn lemma_before_char_absent(s: Seq<char>, c: char)
    requires
        forall|i: int| 0 <= i < s.len() ==> s[i] != c,
    ensures
        before_char(s, c) == s,
    decreases s.len(),
{
    if s.len() > 0 {
        assert(s[0] != c);
        lemma_before_char_absent(s.drop_first(), c);
        assert(seq![s[0]] + s.drop_first() == s);
    }
}

proof fn lemma_no_separator(s: Seq<char>, k: int)
    requires
        0 <= k,
        forall|i: int| 0 <= i < s.len() ==> s[i] != ':',
    ensures
        separator_from(s, k) is None,
    decreases s.len() - k,
{
    if k + 3 <= s.len() {
        assert(s.subrange(k, k + 3)[0] == s[k]);
        assert(scheme_separator()[0] == ':');
        lemma_no_separator(s, k + 1);
    }
}

/// The host of a URL is its own host: read again, it comes back unchanged
/// (it holds no `://`, `/` or `:`).
pub proof fn law_domain_of_domain(url: Seq<char>)
    ensures
        spec_domain_of_url(spec_domain_of_url(url)) == spec_domain_of_url(url),
{
    let rest = match separator_from(url, 0) {
        Some(k) => url.skip(k + 3),
        None => url,
    };
    let h = before_char(rest, '/');
    let d = before_char(h, ':');
    lemma_before_char_prefix(rest, '/');
    lemma_before_char_prefix(h, ':');
    assert forall|i: int| 0 <= i < d.len() implies d[i] != '/' && d[i] != ':' by {
        assert(d[i] == h[i]);
    }
    lemma_no_separator(d, 0);
    lemma_before_char_absent(d, '/');
    lemma_before_char_absent(d, ':');
}

/// Extract domain from URL.
///
/// * `https://api.example.com/v1/users` → `api.example.com`
/// * `http://localhost:8080` → `localhost`
/// * `api.example.com` → `api.example.com`
pub fn extract_domain_from_url(url: &str) -> (r: Option<String>)
    ensures
        r matches Some(d) && d@ == spec_domain_of_url(url@),
{
    let u = chars_of(url);
    let ul = u.len();
    let rest = match find_separator(u.as_slice()) {
        Some(k) => {
            assert(k + 3 <= ul);
            assert(u@.skip(k + 3) == u@.subrange(k + 3, u@.len() as int));
            crate::text::copy_range(u.as_slice(), k + 3, ul)
        },
        None => u,
    };
    let host = chars_before(rest.as_slice(), '/');
    let domain = chars_before(host.as_slice(), ':');
    Some(string_of(domain.as_slice()))
}

/// Replaces password placeholders in a request payload before it is sent:
/// with no store the payload is returned as it is; with one, what
/// `replace_placeholders` gives: the placeholders for `destination_domain`
/// replaced by what the store answers to their questions, all else kept.
pub fn replace_passwords_in_payload<S: PasswordStore + ?Sized>(
    payload: &str,
    password_store: &Option<Arc<S>>,
    destination_domain: &str,
) -> (r: String)
    ensures
        password_store is None ==> r@ == payload@,
        password_store matches Some(store) ==> replaces_for(&**store, payload@, destination_domain@, r@),
{
    match password_store {
        Some(store) => {
            match replace_placeholders(payload, &**store, destination_domain) {
                Ok(replaced) => replaced,
                Err(_) => String::from_str(payload),
            }
        },
        None => String::from_str(payload),
    }
}

/// Filling a payload is repeatable: with a store that gives one answer to
/// each question the payload's placeholders for the domain put to it, two
/// fillings of the payload come out the same.
pub proof fn law_payload_fill_repeatable<S: PasswordStore + ?Sized>(
    store: &S,
    payload: Seq<char>,
    domain: Seq<char>,
    out1: Seq<char>,
    out2: Seq<char>,
)
    requires
        forall|k: int| 0 <= k < targets_from(payload, 0, domain).len()
            ==> answers_once(store, spec_lookup(#[trigger] targets_from(payload, 0, domain)[k])),
        replaces_for(store, payload, domain, out1),
        replaces_for(store, payload, domain, out2),
    ensures
        out1 == out2,
{
    assert forall|k: int| 0 <= k < targets_from(payload, 0, domain).len() implies {
        let l = spec_lookup(#[trigger] targets_from(payload, 0, domain)[k]);
        answers_agree(store, store, l) && answers_once(store, l)
    } by {
        let l = spec_lookup(targets_from(payload, 0, domain)[k]);
        assert(answers_agree(store, store, l));
    }
    law_only_matching_answers_count(store, store, payload, domain, out1, out2);
}

} // verus!
