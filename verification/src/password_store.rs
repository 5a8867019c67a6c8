//! Domain-bound password placeholders: `{{pass:domain:path[:mode[:field]]}}`.
//!
//! A placeholder is only ever replaced for the destination domain it names;
//! every other placeholder, malformed ones included, is kept as written.

use vstd::prelude::*;

use crate::text::{
    chars_equal, chars_equal_str, chars_of, copy_range, lemma_split_joined, lemma_split_without_sep, push_range,
    split_chars, split_on, string_of,
};

verus! {

/// Error types for password store operations.
#[derive(Debug)]
pub enum PasswordStoreError {
    NotInitialized(String),
    NotFound(String),
    InvalidFormat(String),
    AccessError(String),
    DecryptionError(String),
    FieldNotFound(String),
}

impl PasswordStoreError {
    /// The human-readable text of the error.
    pub open spec fn spec_message(&self) -> Seq<char> {
        match self {
            PasswordStoreError::NotInitialized(s) => "Password store not initialized: "@ + s@,
            PasswordStoreError::NotFound(s) => "Password not found: "@ + s@,
            PasswordStoreError::InvalidFormat(s) => "Invalid placeholder format: "@ + s@,
            PasswordStoreError::AccessError(s) => "Failed to access password store: "@ + s@,
            PasswordStoreError::DecryptionError(s) => "Failed to decrypt password: "@ + s@,
            PasswordStoreError::FieldNotFound(s) => "Field '"@ + s@ + "' not found in secret"@,
        }
    }

    /// The human-readable text of the error (what `Display` shows).
    pub fn message(&self) -> (m: String)
        ensures
            m@ == self.spec_message(),
    {
        match self {
            PasswordStoreError::NotInitialized(s) => {
                String::from_str("Password store not initialized: ").concat(s.as_str())
            },
            PasswordStoreError::NotFound(s) => {
                String::from_str("Password not found: ").concat(s.as_str())
            },
            PasswordStoreError::InvalidFormat(s) => {
                String::from_str("Invalid placeholder format: ").concat(s.as_str())
            },
            PasswordStoreError::AccessError(s) => {
                String::from_str("Failed to access password store: ").concat(s.as_str())
            },
            PasswordStoreError::DecryptionError(s) => {
                String::from_str("Failed to decrypt password: ").concat(s.as_str())
            },
            PasswordStoreError::FieldNotFound(s) => {
                String::from_str("Field '").concat(s.as_str()).concat("' not found in secret")
            },
        }
    }
}

/// Configuration for password store.
pub struct PasswordStoreConfig {
    pub store_path: Option<String>,
    pub signing_key: Option<String>,
    pub require_git: bool,
}

impl Default for PasswordStoreConfig {
    fn default() -> (c: Self)
        ensures
            c.store_path is None,
            c.signing_key is None,
            !c.require_git,
    {
        PasswordStoreConfig { store_path: None, signing_key: None, require_git: false }
    }
}

/// Replacement mode for passwords.
#[derive(Clone, Copy, Debug, PartialEq, Eq, Structural)]
pub enum ReplacementMode {
    Password,
    Full,
    Field,
    Validate,
}

/// Parsed placeholder reference with domain.
#[derive(Clone, Debug)]
pub struct PasswordReference {
    pub domain: String,
    pub path: String,
    pub mode: ReplacementMode,
    pub field_name: Option<String>,
}

/// What a `PasswordReference` denotes.
pub struct ReferenceView {
    pub domain: Seq<char>,
    pub path: Seq<char>,
    pub mode: ReplacementMode,
    pub field_name: Option<Seq<char>>,
}

pub open spec fn option_string_view(o: Option<String>) -> Option<Seq<char>> {
    match o {
        Some(s) => Some(s@),
        None => None,
    }
}

impl View for PasswordReference {
    type V = ReferenceView;

    open spec fn view(&self) -> ReferenceView {
        ReferenceView {
            domain: self.domain@,
            path: self.path@,
            mode: self.mode,
            field_name: option_string_view(self.field_name),
        }
    }
}

/// What `domain:path[:mode[:field]]` parses to: the reference, or the
/// text of the `InvalidFormat` error.
pub open spec fn spec_parse(s: Seq<char>) -> Result<ReferenceView, Seq<char>> {
    let parts = split_on(s, ':');
    if parts.len() < 2 {
        Err("expected format: domain:path[:mode[:field]]"@)
    } else if parts.len() == 2 {
        Ok(ReferenceView { domain: parts[0], path: parts[1], mode: ReplacementMode::Password, field_name: None })
    } else if parts.len() == 3 {
        if parts[2] == "password"@ {
            Ok(ReferenceView { domain: parts[0], path: parts[1], mode: ReplacementMode::Password, field_name: None })
        } else if parts[2] == "full"@ {
            Ok(ReferenceView { domain: parts[0], path: parts[1], mode: ReplacementMode::Full, field_name: None })
        } else {
            Err("unknown mode: "@ + parts[2])
        }
    } else if parts.len() == 4 {
        if parts[2] == "field"@ {
            Ok(ReferenceView { domain: parts[0], path: parts[1], mode: ReplacementMode::Field, field_name: Some(parts[3]) })
        } else {
            Err("expected 'field' mode, got: "@ + parts[2])
        }
    } else {
        Err("too many colons"@)
    }
}

/// The contract of a parse of `s`: the reference `spec_parse` gives, or an
/// `InvalidFormat` error carrying the text it gives.
pub open spec fn parse_result_matches(s: Seq<char>, r: Result<PasswordReference, PasswordStoreError>) -> bool {
    match r {
        Ok(rf) => spec_parse(s) == Ok::<ReferenceView, Seq<char>>(rf@),
        Err(e) => e matches PasswordStoreError::InvalidFormat(m) && spec_parse(s) == Err::<ReferenceView, Seq<char>>(m@),
    }
}


/// The characters that open a placeholder.
pub open spec fn placeholder_open() -> Seq<char> {
    seq!['{', '{', 'p', 'a', 's', 's', ':']
}

/// Whether `t` holds `{{pass:` at position `i`.
pub open spec fn opens_at(t: Seq<char>, i: int) -> bool {
    0 <= i && i + 7 <= t.len() && t.subrange(i, i + 7) == placeholder_open()
}

/// The first position at or after `k` that holds `}`, or `t.len()` if none does.
pub open spec fn close_from(t: Seq<char>, k: int) -> int
    decreases t.len() - k,
{
    if k < 0 || k >= t.len() {
        t.len() as int
    } else if t[k] == '}' {
        k
    } else {
        close_from(t, k + 1)
    }
}

/// Where the placeholder that starts at `i` ends (one past its last `}`), if one
/// starts there: `{{pass:`, one or more characters other than `}`, then `}}`.
pub open spec fn placeholder_end(t: Seq<char>, i: int) -> Option<int> {
    if opens_at(t, i) {
        let k = close_from(t, i + 7);
        if k > i + 7 && k + 1 < t.len() && t[k + 1] == '}' {
            Some(k + 2)
        } else {
            None
        }
    } else {
        None
    }
}

/// The text between `{{pass:` and `}}` of the placeholder at `[i, e)`.
pub open spec fn inner_of(t: Seq<char>, i: int, e: int) -> Seq<char> {
    t.subrange(i + 7, e - 2)
}

/// Whether the placeholder body `inner` parses and names `domain`.
pub open spec fn names_domain(inner: Seq<char>, domain: Seq<char>) -> bool {
    spec_parse(inner) is Ok && spec_parse(inner)->Ok_0.domain == domain
}

pub proof fn lemma_close_from_bounds(t: Seq<char>, k: int)
    requires
        0 <= k,
    ensures
        k <= close_from(t, k) <= t.len() || (k > t.len() && close_from(t, k) == t.len()),
        close_from(t, k) < t.len() ==> t[close_from(t, k)] == '}',
        forall|j: int| k <= j < close_from(t, k) ==> t[j] != '}',
    decreases t.len() - k,
{
    if k < t.len() && t[k] != '}' {
        lemma_close_from_bounds(t, k + 1);
    }
}

pub proof fn lemma_placeholder_end_bounds(t: Seq<char>, i: int)
    requires
        0 <= i,
    ensures
        placeholder_end(t, i) matches Some(e) ==> i + 9 <= e <= t.len(),
{
    if opens_at(t, i) {
        lemma_close_from_bounds(t, i + 7);
    }
}

/// The placeholders of `t` from position `i` on, as `(start, end)` pairs, found
/// left to right without overlap: a placeholder is taken at the first position
/// where one starts, and the search goes on after its end.
pub open spec fn spans_from(t: Seq<char>, i: int) -> Seq<(int, int)>
    decreases t.len() - i,
{
    if i < 0 || i >= t.len() {
        Seq::empty()
    } else {
        match placeholder_end(t, i) {
            Some(e) => {
                proof {
                    lemma_placeholder_end_bounds(t, i);
                }
                seq![(i, e)] + spans_from(t, e)
            },
            None => spans_from(t, i + 1),
        }
    }
}

/// The references of the well-formed placeholders of `t` from `i` on, in order.
pub open spec fn refs_from(t: Seq<char>, i: int) -> Seq<ReferenceView>
    decreases t.len() - i,
{
    if i < 0 || i >= t.len() {
        Seq::empty()
    } else {
        match placeholder_end(t, i) {
            Some(e) => {
                proof {
                    lemma_placeholder_end_bounds(t, i);
                }
                match spec_parse(inner_of(t, i, e)) {
                    Ok(r) => seq![r] + refs_from(t, e),
                    Err(_) => refs_from(t, e),
                }
            },
            None => refs_from(t, i + 1),
        }
    }
}

/// The references of the placeholders of `t` from `i` on that name `domain`, in order.
pub open spec fn targets_from(t: Seq<char>, i: int, domain: Seq<char>) -> Seq<ReferenceView>
    decreases t.len() - i,
{
    if i < 0 || i >= t.len() {
        Seq::empty()
    } else {
        match placeholder_end(t, i) {
            Some(e) => {
                proof {
                    lemma_placeholder_end_bounds(t, i);
                }
                if names_domain(inner_of(t, i, e), domain) {
                    seq![spec_parse(inner_of(t, i, e))->Ok_0] + targets_from(t, e, domain)
                } else {
                    targets_from(t, e, domain)
                }
            },
            None => targets_from(t, i + 1, domain),
        }
    }
}

/// `t` from `i` on, with the k-th placeholder that names `domain` replaced by
/// `values[k]`; all other text, and every other placeholder, kept as written.
pub open spec fn replaced_from(t: Seq<char>, i: int, domain: Seq<char>, values: Seq<Seq<char>>) -> Seq<char>
    decreases t.len() - i,
{
    if i < 0 || i >= t.len() {
        Seq::empty()
    } else {
        match placeholder_end(t, i) {
            Some(e) => {
                proof {
                    lemma_placeholder_end_bounds(t, i);
                }
                if names_domain(inner_of(t, i, e), domain) {
                    values[0] + replaced_from(t, e, domain, values.drop_first())
                } else {
                    t.subrange(i, e) + replaced_from(t, e, domain, values)
                }
            },
            None => seq![t[i]] + replaced_from(t, i + 1, domain, values),
        }
    }
}

/// `t` with its placeholders for `domain` replaced, in order, by `values`.
pub open spec fn replaced(t: Seq<char>, domain: Seq<char>, values: Seq<Seq<char>>) -> Seq<char> {
    replaced_from(t, 0, domain, values)
}

/// Where the placeholder that starts at `i` ends, if one starts there.
fn placeholder_end_at(t: &[char], i: usize) -> (r: Option<usize>)
    requires
        i < t@.len(),
    ensures
        match r {
            Some(e) => placeholder_end(t@, i as int) == Some(e as int),
            None => placeholder_end(t@, i as int) is None,
        },
{
    let n = t.len();
    if n - i < 7 {
        return None;
    }
    if !(t[i] == '{' && t[i + 1] == '{' && t[i + 2] == 'p' && t[i + 3] == 'a' && t[i + 4] == 's'
        && t[i + 5] == 's' && t[i + 6] == ':') {
        assert(!opens_at(t@, i as int)) by {
            if opens_at(t@, i as int) {
                assert(t@.subrange(i as int, i + 7)[0] == t@[i as int]);
                assert(t@.subrange(i as int, i + 7)[1] == t@[i + 1]);
                assert(t@.subrange(i as int, i + 7)[2] == t@[i + 2]);
                assert(t@.subrange(i as int, i + 7)[3] == t@[i + 3]);
                assert(t@.subrange(i as int, i + 7)[4] == t@[i + 4]);
                assert(t@.subrange(i as int, i + 7)[5] == t@[i + 5]);
                assert(t@.subrange(i as int, i + 7)[6] == t@[i + 6]);
            }
        }
        return None;
    }
    assert(t@.subrange(i as int, i + 7) =~= placeholder_open());
    let mut k: usize = i + 7;
    while k < n && t[k] != '}'
        invariant
            n == t@.len(),
            i + 7 <= k <= n,
            close_from(t@, (i + 7) as int) == close_from(t@, k as int),
        decreases n - k,
    {
        k = k + 1;
    }
    if k > i + 7 && k < n - 1 && t[k + 1] == '}' {
        Some(k + 2)
    } else {
        None
    }
}

impl PasswordReference {
    /// Parse placeholder in format: `domain:path[:mode[:field]]`, where mode is
    /// `password` (the default) or `full`, or `field` followed by a field name.
    pub fn parse(placeholder: &str) -> (r: Result<Self, PasswordStoreError>)
        ensures
            parse_result_matches(placeholder@, r),
    {
        let cs = chars_of(placeholder);
        Self::parse_chars(cs.as_slice())
    }

    /// `parse`, on the characters of the placeholder.
    pub fn parse_chars(placeholder: &[char]) -> (r: Result<Self, PasswordStoreError>)
        ensures
            parse_result_matches(placeholder@, r),
    {
        let parts = split_chars(placeholder, ':');
        let ghost ps = split_on(placeholder@, ':');
        assert(parts@.len() == ps.len());
        assert(forall|j: int| 0 <= j < parts@.len() ==> #[trigger] parts@[j]@ == ps[j]);
        if parts.len() < 2 {
            return Err(PasswordStoreError::InvalidFormat(
                String::from_str("expected format: domain:path[:mode[:field]]"),
            ));
        }
        let domain = string_of(parts[0].as_slice());
        let path = string_of(parts[1].as_slice());
        if parts.len() == 2 {
            Ok(PasswordReference { domain, path, mode: ReplacementMode::Password, field_name: None })
        } else if parts.len() == 3 {
            let mode_str = parts[2].as_slice();
            if chars_equal_str(mode_str, "password") {
                Ok(PasswordReference { domain, path, mode: ReplacementMode::Password, field_name: None })
            } else if chars_equal_str(mode_str, "full") {
                Ok(PasswordReference { domain, path, mode: ReplacementMode::Full, field_name: None })
            } else {
                let m = String::from_str("unknown mode: ").concat(string_of(mode_str).as_str());
                Err(PasswordStoreError::InvalidFormat(m))
            }
        } else if parts.len() == 4 {
            let mode_str = parts[2].as_slice();
            let field_name = string_of(parts[3].as_slice());
            if chars_equal_str(mode_str, "field") {
                Ok(PasswordReference { domain, path, mode: ReplacementMode::Field, field_name: Some(field_name) })
            } else {
                let m = String::from_str("expected 'field' mode, got: ").concat(string_of(mode_str).as_str());
                Err(PasswordStoreError::InvalidFormat(m))
            }
        } else {
            Err(PasswordStoreError::InvalidFormat(String::from_str("too many colons")))
        }
    }
}

/// The views of a sequence of references.
pub open spec fn reference_views(v: Seq<PasswordReference>) -> Seq<ReferenceView> {
    v.map_values(|r: PasswordReference| r@)
}

/// The views of a sequence of strings.
pub open spec fn string_views(v: Seq<String>) -> Seq<Seq<char>> {
    v.map_values(|s: String| s@)
}

/// The references of the well-formed placeholders of the characters `t`, in order.
fn references_in(t: &[char]) -> (refs: Vec<PasswordReference>)
    ensures
        reference_views(refs@) == refs_from(t@, 0),
{
    let n = t.len();
    let mut refs: Vec<PasswordReference> = Vec::new();
    let mut i: usize = 0;
    while i < n
        invariant
            n == t@.len(),
            i <= n,
            refs_from(t@, 0) == reference_views(refs@) + refs_from(t@, i as int),
        decreases n - i,
    {
        proof {
            lemma_placeholder_end_bounds(t@, i as int);
        }
        match placeholder_end_at(t, i) {
            Some(e) => {
                let inner = copy_range(t, i + 7, e - 2);
                match PasswordReference::parse_chars(inner.as_slice()) {
                    Ok(r) => {
                        let ghost before = refs@;
                        refs.push(r);
                        assert(reference_views(refs@) == reference_views(before).push(r@));
                        assert(reference_views(refs@) + refs_from(t@, e as int)
                            == reference_views(before) + (seq![r@] + refs_from(t@, e as int)));
                    },
                    Err(_) => {},
                }
                i = e;
            },
            None => {
                i = i + 1;
            },
        }
    }
    assert(reference_views(refs@) + refs_from(t@, n as int) == reference_views(refs@));
    refs
}

/// Extract all password references from text (for validation/display purposes):
/// those of its well-formed placeholders, in order; malformed ones are skipped.
pub fn extract_placeholders(text: &str) -> (refs: Vec<PasswordReference>)
    ensures
        reference_views(refs@) == refs_from(text@, 0),
{
    let t = chars_of(text);
    references_in(t.as_slice())
}

/// Whether `refs` holds a reference to `domain`.
pub open spec fn mentions_domain(refs: Seq<ReferenceView>, domain: Seq<char>) -> bool {
    exists|j: int| 0 <= j < refs.len() && #[trigger] refs[j].domain == domain
}

/// Check if text contains placeholders for a specific domain.
pub fn has_domain_placeholders(text: &str, domain: &str) -> (r: bool)
    ensures
        r == mentions_domain(refs_from(text@, 0), domain@),
{
    let refs = extract_placeholders(text);
    let d = chars_of(domain);
    let n = refs.len();
    let mut j: usize = 0;
    while j < n
        invariant
            n == refs@.len(),
            j <= n,
            d@ == domain@,
            reference_views(refs@) == refs_from(text@, 0),
            forall|k: int| 0 <= k < j ==> (#[trigger] refs@[k]).domain@ != domain@,
        decreases n - j,
    {
        let rd = chars_of(refs[j].domain.as_str());
        if chars_equal(rd.as_slice(), d.as_slice()) {
            assert(reference_views(refs@)[j as int].domain == domain@);
            return true;
        }
        j = j + 1;
    }
    assert forall|k: int| 0 <= k < refs_from(text@, 0).len() implies
        #[trigger] refs_from(text@, 0)[k].domain != domain@ by {
        assert(reference_views(refs@)[k] == refs@[k]@);
    }
    false
}

/// The references of the placeholders of the characters `t` that name `domain`, in order.
fn targets_in(t: &[char], domain: &[char]) -> (refs: Vec<PasswordReference>)
    ensures
        reference_views(refs@) == targets_from(t@, 0, domain@),
{
    let n = t.len();
    let mut refs: Vec<PasswordReference> = Vec::new();
    let mut i: usize = 0;
    while i < n
        invariant
            n == t@.len(),
            i <= n,
            targets_from(t@, 0, domain@) == reference_views(refs@) + targets_from(t@, i as int, domain@),
        decreases n - i,
    {
        proof {
            lemma_placeholder_end_bounds(t@, i as int);
        }
        match placeholder_end_at(t, i) {
            Some(e) => {
                let inner = copy_range(t, i + 7, e - 2);
                match PasswordReference::parse_chars(inner.as_slice()) {
                    Ok(r) => {
                        let rd = chars_of(r.domain.as_str());
                        if chars_equal(rd.as_slice(), domain) {
                            let ghost before = refs@;
                            refs.push(r);
                            assert(reference_views(refs@) == reference_views(before).push(r@));
                            assert(reference_views(refs@) + targets_from(t@, e as int, domain@)
                                == reference_views(before) + (seq![r@] + targets_from(t@, e as int, domain@)));
                        }
                    },
                    Err(_) => {},
                }
                i = e;
            },
            None => {
                i = i + 1;
            },
        }
    }
    assert(reference_views(refs@) + targets_from(t@, n as int, domain@) == reference_views(refs@));
    refs
}

/// The references of the placeholders of `text` that would be replaced for
/// `destination_domain`, in the order in which they stand.
pub fn placeholder_targets(text: &str, destination_domain: &str) -> (refs: Vec<PasswordReference>)
    ensures
        reference_views(refs@) == targets_from(text@, 0, destination_domain@),
{
    let t = chars_of(text);
    let d = chars_of(destination_domain);
    targets_in(t.as_slice(), d.as_slice())
}

/// `text` with its placeholders for `destination_domain` replaced, in order, by
/// `values`; every other placeholder, well-formed or not, and all other text kept.
pub fn fill_placeholders(text: &str, destination_domain: &str, values: &[String]) -> (r: String)
    requires
        values@.len() == targets_from(text@, 0, destination_domain@).len(),
    ensures
        r@ == replaced(text@, destination_domain@, string_views(values@)),
{
    let tv = chars_of(text);
    let t = tv.as_slice();
    let dv = chars_of(destination_domain);
    let d = dv.as_slice();
    let ghost vals = string_views(values@);
    let n = t.len();
    let mut out = String::new();
    let mut i: usize = 0;
    let mut k: usize = 0;
    assert(vals.skip(0) == vals);
    assert(out@ + replaced_from(t@, 0, d@, vals) == replaced_from(t@, 0, d@, vals));
    while i < n
        invariant
            n == t@.len(),
            t@ == text@,
            d@ == destination_domain@,
            vals == string_views(values@),
            i <= n,
            k <= values@.len(),
            values@.len() == targets_from(t@, 0, d@).len(),
            targets_from(t@, 0, d@).len() == k + targets_from(t@, i as int, d@).len(),
            replaced_from(t@, 0, d@, vals) == out@ + replaced_from(t@, i as int, d@, vals.skip(k as int)),
        decreases n - i,
    {
        proof {
            lemma_placeholder_end_bounds(t@, i as int);
        }
        match placeholder_end_at(t, i) {
            Some(e) => {
                let inner = copy_range(t, i + 7, e - 2);
                let parsed = PasswordReference::parse_chars(inner.as_slice());
                let mut is_target = false;
                match parsed {
                    Ok(r) => {
                        let rd = chars_of(r.domain.as_str());
                        is_target = chars_equal(rd.as_slice(), d);
                    },
                    Err(_) => {},
                }
                assert(is_target == names_domain(inner_of(t@, i as int, e as int), d@));
                if is_target {
                    assert(vals.skip(k as int)[0] == values@[k as int]@);
                    assert(vals.skip(k as int).drop_first() == vals.skip(k + 1));
                    let ghost before = out@;
                    out.append(values[k].as_str());
                    assert(out@ + replaced_from(t@, e as int, d@, vals.skip(k + 1))
                        == before + (values@[k as int]@ + replaced_from(t@, e as int, d@, vals.skip(k + 1))));
                    k = k + 1;
                } else {
                    let ghost before = out@;
                    push_range(&mut out, t, i, e);
                    assert(out@ + replaced_from(t@, e as int, d@, vals.skip(k as int))
                        == before + (t@.subrange(i as int, e as int) + replaced_from(t@, e as int, d@, vals.skip(k as int))));
                }
                i = e;
            },
            None => {
                let ghost before = out@;
                out.push(t[i]);
                assert(out@ + replaced_from(t@, i + 1, d@, vals.skip(k as int))
                    == before + (seq![t@[i as int]] + replaced_from(t@, i + 1, d@, vals.skip(k as int))));
                i = i + 1;
            },
        }
    }
    assert(out@ + replaced_from(t@, n as int, d@, vals.skip(k as int)) == out@);
    out
}

/// A lookup's answer as the store gave it: the secret's text, or the error's
/// message.
pub open spec fn answer_view(a: Result<String, PasswordStoreError>) -> Result<Seq<char>, Seq<char>> {
    match a {
        Ok(s) => Ok(s@),
        Err(e) => Err(e.spec_message()),
    }
}

/// Password store trait: where the secrets that placeholders name are looked up.
///
/// An implementation may say, by its `gives_*` predicates, which answers it
/// gives to each question; what each method returns is one of them. By
/// default a store says nothing of its answers: every answer is one it may
/// give. The library relies on this alone: the answers are the store's own.
pub trait PasswordStore: Send + Sync {
    /// Whether `answer` is what the store gives when asked for the password at `path`.
    open spec fn gives_password(&self, path: Seq<char>, answer: Result<Seq<char>, Seq<char>>) -> bool {
        true
    }

    /// Whether `answer` is what the store gives when asked for the full secret at `path`.
    open spec fn gives_full_secret(&self, path: Seq<char>, answer: Result<Seq<char>, Seq<char>>) -> bool {
        true
    }

    /// Whether `answer` is what the store gives when asked for the field
    /// `field_name` of the secret at `path`.
    open spec fn gives_field(&self, path: Seq<char>, field_name: Seq<char>, answer: Result<Seq<char>, Seq<char>>) -> bool {
        true
    }

    /// Whether `present` is what the store says when asked whether `path` is an entry.
    open spec fn gives_entry(&self, path: Seq<char>, present: bool) -> bool {
        true
    }

    fn list_entries(&self) -> Result<Vec<String>, PasswordStoreError>;

    fn get_password(&self, path: &str) -> (r: Result<String, PasswordStoreError>)
        ensures
            self.gives_password(path@, answer_view(r)),
    ;

    fn get_full_secret(&self, path: &str) -> (r: Result<String, PasswordStoreError>)
        ensures
            self.gives_full_secret(path@, answer_view(r)),
    ;

    fn get_field(&self, path: &str, field_name: &str) -> (r: Result<String, PasswordStoreError>)
        ensures
            self.gives_field(path@, field_name@, answer_view(r)),
    ;

    fn has_entry(&self, path: &str) -> (r: bool)
        ensures
            self.gives_entry(path@, r),
    ;
}

/// Null password store: holds nothing, and answers every lookup with an error.
pub struct NullPasswordStore;

impl Default for NullPasswordStore {
    fn default() -> (s: Self) {
        NullPasswordStore
    }
}

/// What the null store answers to a password lookup.
pub open spec fn null_password_answer() -> Result<Seq<char>, Seq<char>> {
    Err("Password store not initialized: "@ + "Password store not configured. Set PASSWORD_STORE_DIR or configure in settings."@)
}

/// What the null store answers to a secret or field lookup.
pub open spec fn null_secret_answer() -> Result<Seq<char>, Seq<char>> {
    Err("Password store not initialized: "@ + "Password store not configured"@)
}

impl PasswordStore for NullPasswordStore {
    open spec fn gives_password(&self, path: Seq<char>, answer: Result<Seq<char>, Seq<char>>) -> bool {
        answer == null_password_answer()
    }

    open spec fn gives_full_secret(&self, path: Seq<char>, answer: Result<Seq<char>, Seq<char>>) -> bool {
        answer == null_secret_answer()
    }

    open spec fn gives_field(&self, path: Seq<char>, field_name: Seq<char>, answer: Result<Seq<char>, Seq<char>>) -> bool {
        answer == null_secret_answer()
    }

    open spec fn gives_entry(&self, path: Seq<char>, present: bool) -> bool {
        !present
    }

    fn list_entries(&self) -> (r: Result<Vec<String>, PasswordStoreError>)
        ensures
            r matches Ok(v) && v@.len() == 0,
    {
        Ok(Vec::new())
    }

    fn get_password(&self, _path: &str) -> (r: Result<String, PasswordStoreError>)
        ensures
            r matches Err(PasswordStoreError::NotInitialized(m))
                && m@ == "Password store not configured. Set PASSWORD_STORE_DIR or configure in settings."@,
    {
        Err(PasswordStoreError::NotInitialized(
            String::from_str("Password store not configured. Set PASSWORD_STORE_DIR or configure in settings."),
        ))
    }

    fn get_full_secret(&self, _path: &str) -> (r: Result<String, PasswordStoreError>)
        ensures
            r matches Err(PasswordStoreError::NotInitialized(m)) && m@ == "Password store not configured"@,
    {
        Err(PasswordStoreError::NotInitialized(String::from_str("Password store not configured")))
    }

    fn get_field(&self, _path: &str, _field_name: &str) -> (r: Result<String, PasswordStoreError>)
        ensures
            r matches Err(PasswordStoreError::NotInitialized(m)) && m@ == "Password store not configured"@,
    {
        Err(PasswordStoreError::NotInitialized(String::from_str("Password store not configured")))
    }

    fn has_entry(&self, _path: &str) -> (r: bool)
        ensures
            !r,
    {
        false
    }
}

/// The text an answer becomes: the secret, or `ERROR: ` and the error's message.
pub open spec fn answer_text(a: Result<Seq<char>, Seq<char>>) -> Seq<char> {
    match a {
        Ok(s) => s,
        Err(m) => "ERROR: "@ + m,
    }
}

/// The text that stands in for a placeholder once its lookup has answered:
/// the secret, or `ERROR: ` followed by the error's message.
pub open spec fn spec_replacement_text(lookup: Result<String, PasswordStoreError>) -> Seq<char> {
    answer_text(answer_view(lookup))
}

/// The text that stands in for a placeholder once its lookup has answered.
pub fn replacement_text(lookup: Result<String, PasswordStoreError>) -> (r: String)
    ensures
        r@ == spec_replacement_text(lookup),
{
    match lookup {
        Ok(s) => s,
        Err(e) => String::from_str("ERROR: ").concat(e.message().as_str()),
    }
}

/// The question a placeholder asks of the store.
pub enum Lookup {
    Password { path: String },
    Full { path: String },
    Field { path: String, field_name: String },
    Validate { path: String },
    /// Field mode without a field name: nothing is asked.
    MissingField,
}

/// What a lookup denotes.
pub enum LookupView {
    Password(Seq<char>),
    Full(Seq<char>),
    Field(Seq<char>, Seq<char>),
    Validate(Seq<char>),
    MissingField,
}

impl View for Lookup {
    type V = LookupView;

    open spec fn view(&self) -> LookupView {
        match self {
            Lookup::Password { path } => LookupView::Password(path@),
            Lookup::Full { path } => LookupView::Full(path@),
            Lookup::Field { path, field_name } => LookupView::Field(path@, field_name@),
            Lookup::Validate { path } => LookupView::Validate(path@),
            Lookup::MissingField => LookupView::MissingField,
        }
    }
}

/// The question a reference asks: its mode's question about its path (and
/// field name).
pub open spec fn spec_lookup(r: ReferenceView) -> LookupView {
    match r.mode {
        ReplacementMode::Password => LookupView::Password(r.path),
        ReplacementMode::Full => LookupView::Full(r.path),
        ReplacementMode::Field => match r.field_name {
            Some(f) => LookupView::Field(r.path, f),
            None => LookupView::MissingField,
        },
        ReplacementMode::Validate => LookupView::Validate(r.path),
    }
}

/// The question `reference` asks of the store.
pub fn lookup_request(reference: &PasswordReference) -> (l: Lookup)
    ensures
        l@ == spec_lookup(reference@),
{
    let path = reference.path.clone();
    match reference.mode {
        ReplacementMode::Password => Lookup::Password { path },
        ReplacementMode::Full => Lookup::Full { path },
        ReplacementMode::Field => match &reference.field_name {
            Some(f) => Lookup::Field { path, field_name: f.clone() },
            None => Lookup::MissingField,
        },
        ReplacementMode::Validate => Lookup::Validate { path },
    }
}

/// Whether `text` is what the question `l` comes to with `store`: the text of
/// an answer the store gives to it; for a validation, `VALID` or
/// `ERROR: not found` as the store says the entry is there or not; without a
/// field name, `ERROR: missing field name`.
pub open spec fn resolves_to<S: PasswordStore + ?Sized>(store: &S, l: LookupView, text: Seq<char>) -> bool {
    match l {
        LookupView::Password(p) => password_text(store, p, text),
        LookupView::Full(p) => full_secret_text(store, p, text),
        LookupView::Field(p, f) => field_text(store, p, f, text),
        LookupView::Validate(p) => (store.gives_entry(p, true) && text == "VALID"@)
            || (store.gives_entry(p, false) && text == "ERROR: not found"@),
        LookupView::MissingField => text == "ERROR: missing field name"@,
    }
}

/// Whether `text` is the text of an answer the store gives when asked for the
/// password at `path`.
pub open spec fn password_text<S: PasswordStore + ?Sized>(store: &S, path: Seq<char>, text: Seq<char>) -> bool {
    exists|a: Result<Seq<char>, Seq<char>>| #[trigger] store.gives_password(path, a) && text == answer_text(a)
}

/// Whether `text` is the text of an answer the store gives when asked for the
/// full secret at `path`.
pub open spec fn full_secret_text<S: PasswordStore + ?Sized>(store: &S, path: Seq<char>, text: Seq<char>) -> bool {
    exists|a: Result<Seq<char>, Seq<char>>| #[trigger] store.gives_full_secret(path, a) && text == answer_text(a)
}

/// Whether `text` is the text of an answer the store gives when asked for the
/// field `field_name` of the secret at `path`.
pub open spec fn field_text<S: PasswordStore + ?Sized>(store: &S, path: Seq<char>, field_name: Seq<char>, text: Seq<char>) -> bool {
    exists|a: Result<Seq<char>, Seq<char>>| #[trigger] store.gives_field(path, field_name, a) && text == answer_text(a)
}

/// What replaces the placeholder `reference`: the store is asked the
/// reference's question, and its answer becomes the text.
pub fn resolve_reference<S: PasswordStore + ?Sized>(store: &S, reference: &PasswordReference) -> (r: String)
    ensures
        resolves_to(store, spec_lookup(reference@), r@),
{
    match lookup_request(reference) {
        Lookup::Password { path } => {
            let a = store.get_password(path.as_str());
            let ghost av = answer_view(a);
            let t = replacement_text(a);
            assert(store.gives_password(path@, av));
            t
        },
        Lookup::Full { path } => {
            let a = store.get_full_secret(path.as_str());
            let ghost av = answer_view(a);
            let t = replacement_text(a);
            assert(store.gives_full_secret(path@, av));
            t
        },
        Lookup::Field { path, field_name } => {
            let a = store.get_field(path.as_str(), field_name.as_str());
            let ghost av = answer_view(a);
            let t = replacement_text(a);
            assert(store.gives_field(path@, field_name@, av));
            t
        },
        Lookup::Validate { path } => {
            if store.has_entry(path.as_str()) {
                String::from_str("VALID")
            } else {
                String::from_str("ERROR: not found")
            }
        },
        Lookup::MissingField => String::from_str("ERROR: missing field name"),
    }
}

/// Whether `out` is `text` with its placeholders for `domain` replaced, each by
/// what its question comes to with `store`.
pub open spec fn replaces_for<S: PasswordStore + ?Sized>(store: &S, text: Seq<char>, domain: Seq<char>, out: Seq<char>) -> bool {
    exists|values: Seq<Seq<char>>|
        values.len() == targets_from(text, 0, domain).len()
        && (forall|k: int| 0 <= k < values.len()
            ==> resolves_to(store, spec_lookup(targets_from(text, 0, domain)[k]), #[trigger] values[k]))
        && #[trigger] replaced(text, domain, values) == out
}

/// Replace placeholders only for the specified destination domain.
///
/// Only `{{pass:domain:...}}` placeholders whose domain is `destination_domain`
/// are replaced, each by what the store answers to its question; placeholders
/// for other domains, malformed placeholders and all other text are left
/// unchanged, and the store is asked nothing else.
pub fn replace_placeholders<S: PasswordStore + ?Sized>(text: &str, store: &S, destination_domain: &str) -> (r: Result<String, PasswordStoreError>)
    ensures
        r matches Ok(out) && replaces_for(store, text@, destination_domain@, out@),
{
    let targets = placeholder_targets(text, destination_domain);
    let ghost tv = targets_from(text@, 0, destination_domain@);
    let n = targets.len();
    let mut values: Vec<String> = Vec::new();
    let mut j: usize = 0;
    while j < n
        invariant
            n == targets@.len(),
            reference_views(targets@) == tv,
            j <= n,
            values@.len() == j,
            forall|k: int| 0 <= k < j ==> resolves_to(store, spec_lookup(tv[k]), #[trigger] string_views(values@)[k]),
        decreases n - j,
    {
        let v = resolve_reference(store, &targets[j]);
        let ghost before = values@;
        values.push(v);
        proof {
            assert(tv[j as int] == targets@[j as int]@);
            assert forall|k: int| 0 <= k < j + 1 implies resolves_to(store, spec_lookup(tv[k]), #[trigger] string_views(values@)[k]) by {
                if k < j {
                    assert(string_views(values@)[k] == string_views(before)[k]);
                }
            }
        }
        j = j + 1;
    }
    let out = fill_placeholders(text, destination_domain, values.as_slice());
    proof {
        let vals = string_views(values@);
        assert(vals.len() == tv.len());
        assert(replaced(text@, destination_domain@, vals) == out@);
    }
    Ok(out)
}

/// Whether two stores give the same answers to the question `l`.
pub open spec fn answers_agree<S1: PasswordStore + ?Sized, S2: PasswordStore + ?Sized>(s1: &S1, s2: &S2, l: LookupView) -> bool {
    match l {
        LookupView::Password(p) => forall|a: Result<Seq<char>, Seq<char>>|
            #[trigger] s1.gives_password(p, a) <==> s2.gives_password(p, a),
        LookupView::Full(p) => forall|a: Result<Seq<char>, Seq<char>>|
            #[trigger] s1.gives_full_secret(p, a) <==> s2.gives_full_secret(p, a),
        LookupView::Field(p, f) => forall|a: Result<Seq<char>, Seq<char>>|
            #[trigger] s1.gives_field(p, f, a) <==> s2.gives_field(p, f, a),
        LookupView::Validate(p) => forall|b: bool| #[trigger] s1.gives_entry(p, b) <==> s2.gives_entry(p, b),
        LookupView::MissingField => true,
    }
}

/// Whether a store gives at most one answer to the question `l`.
pub open spec fn answers_once<S: PasswordStore + ?Sized>(s: &S, l: LookupView) -> bool {
    match l {
        LookupView::Password(p) => forall|a1: Result<Seq<char>, Seq<char>>, a2: Result<Seq<char>, Seq<char>>|
            #[trigger] s.gives_password(p, a1) && #[trigger] s.gives_password(p, a2) ==> a1 == a2,
        LookupView::Full(p) => forall|a1: Result<Seq<char>, Seq<char>>, a2: Result<Seq<char>, Seq<char>>|
            #[trigger] s.gives_full_secret(p, a1) && #[trigger] s.gives_full_secret(p, a2) ==> a1 == a2,
        LookupView::Field(p, f) => forall|a1: Result<Seq<char>, Seq<char>>, a2: Result<Seq<char>, Seq<char>>|
            #[trigger] s.gives_field(p, f, a1) && #[trigger] s.gives_field(p, f, a2) ==> a1 == a2,
        LookupView::Validate(p) => !(s.gives_entry(p, true) && s.gives_entry(p, false)),
        LookupView::MissingField => true,
    }
}

proof fn lemma_resolution_unique<S1: PasswordStore + ?Sized, S2: PasswordStore + ?Sized>(
    s1: &S1,
    s2: &S2,
    l: LookupView,
    t1: Seq<char>,
    t2: Seq<char>,
)
    requires
        answers_agree(s1, s2, l),
        answers_once(s1, l),
        resolves_to(s1, l, t1),
        resolves_to(s2, l, t2),
    ensures
        t1 == t2,
{
    match l {
        LookupView::Password(p) => {
            let a1 = choose|a: Result<Seq<char>, Seq<char>>| #[trigger] s1.gives_password(p, a) && t1 == answer_text(a);
            let a2 = choose|a: Result<Seq<char>, Seq<char>>| #[trigger] s2.gives_password(p, a) && t2 == answer_text(a);
            assert(s1.gives_password(p, a2));
        },
        LookupView::Full(p) => {
            let a1 = choose|a: Result<Seq<char>, Seq<char>>| #[trigger] s1.gives_full_secret(p, a) && t1 == answer_text(a);
            let a2 = choose|a: Result<Seq<char>, Seq<char>>| #[trigger] s2.gives_full_secret(p, a) && t2 == answer_text(a);
            assert(s1.gives_full_secret(p, a2));
        },
        LookupView::Field(p, f) => {
            let a1 = choose|a: Result<Seq<char>, Seq<char>>| #[trigger] s1.gives_field(p, f, a) && t1 == answer_text(a);
            let a2 = choose|a: Result<Seq<char>, Seq<char>>| #[trigger] s2.gives_field(p, f, a) && t2 == answer_text(a);
            assert(s1.gives_field(p, f, a2));
        },
        LookupView::Validate(p) => {
            assert(s1.gives_entry(p, true) <==> s2.gives_entry(p, true));
            assert(s1.gives_entry(p, false) <==> s2.gives_entry(p, false));
        },
        LookupView::MissingField => {},
    }
}

/// Only the answers to the matching placeholders' questions count: two stores
/// that answer those questions alike, the first with one answer to each, fill
/// a text in the same way for a domain.
pub proof fn law_only_matching_answers_count<S1: PasswordStore + ?Sized, S2: PasswordStore + ?Sized>(
    s1: &S1,
    s2: &S2,
    text: Seq<char>,
    domain: Seq<char>,
    out1: Seq<char>,
    out2: Seq<char>,
)
    requires
        forall|k: int| 0 <= k < targets_from(text, 0, domain).len() ==> {
            let l = spec_lookup(#[trigger] targets_from(text, 0, domain)[k]);
            answers_agree(s1, s2, l) && answers_once(s1, l)
        },
        replaces_for(s1, text, domain, out1),
        replaces_for(s2, text, domain, out2),
    ensures
        out1 == out2,
{
    let ts = targets_from(text, 0, domain);
    let v1 = choose|values: Seq<Seq<char>>|
        values.len() == ts.len()
        && (forall|k: int| 0 <= k < values.len() ==> resolves_to(s1, spec_lookup(ts[k]), #[trigger] values[k]))
        && #[trigger] replaced(text, domain, values) == out1;
    let v2 = choose|values: Seq<Seq<char>>|
        values.len() == ts.len()
        && (forall|k: int| 0 <= k < values.len() ==> resolves_to(s2, spec_lookup(ts[k]), #[trigger] values[k]))
        && #[trigger] replaced(text, domain, values) == out2;
    assert forall|k: int| 0 <= k < v1.len() implies v1[k] == v2[k] by {
        let l = spec_lookup(ts[k]);
        assert(answers_agree(s1, s2, l) && answers_once(s1, l));
        assert(resolves_to(s1, l, v1[k]));
        assert(resolves_to(s2, l, v2[k]));
        lemma_resolution_unique(s1, s2, l, v1[k], v2[k]);
    }
    assert(v1 =~= v2);
}

/// A reference to `domain` is among the placeholders of `t` from `i` on exactly
/// when some placeholder there is replaced for `domain`.
pub proof fn lemma_targets_iff_mentioned(t: Seq<char>, i: int, domain: Seq<char>)
    requires
        0 <= i,
    ensures
        targets_from(t, i, domain).len() > 0 <==> mentions_domain(refs_from(t, i), domain),
    decreases t.len() - i,
{
    if i < t.len() {
        lemma_placeholder_end_bounds(t, i);
        match placeholder_end(t, i) {
            Some(e) => {
                lemma_targets_iff_mentioned(t, e, domain);
                let rest = refs_from(t, e);
                match spec_parse(inner_of(t, i, e)) {
                    Ok(r) => {
                        let all = seq![r] + rest;
                        assert(all[0] == r);
                        if mentions_domain(rest, domain) {
                            let j = choose|j: int| 0 <= j < rest.len() && #[trigger] rest[j].domain == domain;
                            assert(all[j + 1] == rest[j]);
                        }
                        if mentions_domain(all, domain) && r.domain != domain {
                            let j = choose|j: int| 0 <= j < all.len() && #[trigger] all[j].domain == domain;
                            assert(rest[j - 1] == all[j]);
                        }
                    },
                    Err(_) => {},
                }
            },
            None => {
                lemma_targets_iff_mentioned(t, i + 1, domain);
            },
        }
    }
}

/// With no placeholder to replace from `i` on, the rest of `t` comes out as it is.
pub proof fn lemma_replaced_without_targets(t: Seq<char>, i: int, domain: Seq<char>, values: Seq<Seq<char>>)
    requires
        0 <= i <= t.len(),
        targets_from(t, i, domain).len() == 0,
    ensures
        replaced_from(t, i, domain, values) == t.subrange(i, t.len() as int),
    decreases t.len() - i,
{
    if i < t.len() {
        lemma_placeholder_end_bounds(t, i);
        match placeholder_end(t, i) {
            Some(e) => {
                lemma_replaced_without_targets(t, e, domain, values);
                assert(t.subrange(i, e) + t.subrange(e, t.len() as int) == t.subrange(i, t.len() as int));
            },
            None => {
                lemma_replaced_without_targets(t, i + 1, domain, values);
                assert(seq![t[i]] + t.subrange(i + 1, t.len() as int) == t.subrange(i, t.len() as int));
            },
        }
    } else {
        assert(t.subrange(i, t.len() as int) == Seq::<char>::empty());
    }
}

/// No secret is filled in without a domain match: when no well-formed
/// placeholder of `text` names `domain`, replacing for `domain` gives `text` back,
/// whatever the store answers.
pub proof fn law_unmatched_domain_leaves_text_unchanged(text: Seq<char>, domain: Seq<char>, values: Seq<Seq<char>>)
    requires
        !mentions_domain(refs_from(text, 0), domain),
    ensures
        replaced(text, domain, values) == text,
{
    lemma_targets_iff_mentioned(text, 0, domain);
    lemma_replaced_without_targets(text, 0, domain, values);
    assert(text.subrange(0, text.len() as int) == text);
}

/// A text with no well-formed placeholder for `domain` comes out of
/// `replace_placeholders` as it went in, and the store is put no question:
/// the list of questions, one per placeholder replaced, is empty.
pub proof fn law_no_placeholder_no_question<S: PasswordStore + ?Sized>(
    store: &S,
    text: Seq<char>,
    domain: Seq<char>,
    out: Seq<char>,
)
    requires
        !mentions_domain(refs_from(text, 0), domain),
        replaces_for(store, text, domain, out),
    ensures
        targets_from(text, 0, domain).len() == 0,
        out == text,
{
    lemma_targets_iff_mentioned(text, 0, domain);
    let values = choose|values: Seq<Seq<char>>|
        values.len() == targets_from(text, 0, domain).len()
        && (forall|k: int| 0 <= k < values.len()
            ==> resolves_to(store, spec_lookup(targets_from(text, 0, domain)[k]), #[trigger] values[k]))
        && #[trigger] replaced(text, domain, values) == out;
    law_unmatched_domain_leaves_text_unchanged(text, domain, values);
}

/// Every placeholder that is replaced for `domain` names `domain`.
pub proof fn law_targets_name_the_domain(text: Seq<char>, i: int, domain: Seq<char>)
    requires
        0 <= i,
    ensures
        forall|k: int| 0 <= k < targets_from(text, i, domain).len()
            ==> #[trigger] targets_from(text, i, domain)[k].domain == domain,
    decreases text.len() - i,
{
    if i < text.len() {
        lemma_placeholder_end_bounds(text, i);
        match placeholder_end(text, i) {
            Some(e) => {
                law_targets_name_the_domain(text, e, domain);
                let rest = targets_from(text, e, domain);
                if names_domain(inner_of(text, i, e), domain) {
                    let all = seq![spec_parse(inner_of(text, i, e))->Ok_0] + rest;
                    assert forall|k: int| 0 <= k < all.len() implies #[trigger] all[k].domain == domain by {
                        if k > 0 {
                            assert(all[k] == rest[k - 1]);
                        }
                    }
                }
            },
            None => {
                law_targets_name_the_domain(text, i + 1, domain);
            },
        }
    }
}

/// Whether `s` holds no `:`.
pub open spec fn colon_free(s: Seq<char>) -> bool {
    forall|i: int| 0 <= i < s.len() ==> s[i] != ':'
}

/// The placeholder forms read back: with a domain, path and field name that
/// hold no `:`, `domain:path` is that path in password mode, `domain:path:full`
/// in full mode, and `domain:path:field:name` asks for the field `name`.
pub proof fn law_placeholder_forms_read_back(domain: Seq<char>, path: Seq<char>, field: Seq<char>)
    requires
        colon_free(domain),
        colon_free(path),
        colon_free(field),
    ensures
        spec_parse(domain + seq![':'] + path)
            == Ok::<ReferenceView, Seq<char>>(ReferenceView { domain, path, mode: ReplacementMode::Password, field_name: None }),
        spec_parse(domain + seq![':'] + path + seq![':'] + "full"@)
            == Ok::<ReferenceView, Seq<char>>(ReferenceView { domain, path, mode: ReplacementMode::Full, field_name: None }),
        spec_parse(domain + seq![':'] + path + seq![':'] + "field"@ + seq![':'] + field)
            == Ok::<ReferenceView, Seq<char>>(ReferenceView { domain, path, mode: ReplacementMode::Field, field_name: Some(field) }),
        spec_parse(domain + seq![':'] + path + seq![':'] + "password"@)
            == Ok::<ReferenceView, Seq<char>>(ReferenceView { domain, path, mode: ReplacementMode::Password, field_name: None }),
{
    reveal_strlit("full");
    reveal_strlit("field");
    reveal_strlit("password");
    let full: Seq<char> = "full"@;
    let fld: Seq<char> = "field"@;
    lemma_split_without_sep(domain, ':');
    lemma_split_without_sep(path, ':');
    lemma_split_without_sep(field, ':');
    lemma_split_without_sep(full, ':');
    lemma_split_without_sep(fld, ':');
    // domain:path
    lemma_split_joined(domain, ':', path);
    assert(split_on(domain + seq![':'] + path, ':') == seq![domain, path]);
    // domain:path:full
    let dp = domain + seq![':'] + path;
    lemma_split_joined(dp, ':', full);
    assert(split_on(dp + seq![':'] + full, ':') == seq![domain, path, full]);
    assert(full != "password"@);
    // domain:path:password
    let pw: Seq<char> = "password"@;
    lemma_split_without_sep(pw, ':');
    lemma_split_joined(dp, ':', pw);
    assert(split_on(dp + seq![':'] + pw, ':') == seq![domain, path, pw]);
    // domain:path:field:name
    let dpf = dp + seq![':'] + fld;
    lemma_split_joined(dp, ':', fld);
    lemma_split_joined(dpf, ':', field);
    assert(split_on(dpf + seq![':'] + field, ':') == seq![domain, path, fld, field]);
}

/// Malformed placeholder bodies are refused, each with its reason: one part
/// alone; a third part that is neither `password` nor `full`; four parts
/// whose third is not `field`; five parts or more.
pub proof fn law_malformed_bodies_are_refused(domain: Seq<char>, path: Seq<char>, mode: Seq<char>, field: Seq<char>)
    requires
        colon_free(domain),
        colon_free(path),
        colon_free(mode),
        colon_free(field),
    ensures
        spec_parse(domain) == Err::<ReferenceView, Seq<char>>("expected format: domain:path[:mode[:field]]"@),
        mode != "password"@ && mode != "full"@ ==> spec_parse(domain + seq![':'] + path + seq![':'] + mode)
            == Err::<ReferenceView, Seq<char>>("unknown mode: "@ + mode),
        mode != "field"@ ==> spec_parse(domain + seq![':'] + path + seq![':'] + mode + seq![':'] + field)
            == Err::<ReferenceView, Seq<char>>("expected 'field' mode, got: "@ + mode),
        spec_parse(domain + seq![':'] + path + seq![':'] + mode + seq![':'] + field + seq![':'] + field)
            == Err::<ReferenceView, Seq<char>>("too many colons"@),
{
    lemma_split_without_sep(domain, ':');
    lemma_split_without_sep(path, ':');
    lemma_split_without_sep(mode, ':');
    lemma_split_without_sep(field, ':');
    let dp = domain + seq![':'] + path;
    lemma_split_joined(domain, ':', path);
    let dpm = dp + seq![':'] + mode;
    lemma_split_joined(dp, ':', mode);
    assert(split_on(dpm, ':') == seq![domain, path, mode]);
    let dpmf = dpm + seq![':'] + field;
    lemma_split_joined(dpm, ':', field);
    assert(split_on(dpmf, ':') == seq![domain, path, mode, field]);
    lemma_split_joined(dpmf, ':', field);
    assert(split_on(dpmf + seq![':'] + field, ':') == seq![domain, path, mode, field, field]);
}

} // verus!
