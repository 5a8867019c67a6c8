//! The Chutes provider: model and instance resolution, request headers, the
//! invoke retry rule and model listings.

use vstd::prelude::*;

use crate::e2ee::{base64_decode, base64_decoded, ML_KEM_768_PUBKEY_SIZE};
use crate::text::{chars_equal, chars_equal_ignoring_ascii_case, chars_of, copy_range, decimal, equal_ignoring_ascii_case, push_decimal, string_of};

verus! {

/// Errors of the provider.
#[derive(Debug)]
pub enum ProviderError {
    /// A request failed or was answered with something unusable.
    Other { message: String, status: Option<u16> },
    /// The event stream broke off.
    StreamError { message: String },
    /// The server answered with an error status.
    Api { code: u16, body: String },
}

/// What an error says, as text.
pub open spec fn error_text(e: ProviderError) -> Seq<char> {
    match e {
        ProviderError::Other { message, .. } => message@,
        ProviderError::StreamError { message } => message@,
        ProviderError::Api { code, body } => "HTTP "@ + decimal(code as nat) + ": "@ + body@,
    }
}

impl ProviderError {
    /// What the error says.
    pub fn message(&self) -> (m: String)
        ensures
            m@ == error_text(*self),
    {
        match self {
            ProviderError::Other { message, .. } => message.clone(),
            ProviderError::StreamError { message } => message.clone(),
            ProviderError::Api { code, body } => {
                let mut m = String::from_str("HTTP ");
                push_decimal(&mut m, *code as usize);
                let m = m.concat(": ").concat(body.as_str());
                m
            },
        }
    }
}

/// The reason phrase the HTTP status table gives `code`, if it gives one.
pub uninterp spec fn status_reason(code: u16) -> Option<Seq<char>>;

/// `reqwest::StatusCode::from_u16(code)`, then `canonical_reason`: claimed to
/// give the named phrase. Codes outside `100..=999` are no status codes and
/// are left out.
#[verifier::external_body]
fn canonical_reason(code: u16) -> (r: Option<String>)
    requires
        100 <= code <= 999,
    ensures
        match r {
            Some(s) => status_reason(code) == Some(s@),
            None => status_reason(code) is None,
        },
{
    match reqwest::StatusCode::from_u16(code) {
        Ok(s) => s.canonical_reason().map(|t| t.to_string()),
        Err(_) => None,
    }
}

/// A status as it is displayed: the code, a space and its reason phrase.
pub open spec fn status_line(code: u16) -> Seq<char> {
    decimal(code as nat) + " "@ + match status_reason(code) {
        Some(r) => r,
        None => "<unknown status code>"@,
    }
}

/// Whether `code` is a success status (`200..300`).
pub open spec fn is_success(code: u16) -> bool {
    200 <= code < 300
}

/// `code` displayed with its reason phrase.
pub fn display_status(code: u16) -> (s: String)
    requires
        100 <= code <= 999,
    ensures
        s@ == status_line(code),
{
    let mut s = String::new();
    push_decimal(&mut s, code as usize);
    let s = s.concat(" ");
    let s = match canonical_reason(code) {
        Some(r) => s.concat(r.as_str()),
        None => s.concat("<unknown status code>"),
    };
    s
}

/// The error of a model list request answered with `status`, if it is not a
/// success.
pub fn model_lookup_failure(status: u16) -> (r: Option<ProviderError>)
    requires
        100 <= status <= 999,
    ensures
        is_success(status) <==> r is None,
        r matches Some(e) ==> (e matches ProviderError::Other { message, status: s }
            && message@ == "Model lookup failed: "@ + status_line(status) && s == Some(status)),
{
    if 200 <= status && status < 300 {
        None
    } else {
        let line = display_status(status);
        let message = String::from_str("Model lookup failed: ").concat(line.as_str());
        Some(ProviderError::Other { message, status: Some(status) })
    }
}

/// The error of an instance discovery answered with `status` and `body`, if it
/// is not a success: a chute without E2EE answers 404.
pub fn discovery_failure(status: u16, body: &str) -> (r: Option<ProviderError>)
    requires
        100 <= status <= 999,
    ensures
        is_success(status) <==> r is None,
        status == 404 ==> (r matches Some(ProviderError::Other { message, status: s })
            && message@ == "Chute does not support E2EE"@ && s == Some(404u16)),
        status != 404 && !is_success(status) ==> (r matches Some(ProviderError::Other { message, status: s })
            && message@ == "Discovery failed: "@ + status_line(status) + " - "@ + body@ && s == Some(status)),
{
    if status == 404 {
        Some(ProviderError::Other { message: String::from_str("Chute does not support E2EE"), status: Some(404) })
    } else if 200 <= status && status < 300 {
        None
    } else {
        let line = display_status(status);
        let message = String::from_str("Discovery failed: ").concat(line.as_str()).concat(" - ").concat(body);
        Some(ProviderError::Other { message, status: Some(status) })
    }
}

/// `model` without a leading `chutes/`.
pub open spec fn model_path(model: Seq<char>) -> Seq<char> {
    if model.len() >= 7 && model.take(7) == "chutes/"@ {
        model.skip(7)
    } else {
        model
    }
}

/// The model name the endpoints know: `model` without a leading `chutes/`.
pub fn strip_chutes_prefix(model: &str) -> (r: String)
    ensures
        r@ == model_path(model@),
{
    let cs = chars_of(model);
    let prefix = chars_of("chutes/");
    proof {
        reveal_strlit("chutes/");
    }
    if cs.len() >= 7 {
        let head = copy_range(cs.as_slice(), 0, 7);
        if chars_equal(head.as_slice(), prefix.as_slice()) {
            assert(head@ == cs@.take(7));
            let tail = copy_range(cs.as_slice(), 7, cs.len());
            assert(tail@ == cs@.skip(7));
            return string_of(tail.as_slice());
        }
        assert(head@ == cs@.take(7));
    }
    string_of(cs.as_slice())
}


// ---------------------------------------------------------------------------
// The provider: its key and its cache of resolved chutes.
// ---------------------------------------------------------------------------

/// The chute a model name resolved to, by the first entry of `c` with that name.
pub open spec fn cache_lookup(c: Seq<(Seq<char>, Seq<char>)>, model: Seq<char>) -> Option<Seq<char>>
    decreases c.len(),
{
    if c.len() == 0 {
        None
    } else if c[0].0 == model {
        Some(c[0].1)
    } else {
        cache_lookup(c.drop_first(), model)
    }
}

/// The cache entries as a map from model name to chute id.
pub open spec fn cache_map(c: Seq<(Seq<char>, Seq<char>)>) -> Map<Seq<char>, Seq<char>> {
    Map::new(|m: Seq<char>| cache_lookup(c, m) is Some, |m: Seq<char>| cache_lookup(c, m).unwrap())
}

pub open spec fn entry_views(v: Seq<(String, String)>) -> Seq<(Seq<char>, Seq<char>)> {
    v.map_values(|p: (String, String)| (p.0@, p.1@))
}

proof fn lemma_lookup_from(c: Seq<(Seq<char>, Seq<char>)>, model: Seq<char>, i: int)
    requires
        0 <= i <= c.len(),
        forall|j: int| 0 <= j < i ==> #[trigger] c[j].0 != model,
    ensures
        cache_lookup(c, model) == cache_lookup(c.skip(i), model),
    decreases i,
{
    if i > 0 {
        let rest = c.drop_first();
        assert forall|j: int| 0 <= j < i - 1 implies #[trigger] rest[j].0 != model by {
            assert(rest[j] == c[j + 1]);
        }
        lemma_lookup_from(rest, model, i - 1);
        assert(rest.skip(i - 1) == c.skip(i));
    } else {
        assert(c.skip(0) == c);
    }
}

proof fn lemma_lookup_update(c: Seq<(Seq<char>, Seq<char>)>, i: int, v: (Seq<char>, Seq<char>), other: Seq<char>)
    requires
        0 <= i < c.len(),
        c[i].0 == v.0,
        other != v.0,
    ensures
        cache_lookup(c.update(i, v), other) == cache_lookup(c, other),
    decreases c.len(),
{
    let u = c.update(i, v);
    if i == 0 {
        assert(u.drop_first() == c.drop_first());
    } else if c[0].0 != other {
        lemma_lookup_update(c.drop_first(), i - 1, v, other);
        assert(u.drop_first() == c.drop_first().update(i - 1, v));
    } else {
        assert(u[0] == c[0]);
    }
}

proof fn lemma_lookup_push(c: Seq<(Seq<char>, Seq<char>)>, v: (Seq<char>, Seq<char>), other: Seq<char>)
    requires
        cache_lookup(c, v.0) is None,
    ensures
        cache_lookup(c.push(v), other) == if other == v.0 { Some(v.1) } else { cache_lookup(c, other) },
    decreases c.len(),
{
    let p = c.push(v);
    if c.len() == 0 {
        assert(p.drop_first().len() == 0);
        assert(cache_lookup(p.drop_first(), other) is None);
        assert(p[0] == v);
    } else {
        assert(c[0].0 != v.0);
        assert(p[0] == c[0]);
        assert(p.drop_first() == c.drop_first().push(v));
        if c[0].0 != other {
            lemma_lookup_push(c.drop_first(), v, other);
        }
    }
}

/// The Chutes provider: its API key and the chutes its models resolved to.
pub struct ChutesProvider {
    api_key: Option<String>,
    model_cache: Vec<(String, String)>,
}

/// `key` unless it is empty.
pub open spec fn non_empty_key(key: Option<Seq<char>>) -> Option<Seq<char>> {
    match key {
        Some(k) => if k.len() > 0 { Some(k) } else { None },
        None => None,
    }
}

pub open spec fn key_view(key: Option<String>) -> Option<Seq<char>> {
    match key {
        Some(k) => Some(k@),
        None => None,
    }
}

impl ChutesProvider {
    /// The API key, if there is one.
    pub closed spec fn key(&self) -> Option<Seq<char>> {
        key_view(self.api_key)
    }

    /// The chute ids resolved so far, by model name.
    pub closed spec fn cache(&self) -> Map<Seq<char>, Seq<char>> {
        cache_map(entry_views(self.model_cache@))
    }

    /// A provider with the key read from the environment, where an empty
    /// value counts as none, and nothing resolved yet.
    pub fn new(env_key: Option<String>) -> (p: Self)
        ensures
            p.key() == non_empty_key(key_view(env_key)),
            p.cache() == Map::<Seq<char>, Seq<char>>::empty(),
    {
        let key = match env_key {
            Some(k) => if k.as_str().unicode_len() > 0 { Some(k) } else { None },
            None => None,
        };
        Self::with_config(key)
    }

    /// A provider with exactly `api_key` and nothing resolved yet.
    pub fn with_config(api_key: Option<String>) -> (p: Self)
        ensures
            p.key() == key_view(api_key),
            p.cache() == Map::<Seq<char>, Seq<char>>::empty(),
    {
        let p = ChutesProvider { api_key, model_cache: Vec::new() };
        assert(p.cache() =~= Map::<Seq<char>, Seq<char>>::empty());
        p
    }

    /// The provider with its key replaced by `key`; an empty key counts as none.
    pub fn with_api_key(self, key: String) -> (p: Self)
        ensures
            p.key() == non_empty_key(Some(key@)),
            p.cache() == self.cache(),
    {
        let api_key = if key.as_str().unicode_len() == 0 { None } else { Some(key) };
        ChutesProvider { api_key, model_cache: self.model_cache }
    }

    /// Whether the provider has no API key.
    pub fn has_no_key(&self) -> (r: bool)
        ensures
            r == (self.key() is None),
    {
        self.api_key.is_none()
    }

    /// The `Authorization` header value that requests carry: `Bearer` and the
    /// key, if there is a key.
    pub fn authorization(&self) -> (r: Option<String>)
        ensures
            match self.key() {
                Some(k) => r matches Some(h) && h@ == "Bearer "@ + k,
                None => r is None,
            },
    {
        match &self.api_key {
            Some(k) => Some(String::from_str("Bearer ").concat(k.as_str())),
            None => None,
        }
    }

    /// The provider's display name.
    pub fn name(&self) -> (r: String)
        ensures
            r@ == "Chutes E2EE"@,
    {
        String::from_str("Chutes E2EE")
    }

    /// The chute id resolved earlier for `model`, if any.
    pub fn cached_chute_id(&self, model: &str) -> (r: Option<String>)
        ensures
            match r {
                Some(id) => self.cache().contains_key(model@) && self.cache()[model@] == id@,
                None => !self.cache().contains_key(model@),
            },
    {
        let ghost c = entry_views(self.model_cache@);
        let key = chars_of(model);
        let n = self.model_cache.len();
        let mut i: usize = 0;
        while i < n
            invariant
                n == self.model_cache@.len(),
                c == entry_views(self.model_cache@),
                key@ == model@,
                i <= n,
                forall|j: int| 0 <= j < i ==> #[trigger] c[j].0 != model@,
            decreases n - i,
        {
            let entry_key = chars_of(self.model_cache[i].0.as_str());
            assert(c[i as int] == (self.model_cache@[i as int].0@, self.model_cache@[i as int].1@));
            if chars_equal(entry_key.as_slice(), key.as_slice()) {
                proof {
                    lemma_lookup_from(c, model@, i as int);
                    assert(c.skip(i as int)[0] == c[i as int]);
                }
                return Some(self.model_cache[i].1.clone());
            }
            i = i + 1;
        }
        proof {
            lemma_lookup_from(c, model@, n as int);
        }
        None
    }

    /// Records that `model` resolved to `chute_id`.
    pub fn remember_chute_id(&mut self, model: &str, chute_id: &str)
        ensures
            final(self).key() == old(self).key(),
            final(self).cache() == old(self).cache().insert(model@, chute_id@),
    {
        let ghost c = entry_views(self.model_cache@);
        let ghost v = (model@, chute_id@);
        let key = chars_of(model);
        let n = self.model_cache.len();
        let mut i: usize = 0;
        while i < n
            invariant
                n == self.model_cache@.len(),
                c == entry_views(self.model_cache@),
                c == entry_views(old(self).model_cache@),
                v == (model@, chute_id@),
                self.api_key == old(self).api_key,
                key@ == model@,
                i <= n,
                forall|j: int| 0 <= j < i ==> #[trigger] c[j].0 != model@,
            decreases n - i,
        {
            let entry_key = chars_of(self.model_cache[i].0.as_str());
            assert(c[i as int] == (self.model_cache@[i as int].0@, self.model_cache@[i as int].1@));
            if chars_equal(entry_key.as_slice(), key.as_slice()) {
                let entry = (String::from_str(model), String::from_str(chute_id));
                let ghost before = self.model_cache@;
                self.model_cache.set(i, entry);
                proof {
                    let c2 = c.update(i as int, v);
                    assert(self.model_cache@ == before.update(i as int, entry));
                    assert(entry.0@ == model@ && entry.1@ == chute_id@);
                    assert(entry_views(self.model_cache@) =~= c2);
                    assert forall|j: int| 0 <= j < i implies #[trigger] c2[j].0 != model@ by {
                        assert(c2[j] == c[j]);
                    }
                    lemma_lookup_from(c2, model@, i as int);
                    assert(c2.skip(i as int)[0] == v);
                    assert forall|m: Seq<char>| m != model@ implies cache_lookup(c2, m) == cache_lookup(c, m) by {
                        lemma_lookup_update(c, i as int, v, m);
                    }
                    assert(cache_map(c2) =~= cache_map(c).insert(model@, chute_id@));
                }
                return;
            }
            i = i + 1;
        }
        proof {
            lemma_lookup_from(c, model@, n as int);
        }
        self.model_cache.push((String::from_str(model), String::from_str(chute_id)));
        proof {
            let c2 = c.push(v);
            assert(entry_views(self.model_cache@) =~= c2);
            assert forall|m: Seq<char>| #[trigger] cache_lookup(c2, m) == if m == model@ { Some(chute_id@) } else { cache_lookup(c, m) } by {
                lemma_lookup_push(c, v, m);
            }
            assert(cache_map(c2) =~= cache_map(c).insert(model@, chute_id@));
        }
    }
}


// ---------------------------------------------------------------------------
// Resolving a model to its chute.
// ---------------------------------------------------------------------------

/// One entry of the model list.
pub struct ModelDetail {
    pub id: String,
    pub chute_id: String,
    pub confidential_compute: bool,
}

/// Whether the list entry `d` is the model `model`: its id is the model's
/// name with or without the `chutes/` prefix.
pub open spec fn names_model(d: ModelDetail, model: Seq<char>) -> bool {
    d.id@ == model_path(model) || d.id@ == model
}

/// Whether `i` is the first entry of `models` that names `model`.
pub open spec fn first_naming(models: Seq<ModelDetail>, model: Seq<char>, i: int) -> bool {
    &&& 0 <= i < models.len()
    &&& names_model(models[i], model)
    &&& forall|j: int| 0 <= j < i ==> !names_model(#[trigger] models[j], model)
}

/// The first entry of `models` that names `model`, if any.
pub fn find_model(models: &Vec<ModelDetail>, model: &str) -> (r: Option<usize>)
    ensures
        match r {
            Some(i) => first_naming(models@, model@, i as int),
            None => forall|j: int| 0 <= j < models@.len() ==> !names_model(#[trigger] models@[j], model@),
        },
{
    let path = chars_of(strip_chutes_prefix(model).as_str());
    let full = chars_of(model);
    let n = models.len();
    let mut i: usize = 0;
    while i < n
        invariant
            n == models@.len(),
            i <= n,
            path@ == model_path(model@),
            full@ == model@,
            forall|j: int| 0 <= j < i ==> !names_model(#[trigger] models@[j], model@),
        decreases n - i,
    {
        let id = chars_of(models[i].id.as_str());
        if chars_equal(id.as_slice(), path.as_slice()) || chars_equal(id.as_slice(), full.as_slice()) {
            return Some(i);
        }
        i = i + 1;
    }
    None
}

impl ChutesProvider {
    /// Resolves `model` by the model list `models`: the chute of its first
    /// entry that names it, which is then remembered; otherwise a 404 error.
    pub fn resolve_in_list(&mut self, model: &str, models: &Vec<ModelDetail>) -> (r: Result<String, ProviderError>)
        ensures
            final(self).key() == old(self).key(),
            match r {
                Ok(id) => exists|i: int| first_naming(models@, model@, i) && #[trigger] models@[i].chute_id@ == id@
                    && final(self).cache() == old(self).cache().insert(model@, id@),
                Err(e) => (forall|j: int| 0 <= j < models@.len() ==> !names_model(#[trigger] models@[j], model@))
                    && (e matches ProviderError::Other { message, status }
                        && message@ == "Model "@ + model@ + " not found"@ && status == Some(404u16))
                    && final(self).cache() == old(self).cache(),
            },
    {
        match find_model(models, model) {
            Some(i) => {
                let id = models[i].chute_id.clone();
                self.remember_chute_id(model, id.as_str());
                assert(models@[i as int].chute_id@ == id@);
                Ok(id)
            },
            None => {
                let message = String::from_str("Model ").concat(model).concat(" not found");
                Err(ProviderError::Other { message, status: Some(404) })
            },
        }
    }
}

// ---------------------------------------------------------------------------
// Choosing an instance and reading its key.
// ---------------------------------------------------------------------------

/// An instance that serves a chute, as discovery lists it.
pub struct InstanceInfo {
    pub instance_id: String,
    pub e2e_pubkey: String,
    pub nonces: Vec<String>,
}

/// The instance, key and nonce an invocation uses.
#[derive(Debug)]
pub struct InstanceChoice {
    pub instance_id: String,
    pub e2e_pubkey: String,
    pub nonce: String,
}

/// The first listed instance with its first nonce.
pub fn select_instance(instances: &Vec<InstanceInfo>) -> (r: Result<InstanceChoice, ProviderError>)
    ensures
        instances@.len() == 0 ==> (r matches Err(ProviderError::Other { message, status })
            && message@ == "No E2EE instances available"@ && status is None),
        instances@.len() > 0 && instances@[0].nonces@.len() == 0 ==> (r matches Err(ProviderError::Other { message, status })
            && message@ == "No nonces available for instance"@ && status is None),
        instances@.len() > 0 && instances@[0].nonces@.len() > 0 ==> (r matches Ok(c)
            && c.instance_id@ == instances@[0].instance_id@
            && c.e2e_pubkey@ == instances@[0].e2e_pubkey@
            && c.nonce@ == instances@[0].nonces@[0]@),
{
    if instances.len() == 0 {
        return Err(ProviderError::Other { message: String::from_str("No E2EE instances available"), status: None });
    }
    let instance = &instances[0];
    if instance.nonces.len() == 0 {
        return Err(ProviderError::Other { message: String::from_str("No nonces available for instance"), status: None });
    }
    Ok(InstanceChoice {
        instance_id: instance.instance_id.clone(),
        e2e_pubkey: instance.e2e_pubkey.clone(),
        nonce: instance.nonces[0].clone(),
    })
}

/// The bytes of an instance's ML-KEM-768 public key from its base64 text.
pub fn parse_public_key(pk_b64: &str) -> (r: Result<Vec<u8>, ProviderError>)
    ensures
        base64_decoded(pk_b64@) is None ==> (r matches Err(ProviderError::Other { message, status })
            && message@.len() >= 27 && message@.take(27) == "Invalid public key base64: "@ && status is None),
        base64_decoded(pk_b64@) matches Some(b) ==> if b.len() == ML_KEM_768_PUBKEY_SIZE {
            r matches Ok(v) && v@ == b
        } else {
            r matches Err(ProviderError::Other { message, status })
                && message@ == "Invalid pubkey size: expected 1184, got "@ + decimal(b.len()) && status is None
        },
{
    match base64_decode(pk_b64) {
        Err(e) => {
            let message = String::from_str("Invalid public key base64: ").concat(e.as_str());
            proof {
                reveal_strlit("Invalid public key base64: ");
                assert(message@.take(27) == "Invalid public key base64: "@);
            }
            Err(ProviderError::Other { message, status: None })
        },
        Ok(bytes) => {
            if bytes.len() != ML_KEM_768_PUBKEY_SIZE {
                let mut message = String::from_str("Invalid pubkey size: expected 1184, got ");
                push_decimal(&mut message, bytes.len());
                Err(ProviderError::Other { message, status: None })
            } else {
                Ok(bytes)
            }
        },
    }
}

/// The headers of an encrypted invocation, besides `Authorization`.
pub open spec fn invoke_header_views(chute_id: Seq<char>, instance_id: Seq<char>, nonce: Seq<char>) -> Seq<(Seq<char>, Seq<char>)> {
    seq![
        ("Content-Type"@, "application/octet-stream"@),
        ("X-Chute-Id"@, chute_id),
        ("X-Instance-Id"@, instance_id),
        ("X-E2E-Nonce"@, nonce),
        ("X-E2E-Stream"@, "true"@),
        ("X-E2E-Path"@, "/v1/chat/completions"@),
    ]
}

/// The headers of an encrypted invocation of `chute_id` on `instance_id`
/// with `nonce`, in order.
pub fn invoke_headers(chute_id: &str, instance_id: &str, nonce: &str) -> (h: Vec<(String, String)>)
    ensures
        entry_views(h@) == invoke_header_views(chute_id@, instance_id@, nonce@),
{
    let mut h: Vec<(String, String)> = Vec::new();
    h.push((String::from_str("Content-Type"), String::from_str("application/octet-stream")));
    h.push((String::from_str("X-Chute-Id"), String::from_str(chute_id)));
    h.push((String::from_str("X-Instance-Id"), String::from_str(instance_id)));
    h.push((String::from_str("X-E2E-Nonce"), String::from_str(nonce)));
    h.push((String::from_str("X-E2E-Stream"), String::from_str("true")));
    h.push((String::from_str("X-E2E-Path"), String::from_str("/v1/chat/completions")));
    assert(entry_views(h@) =~= invoke_header_views(chute_id@, instance_id@, nonce@));
    h
}

// ---------------------------------------------------------------------------
// The invoke retry rule.
// ---------------------------------------------------------------------------

/// What to do with the answer to an invocation.
pub enum InvokeOutcome {
    /// A success: read the encrypted event stream.
    Stream,
    /// A nonce was refused: try once more with a fresh one; `error` is what the
    /// call fails with if no other attempt is made.
    Retry { error: ProviderError },
    /// Fail with `error`.
    Fail { error: ProviderError },
}

/// Whether `body` contains `nonce`, compared without regard to ASCII case.
pub open spec fn mentions_nonce(body: Seq<char>) -> bool {
    exists|i: int| 0 <= i && i + 5 <= body.len() && equal_ignoring_ascii_case(#[trigger] body.subrange(i, i + 5), "nonce"@)
}

/// Whether the answer (`status`, `body`) to attempt number `attempt` calls
/// for another attempt: a 403 that speaks of the nonce, on the first attempt.
pub open spec fn retries(attempt: u32, status: u16, body: Seq<char>) -> bool {
    status == 403 && attempt < 2 && mentions_nonce(body)
}

fn contains_nonce(body: &str) -> (r: bool)
    ensures
        r == mentions_nonce(body@),
{
    let cs = chars_of(body);
    let word = chars_of("nonce");
    proof {
        reveal_strlit("nonce");
    }
    if cs.len() < 5 {
        return false;
    }
    let last = cs.len() - 5;
    let mut i: usize = 0;
    while i <= last
        invariant
            cs@ == body@,
            word@ == "nonce"@,
            last + 5 == cs@.len(),
            cs@.len() == cs.len(),
            i <= last + 1,
            forall|j: int| 0 <= j < i ==> !equal_ignoring_ascii_case(#[trigger] cs@.subrange(j, j + 5), "nonce"@),
        decreases last + 1 - i,
    {
        let window = copy_range(cs.as_slice(), i, i + 5);
        if chars_equal_ignoring_ascii_case(window.as_slice(), word.as_slice()) {
            return true;
        }
        i = i + 1;
    }
    false
}

/// What attempt number `attempt` does with the answer `status` and `body`:
/// stream on success, retry on a 403 that speaks of the nonce while it is
/// the first attempt, fail otherwise. The error carries the status and body.
pub fn invoke_outcome(attempt: u32, status: u16, body: &str) -> (r: InvokeOutcome)
    ensures
        is_success(status) ==> r is Stream,
        !is_success(status) && retries(attempt, status, body@) ==> (r matches InvokeOutcome::Retry {
            error: ProviderError::Api { code, body: b } } && code == status && b@ == body@),
        !is_success(status) && !retries(attempt, status, body@) ==> (r matches InvokeOutcome::Fail {
            error: ProviderError::Api { code, body: b } } && code == status && b@ == body@),
{
    if 200 <= status && status < 300 {
        return InvokeOutcome::Stream;
    }
    let error = ProviderError::Api { code: status, body: String::from_str(body) };
    if status == 403 && attempt < 2 && contains_nonce(body) {
        InvokeOutcome::Retry { error }
    } else {
        InvokeOutcome::Fail { error }
    }
}

/// An invocation is retried at most once: from the second attempt on, no
/// answer calls for another.
pub proof fn law_retry_only_on_first_attempt(attempt: u32, status: u16, body: Seq<char>)
    requires
        attempt >= 2,
    ensures
        !retries(attempt, status, body),
{
}

/// The error once the attempts are used up: the last one's, or a 403 of
/// its own.
pub fn after_retries(last: Option<ProviderError>) -> (e: ProviderError)
    ensures
        match last {
            Some(l) => e == l,
            None => e matches ProviderError::Other { message, status }
                && message@ == "E2EE invoke failed after retries"@ && status == Some(403u16),
        },
{
    match last {
        Some(l) => l,
        None => ProviderError::Other { message: String::from_str("E2EE invoke failed after retries"), status: Some(403) },
    }
}


// ---------------------------------------------------------------------------
// Keys, model listings, health and capabilities.
// ---------------------------------------------------------------------------

/// A model the provider offers.
pub struct ModelInfo {
    pub id: String,
    pub name: String,
    pub context_window: u64,
    pub max_output_tokens: u64,
}

/// What a model entry says.
pub struct ModelInfoView {
    pub id: Seq<char>,
    pub name: Seq<char>,
    pub context_window: u64,
    pub max_output_tokens: u64,
}

impl View for ModelInfo {
    type V = ModelInfoView;

    open spec fn view(&self) -> ModelInfoView {
        ModelInfoView {
            id: self.id@,
            name: self.name@,
            context_window: self.context_window,
            max_output_tokens: self.max_output_tokens,
        }
    }
}

pub open spec fn model_info_views(v: Seq<ModelInfo>) -> Seq<ModelInfoView> {
    v.map_values(|m: ModelInfo| m@)
}

/// The context window every listed model is given.
pub const CONTEXT_WINDOW: u64 = 200000;

/// The output limit every listed model is given.
pub const MAX_OUTPUT_TOKENS: u64 = 32000;

/// The listing of a TEE model with list id `id`.
pub open spec fn tee_model(id: Seq<char>) -> ModelInfoView {
    ModelInfoView {
        id: "chutes/"@ + id,
        name: id + " (Chutes TEE)"@,
        context_window: CONTEXT_WINDOW,
        max_output_tokens: MAX_OUTPUT_TOKENS,
    }
}

/// The confidential-compute entries of `models`, in order, as listings.
pub open spec fn tee_models(models: Seq<ModelDetail>) -> Seq<ModelInfoView>
    decreases models.len(),
{
    if models.len() == 0 {
        Seq::empty()
    } else if models.last().confidential_compute {
        tee_models(models.drop_last()).push(tee_model(models.last().id@))
    } else {
        tee_models(models.drop_last())
    }
}

/// The model offered without a key.
pub open spec fn default_model() -> ModelInfoView {
    ModelInfoView {
        id: "chutes/zai-org/GLM-5.1-TEE"@,
        name: "GLM-5.1 TEE (Chutes E2EE)"@,
        context_window: CONTEXT_WINDOW,
        max_output_tokens: MAX_OUTPUT_TOKENS,
    }
}

/// The listings of the confidential-compute entries of `models`.
pub fn models_from_list(models: &Vec<ModelDetail>) -> (r: Vec<ModelInfo>)
    ensures
        model_info_views(r@) == tee_models(models@),
{
    let mut r: Vec<ModelInfo> = Vec::new();
    let n = models.len();
    let mut i: usize = 0;
    while i < n
        invariant
            n == models@.len(),
            i <= n,
            model_info_views(r@) == tee_models(models@.take(i as int)),
        decreases n - i,
    {
        let ghost before = r@;
        assert(models@.take(i + 1).drop_last() == models@.take(i as int));
        if models[i].confidential_compute {
            let id = &models[i].id;
            let info = ModelInfo {
                id: String::from_str("chutes/").concat(id.as_str()),
                name: id.clone().concat(" (Chutes TEE)"),
                context_window: CONTEXT_WINDOW,
                max_output_tokens: MAX_OUTPUT_TOKENS,
            };
            r.push(info);
            assert(model_info_views(r@) =~= model_info_views(before).push(info@));
        }
        i = i + 1;
    }
    assert(models@.take(n as int) == models@);
    r
}

/// The health of the provider.
pub enum ProviderStatus {
    Healthy,
    Unavailable { reason: String },
}

/// How a system prompt is passed to the model.
pub enum SystemPromptStyle {
    /// As a message with the system role.
    SystemMessage,
}

/// What the provider supports.
pub struct ProviderCapabilities {
    pub streaming: bool,
    pub tool_calling: bool,
    pub thinking: bool,
    pub image_input: bool,
    pub pdf_input: bool,
    pub audio_input: bool,
    pub video_input: bool,
    pub caching: bool,
    pub structured_output: bool,
    pub system_prompt_style: SystemPromptStyle,
}

impl ChutesProvider {
    /// Streaming needs a key: an error without one.
    pub fn require_key(&self) -> (r: Result<(), ProviderError>)
        ensures
            self.key() is Some <==> r is Ok,
            r matches Err(e) ==> (e matches ProviderError::Other { message, status }
                && message@ == "CHUTES_API_KEY required for E2EE mode"@ && status is None),
    {
        if self.api_key.is_none() {
            Err(ProviderError::Other { message: String::from_str("CHUTES_API_KEY required for E2EE mode"), status: None })
        } else {
            Ok(())
        }
    }

    /// The models offered: without a key the default TEE model; with one the
    /// confidential-compute entries of the discovered list, or none where
    /// discovery failed.
    pub fn list_models(&self, discovered: &Result<Vec<ModelDetail>, ProviderError>) -> (r: Vec<ModelInfo>)
        ensures
            self.key() is None ==> model_info_views(r@) == seq![default_model()],
            self.key() is Some ==> match discovered {
                Ok(models) => model_info_views(r@) == tee_models(models@),
                Err(_) => r@.len() == 0,
            },
    {
        if self.api_key.is_none() {
            let info = ModelInfo {
                id: String::from_str("chutes/zai-org/GLM-5.1-TEE"),
                name: String::from_str("GLM-5.1 TEE (Chutes E2EE)"),
                context_window: CONTEXT_WINDOW,
                max_output_tokens: MAX_OUTPUT_TOKENS,
            };
            let mut r: Vec<ModelInfo> = Vec::new();
            r.push(info);
            assert(model_info_views(r@) =~= seq![default_model()]);
            return r;
        }
        match discovered {
            Ok(models) => models_from_list(models),
            Err(_) => Vec::new(),
        }
    }

    /// The model whose chute the health check probes.
    pub fn probe_model(&self) -> (r: String)
        ensures
            r@ == "zai-org/GLM-5.1-TEE"@,
    {
        String::from_str("zai-org/GLM-5.1-TEE")
    }

    /// The health of the provider: unavailable without a key, else healthy
    /// exactly when probing the instances succeeded, the error saying why not.
    pub fn health_status(&self, probe: &Result<(), ProviderError>) -> (r: ProviderStatus)
        ensures
            self.key() is None ==> (r matches ProviderStatus::Unavailable { reason }
                && reason@ == "No CHUTES_API_KEY configured"@),
            self.key() is Some ==> match probe {
                Ok(_) => r is Healthy,
                Err(e) => r matches ProviderStatus::Unavailable { reason } && reason@ == error_text(*e),
            },
    {
        if self.api_key.is_none() {
            return ProviderStatus::Unavailable { reason: String::from_str("No CHUTES_API_KEY configured") };
        }
        match probe {
            Ok(_) => ProviderStatus::Healthy,
            Err(e) => ProviderStatus::Unavailable { reason: e.message() },
        }
    }

    /// What the provider supports: streaming, tools, thinking, images and
    /// structured output, with the system prompt as a message.
    pub fn capabilities(&self) -> (c: ProviderCapabilities)
        ensures
            c.streaming && c.tool_calling && c.thinking && c.image_input && c.structured_output,
            !c.pdf_input && !c.audio_input && !c.video_input && !c.caching,
            c.system_prompt_style is SystemMessage,
    {
        ProviderCapabilities {
            streaming: true,
            tool_calling: true,
            thinking: true,
            image_input: true,
            pdf_input: false,
            audio_input: false,
            video_input: false,
            caching: false,
            structured_output: true,
            system_prompt_style: SystemPromptStyle::SystemMessage,
        }
    }
}

/// Where the model list is served.
pub fn models_url() -> (u: String)
    ensures
        u@ == "https://llm.chutes.ai/v1/models"@,
{
    String::from_str("https://llm.chutes.ai/v1/models")
}

/// Where the instances of `chute_id` are listed.
pub fn instances_url(chute_id: &str) -> (u: String)
    ensures
        u@ == "https://api.chutes.ai/e2e/instances/"@ + chute_id@,
{
    String::from_str("https://api.chutes.ai/e2e/instances/").concat(chute_id)
}

/// Where encrypted invocations are posted.
pub fn invoke_url() -> (u: String)
    ensures
        u@ == "https://api.chutes.ai/e2e/invoke"@,
{
    String::from_str("https://api.chutes.ai/e2e/invoke")
}

} // verus!
