use std::collections::HashMap;

use claurst::password_store::{
    extract_placeholders, fill_placeholders, has_domain_placeholders, lookup_request, Lookup, placeholder_targets, replace_placeholders,
    replacement_text, resolve_reference, NullPasswordStore, PasswordReference, PasswordStore, PasswordStoreConfig,
    PasswordStoreError, ReplacementMode,
};

struct MockPasswordStore {
    passwords: HashMap<String, String>,
}

impl MockPasswordStore {
    fn new() -> Self {
        let mut passwords = HashMap::new();
        passwords.insert("user".to_string(), "secret123".to_string());
        passwords.insert("pass".to_string(), "mypassword".to_string());
        passwords.insert("apikey".to_string(), "APIKEY:line1\nusername:admin\n".to_string());
        Self { passwords }
    }
}

impl PasswordStore for MockPasswordStore {
    fn list_entries(&self) -> Result<Vec<String>, PasswordStoreError> {
        Ok(self.passwords.keys().cloned().collect())
    }

    fn get_password(&self, path: &str) -> Result<String, PasswordStoreError> {
        self.passwords
            .get(path)
            .cloned()
            .map(|s| {
                let trimmed = s.trim_end();
                trimmed.lines().next().unwrap_or("").to_string()
            })
            .ok_or_else(|| PasswordStoreError::NotFound(path.to_string()))
    }

    fn get_full_secret(&self, path: &str) -> Result<String, PasswordStoreError> {
        self.passwords.get(path).cloned().ok_or_else(|| PasswordStoreError::NotFound(path.to_string()))
    }

    fn get_field(&self, path: &str, field_name: &str) -> Result<String, PasswordStoreError> {
        let secret = self.get_full_secret(path)?;
        for line in secret.lines() {
            if let Some(colon_pos) = line.find(':') {
                let key = &line[..colon_pos].trim();
                let value = &line[colon_pos + 1..].trim();
                if key.eq_ignore_ascii_case(field_name) {
                    return Ok(value.to_string());
                }
            }
        }
        Err(PasswordStoreError::FieldNotFound(field_name.to_string()))
    }

    fn has_entry(&self, path: &str) -> bool {
        self.passwords.contains_key(path)
    }
}

struct ApiKeys {
    secrets: HashMap<String, String>,
}

impl ApiKeys {
    fn new() -> Self {
        let mut secrets = HashMap::new();
        secrets.insert("aws".to_string(), "AKIA-SECRET-AWS-KEY".to_string());
        secrets.insert("github".to_string(), "ghp-SECRET-GH-TOKEN".to_string());
        secrets.insert("db".to_string(), "super-secret-db-pass".to_string());
        Self { secrets }
    }
}

impl PasswordStore for ApiKeys {
    fn list_entries(&self) -> Result<Vec<String>, PasswordStoreError> {
        Ok(self.secrets.keys().cloned().collect())
    }
    fn get_password(&self, path: &str) -> Result<String, PasswordStoreError> {
        self.secrets.get(path).cloned().ok_or_else(|| PasswordStoreError::NotFound(path.to_string()))
    }
    fn get_full_secret(&self, path: &str) -> Result<String, PasswordStoreError> {
        self.get_password(path)
    }
    fn get_field(&self, _path: &str, _field: &str) -> Result<String, PasswordStoreError> {
        panic!("fields are not kept by this store")
    }
    fn has_entry(&self, path: &str) -> bool {
        self.secrets.contains_key(path)
    }
}

#[test]
fn test_parse_with_domain() {
    let r = PasswordReference::parse("example.com:secret").unwrap();
    assert_eq!(r.domain, "example.com");
    assert_eq!(r.path, "secret");
    assert_eq!(r.mode, ReplacementMode::Password);
}

#[test]
fn test_parse_with_mode() {
    let r = PasswordReference::parse("example.com:secret:full").unwrap();
    assert_eq!(r.domain, "example.com");
    assert_eq!(r.path, "secret");
    assert_eq!(r.mode, ReplacementMode::Full);
}

#[test]
fn test_parse_with_field() {
    let r = PasswordReference::parse("example.com:secret:field:username").unwrap();
    assert_eq!(r.domain, "example.com");
    assert_eq!(r.path, "secret");
    assert_eq!(r.mode, ReplacementMode::Field);
    assert_eq!(r.field_name, Some("username".to_string()));
}

#[test]
fn test_parse_error_too_short() {
    let result = PasswordReference::parse("example");
    assert!(result.is_err());
}

#[test]
fn test_extract_placeholders() {
    let text = "Login to {{pass:api.example.com:user}} and {{pass:web.example.com:pass:full}}";
    let refs = extract_placeholders(text);
    assert_eq!(refs.len(), 2);
    assert_eq!(refs[0].domain, "api.example.com");
    assert_eq!(refs[1].domain, "web.example.com");
}

#[test]
fn test_replace_placeholders_domain_match() {
    let store = MockPasswordStore::new();
    let text = "API key: {{pass:api.example.com:apikey}}";
    let result = replace_placeholders(text, &store, "api.example.com").unwrap();
    assert_eq!(result, "API key: APIKEY:line1");
}

#[test]
fn test_replace_placeholders_password_type_stack() {
    let store = MockPasswordStore::new();
    let text = "User: {{pass:api.example.com:user}}";
    let result = replace_placeholders(text, &store, "api.example.com").unwrap();
    assert_eq!(result, "User: secret123");
}

#[test]
fn test_replace_placeholders_domain_no_match() {
    let store = MockPasswordStore::new();
    let text = "API key: {{pass:api.example.com:apikey}}";
    let result = replace_placeholders(text, &store, "other.com").unwrap();
    assert_eq!(result, "API key: {{pass:api.example.com:apikey}}");
}

#[test]
fn test_replace_placeholders_mixed_domains() {
    let store = MockPasswordStore::new();
    let text = "Login to api: {{pass:api.example.com:user}} and web: {{pass:web.example.com:pass}}";
    let result = replace_placeholders(text, &store, "api.example.com").unwrap();
    assert_eq!(result, "Login to api: secret123 and web: {{pass:web.example.com:pass}}");
}

#[test]
fn test_replace_placeholders_full_mode() {
    let store = MockPasswordStore::new();
    let text = "{{pass:api.example.com:apikey:full}}";
    let result = replace_placeholders(text, &store, "api.example.com").unwrap();
    assert_eq!(result, "APIKEY:line1\nusername:admin\n");
}

#[test]
fn test_replace_placeholders_field_mode() {
    let store = MockPasswordStore::new();
    let text = "User: {{pass:api.example.com:apikey:field:username}}";
    let result = replace_placeholders(text, &store, "api.example.com").unwrap();
    println!("Result: '{}'", result);
    assert_eq!(result, "User: admin");
}

#[test]
fn test_replace_placeholders_not_found() {
    let store = MockPasswordStore::new();
    let text = "{{pass:api.example.com:notfound}}";
    let result = replace_placeholders(text, &store, "api.example.com").unwrap();
    assert!(result.contains("ERROR"));
}

#[test]
fn test_replace_placeholders_malformed_kept_unchanged() {
    let store = MockPasswordStore::new();
    let text = "{{pass:invalid}}";
    let result = replace_placeholders(text, &store, "api.example.com").unwrap();
    assert_eq!(result, "{{pass:invalid}}");
}

#[test]
fn test_has_domain_placeholders() {
    assert!(has_domain_placeholders("{{pass:api.example.com:user}}", "api.example.com"));
    assert!(!has_domain_placeholders("{{pass:api.example.com:user}}", "other.com"));
    assert!(has_domain_placeholders("{{pass:api.example.com:user}} {{pass:other.com:pass}}", "api.example.com"));
}

#[test]
fn test_security_llm_receives_only_placeholders() {
    let _store = ApiKeys::new();
    let llm_prompt = "Use {{pass:aws.amazon.com:aws}} for the API";
    assert!(llm_prompt.contains("{{pass:aws.amazon.com:aws}}"));
    assert!(!llm_prompt.contains("AKIA-SECRET"));
}

#[test]
fn test_security_http_layer_gets_value_for_matching_domain() {
    let store = ApiKeys::new();
    let request = "Authorization: {{pass:aws.amazon.com:aws}}";
    let aws_request = replace_placeholders(request, &store, "aws.amazon.com").unwrap();
    assert_eq!(aws_request, "Authorization: AKIA-SECRET-AWS-KEY");
    assert!(aws_request.contains("AKIA-SECRET"));
}

#[test]
fn test_security_intercept_wrong_domain() {
    let store = ApiKeys::new();
    let request = "Authorization: {{pass:aws.amazon.com:aws}}";
    let github_request = replace_placeholders(request, &store, "github.com").unwrap();
    assert_eq!(github_request, "Authorization: {{pass:aws.amazon.com:aws}}");
    assert!(!github_request.contains("AKIA-SECRET"));
}

#[test]
fn test_security_domain_mismatch_prevents_leak() {
    let store = ApiKeys::new();
    let wrong_request = "curl -H 'Authorization: {{pass:aws.amazon.com:aws}}' https://github.com";
    let result = replace_placeholders(wrong_request, &store, "github.com").unwrap();
    assert!(result.contains("{{pass:aws.amazon.com:aws}}"));
    assert!(!result.contains("AKIA-SECRET"));
}

#[test]
fn test_security_selective_replacement_in_multi_service_context() {
    let store = ApiKeys::new();
    let message = "AWS: {{pass:aws.amazon.com:aws}} GitHub: {{pass:github.com:github}} DB: {{pass:db.internal:db}}";
    let aws_line = replace_placeholders(message, &store, "aws.amazon.com").unwrap();
    assert!(aws_line.contains("AKIA-SECRET-AWS-KEY"));
    assert!(aws_line.contains("{{pass:github.com:github}}"));
    assert!(aws_line.contains("{{pass:db.internal:db}}"));
    let gh_line = replace_placeholders(message, &store, "github.com").unwrap();
    assert!(gh_line.contains("ghp-SECRET-GH-TOKEN"));
    assert!(gh_line.contains("{{pass:aws.amazon.com:aws}}"));
}

#[test]
fn test_security_helper_functions_work() {
    let text = "API {{pass:aws.amazon.com:aws}} and {{pass:github.com:github}}";
    let refs = extract_placeholders(text);
    assert_eq!(refs.len(), 2);
    assert_eq!(refs[0].domain, "aws.amazon.com");
    assert_eq!(refs[1].domain, "github.com");
    assert!(has_domain_placeholders(text, "aws.amazon.com"));
    assert!(!has_domain_placeholders(text, "not-in-there.com"));
}

#[test]
fn test_security_malformed_placeholders_preserved() {
    let store = ApiKeys::new();
    let text = "Valid: {{pass:aws.amazon.com:aws}} Invalid: {{pass:nodomain}}";
    let result = replace_placeholders(text, &store, "aws.amazon.com").unwrap();
    assert!(result.contains("AKIA-SECRET-AWS-KEY"));
    assert!(result.contains("{{pass:nodomain}}"));
}

// ----- further cases -----

#[test]
fn parse_errors_say_why() {
    fn reason(s: &str) -> String {
        match PasswordReference::parse(s) {
            Err(PasswordStoreError::InvalidFormat(m)) => m,
            _ => panic!("expected an InvalidFormat error"),
        }
    }
    assert_eq!(reason("example"), "expected format: domain:path[:mode[:field]]");
    assert_eq!(reason("a.com:p:validate"), "unknown mode: validate");
    assert_eq!(reason("a.com:p:field"), "unknown mode: field");
    assert_eq!(reason("a.com:p:x:y"), "expected 'field' mode, got: x");
    assert_eq!(reason("a.com:p:field:u:v"), "too many colons");
    match PasswordReference::parse("example") {
        Err(e) => assert_eq!(e.message(), "Invalid placeholder format: expected format: domain:path[:mode[:field]]"),
        Ok(_) => panic!("a placeholder without a path must be refused"),
    }
}

#[test]
fn parse_explicit_password_mode_and_empty_parts() {
    let p = PasswordReference::parse("a.com:p:password").unwrap();
    assert_eq!(p.mode, ReplacementMode::Password);
    assert_eq!(p.field_name, None);
    let e = PasswordReference::parse(":").unwrap();
    assert_eq!(e.domain, "");
    assert_eq!(e.path, "");
}

#[test]
fn store_error_messages() {
    assert_eq!(PasswordStoreError::NotInitialized("x".to_string()).message(), "Password store not initialized: x");
    assert_eq!(PasswordStoreError::NotFound("p".to_string()).message(), "Password not found: p");
    assert_eq!(PasswordStoreError::AccessError("io".to_string()).message(), "Failed to access password store: io");
    assert_eq!(PasswordStoreError::DecryptionError("gpg".to_string()).message(), "Failed to decrypt password: gpg");
    assert_eq!(PasswordStoreError::FieldNotFound("user".to_string()).message(), "Field 'user' not found in secret");
}

#[test]
fn null_store_answers_with_errors() {
    let store = NullPasswordStore::default();
    assert_eq!(store.list_entries().unwrap().len(), 0);
    assert!(!store.has_entry("anything"));
    match store.get_password("x") {
        Err(PasswordStoreError::NotInitialized(m)) => {
            assert_eq!(m, "Password store not configured. Set PASSWORD_STORE_DIR or configure in settings.")
        }
        _ => panic!("expected NotInitialized"),
    }
    assert!(matches!(store.get_full_secret("x"), Err(PasswordStoreError::NotInitialized(_))));
    assert!(matches!(store.get_field("x", "y"), Err(PasswordStoreError::NotInitialized(_))));
    let out = replace_placeholders("k={{pass:a.com:x}}", &store, "a.com").unwrap();
    assert_eq!(out, "k=ERROR: Password store not initialized: Password store not configured. Set PASSWORD_STORE_DIR or configure in settings.");
}

#[test]
fn validate_and_field_modes_resolve() {
    let store = MockPasswordStore::new();
    let validate = PasswordReference {
        domain: "a.com".to_string(),
        path: "user".to_string(),
        mode: ReplacementMode::Validate,
        field_name: None,
    };
    assert_eq!(resolve_reference(&store, &validate), "VALID");
    let missing = PasswordReference { path: "nope".to_string(), ..validate.clone() };
    assert_eq!(resolve_reference(&store, &missing), "ERROR: not found");
    let no_field = PasswordReference { mode: ReplacementMode::Field, ..validate.clone() };
    assert_eq!(resolve_reference(&store, &no_field), "ERROR: missing field name");
    let r = PasswordReference::parse("a.com:apikey:field:USERNAME").unwrap();
    assert_eq!(resolve_reference(&store, &r), "admin");
    let unknown_field = PasswordReference::parse("a.com:apikey:field:email").unwrap();
    assert_eq!(resolve_reference(&store, &unknown_field), "ERROR: Field 'email' not found in secret");
    assert_eq!(
        replace_placeholders("{{pass:a.com:user:validate}}", &store, "a.com").unwrap(),
        "{{pass:a.com:user:validate}}"
    );
}

#[test]
fn replacement_text_of_answers() {
    assert_eq!(replacement_text(Ok("s".to_string())), "s");
    assert_eq!(replacement_text(Err(PasswordStoreError::NotFound("p".to_string()))), "ERROR: Password not found: p");
}

#[test]
fn targets_and_fill_in_order() {
    let text = "a {{pass:x.com:one}} b {{pass:y.com:two}} c {{pass:x.com:three:full}}";
    let targets = placeholder_targets(text, "x.com");
    assert_eq!(targets.len(), 2);
    assert_eq!(targets[0].path, "one");
    assert_eq!(targets[1].path, "three");
    let out = fill_placeholders(text, "x.com", &["1".to_string(), "3".to_string()]);
    assert_eq!(out, "a 1 b {{pass:y.com:two}} c 3");
}

#[test]
fn unterminated_placeholder_is_text() {
    let store = MockPasswordStore::new();
    let text = "{{pass:a.com:user";
    assert_eq!(replace_placeholders(text, &store, "a.com").unwrap(), text);
    assert_eq!(extract_placeholders(text).len(), 0);
}

#[test]
fn default_config_is_empty() {
    let c = PasswordStoreConfig::default();
    assert!(c.store_path.is_none());
    assert!(c.signing_key.is_none());
    assert!(!c.require_git);
}

#[test]
fn each_mode_asks_its_question() {
    let p = PasswordReference::parse("a.com:web/site").unwrap();
    assert!(matches!(lookup_request(&p), Lookup::Password { path } if path == "web/site"));
    let f = PasswordReference::parse("a.com:web/site:full").unwrap();
    assert!(matches!(lookup_request(&f), Lookup::Full { path } if path == "web/site"));
    let d = PasswordReference::parse("a.com:web/site:field:user").unwrap();
    assert!(matches!(lookup_request(&d), Lookup::Field { path, field_name } if path == "web/site" && field_name == "user"));
    let v = PasswordReference { mode: ReplacementMode::Validate, ..p.clone() };
    assert!(matches!(lookup_request(&v), Lookup::Validate { path } if path == "web/site"));
    let m = PasswordReference { mode: ReplacementMode::Field, field_name: None, ..p.clone() };
    assert!(matches!(lookup_request(&m), Lookup::MissingField));
}

/// A store that must not be asked anything.
struct SilentStore;

impl PasswordStore for SilentStore {
    fn list_entries(&self) -> Result<Vec<String>, PasswordStoreError> {
        panic!("the store was asked for its entries")
    }
    fn get_password(&self, _path: &str) -> Result<String, PasswordStoreError> {
        panic!("the store was asked for a password")
    }
    fn get_full_secret(&self, _path: &str) -> Result<String, PasswordStoreError> {
        panic!("the store was asked for a secret")
    }
    fn get_field(&self, _path: &str, _field: &str) -> Result<String, PasswordStoreError> {
        panic!("the store was asked for a field")
    }
    fn has_entry(&self, _path: &str) -> bool {
        panic!("the store was asked about an entry")
    }
}

#[test]
fn no_placeholder_for_the_domain_asks_the_store_nothing() {
    let text = "call {{pass:other.com:key}} and {{pass:broken}} then {{pass:other.com:k:field:f}}";
    let out = replace_placeholders(text, &SilentStore, "api.example.com").unwrap();
    assert_eq!(out, text);
}
