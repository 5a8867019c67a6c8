use std::collections::HashMap;
use std::sync::Arc;

use claurst::password_store::{PasswordStore, PasswordStoreError};
use claurst::password_utils::{extract_domain_from_url, replace_passwords_in_payload};

struct OneSecret {
    secrets: HashMap<String, String>,
}

impl PasswordStore for OneSecret {
    fn list_entries(&self) -> Result<Vec<String>, PasswordStoreError> {
        Ok(self.secrets.keys().cloned().collect())
    }
    fn get_password(&self, path: &str) -> Result<String, PasswordStoreError> {
        self.secrets.get(path).cloned().ok_or_else(|| PasswordStoreError::NotFound(path.to_string()))
    }
    fn get_full_secret(&self, path: &str) -> Result<String, PasswordStoreError> {
        self.get_password(path)
    }
    fn get_field(&self, _path: &str, field: &str) -> Result<String, PasswordStoreError> {
        Err(PasswordStoreError::FieldNotFound(field.to_string()))
    }
    fn has_entry(&self, path: &str) -> bool {
        self.secrets.contains_key(path)
    }
}

fn store() -> Option<Arc<dyn PasswordStore>> {
    let mut secrets = HashMap::new();
    secrets.insert("token".to_string(), "T0K3N".to_string());
    Some(Arc::new(OneSecret { secrets }))
}

#[test]
fn test_extract_domain_url() {
    assert_eq!(extract_domain_from_url("https://api.example.com/v1/users"), Some("api.example.com".to_string()));
    assert_eq!(extract_domain_from_url("http://localhost:8080"), Some("localhost".to_string()));
    assert_eq!(extract_domain_from_url("https://api.example.com"), Some("api.example.com".to_string()));
}

#[test]
fn test_extract_domain_plain() {
    assert_eq!(extract_domain_from_url("api.example.com"), Some("api.example.com".to_string()));
    assert_eq!(extract_domain_from_url("api.example.com/v1"), Some("api.example.com".to_string()));
}

#[test]
fn extract_domain_edge_cases() {
    assert_eq!(extract_domain_from_url(""), Some("".to_string()));
    assert_eq!(extract_domain_from_url("host:9000/path"), Some("host".to_string()));
    assert_eq!(extract_domain_from_url("https://"), Some("".to_string()));
    assert_eq!(extract_domain_from_url("a://b://c"), Some("b".to_string()));
    assert_eq!(extract_domain_from_url("https://user.example.com:443/x/y"), Some("user.example.com".to_string()));
}

#[test]
fn payload_without_store_is_unchanged() {
    let none: Option<Arc<dyn PasswordStore>> = None;
    let payload = "Authorization: {{pass:api.x.com:token}}";
    assert_eq!(replace_passwords_in_payload(payload, &none, "api.x.com"), payload);
}

#[test]
fn payload_with_store_is_filled_for_its_domain_only() {
    let s = store();
    let payload = "A={{pass:api.x.com:token}} B={{pass:other.com:token}}";
    assert_eq!(replace_passwords_in_payload(payload, &s, "api.x.com"), "A=T0K3N B={{pass:other.com:token}}");
    assert_eq!(replace_passwords_in_payload(payload, &s, "other.com"), "A={{pass:api.x.com:token}} B=T0K3N");
    assert_eq!(replace_passwords_in_payload(payload, &s, "third.com"), payload);
}

#[test]
fn a_host_is_its_own_host() {
    for url in ["https://api.example.com/v1/users", "http://localhost:8080", "api.example.com", "ftp://a:b@c/d", ""] {
        let host = extract_domain_from_url(url).unwrap();
        assert_eq!(extract_domain_from_url(&host), Some(host.clone()));
    }
}
