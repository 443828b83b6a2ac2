//! Tests of the authd request builder.

use sn_membership::authd::SafeAuthdClient;

#[test]
fn requests_use_the_default_port() {
    let mut client = SafeAuthdClient::new(None);
    assert_eq!(
        client.log_in("secret", "password"),
        "https://localhost:33000/login/secret/password"
    );
    assert_eq!(client.log_out(), "https://localhost:33000/logout");
}

#[test]
fn requests_use_a_custom_port() {
    let mut client = SafeAuthdClient::new(Some(44123));
    assert_eq!(
        client.create_acc("sk", "secret", "password"),
        "https://localhost:44123/create/secret/password/sk"
    );
    assert_eq!(client.authed_apps(), "https://localhost:44123/authed-apps");
    assert_eq!(
        client.revoke_app("net.example.app"),
        "https://localhost:44123/revoke/net.example.app"
    );
}
