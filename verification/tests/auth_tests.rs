use utopia_sync::auth::{basic_auth_header, Credentials};

#[test]
fn rejects_incorrectly_formatted_geader() {
    let credentials = Credentials::decode("garbage");
    assert_eq!(credentials, None);
}

#[test]
fn extracts_correct_username_and_password() {
    let header = format!("Basic {}", base64::encode("some@username.com:pass123"));
    let credentials = Credentials::decode(&header);
    assert_eq!(
        credentials,
        Some(Credentials::UsernamePassword(
            String::from("some@username.com"),
            String::from("pass123")
        ))
    );
}

#[test]
fn extracts_correct_token() {
    let header = "Bearer some_token";
    let credentials = Credentials::decode(&header);
    assert_eq!(credentials, Some(Credentials::Token(String::from("some_token"))));
}

#[test]
fn rejects_basic_payload_without_a_colon() {
    let header = format!("Basic {}", base64::encode("nocolonhere"));
    assert_eq!(Credentials::decode(&header), None);
}

#[test]
fn rejects_basic_payload_with_two_colons() {
    let header = format!("Basic {}", base64::encode("a:b:c"));
    assert_eq!(Credentials::decode(&header), None);
}

#[test]
fn rejects_basic_payload_that_is_not_base64() {
    assert_eq!(Credentials::decode("Basic !!!not-base64!!!"), None);
}

#[test]
fn into_basic_passes_username_and_password_through() {
    let c = Credentials::UsernamePassword(String::from("user"), String::from("pw"));
    assert_eq!(c.into_basic(), (String::from("user"), String::from("pw")));
}

#[test]
fn into_basic_uses_the_token_as_username() {
    let c = Credentials::Token(String::from("tok"));
    assert_eq!(c.into_basic(), (String::from("tok"), String::from("api_token")));
}

#[test]
fn basic_auth_header_encodes_the_joined_pair() {
    assert_eq!(basic_auth_header("u", "p"), String::from("Basic dTpw"));
}

#[test]
fn decode_round_trips_through_the_real_encoder() {
    let header = basic_auth_header("someone", "secret");
    let credentials = Credentials::decode(&header);
    assert_eq!(
        credentials,
        Some(Credentials::UsernamePassword(String::from("someone"), String::from("secret")))
    );
}
