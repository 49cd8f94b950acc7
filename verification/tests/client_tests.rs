use trello_cli::client::Client;

#[test]
fn new_stores_credentials() {
    let client = Client::new("https://api.trello.com", "some-token", "some-key");
    assert_eq!(client.host, "https://api.trello.com".to_string());
    assert_eq!(client.token, "some-token".to_string());
    assert_eq!(client.key, "some-key".to_string());
}

#[test]
fn url_carries_credentials_as_leading_parameters() {
    let client = Client::new("https://api.trello.com", "some-token", "some-key");
    let url = client.get_trello_url("/1/me/boards/", &Vec::new()).unwrap();
    assert_eq!(
        url.as_str(),
        "https://api.trello.com/1/me/boards/?key=some-key&token=some-token"
    );
}

#[test]
fn url_appends_extra_parameters_after_credentials() {
    let client = Client::new("https://api.trello.com", "some-token", "some-key");
    let params = vec![("lists".to_string(), "open".to_string())];
    let url = client.get_trello_url("/1/boards/some-id/", &params).unwrap();
    assert_eq!(
        url.as_str(),
        "https://api.trello.com/1/boards/some-id/?key=some-key&token=some-token&lists=open"
    );
}

#[test]
fn invalid_host_is_rejected() {
    let client = Client::new("not a url", "t", "k");
    assert!(client.get_trello_url("/1/me/boards/", &Vec::new()).is_err());
}

#[test]
fn parameter_values_are_percent_encoded() {
    let client = Client::new("https://api.trello.com", "tok", "key");
    let params = vec![("name".to_string(), "a b".to_string())];
    let url = client.get_trello_url("/1/cards/", &params).unwrap();
    assert_eq!(
        url.as_str(),
        "https://api.trello.com/1/cards/?key=key&token=tok&name=a+b"
    );
}
