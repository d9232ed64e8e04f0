use tchat::client::Client;
use tchat::server::{generate_hash, Server};
use tchat::tcp::{ConfigurationError, ReadError, Setting, TransportFault};

#[test]
fn server_keeps_its_address() {
    let server = Server::new("127.0.0.1:8080");
    assert_eq!(server.address(), "127.0.0.1:8080");
}

#[test]
fn client_keeps_its_address() {
    let client = Client::new("127.0.0.1:8080");
    assert_eq!(client.address(), "127.0.0.1:8080");
}

#[test]
fn identity_depends_on_the_text_alone() {
    let first = generate_hash("127.0.0.1:5000".to_string());
    let second = generate_hash("127.0.0.1:5000".to_string());
    assert_eq!(first, second);
}

#[test]
fn different_endpoints_get_different_identities() {
    let here = generate_hash("127.0.0.1:5000".to_string());
    let there = generate_hash("127.0.0.1:5001".to_string());
    let nowhere = generate_hash(String::new());
    assert_ne!(here, there);
    assert_ne!(here, nowhere);
    assert_ne!(there, nowhere);
}

#[test]
fn accepted_link_is_configured_and_named_after_its_endpoint() {
    let stream = Server::accept("10.0.0.7:4242".to_string(), None).unwrap();
    assert_eq!(stream.id, generate_hash("10.0.0.7:4242".to_string()));
    assert!(stream.configured());
}

#[test]
fn link_with_a_refused_setting_is_not_accepted() {
    assert_eq!(
        Server::accept("10.0.0.7:4242".to_string(), Some(Setting::NonBlocking)),
        Err(ConfigurationError { rejected: Setting::NonBlocking })
    );
    assert_eq!(
        Server::accept("10.0.0.7:4242".to_string(), Some(Setting::NoDelay)),
        Err(ConfigurationError { rejected: Setting::NoDelay })
    );
}

#[test]
fn client_shows_a_line_without_its_line_feed() {
    assert_eq!(Client::render(Ok("hello\n".to_string())), Some("<Server> hello".to_string()));
    assert_eq!(Client::render(Ok("\n".to_string())), Some("<Server> ".to_string()));
    assert_eq!(
        Client::render(Ok("zwölf ✓\n".to_string())),
        Some("<Server> zwölf ✓".to_string())
    );
}

#[test]
fn client_shows_nothing_without_data() {
    assert_eq!(Client::render(Ok(String::new())), None);
    assert_eq!(Client::render(Err(ReadError { cause: TransportFault::Other })), None);
}
