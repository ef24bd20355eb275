use iggy::cli::{
    ChangePasswordCmd, CliCommand, CreateStreamCmd, DeleteConsumerGroupCmd, DeleteUserCmd,
    GetMeCmd, SendMessagesCmd,
};
use iggy::client_config::{Args, ClientConfig, ReconnectAction, TcpClientConfig};
use iggy::command::Partitioning;
use iggy::credentials::IggyCredentials;
use iggy::error::{ConnectionError, IggyError};
use iggy::http_path::get_details_path;
use iggy::identifier::Identifier;

fn args() -> Args {
    Args {
        transport: "tcp".to_owned(),
        encryption_key: String::new(),
        http_api_url: "http://127.0.0.1:3000".to_owned(),
        http_retries: 3,
        tcp_server_address: "127.0.0.1:8090".to_owned(),
        tcp_reconnection_retries: 3,
        tcp_reconnection_interval: 1000,
        tcp_tls_enabled: false,
        tcp_tls_domain: "localhost".to_owned(),
        quic_client_address: "127.0.0.1:0".to_owned(),
        quic_server_address: "127.0.0.1:8080".to_owned(),
        quic_server_name: "localhost".to_owned(),
        quic_reconnection_retries: 3,
        quic_reconnection_interval: 1000,
        quic_response_buffer_size: 1000,
        quic_max_concurrent_bidi_streams: 10000,
        quic_datagram_send_buffer_size: 100000,
        quic_initial_mtu: 1200,
        quic_send_window: 100000,
        quic_receive_window: 100000,
        quic_keep_alive_interval: 5000,
        quic_max_idle_timeout: 10000,
        quic_validate_certificate: false,
    }
}

#[test]
fn tcp_config_is_filled_from_args() {
    let c = TcpClientConfig::from_args(args());
    assert_eq!(c.server_address, "127.0.0.1:8090");
    assert_eq!(c.reconnection_retries, 3);
    assert!(!c.tls_enabled);
}

#[test]
fn reconnect_retries_until_the_budget_is_spent() {
    assert!(matches!(
        iggy::client_config::reconnect_decision(0, 3, 1000),
        ReconnectAction::Retry(1000)
    ));
    assert!(matches!(
        iggy::client_config::reconnect_decision(3, 3, 1000),
        ReconnectAction::GiveUp
    ));
}

#[test]
fn credentials_resolve_in_priority_order() {
    // a stored token by name wins
    let r = IggyCredentials::resolve(
        true,
        true,
        Some("tok".to_owned()),
        Some("explicit".to_owned()),
        None,
        None,
        None,
        None,
    )
    .unwrap();
    assert!(matches!(r, IggyCredentials::PersonalAccessToken(t) if t == "tok"));
    // a token name without a server address is refused
    assert!(IggyCredentials::resolve(true, false, None, None, None, None, None, None).is_err());
    // then an explicit token
    let r = IggyCredentials::resolve(
        false,
        true,
        None,
        Some("explicit".to_owned()),
        Some("u".to_owned()),
        Some("p".to_owned()),
        None,
        None,
    )
    .unwrap();
    assert!(matches!(r, IggyCredentials::PersonalAccessToken(t) if t == "explicit"));
    // then username and password
    let r = IggyCredentials::resolve(
        false,
        true,
        None,
        None,
        Some("u".to_owned()),
        Some("p".to_owned()),
        Some("eu".to_owned()),
        Some("ep".to_owned()),
    )
    .unwrap();
    assert!(
        matches!(r, IggyCredentials::UserNameAndPassword(u) if u.username == "u" && u.password == "p")
    );
    // then the environment
    let r = IggyCredentials::resolve(
        false,
        true,
        None,
        None,
        None,
        None,
        Some("eu".to_owned()),
        Some("ep".to_owned()),
    )
    .unwrap();
    assert!(
        matches!(r, IggyCredentials::UserNameAndPassword(u) if u.username == "eu" && u.password == "ep")
    );
    // else nothing
    assert!(IggyCredentials::resolve(false, true, None, None, None, None, None, None).is_err());
}

#[test]
fn command_objects_explain_themselves() {
    let cmd = CreateStreamCmd::new(1, "prod".to_owned());
    assert_eq!(cmd.explain(), "create stream with ID: 1 and name: prod");
    assert!(cmd.login_required());
    let cmd = DeleteConsumerGroupCmd::new(
        Identifier::numeric(1).unwrap(),
        Identifier::numeric(2).unwrap(),
        Identifier::numeric(3).unwrap(),
    );
    assert_eq!(
        cmd.explain(),
        "delete consumer group with ID: 3 for topic with ID: 2 and stream with ID: 1"
    );
    let cmd = DeleteUserCmd::new(Identifier::named("alice").unwrap());
    assert_eq!(cmd.explain(), "delete user with ID: alice");
    assert_eq!(GetMeCmd::new().explain(), "me command");
}

#[test]
fn change_password_prompts_only_when_something_is_missing() {
    let with_both = ChangePasswordCmd::new(
        Identifier::numeric(1).unwrap(),
        Some("old".to_owned()),
        Some("new".to_owned()),
    );
    assert!(with_both.use_tracing());
    let with_none = ChangePasswordCmd::new(Identifier::numeric(1).unwrap(), None, None);
    assert!(!with_none.use_tracing());
}

#[test]
fn send_messages_cmd_rejects_partition_id_together_with_a_key() {
    let r = SendMessagesCmd::new(
        Identifier::numeric(1).unwrap(),
        Identifier::numeric(1).unwrap(),
        Some(2),
        Some("key".to_owned()),
        None,
    );
    assert!(r.is_err());
    let r = SendMessagesCmd::new(
        Identifier::numeric(1).unwrap(),
        Identifier::numeric(1).unwrap(),
        None,
        Some("key".to_owned()),
        None,
    )
    .unwrap();
    assert!(matches!(r.partitioning, Partitioning::MessagesKey(k) if k == b"key".to_vec()));
}

#[test]
fn stream_detail_paths_share_the_prefix() {
    assert_eq!(get_details_path("42"), "/streams/42");
    assert_eq!(get_details_path("orders"), "/streams/orders");
}

#[test]
fn connection_endings_have_their_own_log_lines() {
    assert_eq!(
        iggy::error::handle_error(ConnectionError::UnexpectedEof),
        "Connection has been closed."
    );
    assert_eq!(
        iggy::error::handle_error(ConnectionError::ConnectionReset),
        "Connection has been reset."
    );
    assert_eq!(
        iggy::error::handle_error(ConnectionError::Other),
        "Connection has failed."
    );
}

#[test]
fn named_identifiers_trim_trailing_nul_padding() {
    let id = Identifier::named("abc\0\0").unwrap();
    assert_eq!(id.value, b"abc".to_vec());
    assert!(Identifier::named("").is_err());
    assert!(Identifier::numeric(0).is_err());
    assert_eq!(
        Identifier::numeric(0).unwrap_err(),
        IggyError::InvalidIdentifier
    );
}

#[test]
fn header_keys_refuse_uppercase_and_empty() {
    assert!(iggy::header::HeaderKey::new("trace-id").is_ok());
    assert!(iggy::header::HeaderKey::new("Trace").is_err());
    assert!(iggy::header::HeaderKey::new("").is_err());
}
