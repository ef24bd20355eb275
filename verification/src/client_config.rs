//! Plain client-side configuration values, and how each transport's
//! configuration is filled from parsed command-line arguments.

use vstd::prelude::*;

verus! {

/// The parsed connection arguments of a client, as plain values.
#[derive(Debug)]
pub struct Args {
    pub transport: String,
    pub encryption_key: String,
    pub http_api_url: String,
    pub http_retries: u32,
    pub tcp_server_address: String,
    pub tcp_reconnection_retries: u32,
    pub tcp_reconnection_interval: u64,
    pub tcp_tls_enabled: bool,
    pub tcp_tls_domain: String,
    pub quic_client_address: String,
    pub quic_server_address: String,
    pub quic_server_name: String,
    pub quic_reconnection_retries: u32,
    pub quic_reconnection_interval: u64,
    pub quic_response_buffer_size: u64,
    pub quic_max_concurrent_bidi_streams: u64,
    pub quic_datagram_send_buffer_size: u64,
    pub quic_initial_mtu: u16,
    pub quic_send_window: u64,
    pub quic_receive_window: u64,
    pub quic_keep_alive_interval: u64,
    pub quic_max_idle_timeout: u64,
    pub quic_validate_certificate: bool,
}

/// A transport configuration that can be filled from parsed arguments.
pub trait ClientConfig: Sized {
    /// Builds the configuration from the arguments.
    fn from_args(args: Args) -> Self;
}

/// The HTTP transport's configuration.
#[derive(Debug)]
pub struct HttpClientConfig {
    pub api_url: String,
    pub retries: u32,
}

impl ClientConfig for HttpClientConfig {
    fn from_args(args: Args) -> Self {
        HttpClientConfig { api_url: args.http_api_url, retries: args.http_retries }
    }
}

/// The raw-TCP transport's configuration.
#[derive(Debug)]
pub struct TcpClientConfig {
    pub server_address: String,
    pub reconnection_retries: u32,
    pub reconnection_interval: u64,
    pub tls_enabled: bool,
    pub tls_domain: String,
}

impl ClientConfig for TcpClientConfig {
    fn from_args(args: Args) -> Self {
        TcpClientConfig {
            server_address: args.tcp_server_address,
            reconnection_retries: args.tcp_reconnection_retries,
            reconnection_interval: args.tcp_reconnection_interval,
            tls_enabled: args.tcp_tls_enabled,
            tls_domain: args.tcp_tls_domain,
        }
    }
}

/// The QUIC transport's configuration.
#[derive(Debug)]
pub struct QuicClientConfig {
    pub client_address: String,
    pub server_address: String,
    pub server_name: String,
    pub reconnection_retries: u32,
    pub reconnection_interval: u64,
    pub response_buffer_size: u64,
    pub max_concurrent_bidi_streams: u64,
    pub datagram_send_buffer_size: u64,
    pub initial_mtu: u16,
    pub send_window: u64,
    pub receive_window: u64,
    pub keep_alive_interval: u64,
    pub max_idle_timeout: u64,
    pub validate_certificate: bool,
}

impl ClientConfig for QuicClientConfig {
    fn from_args(args: Args) -> Self {
        QuicClientConfig {
            client_address: args.quic_client_address,
            server_address: args.quic_server_address,
            server_name: args.quic_server_name,
            reconnection_retries: args.quic_reconnection_retries,
            reconnection_interval: args.quic_reconnection_interval,
            response_buffer_size: args.quic_response_buffer_size,
            max_concurrent_bidi_streams: args.quic_max_concurrent_bidi_streams,
            datagram_send_buffer_size: args.quic_datagram_send_buffer_size,
            initial_mtu: args.quic_initial_mtu,
            send_window: args.quic_send_window,
            receive_window: args.quic_receive_window,
            keep_alive_interval: args.quic_keep_alive_interval,
            max_idle_timeout: args.quic_max_idle_timeout,
            validate_certificate: args.quic_validate_certificate,
        }
    }
}

/// How many reconnection attempts remain sensible, and what a client does
/// next after a failed connect: retry after the configured interval, or
/// give up.
pub enum ReconnectAction {
    Retry(u64),
    GiveUp,
}

/// Decides whether a client that failed to connect tries again: it retries,
/// waiting the configured interval, while attempts remain.
pub fn reconnect_decision(retry_count: u32, max_retries: u32, interval: u64) -> (r: ReconnectAction)
    ensures
        retry_count < max_retries ==> r == ReconnectAction::Retry(interval),
        retry_count >= max_retries ==> r == ReconnectAction::GiveUp,
{
    if retry_count < max_retries {
        ReconnectAction::Retry(interval)
    } else {
        ReconnectAction::GiveUp
    }
}

} // verus!
