use forward::auth::Authentication;
use forward::server::{ForwardServer, ForwardServerConfig, ForwardServerState};
use forward::target_addr::{SocketAddress, TargetAddr};

fn config() -> ForwardServerConfig {
    ForwardServerConfig {
        bind_addr: SocketAddress::V4 {
            ip: 0x7f000001,
            port: 25565,
        },
        proxy: TargetAddr::Ip(SocketAddress::V4 {
            ip: 0x7f000001,
            port: 1080,
        }),
        proxy_auth: Authentication::NoAuth,
        target: TargetAddr::Domain("example.net".to_string(), 25565),
    }
}

#[test]
fn lifecycle_run() {
    let mut server = ForwardServer::new(config());
    assert_eq!(server.query_state(), ForwardServerState::Stopped);

    assert!(server.start_requested());
    assert_eq!(server.query_state(), ForwardServerState::Started);

    // a second start request is a no-op
    assert!(!server.start_requested());
    assert_eq!(server.query_state(), ForwardServerState::Started);

    let (proxy, auth, target) = server.connection_accepted();
    assert_eq!(
        proxy,
        TargetAddr::Ip(SocketAddress::V4 {
            ip: 0x7f000001,
            port: 1080,
        }),
    );
    assert_eq!(auth, Authentication::NoAuth);
    assert_eq!(target, TargetAddr::Domain("example.net".to_string(), 25565));
    assert_eq!(server.query_state(), ForwardServerState::Started);

    server.stop_requested();
    assert_eq!(server.query_state(), ForwardServerState::Stopping);

    server.tasks_drained();
    assert_eq!(server.query_state(), ForwardServerState::Stopped);
}

#[test]
fn fatal_error_path_settles_at_stopped() {
    let mut server = ForwardServer::new(config());
    assert!(server.start_requested());
    let _plan = server.connection_accepted();
    // an accept failure leaves the loop without a stop signal
    server.stop_requested();
    server.tasks_drained();
    assert_eq!(server.query_state(), ForwardServerState::Stopped);
}

#[test]
fn state_codes() {
    assert_eq!(ForwardServerState::Stopped.code(), 0);
    assert_eq!(ForwardServerState::Started.code(), 1);
    assert_eq!(ForwardServerState::Stopping.code(), 2);
}

#[test]
fn bind_addr_comes_from_config() {
    let server = ForwardServer::new(config());
    assert_eq!(
        server.bind_addr(),
        SocketAddress::V4 {
            ip: 0x7f000001,
            port: 25565,
        },
    );
}
