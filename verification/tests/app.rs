use flowtrack::addr::{IpAddress, SocketAddress};
use flowtrack::app::{Action, App, Key, KeyCode, ViewMode};
use flowtrack::network::types::{Connection, Protocol, ProtocolState};
use flowtrack::network::Process;

fn key(code: KeyCode) -> Key {
    Key { code, control: false }
}

fn flow(n: u8) -> Connection {
    Connection::new(
        Protocol::UDP,
        SocketAddress::new(IpAddress::V4(10, 0, 0, n), 1000),
        SocketAddress::new(IpAddress::V4(8, 8, 8, 8), 53),
        ProtocolState::Udp,
        0,
    )
}

fn app_with(flows: &[u8]) -> App {
    let mut app = App::new();
    app.on_tick(flows.iter().map(|n| flow(*n)).collect());
    app
}

fn selected(app: &App) -> Option<String> {
    app.selected_connection.as_ref().map(|c| c.local_addr.to_text())
}

#[test]
fn new_screen_shows_the_overview() {
    let app = App::new();
    assert_eq!(app.mode, ViewMode::Overview);
    assert!(app.connections.is_empty());
    assert!(app.processes.is_empty());
    assert!(app.selected_connection.is_none());
    assert_eq!(app.selected_connection_idx, 0);
    assert!(app.show_locations);
    assert!(!app.show_hostnames);
    assert!(app.dns_cache.is_empty());
}

#[test]
fn overview_keys() {
    let mut app = app_with(&[1, 2, 3]);
    assert_eq!(app.handle_key(key(KeyCode::Char('q'))), Some(Action::Quit));
    assert_eq!(app.handle_key(key(KeyCode::Char('r'))), Some(Action::Refresh));
    assert_eq!(app.handle_key(key(KeyCode::Char('c'))), None);
    assert_eq!(
        app.handle_key(Key { code: KeyCode::Char('c'), control: true }),
        Some(Action::Quit)
    );
    assert_eq!(app.handle_key(key(KeyCode::Char('x'))), None);
    assert_eq!(app.handle_key(key(KeyCode::Other)), None);
    assert_eq!(app.handle_key(key(KeyCode::Esc)), None);
    assert_eq!(app.mode, ViewMode::Overview);
    assert_eq!(app.handle_key(key(KeyCode::Char('l'))), None);
    assert!(!app.show_locations);
    assert_eq!(app.handle_key(key(KeyCode::Char('l'))), None);
    assert!(app.show_locations);
    assert_eq!(app.handle_key(key(KeyCode::Char('h'))), None);
    assert_eq!(app.mode, ViewMode::Help);
}

#[test]
fn selection_moves_around_the_list() {
    let mut app = app_with(&[1, 2, 3]);
    assert_eq!(selected(&app), Some("10.0.0.1:1000".to_string()));
    assert_eq!(app.handle_key(key(KeyCode::Down)), None);
    assert_eq!(app.selected_connection_idx, 1);
    assert_eq!(selected(&app), Some("10.0.0.2:1000".to_string()));
    app.handle_key(key(KeyCode::Down));
    app.handle_key(key(KeyCode::Down));
    assert_eq!(app.selected_connection_idx, 0);
    app.handle_key(key(KeyCode::Up));
    assert_eq!(app.selected_connection_idx, 2);
    assert_eq!(selected(&app), Some("10.0.0.3:1000".to_string()));
    app.handle_key(key(KeyCode::Up));
    assert_eq!(app.selected_connection_idx, 1);
    app.selected_connection_idx = 7;
    app.handle_key(key(KeyCode::Down));
    assert_eq!(app.selected_connection_idx, 2);
    app.selected_connection_idx = 7;
    app.handle_key(key(KeyCode::Up));
    assert_eq!(app.selected_connection_idx, 2);
    let mut empty = App::new();
    assert_eq!(empty.handle_key(key(KeyCode::Down)), None);
    assert_eq!(empty.handle_key(key(KeyCode::Up)), None);
    assert_eq!(empty.handle_key(key(KeyCode::Enter)), None);
    assert_eq!(empty.mode, ViewMode::Overview);
    assert!(empty.selected_connection.is_none());
}

#[test]
fn views_follow_one_another() {
    let mut app = app_with(&[1]);
    app.handle_key(key(KeyCode::Enter));
    assert_eq!(app.mode, ViewMode::ConnectionDetails);
    assert_eq!(app.handle_key(key(KeyCode::Char('r'))), None);
    app.handle_key(key(KeyCode::Char('p')));
    assert_eq!(app.mode, ViewMode::ProcessDetails);
    assert_eq!(app.handle_key(key(KeyCode::Char('p'))), None);
    assert_eq!(app.mode, ViewMode::ProcessDetails);
    app.handle_key(key(KeyCode::Esc));
    assert_eq!(app.mode, ViewMode::ConnectionDetails);
    app.handle_key(key(KeyCode::Char('p')));
    assert_eq!(app.handle_key(key(KeyCode::Char('q'))), None);
    assert_eq!(app.mode, ViewMode::ConnectionDetails);
    app.handle_key(key(KeyCode::Char('q')));
    assert_eq!(app.mode, ViewMode::Overview);
    app.handle_key(key(KeyCode::Enter));
    app.handle_key(key(KeyCode::Esc));
    assert_eq!(app.mode, ViewMode::Overview);
    for back in [KeyCode::Esc, KeyCode::Char('q'), KeyCode::Char('h')] {
        app.handle_key(key(KeyCode::Char('h')));
        assert_eq!(app.mode, ViewMode::Help);
        assert_eq!(app.handle_key(key(KeyCode::Down)), None);
        assert_eq!(app.mode, ViewMode::Help);
        assert_eq!(app.handle_key(key(back)), None);
        assert_eq!(app.mode, ViewMode::Overview);
    }
}

#[test]
fn selection_stays_on_its_flow() {
    let mut app = app_with(&[1, 2, 3]);
    app.handle_key(key(KeyCode::Down));
    app.handle_key(key(KeyCode::Down));
    assert_eq!(selected(&app), Some("10.0.0.3:1000".to_string()));
    let mut moved = flow(3);
    moved.bytes_sent = 77;
    app.on_tick(vec![flow(9), moved, flow(1)]);
    assert_eq!(app.selected_connection_idx, 1);
    assert_eq!(app.selected_connection.as_ref().unwrap().bytes_sent, 77);
    assert_eq!(app.find_connection_index(&flow(1)), Some(2));
    assert_eq!(app.find_connection_index(&flow(2)), None);
    app.refresh(vec![flow(4), flow(5)]);
    assert_eq!(app.selected_connection_idx, 0);
    assert_eq!(selected(&app), Some("10.0.0.4:1000".to_string()));
    app.on_tick(Vec::new());
    assert_eq!(app.selected_connection_idx, 0);
    assert!(app.selected_connection.is_none());
    app.refresh(vec![flow(6)]);
    assert!(app.selected_connection.is_none());
    assert_eq!(app.connections.len(), 1);
    app.on_tick(vec![flow(7), flow(6)]);
    assert_eq!(selected(&app), Some("10.0.0.7:1000".to_string()));
}

#[test]
fn looked_up_process_is_kept() {
    let mut app = app_with(&[1, 2]);
    app.handle_key(key(KeyCode::Down));
    assert!(app.cached_process_for_selected_connection().is_none());
    let p = Process {
        pid: 4242,
        name: "curl".to_string(),
        command_line: None,
        user: None,
        memory_usage: None,
    };
    let kept = app.get_process_for_selected_connection(p).unwrap();
    assert_eq!(kept.pid, 4242);
    assert_eq!(kept.name, "curl");
    assert_eq!(app.connections[1].pid, Some(4242));
    assert_eq!(app.connections[1].process_name, Some("curl".to_string()));
    assert!(app.connections[0].pid.is_none());
    assert_eq!(app.processes.len(), 1);
    let cached = app.cached_process_for_selected_connection().unwrap();
    assert_eq!(cached.pid, 4242);
    assert_eq!(cached.name, "curl");
    app.selected_connection_idx = 5;
    assert!(app.cached_process_for_selected_connection().is_none());
    let q = Process { pid: 1, name: "x".to_string(), command_line: None, user: None, memory_usage: None };
    assert!(app.get_process_for_selected_connection(q).is_none());
    assert_eq!(app.processes.len(), 1);
}

#[test]
fn addresses_are_shown_with_host_names() {
    let mut app = App::new();
    let dns = SocketAddress::new(IpAddress::V4(8, 8, 8, 8), 53);
    let lo = SocketAddress::new(IpAddress::V4(127, 0, 0, 1), 631);
    let lo6 = SocketAddress::new(IpAddress::V6(1), 631);
    let any = SocketAddress::new(IpAddress::V4(0, 0, 0, 0), 68);
    let other = SocketAddress::new(IpAddress::V4(1, 1, 1, 1), 443);
    app.cache_host_name(dns.ip, "dns.google".to_string());
    app.cache_host_name(dns.ip, "later.example".to_string());
    app.cache_host_name(lo.ip, "myself".to_string());
    assert_eq!(app.format_socket_addr(dns), "8.8.8.8:53");
    assert_eq!(app.format_socket_addr(lo6), "[::1]:631");
    app.handle_key(key(KeyCode::Char('d')));
    assert!(app.show_hostnames);
    assert_eq!(app.dns_cache.len(), 3);
    assert_eq!(app.format_socket_addr(dns), "dns.google:53");
    assert_eq!(app.format_socket_addr(lo), "myself:631");
    assert_eq!(app.format_socket_addr(lo6), "localhost:631");
    assert_eq!(app.format_socket_addr(any), "*:68");
    assert_eq!(app.format_socket_addr(other), "1.1.1.1:443");
    app.handle_key(key(KeyCode::Char('d')));
    assert!(!app.show_hostnames);
    assert!(app.dns_cache.is_empty());
    app.handle_key(key(KeyCode::Char('d')));
    assert_eq!(app.format_socket_addr(dns), "8.8.8.8:53");
    assert_eq!(app.format_socket_addr(lo), "localhost:631");
}
