use radicle_httpd::listen::{parse_listen, ListenAddress, ListenError};

fn path_of(a: ListenAddress) -> Option<String> {
    match a {
        ListenAddress::Unix(p) => Some(p),
        ListenAddress::Tcp(_) => None,
    }
}

fn addr_of(a: ListenAddress) -> Option<String> {
    match a {
        ListenAddress::Tcp(s) => Some(s),
        ListenAddress::Unix(_) => None,
    }
}

#[test]
fn socket_path_is_local() {
    let a = parse_listen("/tmp/x.sock").ok().unwrap();
    assert_eq!(path_of(a), Some("/tmp/x.sock".to_string()));
}

#[test]
fn host_and_port_is_network() {
    let a = parse_listen("127.0.0.1:9000").ok().unwrap();
    assert_eq!(addr_of(a), Some("127.0.0.1:9000".to_string()));
}

#[test]
fn unix_prefix_is_stripped() {
    let a = parse_listen("unix:/tmp/x.sock").ok().unwrap();
    assert_eq!(path_of(a), Some("/tmp/x.sock".to_string()));
}

#[test]
fn refused_listen_values() {
    assert_eq!(parse_listen("unix:").err(), Some(ListenError::EmptyPath));
    assert_eq!(parse_listen("localhost").err(), Some(ListenError::Unrecognized));
    assert_eq!(parse_listen("").err(), Some(ListenError::Unrecognized));
}

#[test]
fn listen_urls() {
    assert_eq!(ListenAddress::Tcp("0.0.0.0:8080".to_string()).to_url(), "http://0.0.0.0:8080");
    assert_eq!(ListenAddress::Unix("/tmp/x.sock".to_string()).to_url(), "unix:///tmp/x.sock");
}
