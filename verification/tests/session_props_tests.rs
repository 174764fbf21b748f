use mcproto::handshake;
use mcproto::props;
use mcproto::props::{PropLine, PropParseError};
use mcproto::protocol::ProtocolState;
use mcproto::session::{ProtocolError, Session};

fn ping(next_state: ProtocolState) -> handshake::Serverbound {
    handshake::Serverbound::ServerListPing {
        version: 498,
        host: "localhost".to_string(),
        port: 25567,
        next_state,
    }
}

#[test]
fn handshake_to_status_advances() {
    let session = Session::create();
    let status = session.advance(&ping(ProtocolState::Status)).expect("status accepted");
    assert_eq!(status.version, 498);
    assert_eq!(status.host, "localhost");
    assert_eq!(status.port, 25567);
}

#[test]
fn login_refused() {
    // next_state 0 (or anything other than Status) does not advance
    let session = Session::create();
    let err = session.advance(&ping(ProtocolState::Handshake)).unwrap_err();
    assert_eq!(err, ProtocolError::LoginUnsupported);
    assert_eq!(err.message(), "login not supported");
}

#[test]
fn login_refused_on_wire_index_two() {
    // a handshake body asking for state 2 is already refused by the decoder
    let mut body = ping(ProtocolState::Status).into_raw().unwrap().0;
    let last = body.len() - 1;
    body[last] = 0x02;
    assert!(handshake::Serverbound::decode(&body).is_err());
}

#[test]
fn prop_line_parsing() {
    assert_eq!(props::parse_prop_line("# a comment"), Ok(PropLine::Comment));
    assert_eq!(
        props::parse_prop_line("key=value"),
        Ok(PropLine::Prop("key".to_string(), "value".to_string()))
    );
    assert_eq!(
        props::parse_prop_line("key=a=b"),
        Ok(PropLine::Prop("key".to_string(), "a=b".to_string()))
    );
    assert_eq!(
        props::parse_prop_line("empty="),
        Ok(PropLine::Prop("empty".to_string(), "".to_string()))
    );
    assert_eq!(props::parse_prop_line("no separator"), Err(PropParseError::NoValue));
    assert_eq!(props::parse_prop_line(""), Err(PropParseError::NoValue));
}

#[test]
fn read_properties_last_wins() {
    let lines: Vec<String> = [
        "# server settings",
        "server-port=25565",
        "motd=hello",
        "server-port=1234",
    ]
    .iter()
    .map(|s| s.to_string())
    .collect();
    let ps = props::read_properties(&lines).expect("all lines parse");
    assert_eq!(
        props::get_prop(&ps, "server-port"),
        Some("1234".to_string())
    );
    assert_eq!(props::get_prop(&ps, "motd"), Some("hello".to_string()));
    assert_eq!(props::get_prop(&ps, "absent"), None);
}

#[test]
fn read_properties_propagates_error() {
    let lines: Vec<String> = ["a=1", "broken line"].iter().map(|s| s.to_string()).collect();
    assert_eq!(props::read_properties(&lines), Err(PropParseError::NoValue));
}

#[test]
fn parse_u16_values() {
    assert_eq!(props::parse_u16("0"), Some(0));
    assert_eq!(props::parse_u16("25565"), Some(25565));
    assert_eq!(props::parse_u16("65535"), Some(65535));
    assert_eq!(props::parse_u16("+80"), Some(80));
    assert_eq!(props::parse_u16("65536"), None);
    assert_eq!(props::parse_u16(""), None);
    assert_eq!(props::parse_u16("+"), None);
    assert_eq!(props::parse_u16("12a"), None);
    assert_eq!(props::parse_u16("-1"), None);
}

#[test]
fn portauth_defaults_and_values() {
    let lines: Vec<String> =
        ["rcon.port=25575", "rcon.password=swordfish"].iter().map(|s| s.to_string()).collect();
    let ps = props::read_properties(&lines).unwrap();
    assert_eq!(
        props::read_portauth(&ps),
        Some((25575, "swordfish".to_string()))
    );

    let empty: Vec<(String, String)> = Vec::new();
    assert_eq!(props::read_portauth(&empty), Some((0, "".to_string())));
}

#[test]
fn server_port_default() {
    let empty: Vec<(String, String)> = Vec::new();
    assert_eq!(props::get_server_port(&empty), Some(25565));
    let lines: Vec<String> = ["server-port=abc"].iter().map(|s| s.to_string()).collect();
    let ps = props::read_properties(&lines).unwrap();
    assert_eq!(props::get_server_port(&ps), None);
}

#[test]
fn serverprops_path() {
    assert_eq!(
        props::find_serverprops(Some("/mc")),
        Some("/mc/server.properties".to_string())
    );
    assert_eq!(props::find_serverprops(None), None);
}
