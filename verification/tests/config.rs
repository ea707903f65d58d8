use mc_http::config::ConfigData;
use mc_http::parser::UnifiedHandshakeFormat;

fn config() -> ConfigData {
    ConfigData {
        port: 25565,
        default: "lobby:25565".to_string(),
        servers: vec![
            ("play.example.com".to_string(), "survival:25565".to_string()),
            ("creative.example.com".to_string(), "creative:25565".to_string()),
        ],
    }
}

#[test]
fn mapped_hostname_goes_to_its_server() {
    let c = config();
    let h = UnifiedHandshakeFormat { hostname: "creative.example.com".to_string() };
    assert_eq!(c.server_for(Some(&h)), "creative:25565");
}

#[test]
fn unmapped_hostname_goes_to_default() {
    let c = config();
    let h = UnifiedHandshakeFormat { hostname: "other.example.com".to_string() };
    assert_eq!(c.server_for(Some(&h)), "lobby:25565");
}

#[test]
fn unrecognized_handshake_goes_to_default() {
    let c = config();
    assert_eq!(c.server_for(None), "lobby:25565");
}
