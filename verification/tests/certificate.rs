use agapornis_agent::certificate::{
    check_client, check_facts, check_fingerprint, check_previous, clock_skew, constant_fingerprint,
    previous, replacement, validate_certificate, CertificateFacts,
};
use agapornis_agent::services::authorization::{authorize, authorize_master};
use agapornis_agent::services::responses::Code;

const NOW: i64 = 1_784_520_733;

const CA: &str = "\
-----BEGIN CERTIFICATE-----\n\
MIIBQTCB6aADAgECAhQLiQKU93nN6xHVqfMSv/g0SAFitTAKBggqhkjOPQQDAjAX\n\
MRUwEwYDVQQDDAxBZ2Fwb3JuaXMgQ0EwHhcNMjUwMTAxMDAwMDAwWhcNMzUwMTAx\n\
MDAwMDAwWjAXMRUwEwYDVQQDDAxBZ2Fwb3JuaXMgQ0EwWTATBgcqhkjOPQIBBggq\n\
hkjOPQMBBwNCAAQiSS4UD5BYT1aHnfnmSoZJL1OiCxo6mgKmyn/a+9phNdjORu6v\n\
wQPuZxKW4t05DQex1fD7pg+phcywblTM87t0oxMwETAPBgNVHRMBAf8EBTADAQH/\n\
MAoGCCqGSM49BAMCA0cAMEQCIAITN7E/Fn7DNvaYcIl9sy60Lyp8f/d+nHgtg10x\n\
zzb9AiA7aW7peJ29onjO0JJtuvNNqKdEa4cC386itBfnxUfVGA==\n\
-----END CERTIFICATE-----\n";

const OTHER_CA: &str = "\
-----BEGIN CERTIFICATE-----\n\
MIIBOjCB4aADAgECAhRGBS+sXMRCnp24ECGtsB3pwNrgBzAKBggqhkjOPQQDAjAT\n\
MREwDwYDVQQDDAhPdGhlciBDQTAeFw0yNTAxMDEwMDAwMDBaFw0zNTAxMDEwMDAw\n\
MDBaMBMxETAPBgNVBAMMCE90aGVyIENBMFkwEwYHKoZIzj0CAQYIKoZIzj0DAQcD\n\
QgAE0cuyzOQo4S7HdY2vPExaVUknngmKc+SBJpNPhnbg6WynGmQzkGXdxgTHpBYi\n\
Ws0T0HwUtmIvNgbh+VvHuMTwnqMTMBEwDwYDVR0TAQH/BAUwAwEB/zAKBggqhkjO\n\
PQQDAgNIADBFAiByyyMjPP5vWzPcr4kfQMsqIJom9+oQpZlwvCJuiub4NgIhAK/m\n\
GcoZzJ98SaWUko3bfCzLoN0q6JrhbDZBApXLvloZ\n\
-----END CERTIFICATE-----\n";

const NODE: &str = "\
-----BEGIN CERTIFICATE-----\n\
MIIBQDCB56ADAgECAhQGNUY1bYae1vrplUe0wcgBfaWG8DAKBggqhkjOPQQDAjAX\n\
MRUwEwYDVQQDDAxBZ2Fwb3JuaXMgQ0EwHhcNMjUwMTAxMDAwMDAwWhcNMzUwMTAx\n\
MDAwMDAwWjARMQ8wDQYDVQQDDAZub2RlLTEwWTATBgcqhkjOPQIBBggqhkjOPQMB\n\
BwNCAAS4+XGU9es7LTpe2kI0l5f2AzGIJtsD3JGtzLlTvNT+1PdcwQKfbclah8Ci\n\
m3X2TQ3KfiuI3HYA2wg3blniBx30oxcwFTATBgNVHSUEDDAKBggrBgEFBQcDATAK\n\
BggqhkjOPQQDAgNIADBFAiBNrS+REvkfxg1iBJq2/puEuda46+zAAd+MDC3azj21\n\
YAIhAJCCUGGTkcc22DAo3lM/6kNvjAAaIM3qtVfSOXL8WP1C\n\
-----END CERTIFICATE-----\n";

const NODE_WITHOUT_USE: &str = "\
-----BEGIN CERTIFICATE-----\n\
MIIBKDCBzqADAgECAhQaV5qZCZ+fmWG8HUoai1w0DyxKmDAKBggqhkjOPQQDAjAX\n\
MRUwEwYDVQQDDAxBZ2Fwb3JuaXMgQ0EwHhcNMjUwMTAxMDAwMDAwWhcNMzUwMTAx\n\
MDAwMDAwWjARMQ8wDQYDVQQDDAZub2RlLTEwWTATBgcqhkjOPQIBBggqhkjOPQMB\n\
BwNCAAS4+XGU9es7LTpe2kI0l5f2AzGIJtsD3JGtzLlTvNT+1PdcwQKfbclah8Ci\n\
m3X2TQ3KfiuI3HYA2wg3blniBx30MAoGCCqGSM49BAMCA0kAMEYCIQCHlDlFfWTW\n\
UHjrzE9qy27NdIZ3Ga49J0Amic4sMxNZQAIhAN+pGZlC/fXsBGyRnEvtGV4BlWC2\n\
wtBOjFigDtUHuQaT\n\
-----END CERTIFICATE-----\n";

const NODE_CLIENT: &str = "\
-----BEGIN CERTIFICATE-----\n\
MIIBPzCB56ADAgECAhRK7LakG/Oaz5zqm3zaPxcjQsnYWjAKBggqhkjOPQQDAjAX\n\
MRUwEwYDVQQDDAxBZ2Fwb3JuaXMgQ0EwHhcNMjUwMTAxMDAwMDAwWhcNMzUwMTAx\n\
MDAwMDAwWjARMQ8wDQYDVQQDDAZub2RlLTEwWTATBgcqhkjOPQIBBggqhkjOPQMB\n\
BwNCAAS4+XGU9es7LTpe2kI0l5f2AzGIJtsD3JGtzLlTvNT+1PdcwQKfbclah8Ci\n\
m3X2TQ3KfiuI3HYA2wg3blniBx30oxcwFTATBgNVHSUEDDAKBggrBgEFBQcDAjAK\n\
BggqhkjOPQQDAgNHADBEAiAj9YcwGB0T3/hfhjleFw4yMIezlYgi54OYehAvJX8L\n\
ZAIgBChUJP5Hv1Y4qDBNn0EXBv93s3jF3+6Av3Kvm/tQ6G8=\n\
-----END CERTIFICATE-----\n";

const NODE_FINGERPRINT: &str =
    "12a3f0692b3225d1283e31ece8dec41426b930c2db2070b8dca280fcaa4c9ab5";

const MASTER: &str = "\
    308201493081f1a00302010202146ce0344d1ab823e18399cd2e01b09c6d60971fab300a06082a8648ce3d0403\
    0230173115301306035504030c0c416761706f726e6973204341301e170d3235303130313030303030305a170d\
    3335303130313030303030305a301b3119301706035504030c10616761706f726e69732d6d6173746572305930\
    1306072a8648ce3d020106082a8648ce3d03010703420004b8f97194f5eb3b2d3a5eda42349797f603318826db\
    03dc91adccb953bcd4fed4f75cc1029f6dc95a87c0a29b75f64d0dca7e2b88dc7600db08376e59e2071df4a317\
    301530130603551d25040c300a06082b06010505070302300a06082a8648ce3d040302034700304402202ed670\
    6f115a3cdad6b999962346144ea0a56d693a59ce837ab96e5effc4cea302202f5a2ff81488977e7c5c60654409\
    977f7c446eb0eb41f32ab998a60a74414e7f";

const MASTER_SERVER: &str = "\
    3082014b3081f1a00302010202142cff72437f334b0ecb0c76a6399ef408a11d5dc7300a06082a8648ce3d0403\
    0230173115301306035504030c0c416761706f726e6973204341301e170d3235303130313030303030305a170d\
    3335303130313030303030305a301b3119301706035504030c10616761706f726e69732d6d6173746572305930\
    1306072a8648ce3d020106082a8648ce3d03010703420004b8f97194f5eb3b2d3a5eda42349797f603318826db\
    03dc91adccb953bcd4fed4f75cc1029f6dc95a87c0a29b75f64d0dca7e2b88dc7600db08376e59e2071df4a317\
    301530130603551d25040c300a06082b06010505070301300a06082a8648ce3d0403020349003046022100c251\
    b974ae6490d2ff304513699e64b78c880f880269884e3fce422c8c0bda16022100931f14ab89c19aaa2eee6152\
    fa28b06773d07d13bbdd25b3d2d28292af8cc167";

fn bytes(hex: &str) -> Vec<u8> {
    (0..hex.len() / 2).map(|i| u8::from_str_radix(&hex[2 * i..2 * i + 2], 16).unwrap()).collect()
}

fn facts(name: &str, server: bool, client: bool) -> CertificateFacts {
    CertificateFacts {
        not_before: 1000,
        not_after: 2000,
        common_names: vec![Some(name.to_string())],
        uses: vec![None, Some((server, client))],
    }
}

#[test]
fn certificates_of_the_node_are_accepted() {
    assert_eq!(validate_certificate(NODE, CA, "node-1", NOW, 300).unwrap(), NODE_FINGERPRINT);
    assert_eq!(validate_certificate(NODE, CA, "", NOW, 300).unwrap(), NODE_FINGERPRINT);
}

#[test]
fn refused_certificates_are_explained() {
    let refusal = |pem: &str, ca: &str, node: &str, now| {
        validate_certificate(pem, ca, node, now, 300).unwrap_err().message
    };
    let not_x509 = "-----BEGIN CERTIFICATE-----\nAAAA\n-----END CERTIFICATE-----\n";
    assert_eq!(refusal("", CA, "node-1", NOW), "invalid certificate PEM");
    assert_eq!(refusal(not_x509, CA, "node-1", NOW), "invalid X.509 certificate");
    assert_eq!(refusal(NODE, "x", "node-1", NOW), "invalid CA certificate PEM");
    assert_eq!(refusal(NODE, not_x509, "node-1", NOW), "invalid CA certificate");
    assert_eq!(
        refusal(NODE, OTHER_CA, "node-1", NOW),
        "certificate is not signed by the configured Agapornis CA"
    );
    assert_eq!(refusal(NODE, CA, "node-1", 1_735_689_600 - 301), "certificate is not currently valid");
    assert_eq!(refusal(NODE, CA, "node-1", 2_051_222_400 + 301), "certificate is not currently valid");
    assert_eq!(
        refusal(NODE, CA, "node-2", NOW),
        "agent certificate common name must equal node id 'node-2'"
    );
    for pem in [NODE_WITHOUT_USE, NODE_CLIENT] {
        assert_eq!(
            refusal(pem, CA, "node-1", NOW),
            "agent certificate does not permit TLS server authentication"
        );
    }
}

#[test]
fn clocks_may_differ() {
    assert!(validate_certificate(NODE, CA, "node-1", 1_735_689_600 - 300, 300).is_ok());
    assert!(validate_certificate(NODE, CA, "node-1", 2_051_222_400 + 300, 300).is_ok());
    assert_eq!(clock_skew(None), 300);
    assert_eq!(clock_skew(Some("0")), 0);
    assert_eq!(clock_skew(Some("3601")), 300);
    assert_eq!(clock_skew(Some("-1")), 300);
    assert!(check_facts(&facts("a", true, false), "a", i64::MAX, 300).is_err());
}

#[test]
fn the_last_extension_about_uses_counts() {
    let mut both = facts("agapornis-master", true, false);
    both.uses.push(Some((false, true)));
    both.uses.push(None);
    assert!(check_client(&both).is_ok());
    assert!(check_facts(&both, "", 1500, 0).is_err());
    both.common_names.insert(0, None);
    assert!(check_client(&both).is_err());
}

#[test]
fn only_the_master_is_let_in() {
    assert!(authorize_master(Some(&bytes(MASTER))).is_ok());
    let refused = |der: Option<&[u8]>| {
        let status = authorize_master(der).unwrap_err();
        (status.code, status.message)
    };
    assert_eq!(
        refused(None),
        (Code::Unauthenticated, "mTLS client certificate is required".to_string())
    );
    assert_eq!(
        refused(Some(b"nonsense")),
        (Code::Unauthenticated, "invalid client certificate".to_string())
    );
    assert_eq!(
        refused(Some(&bytes(MASTER_SERVER))),
        (Code::PermissionDenied, "client certificate is missing clientAuth usage".to_string())
    );
    let other = authorize(Some(facts("agapornis-mastery", false, true))).unwrap_err();
    assert_eq!(other.code, Code::PermissionDenied);
    assert_eq!(other.message, "client certificate is not authorized");
}

#[test]
fn fingerprints_are_compared_however_they_are_written() {
    assert!(constant_fingerprint("AB:cd:01", " abCD01 "));
    assert!(!constant_fingerprint("ab", "ac"));
    assert!(!constant_fingerprint("ab", "abc"));
    assert!(check_fingerprint("ab", "AB").is_ok());
    assert_eq!(
        check_fingerprint("ab", "cd").unwrap_err().message,
        "certificate fingerprint did not match expected fingerprint"
    );
}

#[test]
fn a_bundle_is_replaced_as_a_whole() {
    assert_eq!(previous("certs/agent.crt"), "certs/agent.crt.previous");
    assert_eq!(replacement("certs/agent.crt"), "certs/agent.crt.new");
    assert!(check_previous(true, true, true).is_ok());
    assert_eq!(
        check_previous(true, false, true).unwrap_err().message,
        "previous certificate bundle is not available"
    );
}
