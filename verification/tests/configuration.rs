use eas_attestor::config::{
    easscan_address_url, effective_chain, load_signer, network_defaults, opt_addr, opt_bytes32,
    resolve_rpcs, resolve_secrets, string_array,
};
use eas_attestor::json::{parse, Json};

fn read(text: &str) -> Json {
    parse(text.as_bytes()).unwrap()
}

fn env(pairs: &[(&str, &str)]) -> Vec<(String, String)> {
    pairs.iter().map(|(k, v)| (k.to_string(), v.to_string())).collect()
}

#[test]
fn lists_of_texts() {
    let v = read("{\"rpcs\":[\"a\",1,\"b\",null],\"x\":\"y\"}");
    assert_eq!(string_array(&v, "rpcs").unwrap(), vec!["a", "b"]);
    assert_eq!(string_array(&v, "x").unwrap_err(), "x must be an array");
    assert_eq!(string_array(&v, "z").unwrap_err(), "z must be an array");
}

#[test]
fn secrets_are_substituted() {
    let vars = env(&[("KEY", "k1"), ("KEY", "k2"), ("", "empty")]);
    let r = |url: &str| resolve_secrets(url, &vars);
    assert_eq!(r("https://plain/$x{y}").unwrap(), "https://plain/$x{y}");
    assert_eq!(r("https://h/${KEY}/x").unwrap(), "https://h/k1/x");
    assert_eq!(r("${KEY}${KEY}").unwrap(), "k1k1");
    assert_eq!(r("$${KEY}}").unwrap(), "$k1}");
    assert_eq!(r("${}").unwrap(), "empty");
}

#[test]
fn secrets_that_cannot_be_substituted() {
    let r = |url: &str| resolve_secrets(url, &[]).unwrap_err();
    assert_eq!(r("a${KEY"), "unterminated ${...} in RPC URL: a${KEY");
    assert_eq!(r("a${KEY}"), "RPC URL references secret \"KEY\" which is not set");
    let urls = ["x".to_string(), "${A}".to_string(), "${B".to_string()];
    assert_eq!(
        resolve_rpcs(&urls, &[]).unwrap_err(),
        "RPC URL references secret \"A\" which is not set"
    );
    let vars = env(&[("A", "y")]);
    assert_eq!(resolve_rpcs(&urls[..2], &vars).unwrap(), vec!["x", "y"]);
}

#[test]
fn substituted_values_are_not_substituted_again() {
    let vars = env(&[("A", "${B}"), ("B", "no")]);
    assert_eq!(resolve_secrets("${A}", &vars).unwrap(), "${B}");
}

#[test]
fn presets_of_the_known_networks() {
    let ids = [
        ("base", 8453),
        ("base-sepolia", 84532),
        ("optimism", 10),
        ("arbitrum", 42161),
        ("ethereum", 1),
        ("sepolia", 11155111),
    ];
    for (name, id) in ids {
        assert_eq!(network_defaults(name).unwrap().chain_id, id);
    }
    let net = network_defaults("sepolia").unwrap();
    assert_eq!(net.eas, "0xC2679fBD37d54388Ce493F1DB75320D236e1815e");
    assert_eq!(net.registry, "0x0a7E2Ff54e76B8E6659aedc9103FB21c038050D0");
    assert_eq!(net.rpcs[2], "https://1rpc.io/sepolia");
    assert!(network_defaults("mainnet").is_none());
}

#[test]
fn a_preset_fills_only_the_gaps() {
    let c = effective_chain(&read("{\"network\":\"base\",\"eas\":\"0x1\",\"rpcs\":7,\"z\":1}"))
        .ok()
        .unwrap();
    assert_eq!(c.text_at("eas"), Some("0x1"));
    assert_eq!(c.number_at("rpcs"), Some(7));
    assert_eq!(c.number_at("z"), Some(1));
    assert_eq!(c.number_at("chain_id"), Some(8453));
    assert_eq!(
        c.text_at("schema_registry"),
        Some("0x4200000000000000000000000000000000000020")
    );
    let c = effective_chain(&read("{\"network\":\"base\"}")).ok().unwrap();
    assert_eq!(string_array(&c, "rpcs").unwrap().len(), 3);
}

#[test]
fn a_chain_without_network_stays_as_it_is() {
    let c = effective_chain(&read("{\"network\":1,\"rpcs\":[]}")).ok().unwrap();
    assert_eq!(c.render(), "{\"network\":1,\"rpcs\":[]}");
    assert_eq!(effective_chain(&Json::Null).ok().unwrap().render(), "null");
}

#[test]
fn unknown_networks_are_refused() {
    assert_eq!(
        effective_chain(&read("{\"network\":\"moon\"}")).err().unwrap(),
        "unknown network \"moon\"; known: base, base-sepolia, optimism, arbitrum, ethereum, sepolia"
    );
}

#[test]
fn optional_values_default_to_zero() {
    let v = read("{\"a\":\"0x0\",\"b\":\"\",\"c\":5,\"d\":\"0x12\"}");
    for key in ["a", "b", "c", "none"] {
        assert_eq!(opt_addr(&v, key).unwrap(), [0; 20]);
        assert_eq!(opt_bytes32(&v, key).unwrap(), [0; 32]);
    }
    assert_eq!(opt_addr(&v, "d").unwrap_err(), "expected 20-byte address, got 1 bytes");
    assert_eq!(opt_bytes32(&v, "d").unwrap_err(), "expected 32 bytes, got 1 bytes");
}

#[test]
fn the_key_is_looked_up_by_name() {
    let key = format!("0x{}1", "0".repeat(63));
    let vars = env(&[("PROTECTED_EAS_KEY", "zz"), ("MY_KEY", &key)]);
    let s = load_signer(&read("{\"key_env\":\"MY_KEY\"}"), &vars).ok().unwrap();
    assert_eq!(s.address[0], 0x7e);
    assert_eq!(
        load_signer(&Json::Null, &vars).err().unwrap(),
        "bad hex \"zz\": Invalid character 'z' at position 0"
    );
    assert_eq!(
        load_signer(&read("{\"key_env\":\"NO\"}"), &vars).err().unwrap(),
        "secret env var \"NO\" is not set for this execution"
    );
}

#[test]
fn explorer_pages() {
    let a = [0x11; 20];
    let page = |id: u64| easscan_address_url(&id, &a);
    let hex = "11".repeat(20);
    assert_eq!(page(1).unwrap(), format!("https://easscan.org/address/0x{}", hex));
    assert_eq!(page(84532).unwrap(), format!("https://base-sepolia.easscan.org/address/0x{}", hex));
    for id in [11155111, 8453, 42161, 10] {
        assert!(page(id).is_some());
    }
    assert!(page(5).is_none());
}
