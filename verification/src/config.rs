//! What a job's configuration says: secrets in URLs, network presets, optional fields.

use vstd::prelude::*;
use vstd::string::*;

use crate::abi::{hex_0x, hex_address, hex_to_array20, hex_to_array32, hex_word, to_hex_0x};
use crate::bytes::zeros;
use crate::env::{lookup, var_in, variables};
use crate::json::{array_at, json_models, member, text_array, text_at, with_member, Json, JsonModel};
use crate::sign::{address_of, secret_in, Signer};
use crate::text::{first_at, marker_at, quoted, quoted_text, same, split_marker, split_once, texts};

verus! {

// ---- lists of texts -------------------------------------------------------------------

/// Those of the first `n` items that are texts.
pub open spec fn texts_upto(items: Seq<JsonModel>, n: nat) -> Seq<Seq<char>>
    decreases n,
{
    if n == 0 {
        Seq::empty()
    } else {
        match items[n - 1] {
            JsonModel::Str(s) => texts_upto(items, (n - 1) as nat).push(s),
            _ => texts_upto(items, (n - 1) as nat),
        }
    }
}

/// The texts in the list under the given name.
pub open spec fn texts_at(v: JsonModel, key: Seq<char>) -> Result<Seq<Seq<char>>, Seq<char>> {
    match array_at(v, key) {
        Some(items) => Ok(texts_upto(items, items.len())),
        None => Err(key + " must be an array"@),
    }
}

/// The texts in the list under the given name; what is no text is passed over.
pub fn string_array(v: &Json, key: &str) -> (r: Result<Vec<String>, String>)
    ensures
        match r {
            Ok(list) => texts_at(v@, key@) == Ok::<Seq<Seq<char>>, Seq<char>>(texts(list@)),
            Err(e) => texts_at(v@, key@) == Err::<Seq<Seq<char>>, Seq<char>>(e@),
        },
{
    match v.array_at(key) {
        None => {
            let mut e = key.to_owned();
            e.append(" must be an array");
            Err(e)
        },
        Some(items) => {
            let ghost models = json_models(items@);
            let mut list: Vec<String> = Vec::new();
            let mut i: usize = 0;
            assert(texts(list@) =~= Seq::<Seq<char>>::empty());
            while i < items.len()
                invariant
                    i <= items@.len(),
                    models == json_models(items@),
                    texts(list@) == texts_upto(models, i as nat),
                decreases items@.len() - i,
            {
                let ghost before = texts(list@);
                assert(models[i as int] == items@[i as int]@);
                if let Some(s) = items[i].as_str() {
                    list.push(s.to_owned());
                    assert(texts(list@) =~= before.push(s@));
                }
                i += 1;
            }
            Ok(list)
        },
    }
}

// ---- secrets in RPC URLs --------------------------------------------------------------

/// `rest`, which is the end of `url`, with every `${NAME}` replaced by the variable it names.
pub open spec fn resolved_from(
    url: Seq<char>,
    rest: Seq<char>,
    env: Seq<(Seq<char>, Seq<char>)>,
) -> Result<Seq<char>, Seq<char>>
    decreases rest.len(),
{
    let start = marker_at(rest);
    if start < 0 || start + 2 > rest.len() {
        Ok(rest)
    } else {
        let after = rest.skip(start + 2);
        let end = first_at(after, '}');
        if end < 0 || end >= after.len() {
            Err("unterminated ${...} in RPC URL: "@ + url)
        } else {
            let name = after.take(end);
            match var_in(env, name) {
                None => Err(
                    "RPC URL references secret "@ + quoted_text(name) + " which is not set"@,
                ),
                Some(value) => match resolved_from(url, after.skip(end + 1), env) {
                    Ok(tail) => Ok(rest.take(start) + value + tail),
                    Err(e) => Err(e),
                },
            }
        }
    }
}

/// `url` with every `${NAME}` replaced by the variable it names.
pub open spec fn resolved(url: Seq<char>, env: Seq<(Seq<char>, Seq<char>)>) -> Result<
    Seq<char>,
    Seq<char>,
> {
    resolved_from(url, url, env)
}

/// The first `n` URLs with their secrets; the error of the first that has one.
pub open spec fn resolved_upto(
    urls: Seq<Seq<char>>,
    env: Seq<(Seq<char>, Seq<char>)>,
    n: nat,
) -> Result<Seq<Seq<char>>, Seq<char>>
    decreases n,
{
    if n == 0 {
        Ok(Seq::empty())
    } else {
        match resolved_upto(urls, env, (n - 1) as nat) {
            Err(e) => Err(e),
            Ok(earlier) => match resolved(urls[n - 1], env) {
                Err(e) => Err(e),
                Ok(url) => Ok(earlier.push(url)),
            },
        }
    }
}

/// The URLs with their secrets; the error of the first that has one.
pub open spec fn all_resolved(urls: Seq<Seq<char>>, env: Seq<(Seq<char>, Seq<char>)>) -> Result<
    Seq<Seq<char>>,
    Seq<char>,
> {
    resolved_upto(urls, env, urls.len())
}

/// Substitute `${SECRET_NAME}` in an RPC URL with an injected secret (e.g. a provider API key baked
/// into the URL). The secret is an environment variable.
pub fn resolve_secrets(url: &str, env: &[(String, String)]) -> (r: Result<String, String>)
    ensures
        match r {
            Ok(s) => resolved(url@, variables(env@)) == Ok::<Seq<char>, Seq<char>>(s@),
            Err(e) => resolved(url@, variables(env@)) == Err::<Seq<char>, Seq<char>>(e@),
        },
{
    let ghost vars = variables(env@);
    let mut out = String::new();
    let mut rest: &str = url;
    let mut more: bool = true;
    assert(match resolved(url@, vars) {
        Ok(t) => out@ + t =~= t,
        Err(e) => true,
    });
    while more
        invariant
            vars == variables(env@),
            more ==> resolved(url@, vars) == (match resolved_from(url@, rest@, vars) {
                Ok(t) => Ok(out@ + t),
                Err(e) => Err(e),
            }),
            !more ==> resolved(url@, vars) == Ok::<Seq<char>, Seq<char>>(out@),
        decreases
                if more {
                    rest@.len() + 1
                } else {
                    0
                },
    {
        let ghost before = out@;
        let ghost whole = rest@;
        match split_marker(rest) {
            None => {
                out.append(rest);
                more = false;
            },
            Some((head, after)) => {
                out.append(head);
                let (name, tail) = match split_once(after, '}') {
                    Some(parts) => parts,
                    None => {
                        let mut e = "unterminated ${...} in RPC URL: ".to_owned();
                        e.append(url);
                        return Err(e);
                    },
                };
                match lookup(env, name) {
                    Some(value) => {
                        out.append(value);
                        assert(match resolved_from(url@, tail@, vars) {
                            Ok(t) => before + (whole.take(marker_at(whole)) + value@ + t)
                                =~= out@ + t,
                            Err(e) => true,
                        });
                    },
                    None => {
                        let mut e = "RPC URL references secret ".to_owned();
                        e.append(quoted(name).as_str());
                        e.append(" which is not set");
                        return Err(e);
                    },
                }
                rest = tail;
            },
        }
    }
    Ok(out)
}

proof fn lemma_first_unresolved(
    urls: Seq<Seq<char>>,
    env: Seq<(Seq<char>, Seq<char>)>,
    i: nat,
    n: nat,
)
    requires
        i <= n,
        resolved_upto(urls, env, i) is Err,
    ensures
        resolved_upto(urls, env, n) == resolved_upto(urls, env, i),
    decreases n - i,
{
    if i < n {
        lemma_first_unresolved(urls, env, i, (n - 1) as nat);
    }
}

/// Substitute the secrets in each of the URLs.
pub fn resolve_rpcs(rpcs: &[String], env: &[(String, String)]) -> (r: Result<Vec<String>, String>)
    ensures
        ({
            let all = all_resolved(texts(rpcs@), variables(env@));
            match r {
                Ok(list) => all == Ok::<Seq<Seq<char>>, Seq<char>>(texts(list@)),
                Err(e) => all == Err::<Seq<Seq<char>>, Seq<char>>(e@),
            }
        }),
{
    let ghost urls = texts(rpcs@);
    let ghost vars = variables(env@);
    let mut list: Vec<String> = Vec::new();
    let mut i: usize = 0;
    assert(texts(list@) =~= Seq::<Seq<char>>::empty());
    while i < rpcs.len()
        invariant
            i <= rpcs@.len(),
            urls == texts(rpcs@),
            vars == variables(env@),
            resolved_upto(urls, vars, i as nat) == Ok::<Seq<Seq<char>>, Seq<char>>(texts(list@)),
        decreases rpcs@.len() - i,
    {
        let ghost before = texts(list@);
        match resolve_secrets(rpcs[i].as_str(), env) {
            Ok(url) => {
                list.push(url);
                assert(texts(list@) =~= before.push(url@));
            },
            Err(e) => {
                proof {
                    lemma_first_unresolved(urls, vars, (i + 1) as nat, urls.len());
                }
                return Err(e);
            },
        }
        i += 1;
    }
    Ok(list)
}

// ---- networks -------------------------------------------------------------------------

/// A network preset.
pub struct Net {
    pub chain_id: u64,
    pub eas: &'static str,
    pub registry: &'static str,
    pub rpcs: [&'static str; 3],
}

/// What a `Net` holds.
pub struct NetModel {
    pub chain_id: u64,
    pub eas: Seq<char>,
    pub registry: Seq<char>,
    pub rpcs: Seq<Seq<char>>,
}

impl View for Net {
    type V = NetModel;

    open spec fn view(&self) -> NetModel {
        NetModel {
            chain_id: self.chain_id,
            eas: self.eas@,
            registry: self.registry@,
            rpcs: self.rpcs@.map_values(|s: &'static str| s@),
        }
    }
}

/// The presets.
pub open spec fn net_of(name: Seq<char>) -> Option<NetModel> {
    if name == "base"@ {
        Some(
            NetModel {
                chain_id: 8453,
                eas: "0x4200000000000000000000000000000000000021"@,
                registry: "0x4200000000000000000000000000000000000020"@,
                rpcs: seq![
                    "https://mainnet.base.org"@,
                    "https://base.llamarpc.com"@,
                    "https://base.drpc.org"@,
                ],
            },
        )
    } else if name == "base-sepolia"@ {
        Some(
            NetModel {
                chain_id: 84532,
                eas: "0x4200000000000000000000000000000000000021"@,
                registry: "0x4200000000000000000000000000000000000020"@,
                rpcs: seq![
                    "https://sepolia.base.org"@,
                    "https://base-sepolia-rpc.publicnode.com"@,
                    "https://base-sepolia.drpc.org"@,
                ],
            },
        )
    } else if name == "optimism"@ {
        Some(
            NetModel {
                chain_id: 10,
                eas: "0x4200000000000000000000000000000000000021"@,
                registry: "0x4200000000000000000000000000000000000020"@,
                rpcs: seq![
                    "https://mainnet.optimism.io"@,
                    "https://optimism.drpc.org"@,
                    "https://optimism.llamarpc.com"@,
                ],
            },
        )
    } else if name == "arbitrum"@ {
        Some(
            NetModel {
                chain_id: 42161,
                eas: "0xbD75f629A22Dc1ceD33dDA0b68c546A1c035c458"@,
                registry: "0xA310da9c5B885E7fb3fbA9D66E9Ba6Df512b78eB"@,
                rpcs: seq![
                    "https://arb1.arbitrum.io/rpc"@,
                    "https://arbitrum.drpc.org"@,
                    "https://arbitrum.llamarpc.com"@,
                ],
            },
        )
    } else if name == "ethereum"@ {
        Some(
            NetModel {
                chain_id: 1,
                eas: "0xA1207F3BBa224E2c9c3c6D5aF63D0eb1582Ce587"@,
                registry: "0xA7b39296258348C78294F95B872b282326A97BDF"@,
                rpcs: seq![
                    "https://ethereum-rpc.publicnode.com"@,
                    "https://eth.drpc.org"@,
                    "https://rpc.mevblocker.io"@,
                ],
            },
        )
    } else if name == "sepolia"@ {
        Some(
            NetModel {
                chain_id: 11155111,
                eas: "0xC2679fBD37d54388Ce493F1DB75320D236e1815e"@,
                registry: "0x0a7E2Ff54e76B8E6659aedc9103FB21c038050D0"@,
                rpcs: seq![
                    "https://ethereum-sepolia-rpc.publicnode.com"@,
                    "https://sepolia.drpc.org"@,
                    "https://1rpc.io/sepolia"@,
                ],
            },
        )
    } else {
        None
    }
}

/// Convenience presets so `chain.network` alone is enough to target a chain. RPCs are public
/// endpoints and can be overridden with an explicit `chain.rpcs`.
pub fn network_defaults(name: &str) -> (r: Option<Net>)
    ensures
        match r {
            Some(n) => net_of(name@) == Some(n@),
            None => net_of(name@) is None,
        },
{
    let net = if same(name, "base") {
        Net {
            chain_id: 8453,
            eas: "0x4200000000000000000000000000000000000021",
            registry: "0x4200000000000000000000000000000000000020",
            rpcs: [
                "https://mainnet.base.org",
                "https://base.llamarpc.com",
                "https://base.drpc.org",
            ],
        }
    } else if same(name, "base-sepolia") {
        Net {
            chain_id: 84532,
            eas: "0x4200000000000000000000000000000000000021",
            registry: "0x4200000000000000000000000000000000000020",
            rpcs: [
                "https://sepolia.base.org",
                "https://base-sepolia-rpc.publicnode.com",
                "https://base-sepolia.drpc.org",
            ],
        }
    } else if same(name, "optimism") {
        Net {
            chain_id: 10,
            eas: "0x4200000000000000000000000000000000000021",
            registry: "0x4200000000000000000000000000000000000020",
            rpcs: [
                "https://mainnet.optimism.io",
                "https://optimism.drpc.org",
                "https://optimism.llamarpc.com",
            ],
        }
    } else if same(name, "arbitrum") {
        Net {
            chain_id: 42161,
            eas: "0xbD75f629A22Dc1ceD33dDA0b68c546A1c035c458",
            registry: "0xA310da9c5B885E7fb3fbA9D66E9Ba6Df512b78eB",
            rpcs: [
                "https://arb1.arbitrum.io/rpc",
                "https://arbitrum.drpc.org",
                "https://arbitrum.llamarpc.com",
            ],
        }
    } else if same(name, "ethereum") {
        Net {
            chain_id: 1,
            eas: "0xA1207F3BBa224E2c9c3c6D5aF63D0eb1582Ce587",
            registry: "0xA7b39296258348C78294F95B872b282326A97BDF",
            rpcs: [
                "https://ethereum-rpc.publicnode.com",
                "https://eth.drpc.org",
                "https://rpc.mevblocker.io",
            ],
        }
    } else if same(name, "sepolia") {
        Net {
            chain_id: 11155111,
            eas: "0xC2679fBD37d54388Ce493F1DB75320D236e1815e",
            registry: "0x0a7E2Ff54e76B8E6659aedc9103FB21c038050D0",
            rpcs: [
                "https://ethereum-sepolia-rpc.publicnode.com",
                "https://sepolia.drpc.org",
                "https://1rpc.io/sepolia",
            ],
        }
    } else {
        return None;
    };
    assert(net@.rpcs =~= net_of(name@)->0.rpcs);
    Some(net)
}

/// `m`, with the member `key` set to `v` unless it has one of that name.
pub open spec fn with_default(m: JsonModel, key: Seq<char>, v: JsonModel) -> JsonModel {
    if member(m, key) is Some {
        m
    } else {
        with_member(m, key, v)
    }
}

/// `chain` with the fields of the preset that it names, where it does not set them itself.
pub open spec fn preset_filled(chain: JsonModel, net: NetModel) -> JsonModel {
    with_default(
        with_default(
            with_default(
                with_default(chain, "chain_id"@, JsonModel::Unsigned(net.chain_id)),
                "eas"@,
                JsonModel::Str(net.eas),
            ),
            "schema_registry"@,
            JsonModel::Str(net.registry),
        ),
        "rpcs"@,
        text_array(net.rpcs),
    )
}

/// `chain` with the fields of the preset that it names, if it names one.
pub open spec fn chain_in_effect(chain: JsonModel) -> Result<JsonModel, Seq<char>> {
    match text_at(chain, "network"@) {
        None => Ok(chain),
        Some(name) => match net_of(name) {
            Some(net) => Ok(preset_filled(chain, net)),
            None => Err(
                "unknown network "@ + quoted_text(name)
                    + "; known: base, base-sepolia, optimism, arbitrum, ethereum, sepolia"@,
            ),
        },
    }
}

fn set_default(m: &mut Json, key: &str, v: Json)
    ensures
        final(m)@ == with_default(old(m)@, key@, v@),
{
    if m.get(key).is_none() {
        m.set(key, v);
    }
}

/// Apply `chain.network` presets to any field the caller did not set explicitly.
pub fn effective_chain(chain: &Json) -> (r: Result<Json, String>)
    ensures
        match r {
            Ok(c) => chain_in_effect(chain@) == Ok::<JsonModel, Seq<char>>(c@),
            Err(e) => chain_in_effect(chain@) == Err::<JsonModel, Seq<char>>(e@),
        },
{
    let mut c = chain.clone();
    if let Some(name) = chain.text_at("network") {
        match network_defaults(name) {
            Some(d) => {
                set_default(&mut c, "chain_id", Json::number(d.chain_id));
                set_default(&mut c, "eas", Json::text(d.eas));
                set_default(&mut c, "schema_registry", Json::text(d.registry));
                let mut rpcs: Vec<String> = Vec::new();
                rpcs.push(d.rpcs[0].to_owned());
                rpcs.push(d.rpcs[1].to_owned());
                rpcs.push(d.rpcs[2].to_owned());
                assert(texts(rpcs@) =~= d@.rpcs);
                set_default(&mut c, "rpcs", Json::texts(rpcs.as_slice()));
            },
            None => {
                let mut e = "unknown network ".to_owned();
                e.append(quoted(name).as_str());
                e.append("; known: base, base-sepolia, optimism, arbitrum, ethereum, sepolia");
                return Err(e);
            },
        }
    }
    Ok(c)
}

// ---- optional fields ------------------------------------------------------------------

/// Does the text stand for no value at all?
pub open spec fn is_blank(s: Seq<char>) -> bool {
    s == "0x0"@ || s.len() == 0
}

/// The address under the given name; zero where there is none.
pub open spec fn optional_address(v: JsonModel, key: Seq<char>) -> Result<Seq<u8>, Seq<char>> {
    match text_at(v, key) {
        Some(s) if !is_blank(s) => hex_address(s),
        _ => Ok(zeros(20)),
    }
}

/// The 32-byte word under the given name; zero where there is none.
pub open spec fn optional_word(v: JsonModel, key: Seq<char>) -> Result<Seq<u8>, Seq<char>> {
    match text_at(v, key) {
        Some(s) if !is_blank(s) => hex_word(s),
        _ => Ok(zeros(32)),
    }
}

/// Does the text stand for no value at all?
pub fn blank(s: &str) -> (r: bool)
    ensures
        r == is_blank(s@),
{
    same(s, "0x0") || s.unicode_len() == 0
}

/// The address under the given name; zero where there is none.
pub fn opt_addr(v: &Json, key: &str) -> (r: Result<[u8; 20], String>)
    ensures
        match r {
            Ok(a) => optional_address(v@, key@) == Ok::<Seq<u8>, Seq<char>>(a@),
            Err(e) => optional_address(v@, key@) == Err::<Seq<u8>, Seq<char>>(e@),
        },
{
    if let Some(s) = v.text_at(key) {
        if !blank(s) {
            return hex_to_array20(s);
        }
    }
    let none: [u8; 20] = [0u8; 20];
    assert(none@ =~= zeros(20));
    Ok(none)
}

/// The 32-byte word under the given name; zero where there is none.
pub fn opt_bytes32(v: &Json, key: &str) -> (r: Result<[u8; 32], String>)
    ensures
        match r {
            Ok(a) => optional_word(v@, key@) == Ok::<Seq<u8>, Seq<char>>(a@),
            Err(e) => optional_word(v@, key@) == Err::<Seq<u8>, Seq<char>>(e@),
        },
{
    if let Some(s) = v.text_at(key) {
        if !blank(s) {
            return hex_to_array32(s);
        }
    }
    let none: [u8; 32] = [0u8; 32];
    assert(none@ =~= zeros(32));
    Ok(none)
}

// ---- the signing key ------------------------------------------------------------------

/// The name of the variable that holds the private key.
pub open spec fn key_name(cfg: JsonModel) -> Seq<char> {
    match text_at(cfg, "key_env"@) {
        Some(s) => s,
        None => "PROTECTED_EAS_KEY"@,
    }
}

/// The private key that the job signs with.
pub open spec fn key_in(cfg: JsonModel, env: Seq<(Seq<char>, Seq<char>)>) -> Result<
    Seq<u8>,
    Seq<char>,
> {
    match var_in(env, key_name(cfg)) {
        Some(pk) => secret_in(pk),
        None => Err(
            "secret env var "@ + quoted_text(key_name(cfg)) + " is not set for this execution"@,
        ),
    }
}

/// The signer that the job names.
pub fn load_signer(cfg: &Json, env: &[(String, String)]) -> (r: Result<Signer, String>)
    ensures
        match r {
            Ok(s) => key_in(cfg@, variables(env@)) == Ok::<Seq<u8>, Seq<char>>(s.secret())
                && s.address@ == address_of(s.secret()),
            Err(e) => key_in(cfg@, variables(env@)) == Err::<Seq<u8>, Seq<char>>(e@),
        },
{
    let name = match cfg.text_at("key_env") {
        Some(s) => s,
        None => "PROTECTED_EAS_KEY",
    };
    match lookup(env, name) {
        Some(pk) => Signer::from_hex(pk),
        None => {
            let mut e = "secret env var ".to_owned();
            e.append(quoted(name).as_str());
            e.append(" is not set for this execution");
            Err(e)
        },
    }
}

// ---- explorer links -------------------------------------------------------------------

/// The public EAS explorer of a chain.
pub open spec fn explorer_of(chain_id: nat) -> Option<Seq<char>> {
    if chain_id == 1 {
        Some("easscan.org"@)
    } else if chain_id == 11155111 {
        Some("sepolia.easscan.org"@)
    } else if chain_id == 8453 {
        Some("base.easscan.org"@)
    } else if chain_id == 84532 {
        Some("base-sepolia.easscan.org"@)
    } else if chain_id == 42161 {
        Some("arbitrum.easscan.org"@)
    } else if chain_id == 10 {
        Some("optimism.easscan.org"@)
    } else {
        None
    }
}

/// The explorer page of an address.
pub open spec fn explorer_url(chain_id: nat, address: Seq<u8>) -> Option<Seq<char>> {
    match explorer_of(chain_id) {
        Some(domain) => Some("https://"@ + domain + "/address/"@ + hex_0x(address)),
        None => None,
    }
}

/// Public EAS explorer pages, for convenience links only. Contract addresses always come from
/// input; this is intentionally small (extend as chains are confirmed).
pub fn easscan_address_url(chain_id: &u64, address: &[u8; 20]) -> (r: Option<String>)
    ensures
        match r {
            Some(url) => explorer_url(*chain_id as nat, address@) == Some(url@),
            None => explorer_url(*chain_id as nat, address@) is None,
        },
{
    let domain = match *chain_id {
        1 => "easscan.org",
        11155111 => "sepolia.easscan.org",
        8453 => "base.easscan.org",
        84532 => "base-sepolia.easscan.org",
        42161 => "arbitrum.easscan.org",
        10 => "optimism.easscan.org",
        _ => {
            return None;
        },
    };
    let mut url = "https://".to_owned();
    url.append(domain);
    url.append("/address/");
    url.append(to_hex_0x(address.as_slice()).as_str());
    Some(url)
}

// ---- laws -----------------------------------------------------------------------------

proof fn lemma_default_member(m: JsonModel, key: Seq<char>, v: JsonModel, other: Seq<char>)
    requires
        m is Object,
    ensures
        with_default(m, key, v) is Object,
        member(m, other) is Some ==> member(with_default(m, key, v), other) == member(m, other),
        other != key ==> member(with_default(m, key, v), other) == member(m, other),
        member(m, key) is None ==> member(with_default(m, key, v), key) == Some(v),
{
}

/// A preset fills in what a chain does not set, and nothing else: a member that the chain has stays
/// as it is, each of the four members of the preset that the chain lacks gets the preset's value,
/// and no other member appears. A chain that names no network stays as it is.
pub proof fn law_preset_fills_gaps(chain: JsonModel, key: Seq<char>)
    ensures
        match chain_in_effect(chain) {
            Err(_) => text_at(chain, "network"@) is Some,
            Ok(c) => {
                &&& text_at(chain, "network"@) is None ==> c == chain
                &&& member(chain, key) is Some ==> member(c, key) == member(chain, key)
                &&& member(chain, key) is None && text_at(chain, "network"@) is Some ==> {
                    let net = net_of(text_at(chain, "network"@)->0)->0;
                    member(c, key) == if key == "chain_id"@ {
                        Some(JsonModel::Unsigned(net.chain_id))
                    } else if key == "eas"@ {
                        Some(JsonModel::Str(net.eas))
                    } else if key == "schema_registry"@ {
                        Some(JsonModel::Str(net.registry))
                    } else if key == "rpcs"@ {
                        Some(text_array(net.rpcs))
                    } else {
                        None
                    }
                }
            },
        },
{
    reveal_strlit("chain_id");
    reveal_strlit("eas");
    reveal_strlit("schema_registry");
    reveal_strlit("rpcs");
    if let Some(name) = text_at(chain, "network"@) {
        if let Some(net) = net_of(name) {
            assert(chain is Object);
            let c1 = with_default(chain, "chain_id"@, JsonModel::Unsigned(net.chain_id));
            let c2 = with_default(c1, "eas"@, JsonModel::Str(net.eas));
            let c3 = with_default(c2, "schema_registry"@, JsonModel::Str(net.registry));
            lemma_default_member(chain, "chain_id"@, JsonModel::Unsigned(net.chain_id), key);
            lemma_default_member(c1, "eas"@, JsonModel::Str(net.eas), key);
            lemma_default_member(c2, "schema_registry"@, JsonModel::Str(net.registry), key);
            lemma_default_member(c3, "rpcs"@, text_array(net.rpcs), key);
            assert("chain_id"@.len() == 8 && "eas"@.len() == 3 && "schema_registry"@.len() == 15
                && "rpcs"@.len() == 4);
        }
    }
}

/// Is there no `${` in `s`?
pub open spec fn plain(s: Seq<char>) -> bool {
    forall|i: int| 0 <= i < s.len() - 1 ==> !(#[trigger] s[i] == '$' && s[i + 1] == '{')
}

proof fn lemma_marker_behind(head: Seq<char>, t: Seq<char>)
    requires
        plain(head),
        t.len() == 0 || (t.len() >= 2 && t[0] == '$' && t[1] == '{'),
    ensures
        marker_at(head + t) == head.len(),
    decreases head.len(),
{
    let s = head + t;
    if head.len() > 0 {
        let r = head.skip(1);
        assert forall|i: int| 0 <= i < r.len() - 1 implies !(#[trigger] r[i] == '$' && r[i + 1]
            == '{') by {
            assert(r[i] == head[i + 1] && r[i + 1] == head[i + 2]);
        }
        lemma_marker_behind(r, t);
        assert(s.skip(1) =~= r + t);
        assert(s[0] == head[0]);
        if head.len() > 1 {
            assert(s[1] == head[1]);
        } else if t.len() > 0 {
            assert(s[1] == t[0]);
        }
    } else {
        assert(s =~= t);
    }
}

proof fn lemma_brace_behind(name: Seq<char>, t: Seq<char>)
    requires
        forall|i: int| 0 <= i < name.len() ==> #[trigger] name[i] != '}',
        t.len() > 0,
        t[0] == '}',
    ensures
        first_at(name + t, '}') == name.len(),
    decreases name.len(),
{
    let s = name + t;
    if name.len() > 0 {
        let r = name.skip(1);
        assert forall|i: int| 0 <= i < r.len() implies #[trigger] r[i] != '}' by {
            assert(r[i] == name[i + 1]);
        }
        lemma_brace_behind(r, t);
        assert(s.skip(1) =~= r + t);
        assert(s[0] == name[0]);
    } else {
        assert(s =~= t);
    }
}

/// A URL without `${` is used as it stands.
pub proof fn law_plain_url(url: Seq<char>, env: Seq<(Seq<char>, Seq<char>)>)
    requires
        plain(url),
    ensures
        resolved(url, env) == Ok::<Seq<char>, Seq<char>>(url),
{
    let e = Seq::<char>::empty();
    lemma_marker_behind(url, e);
    assert(url + e =~= url);
}

/// A secret in a URL is replaced by its value, and what stands around it is kept; a secret that is
/// not set is an error.
pub proof fn law_secret_substituted(
    head: Seq<char>,
    name: Seq<char>,
    tail: Seq<char>,
    env: Seq<(Seq<char>, Seq<char>)>,
)
    requires
        plain(head),
        plain(tail),
        forall|i: int| 0 <= i < name.len() ==> #[trigger] name[i] != '}',
    ensures
        match var_in(env, name) {
            Some(value) => resolved(head + "${"@ + name + "}"@ + tail, env) == Ok::<
                Seq<char>,
                Seq<char>,
            >(head + value + tail),
            None => resolved(head + "${"@ + name + "}"@ + tail, env) is Err,
        },
{
    reveal_strlit("${");
    reveal_strlit("}");
    let url = head + "${"@ + name + "}"@ + tail;
    let t = "${"@ + name + "}"@ + tail;
    assert(url =~= head + t);
    lemma_marker_behind(head, t);
    let start = head.len() as int;
    let after = url.skip(start + 2);
    let closing = "}"@ + tail;
    assert(after =~= name + closing);
    lemma_brace_behind(name, closing);
    assert(after.take(name.len() as int) =~= name);
    assert(after.skip((name.len() + 1) as int) =~= tail);
    assert(url.take(start) =~= head);
    let e = Seq::<char>::empty();
    lemma_marker_behind(tail, e);
    assert(tail + e =~= tail);
    assert(resolved_from(url, tail, env) == Ok::<Seq<char>, Seq<char>>(tail));
}

/// A list of texts is what stands in the array under its name, in order, less what is no text.
pub proof fn law_texts_listed(v: JsonModel, key: Seq<char>)
    ensures
        match (member(v, key), texts_at(v, key)) {
            (Some(JsonModel::Array(items)), Ok(list)) => list == items.filter(
                |item: JsonModel| item is Str,
            ).map_values(|item: JsonModel| item->Str_0),
            (Some(JsonModel::Array(_)), Err(_)) => false,
            (_, r) => r == Err::<Seq<Seq<char>>, Seq<char>>(key + " must be an array"@),
        },
{
    if let Some(items) = array_at(v, key) {
        lemma_texts_filtered(items, items.len());
        assert(items.take(items.len() as int) =~= items);
    }
}

proof fn lemma_texts_filtered(items: Seq<JsonModel>, n: nat)
    requires
        n <= items.len(),
    ensures
        texts_upto(items, n) == items.take(n as int).filter(
            |item: JsonModel| item is Str,
        ).map_values(|item: JsonModel| item->Str_0),
    decreases n,
{
    reveal(Seq::filter);
    let is_text = |item: JsonModel| item is Str;
    let text = |item: JsonModel| item->Str_0;
    let some = items.take(n as int);
    if n > 0 {
        lemma_texts_filtered(items, (n - 1) as nat);
        let before = items.take(n - 1);
        assert(some.drop_last() =~= before);
        assert(some.last() == items[n - 1]);
        let kept = before.filter(is_text);
        if items[n - 1] is Str {
            assert(some.filter(is_text) == kept.push(items[n - 1]));
            assert(kept.push(items[n - 1]).map_values(text) =~= kept.map_values(text).push(
                text(items[n - 1]),
            ));
        } else {
            assert(some.filter(is_text) == kept);
        }
    } else {
        assert(some =~= Seq::<JsonModel>::empty());
        assert(some.filter(is_text).map_values(text) =~= Seq::<Seq<char>>::empty());
    }
}

/// Secrets are put in from the front of a URL to its end, each in its place: what stands before the
/// first one is kept, the first one becomes its value, and the rest is treated alike. A secret that is
/// not set, or not closed by a brace, is an error.
pub proof fn law_secrets_in_order(
    whole: Seq<char>,
    head: Seq<char>,
    name: Seq<char>,
    tail: Seq<char>,
    env: Seq<(Seq<char>, Seq<char>)>,
)
    requires
        plain(head),
        forall|i: int| 0 <= i < name.len() ==> #[trigger] name[i] != '}',
    ensures
        resolved_from(whole, head, env) == Ok::<Seq<char>, Seq<char>>(head),
        resolved_from(whole, head + "${"@ + name, env) == Err::<Seq<char>, Seq<char>>(
            "unterminated ${...} in RPC URL: "@ + whole,
        ),
        match (
            var_in(env, name),
            resolved_from(whole, tail, env),
            resolved_from(whole, head + "${"@ + name + "}"@ + tail, env),
        ) {
            (Some(value), Ok(t), Ok(r)) => r == head + value + t,
            (Some(_), Ok(_), Err(_)) => false,
            (Some(_), Err(e), r) => r == Err::<Seq<char>, Seq<char>>(e),
            (None, _, r) => r == Err::<Seq<char>, Seq<char>>(
                "RPC URL references secret "@ + quoted_text(name) + " which is not set"@,
            ),
        },
{
    reveal_strlit("${");
    reveal_strlit("}");
    let e = Seq::<char>::empty();
    lemma_marker_behind(head, e);
    assert(head + e =~= head);
    let open = head + "${"@ + name;
    let marked = "${"@ + name;
    assert(open =~= head + marked);
    lemma_marker_behind(head, marked);
    let start = head.len() as int;
    assert(open.skip(start + 2) =~= name);
    lemma_no_brace(name);
    let url = head + "${"@ + name + "}"@ + tail;
    let t = "${"@ + name + "}"@ + tail;
    assert(url =~= head + t);
    lemma_marker_behind(head, t);
    let after = url.skip(start + 2);
    let closing = "}"@ + tail;
    assert(after =~= name + closing);
    lemma_brace_behind(name, closing);
    assert(after.take(name.len() as int) =~= name);
    assert(after.skip((name.len() + 1) as int) =~= tail);
    assert(url.take(start) =~= head);
}

proof fn lemma_no_brace(name: Seq<char>)
    requires
        forall|i: int| 0 <= i < name.len() ==> #[trigger] name[i] != '}',
    ensures
        first_at(name, '}') == name.len(),
    decreases name.len(),
{
    if name.len() > 0 {
        let r = name.skip(1);
        assert forall|i: int| 0 <= i < r.len() implies #[trigger] r[i] != '}' by {
            assert(r[i] == name[i + 1]);
        }
        lemma_no_brace(r);
    }
}

/// A URL is resolved as a whole; a list of URLs one by one, in order, and is refused where one of
/// them is.
pub proof fn law_all_resolved(urls: Seq<Seq<char>>, env: Seq<(Seq<char>, Seq<char>)>)
    ensures
        forall|url: Seq<char>| #[trigger] resolved(url, env) == resolved_from(url, url, env),
        match all_resolved(urls, env) {
            Ok(list) => {
                &&& list.len() == urls.len()
                &&& forall|i: int|
                    0 <= i < urls.len() ==> resolved(urls[i], env) == Ok::<Seq<char>, Seq<char>>(
                        #[trigger] list[i],
                    )
            },
            Err(e) => exists|i: int|
                {
                    &&& 0 <= i < urls.len()
                    &&& resolved(#[trigger] urls[i], env) == Err::<Seq<char>, Seq<char>>(e)
                    &&& forall|j: int| 0 <= j < i ==> resolved(#[trigger] urls[j], env) is Ok
                },
        },
{
    lemma_resolved_upto(urls, env, urls.len());
}

proof fn lemma_resolved_upto(
    urls: Seq<Seq<char>>,
    env: Seq<(Seq<char>, Seq<char>)>,
    n: nat,
)
    requires
        n <= urls.len(),
    ensures
        match resolved_upto(urls, env, n) {
            Ok(list) => {
                &&& list.len() == n
                &&& forall|i: int|
                    0 <= i < n ==> resolved(urls[i], env) == Ok::<Seq<char>, Seq<char>>(
                        #[trigger] list[i],
                    )
            },
            Err(e) => exists|i: int|
                {
                    &&& 0 <= i < n
                    &&& resolved(#[trigger] urls[i], env) == Err::<Seq<char>, Seq<char>>(e)
                    &&& forall|j: int| 0 <= j < i ==> resolved(#[trigger] urls[j], env) is Ok
                },
        },
    decreases n,
{
    if n > 0 {
        lemma_resolved_upto(urls, env, (n - 1) as nat);
        if let Ok(list) = resolved_upto(urls, env, (n - 1) as nat) {
            assert forall|j: int| 0 <= j < n - 1 implies resolved(#[trigger] urls[j], env) is Ok by {
                assert(resolved(urls[j], env) == Ok::<Seq<char>, Seq<char>>(list[j]));
            }
            assert(resolved(urls[n - 1], env) == resolved(urls[n - 1], env));
        }
    }
}

/// Is there a network of this name with this chain id, EAS contract, schema registry and public RPCs?
pub open spec fn deployed(
    name: Seq<char>,
    chain_id: u64,
    eas: Seq<char>,
    registry: Seq<char>,
    rpcs: Seq<Seq<char>>,
) -> bool {
    match net_of(name) {
        Some(net) => {
            &&& net.chain_id == chain_id
            &&& net.eas == eas
            &&& net.registry == registry
            &&& net.rpcs == rpcs
            &&& explorer_of(chain_id as nat) is Some
        },
        None => false,
    }
}

proof fn lemma_networks()
    ensures
        "base"@ != "base-sepolia"@,
        "base"@ != "optimism"@,
        "base"@ != "arbitrum"@,
        "base"@ != "ethereum"@,
        "base"@ != "sepolia"@,
        "base-sepolia"@ != "optimism"@,
        "base-sepolia"@ != "arbitrum"@,
        "base-sepolia"@ != "ethereum"@,
        "base-sepolia"@ != "sepolia"@,
        "optimism"@ != "arbitrum"@,
        "optimism"@ != "ethereum"@,
        "optimism"@ != "sepolia"@,
        "arbitrum"@ != "ethereum"@,
        "arbitrum"@ != "sepolia"@,
        "ethereum"@ != "sepolia"@,
{
    reveal_strlit("base");
    reveal_strlit("base-sepolia");
    reveal_strlit("optimism");
    reveal_strlit("arbitrum");
    reveal_strlit("ethereum");
    reveal_strlit("sepolia");
    assert("base"@.len() == 4 && "base-sepolia"@.len() == 12 && "optimism"@.len() == 8
        && "arbitrum"@.len() == 8 && "ethereum"@.len() == 8 && "sepolia"@.len() == 7);
    assert("optimism"@[0] == 'o' && "arbitrum"@[0] == 'a' && "ethereum"@[0] == 'e');
}

/// The known networks, where EAS is deployed on each, and no others. Each has a public explorer.
pub proof fn law_networks(name: Seq<char>)
    ensures
        deployed(
            "base"@,
            8453,
            "0x4200000000000000000000000000000000000021"@,
            "0x4200000000000000000000000000000000000020"@,
            seq![
                "https://mainnet.base.org"@,
                "https://base.llamarpc.com"@,
                "https://base.drpc.org"@,
            ],
        ),
        deployed(
            "base-sepolia"@,
            84532,
            "0x4200000000000000000000000000000000000021"@,
            "0x4200000000000000000000000000000000000020"@,
            seq![
                "https://sepolia.base.org"@,
                "https://base-sepolia-rpc.publicnode.com"@,
                "https://base-sepolia.drpc.org"@,
            ],
        ),
        deployed(
            "optimism"@,
            10,
            "0x4200000000000000000000000000000000000021"@,
            "0x4200000000000000000000000000000000000020"@,
            seq![
                "https://mainnet.optimism.io"@,
                "https://optimism.drpc.org"@,
                "https://optimism.llamarpc.com"@,
            ],
        ),
        deployed(
            "arbitrum"@,
            42161,
            "0xbD75f629A22Dc1ceD33dDA0b68c546A1c035c458"@,
            "0xA310da9c5B885E7fb3fbA9D66E9Ba6Df512b78eB"@,
            seq![
                "https://arb1.arbitrum.io/rpc"@,
                "https://arbitrum.drpc.org"@,
                "https://arbitrum.llamarpc.com"@,
            ],
        ),
        deployed(
            "ethereum"@,
            1,
            "0xA1207F3BBa224E2c9c3c6D5aF63D0eb1582Ce587"@,
            "0xA7b39296258348C78294F95B872b282326A97BDF"@,
            seq![
                "https://ethereum-rpc.publicnode.com"@,
                "https://eth.drpc.org"@,
                "https://rpc.mevblocker.io"@,
            ],
        ),
        deployed(
            "sepolia"@,
            11155111,
            "0xC2679fBD37d54388Ce493F1DB75320D236e1815e"@,
            "0x0a7E2Ff54e76B8E6659aedc9103FB21c038050D0"@,
            seq![
                "https://ethereum-sepolia-rpc.publicnode.com"@,
                "https://sepolia.drpc.org"@,
                "https://1rpc.io/sepolia"@,
            ],
        ),
        net_of(name) is Some <==> name == "base"@ || name == "base-sepolia"@ || name
            == "optimism"@ || name == "arbitrum"@ || name == "ethereum"@ || name == "sepolia"@,
{
    lemma_networks();
}

/// The link to a chain's explorer leads to the page of the address there; a chain without a known
/// explorer gets no link.
pub proof fn law_explorer(chain_id: nat, address: Seq<u8>)
    ensures
        ({
            let link = explorer_url(chain_id, address);
            let page = "/address/"@ + hex_0x(address);
            &&& link is Some <==> chain_id == 1 || chain_id == 10 || chain_id == 8453 || chain_id
                == 42161 || chain_id == 84532 || chain_id == 11155111
            &&& chain_id == 1 ==> link == Some("https://"@ + "easscan.org"@ + page)
            &&& chain_id == 10 ==> link == Some("https://"@ + "optimism.easscan.org"@ + page)
            &&& chain_id == 8453 ==> link == Some("https://"@ + "base.easscan.org"@ + page)
            &&& chain_id == 42161 ==> link == Some("https://"@ + "arbitrum.easscan.org"@ + page)
            &&& chain_id == 84532 ==> link == Some(
                "https://"@ + "base-sepolia.easscan.org"@ + page,
            )
            &&& chain_id == 11155111 ==> link == Some(
                "https://"@ + "sepolia.easscan.org"@ + page,
            )
        }),
{
    if let Some(link) = explorer_url(chain_id, address) {
        let page = "/address/"@ + hex_0x(address);
        let domain = explorer_of(chain_id)->0;
        assert(link =~= "https://"@ + domain + page);
    }
}

/// The signing key is what the variable spells that the job names under `key_env`, and that is
/// `PROTECTED_EAS_KEY` unless the job names another.
pub proof fn law_key_chosen(cfg: JsonModel, env: Seq<(Seq<char>, Seq<char>)>)
    ensures
        ({
            let name = match member(cfg, "key_env"@) {
                Some(JsonModel::Str(s)) => s,
                _ => "PROTECTED_EAS_KEY"@,
            };
            match var_in(env, name) {
                Some(text) => key_in(cfg, env) == secret_in(text),
                None => key_in(cfg, env) == Err::<Seq<u8>, Seq<char>>(
                    "secret env var "@ + quoted_text(name) + " is not set for this execution"@,
                ),
            }
        }),
{
}

} // verus!
