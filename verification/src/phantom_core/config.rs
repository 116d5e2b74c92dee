//! What can be configured, and the defaults.

#[allow(unused_imports)]
use crate::utils::words;
use vstd::prelude::*;
use vstd::string::StringExecFns;

verus! {

#[derive(Debug)]
pub struct SignalingConfig {
    pub nostr_relays: Vec<String>,
    pub nostr_pubkey: String,
    pub doh_endpoint: String,
    pub doh_domain: String,
}

#[derive(Debug)]
pub struct TransportConfig {
    pub protocol: String,
    pub alpn: Vec<String>,
    pub mtu: u16,
}

#[derive(Debug)]
pub struct MaskingConfig {
    pub protocol: String,
    pub gaming_profile: Option<GamingProfile>,
    pub heartbeat_interval_ms: u64,
    pub jitter_ms: u64,
    pub packet_size_min: u16,
    pub packet_size_max: u16,
}

#[derive(Debug)]
pub struct GamingProfile {
    pub name: String,
    pub packet_size_min: u16,
    pub packet_size_max: u16,
    pub heartbeat_interval_ms: u64,
    pub jitter_ms: u64,
    pub tick_rate_hz: u32,
}

#[derive(Debug)]
pub struct EncryptionConfig {
    pub algorithm: String,
    pub key_rotation_minutes: u64,
}

#[derive(Debug)]
pub struct ExitNodeConfig {
    pub region: String,
    pub provider: String,
}

#[derive(Debug)]
pub struct PhantomConfig {
    pub signaling: SignalingConfig,
    pub transport: TransportConfig,
    pub masking: MaskingConfig,
    pub encryption: EncryptionConfig,
    pub exit_nodes: Vec<ExitNodeConfig>,
}

/// Regions and providers of a list of exit nodes.
pub open spec fn nodes(list: Seq<ExitNodeConfig>) -> Seq<(Seq<char>, Seq<char>)> {
    list.map_values(|n: ExitNodeConfig| (n.region@, n.provider@))
}

fn exit_node(region: &str, provider: &str) -> (n: ExitNodeConfig)
    ensures
        n.region@ == region@,
        n.provider@ == provider@,
{
    ExitNodeConfig { region: String::from_str(region), provider: String::from_str(provider) }
}

impl Default for PhantomConfig {
    fn default() -> (c: Self)
        ensures
            words::texts(c.signaling.nostr_relays@) == seq![
                "wss://relay.damus.io"@,
                "wss://relay.snort.social"@,
                "wss://nos.lol"@,
            ],
            c.signaling.nostr_pubkey@ == Seq::<char>::empty(),
            c.signaling.doh_endpoint@ == "https://cloudflare-dns.com/dns-query"@,
            c.signaling.doh_domain@ == "cloudflare-dns.com"@,
            c.transport.protocol@ == "quic"@,
            words::texts(c.transport.alpn@) == seq!["h3"@],
            c.transport.mtu == 1200,
            c.masking.protocol@ == "gaming"@,
            c.masking.gaming_profile is None,
            c.masking.heartbeat_interval_ms == 30000,
            c.masking.jitter_ms == 50,
            c.masking.packet_size_min == 60,
            c.masking.packet_size_max == 1400,
            c.encryption.algorithm@ == "chacha20-poly1305"@,
            c.encryption.key_rotation_minutes == 60,
            nodes(c.exit_nodes@) == seq![
                ("us-east"@, "cloudflare"@),
                ("eu-west"@, "cloudflare"@),
            ],
    {
        let mut nostr_relays: Vec<String> = Vec::new();
        nostr_relays.push(String::from_str("wss://relay.damus.io"));
        nostr_relays.push(String::from_str("wss://relay.snort.social"));
        nostr_relays.push(String::from_str("wss://nos.lol"));
        let mut alpn: Vec<String> = Vec::new();
        alpn.push(String::from_str("h3"));
        let mut exit_nodes: Vec<ExitNodeConfig> = Vec::new();
        exit_nodes.push(exit_node("us-east", "cloudflare"));
        exit_nodes.push(exit_node("eu-west", "cloudflare"));
        PhantomConfig {
            signaling: SignalingConfig {
                nostr_relays,
                nostr_pubkey: String::new(),
                doh_endpoint: String::from_str("https://cloudflare-dns.com/dns-query"),
                doh_domain: String::from_str("cloudflare-dns.com"),
            },
            transport: TransportConfig { protocol: String::from_str("quic"), alpn, mtu: 1200 },
            masking: MaskingConfig {
                protocol: String::from_str("gaming"),
                gaming_profile: None,
                heartbeat_interval_ms: 30000,
                jitter_ms: 50,
                packet_size_min: 60,
                packet_size_max: 1400,
            },
            encryption: EncryptionConfig {
                algorithm: String::from_str("chacha20-poly1305"),
                key_rotation_minutes: 60,
            },
            exit_nodes,
        }
    }
}

} // verus!
