//! What browsers send when they open a connection.

use crate::transport::tls_extensions::{
    build_alpn_data, build_groups_data, build_key_share_placeholder, build_sig_algs_data,
    build_supported_versions_data, put_zeros, FFDHE2048, FFDHE3072, SECP256R1, SECP384R1, SECP521R1,
    X25519, X25519_KEM,
};
#[allow(unused_imports)]
use crate::transport::tls_extensions;
#[allow(unused_imports)]
use crate::utils::bytes;
use vstd::prelude::*;
use vstd::slice::slice_to_vec;

verus! {

pub const EXT_SERVER_NAME: u16 = 0x0000;

pub const EXT_EXTENDED_MASTER_SECRET: u16 = 0x0017;

pub const EXT_RENEGOTIATION_INFO: u16 = 0xff01;

pub const EXT_SUPPORTED_GROUPS: u16 = 0x000a;

pub const EXT_EC_POINT_FORMATS: u16 = 0x000b;

pub const EXT_SESSION_TICKET: u16 = 0x0023;

pub const EXT_ALPN: u16 = 0x0010;

pub const EXT_STATUS_REQUEST: u16 = 0x0005;

pub const EXT_SIGNATURE_ALGORITHMS: u16 = 0x000d;

pub const EXT_SCT: u16 = 0x0012;

pub const EXT_KEY_SHARE: u16 = 0x0033;

pub const EXT_PSK_KEY_EXCHANGE_MODES: u16 = 0x002d;

pub const EXT_SUPPORTED_VERSIONS: u16 = 0x002b;

pub const EXT_COMPRESS_CERTIFICATE: u16 = 0x001b;

pub const EXT_APPLICATION_SETTINGS: u16 = 0x001c;

pub const EXT_ENCRYPTED_CLIENT_HELLO: u16 = 0xfe0d;

pub const EXT_DELEGATED_CREDENTIALS: u16 = 0x0022;

pub const EXT_RECORD_SIZE_LIMIT: u16 = 0x001c;

pub const EXT_PADDING: u16 = 0x0015;

pub const TLS_AES_128_GCM_SHA256: u16 = 0x1301;

pub const TLS_AES_256_GCM_SHA384: u16 = 0x1302;

pub const TLS_CHACHA20_POLY1305_SHA256: u16 = 0x1303;

pub const TLS_ECDHE_ECDSA_WITH_AES_128_GCM_SHA256: u16 = 0xc02b;

pub const TLS_ECDHE_RSA_WITH_AES_128_GCM_SHA256: u16 = 0xc02f;

pub const TLS_ECDHE_ECDSA_WITH_AES_256_GCM_SHA384: u16 = 0xc02c;

pub const TLS_ECDHE_RSA_WITH_AES_256_GCM_SHA384: u16 = 0xc030;

pub const TLS_ECDHE_ECDSA_WITH_CHACHA20_POLY1305_SHA256: u16 = 0xcca9;

pub const TLS_ECDHE_RSA_WITH_CHACHA20_POLY1305_SHA256: u16 = 0xcca8;

pub const TLS_ECDHE_RSA_WITH_AES_128_CBC_SHA: u16 = 0xc013;

pub const TLS_ECDHE_RSA_WITH_AES_256_CBC_SHA: u16 = 0xc014;

pub const TLS_RSA_WITH_AES_128_GCM_SHA256: u16 = 0x009c;

pub const TLS_RSA_WITH_AES_256_GCM_SHA384: u16 = 0x009d;

pub const TLS_RSA_WITH_AES_128_CBC_SHA: u16 = 0x002f;

pub const TLS_RSA_WITH_AES_256_CBC_SHA: u16 = 0x0035;

pub const TLS_ECDHE_ECDSA_WITH_AES_128_CBC_SHA: u16 = 0xc009;

pub const TLS_ECDHE_ECDSA_WITH_AES_256_CBC_SHA: u16 = 0xc00a;

pub const ECDSA_SECP256R1_SHA256: u16 = 0x0403;

pub const ECDSA_SECP384R1_SHA384: u16 = 0x0503;

pub const ECDSA_SECP521R1_SHA512: u16 = 0x0603;

pub const RSA_PSS_RSAE_SHA256: u16 = 0x0804;

pub const RSA_PSS_RSAE_SHA384: u16 = 0x0805;

pub const RSA_PSS_RSAE_SHA512: u16 = 0x0806;

pub const RSA_PKCS1_SHA256: u16 = 0x0401;

pub const RSA_PKCS1_SHA384: u16 = 0x0501;

pub const RSA_PKCS1_SHA512: u16 = 0x0601;

pub const ED25519: u16 = 0x0807;

pub const ED448: u16 = 0x0808;

pub const PSK_MODE_KE: u8 = 1;

pub const PSK_MODE_DHE_KE: u8 = 2;

pub const TLS12: u16 = 0x0303;

pub const TLS13: u16 = 0x0304;

/// The protocols that every browser offers: h3, h2 and http/1.1.
pub const ALPN_H3: [u8; 2] = [0x68, 0x33];

pub const ALPN_H2: [u8; 2] = [0x68, 0x32];

pub const ALPN_HTTP11: [u8; 8] = [0x68, 0x74, 0x74, 0x70, 0x2f, 0x31, 0x2e, 0x31];

/// The versions that every browser offers.
pub const VERSIONS: [u16; 2] = [TLS13, TLS12];

/// What stands in an extension.
#[derive(Debug, Clone, Copy, PartialEq, Eq, Structural)]
pub enum Body {
    Empty,
    Zero,
    Groups,
    PointFormats,
    Protocols,
    Status,
    Signatures,
    Delegated,
    KeyShare,
    PskModes,
    Versions,
    Compression,
    SizeLimit,
    Padding,
}

pub const CHROME_SUITES: [u16; 15] = [
    TLS_AES_128_GCM_SHA256,
    TLS_AES_256_GCM_SHA384,
    TLS_CHACHA20_POLY1305_SHA256,
    TLS_ECDHE_ECDSA_WITH_AES_128_GCM_SHA256,
    TLS_ECDHE_RSA_WITH_AES_128_GCM_SHA256,
    TLS_ECDHE_ECDSA_WITH_AES_256_GCM_SHA384,
    TLS_ECDHE_RSA_WITH_AES_256_GCM_SHA384,
    TLS_ECDHE_ECDSA_WITH_CHACHA20_POLY1305_SHA256,
    TLS_ECDHE_RSA_WITH_CHACHA20_POLY1305_SHA256,
    TLS_ECDHE_RSA_WITH_AES_128_CBC_SHA,
    TLS_ECDHE_RSA_WITH_AES_256_CBC_SHA,
    TLS_RSA_WITH_AES_128_GCM_SHA256,
    TLS_RSA_WITH_AES_256_GCM_SHA384,
    TLS_RSA_WITH_AES_128_CBC_SHA,
    TLS_RSA_WITH_AES_256_CBC_SHA,
];

pub const FIREFOX_SUITES: [u16; 17] = [
    TLS_AES_128_GCM_SHA256,
    TLS_CHACHA20_POLY1305_SHA256,
    TLS_AES_256_GCM_SHA384,
    TLS_ECDHE_ECDSA_WITH_AES_128_GCM_SHA256,
    TLS_ECDHE_RSA_WITH_AES_128_GCM_SHA256,
    TLS_ECDHE_ECDSA_WITH_CHACHA20_POLY1305_SHA256,
    TLS_ECDHE_RSA_WITH_CHACHA20_POLY1305_SHA256,
    TLS_ECDHE_ECDSA_WITH_AES_256_GCM_SHA384,
    TLS_ECDHE_RSA_WITH_AES_256_GCM_SHA384,
    TLS_ECDHE_ECDSA_WITH_AES_256_CBC_SHA,
    TLS_ECDHE_ECDSA_WITH_AES_128_CBC_SHA,
    TLS_ECDHE_RSA_WITH_AES_128_CBC_SHA,
    TLS_ECDHE_RSA_WITH_AES_256_CBC_SHA,
    TLS_RSA_WITH_AES_128_GCM_SHA256,
    TLS_RSA_WITH_AES_256_GCM_SHA384,
    TLS_RSA_WITH_AES_128_CBC_SHA,
    TLS_RSA_WITH_AES_256_CBC_SHA,
];

pub const SAFARI_SUITES: [u16; 15] = [
    TLS_AES_128_GCM_SHA256,
    TLS_AES_256_GCM_SHA384,
    TLS_CHACHA20_POLY1305_SHA256,
    TLS_ECDHE_ECDSA_WITH_AES_256_GCM_SHA384,
    TLS_ECDHE_RSA_WITH_AES_256_GCM_SHA384,
    TLS_ECDHE_ECDSA_WITH_AES_128_GCM_SHA256,
    TLS_ECDHE_RSA_WITH_AES_128_GCM_SHA256,
    TLS_ECDHE_ECDSA_WITH_CHACHA20_POLY1305_SHA256,
    TLS_ECDHE_RSA_WITH_CHACHA20_POLY1305_SHA256,
    TLS_ECDHE_RSA_WITH_AES_128_CBC_SHA,
    TLS_ECDHE_RSA_WITH_AES_256_CBC_SHA,
    TLS_RSA_WITH_AES_128_GCM_SHA256,
    TLS_RSA_WITH_AES_256_GCM_SHA384,
    TLS_RSA_WITH_AES_128_CBC_SHA,
    TLS_RSA_WITH_AES_256_CBC_SHA,
];

pub const CHROME_EXTENSIONS: [(u16, Body); 16] = [
    (EXT_SERVER_NAME, Body::Empty),
    (EXT_EXTENDED_MASTER_SECRET, Body::Empty),
    (EXT_RENEGOTIATION_INFO, Body::Zero),
    (EXT_SUPPORTED_GROUPS, Body::Groups),
    (EXT_EC_POINT_FORMATS, Body::PointFormats),
    (EXT_SESSION_TICKET, Body::Empty),
    (EXT_ALPN, Body::Protocols),
    (EXT_STATUS_REQUEST, Body::Status),
    (EXT_SIGNATURE_ALGORITHMS, Body::Signatures),
    (EXT_SCT, Body::Empty),
    (EXT_KEY_SHARE, Body::KeyShare),
    (EXT_PSK_KEY_EXCHANGE_MODES, Body::PskModes),
    (EXT_SUPPORTED_VERSIONS, Body::Versions),
    (EXT_COMPRESS_CERTIFICATE, Body::Compression),
    (EXT_APPLICATION_SETTINGS, Body::Zero),
    (EXT_ENCRYPTED_CLIENT_HELLO, Body::Empty),
];

pub const FIREFOX_EXTENSIONS: [(u16, Body); 16] = [
    (EXT_SERVER_NAME, Body::Empty),
    (EXT_EXTENDED_MASTER_SECRET, Body::Empty),
    (EXT_RENEGOTIATION_INFO, Body::Zero),
    (EXT_SUPPORTED_GROUPS, Body::Groups),
    (EXT_EC_POINT_FORMATS, Body::PointFormats),
    (EXT_SESSION_TICKET, Body::Empty),
    (EXT_ALPN, Body::Protocols),
    (EXT_STATUS_REQUEST, Body::Status),
    (EXT_DELEGATED_CREDENTIALS, Body::Delegated),
    (EXT_KEY_SHARE, Body::KeyShare),
    (EXT_SUPPORTED_VERSIONS, Body::Versions),
    (EXT_SIGNATURE_ALGORITHMS, Body::Signatures),
    (EXT_PSK_KEY_EXCHANGE_MODES, Body::PskModes),
    (EXT_RECORD_SIZE_LIMIT, Body::SizeLimit),
    (EXT_COMPRESS_CERTIFICATE, Body::Compression),
    (EXT_ENCRYPTED_CLIENT_HELLO, Body::Empty),
];

pub const SAFARI_EXTENSIONS: [(u16, Body); 15] = [
    (EXT_SERVER_NAME, Body::Empty),
    (EXT_EXTENDED_MASTER_SECRET, Body::Empty),
    (EXT_RENEGOTIATION_INFO, Body::Zero),
    (EXT_SUPPORTED_GROUPS, Body::Groups),
    (EXT_EC_POINT_FORMATS, Body::PointFormats),
    (EXT_SESSION_TICKET, Body::Empty),
    (EXT_ALPN, Body::Protocols),
    (EXT_STATUS_REQUEST, Body::Status),
    (EXT_SIGNATURE_ALGORITHMS, Body::Signatures),
    (EXT_SCT, Body::Empty),
    (EXT_KEY_SHARE, Body::KeyShare),
    (EXT_PSK_KEY_EXCHANGE_MODES, Body::PskModes),
    (EXT_SUPPORTED_VERSIONS, Body::Versions),
    (EXT_COMPRESS_CERTIFICATE, Body::Compression),
    (EXT_PADDING, Body::Padding),
];

pub const CHROME_GROUPS: [u16; 4] = [X25519, SECP256R1, X25519_KEM, SECP384R1];

pub const FIREFOX_GROUPS: [u16; 6] = [
    X25519,
    SECP256R1,
    SECP384R1,
    SECP521R1,
    FFDHE2048,
    FFDHE3072,
];

pub const SAFARI_GROUPS: [u16; 4] = [X25519, SECP256R1, SECP384R1, SECP521R1];

pub const CHROME_SIGNATURES: [u16; 8] = [
    ECDSA_SECP256R1_SHA256,
    RSA_PSS_RSAE_SHA256,
    RSA_PKCS1_SHA256,
    ECDSA_SECP384R1_SHA384,
    RSA_PSS_RSAE_SHA384,
    RSA_PKCS1_SHA384,
    RSA_PSS_RSAE_SHA512,
    RSA_PKCS1_SHA512,
];

pub const FIREFOX_SIGNATURES: [u16; 11] = [
    ECDSA_SECP256R1_SHA256,
    ECDSA_SECP384R1_SHA384,
    ECDSA_SECP521R1_SHA512,
    RSA_PSS_RSAE_SHA256,
    RSA_PSS_RSAE_SHA384,
    RSA_PSS_RSAE_SHA512,
    RSA_PKCS1_SHA256,
    RSA_PKCS1_SHA384,
    RSA_PKCS1_SHA512,
    ED25519,
    ED448,
];

pub const SAFARI_SIGNATURES: [u16; 8] = [
    ECDSA_SECP256R1_SHA256,
    RSA_PSS_RSAE_SHA256,
    RSA_PKCS1_SHA256,
    ECDSA_SECP384R1_SHA384,
    RSA_PSS_RSAE_SHA384,
    RSA_PKCS1_SHA384,
    RSA_PKCS1_SHA512,
    RSA_PSS_RSAE_SHA512,
];

pub const DELEGATED: [u16; 5] = [
    ECDSA_SECP256R1_SHA256,
    ECDSA_SECP384R1_SHA384,
    ECDSA_SECP521R1_SHA512,
    ED25519,
    ED448,
];

/// Groups for which a key is offered.
pub const CHROME_SHARES: [u16; 2] = [X25519, SECP256R1];

pub const FIREFOX_SHARES: [u16; 1] = [X25519];

/// Key exchange modes, behind their number.
pub const CHROME_PSK: [u8; 3] = [0x02, PSK_MODE_KE, PSK_MODE_DHE_KE];

pub const FIREFOX_PSK: [u8; 3] = [0x02, PSK_MODE_DHE_KE, PSK_MODE_KE];

/// QUIC transport parameters as seen on the wire.
#[derive(Debug, Clone, Copy, PartialEq, Eq, Structural)]
pub struct TransportParams {
    pub max_udp_payload_size: u64,
    pub initial_max_data: u64,
    pub initial_max_stream_data_bidi_local: u64,
    pub initial_max_stream_data_bidi_remote: u64,
    pub initial_max_stream_data_uni: u64,
    pub initial_max_streams_bidi: u64,
    pub initial_max_streams_uni: u64,
    pub ack_delay_exponent: u64,
    pub max_ack_delay: u64,
    pub disable_active_migration: bool,
    pub active_connection_id_limit: u64,
}

/// Largest payload; data; data per local, remote and one-way stream; two-way and
/// one-way streams; acknowledgement exponent and delay; connection ids. No browser
/// disables migration.
pub const CHROME_PARAMS: (u64, u64, u64, u64, u64, u64, u64, u64, u64, u64) = (
    1200,
    15728640,
    6291456,
    6291456,
    6291456,
    100,
    103,
    9,
    25,
    8,
);

pub const FIREFOX_PARAMS: (u64, u64, u64, u64, u64, u64, u64, u64, u64, u64) = (
    1200,
    16777216,
    4194304,
    4194304,
    4194304,
    16,
    16,
    8,
    25,
    2,
);

pub const SAFARI_PARAMS: (u64, u64, u64, u64, u64, u64, u64, u64, u64, u64) = (
    1200,
    10485760,
    2097152,
    2097152,
    1048576,
    8,
    8,
    8,
    25,
    2,
);

pub open spec fn params_of(
    row: (u64, u64, u64, u64, u64, u64, u64, u64, u64, u64),
) -> TransportParams {
    TransportParams {
        max_udp_payload_size: row.0,
        initial_max_data: row.1,
        initial_max_stream_data_bidi_local: row.2,
        initial_max_stream_data_bidi_remote: row.3,
        initial_max_stream_data_uni: row.4,
        initial_max_streams_bidi: row.5,
        initial_max_streams_uni: row.6,
        ack_delay_exponent: row.7,
        max_ack_delay: row.8,
        disable_active_migration: false,
        active_connection_id_limit: row.9,
    }
}

fn params(row: (u64, u64, u64, u64, u64, u64, u64, u64, u64, u64)) -> (p: TransportParams)
    ensures
        p == params_of(row),
{
    TransportParams {
        max_udp_payload_size: row.0,
        initial_max_data: row.1,
        initial_max_stream_data_bidi_local: row.2,
        initial_max_stream_data_bidi_remote: row.3,
        initial_max_stream_data_uni: row.4,
        initial_max_streams_bidi: row.5,
        initial_max_streams_uni: row.6,
        ack_delay_exponent: row.7,
        max_ack_delay: row.8,
        disable_active_migration: false,
        active_connection_id_limit: row.9,
    }
}

/// A single TLS extension.
#[derive(Debug)]
pub struct TlsExtension {
    pub ext_type: u16,
    pub data: Vec<u8>,
}

/// Complete browser fingerprint profile.
#[derive(Debug)]
pub struct BrowserProfile {
    /// Identifier like "chrome_120", "firefox_121", "edge_120", "safari_17"
    pub name: String,
    /// TLS version (0x0303 = TLS 1.2, 0x0304 = TLS 1.3)
    pub tls_version: u16,
    /// Cipher suites in exact wire order
    pub cipher_suites: Vec<u16>,
    /// TLS extensions in exact wire order
    pub extensions: Vec<TlsExtension>,
    /// QUIC transport parameters
    pub quic_transport_params: TransportParams,
    /// Initial packet size
    pub initial_packet_size: usize,
    /// ALPN protocol identifiers
    pub alpn_protocols: Vec<Vec<u8>>,
    /// Supported groups (elliptic curves) in order
    pub supported_groups: Vec<u16>,
    /// EC point formats
    pub ec_point_formats: Vec<u8>,
    /// Signature algorithms in order
    pub signature_algorithms: Vec<u16>,
    /// QUIC version
    pub quic_version: u32,
}

/// A profile as plain data.
pub struct ProfileView {
    pub name: Seq<char>,
    pub tls_version: u16,
    pub cipher_suites: Seq<u16>,
    pub extensions: Seq<(u16, Seq<u8>)>,
    pub quic_transport_params: TransportParams,
    pub initial_packet_size: usize,
    pub alpn_protocols: Seq<Seq<u8>>,
    pub supported_groups: Seq<u16>,
    pub ec_point_formats: Seq<u8>,
    pub signature_algorithms: Seq<u16>,
    pub quic_version: u32,
}

/// The type and contents of each extension.
pub open spec fn extension_views(e: Seq<TlsExtension>) -> Seq<(u16, Seq<u8>)> {
    e.map_values(|x: TlsExtension| (x.ext_type, x.data@))
}

impl View for BrowserProfile {
    type V = ProfileView;

    open spec fn view(&self) -> ProfileView {
        ProfileView {
            name: self.name@,
            tls_version: self.tls_version,
            cipher_suites: self.cipher_suites@,
            extensions: extension_views(self.extensions@),
            quic_transport_params: self.quic_transport_params,
            initial_packet_size: self.initial_packet_size,
            alpn_protocols: bytes::views(self.alpn_protocols@),
            supported_groups: self.supported_groups@,
            ec_point_formats: self.ec_point_formats@,
            signature_algorithms: self.signature_algorithms@,
            quic_version: self.quic_version,
        }
    }
}

impl Clone for BrowserProfile {
    fn clone(&self) -> (c: Self)
        ensures
            c@ == self@,
    {
        let mut extensions: Vec<TlsExtension> = Vec::new();
        let mut i: usize = 0;
        while i < self.extensions.len()
            invariant
                i <= self.extensions@.len(),
                extension_views(extensions@) == extension_views(self.extensions@).subrange(
                    0,
                    i as int,
                ),
            decreases self.extensions@.len() - i,
        {
            let e = &self.extensions[i];
            let data = slice_to_vec(e.data.as_slice());
            let ghost before = extension_views(extensions@);
            extensions.push(TlsExtension { ext_type: e.ext_type, data });
            i = i + 1;
            assert(extension_views(extensions@) =~= before.push((e.ext_type, data@)));
            assert(extension_views(extensions@) =~= extension_views(self.extensions@).subrange(
                0,
                i as int,
            ));
        }
        assert(extension_views(extensions@) =~= extension_views(self.extensions@));
        let mut alpn_protocols: Vec<Vec<u8>> = Vec::new();
        i = 0;
        while i < self.alpn_protocols.len()
            invariant
                i <= self.alpn_protocols@.len(),
                bytes::views(alpn_protocols@) == bytes::views(self.alpn_protocols@).subrange(
                    0,
                    i as int,
                ),
            decreases self.alpn_protocols@.len() - i,
        {
            let name = slice_to_vec(self.alpn_protocols[i].as_slice());
            let ghost before = bytes::views(alpn_protocols@);
            alpn_protocols.push(name);
            i = i + 1;
            assert(bytes::views(alpn_protocols@) =~= before.push(name@));
            assert(bytes::views(alpn_protocols@) =~= bytes::views(self.alpn_protocols@).subrange(
                0,
                i as int,
            ));
        }
        assert(bytes::views(alpn_protocols@) =~= bytes::views(self.alpn_protocols@));
        BrowserProfile {
            name: self.name.clone(),
            tls_version: self.tls_version,
            cipher_suites: slice_to_vec(self.cipher_suites.as_slice()),
            extensions,
            quic_transport_params: self.quic_transport_params,
            initial_packet_size: self.initial_packet_size,
            alpn_protocols,
            supported_groups: slice_to_vec(self.supported_groups.as_slice()),
            ec_point_formats: slice_to_vec(self.ec_point_formats.as_slice()),
            signature_algorithms: slice_to_vec(self.signature_algorithms.as_slice()),
            quic_version: self.quic_version,
        }
    }
}

/// The protocols that every browser offers.
pub open spec fn protocols() -> Seq<Seq<u8>> {
    seq![ALPN_H3@, ALPN_H2@, ALPN_HTTP11@]
}

/// What an extension holds in a browser with these groups, signature algorithms, key
/// shares and key exchange modes.
pub open spec fn body_of(
    body: Body,
    groups: Seq<u16>,
    signatures: Seq<u16>,
    shares: Seq<u16>,
    psk: Seq<u8>,
) -> Seq<u8> {
    match body {
        Body::Empty => Seq::empty(),
        Body::Zero => seq![0x00u8],
        Body::Groups => tls_extensions::counted_list(groups),
        Body::PointFormats => seq![0x01u8, 0x00],
        Body::Protocols => tls_extensions::counted_names(protocols()),
        Body::Status => tls_extensions::zeros(5),
        Body::Signatures => tls_extensions::counted_list(signatures),
        Body::Delegated => tls_extensions::counted_list(DELEGATED@),
        Body::KeyShare => tls_extensions::counted_keys(shares),
        Body::PskModes => psk,
        Body::Versions => tls_extensions::version_list(VERSIONS@),
        Body::Compression => seq![0x01u8, 0x02],
        Body::SizeLimit => seq![0x40u8, 0x01],
        Body::Padding => tls_extensions::zeros(128),
    }
}

/// The extensions of a table.
pub open spec fn extensions_of(
    rows: Seq<(u16, Body)>,
    groups: Seq<u16>,
    signatures: Seq<u16>,
    shares: Seq<u16>,
    psk: Seq<u8>,
) -> Seq<(u16, Seq<u8>)> {
    rows.map_values(|r: (u16, Body)| (r.0, body_of(r.1, groups, signatures, shares, psk)))
}

/// The profile that tables describe.
pub open spec fn profile_of(
    name: Seq<char>,
    suites: Seq<u16>,
    rows: Seq<(u16, Body)>,
    groups: Seq<u16>,
    signatures: Seq<u16>,
    shares: Seq<u16>,
    psk: Seq<u8>,
    row: (u64, u64, u64, u64, u64, u64, u64, u64, u64, u64),
) -> ProfileView {
    ProfileView {
        name,
        tls_version: TLS12,
        cipher_suites: suites,
        extensions: extensions_of(rows, groups, signatures, shares, psk),
        quic_transport_params: params_of(row),
        initial_packet_size: 1200,
        alpn_protocols: protocols(),
        supported_groups: groups,
        ec_point_formats: seq![0x00u8],
        signature_algorithms: signatures,
        quic_version: 0x00000001,
    }
}

fn offered_protocols() -> (v: Vec<Vec<u8>>)
    ensures
        bytes::views(v@) == protocols(),
{
    let mut v: Vec<Vec<u8>> = Vec::new();
    v.push(slice_to_vec(&ALPN_H3));
    v.push(slice_to_vec(&ALPN_H2));
    v.push(slice_to_vec(&ALPN_HTTP11));
    assert(v@[0]@ =~= ALPN_H3@);
    assert(v@[1]@ =~= ALPN_H2@);
    assert(v@[2]@ =~= ALPN_HTTP11@);
    assert(bytes::views(v@) =~= protocols());
    v
}

fn body_data(body: Body, groups: &[u16], signatures: &[u16], shares: &[u16], psk: &[u8]) -> (data:
    Vec<u8>)
    ensures
        data@ == body_of(body, groups@, signatures@, shares@, psk@),
{
    let mut data: Vec<u8> = Vec::new();
    match body {
        Body::Empty => {},
        Body::Zero => {
            data.push(0x00);
        },
        Body::Groups => {
            data = build_groups_data(groups);
        },
        Body::PointFormats => {
            data.push(0x01);
            data.push(0x00);
        },
        Body::Protocols => {
            data = build_alpn_data(&offered_protocols());
        },
        Body::Status => {
            put_zeros(&mut data, 5);
        },
        Body::Signatures => {
            data = build_sig_algs_data(signatures);
        },
        Body::Delegated => {
            data = build_sig_algs_data(&DELEGATED);
        },
        Body::KeyShare => {
            data = build_key_share_placeholder(shares);
        },
        Body::PskModes => {
            data = slice_to_vec(psk);
        },
        Body::Versions => {
            data = build_supported_versions_data(&VERSIONS);
        },
        Body::Compression => {
            data.push(0x01);
            data.push(0x02);
        },
        Body::SizeLimit => {
            data.push(0x40);
            data.push(0x01);
        },
        Body::Padding => {
            put_zeros(&mut data, 128);
        },
    }
    assert(data@ =~= body_of(body, groups@, signatures@, shares@, psk@));
    data
}

fn build_profile(
    name: &str,
    suites: &[u16],
    rows: &[(u16, Body)],
    groups: &[u16],
    signatures: &[u16],
    shares: &[u16],
    psk: &[u8],
    row: (u64, u64, u64, u64, u64, u64, u64, u64, u64, u64),
) -> (p: BrowserProfile)
    ensures
        p@ == profile_of(
            name@,
            suites@,
            rows@,
            groups@,
            signatures@,
            shares@,
            psk@,
            row,
        ),
{
    let ghost want = extensions_of(rows@, groups@, signatures@, shares@, psk@);
    let mut extensions: Vec<TlsExtension> = Vec::new();
    let mut i: usize = 0;
    while i < rows.len()
        invariant
            i <= rows@.len(),
            want == extensions_of(rows@, groups@, signatures@, shares@, psk@),
            extension_views(extensions@) == want.subrange(0, i as int),
        decreases rows@.len() - i,
    {
        let data = body_data(rows[i].1, groups, signatures, shares, psk);
        let ghost before = extension_views(extensions@);
        extensions.push(TlsExtension { ext_type: rows[i].0, data });
        i = i + 1;
        assert(extension_views(extensions@) =~= before.push((rows@[i - 1].0, data@)));
        assert(extension_views(extensions@) =~= want.subrange(0, i as int));
    }
    assert(extension_views(extensions@) =~= want);
    let mut ec_point_formats: Vec<u8> = Vec::new();
    ec_point_formats.push(0x00);
    assert(ec_point_formats@ =~= seq![0x00u8]);
    BrowserProfile {
        name: name.to_string(),
        tls_version: TLS12,
        cipher_suites: slice_to_vec(suites),
        extensions,
        quic_transport_params: params(row),
        initial_packet_size: 1200,
        alpn_protocols: offered_protocols(),
        supported_groups: slice_to_vec(groups),
        ec_point_formats,
        signature_algorithms: slice_to_vec(signatures),
        quic_version: 0x00000001,
    }
}

pub open spec fn chrome_view() -> ProfileView {
    profile_of(
        "chrome_120"@,
        CHROME_SUITES@,
        CHROME_EXTENSIONS@,
        CHROME_GROUPS@,
        CHROME_SIGNATURES@,
        CHROME_SHARES@,
        CHROME_PSK@,
        CHROME_PARAMS,
    )
}

pub open spec fn firefox_view() -> ProfileView {
    profile_of(
        "firefox_121"@,
        FIREFOX_SUITES@,
        FIREFOX_EXTENSIONS@,
        FIREFOX_GROUPS@,
        FIREFOX_SIGNATURES@,
        FIREFOX_SHARES@,
        FIREFOX_PSK@,
        FIREFOX_PARAMS,
    )
}

pub open spec fn edge_view() -> ProfileView {
    ProfileView { name: "edge_120"@, ..chrome_view() }
}

pub open spec fn safari_view() -> ProfileView {
    profile_of(
        "safari_17"@,
        SAFARI_SUITES@,
        SAFARI_EXTENSIONS@,
        SAFARI_GROUPS@,
        SAFARI_SIGNATURES@,
        CHROME_SHARES@,
        CHROME_PSK@,
        SAFARI_PARAMS,
    )
}

impl BrowserProfile {
    /// Chrome 120 fingerprint (Windows/Linux).
    pub fn chrome_120() -> (p: Self)
        ensures
            p@ == chrome_view(),
    {
        build_profile(
            "chrome_120",
            &CHROME_SUITES,
            &CHROME_EXTENSIONS,
            &CHROME_GROUPS,
            &CHROME_SIGNATURES,
            &CHROME_SHARES,
            &CHROME_PSK,
            CHROME_PARAMS,
        )
    }

    /// Firefox 121 fingerprint.
    pub fn firefox_121() -> (p: Self)
        ensures
            p@ == firefox_view(),
    {
        build_profile(
            "firefox_121",
            &FIREFOX_SUITES,
            &FIREFOX_EXTENSIONS,
            &FIREFOX_GROUPS,
            &FIREFOX_SIGNATURES,
            &FIREFOX_SHARES,
            &FIREFOX_PSK,
            FIREFOX_PARAMS,
        )
    }

    /// Edge 120 fingerprint (Chromium-based, nearly identical to Chrome).
    pub fn edge_120() -> (p: Self)
        ensures
            p@ == edge_view(),
    {
        build_profile(
            "edge_120",
            &CHROME_SUITES,
            &CHROME_EXTENSIONS,
            &CHROME_GROUPS,
            &CHROME_SIGNATURES,
            &CHROME_SHARES,
            &CHROME_PSK,
            CHROME_PARAMS,
        )
    }

    /// Safari 17 fingerprint (macOS/iOS).
    pub fn safari_17() -> (p: Self)
        ensures
            p@ == safari_view(),
    {
        build_profile(
            "safari_17",
            &SAFARI_SUITES,
            &SAFARI_EXTENSIONS,
            &SAFARI_GROUPS,
            &SAFARI_SIGNATURES,
            &CHROME_SHARES,
            &CHROME_PSK,
            SAFARI_PARAMS,
        )
    }
}

/// What stands in an extension: lists behind their length, zeros for a status request and for
/// padding, and single settings in one or two bytes.
pub proof fn law_extension_bodies(
    groups: Seq<u16>,
    signatures: Seq<u16>,
    shares: Seq<u16>,
    psk: Seq<u8>,
    i: int,
)
    ensures
        body_of(Body::Empty, groups, signatures, shares, psk).len() == 0,
        body_of(Body::Zero, groups, signatures, shares, psk) == seq![0u8],
        body_of(Body::Groups, groups, signatures, shares, psk) == tls_extensions::counted_list(
            groups,
        ),
        body_of(Body::Signatures, groups, signatures, shares, psk) == tls_extensions::counted_list(
            signatures,
        ),
        body_of(Body::KeyShare, groups, signatures, shares, psk) == tls_extensions::counted_keys(
            shares,
        ),
        body_of(Body::PskModes, groups, signatures, shares, psk) == psk,
        body_of(Body::PointFormats, groups, signatures, shares, psk) == seq![1u8, 0],
        body_of(Body::Compression, groups, signatures, shares, psk) == seq![1u8, 2],
        body_of(Body::SizeLimit, groups, signatures, shares, psk) == seq![0x40u8, 1],
        body_of(Body::Versions, groups, signatures, shares, psk) == seq![2u8, 4, 3],
        body_of(Body::Status, groups, signatures, shares, psk).len() == 5,
        body_of(Body::Padding, groups, signatures, shares, psk).len() == 128,
        0 <= i < 5 ==> body_of(Body::Status, groups, signatures, shares, psk)[i] == 0,
        0 <= i < 128 ==> body_of(Body::Padding, groups, signatures, shares, psk)[i] == 0,
{
    assert(tls_extensions::version_list(VERSIONS@) =~= seq![2u8, 4, 3]);
}

/// A profile keeps what its tables say, offers the same protocols as every browser, and begins with
/// packets of 1200 bytes under the first version of QUIC.
pub proof fn law_profiles_keep_their_tables(
    name: Seq<char>,
    suites: Seq<u16>,
    rows: Seq<(u16, Body)>,
    groups: Seq<u16>,
    signatures: Seq<u16>,
    shares: Seq<u16>,
    psk: Seq<u8>,
    row: (u64, u64, u64, u64, u64, u64, u64, u64, u64, u64),
    i: int,
)
    ensures
        ({
            let p = profile_of(name, suites, rows, groups, signatures, shares, psk, row);
            &&& p.name == name
            &&& p.tls_version == 0x0303
            &&& p.cipher_suites == suites
            &&& p.supported_groups == groups
            &&& p.signature_algorithms == signatures
            &&& p.initial_packet_size == 1200
            &&& p.quic_version == 1
            &&& p.alpn_protocols.len() == 3
            &&& p.extensions.len() == rows.len()
            &&& 0 <= i < rows.len() ==> p.extensions[i].0 == rows[i].0
            &&& p.quic_transport_params.max_udp_payload_size == row.0
            &&& p.quic_transport_params.initial_max_data == row.1
            &&& p.quic_transport_params.initial_max_stream_data_bidi_local == row.2
            &&& p.quic_transport_params.initial_max_stream_data_bidi_remote == row.3
            &&& p.quic_transport_params.initial_max_stream_data_uni == row.4
            &&& p.quic_transport_params.initial_max_streams_bidi == row.5
            &&& p.quic_transport_params.initial_max_streams_uni == row.6
            &&& !p.quic_transport_params.disable_active_migration
        }),
{
}

} // verus!
