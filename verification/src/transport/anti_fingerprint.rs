//! Browser fingerprints of the connections that the client opens.

pub use crate::transport::browser_profiles::{BrowserProfile, TlsExtension, TransportParams};

use crate::transport::browser_profiles::{
    ProfileView, EXT_SERVER_NAME, TLS12, TLS13, TLS_AES_128_GCM_SHA256, TLS_AES_256_GCM_SHA384,
    TLS_CHACHA20_POLY1305_SHA256, TLS_ECDHE_ECDSA_WITH_AES_128_CBC_SHA,
    TLS_ECDHE_ECDSA_WITH_AES_128_GCM_SHA256, TLS_ECDHE_ECDSA_WITH_AES_256_CBC_SHA,
    TLS_ECDHE_ECDSA_WITH_AES_256_GCM_SHA384, TLS_ECDHE_ECDSA_WITH_CHACHA20_POLY1305_SHA256,
    TLS_ECDHE_RSA_WITH_AES_128_CBC_SHA, TLS_ECDHE_RSA_WITH_AES_128_GCM_SHA256,
    TLS_ECDHE_RSA_WITH_AES_256_CBC_SHA, TLS_ECDHE_RSA_WITH_AES_256_GCM_SHA384,
    TLS_ECDHE_RSA_WITH_CHACHA20_POLY1305_SHA256, TLS_RSA_WITH_AES_128_CBC_SHA,
    TLS_RSA_WITH_AES_128_GCM_SHA256, TLS_RSA_WITH_AES_256_CBC_SHA, TLS_RSA_WITH_AES_256_GCM_SHA384,
};
#[allow(unused_imports)]
use crate::transport::browser_profiles;
use crate::transport::hex;
use crate::transport::tls_extensions::{
    FFDHE2048, FFDHE3072, SECP256R1, SECP384R1, SECP521R1, X25519,
};
#[allow(unused_imports)]
use crate::utils::md5;
use crate::utils::error::{PhantomError, PhantomResult};
use crate::utils::random::random_between;
#[allow(unused_imports)]
use crate::utils::text;
use crate::utils::text::{chars_of, decimal, digit, join, push_char};
use vstd::prelude::*;
use vstd::string::StringExecFns;

verus! {

/// The suites that a profile may ask the TLS library for.
pub const KNOWN_SUITES: [u16; 17] = [
    TLS_AES_128_GCM_SHA256,
    TLS_AES_256_GCM_SHA384,
    TLS_CHACHA20_POLY1305_SHA256,
    TLS_ECDHE_ECDSA_WITH_AES_128_GCM_SHA256,
    TLS_ECDHE_RSA_WITH_AES_128_GCM_SHA256,
    TLS_ECDHE_ECDSA_WITH_AES_256_GCM_SHA384,
    TLS_ECDHE_RSA_WITH_AES_256_GCM_SHA384,
    TLS_ECDHE_ECDSA_WITH_CHACHA20_POLY1305_SHA256,
    TLS_ECDHE_RSA_WITH_CHACHA20_POLY1305_SHA256,
    TLS_ECDHE_RSA_WITH_AES_128_CBC_SHA,
    TLS_ECDHE_RSA_WITH_AES_256_CBC_SHA,
    TLS_RSA_WITH_AES_128_GCM_SHA256,
    TLS_RSA_WITH_AES_256_GCM_SHA384,
    TLS_RSA_WITH_AES_128_CBC_SHA,
    TLS_RSA_WITH_AES_256_CBC_SHA,
    TLS_ECDHE_ECDSA_WITH_AES_128_CBC_SHA,
    TLS_ECDHE_ECDSA_WITH_AES_256_CBC_SHA,
];

/// The groups that a profile may ask the TLS library for.
pub const KNOWN_GROUPS: [u16; 6] = [
    X25519,
    SECP256R1,
    SECP384R1,
    SECP521R1,
    FFDHE2048,
    FFDHE3072,
];

/// What `ring::digest::digest` gives for SHA-256.
pub uninterp spec fn sha256_of(data: Seq<u8>) -> Seq<u8>;

/// `ring::digest::digest` with `ring::digest::SHA256`. The digest is named, and is
/// claimed to have 32 bytes. The call panics on more data than its bit count can hold,
/// so such data are left out.
#[verifier::external_body]
fn sha256(data: &[u8]) -> (digest: Vec<u8>)
    requires
        data@.len() < 0x2000_0000_0000_0000,
    ensures
        digest@ == sha256_of(data@),
        digest@.len() == 32,
{
    ring::digest::digest(&ring::digest::SHA256, data).as_ref().to_vec()
}

/// What `String::from_utf8_lossy` gives.
pub uninterp spec fn lossy_text(data: Seq<u8>) -> Seq<char>;

/// `String::from_utf8_lossy`. The text is named; of valid UTF-8 it is claimed that it
/// is the text that the bytes encode.
#[verifier::external_body]
fn to_lossy(data: &[u8]) -> (s: String)
    ensures
        s@ == lossy_text(data@),
        vstd::utf8::valid_utf8(data@) ==> vstd::utf8::encode_utf8(s@) == data@,
{
    String::from_utf8_lossy(data).into_owned()
}

/// The suites of `rustls::crypto::ring::default_provider`, by their IANA numbers.
/// Claimed: three of TLS 1.3 and six of TLS 1.2, in the provider's order.
#[verifier::external_body]
fn provider_suites() -> (ids: Vec<u16>)
    ensures
        ids@ == seq![
            0x1302u16,
            0x1301,
            0x1303,
            0xc02c,
            0xc02b,
            0xcca9,
            0xc030,
            0xc02f,
            0xcca8,
        ],
{
    let provider = rustls::crypto::ring::default_provider();
    provider.cipher_suites.iter().map(|s| u16::from(s.suite())).collect()
}

/// The groups of `rustls::crypto::ring::default_provider`, by their IANA numbers.
/// Claimed: X25519, secp256r1 and secp384r1, in this order.
#[verifier::external_body]
fn provider_groups() -> (ids: Vec<u16>)
    ensures
        ids@ == seq![0x001du16, 0x0017, 0x0018],
{
    let provider = rustls::crypto::ring::default_provider();
    provider.kx_groups.iter().map(|g| u16::from(g.name())).collect()
}

/// `quinn::VarInt::from_u64`. Claimed: it succeeds exactly below 2^62, keeps the
/// number, and otherwise says that the value is too large.
#[verifier::external_body]
fn var_int(x: u64) -> (r: Result<u64, String>)
    ensures
        match r {
            Ok(n) => n == x && x < 0x4000_0000_0000_0000,
            Err(e) => x >= 0x4000_0000_0000_0000 && e@ == "value too large for varint encoding"@,
        },
{
    match quinn::VarInt::from_u64(x) {
        Ok(n) => Ok(n.into_inner()),
        Err(e) => Err(e.to_string()),
    }
}

/// Numbers in decimal with dashes between them.
pub open spec fn dashed(items: Seq<u16>) -> Seq<char>
    decreases items.len(),
{
    if items.len() == 0 {
        Seq::empty()
    } else if items.len() == 1 {
        text::decimal_of(items[0] as nat)
    } else {
        dashed(items.drop_last()).push('-') + text::decimal_of(items.last() as nat)
    }
}

/// The types of extensions.
pub open spec fn types_of(extensions: Seq<(u16, Seq<u8>)>) -> Seq<u16> {
    extensions.map_values(|e: (u16, Seq<u8>)| e.0)
}

/// Bytes as wider numbers.
pub open spec fn widened(items: Seq<u8>) -> Seq<u16> {
    items.map_values(|b: u8| b as u16)
}

/// Version, suites, extensions, groups and point formats.
pub open spec fn ja3_of(p: ProfileView) -> Seq<char> {
    text::decimal_of(p.tls_version as nat).push(',') + dashed(p.cipher_suites).push(',') + dashed(
        types_of(p.extensions),
    ).push(',') + dashed(p.supported_groups).push(',') + dashed(widened(p.ec_point_formats))
}

/// A number with at least two digits.
pub open spec fn two_digits(n: nat) -> Seq<char> {
    if n < 10 {
        seq!['0'] + text::decimal_of(n)
    } else {
        text::decimal_of(n)
    }
}

/// Four lower-case hexadecimal digits.
pub open spec fn four_hex(n: u16) -> Seq<char> {
    text::hex_byte((n / 256) as u8) + text::hex_byte((n % 256) as u8)
}

/// The version in two digits.
pub open spec fn version_text(version: u16) -> Seq<char> {
    if version == TLS13 {
        "13"@
    } else if version == TLS12 {
        "12"@
    } else {
        "00"@
    }
}

/// The first protocol: its length and the low byte of its first character.
pub open spec fn alpn_text(name: Option<Seq<char>>) -> Seq<char> {
    match name {
        None => "00"@,
        Some(s) => two_digits(vstd::utf8::encode_utf8(s).len()) + two_digits(
            if s.len() == 0 {
                0
            } else {
                (s[0] as int % 256) as nat
            },
        ),
    }
}

/// The first number of a list, or zero.
pub open spec fn first_or_zero(items: Seq<u16>) -> u16 {
    if items.len() == 0 {
        0
    } else {
        items[0]
    }
}

/// The last number of a list, or zero.
pub open spec fn last_or_zero(items: Seq<u16>) -> u16 {
    if items.len() == 0 {
        0
    } else {
        items.last()
    }
}

/// Protocol, version, whether a server is named, counts, first protocol, and the
/// outermost suites and extensions.
pub open spec fn ja4_of(p: ProfileView, name: Option<Seq<char>>) -> Seq<char> {
    let types = types_of(p.extensions);
    seq!['q', '_'] + version_text(p.tls_version) + seq![
        '_',
        if types.contains(EXT_SERVER_NAME) {
            'd'
        } else {
            'i'
        },
        '_',
    ] + text::decimal_of(p.cipher_suites.len()).push('_') + two_digits(types.len()).push('_')
        + alpn_text(name).push('_') + four_hex(first_or_zero(p.cipher_suites)).push('_')
        + four_hex(first_or_zero(types)).push('_') + four_hex(last_or_zero(p.cipher_suites)).push(
        '_',
    ) + four_hex(last_or_zero(types))
}

/// The text of the first protocol.
pub open spec fn first_protocol(p: ProfileView) -> Option<Seq<char>> {
    if p.alpn_protocols.len() == 0 {
        None
    } else {
        Some(lossy_text(p.alpn_protocols[0]))
    }
}

/// The text's bytes.
pub open spec fn bytes_of(s: Seq<char>) -> Seq<u8> {
    vstd::utf8::encode_utf8(s)
}

/// The JA3 fingerprint: the MD5 digest of the JA3 text.
pub open spec fn ja3_hash(p: ProfileView) -> Seq<char> {
    text::hex_of(md5::md5_of(bytes_of(ja3_of(p))))
}

/// The hash of the JA4 text.
pub open spec fn ja4_hash(p: ProfileView) -> Seq<char> {
    text::hex_of(sha256_of(bytes_of(ja4_of(p, first_protocol(p)))))
}

/// Whether two texts are equal but for the case of ASCII letters.
pub open spec fn same_but_case(a: Seq<char>, b: Seq<char>) -> bool {
    a.map_values(|c: char| text::ascii_lower(c)) == b.map_values(|c: char| text::ascii_lower(c))
}

/// The numbers of `wanted` that are both known and offered, in the wanted order.
pub open spec fn usable(wanted: Seq<u16>, known: Seq<u16>, offered: Seq<u16>) -> Seq<u16> {
    wanted.filter(|x: u16| known.contains(x) && offered.contains(x))
}

/// The suites and groups to set up a connection with.
#[derive(Debug)]
pub struct CryptoChoice {
    pub suites: Vec<u16>,
    pub groups: Vec<u16>,
}

/// What a choice from the offered suites and groups gives: an error where no suite, or
/// else no group, is usable.
pub open spec fn is_choice(
    p: ProfileView,
    suites: Seq<u16>,
    groups: Seq<u16>,
    r: PhantomResult<CryptoChoice>,
) -> bool {
    let s = usable(p.cipher_suites, KNOWN_SUITES@, suites);
    let g = usable(p.supported_groups, KNOWN_GROUPS@, groups);
    match r {
        Ok(c) => s.len() > 0 && g.len() > 0 && c.suites@ == s && c.groups@ == g,
        Err(e) => if s.len() == 0 {
            e.is_crypto("No cipher suites matched browser profile"@)
        } else {
            g.len() == 0 && e.is_crypto("No key exchange groups matched browser profile"@)
        },
    }
}

/// The limits that a connection is set up with.
#[derive(Debug)]
pub struct TransportSettings {
    pub max_concurrent_bidi_streams: u64,
    pub max_concurrent_uni_streams: u64,
    pub stream_receive_window: u64,
    pub receive_window: u64,
    pub send_window: u64,
    pub initial_mtu: u16,
    pub min_mtu: u16,
    pub keep_alive_secs: u64,
}

/// Whether a number can be sent as a QUIC integer.
pub open spec fn fits_var_int(x: u64) -> bool {
    x < 0x4000_0000_0000_0000
}

/// What is said of a parameter that cannot be sent.
pub open spec fn too_large(what: Seq<char>) -> Seq<char> {
    what + "value too large for varint encoding"@
}

/// The limits that the parameters ask for, or the first of them that cannot be sent.
pub open spec fn is_settings(p: TransportParams, r: PhantomResult<TransportSettings>) -> bool {
    match r {
        Ok(t) => {
            &&& fits_var_int(p.initial_max_streams_bidi)
            &&& fits_var_int(p.initial_max_streams_uni)
            &&& fits_var_int(p.initial_max_stream_data_bidi_remote)
            &&& fits_var_int(p.initial_max_data)
            &&& t == TransportSettings {
                max_concurrent_bidi_streams: p.initial_max_streams_bidi,
                max_concurrent_uni_streams: p.initial_max_streams_uni,
                stream_receive_window: p.initial_max_stream_data_bidi_remote,
                receive_window: p.initial_max_data,
                send_window: p.initial_max_data,
                initial_mtu: (p.max_udp_payload_size % 65536) as u16,
                min_mtu: 1200,
                keep_alive_secs: 15,
            }
        },
        Err(e) => if !fits_var_int(p.initial_max_streams_bidi) {
            e.is_config(too_large("Invalid bidi streams: "@))
        } else if !fits_var_int(p.initial_max_streams_uni) {
            e.is_config(too_large("Invalid uni streams: "@))
        } else if !fits_var_int(p.initial_max_stream_data_bidi_remote) {
            e.is_config(too_large("Invalid stream window: "@))
        } else {
            !fits_var_int(p.initial_max_data) && e.is_config(
                too_large("Invalid receive window: "@),
            )
        },
    }
}

/// The `pick`-th known profile.
pub open spec fn known_profile(pick: int) -> ProfileView {
    if pick == 0 {
        browser_profiles::chrome_view()
    } else if pick == 1 {
        browser_profiles::firefox_view()
    } else if pick == 2 {
        browser_profiles::edge_view()
    } else {
        browser_profiles::safari_view()
    }
}

/// Decimal text of a machine number has at most twenty digits.
proof fn lemma_decimal_len(n: nat)
    requires
        n <= u64::MAX,
    ensures
        text::decimal_of(n).len() <= 20,
{
    reveal_with_fuel(text::decimal_of, 21);
}

/// No character takes more than four bytes.
proof fn lemma_utf8_len(s: Seq<char>)
    ensures
        vstd::utf8::encode_utf8(s).len() <= 4 * s.len(),
    decreases s.len(),
{
    if s.len() > 0 {
        lemma_utf8_len(s.drop_first());
    }
}

fn dash_join(items: &Vec<u16>) -> (s: String)
    ensures
        s@ == dashed(items@),
{
    let mut s = String::new();
    let mut i: usize = 0;
    assert(items@.subrange(0, 0) =~= Seq::empty());
    while i < items.len()
        invariant
            i <= items@.len(),
            s@ == dashed(items@.subrange(0, i as int)),
        decreases items@.len() - i,
    {
        proof {
            let upto = items@.subrange(0, i + 1);
            assert(upto.drop_last() =~= items@.subrange(0, i as int));
        }
        if i > 0 {
            push_char(&mut s, '-');
        }
        let ghost before = s@;
        s.append(decimal(items[i] as u128).as_str());
        i = i + 1;
        proof {
            if i == 1 {
                assert(s@ =~= text::decimal_of(items@[0] as nat));
            }
        }
    }
    assert(items@.subrange(0, i as int) =~= items@);
    s
}

fn extension_types(extensions: &Vec<TlsExtension>) -> (types: Vec<u16>)
    ensures
        types@ == types_of(browser_profiles::extension_views(extensions@)),
{
    let ghost want = types_of(browser_profiles::extension_views(extensions@));
    let mut types: Vec<u16> = Vec::new();
    let mut i: usize = 0;
    while i < extensions.len()
        invariant
            i <= extensions@.len(),
            want == types_of(browser_profiles::extension_views(extensions@)),
            types@ == want.subrange(0, i as int),
        decreases extensions@.len() - i,
    {
        types.push(extensions[i].ext_type);
        i = i + 1;
        assert(types@ =~= want.subrange(0, i as int));
    }
    assert(types@ =~= want);
    types
}

fn widen(items: &Vec<u8>) -> (wide: Vec<u16>)
    ensures
        wide@ == widened(items@),
{
    let mut wide: Vec<u16> = Vec::new();
    let mut i: usize = 0;
    while i < items.len()
        invariant
            i <= items@.len(),
            wide@ == widened(items@).subrange(0, i as int),
        decreases items@.len() - i,
    {
        wide.push(items[i] as u16);
        i = i + 1;
        assert(wide@ =~= widened(items@).subrange(0, i as int));
    }
    assert(wide@ =~= widened(items@));
    wide
}

fn has(items: &[u16], x: u16) -> (b: bool)
    ensures
        b == items@.contains(x),
{
    let mut i: usize = 0;
    while i < items.len()
        invariant
            i <= items@.len(),
            forall|k: int| 0 <= k < i ==> items@[k] != x,
        decreases items@.len() - i,
    {
        if items[i] == x {
            return true;
        }
        i = i + 1;
    }
    false
}

fn push_two_digits(s: &mut String, n: u64)
    ensures
        final(s)@ == old(s)@ + two_digits(n as nat),
        two_digits(n as nat).len() <= 21,
{
    proof {
        lemma_decimal_len(n as nat);
    }
    if n < 10 {
        push_char(s, '0');
    }
    s.append(decimal(n as u128).as_str());
    assert(s@ =~= old(s)@ + two_digits(n as nat));
}

fn push_four_hex(s: &mut String, n: u16)
    ensures
        final(s)@ == old(s)@ + four_hex(n),
{
    crate::utils::text::push_hex(s, (n / 256) as u8);
    crate::utils::text::push_hex(s, (n % 256) as u8);
    assert(s@ =~= old(s)@ + four_hex(n));
}

fn protocol_text(name: Option<&String>) -> (s: String)
    ensures
        s@ == alpn_text(
            match name {
                None => None,
                Some(n) => Some(n@),
            },
        ),
        s@.len() <= 42,
{
    match name {
        None => {
            proof {
                reveal_strlit("00");
            }
            String::from_str("00")
        },
        Some(n) => {
            let mut s = String::new();
            push_two_digits(&mut s, n.as_str().as_bytes().len() as u64);
            let chars = chars_of(n.as_str());
            let first: u64 = if chars.len() == 0 {
                0
            } else {
                let code: u32 = chars[0] as u32;
                proof {
                    vstd::utf8::char_u32_cast(chars@[0], code);
                }
                (code % 256) as u64
            };
            push_two_digits(&mut s, first);
            assert(s@ =~= alpn_text(Some(n@)));
            s
        },
    }
}

fn lower(c: char) -> (r: char)
    ensures
        r == text::ascii_lower(c),
{
    if c >= 'A' && c <= 'Z' {
        (c as u8 + 32) as char
    } else {
        c
    }
}

fn eq_ignore_case(a: &str, b: &str) -> (r: bool)
    ensures
        r == same_but_case(a@, b@),
{
    let x = chars_of(a);
    let y = chars_of(b);
    let ghost (s, t) = (
        a@.map_values(|c: char| text::ascii_lower(c)),
        b@.map_values(|c: char| text::ascii_lower(c)),
    );
    if x.len() != y.len() {
        assert(s.len() != t.len());
        return false;
    }
    let mut i: usize = 0;
    while i < x.len()
        invariant
            i <= x@.len(),
            x@ == a@,
            y@ == b@,
            x@.len() == y@.len(),
            s == a@.map_values(|c: char| text::ascii_lower(c)),
            t == b@.map_values(|c: char| text::ascii_lower(c)),
            forall|k: int| 0 <= k < i ==> s[k] == t[k],
        decreases x@.len() - i,
    {
        if lower(x[i]) != lower(y[i]) {
            assert(s[i as int] != t[i as int]);
            return false;
        }
        i = i + 1;
    }
    assert(s =~= t);
    true
}

/// The usable numbers of `wanted`.
pub fn select_usable(wanted: &[u16], known: &[u16], offered: &[u16]) -> (r: Vec<u16>)
    ensures
        r@ == usable(wanted@, known@, offered@),
{
    let ghost keep = |x: u16| known@.contains(x) && offered@.contains(x);
    let mut r: Vec<u16> = Vec::new();
    let mut i: usize = 0;
    proof {
        reveal(Seq::filter);
        assert(wanted@.subrange(0, 0) =~= Seq::empty());
    }
    while i < wanted.len()
        invariant
            i <= wanted@.len(),
            keep == (|x: u16| known@.contains(x) && offered@.contains(x)),
            r@ == wanted@.subrange(0, i as int).filter(keep),
        decreases wanted@.len() - i,
    {
        proof {
            reveal(Seq::filter);
            assert(wanted@.subrange(0, i + 1).drop_last() =~= wanted@.subrange(0, i as int));
        }
        if has(known, wanted[i]) && has(offered, wanted[i]) {
            r.push(wanted[i]);
        }
        i = i + 1;
    }
    assert(wanted@.subrange(0, i as int) =~= wanted@);
    r
}

/// Chooses suites and groups for a profile out of those that are offered.
pub fn choose_crypto(profile: &BrowserProfile, suites: &Vec<u16>, groups: &Vec<u16>) -> (r:
    PhantomResult<CryptoChoice>)
    ensures
        is_choice(profile@, suites@, groups@, r),
{
    let s = select_usable(profile.cipher_suites.as_slice(), &KNOWN_SUITES, suites.as_slice());
    if s.len() == 0 {
        return Err(
            PhantomError::CryptoError("No cipher suites matched browser profile".to_string()),
        );
    }
    let g = select_usable(profile.supported_groups.as_slice(), &KNOWN_GROUPS, groups.as_slice());
    if g.len() == 0 {
        return Err(
            PhantomError::CryptoError(
                "No key exchange groups matched browser profile".to_string(),
            ),
        );
    }
    Ok(CryptoChoice { suites: s, groups: g })
}

fn limit(x: u64, what: &str) -> (r: PhantomResult<u64>)
    ensures
        match r {
            Ok(n) => n == x && fits_var_int(x),
            Err(e) => !fits_var_int(x) && e.is_config(too_large(what@)),
        },
{
    match var_int(x) {
        Ok(n) => Ok(n),
        Err(e) => Err(PhantomError::ConfigError(join(what, e.as_str()))),
    }
}

/// The limits that the parameters ask for.
pub fn transport_settings(p: &TransportParams) -> (r: PhantomResult<TransportSettings>)
    ensures
        is_settings(*p, r),
{
    let bidi: u64 = match limit(p.initial_max_streams_bidi, "Invalid bidi streams: ") {
        Ok(n) => n,
        Err(e) => {
            return Err(e);
        },
    };
    let uni: u64 = match limit(p.initial_max_streams_uni, "Invalid uni streams: ") {
        Ok(n) => n,
        Err(e) => {
            return Err(e);
        },
    };
    let stream: u64 = match limit(
        p.initial_max_stream_data_bidi_remote,
        "Invalid stream window: ",
    ) {
        Ok(n) => n,
        Err(e) => {
            return Err(e);
        },
    };
    let receive: u64 = match limit(p.initial_max_data, "Invalid receive window: ") {
        Ok(n) => n,
        Err(e) => {
            return Err(e);
        },
    };
    Ok(
        TransportSettings {
            max_concurrent_bidi_streams: bidi,
            max_concurrent_uni_streams: uni,
            stream_receive_window: stream,
            receive_window: receive,
            send_window: p.initial_max_data,
            initial_mtu: (p.max_udp_payload_size % 65536) as u16,
            min_mtu: 1200,
            keep_alive_secs: 15,
        },
    )
}

/// The JA3 text of a profile.
pub fn ja3_text(profile: &BrowserProfile) -> (s: String)
    ensures
        s@ == ja3_of(profile@),
{
    let mut s = decimal(profile.tls_version as u128);
    push_char(&mut s, ',');
    let ghost a = s@;
    s.append(dash_join(&profile.cipher_suites).as_str());
    push_char(&mut s, ',');
    assert(s@ =~= a + dashed(profile@.cipher_suites).push(','));
    let ghost b = s@;
    s.append(dash_join(&extension_types(&profile.extensions)).as_str());
    push_char(&mut s, ',');
    assert(s@ =~= b + dashed(types_of(profile@.extensions)).push(','));
    let ghost c = s@;
    s.append(dash_join(&profile.supported_groups).as_str());
    push_char(&mut s, ',');
    assert(s@ =~= c + dashed(profile@.supported_groups).push(','));
    s.append(dash_join(&widen(&profile.ec_point_formats)).as_str());
    s
}

/// The JA4 text of a profile whose first protocol reads as `name`.
pub fn ja4_text(profile: &BrowserProfile, name: Option<&String>) -> (s: String)
    ensures
        s@ == ja4_of(
            profile@,
            match name {
                None => None,
                Some(n) => Some(n@),
            },
        ),
        s@.len() <= 150,
{
    let types = extension_types(&profile.extensions);
    let count: u64 = profile.cipher_suites.len() as u64;
    let ghost p = profile@;
    let ghost given = match name {
        None => None,
        Some(n) => Some(n@),
    };
    proof {
        reveal_strlit("13");
        reveal_strlit("12");
        reveal_strlit("00");
        lemma_decimal_len(count as nat);
    }
    let mut s = String::new();
    push_char(&mut s, 'q');
    push_char(&mut s, '_');
    assert(s@ =~= seq!['q', '_']);
    if profile.tls_version == TLS13 {
        s.append("13");
    } else if profile.tls_version == TLS12 {
        s.append("12");
    } else {
        s.append("00");
    }
    let ghost a = s@;
    push_char(&mut s, '_');
    let named = has(types.as_slice(), EXT_SERVER_NAME);
    push_char(&mut s, if named { 'd' } else { 'i' });
    push_char(&mut s, '_');
    assert(s@ =~= a + seq!['_', if named { 'd' } else { 'i' }, '_']);
    let ghost b = s@;
    s.append(decimal(count as u128).as_str());
    push_char(&mut s, '_');
    assert(s@ =~= b + text::decimal_of(p.cipher_suites.len()).push('_'));
    let ghost c = s@;
    push_two_digits(&mut s, types.len() as u64);
    push_char(&mut s, '_');
    assert(s@ =~= c + two_digits(types@.len()).push('_'));
    let ghost d = s@;
    s.append(protocol_text(name).as_str());
    push_char(&mut s, '_');
    assert(s@ =~= d + alpn_text(given).push('_'));
    let ghost e = s@;
    let suites = &profile.cipher_suites;
    push_four_hex(&mut s, if suites.len() == 0 { 0 } else { suites[0] });
    push_char(&mut s, '_');
    assert(s@ =~= e + four_hex(first_or_zero(p.cipher_suites)).push('_'));
    let ghost f = s@;
    push_four_hex(&mut s, if types.len() == 0 { 0 } else { types[0] });
    push_char(&mut s, '_');
    assert(s@ =~= f + four_hex(first_or_zero(types@)).push('_'));
    let ghost g = s@;
    push_four_hex(&mut s, if suites.len() == 0 { 0 } else { suites[suites.len() - 1] });
    push_char(&mut s, '_');
    assert(s@ =~= g + four_hex(last_or_zero(p.cipher_suites)).push('_'));
    push_four_hex(&mut s, if types.len() == 0 { 0 } else { types[types.len() - 1] });
    s
}

/// Wears the fingerprint of a browser.
#[derive(Debug)]
pub struct QuicFingerprintSpo {
    target_browser: BrowserProfile,
    current_profile: BrowserProfile,
}

impl QuicFingerprintSpo {
    /// The profile that was asked for.
    pub closed spec fn target(&self) -> ProfileView {
        self.target_browser@
    }

    /// The profile in use.
    pub closed spec fn current(&self) -> ProfileView {
        self.current_profile@
    }

    /// Wears the given profile.
    pub fn new(browser: BrowserProfile) -> (s: Self)
        ensures
            s.target() == browser@,
            s.current() == browser@,
    {
        QuicFingerprintSpo { target_browser: browser.clone(), current_profile: browser }
    }

    /// The profile in use.
    pub fn current_profile(&self) -> (p: &BrowserProfile)
        ensures
            p@ == self.current(),
    {
        &self.current_profile
    }

    /// The profile that was asked for.
    pub fn target_browser(&self) -> (p: &BrowserProfile)
        ensures
            p@ == self.target(),
    {
        &self.target_browser
    }

    /// Compute JA3 fingerprint hash from the current profile.
    ///
    /// JA3 = MD5(ssl_version,cipher_suites,extensions,elliptic_curves,elliptic_curve_point_formats)
    pub fn compute_ja3_hash(&self) -> (s: String)
        ensures
            s@ == ja3_hash(self.current()),
    {
        let t = ja3_text(&self.current_profile);
        hex::encode(md5::md5(t.as_str().as_bytes()).as_slice())
    }

    /// Compute JA4 fingerprint hash for QUIC.
    ///
    /// JA4 = {proto}_{tls_version}_{sni}_{cipher_count}_{ext_count}_{alpn}_{first_cipher}_{first_ext}_{last_cipher}_{last_ext}
    pub fn compute_ja4_hash(&self) -> (s: String)
        ensures
            s@ == ja4_hash(self.current()),
            s@.len() == 64,
    {
        let protocols = &self.current_profile.alpn_protocols;
        let t = if protocols.len() == 0 {
            ja4_text(&self.current_profile, None)
        } else {
            let name = to_lossy(protocols[0].as_slice());
            ja4_text(&self.current_profile, Some(&name))
        };
        proof {
            lemma_utf8_len(t@);
        }
        let digest = sha256(t.as_str().as_bytes());
        proof {
            hex::law_hex_doubles_length(digest@);
        }
        hex::encode(digest.as_slice())
    }

    /// Whether the profile in use has the given fingerprints.
    pub fn verify_match(&self, target_ja3: &str, target_ja4: &str) -> (r: bool)
        ensures
            r == (same_but_case(ja3_hash(self.current()), target_ja3@) && same_but_case(
                ja4_hash(self.current()),
                target_ja4@,
            )),
    {
        let our_ja3 = self.compute_ja3_hash();
        let our_ja4 = self.compute_ja4_hash();
        let ja3_match = eq_ignore_case(our_ja3.as_str(), target_ja3);
        let ja4_match = eq_ignore_case(our_ja4.as_str(), target_ja4);
        ja3_match && ja4_match
    }

    /// Puts on the `pick`-th known profile.
    pub fn rotate_to(&mut self, pick: u64)
        requires
            pick < 4,
        ensures
            final(self).current() == known_profile(pick as int),
            final(self).target() == old(self).target(),
    {
        self.current_profile =
        if pick == 0 {
            BrowserProfile::chrome_120()
        } else if pick == 1 {
            BrowserProfile::firefox_121()
        } else if pick == 2 {
            BrowserProfile::edge_120()
        } else {
            BrowserProfile::safari_17()
        };
    }

    /// Puts on a known profile, chosen at random.
    pub fn rotate(&mut self) -> (r: PhantomResult<()>)
        ensures
            r is Ok,
            exists|pick: int|
                0 <= pick < 4 && final(self).current() == #[trigger] known_profile(pick),
            final(self).target() == old(self).target(),
    {
        let pick: u64 = random_between(0, 3);
        self.rotate_to(pick);
        Ok(())
    }

    /// The suites and groups of the profile in use that the TLS library has.
    pub fn build_crypto_provider(&self) -> (r: PhantomResult<CryptoChoice>)
        ensures
            is_choice(
                self.current(),
                seq![
                    0x1302u16,
                    0x1301,
                    0x1303,
                    0xc02c,
                    0xc02b,
                    0xcca9,
                    0xc030,
                    0xc02f,
                    0xcca8,
                ],
                seq![0x001du16, 0x0017, 0x0018],
                r,
            ),
    {
        choose_crypto(&self.current_profile, &provider_suites(), &provider_groups())
    }

    /// The TLS versions to offer.
    pub fn protocol_versions(&self) -> (v: Vec<u16>)
        ensures
            v@ == if self.current().tls_version == TLS13 {
                seq![TLS13]
            } else {
                seq![TLS13, TLS12]
            },
    {
        let mut v: Vec<u16> = Vec::new();
        v.push(TLS13);
        if self.current_profile.tls_version != TLS13 {
            v.push(TLS12);
        }
        v
    }

    /// The limits to set up a connection with.
    pub fn transport_settings(&self) -> (r: PhantomResult<TransportSettings>)
        ensures
            is_settings(self.current().quic_transport_params, r),
    {
        transport_settings(&self.current_profile.quic_transport_params)
    }
}

/// Chrome and Edge cannot be told apart by their fingerprints.
pub proof fn law_edge_looks_like_chrome()
    ensures
        ja3_hash(browser_profiles::edge_view()) == ja3_hash(browser_profiles::chrome_view()),
        ja4_hash(browser_profiles::edge_view()) == ja4_hash(browser_profiles::chrome_view()),
{
}

/// A profile's own fingerprints match it, in any case of their letters.
pub proof fn law_own_fingerprint_matches(own: Seq<char>, given: Seq<char>)
    requires
        given == own || given == own.map_values(|c: char| text::ascii_lower(c)),
    ensures
        same_but_case(own, given),
{
    assert(own.map_values(|c: char| text::ascii_lower(c)).map_values(
        |c: char| text::ascii_lower(c),
    ) =~= own.map_values(|c: char| text::ascii_lower(c)));
}

/// What is usable is wanted, known and offered, and nothing that is all three is left
/// out.
pub proof fn law_usable_is_wanted_known_and_offered(
    wanted: Seq<u16>,
    known: Seq<u16>,
    offered: Seq<u16>,
    x: u16,
)
    ensures
        usable(wanted, known, offered).contains(x) <==> wanted.contains(x) && known.contains(x)
            && offered.contains(x),
{
    let keep = |x: u16| known.contains(x) && offered.contains(x);
    if wanted.contains(x) && keep(x) {
        let i = choose|i: int| 0 <= i < wanted.len() && wanted[i] == x;
        wanted.lemma_filter_contains(keep, i);
    }
    if wanted.filter(keep).contains(x) {
        wanted.lemma_filter_contains_rev(keep, x);
        let j = choose|j: int| 0 <= j < wanted.filter(keep).len() && wanted.filter(keep)[j] == x;
        wanted.lemma_filter_pred(keep, j);
    }
}

/// Every known profile shares a suite and a group with any library that has the suite
/// and the group that all browsers put first.
pub proof fn law_known_profiles_are_usable(
    pick: int,
    suites: Seq<u16>,
    groups: Seq<u16>,
    r: PhantomResult<CryptoChoice>,
)
    requires
        suites.contains(TLS_AES_128_GCM_SHA256),
        groups.contains(X25519),
        is_choice(known_profile(pick), suites, groups, r),
    ensures
        r is Ok,
{
    let p = known_profile(pick);
    assert(p.cipher_suites[0] == TLS_AES_128_GCM_SHA256);
    assert(p.supported_groups[0] == X25519);
    assert(KNOWN_SUITES@[0] == TLS_AES_128_GCM_SHA256);
    assert(KNOWN_GROUPS@[0] == X25519);
    law_usable_is_wanted_known_and_offered(
        p.cipher_suites,
        KNOWN_SUITES@,
        suites,
        TLS_AES_128_GCM_SHA256,
    );
    law_usable_is_wanted_known_and_offered(p.supported_groups, KNOWN_GROUPS@, groups, X25519);
}

/// A further number is written behind a dash.
pub proof fn law_numbers_are_dashed(items: Seq<u16>, x: u16)
    requires
        items.len() > 0,
    ensures
        dashed(seq![x]) == text::decimal_of(x as nat),
        dashed(items.push(x)) == dashed(items) + seq!['-'] + text::decimal_of(x as nat),
        dashed(Seq::<u16>::empty()).len() == 0,
{
    assert(items.push(x).drop_last() =~= items);
    assert(items.push(x).last() == x);
    assert(dashed(items.push(x)) =~= dashed(items) + seq!['-'] + text::decimal_of(x as nat));
}

/// The JA3 text depends on version, suites, extension types, groups and point formats alone, and
/// the JA4 text on the version, the suites and the extension types; bodies of extensions do not
/// matter to either.
pub proof fn law_fingerprints_see_types_not_bodies(p: ProfileView, q: ProfileView, name: Option<
    Seq<char>,
>)
    requires
        p.tls_version == q.tls_version,
        p.cipher_suites == q.cipher_suites,
        types_of(p.extensions) == types_of(q.extensions),
    ensures
        p.supported_groups == q.supported_groups && p.ec_point_formats == q.ec_point_formats
            ==> ja3_of(p) == ja3_of(q),
        ja4_of(p, name) == ja4_of(q, name),
{
}

/// Versions are told apart: 1.3, 1.2 and all others. Small numbers have two digits.
pub proof fn law_versions_are_told_apart(version: u16, n: nat)
    ensures
        version == 0x0304 ==> version_text(version) == seq!['1', '3'],
        version == 0x0303 ==> version_text(version) == seq!['1', '2'],
        version != 0x0304 && version != 0x0303 ==> version_text(version) == seq!['0', '0'],
        n < 10 ==> two_digits(n) == seq!['0', (48 + n) as char],
        n >= 10 ==> two_digits(n) == text::decimal_of(n),
{
    reveal_strlit("13");
    reveal_strlit("12");
    reveal_strlit("00");
    assert("13"@ =~= seq!['1', '3']);
    assert("12"@ =~= seq!['1', '2']);
    assert("00"@ =~= seq!['0', '0']);
    if n < 10 {
        text::law_digits_stand_in_order(1, n);
        assert(two_digits(n) =~= seq!['0', (48 + n) as char]);
    }
}

/// A choice succeeds just where a wanted suite and a wanted group are both known and offered.
pub proof fn law_choices_need_a_suite_and_a_group(
    p: ProfileView,
    suites: Seq<u16>,
    groups: Seq<u16>,
    r: PhantomResult<CryptoChoice>,
)
    requires
        is_choice(p, suites, groups, r),
    ensures
        r is Ok <==> (exists|x: u16|
            #![trigger suites.contains(x)]
            p.cipher_suites.contains(x) && KNOWN_SUITES@.contains(x) && suites.contains(x)) && (
        exists|x: u16|
            #![trigger groups.contains(x)]
            p.supported_groups.contains(x) && KNOWN_GROUPS@.contains(x) && groups.contains(x)),
{
    lemma_some_usable(p.cipher_suites, KNOWN_SUITES@, suites);
    lemma_some_usable(p.supported_groups, KNOWN_GROUPS@, groups);
}

proof fn lemma_some_usable(wanted: Seq<u16>, known: Seq<u16>, offered: Seq<u16>)
    ensures
        usable(wanted, known, offered).len() > 0 <==> exists|x: u16|
            #![trigger offered.contains(x)]
            wanted.contains(x) && known.contains(x) && offered.contains(x),
{
    let u = usable(wanted, known, offered);
    if u.len() > 0 {
        let x = u[0];
        assert(u.contains(x));
        law_usable_is_wanted_known_and_offered(wanted, known, offered, x);
        assert(offered.contains(x));
    }
    if exists|x: u16|
        #![trigger offered.contains(x)]
        wanted.contains(x) && known.contains(x) && offered.contains(x) {
        let x = choose|x: u16|
            #![trigger offered.contains(x)]
            wanted.contains(x) && known.contains(x) && offered.contains(x);
        law_usable_is_wanted_known_and_offered(wanted, known, offered, x);
        assert(u.contains(x));
    }
}

/// Settings can be made just where each of the four limits is below 2^62, and give each stream and
/// the connection the window that was asked for, for receiving and for sending.
pub proof fn law_settings_give_what_was_asked_for(
    p: TransportParams,
    r: PhantomResult<TransportSettings>,
)
    requires
        is_settings(p, r),
    ensures
        r is Ok <==> p.initial_max_streams_bidi < 0x4000_0000_0000_0000 && p.initial_max_streams_uni
            < 0x4000_0000_0000_0000 && p.initial_max_stream_data_bidi_remote
            < 0x4000_0000_0000_0000 && p.initial_max_data < 0x4000_0000_0000_0000,
        r matches Ok(t) ==> {
            &&& t.max_concurrent_bidi_streams == p.initial_max_streams_bidi
            &&& t.max_concurrent_uni_streams == p.initial_max_streams_uni
            &&& t.stream_receive_window == p.initial_max_stream_data_bidi_remote
            &&& t.receive_window == p.initial_max_data
            &&& t.send_window == t.receive_window
            &&& p.max_udp_payload_size < 65536 ==> t.initial_mtu == p.max_udp_payload_size
            &&& t.min_mtu == 1200
            &&& t.keep_alive_secs == 15
        },
{
}

/// The picks are Chrome, Firefox, Edge and Safari in this order, and any other is Safari.
pub proof fn law_picks_are_browsers_in_order(pick: int)
    ensures
        pick == 0 ==> known_profile(pick).name == "chrome_120"@,
        pick == 1 ==> known_profile(pick).name == "firefox_121"@,
        pick == 2 ==> known_profile(pick) == browser_profiles::edge_view(),
        pick < 0 || pick > 2 ==> known_profile(pick).name == "safari_17"@,
{
}

} // verus!
