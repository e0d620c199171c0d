//! Player information forwarded by a Velocity proxy: the login challenge that
//! asks for it, the HMAC-SHA256 integrity check, and the decoding of the signed
//! payload into a game profile and the client's real address.
use hmac::{Hmac, Mac};
use rand::Rng;
use sha2::Sha256;
use vstd::prelude::*;
use vstd::slice::slice_subrange;
use vstd::string::StringSliceAdditionalSpecFns;

use crate::wire::{
    at, be_bytes, encode_optional_string, encode_string, encode_varint, lemma_at_concat,
    lemma_read_optional_string_encoded, lemma_read_string_encoded, lemma_read_uuid_encoded,
    lemma_read_varint_encoded, read_optional_string, read_string, read_uuid, read_varint,
    spec_read_optional_string, spec_read_string, spec_read_uuid, spec_read_varint, string_fits,
};

verus! {

/// The highest forwarding version this server understands.
pub const MAX_SUPPORTED_FORWARDING_VERSION: u8 = 4;

/// Length of the HMAC-SHA256 signature that starts a forwarding payload.
pub const SIGNATURE_LEN: usize = 32;

/// Why a forwarding payload was refused.
#[derive(Debug, Clone, Copy, PartialEq, Eq, Structural)]
pub enum VelocityError {
    NoData,
    /// The data is shorter than its signature.
    FailedReadSignature,
    FailedVerifyIntegrity,
    FailedReadForwardVersion,
    /// The version that was sent, and the highest one supported.
    UnsupportedForwardVersion(u32, u8),
    FailedReadAddress,
    FailedParseAddress,
    FailedReadProfileName,
    FailedReadProfileUUID,
    FailedReadProfileProperties,
}

/// A named profile property (a skin texture, for instance), passed on as it came.
#[derive(Debug, Clone, PartialEq, Eq)]
pub struct Property {
    pub name: String,
    pub value: String,
    /// Present only when the source signed the property.
    pub signature: Option<String>,
}

/// Flags the authentication service may set on a profile.
#[derive(Debug, Clone, Copy, PartialEq, Eq)]
pub enum ProfileAction {
    ForcedNameChange,
    UsingBannedSkin,
}

/// A player's identity.
#[derive(Debug, Clone, PartialEq, Eq)]
pub struct GameProfile {
    pub id: u128,
    pub name: String,
    pub properties: Vec<Property>,
    pub profile_actions: Option<Vec<ProfileAction>>,
}

/// The client's real address as the proxy gave it: an IP literal, not yet
/// parsed, and the port this server listens on.
#[derive(Debug, Clone, PartialEq, Eq)]
pub struct ForwardedAddress {
    pub ip: String,
    pub port: u16,
}

/// The login plugin request that asks the proxy for the player's information.
#[derive(Debug, Clone, PartialEq, Eq)]
pub struct LoginPluginRequest {
    pub message_id: i32,
    pub channel: String,
    pub data: Vec<u8>,
}

/// A property as name, value and optional signature.
pub type PropertyView = (Seq<char>, Seq<char>, Option<Seq<char>>);

/// A profile as identifier, name and properties in order.
pub type ProfileView = (u128, Seq<char>, Seq<PropertyView>);

pub open spec fn opt_view(o: Option<String>) -> Option<Seq<char>> {
    match o {
        Some(s) => Some(s@),
        None => None,
    }
}

impl View for Property {
    type V = PropertyView;

    open spec fn view(&self) -> PropertyView {
        (self.name@, self.value@, opt_view(self.signature))
    }
}

pub open spec fn properties_view(v: Seq<Property>) -> Seq<PropertyView> {
    v.map_values(|p: Property| p@)
}

impl View for GameProfile {
    type V = ProfileView;

    open spec fn view(&self) -> ProfileView {
        (self.id, self.name@, properties_view(self.properties@))
    }
}

/// The HMAC-SHA256 of `message` under `key`.
pub uninterp spec fn hmac_sha256(key: Seq<u8>, message: Seq<u8>) -> Seq<u8>;

/// Relies on hmac's `Mac::verify_slice` for `Hmac<Sha256>`: true exactly when
/// `tag` is the MAC of `message` under `key`, compared in constant time; a tag
/// that is not 32 bytes long is refused before any comparison. A key of any
/// length is accepted by `new_from_slice`.
#[verifier::external_body]
fn hmac_sha256_verify(key: &[u8], message: &[u8], tag: &[u8]) -> (r: bool)
    ensures
        r == (tag@ == hmac_sha256(key@, message@)),
        tag@.len() != 32 ==> !r,
{
    match <Hmac<Sha256> as Mac>::new_from_slice(key) {
        Ok(mut mac) => {
            mac.update(message);
            mac.verify_slice(tag).is_ok()
        },
        Err(_) => false,
    }
}

/// Whether `signature` is the HMAC-SHA256 of `message` keyed with the bytes of `secret`.
pub open spec fn signature_valid(signature: Seq<u8>, message: Seq<u8>, secret: Seq<u8>) -> bool {
    signature == hmac_sha256(secret, message)
}

/// Checks the signature (first) over the rest of the payload (second) against
/// the shared secret.
pub fn check_integrity(data: (&[u8], &[u8]), secret: &str) -> (r: bool)
    ensures
        r == signature_valid(data.0@, data.1@, secret.spec_bytes()),
        data.0@.len() != SIGNATURE_LEN ==> !r,
{
    let (signature, data_without_signature) = data;
    hmac_sha256_verify(secret.as_bytes(), data_without_signature, signature)
}

/// Relies on rand's `thread_rng().gen::<i32>()`: any value may come back.
#[verifier::external_body]
fn random_message_id() -> (r: i32) {
    rand::thread_rng().gen::<i32>()
}

/// The challenge with the given transaction id: the player information
/// channel, and the highest supported version as its one byte of data.
pub fn velocity_login_request(message_id: i32) -> (r: LoginPluginRequest)
    ensures
        r.message_id == message_id,
        r.channel@ == "velocity:player_info"@,
        r.data@ == seq![MAX_SUPPORTED_FORWARDING_VERSION],
{
    let channel = "velocity:player_info".to_owned();
    LoginPluginRequest { message_id, channel, data: vec![MAX_SUPPORTED_FORWARDING_VERSION] }
}

/// The challenge to send at login, under a random transaction id.
pub fn velocity_login() -> (r: LoginPluginRequest)
    ensures
        r.channel@ == "velocity:player_info"@,
        r.data@ == seq![MAX_SUPPORTED_FORWARDING_VERSION],
{
    velocity_login_request(random_message_id())
}

/// The property at `pos`: name, value and optional signature.
pub open spec fn spec_read_property(s: Seq<u8>, pos: int) -> Option<(PropertyView, int)> {
    match spec_read_string(s, pos) {
        Some((name, p1)) => match spec_read_string(s, p1) {
            Some((value, p2)) => match spec_read_optional_string(s, p2) {
                Some((signature, p3)) => Some(((name, value, signature), p3)),
                None => None,
            },
            None => None,
        },
        None => None,
    }
}

/// `k` more properties from `pos`, after those already in `acc`.
pub open spec fn spec_properties_from(s: Seq<u8>, pos: int, k: nat, acc: Seq<PropertyView>) -> Option<(Seq<PropertyView>, int)>
    decreases k,
{
    if k == 0 {
        Some((acc, pos))
    } else {
        match spec_read_property(s, pos) {
            Some((p, n)) => spec_properties_from(s, n, (k - 1) as nat, acc.push(p)),
            None => None,
        }
    }
}

/// A varint count at `pos`, then that many properties.
pub open spec fn spec_read_properties(s: Seq<u8>, pos: int) -> Option<(Seq<PropertyView>, int)> {
    match spec_read_varint(s, pos) {
        Some((count, p)) => spec_properties_from(s, p, count as nat, seq![]),
        None => None,
    }
}

/// The game profile at `pos`: identifier, name, then properties, each with its
/// own error.
pub open spec fn spec_read_game_profile(s: Seq<u8>, pos: int) -> Result<(ProfileView, int), VelocityError> {
    match spec_read_uuid(s, pos) {
        None => Err(VelocityError::FailedReadProfileUUID),
        Some((id, p1)) => match spec_read_string(s, p1) {
            None => Err(VelocityError::FailedReadProfileName),
            Some((name, p2)) => match spec_read_properties(s, p2) {
                None => Err(VelocityError::FailedReadProfileProperties),
                Some((props, p3)) => Ok(((id, name, props), p3)),
            },
        },
    }
}

/// The signature-stripped payload: version, address literal, then profile.
pub open spec fn spec_decode_forwarded(rest: Seq<u8>) -> Result<(ProfileView, Seq<char>), VelocityError> {
    match spec_read_varint(rest, 0) {
        None => Err(VelocityError::FailedReadForwardVersion),
        Some((version, p1)) => if version > MAX_SUPPORTED_FORWARDING_VERSION {
            Err(VelocityError::UnsupportedForwardVersion(version, MAX_SUPPORTED_FORWARDING_VERSION))
        } else {
            match spec_read_string(rest, p1) {
                None => Err(VelocityError::FailedReadAddress),
                Some((ip, p2)) => match spec_read_game_profile(rest, p2) {
                    Err(e) => Err(e),
                    Ok((profile, _)) => Ok((profile, ip)),
                },
            }
        }
    }
}

/// What the proxy's response decodes to under `secret`: no data, data too
/// short for a signature, a bad signature, or the decoding of what follows the
/// signature.
pub open spec fn spec_receive(secret: Seq<u8>, data: Option<Seq<u8>>) -> Result<(ProfileView, Seq<char>), VelocityError> {
    match data {
        None => Err(VelocityError::NoData),
        Some(d) => if d.len() < SIGNATURE_LEN {
            Err(VelocityError::FailedReadSignature)
        } else {
            let signature = d.subrange(0, SIGNATURE_LEN as int);
            let rest = d.subrange(SIGNATURE_LEN as int, d.len() as int);
            if !signature_valid(signature, rest, secret) {
                Err(VelocityError::FailedVerifyIntegrity)
            } else {
                spec_decode_forwarded(rest)
            }
        },
    }
}

fn read_property(s: &[u8], pos: usize) -> (r: Option<(Property, usize)>)
    ensures
        match r {
            Some((p, n)) => spec_read_property(s@, pos as int) == Some((p@, n as int)),
            None => spec_read_property(s@, pos as int) is None,
        },
        r matches Some((p, n)) ==> pos < n <= s@.len(),
{
    let (name, p1) = match read_string(s, pos) {
        Some(x) => x,
        None => return None,
    };
    let (value, p2) = match read_string(s, p1) {
        Some(x) => x,
        None => return None,
    };
    let (signature, p3) = match read_optional_string(s, p2) {
        Some(x) => x,
        None => return None,
    };
    Some((Property { name, value, signature }, p3))
}

fn read_properties(s: &[u8], pos: usize) -> (r: Option<(Vec<Property>, usize)>)
    ensures
        match r {
            Some((v, n)) => spec_read_properties(s@, pos as int) == Some((properties_view(v@), n as int)),
            None => spec_read_properties(s@, pos as int) is None,
        },
{
    let (count, p0) = match read_varint(s, pos) {
        Some(x) => x,
        None => return None,
    };
    let mut props: Vec<Property> = Vec::new();
    let mut p = p0;
    let mut i: u32 = 0;
    assert(properties_view(props@) =~= seq![]);
    while i < count
        invariant
            i <= count,
            p <= s@.len(),
            spec_read_varint(s@, pos as int) == Some((count, p0 as int)),
            spec_properties_from(s@, p0 as int, count as nat, seq![]) == spec_properties_from(
                s@,
                p as int,
                (count - i) as nat,
                properties_view(props@),
            ),
        decreases count - i,
    {
        let (prop, n) = match read_property(s, p) {
            Some(x) => x,
            None => {
                assert(spec_properties_from(s@, p as int, (count - i) as nat, properties_view(props@)) is None);
                return None;
            },
        };
        proof {
            assert(properties_view(props@.push(prop)) =~= properties_view(props@).push(prop@));
        }
        props.push(prop);
        p = n;
        i = i + 1;
    }
    Some((props, p))
}

/// Reads the game profile at `pos`; a profile read here carries no actions.
pub fn read_game_profile(s: &[u8], pos: usize) -> (r: Result<(GameProfile, usize), VelocityError>)
    ensures
        match r {
            Ok((g, n)) => spec_read_game_profile(s@, pos as int) == Ok::<_, VelocityError>((g@, n as int))
                && g.profile_actions is None,
            Err(e) => spec_read_game_profile(s@, pos as int) == Err::<(ProfileView, int), _>(e),
        },
{
    let (id, p1) = match read_uuid(s, pos) {
        Some(x) => x,
        None => return Err(VelocityError::FailedReadProfileUUID),
    };
    let (name, p2) = match read_string(s, p1) {
        Some(x) => x,
        None => return Err(VelocityError::FailedReadProfileName),
    };
    let (properties, p3) = match read_properties(s, p2) {
        Some(x) => x,
        None => return Err(VelocityError::FailedReadProfileProperties),
    };
    Ok((GameProfile { id, name, properties, profile_actions: None }, p3))
}

/// Decodes the proxy's response: checks the signature over the rest with
/// `secret`, then reads the version, the client's address literal and the
/// profile. The address is paired with `port`, this server's own.
pub fn receive_velocity_plugin_response(port: u16, secret: &str, data: Option<&[u8]>) -> (r: Result<(GameProfile, ForwardedAddress), VelocityError>)
    ensures
        match r {
            Ok((g, a)) => spec_receive(
                secret.spec_bytes(),
                match data {
                    Some(d) => Some(d@),
                    None => None,
                },
            ) == Ok::<_, VelocityError>((g@, a.ip@)) && a.port == port && g.profile_actions is None,
            Err(e) => spec_receive(
                secret.spec_bytes(),
                match data {
                    Some(d) => Some(d@),
                    None => None,
                },
            ) == Err::<(ProfileView, Seq<char>), _>(e),
        },
{
    let d = match data {
        Some(d) => d,
        None => return Err(VelocityError::NoData),
    };
    if d.len() < SIGNATURE_LEN {
        return Err(VelocityError::FailedReadSignature);
    }
    let signature = slice_subrange(d, 0, SIGNATURE_LEN);
    let rest = slice_subrange(d, SIGNATURE_LEN, d.len());
    if !check_integrity((signature, rest), secret) {
        return Err(VelocityError::FailedVerifyIntegrity);
    }
    let (version, p1) = match read_varint(rest, 0) {
        Some(x) => x,
        None => return Err(VelocityError::FailedReadForwardVersion),
    };
    if version > MAX_SUPPORTED_FORWARDING_VERSION as u32 {
        return Err(VelocityError::UnsupportedForwardVersion(version, MAX_SUPPORTED_FORWARDING_VERSION));
    }
    let (ip, p2) = match read_string(rest, p1) {
        Some(x) => x,
        None => return Err(VelocityError::FailedReadAddress),
    };
    match read_game_profile(rest, p2) {
        Ok((profile, _)) => Ok((profile, ForwardedAddress { ip, port })),
        Err(e) => Err(e),
    }
}

/// A property on the wire: name, value, then the optional signature.
pub open spec fn encode_property(p: PropertyView) -> Seq<u8> {
    encode_string(p.0) + encode_string(p.1) + encode_optional_string(p.2)
}

/// Properties one after the other, in order.
pub open spec fn encode_properties(ps: Seq<PropertyView>) -> Seq<u8>
    decreases ps.len(),
{
    if ps.len() == 0 {
        seq![]
    } else {
        encode_property(ps[0]) + encode_properties(ps.drop_first())
    }
}

/// A profile on the wire: identifier, name, property count, properties.
pub open spec fn encode_game_profile(p: ProfileView) -> Seq<u8> {
    be_bytes(p.0 as nat, 16) + encode_string(p.1) + encode_varint(p.2.len()) + encode_properties(p.2)
}

/// A signature-stripped forwarding payload: version, address literal, profile.
pub open spec fn encode_forwarded(version: u32, ip: Seq<char>, profile: ProfileView) -> Seq<u8> {
    encode_varint(version as nat) + encode_string(ip) + encode_game_profile(profile)
}

pub open spec fn property_fits(p: PropertyView) -> bool {
    string_fits(p.0) && string_fits(p.1) && (p.2 matches Some(t) ==> string_fits(t))
}

/// Whether every string and the property count of `p` fit the wire format.
pub open spec fn profile_fits(p: ProfileView) -> bool {
    string_fits(p.1) && p.2.len() < 0x1_0000_0000 && forall|i: int|
        0 <= i < p.2.len() ==> #[trigger] property_fits(p.2[i])
}

proof fn lemma_read_property_encoded(s: Seq<u8>, pos: int, p: PropertyView)
    requires
        property_fits(p),
        at(s, pos, encode_property(p)),
    ensures
        spec_read_property(s, pos) == Some((p, pos + encode_property(p).len())),
{
    let a = encode_string(p.0);
    let b = encode_string(p.1);
    let c = encode_optional_string(p.2);
    lemma_at_concat(s, pos, a + b, c);
    lemma_at_concat(s, pos, a, b);
    lemma_read_string_encoded(s, pos, p.0);
    lemma_read_string_encoded(s, pos + a.len(), p.1);
    lemma_read_optional_string_encoded(s, pos + a.len() + b.len(), p.2);
}

proof fn lemma_properties_from_encoded(s: Seq<u8>, pos: int, ps: Seq<PropertyView>, acc: Seq<PropertyView>)
    requires
        forall|i: int| 0 <= i < ps.len() ==> #[trigger] property_fits(ps[i]),
        at(s, pos, encode_properties(ps)),
    ensures
        spec_properties_from(s, pos, ps.len(), acc) == Some((acc + ps, pos + encode_properties(ps).len())),
    decreases ps.len(),
{
    if ps.len() == 0 {
        assert(acc + ps =~= acc);
    } else {
        let first = encode_property(ps[0]);
        let rest = ps.drop_first();
        lemma_at_concat(s, pos, first, encode_properties(rest));
        assert(property_fits(ps[0]));
        lemma_read_property_encoded(s, pos, ps[0]);
        assert forall|i: int| 0 <= i < rest.len() implies #[trigger] property_fits(rest[i]) by {
            assert(property_fits(ps[i + 1]));
        }
        lemma_properties_from_encoded(s, pos + first.len(), rest, acc.push(ps[0]));
        assert(acc.push(ps[0]) + rest =~= acc + ps);
        assert((ps.len() - 1) as nat == rest.len());
    }
}

/// A profile written at `pos` (identifier, name, property count, properties)
/// reads back as exactly that profile, the properties in order with their
/// signatures as they were, and the read ends where the encoding does.
#[verifier::rlimit(50)]
pub proof fn lemma_read_game_profile_encoded(s: Seq<u8>, pos: int, p: ProfileView)
    requires
        profile_fits(p),
        at(s, pos, encode_game_profile(p)),
    ensures
        spec_read_game_profile(s, pos) == Ok::<_, VelocityError>((p, pos + encode_game_profile(p).len())),
{
    let a = be_bytes(p.0 as nat, 16);
    let b = encode_string(p.1);
    let c = encode_varint(p.2.len());
    let d = encode_properties(p.2);
    lemma_at_concat(s, pos, a + b + c, d);
    lemma_at_concat(s, pos, a + b, c);
    lemma_at_concat(s, pos, a, b);
    crate::wire::lemma_be_bytes(p.0 as nat, 16);
    let p1 = pos + 16;
    let p2 = p1 + b.len();
    let p3 = p2 + c.len();
    lemma_read_uuid_encoded(s, pos, p.0);
    assert(spec_read_uuid(s, pos) == Some((p.0, p1)));
    lemma_read_string_encoded(s, p1, p.1);
    assert(spec_read_string(s, p1) == Some((p.1, p2)));
    let count = p.2.len() as u32;
    assert(count as nat == p.2.len());
    lemma_read_varint_encoded(s, p2, count);
    assert(spec_read_varint(s, p2) == Some((count, p3)));
    lemma_properties_from_encoded(s, p3, p.2, seq![]);
    assert(seq![] + p.2 =~= p.2);
    assert(spec_read_properties(s, p2) == Some((p.2, p3 + d.len())));
}

/// The signature accepted for a message is its HMAC under the secret, and a
/// correctly computed HMAC is accepted.
pub proof fn lemma_own_mac_accepted(secret: Seq<u8>, message: Seq<u8>)
    ensures
        signature_valid(hmac_sha256(secret, message), message, secret),
        forall|sig: Seq<u8>| signature_valid(sig, message, secret) ==> sig == hmac_sha256(secret, message),
{
}

/// Flipping bits of one byte of a correct signature makes it rejected.
pub proof fn lemma_flipped_signature_rejected(secret: Seq<u8>, message: Seq<u8>, i: int, bits: u8)
    requires
        0 <= i < hmac_sha256(secret, message).len(),
        bits != 0,
    ensures
        !signature_valid(
            hmac_sha256(secret, message).update(i, hmac_sha256(secret, message)[i] ^ bits),
            message,
            secret,
        ),
{
    let mac = hmac_sha256(secret, message);
    let x = mac[i];
    assert(x ^ bits != x) by (bit_vector)
        requires
            bits != 0u8,
    ;
    assert(mac.update(i, x ^ bits)[i] != mac[i]);
}

/// A payload that carries a valid signature and encodes a supported version,
/// an address and a profile decodes to exactly that address and profile, the
/// properties in order with their signatures as they were.
pub proof fn lemma_forwarding_round_trip(secret: Seq<u8>, d: Seq<u8>, version: u32, ip: Seq<char>, profile: ProfileView)
    requires
        d.len() >= SIGNATURE_LEN,
        d.subrange(SIGNATURE_LEN as int, d.len() as int) == encode_forwarded(version, ip, profile),
        signature_valid(
            d.subrange(0, SIGNATURE_LEN as int),
            d.subrange(SIGNATURE_LEN as int, d.len() as int),
            secret,
        ),
        version <= MAX_SUPPORTED_FORWARDING_VERSION,
        string_fits(ip),
        profile_fits(profile),
    ensures
        spec_receive(secret, Some(d)) == Ok::<_, VelocityError>((profile, ip)),
{
    let rest = d.subrange(SIGNATURE_LEN as int, d.len() as int);
    let a = encode_varint(version as nat);
    let b = encode_string(ip);
    let c = encode_game_profile(profile);
    assert(at(rest, 0, rest)) by {
        assert(rest.subrange(0, rest.len() as int) =~= rest);
    }
    lemma_at_concat(rest, 0, a + b, c);
    lemma_at_concat(rest, 0, a, b);
    lemma_read_varint_encoded(rest, 0, version);
    lemma_read_string_encoded(rest, a.len() as int, ip);
    lemma_read_game_profile_encoded(rest, (a.len() + b.len()) as int, profile);
}

/// A payload with a valid signature whose version is above the supported one
/// is refused for that version, whatever follows it.
pub proof fn lemma_unsupported_version_refused(secret: Seq<u8>, d: Seq<u8>, version: u32, tail: Seq<u8>)
    requires
        d.len() >= SIGNATURE_LEN,
        d.subrange(SIGNATURE_LEN as int, d.len() as int) == encode_varint(version as nat) + tail,
        signature_valid(
            d.subrange(0, SIGNATURE_LEN as int),
            d.subrange(SIGNATURE_LEN as int, d.len() as int),
            secret,
        ),
        version > MAX_SUPPORTED_FORWARDING_VERSION,
    ensures
        spec_receive(secret, Some(d)) == Err::<(ProfileView, Seq<char>), _>(
            VelocityError::UnsupportedForwardVersion(version, MAX_SUPPORTED_FORWARDING_VERSION),
        ),
{
    let rest = d.subrange(SIGNATURE_LEN as int, d.len() as int);
    assert(at(rest, 0, rest)) by {
        assert(rest.subrange(0, rest.len() as int) =~= rest);
    }
    lemma_at_concat(rest, 0, encode_varint(version as nat), tail);
    lemma_read_varint_encoded(rest, 0, version);
}

/// A payload whose signature does not verify is refused for that reason,
/// before anything after the signature is read.
pub proof fn lemma_integrity_checked_first(secret: Seq<u8>, d: Seq<u8>)
    requires
        d.len() >= SIGNATURE_LEN,
        !signature_valid(
            d.subrange(0, SIGNATURE_LEN as int),
            d.subrange(SIGNATURE_LEN as int, d.len() as int),
            secret,
        ),
    ensures
        spec_receive(secret, Some(d)) == Err::<(ProfileView, Seq<char>), _>(VelocityError::FailedVerifyIntegrity),
{
}

} // verus!
