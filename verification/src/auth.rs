//! Signed sessions of users.

use vstd::prelude::*;
use vstd::utf8::{
    decode_utf8, encode_utf8, encode_utf8_decode_utf8, encode_utf8_valid_utf8, valid_utf8,
};
use crate::api::{answered, refusal, Answer, ApiError, ApiFailure, ApiOutcome};
use crate::ast::{json_of, json_text, json_text_of, parse_json};
use crate::catalog::{signed_in, AuthContext, AuthModel};
use crate::chain::{bytes_of, key_of, same_word, Word};
use crate::encode::{name_layout, write_layout, Encode};
use crate::json::{group_value_views, Datum, Json};
use crate::layout::{keeps, keeps_layout, layout_text, layout_value, mark_is_long, read_nesting, Layout, LayoutModel};
use crate::outside::{
    base64_bytes, base64_text, hex_read, keccak, keccak_of, read_base64, read_hex, read_word, text_from, word_read,
    write_base64,
};
use crate::codec::{distinct, field_read, text_reads};
use crate::text::{after_prefix, cat2, owned, same, strip_prefix};
use crate::value::{as_unsigned, child};

verus! {

broadcast use {group_value_views, crate::layout::group_layout_views};

// ---------------------------------------------------------------------------------------------
// Hexadecimal text
// ---------------------------------------------------------------------------------------------

/// The hexadecimal digit of a number below sixteen.
pub open spec fn hex_digit(n: u8) -> char {
    if n < 10 {
        (48 + n) as char
    } else {
        (87 + n) as char
    }
}

/// Two lower-case hexadecimal digits for each byte.
pub open spec fn hex_digits(bytes: Seq<u8>) -> Seq<char>
    decreases bytes.len(),
{
    if bytes.len() == 0 {
        Seq::empty()
    } else {
        hex_digits(bytes.drop_last()).push(hex_digit(bytes.last() / 16)).push(hex_digit(bytes.last() % 16))
    }
}

/// The hexadecimal text of bytes.
pub open spec fn hex_of(bytes: Seq<u8>) -> Seq<char> {
    "0x"@ + hex_digits(bytes)
}

fn digit_char(n: u8) -> (result: char)
    requires
        n < 16,
    ensures
        result == hex_digit(n),
{
    if n < 10 {
        (48u8 + n) as char
    } else {
        (87u8 + n) as char
    }
}

/// The hexadecimal text of bytes.
pub fn hex(bytes: &Vec<u8>) -> (result: String)
    ensures
        result@ == hex_of(bytes@),
{
    let mut digits = crate::text::nothing();
    let mut i: usize = 0;
    assert(bytes@.take(0) =~= Seq::<u8>::empty());
    assert(digits@ =~= hex_digits(bytes@.take(0)));
    while i < bytes.len()
        invariant
            i <= bytes.len(),
            digits@ == hex_digits(bytes@.take(i as int)),
        decreases bytes.len() - i,
    {
        assert(bytes@.take(i + 1).drop_last() =~= bytes@.take(i as int));
        assert(bytes@.take(i + 1).last() == bytes@[i as int]);
        digits.push(digit_char(bytes[i] / 16));
        digits.push(digit_char(bytes[i] % 16));
        i += 1;
    }
    assert(bytes@.take(bytes@.len() as int) =~= bytes@);
    cat2("0x", digits.as_str())
}

// ---------------------------------------------------------------------------------------------
// Envelopes
// ---------------------------------------------------------------------------------------------

/// What a user signs: the gateway, the user, the subject, the claims, and the numbers of the session
/// in text.
#[derive(Debug, PartialEq, Eq)]
pub struct SessionPayload {
    pub gateway: Vec<u8>,
    pub user: Vec<u8>,
    pub uid: Word,
    pub claims_hash: Word,
    pub expires_at: String,
    pub nonce: String,
    pub gateway_epoch: String,
}

/// [`SessionPayload`] in specifications.
pub struct PayloadModel {
    pub gateway: Seq<u8>,
    pub user: Seq<u8>,
    pub uid: Seq<u8>,
    pub claims_hash: Seq<u8>,
    pub expires_at: Seq<char>,
    pub nonce: Seq<char>,
    pub gateway_epoch: Seq<char>,
}

impl DeepView for SessionPayload {
    type V = PayloadModel;

    open spec fn deep_view(&self) -> PayloadModel {
        PayloadModel {
            gateway: self.gateway@,
            user: self.user@,
            uid: self.uid@,
            claims_hash: self.claims_hash@,
            expires_at: self.expires_at@,
            nonce: self.nonce@,
            gateway_epoch: self.gateway_epoch@,
        }
    }
}

/// A signed session and the claims that go with it.
#[derive(Debug, PartialEq, Eq)]
pub struct Envelope {
    pub session: SessionPayload,
    pub signature: Vec<u8>,
    pub claims: Datum,
}

/// [`Envelope`] in specifications.
pub struct EnvelopeModel {
    pub session: PayloadModel,
    pub signature: Seq<u8>,
    pub claims: Json,
}

impl DeepView for Envelope {
    type V = EnvelopeModel;

    open spec fn deep_view(&self) -> EnvelopeModel {
        EnvelopeModel { session: self.session.deep_view(), signature: self.signature@, claims: self.claims@ }
    }
}

/// A session as the chain takes it, its numbers as words.
#[derive(Debug, PartialEq, Eq)]
pub struct Session {
    pub gateway: Vec<u8>,
    pub user: Vec<u8>,
    pub uid: Word,
    pub claims_hash: Word,
    pub expires_at: Word,
    pub nonce: Word,
    pub gateway_epoch: Word,
}

/// [`Session`] in specifications.
pub struct SessionModel {
    pub gateway: Seq<u8>,
    pub user: Seq<u8>,
    pub uid: Seq<u8>,
    pub claims_hash: Seq<u8>,
    pub expires_at: Seq<u8>,
    pub nonce: Seq<u8>,
    pub gateway_epoch: Seq<u8>,
}

impl DeepView for Session {
    type V = SessionModel;

    open spec fn deep_view(&self) -> SessionModel {
        SessionModel {
            gateway: self.gateway@,
            user: self.user@,
            uid: self.uid@,
            claims_hash: self.claims_hash@,
            expires_at: self.expires_at@,
            nonce: self.nonce@,
            gateway_epoch: self.gateway_epoch@,
        }
    }
}

/// The session as the chain takes it.
pub open spec fn session_of(payload: PayloadModel) -> ApiOutcome<SessionModel> {
    match (word_read(payload.expires_at), word_read(payload.nonce), word_read(payload.gateway_epoch)) {
        (Some(expires_at), Some(nonce), Some(gateway_epoch)) => Ok(
            SessionModel {
                gateway: payload.gateway,
                user: payload.user,
                uid: payload.uid,
                claims_hash: payload.claims_hash,
                expires_at,
                nonce,
                gateway_epoch,
            },
        ),
        _ => Err(refusal("Invalid session integer"@)),
    }
}

/// The layout of an envelope.
pub open spec fn envelope_layout(envelope: EnvelopeModel) -> LayoutModel {
    LayoutModel::Fields(
        seq![
            ("session"@, payload_layout(envelope.session)),
            ("signature"@, name_layout(hex_of(envelope.signature))),
            ("claims"@, LayoutModel::Leaf(envelope.claims)),
        ],
    )
}

/// The layout of what a user signs.
pub open spec fn payload_layout(payload: PayloadModel) -> LayoutModel {
    LayoutModel::Fields(
        seq![
            ("gateway"@, name_layout(hex_of(payload.gateway))),
            ("user"@, name_layout(hex_of(payload.user))),
            ("uid"@, name_layout(hex_of(payload.uid))),
            ("claimsHash"@, name_layout(hex_of(payload.claims_hash))),
            ("expiresAt"@, name_layout(payload.expires_at)),
            ("nonce"@, name_layout(payload.nonce)),
            ("gatewayEpoch"@, name_layout(payload.gateway_epoch)),
        ],
    )
}

/// The text of an envelope.
pub open spec fn envelope_text(envelope: EnvelopeModel) -> Seq<char> {
    layout_text(envelope_layout(envelope))
}

/// The token of an envelope: `kura.` and its text in base 64.
pub open spec fn token_of(envelope: EnvelopeModel) -> Seq<char> {
    "kura."@ + base64_text(encode_utf8(envelope_text(envelope)))
}

/// The bytes of a list of numbers from position `from` on, after those in `done`.
pub open spec fn listed_bytes_from(list: Seq<Json>, from: int, done: Seq<u8>) -> Option<Seq<u8>>
    decreases list.len() - from,
{
    if from < 0 || from >= list.len() {
        Some(done)
    } else {
        match as_unsigned(list[from]) {
            Some(n) => if n < 256 {
                listed_bytes_from(list, from + 1, done.push(n as u8))
            } else {
                None
            },
            None => None,
        }
    }
}

/// The bytes that a value writes: a text of hexadecimal digits, or a list of numbers.
pub open spec fn bytes_in(value: Json) -> Option<Seq<u8>> {
    match value {
        Json::String(digits) => hex_read(digits),
        Json::Array(list) => listed_bytes_from(list, 0, Seq::empty()),
        _ => None,
    }
}

fn read_listed_bytes(list: &Vec<Datum>) -> (result: Option<Vec<u8>>)
    ensures
        match result {
            Some(bytes) => listed_bytes_from(list.deep_view(), 0, Seq::empty()) == Some(bytes@),
            None => listed_bytes_from(list.deep_view(), 0, Seq::empty()) is None,
        },
{
    let mut done: Vec<u8> = Vec::new();
    let ghost model = list.deep_view();
    let mut i: usize = 0;
    while i < list.len()
        invariant
            i <= list.len(),
            model == list.deep_view(),
            listed_bytes_from(model, 0, Seq::empty()) == listed_bytes_from(model, i as int, done@),
        decreases list.len() - i,
    {
        assert(model[i as int] == list[i as int]@);
        match list[i].as_u64() {
            Some(n) => {
                if n >= 256 {
                    return None;
                }
                done.push(n as u8);
            },
            None => {
                return None;
            },
        }
        i += 1;
    }
    Some(done)
}

/// Whether a value that writes bytes as digits is read as those bytes.
pub open spec fn digits_read(value: Json) -> bool {
    forall|bytes: Seq<u8>| value == Json::String(#[trigger] hex_of(bytes)) ==> hex_read(hex_of(bytes)) == Some(bytes)
}

/// Whether the words that a user signs are read as the bytes that they write.
pub open spec fn payload_digits_read(value: Json) -> bool {
    digits_read(child(value, "gateway"@)) && digits_read(child(value, "user"@)) && digits_read(
        child(value, "uid"@),
    ) && digits_read(child(value, "claimsHash"@))
}

fn read_bytes(value: &Datum) -> (result: Option<Vec<u8>>)
    ensures
        digits_read(value@),
        match result {
            Some(bytes) => bytes_in(value@) == Some(bytes@),
            None => bytes_in(value@) is None,
        },
{
    match value {
        Datum::String(digits) => match read_hex(digits.as_str()) {
            Some(bytes) => {
                assert(bytes.deep_view() =~= bytes@);
                Some(bytes)
            },
            None => None,
        },
        Datum::Array(list) => read_listed_bytes(list),
        _ => None,
    }
}

/// Bytes of a fixed length that a value writes.
pub open spec fn fixed_bytes(value: Json, length: nat) -> Option<Seq<u8>> {
    match bytes_in(value) {
        Some(bytes) => if bytes.len() == length {
            Some(bytes)
        } else {
            None
        },
        None => None,
    }
}

/// The text of a value.
pub open spec fn text_in(value: Json) -> Option<Seq<char>> {
    match value {
        Json::String(s) => Some(s),
        _ => None,
    }
}

/// What a user signs, read from JSON.
pub open spec fn payload_read(value: Json) -> Option<PayloadModel> {
    match (
        fixed_bytes(child(value, "gateway"@), 20),
        fixed_bytes(child(value, "user"@), 20),
        fixed_bytes(child(value, "uid"@), 32),
        fixed_bytes(child(value, "claimsHash"@), 32),
        text_in(child(value, "expiresAt"@)),
        text_in(child(value, "nonce"@)),
        text_in(child(value, "gatewayEpoch"@)),
    ) {
        (
            Some(gateway),
            Some(user),
            Some(uid),
            Some(claims_hash),
            Some(expires_at),
            Some(nonce),
            Some(gateway_epoch),
        ) => Some(PayloadModel { gateway, user, uid, claims_hash, expires_at, nonce, gateway_epoch }),
        _ => None,
    }
}

/// An envelope read from JSON; claims that are missing are null.
pub open spec fn envelope_read(value: Json) -> Option<EnvelopeModel> {
    match (payload_read(child(value, "session"@)), bytes_in(child(value, "signature"@))) {
        (Some(session), Some(signature)) => Some(
            EnvelopeModel { session, signature, claims: child(value, "claims"@) },
        ),
        _ => None,
    }
}

/// The envelope in bytes of JSON text.
pub open spec fn envelope_in(bytes: Seq<u8>) -> ApiOutcome<EnvelopeModel> {
    if !valid_utf8(bytes) {
        Err(refusal("Malformed session envelope"@))
    } else {
        match json_of(decode_utf8(bytes)) {
            Err(_) => Err(refusal("Malformed session envelope"@)),
            Ok(value) => match envelope_read(value) {
                Some(envelope) => Ok(envelope),
                None => Err(refusal("Malformed session envelope"@)),
            },
        }
    }
}

/// The envelope of a token.
pub open spec fn decoded_token(token: Seq<char>) -> ApiOutcome<EnvelopeModel> {
    match after_prefix(token, "kura."@) {
        None => Err(refusal("Expected signed Kurabase session"@)),
        Some(rest) => match base64_bytes(rest) {
            None => Err(refusal("Malformed session token"@)),
            Some(bytes) => envelope_in(bytes),
        },
    }
}

fn read_fixed(value: &Datum, length: usize) -> (result: Option<Vec<u8>>)
    ensures
        digits_read(value@),
        result.deep_view() == fixed_bytes(value@, length as nat),
        match result {
            Some(bytes) => bytes@.len() == length && fixed_bytes(value@, length as nat) == Some(bytes@),
            None => fixed_bytes(value@, length as nat) is None,
        },
{
    match read_bytes(value) {
        Some(bytes) => {
            assert(bytes.deep_view() =~= bytes@);
            if bytes.len() == length {
                Some(bytes)
            } else {
                None
            }
        },
        None => None,
    }
}

fn read_text(value: &Datum) -> (result: Option<String>)
    ensures
        result.deep_view() == text_in(value@),
{
    match value {
        Datum::String(s) => Some(s.clone()),
        _ => None,
    }
}

/// What a user signs, read from JSON.
pub fn read_payload(value: &Datum) -> (result: Option<SessionPayload>)
    ensures
        result.deep_view() == payload_read(value@),
        payload_digits_read(value@),
{
    match (
        read_fixed(value.child("gateway"), 20),
        read_fixed(value.child("user"), 20),
        read_fixed(value.child("uid"), 32),
        read_fixed(value.child("claimsHash"), 32),
        read_text(value.child("expiresAt")),
        read_text(value.child("nonce")),
        read_text(value.child("gatewayEpoch")),
    ) {
        (
            Some(gateway),
            Some(user),
            Some(uid),
            Some(claims_hash),
            Some(expires_at),
            Some(nonce),
            Some(gateway_epoch),
        ) => Some(SessionPayload { gateway, user, uid, claims_hash, expires_at, nonce, gateway_epoch }),
        _ => None,
    }
}

/// An envelope read from JSON; claims that are missing are null.
pub fn read_envelope(value: &Datum) -> (result: Option<Envelope>)
    ensures
        result.deep_view() == envelope_read(value@),
        payload_digits_read(child(value@, "session"@)) && digits_read(child(value@, "signature"@)),
{
    match (read_payload(value.child("session")), read_bytes(value.child("signature"))) {
        (Some(session), Some(signature)) => {
            assert(signature.deep_view() =~= signature@);
            Some(Envelope { session, signature, claims: value.child("claims").copied() })
        },
        _ => None,
    }
}

fn lay_text(text: &str) -> (result: Layout)
    ensures
        result@ == name_layout(text@),
{
    Layout::Leaf(Datum::string(text))
}

fn lay_payload(payload: &SessionPayload) -> (result: Layout)
    ensures
        result@ == payload_layout(payload.deep_view()),
{
    let mut fields: Vec<(String, Layout)> = Vec::new();
    fields.push((owned("gateway"), lay_text(hex(&payload.gateway).as_str())));
    fields.push((owned("user"), lay_text(hex(&payload.user).as_str())));
    fields.push((owned("uid"), lay_text(hex(&payload.uid).as_str())));
    fields.push((owned("claimsHash"), lay_text(hex(&payload.claims_hash).as_str())));
    fields.push((owned("expiresAt"), lay_text(payload.expires_at.as_str())));
    fields.push((owned("nonce"), lay_text(payload.nonce.as_str())));
    fields.push((owned("gatewayEpoch"), lay_text(payload.gateway_epoch.as_str())));
    assert(fields.deep_view() =~= payload_layout(payload.deep_view())->Fields_0);
    Layout::Fields(fields)
}

/// The claim of a text, where there is one.
pub open spec fn claim(claims: Json, name: Seq<char>) -> Option<Seq<char>> {
    text_in(child(claims, name))
}

/// A word of zeros.
pub open spec fn blank_word(word: Seq<u8>) -> bool {
    word == crate::chain::zero_word()
}

/// The word of a user: twelve zeros and the address.
pub open spec fn user_word(user: Seq<u8>) -> Seq<u8> {
    seq![0u8, 0, 0, 0, 0, 0, 0, 0, 0, 0, 0, 0] + user
}

fn pad_user(user: &Vec<u8>) -> (result: Vec<u8>)
    ensures
        result@ == user_word(user@),
{
    let mut word: Vec<u8> = Vec::new();
    let mut i: usize = 0;
    while i < 12
        invariant
            i <= 12,
            word.len() == i,
            forall|j: int| 0 <= j < i ==> word[j] == 0,
        decreases 12 - i,
    {
        word.push(0);
        i += 1;
    }
    assert(word@ =~= seq![0u8, 0, 0, 0, 0, 0, 0, 0, 0, 0, 0, 0]);
    let ghost zeros = word@;
    let mut k: usize = 0;
    while k < user.len()
        invariant
            k <= user.len(),
            word@ == zeros + user@.take(k as int),
        decreases user.len() - k,
    {
        word.push(user[k]);
        assert(word@ =~= zeros + user@.take(k + 1));
        k += 1;
    }
    assert(user@.take(user@.len() as int) =~= user@);
    word
}

/// Whether the claims are those that the session was signed with.
pub open spec fn claims_checked(envelope: EnvelopeModel) -> ApiOutcome<()> {
    if blank_word(envelope.session.claims_hash) {
        if envelope.claims is Null {
            Ok(())
        } else {
            Err(refusal("Unattested JWT claims"@))
        }
    } else if keccak_of(encode_utf8(json_text_of(envelope.claims))) != envelope.session.claims_hash {
        Err(refusal("Claims do not match signed hash"@))
    } else {
        Ok(())
    }
}

/// The identity of a user: the subject of the claims, whose hash is signed, else the address or the
/// signed word.
pub open spec fn identity_of(envelope: EnvelopeModel) -> ApiOutcome<Seq<char>> {
    match claim(envelope.claims, "sub"@) {
        Some(subject) => if key_of(subject) != envelope.session.uid {
            Err(refusal("Application subject does not match signed uid"@))
        } else {
            Ok(subject)
        },
        None => if envelope.session.uid == user_word(envelope.session.user) {
            Ok(hex_of(envelope.session.user))
        } else {
            Ok(hex_of(envelope.session.uid))
        },
    }
}

/// The context of a user: signed in under an identity, or anonymous where the claims say so; no claim
/// gives another role.
pub open spec fn context_of(identity: Seq<char>, claims: Json) -> ApiOutcome<AuthModel> {
    let context = AuthModel { jwt_claims: claims, ..signed_in(identity) };
    match claim(claims, "role"@) {
        Some(role) => if role == "anon"@ {
            Ok(AuthModel { role: "anon"@, uid: None, ..context })
        } else if role == "authenticated"@ {
            Ok(context)
        } else {
            Err(refusal("User sessions cannot claim administrative roles"@))
        },
        None => Ok(context),
    }
}

/// The context of an envelope, given whether the chain accepts its session.
pub open spec fn verified(envelope: EnvelopeModel, accepted: bool) -> ApiOutcome<AuthModel> {
    match session_of(envelope.session) {
        Err(error) => Err(error),
        Ok(_) => if !accepted {
            Err(refusal("Session invalid, expired, revoked, or gateway not delegated"@))
        } else {
            match claims_checked(envelope) {
                Err(error) => Err(error),
                Ok(_) => match identity_of(envelope) {
                    Err(error) => Err(error),
                    Ok(identity) => context_of(identity, envelope.claims),
                },
            }
        },
    }
}

impl Envelope {
    /// The session as the chain takes it.
    pub fn session(&self) -> (result: Answer<Session>)
        ensures
            answered(result) == session_of(self.session.deep_view()),
    {
        let payload = &self.session;
        match (
            read_word(payload.expires_at.as_str()),
            read_word(payload.nonce.as_str()),
            read_word(payload.gateway_epoch.as_str()),
        ) {
            (Some(expires_at), Some(nonce), Some(gateway_epoch)) => {
                assert(expires_at.deep_view() =~= expires_at@);
                assert(nonce.deep_view() =~= nonce@);
                assert(gateway_epoch.deep_view() =~= gateway_epoch@);
                Ok(
                    Session {
                        gateway: crate::ordmap::Key::copied(&payload.gateway),
                        user: crate::ordmap::Key::copied(&payload.user),
                        uid: crate::ordmap::Key::copied(&payload.uid),
                        claims_hash: crate::ordmap::Key::copied(&payload.claims_hash),
                        expires_at,
                        nonce,
                        gateway_epoch,
                    },
                )
            },
            _ => Err(ApiError::unauthorized("Invalid session integer")),
        }
    }

    /// The token of the envelope: `kura.` and its text in base 64. There always is one.
    pub fn token(&self) -> (result: Answer<String>)
        ensures
            answered(result) == Ok::<Seq<char>, ApiFailure>(token_of(self.deep_view())),
            base64_bytes(base64_text(encode_utf8(envelope_text(self.deep_view())))) == Some(
                encode_utf8(envelope_text(self.deep_view())),
            ),
    {
        let mut fields: Vec<(String, Layout)> = Vec::new();
        fields.push((owned("session"), lay_payload(&self.session)));
        fields.push((owned("signature"), lay_text(hex(&self.signature).as_str())));
        fields.push((owned("claims"), self.claims.layout()));
        assert(fields.deep_view() =~= envelope_layout(self.deep_view())->Fields_0);
        let written = write_layout(&Layout::Fields(fields));
        let encoded = write_base64(&bytes_of(written.as_str()));
        Ok(cat2("kura.", encoded.as_str()))
    }

    /// The envelope of a token: the one that the token was made of, where JSON keeps its claims whole.
    pub fn decode(token: &str) -> (result: Answer<Self>)
        ensures
            answered(result) == decoded_token(token@),
            forall|envelope: EnvelopeModel|
                #![trigger token_of(envelope)]
                fitting(envelope) && keeps(envelope.claims, 99) && token@ == token_of(envelope) ==> answered(result)
                    == Ok::<EnvelopeModel, ApiFailure>(envelope),
    {
        proof {
            assert forall|envelope: EnvelopeModel|
                #![trigger token_of(envelope)]
                fitting(envelope) && keeps(envelope.claims, 99) && token@ == token_of(envelope) implies ({
                let written = envelope_text(envelope);
                &&& keeps_layout(envelope_layout(envelope), read_nesting())
                &&& after_prefix(token@, "kura."@) == Some(base64_text(encode_utf8(written)))
                &&& valid_utf8(encode_utf8(written))
                &&& decode_utf8(encode_utf8(written)) == written
            }) by {
                let written = envelope_text(envelope);
                envelope_is_kept(envelope);
                token_has_text(envelope);
                encode_utf8_valid_utf8(written);
                encode_utf8_decode_utf8(written);
            }
        }
        let rest = match strip_prefix(token, "kura.") {
            Some(rest) => rest,
            None => {
                return Err(ApiError::unauthorized("Expected signed Kurabase session"));
            },
        };
        let bytes = match read_base64(rest.as_str()) {
            Some(bytes) => bytes,
            None => {
                return Err(ApiError::unauthorized("Malformed session token"));
            },
        };
        assert(bytes.deep_view() =~= bytes@);
        match text_from(&bytes) {
            None => Err(ApiError::unauthorized("Malformed session envelope")),
            Some(source) => match parse_json(source.as_str()) {
                Err(_) => Err(ApiError::unauthorized("Malformed session envelope")),
                Ok(value) => {
                    let read = read_envelope(&value);
                    proof {
                        assert forall|envelope: EnvelopeModel|
                            #![trigger token_of(envelope)]
                            fitting(envelope) && keeps(envelope.claims, 99) && token@ == token_of(
                                envelope,
                            ) implies decoded_token(token@) == Ok::<EnvelopeModel, ApiFailure>(envelope) by {
                            envelope_value(envelope);
                            assert(text_reads(envelope_layout(envelope)));
                            token_reads_back(envelope);
                        }
                    }
                    match read {
                        Some(envelope) => Ok(envelope),
                        None => Err(ApiError::unauthorized("Malformed session envelope")),
                    }
                },
            },
        }
    }

    fn check_claims(&self) -> (result: Answer<()>)
        ensures
            answered(result) == claims_checked(self.deep_view()),
    {
        if same_word(&self.session.claims_hash, &crate::chain::id(0)) {
            if self.claims.is_null() {
                Ok(())
            } else {
                Err(ApiError::unauthorized("Unattested JWT claims"))
            }
        } else {
            let hash = keccak(&bytes_of(json_text(&self.claims).as_str()));
            if !same_word(&hash, &self.session.claims_hash) {
                Err(ApiError::unauthorized("Claims do not match signed hash"))
            } else {
                Ok(())
            }
        }
    }

    fn identity(&self) -> (result: Answer<String>)
        ensures
            answered(result) == identity_of(self.deep_view()),
    {
        match read_text(self.claims.child("sub")) {
            Some(subject) => {
                if !same_word(&crate::chain::key(subject.as_str()), &self.session.uid) {
                    Err(ApiError::unauthorized("Application subject does not match signed uid"))
                } else {
                    Ok(subject)
                }
            },
            None => {
                if same_word(&self.session.uid, &pad_user(&self.session.user)) {
                    Ok(hex(&self.session.user))
                } else {
                    Ok(hex(&self.session.uid))
                }
            },
        }
    }

    /// The context of the envelope, given whether the chain accepts its session.
    pub fn verify(&self, accepted: bool) -> (result: Answer<AuthContext>)
        ensures
            answered(result) == verified(self.deep_view(), accepted),
    {
        let _ = self.session()?;
        if !accepted {
            return Err(
                ApiError::unauthorized("Session invalid, expired, revoked, or gateway not delegated"),
            );
        }
        self.check_claims()?;
        let identity = self.identity()?;
        let mut context = AuthContext::authenticated(identity.as_str());
        match read_text(self.claims.child("role")) {
            Some(role) => {
                if same(role.as_str(), "anon") {
                    context.role = owned("anon");
                    context.uid = None;
                } else if !same(role.as_str(), "authenticated") {
                    return Err(ApiError::unauthorized("User sessions cannot claim administrative roles"));
                }
            },
            None => {},
        }
        context.jwt_claims = self.claims.copied();
        Ok(context)
    }
}

/// Who makes a request, and the session that allows writes.
pub struct Auth {
    pub context: AuthContext,
    pub envelope: Option<Envelope>,
}

/// [`Auth`] in specifications.
pub struct CallerModel {
    pub context: AuthModel,
    pub envelope: Option<EnvelopeModel>,
}

impl DeepView for Auth {
    type V = CallerModel;

    open spec fn deep_view(&self) -> CallerModel {
        CallerModel { context: self.context.deep_view(), envelope: self.envelope.deep_view() }
    }
}

// ---------------------------------------------------------------------------------------------
// Laws
// ---------------------------------------------------------------------------------------------

/// No session gives full authority: whoever it speaks for is a user or anonymous, and the claims of the
/// context are those of the envelope.
pub proof fn sessions_are_never_privileged(envelope: EnvelopeModel, accepted: bool)
    ensures
        match verified(envelope, accepted) {
            Ok(context) => {
                &&& accepted
                &&& !context.privileged
                &&& context.role == "anon"@ || context.role == "authenticated"@
                &&& context.role == "anon"@ && claim(envelope.claims, "role"@) == Some("anon"@)
                    ==> context.uid is None
                &&& context.jwt_claims == envelope.claims
            },
            Err(error) => error.status == 401,
        },
{
}

/// Claims count only where they are signed: a session without claims has none, and any others hash to
/// the signed word.
pub proof fn claims_are_signed(envelope: EnvelopeModel, accepted: bool)
    ensures
        verified(envelope, accepted) is Ok ==> (envelope.claims is Null && blank_word(
            envelope.session.claims_hash,
        ) || keccak_of(encode_utf8(json_text_of(envelope.claims))) == envelope.session.claims_hash),
{
}

/// Whether the texts of an envelope read as what they write.
pub open spec fn legible_envelope(envelope: EnvelopeModel) -> bool {
    &&& text_reads(envelope_layout(envelope))
    &&& base64_bytes(base64_text(encode_utf8(envelope_text(envelope)))) == Some(
        encode_utf8(envelope_text(envelope)),
    )
    &&& hex_read(hex_of(envelope.session.gateway)) == Some(envelope.session.gateway)
    &&& hex_read(hex_of(envelope.session.user)) == Some(envelope.session.user)
    &&& hex_read(hex_of(envelope.session.uid)) == Some(envelope.session.uid)
    &&& hex_read(hex_of(envelope.session.claims_hash)) == Some(envelope.session.claims_hash)
    &&& hex_read(hex_of(envelope.signature)) == Some(envelope.signature)
}

/// Whether the parts of an envelope have the lengths of addresses and words.
pub open spec fn fitting(envelope: EnvelopeModel) -> bool {
    envelope.session.gateway.len() == 20 && envelope.session.user.len() == 20 && envelope.session.uid.len() == 32
        && envelope.session.claims_hash.len() == 32
}

/// A token reads as the envelope that it was made of.
pub proof fn token_reads_back(envelope: EnvelopeModel)
    requires
        fitting(envelope),
        legible_envelope(envelope),
    ensures
        decoded_token(token_of(envelope)) == Ok::<EnvelopeModel, ApiFailure>(envelope),
{
    let written = envelope_text(envelope);
    token_has_text(envelope);
    encode_utf8_valid_utf8(written);
    encode_utf8_decode_utf8(written);
    envelope_value(envelope);
}

proof fn token_has_text(envelope: EnvelopeModel)
    ensures
        after_prefix(token_of(envelope), "kura."@) == Some(base64_text(encode_utf8(envelope_text(envelope)))),
{
    let rest = base64_text(encode_utf8(envelope_text(envelope)));
    let token = token_of(envelope);
    assert(token.take("kura."@.len() as int) =~= "kura."@);
    assert(token.skip("kura."@.len() as int) =~= rest);
}

proof fn envelope_is_kept(envelope: EnvelopeModel)
    requires
        keeps(envelope.claims, 99),
    ensures
        keeps_layout(envelope_layout(envelope), read_nesting()),
{
    let outer = envelope_layout(envelope)->Fields_0;
    let inner = payload_layout(envelope.session)->Fields_0;
    mark_is_long();
    reveal_strlit("session");
    reveal_strlit("gateway");
    assert(outer[0].0.len() == 7 && inner[0].0.len() == 7);
    assert forall|i: int| 0 <= i < inner.len() implies keeps_layout((#[trigger] inner[i]).1, 98) by {}
    assert(keeps_layout(payload_layout(envelope.session), 99));
    assert forall|i: int| 0 <= i < outer.len() implies keeps_layout((#[trigger] outer[i]).1, 99) by {}
}

/// The fields of an envelope that was written.
proof fn envelope_value(envelope: EnvelopeModel)
    ensures
        ({
            let value = layout_value(envelope_layout(envelope));
            let session = child(value, "session"@);
            &&& session == layout_value(payload_layout(envelope.session))
            &&& child(value, "signature"@) == Json::String(hex_of(envelope.signature))
            &&& child(value, "claims"@) == envelope.claims
            &&& child(session, "gateway"@) == Json::String(hex_of(envelope.session.gateway))
            &&& child(session, "user"@) == Json::String(hex_of(envelope.session.user))
            &&& child(session, "uid"@) == Json::String(hex_of(envelope.session.uid))
            &&& child(session, "claimsHash"@) == Json::String(hex_of(envelope.session.claims_hash))
            &&& child(session, "expiresAt"@) == Json::String(envelope.session.expires_at)
            &&& child(session, "nonce"@) == Json::String(envelope.session.nonce)
            &&& child(session, "gatewayEpoch"@) == Json::String(envelope.session.gateway_epoch)
        }),
{
    let outer = envelope_layout(envelope)->Fields_0;
    reveal_strlit("session");
    assert("session"@.len() == 7);
    reveal_strlit("signature");
    assert("signature"@.len() == 9);
    reveal_strlit("claims");
    assert("claims"@.len() == 6);
    assert(distinct(outer));
    field_read(outer, 0);
    field_read(outer, 1);
    field_read(outer, 2);
    let inner = payload_layout(envelope.session)->Fields_0;
    reveal_strlit("gateway");
    assert("gateway"@.len() == 7);
    reveal_strlit("user");
    assert("user"@.len() == 4);
    reveal_strlit("uid");
    assert("uid"@.len() == 3);
    reveal_strlit("claimsHash");
    assert("claimsHash"@.len() == 10);
    reveal_strlit("expiresAt");
    assert("expiresAt"@.len() == 9);
    reveal_strlit("nonce");
    assert("nonce"@.len() == 5);
    reveal_strlit("gatewayEpoch");
    assert("gatewayEpoch"@.len() == 12);
    assert(distinct(inner));
    field_read(inner, 0);
    field_read(inner, 1);
    field_read(inner, 2);
    field_read(inner, 3);
    field_read(inner, 4);
    field_read(inner, 5);
    field_read(inner, 6);
}

} // verus!
