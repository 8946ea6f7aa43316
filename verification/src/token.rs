//! Login tokens: when a client counts as logged in.

use vstd::prelude::*;
#[allow(unused_imports)]
use vstd::utf8::encode_utf8;

use crate::config::Config;
use crate::text::same_text;

verus! {

/// The issuer that a login token has to name, if it names one.
pub const ISSUER: &'static str = "DietPi Dashboard";

/// The claim that binds a token to one client.
pub const FINGERPRINT_CLAIM: &'static str = "fingerprint";

/// What a look at a client's token says.
#[derive(Debug, Clone, Copy, PartialEq, Eq, Structural)]
pub enum TokenState {
    InvalidToken,
    ValidToken,
    NoFingerprint,
}

impl TokenState {
    /// Whether the client counts as logged in.
    pub fn as_bool(&self) -> (valid: bool)
        ensures
            valid == (*self is ValidToken),
    {
        match self {
            TokenState::ValidToken => true,
            _ => false,
        }
    }
}

/// The error that `jsonwebtoken` gives for a token that it refuses.
#[verifier::external_type_specification]
#[verifier::external_body]
pub struct ExTokenError(jsonwebtoken::errors::Error);

/// What `jsonwebtoken::decode` finds in a token that it can accept at some time under
/// HS256 with this secret, where a token has to expire: when it expires, in seconds,
/// and the text-valued claims by their names. Nothing for a token that it accepts at
/// no time. The clock decides whether a token has expired, not what it holds.
pub uninterp spec fn signed_claims(
    token: Seq<char>,
    secret: Seq<u8>,
    issuer: Seq<char>,
    required: Seq<Seq<char>>,
) -> Option<(u64, Map<Seq<char>, Seq<char>>)>;

/// The claims of a token that is still accepted, if it expires no earlier than `cutoff`.
pub open spec fn accepted_claims(
    signed: Option<(u64, Map<Seq<char>, Seq<char>>)>,
    cutoff: u64,
) -> Option<Map<Seq<char>, Seq<char>>> {
    match signed {
        Some((expiry, claims)) => if expiry >= cutoff {
            Some(claims)
        } else {
            None
        },
        None => None,
    }
}

/// The characters of each of some strings.
spec fn texts_of(texts: Seq<&str>) -> Seq<Seq<char>> {
    texts.map_values(|text: &str| text@)
}

/// Whether `decoded` is the claim of a token that is accepted if it expires no earlier
/// than `cutoff`, and an error for a token that is refused.
spec fn decoded_at(
    signed: Option<(u64, Map<Seq<char>, Seq<char>>)>,
    token: Seq<char>,
    claim: Seq<char>,
    decoded: Result<Option<String>, jsonwebtoken::errors::Error>,
    cutoff: u64,
) -> bool {
    match accepted_claims(signed, cutoff) {
        Some(claims) => {
            &&& token.contains('.')
            &&& decoded matches Ok(found)
            &&& match found {
                Some(value) => claims.contains_key(claim) && claims[claim] == value@,
                None => !claims.contains_key(claim),
            }
        },
        None => decoded is Err,
    }
}

/// Calls `jsonwebtoken::decode` and picks one claim out of the payload, if it is
/// there and a text. Trusted of it: what a token holds depends on the arguments alone,
/// and is what `signed_claims` names; such a token is refused if it expires earlier
/// than some second, and else accepted; all other tokens are refused; and an accepted
/// token has its parts set apart by dots. Which second that is, is left open: it is the
/// present one by the machine's clock, less a leeway of a minute.
#[verifier::external_body]
fn decode_claim(
    token: &str,
    secret: &[u8],
    issuer: &str,
    required: &[&str],
    claim: &str,
) -> (decoded: Result<Option<String>, jsonwebtoken::errors::Error>)
    requires
        texts_of(required@).contains("exp"@),
    ensures
        exists|cutoff: u64|
            #[trigger] decoded_at(
                signed_claims(token@, secret@, issuer@, texts_of(required@)),
                token@,
                claim@,
                decoded,
                cutoff,
            ),
{
    let mut validator = jsonwebtoken::Validation::new(jsonwebtoken::Algorithm::HS256);
    validator.set_issuer(&[issuer]);
    validator.set_required_spec_claims(required);
    let key = jsonwebtoken::DecodingKey::from_secret(secret);
    let data = jsonwebtoken::decode::<serde_json::Value>(token, &key, &validator)?;
    Ok(data.claims.get(claim).and_then(serde_json::Value::as_str).map(String::from))
}

/// The characters of an optional string.
pub open spec fn text_of(text: Option<&str>) -> Option<Seq<char>> {
    match text {
        Some(text) => Some(text@),
        None => None,
    }
}

/// What the server finds in a token that it can accept at some time: when it expires,
/// and what it claims.
pub open spec fn signed_token(secret: Seq<char>, token: Seq<char>) -> Option<
    (u64, Map<Seq<char>, Seq<char>>),
> {
    signed_claims(token, encode_utf8(secret), ISSUER@, seq!["exp"@, "iat"@])
}

/// The fingerprint that `token` claims under the server's signature; nothing for
/// a token that the server never accepts.
pub open spec fn claimed_fingerprint(secret: Seq<char>, token: Seq<char>) -> Option<Seq<char>> {
    match signed_token(secret, token) {
        Some((_, claims)) => if token.contains('.') && claims.contains_key(FINGERPRINT_CLAIM@) {
            Some(claims[FINGERPRINT_CLAIM@])
        } else {
            None
        },
        None => None,
    }
}

/// What an accepted token's fingerprint (nothing, for a token that is refused)
/// and the client's own fingerprint say together.
pub open spec fn token_state(
    claimed: Option<Seq<char>>,
    fingerprint: Option<Seq<char>>,
) -> TokenState {
    match (claimed, fingerprint) {
        (None, _) => TokenState::InvalidToken,
        (Some(_), None) => TokenState::NoFingerprint,
        (Some(claimed), Some(own)) => if claimed == own {
            TokenState::ValidToken
        } else {
            TokenState::InvalidToken
        },
    }
}

/// What a look at `token` says when tokens are refused that expire earlier than
/// `cutoff`.
pub open spec fn state_at(
    secret: Seq<char>,
    token: Seq<char>,
    fingerprint: Option<Seq<char>>,
    cutoff: u64,
) -> TokenState {
    let accepted = accepted_claims(signed_token(secret, token), cutoff) is Some;
    token_state(
        if accepted {
            claimed_fingerprint(secret, token)
        } else {
            None
        },
        fingerprint,
    )
}

/// What a look at `token` can say at some time.
pub open spec fn possible_state(
    secret: Seq<char>,
    token: Seq<char>,
    fingerprint: Option<Seq<char>>,
    state: TokenState,
) -> bool {
    exists|cutoff: u64| state == #[trigger] state_at(secret, token, fingerprint, cutoff)
}

/// Judges an accepted token by the fingerprint that it claims; a refused one
/// claims none.
pub fn judge_token(claimed: Option<&str>, fingerprint: Option<&str>) -> (state: TokenState)
    ensures
        state == token_state(text_of(claimed), text_of(fingerprint)),
{
    match claimed {
        None => TokenState::InvalidToken,
        Some(claimed) => match fingerprint {
            None => TokenState::NoFingerprint,
            Some(own) => if same_text(claimed, own) {
                TokenState::ValidToken
            } else {
                TokenState::InvalidToken
            },
        },
    }
}

/// Looks at a client's token. The clock has a say: an expired token is refused.
pub fn validate_token(token: &str, fingerprint: Option<&str>, secret: &str) -> (state: TokenState)
    ensures
        possible_state(secret@, token@, text_of(fingerprint), state),
{
    let required: [&str; 2] = ["exp", "iat"];
    assert(texts_of(required@) =~= seq!["exp"@, "iat"@]);
    assert(texts_of(required@)[0] == "exp"@);
    let decoded = decode_claim(token, secret.as_bytes(), ISSUER, &required, FINGERPRINT_CLAIM);
    let state = match &decoded {
        Ok(Some(claimed)) => judge_token(Some(claimed.as_str()), fingerprint),
        _ => judge_token(None, fingerprint),
    };
    proof {
        let signed = signed_token(secret@, token@);
        let cutoff = choose|cutoff: u64|
            #[trigger] decoded_at(signed, token@, FINGERPRINT_CLAIM@, decoded, cutoff);
        assert(state == state_at(secret@, token@, text_of(fingerprint), cutoff));
    }
    state
}

/// Whether a client is served, given what its token says: always, where nobody
/// has to log in.
pub open spec fn admitted(pass: bool, state: TokenState) -> bool {
    pass ==> state is ValidToken
}

/// Whether a client is served, given what its token says.
pub fn admits(pass: bool, state: TokenState) -> (yes: bool)
    ensures
        yes == admitted(pass, state),
{
    !pass || state.as_bool()
}

/// Whether a client with this token is served now.
pub fn authorize(config: &Config, token: &str, fingerprint: Option<&str>) -> (yes: bool)
    ensures
        !config.pass ==> yes,
        config.pass ==> exists|state: TokenState|
            #[trigger] possible_state(config.secret@, token@, text_of(fingerprint), state) && yes
                == admitted(true, state),
{
    if !config.pass {
        return true;
    }
    let state = validate_token(token, fingerprint, config.secret.as_str());
    admits(config.pass, state)
}

/// Whether `token` can ever log in a client with this fingerprint: the server
/// signed it, and for this very fingerprint.
pub open spec fn vouches(
    secret: Seq<char>,
    token: Seq<char>,
    fingerprint: Option<Seq<char>>,
) -> bool {
    fingerprint is Some && claimed_fingerprint(secret, token) == fingerprint
}

/// A client counts as logged in only by a token that the server signed for the
/// client's own fingerprint.
pub proof fn law_login_needs_a_signed_token(
    secret: Seq<char>,
    token: Seq<char>,
    fingerprint: Option<Seq<char>>,
    state: TokenState,
)
    requires
        possible_state(secret, token, fingerprint, state),
    ensures
        state is ValidToken ==> vouches(secret, token, fingerprint),
{
}

/// A missing fingerprint is reported for a token that the server signed, and
/// never counts as a login.
pub proof fn law_no_fingerprint_no_login(
    secret: Seq<char>,
    token: Seq<char>,
    fingerprint: Option<Seq<char>>,
    state: TokenState,
)
    requires
        possible_state(secret, token, fingerprint, state),
    ensures
        fingerprint is None ==> !(state is ValidToken),
        state is NoFingerprint ==> fingerprint is None && claimed_fingerprint(
            secret,
            token,
        ) is Some,
{
}

/// Where clients have to log in, a client whose token is not signed for its own
/// fingerprint is never served.
pub proof fn law_without_a_good_token_nobody_is_served(
    secret: Seq<char>,
    token: Seq<char>,
    fingerprint: Option<Seq<char>>,
    state: TokenState,
)
    requires
        possible_state(secret, token, fingerprint, state),
        !vouches(secret, token, fingerprint),
    ensures
        !admitted(true, state),
{
}

/// A good token logs its client in: one that the server signed for the client's own
/// fingerprint and that has not expired is found valid.
pub proof fn law_good_token_logs_its_client_in(
    secret: Seq<char>,
    token: Seq<char>,
    fingerprint: Option<Seq<char>>,
    cutoff: u64,
)
    requires
        signed_token(secret, token) matches Some((expiry, _)) && expiry >= cutoff,
        vouches(secret, token, fingerprint),
    ensures
        state_at(secret, token, fingerprint, cutoff) is ValidToken,
        forall|pass: bool| admitted(pass, state_at(secret, token, fingerprint, cutoff)),
{
}

/// What a look at a token says, for all tokens and clients. It is found valid if and only
/// if the server signed it, it has not expired, and what it claims as its fingerprint is
/// the client's own. A fingerprint is missed if and only if such a token comes from a
/// client without one.
pub proof fn law_what_a_token_says(
    secret: Seq<char>,
    token: Seq<char>,
    fingerprint: Option<Seq<char>>,
    cutoff: u64,
)
    ensures
        ({
            let signed = signed_claims(
                token,
                encode_utf8(secret),
                "DietPi Dashboard"@,
                seq!["exp"@, "iat"@],
            );
            let good = signed matches Some((expiry, claims)) && expiry >= cutoff && token.contains(
                '.',
            ) && claims.contains_key("fingerprint"@);
            let claimed = match signed {
                Some((_, claims)) => claims["fingerprint"@],
                None => Seq::empty(),
            };
            let state = state_at(secret, token, fingerprint, cutoff);
            &&& state is ValidToken <==> good && fingerprint == Some(claimed)
            &&& state is NoFingerprint <==> good && fingerprint is None
            &&& vouches(secret, token, fingerprint) <==> fingerprint is Some && state_at(
                secret,
                token,
                fingerprint,
                0,
            ) is ValidToken
        }),
{
}

/// An accepted token is valid exactly for the client whose fingerprint it claims, whatever
/// that is; a refused one for nobody.
pub proof fn law_judgement_compares_fingerprints(
    claimed: Option<Seq<char>>,
    fingerprint: Option<Seq<char>>,
)
    ensures
        token_state(claimed, fingerprint) is ValidToken <==> claimed is Some && claimed
            == fingerprint,
        token_state(claimed, fingerprint) is NoFingerprint <==> claimed is Some
            && fingerprint is None,
{
}

/// A token that is refused for its age is refused ever after, and one that is accepted
/// was accepted ever since it was signed.
pub proof fn law_token_only_gets_older(
    secret: Seq<char>,
    token: Seq<char>,
    fingerprint: Option<Seq<char>>,
    earlier: u64,
    later: u64,
)
    requires
        earlier <= later,
        !(state_at(secret, token, fingerprint, later) is InvalidToken),
    ensures
        state_at(secret, token, fingerprint, earlier) == state_at(
            secret,
            token,
            fingerprint,
            later,
        ),
{
}

/// Where nobody has to log in, everybody is served; elsewhere, exactly the clients with a
/// valid token.
pub proof fn law_who_is_served(state: TokenState)
    ensures
        admitted(false, state),
        admitted(true, state) <==> state is ValidToken,
{
}

/// A fingerprint is modelled by its characters.
pub proof fn law_text_is_modelled_whole(text: &str)
    ensures
        text_of(Some(text)) == Some(text@),
        text_of(None) is None,
{
}

/// What a look at a token can say is what it says for some cutoff, and nothing else. So a
/// good token that outlasts every cutoff always logs its client in, and a token that the
/// server never signed never does.
pub proof fn law_only_age_can_spoil_a_good_token(
    secret: Seq<char>,
    token: Seq<char>,
    fingerprint: Option<Seq<char>>,
    state: TokenState,
)
    requires
        possible_state(secret, token, fingerprint, state),
    ensures
        exists|cutoff: u64| state == #[trigger] state_at(secret, token, fingerprint, cutoff),
        vouches(secret, token, fingerprint) && !(state is ValidToken) ==> state is InvalidToken && (
        signed_token(secret, token) matches Some((expiry, _)) && expiry < u64::MAX),
        signed_token(secret, token) is None ==> state is InvalidToken,
{
}

/// A token can be found, at some time, to be what it is found to be for each cutoff.
pub proof fn law_every_age_is_possible(
    secret: Seq<char>,
    token: Seq<char>,
    fingerprint: Option<Seq<char>>,
    cutoff: u64,
)
    ensures
        possible_state(secret, token, fingerprint, state_at(secret, token, fingerprint, cutoff)),
{
}

} // verus!
