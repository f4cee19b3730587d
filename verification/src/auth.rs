//! Whether the stored tokens will do for a call.

use vstd::prelude::*;

use crate::moment;
use crate::moment::Moment;
use crate::storage;
use crate::storage::Tokens;

verus! {

/// How many seconds before it expires an access token is not used any more.
pub const EXPIRY_SKEW_SECS: i64 = 30;

/// What is needed for an access token.
#[derive(Debug)]
pub enum TokenNeed {
    /// The stored one will do.
    Use(String),
    /// A new one is to be had for the refresh token, and stored.
    Refresh(String),
    /// There is none; the person has to sign in.
    SignIn(SignInReason),
}

/// Why a person has to sign in.
#[derive(Clone, Copy, Debug, PartialEq, Eq, Structural)]
pub enum SignInReason {
    /// Nothing is stored.
    NotSignedIn,
    /// What is stored is expired and cannot be refreshed.
    Expired,
}

impl SignInReason {
    /// The reason in words.
    pub open spec fn words(&self) -> Seq<char> {
        match self {
            SignInReason::NotSignedIn => "not signed in — run `inderes login` first"@,
            SignInReason::Expired => {
                "access token expired and no refresh token stored — run `inderes login`"@
            },
        }
    }

    /// The reason in words.
    pub fn message(&self) -> (r: String)
        ensures
            r@ == self.words(),
    {
        match self {
            SignInReason::NotSignedIn => "not signed in — run `inderes login` first".to_owned(),
            SignInReason::Expired => {
                "access token expired and no refresh token stored — run `inderes login`".to_owned()
            },
        }
    }
}

/// Whether `need` is what is needed for an access token at the time `now`.
pub open spec fn is_need(tokens: Option<Tokens>, now: Moment, need: TokenNeed) -> bool {
    match tokens {
        None => need matches TokenNeed::SignIn(why) && why == SignInReason::NotSignedIn,
        Some(t) => if !storage::expiring(t.expires_at, EXPIRY_SKEW_SECS, now) {
            need matches TokenNeed::Use(token) && token@ == t.access_token@
        } else {
            match t.refresh_token {
                Some(rt) => need matches TokenNeed::Refresh(token) && token@ == rt@,
                None => need matches TokenNeed::SignIn(why) && why == SignInReason::Expired,
            }
        },
    }
}

/// What is needed for an access token. What counts as the present is whatever the clock says
/// during the call.
pub fn ensure_access_token(tokens: &Option<Tokens>) -> (r: TokenNeed)
    requires
        tokens matches Some(t) ==> t.expires_at.wf(),
    ensures
        exists|now: Moment| now.wf() && #[trigger] is_need(*tokens, now, r),
{
    ensure_access_token_at(tokens, moment::now())
}

/// What is needed for an access token at the time `now`.
pub fn ensure_access_token_at(tokens: &Option<Tokens>, now: Moment) -> (r: TokenNeed)
    requires
        now.wf(),
        tokens matches Some(t) ==> t.expires_at.wf(),
    ensures
        is_need(*tokens, now, r),
{
    match tokens {
        None => TokenNeed::SignIn(SignInReason::NotSignedIn),
        Some(t) => {
            if !t.is_expiring_at(EXPIRY_SKEW_SECS, now) {
                return TokenNeed::Use(t.access_token.clone());
            }
            match &t.refresh_token {
                Some(rt) => TokenNeed::Refresh(rt.clone()),
                None => TokenNeed::SignIn(SignInReason::Expired),
            }
        },
    }
}

/// A stored token is used only as long as it stays valid for the time that a call may take.
pub proof fn law_expired_tokens_are_not_used(tokens: Option<Tokens>, now: Moment, need: TokenNeed)
    requires
        is_need(tokens, now, need),
        need is Use,
    ensures
        tokens is Some,
        tokens->0.expires_at.total() - now.total() > EXPIRY_SKEW_SECS * 1_000_000_000,
{
}

/// A token is used as long as it has more than thirty seconds to live; from then on it is
/// refreshed where that can be done, and a sign-in is asked for where it cannot.
pub proof fn law_token_is_used_or_refreshed(t: Tokens, now: Moment, need: TokenNeed)
    requires
        is_need(Some(t), now, need),
    ensures
        ({
            let left = t.expires_at.total() - now.total();
            &&& left > 30_000_000_000 ==> (need matches TokenNeed::Use(token) && token@
                == t.access_token@)
            &&& left <= 30_000_000_000 ==> match t.refresh_token {
                Some(rt) => need matches TokenNeed::Refresh(token) && token@ == rt@,
                None => need matches TokenNeed::SignIn(why) && why == SignInReason::Expired,
            }
        }),
{
}

/// Where nobody signed in a sign-in is asked for.
pub proof fn law_nobody_signed_in(now: Moment, need: TokenNeed)
    requires
        is_need(None, now, need),
    ensures
        need matches TokenNeed::SignIn(why) && why == SignInReason::NotSignedIn,
{
}

} // verus!
