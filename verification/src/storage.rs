//! The tokens of a sign-in, and where they are kept.

use vstd::prelude::*;

use crate::moment;
use crate::moment::Moment;
use crate::text;

verus! {

/// The tokens of a sign-in.
#[derive(Debug)]
pub struct Tokens {
    pub access_token: String,
    pub refresh_token: Option<String>,
    /// When the access token expires.
    pub expires_at: Moment,
    pub token_type: Option<String>,
    pub scope: Option<String>,
}

/// Whether an access token that expires at `expires_at` is expired, or will be within
/// `skew_secs`, at the time `now`.
pub open spec fn expiring(expires_at: Moment, skew_secs: i64, now: Moment) -> bool {
    expires_at.total() - now.total() <= skew_secs * moment::second()
}

impl Tokens {
    /// Whether the access token is expired, or will be within `skew_secs`. What counts as the
    /// present is whatever the clock says during the call.
    pub fn is_expiring(&self, skew_secs: i64) -> (r: bool)
        requires
            self.expires_at.wf(),
        ensures
            exists|now: Moment| now.wf() && r == #[trigger] expiring(self.expires_at, skew_secs, now),
    {
        let now = moment::now();
        self.is_expiring_at(skew_secs, now)
    }

    /// Whether the access token is expired at the time `now`, or will be within `skew_secs`
    /// of it.
    pub fn is_expiring_at(&self, skew_secs: i64, now: Moment) -> (r: bool)
        requires
            self.expires_at.wf(),
            now.wf(),
        ensures
            r == expiring(self.expires_at, skew_secs, now),
    {
        self.expires_at.is_within(skew_secs, &now)
    }
}

/// Once a token counts as expiring it does so from there on.
pub proof fn law_expiry_does_not_go_back(
    expires_at: Moment,
    skew_secs: i64,
    now: Moment,
    later: Moment,
)
    requires
        now.total() <= later.total(),
        expiring(expires_at, skew_secs, now),
    ensures
        expiring(expires_at, skew_secs, later),
{
}

/// Where a file is: where the environment says, unless that is empty, else at the default
/// place. Without such a place there is none for it.
pub open spec fn file_place(explicit: Option<Seq<char>>, default: Option<Seq<char>>) -> Option<
    Seq<char>,
> {
    match explicit {
        Some(p) => if p.len() > 0 {
            Some(p)
        } else {
            default
        },
        None => default,
    }
}

/// Where a file is: where the environment says, unless that is empty, else at the default
/// place, if there is one.
pub fn choose_path(explicit: &Option<String>, default: &Option<String>) -> (r: Option<String>)
    ensures
        text::seen_string(r) == file_place(
            text::seen_string(*explicit),
            text::seen_string(*default),
        ),
{
    if let Some(p) = explicit {
        if !p.as_str().is_empty() {
            return Some(p.clone());
        }
    }
    default.clone()
}

/// Where the tokens are kept, in words: the file, or why it cannot be found.
pub fn backend_description(path: Result<&str, &str>) -> (r: String)
    ensures
        r@ == (match path {
            Ok(p) => "file: "@ + p@,
            Err(e) => "file: <unresolvable: "@ + e@ + ">"@,
        }),
{
    match path {
        Ok(p) => {
            let mut r = "file: ".to_owned();
            r.append(p);
            r
        },
        Err(e) => {
            let mut r = "file: <unresolvable: ".to_owned();
            r.append(e);
            r.append(">");
            r
        },
    }
}

/// Tokens count as expiring from that many seconds before they expire, to the nanosecond, and
/// from then on.
pub proof fn law_tokens_expire_to_the_nanosecond(expires_at: Moment, skew_secs: i64, now: Moment)
    ensures
        now.total() >= expires_at.total() - skew_secs * 1_000_000_000 <==> expiring(
            expires_at,
            skew_secs,
            now,
        ),
{
}

/// A path that was given is used, whatever else there is; an empty one counts as none.
pub proof fn law_given_path_is_used(explicit: Option<Seq<char>>, default: Option<Seq<char>>)
    ensures
        explicit matches Some(p) ==> p.len() > 0 ==> file_place(explicit, default) == Some(p),
        explicit matches Some(p) ==> p.len() == 0 ==> file_place(explicit, default) == default,
        explicit is None ==> file_place(explicit, default) == default,
{
}

} // verus!
