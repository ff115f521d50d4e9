//! The session with the API: which token a request carries, when it is renewed,
//! and what a reply means.
//!
//! No socket is opened here. [`Client::get`] says what to send; what came back
//! is handed to [`Client::signed_in`] or [`received`]. A clock is read as
//! nanoseconds from a fixed moment, and never goes back.

use crate::cognito::{self, Refreshed};
use crate::text;
use vstd::prelude::*;

verus! {

/// A failure worth telling apart from the others.
#[derive(Debug, PartialEq, Eq)]
pub enum Fault {
    /// The refresh token will not do it any more. Terminal: no retry helps.
    Unauthorised(String),
    /// The API refused the request itself: a bug here, not a blip.
    Refused { status: u16, message: String },
    /// Everything else: DNS, a reset, a 502, a body that would not parse. Worth
    /// another attempt later.
    Transient(String),
}

/// A failure, its strings as characters.
pub enum FaultView {
    Unauthorised(Seq<char>),
    Refused { status: u16, message: Seq<char> },
    Transient(Seq<char>),
}

impl View for Fault {
    type V = FaultView;

    open spec fn view(&self) -> FaultView {
        match self {
            Fault::Unauthorised(m) => FaultView::Unauthorised(m@),
            Fault::Refused { status, message } => FaultView::Refused {
                status: *status,
                message: message@,
            },
            Fault::Transient(m) => FaultView::Transient(m@),
        }
    }
}

/// A failure in words.
pub open spec fn fault_text(f: FaultView) -> Seq<char> {
    match f {
        FaultView::Unauthorised(m) => "sign-in rejected: "@ + m,
        FaultView::Refused { status, message } => "refused ("@ + text::digits(status as nat)
            + "): "@ + message,
        FaultView::Transient(m) => m,
    }
}

impl Fault {
    /// This failure in words.
    pub fn text(&self) -> (s: String)
        ensures
            s@ == fault_text(self@),
    {
        match self {
            Fault::Unauthorised(m) => {
                let mut s = "sign-in rejected: ".to_owned();
                s.append(m.as_str());
                s
            },
            Fault::Refused { status, message } => {
                let mut s = "refused (".to_owned();
                s.append(text::decimal(*status as u64).as_str());
                s.append("): ");
                s.append(message.as_str());
                s
            },
            Fault::Transient(m) => m.clone(),
        }
    }
}

/// How long before its end a token is renewed: a minute, in nanoseconds.
pub const MARGIN: u128 = 60_000_000_000;

/// Nanoseconds in a second.
pub const SECOND: u128 = 1_000_000_000;

/// An id token, when it was got and how long it lasts.
#[derive(Debug, PartialEq, Eq)]
pub struct Token {
    pub id_token: String,
    pub got_at: u128,
    pub lifetime: u128,
}

/// How long ago a moment was, by a clock that never goes back.
pub open spec fn elapsed(since: u128, now: u128) -> int {
    if now >= since {
        now - since
    } else {
        0
    }
}

/// How long ago a moment was, by a clock that never goes back.
fn elapsed_since(since: u128, now: u128) -> (n: u128)
    ensures
        n == elapsed(since, now),
{
    if now >= since {
        now - since
    } else {
        0
    }
}

impl Token {
    /// Whether this token has no more than its last minute left.
    pub open spec fn is_tired(self, now: u128) -> bool {
        elapsed(self.got_at, now) + MARGIN >= self.lifetime
    }

    /// Whether this token has no more than its last minute left. Renewed a
    /// minute early, no request of a long run meets its end.
    pub fn tired(&self, now: u128) -> (r: bool)
        ensures
            r == self.is_tired(now),
    {
        let age = elapsed_since(self.got_at, now);
        age >= self.lifetime || self.lifetime - age <= MARGIN
    }
}

/// What is known of the session with the API.
#[derive(Debug, PartialEq, Eq)]
pub struct Client {
    pub refresh_token: String,
    pub token: Option<Token>,
    pub authenticated_at: Option<i64>,
}

/// Something to send.
#[derive(Debug, PartialEq, Eq)]
pub enum Call {
    /// A sign-in: this body to [`cognito::IDP_HOST`], for [`cognito::TARGET`].
    SignIn { body: String },
    /// A request for a page, authorised by a token.
    Get { url: String, authtoken: String },
}

/// Something to send, its strings as characters.
pub enum CallView {
    SignIn { body: Seq<char> },
    Get { url: Seq<char>, authtoken: Seq<char> },
}

impl View for Call {
    type V = CallView;

    open spec fn view(&self) -> CallView {
        match self {
            Call::SignIn { body } => CallView::SignIn { body: body@ },
            Call::Get { url, authtoken } => CallView::Get { url: url@, authtoken: authtoken@ },
        }
    }
}

/// The lifetime of a token that expires in so many seconds, in nanoseconds.
pub open spec fn lifetime_of(expires_in: i64) -> int {
    if expires_in < 0 {
        0
    } else {
        expires_in * SECOND
    }
}

/// What a claim, or else what was known before, says.
pub open spec fn latest_claim(claim: Option<i64>, known: Option<i64>) -> Option<i64> {
    match claim {
        Some(t) => Some(t),
        None => known,
    }
}

/// The first status that blames the server and not the request.
pub const SERVER_FAILED: u16 = 500;

/// What a sign-in that was not granted comes to. A server that failed says
/// nothing of the refresh token, so that is worth another attempt; any other
/// reply is the token's end.
pub open spec fn sign_in_fault(status: u16, kind: Seq<char>, message: Seq<char>) -> FaultView {
    if status >= SERVER_FAILED {
        FaultView::Transient(kind + ": "@ + message)
    } else {
        FaultView::Unauthorised(kind + ": "@ + message)
    }
}

impl Client {
    /// A session that has not signed in.
    pub fn new(refresh_token: String) -> (c: Client)
        ensures
            c.refresh_token == refresh_token,
            c.token is None,
            c.authenticated_at is None,
    {
        Client { refresh_token, token: None, authenticated_at: None }
    }

    /// When the browser sign-in behind this credential happened, in seconds of
    /// the epoch, once a sign-in has said so.
    pub fn authenticated_at(&self) -> (r: Option<i64>)
        ensures
            r == self.authenticated_at,
    {
        self.authenticated_at
    }

    /// The token that a request can carry now, if there is one.
    pub open spec fn held(self, now: u128) -> Option<Seq<char>> {
        match self.token {
            Some(t) => if t.is_tired(now) {
                None
            } else {
                Some(t.id_token@)
            },
            None => None,
        }
    }

    /// What to send to get a page.
    pub open spec fn call_for(self, url: Seq<char>, now: u128) -> CallView {
        match self.held(now) {
            Some(authtoken) => CallView::Get { url, authtoken },
            None => CallView::SignIn { body: cognito::refresh_text(self.refresh_token@) },
        }
    }

    /// What to send to get a page: the request for it, where the token held is
    /// good for it, and a sign-in where it is not.
    pub fn get(&self, url: &str, now: u128) -> (call: Call)
        ensures
            call@ == self.call_for(url@, now),
    {
        if let Some(t) = &self.token {
            if !t.tired(now) {
                return Call::Get { url: url.to_owned(), authtoken: t.id_token.clone() };
            }
        }
        Call::SignIn { body: cognito::refresh_body(self.refresh_token.as_str()) }
    }

    /// Keeps the token that a sign-in gave, with what it claims of the sign-in
    /// behind the credential; where it claims nothing, what was known stands.
    pub fn keep(&mut self, id_token: &str, expires_in: i64, claim: Option<i64>, now: u128)
        ensures
            final(self).refresh_token == old(self).refresh_token,
            final(self).authenticated_at == latest_claim(claim, old(self).authenticated_at),
            final(self).token matches Some(t) && t.id_token@ == id_token@ && t.got_at == now
                && t.lifetime == lifetime_of(expires_in),
    {
        self.authenticated_at = match claim {
            Some(t) => Some(t),
            None => self.authenticated_at,
        };
        let lifetime = if expires_in < 0 {
            0
        } else {
            expires_in as u128 * SECOND
        };
        self.token = Some(Token { id_token: id_token.to_owned(), got_at: now, lifetime });
    }

    /// Takes in the reply to a sign-in that was made for a page, with its
    /// status, and says what to send next: the request for the page with the new
    /// token, whatever it has left.
    pub fn signed_in(
        &mut self,
        status: u16,
        reply: Result<Refreshed, String>,
        url: &str,
        now: u128,
    ) -> (r: Result<Call, Fault>)
        ensures
            final(self).refresh_token == old(self).refresh_token,
            match (reply, r) {
                (Ok(Refreshed::Renewed { id_token, expires_in }), Ok(call)) => {
                    &&& call@ == (CallView::Get { url: url@, authtoken: id_token@ })
                    &&& final(self).authenticated_at == latest_claim(
                        cognito::auth_time_of(id_token@),
                        old(self).authenticated_at,
                    )
                    &&& final(self).token matches Some(t)
                    &&& t.id_token@ == id_token@ && t.got_at == now && t.lifetime == lifetime_of(
                        expires_in,
                    )
                },
                (Ok(Refreshed::Rejected { kind, message }), Err(f)) => {
                    &&& f@ == sign_in_fault(status, kind@, message@)
                    &&& *final(self) == *old(self)
                },
                (Err(e), Err(f)) => {
                    &&& f@ == FaultView::Transient(e@)
                    &&& *final(self) == *old(self)
                },
                _ => false,
            },
            status >= SERVER_FAILED && (reply matches Ok(Refreshed::Rejected { .. })) ==> (
            r matches Err(f) && f is Transient) && *final(self) == *old(self),
    {
        match reply {
            Ok(Refreshed::Renewed { id_token, expires_in }) => {
                let claim = cognito::auth_time(id_token.as_str());
                self.keep(id_token.as_str(), expires_in, claim, now);
                Ok(Call::Get { url: url.to_owned(), authtoken: id_token })
            },
            Ok(Refreshed::Rejected { kind, message }) => {
                let mut why = kind;
                why.append(": ");
                why.append(message.as_str());
                if status >= SERVER_FAILED {
                    Err(Fault::Transient(why))
                } else {
                    Err(Fault::Unauthorised(why))
                }
            },
            Err(e) => Err(Fault::Transient(e)),
        }
    }
}

/// A sign-in that got no reply.
pub fn no_reply(cause: &str) -> (f: Fault)
    ensures
        f@ == FaultView::Transient("cognito unreachable: "@ + cause@),
{
    let mut why = "cognito unreachable: ".to_owned();
    why.append(cause);
    Fault::Transient(why)
}

/// What came back of a request for a page. The body of a reply that reports a
/// failure may be unreadable too.
#[derive(Debug, PartialEq, Eq)]
pub enum Received {
    Page(String),
    Unreadable(String),
    Status { status: u16, body: Option<String> },
    Nothing(String),
}

/// What came back of a request means.
pub open spec fn received_view(reply: Received) -> Result<Seq<char>, FaultView> {
    match reply {
        Received::Page(s) => Ok(s@),
        Received::Unreadable(e) => Err(FaultView::Transient("unreadable body: "@ + e@)),
        Received::Status { status, body } => if status == 401 || status == 403 {
            Err(
                FaultView::Unauthorised(
                    match body {
                        Some(s) => s@,
                        None => "401/403"@,
                    },
                ),
            )
        } else {
            let message = match body {
                Some(s) => s@,
                None => ""@,
            };
            if status == 400 {
                Err(FaultView::Refused { status, message })
            } else {
                Err(
                    FaultView::Transient("HTTP "@ + text::digits(status as nat) + ": "@ + message),
                )
            }
        },
        Received::Nothing(e) => Err(FaultView::Transient(e@)),
    }
}

/// Decides what came back of a request for a page: the page, a sign-in that is
/// no longer accepted, a request that was refused, or something to try again.
pub fn received(reply: Received) -> (r: Result<String, Fault>)
    ensures
        match r {
            Ok(s) => received_view(reply) == Ok::<Seq<char>, FaultView>(s@),
            Err(f) => received_view(reply) == Err::<Seq<char>, FaultView>(f@),
        },
{
    match reply {
        Received::Page(s) => Ok(s),
        Received::Unreadable(e) => {
            let mut why = "unreadable body: ".to_owned();
            why.append(e.as_str());
            Err(Fault::Transient(why))
        },
        Received::Status { status, body } => {
            if status == 401 || status == 403 {
                let why = match body {
                    Some(s) => s,
                    None => "401/403".to_owned(),
                };
                return Err(Fault::Unauthorised(why));
            }
            let message = match body {
                Some(s) => s,
                None => "".to_owned(),
            };
            if status == 400 {
                Err(Fault::Refused { status, message })
            } else {
                let mut why = "HTTP ".to_owned();
                why.append(text::decimal(status as u64).as_str());
                why.append(": ");
                why.append(message.as_str());
                Err(Fault::Transient(why))
            }
        },
        Received::Nothing(e) => Err(Fault::Transient(e)),
    }
}

/// A pace-setter: how long from one request to the next at least, in
/// nanoseconds, and when the last one went out.
#[derive(Debug, PartialEq, Eq)]
pub struct Pace {
    pub every: u128,
    pub last: Option<u128>,
}

/// How long a request has yet to wait.
pub open spec fn pause(p: Pace, now: u128) -> int {
    match p.last {
        Some(last) => if elapsed(last, now) < p.every {
            p.every - elapsed(last, now)
        } else {
            0
        },
        None => 0,
    }
}

impl Pace {
    /// A pace of one request in so many nanoseconds.
    pub fn every(nanos: u128) -> (p: Pace)
        ensures
            p.every == nanos,
            p.last is None,
    {
        Pace { every: nanos, last: None }
    }

    /// How long the next request has yet to wait.
    pub fn wait(&self, now: u128) -> (n: u128)
        ensures
            n == pause(*self, now),
    {
        match self.last {
            Some(last) => {
                let since = elapsed_since(last, now);
                if since < self.every {
                    self.every - since
                } else {
                    0
                }
            },
            None => 0,
        }
    }

    /// Notes that a request goes out.
    pub fn went(&mut self, now: u128)
        ensures
            final(self).every == old(self).every,
            final(self).last == Some(now),
    {
        self.last = Some(now);
    }
}

/// A token is never carried by a request in the last minute of its life.
pub proof fn law_no_request_carries_a_token_in_its_last_minute(
    c: Client,
    url: Seq<char>,
    now: u128,
)
    requires
        c.call_for(url, now) is Get,
    ensures
        c.token matches Some(t) && elapsed(t.got_at, now) + MARGIN < t.lifetime
            && c.call_for(url, now) == (CallView::Get { url, authtoken: t.id_token@ }),
{
}

/// A session that holds no token signs in before anything else, and so does one
/// whose token has come to its last minute.
pub proof fn law_a_session_signs_in_first(c: Client, url: Seq<char>, now: u128)
    requires
        c.token matches Some(t) ==> t.is_tired(now),
    ensures
        c.call_for(url, now) == (CallView::SignIn {
            body: cognito::refresh_text(c.refresh_token@),
        }),
{
}

/// Once it is known when the credential was signed in, no sign-in forgets it.
pub proof fn law_the_age_of_the_credential_is_not_forgotten(
    claim: Option<i64>,
    known: Option<i64>,
)
    requires
        known is Some,
    ensures
        latest_claim(claim, known) is Some,
        claim is None ==> latest_claim(claim, known) == known,
{
}

/// A request that waits as long as it is told goes out no sooner after the one
/// before it than the pace allows.
pub proof fn law_requests_keep_their_distance(p: Pace, last: u128, now: u128)
    requires
        p.last == Some(last),
        last <= now,
    ensures
        now + pause(p, now) >= last + p.every,
        now + pause(p, now) == (if now >= last + p.every { now as int } else { last + p.every }),
{
}

/// Only a reply of 401 or 403 ends the session, and only one of 400 blames the
/// request; every other failure is worth another attempt.
pub proof fn law_failures_are_told_apart(status: u16, body: Option<String>)
    ensures
        ({
            let r = received_view(Received::Status { status, body });
            &&& r is Err
            &&& r->Err_0 is Unauthorised <==> status == 401 || status == 403
            &&& r->Err_0 is Refused <==> status == 400
        }),
{
}

/// A token is carried by every request until its last minute: it is not renewed
/// before.
pub proof fn law_a_token_is_used_until_its_last_minute(c: Client, url: Seq<char>, now: u128)
    requires
        c.token matches Some(t) && elapsed(t.got_at, now) + MARGIN < t.lifetime,
    ensures
        c.call_for(url, now) == (CallView::Get { url, authtoken: c.token->0.id_token@ }),
{
}

/// A sign-in that meets a failed server does not end the session: only a reply
/// that the server stands by says that the token is no longer good.
pub proof fn law_a_failed_server_does_not_end_the_session(
    status: u16,
    kind: Seq<char>,
    message: Seq<char>,
)
    ensures
        sign_in_fault(status, kind, message) is Transient <==> status >= SERVER_FAILED,
        sign_in_fault(status, kind, message) is Unauthorised <==> status < SERVER_FAILED,
{
}

/// A page is asked for with the token that is held for as long as that has more than
/// a minute left, and otherwise a sign-in with the refresh token comes first.
pub proof fn law_a_token_serves_until_a_minute_before_its_end(
    c: Client,
    url: Seq<char>,
    now: u128,
    age: int,
)
    requires
        c.token matches Some(t) ==> age == (if now >= t.got_at {
            now - t.got_at
        } else {
            0
        }),
    ensures
        c.token matches Some(t) ==> {
            &&& t.lifetime - age > 60_000_000_000 ==> c.call_for(url, now) == (CallView::Get {
                url,
                authtoken: t.id_token@,
            })
            &&& t.lifetime - age <= 60_000_000_000 ==> c.call_for(url, now) == (CallView::SignIn {
                body: cognito::refresh_text(c.refresh_token@),
            })
        },
        c.token is None ==> c.call_for(url, now) == (CallView::SignIn {
            body: cognito::refresh_text(c.refresh_token@),
        }),
{
}

/// A token lasts as many seconds as it was given for, and one given for less than
/// none has no time at all.
pub proof fn law_a_token_lasts_as_long_as_it_was_given_for(expires_in: i64)
    ensures
        expires_in >= 0 ==> lifetime_of(expires_in) == expires_in * 1_000_000_000,
        expires_in < 0 ==> lifetime_of(expires_in) == 0,
{
}

/// What a sign-in claims of its time replaces what was known, and where it claims
/// nothing what was known stands.
pub proof fn law_a_claim_replaces_what_was_known(claim: Option<i64>, known: Option<i64>)
    ensures
        claim is Some ==> latest_claim(claim, known) == claim,
        claim is None ==> latest_claim(claim, known) == known,
{
}

/// A page is what was asked for; everything else is a failure in its own words: 401
/// and 403 end the session, 400 blames the request, and whatever else came back, or
/// did not, is worth another attempt.
pub proof fn law_what_each_reply_means(reply: Received)
    ensures
        reply matches Received::Page(s) ==> received_view(reply) == Ok::<Seq<char>, FaultView>(s@),
        reply matches Received::Unreadable(e) ==> received_view(reply) == Err::<
            Seq<char>,
            FaultView,
        >(FaultView::Transient("unreadable body: "@ + e@)),
        reply matches Received::Nothing(e) ==> received_view(reply) == Err::<Seq<char>, FaultView>(
            FaultView::Transient(e@),
        ),
        reply matches Received::Status { status, body } ==> {
            let said = |instead: Seq<char>|
                match body {
                    Some(s) => s@,
                    None => instead,
                };
            &&& status == 401 || status == 403 ==> received_view(reply) == Err::<
                Seq<char>,
                FaultView,
            >(FaultView::Unauthorised(said("401/403"@)))
            &&& status == 400 ==> received_view(reply) == Err::<Seq<char>, FaultView>(
                FaultView::Refused { status: 400, message: said(""@) },
            )
            &&& status != 400 && status != 401 && status != 403 ==> received_view(reply) == Err::<
                Seq<char>,
                FaultView,
            >(
                FaultView::Transient(
                    "HTTP "@ + text::digits(status as nat) + ": "@ + said(""@),
                ),
            )
        },
{
}

/// A failure is told in its own words, after what kind of failure it is.
pub proof fn law_a_failure_is_told_in_its_own_words(f: FaultView)
    ensures
        f matches FaultView::Unauthorised(m) ==> fault_text(f) == "sign-in rejected: "@ + m,
        f matches FaultView::Refused { status, message } ==> fault_text(f) == "refused ("@
            + text::digits(status as nat) + "): "@ + message,
        f matches FaultView::Transient(m) ==> fault_text(f) == m,
{
}

/// A sign-in that is not granted ends the session, in the reply's own words, unless
/// its status is 500 or above.
pub proof fn law_a_refused_sign_in_ends_the_session(
    status: u16,
    kind: Seq<char>,
    message: Seq<char>,
)
    ensures
        status < 500 ==> sign_in_fault(status, kind, message) == FaultView::Unauthorised(
            kind + ": "@ + message,
        ),
        status >= 500 ==> sign_in_fault(status, kind, message) == FaultView::Transient(
            kind + ": "@ + message,
        ),
{
}

/// The first request need not wait, and no request waits longer than the pace nor
/// once the pace has passed.
pub proof fn law_no_request_waits_for_nothing(p: Pace, now: u128)
    ensures
        p.last is None ==> pause(p, now) == 0,
        p.last matches Some(last) ==> {
            &&& now >= last ==> pause(p, now) == (if now - last < p.every {
                p.every - (now - last)
            } else {
                0
            })
            &&& now < last ==> pause(p, now) == p.every
        },
{
}

/// A token is tired once it has a minute left or less.
pub proof fn law_when_a_token_is_tired(t: Token, now: u128)
    ensures
        now >= t.got_at ==> (t.is_tired(now) <==> t.lifetime - (now - t.got_at)
            <= 60_000_000_000),
        now < t.got_at ==> (t.is_tired(now) <==> t.lifetime <= 60_000_000_000),
{
}

/// A failure and a call are seen as what they hold.
pub proof fn law_faults_and_calls_are_seen_as_they_are(s: String, url: String, status: u16)
    ensures
        Fault::Unauthorised(s)@ == FaultView::Unauthorised(s@),
        (Fault::Refused { status, message: s })@ == (FaultView::Refused { status, message: s@ }),
        Fault::Transient(s)@ == FaultView::Transient(s@),
        (Call::SignIn { body: s })@ == (CallView::SignIn { body: s@ }),
        (Call::Get { url, authtoken: s })@ == (CallView::Get { url: url@, authtoken: s@ }),
{
}

/// A token that was got at a moment for so many seconds is carried by every request
/// from then until a minute before its time is up, and by none after.
pub proof fn law_a_new_token_serves_its_time_but_for_a_minute(
    c: Client,
    id_token: String,
    got_at: u128,
    expires_in: i64,
    url: Seq<char>,
    now: u128,
)
    requires
        c.token matches Some(t) && t.id_token == id_token && t.got_at == got_at && t.lifetime
            == lifetime_of(expires_in),
        now >= got_at,
    ensures
        c.call_for(url, now) == (CallView::Get { url, authtoken: id_token@ }) <==> now - got_at < (
        expires_in - 60) * 1_000_000_000,
        c.call_for(url, now) is SignIn <==> now - got_at >= (expires_in - 60) * 1_000_000_000,
{
}

} // verus!
