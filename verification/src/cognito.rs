//! Turning a refresh token into an hour of access.
//!
//! The sign-in is one JSON request. Its reply is read into the types below
//! elsewhere; what it means is decided here.

use crate::text;
use vstd::prelude::*;

verus! {

/// The pool and the client of the sign-in: public identifiers, no secrets.
pub const USER_POOL: &'static str = "us-east-2_ghlOXVLi1";

pub const CLIENT_ID: &'static str = "4qte47jbstod8apnfic0bunmrq";

pub const IDP_HOST: &'static str = "https://cognito-idp.us-east-2.amazonaws.com/";

pub const TARGET: &'static str = "AWSCognitoIdentityProviderService.InitiateAuth";

/// A lower-case hexadecimal digit.
pub open spec fn small_hex(n: int) -> char {
    if n < 10 {
        (n + 48) as char
    } else {
        (n + 87) as char
    }
}

/// A character inside a JSON string: itself, or an escape where it is a quote,
/// a backslash or a control character.
pub open spec fn json_char(c: char) -> Seq<char> {
    if c == '"' || c == '\\' {
        seq!['\\', c]
    } else if c as u32 == 8 {
        seq!['\\', 'b']
    } else if c as u32 == 9 {
        seq!['\\', 't']
    } else if c as u32 == 10 {
        seq!['\\', 'n']
    } else if c as u32 == 12 {
        seq!['\\', 'f']
    } else if c as u32 == 13 {
        seq!['\\', 'r']
    } else if (c as u32) < 32 {
        seq!['\\', 'u', '0', '0', small_hex(c as int / 16), small_hex(c as int % 16)]
    } else {
        seq![c]
    }
}

/// The characters of a text inside a JSON string.
pub open spec fn json_chars(s: Seq<char>) -> Seq<char>
    decreases s.len(),
{
    if s.len() == 0 {
        seq![]
    } else {
        json_char(s[0]) + json_chars(s.drop_first())
    }
}

/// A text as a JSON string.
pub open spec fn json_string(s: Seq<char>) -> Seq<char> {
    seq!['"'] + json_chars(s) + seq!['"']
}

/// A text as a JSON string: `serde_json`'s `Value` of a string, and what
/// `Display` writes for that.
///
/// Claimed of it: the text in double quotes, with a backslash before a quote and
/// a backslash, the short escapes of JSON for five control characters, `\u00`
/// and two lower-case digits for the others, and everything else as it is.
#[verifier::external_body]
fn quote(s: &str) -> (r: String)
    ensures
        r@ == json_string(s@),
{
    serde_json::Value::from(s).to_string()
}

/// The body of a sign-in with a refresh token.
pub open spec fn refresh_text(refresh_token: Seq<char>) -> Seq<char> {
    "{\"AuthFlow\":\"REFRESH_TOKEN_AUTH\",\"AuthParameters\":{\"REFRESH_TOKEN\":"@ + json_string(
        refresh_token,
    ) + "},\"ClientId\":\""@ + CLIENT_ID@ + "\"}"@
}

/// The body of a sign-in with a refresh token. The client has no secret, so the
/// body carries none.
pub fn refresh_body(refresh_token: &str) -> (s: String)
    ensures
        s@ == refresh_text(refresh_token@),
{
    let mut s =
        "{\"AuthFlow\":\"REFRESH_TOKEN_AUTH\",\"AuthParameters\":{\"REFRESH_TOKEN\":".to_owned();
    s.append(quote(refresh_token).as_str());
    s.append("},\"ClientId\":\"");
    s.append(CLIENT_ID);
    s.append("\"}");
    s
}

proof fn lemma_json_chars_differ(a: char, b: char)
    requires
        json_char(a)[0] == json_char(b)[0],
        json_char(a)[0] == '\\' ==> json_char(a)[1] == json_char(b)[1],
        json_char(a)[0] == '\\' && json_char(a)[1] == 'u' ==> json_char(a)[4] == json_char(b)[4]
            && json_char(a)[5] == json_char(b)[5],
    ensures
        a == b,
{
    let n = a as u32;
    let m = b as u32;
    if json_char(a)[0] == '\\' && json_char(a)[1] == 'u' {
        assert(n < 32 && m < 32);
        assert(json_char(a)[4] == small_hex(n as int / 16));
        assert(json_char(b)[4] == small_hex(m as int / 16));
        assert(json_char(a)[5] == small_hex(n as int % 16));
        assert(json_char(b)[5] == small_hex(m as int % 16));
        lemma_small_hex_differ(n as int / 16, m as int / 16);
        lemma_small_hex_differ(n as int % 16, m as int % 16);
    }
}

proof fn lemma_small_hex_differ(n: int, m: int)
    requires
        0 <= n < 16,
        0 <= m < 16,
        small_hex(n) == small_hex(m),
    ensures
        n == m,
{
}

proof fn lemma_json_strings_differ(a: Seq<char>, b: Seq<char>)
    requires
        json_chars(a) == json_chars(b),
    ensures
        a == b,
    decreases a.len(),
{
    if a.len() == 0 || b.len() == 0 {
        assert(json_chars(a).len() == json_chars(b).len());
        assert(a =~= b);
    } else {
        let x = json_char(a[0]);
        let y = json_char(b[0]);
        let p = json_chars(a.drop_first());
        let q = json_chars(b.drop_first());
        assert((x + p)[0] == x[0] && (y + q)[0] == y[0]);
        if x[0] == '\\' {
            assert(x.len() >= 2 && y.len() >= 2);
            assert((x + p)[1] == x[1] && (y + q)[1] == y[1]);
            if x[1] == 'u' {
                assert(x.len() == 6 && y.len() == 6);
                assert((x + p)[4] == x[4] && (y + q)[4] == y[4]);
                assert((x + p)[5] == x[5] && (y + q)[5] == y[5]);
            }
        }
        lemma_json_chars_differ(a[0], b[0]);
        assert(p =~= (x + p).skip(x.len() as int));
        assert(q =~= (y + q).skip(y.len() as int));
        lemma_json_strings_differ(a.drop_first(), b.drop_first());
        assert(a =~= seq![a[0]] + a.drop_first());
        assert(b =~= seq![b[0]] + b.drop_first());
    }
}

/// No two refresh tokens sign in with the same body: nothing of the token is
/// lost in it.
pub proof fn law_the_body_carries_the_whole_token(a: Seq<char>, b: Seq<char>)
    requires
        refresh_text(a) == refresh_text(b),
    ensures
        a == b,
{
    let start = "{\"AuthFlow\":\"REFRESH_TOKEN_AUTH\",\"AuthParameters\":{\"REFRESH_TOKEN\":"@;
    let rest = "},\"ClientId\":\""@ + CLIENT_ID@ + "\"}"@;
    let n = start.len() as int;
    assert(refresh_text(a) =~= start + seq!['"'] + json_chars(a) + (seq!['"'] + rest));
    assert(refresh_text(b) =~= start + seq!['"'] + json_chars(b) + (seq!['"'] + rest));
    assert(json_chars(a).len() == json_chars(b).len());
    assert(json_chars(a) =~= refresh_text(a).subrange(n + 1, n + 1 + json_chars(a).len()));
    assert(json_chars(b) =~= refresh_text(b).subrange(n + 1, n + 1 + json_chars(b).len()));
    lemma_json_strings_differ(a, b);
}

/// What a successful sign-in answers with: a result, or none where a person has
/// to answer a challenge first.
#[derive(Debug, PartialEq, Eq)]
pub struct RefreshResponse {
    pub result: Option<AuthResult>,
}

/// The result of a sign-in.
#[derive(Debug, PartialEq, Eq)]
pub struct AuthResult {
    /// The id token, not the access token: requests are authorised on this one.
    pub id_token: String,
    pub expires_in: i64,
}

/// What a sign-in that was refused answers with, as far as it says.
#[derive(Debug, PartialEq, Eq)]
pub struct RefusedResponse {
    pub kind: Option<String>,
    pub message: Option<String>,
}

/// What came back of a sign-in, in the two shapes worth telling apart.
#[derive(Debug, PartialEq, Eq)]
pub enum Refreshed {
    Renewed { id_token: String, expires_in: i64 },
    /// The sign-in was answered, and not granted. Unless it was the server that
    /// failed, this is the one failure that no retry can fix.
    Rejected { kind: String, message: String },
}

/// What came back of a sign-in, its strings as characters.
pub enum RefreshedView {
    Renewed { id_token: Seq<char>, expires_in: i64 },
    Rejected { kind: Seq<char>, message: Seq<char> },
}

impl View for Refreshed {
    type V = RefreshedView;

    open spec fn view(&self) -> RefreshedView {
        match self {
            Refreshed::Renewed { id_token, expires_in } => RefreshedView::Renewed {
                id_token: id_token@,
                expires_in: *expires_in,
            },
            Refreshed::Rejected { kind, message } => RefreshedView::Rejected {
                kind: kind@,
                message: message@,
            },
        }
    }
}

pub const CHALLENGE: &'static str =
    "Cognito returned no AuthenticationResult; the sign-in needs a person";

/// What a reply of status 200 means, as it was read.
pub open spec fn accepted_view(read: Result<RefreshResponse, String>) -> Result<
    RefreshedView,
    Seq<char>,
> {
    match read {
        Err(e) => Err("unreadable refresh response: "@ + e@),
        Ok(r) => match r.result {
            Some(a) => Ok(RefreshedView::Renewed { id_token: a.id_token@, expires_in: a.expires_in }),
            None => Ok(
                RefreshedView::Rejected { kind: "ChallengeRequired"@, message: CHALLENGE@ },
            ),
        },
    }
}

/// What a reply of status 200 means. One without a result is a challenge, which
/// only a person can answer: refused, and not to be tried again.
pub fn accepted(read: Result<RefreshResponse, String>) -> (r: Result<Refreshed, String>)
    ensures
        match r {
            Ok(v) => accepted_view(read) == Ok::<RefreshedView, Seq<char>>(v@),
            Err(e) => accepted_view(read) == Err::<RefreshedView, Seq<char>>(e@),
        },
{
    match read {
        Err(e) => {
            let mut why = "unreadable refresh response: ".to_owned();
            why.append(e.as_str());
            Err(why)
        },
        Ok(r) => match r.result {
            Some(a) => Ok(Refreshed::Renewed { id_token: a.id_token, expires_in: a.expires_in }),
            None => Ok(
                Refreshed::Rejected {
                    kind: "ChallengeRequired".to_owned(),
                    message: CHALLENGE.to_owned(),
                },
            ),
        },
    }
}

/// How much of a body that says nothing else is kept as its message.
pub const MESSAGE_CHARS: usize = 200;

/// What a reply of another status means, as far as it could be read.
pub open spec fn rejected_view(
    status: u16,
    body: Seq<char>,
    read: Option<RefusedResponse>,
) -> RefreshedView {
    RefreshedView::Rejected {
        kind: match read {
            Some(RefusedResponse { kind: Some(kind), .. }) => kind@,
            _ => "HTTP "@ + text::digits(status as nat),
        },
        message: match read {
            Some(RefusedResponse { message: Some(message), .. }) => message@,
            _ => text::first_chars(body, MESSAGE_CHARS as int),
        },
    }
}

/// What a reply of another status than 200 means: not granted, in its own words
/// where it has some.
pub fn rejected(status: u16, body: &str, read: Option<RefusedResponse>) -> (r: Refreshed)
    ensures
        r@ == rejected_view(status, body@, read),
{
    let (kind, message) = match read {
        Some(e) => (e.kind, e.message),
        None => (None, None),
    };
    let kind = match kind {
        Some(kind) => kind,
        None => {
            let mut kind = "HTTP ".to_owned();
            kind.append(text::decimal(status as u64).as_str());
            kind
        },
    };
    let message = match message {
        Some(message) => message,
        None => text::head(body, MESSAGE_CHARS),
    };
    Refreshed::Rejected { kind, message }
}

/// Decides what the reply to a sign-in means. Its body is read by one of the two
/// given functions: as a result where the status is 200, and as a refusal where
/// it is anything else.
pub fn parse_refresh<R, E>(status: u16, body: &str, as_result: R, as_refusal: E) -> (r: Result<
    Refreshed,
    String,
>) where
    R: FnOnce(&str) -> Result<RefreshResponse, String>,
    E: FnOnce(&str) -> Option<RefusedResponse>,

    requires
        status == 200 ==> call_requires(as_result, (body,)),
        status != 200 ==> call_requires(as_refusal, (body,)),
    ensures
        status == 200 ==> exists|read: Result<RefreshResponse, String>| #[trigger]
            call_ensures(as_result, (body,), read) && match r {
                Ok(v) => accepted_view(read) == Ok::<RefreshedView, Seq<char>>(v@),
                Err(e) => accepted_view(read) == Err::<RefreshedView, Seq<char>>(e@),
            },
        status != 200 ==> exists|read: Option<RefusedResponse>| #[trigger]
            call_ensures(as_refusal, (body,), read) && (r matches Ok(v) && v@ == rejected_view(
                status,
                body@,
                read,
            )),
{
    if status == 200 {
        let read = as_result(body);
        accepted(read)
    } else {
        let read = as_refusal(body);
        Ok(rejected(status, body, read))
    }
}

/// The second of the parts of a text that dots separate, where it has two.
pub open spec fn second_part(s: Seq<char>) -> Option<Seq<char>>
    decreases s.len(),
{
    if s.len() == 0 {
        None
    } else if s[0] == '.' {
        Some(first_part(s.drop_first()))
    } else {
        second_part(s.drop_first())
    }
}

/// What stands before the first dot of a text, or all of it.
pub open spec fn first_part(s: Seq<char>) -> Seq<char>
    decreases s.len(),
{
    if s.len() == 0 || s[0] == '.' {
        seq![]
    } else {
        seq![s[0]] + first_part(s.drop_first())
    }
}

fn payload(token: &str) -> (r: Option<String>)
    ensures
        match r {
            Some(p) => second_part(token@) == Some(p@),
            None => second_part(token@) is None,
        },
{
    let v = text::chars_of(token);
    let mut i: usize = 0;
    assert(v@.skip(0) =~= v@);
    while i < v.len() && v[i] != '.'
        invariant
            i <= v.len(),
            v@ == token@,
            second_part(token@) == second_part(v@.skip(i as int)),
        decreases v.len() - i,
    {
        assert(v@.skip(i as int).drop_first() =~= v@.skip(i + 1));
        i = i + 1;
    }
    if i == v.len() {
        return None;
    }
    assert(v@.skip(i as int).drop_first() =~= v@.skip(i + 1));
    let start = i + 1;
    let mut out = String::new();
    let mut k: usize = start;
    assert(out@ + first_part(v@.skip(k as int)) =~= first_part(v@.skip(k as int)));
    while k < v.len() && v[k] != '.'
        invariant
            start <= k <= v.len(),
            out@ + first_part(v@.skip(k as int)) == first_part(v@.skip(start as int)),
        decreases v.len() - k,
    {
        let ghost was = out@;
        out.push(v[k]);
        proof {
            let rest = v@.skip(k as int);
            assert(rest.drop_first() =~= v@.skip(k + 1));
            assert(was + (seq![rest[0]] + first_part(v@.skip(k + 1))) =~= out@ + first_part(
                v@.skip(k + 1),
            ));
        }
        k = k + 1;
    }
    assert(first_part(v@.skip(k as int)) =~= Seq::<char>::empty());
    assert(out@ + first_part(v@.skip(k as int)) =~= out@);
    Some(out)
}

/// The value of a byte in the alphabet of tokens: capitals, small letters,
/// digits, `-` and `_`.
pub open spec fn sextet(b: u8) -> Option<int> {
    if 65 <= b <= 90 {
        Some(b - 65)
    } else if 97 <= b <= 122 {
        Some(b - 71)
    } else if 48 <= b <= 57 {
        Some(b + 4)
    } else if b == 45 {
        Some(62)
    } else if b == 95 {
        Some(63)
    } else {
        None
    }
}

/// The values of bytes up to the first padding sign, where all of those are in
/// the alphabet.
pub open spec fn sextets(s: Seq<u8>) -> Option<Seq<int>>
    decreases s.len(),
{
    if s.len() == 0 || s[0] == 61 {
        Some(seq![])
    } else {
        match (sextet(s[0]), sextets(s.drop_first())) {
            (Some(v), Some(rest)) => Some(seq![v] + rest),
            _ => None,
        }
    }
}

/// A byte of what six-bit values hold: three bytes to four values.
pub open spec fn byte_at(v: Seq<int>, k: int) -> u8 {
    let g = k / 3 * 4;
    (if k % 3 == 0 {
        v[g] * 4 + v[g + 1] / 16
    } else if k % 3 == 1 {
        v[g + 1] % 16 * 16 + v[g + 2] / 4
    } else {
        v[g + 2] % 4 * 64 + v[g + 3]
    }) as u8
}

/// The bytes that six-bit values hold; bits that fill no byte are dropped.
pub open spec fn unpacked(v: Seq<int>) -> Seq<u8> {
    Seq::new((v.len() * 3 / 4) as nat, |k: int| byte_at(v, k))
}

/// What a text in the alphabet of tokens stands for.
pub open spec fn decoded(s: Seq<u8>) -> Option<Seq<u8>> {
    match sextets(s) {
        Some(v) => Some(unpacked(v)),
        None => None,
    }
}

fn sextet_of(b: u8) -> (r: Option<u8>)
    ensures
        match r {
            Some(v) => sextet(b) == Some(v as int) && v < 64,
            None => sextet(b) is None,
        },
{
    if 65 <= b && b <= 90 {
        Some(b - 65)
    } else if 97 <= b && b <= 122 {
        Some(b - 71)
    } else if 48 <= b && b <= 57 {
        Some(b + 4)
    } else if b == 45 {
        Some(62)
    } else if b == 95 {
        Some(63)
    } else {
        None
    }
}

fn sextets_of(s: &str) -> (r: Option<Vec<u8>>)
    ensures
        match r {
            Some(v) => sextets(vstd::utf8::encode_utf8(s@)) == Some(
                v@.map_values(|x: u8| x as int),
            ) && forall|i: int| 0 <= i < v@.len() ==> #[trigger] v@[i] < 64,
            None => sextets(vstd::utf8::encode_utf8(s@)) is None,
        },
{
    let bytes = s.as_bytes();
    let mut v: Vec<u8> = Vec::new();
    let mut i: usize = 0;
    let ghost known = |w: Seq<u8>| w.map_values(|x: u8| x as int);
    assert(bytes@.skip(0) =~= bytes@);
    assert(forall|r: Seq<int>| #[trigger] (known(v@) + r) =~= r);
    while i < bytes.len() && bytes[i] != 61
        invariant
            i <= bytes.len(),
            bytes@ == vstd::utf8::encode_utf8(s@),
            known == (|w: Seq<u8>| w.map_values(|x: u8| x as int)),
            forall|k: int| 0 <= k < v@.len() ==> #[trigger] v@[k] < 64,
            sextets(bytes@) == (match sextets(bytes@.skip(i as int)) {
                Some(rest) => Some(known(v@) + rest),
                None => None,
            }),
        decreases bytes.len() - i,
    {
        let ghost was = v@;
        assert(bytes@.skip(i as int).drop_first() =~= bytes@.skip(i + 1));
        match sextet_of(bytes[i]) {
            Some(x) => {
                v.push(x);
                assert forall|rest: Seq<int>| known(v@) + rest == #[trigger] (known(was) + (seq![
                    x as int,
                ] + rest)) by {
                    assert(known(v@) + rest =~= known(was) + (seq![x as int] + rest));
                }
            },
            None => {
                return None;
            },
        }
        i = i + 1;
    }
    assert(sextets(bytes@.skip(i as int)) == Some(Seq::<int>::empty()));
    assert(known(v@) + Seq::<int>::empty() =~= v@.map_values(|x: u8| x as int));
    Some(v)
}

/// Reads a text in the alphabet of tokens, which need no padding and end at it.
pub fn base64url(s: &str) -> (r: Option<Vec<u8>>)
    ensures
        match r {
            Some(bytes) => decoded(vstd::utf8::encode_utf8(s@)) == Some(bytes@),
            None => decoded(vstd::utf8::encode_utf8(s@)) is None,
        },
{
    let v = match sextets_of(s) {
        Some(v) => v,
        None => {
            return None;
        },
    };
    let ghost w = v@.map_values(|x: u8| x as int);
    let mut out: Vec<u8> = Vec::new();
    let mut carry: u8 = 0;
    let mut i: usize = 0;
    while i < v.len()
        invariant
            i <= v.len(),
            w == v@.map_values(|x: u8| x as int),
            forall|k: int| 0 <= k < v@.len() ==> #[trigger] v@[k] < 64,
            out@.len() == i * 3 / 4,
            forall|k: int| 0 <= k < out@.len() ==> #[trigger] out@[k] == byte_at(w, k),
            i % 4 == 0 ==> carry == 0,
            i % 4 == 1 ==> carry == w[i - 1],
            i % 4 == 2 ==> carry == w[i - 1] % 16,
            i % 4 == 3 ==> carry == w[i - 1] % 4,
        decreases v.len() - i,
    {
        let x = v[i];
        if i % 4 == 0 {
            carry = x;
        } else if i % 4 == 1 {
            out.push(carry * 4 + x / 16);
            carry = x % 16;
        } else if i % 4 == 2 {
            out.push(carry * 16 + x / 4);
            carry = x % 4;
        } else {
            out.push(carry * 64 + x);
            carry = 0;
        }
        i = i + 1;
    }
    assert(out@ =~= unpacked(w));
    Some(out)
}

/// A byte, or zero past the end.
pub open spec fn byte_or_zero(b: Seq<u8>, i: int) -> int {
    if 0 <= i < b.len() {
        b[i] as int
    } else {
        0
    }
}

/// One of the six-bit values that bytes are written in: four values to three
/// bytes.
pub open spec fn sextet_at(b: Seq<u8>, j: int) -> int {
    let g = j / 4 * 3;
    if j % 4 == 0 {
        byte_or_zero(b, g) / 4
    } else if j % 4 == 1 {
        byte_or_zero(b, g) % 4 * 16 + byte_or_zero(b, g + 1) / 16
    } else if j % 4 == 2 {
        byte_or_zero(b, g + 1) % 16 * 4 + byte_or_zero(b, g + 2) / 64
    } else {
        byte_or_zero(b, g + 2) % 64
    }
}

/// The six-bit values that bytes are written in, without padding.
pub open spec fn packed(b: Seq<u8>) -> Seq<int> {
    Seq::new(((b.len() * 4 + 2) / 3) as nat, |j: int| sextet_at(b, j))
}

/// Whether a text writes bytes in the alphabet of tokens, without padding.
pub open spec fn writes(s: Seq<u8>, b: Seq<u8>) -> bool {
    &&& s.len() == packed(b).len()
    &&& forall|i: int| 0 <= i < s.len() ==> sextet(#[trigger] s[i]) == Some(packed(b)[i])
}

proof fn lemma_sextets_of_the_written(s: Seq<u8>, v: Seq<int>)
    requires
        s.len() == v.len(),
        forall|i: int| 0 <= i < s.len() ==> sextet(#[trigger] s[i]) == Some(v[i]),
    ensures
        sextets(s) == Some(v),
    decreases s.len(),
{
    if s.len() == 0 {
        assert(v =~= seq![]);
    } else {
        assert(sextet(s[0]) is Some);
        assert forall|i: int| 0 <= i < s.len() - 1 implies sextet(#[trigger] s.drop_first()[i])
            == Some(v.drop_first()[i]) by {
            assert(sextet(s[i + 1]) == Some(v[i + 1]));
        }
        lemma_sextets_of_the_written(s.drop_first(), v.drop_first());
        assert(v =~= seq![v[0]] + v.drop_first());
    }
}

proof fn lemma_sextet_in_group(b: Seq<u8>, g: int, r: int)
    requires
        0 <= g,
        0 <= r < 4,
        4 * g + r < packed(b).len(),
    ensures
        r == 0 ==> packed(b)[4 * g + r] == byte_or_zero(b, 3 * g) / 4,
        r == 1 ==> packed(b)[4 * g + r] == byte_or_zero(b, 3 * g) % 4 * 16 + byte_or_zero(
            b,
            3 * g + 1,
        ) / 16,
        r == 2 ==> packed(b)[4 * g + r] == byte_or_zero(b, 3 * g + 1) % 16 * 4 + byte_or_zero(
            b,
            3 * g + 2,
        ) / 64,
        r == 3 ==> packed(b)[4 * g + r] == byte_or_zero(b, 3 * g + 2) % 64,
{
    let j = 4 * g + r;
    assert(j / 4 == g && j % 4 == r);
    assert(packed(b)[j] == sextet_at(b, j));
}

proof fn lemma_byte_comes_back(b: Seq<u8>, k: int)
    requires
        0 <= k < b.len(),
    ensures
        byte_at(packed(b), k) == b[k],
{
    let v = packed(b);
    let g = k / 3;
    let x = byte_or_zero(b, 3 * g);
    let y = byte_or_zero(b, 3 * g + 1);
    let z = byte_or_zero(b, 3 * g + 2);
    assert(k / 3 * 4 == 4 * g);
    if k % 3 == 0 {
        lemma_sextet_in_group(b, g, 0);
        lemma_sextet_in_group(b, g, 1);
        assert(k == 3 * g);
        assert(x / 4 * 4 + (x % 4 * 16 + y / 16) / 16 == x);
    } else if k % 3 == 1 {
        lemma_sextet_in_group(b, g, 1);
        lemma_sextet_in_group(b, g, 2);
        assert(k == 3 * g + 1);
        assert((x % 4 * 16 + y / 16) % 16 * 16 + (y % 16 * 4 + z / 64) / 4 == y);
    } else {
        lemma_sextet_in_group(b, g, 2);
        lemma_sextet_in_group(b, g, 3);
        assert(k == 3 * g + 2);
        assert((y % 16 * 4 + z / 64) % 4 * 64 + z % 64 == z);
    }
}

/// Reading gives back the bytes that a text writes.
pub proof fn law_reading_undoes_writing(s: Seq<u8>, b: Seq<u8>)
    requires
        writes(s, b),
    ensures
        decoded(s) == Some(b),
{
    let v = packed(b);
    lemma_sextets_of_the_written(s, v);
    assert(v.len() * 3 / 4 == b.len());
    assert forall|k: int| 0 <= k < b.len() implies #[trigger] unpacked(v)[k] == b[k] by {
        lemma_byte_comes_back(b, k);
    }
    assert(unpacked(v) =~= b);
}

/// The integer that a field of a JSON object holds, if the bytes are one and it
/// does.
pub uninterp spec fn json_integer(bytes: Seq<u8>, key: Seq<char>) -> Option<i64>;

/// `serde_json`'s `from_slice` to a `Value`, `Value::get` of a key of that, and
/// `Value::as_i64` of what it holds.
///
/// Claimed of it: the answer depends on the bytes and the key alone.
#[verifier::external_body]
fn integer_field(bytes: &Vec<u8>, key: &str) -> (r: Option<i64>)
    ensures
        r == json_integer(bytes@, key@),
{
    let value = serde_json::from_slice::<serde_json::Value>(bytes.as_slice()).ok()?;
    value.get(key)?.as_i64()
}

/// When the sign-in behind a token happened, as its payload says.
pub open spec fn auth_time_of(id_token: Seq<char>) -> Option<i64> {
    match second_part(id_token) {
        None => None,
        Some(payload) => match decoded(vstd::utf8::encode_utf8(payload)) {
            None => None,
            Some(bytes) => json_integer(bytes, "auth_time"@),
        },
    }
}

/// When the browser sign-in behind a refresh token happened, in seconds of the
/// epoch, as the id token that it gave says.
///
/// It names the original sign-in, not the refresh, so it is the age of the
/// credential. It is read and never verified, and nothing is decided on it.
pub fn auth_time(id_token: &str) -> (r: Option<i64>)
    ensures
        r == auth_time_of(id_token@),
{
    let part = match payload(id_token) {
        Some(part) => part,
        None => {
            return None;
        },
    };
    match base64url(part.as_str()) {
        Some(bytes) => integer_field(&bytes, "auth_time"),
        None => None,
    }
}

/// Only a reply of status 200 that holds a result signs in; every other reply
/// that can be read is not granted.
pub proof fn law_only_a_result_signs_in(
    granted: Result<RefreshResponse, String>,
    status: u16,
    body: Seq<char>,
    refused: Option<RefusedResponse>,
)
    ensures
        (accepted_view(granted) matches Ok(r) && r is Renewed) <==> (granted matches Ok(r)
            && r.result is Some),
        accepted_view(granted) is Err <==> granted is Err,
        rejected_view(status, body, refused) is Rejected,
{
}

proof fn lemma_first_part(a: Seq<char>, rest: Seq<char>)
    requires
        !a.contains('.'),
    ensures
        first_part(a + seq!['.'] + rest) == a,
    decreases a.len(),
{
    let s = a + seq!['.'] + rest;
    if a.len() == 0 {
        assert(s[0] == '.');
        assert(first_part(s) =~= a);
    } else {
        assert(a.contains(a[0]));
        assert(s[0] == a[0]);
        assert(s.drop_first() =~= a.drop_first() + seq!['.'] + rest);
        assert forall|c: char| a.drop_first().contains(c) implies a.contains(c) by {
            let i = choose|i: int| 0 <= i < a.drop_first().len() && a.drop_first()[i] == c;
            assert(a[i + 1] == c);
        }
        lemma_first_part(a.drop_first(), rest);
        assert(seq![a[0]] + a.drop_first() =~= a);
    }
}

proof fn lemma_second_part(a: Seq<char>, rest: Seq<char>)
    requires
        !a.contains('.'),
    ensures
        second_part(a + seq!['.'] + rest) == Some(first_part(rest)),
    decreases a.len(),
{
    let s = a + seq!['.'] + rest;
    if a.len() == 0 {
        assert(s[0] == '.');
        assert(s.drop_first() =~= rest);
    } else {
        assert(a.contains(a[0]));
        assert(s[0] == a[0]);
        assert(s.drop_first() =~= a.drop_first() + seq!['.'] + rest);
        assert forall|c: char| a.drop_first().contains(c) implies a.contains(c) by {
            let i = choose|i: int| 0 <= i < a.drop_first().len() && a.drop_first()[i] == c;
            assert(a[i + 1] == c);
        }
        lemma_second_part(a.drop_first(), rest);
    }
}

/// Of a token of three parts, the claim is read in the bytes that the second
/// part writes, whatever the first and the last are.
pub proof fn law_the_claim_is_read_in_the_second_part(
    header: Seq<char>,
    payload: Seq<char>,
    signature: Seq<char>,
    bytes: Seq<u8>,
)
    requires
        !header.contains('.'),
        !payload.contains('.'),
        writes(vstd::utf8::encode_utf8(payload), bytes),
    ensures
        auth_time_of(header + seq!['.'] + (payload + seq!['.'] + signature)) == json_integer(
            bytes,
            "auth_time"@,
        ),
{
    lemma_second_part(header, payload + seq!['.'] + signature);
    lemma_first_part(payload, signature);
    law_reading_undoes_writing(vstd::utf8::encode_utf8(payload), bytes);
}

/// The body of a sign-in is a JSON object of the flow, the refresh token as a JSON
/// string, and the client.
pub proof fn law_the_body_of_a_sign_in(refresh_token: Seq<char>)
    ensures
        refresh_text(refresh_token)
            == "{\"AuthFlow\":\"REFRESH_TOKEN_AUTH\",\"AuthParameters\":{\"REFRESH_TOKEN\":"@
            + seq!['"'] + json_chars(refresh_token) + seq!['"'] + "},\"ClientId\":\""@
            + "4qte47jbstod8apnfic0bunmrq"@ + "\"}"@,
{
    let start = "{\"AuthFlow\":\"REFRESH_TOKEN_AUTH\",\"AuthParameters\":{\"REFRESH_TOKEN\":"@;
    assert(start + (seq!['"'] + json_chars(refresh_token) + seq!['"']) =~= start + seq!['"']
        + json_chars(refresh_token) + seq!['"']);
}

/// A text goes into a JSON string character by character; one of printing letters,
/// digits and signs other than the quote and the backslash goes as it is.
pub proof fn law_plain_text_goes_as_it_is(s: Seq<char>)
    requires
        forall|i: int|
            0 <= i < s.len() ==> 32 <= (#[trigger] s[i]) as int && s[i] != '"' && s[i] != '\\',
    ensures
        json_chars(s) == s,
    decreases s.len(),
{
    if s.len() > 0 {
        let rest = s.drop_first();
        assert forall|i: int| 0 <= i < rest.len() implies 32 <= (#[trigger] rest[i]) as int
            && rest[i] != '"' && rest[i] != '\\' by {
            assert(rest[i] == s[i + 1]);
        }
        law_plain_text_goes_as_it_is(rest);
        lemma_a_plain_char(s[0]);
        assert(seq![s[0]] + rest =~= s);
    } else {
        assert(json_chars(s) =~= s);
    }
}

proof fn lemma_a_plain_char(c: char)
    requires
        32 <= c as int,
        c != '"',
        c != '\\',
    ensures
        json_char(c) == seq![c],
{
}

/// A reply of status 200 signs in with the id token and the time of its result, is a
/// challenge where it has none, and where it cannot be read says so.
pub proof fn law_what_a_granted_reply_means(read: Result<RefreshResponse, String>)
    ensures
        read matches Err(e) ==> accepted_view(read) == Err::<RefreshedView, Seq<char>>(
            "unreadable refresh response: "@ + e@,
        ),
        read matches Ok(r) ==> {
            &&& r.result matches Some(a) ==> accepted_view(read) == Ok::<RefreshedView, Seq<char>>(
                RefreshedView::Renewed { id_token: a.id_token@, expires_in: a.expires_in },
            )
            &&& r.result is None ==> accepted_view(read) == Ok::<RefreshedView, Seq<char>>(
                RefreshedView::Rejected {
                    kind: "ChallengeRequired"@,
                    message: "Cognito returned no AuthenticationResult; the sign-in needs a person"@,
                },
            )
        },
{
}

/// A reply of another status is told by the kind and the message that it gives; where
/// it gives none, by its status and the first two hundred characters of its body.
pub proof fn law_what_a_refused_reply_means(
    status: u16,
    body: Seq<char>,
    read: Option<RefusedResponse>,
    kind: Option<Seq<char>>,
    message: Option<Seq<char>>,
)
    requires
        kind == (match read {
            Some(e) => text::view_of(e.kind),
            None => None,
        }),
        message == (match read {
            Some(e) => text::view_of(e.message),
            None => None,
        }),
    ensures
        rejected_view(status, body, read) matches RefreshedView::Rejected { kind: k, message: m }
            && k == (match kind {
            Some(k) => k,
            None => "HTTP "@ + text::digits(status as nat),
        }) && m == (match message {
            Some(m) => m,
            None => if body.len() <= 200 {
                body
            } else {
                body.take(200)
            },
        }),
{
}

/// The value of a byte in a token is its place in the alphabet of capitals, small
/// letters, digits, hyphen and underscore; no other byte has one.
pub proof fn law_a_byte_is_worth_its_place_in_the_alphabet(b: u8)
    ensures
        65 <= b <= 90 ==> sextet(b) == Some(b - 65),
        97 <= b <= 122 ==> sextet(b) == Some(26 + (b - 97)),
        48 <= b <= 57 ==> sextet(b) == Some(52 + (b - 48)),
        b == 45 ==> sextet(b) == Some(62int),
        b == 95 ==> sextet(b) == Some(63int),
        !(65 <= b <= 90) && !(97 <= b <= 122) && !(48 <= b <= 57) && b != 45 && b != 95
            ==> sextet(b) is None,
{
}

/// A text is read up to its first padding sign, byte by byte, and not at all where a
/// byte before that is not in the alphabet.
pub proof fn law_a_token_is_read_up_to_its_padding(s: Seq<u8>, rest: Seq<u8>, i: int)
    requires
        forall|k: int| 0 <= k < s.len() ==> #[trigger] s[k] != 61,
    ensures
        sextets(s + seq![61u8] + rest) == sextets(s),
        0 <= i < s.len() && sextet(s[i]) is None ==> sextets(s) is None,
        sextets(s) matches Some(v) ==> v.len() == s.len() && (0 <= i < s.len() ==> sextet(s[i])
            == Some(v[i])),
    decreases s.len(),
{
    let whole = s + seq![61u8] + rest;
    if s.len() == 0 {
        assert(whole[0] == 61);
    } else {
        assert(s[0] != 61);
        let t = s.drop_first();
        assert forall|k: int| 0 <= k < t.len() implies #[trigger] t[k] != 61 by {
            assert(t[k] == s[k + 1]);
        }
        law_a_token_is_read_up_to_its_padding(t, rest, i - 1);
        assert(whole[0] == s[0]);
        assert(whole.drop_first() =~= t + seq![61u8] + rest);
        if 0 < i < s.len() {
            assert(t[i - 1] == s[i]);
        }
    }
}

/// Each four values hold three bytes: the number that the values write in base 64 is
/// the one that the bytes write in base 256.
pub proof fn law_four_values_hold_three_bytes(v: Seq<int>, g: int)
    requires
        forall|i: int| 0 <= i < v.len() ==> 0 <= #[trigger] v[i] < 64,
        0 <= g,
        4 * g + 4 <= v.len(),
    ensures
        unpacked(v).len() == v.len() * 3 / 4,
        3 * g + 3 <= unpacked(v).len(),
        unpacked(v)[3 * g] * 65536 + unpacked(v)[3 * g + 1] * 256 + unpacked(v)[3 * g + 2] == v[4
            * g] * 262144 + v[4 * g + 1] * 4096 + v[4 * g + 2] * 64 + v[4 * g + 3],
{
    let (a, b, c, d) = (v[4 * g], v[4 * g + 1], v[4 * g + 2], v[4 * g + 3]);
    assert(0 <= a < 64 && 0 <= b < 64 && 0 <= c < 64 && 0 <= d < 64);
    assert((3 * g) / 3 == g && (3 * g) % 3 == 0);
    assert((3 * g + 1) / 3 == g && (3 * g + 1) % 3 == 1);
    assert((3 * g + 2) / 3 == g && (3 * g + 2) % 3 == 2);
    assert(byte_at(v, 3 * g) == a * 4 + b / 16);
    assert(byte_at(v, 3 * g + 1) == b % 16 * 16 + c / 4);
    assert(byte_at(v, 3 * g + 2) == c % 4 * 64 + d);
}

/// Where a text has no dot there is no second part and no claim; where it has, the
/// second part runs from the first dot to the next, or to the end.
pub proof fn law_the_second_part_is_between_the_first_two_dots(
    a: Seq<char>,
    b: Seq<char>,
    rest: Seq<char>,
)
    requires
        !a.contains('.'),
        !b.contains('.'),
    ensures
        second_part(a) is None,
        auth_time_of(a) is None,
        second_part(a + seq!['.'] + b) == Some(b),
        second_part(a + seq!['.'] + (b + seq!['.'] + rest)) == Some(b),
{
    lemma_second_part(a, b);
    lemma_second_part(a, b + seq!['.'] + rest);
    lemma_first_part(b, rest);
    lemma_no_second_part(a);
    lemma_no_dot(b);
}

proof fn lemma_no_second_part(a: Seq<char>)
    requires
        !a.contains('.'),
    ensures
        second_part(a) is None,
    decreases a.len(),
{
    if a.len() > 0 {
        assert(a.contains(a[0]));
        assert forall|c: char| a.drop_first().contains(c) implies a.contains(c) by {
            let i = choose|i: int| 0 <= i < a.drop_first().len() && a.drop_first()[i] == c;
            assert(a[i + 1] == c);
        }
        lemma_no_second_part(a.drop_first());
    }
}

proof fn lemma_no_dot(a: Seq<char>)
    requires
        !a.contains('.'),
    ensures
        first_part(a) == a,
    decreases a.len(),
{
    if a.len() > 0 {
        assert(a.contains(a[0]));
        assert forall|c: char| a.drop_first().contains(c) implies a.contains(c) by {
            let i = choose|i: int| 0 <= i < a.drop_first().len() && a.drop_first()[i] == c;
            assert(a[i + 1] == c);
        }
        lemma_no_dot(a.drop_first());
        assert(seq![a[0]] + a.drop_first() =~= a);
    } else {
        assert(first_part(a) =~= a);
    }
}

/// What a text stands for are the bytes that its values hold, where all of it can be
/// read. Of values that fill no group, two hold one byte and three hold two.
pub proof fn law_what_a_text_stands_for(s: Seq<u8>, v: Seq<int>, k: int)
    requires
        forall|i: int| 0 <= i < v.len() ==> 0 <= #[trigger] v[i] < 64,
    ensures
        sextets(s) is None ==> decoded(s) is None,
        sextets(s) == Some(v) ==> decoded(s) == Some(unpacked(v)),
        unpacked(v).len() == v.len() * 3 / 4,
        0 <= k && 3 * k < unpacked(v).len() ==> unpacked(v)[3 * k] == v[4 * k] * 4 + v[4 * k + 1]
            / 16,
        0 <= k && 3 * k + 1 < unpacked(v).len() ==> unpacked(v)[3 * k + 1] == v[4 * k + 1] % 16
            * 16 + v[4 * k + 2] / 4,
        0 <= k && 3 * k + 2 < unpacked(v).len() ==> unpacked(v)[3 * k + 2] == v[4 * k + 2] % 4 * 64
            + v[4 * k + 3],
{
    assert((3 * k) / 3 == k && (3 * k) % 3 == 0);
    assert((3 * k + 1) / 3 == k && (3 * k + 1) % 3 == 1);
    assert((3 * k + 2) / 3 == k && (3 * k + 2) % 3 == 2);
    if 0 <= k && 3 * k < unpacked(v).len() {
        assert(0 <= v[4 * k] < 64 && 0 <= v[4 * k + 1] < 64);
        assert(unpacked(v)[3 * k] == byte_at(v, 3 * k));
    }
    if 0 <= k && 3 * k + 1 < unpacked(v).len() {
        assert(0 <= v[4 * k + 1] < 64 && 0 <= v[4 * k + 2] < 64);
        assert(unpacked(v)[3 * k + 1] == byte_at(v, 3 * k + 1));
    }
    if 0 <= k && 3 * k + 2 < unpacked(v).len() {
        assert(0 <= v[4 * k + 2] < 64 && 0 <= v[4 * k + 3] < 64);
        assert(unpacked(v)[3 * k + 2] == byte_at(v, 3 * k + 2));
    }
}

/// What came back of a sign-in is seen as what it holds.
pub proof fn law_a_reply_is_seen_as_it_is(a: String, b: String, n: i64)
    ensures
        (Refreshed::Renewed { id_token: a, expires_in: n })@ == (RefreshedView::Renewed {
            id_token: a@,
            expires_in: n,
        }),
        (Refreshed::Rejected { kind: a, message: b })@ == (RefreshedView::Rejected {
            kind: a@,
            message: b@,
        }),
{
}

/// Where a sign-in goes, and what it is for.
pub proof fn law_where_a_sign_in_goes()
    ensures
        IDP_HOST@ == "https://cognito-idp.us-east-2.amazonaws.com/"@,
        TARGET@ == "AWSCognitoIdentityProviderService.InitiateAuth"@,
        USER_POOL@ == "us-east-2_ghlOXVLi1"@,
        CLIENT_ID@ == "4qte47jbstod8apnfic0bunmrq"@,
{
}

} // verus!
