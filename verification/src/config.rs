//! Everything the service is told, and the refusals that keep it from starting
//! half-configured.
//!
//! It is told by the environment, handed in as names and values. No default
//! invents a credential: a missing token or password is refused by its name.

use crate::text;
use vstd::prelude::*;

verus! {

/// How to reach the store.
#[derive(Debug, PartialEq, Eq)]
pub struct Db {
    pub host: String,
    pub port: u16,
    pub name: String,
    pub user: String,
    pub password: String,
}

/// Everything the service is told.
#[derive(Debug, PartialEq, Eq)]
pub struct Config {
    pub refresh_token: String,
    pub db: Db,
    /// How long to wait between passes.
    pub interval_secs: u64,
    /// Requests per second during a pass, by the bits of the `double`.
    pub rate: u64,
    /// How old the last success may be before the service counts as unwell.
    pub stale_secs: i64,
}

/// How to reach the store, its strings as characters.
pub struct DbView {
    pub host: Seq<char>,
    pub port: u16,
    pub name: Seq<char>,
    pub user: Seq<char>,
    pub password: Seq<char>,
}

/// Everything the service is told, its strings as characters.
pub struct ConfigView {
    pub refresh_token: Seq<char>,
    pub db: DbView,
    pub interval_secs: u64,
    pub rate: u64,
    pub stale_secs: i64,
}

impl View for Db {
    type V = DbView;

    open spec fn view(&self) -> DbView {
        DbView {
            host: self.host@,
            port: self.port,
            name: self.name@,
            user: self.user@,
            password: self.password@,
        }
    }
}

impl View for Config {
    type V = ConfigView;

    open spec fn view(&self) -> ConfigView {
        ConfigView {
            refresh_token: self.refresh_token@,
            db: self.db@,
            interval_secs: self.interval_secs,
            rate: self.rate,
            stale_secs: self.stale_secs,
        }
    }
}

/// The value of a name, where it has one that is not blank.
pub open spec fn value_of(env: Seq<(String, String)>, key: Seq<char>) -> Option<Seq<char>>
    decreases env.len(),
{
    if env.len() == 0 {
        None
    } else if env[0].0@ == key {
        if text::is_blank(env[0].1@) {
            None
        } else {
            Some(env[0].1@)
        }
    } else {
        value_of(env.drop_first(), key)
    }
}

fn value(env: &Vec<(String, String)>, key: &str) -> (r: Option<String>)
    ensures
        match r {
            Some(v) => value_of(env@, key@) == Some(v@),
            None => value_of(env@, key@) is None,
        },
{
    let mut i: usize = 0;
    assert(env@.skip(0) =~= env@);
    while i < env.len()
        invariant
            i <= env.len(),
            value_of(env@, key@) == value_of(env@.skip(i as int), key@),
        decreases env.len() - i,
    {
        assert(env@.skip(i as int).drop_first() =~= env@.skip(i + 1));
        if text::same(env[i].0.as_str(), key) {
            return if text::blank(env[i].1.as_str()) {
                None
            } else {
                Some(env[i].1.clone())
            };
        }
        i = i + 1;
    }
    None
}

/// The value of a name that has to have one, or the refusal that names it.
pub open spec fn required_view(env: Seq<(String, String)>, key: Seq<char>) -> Result<
    Seq<char>,
    Seq<char>,
> {
    match value_of(env, key) {
        Some(v) => Ok(v),
        None => Err(key + " is not set"@),
    }
}

fn required(env: &Vec<(String, String)>, key: &str) -> (r: Result<String, String>)
    ensures
        match r {
            Ok(v) => required_view(env@, key@) == Ok::<Seq<char>, Seq<char>>(v@),
            Err(e) => required_view(env@, key@) == Err::<Seq<char>, Seq<char>>(e@),
        },
{
    match value(env, key) {
        Some(v) => Ok(v),
        None => {
            let mut why = key.to_owned();
            why.append(" is not set");
            Err(why)
        },
    }
}

/// The value of a name, or a fallback.
pub open spec fn or_view(
    env: Seq<(String, String)>,
    key: Seq<char>,
    fallback: Seq<char>,
) -> Seq<char> {
    match value_of(env, key) {
        Some(v) => v,
        None => fallback,
    }
}

fn or(env: &Vec<(String, String)>, key: &str, fallback: &str) -> (s: String)
    ensures
        s@ == or_view(env@, key@, fallback@),
{
    match value(env, key) {
        Some(v) => v,
        None => fallback.to_owned(),
    }
}

/// Why a value is not a number.
pub open spec fn not_a_number(key: Seq<char>, v: Seq<char>) -> Seq<char> {
    key + " is not a number: "@ + v
}

fn no_number(key: &str, v: &str) -> (s: String)
    ensures
        s@ == not_a_number(key@, v@),
{
    let mut why = key.to_owned();
    why.append(" is not a number: ");
    why.append(v);
    why
}

/// The number of a name, up to a largest, or a fallback where it has no value.
pub open spec fn unsigned_view(
    env: Seq<(String, String)>,
    key: Seq<char>,
    max: u64,
    fallback: u64,
) -> Result<u64, Seq<char>> {
    match value_of(env, key) {
        Some(v) => match text::unsigned_value(text::trimmed(v)) {
            Some(n) if n <= max => Ok(n as u64),
            _ => Err(not_a_number(key, v)),
        },
        None => Ok(fallback),
    }
}

fn unsigned(env: &Vec<(String, String)>, key: &str, max: u64, fallback: u64) -> (r: Result<
    u64,
    String,
>)
    requires
        fallback <= max,
    ensures
        match r {
            Ok(n) => unsigned_view(env@, key@, max, fallback) == Ok::<u64, Seq<char>>(n) && n
                <= max,
            Err(e) => unsigned_view(env@, key@, max, fallback) == Err::<u64, Seq<char>>(e@),
        },
{
    match value(env, key) {
        Some(v) => match text::parse_unsigned(text::trim(v.as_str()).as_str(), max) {
            Some(n) => Ok(n),
            None => Err(no_number(key, v.as_str())),
        },
        None => Ok(fallback),
    }
}

/// The integer of a name, or a fallback where it has no value.
pub open spec fn signed_view(
    env: Seq<(String, String)>,
    key: Seq<char>,
    fallback: i64,
) -> Result<i64, Seq<char>> {
    match value_of(env, key) {
        Some(v) => match text::signed_value(text::trimmed(v)) {
            Some(n) if i64::MIN <= n <= i64::MAX => Ok(n as i64),
            _ => Err(not_a_number(key, v)),
        },
        None => Ok(fallback),
    }
}

fn signed(env: &Vec<(String, String)>, key: &str, fallback: i64) -> (r: Result<i64, String>)
    ensures
        match r {
            Ok(n) => signed_view(env@, key@, fallback) == Ok::<i64, Seq<char>>(n),
            Err(e) => signed_view(env@, key@, fallback) == Err::<i64, Seq<char>>(e@),
        },
{
    match value(env, key) {
        Some(v) => match text::parse_signed(text::trim(v.as_str()).as_str()) {
            Some(n) => Ok(n),
            None => Err(no_number(key, v.as_str())),
        },
        None => Ok(fallback),
    }
}

pub const REFRESH_TOKEN: &'static str = "DYNAMO_REFRESH_TOKEN";

pub const DB_HOST: &'static str = "DYNAMO_DB_HOST";

pub const DB_PORT: &'static str = "DYNAMO_DB_PORT";

pub const DB_NAME: &'static str = "DYNAMO_DB_NAME";

pub const DB_USER: &'static str = "DYNAMO_DB_USER";

pub const DB_PASSWORD: &'static str = "DYNAMO_DB_PASSWORD";

pub const INTERVAL: &'static str = "DYNAMO_INTERVAL";

pub const RATE: &'static str = "DYNAMO_RATE";

pub const STALE: &'static str = "DYNAMO_STALE";

/// The largest port.
pub const LAST_PORT: u64 = 65_535;

/// Four requests per second, by the bits of the `double`.
pub const DEFAULT_RATE: u64 = 0x4010_0000_0000_0000;

/// How to reach the store, or the first refusal: of the port, then of the
/// password.
pub open spec fn db_view(env: Seq<(String, String)>) -> Result<DbView, Seq<char>> {
    match unsigned_view(env, DB_PORT@, LAST_PORT, 5432) {
        Err(e) => Err(e),
        Ok(port) => match required_view(env, DB_PASSWORD@) {
            Err(e) => Err(e),
            Ok(password) => Ok(
                DbView {
                    host: or_view(env, DB_HOST@, "postgres"@),
                    port: port as u16,
                    name: or_view(env, DB_NAME@, "dynamo"@),
                    user: or_view(env, DB_USER@, "dynamo"@),
                    password,
                },
            ),
        },
    }
}

fn db_from(env: &Vec<(String, String)>) -> (r: Result<Db, String>)
    ensures
        match r {
            Ok(db) => db_view(env@) == Ok::<DbView, Seq<char>>(db@),
            Err(e) => db_view(env@) == Err::<DbView, Seq<char>>(e@),
        },
{
    let host = or(env, DB_HOST, "postgres");
    let port = match unsigned(env, DB_PORT, LAST_PORT, 5432) {
        Ok(port) => port,
        Err(e) => {
            return Err(e);
        },
    };
    let name = or(env, DB_NAME, "dynamo");
    let user = or(env, DB_USER, "dynamo");
    match required(env, DB_PASSWORD) {
        Ok(password) => Ok(Db { host, port: port as u16, name, user, password }),
        Err(e) => Err(e),
    }
}

/// The text that says how many requests go out per second, if there is one.
pub open spec fn rate_view(env: Seq<(String, String)>) -> Option<Seq<char>> {
    match value_of(env, RATE@) {
        Some(v) => Some(text::trimmed(v)),
        None => None,
    }
}

/// The text that says how many requests go out per second, if there is one.
pub fn rate_text(env: &Vec<(String, String)>) -> (r: Option<String>)
    ensures
        match r {
            Some(s) => rate_view(env@) == Some(s@),
            None => rate_view(env@) is None,
        },
{
    match value(env, RATE) {
        Some(v) => Some(text::trim(v.as_str())),
        None => None,
    }
}

/// Everything the service is told, or the first refusal. `rate` is the `double`
/// that the text of the rate writes, by its bits, if it writes one.
pub open spec fn configured(env: Seq<(String, String)>, rate: Option<u64>) -> Result<
    ConfigView,
    Seq<char>,
> {
    match required_view(env, REFRESH_TOKEN@) {
        Err(e) => Err(e),
        Ok(refresh_token) => match db_view(env) {
            Err(e) => Err(e),
            Ok(db) => match unsigned_view(env, INTERVAL@, u64::MAX, 60) {
                Err(e) => Err(e),
                Ok(interval_secs) => match (value_of(env, RATE@), rate) {
                    (Some(v), None) => Err(not_a_number(RATE@, v)),
                    (told, read) => match signed_view(env, STALE@, 900) {
                        Err(e) => Err(e),
                        Ok(stale_secs) => Ok(
                            ConfigView {
                                refresh_token,
                                db,
                                interval_secs,
                                rate: if told is Some {
                                    read->0
                                } else {
                                    DEFAULT_RATE
                                },
                                stale_secs,
                            },
                        ),
                    },
                },
            },
        },
    }
}

/// What the question after the service's health needs, or the first refusal.
/// The refresh token is no part of it.
pub open spec fn health_view(env: Seq<(String, String)>) -> Result<(DbView, i64), Seq<char>> {
    match db_view(env) {
        Err(e) => Err(e),
        Ok(db) => match signed_view(env, STALE@, 900) {
            Err(e) => Err(e),
            Ok(stale) => Ok((db, stale)),
        },
    }
}

impl Config {
    /// Reads what the service is told. `rate` is the `double` that
    /// [`rate_text`] writes, by its bits, if it writes one.
    pub fn from_env(env: &Vec<(String, String)>, rate: Option<u64>) -> (r: Result<Config, String>)
        ensures
            match r {
                Ok(c) => configured(env@, rate) == Ok::<ConfigView, Seq<char>>(c@),
                Err(e) => configured(env@, rate) == Err::<ConfigView, Seq<char>>(e@),
            },
    {
        let refresh_token = match required(env, REFRESH_TOKEN) {
            Ok(s) => s,
            Err(e) => {
                return Err(e);
            },
        };
        let db = match db_from(env) {
            Ok(db) => db,
            Err(e) => {
                return Err(e);
            },
        };
        // A minute, the finest resolution there is: asking more often returns
        // the same point again.
        let interval_secs = match unsigned(env, INTERVAL, u64::MAX, 60) {
            Ok(n) => n,
            Err(e) => {
                return Err(e);
            },
        };
        let rate = match value(env, RATE) {
            Some(v) => match rate {
                Some(bits) => bits,
                None => {
                    return Err(no_number(RATE, v.as_str()));
                },
            },
            None => DEFAULT_RATE,
        };
        // Long enough that one failed pass and a retry are no alarm, short
        // enough that a service which has stopped is seen to have.
        match signed(env, STALE, 900) {
            Ok(stale_secs) => Ok(Config { refresh_token, db, interval_secs, rate, stale_secs }),
            Err(e) => Err(e),
        }
    }

    /// The subset that the question after the service's health needs.
    pub fn health_from_env(env: &Vec<(String, String)>) -> (r: Result<(Db, i64), String>)
        ensures
            match r {
                Ok((db, stale)) => health_view(env@) == Ok::<(DbView, i64), Seq<char>>(
                    (db@, stale),
                ),
                Err(e) => health_view(env@) == Err::<(DbView, i64), Seq<char>>(e@),
            },
    {
        let db = match db_from(env) {
            Ok(db) => db,
            Err(e) => {
                return Err(e);
            },
        };
        match signed(env, STALE, 900) {
            Ok(stale) => Ok((db, stale)),
            Err(e) => Err(e),
        }
    }
}

/// Without a refresh token or a password the service does not start, whatever
/// else it is told, and a missing token is refused by its name.
pub proof fn law_credentials_have_no_default(env: Seq<(String, String)>, rate: Option<u64>)
    ensures
        value_of(env, REFRESH_TOKEN@) is None ==> configured(env, rate) == Err::<
            ConfigView,
            Seq<char>,
        >(REFRESH_TOKEN@ + " is not set"@),
        value_of(env, DB_PASSWORD@) is None ==> configured(env, rate) is Err,
{
}

/// What the question after the service's health needs is what the service
/// itself is told, wherever that is complete.
pub proof fn law_health_is_told_the_same(env: Seq<(String, String)>, rate: Option<u64>)
    requires
        configured(env, rate) is Ok,
    ensures
        health_view(env) == Ok::<(DbView, i64), Seq<char>>(
            (configured(env, rate)->Ok_0.db, configured(env, rate)->Ok_0.stale_secs),
        ),
{
}

/// The question after the service's health has the same answer whatever the
/// refresh token is, and without one.
pub proof fn law_health_does_not_need_the_token(
    a: Seq<(String, String)>,
    b: Seq<(String, String)>,
)
    requires
        forall|key: Seq<char>|
            key != REFRESH_TOKEN@ ==> #[trigger] value_of(a, key) == value_of(b, key),
    ensures
        health_view(a) == health_view(b),
{
    reveal_strlit("DYNAMO_REFRESH_TOKEN");
    reveal_strlit("DYNAMO_DB_HOST");
    reveal_strlit("DYNAMO_DB_PORT");
    reveal_strlit("DYNAMO_DB_NAME");
    reveal_strlit("DYNAMO_DB_USER");
    reveal_strlit("DYNAMO_DB_PASSWORD");
    reveal_strlit("DYNAMO_STALE");
    assert(REFRESH_TOKEN@.len() == 20);
    assert(DB_HOST@.len() == 14 && DB_PORT@.len() == 14 && DB_NAME@.len() == 14 && DB_USER@.len()
        == 14 && DB_PASSWORD@.len() == 18 && STALE@.len() == 12);
}

/// A name has the value of the first pair that holds it, as it stands there, unless
/// that is blank; without such a pair it has none.
pub proof fn law_a_name_has_its_first_value(env: Seq<(String, String)>, key: Seq<char>, i: int)
    requires
        0 <= i <= env.len(),
        i < env.len() ==> env[i].0@ == key,
        forall|j: int| 0 <= j < i ==> (#[trigger] env[j]).0@ != key,
    ensures
        i == env.len() ==> value_of(env, key) is None,
        i < env.len() && text::trimmed(env[i].1@).len() == 0 ==> value_of(env, key) is None,
        i < env.len() && text::trimmed(env[i].1@).len() > 0 ==> value_of(env, key) == Some(
            env[i].1@,
        ),
    decreases env.len(),
{
    if i < env.len() {
        text::law_a_blank_text_trims_to_nothing(env[i].1@);
    }
    if i > 0 {
        let rest = env.drop_first();
        assert(env[0].0@ != key);
        assert forall|j: int| 0 <= j < i - 1 implies (#[trigger] rest[j]).0@ != key by {
            assert(rest[j] == env[j + 1]);
        }
        law_a_name_has_its_first_value(rest, key, i - 1);
    }
}

/// How to reach the store is told by five names: the host, the database and the user
/// have a default, the port has one and is a number up to 65535, and the password has
/// none. A port that is no number is refused first, and then a missing password.
pub proof fn law_how_the_store_is_told(env: Seq<(String, String)>)
    ensures
        ({
            let or = |key: Seq<char>, fallback: Seq<char>|
                match value_of(env, key) {
                    Some(v) => v,
                    None => fallback,
                };
            let port = value_of(env, "DYNAMO_DB_PORT"@);
            let number = match port {
                Some(v) => text::unsigned_value(text::trimmed(v)),
                None => Some(5432nat),
            };
            let password = value_of(env, "DYNAMO_DB_PASSWORD"@);
            let good = number matches Some(n) && n <= 65_535;
            &&& !good ==> db_view(env) == Err::<DbView, Seq<char>>(
                "DYNAMO_DB_PORT"@ + " is not a number: "@ + port->0,
            )
            &&& good && password is None ==> db_view(env) == Err::<DbView, Seq<char>>(
                "DYNAMO_DB_PASSWORD"@ + " is not set"@,
            )
            &&& good && password is Some ==> {
                &&& db_view(env) matches Ok(db)
                &&& db.host == or("DYNAMO_DB_HOST"@, "postgres"@)
                &&& db.port == number->0
                &&& db.name == or("DYNAMO_DB_NAME"@, "dynamo"@)
                &&& db.user == or("DYNAMO_DB_USER"@, "dynamo"@)
                &&& db.password == password->0
            }
        }),
{
}

/// What the service is told besides the store: a refresh token, which has no default,
/// the seconds between passes, or sixty, how many requests go out a second, or four,
/// and how old a success may be, or nine hundred seconds. The first that is missing or
/// no number is refused by name: the token before the store, and the store before the
/// others in this order.
pub proof fn law_what_the_service_is_told(env: Seq<(String, String)>, rate: Option<u64>)
    ensures
        ({
            let token = value_of(env, "DYNAMO_REFRESH_TOKEN"@);
            let interval = value_of(env, "DYNAMO_INTERVAL"@);
            let seconds = match interval {
                Some(v) => text::unsigned_value(text::trimmed(v)),
                None => Some(60nat),
            };
            let paced = value_of(env, "DYNAMO_RATE"@);
            let stale = value_of(env, "DYNAMO_STALE"@);
            let age = match stale {
                Some(v) => text::signed_value(text::trimmed(v)),
                None => Some(900int),
            };
            let seconds_good = seconds matches Some(n) && n <= 0xffff_ffff_ffff_ffff;
            let rate_good = paced is None || rate is Some;
            let age_good = age matches Some(n) && -0x8000_0000_0000_0000 <= n
                <= 0x7fff_ffff_ffff_ffff;
            let got = configured(env, rate);
            &&& token is None ==> got == Err::<ConfigView, Seq<char>>(
                "DYNAMO_REFRESH_TOKEN"@ + " is not set"@,
            )
            &&& token is Some ==> {
                &&& db_view(env) matches Err(e) ==> got == Err::<ConfigView, Seq<char>>(e)
                &&& db_view(env) matches Ok(db) ==> {
                    &&& !seconds_good ==> got == Err::<ConfigView, Seq<char>>(
                        "DYNAMO_INTERVAL"@ + " is not a number: "@ + interval->0,
                    )
                    &&& seconds_good && !rate_good ==> got == Err::<ConfigView, Seq<char>>(
                        "DYNAMO_RATE"@ + " is not a number: "@ + paced->0,
                    )
                    &&& seconds_good && rate_good && !age_good ==> got == Err::<
                        ConfigView,
                        Seq<char>,
                    >("DYNAMO_STALE"@ + " is not a number: "@ + stale->0)
                    &&& seconds_good && rate_good && age_good ==> {
                        &&& got matches Ok(c)
                        &&& c.refresh_token == token->0
                        &&& c.db == db
                        &&& c.interval_secs == seconds->0
                        &&& c.rate == (if paced is Some {
                            rate->0
                        } else {
                            0x4010_0000_0000_0000
                        })
                        &&& c.stale_secs == age->0
                    }
                }
            }
        }),
{
}

/// The question after the service's health is told how to reach the store and how old
/// a success may be, and refused as the service is.
pub proof fn law_what_the_question_after_health_is_told(env: Seq<(String, String)>)
    ensures
        ({
            let stale = value_of(env, "DYNAMO_STALE"@);
            let age = match stale {
                Some(v) => text::signed_value(text::trimmed(v)),
                None => Some(900int),
            };
            let age_good = age matches Some(n) && -0x8000_0000_0000_0000 <= n
                <= 0x7fff_ffff_ffff_ffff;
            &&& db_view(env) matches Err(e) ==> health_view(env) == Err::<
                (DbView, i64),
                Seq<char>,
            >(e)
            &&& db_view(env) matches Ok(db) ==> {
                &&& !age_good ==> health_view(env) == Err::<(DbView, i64), Seq<char>>(
                    "DYNAMO_STALE"@ + " is not a number: "@ + stale->0,
                )
                &&& age_good ==> (health_view(env) matches Ok(told) && told.0 == db && told.1
                    == age->0)
            }
        }),
{
}

/// The text of the rate is the value of its name without the white space around it.
pub proof fn law_the_rate_is_read_without_its_white_ends(env: Seq<(String, String)>)
    ensures
        value_of(env, "DYNAMO_RATE"@) is None ==> rate_view(env) is None,
        value_of(env, "DYNAMO_RATE"@) matches Some(v) ==> rate_view(env) == Some(
            text::trimmed(v),
        ),
{
}

/// What the service is told is seen as it is.
pub proof fn law_what_is_told_is_seen_as_it_is(c: Config)
    ensures
        c@.refresh_token == c.refresh_token@,
        c@.db.host == c.db.host@,
        c@.db.port == c.db.port,
        c@.db.name == c.db.name@,
        c@.db.user == c.db.user@,
        c@.db.password == c.db.password@,
        c@.interval_secs == c.interval_secs,
        c@.rate == c.rate,
        c@.stale_secs == c.stale_secs,
{
}

} // verus!
