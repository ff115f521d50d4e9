//! The read-only interface that a model drives: words in, a request out.
//!
//! Arguments are positional words and `key=value` pairs, never `--flags`. The
//! clock and the zone are passed in, so that "yesterday" is the same answer for
//! the same question.

use crate::json::{self, Json, JsonView};
use crate::scale::Scale;
use crate::text;
use crate::time::{self, Duration, Instant, Zone};
use vstd::prelude::*;

verus! {

/// How many rows an answer holds before it says that there are more.
pub const MAX_ROWS: usize = 400;

/// A parsed invocation: no clock of its own and no database.
#[derive(Debug, PartialEq, Eq)]
pub enum Request {
    Describe,
    Channels,
    /// The most recent reading for every channel.
    Now,
    /// Energy by circuit over a window.
    Usage { span: Span, kind: Kind },
    /// One channel's readings over a window.
    Series { query: String, span: Span, scale: Scale },
}

/// Which family of channels a question is about.
///
/// Summing the merged channels together with the branch legs they are made of
/// double-counts every 240 V appliance in the house, so a question is always
/// about one family.
#[derive(Debug, Clone, Copy, PartialEq, Eq, Structural)]
pub enum Kind {
    Main,
    Branch,
    Merged,
    /// Everything a person would call a circuit: merged where a merge exists,
    /// and the branch legs that are not part of one.
    Circuits,
}

/// A window of time.
#[derive(Debug, Clone, Copy, PartialEq, Eq)]
pub struct Span {
    pub from: Instant,
    pub to: Instant,
    /// The period word that was typed, echoed back so that a reply can name the
    /// period the same way the question did.
    pub named: &'static str,
}

/// What went wrong, in words a model can act on.
#[derive(Debug, PartialEq, Eq)]
pub struct Refusal(pub String);

impl Clone for Request {
    fn clone(&self) -> (r: Request)
        ensures
            r == *self,
    {
        match self {
            Request::Describe => Request::Describe,
            Request::Channels => Request::Channels,
            Request::Now => Request::Now,
            Request::Usage { span, kind } => Request::Usage { span: *span, kind: *kind },
            Request::Series { query, span, scale } => Request::Series {
                query: query.clone(),
                span: *span,
                scale: *scale,
            },
        }
    }
}

impl Clone for Refusal {
    fn clone(&self) -> (r: Refusal)
        ensures
            r == *self,
    {
        Refusal(self.0.clone())
    }
}

/// A window of time, in nanoseconds.
pub struct SpanView {
    pub from: int,
    pub to: int,
    pub named: Seq<char>,
}

/// A request, its strings as characters and its window in nanoseconds.
pub enum RequestView {
    Describe,
    Channels,
    Now,
    Usage { span: SpanView, kind: Kind },
    Series { query: Seq<char>, span: SpanView, scale: Scale },
}

impl Span {
    /// Two moments that can be represented.
    pub open spec fn valid(self) -> bool {
        self.from.valid() && self.to.valid()
    }
}

impl View for Span {
    type V = SpanView;

    open spec fn view(&self) -> SpanView {
        SpanView { from: self.from@, to: self.to@, named: self.named@ }
    }
}

impl Request {
    /// A request whose moments, if it has any, can be represented.
    pub open spec fn valid(self) -> bool {
        match self {
            Request::Usage { span, .. } => span.valid(),
            Request::Series { span, .. } => span.valid(),
            _ => true,
        }
    }
}

impl View for Request {
    type V = RequestView;

    open spec fn view(&self) -> RequestView {
        match self {
            Request::Describe => RequestView::Describe,
            Request::Channels => RequestView::Channels,
            Request::Now => RequestView::Now,
            Request::Usage { span, kind } => RequestView::Usage { span: span@, kind: *kind },
            Request::Series { query, span, scale } => RequestView::Series {
                query: query@,
                span: span@,
                scale: *scale,
            },
        }
    }
}

/// The kind that a word names.
pub open spec fn kind_named(word: Seq<char>) -> Option<Kind> {
    if word == "main"@ || word == "mains"@ || word == "total"@ {
        Some(Kind::Main)
    } else if word == "branch"@ || word == "branches"@ || word == "legs"@ {
        Some(Kind::Branch)
    } else if word == "merged"@ {
        Some(Kind::Merged)
    } else if word == "circuits"@ || word == "circuit"@ || word == "all"@ {
        Some(Kind::Circuits)
    } else {
        None
    }
}

impl Kind {
    /// The kind that a word names.
    pub fn parse(word: &str) -> (k: Option<Kind>)
        ensures
            k == kind_named(word@),
    {
        if text::same(word, "main") || text::same(word, "mains") || text::same(word, "total") {
            Some(Kind::Main)
        } else if text::same(word, "branch") || text::same(word, "branches") || text::same(
            word,
            "legs",
        ) {
            Some(Kind::Branch)
        } else if text::same(word, "merged") {
            Some(Kind::Merged)
        } else if text::same(word, "circuits") || text::same(word, "circuit") || text::same(
            word,
            "all",
        ) {
            Some(Kind::Circuits)
        } else {
            None
        }
    }
}

/// Why a word is not a scale.
pub open spec fn not_a_scale(word: Seq<char>) -> Seq<char> {
    "`scale="@ + word + "` is not one of `1MIN`, `15MIN`, `1H` or `1D`."@
}

/// The scale that a word names, in whichever case.
pub open spec fn scale_named(word: Seq<char>) -> Option<Scale> {
    if text::same_letters(Scale::Minute.name(), word) {
        Some(Scale::Minute)
    } else if text::same_letters(Scale::QuarterHour.name(), word) {
        Some(Scale::QuarterHour)
    } else if text::same_letters(Scale::Hour.name(), word) {
        Some(Scale::Hour)
    } else if text::same_letters(Scale::Day.name(), word) {
        Some(Scale::Day)
    } else {
        None
    }
}

/// The scale that a word names, in whichever case.
pub fn scale_of(word: &str) -> (r: Result<Scale, Refusal>)
    ensures
        match r {
            Ok(s) => scale_named(word@) == Some(s),
            Err(why) => scale_named(word@) is None && why.0@ == not_a_scale(word@),
        },
{
    if text::same_ignoring_case(Scale::Minute.api_name(), word) {
        Ok(Scale::Minute)
    } else if text::same_ignoring_case(Scale::QuarterHour.api_name(), word) {
        Ok(Scale::QuarterHour)
    } else if text::same_ignoring_case(Scale::Hour.api_name(), word) {
        Ok(Scale::Hour)
    } else if text::same_ignoring_case(Scale::Day.api_name(), word) {
        Ok(Scale::Day)
    } else {
        let mut why = "`scale=".to_owned();
        why.append(word);
        why.append("` is not one of `1MIN`, `15MIN`, `1H` or `1D`.");
        Err(Refusal(why))
    }
}

/// Where today began: local midnight, or the moment itself where there is none
/// that can be represented.
pub open spec fn today(now: Instant, zone: Zone) -> int {
    match now.day_start(zone) {
        Some(midnight) => midnight,
        None => now@,
    }
}

/// The start of the year 2000, before any account existed.
pub const EPOCH_OF_ALL: i64 = 946_684_800;

/// The window that a period word names.
///
/// Days are boundaries in the user's own day and the user's own zone, not
/// multiples of 24 hours back from now. The window is named by the word itself.
pub open spec fn span_named(word: Seq<char>, now: Instant, zone: Zone) -> Option<SpanView> {
    let midnight = today(now, zone);
    if word == "today"@ {
        Some(SpanView { from: midnight, to: now@, named: word })
    } else if word == "yesterday"@ {
        Some(SpanView { from: midnight - time::days(1), to: midnight, named: word })
    } else if word == "week"@ || word == "7d"@ {
        Some(SpanView { from: midnight - time::days(6), to: now@, named: word })
    } else if word == "month"@ || word == "30d"@ {
        Some(SpanView { from: midnight - time::days(29), to: now@, named: word })
    } else if word == "year"@ || word == "365d"@ {
        Some(SpanView { from: midnight - time::days(364), to: now@, named: word })
    } else if word == "all"@ || word == "ever"@ {
        Some(SpanView { from: time::seconds(EPOCH_OF_ALL as int), to: now@, named: word })
    } else {
        None
    }
}

/// Whether a word names a period.
pub open spec fn is_period(word: Seq<char>) -> bool {
    ||| word == "today"@
    ||| word == "yesterday"@
    ||| word == "week"@
    ||| word == "7d"@
    ||| word == "month"@
    ||| word == "30d"@
    ||| word == "year"@
    ||| word == "365d"@
    ||| word == "all"@
    ||| word == "ever"@
}

/// Why a word is not a period.
pub open spec fn not_a_period(word: Seq<char>) -> Seq<char> {
    "`"@ + word
        + "` is not a period. Use `today`, `yesterday`, `week`, `month`, `year` or `all`."@
}

/// Whether the window that a word names, if any, starts at a moment that can be
/// represented.
pub open spec fn span_fits(word: Seq<char>, now: Instant, zone: Zone) -> bool {
    span_named(word, now, zone) matches Some(span) ==> time::representable(span.from)
}

/// A period word as a text that lasts, if it is one.
fn period_word(word: &str) -> (r: Option<&'static str>)
    ensures
        match r {
            Some(s) => s@ == word@ && is_period(word@),
            None => !is_period(word@),
        },
{
    if text::same(word, "today") {
        Some("today")
    } else if text::same(word, "yesterday") {
        Some("yesterday")
    } else if text::same(word, "week") {
        Some("week")
    } else if text::same(word, "7d") {
        Some("7d")
    } else if text::same(word, "month") {
        Some("month")
    } else if text::same(word, "30d") {
        Some("30d")
    } else if text::same(word, "year") {
        Some("year")
    } else if text::same(word, "365d") {
        Some("365d")
    } else if text::same(word, "all") {
        Some("all")
    } else if text::same(word, "ever") {
        Some("ever")
    } else {
        None
    }
}

/// Resolves a period word.
pub fn span_of(word: &str, now: Instant, zone: Zone) -> (r: Result<Span, Refusal>)
    requires
        now.valid(),
        zone.valid(),
        span_fits(word@, now, zone),
    ensures
        match r {
            Ok(span) => span_named(word@, now, zone) == Some(span@) && span.valid()
                && span.named@ == word@,
            Err(why) => span_named(word@, now, zone) is None && why.0@ == not_a_period(word@),
        },
{
    let named = match period_word(word) {
        Some(named) => named,
        None => {
            let mut why = "`".to_owned();
            why.append(word);
            why.append(
                "` is not a period. Use `today`, `yesterday`, `week`, `month`, `year` or `all`.",
            );
            return Err(Refusal(why));
        },
    };
    let midnight = match now.midnight(zone) {
        Some(t) => t,
        None => now,
    };
    assert(midnight@ == today(now, zone));
    if text::same(word, "today") {
        Ok(Span { from: midnight, to: now, named })
    } else if text::same(word, "yesterday") {
        Ok(Span { from: midnight.minus(Duration::days(1)), to: midnight, named })
    } else if text::same(word, "week") || text::same(word, "7d") {
        Ok(Span { from: midnight.minus(Duration::days(6)), to: now, named })
    } else if text::same(word, "month") || text::same(word, "30d") {
        Ok(Span { from: midnight.minus(Duration::days(29)), to: now, named })
    } else if text::same(word, "year") || text::same(word, "365d") {
        Ok(Span { from: midnight.minus(Duration::days(364)), to: now, named })
    } else {
        Ok(Span { from: Instant { nanos: EPOCH_OF_ALL as i128 * time::NANOS }, to: now, named })
    }
}

/// The words that are not blank.
pub open spec fn spoken(words: Seq<Seq<char>>) -> Seq<Seq<char>> {
    words.filter(|w: Seq<char>| !text::is_blank(w))
}

/// The words that are meant: a leading `agent` is tolerated, since every
/// character of a fixed prefix is one that can be got wrong.
pub open spec fn meant(args: Seq<Seq<char>>) -> Seq<Seq<char>> {
    let words = spoken(args);
    if words.len() > 0 && words[0] == "agent"@ {
        words.skip(1)
    } else {
        words
    }
}

/// Whether a word is a flag.
pub open spec fn is_flag(word: Seq<char>) -> bool {
    text::begins_with(word, "--"@)
}

/// Whether any word is a flag.
pub open spec fn has_flag(words: Seq<Seq<char>>) -> bool {
    exists|i: int| 0 <= i < words.len() && is_flag(#[trigger] words[i])
}

/// What follows `key=` in the first word that begins with it.
pub open spec fn option(words: Seq<Seq<char>>, key: Seq<char>) -> Option<Seq<char>>
    decreases words.len(),
{
    if words.len() == 0 {
        None
    } else if text::begins_with(words[0], key + "="@) {
        Some(words[0].skip(key.len() as int + 1))
    } else {
        option(words.drop_first(), key)
    }
}

/// The words that are not `key=value` pairs.
pub open spec fn positional(words: Seq<Seq<char>>) -> Seq<Seq<char>> {
    words.filter(|w: Seq<char>| !w.contains('='))
}

/// The word at a position, or a fallback.
pub open spec fn word_or(words: Seq<Seq<char>>, i: int, fallback: Seq<char>) -> Seq<char> {
    if i < words.len() {
        words[i]
    } else {
        fallback
    }
}

/// What is said to a flag.
pub const NO_FLAGS: &'static str =
    "`dynamo` takes no `--flags`. Arguments are positional words and key=value pairs, \
     like `usage yesterday kind=circuits` or `series 'Water Heater' today scale=1H`.";

/// What is said to no verb at all.
pub const NO_VERB: &'static str =
    "`dynamo` needs a verb. `describe` lists them, `channels` says what is measured, \
     `now` is the current draw, `usage <period>` totals energy by circuit.";

/// What is said to a series of nothing.
pub const NO_CIRCUIT: &'static str =
    "`series` needs a circuit to look at — a name like `Water Heater`, or a \
     channel like `422818/4`. `channels` lists them.";

/// Why a word is not a kind.
pub open spec fn not_a_kind(word: Seq<char>) -> Seq<char> {
    "`kind="@ + word + "` is not one of `circuits`, `merged`, `branch` or `main`."@
}

/// Why a word is not a verb.
pub open spec fn not_a_verb(word: Seq<char>) -> Seq<char> {
    "`"@ + word + "` is not a dynamo verb. `describe` lists them."@
}

/// Whether a word asks for energy over a period.
pub open spec fn asks_usage(verb: Seq<char>) -> bool {
    verb == "usage"@ || verb == "energy"@
}

/// Whether a word asks for one circuit's readings.
pub open spec fn asks_series(verb: Seq<char>) -> bool {
    verb == "series"@ || verb == "history"@
}

/// What a question about usage comes to.
pub open spec fn usage_request(rest: Seq<Seq<char>>, now: Instant, zone: Zone) -> Result<
    RequestView,
    Seq<char>,
> {
    let period = word_or(positional(rest), 0, "today"@);
    match span_named(period, now, zone) {
        None => Err(not_a_period(period)),
        Some(span) => match option(rest, "kind"@) {
            None => Ok(RequestView::Usage { span, kind: Kind::Circuits }),
            Some(word) => match kind_named(word) {
                Some(kind) => Ok(RequestView::Usage { span, kind }),
                None => Err(not_a_kind(word)),
            },
        },
    }
}

/// What a question about one circuit comes to.
pub open spec fn series_request(rest: Seq<Seq<char>>, now: Instant, zone: Zone) -> Result<
    RequestView,
    Seq<char>,
> {
    let words = positional(rest);
    let period = word_or(words, 1, "today"@);
    if words.len() == 0 {
        Err(NO_CIRCUIT@)
    } else {
        match span_named(period, now, zone) {
            None => Err(not_a_period(period)),
            Some(span) => match option(rest, "scale"@) {
                None => Ok(RequestView::Series { query: words[0], span, scale: Scale::Hour }),
                Some(word) => match scale_named(word) {
                    Some(scale) => Ok(RequestView::Series { query: words[0], span, scale }),
                    None => Err(not_a_scale(word)),
                },
            },
        }
    }
}

/// What the words come to: a request, or the words of a refusal.
pub open spec fn parsed(args: Seq<Seq<char>>, now: Instant, zone: Zone) -> Result<
    RequestView,
    Seq<char>,
> {
    let words = meant(args);
    if has_flag(words) {
        Err(NO_FLAGS@)
    } else if words.len() == 0 {
        Err(NO_VERB@)
    } else {
        let verb = words[0];
        let rest = words.skip(1);
        if verb == "describe"@ || verb == "help"@ {
            Ok(RequestView::Describe)
        } else if verb == "channels"@ || verb == "circuits"@ {
            Ok(RequestView::Channels)
        } else if verb == "now"@ || verb == "current"@ || verb == "live"@ {
            Ok(RequestView::Now)
        } else if asks_usage(verb) {
            usage_request(rest, now, zone)
        } else if asks_series(verb) {
            series_request(rest, now, zone)
        } else {
            Err(not_a_verb(verb))
        }
    }
}

/// The period word of a question that has one.
pub open spec fn period_asked(args: Seq<Seq<char>>) -> Option<Seq<char>> {
    let words = meant(args);
    if words.len() == 0 || has_flag(words) {
        None
    } else if asks_usage(words[0]) {
        Some(word_or(positional(words.skip(1)), 0, "today"@))
    } else if asks_series(words[0]) && positional(words.skip(1)).len() > 0 {
        Some(word_or(positional(words.skip(1)), 1, "today"@))
    } else {
        None
    }
}

/// The words that are meant, of those given.
fn words_of(args: &[String]) -> (words: Vec<String>)
    ensures
        text::texts(words@) == meant(text::texts(args@)),
{
    let ghost all = text::texts(args@);
    let mut spoken_words: Vec<String> = Vec::new();
    let mut i: usize = 0;
    proof {
        reveal(Seq::filter);
        assert(all.take(0) =~= Seq::<Seq<char>>::empty());
        assert(text::texts(spoken_words@) =~= spoken(all.take(0)));
    }
    while i < args.len()
        invariant
            i <= args.len(),
            all == text::texts(args@),
            text::texts(spoken_words@) == spoken(all.take(i as int)),
        decreases args.len() - i,
    {
        let ghost before = spoken_words@;
        proof {
            reveal(Seq::filter);
            assert(all.take(i + 1).drop_last() =~= all.take(i as int));
            assert(all.take(i + 1).last() == args@[i as int]@);
        }
        if !text::blank(args[i].as_str()) {
            spoken_words.push(args[i].clone());
            assert(text::texts(spoken_words@) =~= text::texts(before).push(args@[i as int]@));
        }
        i = i + 1;
    }
    assert(all.take(all.len() as int) =~= all);
    if spoken_words.len() > 0 && text::same(spoken_words[0].as_str(), "agent") {
        let mut words: Vec<String> = Vec::new();
        let mut k: usize = 1;
        while k < spoken_words.len()
            invariant
                1 <= k <= spoken_words.len(),
                words@ =~= spoken_words@.subrange(1, k as int),
            decreases spoken_words.len() - k,
        {
            words.push(spoken_words[k].clone());
            k = k + 1;
        }
        assert(text::texts(words@) =~= text::texts(spoken_words@).skip(1));
        words
    } else {
        spoken_words
    }
}

/// Whether any word is a flag.
fn any_flag(words: &Vec<String>) -> (r: bool)
    ensures
        r == has_flag(text::texts(words@)),
{
    let mut i: usize = 0;
    while i < words.len()
        invariant
            i <= words.len(),
            forall|j: int| 0 <= j < i ==> !is_flag(#[trigger] text::texts(words@)[j]),
        decreases words.len() - i,
    {
        if text::after(words[i].as_str(), "--").is_some() {
            assert(is_flag(text::texts(words@)[i as int]));
            return true;
        }
        i = i + 1;
    }
    false
}

/// What follows `key=` in the first word, after the verb, that begins with it.
fn option_of(words: &Vec<String>, key: &str) -> (r: Option<String>)
    requires
        words.len() > 0,
    ensures
        match r {
            Some(value) => option(text::texts(words@).skip(1), key@) == Some(value@),
            None => option(text::texts(words@).skip(1), key@) is None,
        },
{
    let ghost all = text::texts(words@);
    let mut start = key.to_owned();
    start.append("=");
    let mut i: usize = 1;
    while i < words.len()
        invariant
            1 <= i <= words.len(),
            all == text::texts(words@),
            start@ == key@ + "="@,
            option(all.skip(1), key@) == option(all.skip(i as int), key@),
        decreases words.len() - i,
    {
        proof {
            reveal_strlit("=");
            assert(all.skip(i as int).drop_first() =~= all.skip(i + 1));
            assert(all.skip(i as int)[0] == words@[i as int]@);
        }
        match text::after(words[i].as_str(), start.as_str()) {
            Some(value) => {
                return Some(value);
            },
            None => {},
        }
        i = i + 1;
    }
    None
}

/// The words after the verb that are not `key=value` pairs.
fn positional_of(words: &Vec<String>) -> (out: Vec<String>)
    requires
        words.len() > 0,
    ensures
        text::texts(out@) == positional(text::texts(words@).skip(1)),
{
    let ghost rest = text::texts(words@).skip(1);
    let mut out: Vec<String> = Vec::new();
    let mut i: usize = 1;
    proof {
        reveal(Seq::filter);
        assert(rest.take(0) =~= Seq::<Seq<char>>::empty());
        assert(text::texts(out@) =~= positional(rest.take(0)));
    }
    while i < words.len()
        invariant
            1 <= i <= words.len(),
            rest == text::texts(words@).skip(1),
            text::texts(out@) == positional(rest.take(i - 1)),
        decreases words.len() - i,
    {
        let ghost before = out@;
        proof {
            reveal(Seq::filter);
            assert(rest.take(i as int).drop_last() =~= rest.take(i - 1));
            assert(rest.take(i as int).last() == words@[i as int]@);
        }
        if !text::holds(words[i].as_str(), '=') {
            out.push(words[i].clone());
            assert(text::texts(out@) =~= text::texts(before).push(words@[i as int]@));
        }
        i = i + 1;
    }
    assert(rest.take(rest.len() as int) =~= rest);
    out
}

/// Reads the words of a question about usage.
fn parse_usage(words: &Vec<String>, now: Instant, zone: Zone) -> (r: Result<Request, Refusal>)
    requires
        now.valid(),
        zone.valid(),
        words.len() > 0,
        span_fits(word_or(positional(text::texts(words@).skip(1)), 0, "today"@), now, zone),
    ensures
        match r {
            Ok(q) => usage_request(text::texts(words@).skip(1), now, zone) == Ok::<
                RequestView,
                Seq<char>,
            >(q@) && q.valid(),
            Err(why) => usage_request(text::texts(words@).skip(1), now, zone) == Err::<
                RequestView,
                Seq<char>,
            >(why.0@),
        },
{
    let places = positional_of(words);
    let period = if places.len() > 0 {
        places[0].as_str()
    } else {
        "today"
    };
    let span = match span_of(period, now, zone) {
        Ok(span) => span,
        Err(why) => {
            return Err(why);
        },
    };
    match option_of(words, "kind") {
        None => Ok(Request::Usage { span, kind: Kind::Circuits }),
        Some(word) => match Kind::parse(word.as_str()) {
            Some(kind) => Ok(Request::Usage { span, kind }),
            None => {
                let mut why = "`kind=".to_owned();
                why.append(word.as_str());
                why.append("` is not one of `circuits`, `merged`, `branch` or `main`.");
                Err(Refusal(why))
            },
        },
    }
}

/// Reads the words of a question about one circuit.
fn parse_series(words: &Vec<String>, now: Instant, zone: Zone) -> (r: Result<Request, Refusal>)
    requires
        now.valid(),
        zone.valid(),
        words.len() > 0,
        positional(text::texts(words@).skip(1)).len() > 0 ==> span_fits(
            word_or(positional(text::texts(words@).skip(1)), 1, "today"@),
            now,
            zone,
        ),
    ensures
        match r {
            Ok(q) => series_request(text::texts(words@).skip(1), now, zone) == Ok::<
                RequestView,
                Seq<char>,
            >(q@) && q.valid(),
            Err(why) => series_request(text::texts(words@).skip(1), now, zone) == Err::<
                RequestView,
                Seq<char>,
            >(why.0@),
        },
{
    let places = positional_of(words);
    if places.len() == 0 {
        return Err(Refusal(NO_CIRCUIT.to_owned()));
    }
    let period = if places.len() > 1 {
        places[1].as_str()
    } else {
        "today"
    };
    assert(text::texts(places@)[0] == places@[0]@);
    let query = places[0].clone();
    let span = match span_of(period, now, zone) {
        Ok(span) => span,
        Err(why) => {
            return Err(why);
        },
    };
    match option_of(words, "scale") {
        // An hour a point keeps a day inside `MAX_ROWS`, where minutes would
        // truncate a day at a third of it.
        None => Ok(Request::Series { query, span, scale: Scale::Hour }),
        Some(word) => match scale_of(word.as_str()) {
            Ok(scale) => Ok(Request::Series { query, span, scale }),
            Err(why) => Err(why),
        },
    }
}

/// Turns the words of an invocation into a request.
///
/// The moment and the zone are passed in, so "yesterday" is a function of them.
pub fn parse(args: &[String], now: Instant, zone: Zone) -> (r: Result<Request, Refusal>)
    requires
        now.valid(),
        zone.valid(),
        period_asked(text::texts(args@)) matches Some(word) ==> span_fits(word, now, zone),
    ensures
        match r {
            Ok(q) => parsed(text::texts(args@), now, zone) == Ok::<RequestView, Seq<char>>(q@)
                && q.valid(),
            Err(why) => parsed(text::texts(args@), now, zone) == Err::<RequestView, Seq<char>>(why.0@),
        },
{
    let words = words_of(args);
    if any_flag(&words) {
        return Err(Refusal(NO_FLAGS.to_owned()));
    }
    if words.len() == 0 {
        return Err(Refusal(NO_VERB.to_owned()));
    }
    let verb = words[0].as_str();
    assert(verb@ == text::texts(words@)[0]);
    if text::same(verb, "describe") || text::same(verb, "help") {
        Ok(Request::Describe)
    } else if text::same(verb, "channels") || text::same(verb, "circuits") {
        Ok(Request::Channels)
    } else if text::same(verb, "now") || text::same(verb, "current") || text::same(verb, "live") {
        Ok(Request::Now)
    } else if text::same(verb, "usage") || text::same(verb, "energy") {
        parse_usage(&words, now, zone)
    } else if text::same(verb, "series") || text::same(verb, "history") {
        parse_series(&words, now, zone)
    } else {
        let mut why = "`".to_owned();
        why.append(verb);
        why.append("` is not a dynamo verb. `describe` lists them.");
        Err(Refusal(why))
    }
}

pub const SUMMARY: &'static str =
    "Household electricity, measured per circuit by three panel monitors and \
     kept minute by minute. Read-only.";

pub const CHANNELS_DOES: &'static str =
    "every circuit that is measured, with the name it was given and which \
     monitor it is on";

pub const NOW_DOES: &'static str =
    "what each circuit is drawing right now, in watts, newest reading";

pub const USAGE_ARGS: &'static str = "<period> [kind=circuits|merged|branch|main]";

pub const USAGE_DOES: &'static str = "energy by circuit over a period, in kWh, biggest first";

pub const SERIES_ARGS: &'static str = "<circuit> <period> [scale=1MIN|15MIN|1H|1D]";

pub const MERGED_NOTE: &'static str =
    "A merged channel is the sum of two branch legs — the two halves of a 240 V \
     circuit. kind=circuits is the default and counts each circuit once; adding \
     merged and branch figures together double-counts every large appliance.";

pub const MAINS_NOTE: &'static str =
    "Only one of the three monitors has mains CTs, so a whole-house total from \
     kind=main covers that panel and not the others.";

pub const RETENTION_NOTE: &'static str =
    "Minute resolution goes back about a week before this was installed and \
     indefinitely after; hourly and daily reach back to January 2025.";

/// One verb in the description of the interface.
pub open spec fn verb_view(verb: Seq<char>, args: Seq<char>, does: Seq<char>) -> JsonView {
    JsonView::Object(
        seq![
            ("verb"@, JsonView::Text(verb)),
            ("args"@, JsonView::Text(args)),
            ("does"@, JsonView::Text(does)),
        ],
    )
}

/// The description of the interface.
pub open spec fn described() -> JsonView {
    JsonView::Object(
        seq![
            ("ok"@, JsonView::Bool(true)),
            ("tool"@, JsonView::Text("dynamo"@)),
            ("summary"@, JsonView::Text(SUMMARY@)),
            ("reads_only"@, JsonView::Bool(true)),
            (
                "verbs"@,
                JsonView::List(
                    seq![
                        verb_view("describe"@, ""@, "this"@),
                        verb_view("channels"@, ""@, CHANNELS_DOES@),
                        verb_view("now"@, ""@, NOW_DOES@),
                        verb_view("usage"@, USAGE_ARGS@, USAGE_DOES@),
                        verb_view("series"@, SERIES_ARGS@, "one circuit's readings over a period"@),
                    ],
                ),
            ),
            (
                "periods"@,
                JsonView::List(
                    seq![
                        JsonView::Text("today"@),
                        JsonView::Text("yesterday"@),
                        JsonView::Text("week"@),
                        JsonView::Text("month"@),
                        JsonView::Text("year"@),
                        JsonView::Text("all"@),
                    ],
                ),
            ),
            (
                "notes"@,
                JsonView::List(
                    seq![
                        JsonView::Text(MERGED_NOTE@),
                        JsonView::Text(MAINS_NOTE@),
                        JsonView::Text(RETENTION_NOTE@),
                    ],
                ),
            ),
        ],
    )
}

/// One verb in the description of the interface.
fn verb_json(verb: &str, args: &str, does: &str) -> (j: Json)
    ensures
        j@ == verb_view(verb@, args@, does@),
{
    let mut o = json::no_fields();
    json::put(&mut o, "verb", json::text(verb));
    json::put(&mut o, "args", json::text(args));
    json::put(&mut o, "does", json::text(does));
    assert(json::fields(o@) =~= verb_view(verb@, args@, does@)->Object_0);
    json::object(o)
}

/// What `describe` answers: the authority on this interface.
pub fn describe() -> (j: Json)
    ensures
        j@ == described(),
{
    let mut verbs = json::no_items();
    json::add_item(&mut verbs, verb_json("describe", "", "this"));
    json::add_item(&mut verbs, verb_json("channels", "", CHANNELS_DOES));
    json::add_item(&mut verbs, verb_json("now", "", NOW_DOES));
    json::add_item(&mut verbs, verb_json("usage", USAGE_ARGS, USAGE_DOES));
    json::add_item(
        &mut verbs,
        verb_json("series", SERIES_ARGS, "one circuit's readings over a period"),
    );
    let mut periods = json::no_items();
    json::add_item(&mut periods, json::text("today"));
    json::add_item(&mut periods, json::text("yesterday"));
    json::add_item(&mut periods, json::text("week"));
    json::add_item(&mut periods, json::text("month"));
    json::add_item(&mut periods, json::text("year"));
    json::add_item(&mut periods, json::text("all"));
    let mut notes = json::no_items();
    json::add_item(&mut notes, json::text(MERGED_NOTE));
    json::add_item(&mut notes, json::text(MAINS_NOTE));
    json::add_item(&mut notes, json::text(RETENTION_NOTE));
    let mut o = json::no_fields();
    json::put(&mut o, "ok", json::boolean(true));
    json::put(&mut o, "tool", json::text("dynamo"));
    json::put(&mut o, "summary", json::text(SUMMARY));
    json::put(&mut o, "reads_only", json::boolean(true));
    json::put(&mut o, "verbs", json::list(verbs));
    json::put(&mut o, "periods", json::list(periods));
    json::put(&mut o, "notes", json::list(notes));
    proof {
        let whole = described()->Object_0;
        assert(json::items(verbs@) =~= whole[4].1->List_0);
        assert(json::items(periods@) =~= whole[5].1->List_0);
        assert(json::items(notes@) =~= whole[6].1->List_0);
        assert(json::fields(o@) =~= whole);
    }
    json::object(o)
}

proof fn lemma_agent_is_a_plain_word()
    ensures
        !text::is_blank("agent"@),
        !is_flag("agent"@),
{
    reveal_strlit("agent");
    reveal_strlit("--");
    assert(!text::is_white("agent"@[0]));
    assert("agent"@.take(2)[0] == 'a');
}

proof fn lemma_a_flag_is_spoken(word: Seq<char>)
    requires
        is_flag(word),
    ensures
        !text::is_blank(word),
        word != "agent"@,
{
    reveal_strlit("--");
    assert(word.take(2)[0] == '-');
    assert(!text::is_white(word[0]));
    lemma_agent_is_a_plain_word();
}

/// A leading `agent` changes nothing, unless the words proper begin with
/// `agent` themselves.
pub proof fn law_the_fixed_prefix_is_tolerated(
    args: Seq<Seq<char>>,
    now: Instant,
    zone: Zone,
)
    requires
        spoken(args).len() > 0 ==> spoken(args)[0] != "agent"@,
    ensures
        parsed(seq!["agent"@] + args, now, zone) == parsed(args, now, zone),
        period_asked(seq!["agent"@] + args) == period_asked(args),
{
    let p = |w: Seq<char>| !text::is_blank(w);
    lemma_agent_is_a_plain_word();
    Seq::filter_distributes_over_add(seq!["agent"@], args, p);
    reveal(Seq::filter);
    assert(seq!["agent"@].drop_last() =~= Seq::<Seq<char>>::empty());
    assert(seq!["agent"@].filter(p) =~= seq!["agent"@]);
    assert(spoken(seq!["agent"@] + args) =~= seq!["agent"@] + spoken(args));
    assert((seq!["agent"@] + spoken(args)).skip(1) =~= spoken(args));
}

/// A word of nothing but white space changes nothing, wherever it stands.
pub proof fn law_blank_words_change_nothing(
    before: Seq<Seq<char>>,
    blank: Seq<char>,
    after: Seq<Seq<char>>,
    now: Instant,
    zone: Zone,
)
    requires
        text::is_blank(blank),
    ensures
        parsed(before + seq![blank] + after, now, zone) == parsed(before + after, now, zone),
        period_asked(before + seq![blank] + after) == period_asked(before + after),
{
    let p = |w: Seq<char>| !text::is_blank(w);
    Seq::filter_distributes_over_add(before + seq![blank], after, p);
    Seq::filter_distributes_over_add(before, seq![blank], p);
    Seq::filter_distributes_over_add(before, after, p);
    reveal_with_fuel(Seq::filter, 2);
    assert(seq![blank].drop_last() =~= Seq::<Seq<char>>::empty());
    assert(seq![blank].filter(p) =~= Seq::<Seq<char>>::empty());
    assert(spoken(before + seq![blank] + after) =~= spoken(before + after));
}

/// A flag anywhere refuses the whole invocation, whatever else it says.
pub proof fn law_a_flag_is_always_refused(
    args: Seq<Seq<char>>,
    i: int,
    now: Instant,
    zone: Zone,
)
    requires
        0 <= i < args.len(),
        is_flag(args[i]),
    ensures
        parsed(args, now, zone) == Err::<RequestView, Seq<char>>(NO_FLAGS@),
{
    let p = |w: Seq<char>| !text::is_blank(w);
    lemma_a_flag_is_spoken(args[i]);
    let words = spoken(args);
    args.lemma_filter_contains(p, i);
    let k = choose|k: int| 0 <= k < words.len() && words[k] == args[i];
    if words[0] == "agent"@ {
        assert(k > 0);
        assert(meant(args)[k - 1] == args[i]);
    } else {
        assert(meant(args)[k] == args[i]);
    }
}

/// The words that a request can begin with.
pub open spec fn is_verb(word: Seq<char>) -> bool {
    ||| word == "describe"@
    ||| word == "help"@
    ||| word == "channels"@
    ||| word == "circuits"@
    ||| word == "now"@
    ||| word == "current"@
    ||| word == "live"@
    ||| asks_usage(word)
    ||| asks_series(word)
}

/// An unknown verb is refused by its name, and never guessed at.
pub proof fn law_an_unknown_verb_is_refused(args: Seq<Seq<char>>, now: Instant, zone: Zone)
    requires
        !has_flag(meant(args)),
        meant(args).len() > 0,
        !is_verb(meant(args)[0]),
    ensures
        parsed(args, now, zone) == Err::<RequestView, Seq<char>>(not_a_verb(meant(args)[0])),
{
}

/// Yesterday is exactly the local day before today: it ends where today
/// begins, and lasts one day.
pub proof fn law_yesterday_is_the_day_before_today(now: Instant, zone: Zone)
    ensures
        span_named("yesterday"@, now, zone) matches Some(span) && span.to == today(now, zone)
            && span.to - span.from == time::days(1) && span_named("today"@, now, zone) == Some(
            SpanView { from: span.to, to: now@, named: "today"@ },
        ),
{
    reveal_strlit("today");
    reveal_strlit("yesterday");
    assert("today"@.len() != "yesterday"@.len());
}

/// Every period that is counted in days begins at a midnight of the local clock.
pub proof fn law_days_begin_at_local_midnight(word: Seq<char>, now: Instant, zone: Zone)
    requires
        span_named(word, now, zone) is Some,
        word != "all"@,
        word != "ever"@,
        now.day_start(zone) is Some,
    ensures
        span_named(word, now, zone)->0.from % (time::NANOS as int) == 0,
        (span_named(word, now, zone)->0.from / (time::NANOS as int) + zone.east) % 86_400 == 0,
{
    let day = time::local_day(now.second(), zone.east as int);
    let from = span_named(word, now, zone)->0.from;
    let k = choose|k: int|
        (k == 0 || k == 1 || k == 6 || k == 29 || k == 364) && from == today(now, zone) - #[trigger] time::days(k);
    assert(today(now, zone) - time::days(0) == today(now, zone));
    assert(from == today(now, zone) - time::days(k));
    let secs = (day - k) * 86_400 - zone.east;
    assert(from == secs * time::NANOS);
}

/// No period reaches past the present, and none ends before it begins; for all
/// of history, the present has to lie after its start.
pub proof fn law_periods_end_by_now(word: Seq<char>, now: Instant, zone: Zone)
    requires
        span_named(word, now, zone) is Some,
        word == "all"@ || word == "ever"@ ==> now@ >= time::seconds(EPOCH_OF_ALL as int),
    ensures
        span_named(word, now, zone)->0.from <= span_named(word, now, zone)->0.to <= now@,
{
    if now.day_start(zone) is Some {
        time::law_midnight_starts_the_day(now, zone);
    }
}

/// Every period can be asked about from any moment that lies a year and two
/// days after the first that can be represented, or later.
pub proof fn law_every_period_can_be_asked_about(word: Seq<char>, now: Instant, zone: Zone)
    requires
        now.valid(),
        zone.valid(),
        now@ >= time::seconds(time::MIN_SECONDS as int) + time::days(367),
    ensures
        span_fits(word, now, zone),
{
    if now.day_start(zone) is Some {
        time::law_midnight_starts_the_day(now, zone);
    }
}

/// A question about usage that names neither period nor kind is about today,
/// and counts each circuit once.
pub proof fn law_usage_is_of_today_and_counts_circuits_once(
    args: Seq<Seq<char>>,
    now: Instant,
    zone: Zone,
)
    requires
        meant(args).len() > 0,
        !has_flag(meant(args)),
        asks_usage(meant(args)[0]),
        positional(meant(args).skip(1)).len() == 0,
        option(meant(args).skip(1), "kind"@) is None,
    ensures
        parsed(args, now, zone) == Ok::<RequestView, Seq<char>>(
            RequestView::Usage {
                span: SpanView { from: today(now, zone), to: now@, named: "today"@ },
                kind: Kind::Circuits,
            },
        ),
{
    lemma_verbs_differ(meant(args)[0]);
}

/// A question about one circuit that names no scale is answered by the hour.
pub proof fn law_a_series_is_hourly(args: Seq<Seq<char>>, now: Instant, zone: Zone)
    requires
        meant(args).len() > 0,
        !has_flag(meant(args)),
        asks_series(meant(args)[0]),
        option(meant(args).skip(1), "scale"@) is None,
        parsed(args, now, zone) is Ok,
    ensures
        parsed(args, now, zone)->Ok_0 matches RequestView::Series { scale, .. } && scale
            == Scale::Hour,
{
    lemma_verbs_differ(meant(args)[0]);
}

/// The verbs of the questions that take a period are no other verb's name.
proof fn lemma_verbs_differ(verb: Seq<char>)
    requires
        asks_usage(verb) || asks_series(verb),
    ensures
        verb != "describe"@ && verb != "help"@ && verb != "channels"@ && verb != "circuits"@
            && verb != "now"@ && verb != "current"@ && verb != "live"@,
        asks_series(verb) ==> !asks_usage(verb),
{
    reveal_strlit("usage");
    reveal_strlit("energy");
    reveal_strlit("series");
    reveal_strlit("history");
    reveal_strlit("describe");
    reveal_strlit("help");
    reveal_strlit("channels");
    reveal_strlit("circuits");
    reveal_strlit("now");
    reveal_strlit("current");
    reveal_strlit("live");
    assert("usage"@[0] == 'u' && "energy"@[0] == 'e' && "series"@[0] == 's' && "history"@[0]
        == 'h');
    assert("describe"@[0] == 'd' && "channels"@[0] == 'c' && "circuits"@[0] == 'c' && "now"@[0]
        == 'n' && "current"@[0] == 'c' && "live"@[0] == 'l');
    assert("help"@.len() == 4 && "history"@.len() == 7);
}

/// A period is named by the word that was typed, and every word that is none of
/// the periods names none.
pub proof fn law_a_period_is_named_as_it_was_typed(word: Seq<char>, now: Instant, zone: Zone)
    ensures
        span_named(word, now, zone) is Some <==> is_period(word),
        span_named(word, now, zone) matches Some(span) ==> span.named == word,
{
}

/// The words for the periods are no other period's.
proof fn lemma_periods_differ()
    ensures
        "yesterday"@ != "today"@,
        "week"@ != "today"@ && "week"@ != "yesterday"@,
        "7d"@ != "today"@ && "7d"@ != "yesterday"@,
        "month"@ != "today"@ && "month"@ != "yesterday"@ && "month"@ != "week"@ && "month"@
            != "7d"@,
        "30d"@ != "today"@ && "30d"@ != "yesterday"@ && "30d"@ != "week"@ && "30d"@ != "7d"@,
        "year"@ != "today"@ && "year"@ != "yesterday"@ && "year"@ != "week"@ && "year"@ != "7d"@
            && "year"@ != "month"@ && "year"@ != "30d"@,
        "365d"@ != "today"@ && "365d"@ != "yesterday"@ && "365d"@ != "week"@ && "365d"@ != "7d"@
            && "365d"@ != "month"@ && "365d"@ != "30d"@,
        "all"@ != "today"@ && "all"@ != "yesterday"@ && "all"@ != "week"@ && "all"@ != "7d"@
            && "all"@ != "month"@ && "all"@ != "30d"@ && "all"@ != "year"@ && "all"@ != "365d"@,
        "ever"@ != "today"@ && "ever"@ != "yesterday"@ && "ever"@ != "week"@ && "ever"@ != "7d"@
            && "ever"@ != "month"@ && "ever"@ != "30d"@ && "ever"@ != "year"@ && "ever"@
            != "365d"@,
{
    reveal_strlit("today");
    reveal_strlit("yesterday");
    reveal_strlit("week");
    reveal_strlit("7d");
    reveal_strlit("month");
    reveal_strlit("30d");
    reveal_strlit("year");
    reveal_strlit("365d");
    reveal_strlit("all");
    reveal_strlit("ever");
    assert("yesterday"@.len() == 9 && "year"@.len() == 4);
    assert("30d"@.len() == 3 && "365d"@.len() == 4);
    assert("today"@[0] == 't' && "yesterday"@[0] == 'y' && "week"@[0] == 'w' && "7d"@[0] == '7'
        && "month"@[0] == 'm' && "30d"@[0] == '3' && "year"@[0] == 'y' && "365d"@[0] == '3'
        && "all"@[0] == 'a' && "ever"@[0] == 'e');
}

/// Where every period begins and ends, from any moment that lies more than a day
/// inside the years that can be represented. Today began at the midnight of the
/// local clock before the moment, less than a day ago, and runs to it; yesterday
/// is the day before that; the longer periods begin whole days before today did;
/// all of it begins with the year 2000; and no other word is a period.
pub proof fn law_every_period_is_where_it_says(word: Seq<char>, now: Instant, zone: Zone)
    requires
        zone.valid(),
        time::MIN_SECONDS + 2 * time::DAY <= now.second() <= time::MAX_SECONDS - 2 * time::DAY,
    ensures
        ({
            let d0 = today(now, zone);
            let from = |word: Seq<char>, from: int, to: int|
                span_named(word, now, zone) == Some(SpanView { from, to, named: word });
            &&& d0 <= now@ < d0 + time::days(1)
            &&& d0 % (time::NANOS as int) == 0
            &&& (d0 / (time::NANOS as int) + zone.east) % 86_400 == 0
            &&& from("today"@, d0, now@)
            &&& from("yesterday"@, d0 - time::days(1), d0)
            &&& from("week"@, d0 - time::days(6), now@)
            &&& from("7d"@, d0 - time::days(6), now@)
            &&& from("month"@, d0 - time::days(29), now@)
            &&& from("30d"@, d0 - time::days(29), now@)
            &&& from("year"@, d0 - time::days(364), now@)
            &&& from("365d"@, d0 - time::days(364), now@)
            &&& from("all"@, time::seconds(EPOCH_OF_ALL as int), now@)
            &&& from("ever"@, time::seconds(EPOCH_OF_ALL as int), now@)
            &&& !is_period(word) ==> span_named(word, now, zone) is None
        }),
{
    lemma_periods_differ();
    assert(now.day_start(zone) is Some);
    time::law_midnight_starts_the_day(now, zone);
    law_days_begin_at_local_midnight("today"@, now, zone);
}

/// A word names a scale exactly where it is that scale's name up to the case of
/// its letters, and then no other scale's.
pub proof fn law_a_scale_is_named_in_any_case(word: Seq<char>, scale: Scale)
    ensures
        text::same_letters(scale.name(), word) <==> scale_named(word) == Some(scale),
{
    reveal_strlit("1MIN");
    reveal_strlit("15MIN");
    reveal_strlit("1H");
    reveal_strlit("1D");
    assert("1MIN"@.len() == 4 && "15MIN"@.len() == 5 && "1H"@.len() == 2 && "1D"@.len() == 2);
    assert(text::lower("1H"@[1]) == 'h' && text::lower("1D"@[1]) == 'd');
    if text::same_letters("1H"@, word) {
        assert(text::lower(word[1]) == 'h');
    }
    if text::same_letters("1D"@, word) {
        assert(text::lower("1D"@[1]) == text::lower(word[1]));
    }
}

/// The words that are spoken are those that hold more than white space, in their
/// order; of these a leading `agent` is not meant, and all others are.
pub proof fn law_which_words_are_meant(args: Seq<Seq<char>>, word: Seq<char>)
    ensures
        spoken(Seq::empty()).len() == 0,
        spoken(args.push(word)) == (if text::trimmed(word).len() == 0 {
            spoken(args)
        } else {
            spoken(args).push(word)
        }),
        spoken(args).len() > 0 && spoken(args)[0] == "agent"@ ==> meant(args) == spoken(
            args,
        ).drop_first(),
        spoken(args).len() == 0 || spoken(args)[0] != "agent"@ ==> meant(args) == spoken(args),
{
    reveal(Seq::filter);
    text::law_a_blank_text_trims_to_nothing(word);
    assert(args.push(word).drop_last() =~= args);
    assert(spoken(args).skip(1) =~= spoken(args).drop_first()) by {
        assert(spoken(args).len() == 0 ==> spoken(args).skip(1).len() == spoken(
            args,
        ).drop_first().len());
    }
}

/// A word is a flag exactly where it begins with two hyphens.
pub proof fn law_what_a_flag_is(words: Seq<Seq<char>>)
    ensures
        has_flag(words) <==> exists|i: int|
            0 <= i < words.len() && (#[trigger] words[i]).len() >= 2 && words[i][0] == '-'
                && words[i][1] == '-',
{
    reveal_strlit("--");
    assert forall|i: int| 0 <= i < words.len() implies (is_flag(#[trigger] words[i]) <==> (
    words[i].len() >= 2 && words[i][0] == '-' && words[i][1] == '-')) by {
        let w = words[i];
        if is_flag(w) {
            assert(w.take(2)[0] == '-' && w.take(2)[1] == '-');
        }
        if w.len() >= 2 && w[0] == '-' && w[1] == '-' {
            assert(w.take(2) =~= "--"@);
        }
    }
    if has_flag(words) {
        let i = choose|i: int| 0 <= i < words.len() && is_flag(#[trigger] words[i]);
        assert(words[i].len() >= 2);
    }
}

/// The positional words are those without an equals sign, in their order.
pub proof fn law_which_words_are_positional(words: Seq<Seq<char>>, word: Seq<char>)
    ensures
        positional(Seq::empty()).len() == 0,
        positional(words.push(word)) == (if word.contains('=') {
            positional(words)
        } else {
            positional(words).push(word)
        }),
{
    reveal(Seq::filter);
    assert(words.push(word).drop_last() =~= words);
}

/// An option has the value that follows its name and an equals sign in the first
/// word that begins so, and none where no word does.
pub proof fn law_an_option_is_the_first_of_its_name(
    words: Seq<Seq<char>>,
    key: Seq<char>,
    value: Seq<char>,
    i: int,
)
    ensures
        0 <= i < words.len() && words[i] == key + seq!['='] + value && (forall|j: int|
            0 <= j < i ==> !text::begins_with(#[trigger] words[j], key + seq!['=']))
            ==> option(words, key) == Some(value),
        (forall|j: int|
            0 <= j < words.len() ==> !text::begins_with(#[trigger] words[j], key + seq!['=']))
            ==> option(words, key) is None,
    decreases words.len(),
{
    reveal_strlit("=");
    assert("="@ =~= seq!['=']);
    if words.len() > 0 {
        let rest = words.drop_first();
        law_an_option_is_the_first_of_its_name(rest, key, value, i - 1);
        let start = key + seq!['='];
        if 0 <= i < words.len() && words[i] == start + value && (forall|j: int|
            0 <= j < i ==> !text::begins_with(#[trigger] words[j], start)) {
            if i == 0 {
                text::law_a_beginning_leaves_a_rest(start, value, words[0]);
            } else {
                assert(!text::begins_with(words[0], start));
                assert forall|j: int| 0 <= j < i - 1 implies !text::begins_with(
                    #[trigger] rest[j],
                    start,
                ) by {
                    assert(rest[j] == words[j + 1]);
                }
            }
        }
        if forall|j: int|
            0 <= j < words.len() ==> !text::begins_with(#[trigger] words[j], start) {
            assert(!text::begins_with(words[0], start));
            assert forall|j: int| 0 <= j < rest.len() implies !text::begins_with(
                #[trigger] rest[j],
                start,
            ) by {
                assert(rest[j] == words[j + 1]);
            }
        }
    }
}

proof fn lemma_plain_verbs_differ()
    ensures
        "channels"@ != "describe"@ && "channels"@ != "help"@,
        "circuits"@ != "describe"@ && "circuits"@ != "help"@,
        "now"@ != "describe"@ && "now"@ != "help"@ && "now"@ != "channels"@ && "now"@
            != "circuits"@,
        "current"@ != "describe"@ && "current"@ != "help"@ && "current"@ != "channels"@
            && "current"@ != "circuits"@,
        "live"@ != "describe"@ && "live"@ != "help"@ && "live"@ != "channels"@ && "live"@
            != "circuits"@,
{
    reveal_strlit("describe");
    reveal_strlit("help");
    reveal_strlit("channels");
    reveal_strlit("circuits");
    reveal_strlit("now");
    reveal_strlit("current");
    reveal_strlit("live");
    assert("describe"@[0] == 'd' && "help"@[0] == 'h' && "channels"@[0] == 'c' && "circuits"@[0]
        == 'c' && "now"@[0] == 'n' && "current"@[0] == 'c' && "live"@[0] == 'l');
    assert("current"@.len() == 7 && "channels"@.len() == 8 && "circuits"@.len() == 8);
}

/// Each verb that takes no period asks for its own thing, whatever follows it.
pub proof fn law_each_verb_asks_for_its_own(args: Seq<Seq<char>>, now: Instant, zone: Zone)
    requires
        meant(args).len() > 0,
        !has_flag(meant(args)),
    ensures
        ({
            let verb = meant(args)[0];
            &&& verb == "describe"@ || verb == "help"@ ==> parsed(args, now, zone) == Ok::<
                RequestView,
                Seq<char>,
            >(RequestView::Describe)
            &&& verb == "channels"@ || verb == "circuits"@ ==> parsed(args, now, zone) == Ok::<
                RequestView,
                Seq<char>,
            >(RequestView::Channels)
            &&& verb == "now"@ || verb == "current"@ || verb == "live"@ ==> parsed(args, now, zone)
                == Ok::<RequestView, Seq<char>>(RequestView::Now)
        }),
{
    lemma_plain_verbs_differ();
}

/// No words at all are refused, and so is a word that is none of the verbs.
pub proof fn law_nothing_is_guessed_at(args: Seq<Seq<char>>, now: Instant, zone: Zone)
    requires
        !has_flag(meant(args)),
    ensures
        meant(args).len() == 0 ==> parsed(args, now, zone) == Err::<RequestView, Seq<char>>(
            "`dynamo` needs a verb. `describe` lists them, `channels` says what is measured, `now` is the current draw, `usage <period>` totals energy by circuit."@,
        ),
        meant(args).len() > 0 ==> ({
            let verb = meant(args)[0];
            verb != "describe"@ && verb != "help"@ && verb != "channels"@ && verb != "circuits"@
                && verb != "now"@ && verb != "current"@ && verb != "live"@ && verb != "usage"@
                && verb != "energy"@ && verb != "series"@ && verb != "history"@ ==> parsed(
                args,
                now,
                zone,
            ) == Err::<RequestView, Seq<char>>(
                "`"@ + verb + "` is not a dynamo verb. `describe` lists them."@,
            )
        }),
{
}

/// A question about usage is about the period that its first positional word
/// names, or today where it has none, and about the kind that its option names, or
/// circuits where it has none. A word that names none is refused by name, the
/// period before the kind.
pub proof fn law_usage_is_of_the_period_and_the_kind_typed(
    args: Seq<Seq<char>>,
    now: Instant,
    zone: Zone,
    period: Seq<char>,
)
    requires
        meant(args).len() > 0,
        !has_flag(meant(args)),
        meant(args)[0] == "usage"@ || meant(args)[0] == "energy"@,
        period == (if positional(meant(args).drop_first()).len() > 0 {
            positional(meant(args).drop_first())[0]
        } else {
            "today"@
        }),
    ensures
        ({
            let got = parsed(args, now, zone);
            let kind = option(meant(args).drop_first(), "kind"@);
            &&& span_named(period, now, zone) is None ==> got == Err::<RequestView, Seq<char>>(
                "`"@ + period
                    + "` is not a period. Use `today`, `yesterday`, `week`, `month`, `year` or `all`."@,
            )
            &&& span_named(period, now, zone) matches Some(span) ==> {
                &&& kind is None ==> got == Ok::<RequestView, Seq<char>>(
                    RequestView::Usage { span, kind: Kind::Circuits },
                )
                &&& kind matches Some(word) ==> {
                    &&& kind_named(word) matches Some(k) ==> got == Ok::<RequestView, Seq<char>>(
                        RequestView::Usage { span, kind: k },
                    )
                    &&& kind_named(word) is None ==> got == Err::<RequestView, Seq<char>>(
                        "`kind="@ + word
                            + "` is not one of `circuits`, `merged`, `branch` or `main`."@,
                    )
                }
            }
        }),
{
    lemma_verbs_differ(meant(args)[0]);
    assert(meant(args).skip(1) =~= meant(args).drop_first());
}

/// A question about one circuit is about what its first positional word calls it,
/// over the period that its second names, or today where it has none, at the scale
/// that its option names, or by the hour where it has none. One without a circuit is
/// refused, and then a word that names no period, and then one that names no scale.
pub proof fn law_a_series_is_of_the_circuit_and_the_period_typed(
    args: Seq<Seq<char>>,
    now: Instant,
    zone: Zone,
    words: Seq<Seq<char>>,
    period: Seq<char>,
)
    requires
        meant(args).len() > 0,
        !has_flag(meant(args)),
        meant(args)[0] == "series"@ || meant(args)[0] == "history"@,
        words == positional(meant(args).drop_first()),
        period == (if words.len() > 1 {
            words[1]
        } else {
            "today"@
        }),
    ensures
        ({
            let got = parsed(args, now, zone);
            let scale = option(meant(args).drop_first(), "scale"@);
            &&& words.len() == 0 ==> got == Err::<RequestView, Seq<char>>(
                "`series` needs a circuit to look at — a name like `Water Heater`, or a channel like `422818/4`. `channels` lists them."@,
            )
            &&& words.len() > 0 && span_named(period, now, zone) is None ==> got == Err::<
                RequestView,
                Seq<char>,
            >(
                "`"@ + period
                    + "` is not a period. Use `today`, `yesterday`, `week`, `month`, `year` or `all`."@,
            )
            &&& words.len() > 0 ==> (span_named(period, now, zone) matches Some(span) ==> {
                &&& scale is None ==> got == Ok::<RequestView, Seq<char>>(
                    RequestView::Series { query: words[0], span, scale: Scale::Hour },
                )
                &&& scale matches Some(word) ==> {
                    &&& scale_named(word) matches Some(s) ==> got == Ok::<RequestView, Seq<char>>(
                        RequestView::Series { query: words[0], span, scale: s },
                    )
                    &&& scale_named(word) is None ==> got == Err::<RequestView, Seq<char>>(
                        "`scale="@ + word + "` is not one of `1MIN`, `15MIN`, `1H` or `1D`."@,
                    )
                }
            })
        }),
{
    lemma_verbs_differ(meant(args)[0]);
    assert(meant(args).skip(1) =~= meant(args).drop_first());
}

/// A word that is typed as it is meant: not blank, no flag and no option.
spec fn is_plain(word: Seq<char>) -> bool {
    &&& text::trimmed(word).len() > 0
    &&& !(word.len() >= 2 && word[0] == '-' && word[1] == '-')
    &&& !word.contains('=')
}

proof fn lemma_plain_words_are_meant(words: Seq<Seq<char>>)
    requires
        words.len() > 0,
        words[0] != "agent"@,
        forall|i: int| 0 <= i < words.len() ==> is_plain(#[trigger] words[i]),
    ensures
        meant(words) == words,
        !has_flag(words),
        positional(words.drop_first()) == words.drop_first(),
        forall|key: Seq<char>| #[trigger] option(words.drop_first(), key) is None,
{
    assert forall|i: int| 0 <= i < words.len() implies !text::is_blank(#[trigger] words[i]) by {
        text::law_a_blank_text_trims_to_nothing(words[i]);
        assert(is_plain(words[i]));
    }
    lemma_filter_all(words, |w: Seq<char>| !text::is_blank(w));
    law_what_a_flag_is(words);
    let rest = words.drop_first();
    assert forall|i: int| 0 <= i < rest.len() implies is_plain(#[trigger] rest[i]) by {
        assert(rest[i] == words[i + 1]);
    }
    lemma_filter_all(rest, |w: Seq<char>| !w.contains('='));
    assert forall|key: Seq<char>| #[trigger] option(rest, key) is None by {
        assert forall|j: int| 0 <= j < rest.len() implies !text::begins_with(
            #[trigger] rest[j],
            key + seq!['='],
        ) by {
            let start = key + seq!['='];
            if text::begins_with(rest[j], start) {
                assert(rest[j].take(start.len() as int)[key.len() as int] == '=');
                assert(rest[j][key.len() as int] == '=');
                assert(is_plain(rest[j]));
            }
        }
        law_an_option_is_the_first_of_its_name(rest, key, key, -1);
    }
}

proof fn lemma_filter_all(s: Seq<Seq<char>>, p: spec_fn(Seq<char>) -> bool)
    requires
        forall|i: int| 0 <= i < s.len() ==> p(#[trigger] s[i]),
    ensures
        s.filter(p) == s,
    decreases s.len(),
{
    reveal(Seq::filter);
    if s.len() > 0 {
        let rest = s.drop_last();
        assert forall|i: int| 0 <= i < rest.len() implies p(#[trigger] rest[i]) by {
            assert(rest[i] == s[i]);
        }
        lemma_filter_all(rest, p);
        assert(p(s[s.len() - 1]));
        assert(rest.push(s.last()) =~= s);
    } else {
        assert(s.filter(p) =~= s);
    }
}

/// `series <circuit> <period>` asks for that circuit over that period, by the hour;
/// where the word names no period, it is refused by name.
pub proof fn law_a_plain_series_question(
    verb: Seq<char>,
    circuit: Seq<char>,
    period: Seq<char>,
    now: Instant,
    zone: Zone,
)
    requires
        verb == "series"@ || verb == "history"@,
        text::trimmed(circuit).len() > 0,
        !(circuit.len() >= 2 && circuit[0] == '-' && circuit[1] == '-'),
        !circuit.contains('='),
        text::trimmed(period).len() > 0,
        !(period.len() >= 2 && period[0] == '-' && period[1] == '-'),
        !period.contains('='),
    ensures
        span_named(period, now, zone) matches Some(span) ==> parsed(
            seq![verb, circuit, period],
            now,
            zone,
        ) == Ok::<RequestView, Seq<char>>(
            RequestView::Series { query: circuit, span, scale: Scale::Hour },
        ),
        span_named(period, now, zone) is None ==> parsed(seq![verb, circuit, period], now, zone)
            == Err::<RequestView, Seq<char>>(
            "`"@ + period
                + "` is not a period. Use `today`, `yesterday`, `week`, `month`, `year` or `all`."@,
        ),
{
    let words = seq![verb, circuit, period];
    lemma_verbs_are_plain(verb);
    assert forall|i: int| 0 <= i < words.len() implies is_plain(#[trigger] words[i]) by {
        assert(i == 0 || i == 1 || i == 2);
    }
    lemma_plain_words_are_meant(words);
    assert(words.drop_first() =~= seq![circuit, period]);
    law_a_series_is_of_the_circuit_and_the_period_typed(
        words,
        now,
        zone,
        seq![circuit, period],
        period,
    );
}

/// `usage <period>` asks for the energy of each circuit over that period; where the
/// word names no period, it is refused by name.
pub proof fn law_a_plain_usage_question(
    verb: Seq<char>,
    period: Seq<char>,
    now: Instant,
    zone: Zone,
)
    requires
        verb == "usage"@ || verb == "energy"@,
        text::trimmed(period).len() > 0,
        !(period.len() >= 2 && period[0] == '-' && period[1] == '-'),
        !period.contains('='),
    ensures
        span_named(period, now, zone) matches Some(span) ==> parsed(seq![verb, period], now, zone)
            == Ok::<RequestView, Seq<char>>(RequestView::Usage { span, kind: Kind::Circuits }),
        span_named(period, now, zone) is None ==> parsed(seq![verb, period], now, zone) == Err::<
            RequestView,
            Seq<char>,
        >(
            "`"@ + period
                + "` is not a period. Use `today`, `yesterday`, `week`, `month`, `year` or `all`."@,
        ),
{
    let words = seq![verb, period];
    lemma_verbs_are_plain(verb);
    assert forall|i: int| 0 <= i < words.len() implies is_plain(#[trigger] words[i]) by {
        assert(i == 0 || i == 1);
    }
    lemma_plain_words_are_meant(words);
    assert(words.drop_first() =~= seq![period]);
    law_usage_is_of_the_period_and_the_kind_typed(words, now, zone, period);
}

proof fn lemma_verbs_are_plain(verb: Seq<char>)
    requires
        asks_usage(verb) || asks_series(verb),
    ensures
        is_plain(verb),
        verb != "agent"@,
{
    reveal_strlit("usage");
    reveal_strlit("energy");
    reveal_strlit("series");
    reveal_strlit("history");
    reveal_strlit("agent");
    assert("usage"@[0] == 'u' && "energy"@[0] == 'e' && "series"@[0] == 's' && "history"@[0]
        == 'h' && "agent"@[0] == 'a');
    text::law_a_blank_text_trims_to_nothing(verb);
    assert(!text::is_white(verb[0]));
    if verb.contains('=') {
        let i = choose|i: int| 0 <= i < verb.len() && verb[i] == '=';
        assert("usage"@[1] == 's' && "usage"@[2] == 'a' && "usage"@[3] == 'g' && "usage"@[4]
            == 'e' && "usage"@.len() == 5);
        assert("energy"@[1] == 'n' && "energy"@[2] == 'e' && "energy"@[3] == 'r' && "energy"@[4]
            == 'g' && "energy"@[5] == 'y' && "energy"@.len() == 6);
        assert("series"@[1] == 'e' && "series"@[2] == 'r' && "series"@[3] == 'i' && "series"@[4]
            == 'e' && "series"@[5] == 's' && "series"@.len() == 6);
        assert("history"@[1] == 'i' && "history"@[2] == 's' && "history"@[3] == 't'
            && "history"@[4] == 'o' && "history"@[5] == 'r' && "history"@[6] == 'y'
            && "history"@.len() == 7);
    }
}

/// Which words name which kind; every other word names none.
pub proof fn law_which_words_name_a_kind(word: Seq<char>)
    ensures
        kind_named(word) == Some(Kind::Main) <==> word == "main"@ || word == "mains"@ || word
            == "total"@,
        kind_named(word) == Some(Kind::Branch) <==> word == "branch"@ || word == "branches"@
            || word == "legs"@,
        kind_named(word) == Some(Kind::Merged) <==> word == "merged"@,
        kind_named(word) == Some(Kind::Circuits) <==> word == "circuits"@ || word == "circuit"@
            || word == "all"@,
{
    reveal_strlit("main");
    reveal_strlit("mains");
    reveal_strlit("total");
    reveal_strlit("branch");
    reveal_strlit("branches");
    reveal_strlit("legs");
    reveal_strlit("merged");
    reveal_strlit("circuits");
    reveal_strlit("circuit");
    reveal_strlit("all");
    assert("main"@[0] == 'm' && "mains"@[0] == 'm' && "total"@[0] == 't' && "branch"@[0] == 'b'
        && "branches"@[0] == 'b' && "legs"@[0] == 'l' && "merged"@[0] == 'm' && "circuits"@[0]
        == 'c' && "circuit"@[0] == 'c' && "all"@[0] == 'a');
    assert("main"@.len() == 4 && "mains"@.len() == 5 && "merged"@.len() == 6);
}

/// Where a period word puts the two ends of its window, given the midnight of the
/// local clock at or before the moment: today from there to now, yesterday the day
/// before it, seven, thirty and 365 days with today among them, and all of it from
/// the year 2000 on. No other word is a period.
pub proof fn law_what_each_period_is(word: Seq<char>, now: Instant, zone: Zone, midnight: int)
    requires
        zone.valid(),
        -8_334_601_228_800 + 172_800 <= now@ / 1_000_000_000 <= 8_210_266_876_799 - 172_800,
        midnight <= now@ < midnight + 86_400_000_000_000,
        midnight % 1_000_000_000 == 0,
        (midnight / 1_000_000_000 + zone.east) % 86_400 == 0,
    ensures
        ({
            let day = 86_400_000_000_000int;
            let from = |from: int, to: int|
                span_named(word, now, zone) == Some(SpanView { from, to, named: word });
            &&& word == "today"@ ==> from(midnight, now@)
            &&& word == "yesterday"@ ==> from(midnight - day, midnight)
            &&& word == "week"@ || word == "7d"@ ==> from(midnight - 6 * day, now@)
            &&& word == "month"@ || word == "30d"@ ==> from(midnight - 29 * day, now@)
            &&& word == "year"@ || word == "365d"@ ==> from(midnight - 364 * day, now@)
            &&& word == "all"@ || word == "ever"@ ==> from(946_684_800_000_000_000, now@)
            &&& word != "today"@ && word != "yesterday"@ && word != "week"@ && word != "7d"@
                && word != "month"@ && word != "30d"@ && word != "year"@ && word != "365d"@
                && word != "all"@ && word != "ever"@ ==> span_named(word, now, zone) is None
        }),
{
    lemma_periods_differ();
    time::law_a_local_day_begins_at_midnight(now, zone);
    let m = now.day_start(zone)->0;
    assert(m == today(now, zone));
    let p = m / 1_000_000_000 + zone.east;
    let q = midnight / 1_000_000_000 + zone.east;
    assert(m == (p - zone.east) * 1_000_000_000);
    assert(midnight == (q - zone.east) * 1_000_000_000);
    assert(p == q);
}

/// A word names a scale exactly where it is one of the four names in some case, and
/// then that scale.
pub proof fn law_which_words_name_a_scale(word: Seq<char>)
    ensures
        scale_named(word) == Some(Scale::Minute) <==> text::same_letters("1MIN"@, word),
        scale_named(word) == Some(Scale::QuarterHour) <==> text::same_letters("15MIN"@, word),
        scale_named(word) == Some(Scale::Hour) <==> text::same_letters("1H"@, word),
        scale_named(word) == Some(Scale::Day) <==> text::same_letters("1D"@, word),
{
    law_a_scale_is_named_in_any_case(word, Scale::Minute);
    law_a_scale_is_named_in_any_case(word, Scale::QuarterHour);
    law_a_scale_is_named_in_any_case(word, Scale::Hour);
    law_a_scale_is_named_in_any_case(word, Scale::Day);
}

/// The period that has to be representable before a question is read is the one
/// that the question is then about.
pub proof fn law_the_period_asked_is_the_period_read(
    args: Seq<Seq<char>>,
    now: Instant,
    zone: Zone,
)
    ensures
        (parsed(args, now, zone) matches Ok(RequestView::Usage { span, .. }) ==> period_asked(args)
            == Some(span.named) && span_named(span.named, now, zone) == Some(span)),
        (parsed(args, now, zone) matches Ok(RequestView::Series { span, .. }) ==> period_asked(
            args,
        ) == Some(span.named) && span_named(span.named, now, zone) == Some(span)),
{
    if meant(args).len() > 0 && (asks_usage(meant(args)[0]) || asks_series(meant(args)[0])) {
        lemma_verbs_differ(meant(args)[0]);
    }
}

/// A flag anywhere among the words refuses them all, and is told how to ask.
pub proof fn law_a_flag_is_told_how_to_ask(args: Seq<Seq<char>>, now: Instant, zone: Zone)
    requires
        has_flag(meant(args)),
    ensures
        parsed(args, now, zone) == Err::<RequestView, Seq<char>>(
            "`dynamo` takes no `--flags`. Arguments are positional words and key=value pairs, like `usage yesterday kind=circuits` or `series 'Water Heater' today scale=1H`."@,
        ),
{
}

/// What describes the interface says that it only reads, and lists the verbs and
/// the periods that a question can be asked with.
pub proof fn law_the_description_lists_what_can_be_asked(i: int)
    ensures
        ({
            let o = described()->Object_0;
            let verbs = json::field(o, "verbs"@)->0->List_0;
            let periods = json::field(o, "periods"@)->0->List_0;
            &&& json::field(o, "ok"@) == Some(JsonView::Bool(true))
            &&& json::field(o, "reads_only"@) == Some(JsonView::Bool(true))
            &&& verbs.len() == 5
            &&& 0 <= i < 5 ==> {
                let verb = json::field(verbs[i]->Object_0, "verb"@)->0->Text_0;
                &&& i == 0 ==> verb == "describe"@
                &&& i == 1 ==> verb == "channels"@
                &&& i == 2 ==> verb == "now"@
                &&& i == 3 ==> verb == "usage"@
                &&& i == 4 ==> verb == "series"@
                &&& is_verb(verb)
            }
            &&& periods == seq![
                JsonView::Text("today"@),
                JsonView::Text("yesterday"@),
                JsonView::Text("week"@),
                JsonView::Text("month"@),
                JsonView::Text("year"@),
                JsonView::Text("all"@),
            ]
        }),
{
    reveal_strlit("ok");
    reveal_strlit("tool");
    reveal_strlit("summary");
    reveal_strlit("reads_only");
    reveal_strlit("verbs");
    reveal_strlit("periods");
    assert("ok"@.len() == 2 && "tool"@.len() == 4 && "summary"@.len() == 7 && "reads_only"@.len()
        == 10 && "verbs"@.len() == 5 && "periods"@.len() == 7);
    assert("summary"@[0] == 's' && "periods"@[0] == 'p');
    let o = described()->Object_0;
    json::lemma_field_at(o, 0);
    json::lemma_field_at(o, 3);
    json::lemma_field_at(o, 4);
    json::lemma_field_at(o, 5);
    let verbs = o[4].1->List_0;
    if 0 <= i < 5 {
        json::lemma_field_at(verbs[i]->Object_0, 0);
    }
}

/// A request is seen as the circuit, the window and the scale, or the kind, that it
/// holds.
pub proof fn law_a_request_is_seen_as_it_is(span: Span, kind: Kind, query: String, scale: Scale)
    ensures
        span@.from == span.from.nanos,
        span@.to == span.to.nanos,
        span@.named == span.named@,
        Request::Describe@ is Describe,
        Request::Channels@ is Channels,
        Request::Now@ is Now,
        (Request::Usage { span, kind })@ == (RequestView::Usage { span: span@, kind }),
        (Request::Series { query, span, scale })@ == (RequestView::Series {
            query: query@,
            span: span@,
            scale,
        }),
{
}

/// The description of the interface, word for word.
pub proof fn law_the_description_word_for_word()
    ensures
        described() == JsonView::Object(
            seq![
                ("ok"@, JsonView::Bool(true)),
                ("tool"@, JsonView::Text("dynamo"@)),
                (
                    "summary"@,
                    JsonView::Text(
                        "Household electricity, measured per circuit by three panel monitors and kept minute by minute. Read-only."@,
                    ),
                ),
                ("reads_only"@, JsonView::Bool(true)),
                (
                    "verbs"@,
                    JsonView::List(
                        seq![
                            verb_view("describe"@, ""@, "this"@),
                            verb_view(
                                "channels"@,
                                ""@,
                                "every circuit that is measured, with the name it was given and which monitor it is on"@,
                            ),
                            verb_view(
                                "now"@,
                                ""@,
                                "what each circuit is drawing right now, in watts, newest reading"@,
                            ),
                            verb_view(
                                "usage"@,
                                "<period> [kind=circuits|merged|branch|main]"@,
                                "energy by circuit over a period, in kWh, biggest first"@,
                            ),
                            verb_view(
                                "series"@,
                                "<circuit> <period> [scale=1MIN|15MIN|1H|1D]"@,
                                "one circuit's readings over a period"@,
                            ),
                        ],
                    ),
                ),
                (
                    "periods"@,
                    JsonView::List(
                        seq![
                            JsonView::Text("today"@),
                            JsonView::Text("yesterday"@),
                            JsonView::Text("week"@),
                            JsonView::Text("month"@),
                            JsonView::Text("year"@),
                            JsonView::Text("all"@),
                        ],
                    ),
                ),
                (
                    "notes"@,
                    JsonView::List(
                        seq![
                            JsonView::Text(
                                "A merged channel is the sum of two branch legs — the two halves of a 240 V circuit. kind=circuits is the default and counts each circuit once; adding merged and branch figures together double-counts every large appliance."@,
                            ),
                            JsonView::Text(
                                "Only one of the three monitors has mains CTs, so a whole-house total from kind=main covers that panel and not the others."@,
                            ),
                            JsonView::Text(
                                "Minute resolution goes back about a week before this was installed and indefinitely after; hourly and daily reach back to January 2025."@,
                            ),
                        ],
                    ),
                ),
            ],
        ),
{
}

/// A verb is described by its word, what follows it and what it does.
pub proof fn law_a_verb_is_described_by_its_words(
    verb: Seq<char>,
    args: Seq<char>,
    does: Seq<char>,
)
    ensures
        verb_view(verb, args, does) == JsonView::Object(
            seq![
                ("verb"@, JsonView::Text(verb)),
                ("args"@, JsonView::Text(args)),
                ("does"@, JsonView::Text(does)),
            ],
        ),
{
}

/// Where the local day has no beginning that can be represented, the moment itself
/// stands for it.
pub proof fn law_a_day_without_a_beginning_begins_now(now: Instant, zone: Zone)
    requires
        now.day_start(zone) is None,
    ensures
        span_named("today"@, now, zone) == Some(
            SpanView { from: now@, to: now@, named: "today"@ },
        ),
        span_named("yesterday"@, now, zone) == Some(
            SpanView { from: now@ - 86_400_000_000_000, to: now@, named: "yesterday"@ },
        ),
        span_named("week"@, now, zone) == Some(
            SpanView { from: now@ - 6 * 86_400_000_000_000, to: now@, named: "week"@ },
        ),
        span_named("month"@, now, zone) == Some(
            SpanView { from: now@ - 29 * 86_400_000_000_000, to: now@, named: "month"@ },
        ),
        span_named("year"@, now, zone) == Some(
            SpanView { from: now@ - 364 * 86_400_000_000_000, to: now@, named: "year"@ },
        ),
{
    lemma_periods_differ();
}

} // verus!
