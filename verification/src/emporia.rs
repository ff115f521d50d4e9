//! The Emporia API, as URLs and as the shapes of its responses.
//!
//! Fractional numbers are carried as the bits of the `double` they are.

use crate::plan::{self, Channel, Fetch, Series, SeriesView};
use crate::scale::Scale;
use crate::sort;
use crate::text;
use crate::time::{self, Instant};
use vstd::prelude::*;

verus! {

pub const HOST: &'static str = "https://api.emporiaenergy.com";

/// Which of the three kinds of channel a number names.
///
/// A merged channel is the sum of two branch legs, so a query that adds
/// branches and merged channels together reports twice the power that is used.
#[derive(Copy, Clone, Debug, PartialEq, Eq, Structural)]
pub enum ChannelKind {
    /// The mains, which arrive as the single channel `1,2,3`.
    Main,
    /// A physical sensor, `1` to `16`.
    Branch,
    /// Two legs of one 240 V circuit, presented as one, from `97` up.
    Merged,
}

/// The first number of a merged channel.
pub const FIRST_MERGED: u64 = 97;

/// The largest number that a channel's number is read as.
pub const LAST_NUMBER: u64 = 0xffff_ffff;

/// The kind of channel that a number names. Any number below the merged ones is
/// a branch, which is the reading that cannot silently double-count.
pub open spec fn kind_of(channel_num: Seq<char>) -> ChannelKind {
    if channel_num.contains(',') {
        ChannelKind::Main
    } else {
        match text::unsigned_value(channel_num) {
            Some(n) if n > LAST_NUMBER => ChannelKind::Main,
            Some(n) if n >= FIRST_MERGED => ChannelKind::Merged,
            Some(_) => ChannelKind::Branch,
            None => ChannelKind::Main,
        }
    }
}

impl ChannelKind {
    /// The word for this kind.
    pub open spec fn word(self) -> Seq<char> {
        match self {
            ChannelKind::Main => "main"@,
            ChannelKind::Branch => "branch"@,
            ChannelKind::Merged => "merged"@,
        }
    }

    /// The kind of channel that a number names.
    pub fn of(channel_num: &str) -> (k: ChannelKind)
        ensures
            k == kind_of(channel_num@),
    {
        if text::holds(channel_num, ',') {
            return ChannelKind::Main;
        }
        match text::parse_unsigned(channel_num, LAST_NUMBER) {
            Some(n) => if n >= FIRST_MERGED {
                ChannelKind::Merged
            } else {
                ChannelKind::Branch
            },
            None => ChannelKind::Main,
        }
    }

    /// The word for this kind.
    pub fn as_str(self) -> (s: &'static str)
        ensures
            s@ == self.word(),
    {
        match self {
            ChannelKind::Main => "main",
            ChannelKind::Branch => "branch",
            ChannelKind::Merged => "merged",
        }
    }
}

/// The words for the kinds are distinct.
pub proof fn law_kinds_have_distinct_words(a: ChannelKind, b: ChannelKind)
    requires
        a.word() == b.word(),
    ensures
        a == b,
{
    reveal_strlit("main");
    reveal_strlit("branch");
    reveal_strlit("merged");
    assert("main"@.len() == 4 && "branch"@.len() == 6 && "merged"@.len() == 6);
    assert("branch"@[0] != "merged"@[0]);
}

/// Where the account and its devices are described.
pub fn devices_url() -> (s: String)
    ensures
        s@ == HOST@ + "/customers/devices"@,
{
    let mut s = HOST.to_owned();
    s.append("/customers/devices");
    s
}

/// Whether a byte stands for itself in a URL.
pub open spec fn is_unreserved(b: u8) -> bool {
    ||| 65 <= b <= 90
    ||| 97 <= b <= 122
    ||| 48 <= b <= 57
    ||| b == 45
    ||| b == 95
    ||| b == 46
    ||| b == 126
}

/// The capital hexadecimal digit of a number below sixteen.
pub open spec fn hex_digit(n: int) -> char {
    if n < 10 {
        (n + 48) as char
    } else {
        (n + 55) as char
    }
}

/// A byte in a URL: itself, or a percent sign and two digits.
pub open spec fn encoded_byte(b: u8) -> Seq<char> {
    if is_unreserved(b) {
        seq![b as char]
    } else {
        seq!['%', hex_digit(b as int / 16), hex_digit(b as int % 16)]
    }
}

/// Bytes in a URL.
pub open spec fn encoded_bytes(bytes: Seq<u8>) -> Seq<char>
    decreases bytes.len(),
{
    if bytes.len() == 0 {
        seq![]
    } else {
        encoded_byte(bytes[0]) + encoded_bytes(bytes.drop_first())
    }
}

/// A text in a URL, by the bytes of its UTF-8.
pub open spec fn encoded(s: Seq<char>) -> Seq<char> {
    encoded_bytes(vstd::utf8::encode_utf8(s))
}

fn hex(n: u8) -> (c: char)
    requires
        n < 16,
    ensures
        c == hex_digit(n as int),
{
    if n < 10 {
        (n + 48) as char
    } else {
        (n + 55) as char
    }
}

/// A text as it stands in a URL.
pub fn encode(s: &str) -> (out: String)
    ensures
        out@ == encoded(s@),
{
    let bytes = s.as_bytes();
    let mut out = String::new();
    let mut i: usize = 0;
    assert(bytes@.skip(0) =~= bytes@);
    assert(out@ + encoded_bytes(bytes@) =~= encoded_bytes(bytes@));
    while i < bytes.len()
        invariant
            i <= bytes.len(),
            out@ + encoded_bytes(bytes@.skip(i as int)) == encoded_bytes(bytes@),
        decreases bytes.len() - i,
    {
        let b = bytes[i];
        let ghost was = out@;
        if (65 <= b && b <= 90) || (97 <= b && b <= 122) || (48 <= b && b <= 57) || b == 45 || b
            == 95 || b == 46 || b == 126 {
            out.push(b as char);
        } else {
            out.push('%');
            out.push(hex(b / 16));
            out.push(hex(b % 16));
        }
        proof {
            assert(bytes@.skip(i as int).drop_first() =~= bytes@.skip(i + 1));
            assert(out@ =~= was + encoded_byte(b));
            assert(was + (encoded_byte(b) + encoded_bytes(bytes@.skip(i + 1))) =~= out@
                + encoded_bytes(bytes@.skip(i + 1)));
        }
        i = i + 1;
    }
    assert(out@ + encoded_bytes(bytes@.skip(i as int)) =~= out@);
    out
}

/// Whether a character can stand in a parameter of a URL without ending it or
/// meaning something else: a letter, a digit, one of `-_.~`, or the percent
/// sign of an encoded byte.
pub open spec fn is_harmless(c: char) -> bool {
    c == '%' || (c as u32 <= 127 && is_unreserved(c as u8))
}

/// An encoded text holds nothing that would end a parameter or be read as a
/// separator: no comma, colon, plus sign, ampersand, equals sign or space.
pub proof fn law_encoded_text_is_harmless(s: Seq<char>, i: int)
    requires
        0 <= i < encoded(s).len(),
    ensures
        is_harmless(encoded(s)[i]),
        encoded(s)[i] != ',' && encoded(s)[i] != ':' && encoded(s)[i] != '+' && encoded(s)[i]
            != '&' && encoded(s)[i] != '=' && encoded(s)[i] != ' ',
{
    lemma_encoded_bytes_are_harmless(vstd::utf8::encode_utf8(s), i);
}

proof fn lemma_encoded_bytes_are_harmless(bytes: Seq<u8>, i: int)
    requires
        0 <= i < encoded_bytes(bytes).len(),
    ensures
        is_harmless(encoded_bytes(bytes)[i]),
    decreases bytes.len(),
{
    let first = encoded_byte(bytes[0]);
    if i < first.len() {
        assert(encoded_bytes(bytes)[i] == first[i]);
    } else {
        lemma_encoded_bytes_are_harmless(bytes.drop_first(), i - first.len());
    }
}

/// Two texts that are encoded alike are alike: nothing is lost in a URL.
pub proof fn law_encoding_loses_nothing(a: Seq<char>, b: Seq<char>)
    requires
        encoded(a) == encoded(b),
    ensures
        a == b,
{
    lemma_bytes_encode_apart(vstd::utf8::encode_utf8(a), vstd::utf8::encode_utf8(b));
    vstd::utf8::encode_utf8_decode_utf8(a);
    vstd::utf8::encode_utf8_decode_utf8(b);
}

proof fn lemma_bytes_encode_apart(a: Seq<u8>, b: Seq<u8>)
    requires
        encoded_bytes(a) == encoded_bytes(b),
    ensures
        a == b,
    decreases a.len(),
{
    if a.len() == 0 || b.len() == 0 {
        assert(encoded_bytes(a).len() == encoded_bytes(b).len());
        assert(a =~= b);
    } else {
        let x = encoded_byte(a[0]);
        let y = encoded_byte(b[0]);
        let p = encoded_bytes(a.drop_first());
        let q = encoded_bytes(b.drop_first());
        assert((x + p)[0] == x[0] && (y + q)[0] == y[0]);
        assert(x.len() == y.len());
        assert forall|i: int| 0 <= i < x.len() implies x[i] == y[i] by {
            assert((x + p)[i] == x[i] && (y + q)[i] == y[i]);
        }
        assert(a[0] == b[0]) by {
            if !is_unreserved(a[0]) {
                assert(x[1] == y[1] && x[2] == y[2]);
            }
        }
        assert(p =~= (x + p).skip(x.len() as int));
        assert(q =~= (y + q).skip(y.len() as int));
        lemma_bytes_encode_apart(a.drop_first(), b.drop_first());
        assert(a =~= seq![a[0]] + a.drop_first());
        assert(b =~= seq![b[0]] + b.drop_first());
    }
}

/// The URL of a request for a series between two instants, as they are written.
pub open spec fn chart_view(series: SeriesView, start: Seq<char>, end: Seq<char>) -> Seq<char> {
    HOST@ + "/AppAPI?apiMethod=getChartUsage&deviceGid="@ + text::signed_digits(
        series.device_gid as int,
    ) + "&channel="@ + encoded(series.channel_num) + "&start="@ + encoded(start) + "&end="@
        + encoded(end) + "&scale="@ + series.scale.name() + "&energyUnit=KilowattHours"@
}

/// The URL of a request for a series between two instants, as they are written.
pub fn chart_url_between(series: &Series, start: &str, end: &str) -> (s: String)
    ensures
        s@ == chart_view(series@, start@, end@),
{
    let mut s = HOST.to_owned();
    s.append("/AppAPI?apiMethod=getChartUsage&deviceGid=");
    s.append(text::signed_decimal(series.device_gid).as_str());
    s.append("&channel=");
    s.append(encode(series.channel_num.as_str()).as_str());
    s.append("&start=");
    s.append(encode(start).as_str());
    s.append("&end=");
    s.append(encode(end).as_str());
    s.append("&scale=");
    s.append(series.scale.api_name());
    s.append("&energyUnit=KilowattHours");
    s
}

/// The URL of a request.
pub open spec fn chart_text(f: Fetch) -> Seq<char> {
    chart_view(f.series@, f.start.stamp(), f.end.stamp())
}

/// The URL of a request: the only call that takes a time range, one channel at
/// a time.
pub fn chart_url(f: &Fetch) -> (s: String)
    requires
        f.start.valid(),
        f.end.valid(),
    ensures
        s@ == chart_text(*f),
{
    chart_url_between(&f.series, f.start.rfc3339().as_str(), f.end.rfc3339().as_str())
}

/// The account, as the device list describes it.
#[derive(Debug, PartialEq, Eq)]
pub struct Account {
    pub customer_gid: i64,
    pub created_at: Instant,
    pub devices: Vec<Device>,
}

/// A monitor, or a device nested in one. The branch channels hang off a nested
/// device that carries the same `device_gid`.
#[derive(Debug, PartialEq, Eq)]
pub struct Device {
    pub device_gid: i64,
    pub model: Option<String>,
    pub firmware: Option<String>,
    pub location: Option<Location>,
    pub channels: Vec<ApiChannel>,
    pub devices: Vec<Device>,
}

/// Where a device hangs, in the words of its owner.
#[derive(Debug, PartialEq, Eq)]
pub struct Location {
    pub device_name: Option<String>,
}

/// A channel of a device.
#[derive(Debug, PartialEq, Eq)]
pub struct ApiChannel {
    pub channel_num: String,
    pub name: Option<String>,
    pub multiplier: Option<u64>,
    pub kind: Option<String>,
    /// Which merged channel this leg was folded into, if any.
    pub merged_into: Option<String>,
}

/// One flattened channel, with the name a person gave it.
#[derive(Debug, PartialEq, Eq)]
pub struct NamedChannel {
    pub device_gid: i64,
    pub device_name: Option<String>,
    pub channel_num: String,
    pub name: Option<String>,
    pub kind: ChannelKind,
    pub multiplier: Option<u64>,
    /// The merged channel this leg belongs to: none for a merged channel itself
    /// and for a branch that stands alone.
    pub merged_into: Option<String>,
}

impl Clone for NamedChannel {
    fn clone(&self) -> (r: NamedChannel)
        ensures
            r == *self,
    {
        NamedChannel {
            device_gid: self.device_gid,
            device_name: text::copied(&self.device_name),
            channel_num: self.channel_num.clone(),
            name: text::copied(&self.name),
            kind: self.kind,
            multiplier: self.multiplier,
            merged_into: text::copied(&self.merged_into),
        }
    }
}

/// The name of a device: its own, or else the one of the device it is nested in.
pub open spec fn name_of(d: Device, inherited: Option<String>) -> Option<String> {
    match d.location {
        Some(l) if l.device_name is Some => l.device_name,
        _ => inherited,
    }
}

/// A channel of a device of that name.
pub open spec fn named(d: Device, device_name: Option<String>, c: ApiChannel) -> NamedChannel {
    NamedChannel {
        device_gid: d.device_gid,
        device_name,
        channel_num: c.channel_num,
        name: c.name,
        kind: kind_of(c.channel_num@),
        multiplier: c.multiplier,
        merged_into: c.merged_into,
    }
}

/// The channels of a device and of everything nested in it: its own first, then
/// those of each nested device in turn.
pub open spec fn walked(d: Device, inherited: Option<String>) -> Seq<NamedChannel>
    decreases d,
{
    let name = name_of(d, inherited);
    d.channels@.map_values(|c: ApiChannel| named(d, name, c)) + walked_all(d.devices@, name)
}

/// The channels of several devices, in turn.
pub open spec fn walked_all(ds: Seq<Device>, inherited: Option<String>) -> Seq<NamedChannel>
    decreases ds,
{
    if ds.len() == 0 {
        seq![]
    } else {
        walked_all(ds.drop_last(), inherited) + walked(ds.last(), inherited)
    }
}

/// Adds the channels of a device and of everything nested in it.
fn walk(d: &Device, inherited: &Option<String>, out: &mut Vec<NamedChannel>)
    ensures
        final(out)@ == old(out)@ + walked(*d, *inherited),
    decreases d,
{
    let ghost before = out@;
    let name = match &d.location {
        Some(l) => match &l.device_name {
            Some(s) => Some(s.clone()),
            None => text::copied(inherited),
        },
        None => text::copied(inherited),
    };
    assert(name == name_of(*d, *inherited));
    let ghost own = d.channels@.map_values(|c: ApiChannel| named(*d, name, c));
    let mut i: usize = 0;
    while i < d.channels.len()
        invariant
            i <= d.channels.len(),
            own == d.channels@.map_values(|c: ApiChannel| named(*d, name, c)),
            out@ =~= before + own.take(i as int),
        decreases d.channels.len() - i,
    {
        let c = &d.channels[i];
        out.push(
            NamedChannel {
                device_gid: d.device_gid,
                device_name: text::copied(&name),
                channel_num: c.channel_num.clone(),
                name: text::copied(&c.name),
                kind: ChannelKind::of(c.channel_num.as_str()),
                multiplier: c.multiplier,
                merged_into: text::copied(&c.merged_into),
            },
        );
        i = i + 1;
    }
    let mut k: usize = 0;
    assert(d.devices@.take(0) =~= Seq::<Device>::empty());
    assert(out@ =~= before + own + walked_all(d.devices@.take(0), name));
    while k < d.devices.len()
        invariant
            k <= d.devices.len(),
            out@ == before + own + walked_all(d.devices@.take(k as int), name),
        decreases d.devices.len() - k,
    {
        proof {
            assert(d.devices@.take(k + 1).drop_last() =~= d.devices@.take(k as int));
            assert(decreases_to!(d => d.devices@[k as int]));
        }
        let ghost was = out@;
        walk(&d.devices[k], &name, out);
        assert(out@ =~= before + own + walked_all(d.devices@.take(k + 1), name));
        k = k + 1;
    }
    assert(d.devices@.take(d.devices@.len() as int) =~= d.devices@);
    assert(out@ =~= before + walked(*d, *inherited));
}

/// Whether two channels are the same channel of the same monitor.
pub open spec fn same_channel(a: NamedChannel, b: NamedChannel) -> bool {
    a.device_gid == b.device_gid && a.channel_num@ == b.channel_num@
}

/// The order of channels: by monitor, and there by number as text.
pub open spec fn channel_order() -> spec_fn(NamedChannel, NamedChannel) -> bool {
    |a: NamedChannel, b: NamedChannel|
        a.device_gid < b.device_gid || (a.device_gid == b.device_gid && text::comes_before(
            a.channel_num@,
            b.channel_num@,
        ))
}

fn channel_before(a: &NamedChannel, b: &NamedChannel) -> (r: bool)
    ensures
        r == channel_order()(*a, *b),
{
    a.device_gid < b.device_gid || (a.device_gid == b.device_gid && text::before(
        a.channel_num.as_str(),
        b.channel_num.as_str(),
    ))
}

proof fn lemma_channels_are_ordered()
    ensures
        sort::is_order(channel_order()),
        forall|a: NamedChannel, b: NamedChannel| #[trigger]
            sort::ties(channel_order(), a)(b) <==> same_channel(a, b),
{
    let less = channel_order();
    assert forall|a: NamedChannel| !#[trigger] less(a, a) by {
        text::lemma_before_is_strict(a.channel_num@);
    }
    assert forall|a: NamedChannel, b: NamedChannel, c: NamedChannel| #[trigger]
        less(a, b) && #[trigger] less(b, c) implies less(a, c) by {
        if a.device_gid == b.device_gid && b.device_gid == c.device_gid {
            text::lemma_before_is_transitive(a.channel_num@, b.channel_num@, c.channel_num@);
        }
    }
    assert forall|a: NamedChannel, b: NamedChannel, c: NamedChannel| #[trigger]
        less(a, c) implies #[trigger] less(a, b) || less(b, c) by {
        if a.device_gid == b.device_gid && b.device_gid == c.device_gid && !less(a, b) {
            text::lemma_before_is_total(a.channel_num@, b.channel_num@);
            if a.channel_num@ != b.channel_num@ {
                text::lemma_before_is_transitive(b.channel_num@, a.channel_num@, c.channel_num@);
            }
        }
    }
    assert forall|a: NamedChannel, b: NamedChannel| #[trigger]
        sort::ties(less, a)(b) <==> same_channel(a, b) by {
        text::lemma_before_is_total(a.channel_num@, b.channel_num@);
        text::lemma_before_is_strict(a.channel_num@);
    }
}

/// Whether the channel at a position is the first of its kind in a list.
pub open spec fn is_first(s: Seq<NamedChannel>, k: int) -> bool {
    &&& 0 <= k < s.len()
    &&& forall|j: int| 0 <= j < k ==> !same_channel(#[trigger] s[j], s[k])
}

/// Whether a channel, as it is, is the first of its kind in a list.
pub open spec fn first_in(s: Seq<NamedChannel>, c: NamedChannel) -> bool {
    exists|k: int| #[trigger] is_first(s, k) && s[k] == c
}

/// Whether a list holds a channel, whatever else it says of it.
pub open spec fn holds(s: Seq<NamedChannel>, c: NamedChannel) -> bool {
    exists|i: int| 0 <= i < s.len() && same_channel(#[trigger] s[i], c)
}

/// Whether each channel of a list comes before the ones after it.
pub open spec fn increasing(s: Seq<NamedChannel>) -> bool {
    forall|i: int, j: int|
        0 <= i < j < s.len() ==> channel_order()(#[trigger] s[i], #[trigger] s[j])
}

/// Whether a list holds every channel of another once, as it first occurs
/// there, in the order of channels.
pub open spec fn each_once(out: Seq<NamedChannel>, all: Seq<NamedChannel>) -> bool {
    &&& increasing(out)
    &&& forall|i: int| 0 <= i < out.len() ==> #[trigger] first_in(all, out[i])
    &&& forall|k: int| 0 <= k < all.len() ==> #[trigger] holds(out, all[k])
}

/// The first item that a filter passes is the first in the list that it passes.
proof fn lemma_first_passed(s: Seq<NamedChannel>, p: spec_fn(NamedChannel) -> bool) -> (k: int)
    requires
        s.filter(p).len() > 0,
    ensures
        0 <= k < s.len(),
        p(s[k]),
        s[k] == s.filter(p)[0],
        forall|j: int| 0 <= j < k ==> !p(#[trigger] s[j]),
    decreases s.len(),
{
    reveal(Seq::filter);
    let rest = s.drop_last();
    if rest.filter(p).len() > 0 {
        let k = lemma_first_passed(rest, p);
        assert forall|j: int| 0 <= j < k implies !p(#[trigger] s[j]) by {
            assert(s[j] == rest[j]);
        }
        k
    } else {
        assert(p(s.last()));
        assert forall|j: int| 0 <= j < s.len() - 1 implies !p(#[trigger] s[j]) by {
            if p(s[j]) {
                assert(rest[j] == s[j]);
                rest.lemma_filter_contains(p, j);
            }
        }
        s.len() - 1
    }
}

/// A sorted list keeps the first of each channel where the list it was sorted
/// from has it.
proof fn lemma_first_in_the_sorted_is_first(
    sorted: Seq<NamedChannel>,
    all: Seq<NamedChannel>,
    r: int,
) -> (k: int)
    requires
        sort::sorted_from(sorted, all, channel_order()),
        is_first(sorted, r),
    ensures
        is_first(all, k),
        all[k] == sorted[r],
{
    lemma_channels_are_ordered();
    let x = sorted[r];
    let p = sort::ties(channel_order(), x);
    assert(p(x));
    sorted.lemma_filter_contains(p, r);
    let i = lemma_first_passed(sorted, p);
    if i < r {
        assert(same_channel(sorted[i], x));
    }
    assert(i == r);
    let k = lemma_first_passed(all, p);
    assert(all[k] == x);
    assert forall|j: int| 0 <= j < k implies !same_channel(#[trigger] all[j], all[k]) by {
        assert(!p(all[j]));
    }
    k
}

/// In a sorted list, a channel that differs from the one before it is the first
/// of its own, and comes after all of those before it.
proof fn lemma_a_new_channel(sorted: Seq<NamedChannel>, k: int)
    requires
        sort::in_order(sorted, channel_order()),
        0 <= k < sorted.len(),
        k > 0 ==> !same_channel(sorted[k - 1], sorted[k]),
    ensures
        is_first(sorted, k),
        forall|r: int| 0 <= r < k ==> channel_order()(#[trigger] sorted[r], sorted[k]),
{
    lemma_channels_are_ordered();
    let less = channel_order();
    assert forall|r: int| 0 <= r < k implies less(#[trigger] sorted[r], sorted[k]) by {
        assert(!less(sorted[k], sorted[k - 1]));
        assert(!sort::ties(less, sorted[k - 1])(sorted[k]));
        assert(less(sorted[k - 1], sorted[k]));
        if r < k - 1 {
            assert(!less(sorted[k - 1], sorted[r]));
            assert(less(sorted[k - 1], sorted[r]) || less(sorted[r], sorted[k]));
        }
    }
    assert forall|j: int| 0 <= j < k implies !same_channel(#[trigger] sorted[j], sorted[k]) by {
        assert(less(sorted[j], sorted[k]));
        assert(!sort::ties(less, sorted[j])(sorted[k]));
    }
}

/// The first of every run of the same channel.
spec fn heads(s: Seq<NamedChannel>) -> Seq<NamedChannel>
    decreases s.len(),
{
    if s.len() == 0 {
        s
    } else if s.len() > 1 && same_channel(s[s.len() - 2], s.last()) {
        heads(s.drop_last())
    } else {
        heads(s.drop_last()).push(s.last())
    }
}

proof fn lemma_heads_are_in_the_list(s: Seq<NamedChannel>, i: int) -> (r: int)
    requires
        sort::in_order(s, channel_order()),
        0 <= i < heads(s).len(),
    ensures
        is_first(s, r),
        s[r] == heads(s)[i],
    decreases s.len(),
{
    let rest = s.drop_last();
    if i < heads(rest).len() {
        let r = lemma_heads_are_in_the_list(rest, i);
        assert forall|j: int| 0 <= j < r implies !same_channel(#[trigger] s[j], s[r]) by {
            assert(s[j] == rest[j]);
        }
        r
    } else {
        lemma_a_new_channel(s, s.len() - 1);
        s.len() - 1
    }
}

proof fn lemma_heads_increase(s: Seq<NamedChannel>)
    requires
        sort::in_order(s, channel_order()),
    ensures
        increasing(heads(s)),
    decreases s.len(),
{
    if s.len() > 0 {
        let rest = s.drop_last();
        lemma_heads_increase(rest);
        if !(s.len() > 1 && same_channel(s[s.len() - 2], s.last())) {
            lemma_a_new_channel(s, s.len() - 1);
            let out = heads(s);
            assert forall|i: int, j: int| 0 <= i < j < out.len() implies channel_order()(
                #[trigger] out[i],
                #[trigger] out[j],
            ) by {
                assert(out[i] == heads(rest)[i]);
                if j < heads(rest).len() {
                    assert(out[j] == heads(rest)[j]);
                } else {
                    let r = lemma_heads_are_in_the_list(rest, i);
                    assert(s[r] == rest[r]);
                }
            }
        }
    }
}

proof fn lemma_heads_hold_every_channel(s: Seq<NamedChannel>, r: int)
    requires
        0 <= r < s.len(),
    ensures
        heads(s).len() > 0,
        same_channel(heads(s).last(), s.last()),
        holds(heads(s), s[r]),
    decreases s.len(),
{
    let rest = s.drop_last();
    if s.len() > 1 && same_channel(s[s.len() - 2], s.last()) {
        lemma_heads_hold_every_channel(rest, if r < rest.len() { r } else { 0 });
        assert(rest.last() == s[s.len() - 2]);
        assert(same_channel(heads(s)[heads(s).len() - 1], s.last()));
    } else if r < rest.len() {
        lemma_heads_hold_every_channel(rest, r);
        let i = choose|i: int|
            0 <= i < heads(rest).len() && same_channel(#[trigger] heads(rest)[i], rest[r]);
        assert(heads(s)[i] == heads(rest)[i]);
    } else {
        assert(heads(s)[heads(s).len() - 1] == s[r]);
    }
}

/// The first of every run in a sorting of a list is every channel of the list,
/// once, as it first occurs.
proof fn lemma_heads_are_each_once(sorted: Seq<NamedChannel>, all: Seq<NamedChannel>)
    requires
        sort::sorted_from(sorted, all, channel_order()),
    ensures
        each_once(heads(sorted), all),
{
    lemma_channels_are_ordered();
    sort::lemma_sorted_holds_the_same(sorted, all, channel_order());
    let out = heads(sorted);
    lemma_heads_increase(sorted);
    assert forall|i: int| 0 <= i < out.len() implies #[trigger] first_in(all, out[i]) by {
        let r = lemma_heads_are_in_the_list(sorted, i);
        let k = lemma_first_in_the_sorted_is_first(sorted, all, r);
        assert(is_first(all, k));
    }
    assert forall|k: int| 0 <= k < all.len() implies #[trigger] holds(out, all[k]) by {
        assert(all.contains(all[k]));
        assert(sorted.contains(all[k]));
        let r = choose|r: int| 0 <= r < sorted.len() && sorted[r] == all[k];
        lemma_heads_hold_every_channel(sorted, r);
    }
}

/// Every channel of the account, nested devices flattened in, each once.
pub fn channels_of(account: &Account) -> (out: Vec<NamedChannel>)
    ensures
        each_once(out@, walked_all(account.devices@, None)),
{
    let none: Option<String> = None;
    let mut found: Vec<NamedChannel> = Vec::new();
    let mut i: usize = 0;
    assert(account.devices@.take(0) =~= Seq::<Device>::empty());
    while i < account.devices.len()
        invariant
            i <= account.devices.len(),
            none is None,
            found@ == walked_all(account.devices@.take(i as int), None),
        decreases account.devices.len() - i,
    {
        assert(account.devices@.take(i + 1).drop_last() =~= account.devices@.take(i as int));
        walk(&account.devices[i], &none, &mut found);
        i = i + 1;
    }
    assert(account.devices@.take(account.devices@.len() as int) =~= account.devices@);
    let ghost all = found@;
    proof {
        lemma_channels_are_ordered();
    }
    let sorted = sort::sorted(found, channel_before, Ghost(channel_order()));
    let mut out: Vec<NamedChannel> = Vec::new();
    let mut k: usize = 0;
    assert(out@ =~= heads(sorted@.take(0)));
    while k < sorted.len()
        invariant
            k <= sorted.len(),
            out@ == heads(sorted@.take(k as int)),
        decreases sorted.len() - k,
    {
        assert(sorted@.take(k + 1).drop_last() =~= sorted@.take(k as int));
        if k == 0 || sorted[k - 1].device_gid != sorted[k].device_gid || !text::same(
            sorted[k - 1].channel_num.as_str(),
            sorted[k].channel_num.as_str(),
        ) {
            out.push(sorted[k].clone());
        }
        k = k + 1;
    }
    proof {
        assert(sorted@.take(sorted@.len() as int) =~= sorted@);
        lemma_heads_are_each_once(sorted@, all);
    }
    out
}

/// No channel of a monitor occurs twice in the flattened list.
pub proof fn law_no_channel_occurs_twice(
    out: Seq<NamedChannel>,
    all: Seq<NamedChannel>,
    i: int,
    j: int,
)
    requires
        each_once(out, all),
        0 <= i < out.len(),
        0 <= j < out.len(),
        same_channel(out[i], out[j]),
    ensures
        i == j,
{
    text::lemma_before_is_strict(out[i].channel_num@);
    if i < j {
        assert(channel_order()(out[i], out[j]));
    } else if j < i {
        assert(channel_order()(out[j], out[i]));
    }
}

/// Only one list holds every channel once, as it first occurs, in order.
pub proof fn law_flattening_is_unique(
    one: Seq<NamedChannel>,
    two: Seq<NamedChannel>,
    all: Seq<NamedChannel>,
)
    requires
        each_once(one, all),
        each_once(two, all),
    ensures
        one == two,
{
    assert forall|x: NamedChannel|
        #![trigger one.contains(x)]
        #![trigger two.contains(x)]
        one.contains(x) <==> two.contains(x) by {
        if one.contains(x) {
            lemma_both_hold(one, two, all, x);
        }
        if two.contains(x) {
            lemma_both_hold(two, one, all, x);
        }
    }
    lemma_increasing_lists_agree(one, two);
}

proof fn lemma_both_hold(
    one: Seq<NamedChannel>,
    two: Seq<NamedChannel>,
    all: Seq<NamedChannel>,
    x: NamedChannel,
)
    requires
        each_once(one, all),
        each_once(two, all),
        one.contains(x),
    ensures
        two.contains(x),
{
    let i = choose|i: int| 0 <= i < one.len() && one[i] == x;
    assert(first_in(all, one[i]));
    let k = choose|k: int| #[trigger] is_first(all, k) && all[k] == x;
    assert(holds(two, all[k]));
    let j = choose|j: int| 0 <= j < two.len() && same_channel(#[trigger] two[j], all[k]);
    assert(first_in(all, two[j]));
    let m = choose|m: int| #[trigger] is_first(all, m) && all[m] == two[j];
    if m < k {
        assert(same_channel(all[m], all[k]));
    } else if k < m {
        assert(same_channel(all[k], all[m]));
    }
}

/// Two increasing lists of the same channels end with the same one.
proof fn lemma_last_agrees(one: Seq<NamedChannel>, two: Seq<NamedChannel>)
    requires
        increasing(one),
        increasing(two),
        one.len() > 0,
        two.len() > 0,
        two.contains(one.last()),
        one.contains(two.last()),
    ensures
        one.last() == two.last(),
{
    lemma_channels_are_ordered();
    let x = one.last();
    let y = two.last();
    let i = choose|i: int| 0 <= i < two.len() && two[i] == x;
    let j = choose|j: int| 0 <= j < one.len() && one[j] == y;
    if i < two.len() - 1 && j < one.len() - 1 {
        assert(channel_order()(two[i], two[two.len() - 1]));
        assert(channel_order()(one[j], one[one.len() - 1]));
        assert(channel_order()(x, x));
    }
}

/// What an increasing list holds besides its last channel, it holds before it.
proof fn lemma_before_the_last(s: Seq<NamedChannel>, z: NamedChannel)
    requires
        increasing(s),
        s.len() > 0,
    ensures
        s.drop_last().contains(z) <==> s.contains(z) && z != s.last(),
{
    lemma_channels_are_ordered();
    let rest = s.drop_last();
    if rest.contains(z) {
        let m = choose|m: int| 0 <= m < rest.len() && rest[m] == z;
        assert(s[m] == z);
        assert(channel_order()(s[m], s[s.len() - 1]));
    }
    if s.contains(z) && z != s.last() {
        let n = choose|n: int| 0 <= n < s.len() && s[n] == z;
        assert(rest[n] == z);
    }
}

proof fn lemma_increasing_lists_agree(one: Seq<NamedChannel>, two: Seq<NamedChannel>)
    requires
        increasing(one),
        increasing(two),
        forall|x: NamedChannel|
            #![trigger one.contains(x)]
            #![trigger two.contains(x)]
            one.contains(x) <==> two.contains(x),
    ensures
        one == two,
    decreases one.len(),
{
    if one.len() == 0 || two.len() == 0 {
        if one.len() > 0 {
            assert(one.contains(one[0]));
        }
        if two.len() > 0 {
            assert(two.contains(two[0]));
        }
    } else {
        assert(one.contains(one[one.len() - 1]));
        assert(two.contains(two[two.len() - 1]));
        lemma_last_agrees(one, two);
        let a = one.drop_last();
        let b = two.drop_last();
        assert forall|z: NamedChannel|
            #![trigger a.contains(z)]
            #![trigger b.contains(z)]
            a.contains(z) <==> b.contains(z) by {
            lemma_before_the_last(one, z);
            lemma_before_the_last(two, z);
        }
        lemma_increasing_lists_agree(a, b);
        assert(one =~= a.push(one.last()));
        assert(two =~= b.push(two.last()));
    }
}

impl NamedChannel {
    /// This channel as the planner knows it.
    pub fn as_plan_channel(&self) -> (c: Channel)
        ensures
            c == (Channel { device_gid: self.device_gid, channel_num: self.channel_num }),
    {
        Channel { device_gid: self.device_gid, channel_num: self.channel_num.clone() }
    }
}

/// What a request answers with: a point for every step from the first instant
/// on, some of them null.
#[derive(Debug, PartialEq, Eq)]
pub struct ChartUsage {
    pub first_usage_instant: Option<Instant>,
    pub usage_list: Vec<Option<u64>>,
}

/// One stored reading.
#[derive(Copy, Clone, Debug, PartialEq, Eq, Structural)]
pub struct Reading {
    pub instant: Instant,
    pub kwh: u64,
}

/// A reading, its instant in nanoseconds.
pub struct ReadingView {
    pub instant: int,
    pub kwh: u64,
}

impl View for Reading {
    type V = ReadingView;

    open spec fn view(&self) -> ReadingView {
        ReadingView { instant: self.instant@, kwh: self.kwh }
    }
}

/// Readings, as views.
pub open spec fn reading_views(v: Seq<Reading>) -> Seq<ReadingView> {
    v.map_values(|r: Reading| r@)
}

/// The instant of a point, counted in steps from the first.
pub open spec fn point_instant(first: int, i: int, scale: Scale) -> int {
    first + time::seconds(scale.step_seconds() * i)
}

/// The points that are not null, each at its own instant.
pub open spec fn kept(points: Seq<Option<u64>>, first: int, scale: Scale) -> Seq<ReadingView>
    decreases points.len(),
{
    if points.len() == 0 {
        seq![]
    } else {
        let before = kept(points.drop_last(), first, scale);
        match points.last() {
            Some(kwh) => before.push(
                ReadingView { instant: point_instant(first, points.len() - 1, scale), kwh },
            ),
            None => before,
        }
    }
}

/// What a response comes to: nothing without a first instant to count from.
pub open spec fn read(usage: ChartUsage, scale: Scale) -> Seq<ReadingView> {
    match usage.first_usage_instant {
        Some(first) => kept(usage.usage_list@, first@, scale),
        None => seq![],
    }
}

/// Whether every point of a response that is not null has an instant that can
/// be represented.
pub open spec fn points_fit(usage: ChartUsage, scale: Scale) -> bool {
    usage.first_usage_instant matches Some(first) ==> first.valid() && forall|i: int|
        0 <= i < usage.usage_list@.len() && (#[trigger] usage.usage_list@[i]) is Some
            ==> time::representable(point_instant(first@, i, scale))
}

/// Whether every point of a response that is not null has an instant that can
/// be represented.
pub fn fits(usage: &ChartUsage, scale: Scale) -> (r: bool)
    ensures
        r == points_fit(*usage, scale),
{
    let first = match usage.first_usage_instant {
        Some(t) => t,
        None => {
            return true;
        },
    };
    if !first.in_range() {
        return false;
    }
    let list = &usage.usage_list;
    let mut i: usize = 0;
    while i < list.len()
        invariant
            i <= list.len(),
            first.valid(),
            forall|k: int|
                0 <= k < i && (#[trigger] list@[k]) is Some ==> time::representable(
                    point_instant(first@, k, scale),
                ),
            usage.first_usage_instant == Some(first),
            *list == usage.usage_list,
        decreases list.len() - i,
    {
        match list[i] {
            Some(_) => if !plan::instant_fits(first, i, scale) {
                assert(list@[i as int] is Some);
                return false;
            },
            None => {},
        }
        i = i + 1;
    }
    true
}

/// Turns a response into readings, dropping the nulls.
///
/// A null is not a zero: it means that nothing is known of that interval.
pub fn readings(usage: &ChartUsage, scale: Scale) -> (out: Vec<Reading>)
    requires
        points_fit(*usage, scale),
    ensures
        reading_views(out@) == read(*usage, scale),
        forall|i: int| 0 <= i < out@.len() ==> (#[trigger] out@[i]).instant.valid(),
{
    let mut out: Vec<Reading> = Vec::new();
    let first = match usage.first_usage_instant {
        Some(t) => t,
        None => {
            assert(reading_views(out@) =~= read(*usage, scale));
            return out;
        },
    };
    let list = &usage.usage_list;
    let mut i: usize = 0;
    assert(reading_views(out@) =~= kept(list@.take(0), first@, scale));
    while i < list.len()
        invariant
            i <= list.len(),
            first.valid(),
            forall|k: int|
                0 <= k < list@.len() && (#[trigger] list@[k]) is Some ==> time::representable(
                    point_instant(first@, k, scale),
                ),
            reading_views(out@) == kept(list@.take(i as int), first@, scale),
            forall|k: int| 0 <= k < out@.len() ==> (#[trigger] out@[k]).instant.valid(),
        decreases list.len() - i,
    {
        let ghost was = out@;
        assert(list@.take(i + 1).drop_last() =~= list@.take(i as int));
        match list[i] {
            Some(kwh) => {
                out.push(Reading { instant: plan::instant_at(first, i, scale), kwh });
                assert(reading_views(out@) =~= reading_views(was).push(out@.last()@));
            },
            None => {},
        }
        i = i + 1;
    }
    assert(list@.take(list@.len() as int) =~= list@);
    out
}

/// Every value of a response becomes a reading at the instant of its own point;
/// a gap before it is not closed up.
pub proof fn law_every_value_keeps_its_own_interval(
    points: Seq<Option<u64>>,
    first: int,
    scale: Scale,
    i: int,
)
    requires
        0 <= i < points.len(),
        points[i] is Some,
    ensures
        kept(points, first, scale).contains(
            (ReadingView { instant: point_instant(first, i, scale), kwh: points[i]->0 }),
        ),
    decreases points.len(),
{
    let rest = points.drop_last();
    let r = ReadingView { instant: point_instant(first, i, scale), kwh: points[i]->0 };
    let before = kept(rest, first, scale);
    let all = kept(points, first, scale);
    if i < rest.len() {
        law_every_value_keeps_its_own_interval(rest, first, scale, i);
        let k = choose|k: int| 0 <= k < before.len() && before[k] == r;
        assert(all[k] == r);
    } else {
        assert(all[all.len() - 1] == r);
    }
}

/// Every reading is a value of the response at the instant of its own point: a
/// null becomes nothing, and never a zero.
pub proof fn law_a_null_is_not_a_reading(
    points: Seq<Option<u64>>,
    first: int,
    scale: Scale,
    k: int,
)
    requires
        0 <= k < kept(points, first, scale).len(),
    ensures
        exists|i: int|
            0 <= i < points.len() && #[trigger] points[i] == Some(
                kept(points, first, scale)[k].kwh,
            ) && kept(points, first, scale)[k].instant == point_instant(first, i, scale),
    decreases points.len(),
{
    let rest = points.drop_last();
    if k < kept(rest, first, scale).len() {
        law_a_null_is_not_a_reading(rest, first, scale, k);
        let i = choose|i: int|
            0 <= i < rest.len() && #[trigger] rest[i] == Some(kept(rest, first, scale)[k].kwh)
                && kept(rest, first, scale)[k].instant == point_instant(first, i, scale);
        assert(points[i] == rest[i]);
    } else {
        assert(points[points.len() - 1] is Some);
    }
}

/// Readings come in the order of time, no two of them at one instant.
pub proof fn law_readings_advance(
    points: Seq<Option<u64>>,
    first: int,
    scale: Scale,
    j: int,
    k: int,
)
    requires
        0 <= j < k < kept(points, first, scale).len(),
    ensures
        kept(points, first, scale)[j].instant < kept(points, first, scale)[k].instant,
    decreases points.len(),
{
    let rest = points.drop_last();
    let before = kept(rest, first, scale);
    if k < before.len() {
        law_readings_advance(rest, first, scale, j, k);
    } else {
        law_a_null_is_not_a_reading(rest, first, scale, j);
        let i = choose|i: int|
            0 <= i < rest.len() && #[trigger] rest[i] == Some(before[j].kwh) && before[j].instant
                == point_instant(first, i, scale);
        assert(scale.step_seconds() * i < scale.step_seconds() * (points.len() - 1))
            by (nonlinear_arith)
            requires
                i < points.len() - 1,
                scale.step_seconds() > 0,
        ;
    }
}

/// A response of nulls alone is an empty answer.
pub proof fn law_nulls_alone_are_nothing(points: Seq<Option<u64>>, first: int, scale: Scale)
    requires
        forall|i: int| 0 <= i < points.len() ==> (#[trigger] points[i]) is None,
    ensures
        kept(points, first, scale) == Seq::<ReadingView>::empty(),
    decreases points.len(),
{
    if points.len() > 0 {
        law_nulls_alone_are_nothing(points.drop_last(), first, scale);
    }
}

/// The readings of a response are its values that are not null, each as many steps
/// of the scale after the first instant as there are points before it: a minute, a
/// quarter of an hour, an hour or a day from one point to the next. They come in
/// the order of time, and a response without a first instant has none.
pub proof fn law_a_reading_lies_its_steps_after_the_first(
    usage: ChartUsage,
    scale: Scale,
    first: Instant,
    step: int,
)
    requires
        scale == Scale::Minute ==> step == 60,
        scale == Scale::QuarterHour ==> step == 900,
        scale == Scale::Hour ==> step == 3600,
        scale == Scale::Day ==> step == 86_400,
    ensures
        usage.first_usage_instant is None ==> read(usage, scale).len() == 0,
        usage.first_usage_instant == Some(first) ==> {
            let out = read(usage, scale);
            let points = usage.usage_list@;
            &&& forall|i: int|
                0 <= i < points.len() && (#[trigger] points[i]) is Some ==> out.contains(
                    (ReadingView {
                        instant: first@ + i * step * 1_000_000_000,
                        kwh: points[i]->0,
                    }),
                )
            &&& forall|k: int|
                0 <= k < out.len() ==> exists|i: int|
                    0 <= i < points.len() && #[trigger] points[i] == Some(
                        (#[trigger] out[k]).kwh,
                    ) && out[k].instant == first@ + i * step * 1_000_000_000
            &&& forall|j: int, k: int|
                0 <= j < k < out.len() ==> (#[trigger] out[j]).instant < (
                #[trigger] out[k]).instant
        },
{
    if usage.first_usage_instant == Some(first) {
        let out = read(usage, scale);
        let points = usage.usage_list@;
        assert(step == scale.step_seconds());
        assert forall|i: int| 0 <= i < points.len() && (#[trigger] points[i]) is Some implies
            out.contains(
            (ReadingView { instant: first@ + i * step * 1_000_000_000, kwh: points[i]->0 }),
        ) by {
            law_every_value_keeps_its_own_interval(points, first@, scale, i);
            lemma_point_instant(first@, i, scale);
        }
        assert forall|k: int| 0 <= k < out.len() implies exists|i: int|
            0 <= i < points.len() && #[trigger] points[i] == Some((#[trigger] out[k]).kwh)
                && out[k].instant == first@ + i * step * 1_000_000_000 by {
            law_a_null_is_not_a_reading(points, first@, scale, k);
            let i = choose|i: int|
                0 <= i < points.len() && #[trigger] points[i] == Some(out[k].kwh)
                    && out[k].instant == point_instant(first@, i, scale);
            lemma_point_instant(first@, i, scale);
            assert(points[i] == Some(out[k].kwh));
        }
        assert forall|j: int, k: int| 0 <= j < k < out.len() implies (#[trigger] out[j]).instant
            < (#[trigger] out[k]).instant by {
            law_readings_advance(points, first@, scale, j, k);
        }
    }
}

proof fn lemma_point_instant(first: int, i: int, scale: Scale)
    ensures
        point_instant(first, i, scale) == first + i * scale.step_seconds() * 1_000_000_000,
{
    assert(scale.step_seconds() * i == i * scale.step_seconds()) by (nonlinear_arith);
}

/// Two neighbouring values become readings one step apart.
pub proof fn law_neighbours_are_one_step_apart(first: int, i: int, scale: Scale)
    ensures
        point_instant(first, 0, scale) == first,
        point_instant(first, i + 1, Scale::Minute) - point_instant(first, i, Scale::Minute)
            == 60_000_000_000,
        point_instant(first, i + 1, Scale::QuarterHour) - point_instant(
            first,
            i,
            Scale::QuarterHour,
        ) == 900_000_000_000,
        point_instant(first, i + 1, Scale::Hour) - point_instant(first, i, Scale::Hour)
            == 3_600_000_000_000,
        point_instant(first, i + 1, Scale::Day) - point_instant(first, i, Scale::Day)
            == 86_400_000_000_000,
{
    assert(scale.step_seconds() * 0 == 0) by (nonlinear_arith);
}

/// A response can be read exactly where each of its values lies at an instant that
/// can be represented, counted in steps of the scale from a first instant that can.
pub proof fn law_when_a_response_can_be_read(
    usage: ChartUsage,
    scale: Scale,
    first: Instant,
    step: int,
)
    requires
        scale == Scale::Minute ==> step == 60,
        scale == Scale::QuarterHour ==> step == 900,
        scale == Scale::Hour ==> step == 3600,
        scale == Scale::Day ==> step == 86_400,
    ensures
        usage.first_usage_instant is None ==> points_fit(usage, scale),
        usage.first_usage_instant == Some(first) ==> (points_fit(usage, scale)
            <==> time::representable(first@) && forall|i: int|
            0 <= i < usage.usage_list@.len() && (#[trigger] usage.usage_list@[i]) is Some
                ==> time::representable(first@ + i * step * 1_000_000_000)),
{
    assert forall|i: int| #[trigger] point_instant(first@, i, scale) == first@ + i * step
        * 1_000_000_000 by {
        lemma_point_instant(first@, i, scale);
    }
    if usage.first_usage_instant == Some(first) && points_fit(usage, scale) {
        assert forall|i: int|
            0 <= i < usage.usage_list@.len() && (#[trigger] usage.usage_list@[i]) is Some implies
            time::representable(first@ + i * step * 1_000_000_000) by {
            assert(time::representable(point_instant(first@, i, scale)));
        }
    }
}

/// The channels of devices are those of each device in turn, and of one device its
/// own, in order and as the account describes them, and then those of the devices
/// nested in it. A device without a name goes by the one it is nested in.
pub proof fn law_every_nested_channel_is_walked(
    before: Seq<Device>,
    d: Device,
    inherited: Option<String>,
    name: Option<String>,
)
    requires
        (d.location matches Some(l) && l.device_name is Some) ==> name
            == d.location->0.device_name,
        !(d.location matches Some(l) && l.device_name is Some) ==> name == inherited,
    ensures
        walked_all(Seq::empty(), inherited).len() == 0,
        walked_all(before.push(d), inherited) == walked_all(before, inherited)
            + d.channels@.map_values(
            |c: ApiChannel|
                NamedChannel {
                    device_gid: d.device_gid,
                    device_name: name,
                    channel_num: c.channel_num,
                    name: c.name,
                    kind: kind_of(c.channel_num@),
                    multiplier: c.multiplier,
                    merged_into: c.merged_into,
                },
        ) + walked_all(d.devices@, name),
{
    assert(before.push(d).drop_last() =~= before);
    assert(name == name_of(d, inherited));
    let own = d.channels@.map_values(|c: ApiChannel| named(d, name, c));
    assert(own =~= d.channels@.map_values(
        |c: ApiChannel|
            NamedChannel {
                device_gid: d.device_gid,
                device_name: name,
                channel_num: c.channel_num,
                name: c.name,
                kind: kind_of(c.channel_num@),
                multiplier: c.multiplier,
                merged_into: c.merged_into,
            },
    ));
    assert(walked(d, inherited) == own + walked_all(d.devices@, name));
    assert(before.push(d).last() == d);
    assert(walked_all(before.push(d), inherited) == walked_all(before, inherited) + walked(
        d,
        inherited,
    ));
    assert(walked_all(before, inherited) + (own + walked_all(d.devices@, name)) =~= walked_all(
        before,
        inherited,
    ) + own + walked_all(d.devices@, name));
}

/// A flattened list is ordered by monitor, and there by number as text.
pub proof fn law_a_flattened_list_is_in_order(
    out: Seq<NamedChannel>,
    all: Seq<NamedChannel>,
    i: int,
    j: int,
)
    requires
        each_once(out, all),
        0 <= i < j < out.len(),
    ensures
        out[i].device_gid < out[j].device_gid || (out[i].device_gid == out[j].device_gid
            && text::comes_before(out[i].channel_num@, out[j].channel_num@)),
{
    assert(channel_order()(out[i], out[j]));
}

/// A flattened list holds a channel as it first occurs: no earlier channel of its
/// monitor has its number.
pub proof fn law_a_channel_is_held_as_it_first_occurs(
    out: Seq<NamedChannel>,
    all: Seq<NamedChannel>,
    i: int,
) -> (k: int)
    requires
        each_once(out, all),
        0 <= i < out.len(),
    ensures
        0 <= k < all.len(),
        all[k] == out[i],
        forall|j: int|
            0 <= j < k ==> !(all[k].device_gid == (#[trigger] all[j]).device_gid
                && all[k].channel_num@ == all[j].channel_num@),
{
    assert(first_in(all, out[i]));
    let k = choose|k: int| #[trigger] is_first(all, k) && all[k] == out[i];
    assert forall|j: int| 0 <= j < k implies !(all[k].device_gid == (#[trigger] all[j]).device_gid
        && all[k].channel_num@ == all[j].channel_num@) by {
        assert(!same_channel(all[j], all[k]));
    }
    k
}

/// A flattened list holds every channel that occurs.
pub proof fn law_no_channel_is_left_out(
    out: Seq<NamedChannel>,
    all: Seq<NamedChannel>,
    k: int,
) -> (i: int)
    requires
        each_once(out, all),
        0 <= k < all.len(),
    ensures
        0 <= i < out.len(),
        out[i].device_gid == all[k].device_gid,
        out[i].channel_num@ == all[k].channel_num@,
{
    assert(holds(out, all[k]));
    choose|i: int| 0 <= i < out.len() && same_channel(#[trigger] out[i], all[k])
}

/// A number below 97 is a branch, one from 97 up is a merged channel, and whatever
/// is no number, or one too large, is the mains.
pub proof fn law_a_kind_goes_by_the_number(channel_num: Seq<char>)
    ensures
        kind_of(channel_num) == ChannelKind::Branch <==> (text::unsigned_value(channel_num)
            matches Some(n) && n < 97),
        kind_of(channel_num) == ChannelKind::Merged <==> (text::unsigned_value(channel_num)
            matches Some(n) && 97 <= n <= 4_294_967_295),
{
    if channel_num.contains(',') {
        let i = choose|i: int| 0 <= i < channel_num.len() && channel_num[i] == ',';
        let body = if channel_num.len() > 0 && channel_num[0] == '+' {
            channel_num.skip(1)
        } else {
            channel_num
        };
        if text::is_numeral(body) {
            if channel_num[0] == '+' {
                assert(body[i - 1] == ',');
            } else {
                assert(body[i] == ',');
            }
        }
    }
}

/// Each kind goes by its own word.
pub proof fn law_each_kind_goes_by_its_own_word(k: ChannelKind)
    ensures
        k == ChannelKind::Main ==> k.word() == "main"@,
        k == ChannelKind::Branch ==> k.word() == "branch"@,
        k == ChannelKind::Merged ==> k.word() == "merged"@,
{
}

/// A letter, a digit and one of `-_.~` stand for themselves in a URL; every other
/// byte is a percent sign and the two capital hexadecimal digits of it, the higher
/// one first.
pub proof fn law_a_byte_is_written_by_its_own_digits(b: u8)
    ensures
        ({
            let plain = (65 <= b <= 90) || (97 <= b <= 122) || (48 <= b <= 57) || b == 45 || b == 46
                || b == 95 || b == 126;
            let worth = |c: char|
                if c as int <= 57 {
                    c as int - 48
                } else {
                    c as int - 55
                };
            let text = encoded_byte(b);
            &&& plain ==> text.len() == 1 && text[0] as int == b
            &&& !plain ==> {
                &&& text.len() == 3
                &&& text[0] == '%'
                &&& ('0' <= text[1] <= '9') || ('A' <= text[1] <= 'F')
                &&& ('0' <= text[2] <= '9') || ('A' <= text[2] <= 'F')
                &&& 16 * worth(text[1]) + worth(text[2]) == b
            }
        }),
{
}

/// A text is encoded byte by byte, in the order of the bytes of its UTF-8.
pub proof fn law_a_text_is_encoded_byte_by_byte(s: Seq<char>, a: Seq<u8>, b: Seq<u8>)
    ensures
        encoded(s) == encoded_bytes(vstd::utf8::encode_utf8(s)),
        encoded_bytes(a + b) == encoded_bytes(a) + encoded_bytes(b),
        encoded_bytes(Seq::empty()).len() == 0,
        a.len() == 1 ==> encoded_bytes(a) == encoded_byte(a[0]),
    decreases a.len(),
{
    if a.len() == 0 {
        assert(a + b =~= b);
        assert(encoded_bytes(a) + encoded_bytes(b) =~= encoded_bytes(b));
    } else {
        let rest = a.drop_first();
        law_a_text_is_encoded_byte_by_byte(s, rest, b);
        assert((a + b).drop_first() =~= rest + b);
        assert((a + b)[0] == a[0]);
        assert(encoded_byte(a[0]) + (encoded_bytes(rest) + encoded_bytes(b)) =~= encoded_byte(a[0])
            + encoded_bytes(rest) + encoded_bytes(b));
        if a.len() == 1 {
            assert(encoded_byte(a[0]) + encoded_bytes(rest) =~= encoded_byte(a[0]));
        }
    }
}

/// The URL of a request names the monitor, the channel, the two ends of the window
/// and the scale of its own fetch, and asks for kilowatt hours.
pub proof fn law_a_request_asks_for_its_own_window(f: Fetch)
    ensures
        chart_text(f)
            == "https://api.emporiaenergy.com"@ + "/AppAPI?apiMethod=getChartUsage&deviceGid="@
            + text::signed_digits(f.series.device_gid as int) + "&channel="@ + encoded(
            f.series.channel_num@,
        ) + "&start="@ + encoded(
            time::formatted(f.start@ / 1_000_000_000, "%Y-%m-%dT%H:%M:%SZ"@),
        ) + "&end="@ + encoded(
            time::formatted(f.end@ / 1_000_000_000, "%Y-%m-%dT%H:%M:%SZ"@),
        ) + "&scale="@ + f.series.scale.name() + "&energyUnit=KilowattHours"@,
{
}

/// A reading is seen as its own instant and its own energy.
pub proof fn law_a_reading_is_seen_as_it_is(r: Reading, v: Seq<Reading>, i: int)
    ensures
        r@.instant == r.instant.nanos,
        r@.kwh == r.kwh,
        reading_views(v).len() == v.len(),
        0 <= i < v.len() ==> reading_views(v)[i] == v[i]@,
{
}

} // verus!
