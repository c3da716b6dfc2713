//! The texts that the terminal screens are made of.

use crate::blockchain;
use crate::double;
use crate::double::Double;
use crate::text;
use std::collections::VecDeque;
use vstd::arithmetic::power2;
use vstd::prelude::*;
use vstd::string::StringExecFns;
use vstd::utf8;

verus! {

// ---- Hash rates ----------------------------------------------------------------------

/// The unit in which a hash rate is shown.
#[derive(Clone, Copy, Debug, PartialEq, Eq, Structural)]
pub enum Unit {
    Mega,
    Kilo,
    One,
}

/// The unit in which a whole hash rate is shown.
pub open spec fn unit_for(hr: nat) -> Unit {
    if hr >= 1_000_000 {
        Unit::Mega
    } else if hr >= 1_000 {
        Unit::Kilo
    } else {
        Unit::One
    }
}

/// The unit in which a whole hash rate is shown.
pub fn hashrate_unit(hr: u64) -> (unit: Unit)
    ensures
        unit == unit_for(hr as nat),
{
    if hr >= 1_000_000 {
        Unit::Mega
    } else if hr >= 1_000 {
        Unit::Kilo
    } else {
        Unit::One
    }
}

/// How many hashes a second a unit stands for.
pub fn unit_size(unit: Unit) -> (size: u64)
    ensures
        size == (match unit {
            Unit::Mega => 1_000_000u64,
            Unit::Kilo => 1_000u64,
            Unit::One => 1u64,
        }),
{
    match unit {
        Unit::Mega => 1_000_000,
        Unit::Kilo => 1_000,
        Unit::One => 1,
    }
}

/// A whole hash rate with its unit. `scaled` is the rate in that unit, with two decimals.
pub open spec fn hr_text(hr: nat, scaled: Seq<char>) -> Seq<char> {
    match unit_for(hr) {
        Unit::Mega => scaled + " MH/s"@,
        Unit::Kilo => scaled + " KH/s"@,
        Unit::One => text::decimal(hr) + " H/s"@,
    }
}

/// A whole hash rate with its unit.
pub fn fmt_hr(hr: u64, scaled: &str) -> (s: String)
    ensures
        s@ == hr_text(hr as nat, scaled@),
{
    match hashrate_unit(hr) {
        Unit::Mega => scaled.to_owned().concat(" MH/s"),
        Unit::Kilo => scaled.to_owned().concat(" KH/s"),
        Unit::One => text::u64_text(hr).concat(" H/s"),
    }
}

/// The unit in which a fractional hash rate is shown.
pub open spec fn unit_for_rate(hr: Double) -> Unit {
    if !hr.is_nan() && hr.value() >= 1_000_000 * double::one() {
        Unit::Mega
    } else if !hr.is_nan() && hr.value() >= 1_000 * double::one() {
        Unit::Kilo
    } else {
        Unit::One
    }
}

/// The bits of the number one million.
const MILLION_BITS: u64 = 0x412e_8480_0000_0000;

/// The bits of the number one thousand.
const THOUSAND_BITS: u64 = 0x408f_4000_0000_0000;

proof fn lemma_thresholds()
    ensures
        (Double { bits: MILLION_BITS }).value() == 1_000_000 * double::one(),
        (Double { bits: THOUSAND_BITS }).value() == 1_000 * double::one(),
        !(Double { bits: MILLION_BITS }).is_nan(),
        !(Double { bits: THOUSAND_BITS }).is_nan(),
{
    power2::lemma2_to64();
    power2::lemma2_to64_rest();
    assert(0x412e_8480_0000_0000int / 0x0010_0000_0000_0000 == 1042);
    assert(0x412e_8480_0000_0000int % 0x0010_0000_0000_0000 == 0x000e_8480_0000_0000);
    power2::lemma_pow2_adds(33, 1041);
    let p = power2::pow2(1041);
    assert((0x0010_0000_0000_0000 + 0x000e_8480_0000_0000) * p == 1_000_000 * (
    0x2_0000_0000 * p)) by (nonlinear_arith);
    assert(0x408f_4000_0000_0000int / 0x0010_0000_0000_0000 == 1032);
    assert(0x408f_4000_0000_0000int % 0x0010_0000_0000_0000 == 0x000f_4000_0000_0000);
    power2::lemma_pow2_adds(43, 1031);
    let q = power2::pow2(1031);
    assert((0x0010_0000_0000_0000 + 0x000f_4000_0000_0000) * q == 1_000 * (0x800_0000_0000
        * q)) by (nonlinear_arith);
}

/// The unit in which a fractional hash rate is shown.
pub fn rate_unit(hr: Double) -> (unit: Unit)
    ensures
        unit == unit_for_rate(hr),
{
    proof {
        lemma_thresholds();
    }
    let million = Double { bits: MILLION_BITS };
    let thousand = Double { bits: THOUSAND_BITS };
    if million.at_most_as(&hr) {
        Unit::Mega
    } else if thousand.at_most_as(&hr) {
        Unit::Kilo
    } else {
        Unit::One
    }
}

/// A fractional hash rate with its unit. `scaled` is the rate in that unit, with two decimals.
pub open spec fn rate_text(hr: Double, scaled: Seq<char>) -> Seq<char> {
    scaled + (match unit_for_rate(hr) {
        Unit::Mega => " MH/s"@,
        Unit::Kilo => " KH/s"@,
        Unit::One => "  H/s"@,
    })
}

/// A fractional hash rate with its unit.
pub fn fmt_hashrate(hr: Double, scaled: &str) -> (s: String)
    ensures
        s@ == rate_text(hr, scaled@),
{
    match rate_unit(hr) {
        Unit::Mega => scaled.to_owned().concat(" MH/s"),
        Unit::Kilo => scaled.to_owned().concat(" KH/s"),
        Unit::One => scaled.to_owned().concat("  H/s"),
    }
}

// ---- Times -----------------------------------------------------------------------------

/// A span in its two largest units, as the pool screens show it.
pub open spec fn uptime(s: nat) -> Seq<char> {
    if s < 60 {
        text::decimal(s) + "s"@
    } else if s < 3600 {
        text::decimal(s / 60) + "m "@ + text::decimal(s % 60) + "s"@
    } else {
        text::decimal(s / 3600) + "h "@ + text::decimal((s % 3600) / 60) + "m"@
    }
}

/// A span in its two largest units.
pub fn fmt_up(s: u64) -> (t: String)
    ensures
        t@ == uptime(s as nat),
{
    let (a, b, unit_a, unit_b): (u64, u64, &str, &str) = if s < 60 {
        return text::u64_text(s).concat("s");
    } else if s < 3600 {
        (s / 60, s % 60, "m ", "s")
    } else {
        (s / 3600, (s % 3600) / 60, "h ", "m")
    };
    text::u64_text(a).concat(unit_a).concat(text::u64_text(b).as_str()).concat(unit_b)
}

/// A span in hours, minutes and seconds, as the solo screen shows it.
pub open spec fn duration(secs: nat) -> Seq<char> {
    let (h, m, s) = (secs / 3600, (secs % 3600) / 60, secs % 60);
    if h > 0 {
        text::decimal(h) + "h "@ + text::decimal(m) + "m "@ + text::decimal(s) + "s"@
    } else if m > 0 {
        text::decimal(m) + "m "@ + text::decimal(s) + "s"@
    } else {
        text::decimal(s) + "s"@
    }
}

/// A span in hours, minutes and seconds.
pub fn fmt_duration(secs: u64) -> (t: String)
    ensures
        t@ == duration(secs as nat),
{
    let h: u64 = secs / 3600;
    let m: u64 = (secs % 3600) / 60;
    let s: u64 = secs % 60;
    if h > 0 {
        let hours = text::u64_text(h).concat("h ");
        let minutes = hours.concat(text::u64_text(m).as_str()).concat("m ");
        minutes.concat(text::u64_text(s).as_str()).concat("s")
    } else if m > 0 {
        let minutes = text::u64_text(m).concat("m ");
        minutes.concat(text::u64_text(s).as_str()).concat("s")
    } else {
        text::u64_text(s).concat("s")
    }
}

// ---- Pieces of texts ---------------------------------------------------------------------

/// The first `n` bytes of a text.
pub open spec fn head_bytes(s: Seq<char>, n: nat) -> Seq<char> {
    utf8::decode_utf8(utf8::encode_utf8(s).take(n as int))
}

/// The bytes of a text after the first `n`.
pub open spec fn tail_bytes(s: Seq<char>, n: nat) -> Seq<char> {
    utf8::decode_utf8(utf8::encode_utf8(s).skip(n as int))
}

/// Whether a text can be parted after `n` bytes.
pub open spec fn parts_at(s: Seq<char>, n: nat) -> bool {
    utf8::is_char_boundary(utf8::encode_utf8(s), n as int)
}

/// Parts a text after `n` bytes.
fn part(s: &str, n: usize) -> (parts: (&str, &str))
    requires
        parts_at(s@, n as nat),
    ensures
        parts.0@ == head_bytes(s@, n as nat),
        parts.1@ == tail_bytes(s@, n as nat),
{
    let parts = s.split_at(n);
    proof {
        let all = utf8::encode_utf8(s@);
        assert(all.take(n as int) =~= all.subrange(0, n as int));
        assert(all.skip(n as int) =~= all.subrange(n as int, all.len() as int));
        utf8::encode_utf8_decode_utf8(parts.0@);
        utf8::encode_utf8_decode_utf8(parts.1@);
    }
    parts
}

/// The beginning of a text, cut off after `n` bytes where it is longer.
pub open spec fn cut(s: Seq<char>, n: nat) -> Seq<char> {
    if utf8::encode_utf8(s).len() <= n {
        s
    } else {
        head_bytes(s, n)
    }
}

/// Whether a text can be cut off after `n` bytes where it is longer.
pub open spec fn can_cut(s: Seq<char>, n: nat) -> bool {
    utf8::encode_utf8(s).len() > n ==> parts_at(s, n)
}

/// The beginning of a text, cut off after `n` bytes where it is longer.
pub fn trunc(s: &str, n: usize) -> (t: &str)
    requires
        can_cut(s@, n as nat),
    ensures
        t@ == cut(s@, n as nat),
{
    let bytes = s.as_bytes();
    if bytes.len() <= n {
        s
    } else {
        let (head, _) = part(s, n);
        head
    }
}

/// Where the part of a hash that counts ends: after as many bytes as the difficulty, or at the
/// end of what is shown.
pub open spec fn hit_len(peek: Seq<char>, difficulty: usize) -> nat {
    if utf8::encode_utf8(peek).len() < difficulty {
        utf8::encode_utf8(peek).len()
    } else {
        difficulty as nat
    }
}

/// Whether what is shown of a hash can be parted where the difficulty ends.
pub open spec fn can_part(peek: Seq<char>, difficulty: usize) -> bool {
    parts_at(peek, hit_len(peek, difficulty))
}

/// Parts what is shown of a hash into the part that counts and the rest.
pub fn split_peek(peek: &str, difficulty: usize) -> (parts: (&str, &str))
    requires
        can_part(peek@, difficulty),
    ensures
        parts.0@ == head_bytes(peek@, hit_len(peek@, difficulty)),
        parts.1@ == tail_bytes(peek@, hit_len(peek@, difficulty)),
{
    let bytes = peek.as_bytes();
    let hit: usize = if bytes.len() < difficulty { bytes.len() } else { difficulty };
    part(peek, hit)
}

/// Whether a hash can be shown by its two ends.
pub open spec fn has_ends(hash: Seq<char>) -> bool {
    parts_at(hash, 8) && parts_at(hash, 56)
}

/// A hash shown by its two ends: the first eight bytes and those from the fifty-sixth on.
pub fn hash_ends(hash: &str) -> (ends: (&str, &str))
    requires
        has_ends(hash@),
    ensures
        ends.0@ == head_bytes(hash@, 8),
        ends.1@ == tail_bytes(hash@, 56),
{
    let (head, _) = part(hash, 8);
    let (_, tail) = part(hash, 56);
    (head, tail)
}

/// The difficulty as a bar between brackets.
pub open spec fn bar(d: nat) -> Seq<char> {
    let rest = if d < blockchain::MAX_DIFFICULTY {
        (blockchain::MAX_DIFFICULTY - d) as nat
    } else {
        0
    };
    "["@ + text::repeated('#', d) + text::repeated('.', rest) + "]"@
}

/// The difficulty as a bar between brackets.
pub fn difficulty_bar(d: usize) -> (s: String)
    ensures
        s@ == bar(d as nat),
{
    let rest: usize = blockchain::MAX_DIFFICULTY.saturating_sub(d);
    let mut s = "[".to_owned();
    s.append(text::repeat_char('#', d).as_str());
    s.append(text::repeat_char('.', rest).as_str());
    s.append("]");
    s
}

/// What a hash is to look like: zeros as far as the difficulty goes, then anything.
pub open spec fn target(d: nat, width: nat) -> Seq<char> {
    if d < width {
        text::repeated('0', d) + text::repeated('x', (width - d) as nat)
    } else {
        text::repeated('0', width)
    }
}

/// What a hash is to look like, in a given number of characters.
pub fn target_text(d: usize, width: usize) -> (s: String)
    ensures
        s@ == target(d as nat, width as nat),
{
    if d < width {
        let rest = text::repeat_char('x', width - d);
        text::repeat_char('0', d).concat(rest.as_str())
    } else {
        text::repeat_char('0', width)
    }
}

/// How many blocks a screen lists: those before the latest, and no more than asked for.
pub open spec fn listed_count(len: nat, most: nat) -> nat {
    if len == 0 {
        0
    } else if len - 1 < most {
        (len - 1) as nat
    } else {
        most
    }
}

/// The positions of the blocks that a screen lists, the newest first.
pub fn listed_blocks(len: usize, most: usize) -> (places: Vec<usize>)
    ensures
        places@.len() == listed_count(len as nat, most as nat),
        forall|i: int| 0 <= i < places@.len() ==> (#[trigger] places@[i]) == len - 2 - i,
{
    let mut places: Vec<usize> = Vec::new();
    let n: usize = if len == 0 {
        0
    } else if len - 1 < most {
        len - 1
    } else {
        most
    };
    let mut i: usize = 0;
    while i < n
        invariant
            n == listed_count(len as nat, most as nat),
            i <= n,
            places@.len() == i,
            forall|j: int| 0 <= j < i ==> (#[trigger] places@[j]) == len - 2 - j,
        decreases n - i,
    {
        places.push(len - 2 - i);
        i = i + 1;
    }
    places
}

// ---- The recent hash rate ------------------------------------------------------------------

/// How many readings of the counter are kept.
pub const WINDOW: usize = 12;

/// The last readings of the hash counter, each with its time in nanoseconds.
pub struct HashrateWindow {
    pub readings: VecDeque<(u64, u64)>,
}

/// The readings that are kept once one more is taken.
pub open spec fn recorded(readings: Seq<(u64, u64)>, at: u64, hashes: u64) -> Seq<(u64, u64)> {
    let more = readings.push((at, hashes));
    if more.len() > WINDOW {
        more.drop_first()
    } else {
        more
    }
}

/// The readings against which a counter is measured: none where the counter has been set back since
/// the oldest that would be kept.
pub open spec fn comparable(readings: Seq<(u64, u64)>, at: u64, hashes: u64) -> Seq<(u64, u64)> {
    if recorded(readings, at, hashes)[0].1 <= hashes {
        readings
    } else {
        Seq::empty()
    }
}

/// The hashes made and the nanoseconds passed from the oldest reading kept to the newest, if there
/// are two.
pub open spec fn span_of(kept: Seq<(u64, u64)>) -> Option<(int, int)> {
    if kept.len() < 2 {
        None
    } else {
        let (first, last) = (kept[0], kept.last());
        Some((last.1 - first.1, if last.0 >= first.0 { last.0 - first.0 } else { 0 }))
    }
}

impl HashrateWindow {
    /// No readings yet.
    pub fn new() -> (w: HashrateWindow)
        ensures
            w.readings@ == Seq::<(u64, u64)>::empty(),
    {
        HashrateWindow { readings: VecDeque::with_capacity(WINDOW) }
    }

    /// Takes a reading of the counter. Gives the hashes made and the nanoseconds passed from the
    /// oldest reading kept to this one, or nothing while this is the only one.
    pub fn record(&mut self, at: u64, hashes: u64) -> (span: Option<(u64, u64)>)
        requires
            old(self).readings@.len() <= WINDOW,
            recorded(old(self).readings@, at, hashes)[0].1 <= hashes,
        ensures
            final(self).readings@ == recorded(old(self).readings@, at, hashes),
            match span {
                Some((made, passed)) => span_of(final(self).readings@) == Some(
                    (made as int, passed as int),
                ),
                None => span_of(final(self).readings@) is None,
            },
    {
        self.readings.push_back((at, hashes));
        if self.readings.len() > WINDOW {
            let ghost more = self.readings@;
            let _ = self.readings.pop_front();
            assert(self.readings@ =~= more.drop_first());
        }
        if self.readings.len() < 2 {
            return None;
        }
        let (first_at, first_hashes): (u64, u64) = self.readings[0];
        let passed: u64 = if at >= first_at { at - first_at } else { 0 };
        Some((hashes - first_hashes, passed))
    }

    /// Takes a reading of a counter that may have been set back. Where it was, the readings before
    /// are forgotten and the window starts anew with this one.
    pub fn record_or_restart(&mut self, at: u64, hashes: u64) -> (span: Option<(u64, u64)>)
        requires
            old(self).readings@.len() <= WINDOW,
        ensures
            final(self).readings@ == recorded(
                comparable(old(self).readings@, at, hashes),
                at,
                hashes,
            ),
            match span {
                Some((made, passed)) => span_of(final(self).readings@) == Some(
                    (made as int, passed as int),
                ),
                None => span_of(final(self).readings@) is None,
            },
    {
        if let Some(base) = self.base_of_next() {
            assert(recorded(self.readings@, at, hashes)[0].1 == base);
            if base > hashes {
                self.readings = VecDeque::with_capacity(WINDOW);
            }
        }
        self.record(at, hashes)
    }

    /// The reading against which the next one will be measured, if any is kept then.
    pub fn base_of_next(&self) -> (hashes: Option<u64>)
        ensures
            match hashes {
                Some(h) => forall|at: u64, now: u64|
                    #![trigger recorded(self.readings@, at, now)]
                    recorded(self.readings@, at, now)[0].1 == h,
                None => self.readings@.len() == 0 || self.readings@.len() > WINDOW,
            },
    {
        let len: usize = self.readings.len();
        if len == 0 || len > WINDOW {
            None
        } else if len == WINDOW {
            let r: (u64, u64) = self.readings[1];
            Some(r.1)
        } else {
            let r: (u64, u64) = self.readings[0];
            Some(r.1)
        }
    }
}

/// A counter that was set back is measured from its new beginning: this reading is the only one.
pub proof fn law_window_restarts(readings: Seq<(u64, u64)>, at: u64, hashes: u64)
    requires
        readings.len() <= WINDOW,
    ensures
        recorded(readings, at, hashes)[0].1 > hashes ==> recorded(
            comparable(readings, at, hashes),
            at,
            hashes,
        ) == seq![(at, hashes)],
        recorded(comparable(readings, at, hashes), at, hashes)[0].1 <= hashes,
        recorded(readings, at, hashes)[0].1 <= hashes ==> comparable(readings, at, hashes)
            == readings,
{
    if recorded(readings, at, hashes)[0].1 > hashes {
        assert(recorded(Seq::empty(), at, hashes) =~= seq![(at, hashes)]);
    }
}

/// No more than twelve readings are ever kept, and the newest is always among them.
pub proof fn law_window_is_bounded(readings: Seq<(u64, u64)>, at: u64, hashes: u64)
    requires
        readings.len() <= WINDOW,
    ensures
        0 < recorded(readings, at, hashes).len() <= WINDOW,
        recorded(readings, at, hashes).last() == (at, hashes),
{
}

// ---- Sayings ---------------------------------------------------------------------------------

/// How many sayings there are.
pub const FLAVORS: usize = 10;

/// The sayings that the solo screen shows in turn.
pub open spec fn flavor(i: int) -> Seq<char> {
    if i == 0 {
        "Hammering nonces at full speed..."@
    } else if i == 1 {
        "Crafting the perfect hash..."@
    } else if i == 2 {
        "Burning CPU cycles for glory..."@
    } else if i == 3 {
        "Hunting for leading zeros..."@
    } else if i == 4 {
        "Deep mining in progress..."@
    } else if i == 5 {
        "Building the chain, one block at a time..."@
    } else if i == 6 {
        "Every zero gets us closer..."@
    } else if i == 7 {
        "The blockchain never sleeps..."@
    } else if i == 8 {
        "Proof-of-work at its finest..."@
    } else {
        "SHA-256 at maximum overdrive..."@
    }
}

/// One of the sayings.
pub fn flavor_text(i: usize) -> (s: &'static str)
    requires
        i < FLAVORS,
    ensures
        s@ == flavor(i as int),
{
    if i == 0 {
        "Hammering nonces at full speed..."
    } else if i == 1 {
        "Crafting the perfect hash..."
    } else if i == 2 {
        "Burning CPU cycles for glory..."
    } else if i == 3 {
        "Hunting for leading zeros..."
    } else if i == 4 {
        "Deep mining in progress..."
    } else if i == 5 {
        "Building the chain, one block at a time..."
    } else if i == 6 {
        "Every zero gets us closer..."
    } else if i == 7 {
        "The blockchain never sleeps..."
    } else if i == 8 {
        "Proof-of-work at its finest..."
    } else {
        "SHA-256 at maximum overdrive..."
    }
}

/// Trusted: `rand::Rng::gen_range` draws a number from the range that it is given, here from
/// zero up to but not including `n`. Which one is left open.
#[verifier::external_body]
fn random_below(n: usize) -> (i: usize)
    requires
        n > 0,
    ensures
        i < n,
{
    rand::Rng::gen_range(&mut rand::thread_rng(), 0..n)
}

/// One of the sayings, drawn at random.
pub fn random_flavor() -> (s: &'static str)
    ensures
        exists|i: int| 0 <= i < FLAVORS && s@ == flavor(i),
{
    let i: usize = random_below(FLAVORS);
    flavor_text(i)
}

// ---- What the texts promise -------------------------------------------------------------------

/// A whole hash rate is shown in millions from a million on, in thousands from a thousand on, and
/// below that as it is.
pub proof fn law_hash_rates_have_their_unit(hr: nat, scaled: Seq<char>)
    ensures
        hr >= 1_000_000 ==> hr_text(hr, scaled) == scaled + " MH/s"@,
        1_000 <= hr < 1_000_000 ==> hr_text(hr, scaled) == scaled + " KH/s"@,
        hr < 1_000 ==> hr_text(hr, scaled) == text::decimal(hr) + " H/s"@,
{
}

/// A fractional hash rate is shown in millions from a million on, in thousands from a thousand on,
/// and below that, or where it is no number, in ones.
pub proof fn law_rates_have_their_unit(hr: Double, scaled: Seq<char>)
    ensures
        !hr.is_nan() && hr.value() >= 1_000_000 * double::one() ==> rate_text(hr, scaled) == scaled
            + " MH/s"@,
        !hr.is_nan() && 1_000 * double::one() <= hr.value() < 1_000_000 * double::one()
            ==> rate_text(hr, scaled) == scaled + " KH/s"@,
        hr.is_nan() || hr.value() < 1_000 * double::one() ==> rate_text(hr, scaled) == scaled
            + "  H/s"@,
{
    power2::lemma_pow2_pos(1074);
}

/// A span is shown by its hours, minutes and seconds: the two largest on the pool screens, and all
/// from the largest on, on the solo screen.
pub proof fn law_spans_are_shown_by_their_parts(h: nat, m: nat, s: nat)
    requires
        m < 60,
        s < 60,
    ensures
        ({
            let secs = h * 3600 + m * 60 + s;
            &&& h > 0 ==> uptime(secs) == text::decimal(h) + "h "@ + text::decimal(m) + "m"@
            &&& h == 0 && m > 0 ==> uptime(secs) == text::decimal(m) + "m "@ + text::decimal(s)
                + "s"@
            &&& h == 0 && m == 0 ==> uptime(secs) == text::decimal(s) + "s"@
            &&& h > 0 ==> duration(secs) == text::decimal(h) + "h "@ + text::decimal(m) + "m "@
                + text::decimal(s) + "s"@
            &&& h == 0 && m > 0 ==> duration(secs) == text::decimal(m) + "m "@ + text::decimal(s)
                + "s"@
            &&& h == 0 && m == 0 ==> duration(secs) == text::decimal(s) + "s"@
        }),
{
    let secs = h * 3600 + m * 60 + s;
    assert(secs / 3600 == h && secs % 3600 == m * 60 + s);
    assert((secs % 3600) / 60 == m);
    assert(secs % 60 == s);
    if h == 0 {
        assert(secs / 60 == m);
    }
}

/// The two parts of a text that is parted after some bytes are that many bytes and the rest, and
/// together they are the text.
pub proof fn law_parts_make_the_whole(s: Seq<char>, n: nat)
    requires
        parts_at(s, n),
        n <= utf8::encode_utf8(s).len(),
    ensures
        head_bytes(s, n) + tail_bytes(s, n) == s,
        utf8::encode_utf8(head_bytes(s, n)).len() == n,
{
    let all = utf8::encode_utf8(s);
    utf8::encode_utf8_valid_utf8(s);
    utf8::encode_utf8_decode_utf8(s);
    assert(all.take(n as int) =~= all.subrange(0, n as int));
    assert(all.skip(n as int) =~= all.subrange(n as int, all.len() as int));
    utf8::valid_utf8_split(all, n as int);
    utf8::decode_utf8_split(all, n as int);
    utf8::decode_utf8_encode_utf8(all.subrange(0, n as int));
}

/// A text that is cut off is left as it is where it is short enough, and else is its first bytes.
pub proof fn law_texts_are_cut_off(s: Seq<char>, n: nat)
    requires
        can_cut(s, n),
    ensures
        utf8::encode_utf8(s).len() <= n ==> cut(s, n) == s,
        utf8::encode_utf8(s).len() > n ==> utf8::encode_utf8(cut(s, n)).len() == n && cut(s, n)
            == s.take(cut(s, n).len() as int),
{
    if utf8::encode_utf8(s).len() > n {
        law_parts_make_the_whole(s, n);
        let (a, b) = (head_bytes(s, n), tail_bytes(s, n));
        assert((a + b).take(a.len() as int) =~= a);
    }
}

/// The part of a hash that counts is as long as the difficulty, or all that is shown.
pub proof fn law_part_that_counts(peek: Seq<char>, difficulty: usize)
    ensures
        difficulty <= utf8::encode_utf8(peek).len() ==> hit_len(peek, difficulty) == difficulty,
        difficulty > utf8::encode_utf8(peek).len() ==> hit_len(peek, difficulty)
            == utf8::encode_utf8(peek).len(),
{
}

/// The bar of a difficulty has a mark for each step up to it and a dot for each that is left of
/// sixteen.
pub proof fn law_bar_shows_the_difficulty(d: nat, i: int)
    ensures
        bar(d).len() == (if d < 16 {
            18
        } else {
            d + 2
        }),
        bar(d)[0] == '[',
        bar(d).last() == ']',
        0 <= i < d ==> bar(d)[1 + i] == '#',
        d <= i < 16 ==> bar(d)[1 + i] == '.',
{
    reveal_strlit("[");
    reveal_strlit("]");
}

/// What a hash is to look like has a zero for each step of the difficulty, as far as there is room,
/// and a placeholder for the rest.
pub proof fn law_target_shows_the_difficulty(d: nat, width: nat, i: int)
    ensures
        target(d, width).len() == width,
        0 <= i < d && i < width ==> target(d, width)[i] == '0',
        d <= i < width ==> target(d, width)[i] == 'x',
{
}

/// A screen lists the blocks before the latest, at most as many as it has room for.
pub proof fn law_screens_list_what_fits(len: nat, most: nat)
    ensures
        listed_count(len, most) <= most,
        len > 0 ==> listed_count(len, most) <= len - 1,
        len == 0 ==> listed_count(len, most) == 0,
        len > 0 && listed_count(len, most) < most ==> listed_count(len, most) == len - 1,
{
}

/// A reading is added at the end; all are kept until there are twelve, and after that the oldest goes
/// each time.
pub proof fn law_oldest_reading_goes(readings: Seq<(u64, u64)>, at: u64, hashes: u64, i: int)
    requires
        readings.len() <= 12,
    ensures
        readings.len() < 12 ==> recorded(readings, at, hashes) == readings.push((at, hashes)),
        readings.len() == 12 ==> recorded(readings, at, hashes).len() == 12,
        readings.len() == 12 && 0 <= i < 11 ==> recorded(readings, at, hashes)[i] == readings[i
            + 1],
        recorded(readings, at, hashes).last() == (at, hashes),
{
}

/// What was hashed and how long it took is measured from the oldest reading to the newest.
pub proof fn law_rate_is_measured_over_the_window(kept: Seq<(u64, u64)>)
    ensures
        kept.len() < 2 ==> span_of(kept) is None,
        kept.len() >= 2 ==> (span_of(kept) matches Some((made, passed)) && made + kept[0].1
            == kept[kept.len() - 1].1 && (kept[kept.len() - 1].0 >= kept[0].0 ==> passed
            + kept[0].0 == kept[kept.len() - 1].0) && (kept[kept.len() - 1].0 < kept[0].0
            ==> passed == 0)),
{
}

/// The sayings, in their order.
pub proof fn law_sayings()
    ensures
        flavor(0) == "Hammering nonces at full speed..."@,
        flavor(1) == "Crafting the perfect hash..."@,
        flavor(2) == "Burning CPU cycles for glory..."@,
        flavor(3) == "Hunting for leading zeros..."@,
        flavor(4) == "Deep mining in progress..."@,
        flavor(5) == "Building the chain, one block at a time..."@,
        flavor(6) == "Every zero gets us closer..."@,
        flavor(7) == "The blockchain never sleeps..."@,
        flavor(8) == "Proof-of-work at its finest..."@,
        flavor(9) == "SHA-256 at maximum overdrive..."@,
{
}

} // verus!
