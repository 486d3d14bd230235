//! One field of a cron pattern: which values it allows, and how a field of
//! pattern text sets them.
use vstd::prelude::*;

use crate::errors::CronError;
use crate::text::{
    before_char, chars_of, contains_char, copy_chars, ends_with_char, equals, find_char,
    index_of_char, lemma_index_of_char, lemma_index_of_char_absent, parse_number,
    parse_unsigned, prefix_before, push_decimal, push_str, replace, replace_spec, slice_chars,
    split_char, split_spec, string_of, trim, trim_spec, views,
};

verus! {

/// No bit.
pub const NONE_BIT: u8 = 0;
/// The value is allowed.
pub const ALL_BIT: u8 = 1;
/// The value is allowed on its first occurrence in the month (day of week).
pub const NTH_1ST_BIT: u8 = 2;
/// The value is allowed on its second occurrence in the month.
pub const NTH_2ND_BIT: u8 = 4;
/// The value is allowed on its third occurrence in the month.
pub const NTH_3RD_BIT: u8 = 8;
/// The value is allowed on its fourth occurrence in the month.
pub const NTH_4TH_BIT: u8 = 16;
/// The value is allowed on its fifth occurrence in the month.
pub const NTH_5TH_BIT: u8 = 32;
/// All the occurrence bits.
pub const NTH_ALL: u8 = 62;
/// The value is allowed on its last occurrence in the month (day of week),
/// or, as a feature, the last day of the month is allowed (day of month).
pub const LAST_BIT: u8 = 64;
/// The weekday closest to the value is allowed (day of month).
pub const CLOSEST_WEEKDAY_BIT: u8 = 128;

/// A component as mathematics.
pub ghost struct ComponentModel {
    pub bits: Seq<u8>,
    pub min: int,
    pub max: int,
    pub step: int,
    pub from_wildcard: bool,
    pub features: u8,
    pub enabled: u8,
    pub offset: int,
}

impl ComponentModel {
    /// Whether the value at `pos` carries `bit`, as `is_bit_set` reads it.
    pub open spec fn has(self, pos: int, bit: u8) -> bool {
        &&& self.readable(pos, bit)
        &&& self.bits[pos] & bit != 0
    }

    /// Whether `bit` is among the supported features.
    pub open spec fn supports(self, bit: u8) -> bool {
        self.features & bit == bit
    }

    /// Whether `feature` is enabled.
    pub open spec fn enables(self, feature: u8) -> bool {
        self.enabled & feature == feature
    }

    /// Whether `is_bit_set` answers for `pos` and `bit` without an error.
    pub open spec fn readable(self, pos: int, bit: u8) -> bool {
        &&& self.min <= pos <= self.max
        &&& self.supports(bit)
        &&& 0 <= pos < self.bits.len()
    }

    /// The component after `set_bit(pos, bit)`, or `None` where it fails.
    pub open spec fn set_bit(self, pos: int, bit: u8) -> Option<ComponentModel> {
        let p = pos - self.offset;
        if pos < self.offset || p < self.min || p > self.max || !self.supports(bit) || p
            >= self.bits.len() {
            None
        } else {
            Some(ComponentModel { bits: self.bits.update(p, self.bits[p] | bit), ..self })
        }
    }

    /// The component after `unset_bit(pos, bit)`, or `None` where it fails.
    pub open spec fn unset_bit(self, pos: int, bit: u8) -> Option<ComponentModel> {
        let p = pos - self.offset;
        if pos < self.offset || p < self.min || p > self.max || !self.supports(bit) || p
            >= self.bits.len() {
            None
        } else {
            Some(ComponentModel { bits: self.bits.update(p, self.bits[p] & !bit), ..self })
        }
    }

    /// The component after setting `bit` at every position from `lo` to `hi`
    /// in turn, or `None` where one of them fails.
    pub open spec fn set_each(self, lo: int, hi: int, bit: u8) -> Option<ComponentModel>
        decreases hi - lo + 1,
    {
        if lo > hi {
            Some(self)
        } else {
            match self.set_bit(lo, bit) {
                None => None,
                Some(m) => m.set_each(lo + 1, hi, bit),
            }
        }
    }

    /// The component after setting `bit` at `value` and then every `step`
    /// values up to `end`.
    pub open spec fn set_stepped(self, value: int, end: int, step: int, bit: u8) -> Option<
        ComponentModel,
    >
        recommends
            step > 0,
        decreases if value <= end { end - value + 1 } else { 0 },
    {
        if step <= 0 || value > end {
            Some(self)
        } else {
            match self.set_bit(value, bit) {
                None => None,
                Some(m) => m.set_stepped(value + step, end, step, bit),
            }
        }
    }
}

/// The bit that a value's suffix selects: a trailing `L` the last occurrence,
/// `#n` the nth occurrence (1 to 5), and anything else the value itself.
/// `None` where the nth specifier is invalid.
pub open spec fn nth_bit_spec(v: Seq<char>) -> Option<u8> {
    if v.len() > 0 && v.last() == 'L' {
        Some(LAST_BIT)
    } else {
        let i = index_of_char(v, '#');
        if i < 0 {
            Some(ALL_BIT)
        } else {
            match parse_unsigned(v.skip(i + 1), 255) {
                Some(n) => if n == 1 {
                    Some(NTH_1ST_BIT)
                } else if n == 2 {
                    Some(NTH_2ND_BIT)
                } else if n == 3 {
                    Some(NTH_3RD_BIT)
                } else if n == 4 {
                    Some(NTH_4TH_BIT)
                } else if n == 5 {
                    Some(NTH_5TH_BIT)
                } else {
                    None
                },
                None => None,
            }
        }
    }
}

/// A number with its nth part removed.
pub open spec fn number_spec(m: ComponentModel, v: Seq<char>) -> Option<ComponentModel> {
    match nth_bit_spec(v) {
        None => None,
        Some(bit) => match parse_unsigned(before_char(v, '#'), 65535) {
            None => None,
            Some(num) => if num < m.min || num > m.max {
                None
            } else {
                m.set_bit(num, bit)
            },
        },
    }
}

/// A range `a-b`, with an optional nth part.
pub open spec fn range_spec(m: ComponentModel, v: Seq<char>) -> Option<ComponentModel> {
    match nth_bit_spec(v) {
        None => None,
        Some(bit) => {
            let parts = split_spec(before_char(v, '#'), '-');
            if parts.len() != 2 {
                None
            } else {
                match (
                    parse_unsigned(trim_spec(parts[0]), 65535),
                    parse_unsigned(trim_spec(parts[1]), 65535),
                ) {
                    (Some(start), Some(end)) => if start > end || start < m.min || end > m.max {
                        None
                    } else {
                        m.set_each(start, end, bit)
                    },
                    _ => None,
                }
            }
        },
    }
}

/// A closest weekday `dW`.
pub open spec fn closest_weekday_spec(m: ComponentModel, v: Seq<char>) -> Option<ComponentModel> {
    let i = index_of_char(v, 'W');
    if i < 0 {
        number_spec(m, v)
    } else {
        match parse_unsigned(v.take(i), 65535) {
            None => None,
            Some(day) => if day < m.min || day > m.max {
                None
            } else {
                m.set_bit(day, CLOSEST_WEEKDAY_BIT)
            },
        }
    }
}

/// The start and end of the range part of a stepped range, and whether it is
/// a wildcard; `None` where a number is invalid.
pub open spec fn stepped_bounds(m: ComponentModel, r: Seq<char>) -> Option<(int, int, bool)> {
    if r == seq!['*'] {
        Some((m.min, m.max, true))
    } else if r.contains('-') {
        let bounds = split_spec(r, '-');
        if bounds.len() != 2 {
            None
        } else {
            match (parse_unsigned(bounds[0], 65535), parse_unsigned(bounds[1], 65535)) {
                (Some(a), Some(b)) => Some((a, b, false)),
                _ => None,
            }
        }
    } else {
        match parse_unsigned(r, 65535) {
            Some(a) => Some((a, m.max, false)),
            None => None,
        }
    }
}

/// A stepped range `r/s`, with an optional nth part.
pub open spec fn stepping_spec(m: ComponentModel, v: Seq<char>) -> Option<ComponentModel> {
    match nth_bit_spec(v) {
        None => None,
        Some(bit) => {
            let parts = split_spec(before_char(v, '#'), '/');
            if parts.len() != 2 {
                None
            } else {
                match parse_unsigned(parts[1], 65535) {
                    None => None,
                    Some(step) => {
                        let m1 = ComponentModel { step, ..m };
                        if step == 0 {
                            None
                        } else {
                            match stepped_bounds(m1, parts[0]) {
                                None => None,
                                Some((start, end, wild)) => {
                                    let m2 = ComponentModel {
                                        from_wildcard: m1.from_wildcard || wild,
                                        ..m1
                                    };
                                    if start < m2.min || end > m2.max || start > end {
                                        None
                                    } else {
                                        m2.set_stepped(start, end, step, bit)
                                    }
                                },
                            }
                        }
                    },
                }
            }
        },
    }
}

/// A part that is neither a range nor a closest weekday: an `L` for the last
/// day, or a number with an optional `#n` or trailing `L`.
pub open spec fn plain_spec(m: ComponentModel, t: Seq<char>) -> Option<ComponentModel> {
    if t == seq!['L'] || t == seq!['l'] {
        if m.supports(LAST_BIT) {
            Some(ComponentModel { enabled: m.enabled | LAST_BIT, ..m })
        } else {
            None
        }
    } else {
        let t2 = if t.len() > 0 && t.last() == 'L' && !t.contains('#') {
            replace_spec(t, seq!['L'], seq!['#', 'L'])
        } else {
            t
        };
        if (t2.contains('#') || t2.contains('L')) && !m.supports(NTH_ALL) {
            None
        } else {
            number_spec(m, t2)
        }
    }
}

/// `LW`, the last weekday (Monday to Friday) of the month: the last-day and
/// closest-weekday features enabled together.
pub open spec fn last_weekday_spec(m: ComponentModel) -> Option<ComponentModel> {
    if m.supports(LAST_BIT) && m.supports(CLOSEST_WEEKDAY_BIT) {
        Some(ComponentModel { enabled: m.enabled | LAST_BIT | CLOSEST_WEEKDAY_BIT, ..m })
    } else {
        None
    }
}

/// One trimmed, non-empty, comma-separated part of a field.
pub open spec fn part_spec(m: ComponentModel, t: Seq<char>) -> Option<ComponentModel> {
    if t.contains('/') {
        stepping_spec(m, t)
    } else if t.contains('-') {
        range_spec(m, t)
    } else if t == seq!['L', 'W'] {
        last_weekday_spec(m)
    } else if t.contains('W') {
        closest_weekday_spec(m, t)
    } else {
        plain_spec(m, t)
    }
}

/// The parts of a field applied in turn; empty parts are skipped.
pub open spec fn parts_spec(m: ComponentModel, parts: Seq<Seq<char>>) -> Option<ComponentModel>
    decreases parts.len(),
{
    if parts.len() == 0 {
        Some(m)
    } else {
        match parts_spec(m, parts.drop_last()) {
            None => None,
            Some(m1) => {
                let t = trim_spec(parts.last());
                if t.len() == 0 {
                    Some(m1)
                } else {
                    part_spec(m1, t)
                }
            },
        }
    }
}

/// The component after parsing a field of pattern text, or `None` where the
/// field is invalid for it.
pub open spec fn field_spec(m: ComponentModel, field: Seq<char>) -> Option<ComponentModel> {
    if field == seq!['*'] {
        ComponentModel { from_wildcard: true, ..m }.set_each(
            m.min + m.offset,
            m.max + m.offset,
            ALL_BIT,
        )
    } else {
        parts_spec(m, split_spec(field, ','))
    }
}

/// The values below `hi`, from the component's minimum up, that carry `bit`,
/// in ascending order.
pub open spec fn values_below(m: ComponentModel, bit: u8, hi: int) -> Seq<u16>
    decreases hi - m.min,
{
    if hi <= m.min {
        Seq::empty()
    } else {
        let prev = values_below(m, bit, hi - 1);
        if m.has(hi - 1, bit) {
            prev.push((hi - 1) as u16)
        } else {
            prev
        }
    }
}

/// Two components with the same range of values, bytes, features and
/// offset.
pub open spec fn same_shape(a: ComponentModel, b: ComponentModel) -> bool {
    &&& a.min == b.min
    &&& a.max == b.max
    &&& a.bits.len() == b.bits.len()
    &&& a.features == b.features
    &&& a.offset == b.offset
}

/// Setting bits keeps a component's range of values.
proof fn lemma_set_each_range(m: ComponentModel, lo: int, hi: int, bit: u8)
    ensures
        m.set_each(lo, hi, bit) matches Some(r) ==> same_shape(r, m),
    decreases hi - lo + 1,
{
    if lo <= hi {
        if let Some(m1) = m.set_bit(lo, bit) {
            lemma_set_each_range(m1, lo + 1, hi, bit);
        }
    }
}

/// Setting a bit at one position sets it there and leaves every other
/// position as it was.
proof fn lemma_set_bit_has(m: ComponentModel, pos: int, bit: u8, v: int)
    requires
        m.offset == 0,
        bit != 0,
        m.set_bit(pos, bit) is Some,
    ensures
        m.set_bit(pos, bit)->0.has(v, bit) <==> (m.has(v, bit) || v == pos),
{
    let r = m.set_bit(pos, bit)->0;
    let x = m.bits[pos];
    assert((x | bit) & bit != 0) by (bit_vector)
        requires
            bit != 0u8,
    ;
    if v != pos && 0 <= v < m.bits.len() {
        assert(r.bits[v] == m.bits[v]);
    }
}

/// Stepping from `value` to `end` by `step` sets the bit exactly at the
/// values `value + k * step` up to `end`, and keeps every other value as it
/// was.
pub proof fn lemma_set_stepped_exact(
    m: ComponentModel,
    value: int,
    end: int,
    step: int,
    bit: u8,
    v: int,
)
    requires
        m.offset == 0,
        bit != 0,
        step > 0,
        m.set_stepped(value, end, step, bit) is Some,
    ensures
        m.set_stepped(value, end, step, bit)->0.has(v, bit) <==> (m.has(v, bit) || (value <= v
            <= end && (v - value) % step == 0)),
    decreases if value <= end { end - value + 1 } else { 0 },
{
    if value <= end {
        let m1 = m.set_bit(value, bit)->0;
        assert(m.set_stepped(value, end, step, bit) == m1.set_stepped(value + step, end, step, bit));
        lemma_set_bit_has(m, value, bit, v);
        lemma_set_stepped_exact(m1, value + step, end, step, bit, v);
        vstd::arithmetic::div_mod::lemma_mod_add_multiples_vanish(v - value - step, step);
        assert(step + (v - value - step) == v - value);
        assert((v - value - step) % step == (v - value) % step);
        if value < v < value + step {
            vstd::arithmetic::div_mod::lemma_small_mod((v - value) as nat, step as nat);
            assert((v - value) % step != 0);
        }
        if v == value {
            assert(0int % step == 0) by (nonlinear_arith)
                requires
                    step > 0,
            ;
        }
    }
}

/// Setting stepped bits keeps a component's range of values.
proof fn lemma_set_stepped_range(m: ComponentModel, value: int, end: int, step: int, bit: u8)
    ensures
        m.set_stepped(value, end, step, bit) matches Some(r) ==> same_shape(r, m),
    decreases if value <= end { end - value + 1 } else { 0 },
{
    if step > 0 && value <= end {
        if let Some(m1) = m.set_bit(value, bit) {
            lemma_set_stepped_range(m1, value + step, end, step, bit);
        }
    }
}

/// A part of a field keeps a component's range of values.
proof fn lemma_part_range(m: ComponentModel, t: Seq<char>)
    ensures
        part_spec(m, t) matches Some(r) ==> same_shape(r, m),
{
    if t.contains('/') {
        if let Some(bit) = nth_bit_spec(t) {
            let parts = split_spec(before_char(t, '#'), '/');
            if parts.len() == 2 {
                if let Some(step) = parse_unsigned(parts[1], 65535) {
                    let m1 = ComponentModel { step, ..m };
                    if let Some((start, end, wild)) = stepped_bounds(m1, parts[0]) {
                        let m2 = ComponentModel { from_wildcard: m1.from_wildcard || wild, ..m1 };
                        lemma_set_stepped_range(m2, start, end, step, bit);
                    }
                }
            }
        }
    } else if t.contains('-') {
        if let Some(bit) = nth_bit_spec(t) {
            let parts = split_spec(before_char(t, '#'), '-');
            if parts.len() == 2 {
                if let (Some(start), Some(end)) = (
                    parse_unsigned(trim_spec(parts[0]), 65535),
                    parse_unsigned(trim_spec(parts[1]), 65535),
                ) {
                    lemma_set_each_range(m, start, end, bit);
                }
            }
        }
    }
}

/// The parts of a field keep a component's range of values.
proof fn lemma_parts_range(m: ComponentModel, parts: Seq<Seq<char>>)
    ensures
        parts_spec(m, parts) matches Some(r) ==> same_shape(r, m),
    decreases parts.len(),
{
    if parts.len() > 0 {
        lemma_parts_range(m, parts.drop_last());
        if let Some(m1) = parts_spec(m, parts.drop_last()) {
            lemma_part_range(m1, trim_spec(parts.last()));
        }
    }
}

/// Parsing a field keeps the component's range of values, its bytes,
/// features and offset.
pub proof fn lemma_field_keeps_range(m: ComponentModel, field: Seq<char>)
    ensures
        field_spec(m, field) matches Some(r) ==> same_shape(r, m),
{
    if field == seq!['*'] {
        lemma_set_each_range(
            ComponentModel { from_wildcard: true, ..m },
            m.min + m.offset,
            m.max + m.offset,
            ALL_BIT,
        );
    } else {
        lemma_parts_range(m, split_spec(field, ','));
    }
}

/// The values of a component that carry `bit`, in ascending order.
pub open spec fn set_values(m: ComponentModel, bit: u8) -> Seq<u16> {
    values_below(m, bit, m.max + 1)
}

/// The values that carry a bit lie in the component's range, in strictly
/// ascending order.
pub proof fn lemma_values_in_range(m: ComponentModel, bit: u8, hi: int)
    requires
        0 <= m.min,
        m.max <= 65535,
    ensures
        forall|k: int|
            0 <= k < values_below(m, bit, hi).len() ==> m.min <= #[trigger] values_below(
                m,
                bit,
                hi,
            )[k] < hi && values_below(m, bit, hi)[k] <= m.max && m.has(
                values_below(m, bit, hi)[k] as int,
                bit,
            ),
        forall|k: int, l: int|
            0 <= k < l < values_below(m, bit, hi).len() ==> values_below(m, bit, hi)[k]
                < values_below(m, bit, hi)[l],
    decreases hi - m.min,
{
    if hi > m.min {
        lemma_values_in_range(m, bit, hi - 1);
        let prev = values_below(m, bit, hi - 1);
        if m.has(hi - 1, bit) {
            let x = (hi - 1) as u16;
            assert(x == hi - 1);
            let cur = prev.push(x);
            assert(cur == values_below(m, bit, hi));
            assert forall|k: int| 0 <= k < cur.len() implies m.min <= #[trigger] cur[k] < hi
                && cur[k] <= m.max && m.has(cur[k] as int, bit) by {
                if k < prev.len() {
                    assert(cur[k] == prev[k]);
                }
            }
            assert forall|k: int, l: int| 0 <= k < l < cur.len() implies cur[k] < cur[l] by {
                assert(cur[k] == prev[k]);
                if l < prev.len() {
                    assert(cur[l] == prev[l]);
                }
            }
        }
    }
}

/// Every value from the component's minimum up to `hi` that carries a bit
/// is listed.
pub proof fn lemma_values_complete(m: ComponentModel, bit: u8, hi: int, v: int)
    requires
        0 <= m.min,
        m.max <= 65535,
        m.min <= v < hi,
        m.has(v, bit),
    ensures
        values_below(m, bit, hi).contains(v as u16),
    decreases hi - m.min,
{
    let prev = values_below(m, bit, hi - 1);
    if v == hi - 1 {
        let x = (hi - 1) as u16;
        assert(values_below(m, bit, hi) == prev.push(x));
        assert(values_below(m, bit, hi)[prev.len() as int] == x);
    } else {
        lemma_values_complete(m, bit, hi - 1, v);
        let k = choose|k: int| 0 <= k < prev.len() && prev[k] == v as u16;
        if m.has(hi - 1, bit) {
            assert(values_below(m, bit, hi)[k] == prev[k]);
        }
    }
}

/// Once a prefix of the parts fails, the whole field fails.
proof fn lemma_parts_prefix_fails(m: ComponentModel, parts: Seq<Seq<char>>, k: int)
    requires
        0 <= k <= parts.len(),
        parts_spec(m, parts.take(k)) is None,
    ensures
        parts_spec(m, parts) is None,
    decreases parts.len(),
{
    if k == parts.len() {
        assert(parts.take(k) =~= parts);
    } else {
        assert(parts.drop_last().take(k) =~= parts.take(k));
        lemma_parts_prefix_fails(m, parts.drop_last(), k);
    }
}

/// Represents a component of a cron pattern, such as minute, hour, or day of
/// week: the values it allows, marked with bits in one byte per value.
#[derive(Debug, Default, PartialEq, Eq, PartialOrd, Ord, Hash)]
pub struct CronComponent {
    bitfields: Vec<u8>,
    /// Minimum value this component can take.
    pub min: u16,
    /// Maximum value this component can take.
    pub max: u16,
    /// The step of the last stepped part parsed, used by descriptions.
    pub step: u16,
    /// Whether a wildcard was parsed, used by descriptions.
    pub from_wildcard: bool,
    features: u8,
    enabled_features: u8,
    input_offset: u16,
}

impl View for CronComponent {
    type V = ComponentModel;

    closed spec fn view(&self) -> ComponentModel {
        ComponentModel {
            bits: self.bitfields@,
            min: self.min as int,
            max: self.max as int,
            step: self.step as int,
            from_wildcard: self.from_wildcard,
            features: self.features,
            enabled: self.enabled_features,
            offset: self.input_offset as int,
        }
    }
}

impl Clone for CronComponent {
    /// A copy of the component, with the same values and settings.
    fn clone(&self) -> (c: Self)
        ensures
            c@ == self@,
    {
        let bitfields = self.bitfields.clone();
        assert(bitfields@ =~= self.bitfields@);
        CronComponent {
            bitfields,
            min: self.min,
            max: self.max,
            step: self.step,
            from_wildcard: self.from_wildcard,
            features: self.features,
            enabled_features: self.enabled_features,
            input_offset: self.input_offset,
        }
    }
}

/// A component error with a fixed message.
fn component_error(msg: &str) -> (e: CronError)
    ensures
        e is ComponentError,
{
    CronError::ComponentError(String::from_str(msg))
}

/// The binary digit of `b` for the bit `shift` places from the right.
pub open spec fn binary_digit(b: u8, shift: u32) -> char {
    if (b >> shift) & 1 == 1 {
        '1'
    } else {
        '0'
    }
}

/// The first `n` of the eight binary digits of `b`, most significant first.
pub open spec fn binary_digits(b: u8, n: nat) -> Seq<char> {
    Seq::new(n, |i: int| binary_digit(b, (7 - i) as u32))
}

/// Appends a byte as eight binary digits.
fn push_binary8(out: &mut Vec<char>, b: u8)
    ensures
        final(out)@ == old(out)@ + binary_digits(b, 8),
{
    let mut k: u32 = 8;
    while k > 0
        invariant
            k <= 8,
            out@ == old(out)@ + binary_digits(b, (8 - k) as nat),
        decreases k,
    {
        k = k - 1;
        if (b >> k) & 1 == 1 {
            out.push('1');
        } else {
            out.push('0');
        }
        assert(binary_digits(b, (8 - k) as nat) =~= binary_digits(b, (7 - k) as nat).push(
            binary_digit(b, k),
        ));
    }
}

/// The message for a position below the input offset.
fn offset_error(pos: u16, offset: u16) -> (e: CronError)
    ensures
        e is ComponentError,
{
    let mut m: Vec<char> = Vec::new();
    push_str(&mut m, "Position ");
    push_decimal(&mut m, pos as u64);
    push_str(&mut m, " is less than the input offset ");
    push_decimal(&mut m, offset as u64);
    push_str(&mut m, ".");
    CronError::ComponentError(string_of(&m))
}

/// The message for a position outside the component's range.
fn bounds_error(pos: u16, min: u16, max: u16) -> (e: CronError)
    ensures
        e is ComponentError,
{
    let mut m: Vec<char> = Vec::new();
    push_str(&mut m, "Position ");
    push_decimal(&mut m, pos as u64);
    push_str(&mut m, " is out of bounds for the current range (");
    push_decimal(&mut m, min as u64);
    push_str(&mut m, "-");
    push_decimal(&mut m, max as u64);
    push_str(&mut m, ").");
    CronError::ComponentError(string_of(&m))
}

/// The message for an unsupported bit or feature.
fn feature_error(what: &str, bit: u8, features: u8) -> (e: CronError)
    ensures
        e is ComponentError,
{
    let mut m: Vec<char> = Vec::new();
    push_str(&mut m, what);
    push_str(&mut m, " 0b");
    push_binary8(&mut m, bit);
    push_str(&mut m, " is not supported by the current features 0b");
    push_binary8(&mut m, features);
    push_str(&mut m, ".");
    CronError::ComponentError(string_of(&m))
}

/// The message for a position past the end of the bitfields.
fn storage_error(pos: u16) -> (e: CronError)
    ensures
        e is ComponentError,
{
    let mut m: Vec<char> = Vec::new();
    push_str(&mut m, "Position ");
    push_decimal(&mut m, pos as u64);
    push_str(&mut m, " is out of the bitfields vector's bounds.");
    CronError::ComponentError(string_of(&m))
}

impl CronComponent {
    /// A new component as mathematics: no value carries a bit, the step is 1,
    /// and the value and last bits are supported besides `features`.
    pub open spec fn new_model(min: u16, max: u16, features: u8, input_offset: u16) -> ComponentModel {
        ComponentModel {
            bits: Seq::new(if max > 0 { max as nat + 1 } else { 0 }, |i: int| NONE_BIT),
            min: min as int,
            max: max as int,
            step: 1,
            from_wildcard: false,
            features: features | ALL_BIT | LAST_BIT,
            enabled: 0,
            offset: input_offset as int,
        }
    }

    /// Creates a component for values from `min` to `max`. `features` names
    /// the special bits it supports; the value and last bits are always
    /// supported. `input_offset` is subtracted from the values that patterns
    /// write.
    pub fn new(min: u16, max: u16, features: u8, input_offset: u16) -> (c: CronComponent)
        ensures
            c@ == Self::new_model(min, max, features, input_offset),
    {
        let size: usize = if max > 0 { max as usize + 1 } else { 0 };
        let mut bitfields: Vec<u8> = Vec::new();
        let mut i: usize = 0;
        while i < size
            invariant
                i <= size,
                bitfields@ == Seq::new(i as nat, |k: int| NONE_BIT),
            decreases size - i,
        {
            bitfields.push(NONE_BIT);
            i = i + 1;
            assert(bitfields@ =~= Seq::new(i as nat, |k: int| NONE_BIT));
        }
        CronComponent {
            bitfields,
            min,
            max,
            step: 1,
            from_wildcard: false,
            features: features | ALL_BIT | LAST_BIT,
            enabled_features: 0,
            input_offset,
        }
    }

    /// The minimum value.
    pub fn min_value(&self) -> (v: u16)
        ensures
            v == self@.min,
    {
        self.min
    }

    /// The maximum value.
    pub fn max_value(&self) -> (v: u16)
        ensures
            v == self@.max,
    {
        self.max
    }

    /// The step of the last stepped part parsed.
    pub fn step_value(&self) -> (v: u16)
        ensures
            v == self@.step,
    {
        self.step
    }

    /// Whether a wildcard was parsed.
    pub fn wildcard(&self) -> (b: bool)
        ensures
            b == self@.from_wildcard,
    {
        self.from_wildcard
    }

    /// The supported special bits.
    pub fn features(&self) -> (f: u8)
        ensures
            f == self@.features,
    {
        self.features
    }

    /// The bits of every value, one byte per value.
    pub fn bitfields(&self) -> (b: &[u8])
        ensures
            b@ == self@.bits,
    {
        self.bitfields.as_slice()
    }

    /// Whether every value from `min` to `max` carries the value bit.
    pub fn is_all_set(&self) -> (b: bool)
        ensures
            b == (forall|i: int| self@.min <= i <= self@.max ==> self@.has(i, ALL_BIT)),
    {
        if self.min > self.max {
            return true;
        }
        let mut i: u16 = self.min;
        loop
            invariant
                self@.min <= i <= self@.max,
                forall|j: int| self@.min <= j < i ==> self@.has(j, ALL_BIT),
            decreases self@.max - i,
        {
            let set = match self.is_bit_set(i, ALL_BIT) {
                Ok(b) => b,
                Err(_) => false,
            };
            if !set {
                assert(!self@.has(i as int, ALL_BIT));
                return false;
            }
            if i == self.max {
                return true;
            }
            i = i + 1;
        }
    }

    /// Sets `bit` at a position written with the input offset.
    pub fn set_bit(&mut self, pos: u16, bit: u8) -> (r: Result<(), CronError>)
        ensures
            r is Ok <==> old(self)@.set_bit(pos as int, bit) is Some,
            r is Ok ==> final(self)@ == old(self)@.set_bit(pos as int, bit)->0,
            r is Err ==> final(self)@ == old(self)@ && r->Err_0 is ComponentError,
    {
        if pos < self.input_offset {
            return Err(offset_error(pos, self.input_offset));
        }
        let p = pos - self.input_offset;
        if p < self.min || p > self.max {
            return Err(bounds_error(p, self.min, self.max));
        }
        if self.features & bit != bit {
            return Err(feature_error("Bit", bit, self.features));
        }
        let index = p as usize;
        if index >= self.bitfields.len() {
            return Err(storage_error(p));
        }
        let old_bits = self.bitfields[index];
        self.bitfields.set(index, old_bits | bit);
        Ok(())
    }

    /// Clears `bit` at a position written with the input offset.
    pub fn unset_bit(&mut self, pos: u16, bit: u8) -> (r: Result<(), CronError>)
        ensures
            r is Ok <==> old(self)@.unset_bit(pos as int, bit) is Some,
            r is Ok ==> final(self)@ == old(self)@.unset_bit(pos as int, bit)->0,
            r is Err ==> final(self)@ == old(self)@ && r->Err_0 is ComponentError,
    {
        if pos < self.input_offset {
            return Err(offset_error(pos, self.input_offset));
        }
        let p = pos - self.input_offset;
        if p < self.min || p > self.max {
            return Err(bounds_error(p, self.min, self.max));
        }
        if self.features & bit != bit {
            return Err(feature_error("Bit", bit, self.features));
        }
        let index = p as usize;
        if index >= self.bitfields.len() {
            return Err(storage_error(p));
        }
        let old_bits = self.bitfields[index];
        self.bitfields.set(index, old_bits & !bit);
        Ok(())
    }

    /// Whether the value at `pos` carries `bit`. The position is not shifted
    /// by the input offset.
    pub fn is_bit_set(&self, pos: u16, bit: u8) -> (r: Result<bool, CronError>)
        ensures
            r is Ok <==> self@.readable(pos as int, bit),
            r matches Ok(b) ==> b == self@.has(pos as int, bit),
            r matches Err(e) ==> e is ComponentError,
    {
        if pos < self.min || pos > self.max {
            Err(bounds_error(pos, self.min, self.max))
        } else if self.features & bit != bit {
            Err(feature_error("Bit", bit, self.features))
        } else {
            let index = pos as usize;
            if index >= self.bitfields.len() {
                Err(storage_error(pos))
            } else {
                Ok((self.bitfields[index] & bit) != 0)
            }
        }
    }

    /// Enables a supported feature.
    pub fn enable_feature(&mut self, feature: u8) -> (r: Result<(), CronError>)
        ensures
            r is Ok <==> old(self)@.supports(feature),
            r is Ok ==> final(self)@ == (ComponentModel {
                enabled: old(self)@.enabled | feature,
                ..old(self)@
            }),
            r is Err ==> final(self)@ == old(self)@ && r->Err_0 is ComponentError,
    {
        if self.is_feature_allowed(feature) {
            self.enabled_features = self.enabled_features | feature;
            Ok(())
        } else {
            Err(feature_error("Feature", feature, self.features))
        }
    }

    /// Whether `feature` is supported.
    pub fn is_feature_allowed(&mut self, feature: u8) -> (b: bool)
        ensures
            b == old(self)@.supports(feature),
            final(self)@ == old(self)@,
    {
        self.features & feature == feature
    }

    /// Whether `feature` is enabled.
    pub fn is_feature_enabled(&self, feature: u8) -> (b: bool)
        ensures
            b == self@.enables(feature),
    {
        (self.enabled_features & feature) == feature
    }
}

impl CronComponent {
    /// Parses a field of pattern text and sets the bits it names: `*`, or a
    /// comma-separated list of numbers, ranges `a-b`, stepped ranges `r/s`,
    /// closest weekdays `dW`, `L`, and numbers with `#n` or a trailing `L`.
    pub fn parse(&mut self, field: &str) -> (r: Result<(), CronError>)
        requires
            old(self)@.max + old(self)@.offset <= 65535,
        ensures
            r is Ok <==> field_spec(old(self)@, field@) is Some,
            r is Ok ==> final(self)@ == field_spec(old(self)@, field@)->0,
            r matches Err(e) ==> e is ComponentError,
    {
        let v = chars_of(field);
        proof {
            reveal_strlit("*");
            assert("*"@ =~= seq!['*']);
        }
        if equals(&v, "*") {
            self.parse_wildcard()
        } else {
            self.parse_list(&v)
        }
    }

    /// Sets the value bit everywhere, for a field that is `*`.
    fn parse_wildcard(&mut self) -> (r: Result<(), CronError>)
        requires
            old(self)@.max + old(self)@.offset <= 65535,
        ensures
            r is Ok <==> field_spec(old(self)@, seq!['*']) is Some,
            r is Ok ==> final(self)@ == field_spec(old(self)@, seq!['*'])->0,
            r matches Err(e) ==> e is ComponentError,
    {
        let ghost m0 = old(self)@;
        let ghost w = ComponentModel { from_wildcard: true, ..m0 };
        self.from_wildcard = true;
        assert(self@ == w);
        let lo: u32 = self.min as u32 + self.input_offset as u32;
        let hi: u32 = self.max as u32 + self.input_offset as u32;
        assert(field_spec(m0, seq!['*']) == w.set_each(lo as int, hi as int, ALL_BIT));
        if lo > hi {
            return Ok(());
        }
        let mut value: u32 = lo;
        while value <= hi
            invariant
                lo <= value <= hi + 1,
                hi <= 65535,
                m0 == old(self)@,
                field_spec(m0, seq!['*']) == w.set_each(lo as int, hi as int, ALL_BIT),
                w.set_each(lo as int, hi as int, ALL_BIT) == self@.set_each(
                    value as int,
                    hi as int,
                    ALL_BIT,
                ),
            decreases hi + 1 - value,
        {
            let ghost before = self@;
            match self.set_bit(value as u16, ALL_BIT) {
                Ok(()) => {},
                Err(e) => {
                    assert(before.set_each(value as int, hi as int, ALL_BIT) is None);
                    return Err(e);
                },
            }
            value = value + 1;
        }
        Ok(())
    }

    /// Applies the comma-separated parts of a field that is not `*`.
    fn parse_list(&mut self, v: &Vec<char>) -> (r: Result<(), CronError>)
        requires
            v@ != seq!['*'],
        ensures
            r is Ok <==> field_spec(old(self)@, v@) is Some,
            r is Ok ==> final(self)@ == field_spec(old(self)@, v@)->0,
            r matches Err(e) ==> e is ComponentError,
    {
        let parts = split_char(v, ',');
        let ghost all = views(parts@);
        assert(field_spec(old(self)@, v@) == parts_spec(old(self)@, all));
        let mut i: usize = 0;
        assert(all.take(0) =~= Seq::<Seq<char>>::empty());
        while i < parts.len()
            invariant
                i <= parts@.len(),
                all == views(parts@),
                field_spec(old(self)@, v@) == parts_spec(old(self)@, all),
                parts_spec(old(self)@, all.take(i as int)) == Some(self@),
            decreases parts.len() - i,
        {
            let t = trim(&parts[i]);
            assert(all.take(i as int + 1).drop_last() =~= all.take(i as int));
            assert(all.take(i as int + 1).last() == parts@[i as int]@);
            if t.len() > 0 {
                let ghost before = self@;
                match self.parse_part(&t) {
                    Ok(()) => {},
                    Err(e) => {
                        proof {
                            assert(part_spec(before, t@) is None);
                            assert(parts_spec(old(self)@, all.take(i as int + 1)) is None);
                            lemma_parts_prefix_fails(old(self)@, all, i as int + 1);
                        }
                        return Err(e);
                    },
                }
            }
            i = i + 1;
        }
        assert(all.take(parts@.len() as int) =~= all);
        Ok(())
    }

    /// Applies one trimmed, non-empty part of a field.
    fn parse_part(&mut self, t: &Vec<char>) -> (r: Result<(), CronError>)
        ensures
            r is Ok <==> part_spec(old(self)@, t@) is Some,
            r is Ok ==> final(self)@ == part_spec(old(self)@, t@)->0,
            r matches Err(e) ==> e is ComponentError,
    {
        if contains_char(t, '/') {
            self.handle_stepping_chars(t)
        } else if contains_char(t, '-') {
            self.handle_range(t)
        } else if t.len() == 2 && t[0] == 'L' && t[1] == 'W' {
            assert(t@ =~= seq!['L', 'W']);
            if !self.is_feature_allowed(LAST_BIT) || !self.is_feature_allowed(CLOSEST_WEEKDAY_BIT) {
                return Err(component_error("LW is not allowed in the current field."));
            }
            let ghost before = self@;
            match self.enable_feature(LAST_BIT) {
                Ok(()) => {},
                Err(e) => {
                    return Err(e);
                },
            }
            match self.enable_feature(CLOSEST_WEEKDAY_BIT) {
                Ok(()) => {},
                Err(e) => {
                    return Err(e);
                },
            }
            assert(self@ == last_weekday_spec(before)->0);
            Ok(())
        } else if contains_char(t, 'W') {
            self.handle_closest_weekday(t)
        } else {
            self.handle_plain(t)
        }
    }

    /// Applies a part that is `L`, or a number with an optional `#n` or
    /// trailing `L`.
    fn handle_plain(&mut self, t: &Vec<char>) -> (r: Result<(), CronError>)
        ensures
            r is Ok <==> plain_spec(old(self)@, t@) is Some,
            r is Ok ==> final(self)@ == plain_spec(old(self)@, t@)->0,
            r matches Err(e) ==> e is ComponentError,
    {
        if t.len() == 1 && (t[0] == 'L' || t[0] == 'l') {
            assert(t@ =~= seq!['L'] || t@ =~= seq!['l']);
            return self.enable_feature(LAST_BIT);
        }
        assert(!(t@ =~= seq!['L'] || t@ =~= seq!['l']));
        proof {
            reveal_strlit("L");
            reveal_strlit("#L");
            assert("L"@ =~= seq!['L']);
            assert("#L"@ =~= seq!['#', 'L']);
        }
        let t2 = if ends_with_char(t, 'L') && !contains_char(t, '#') {
            replace(t, "L", "#L")
        } else {
            copy_chars(t)
        };
        let ghost m = old(self)@;
        assert(plain_spec(m, t@) == if (t2@.contains('#') || t2@.contains('L')) && !m.supports(
            NTH_ALL,
        ) {
            None
        } else {
            number_spec(m, t2@)
        });
        if contains_char(&t2, '#') && !self.is_feature_allowed(NTH_ALL) {
            return Err(component_error("Nth specifier # not allowed in the current field."));
        }
        if contains_char(&t2, 'L') && !self.is_feature_allowed(NTH_ALL) {
            return Err(component_error("L not allowed in the current field."));
        }
        self.handle_number(&t2)
    }

    /// The bit that a value's suffix selects.
    fn get_nth_bit(value: &Vec<char>) -> (r: Result<u8, CronError>)
        ensures
            r is Ok <==> nth_bit_spec(value@) is Some,
            r matches Ok(b) ==> nth_bit_spec(value@) == Some(b),
            r matches Err(e) ==> e is ComponentError,
    {
        if ends_with_char(value, 'L') {
            return Ok(LAST_BIT);
        }
        match find_char(value, '#') {
            None => {
                proof {
                    lemma_index_of_char_absent(value@, '#');
                }
                Ok(ALL_BIT)
            },
            Some(pos) => {
                proof {
                    lemma_index_of_char(value@, '#', pos as int);
                }
                let n = value.len();
                let rest = slice_chars(value, pos + 1, n);
                assert(rest@ =~= value@.skip(pos + 1));
                match parse_number(&rest, 255) {
                    None => Err(component_error("Invalid nth specifier.")),
                    Some(nth) => {
                        if nth == 0 || nth > 5 {
                            Err(component_error("Nth specifier out of bounds."))
                        } else if nth == 1 {
                            Ok(NTH_1ST_BIT)
                        } else if nth == 2 {
                            Ok(NTH_2ND_BIT)
                        } else if nth == 3 {
                            Ok(NTH_3RD_BIT)
                        } else if nth == 4 {
                            Ok(NTH_4TH_BIT)
                        } else {
                            Ok(NTH_5TH_BIT)
                        }
                    },
                }
            },
        }
    }

    /// A value without its `#` part.
    fn strip_nth_part(value: &Vec<char>) -> (r: Vec<char>)
        ensures
            r@ == before_char(value@, '#'),
    {
        prefix_before(value, '#')
    }

    /// Sets the bit for a closest weekday `dW`, or for a plain number.
    fn handle_closest_weekday(&mut self, value: &Vec<char>) -> (r: Result<(), CronError>)
        ensures
            r is Ok <==> closest_weekday_spec(old(self)@, value@) is Some,
            r is Ok ==> final(self)@ == closest_weekday_spec(old(self)@, value@)->0,
            r matches Err(e) ==> e is ComponentError,
    {
        match find_char(value, 'W') {
            Some(pos) => {
                proof {
                    lemma_index_of_char(value@, 'W', pos as int);
                }
                let day_str = slice_chars(value, 0, pos);
                assert(day_str@ =~= value@.take(pos as int));
                let day = match parse_number(&day_str, 65535) {
                    Some(d) => d,
                    None => {
                        return Err(component_error("Invalid day for closest weekday."));
                    },
                };
                if day < self.min as u32 || day > self.max as u32 {
                    return Err(component_error("Day for closest weekday out of bounds."));
                }
                self.set_bit(day as u16, CLOSEST_WEEKDAY_BIT)
            },
            None => {
                proof {
                    lemma_index_of_char_absent(value@, 'W');
                }
                self.handle_number(value)
            },
        }
    }

    /// Sets the bits of a range `a-b`.
    fn handle_range(&mut self, range: &Vec<char>) -> (r: Result<(), CronError>)
        ensures
            r is Ok <==> range_spec(old(self)@, range@) is Some,
            r is Ok ==> final(self)@ == range_spec(old(self)@, range@)->0,
            r matches Err(e) ==> e is ComponentError,
    {
        let bit = match Self::get_nth_bit(range) {
            Ok(b) => b,
            Err(e) => {
                return Err(e);
            },
        };
        let clean = Self::strip_nth_part(range);
        let parts = split_char(&clean, '-');
        if parts.len() != 2 {
            return Err(component_error("Invalid range syntax."));
        }
        assert(views(parts@)[0] == parts@[0]@);
        assert(views(parts@)[1] == parts@[1]@);
        let first = trim(&parts[0]);
        let second = trim(&parts[1]);
        let start = match parse_number(&first, 65535) {
            Some(n) => n,
            None => {
                return Err(component_error("Invalid start of range."));
            },
        };
        let end = match parse_number(&second, 65535) {
            Some(n) => n,
            None => {
                return Err(component_error("Invalid end of range."));
            },
        };
        if start > end || start < self.min as u32 || end > self.max as u32 {
            return Err(component_error("Range out of bounds."));
        }
        let ghost m0 = self@;
        assert(range_spec(old(self)@, range@) == m0.set_each(start as int, end as int, bit));
        let mut value: u32 = start;
        while value <= end
            invariant
                start <= value <= end + 1,
                end <= 65535,
                range_spec(old(self)@, range@) == m0.set_each(start as int, end as int, bit),
                m0.set_each(start as int, end as int, bit) == self@.set_each(
                    value as int,
                    end as int,
                    bit,
                ),
            decreases end + 1 - value,
        {
            match self.set_bit(value as u16, bit) {
                Ok(()) => {},
                Err(e) => {
                    return Err(e);
                },
            }
            value = value + 1;
        }
        Ok(())
    }

    /// Sets the bit for a number, with an optional `#n` or trailing `L`.
    fn handle_number(&mut self, value: &Vec<char>) -> (r: Result<(), CronError>)
        ensures
            r is Ok <==> number_spec(old(self)@, value@) is Some,
            r is Ok ==> final(self)@ == number_spec(old(self)@, value@)->0,
            r matches Err(e) ==> e is ComponentError,
    {
        let bit = match Self::get_nth_bit(value) {
            Ok(b) => b,
            Err(e) => {
                return Err(e);
            },
        };
        let clean = Self::strip_nth_part(value);
        let num = match parse_number(&clean, 65535) {
            Some(n) => n,
            None => {
                return Err(component_error("Invalid number."));
            },
        };
        if num < self.min as u32 || num > self.max as u32 {
            return Err(component_error("Number out of bounds."));
        }
        self.set_bit(num as u16, bit)
    }

    /// Sets the bits of a stepped range `r/s`, where `r` is `*`, a range
    /// `a-b`, or a start `a` that runs to the maximum.
    pub fn handle_stepping(&mut self, stepped_range: &str) -> (r: Result<(), CronError>)
        ensures
            r is Ok <==> stepping_spec(old(self)@, stepped_range@) is Some,
            r is Ok ==> final(self)@ == stepping_spec(old(self)@, stepped_range@)->0,
            r matches Err(e) ==> e is ComponentError,
    {
        let v = chars_of(stepped_range);
        self.handle_stepping_chars(&v)
    }

    /// `handle_stepping` on a sequence of characters.
    fn handle_stepping_chars(&mut self, v: &Vec<char>) -> (r: Result<(), CronError>)
        ensures
            r is Ok <==> stepping_spec(old(self)@, v@) is Some,
            r is Ok ==> final(self)@ == stepping_spec(old(self)@, v@)->0,
            r matches Err(e) ==> e is ComponentError,
    {
        let bit = match Self::get_nth_bit(v) {
            Ok(b) => b,
            Err(e) => {
                return Err(e);
            },
        };
        let clean = Self::strip_nth_part(v);
        let parts = split_char(&clean, '/');
        if parts.len() != 2 {
            return Err(component_error("Invalid stepped range syntax."));
        }
        assert(views(parts@)[0] == parts@[0]@);
        assert(views(parts@)[1] == parts@[1]@);
        let step = match parse_number(&parts[1], 65535) {
            Some(n) => n,
            None => {
                return Err(component_error("Invalid step."));
            },
        };
        self.step = step as u16;
        if step == 0 {
            return Err(component_error("Step cannot be zero."));
        }
        let ghost m1 = self@;
        assert(m1 == ComponentModel { step: step as int, ..old(self)@ });
        let range_part = &parts[0];
        let ghost r0 = parts@[0]@;
        proof {
            reveal_strlit("*");
            assert("*"@ =~= seq!['*']);
        }
        let start: u32;
        let end: u32;
        if equals(range_part, "*") {
            self.from_wildcard = true;
            start = self.min as u32;
            end = self.max as u32;
            assert(stepped_bounds(m1, r0) == Some((start as int, end as int, true)));
        } else if contains_char(range_part, '-') {
            let bounds = split_char(range_part, '-');
            if bounds.len() != 2 {
                return Err(component_error("Invalid range syntax in stepping."));
            }
            assert(views(bounds@)[0] == bounds@[0]@);
            assert(views(bounds@)[1] == bounds@[1]@);
            start = match parse_number(&bounds[0], 65535) {
                Some(n) => n,
                None => {
                    return Err(component_error("Invalid range start."));
                },
            };
            end = match parse_number(&bounds[1], 65535) {
                Some(n) => n,
                None => {
                    return Err(component_error("Invalid range end."));
                },
            };
            assert(stepped_bounds(m1, r0) == Some((start as int, end as int, false)));
        } else {
            start = match parse_number(range_part, 65535) {
                Some(n) => n,
                None => {
                    return Err(component_error("Invalid start."));
                },
            };
            end = self.max as u32;
            assert(stepped_bounds(m1, r0) == Some((start as int, end as int, false)));
        }
        if start < self.min as u32 || end > self.max as u32 || start > end {
            return Err(component_error("Range is out of bounds in stepping."));
        }
        let ghost m2 = self@;
        assert(stepping_spec(old(self)@, v@) == m2.set_stepped(
            start as int,
            end as int,
            step as int,
            bit,
        ));
        let mut value: u32 = start;
        while value <= end
            invariant
                start <= value,
                end <= 65535,
                value <= 131070,
                0 < step <= 65535,
                stepping_spec(old(self)@, v@) == m2.set_stepped(
                    start as int,
                    end as int,
                    step as int,
                    bit,
                ),
                m2.set_stepped(start as int, end as int, step as int, bit) == self@.set_stepped(
                    value as int,
                    end as int,
                    step as int,
                    bit,
                ),
            decreases 131071 - value,
        {
            match self.set_bit(value as u16, bit) {
                Ok(()) => {},
                Err(e) => {
                    return Err(e);
                },
            }
            value = value + step;
        }
        Ok(())
    }

    /// The values that carry `bit`, in ascending order.
    pub fn get_set_values(&self, bit: u8) -> (r: Vec<u16>)
        ensures
            r@ == set_values(self@, bit),
            forall|v: int|
                self@.min <= v <= self@.max && self@.has(v, bit) ==> r@.contains(v as u16),
            forall|k: int|
                0 <= k < r@.len() ==> self@.min <= #[trigger] r@[k] <= self@.max && self@.has(
                    r@[k] as int,
                    bit,
                ),
            forall|k: int, l: int| 0 <= k < l < r@.len() ==> r@[k] < r@[l],
    {
        proof {
            lemma_values_in_range(self@, bit, self@.max + 1);
            assert forall|v: int|
                self@.min <= v <= self@.max && self@.has(v, bit) implies set_values(
                self@,
                bit,
            ).contains(v as u16) by {
                lemma_values_complete(self@, bit, self@.max + 1, v);
            }
        }
        let mut out: Vec<u16> = Vec::new();
        let hi: u32 = self.max as u32;
        let mut i: u32 = self.min as u32;
        if i > hi {
            return out;
        }
        while i <= hi
            invariant
                self@.min <= i <= hi + 1,
                hi == self@.max,
                out@ == values_below(self@, bit, i as int),
            decreases hi + 1 - i,
        {
            let set = match self.is_bit_set(i as u16, bit) {
                Ok(b) => b,
                Err(_) => false,
            };
            if set {
                out.push(i as u16);
            }
            i = i + 1;
        }
        out
    }
}

} // verus!
