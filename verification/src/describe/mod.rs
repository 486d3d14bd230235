//! Human-readable descriptions of patterns.
use vstd::prelude::*;

pub mod english;
pub mod swedish;

pub use english::English;
pub use swedish::Swedish;

use crate::component::{
    set_values, ComponentModel, CronComponent, ALL_BIT, CLOSEST_WEEKDAY_BIT, LAST_BIT,
    NTH_1ST_BIT, NTH_2ND_BIT, NTH_3RD_BIT, NTH_4TH_BIT, NTH_5TH_BIT,
};
use crate::pattern::{CronPattern, PatternModel};
use crate::text::{
    digit_char,
    chars_of, decimal, decimal2, push_char, push_chars, push_decimal, push_decimal2, push_str,
    all_ascii, ascii_upper, string_of, to_uppercase, uppercase,
};

verus! {

/// Localized wording for descriptions. Each phrase comes with its text as
/// mathematics, which the descriptions are stated over.
pub trait Language {
    /// The description of a pattern that runs every minute.
    spec fn every_minute_text(&self) -> Seq<char>;

    /// The description of a pattern that runs every minute.
    fn every_minute(&self) -> (r: &'static str)
        ensures
            r@ == self.every_minute_text(),
    ;

    /// The description of a pattern that runs every second.
    spec fn every_second_phrase_text(&self) -> Seq<char>;

    /// The description of a pattern that runs every second.
    fn every_second_phrase(&self) -> (r: &'static str)
        ensures
            r@ == self.every_second_phrase_text(),
    ;

    /// The last day of the month.
    spec fn the_last_day_of_the_month_text(&self) -> Seq<char>;

    /// The last day of the month.
    fn the_last_day_of_the_month(&self) -> (r: &'static str)
        ensures
            r@ == self.the_last_day_of_the_month_text(),
    ;

    /// The word that joins the last two items of a list.
    spec fn list_conjunction_and_text(&self) -> Seq<char>;

    /// The word that joins the last two items of a list.
    fn list_conjunction_and(&self) -> (r: &'static str)
        ensures
            r@ == self.list_conjunction_and_text(),
    ;

    /// The word that joins the day of month and the day of week.
    spec fn list_conjunction_or_text(&self) -> Seq<char>;

    /// The word that joins the day of month and the day of week.
    fn list_conjunction_or(&self) -> (r: &'static str)
        ensures
            r@ == self.list_conjunction_or_text(),
    ;

    /// The joining word after a comma.
    spec fn list_conjunction_and_comma_text(&self) -> Seq<char>;

    /// The joining word after a comma.
    fn list_conjunction_and_comma(&self) -> (r: &'static str)
        ensures
            r@ == self.list_conjunction_and_comma_text(),
    ;

    /// Every `step` minutes.
    spec fn every_x_minutes_text(&self, step: u16) -> Seq<char>;

    /// Every `step` minutes.
    fn every_x_minutes(&self, step: u16) -> (r: String)
        ensures
            r@ == self.every_x_minutes_text(step),
    ;

    /// Every `step` seconds.
    spec fn every_x_seconds_text(&self, step: u16) -> Seq<char>;

    /// Every `step` seconds.
    fn every_x_seconds(&self, step: u16) -> (r: String)
        ensures
            r@ == self.every_x_seconds_text(step),
    ;

    /// Every `step` hours.
    spec fn every_x_hours_text(&self, step: u16) -> Seq<char>;

    /// Every `step` hours.
    fn every_x_hours(&self, step: u16) -> (r: String)
        ensures
            r@ == self.every_x_hours_text(step),
    ;

    /// Every minute of every `step` hours.
    spec fn every_minute_of_every_x_hours_text(&self, step: u16) -> Seq<char>;

    /// Every minute of every `step` hours.
    fn every_minute_of_every_x_hours(&self, step: u16) -> (r: String)
        ensures
            r@ == self.every_minute_of_every_x_hours_text(step),
    ;

    /// At a time of day.
    spec fn at_time_text(&self, time: Seq<char>) -> Seq<char>;

    /// At a time of day.
    fn at_time(&self, time: &str) -> (r: String)
        ensures
            r@ == self.at_time_text(time@),
    ;

    /// At the given phrase.
    spec fn at_phrase_text(&self, phrase: Seq<char>) -> Seq<char>;

    /// At the given phrase.
    fn at_phrase(&self, phrase: &str) -> (r: String)
        ensures
            r@ == self.at_phrase_text(phrase@),
    ;

    /// On the given days.
    spec fn on_phrase_text(&self, phrase: Seq<char>) -> Seq<char>;

    /// On the given days.
    fn on_phrase(&self, phrase: &str) -> (r: String)
        ensures
            r@ == self.on_phrase_text(phrase@),
    ;

    /// In the given months or years.
    spec fn in_phrase_text(&self, phrase: Seq<char>) -> Seq<char>;

    /// In the given months or years.
    fn in_phrase(&self, phrase: &str) -> (r: String)
        ensures
            r@ == self.in_phrase_text(phrase@),
    ;

    /// The given seconds.
    spec fn second_phrase_text(&self, s: Seq<char>) -> Seq<char>;

    /// The given seconds.
    fn second_phrase(&self, s: &str) -> (r: String)
        ensures
            r@ == self.second_phrase_text(s@),
    ;

    /// The given minutes.
    spec fn minute_phrase_text(&self, s: Seq<char>) -> Seq<char>;

    /// The given minutes.
    fn minute_phrase(&self, s: &str) -> (r: String)
        ensures
            r@ == self.minute_phrase_text(s@),
    ;

    /// Minutes past every hour.
    spec fn minute_past_every_hour_phrase_text(&self, s: Seq<char>) -> Seq<char>;

    /// Minutes past every hour.
    fn minute_past_every_hour_phrase(&self, s: &str) -> (r: String)
        ensures
            r@ == self.minute_past_every_hour_phrase_text(s@),
    ;

    /// The given hours.
    spec fn hour_phrase_text(&self, s: Seq<char>) -> Seq<char>;

    /// The given hours.
    fn hour_phrase(&self, s: &str) -> (r: String)
        ensures
            r@ == self.hour_phrase_text(s@),
    ;

    /// The given years.
    spec fn year_phrase_text(&self, s: Seq<char>) -> Seq<char>;

    /// The given years.
    fn year_phrase(&self, s: &str) -> (r: String)
        ensures
            r@ == self.year_phrase_text(s@),
    ;

    /// The given days of the month.
    spec fn day_phrase_text(&self, s: Seq<char>) -> Seq<char>;

    /// The given days of the month.
    fn day_phrase(&self, s: &str) -> (r: String)
        ensures
            r@ == self.day_phrase_text(s@),
    ;

    /// The weekday nearest the given days.
    spec fn the_weekday_nearest_day_text(&self, day: Seq<char>) -> Seq<char>;

    /// The weekday nearest the given days.
    fn the_weekday_nearest_day(&self, day: &str) -> (r: String)
        ensures
            r@ == self.the_weekday_nearest_day_text(day@),
    ;

    /// The last of the given weekdays in the month.
    spec fn the_last_weekday_of_the_month_text(&self, day: Seq<char>) -> Seq<char>;

    /// The last of the given weekdays in the month.
    fn the_last_weekday_of_the_month(&self, day: &str) -> (r: String)
        ensures
            r@ == self.the_last_weekday_of_the_month_text(day@),
    ;

    /// A condition on the day of week.
    spec fn dom_and_dow_if_also_text(&self, dow: Seq<char>) -> Seq<char>;

    /// A condition on the day of week.
    fn dom_and_dow_if_also(&self, dow: &str) -> (r: String)
        ensures
            r@ == self.dom_and_dow_if_also_text(dow@),
    ;

    /// A condition on several days of week.
    spec fn dom_and_dow_if_also_one_of_text(&self, dow: Seq<char>) -> Seq<char>;

    /// A condition on several days of week.
    fn dom_and_dow_if_also_one_of(&self, dow: &str) -> (r: String)
        ensures
            r@ == self.dom_and_dow_if_also_one_of_text(dow@),
    ;

    /// At a time of day, every `step` seconds.
    spec fn at_time_and_every_x_seconds_text(&self, time: Seq<char>, step: u16) -> Seq<char>;

    /// At a time of day, every `step` seconds.
    fn at_time_and_every_x_seconds(&self, time: &str, step: u16) -> (r: String)
        ensures
            r@ == self.at_time_and_every_x_seconds_text(time@, step),
    ;

    /// At a time of day, at the given seconds.
    spec fn at_time_at_second_text(&self, time: Seq<char>, second: Seq<char>) -> Seq<char>;

    /// At a time of day, at the given seconds.
    fn at_time_at_second(&self, time: &str, second: &str) -> (r: String)
        ensures
            r@ == self.at_time_at_second_text(time@, second@),
    ;

    /// The nth of the given weekdays in the month.
    spec fn the_nth_weekday_of_the_month_text(&self, n: u8, day: Seq<char>) -> Seq<char>;

    /// The nth of the given weekdays in the month.
    fn the_nth_weekday_of_the_month(&self, n: u8, day: &str) -> (r: String)
        ensures
            r@ == self.the_nth_weekday_of_the_month_text(n, day@),
    ;

    /// The names of the days of the week, from Sunday.
    spec fn day_names(&self) -> Seq<Seq<char>>;

    /// The names of the days of the week, from Sunday.
    fn day_of_week_names(&self) -> (r: [&'static str; 7])
        ensures
            self.day_names().len() == 7,
            forall|i: int| 0 <= i < 7 ==> #[trigger] r@[i]@ == self.day_names()[i],
    ;

    /// The names of the months, from January.
    spec fn month_name_texts(&self) -> Seq<Seq<char>>;

    /// The names of the months, from January.
    fn month_names(&self) -> (r: [&'static str; 12])
        ensures
            self.month_name_texts().len() == 12,
            forall|i: int| 0 <= i < 12 ==> #[trigger] r@[i]@ == self.month_name_texts()[i],
    ;
}

// ---------------------------------------------------------------------------
// Building phrases.
// ---------------------------------------------------------------------------

/// Two pieces of text joined.
pub fn phrase(a: &str, b: &str) -> (r: String)
    ensures
        r@ == a@ + b@,
{
    let mut v: Vec<char> = Vec::new();
    push_str(&mut v, a);
    push_str(&mut v, b);
    assert(v@ =~= a@ + b@);
    string_of(&v)
}

/// Three pieces of text joined.
pub fn phrase3(a: &str, b: &str, c: &str) -> (r: String)
    ensures
        r@ == a@ + b@ + c@,
{
    let mut v: Vec<char> = Vec::new();
    push_str(&mut v, a);
    push_str(&mut v, b);
    push_str(&mut v, c);
    assert(v@ =~= a@ + b@ + c@);
    string_of(&v)
}

/// Four pieces of text joined.
pub fn phrase4(a: &str, b: &str, c: &str, d: &str) -> (r: String)
    ensures
        r@ == a@ + b@ + c@ + d@,
{
    let mut v: Vec<char> = Vec::new();
    push_str(&mut v, a);
    push_str(&mut v, b);
    push_str(&mut v, c);
    push_str(&mut v, d);
    assert(v@ =~= a@ + b@ + c@ + d@);
    string_of(&v)
}

/// A number between two pieces of text.
pub fn phrase_num(a: &str, n: u16, c: &str) -> (r: String)
    ensures
        r@ == a@ + decimal(n as nat) + c@,
{
    let mut v: Vec<char> = Vec::new();
    push_str(&mut v, a);
    push_decimal(&mut v, n as u64);
    push_str(&mut v, c);
    assert(v@ =~= a@ + decimal(n as nat) + c@);
    string_of(&v)
}

/// A text and a number between pieces of text.
pub fn phrase5(a: &str, b: &str, c: &str, n: u16, e: &str) -> (r: String)
    ensures
        r@ == a@ + b@ + c@ + decimal(n as nat) + e@,
{
    let mut v: Vec<char> = Vec::new();
    push_str(&mut v, a);
    push_str(&mut v, b);
    push_str(&mut v, c);
    push_decimal(&mut v, n as u64);
    push_str(&mut v, e);
    assert(v@ =~= a@ + b@ + c@ + decimal(n as nat) + e@);
    string_of(&v)
}

// ---------------------------------------------------------------------------
// Descriptions as mathematics.
// ---------------------------------------------------------------------------

/// Items joined by a separator.
pub open spec fn join(items: Seq<Seq<char>>, sep: Seq<char>) -> Seq<char>
    decreases items.len(),
{
    if items.len() == 0 {
        Seq::empty()
    } else if items.len() == 1 {
        items[0]
    } else {
        join(items.drop_last(), sep) + sep + items.last()
    }
}

/// A list in words: the items joined by commas, the last two by the
/// conjunction.
pub open spec fn text_list(items: Seq<Seq<char>>, and: Seq<char>) -> Seq<char> {
    if items.len() == 0 {
        Seq::empty()
    } else if items.len() == 1 {
        items[0]
    } else if items.len() == 2 {
        items[0] + " "@ + and + " "@ + items[1]
    } else {
        join(items.drop_last(), ", "@) + ", "@ + and + " "@ + items.last()
    }
}

/// The last index of the run of consecutive numbers that starts at `i`.
pub open spec fn run_end(v: Seq<u16>, i: int) -> int
    decreases v.len() - i,
{
    if 0 <= i && i + 1 < v.len() && v[i + 1] == v[i] + 1 {
        run_end(v, i + 1)
    } else {
        i
    }
}

/// A run ends at or after its start.
pub proof fn lemma_run_end(v: Seq<u16>, i: int)
    ensures
        i <= run_end(v, i),
        0 <= i < v.len() ==> run_end(v, i) < v.len(),
    decreases v.len() - i,
{
    if 0 <= i && i + 1 < v.len() && v[i + 1] == v[i] + 1 {
        lemma_run_end(v, i + 1);
    }
}

/// The items of a list of numbers from `i` on: a run of three or more
/// consecutive numbers becomes a range `a-b`, the others stay single.
pub open spec fn number_items(v: Seq<u16>, i: int) -> Seq<Seq<char>>
    decreases v.len() - i,
{
    if i < 0 || i >= v.len() {
        Seq::empty()
    } else {
        let j = run_end(v, i);
        proof {
            lemma_run_end(v, i);
        }
        let head = if j > i + 1 {
            seq![decimal(v[i] as nat) + "-"@ + decimal(v[j] as nat)]
        } else if j == i + 1 {
            seq![decimal(v[i] as nat), decimal(v[j] as nat)]
        } else {
            seq![decimal(v[i] as nat)]
        };
        head + number_items(v, j + 1)
    }
}

/// Whether an item of a number list names the value `x`: it is `x`
/// written out, or a range `a-b` with `x` from `a` to `b`.
pub open spec fn names_value(t: Seq<char>, x: int) -> bool {
    ||| t == decimal(x as nat)
    ||| exists|a: nat, b: nat| t == decimal(a) + "-"@ + decimal(b) && a <= x <= b
}

/// Within a run of consecutive numbers each one is the first plus its
/// distance from it.
proof fn lemma_run_values(v: Seq<u16>, i: int, k: int)
    requires
        0 <= i <= k <= run_end(v, i),
        run_end(v, i) < v.len(),
    ensures
        v[k] == v[i] + (k - i),
    decreases k - i,
{
    if k > i {
        assert(i + 1 < v.len() && v[i + 1] == v[i] + 1);
        lemma_run_values(v, i + 1, k);
    }
}

/// A number list names every value it is given: each value from `i` on is
/// written out as an item, or lies inside a range item.
pub proof fn lemma_number_items_name_every_value(v: Seq<u16>, i: int, k: int)
    requires
        0 <= i <= k < v.len(),
    ensures
        exists|t: Seq<char>| number_items(v, i).contains(t) && names_value(t, v[k] as int),
    decreases v.len() - i,
{
    let j = run_end(v, i);
    lemma_run_end(v, i);
    let items = number_items(v, i);
    let rest = number_items(v, j + 1);
    let head = if j > i + 1 {
        seq![decimal(v[i] as nat) + "-"@ + decimal(v[j] as nat)]
    } else if j == i + 1 {
        seq![decimal(v[i] as nat), decimal(v[j] as nat)]
    } else {
        seq![decimal(v[i] as nat)]
    };
    assert(items == head + rest);
    if k <= j {
        lemma_run_values(v, i, k);
        lemma_run_values(v, i, j);
        let t = if j > i + 1 {
            head[0]
        } else if j == i + 1 {
            if k == i {
                head[0]
            } else {
                head[1]
            }
        } else {
            head[0]
        };
        if j > i + 1 {
            let a = v[i] as nat;
            let b = v[j] as nat;
            assert(t == decimal(a) + "-"@ + decimal(b) && a <= v[k] as int <= b);
        }
        assert(names_value(t, v[k] as int));
        if j == i + 1 && k != i {
            assert(items[1] == t);
        } else {
            assert(items[0] == t);
        }
        assert(items.contains(t));
    } else {
        lemma_number_items_name_every_value(v, j + 1, k);
        let t = choose|t: Seq<char>| rest.contains(t) && names_value(t, v[k] as int);
        let n = choose|n: int| 0 <= n < rest.len() && rest[n] == t;
        assert(items[head.len() + n] == t);
        assert(items.contains(t));
    }
}

/// The list of a field's values in a description names every value the
/// field holds.
pub proof fn lemma_field_list_names_every_value(m: ComponentModel, x: int)
    requires
        0 <= m.min,
        m.max <= 65535,
        m.has(x, ALL_BIT),
    ensures
        exists|t: Seq<char>|
            number_items(set_values(m, ALL_BIT), 0).contains(t) && names_value(t, x),
{
    let vals = set_values(m, ALL_BIT);
    crate::component::lemma_values_complete(m, ALL_BIT, m.max + 1, x);
    let k = choose|k: int| 0 <= k < vals.len() && vals[k] == x as u16;
    crate::component::lemma_values_in_range(m, ALL_BIT, m.max + 1);
    assert(vals[k] as int == x);
    lemma_number_items_name_every_value(vals, 0, k);
}

/// A number written out is one or more decimal digits.
proof fn lemma_decimal_digits(n: nat)
    ensures
        decimal(n).len() >= 1,
        forall|i: int| 0 <= i < decimal(n).len() ==> '0' <= #[trigger] decimal(n)[i] <= '9',
    decreases n,
{
    if n >= 10 {
        lemma_decimal_digits(n / 10);
        let d = decimal(n / 10);
        assert forall|i: int| 0 <= i < decimal(n).len() implies '0' <= #[trigger] decimal(n)[i]
            <= '9' by {
            if i < d.len() {
                assert(decimal(n)[i] == d[i]);
            }
        }
    }
}

/// Different digits are different characters.
proof fn lemma_digit_char_injective(x: int, y: int)
    requires
        0 <= x < 10,
        0 <= y < 10,
        digit_char(x) == digit_char(y),
    ensures
        x == y,
{
    assert(digit_char(x) as u32 == (x + 48) as u32);
    assert(digit_char(y) as u32 == (y + 48) as u32);
}

/// Different numbers are written differently.
proof fn lemma_decimal_injective(a: nat, b: nat)
    requires
        decimal(a) == decimal(b),
    ensures
        a == b,
    decreases a,
{
    if a < 10 && b < 10 {
        assert(decimal(a) == seq![digit_char(a as int)]);
        assert(decimal(b) == seq![digit_char(b as int)]);
        assert(decimal(a)[0] == decimal(b)[0]);
        assert(decimal(a)[0] == digit_char(a as int));
        assert(decimal(b)[0] == digit_char(b as int));
        lemma_digit_char_injective(a as int, b as int);
    } else if a < 10 {
        lemma_decimal_digits(b / 10);
        assert(decimal(b).len() >= 2);
    } else if b < 10 {
        lemma_decimal_digits(a / 10);
        assert(decimal(a).len() >= 2);
    } else {
        let da = decimal(a / 10);
        let db = decimal(b / 10);
        assert(decimal(a) == da.push(digit_char((a % 10) as int)));
        assert(decimal(b) == db.push(digit_char((b % 10) as int)));
        assert(decimal(a).last() == decimal(b).last());
        assert(decimal(a).last() == digit_char((a % 10) as int));
        assert(decimal(b).last() == digit_char((b % 10) as int));
        lemma_digit_char_injective((a % 10) as int, (b % 10) as int);
        assert(decimal(a).drop_last() =~= da);
        assert(decimal(b).drop_last() =~= db);
        lemma_decimal_injective(a / 10, b / 10);
    }
}

/// A range item is never a single number.
proof fn lemma_range_not_single(a: nat, b: nat, c: nat)
    ensures
        decimal(a) + "-"@ + decimal(b) != decimal(c),
{
    reveal_strlit("-");
    lemma_decimal_digits(a);
    lemma_decimal_digits(c);
    let la = decimal(a).len() as int;
    let t = decimal(a) + "-"@ + decimal(b);
    assert(t[la] == '-');
    if t == decimal(c) {
        assert(decimal(c)[la] == '-');
    }
}

/// A range item gives back its two ends.
proof fn lemma_range_item_unique(a: nat, b: nat, c: nat, d: nat)
    requires
        decimal(a) + "-"@ + decimal(b) == decimal(c) + "-"@ + decimal(d),
    ensures
        a == c,
        b == d,
{
    reveal_strlit("-");
    lemma_decimal_digits(a);
    lemma_decimal_digits(c);
    let la = decimal(a).len() as int;
    let lc = decimal(c).len() as int;
    let t = decimal(a) + "-"@ + decimal(b);
    let u = decimal(c) + "-"@ + decimal(d);
    if la < lc {
        assert(t[la] == '-');
        assert(u[la] == decimal(c)[la]);
    } else if lc < la {
        assert(u[lc] == '-');
        assert(t[lc] == decimal(a)[lc]);
    } else {
        assert(t.subrange(0, la) =~= decimal(a));
        assert(u.subrange(0, lc) =~= decimal(c));
        lemma_decimal_injective(a, c);
        assert(t.subrange(la + 1, t.len() as int) =~= decimal(b));
        assert(u.subrange(lc + 1, u.len() as int) =~= decimal(d));
        lemma_decimal_injective(b, d);
    }
}

/// A number list names only values it is given: every value an item
/// names, written out or inside a range, is one of them.
pub proof fn lemma_number_items_name_only_values(v: Seq<u16>, i: int, t: Seq<char>, x: int)
    requires
        0 <= i,
        0 <= x,
        number_items(v, i).contains(t),
        names_value(t, x),
    ensures
        exists|k: int| i <= k < v.len() && v[k] == x,
    decreases v.len() - i,
{
    let j = run_end(v, i);
    lemma_run_end(v, i);
    let items = number_items(v, i);
    let rest = number_items(v, j + 1);
    let head = if j > i + 1 {
        seq![decimal(v[i] as nat) + "-"@ + decimal(v[j] as nat)]
    } else if j == i + 1 {
        seq![decimal(v[i] as nat), decimal(v[j] as nat)]
    } else {
        seq![decimal(v[i] as nat)]
    };
    assert(i < v.len());
    assert(items == head + rest);
    let n = choose|n: int| 0 <= n < items.len() && items[n] == t;
    if n < head.len() {
        assert(head[n] == t);
        lemma_run_values(v, i, j);
        if j > i + 1 {
            if t == decimal(x as nat) {
                lemma_range_not_single(v[i] as nat, v[j] as nat, x as nat);
            } else {
                let (a, b) = choose|a: nat, b: nat| t == decimal(a) + "-"@ + decimal(b) && a <= x
                    <= b;
                lemma_range_item_unique(v[i] as nat, v[j] as nat, a, b);
                let k = i + (x - v[i]);
                lemma_run_values(v, i, k);
                assert(v[k] == x);
            }
        } else {
            let m = if j == i + 1 && n == 1 {
                j
            } else {
                i
            };
            assert(t == decimal(v[m] as nat));
            if t == decimal(x as nat) {
                lemma_decimal_injective(x as nat, v[m] as nat);
                assert(v[m] == x);
            } else {
                let (a, b) = choose|a: nat, b: nat| t == decimal(a) + "-"@ + decimal(b) && a <= x
                    <= b;
                lemma_range_not_single(a, b, v[m] as nat);
            }
        }
    } else {
        assert(rest[n - head.len()] == t);
        assert(rest.contains(t));
        lemma_number_items_name_only_values(v, j + 1, t, x);
    }
}

/// The list of a field's values in a description names only values the
/// field holds.
pub proof fn lemma_field_list_names_only_its_values(m: ComponentModel, t: Seq<char>, x: int)
    requires
        0 <= m.min,
        m.max <= 65535,
        0 <= x,
        number_items(set_values(m, ALL_BIT), 0).contains(t),
        names_value(t, x),
    ensures
        m.has(x, ALL_BIT),
{
    let vals = set_values(m, ALL_BIT);
    lemma_number_items_name_only_values(vals, 0, t, x);
    let k = choose|k: int| 0 <= k < vals.len() && vals[k] == x;
    crate::component::lemma_values_in_range(m, ALL_BIT, m.max + 1);
    assert(m.has(vals[k] as int, ALL_BIT));
}

/// A list of numbers in words.
pub open spec fn number_list(v: Seq<u16>, and: Seq<char>) -> Seq<char> {
    text_list(number_items(v, 0), and)
}

/// Whether a field takes every value, written without a step: a field of
/// more than ten thousand values counts as such where it was a wildcard.
pub open spec fn all_set(m: ComponentModel) -> bool {
    &&& m.step == 1
    &&& if m.max - m.min + 1 > 10000 {
        m.from_wildcard
    } else {
        set_values(m, ALL_BIT).len() == m.max - m.min + 1
    }
}

/// Whether a field steps from its first value.
pub open spec fn stepped(step: int, vals: Seq<u16>, min: int) -> bool {
    step > 1 && vals.len() > 0 && vals[0] == min
}

/// The hours of a pattern in words, after "past".
pub open spec fn hour_desc<L: Language>(p: PatternModel, lang: L) -> Seq<char> {
    let hour_vals = set_values(p.hours, ALL_BIT);
    if stepped(p.hours.step, hour_vals, p.hours.min) {
        lang.every_x_hours_text(p.hours.step as u16)
    } else {
        "hour "@ + number_list(hour_vals, lang.list_conjunction_and_text())
    }
}

/// Whether the seconds are the default: the single second 0.
pub open spec fn default_seconds(p: PatternModel) -> bool {
    let sec_vals = set_values(p.seconds, ALL_BIT);
    p.seconds.step == 1 && sec_vals.len() == 1 && sec_vals[0] == 0
}

/// The phrases of the time fields, for the general case.
pub open spec fn time_parts<L: Language>(p: PatternModel, lang: L) -> Seq<Seq<char>> {
    let and = lang.list_conjunction_and_text();
    let sec_vals = set_values(p.seconds, ALL_BIT);
    let min_vals = set_values(p.minutes, ALL_BIT);
    let hour_vals = set_values(p.hours, ALL_BIT);
    let sec_part = if all_set(p.seconds) {
        seq![lang.every_second_phrase_text()]
    } else if !default_seconds(p) {
        if stepped(p.seconds.step, sec_vals, p.seconds.min) {
            seq![lang.every_x_seconds_text(p.seconds.step as u16)]
        } else {
            seq![lang.second_phrase_text(number_list(sec_vals, and))]
        }
    } else {
        Seq::empty()
    };
    let min_part = if stepped(p.minutes.step, min_vals, p.minutes.min) {
        seq![lang.every_x_minutes_text(p.minutes.step as u16)]
    } else if !all_set(p.minutes) {
        let d = lang.minute_phrase_text(number_list(min_vals, and));
        if all_set(p.hours) && p.hours.step == 1 {
            seq![lang.minute_past_every_hour_phrase_text(d)]
        } else {
            seq![d]
        }
    } else {
        Seq::empty()
    };
    let hour_part = if !all_set(p.hours) {
        if stepped(p.hours.step, hour_vals, p.hours.min) {
            seq![lang.every_x_hours_text(p.hours.step as u16)]
        } else {
            seq![lang.hour_phrase_text(number_list(hour_vals, and))]
        }
    } else {
        Seq::empty()
    };
    sec_part + min_part + hour_part
}

/// The description of the time fields.
pub open spec fn time_text<L: Language>(p: PatternModel, lang: L) -> Seq<char> {
    let and = lang.list_conjunction_and_text();
    let sec_vals = set_values(p.seconds, ALL_BIT);
    let min_vals = set_values(p.minutes, ALL_BIT);
    let hour_vals = set_values(p.hours, ALL_BIT);
    let every_second = all_set(p.seconds);
    let defaults = default_seconds(p);
    if every_second && all_set(p.minutes) && all_set(p.hours) {
        lang.every_second_phrase_text()
    } else if defaults && all_set(p.minutes) && all_set(p.hours) {
        lang.every_minute_text()
    } else if defaults && stepped(p.minutes.step, min_vals, p.minutes.min) && all_set(p.hours) {
        lang.at_phrase_text(lang.every_x_minutes_text(p.minutes.step as u16))
    } else if !every_second && p.hours.step == 1 && hour_vals.len() == 1 && p.minutes.step == 1
        && min_vals.len() == 1 {
        let time = decimal2(hour_vals[0] as nat) + ":"@ + decimal2(min_vals[0] as nat);
        if !defaults {
            if stepped(p.seconds.step, sec_vals, p.seconds.min) {
                lang.at_time_and_every_x_seconds_text(time, p.seconds.step as u16)
            } else if sec_vals.len() == 1 {
                lang.at_time_text(time + ":"@ + decimal2(sec_vals[0] as nat))
            } else {
                lang.at_time_at_second_text(time, number_list(sec_vals, and))
            }
        } else {
            lang.at_time_text(time)
        }
    } else if defaults && all_set(p.minutes) && !all_set(p.hours) {
        lang.every_minute_text() + " past "@ + hour_desc(p, lang)
    } else if every_second && all_set(p.minutes) && !all_set(p.hours) {
        lang.every_second_phrase_text() + " past "@ + hour_desc(p, lang)
    } else {
        let parts = time_parts(p, lang);
        if parts.len() == 0 {
            lang.every_minute_text()
        } else if parts.len() > 1 && parts[0] == lang.every_second_phrase_text() {
            join(parts, ", "@)
        } else {
            lang.at_phrase_text(join(parts, ", "@))
        }
    }
}

/// The name of a day of the week; 7 is Sunday.
pub open spec fn dow_name<L: Language>(lang: L, v: u16) -> Seq<char> {
    if v < 7 {
        lang.day_names()[v as int]
    } else {
        lang.day_names()[0]
    }
}

/// The names of a list of days of the week.
pub open spec fn dow_names<L: Language>(lang: L, vals: Seq<u16>) -> Seq<Seq<char>> {
    vals.map_values(|v: u16| dow_name(lang, v))
}

/// The description of the day-of-month field.
pub open spec fn dom_text<L: Language>(p: PatternModel, lang: L) -> Seq<char> {
    let and = lang.list_conjunction_and_text();
    let regular = set_values(p.days, ALL_BIT);
    let nearest = set_values(p.days, CLOSEST_WEEKDAY_BIT);
    let a = if regular.len() > 0 {
        seq![lang.day_phrase_text(number_list(regular, and))]
    } else {
        Seq::empty()
    };
    let b = if p.days.enables(LAST_BIT) {
        seq![lang.the_last_day_of_the_month_text()]
    } else {
        Seq::empty()
    };
    let c = if nearest.len() > 0 {
        seq![lang.the_weekday_nearest_day_text(number_list(nearest, and))]
    } else {
        Seq::empty()
    };
    text_list(a + b + c, and)
}

/// The phrase for the weekdays that carry the nth occurrence bit, if any.
pub open spec fn nth_part<L: Language>(p: PatternModel, lang: L, n: u8, bit: u8) -> Seq<
    Seq<char>,
> {
    let vals = set_values(p.days_of_week, bit);
    if vals.len() > 0 {
        seq![
            lang.the_nth_weekday_of_the_month_text(
                n,
                text_list(dow_names(lang, vals), lang.list_conjunction_and_text()),
            ),
        ]
    } else {
        Seq::empty()
    }
}

/// The phrases of the day-of-week field.
pub open spec fn dow_parts<L: Language>(p: PatternModel, lang: L) -> Seq<Seq<char>> {
    let and = lang.list_conjunction_and_text();
    let last = set_values(p.days_of_week, LAST_BIT);
    let regular = set_values(p.days_of_week, ALL_BIT);
    let a = if last.len() > 0 {
        seq![lang.the_last_weekday_of_the_month_text(text_list(dow_names(lang, last), and))]
    } else {
        Seq::empty()
    };
    let r = if regular.len() > 0 {
        seq![text_list(dow_names(lang, regular), and)]
    } else {
        Seq::empty()
    };
    a + nth_part(p, lang, 1, NTH_1ST_BIT) + nth_part(p, lang, 2, NTH_2ND_BIT) + nth_part(
        p,
        lang,
        3,
        NTH_3RD_BIT,
    ) + nth_part(p, lang, 4, NTH_4TH_BIT) + nth_part(p, lang, 5, NTH_5TH_BIT) + r
}

/// The description of the day fields.
pub open spec fn day_text<L: Language>(p: PatternModel, lang: L) -> Seq<char> {
    let dom = dom_text(p, lang);
    let parts = dow_parts(p, lang);
    let dow = text_list(parts, lang.list_conjunction_and_text());
    if p.star_dom && p.star_dow {
        Seq::empty()
    } else if !p.star_dom && p.star_dow {
        lang.on_phrase_text(dom)
    } else if p.star_dom && !p.star_dow {
        lang.on_phrase_text(dow)
    } else if p.dom_and_dow {
        let last = if parts.len() > 1 {
            lang.dom_and_dow_if_also_one_of_text(dow)
        } else {
            lang.dom_and_dow_if_also_text(dow)
        };
        lang.on_phrase_text(dom) + " "@ + last
    } else {
        lang.on_phrase_text(dom) + " "@ + lang.list_conjunction_or_text() + " "@ + dow
    }
}

/// The description of the month field.
pub open spec fn month_text<L: Language>(p: PatternModel, lang: L) -> Seq<char> {
    if all_set(p.months) {
        Seq::empty()
    } else if p.months.step > 1 {
        lang.in_phrase_text("every "@ + decimal(p.months.step as nat) + " months"@)
    } else {
        let vals = set_values(p.months, ALL_BIT);
        lang.in_phrase_text(
            text_list(
                vals.map_values(|v: u16| lang.month_name_texts()[v - 1]),
                lang.list_conjunction_and_text(),
            ),
        )
    }
}

/// The description of the year field.
pub open spec fn year_text<L: Language>(p: PatternModel, lang: L) -> Seq<char> {
    if all_set(p.years) {
        Seq::empty()
    } else if p.years.step > 1 {
        lang.in_phrase_text(lang.year_phrase_text("every "@ + decimal(p.years.step as nat)))
    } else {
        lang.in_phrase_text(
            lang.year_phrase_text(
                number_list(set_values(p.years, ALL_BIT), lang.list_conjunction_and_text()),
            ),
        )
    }
}

/// The piece of a description, kept only where it says something.
pub open spec fn non_empty(t: Seq<char>) -> Seq<Seq<char>> {
    if t.len() > 0 {
        seq![t]
    } else {
        Seq::empty()
    }
}

/// The description of a pattern: the time, day, month and year
/// descriptions that say something, joined by commas, with the first letter
/// in upper case and a closing period.
pub open spec fn describe_text<L: Language>(p: PatternModel, lang: L) -> Seq<char> {
    let d = description_body(p, lang);
    if d.len() == 0 {
        Seq::empty()
    } else {
        uppercase(seq![d[0]]) + d.drop_first() + "."@
    }
}

/// The phrases of a description joined by commas, before its first letter
/// is capitalised and its period added.
pub open spec fn description_body<L: Language>(p: PatternModel, lang: L) -> Seq<char> {
    let parts = non_empty(time_text(p, lang)) + non_empty(day_text(p, lang)) + non_empty(
        month_text(p, lang),
    ) + non_empty(year_text(p, lang));
    join(parts, ", "@)
}

/// Whether a field can be described: its range is ordered and below the
/// largest 16-bit value.
pub open spec fn describable_field(m: ComponentModel) -> bool {
    0 <= m.min <= m.max < 65535
}

/// Whether a pattern can be described: every field can, the day of week
/// lies within 0 to 7 and the month within 1 to 12.
pub open spec fn describable(p: PatternModel) -> bool {
    &&& describable_field(p.seconds)
    &&& describable_field(p.minutes)
    &&& describable_field(p.hours)
    &&& describable_field(p.days)
    &&& describable_field(p.months)
    &&& describable_field(p.days_of_week)
    &&& describable_field(p.years)
    &&& p.days_of_week.max <= 7
    &&& 1 <= p.months.min
    &&& p.months.max <= 12
}

// ---------------------------------------------------------------------------
// Describing.
// ---------------------------------------------------------------------------

/// The views of a list of character vectors.
pub open spec fn item_views(v: Seq<Vec<char>>) -> Seq<Seq<char>> {
    v.map_values(|x: Vec<char>| x@)
}

/// Appends items joined by a separator.
fn join_into(out: &mut Vec<char>, items: &Vec<Vec<char>>, sep: &str)
    ensures
        final(out)@ == old(out)@ + join(item_views(items@), sep@),
{
    let ghost base = out@;
    let ghost all = item_views(items@);
    let mut i: usize = 0;
    assert(all.take(0) =~= Seq::<Seq<char>>::empty());
    while i < items.len()
        invariant
            i <= items@.len(),
            all == item_views(items@),
            out@ == base + join(all.take(i as int), sep@),
        decreases items.len() - i,
    {
        let ghost before = out@;
        assert(all.take(i as int + 1).drop_last() =~= all.take(i as int));
        assert(all.take(i as int + 1).last() == items@[i as int]@);
        if i > 0 {
            push_str(out, sep);
        }
        push_chars(out, &items[i]);
        proof {
            if i == 0 {
                assert(join(all.take(0), sep@) =~= Seq::<char>::empty());
                assert(out@ =~= base + join(all.take(1), sep@));
            } else {
                assert(out@ =~= base + join(all.take(i as int + 1), sep@));
            }
        }
        i = i + 1;
    }
    assert(all.take(items@.len() as int) =~= all);
}

/// A list in words, the last two items joined by the conjunction.
fn format_text_list<L: Language>(items: &Vec<Vec<char>>, lang: &L) -> (r: Vec<char>)
    ensures
        r@ == text_list(item_views(items@), lang.list_conjunction_and_text()),
{
    let ghost all = item_views(items@);
    let n = items.len();
    let mut out: Vec<char> = Vec::new();
    if n == 0 {
        return out;
    }
    if n == 1 {
        push_chars(&mut out, &items[0]);
        assert(out@ =~= all[0]);
        return out;
    }
    let and = lang.list_conjunction_and();
    if n == 2 {
        push_chars(&mut out, &items[0]);
        push_str(&mut out, " ");
        push_str(&mut out, and);
        push_str(&mut out, " ");
        push_chars(&mut out, &items[1]);
        assert(out@ =~= all[0] + " "@ + and@ + " "@ + all[1]);
        return out;
    }
    let mut front: Vec<Vec<char>> = Vec::new();
    let mut i: usize = 0;
    while i < n - 1
        invariant
            n == items@.len(),
            n >= 3,
            i <= n - 1,
            item_views(front@) == all.take(i as int),
            all == item_views(items@),
        decreases n - 1 - i,
    {
        let ghost before = front@;
        front.push(crate::text::copy_chars(&items[i]));
        assert(item_views(front@) =~= item_views(before).push(items@[i as int]@));
        assert(all[i as int] == items@[i as int]@);
        assert(item_views(front@) =~= all.take(i as int + 1));
        i = i + 1;
    }
    assert(all.take(n - 1) =~= all.drop_last());
    join_into(&mut out, &front, ", ");
    push_str(&mut out, ", ");
    push_str(&mut out, and);
    push_str(&mut out, " ");
    push_chars(&mut out, &items[n - 1]);
    assert(out@ =~= join(all.drop_last(), ", "@) + ", "@ + and@ + " "@ + all.last());
    out
}

/// The decimal digits of a number.
fn decimal_chars(n: u16) -> (r: Vec<char>)
    ensures
        r@ == decimal(n as nat),
{
    let mut v: Vec<char> = Vec::new();
    push_decimal(&mut v, n as u64);
    assert(v@ =~= decimal(n as nat));
    v
}

/// A list of numbers in ascending order in words: three or more
/// consecutive numbers as a range, the others one by one.
fn format_number_list<L: Language>(values: &Vec<u16>, lang: &L) -> (r: Vec<char>)
    requires
        forall|k: int| 0 <= k < values@.len() ==> values@[k] < 65535,
    ensures
        r@ == number_list(values@, lang.list_conjunction_and_text()),
{
    let ghost v = values@;
    let n = values.len();
    let mut items: Vec<Vec<char>> = Vec::new();
    let mut i: usize = 0;
    assert(item_views(items@) + number_items(v, 0) =~= number_items(v, 0));
    while i < n
        invariant
            n == v.len(),
            v == values@,
            i <= n,
            forall|k: int| 0 <= k < v.len() ==> v[k] < 65535,
            item_views(items@) + number_items(v, i as int) == number_items(v, 0),
        decreases n - i,
    {
        let start = values[i];
        let mut j: usize = i;
        while j + 1 < n && values[j + 1] == values[j] + 1
            invariant
                n == v.len(),
                v == values@,
                i <= j < n,
                forall|k: int| 0 <= k < v.len() ==> v[k] < 65535,
                run_end(v, i as int) == run_end(v, j as int),
            decreases n - j,
        {
            j = j + 1;
        }
        assert(run_end(v, j as int) == j);
        proof {
            lemma_run_end(v, i as int);
        }
        let ghost before = item_views(items@);
        if j > i + 1 {
            let mut range: Vec<char> = Vec::new();
            push_decimal(&mut range, start as u64);
            push_str(&mut range, "-");
            push_decimal(&mut range, values[j] as u64);
            items.push(range);
            assert(item_views(items@) =~= before + seq![
                decimal(v[i as int] as nat) + "-"@ + decimal(v[j as int] as nat),
            ]);
        } else {
            items.push(decimal_chars(start));
            if j == i + 1 {
                items.push(decimal_chars(values[j]));
                assert(item_views(items@) =~= before + seq![
                    decimal(v[i as int] as nat),
                    decimal(v[j as int] as nat),
                ]);
            } else {
                assert(item_views(items@) =~= before + seq![decimal(v[i as int] as nat)]);
            }
        }
        assert(item_views(items@) + number_items(v, j as int + 1) =~= number_items(v, 0));
        i = j + 1;
    }
    assert(item_views(items@) =~= number_items(v, 0));
    format_text_list(&items, lang)
}

/// Whether a field takes every value, written without a step.
fn is_all_set(component: &CronComponent) -> (b: bool)
    requires
        describable_field(component@),
    ensures
        b == all_set(component@),
{
    if component.step_value() != 1 {
        return false;
    }
    let total: u32 = (component.max_value() - component.min_value()) as u32 + 1;
    if total > 10000 {
        return component.wildcard();
    }
    let set = component.get_set_values(ALL_BIT);
    set.len() == total as usize
}

/// Whether a field steps from its first value.
fn is_stepped_from_start(step: u16, vals: &Vec<u16>, min: u16) -> (b: bool)
    ensures
        b == stepped(step as int, vals@, min as int),
{
    step > 1 && vals.len() > 0 && vals[0] == min
}

/// A string of characters, for passing to a phrase.
fn owned(v: &Vec<char>) -> (s: String)
    ensures
        s@ == v@,
{
    string_of(v)
}

/// The characters of a returned phrase.
fn phrase_chars(s: String) -> (r: Vec<char>)
    ensures
        r@ == s@,
{
    chars_of(s.as_str())
}

/// The values of a field that carry a bit lie in its range.
proof fn lemma_field_values(m: ComponentModel, bit: u8)
    requires
        describable_field(m),
    ensures
        forall|k: int|
            0 <= k < set_values(m, bit).len() ==> m.min <= #[trigger] set_values(m, bit)[k]
                <= m.max,
{
    crate::component::lemma_values_in_range(m, bit, m.max + 1);
}

/// The hours of a pattern in words, after "past".
fn hour_description<L: Language>(pattern: &CronPattern, lang: &L) -> (r: Vec<char>)
    requires
        describable(pattern@),
    ensures
        r@ == hour_desc(pattern@, *lang),
{
    let hour_vals = pattern.hours.get_set_values(ALL_BIT);
    proof {
        lemma_field_values(pattern@.hours, ALL_BIT);
    }
    let step = pattern.hours.step_value();
    if is_stepped_from_start(step, &hour_vals, pattern.hours.min_value()) {
        phrase_chars(lang.every_x_hours(step))
    } else {
        let mut out: Vec<char> = Vec::new();
        push_str(&mut out, "hour ");
        let list = format_number_list(&hour_vals, lang);
        push_chars(&mut out, &list);
        out
    }
}

/// The phrases of the time fields, for the general case.
fn time_parts_of<L: Language>(pattern: &CronPattern, lang: &L) -> (r: Vec<Vec<char>>)
    requires
        describable(pattern@),
    ensures
        item_views(r@) == time_parts(pattern@, *lang),
{
    let ghost pm = pattern@;
    let sec_vals = pattern.seconds.get_set_values(ALL_BIT);
    let min_vals = pattern.minutes.get_set_values(ALL_BIT);
    let hour_vals = pattern.hours.get_set_values(ALL_BIT);
    proof {
        lemma_field_values(pm.seconds, ALL_BIT);
        lemma_field_values(pm.minutes, ALL_BIT);
        lemma_field_values(pm.hours, ALL_BIT);
    }
    let sec_step = pattern.seconds.step_value();
    let min_step = pattern.minutes.step_value();
    let hour_step = pattern.hours.step_value();
    let is_default_seconds = sec_step == 1 && sec_vals.len() == 1 && sec_vals[0] == 0;
    let mut parts: Vec<Vec<char>> = Vec::new();
    if is_all_set(&pattern.seconds) {
        parts.push(chars_of(lang.every_second_phrase()));
    } else if !is_default_seconds {
        if is_stepped_from_start(sec_step, &sec_vals, pattern.seconds.min_value()) {
            parts.push(phrase_chars(lang.every_x_seconds(sec_step)));
        } else {
            let list = format_number_list(&sec_vals, lang);
            parts.push(phrase_chars(lang.second_phrase(owned(&list).as_str())));
        }
    }
    let ghost after_sec = item_views(parts@);
    if is_stepped_from_start(min_step, &min_vals, pattern.minutes.min_value()) {
        parts.push(phrase_chars(lang.every_x_minutes(min_step)));
    } else if !is_all_set(&pattern.minutes) {
        let list = format_number_list(&min_vals, lang);
        let d = lang.minute_phrase(owned(&list).as_str());
        if is_all_set(&pattern.hours) && hour_step == 1 {
            parts.push(phrase_chars(lang.minute_past_every_hour_phrase(d.as_str())));
        } else {
            parts.push(phrase_chars(d));
        }
    }
    let ghost after_min = item_views(parts@);
    if !is_all_set(&pattern.hours) {
        if is_stepped_from_start(hour_step, &hour_vals, pattern.hours.min_value()) {
            parts.push(phrase_chars(lang.every_x_hours(hour_step)));
        } else {
            let list = format_number_list(&hour_vals, lang);
            parts.push(phrase_chars(lang.hour_phrase(owned(&list).as_str())));
        }
    }
    proof {
        let sec_vals_s = set_values(pm.seconds, ALL_BIT);
        let min_vals_s = set_values(pm.minutes, ALL_BIT);
        let and = lang.list_conjunction_and_text();
        let sec_part = if all_set(pm.seconds) {
            seq![lang.every_second_phrase_text()]
        } else if !default_seconds(pm) {
            if stepped(pm.seconds.step, sec_vals_s, pm.seconds.min) {
                seq![lang.every_x_seconds_text(pm.seconds.step as u16)]
            } else {
                seq![lang.second_phrase_text(number_list(sec_vals_s, and))]
            }
        } else {
            Seq::empty()
        };
        assert(after_sec =~= sec_part);
    }
    assert(item_views(parts@) =~= time_parts(pm, *lang));
    parts
}

/// The description of the time fields.
fn describe_time<L: Language>(pattern: &CronPattern, lang: &L) -> (r: Vec<char>)
    requires
        describable(pattern@),
    ensures
        r@ == time_text(pattern@, *lang),
{
    let ghost pm = pattern@;
    let sec_vals = pattern.seconds.get_set_values(ALL_BIT);
    let min_vals = pattern.minutes.get_set_values(ALL_BIT);
    let hour_vals = pattern.hours.get_set_values(ALL_BIT);
    proof {
        lemma_field_values(pm.seconds, ALL_BIT);
        lemma_field_values(pm.minutes, ALL_BIT);
        lemma_field_values(pm.hours, ALL_BIT);
    }
    let sec_step = pattern.seconds.step_value();
    let min_step = pattern.minutes.step_value();
    let hour_step = pattern.hours.step_value();
    let is_default_seconds = sec_step == 1 && sec_vals.len() == 1 && sec_vals[0] == 0;
    let is_every_second = is_all_set(&pattern.seconds);
    let minutes_all = is_all_set(&pattern.minutes);
    let hours_all = is_all_set(&pattern.hours);
    if is_every_second && minutes_all && hours_all {
        return chars_of(lang.every_second_phrase());
    }
    if is_default_seconds && minutes_all && hours_all {
        return chars_of(lang.every_minute());
    }
    if is_default_seconds && is_stepped_from_start(
        min_step,
        &min_vals,
        pattern.minutes.min_value(),
    ) && hours_all {
        let inner = lang.every_x_minutes(min_step);
        return phrase_chars(lang.at_phrase(inner.as_str()));
    }
    if !is_every_second && hour_step == 1 && hour_vals.len() == 1 && min_step == 1
        && min_vals.len() == 1 {
        let mut time: Vec<char> = Vec::new();
        push_decimal2(&mut time, hour_vals[0] as u64);
        push_str(&mut time, ":");
        push_decimal2(&mut time, min_vals[0] as u64);
        let ghost tm = decimal2(hour_vals@[0] as nat) + ":"@ + decimal2(min_vals@[0] as nat);
        assert(time@ =~= tm);
        let time_s = owned(&time);
        if !is_default_seconds {
            if is_stepped_from_start(sec_step, &sec_vals, pattern.seconds.min_value()) {
                return phrase_chars(lang.at_time_and_every_x_seconds(time_s.as_str(), sec_step));
            }
            if sec_vals.len() == 1 {
                let mut full = crate::text::copy_chars(&time);
                push_str(&mut full, ":");
                push_decimal2(&mut full, sec_vals[0] as u64);
                assert(full@ =~= tm + ":"@ + decimal2(sec_vals@[0] as nat));
                return phrase_chars(lang.at_time(owned(&full).as_str()));
            }
            let secs = format_number_list(&sec_vals, lang);
            return phrase_chars(lang.at_time_at_second(time_s.as_str(), owned(&secs).as_str()));
        }
        return phrase_chars(lang.at_time(time_s.as_str()));
    }
    if is_default_seconds && minutes_all && !hours_all {
        let mut out = chars_of(lang.every_minute());
        push_str(&mut out, " past ");
        let hd = hour_description(pattern, lang);
        push_chars(&mut out, &hd);
        return out;
    }
    if is_every_second && minutes_all && !hours_all {
        let mut out = chars_of(lang.every_second_phrase());
        push_str(&mut out, " past ");
        let hd = hour_description(pattern, lang);
        push_chars(&mut out, &hd);
        return out;
    }
    let parts = time_parts_of(pattern, lang);
    if parts.len() == 0 {
        return chars_of(lang.every_minute());
    }
    let mut joined: Vec<char> = Vec::new();
    join_into(&mut joined, &parts, ", ");
    assert(joined@ =~= join(item_views(parts@), ", "@));
    if parts.len() > 1 && crate::text::equals(&parts[0], lang.every_second_phrase()) {
        return joined;
    }
    phrase_chars(lang.at_phrase(owned(&joined).as_str()))
}

/// The description of the day-of-month field.
fn describe_dom<L: Language>(pattern: &CronPattern, lang: &L) -> (r: Vec<char>)
    requires
        describable(pattern@),
    ensures
        r@ == dom_text(pattern@, *lang),
{
    let ghost pm = pattern@;
    let regular = pattern.days.get_set_values(ALL_BIT);
    let nearest = pattern.days.get_set_values(CLOSEST_WEEKDAY_BIT);
    proof {
        lemma_field_values(pm.days, ALL_BIT);
        lemma_field_values(pm.days, CLOSEST_WEEKDAY_BIT);
    }
    let mut parts: Vec<Vec<char>> = Vec::new();
    if regular.len() > 0 {
        let list = format_number_list(&regular, lang);
        parts.push(phrase_chars(lang.day_phrase(owned(&list).as_str())));
    }
    let ghost a = item_views(parts@);
    if pattern.days.is_feature_enabled(LAST_BIT) {
        parts.push(chars_of(lang.the_last_day_of_the_month()));
    }
    let ghost ab = item_views(parts@);
    if nearest.len() > 0 {
        let list = format_number_list(&nearest, lang);
        parts.push(phrase_chars(lang.the_weekday_nearest_day(owned(&list).as_str())));
    }
    proof {
        let and = lang.list_conjunction_and_text();
        let ea = if set_values(pm.days, ALL_BIT).len() > 0 {
            seq![lang.day_phrase_text(number_list(set_values(pm.days, ALL_BIT), and))]
        } else {
            Seq::empty()
        };
        let eb = if pm.days.enables(LAST_BIT) {
            seq![lang.the_last_day_of_the_month_text()]
        } else {
            Seq::empty()
        };
        let ec = if set_values(pm.days, CLOSEST_WEEKDAY_BIT).len() > 0 {
            seq![
                lang.the_weekday_nearest_day_text(
                    number_list(set_values(pm.days, CLOSEST_WEEKDAY_BIT), and),
                ),
            ]
        } else {
            Seq::empty()
        };
        assert(a =~= ea);
        assert(ab =~= ea + eb);
        assert(item_views(parts@) =~= ea + eb + ec);
    }
    format_text_list(&parts, lang)
}

/// The names of a list of days of the week; 7 is Sunday.
fn day_names_of<L: Language>(vals: &Vec<u16>, lang: &L) -> (r: Vec<Vec<char>>)
    ensures
        item_views(r@) == dow_names(*lang, vals@),
{
    let names = lang.day_of_week_names();
    let mut out: Vec<Vec<char>> = Vec::new();
    let mut i: usize = 0;
    while i < vals.len()
        invariant
            i <= vals@.len(),
            lang.day_names().len() == 7,
            forall|k: int| 0 <= k < 7 ==> #[trigger] names@[k]@ == lang.day_names()[k],
            item_views(out@) == dow_names(*lang, vals@).take(i as int),
        decreases vals.len() - i,
    {
        let v = vals[i];
        let name: &str = if v < 7 {
            names[v as usize]
        } else {
            names[0]
        };
        let ghost before = item_views(out@);
        out.push(chars_of(name));
        assert(item_views(out@) =~= before.push(dow_name(*lang, v)));
        assert(dow_names(*lang, vals@).take(i as int + 1) =~= dow_names(*lang, vals@).take(
            i as int,
        ).push(dow_name(*lang, v)));
        i = i + 1;
    }
    assert(dow_names(*lang, vals@).take(vals@.len() as int) =~= dow_names(*lang, vals@));
    out
}

/// The phrase for the weekdays that carry an occurrence bit, if any.
fn describe_nth<L: Language>(pattern: &CronPattern, lang: &L, n: u8, bit: u8, parts: &mut Vec<
    Vec<char>,
>)
    requires
        describable(pattern@),
    ensures
        item_views(final(parts)@) == item_views(old(parts)@) + nth_part(pattern@, *lang, n, bit),
{
    let vals = pattern.days_of_week.get_set_values(bit);
    let ghost before = item_views(parts@);
    if vals.len() > 0 {
        let names = day_names_of(&vals, lang);
        let list = format_text_list(&names, lang);
        parts.push(phrase_chars(lang.the_nth_weekday_of_the_month(n, owned(&list).as_str())));
    }
    assert(item_views(parts@) =~= before + nth_part(pattern@, *lang, n, bit));
}

/// The phrases of the day-of-week field.
fn describe_dow_parts<L: Language>(pattern: &CronPattern, lang: &L) -> (r: Vec<Vec<char>>)
    requires
        describable(pattern@),
    ensures
        item_views(r@) == dow_parts(pattern@, *lang),
{
    let ghost pm = pattern@;
    let mut parts: Vec<Vec<char>> = Vec::new();
    let last_values = pattern.days_of_week.get_set_values(LAST_BIT);
    if last_values.len() > 0 {
        let names = day_names_of(&last_values, lang);
        let list = format_text_list(&names, lang);
        parts.push(phrase_chars(lang.the_last_weekday_of_the_month(owned(&list).as_str())));
    }
    let ghost a = item_views(parts@);
    describe_nth(pattern, lang, 1, NTH_1ST_BIT, &mut parts);
    describe_nth(pattern, lang, 2, NTH_2ND_BIT, &mut parts);
    describe_nth(pattern, lang, 3, NTH_3RD_BIT, &mut parts);
    describe_nth(pattern, lang, 4, NTH_4TH_BIT, &mut parts);
    describe_nth(pattern, lang, 5, NTH_5TH_BIT, &mut parts);
    let ghost mid = item_views(parts@);
    let regular_values = pattern.days_of_week.get_set_values(ALL_BIT);
    if regular_values.len() > 0 {
        let names = day_names_of(&regular_values, lang);
        parts.push(format_text_list(&names, lang));
    }
    proof {
        let and = lang.list_conjunction_and_text();
        let last = set_values(pm.days_of_week, LAST_BIT);
        let ea = if last.len() > 0 {
            seq![lang.the_last_weekday_of_the_month_text(text_list(dow_names(*lang, last), and))]
        } else {
            Seq::empty()
        };
        assert(a =~= ea);
        assert(item_views(parts@) =~= dow_parts(pm, *lang));
    }
    parts
}

/// The description of the day fields.
fn describe_day<L: Language>(pattern: &CronPattern, lang: &L) -> (r: Vec<char>)
    requires
        describable(pattern@),
    ensures
        r@ == day_text(pattern@, *lang),
{
    let dom_desc = describe_dom(pattern, lang);
    let dow_parts_v = describe_dow_parts(pattern, lang);
    if pattern.star_dom && pattern.star_dow {
        return Vec::new();
    }
    if !pattern.star_dom && pattern.star_dow {
        return phrase_chars(lang.on_phrase(owned(&dom_desc).as_str()));
    }
    let dow_desc = format_text_list(&dow_parts_v, lang);
    if pattern.star_dom && !pattern.star_dow {
        return phrase_chars(lang.on_phrase(owned(&dow_desc).as_str()));
    }
    let mut out = phrase_chars(lang.on_phrase(owned(&dom_desc).as_str()));
    if pattern.dom_and_dow {
        let last = if dow_parts_v.len() > 1 {
            lang.dom_and_dow_if_also_one_of(owned(&dow_desc).as_str())
        } else {
            lang.dom_and_dow_if_also(owned(&dow_desc).as_str())
        };
        push_str(&mut out, " ");
        push_str(&mut out, last.as_str());
    } else {
        push_str(&mut out, " ");
        push_str(&mut out, lang.list_conjunction_or());
        push_str(&mut out, " ");
        push_chars(&mut out, &dow_desc);
    }
    out
}

/// The description of the month field.
fn describe_month<L: Language>(pattern: &CronPattern, lang: &L) -> (r: Vec<char>)
    requires
        describable(pattern@),
    ensures
        r@ == month_text(pattern@, *lang),
{
    let ghost pm = pattern@;
    if is_all_set(&pattern.months) {
        return Vec::new();
    }
    let step = pattern.months.step_value();
    if step > 1 {
        let inner = phrase_num("every ", step, " months");
        return phrase_chars(lang.in_phrase(inner.as_str()));
    }
    let names = lang.month_names();
    let values = pattern.months.get_set_values(ALL_BIT);
    proof {
        lemma_field_values(pm.months, ALL_BIT);
    }
    let ghost expected = values@.map_values(|v: u16| lang.month_name_texts()[v - 1]);
    let mut list: Vec<Vec<char>> = Vec::new();
    let mut i: usize = 0;
    while i < values.len()
        invariant
            i <= values@.len(),
            values@ == set_values(pm.months, ALL_BIT),
            forall|k: int|
                0 <= k < values@.len() ==> 1 <= #[trigger] values@[k] <= 12,
            lang.month_name_texts().len() == 12,
            forall|k: int| 0 <= k < 12 ==> #[trigger] names@[k]@ == lang.month_name_texts()[k],
            expected == values@.map_values(|v: u16| lang.month_name_texts()[v - 1]),
            item_views(list@) == expected.take(i as int),
        decreases values.len() - i,
    {
        let v = values[i];
        let ghost before = item_views(list@);
        list.push(chars_of(names[(v - 1) as usize]));
        assert(item_views(list@) =~= before.push(expected[i as int]));
        assert(expected.take(i as int + 1) =~= expected.take(i as int).push(expected[i as int]));
        i = i + 1;
    }
    assert(expected.take(values@.len() as int) =~= expected);
    let text = format_text_list(&list, lang);
    phrase_chars(lang.in_phrase(owned(&text).as_str()))
}

/// The description of the year field.
fn describe_year<L: Language>(pattern: &CronPattern, lang: &L) -> (r: Vec<char>)
    requires
        describable(pattern@),
    ensures
        r@ == year_text(pattern@, *lang),
{
    if is_all_set(&pattern.years) {
        return Vec::new();
    }
    let step = pattern.years.step_value();
    if step > 1 {
        let inner = phrase_num("every ", step, "");
        let year = lang.year_phrase(inner.as_str());
        proof {
            reveal_strlit("");
            assert(inner@ =~= "every "@ + decimal(step as nat));
        }
        return phrase_chars(lang.in_phrase(year.as_str()));
    }
    let values = pattern.years.get_set_values(ALL_BIT);
    proof {
        lemma_field_values(pattern@.years, ALL_BIT);
    }
    let list = format_number_list(&values, lang);
    let year = lang.year_phrase(owned(&list).as_str());
    phrase_chars(lang.in_phrase(year.as_str()))
}

/// Adds a piece of a description where it says something.
fn push_piece(parts: &mut Vec<Vec<char>>, piece: Vec<char>)
    ensures
        item_views(final(parts)@) == item_views(old(parts)@) + non_empty(piece@),
{
    let ghost before = item_views(parts@);
    let ghost p = piece@;
    if piece.len() > 0 {
        parts.push(piece);
    }
    assert(item_views(parts@) =~= before + non_empty(p));
}

/// A human-readable description of a pattern in a given language.
pub fn describe<L: Language>(pattern: &CronPattern, lang: &L) -> (r: String)
    requires
        describable(pattern@),
    ensures
        r@ == describe_text(pattern@, *lang),
        r@.len() > 0 ==> r@.last() == '.',
        r@.len() > 0 && (description_body(pattern@, *lang)[0] as u32) < 128 ==> r@[0]
            == ascii_upper(description_body(pattern@, *lang)[0]),
{
    let mut parts: Vec<Vec<char>> = Vec::new();
    push_piece(&mut parts, describe_time(pattern, lang));
    push_piece(&mut parts, describe_day(pattern, lang));
    push_piece(&mut parts, describe_month(pattern, lang));
    push_piece(&mut parts, describe_year(pattern, lang));
    let mut description: Vec<char> = Vec::new();
    join_into(&mut description, &parts, ", ");
    assert(description@ =~= join(item_views(parts@), ", "@));
    if description.len() == 0 {
        return String::new();
    }
    let mut first: Vec<char> = Vec::new();
    first.push(description[0]);
    let upper = to_uppercase(owned(&first).as_str());
    let mut out = chars_of(upper.as_str());
    let rest = crate::text::slice_chars(&description, 1, description.len());
    push_chars(&mut out, &rest);
    out.push('.');
    proof {
        reveal_strlit(".");
        assert(first@ =~= seq![description@[0]]);
        assert(rest@ =~= description@.drop_first());
        assert(out@ =~= uppercase(seq![description@[0]]) + description@.drop_first() + "."@);
        assert(upper@ =~= uppercase(seq![description@[0]]));
        if (description@[0] as u32) < 128 {
            assert(all_ascii(seq![description@[0]]));
            assert(upper@ =~= seq![ascii_upper(description@[0])]);
        }
        assert("."@ =~= seq!['.']);
    }
    owned(&out)
}

} // verus!
