//! Parsing cron pattern text into a `Cron`.
//!
//! `CronParser::new().parse(text)` parses with the default configuration;
//! `CronParser::builder()` configures seconds, years, how the two day fields
//! combine, and the weekday numbering.
use vstd::prelude::*;

use crate::component::{
    field_spec, lemma_field_keeps_range, same_shape, ComponentModel, CronComponent, ALL_BIT, CLOSEST_WEEKDAY_BIT, LAST_BIT, NONE_BIT,
    NTH_1ST_BIT, NTH_2ND_BIT, NTH_3RD_BIT, NTH_4TH_BIT, NTH_5TH_BIT, NTH_ALL,
};
use crate::describe::describable;
use crate::errors::CronError;
use crate::pattern::{bit_query, standard_pattern, CronPattern, PatternModel, PatternText};
use crate::text::{
    before_char, chars_of, decimal, contains_char, copy_chars, eq_ignore_ascii_case, eq_ignore_case, push_char,
    prefix_before, push_chars, slice_chars, push_str, replace, replace_spec, split_char, split_spec, split_whitespace, string_of, to_uppercase, trim,
    trim_spec, uppercase, views, words,
};
use crate::Cron;

verus! {

/// Whether a pattern has a seconds field.
#[derive(Debug, Clone, Copy, PartialEq, Eq, Structural, PartialOrd, Ord)]
pub enum Seconds {
    /// Five or six fields; with five, the second is 0.
    Optional,
    /// Six fields, or seven with a year.
    Required,
    /// Five fields; the second is 0.
    Disallowed,
}

impl Seconds {
    /// Whether this is `Optional`.
    pub fn is_optional(&self) -> (b: bool)
        ensures
            b == (*self == Seconds::Optional),
    {
        match self {
            Seconds::Optional => true,
            _ => false,
        }
    }

    /// Whether this is `Required`.
    pub fn is_required(&self) -> (b: bool)
        ensures
            b == (*self == Seconds::Required),
    {
        match self {
            Seconds::Required => true,
            _ => false,
        }
    }

    /// Whether this is `Disallowed`.
    pub fn is_disallowed(&self) -> (b: bool)
        ensures
            b == (*self == Seconds::Disallowed),
    {
        match self {
            Seconds::Disallowed => true,
            _ => false,
        }
    }
}

impl Default for Seconds {
    fn default() -> (s: Seconds)
        ensures
            s == Seconds::Disallowed,
    {
        Seconds::Disallowed
    }
}

/// Whether a pattern has a year field, after the day of week.
#[derive(Debug, Clone, Copy, PartialEq, Eq, Structural, PartialOrd, Ord)]
pub enum Year {
    /// The year may be given; without it, every year matches.
    Optional,
    /// Seven fields: seconds and the year are both given.
    Required,
    /// No year field.
    Disallowed,
}

impl Year {
    /// Whether this is `Optional`.
    pub fn is_optional(&self) -> (b: bool)
        ensures
            b == (*self == Year::Optional),
    {
        match self {
            Year::Optional => true,
            _ => false,
        }
    }

    /// Whether this is `Required`.
    pub fn is_required(&self) -> (b: bool)
        ensures
            b == (*self == Year::Required),
    {
        match self {
            Year::Required => true,
            _ => false,
        }
    }

    /// Whether this is `Disallowed`.
    pub fn is_disallowed(&self) -> (b: bool)
        ensures
            b == (*self == Year::Disallowed),
    {
        match self {
            Year::Disallowed => true,
            _ => false,
        }
    }
}

impl Default for Year {
    fn default() -> (y: Year)
        ensures
            y == Year::Optional,
    {
        Year::Optional
    }
}

/// A parser configuration as mathematics.
pub ghost struct ParserModel {
    pub seconds: Seconds,
    pub dom_and_dow: bool,
    pub alternative_weekdays: bool,
    pub year: Year,
    pub sloppy_ranges: bool,
}

/// Parser for cron patterns. Build a configured one with
/// `CronParser::builder`.
#[derive(Debug, Clone, Copy, PartialEq, Eq, Structural, PartialOrd, Ord)]
pub struct CronParser {
    seconds: Seconds,
    dom_and_dow: bool,
    alternative_weekdays: bool,
    year: Year,
    sloppy_ranges: bool,
}

impl View for CronParser {
    type V = ParserModel;

    closed spec fn view(&self) -> ParserModel {
        ParserModel {
            seconds: self.seconds,
            dom_and_dow: self.dom_and_dow,
            alternative_weekdays: self.alternative_weekdays,
            year: self.year,
            sloppy_ranges: self.sloppy_ranges,
        }
    }
}

impl Default for CronParser {
    fn default() -> (p: CronParser)
        ensures
            p@ == default_config(),
    {
        CronParser {
            seconds: Seconds::Disallowed,
            dom_and_dow: false,
            alternative_weekdays: false,
            year: Year::Optional,
            sloppy_ranges: false,
        }
    }
}

/// A builder of a `CronParser`; every option not set keeps its default.
#[derive(Debug, Clone, Copy, PartialEq, Eq, Structural)]
pub struct CronParserBuilder {
    seconds: Option<Seconds>,
    dom_and_dow: Option<bool>,
    alternative_weekdays: Option<bool>,
    year: Option<Year>,
    sloppy_ranges: Option<bool>,
}

/// A builder's options as mathematics.
pub ghost struct BuilderModel {
    pub seconds: Option<Seconds>,
    pub dom_and_dow: Option<bool>,
    pub alternative_weekdays: Option<bool>,
    pub year: Option<Year>,
    pub sloppy_ranges: Option<bool>,
}

impl View for CronParserBuilder {
    type V = BuilderModel;

    closed spec fn view(&self) -> BuilderModel {
        BuilderModel {
            seconds: self.seconds,
            dom_and_dow: self.dom_and_dow,
            alternative_weekdays: self.alternative_weekdays,
            year: self.year,
            sloppy_ranges: self.sloppy_ranges,
        }
    }
}

impl Default for CronParserBuilder {
    fn default() -> (b: CronParserBuilder)
        ensures
            b@ == (BuilderModel {
                seconds: None,
                dom_and_dow: None,
                alternative_weekdays: None,
                year: None,
                sloppy_ranges: None,
            }),
    {
        CronParserBuilder {
            seconds: None,
            dom_and_dow: None,
            alternative_weekdays: None,
            year: None,
            sloppy_ranges: None,
        }
    }
}

/// The default configuration: five fields, or seven with seconds and a
/// year; either day field may match; 0 or 7 for Sunday; steps only after
/// `*` or a range.
pub open spec fn default_config() -> ParserModel {
    ParserModel {
        seconds: Seconds::Disallowed,
        dom_and_dow: false,
        alternative_weekdays: false,
        year: Year::Optional,
        sloppy_ranges: false,
    }
}

/// The configuration a builder builds: each option set, or its default.
pub open spec fn built(b: BuilderModel) -> ParserModel {
    ParserModel {
        seconds: match b.seconds {
            Some(s) => s,
            None => default_config().seconds,
        },
        dom_and_dow: match b.dom_and_dow {
            Some(v) => v,
            None => default_config().dom_and_dow,
        },
        alternative_weekdays: match b.alternative_weekdays {
            Some(v) => v,
            None => default_config().alternative_weekdays,
        },
        year: match b.year {
            Some(y) => y,
            None => default_config().year,
        },
        sloppy_ranges: match b.sloppy_ranges {
            Some(v) => v,
            None => default_config().sloppy_ranges,
        },
    }
}

/// A builder with no option set builds the default parser.
pub proof fn lemma_builder_defaults()
    ensures
        built(
            BuilderModel {
                seconds: None,
                dom_and_dow: None,
                alternative_weekdays: None,
                year: None,
                sloppy_ranges: None,
            },
        ) == default_config(),
{
}

impl CronParserBuilder {
    /// Sets how seconds are handled.
    pub fn seconds(self, value: Seconds) -> (b: CronParserBuilder)
        ensures
            b@ == (BuilderModel { seconds: Some(value), ..self@ }),
    {
        CronParserBuilder { seconds: Some(value), ..self }
    }

    /// Sets whether the day-of-month and day-of-week fields must both match.
    pub fn dom_and_dow(self, value: bool) -> (b: CronParserBuilder)
        ensures
            b@ == (BuilderModel { dom_and_dow: Some(value), ..self@ }),
    {
        CronParserBuilder { dom_and_dow: Some(value), ..self }
    }

    /// Sets the Quartz weekday numbering, 1 for Sunday to 7 for Saturday.
    pub fn alternative_weekdays(self, value: bool) -> (b: CronParserBuilder)
        ensures
            b@ == (BuilderModel { alternative_weekdays: Some(value), ..self@ }),
    {
        CronParserBuilder { alternative_weekdays: Some(value), ..self }
    }

    /// Sets how a year field is handled.
    pub fn year(self, value: Year) -> (b: CronParserBuilder)
        ensures
            b@ == (BuilderModel { year: Some(value), ..self@ }),
    {
        CronParserBuilder { year: Some(value), ..self }
    }

    /// Sets whether a step may follow a single start value, as in `5/15`,
    /// read as the range from that value to the field's maximum.
    pub fn sloppy_ranges(self, value: bool) -> (b: CronParserBuilder)
        ensures
            b@ == (BuilderModel { sloppy_ranges: Some(value), ..self@ }),
    {
        CronParserBuilder { sloppy_ranges: Some(value), ..self }
    }

    /// Builds the parser, with the default for every option not set.
    pub fn build(self) -> (p: CronParser)
        ensures
            p@ == built(self@),
    {
        CronParser {
            seconds: match self.seconds {
                Some(s) => s,
                None => Seconds::Disallowed,
            },
            dom_and_dow: match self.dom_and_dow {
                Some(b) => b,
                None => false,
            },
            alternative_weekdays: match self.alternative_weekdays {
                Some(b) => b,
                None => false,
            },
            year: match self.year {
                Some(y) => y,
                None => Year::Optional,
            },
            sloppy_ranges: match self.sloppy_ranges {
                Some(b) => b,
                None => false,
            },
        }
    }
}

// ---------------------------------------------------------------------------
// The meaning of pattern text.
// ---------------------------------------------------------------------------

/// A nickname such as `@daily` replaced by its pattern, with a leading `0 `
/// for the second where seconds are required; any other text is trimmed.
pub open spec fn nickname_spec(p: Seq<char>, with_seconds_required: bool) -> Seq<char> {
    let t = trim_spec(p);
    let base = if eq_ignore_case(t, "@yearly"@) || eq_ignore_case(t, "@annually"@) {
        "0 0 1 1 *"@
    } else if eq_ignore_case(t, "@monthly"@) {
        "0 0 1 * *"@
    } else if eq_ignore_case(t, "@weekly"@) {
        "0 0 * * 0"@
    } else if eq_ignore_case(t, "@daily"@) {
        "0 0 * * *"@
    } else if eq_ignore_case(t, "@hourly"@) {
        "0 * * * *"@
    } else {
        t
    };
    if with_seconds_required {
        "0 "@ + base
    } else {
        base
    }
}

/// Weekday names replaced by their numbers, in the given numbering.
pub open spec fn weekday_names_spec(s: Seq<char>, alternative: bool) -> Seq<char> {
    if !alternative {
        replace_spec(
            replace_spec(
                replace_spec(
                    replace_spec(
                        replace_spec(
                            replace_spec(
                                replace_spec(replace_spec(s, "-SUN"@, "-7"@), "SUN"@, "0"@),
                                "MON"@,
                                "1"@,
                            ),
                            "TUE"@,
                            "2"@,
                        ),
                        "WED"@,
                        "3"@,
                    ),
                    "THU"@,
                    "4"@,
                ),
                "FRI"@,
                "5"@,
            ),
            "SAT"@,
            "6"@,
        )
    } else {
        replace_spec(
            replace_spec(
                replace_spec(
                    replace_spec(
                        replace_spec(
                            replace_spec(
                                replace_spec(replace_spec(s, "-SUN"@, "-1"@), "SUN"@, "1"@),
                                "MON"@,
                                "2"@,
                            ),
                            "TUE"@,
                            "3"@,
                        ),
                        "WED"@,
                        "4"@,
                    ),
                    "THU"@,
                    "5"@,
                ),
                "FRI"@,
                "6"@,
            ),
            "SAT"@,
            "7"@,
        )
    }
}

/// Month names replaced by their numbers.
pub open spec fn month_names_spec(s: Seq<char>) -> Seq<char> {
    let s1 = replace_spec(replace_spec(replace_spec(s, "JAN"@, "1"@), "FEB"@, "2"@), "MAR"@, "3"@);
    let s2 = replace_spec(replace_spec(replace_spec(s1, "APR"@, "4"@), "MAY"@, "5"@), "JUN"@, "6"@);
    let s3 = replace_spec(replace_spec(replace_spec(s2, "JUL"@, "7"@), "AUG"@, "8"@), "SEP"@, "9"@);
    replace_spec(replace_spec(replace_spec(s3, "OCT"@, "10"@), "NOV"@, "11"@), "DEC"@, "12"@)
}

/// `replace_spec` keeps a three-letter text that is not the one replaced.
proof fn lemma_replace_other(s: Seq<char>, from: Seq<char>, to: Seq<char>)
    requires
        s.len() == 3,
        from.len() == 3,
        s != from,
    ensures
        replace_spec(s, from, to) == s,
{
    assert(s.take(3) =~= s);
    assert(replace_spec(s.drop_first(), from, to) == s.drop_first());
    assert(seq![s[0]] + s.drop_first() =~= s);
}

/// `replace_spec` turns a three-letter text into what replaces it.
proof fn lemma_replace_same(s: Seq<char>, to: Seq<char>)
    requires
        s.len() == 3,
    ensures
        replace_spec(s, s, to) == to,
{
    assert(s.take(3) =~= s);
    assert(replace_spec(s.skip(3), s, to) == s.skip(3));
    assert(to + s.skip(3) =~= to);
}

/// The name of month `k`, January being 1.
pub open spec fn month_name(k: int) -> Seq<char> {
    if k == 1 {
        "JAN"@
    } else if k == 2 {
        "FEB"@
    } else if k == 3 {
        "MAR"@
    } else if k == 4 {
        "APR"@
    } else if k == 5 {
        "MAY"@
    } else if k == 6 {
        "JUN"@
    } else if k == 7 {
        "JUL"@
    } else if k == 8 {
        "AUG"@
    } else if k == 9 {
        "SEP"@
    } else if k == 10 {
        "OCT"@
    } else if k == 11 {
        "NOV"@
    } else {
        "DEC"@
    }
}

/// Each month name, written as a field, becomes its number in the calendar:
/// JAN 1, FEB 2 and so on to DEC 12.
pub proof fn lemma_month_names_map(k: int)
    requires
        1 <= k <= 12,
    ensures
        month_names_spec(month_name(k)) == decimal(k as nat),
{
    reveal_strlit("JAN");
    reveal_strlit("FEB");
    reveal_strlit("MAR");
    reveal_strlit("APR");
    reveal_strlit("MAY");
    reveal_strlit("JUN");
    reveal_strlit("JUL");
    reveal_strlit("AUG");
    reveal_strlit("SEP");
    reveal_strlit("OCT");
    reveal_strlit("NOV");
    reveal_strlit("DEC");
    reveal_strlit("1");
    reveal_strlit("2");
    reveal_strlit("3");
    reveal_strlit("4");
    reveal_strlit("5");
    reveal_strlit("6");
    reveal_strlit("7");
    reveal_strlit("8");
    reveal_strlit("9");
    reveal_strlit("10");
    reveal_strlit("11");
    reveal_strlit("12");
    reveal_with_fuel(decimal, 2);
    if k == 1 {
        let n = "JAN"@;
        lemma_replace_same(n, "1"@);
        assert(decimal(1nat) =~= "1"@);
    } else if k == 2 {
        let n = "FEB"@;
        assert(n[0] != "JAN"@[0] || n[1] != "JAN"@[1] || n[2] != "JAN"@[2]);
        lemma_replace_other(n, "JAN"@, "1"@);
        lemma_replace_same(n, "2"@);
        assert(decimal(2nat) =~= "2"@);
    } else if k == 3 {
        let n = "MAR"@;
        assert(n[0] != "JAN"@[0] || n[1] != "JAN"@[1] || n[2] != "JAN"@[2]);
        lemma_replace_other(n, "JAN"@, "1"@);
        assert(n[0] != "FEB"@[0] || n[1] != "FEB"@[1] || n[2] != "FEB"@[2]);
        lemma_replace_other(n, "FEB"@, "2"@);
        lemma_replace_same(n, "3"@);
        assert(decimal(3nat) =~= "3"@);
    } else if k == 4 {
        let n = "APR"@;
        assert(n[0] != "JAN"@[0] || n[1] != "JAN"@[1] || n[2] != "JAN"@[2]);
        lemma_replace_other(n, "JAN"@, "1"@);
        assert(n[0] != "FEB"@[0] || n[1] != "FEB"@[1] || n[2] != "FEB"@[2]);
        lemma_replace_other(n, "FEB"@, "2"@);
        assert(n[0] != "MAR"@[0] || n[1] != "MAR"@[1] || n[2] != "MAR"@[2]);
        lemma_replace_other(n, "MAR"@, "3"@);
        lemma_replace_same(n, "4"@);
        assert(decimal(4nat) =~= "4"@);
    } else if k == 5 {
        let n = "MAY"@;
        assert(n[0] != "JAN"@[0] || n[1] != "JAN"@[1] || n[2] != "JAN"@[2]);
        lemma_replace_other(n, "JAN"@, "1"@);
        assert(n[0] != "FEB"@[0] || n[1] != "FEB"@[1] || n[2] != "FEB"@[2]);
        lemma_replace_other(n, "FEB"@, "2"@);
        assert(n[0] != "MAR"@[0] || n[1] != "MAR"@[1] || n[2] != "MAR"@[2]);
        lemma_replace_other(n, "MAR"@, "3"@);
        assert(n[0] != "APR"@[0] || n[1] != "APR"@[1] || n[2] != "APR"@[2]);
        lemma_replace_other(n, "APR"@, "4"@);
        lemma_replace_same(n, "5"@);
        assert(decimal(5nat) =~= "5"@);
    } else if k == 6 {
        let n = "JUN"@;
        assert(n[0] != "JAN"@[0] || n[1] != "JAN"@[1] || n[2] != "JAN"@[2]);
        lemma_replace_other(n, "JAN"@, "1"@);
        assert(n[0] != "FEB"@[0] || n[1] != "FEB"@[1] || n[2] != "FEB"@[2]);
        lemma_replace_other(n, "FEB"@, "2"@);
        assert(n[0] != "MAR"@[0] || n[1] != "MAR"@[1] || n[2] != "MAR"@[2]);
        lemma_replace_other(n, "MAR"@, "3"@);
        assert(n[0] != "APR"@[0] || n[1] != "APR"@[1] || n[2] != "APR"@[2]);
        lemma_replace_other(n, "APR"@, "4"@);
        assert(n[0] != "MAY"@[0] || n[1] != "MAY"@[1] || n[2] != "MAY"@[2]);
        lemma_replace_other(n, "MAY"@, "5"@);
        lemma_replace_same(n, "6"@);
        assert(decimal(6nat) =~= "6"@);
    } else if k == 7 {
        let n = "JUL"@;
        assert(n[0] != "JAN"@[0] || n[1] != "JAN"@[1] || n[2] != "JAN"@[2]);
        lemma_replace_other(n, "JAN"@, "1"@);
        assert(n[0] != "FEB"@[0] || n[1] != "FEB"@[1] || n[2] != "FEB"@[2]);
        lemma_replace_other(n, "FEB"@, "2"@);
        assert(n[0] != "MAR"@[0] || n[1] != "MAR"@[1] || n[2] != "MAR"@[2]);
        lemma_replace_other(n, "MAR"@, "3"@);
        assert(n[0] != "APR"@[0] || n[1] != "APR"@[1] || n[2] != "APR"@[2]);
        lemma_replace_other(n, "APR"@, "4"@);
        assert(n[0] != "MAY"@[0] || n[1] != "MAY"@[1] || n[2] != "MAY"@[2]);
        lemma_replace_other(n, "MAY"@, "5"@);
        assert(n[0] != "JUN"@[0] || n[1] != "JUN"@[1] || n[2] != "JUN"@[2]);
        lemma_replace_other(n, "JUN"@, "6"@);
        lemma_replace_same(n, "7"@);
        assert(decimal(7nat) =~= "7"@);
    } else if k == 8 {
        let n = "AUG"@;
        assert(n[0] != "JAN"@[0] || n[1] != "JAN"@[1] || n[2] != "JAN"@[2]);
        lemma_replace_other(n, "JAN"@, "1"@);
        assert(n[0] != "FEB"@[0] || n[1] != "FEB"@[1] || n[2] != "FEB"@[2]);
        lemma_replace_other(n, "FEB"@, "2"@);
        assert(n[0] != "MAR"@[0] || n[1] != "MAR"@[1] || n[2] != "MAR"@[2]);
        lemma_replace_other(n, "MAR"@, "3"@);
        assert(n[0] != "APR"@[0] || n[1] != "APR"@[1] || n[2] != "APR"@[2]);
        lemma_replace_other(n, "APR"@, "4"@);
        assert(n[0] != "MAY"@[0] || n[1] != "MAY"@[1] || n[2] != "MAY"@[2]);
        lemma_replace_other(n, "MAY"@, "5"@);
        assert(n[0] != "JUN"@[0] || n[1] != "JUN"@[1] || n[2] != "JUN"@[2]);
        lemma_replace_other(n, "JUN"@, "6"@);
        assert(n[0] != "JUL"@[0] || n[1] != "JUL"@[1] || n[2] != "JUL"@[2]);
        lemma_replace_other(n, "JUL"@, "7"@);
        lemma_replace_same(n, "8"@);
        assert(decimal(8nat) =~= "8"@);
    } else if k == 9 {
        let n = "SEP"@;
        assert(n[0] != "JAN"@[0] || n[1] != "JAN"@[1] || n[2] != "JAN"@[2]);
        lemma_replace_other(n, "JAN"@, "1"@);
        assert(n[0] != "FEB"@[0] || n[1] != "FEB"@[1] || n[2] != "FEB"@[2]);
        lemma_replace_other(n, "FEB"@, "2"@);
        assert(n[0] != "MAR"@[0] || n[1] != "MAR"@[1] || n[2] != "MAR"@[2]);
        lemma_replace_other(n, "MAR"@, "3"@);
        assert(n[0] != "APR"@[0] || n[1] != "APR"@[1] || n[2] != "APR"@[2]);
        lemma_replace_other(n, "APR"@, "4"@);
        assert(n[0] != "MAY"@[0] || n[1] != "MAY"@[1] || n[2] != "MAY"@[2]);
        lemma_replace_other(n, "MAY"@, "5"@);
        assert(n[0] != "JUN"@[0] || n[1] != "JUN"@[1] || n[2] != "JUN"@[2]);
        lemma_replace_other(n, "JUN"@, "6"@);
        assert(n[0] != "JUL"@[0] || n[1] != "JUL"@[1] || n[2] != "JUL"@[2]);
        lemma_replace_other(n, "JUL"@, "7"@);
        assert(n[0] != "AUG"@[0] || n[1] != "AUG"@[1] || n[2] != "AUG"@[2]);
        lemma_replace_other(n, "AUG"@, "8"@);
        lemma_replace_same(n, "9"@);
        assert(decimal(9nat) =~= "9"@);
    } else if k == 10 {
        let n = "OCT"@;
        assert(n[0] != "JAN"@[0] || n[1] != "JAN"@[1] || n[2] != "JAN"@[2]);
        lemma_replace_other(n, "JAN"@, "1"@);
        assert(n[0] != "FEB"@[0] || n[1] != "FEB"@[1] || n[2] != "FEB"@[2]);
        lemma_replace_other(n, "FEB"@, "2"@);
        assert(n[0] != "MAR"@[0] || n[1] != "MAR"@[1] || n[2] != "MAR"@[2]);
        lemma_replace_other(n, "MAR"@, "3"@);
        assert(n[0] != "APR"@[0] || n[1] != "APR"@[1] || n[2] != "APR"@[2]);
        lemma_replace_other(n, "APR"@, "4"@);
        assert(n[0] != "MAY"@[0] || n[1] != "MAY"@[1] || n[2] != "MAY"@[2]);
        lemma_replace_other(n, "MAY"@, "5"@);
        assert(n[0] != "JUN"@[0] || n[1] != "JUN"@[1] || n[2] != "JUN"@[2]);
        lemma_replace_other(n, "JUN"@, "6"@);
        assert(n[0] != "JUL"@[0] || n[1] != "JUL"@[1] || n[2] != "JUL"@[2]);
        lemma_replace_other(n, "JUL"@, "7"@);
        assert(n[0] != "AUG"@[0] || n[1] != "AUG"@[1] || n[2] != "AUG"@[2]);
        lemma_replace_other(n, "AUG"@, "8"@);
        assert(n[0] != "SEP"@[0] || n[1] != "SEP"@[1] || n[2] != "SEP"@[2]);
        lemma_replace_other(n, "SEP"@, "9"@);
        lemma_replace_same(n, "10"@);
        assert(decimal(10nat) =~= "10"@);
    } else if k == 11 {
        let n = "NOV"@;
        assert(n[0] != "JAN"@[0] || n[1] != "JAN"@[1] || n[2] != "JAN"@[2]);
        lemma_replace_other(n, "JAN"@, "1"@);
        assert(n[0] != "FEB"@[0] || n[1] != "FEB"@[1] || n[2] != "FEB"@[2]);
        lemma_replace_other(n, "FEB"@, "2"@);
        assert(n[0] != "MAR"@[0] || n[1] != "MAR"@[1] || n[2] != "MAR"@[2]);
        lemma_replace_other(n, "MAR"@, "3"@);
        assert(n[0] != "APR"@[0] || n[1] != "APR"@[1] || n[2] != "APR"@[2]);
        lemma_replace_other(n, "APR"@, "4"@);
        assert(n[0] != "MAY"@[0] || n[1] != "MAY"@[1] || n[2] != "MAY"@[2]);
        lemma_replace_other(n, "MAY"@, "5"@);
        assert(n[0] != "JUN"@[0] || n[1] != "JUN"@[1] || n[2] != "JUN"@[2]);
        lemma_replace_other(n, "JUN"@, "6"@);
        assert(n[0] != "JUL"@[0] || n[1] != "JUL"@[1] || n[2] != "JUL"@[2]);
        lemma_replace_other(n, "JUL"@, "7"@);
        assert(n[0] != "AUG"@[0] || n[1] != "AUG"@[1] || n[2] != "AUG"@[2]);
        lemma_replace_other(n, "AUG"@, "8"@);
        assert(n[0] != "SEP"@[0] || n[1] != "SEP"@[1] || n[2] != "SEP"@[2]);
        lemma_replace_other(n, "SEP"@, "9"@);
        assert(n[0] != "OCT"@[0] || n[1] != "OCT"@[1] || n[2] != "OCT"@[2]);
        lemma_replace_other(n, "OCT"@, "10"@);
        lemma_replace_same(n, "11"@);
        assert(decimal(11nat) =~= "11"@);
    } else if k == 12 {
        let n = "DEC"@;
        assert(n[0] != "JAN"@[0] || n[1] != "JAN"@[1] || n[2] != "JAN"@[2]);
        lemma_replace_other(n, "JAN"@, "1"@);
        assert(n[0] != "FEB"@[0] || n[1] != "FEB"@[1] || n[2] != "FEB"@[2]);
        lemma_replace_other(n, "FEB"@, "2"@);
        assert(n[0] != "MAR"@[0] || n[1] != "MAR"@[1] || n[2] != "MAR"@[2]);
        lemma_replace_other(n, "MAR"@, "3"@);
        assert(n[0] != "APR"@[0] || n[1] != "APR"@[1] || n[2] != "APR"@[2]);
        lemma_replace_other(n, "APR"@, "4"@);
        assert(n[0] != "MAY"@[0] || n[1] != "MAY"@[1] || n[2] != "MAY"@[2]);
        lemma_replace_other(n, "MAY"@, "5"@);
        assert(n[0] != "JUN"@[0] || n[1] != "JUN"@[1] || n[2] != "JUN"@[2]);
        lemma_replace_other(n, "JUN"@, "6"@);
        assert(n[0] != "JUL"@[0] || n[1] != "JUL"@[1] || n[2] != "JUL"@[2]);
        lemma_replace_other(n, "JUL"@, "7"@);
        assert(n[0] != "AUG"@[0] || n[1] != "AUG"@[1] || n[2] != "AUG"@[2]);
        lemma_replace_other(n, "AUG"@, "8"@);
        assert(n[0] != "SEP"@[0] || n[1] != "SEP"@[1] || n[2] != "SEP"@[2]);
        lemma_replace_other(n, "SEP"@, "9"@);
        assert(n[0] != "OCT"@[0] || n[1] != "OCT"@[1] || n[2] != "OCT"@[2]);
        lemma_replace_other(n, "OCT"@, "10"@);
        assert(n[0] != "NOV"@[0] || n[1] != "NOV"@[1] || n[2] != "NOV"@[2]);
        lemma_replace_other(n, "NOV"@, "11"@);
        lemma_replace_same(n, "12"@);
        assert(decimal(12nat) =~= "12"@);
    }
}

/// The name of weekday `k`, Sunday being 0.
pub open spec fn weekday_name(k: int) -> Seq<char> {
    if k == 0 {
        "SUN"@
    } else if k == 1 {
        "MON"@
    } else if k == 2 {
        "TUE"@
    } else if k == 3 {
        "WED"@
    } else if k == 4 {
        "THU"@
    } else if k == 5 {
        "FRI"@
    } else {
        "SAT"@
    }
}

/// Each weekday name, written as a field, becomes its number: SUN 0, MON 1
/// and so on to SAT 6, or, in the alternative numbering, SUN 1 to SAT 7.
pub proof fn lemma_weekday_names_map(k: int)
    requires
        0 <= k <= 6,
    ensures
        weekday_names_spec(weekday_name(k), false) == decimal(k as nat),
        weekday_names_spec(weekday_name(k), true) == decimal((k + 1) as nat),
{
    reveal_strlit("SUN");
    reveal_strlit("MON");
    reveal_strlit("TUE");
    reveal_strlit("WED");
    reveal_strlit("THU");
    reveal_strlit("FRI");
    reveal_strlit("SAT");
    reveal_strlit("0");
    reveal_strlit("1");
    reveal_strlit("2");
    reveal_strlit("3");
    reveal_strlit("4");
    reveal_strlit("5");
    reveal_strlit("6");
    reveal_strlit("7");
    reveal_strlit("-SUN");
    reveal_strlit("-7");
    reveal_strlit("-1");
    if k == 0 {
        let n = "SUN"@;
        lemma_replace_same(n, "0"@);
        lemma_replace_same(n, "1"@);
        assert(decimal(0nat) =~= "0"@);
        assert(decimal(1nat) =~= "1"@);
    } else if k == 1 {
        let n = "MON"@;
        assert(n[0] != "SUN"@[0] || n[1] != "SUN"@[1] || n[2] != "SUN"@[2]);
        lemma_replace_other(n, "SUN"@, "0"@);
        lemma_replace_same(n, "1"@);
        assert(n[0] != "SUN"@[0] || n[1] != "SUN"@[1] || n[2] != "SUN"@[2]);
        lemma_replace_other(n, "SUN"@, "1"@);
        lemma_replace_same(n, "2"@);
        assert(decimal(1nat) =~= "1"@);
        assert(decimal(2nat) =~= "2"@);
    } else if k == 2 {
        let n = "TUE"@;
        assert(n[0] != "SUN"@[0] || n[1] != "SUN"@[1] || n[2] != "SUN"@[2]);
        lemma_replace_other(n, "SUN"@, "0"@);
        assert(n[0] != "MON"@[0] || n[1] != "MON"@[1] || n[2] != "MON"@[2]);
        lemma_replace_other(n, "MON"@, "1"@);
        lemma_replace_same(n, "2"@);
        assert(n[0] != "SUN"@[0] || n[1] != "SUN"@[1] || n[2] != "SUN"@[2]);
        lemma_replace_other(n, "SUN"@, "1"@);
        assert(n[0] != "MON"@[0] || n[1] != "MON"@[1] || n[2] != "MON"@[2]);
        lemma_replace_other(n, "MON"@, "2"@);
        lemma_replace_same(n, "3"@);
        assert(decimal(2nat) =~= "2"@);
        assert(decimal(3nat) =~= "3"@);
    } else if k == 3 {
        let n = "WED"@;
        assert(n[0] != "SUN"@[0] || n[1] != "SUN"@[1] || n[2] != "SUN"@[2]);
        lemma_replace_other(n, "SUN"@, "0"@);
        assert(n[0] != "MON"@[0] || n[1] != "MON"@[1] || n[2] != "MON"@[2]);
        lemma_replace_other(n, "MON"@, "1"@);
        assert(n[0] != "TUE"@[0] || n[1] != "TUE"@[1] || n[2] != "TUE"@[2]);
        lemma_replace_other(n, "TUE"@, "2"@);
        lemma_replace_same(n, "3"@);
        assert(n[0] != "SUN"@[0] || n[1] != "SUN"@[1] || n[2] != "SUN"@[2]);
        lemma_replace_other(n, "SUN"@, "1"@);
        assert(n[0] != "MON"@[0] || n[1] != "MON"@[1] || n[2] != "MON"@[2]);
        lemma_replace_other(n, "MON"@, "2"@);
        assert(n[0] != "TUE"@[0] || n[1] != "TUE"@[1] || n[2] != "TUE"@[2]);
        lemma_replace_other(n, "TUE"@, "3"@);
        lemma_replace_same(n, "4"@);
        assert(decimal(3nat) =~= "3"@);
        assert(decimal(4nat) =~= "4"@);
    } else if k == 4 {
        let n = "THU"@;
        assert(n[0] != "SUN"@[0] || n[1] != "SUN"@[1] || n[2] != "SUN"@[2]);
        lemma_replace_other(n, "SUN"@, "0"@);
        assert(n[0] != "MON"@[0] || n[1] != "MON"@[1] || n[2] != "MON"@[2]);
        lemma_replace_other(n, "MON"@, "1"@);
        assert(n[0] != "TUE"@[0] || n[1] != "TUE"@[1] || n[2] != "TUE"@[2]);
        lemma_replace_other(n, "TUE"@, "2"@);
        assert(n[0] != "WED"@[0] || n[1] != "WED"@[1] || n[2] != "WED"@[2]);
        lemma_replace_other(n, "WED"@, "3"@);
        lemma_replace_same(n, "4"@);
        assert(n[0] != "SUN"@[0] || n[1] != "SUN"@[1] || n[2] != "SUN"@[2]);
        lemma_replace_other(n, "SUN"@, "1"@);
        assert(n[0] != "MON"@[0] || n[1] != "MON"@[1] || n[2] != "MON"@[2]);
        lemma_replace_other(n, "MON"@, "2"@);
        assert(n[0] != "TUE"@[0] || n[1] != "TUE"@[1] || n[2] != "TUE"@[2]);
        lemma_replace_other(n, "TUE"@, "3"@);
        assert(n[0] != "WED"@[0] || n[1] != "WED"@[1] || n[2] != "WED"@[2]);
        lemma_replace_other(n, "WED"@, "4"@);
        lemma_replace_same(n, "5"@);
        assert(decimal(4nat) =~= "4"@);
        assert(decimal(5nat) =~= "5"@);
    } else if k == 5 {
        let n = "FRI"@;
        assert(n[0] != "SUN"@[0] || n[1] != "SUN"@[1] || n[2] != "SUN"@[2]);
        lemma_replace_other(n, "SUN"@, "0"@);
        assert(n[0] != "MON"@[0] || n[1] != "MON"@[1] || n[2] != "MON"@[2]);
        lemma_replace_other(n, "MON"@, "1"@);
        assert(n[0] != "TUE"@[0] || n[1] != "TUE"@[1] || n[2] != "TUE"@[2]);
        lemma_replace_other(n, "TUE"@, "2"@);
        assert(n[0] != "WED"@[0] || n[1] != "WED"@[1] || n[2] != "WED"@[2]);
        lemma_replace_other(n, "WED"@, "3"@);
        assert(n[0] != "THU"@[0] || n[1] != "THU"@[1] || n[2] != "THU"@[2]);
        lemma_replace_other(n, "THU"@, "4"@);
        lemma_replace_same(n, "5"@);
        assert(n[0] != "SUN"@[0] || n[1] != "SUN"@[1] || n[2] != "SUN"@[2]);
        lemma_replace_other(n, "SUN"@, "1"@);
        assert(n[0] != "MON"@[0] || n[1] != "MON"@[1] || n[2] != "MON"@[2]);
        lemma_replace_other(n, "MON"@, "2"@);
        assert(n[0] != "TUE"@[0] || n[1] != "TUE"@[1] || n[2] != "TUE"@[2]);
        lemma_replace_other(n, "TUE"@, "3"@);
        assert(n[0] != "WED"@[0] || n[1] != "WED"@[1] || n[2] != "WED"@[2]);
        lemma_replace_other(n, "WED"@, "4"@);
        assert(n[0] != "THU"@[0] || n[1] != "THU"@[1] || n[2] != "THU"@[2]);
        lemma_replace_other(n, "THU"@, "5"@);
        lemma_replace_same(n, "6"@);
        assert(decimal(5nat) =~= "5"@);
        assert(decimal(6nat) =~= "6"@);
    } else if k == 6 {
        let n = "SAT"@;
        assert(n[0] != "SUN"@[0] || n[1] != "SUN"@[1] || n[2] != "SUN"@[2]);
        lemma_replace_other(n, "SUN"@, "0"@);
        assert(n[0] != "MON"@[0] || n[1] != "MON"@[1] || n[2] != "MON"@[2]);
        lemma_replace_other(n, "MON"@, "1"@);
        assert(n[0] != "TUE"@[0] || n[1] != "TUE"@[1] || n[2] != "TUE"@[2]);
        lemma_replace_other(n, "TUE"@, "2"@);
        assert(n[0] != "WED"@[0] || n[1] != "WED"@[1] || n[2] != "WED"@[2]);
        lemma_replace_other(n, "WED"@, "3"@);
        assert(n[0] != "THU"@[0] || n[1] != "THU"@[1] || n[2] != "THU"@[2]);
        lemma_replace_other(n, "THU"@, "4"@);
        assert(n[0] != "FRI"@[0] || n[1] != "FRI"@[1] || n[2] != "FRI"@[2]);
        lemma_replace_other(n, "FRI"@, "5"@);
        lemma_replace_same(n, "6"@);
        assert(n[0] != "SUN"@[0] || n[1] != "SUN"@[1] || n[2] != "SUN"@[2]);
        lemma_replace_other(n, "SUN"@, "1"@);
        assert(n[0] != "MON"@[0] || n[1] != "MON"@[1] || n[2] != "MON"@[2]);
        lemma_replace_other(n, "MON"@, "2"@);
        assert(n[0] != "TUE"@[0] || n[1] != "TUE"@[1] || n[2] != "TUE"@[2]);
        lemma_replace_other(n, "TUE"@, "3"@);
        assert(n[0] != "WED"@[0] || n[1] != "WED"@[1] || n[2] != "WED"@[2]);
        lemma_replace_other(n, "WED"@, "4"@);
        assert(n[0] != "THU"@[0] || n[1] != "THU"@[1] || n[2] != "THU"@[2]);
        lemma_replace_other(n, "THU"@, "5"@);
        assert(n[0] != "FRI"@[0] || n[1] != "FRI"@[1] || n[2] != "FRI"@[2]);
        lemma_replace_other(n, "FRI"@, "6"@);
        lemma_replace_same(n, "7"@);
        assert(decimal(6nat) =~= "6"@);
        assert(decimal(7nat) =~= "7"@);
    }
}

/// The text a pattern is kept as: upper case, trimmed, with a nickname
/// expanded and weekday and month names replaced by numbers.
pub open spec fn normalized_text(cfg: ParserModel, input: Seq<char>) -> Seq<char> {
    let u = trim_spec(uppercase(input));
    let n = if u.contains('@') {
        nickname_spec(u, cfg.seconds == Seconds::Required)
    } else {
        u
    };
    month_names_spec(weekday_names_spec(n, cfg.alternative_weekdays))
}

/// The seven fields of a text, seconds first and year last, or `None` where
/// the number of fields does not fit the configuration. A missing second is
/// 0 and a missing year `*`.
pub open spec fn seven_fields(cfg: ParserModel, text: Seq<char>) -> Option<Seq<Seq<char>>> {
    let w = words(text);
    let n = w.len();
    if n < 5 || n > 7 {
        None
    } else if n == 5 {
        if cfg.seconds == Seconds::Required || cfg.year == Year::Required {
            None
        } else {
            Some(seq![seq!['0']] + w + seq![seq!['*']])
        }
    } else if n == 6 {
        if cfg.seconds == Seconds::Disallowed || cfg.year == Year::Required {
            None
        } else {
            Some(w.push(seq!['*']))
        }
    } else {
        if cfg.year == Year::Disallowed {
            None
        } else {
            Some(w)
        }
    }
}

/// The message of the error for a number of fields that does not fit the
/// configuration.
pub open spec fn field_count_message(cfg: ParserModel, text: Seq<char>) -> Seq<char> {
    let n = words(text).len();
    if n < 5 || n > 7 {
        "Pattern must have between 5 and 7 fields."@
    } else if n == 5 {
        if cfg.seconds == Seconds::Required {
            "Pattern must consist of six fields, seconds can not be omitted."@
        } else {
            "Pattern must consist of seven fields, the year can not be omitted."@
        }
    } else if n == 6 {
        if cfg.seconds == Seconds::Disallowed {
            "Pattern must consist of five fields, seconds are not allowed by configuration."@
        } else {
            "Pattern must consist of seven fields, the year can not be omitted."@
        }
    } else {
        "Pattern must consist of five or six fields, a year is not allowed by configuration."@
    }
}

/// A day field with `?` read as `*`.
pub open spec fn question_spec(f: Seq<char>) -> Seq<char> {
    if f.contains('?') {
        replace_spec(f, seq!['?'], seq!['*'])
    } else {
        f
    }
}

/// The fields with `?` read as `*` in the two day fields.
pub open spec fn fields_spec(cfg: ParserModel, text: Seq<char>) -> Option<Seq<Seq<char>>> {
    match seven_fields(cfg, text) {
        None => None,
        Some(f) => Some(f.update(3, question_spec(f[3])).update(5, question_spec(f[5]))),
    }
}

/// Whether a character may stand in the field at `index`: digits and
/// `* / , -` anywhere; besides, `# L ?` in the day of week and `L W ?` in
/// the day of month.
pub open spec fn allowed_char(index: int, c: char) -> bool {
    ||| ('0' <= c && c <= '9')
    ||| c == '*'
    ||| c == '/'
    ||| c == ','
    ||| c == '-'
    ||| (index == 5 && (c == '#' || c == 'L' || c == '?'))
    ||| (index == 3 && (c == 'L' || c == 'W' || c == '?'))
}

/// Whether a character may stand at place `j` of the field at `index`:
/// besides the characters allowed anywhere in it, a `+` may open the day
/// of week.
pub open spec fn allowed_at(index: int, j: int, c: char) -> bool {
    allowed_char(index, c) || (index == 5 && j == 0 && c == '+')
}

/// Whether every field holds only the characters allowed in it.
pub open spec fn legal_fields(fields: Seq<Seq<char>>) -> bool {
    forall|i: int, j: int|
        0 <= i < fields.len() && 0 <= j < fields[i].len() ==> allowed_at(i, j, #[trigger] fields[i][j])
}

/// Whether a day-of-week field opens with `+`: both day fields must then
/// match.
pub open spec fn and_marked(f: Seq<char>) -> bool {
    f.len() > 0 && f[0] == '+'
}

/// A day-of-week field without its opening `+`.
pub open spec fn dow_text(f: Seq<char>) -> Seq<char> {
    if and_marked(f) {
        f.drop_first()
    } else {
        f
    }
}

/// Whether a part of a field steps from a single start value, as `5/15`,
/// rather than from `*` or a range.
pub open spec fn start_only_step(t: Seq<char>) -> bool {
    &&& t.contains('/')
    &&& before_char(t, '/') != seq!['*']
    &&& !before_char(t, '/').contains('-')
}

/// Whether no part of a field steps from a single start value.
pub open spec fn strict_steps(field: Seq<char>) -> bool {
    forall|i: int|
        0 <= i < split_spec(field, ',').len() ==> !start_only_step(
            #[trigger] split_spec(field, ',')[i],
        )
}

/// A field parsed under a configuration: a step from a single start value
/// is refused unless sloppy ranges are allowed.
pub open spec fn field_in(cfg: ParserModel, m: ComponentModel, field: Seq<char>) -> Option<
    ComponentModel,
> {
    if !cfg.sloppy_ranges && !strict_steps(field) {
        None
    } else {
        field_spec(m, field)
    }
}

/// The day-of-week component with the bits of 7 moved to 0, bit by bit.
pub open spec fn move_bit(m: ComponentModel, bit: u8) -> Option<ComponentModel> {
    match bit_query(m, 7, bit) {
        None => None,
        Some(false) => Some(m),
        Some(true) => match m.unset_bit(7, bit) {
            None => None,
            Some(m1) => m1.set_bit(0, bit),
        },
    }
}

/// Sunday written as 7 moved to 0, for the value and occurrence bits.
pub open spec fn seven_to_zero(m: ComponentModel) -> Option<ComponentModel> {
    match move_bit(m, ALL_BIT) {
        None => None,
        Some(m1) => match move_bit(m1, NTH_1ST_BIT) {
            None => None,
            Some(m2) => match move_bit(m2, NTH_2ND_BIT) {
                None => None,
                Some(m3) => match move_bit(m3, NTH_3RD_BIT) {
                    None => None,
                    Some(m4) => match move_bit(m4, NTH_4TH_BIT) {
                        None => None,
                        Some(m5) => move_bit(m5, NTH_5TH_BIT),
                    },
                },
            },
        },
    }
}

/// Why a text does not parse.
pub enum ParseFailure {
    /// The text is empty.
    Empty,
    /// The number of fields does not fit the configuration.
    FieldCount,
    /// A field holds a character not allowed in it.
    Illegal,
    /// A field is invalid for its component.
    Component,
}

impl ParseFailure {
    /// Whether an error is of this kind.
    pub open spec fn describes(self, e: CronError) -> bool {
        match self {
            ParseFailure::Empty => e is EmptyPattern,
            ParseFailure::FieldCount => e is InvalidPattern,
            ParseFailure::Illegal => e is IllegalCharacters,
            ParseFailure::Component => e is ComponentError,
        }
    }
}

/// The day-of-week component before parsing, in the configured numbering.
pub open spec fn dow_base(alternative: bool) -> ComponentModel {
    CronComponent::new_model(0, 7, LAST_BIT | NTH_ALL, if alternative { 1 } else { 0 })
}

/// The pattern that parsed fields give, or why they fail.
pub open spec fn build_spec(cfg: ParserModel, text: Seq<char>, f: Seq<Seq<char>>) -> Result<
    PatternModel,
    ParseFailure,
> {
    let sec = field_in(cfg, CronComponent::new_model(0, 59, NONE_BIT, 0), f[0]);
    let min = field_in(cfg, CronComponent::new_model(0, 59, NONE_BIT, 0), f[1]);
    let hour = field_in(cfg, CronComponent::new_model(0, 23, NONE_BIT, 0), f[2]);
    let day = field_in(
        cfg,
        CronComponent::new_model(1, 31, LAST_BIT | CLOSEST_WEEKDAY_BIT, 0),
        f[3],
    );
    let month = field_in(cfg, CronComponent::new_model(1, 12, NONE_BIT, 0), f[4]);
    let dow0 = field_in(cfg, dow_base(cfg.alternative_weekdays), dow_text(f[5]));
    let year = field_in(cfg, CronComponent::new_model(1, 5000, NONE_BIT, 0), f[6]);
    let dow = match dow0 {
        None => None,
        Some(d) => if cfg.alternative_weekdays {
            Some(d)
        } else {
            seven_to_zero(d)
        },
    };
    if sec is None || min is None || hour is None || day is None || month is None || dow0 is None
        || year is None || dow is None {
        Err(ParseFailure::Component)
    } else {
        Ok(
            PatternModel {
                seconds: sec->0,
                minutes: min->0,
                hours: hour->0,
                days: day->0,
                months: month->0,
                days_of_week: dow->0,
                years: year->0,
                star_dom: f[3] == seq!['*'],
                star_dow: dow_text(f[5]) == seq!['*'],
                dom_and_dow: cfg.dom_and_dow || and_marked(f[5]),
                text,
            },
        )
    }
}

/// The pattern that a text parses to, or why it does not.
pub open spec fn parse_spec(cfg: ParserModel, input: Seq<char>) -> Result<
    PatternModel,
    ParseFailure,
> {
    if trim_spec(uppercase(input)).len() == 0 {
        Err(ParseFailure::Empty)
    } else {
        let text = normalized_text(cfg, input);
        match fields_spec(cfg, text) {
            None => Err(ParseFailure::FieldCount),
            Some(f) => if !legal_fields(f) {
                Err(ParseFailure::Illegal)
            } else {
                build_spec(cfg, text, f)
            },
        }
    }
}

/// Setting or clearing one bit of a byte leaves the bits apart from it.
proof fn lemma_byte_bits(x: u8, b: u8, c: u8)
    by (bit_vector)
    requires
        b & c == 0,
    ensures
        (x & !b) & c == x & c,
        (x | b) & c == x & c,
        (x & !b) & b == 0,
        (x | b) & b == b,
{
}

/// A day-of-week component numbered from 0 to 7.
pub open spec fn sunday_twice(m: ComponentModel) -> bool {
    &&& m.min == 0
    &&& m.max == 7
    &&& m.offset == 0
    &&& m.bits.len() == 8
    &&& m.features & 63 == 63
}

/// One bit that says a weekday is allowed: on every occurrence, or on
/// its first to fifth in the month.
pub open spec fn occurrence_bit(b: u8) -> bool {
    b == ALL_BIT || b == NTH_1ST_BIT || b == NTH_2ND_BIT || b == NTH_3RD_BIT || b == NTH_4TH_BIT
        || b == NTH_5TH_BIT
}

/// Moving one bit from 7 to 0 leaves every other bit and every other day.
proof fn lemma_move_one(m: ComponentModel, bit: u8)
    requires
        sunday_twice(m),
        occurrence_bit(bit),
    ensures
        move_bit(m, bit) matches Some(r) && {
            &&& sunday_twice(r)
            &&& r.bits[7] & bit == 0
            &&& (r.bits[0] & bit != 0 <==> (m.bits[0] & bit != 0 || m.bits[7] & bit != 0))
            &&& forall|c: u8|
                #![trigger occurrence_bit(c)]
                occurrence_bit(c) && c != bit ==> r.bits[0] & c == m.bits[0] & c && r.bits[7]
                    & c == m.bits[7] & c
            &&& forall|i: int| 1 <= i <= 6 ==> r.bits[i] == m.bits[i]
        },
{
    let f = m.features;
    assert(f & bit == bit) by (bit_vector)
        requires
            f & 63 == 63,
            bit == 1u8 || bit == 2u8 || bit == 4u8 || bit == 8u8 || bit == 16u8 || bit == 32u8,
    ;
    assert forall|c: u8| occurrence_bit(c) && c != bit implies bit & c == 0 by {
        assert(bit & c == 0) by (bit_vector)
            requires
                bit == 1u8 || bit == 2u8 || bit == 4u8 || bit == 8u8 || bit == 16u8 || bit
                    == 32u8,
                c == 1u8 || c == 2u8 || c == 4u8 || c == 8u8 || c == 16u8 || c == 32u8,
                c != bit,
        ;
    }
    let x0 = m.bits[0];
    let x7 = m.bits[7];
    assert forall|c: u8| occurrence_bit(c) && c != bit implies (x0 | bit) & c == x0 & c && (x7
        & !bit) & c == x7 & c by {
        lemma_byte_bits(x0, bit, c);
        lemma_byte_bits(x7, bit, c);
    }
    assert(bit & 0u8 == 0) by (bit_vector);
    lemma_byte_bits(x0, bit, 0);
    lemma_byte_bits(x7, bit, 0);
    if x7 & bit != 0 {
        let m1 = m.unset_bit(7, bit)->0;
        assert(m1.bits[0] == x0);
        assert(m1.bits[7] == x7 & !bit);
        let r = m1.set_bit(0, bit)->0;
        assert(r.bits[7] == x7 & !bit);
        assert(r.bits[0] == x0 | bit);
    }
}

/// Sunday may be written as 7 or as 0: once the bits of 7 are moved, 7
/// carries no occurrence bit, and 0 carries each that either carried
/// before. The other days keep theirs.
pub proof fn lemma_sunday_moves_to_zero(m: ComponentModel)
    requires
        sunday_twice(m),
    ensures
        seven_to_zero(m) matches Some(r) && {
            &&& sunday_twice(r)
            &&& forall|b: u8|
                #![trigger occurrence_bit(b)]
                occurrence_bit(b) ==> r.bits[7] & b == 0 && (r.bits[0] & b != 0 <==> (m.bits[0]
                    & b != 0 || m.bits[7] & b != 0))
            &&& forall|i: int| 1 <= i <= 6 ==> r.bits[i] == m.bits[i]
        },
{
    assert(occurrence_bit(ALL_BIT));
    assert(occurrence_bit(NTH_1ST_BIT));
    assert(occurrence_bit(NTH_2ND_BIT));
    assert(occurrence_bit(NTH_3RD_BIT));
    assert(occurrence_bit(NTH_4TH_BIT));
    assert(occurrence_bit(NTH_5TH_BIT));
    lemma_move_one(m, ALL_BIT);
    let m1 = move_bit(m, ALL_BIT)->0;
    lemma_move_one(m1, NTH_1ST_BIT);
    let m2 = move_bit(m1, NTH_1ST_BIT)->0;
    lemma_move_one(m2, NTH_2ND_BIT);
    let m3 = move_bit(m2, NTH_2ND_BIT)->0;
    lemma_move_one(m3, NTH_3RD_BIT);
    let m4 = move_bit(m3, NTH_3RD_BIT)->0;
    lemma_move_one(m4, NTH_4TH_BIT);
    let m5 = move_bit(m4, NTH_4TH_BIT)->0;
    lemma_move_one(m5, NTH_5TH_BIT);
    let r = move_bit(m5, NTH_5TH_BIT)->0;
    assert(seven_to_zero(m) == Some(r));
}

/// Moving Sunday's bits keeps the day-of-week range.
proof fn lemma_seven_to_zero_range(m: ComponentModel)
    ensures
        seven_to_zero(m) matches Some(r) ==> same_shape(r, m),
{
}

/// Every pattern that parses can be described: each field keeps the range
/// of its component, so the day of week lies within 0 to 7 and the month
/// within 1 to 12.
pub proof fn lemma_parsed_describable(cfg: ParserModel, input: Seq<char>)
    ensures
        parse_spec(cfg, input) matches Ok(m) ==> describable(m),
{
    if let Ok(m) = parse_spec(cfg, input) {
        let text = normalized_text(cfg, input);
        let f = fields_spec(cfg, text)->0;
        lemma_field_keeps_range(CronComponent::new_model(0, 59, NONE_BIT, 0), f[0]);
        lemma_field_keeps_range(CronComponent::new_model(0, 59, NONE_BIT, 0), f[1]);
        lemma_field_keeps_range(CronComponent::new_model(0, 23, NONE_BIT, 0), f[2]);
        lemma_field_keeps_range(
            CronComponent::new_model(1, 31, LAST_BIT | CLOSEST_WEEKDAY_BIT, 0),
            f[3],
        );
        lemma_field_keeps_range(CronComponent::new_model(1, 12, NONE_BIT, 0), f[4]);
        lemma_field_keeps_range(dow_base(cfg.alternative_weekdays), dow_text(f[5]));
        lemma_field_keeps_range(CronComponent::new_model(1, 5000, NONE_BIT, 0), f[6]);
        if let Some(d) = field_spec(dow_base(cfg.alternative_weekdays), dow_text(f[5])) {
            lemma_seven_to_zero_range(d);
        }
    }
}

/// The features that the components of a pattern start with.
proof fn lemma_start_features()
    by (bit_vector)
    ensures
        (NONE_BIT | ALL_BIT | LAST_BIT) & ALL_BIT == ALL_BIT,
        ((LAST_BIT | CLOSEST_WEEKDAY_BIT) | ALL_BIT | LAST_BIT) & ALL_BIT == ALL_BIT,
        ((LAST_BIT | CLOSEST_WEEKDAY_BIT) | ALL_BIT | LAST_BIT) & CLOSEST_WEEKDAY_BIT
            == CLOSEST_WEEKDAY_BIT,
        ((LAST_BIT | NTH_ALL) | ALL_BIT | LAST_BIT) & ALL_BIT == ALL_BIT,
        ((LAST_BIT | NTH_ALL) | ALL_BIT | LAST_BIT) & LAST_BIT == LAST_BIT,
        ((LAST_BIT | NTH_ALL) | ALL_BIT | LAST_BIT) & NTH_1ST_BIT == NTH_1ST_BIT,
        ((LAST_BIT | NTH_ALL) | ALL_BIT | LAST_BIT) & NTH_2ND_BIT == NTH_2ND_BIT,
        ((LAST_BIT | NTH_ALL) | ALL_BIT | LAST_BIT) & NTH_3RD_BIT == NTH_3RD_BIT,
        ((LAST_BIT | NTH_ALL) | ALL_BIT | LAST_BIT) & NTH_4TH_BIT == NTH_4TH_BIT,
        ((LAST_BIT | NTH_ALL) | ALL_BIT | LAST_BIT) & NTH_5TH_BIT == NTH_5TH_BIT,
{
}

/// Every pattern that parses has fields of the usual shape, so every query
/// a search makes of it answers.
pub proof fn lemma_parsed_standard(cfg: ParserModel, input: Seq<char>)
    ensures
        parse_spec(cfg, input) matches Ok(m) ==> standard_pattern(m),
{
    if let Ok(m) = parse_spec(cfg, input) {
        let text = normalized_text(cfg, input);
        let f = fields_spec(cfg, text)->0;
        lemma_start_features();
        lemma_field_keeps_range(CronComponent::new_model(0, 59, NONE_BIT, 0), f[0]);
        lemma_field_keeps_range(CronComponent::new_model(0, 59, NONE_BIT, 0), f[1]);
        lemma_field_keeps_range(CronComponent::new_model(0, 23, NONE_BIT, 0), f[2]);
        lemma_field_keeps_range(
            CronComponent::new_model(1, 31, LAST_BIT | CLOSEST_WEEKDAY_BIT, 0),
            f[3],
        );
        lemma_field_keeps_range(CronComponent::new_model(1, 12, NONE_BIT, 0), f[4]);
        lemma_field_keeps_range(dow_base(cfg.alternative_weekdays), dow_text(f[5]));
        lemma_field_keeps_range(CronComponent::new_model(1, 5000, NONE_BIT, 0), f[6]);
        if let Some(d) = field_spec(dow_base(cfg.alternative_weekdays), dow_text(f[5])) {
            lemma_seven_to_zero_range(d);
        }
    }
}

// ---------------------------------------------------------------------------
// The parser.
// ---------------------------------------------------------------------------

impl CronParser {
    /// A parser with the default configuration: five fields, no seconds and
    /// no year, either day field may match, and 0 or 7 for Sunday.
    pub fn new() -> (p: CronParser)
        ensures
            p@ == default_config(),
    {
        CronParser::default()
    }

    /// A builder for a configured parser.
    pub fn builder() -> (b: CronParserBuilder)
        ensures
            b@ == (BuilderModel {
                seconds: None,
                dom_and_dow: None,
                alternative_weekdays: None,
                year: None,
                sloppy_ranges: None,
            }),
    {
        CronParserBuilder::default()
    }

    /// Parses pattern text.
    pub fn parse(&self, pattern: &str) -> (r: Result<Cron, CronError>)
        ensures
            match parse_spec(self@, pattern@) {
                Ok(m) => r matches Ok(c) && c.pattern@ == m,
                Err(k) => r matches Err(e) && k.describes(e),
            },
            parse_spec(self@, pattern@) matches Err(ParseFailure::FieldCount) ==> (r matches Err(
                CronError::InvalidPattern(m),
            ) && m@ == field_count_message(self@, normalized_text(self@, pattern@))),
    {
        let upper = to_uppercase(pattern);
        let upper_chars = chars_of(upper.as_str());
        let trimmed = trim(&upper_chars);
        if trimmed.len() == 0 {
            return Err(CronError::EmptyPattern);
        }
        let ghost cfg = self@;
        let named = if contains_char(&trimmed, '@') {
            let s = string_of(&trimmed);
            let n = Self::handle_nicknames(s.as_str(), self.seconds.is_required());
            chars_of(n.as_str())
        } else {
            trimmed
        };
        let with_days = Self::replace_alpha_weekdays(&named, self.alternative_weekdays);
        let text = Self::replace_alpha_months(&with_days);
        assert(text@ == normalized_text(cfg, pattern@));
        let fields = match self.split_fields(&text) {
            Ok(f) => f,
            Err(e) => {
                return Err(e);
            },
        };
        match Self::throw_at_illegal_characters(&fields) {
            Ok(()) => {},
            Err(e) => {
                return Err(e);
            },
        }
        self.build(&text, &fields)
    }

    /// The seven fields of normalized text, with `?` read as `*` in the day
    /// fields, or `None` where the number of fields does not fit.
    fn split_fields(&self, text: &Vec<char>) -> (r: Result<Vec<Vec<char>>, CronError>)
        ensures
            match fields_spec(self@, text@) {
                None => r matches Err(CronError::InvalidPattern(m)) && m@ == field_count_message(
                    self@,
                    text@,
                ),
                Some(f) => r matches Ok(v) && views(v@) == f,
            },
    {
        let words_v = split_whitespace(text);
        let n = words_v.len();
        let ghost w = words(text@);
        assert(views(words_v@) == w);
        let mut fields: Vec<Vec<char>> = Vec::new();
        if n < 5 || n > 7 {
            return Err(invalid_pattern("Pattern must have between 5 and 7 fields."));
        }
        if n == 5 {
            if self.seconds.is_required() {
                return Err(
                    invalid_pattern(
                        "Pattern must consist of six fields, seconds can not be omitted.",
                    ),
                );
            }
            if self.year.is_required() {
                return Err(
                    invalid_pattern(
                        "Pattern must consist of seven fields, the year can not be omitted.",
                    ),
                );
            }
            fields.push(single('0'));
        } else if n == 6 {
            if self.seconds.is_disallowed() {
                return Err(
                    invalid_pattern(
                        "Pattern must consist of five fields, seconds are not allowed by configuration.",
                    ),
                );
            }
            if self.year.is_required() {
                return Err(
                    invalid_pattern(
                        "Pattern must consist of seven fields, the year can not be omitted.",
                    ),
                );
            }
        } else {
            if self.year.is_disallowed() {
                return Err(
                    invalid_pattern(
                        "Pattern must consist of five or six fields, a year is not allowed by configuration.",
                    ),
                );
            }
        }
        let ghost start = views(fields@);
        let mut i: usize = 0;
        while i < n
            invariant
                i <= n,
                n == words_v@.len(),
                views(words_v@) == w,
                views(fields@) == start + w.take(i as int),
            decreases n - i,
        {
            let ghost before = fields@;
            fields.push(copy_chars(&words_v[i]));
            assert(views(fields@) =~= views(before).push(w[i as int]));
            assert(w.take(i as int + 1) =~= w.take(i as int).push(w[i as int]));
            i = i + 1;
        }
        assert(w.take(n as int) =~= w);
        if n < 7 {
            let ghost before = fields@;
            fields.push(single('*'));
            assert(views(fields@) =~= views(before).push(seq!['*']));
        }
        let ghost f7 = views(fields@);
        proof {
            assert(seven_fields(self@, text@) == Some(f7)) by {
                if n == 5 {
                    assert(start =~= seq![seq!['0']]);
                    assert(f7 =~= seq![seq!['0']] + w + seq![seq!['*']]);
                } else if n == 6 {
                    assert(start =~= Seq::<Seq<char>>::empty());
                    assert(f7 =~= w.push(seq!['*']));
                } else {
                    assert(start =~= Seq::<Seq<char>>::empty());
                    assert(f7 =~= w);
                }
            }
        }
        let dom = Self::question_to_star(&fields[3]);
        let dow = Self::question_to_star(&fields[5]);
        let ghost before = fields@;
        fields.set(3, dom);
        fields.set(5, dow);
        assert(views(fields@) =~= f7.update(3, question_spec(f7[3])).update(5, question_spec(f7[5])));
        Ok(fields)
    }

    /// A day field with `?` read as `*`.
    fn question_to_star(f: &Vec<char>) -> (r: Vec<char>)
        ensures
            r@ == question_spec(f@),
    {
        if contains_char(f, '?') {
            proof {
                reveal_strlit("?");
                reveal_strlit("*");
                assert("?"@ =~= seq!['?']);
                assert("*"@ =~= seq!['*']);
            }
            replace(f, "?", "*")
        } else {
            copy_chars(f)
        }
    }

    /// Checks that every field holds only the characters allowed in it.
    fn throw_at_illegal_characters(parts: &Vec<Vec<char>>) -> (r: Result<(), CronError>)
        ensures
            r is Ok <==> legal_fields(views(parts@)),
            r matches Err(e) ==> e is IllegalCharacters,
    {
        let ghost f = views(parts@);
        let mut i: usize = 0;
        while i < parts.len()
            invariant
                i <= parts@.len(),
                f == views(parts@),
                forall|a: int, b: int|
                    0 <= a < i && 0 <= b < f[a].len() ==> allowed_at(a, b, #[trigger] f[a][b]),
            decreases parts.len() - i,
        {
            let part = &parts[i];
            let mut j: usize = 0;
            while j < part.len()
                invariant
                    i < parts@.len(),
                    f == views(parts@),
                    part@ == f[i as int],
                    j <= part@.len(),
                    forall|a: int, b: int|
                        0 <= a < i && 0 <= b < f[a].len() ==> allowed_at(a, b, #[trigger] f[a][b]),
                    forall|b: int| 0 <= b < j ==> allowed_at(i as int, b, #[trigger] f[i as int][b]),
                decreases part.len() - j,
            {
                let ch = part[j];
                let allowed = ('0' <= ch && ch <= '9') || ch == '*' || ch == '/' || ch == ','
                    || ch == '-' || (i == 5 && (ch == '#' || ch == 'L' || ch == '?')) || (i == 3
                    && (ch == 'L' || ch == 'W' || ch == '?')) || (i == 5 && j == 0 && ch == '+');
                if !allowed {
                    assert(!allowed_at(i as int, j as int, f[i as int][j as int]));
                    return Err(illegal_character_error(ch, part));
                }
                j = j + 1;
            }
            i = i + 1;
        }
        Ok(())
    }

    /// Replaces a nickname such as `@daily` by its pattern, with a leading
    /// second where seconds are required; other text is only trimmed.
    pub fn handle_nicknames(pattern: &str, with_seconds_required: bool) -> (r: String)
        ensures
            r@ == nickname_spec(pattern@, with_seconds_required),
    {
        let p = chars_of(pattern);
        let t = trim(&p);
        let mut out: Vec<char> = Vec::new();
        if with_seconds_required {
            push_str(&mut out, "0 ");
        }
        if eq_ignore_ascii_case(&t, "@yearly") || eq_ignore_ascii_case(&t, "@annually") {
            push_str(&mut out, "0 0 1 1 *");
        } else if eq_ignore_ascii_case(&t, "@monthly") {
            push_str(&mut out, "0 0 1 * *");
        } else if eq_ignore_ascii_case(&t, "@weekly") {
            push_str(&mut out, "0 0 * * 0");
        } else if eq_ignore_ascii_case(&t, "@daily") {
            push_str(&mut out, "0 0 * * *");
        } else if eq_ignore_ascii_case(&t, "@hourly") {
            push_str(&mut out, "0 * * * *");
        } else {
            push_chars(&mut out, &t);
        }
        proof {
            if !with_seconds_required {
                assert(out@ =~= nickname_spec(pattern@, with_seconds_required));
            }
        }
        string_of(&out)
    }

    /// Replaces weekday names by their numbers.
    fn replace_alpha_weekdays(pattern: &Vec<char>, alternative_weekdays: bool) -> (r: Vec<char>)
        ensures
            r@ == weekday_names_spec(pattern@, alternative_weekdays),
    {
        proof {
            reveal_strlit("-SUN");
            reveal_strlit("SUN");
            reveal_strlit("MON");
            reveal_strlit("TUE");
            reveal_strlit("WED");
            reveal_strlit("THU");
            reveal_strlit("FRI");
            reveal_strlit("SAT");
        }
        if !alternative_weekdays {
            let r = replace(pattern, "-SUN", "-7");
            let r = replace(&r, "SUN", "0");
            let r = replace(&r, "MON", "1");
            let r = replace(&r, "TUE", "2");
            let r = replace(&r, "WED", "3");
            let r = replace(&r, "THU", "4");
            let r = replace(&r, "FRI", "5");
            replace(&r, "SAT", "6")
        } else {
            let r = replace(pattern, "-SUN", "-1");
            let r = replace(&r, "SUN", "1");
            let r = replace(&r, "MON", "2");
            let r = replace(&r, "TUE", "3");
            let r = replace(&r, "WED", "4");
            let r = replace(&r, "THU", "5");
            let r = replace(&r, "FRI", "6");
            replace(&r, "SAT", "7")
        }
    }

    /// Replaces month names by their numbers.
    fn replace_alpha_months(pattern: &Vec<char>) -> (r: Vec<char>)
        ensures
            r@ == month_names_spec(pattern@),
    {
        proof {
            reveal_strlit("JAN");
            reveal_strlit("FEB");
            reveal_strlit("MAR");
            reveal_strlit("APR");
            reveal_strlit("MAY");
            reveal_strlit("JUN");
            reveal_strlit("JUL");
            reveal_strlit("AUG");
            reveal_strlit("SEP");
            reveal_strlit("OCT");
            reveal_strlit("NOV");
            reveal_strlit("DEC");
        }
        let r = replace(pattern, "JAN", "1");
        let r = replace(&r, "FEB", "2");
        let r = replace(&r, "MAR", "3");
        let r = replace(&r, "APR", "4");
        let r = replace(&r, "MAY", "5");
        let r = replace(&r, "JUN", "6");
        let r = replace(&r, "JUL", "7");
        let r = replace(&r, "AUG", "8");
        let r = replace(&r, "SEP", "9");
        let r = replace(&r, "OCT", "10");
        let r = replace(&r, "NOV", "11");
        replace(&r, "DEC", "12")
    }

    /// Whether no part of a field steps from a single start value.
    fn steps_are_strict(field: &Vec<char>) -> (b: bool)
        ensures
            b == strict_steps(field@),
    {
        let parts = split_char(field, ',');
        let ghost all = split_spec(field@, ',');
        let mut i: usize = 0;
        while i < parts.len()
            invariant
                i <= parts@.len(),
                views(parts@) == all,
                all == split_spec(field@, ','),
                forall|k: int| 0 <= k < i ==> !start_only_step(#[trigger] all[k]),
            decreases parts.len() - i,
        {
            let part = &parts[i];
            assert(views(parts@).len() == parts@.len());
            assert(views(parts@)[i as int] == parts@[i as int]@);
            assert(part@ == all[i as int]);
            if contains_char(part, '/') {
                let head = prefix_before(part, '/');
                proof {
                    reveal_strlit("*");
                    assert("*"@ =~= seq!['*']);
                }
                if !crate::text::equals(&head, "*") && !contains_char(&head, '-') {
                    assert(start_only_step(split_spec(field@, ',')[i as int]));
                    assert(!strict_steps(field@));
                    return false;
                }
            }
            i = i + 1;
        }
        true
    }

    /// Parses one field into a fresh component.
    fn parse_field(&self, field: &Vec<char>, min: u16, max: u16, features: u8, offset: u16) -> (r:
        Result<CronComponent, CronError>)
        requires
            max + offset <= 65535,
        ensures
            match field_in(self@, CronComponent::new_model(min, max, features, offset), field@) {
                Some(m) => r matches Ok(c) && c@ == m,
                None => r matches Err(e) && e is ComponentError,
            },
    {
        if !self.sloppy_ranges && !Self::steps_are_strict(field) {
            return Err(
                CronError::ComponentError(
                    String::from_str(
                        "A step must follow * or a range; enable sloppy ranges to step from a single value.",
                    ),
                ),
            );
        }
        let mut c = CronComponent::new(min, max, features, offset);
        let s = string_of(field);
        match c.parse(s.as_str()) {
            Ok(()) => Ok(c),
            Err(e) => Err(e),
        }
    }

    /// Moves the bits of 7 to 0 in the day-of-week component.
    fn seven_to_zero(dow: &mut CronComponent) -> (r: Result<(), CronError>)
        ensures
            match seven_to_zero(old(dow)@) {
                Some(m) => r is Ok && final(dow)@ == m,
                None => r matches Err(e) && e is ComponentError,
            },
    {
        let ghost m0 = old(dow)@;
        match Self::move_bit(dow, ALL_BIT) {
            Ok(()) => {},
            Err(e) => {
                return Err(e);
            },
        }
        match Self::move_bit(dow, NTH_1ST_BIT) {
            Ok(()) => {},
            Err(e) => {
                return Err(e);
            },
        }
        match Self::move_bit(dow, NTH_2ND_BIT) {
            Ok(()) => {},
            Err(e) => {
                return Err(e);
            },
        }
        match Self::move_bit(dow, NTH_3RD_BIT) {
            Ok(()) => {},
            Err(e) => {
                return Err(e);
            },
        }
        match Self::move_bit(dow, NTH_4TH_BIT) {
            Ok(()) => {},
            Err(e) => {
                return Err(e);
            },
        }
        Self::move_bit(dow, NTH_5TH_BIT)
    }

    /// Moves one bit of 7 to 0.
    fn move_bit(dow: &mut CronComponent, bit: u8) -> (r: Result<(), CronError>)
        ensures
            match move_bit(old(dow)@, bit) {
                Some(m) => r is Ok && final(dow)@ == m,
                None => r matches Err(e) && e is ComponentError,
            },
    {
        let set = match dow.is_bit_set(7, bit) {
            Ok(b) => b,
            Err(e) => {
                return Err(e);
            },
        };
        if set {
            match dow.unset_bit(7, bit) {
                Ok(()) => {},
                Err(e) => {
                    return Err(e);
                },
            }
            dow.set_bit(0, bit)
        } else {
            Ok(())
        }
    }

    /// Parses the seven fields into a pattern.
    fn build(&self, text: &Vec<char>, fields: &Vec<Vec<char>>) -> (r: Result<Cron, CronError>)
        requires
            fields@.len() == 7,
        ensures
            match build_spec(self@, text@, views(fields@)) {
                Ok(m) => r matches Ok(c) && c.pattern@ == m,
                Err(k) => r matches Err(e) && k.describes(e),
            },
    {
        let ghost f = views(fields@);
        assert(f[0] == fields@[0]@ && f[1] == fields@[1]@ && f[2] == fields@[2]@);
        assert(f[3] == fields@[3]@ && f[4] == fields@[4]@ && f[5] == fields@[5]@);
        assert(f[6] == fields@[6]@);
        let seconds = match self.parse_field(&fields[0], 0, 59, NONE_BIT, 0) {
            Ok(c) => c,
            Err(e) => {
                return Err(e);
            },
        };
        let minutes = match self.parse_field(&fields[1], 0, 59, NONE_BIT, 0) {
            Ok(c) => c,
            Err(e) => {
                return Err(e);
            },
        };
        let hours = match self.parse_field(&fields[2], 0, 23, NONE_BIT, 0) {
            Ok(c) => c,
            Err(e) => {
                return Err(e);
            },
        };
        let days = match self.parse_field(
            &fields[3],
            1,
            31,
            LAST_BIT | CLOSEST_WEEKDAY_BIT,
            0,
        ) {
            Ok(c) => c,
            Err(e) => {
                return Err(e);
            },
        };
        let months = match self.parse_field(&fields[4], 1, 12, NONE_BIT, 0) {
            Ok(c) => c,
            Err(e) => {
                return Err(e);
            },
        };
        let offset: u16 = if self.alternative_weekdays {
            1
        } else {
            0
        };
        let marked = fields[5].len() > 0 && fields[5][0] == '+';
        let dow_field = if marked {
            slice_chars(&fields[5], 1, fields[5].len())
        } else {
            copy_chars(&fields[5])
        };
        assert(dow_field@ =~= dow_text(f[5]));
        let mut days_of_week = match self.parse_field(&dow_field, 0, 7, LAST_BIT | NTH_ALL, offset) {
            Ok(c) => c,
            Err(e) => {
                return Err(e);
            },
        };
        let years = match self.parse_field(&fields[6], 1, 5000, NONE_BIT, 0) {
            Ok(c) => c,
            Err(e) => {
                return Err(e);
            },
        };
        if !self.alternative_weekdays {
            match Self::seven_to_zero(&mut days_of_week) {
                Ok(()) => {},
                Err(e) => {
                    return Err(e);
                },
            }
        }
        proof {
            reveal_strlit("*");
            assert("*"@ =~= seq!['*']);
        }
        let star_dom = crate::text::equals(&fields[3], "*");
        let star_dow = crate::text::equals(&dow_field, "*");
        let s = string_of(text);
        Ok(
            Cron {
                pattern: CronPattern {
                    seconds,
                    minutes,
                    hours,
                    days,
                    months,
                    days_of_week,
                    years,
                    star_dom,
                    star_dow,
                    dom_and_dow: self.dom_and_dow || marked,
                    pattern: PatternText::new(s.as_str()),
                },
            },
        )
    }
}

/// A one-character field.
fn single(c: char) -> (v: Vec<char>)
    ensures
        v@ == seq![c],
{
    let mut v: Vec<char> = Vec::new();
    v.push(c);
    v
}

/// An invalid pattern error with a fixed message.
fn invalid_pattern(msg: &str) -> (e: CronError)
    ensures
        e matches CronError::InvalidPattern(m) && m@ == msg@,
{
    CronError::InvalidPattern(String::from_str(msg))
}

/// The error for a character not allowed in its field.
fn illegal_character_error(ch: char, part: &Vec<char>) -> (e: CronError)
    ensures
        e is IllegalCharacters,
{
    let mut m: Vec<char> = Vec::new();
    push_str(&mut m, "CronPattern contains illegal character '");
    m.push(ch);
    push_str(&mut m, "' in part '");
    push_chars(&mut m, part);
    push_str(&mut m, "'");
    CronError::IllegalCharacters(string_of(&m))
}

} // verus!
