//! The English wording of descriptions.
use vstd::prelude::*;

use crate::describe::{phrase3, phrase4, phrase5, phrase_num, Language};
use crate::text::{decimal, push_decimal, push_str, string_of};

verus! {

/// Descriptions in English.
#[derive(Debug, Default, Clone, Copy)]
pub struct English;

impl Language for English {
    open spec fn every_minute_text(&self) -> Seq<char> {
        "Every minute"@
    }

    fn every_minute(&self) -> (r: &'static str) {
        "Every minute"
    }

    open spec fn every_second_phrase_text(&self) -> Seq<char> {
        "Every second"@
    }

    fn every_second_phrase(&self) -> (r: &'static str) {
        "Every second"
    }

    open spec fn the_last_day_of_the_month_text(&self) -> Seq<char> {
        "the last day of the month"@
    }

    fn the_last_day_of_the_month(&self) -> (r: &'static str) {
        "the last day of the month"
    }

    open spec fn list_conjunction_and_text(&self) -> Seq<char> {
        "and"@
    }

    fn list_conjunction_and(&self) -> (r: &'static str) {
        "and"
    }

    open spec fn list_conjunction_or_text(&self) -> Seq<char> {
        "or"@
    }

    fn list_conjunction_or(&self) -> (r: &'static str) {
        "or"
    }

    open spec fn list_conjunction_and_comma_text(&self) -> Seq<char> {
        ", and"@
    }

    fn list_conjunction_and_comma(&self) -> (r: &'static str) {
        ", and"
    }

    open spec fn every_x_minutes_text(&self, step: u16) -> Seq<char> {
        "every "@ + decimal(step as nat) + " minutes"@
    }

    fn every_x_minutes(&self, step: u16) -> (r: String) {
        phrase_num("every ", step, " minutes")
    }

    open spec fn every_x_seconds_text(&self, step: u16) -> Seq<char> {
        "every "@ + decimal(step as nat) + " seconds"@
    }

    fn every_x_seconds(&self, step: u16) -> (r: String) {
        phrase_num("every ", step, " seconds")
    }

    open spec fn every_x_hours_text(&self, step: u16) -> Seq<char> {
        "of every "@ + decimal(step as nat) + " hours"@
    }

    fn every_x_hours(&self, step: u16) -> (r: String) {
        phrase_num("of every ", step, " hours")
    }

    open spec fn every_minute_of_every_x_hours_text(&self, step: u16) -> Seq<char> {
        "Every minute, of every "@ + decimal(step as nat) + " hours"@
    }

    fn every_minute_of_every_x_hours(&self, step: u16) -> (r: String) {
        phrase_num("Every minute, of every ", step, " hours")
    }

    open spec fn at_time_text(&self, time: Seq<char>) -> Seq<char> {
        "At "@ + time + ""@
    }

    fn at_time(&self, time: &str) -> (r: String) {
        phrase3("At ", time, "")
    }

    open spec fn at_phrase_text(&self, phrase: Seq<char>) -> Seq<char> {
        "At "@ + phrase + ""@
    }

    fn at_phrase(&self, phrase: &str) -> (r: String) {
        phrase3("At ", phrase, "")
    }

    open spec fn on_phrase_text(&self, phrase: Seq<char>) -> Seq<char> {
        "on "@ + phrase + ""@
    }

    fn on_phrase(&self, phrase: &str) -> (r: String) {
        phrase3("on ", phrase, "")
    }

    open spec fn in_phrase_text(&self, phrase: Seq<char>) -> Seq<char> {
        "in "@ + phrase + ""@
    }

    fn in_phrase(&self, phrase: &str) -> (r: String) {
        phrase3("in ", phrase, "")
    }

    open spec fn second_phrase_text(&self, s: Seq<char>) -> Seq<char> {
        "second "@ + s + ""@
    }

    fn second_phrase(&self, s: &str) -> (r: String) {
        phrase3("second ", s, "")
    }

    open spec fn minute_phrase_text(&self, s: Seq<char>) -> Seq<char> {
        "minute "@ + s + ""@
    }

    fn minute_phrase(&self, s: &str) -> (r: String) {
        phrase3("minute ", s, "")
    }

    open spec fn minute_past_every_hour_phrase_text(&self, s: Seq<char>) -> Seq<char> {
        ""@ + s + " past every hour"@
    }

    fn minute_past_every_hour_phrase(&self, s: &str) -> (r: String) {
        phrase3("", s, " past every hour")
    }

    open spec fn hour_phrase_text(&self, s: Seq<char>) -> Seq<char> {
        "of hour "@ + s + ""@
    }

    fn hour_phrase(&self, s: &str) -> (r: String) {
        phrase3("of hour ", s, "")
    }

    open spec fn year_phrase_text(&self, s: Seq<char>) -> Seq<char> {
        "year "@ + s + ""@
    }

    fn year_phrase(&self, s: &str) -> (r: String) {
        phrase3("year ", s, "")
    }

    open spec fn day_phrase_text(&self, s: Seq<char>) -> Seq<char> {
        "day "@ + s + ""@
    }

    fn day_phrase(&self, s: &str) -> (r: String) {
        phrase3("day ", s, "")
    }

    open spec fn the_weekday_nearest_day_text(&self, day: Seq<char>) -> Seq<char> {
        "the weekday nearest day "@ + day + ""@
    }

    fn the_weekday_nearest_day(&self, day: &str) -> (r: String) {
        phrase3("the weekday nearest day ", day, "")
    }

    open spec fn the_last_weekday_of_the_month_text(&self, day: Seq<char>) -> Seq<char> {
        "the last "@ + day + " of the month"@
    }

    fn the_last_weekday_of_the_month(&self, day: &str) -> (r: String) {
        phrase3("the last ", day, " of the month")
    }

    open spec fn dom_and_dow_if_also_text(&self, dow: Seq<char>) -> Seq<char> {
        "(if it is also "@ + dow + ")"@
    }

    fn dom_and_dow_if_also(&self, dow: &str) -> (r: String) {
        phrase3("(if it is also ", dow, ")")
    }

    open spec fn dom_and_dow_if_also_one_of_text(&self, dow: Seq<char>) -> Seq<char> {
        "(if it is also one of: "@ + dow + ")"@
    }

    fn dom_and_dow_if_also_one_of(&self, dow: &str) -> (r: String) {
        phrase3("(if it is also one of: ", dow, ")")
    }

    open spec fn at_time_and_every_x_seconds_text(&self, time: Seq<char>, step: u16) -> Seq<char> {
        "At "@ + time + ", every "@ + decimal(step as nat) + " seconds"@
    }

    fn at_time_and_every_x_seconds(&self, time: &str, step: u16) -> (r: String) {
        phrase5("At ", time, ", every ", step, " seconds")
    }

    open spec fn at_time_at_second_text(&self, time: Seq<char>, second: Seq<char>) -> Seq<char> {
        "At "@ + time + ", at second "@ + second
    }

    fn at_time_at_second(&self, time: &str, second: &str) -> (r: String) {
        phrase4("At ", time, ", at second ", second)
    }

    open spec fn the_nth_weekday_of_the_month_text(&self, n: u8, day: Seq<char>) -> Seq<char> {
        let suffix = if n == 1 {
            "st"@
        } else if n == 2 {
            "nd"@
        } else if n == 3 {
            "rd"@
        } else {
            "th"@
        };
        "the "@ + decimal(n as nat) + suffix + " "@ + day + " of the month"@
    }

    fn the_nth_weekday_of_the_month(&self, n: u8, day: &str) -> (r: String) {
        let suffix = if n == 1 {
            "st"
        } else if n == 2 {
            "nd"
        } else if n == 3 {
            "rd"
        } else {
            "th"
        };
        let mut v: Vec<char> = Vec::new();
        push_str(&mut v, "the ");
        push_decimal(&mut v, n as u64);
        push_str(&mut v, suffix);
        push_str(&mut v, " ");
        push_str(&mut v, day);
        push_str(&mut v, " of the month");
        proof {
            assert(v@ =~= "the "@ + decimal(n as nat) + suffix@ + " "@ + day@ + " of the month"@);
        }
        string_of(&v)
    }

    open spec fn day_names(&self) -> Seq<Seq<char>> {
        seq!["Sunday"@, "Monday"@, "Tuesday"@, "Wednesday"@, "Thursday"@, "Friday"@, "Saturday"@]
    }

    fn day_of_week_names(&self) -> (r: [&'static str; 7]) {
        ["Sunday", "Monday", "Tuesday", "Wednesday", "Thursday", "Friday", "Saturday"]
    }

    open spec fn month_name_texts(&self) -> Seq<Seq<char>> {
        seq!["January"@, "February"@, "March"@, "April"@, "May"@, "June"@, "July"@, "August"@, "September"@, "October"@, "November"@, "December"@]
    }

    fn month_names(&self) -> (r: [&'static str; 12]) {
        ["January", "February", "March", "April", "May", "June", "July", "August", "September", "October", "November", "December"]
    }
}

} // verus!
