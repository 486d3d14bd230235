//! The Swedish wording of descriptions.
use vstd::prelude::*;

use crate::describe::{phrase3, phrase4, phrase5, phrase_num, Language};
use crate::text::{decimal, push_decimal, push_str, string_of};

verus! {

/// Descriptions in Swedish.
#[derive(Debug, Default, Clone, Copy)]
pub struct Swedish;

impl Language for Swedish {
    open spec fn every_minute_text(&self) -> Seq<char> {
        "Varje minut"@
    }

    fn every_minute(&self) -> (r: &'static str) {
        "Varje minut"
    }

    open spec fn every_second_phrase_text(&self) -> Seq<char> {
        "Varje sekund"@
    }

    fn every_second_phrase(&self) -> (r: &'static str) {
        "Varje sekund"
    }

    open spec fn the_last_day_of_the_month_text(&self) -> Seq<char> {
        "sista dagen i månaden"@
    }

    fn the_last_day_of_the_month(&self) -> (r: &'static str) {
        "sista dagen i månaden"
    }

    open spec fn list_conjunction_and_text(&self) -> Seq<char> {
        " och "@
    }

    fn list_conjunction_and(&self) -> (r: &'static str) {
        " och "
    }

    open spec fn list_conjunction_or_text(&self) -> Seq<char> {
        " eller "@
    }

    fn list_conjunction_or(&self) -> (r: &'static str) {
        " eller "
    }

    open spec fn list_conjunction_and_comma_text(&self) -> Seq<char> {
        " och "@
    }

    fn list_conjunction_and_comma(&self) -> (r: &'static str) {
        " och "
    }

    open spec fn every_x_minutes_text(&self, step: u16) -> Seq<char> {
        "var "@ + decimal(step as nat) + ":e minut"@
    }

    fn every_x_minutes(&self, step: u16) -> (r: String) {
        phrase_num("var ", step, ":e minut")
    }

    open spec fn every_x_seconds_text(&self, step: u16) -> Seq<char> {
        "var "@ + decimal(step as nat) + ":e sekund"@
    }

    fn every_x_seconds(&self, step: u16) -> (r: String) {
        phrase_num("var ", step, ":e sekund")
    }

    open spec fn every_x_hours_text(&self, step: u16) -> Seq<char> {
        "var "@ + decimal(step as nat) + ":e timme"@
    }

    fn every_x_hours(&self, step: u16) -> (r: String) {
        phrase_num("var ", step, ":e timme")
    }

    open spec fn every_minute_of_every_x_hours_text(&self, step: u16) -> Seq<char> {
        "Varje minut, var "@ + decimal(step as nat) + ":e timme"@
    }

    fn every_minute_of_every_x_hours(&self, step: u16) -> (r: String) {
        phrase_num("Varje minut, var ", step, ":e timme")
    }

    open spec fn at_time_text(&self, time: Seq<char>) -> Seq<char> {
        "Klockan "@ + time + ""@
    }

    fn at_time(&self, time: &str) -> (r: String) {
        phrase3("Klockan ", time, "")
    }

    open spec fn at_phrase_text(&self, phrase: Seq<char>) -> Seq<char> {
        "Vid "@ + phrase + ""@
    }

    fn at_phrase(&self, phrase: &str) -> (r: String) {
        phrase3("Vid ", phrase, "")
    }

    open spec fn on_phrase_text(&self, phrase: Seq<char>) -> Seq<char> {
        "på "@ + phrase + ""@
    }

    fn on_phrase(&self, phrase: &str) -> (r: String) {
        phrase3("på ", phrase, "")
    }

    open spec fn in_phrase_text(&self, phrase: Seq<char>) -> Seq<char> {
        "i "@ + phrase + ""@
    }

    fn in_phrase(&self, phrase: &str) -> (r: String) {
        phrase3("i ", phrase, "")
    }

    open spec fn second_phrase_text(&self, s: Seq<char>) -> Seq<char> {
        "sekund "@ + s + ""@
    }

    fn second_phrase(&self, s: &str) -> (r: String) {
        phrase3("sekund ", s, "")
    }

    open spec fn minute_phrase_text(&self, s: Seq<char>) -> Seq<char> {
        "minut "@ + s + ""@
    }

    fn minute_phrase(&self, s: &str) -> (r: String) {
        phrase3("minut ", s, "")
    }

    open spec fn minute_past_every_hour_phrase_text(&self, s: Seq<char>) -> Seq<char> {
        ""@ + s + " över varje heltimme"@
    }

    fn minute_past_every_hour_phrase(&self, s: &str) -> (r: String) {
        phrase3("", s, " över varje heltimme")
    }

    open spec fn hour_phrase_text(&self, s: Seq<char>) -> Seq<char> {
        "timme "@ + s + ""@
    }

    fn hour_phrase(&self, s: &str) -> (r: String) {
        phrase3("timme ", s, "")
    }

    open spec fn year_phrase_text(&self, s: Seq<char>) -> Seq<char> {
        "år "@ + s + ""@
    }

    fn year_phrase(&self, s: &str) -> (r: String) {
        phrase3("år ", s, "")
    }

    open spec fn day_phrase_text(&self, s: Seq<char>) -> Seq<char> {
        "dag "@ + s + ""@
    }

    fn day_phrase(&self, s: &str) -> (r: String) {
        phrase3("dag ", s, "")
    }

    open spec fn the_weekday_nearest_day_text(&self, day: Seq<char>) -> Seq<char> {
        "veckodagen närmast dag "@ + day + ""@
    }

    fn the_weekday_nearest_day(&self, day: &str) -> (r: String) {
        phrase3("veckodagen närmast dag ", day, "")
    }

    open spec fn the_last_weekday_of_the_month_text(&self, day: Seq<char>) -> Seq<char> {
        "sista "@ + day + " i månaden"@
    }

    fn the_last_weekday_of_the_month(&self, day: &str) -> (r: String) {
        phrase3("sista ", day, " i månaden")
    }

    open spec fn dom_and_dow_if_also_text(&self, dow: Seq<char>) -> Seq<char> {
        "(om det också är "@ + dow + ")"@
    }

    fn dom_and_dow_if_also(&self, dow: &str) -> (r: String) {
        phrase3("(om det också är ", dow, ")")
    }

    open spec fn dom_and_dow_if_also_one_of_text(&self, dow: Seq<char>) -> Seq<char> {
        "(om det också är en av: "@ + dow + ")"@
    }

    fn dom_and_dow_if_also_one_of(&self, dow: &str) -> (r: String) {
        phrase3("(om det också är en av: ", dow, ")")
    }

    open spec fn at_time_and_every_x_seconds_text(&self, time: Seq<char>, step: u16) -> Seq<char> {
        "Klockan "@ + time + ", var "@ + decimal(step as nat) + ":e sekund"@
    }

    fn at_time_and_every_x_seconds(&self, time: &str, step: u16) -> (r: String) {
        phrase5("Klockan ", time, ", var ", step, ":e sekund")
    }

    open spec fn at_time_at_second_text(&self, time: Seq<char>, second: Seq<char>) -> Seq<char> {
        "Klockan "@ + time + ", på sekund "@ + second
    }

    fn at_time_at_second(&self, time: &str, second: &str) -> (r: String) {
        phrase4("Klockan ", time, ", på sekund ", second)
    }

    open spec fn the_nth_weekday_of_the_month_text(&self, n: u8, day: Seq<char>) -> Seq<char> {
        let ordinal = if n == 1 {
            "första"@
        } else if n == 2 {
            "andra"@
        } else if n == 3 {
            "tredje"@
        } else if n == 4 {
            "fjärde"@
        } else if n == 5 {
            "femte"@
        } else {
            ""@
        };
        "den "@ + ordinal + " "@ + day + " i månaden"@
    }

    fn the_nth_weekday_of_the_month(&self, n: u8, day: &str) -> (r: String) {
        let ordinal = if n == 1 {
            "första"
        } else if n == 2 {
            "andra"
        } else if n == 3 {
            "tredje"
        } else if n == 4 {
            "fjärde"
        } else if n == 5 {
            "femte"
        } else {
            ""
        };
        let mut v: Vec<char> = Vec::new();
        push_str(&mut v, "den ");
        push_str(&mut v, ordinal);
        push_str(&mut v, " ");
        push_str(&mut v, day);
        push_str(&mut v, " i månaden");
        proof {
            assert(v@ =~= "den "@ + ordinal@ + " "@ + day@ + " i månaden"@);
        }
        string_of(&v)
    }

    open spec fn day_names(&self) -> Seq<Seq<char>> {
        seq!["söndag"@, "måndag"@, "tisdag"@, "onsdag"@, "torsdag"@, "fredag"@, "lördag"@]
    }

    fn day_of_week_names(&self) -> (r: [&'static str; 7]) {
        ["söndag", "måndag", "tisdag", "onsdag", "torsdag", "fredag", "lördag"]
    }

    open spec fn month_name_texts(&self) -> Seq<Seq<char>> {
        seq!["januari"@, "februari"@, "mars"@, "april"@, "maj"@, "juni"@, "juli"@, "augusti"@, "september"@, "oktober"@, "november"@, "december"@]
    }

    fn month_names(&self) -> (r: [&'static str; 12]) {
        ["januari", "februari", "mars", "april", "maj", "juni", "juli", "augusti", "september", "oktober", "november", "december"]
    }
}

} // verus!
