//! Text as sequences of characters: the few operations the parser needs,
//! each with the meaning it has in the standard library.
use vstd::prelude::*;

verus! {

// ---------------------------------------------------------------------------
// What the standard library decides about single characters and strings.
// ---------------------------------------------------------------------------

/// The Unicode `White_Space` property of a character.
pub uninterp spec fn white_space(c: char) -> bool;

/// The members of `White_Space` among the ASCII characters.
pub open spec fn ascii_white_space(c: char) -> bool {
    c == ' ' || c == '\t' || c == '\n' || c == '\x0B' || c == '\x0C' || c == '\r'
}

/// Whether a character is whitespace in the sense of `char::is_whitespace`.
///
/// Trusted: calls `char::is_whitespace`, whose documentation defines it as the
/// Unicode `White_Space` property; among ASCII characters that property holds
/// exactly for tab, line feed, vertical tab, form feed, carriage return and
/// space. Which non-ASCII characters have it is left to the name.
#[verifier::external_body]
pub(crate) fn is_whitespace(c: char) -> (b: bool)
    ensures
        b == white_space(c),
        (c as u32) < 128 ==> (b <==> ascii_white_space(c)),
{
    c.is_whitespace()
}

/// The Unicode upper case of a string, as `str::to_uppercase` returns it.
pub uninterp spec fn uppercase(s: Seq<char>) -> Seq<char>;

/// The ASCII upper case of a character; other characters are kept.
pub open spec fn ascii_upper(c: char) -> char {
    if 'a' <= c && c <= 'z' {
        ((c as u32) - 32) as char
    } else {
        c
    }
}

/// Whether every character of a sequence is ASCII.
pub open spec fn all_ascii(s: Seq<char>) -> bool {
    forall|i: int| 0 <= i < s.len() ==> (s[i] as u32) < 128
}

/// Upper-cases a string.
///
/// Trusted: calls `str::to_uppercase`, a function of the string alone. For an
/// ASCII string, Unicode upper case maps `a` to `z` onto `A` to `Z` and keeps
/// every other character, so the result is stated there; for other strings
/// only its name is stated.
#[verifier::external_body]
pub(crate) fn to_uppercase(s: &str) -> (r: String)
    ensures
        r@ == uppercase(s@),
        all_ascii(s@) ==> r@ == s@.map_values(|c: char| ascii_upper(c)),
{
    s.to_uppercase()
}

/// Appends a character to a string.
///
/// Trusted: calls `String::push`, which adds the character at the end.
#[verifier::external_body]
pub(crate) fn push_char(s: &mut String, c: char)
    ensures
        final(s)@ == old(s)@.push(c),
{
    s.push(c);
}

// ---------------------------------------------------------------------------
// Conversions.
// ---------------------------------------------------------------------------

/// The characters of a string slice.
pub fn chars_of(s: &str) -> (v: Vec<char>)
    ensures
        v@ == s@,
{
    let n = s.unicode_len();
    let mut v: Vec<char> = Vec::new();
    let mut i: usize = 0;
    while i < n
        invariant
            n == s@.len(),
            i <= n,
            v@ == s@.take(i as int),
        decreases n - i,
    {
        v.push(s.get_char(i));
        i = i + 1;
        assert(v@ =~= s@.take(i as int));
    }
    assert(v@ =~= s@);
    v
}

/// A string holding the given characters.
pub fn string_of(v: &Vec<char>) -> (s: String)
    ensures
        s@ == v@,
{
    let mut s = String::new();
    let mut i: usize = 0;
    while i < v.len()
        invariant
            i <= v.len(),
            s@ == v@.take(i as int),
        decreases v.len() - i,
    {
        push_char(&mut s, v[i]);
        i = i + 1;
        assert(s@ =~= v@.take(i as int));
    }
    assert(v@ =~= v@.take(v@.len() as int));
    s
}

/// A copy of a vector of characters.
pub fn copy_chars(v: &Vec<char>) -> (r: Vec<char>)
    ensures
        r@ == v@,
{
    let mut r: Vec<char> = Vec::new();
    let mut i: usize = 0;
    while i < v.len()
        invariant
            i <= v.len(),
            r@ == v@.take(i as int),
        decreases v.len() - i,
    {
        r.push(v[i]);
        i = i + 1;
        assert(r@ =~= v@.take(i as int));
    }
    assert(v@ =~= v@.take(v@.len() as int));
    r
}

// ---------------------------------------------------------------------------
// Searching.
// ---------------------------------------------------------------------------

/// Whether a sequence holds a character.
pub fn contains_char(v: &Vec<char>, c: char) -> (b: bool)
    ensures
        b == v@.contains(c),
{
    let mut i: usize = 0;
    while i < v.len()
        invariant
            i <= v.len(),
            forall|j: int| 0 <= j < i ==> v@[j] != c,
        decreases v.len() - i,
    {
        if v[i] == c {
            return true;
        }
        i = i + 1;
    }
    false
}

/// Finds the first occurrence of a character.
pub fn find_char(v: &Vec<char>, c: char) -> (r: Option<usize>)
    ensures
        r matches Some(i) ==> i < v@.len() && v@[i as int] == c && forall|j: int| 0 <= j < i ==> v@[j] != c,
        r is None ==> !v@.contains(c),
{
    let mut i: usize = 0;
    while i < v.len()
        invariant
            i <= v.len(),
            forall|j: int| 0 <= j < i ==> v@[j] != c,
        decreases v.len() - i,
    {
        if v[i] == c {
            return Some(i);
        }
        i = i + 1;
    }
    None
}

/// Whether a sequence is exactly a given sequence.
pub fn equals(v: &Vec<char>, s: &str) -> (b: bool)
    ensures
        b == (v@ == s@),
{
    let n = s.unicode_len();
    if v.len() != n {
        return false;
    }
    let mut i: usize = 0;
    while i < n
        invariant
            n == s@.len(),
            n == v@.len(),
            i <= n,
            forall|j: int| 0 <= j < i ==> v@[j] == s@[j],
        decreases n - i,
    {
        if v[i] != s.get_char(i) {
            return false;
        }
        i = i + 1;
    }
    assert(v@ =~= s@);
    true
}

// ---------------------------------------------------------------------------
// Splitting.
// ---------------------------------------------------------------------------

/// The pieces of a sequence between the occurrences of a separator, as
/// `str::split` yields them. There is always at least one piece.
pub open spec fn split_spec(s: Seq<char>, sep: char) -> Seq<Seq<char>>
    decreases s.len(),
{
    if s.len() == 0 {
        seq![Seq::<char>::empty()]
    } else {
        let init = split_spec(s.drop_last(), sep);
        if s.last() == sep {
            init.push(Seq::<char>::empty())
        } else {
            init.update(init.len() - 1, init.last().push(s.last()))
        }
    }
}

/// A split always has a piece.
pub proof fn lemma_split_nonempty(s: Seq<char>, sep: char)
    ensures
        split_spec(s, sep).len() >= 1,
    decreases s.len(),
{
    if s.len() > 0 {
        lemma_split_nonempty(s.drop_last(), sep);
    }
}

/// The views of a vector of character vectors.
pub open spec fn views(v: Seq<Vec<char>>) -> Seq<Seq<char>> {
    v.map_values(|p: Vec<char>| p@)
}

/// Splits a sequence at every occurrence of a separator.
pub fn split_char(v: &Vec<char>, sep: char) -> (r: Vec<Vec<char>>)
    ensures
        views(r@) == split_spec(v@, sep),
{
    let mut pieces: Vec<Vec<char>> = Vec::new();
    let mut cur: Vec<char> = Vec::new();
    let mut i: usize = 0;
    assert(v@.take(0) =~= Seq::<char>::empty());
    while i < v.len()
        invariant
            i <= v.len(),
            split_spec(v@.take(i as int), sep) == views(pieces@).push(cur@),
        decreases v.len() - i,
    {
        let c = v[i];
        assert(v@.take(i as int + 1).drop_last() =~= v@.take(i as int));
        if c == sep {
            let ghost before = pieces@;
            let done = cur;
            pieces.push(done);
            cur = Vec::new();
            assert(views(pieces@) =~= views(before).push(done@));
        } else {
            cur.push(c);
        }
        i = i + 1;
        assert(split_spec(v@.take(i as int), sep) =~= views(pieces@).push(cur@));
    }
    assert(v@.take(v@.len() as int) =~= v@);
    pieces.push(cur);
    assert(views(pieces@) =~= split_spec(v@, sep));
    pieces
}

// ---------------------------------------------------------------------------
// Trimming and splitting at whitespace.
// ---------------------------------------------------------------------------

/// A sequence without its leading whitespace.
pub open spec fn trim_start(s: Seq<char>) -> Seq<char>
    decreases s.len(),
{
    if s.len() > 0 && white_space(s[0]) {
        trim_start(s.drop_first())
    } else {
        s
    }
}

/// A sequence without its trailing whitespace.
pub open spec fn trim_end(s: Seq<char>) -> Seq<char>
    decreases s.len(),
{
    if s.len() > 0 && white_space(s.last()) {
        trim_end(s.drop_last())
    } else {
        s
    }
}

/// A sequence without leading and trailing whitespace, as `str::trim`
/// returns it.
pub open spec fn trim_spec(s: Seq<char>) -> Seq<char> {
    trim_end(trim_start(s))
}

/// Removes leading and trailing whitespace.
pub fn trim(v: &Vec<char>) -> (r: Vec<char>)
    ensures
        r@ == trim_spec(v@),
{
    let n = v.len();
    let mut a: usize = 0;
    assert(v@.skip(0) =~= v@);
    while a < n && is_whitespace(v[a])
        invariant
            a <= n,
            n == v@.len(),
            trim_start(v@) == trim_start(v@.skip(a as int)),
        decreases n - a,
    {
        assert(v@.skip(a as int).drop_first() =~= v@.skip(a as int + 1));
        a = a + 1;
    }
    let ghost front = v@.skip(a as int);
    assert(trim_start(v@) == front);
    let mut b: usize = n;
    assert(front =~= v@.subrange(a as int, b as int));
    while b > a && is_whitespace(v[b - 1])
        invariant
            a <= b <= n,
            n == v@.len(),
            front == v@.skip(a as int),
            trim_end(front) == trim_end(v@.subrange(a as int, b as int)),
        decreases b - a,
    {
        assert(v@.subrange(a as int, b as int).drop_last() =~= v@.subrange(a as int, b as int - 1));
        b = b - 1;
    }
    assert(trim_end(v@.subrange(a as int, b as int)) == v@.subrange(a as int, b as int));
    let mut r: Vec<char> = Vec::new();
    let mut i: usize = a;
    while i < b
        invariant
            a <= i <= b <= n,
            n == v@.len(),
            r@ == v@.subrange(a as int, i as int),
        decreases b - i,
    {
        r.push(v[i]);
        i = i + 1;
        assert(r@ =~= v@.subrange(a as int, i as int));
    }
    r
}

/// The maximal runs of non-whitespace characters, as `str::split_whitespace`
/// yields them.
pub open spec fn words(s: Seq<char>) -> Seq<Seq<char>>
    decreases s.len(),
{
    if s.len() == 0 {
        Seq::<Seq<char>>::empty()
    } else {
        let w = words(s.drop_last());
        let c = s.last();
        if white_space(c) {
            w
        } else if s.len() >= 2 && !white_space(s[s.len() - 2]) {
            w.update(w.len() - 1, w.last().push(c))
        } else {
            w.push(seq![c])
        }
    }
}

/// A sequence that ends inside a word has a word.
pub proof fn lemma_words_nonempty(s: Seq<char>)
    requires
        s.len() > 0,
        !white_space(s.last()),
    ensures
        words(s).len() >= 1,
    decreases s.len(),
{
    if s.len() >= 2 && !white_space(s[s.len() - 2]) {
        assert(s.drop_last().last() == s[s.len() - 2]);
        lemma_words_nonempty(s.drop_last());
    }
}

/// Splits a sequence into its runs of non-whitespace characters.
pub fn split_whitespace(v: &Vec<char>) -> (r: Vec<Vec<char>>)
    ensures
        views(r@) == words(v@),
{
    let mut pieces: Vec<Vec<char>> = Vec::new();
    let mut cur: Vec<char> = Vec::new();
    let mut in_word = false;
    let mut i: usize = 0;
    assert(v@.take(0) =~= Seq::<char>::empty());
    while i < v.len()
        invariant
            i <= v.len(),
            in_word == (i > 0 && !white_space(v@[i - 1])),
            words(v@.take(i as int)) == if in_word {
                views(pieces@).push(cur@)
            } else {
                views(pieces@)
            },
            !in_word ==> cur@.len() == 0,
        decreases v.len() - i,
    {
        let c = v[i];
        let ws = is_whitespace(c);
        let ghost before = pieces@;
        let ghost prefix = v@.take(i as int + 1);
        assert(prefix.drop_last() =~= v@.take(i as int));
        assert(prefix.last() == c);
        if i > 0 {
            assert(prefix[prefix.len() - 2] == v@[i - 1]);
        }
        if ws {
            if in_word {
                let done = cur;
                pieces.push(done);
                cur = Vec::new();
                assert(views(pieces@) =~= views(before).push(done@));
            }
            in_word = false;
        } else {
            if in_word {
                cur.push(c);
                assert(words(prefix) =~= views(pieces@).push(cur@));
            } else {
                cur.push(c);
                assert(cur@ =~= seq![c]);
                assert(words(prefix) =~= views(pieces@).push(cur@));
            }
            in_word = true;
        }
        i = i + 1;
    }
    assert(v@.take(v@.len() as int) =~= v@);
    if in_word {
        let ghost before = pieces@;
        pieces.push(cur);
        assert(views(pieces@) =~= views(before).push(cur@));
    }
    pieces
}

// ---------------------------------------------------------------------------
// Replacing.
// ---------------------------------------------------------------------------

/// Every non-overlapping occurrence of `from`, found from the left, replaced
/// with `to`, as `str::replace` returns it.
pub open spec fn replace_spec(s: Seq<char>, from: Seq<char>, to: Seq<char>) -> Seq<char>
    recommends
        from.len() > 0,
    decreases s.len(),
{
    if from.len() == 0 || s.len() < from.len() {
        s
    } else if s.take(from.len() as int) == from {
        to + replace_spec(s.skip(from.len() as int), from, to)
    } else {
        seq![s[0]] + replace_spec(s.drop_first(), from, to)
    }
}

/// Whether `from` occurs in `v` at position `i`.
fn occurs_at(v: &Vec<char>, from: &Vec<char>, i: usize) -> (b: bool)
    requires
        i + from@.len() <= v@.len(),
    ensures
        b == (v@.skip(i as int).take(from@.len() as int) == from@),
{
    let mut k: usize = 0;
    while k < from.len()
        invariant
            i + from@.len() <= v@.len(),
            v@.len() == v.len(),
            k <= from@.len(),
            forall|j: int| 0 <= j < k ==> v@[i + j] == from@[j],
        decreases from.len() - k,
    {
        if v[i + k] != from[k] {
            assert(v@.skip(i as int).take(from@.len() as int)[k as int] != from@[k as int]);
            return false;
        }
        k = k + 1;
    }
    assert(v@.skip(i as int).take(from@.len() as int) =~= from@);
    true
}

/// Replaces every non-overlapping occurrence of `from`, found from the left.
pub fn replace(v: &Vec<char>, from: &str, to: &str) -> (r: Vec<char>)
    requires
        from@.len() > 0,
    ensures
        r@ == replace_spec(v@, from@, to@),
{
    let from_v = chars_of(from);
    let to_v = chars_of(to);
    let n = v.len();
    let fl = from_v.len();
    let mut out: Vec<char> = Vec::new();
    let mut i: usize = 0;
    assert(v@.skip(0) =~= v@);
    while i < n
        invariant
            n == v@.len(),
            fl == from@.len(),
            fl > 0,
            from_v@ == from@,
            to_v@ == to@,
            i <= n,
            out@ + replace_spec(v@.skip(i as int), from@, to@) == replace_spec(v@, from@, to@),
        decreases n - i,
    {
        let ghost rest = v@.skip(i as int);
        if fl <= n - i && occurs_at(v, &from_v, i) {
            let mut k: usize = 0;
            let ghost base = out@;
            while k < to_v.len()
                invariant
                    k <= to_v@.len(),
                    out@ == base + to_v@.take(k as int),
                decreases to_v.len() - k,
            {
                out.push(to_v[k]);
                k = k + 1;
                assert(out@ =~= base + to_v@.take(k as int));
            }
            assert(to_v@.take(to_v@.len() as int) =~= to_v@);
            assert(rest.skip(fl as int) =~= v@.skip(i as int + fl as int));
            assert(out@ + replace_spec(v@.skip(i as int + fl as int), from@, to@) =~= base + (to@ + replace_spec(rest.skip(fl as int), from@, to@)));
            i = i + fl;
        } else {
            let ghost base = out@;
            out.push(v[i]);
            assert(rest.drop_first() =~= v@.skip(i as int + 1));
            proof {
                if rest.len() >= fl {
                    assert(rest.take(fl as int) =~= v@.skip(i as int).take(fl as int));
                    assert(replace_spec(rest, from@, to@) == seq![rest[0]] + replace_spec(rest.drop_first(), from@, to@));
                } else {
                    assert(replace_spec(rest.drop_first(), from@, to@) == rest.drop_first());
                    assert(rest =~= seq![rest[0]] + rest.drop_first());
                }
            }
            assert(out@ + replace_spec(v@.skip(i as int + 1), from@, to@) =~= base + (seq![rest[0]] + replace_spec(rest.drop_first(), from@, to@)));
            i = i + 1;
        }
    }
    assert(v@.skip(n as int) =~= Seq::<char>::empty());
    assert(out@ =~= out@ + Seq::<char>::empty());
    out
}

// ---------------------------------------------------------------------------
// Numbers.
// ---------------------------------------------------------------------------

/// Whether a character is an ASCII decimal digit.
pub open spec fn is_digit(c: char) -> bool {
    '0' <= c && c <= '9'
}

/// The value of a sequence of decimal digits.
pub open spec fn digits_value(s: Seq<char>) -> int
    decreases s.len(),
{
    if s.len() == 0 {
        0
    } else {
        digits_value(s.drop_last()) * 10 + (s.last() as int - '0' as int)
    }
}

/// The value of an unsigned decimal number no greater than `max`, as
/// `str::parse` reads it for an unsigned integer type with that maximum: an
/// optional `+` sign, then one or more ASCII digits.
pub open spec fn parse_unsigned(s: Seq<char>, max: int) -> Option<int> {
    let d = unsigned_digits(s);
    if all_digits(d) && digits_value(d) <= max {
        Some(digits_value(d))
    } else {
        None
    }
}

/// The digits of an unsigned number, after an optional `+` sign.
pub open spec fn unsigned_digits(s: Seq<char>) -> Seq<char> {
    if s.len() > 0 && s[0] == '+' {
        s.drop_first()
    } else {
        s
    }
}

/// One or more ASCII digits.
pub open spec fn all_digits(d: Seq<char>) -> bool {
    d.len() > 0 && forall|i: int| 0 <= i < d.len() ==> is_digit(d[i])
}

/// Digits never lose value when more follow.
proof fn lemma_digits_grow(s: Seq<char>, k: int)
    requires
        0 <= k <= s.len(),
        forall|i: int| 0 <= i < s.len() ==> is_digit(s[i]),
    ensures
        digits_value(s.take(k)) <= digits_value(s),
        digits_value(s) >= 0,
    decreases s.len() - k,
{
    if k < s.len() {
        lemma_digits_grow(s, k + 1);
        assert(s.take(k + 1).drop_last() =~= s.take(k));
        lemma_digits_nonneg(s.take(k));
    } else {
        assert(s.take(k) =~= s);
        lemma_digits_nonneg(s);
    }
}

/// Digits have a value of zero or more.
proof fn lemma_digits_nonneg(s: Seq<char>)
    requires
        forall|i: int| 0 <= i < s.len() ==> is_digit(s[i]),
    ensures
        digits_value(s) >= 0,
    decreases s.len(),
{
    if s.len() > 0 {
        lemma_digits_nonneg(s.drop_last());
    }
}

/// Reads an unsigned decimal number no greater than `max`.
pub fn parse_number(v: &Vec<char>, max: u32) -> (r: Option<u32>)
    requires
        max <= 1_000_000,
    ensures
        r matches Some(n) ==> parse_unsigned(v@, max as int) == Some(n as int),
        r is None ==> parse_unsigned(v@, max as int) is None,
{
    let n = v.len();
    let start: usize = if n > 0 && v[0] == '+' { 1 } else { 0 };
    let ghost d = unsigned_digits(v@);
    assert(d =~= v@.skip(start as int));
    if start >= n {
        return None;
    }
    let mut value: u32 = 0;
    let mut i: usize = start;
    assert(d.take(0) =~= Seq::<char>::empty());
    while i < n
        invariant
            start <= i <= n,
            n == v@.len(),
            d == v@.skip(start as int),
            d == unsigned_digits(v@),
            forall|j: int| start <= j < i ==> is_digit(v@[j]),
            value == digits_value(d.take(i - start)),
            value <= max,
            max <= 1_000_000,
        decreases n - i,
    {
        let c = v[i];
        if !('0' <= c && c <= '9') {
            proof {
                let j = i - start;
                assert(0 <= j < d.len());
                assert(d[j] == v@[i as int]);
                assert(!is_digit(d[j]));
                assert(!all_digits(d));
            }
            return None;
        }
        let digit = (c as u32) - ('0' as u32);
        assert(d.take(i - start + 1).drop_last() =~= d.take(i - start));
        let next = value * 10 + digit;
        if next > max {
            proof {
                let k = i - start + 1;
                assert(digits_value(d.take(k)) == next);
                if all_digits(d) {
                    lemma_digits_grow(d, k);
                }
            }
            return None;
        }
        value = next;
        i = i + 1;
    }
    assert(d.take(n - start) =~= d);
    Some(value)
}

/// Whether a sequence ends with a character.
pub fn ends_with_char(v: &Vec<char>, c: char) -> (b: bool)
    ensures
        b == (v@.len() > 0 && v@.last() == c),
{
    v.len() > 0 && v[v.len() - 1] == c
}

/// The position of the first occurrence of a character, or -1.
pub open spec fn index_of_char(s: Seq<char>, c: char) -> int
    decreases s.len(),
{
    if s.len() == 0 {
        -1
    } else if s[0] == c {
        0
    } else {
        let r = index_of_char(s.drop_first(), c);
        if r < 0 {
            -1
        } else {
            r + 1
        }
    }
}

/// The first occurrence of a character is where `index_of_char` says.
pub proof fn lemma_index_of_char(s: Seq<char>, c: char, i: int)
    requires
        0 <= i < s.len(),
        s[i] == c,
        forall|j: int| 0 <= j < i ==> s[j] != c,
    ensures
        index_of_char(s, c) == i,
    decreases i,
{
    if i > 0 {
        lemma_index_of_char(s.drop_first(), c, i - 1);
    }
}

/// A character that does not occur has no index.
pub proof fn lemma_index_of_char_absent(s: Seq<char>, c: char)
    requires
        !s.contains(c),
    ensures
        index_of_char(s, c) == -1,
    decreases s.len(),
{
    if s.len() > 0 {
        assert(s[0] != c);
        assert forall|j: int| 0 <= j < s.drop_first().len() implies s.drop_first()[j] != c by {
            assert(s.drop_first()[j] == s[j + 1]);
        }
        lemma_index_of_char_absent(s.drop_first(), c);
    }
}

/// The characters before the first occurrence of a separator, or all of
/// them; the first piece that `str::split` yields.
pub open spec fn before_char(s: Seq<char>, c: char) -> Seq<char> {
    let i = index_of_char(s, c);
    if i < 0 {
        s
    } else {
        s.take(i)
    }
}

/// Takes the characters before the first occurrence of a separator.
pub fn prefix_before(v: &Vec<char>, c: char) -> (r: Vec<char>)
    ensures
        r@ == before_char(v@, c),
{
    match find_char(v, c) {
        Some(i) => {
            proof {
                lemma_index_of_char(v@, c, i as int);
            }
            slice_chars(v, 0, i)
        },
        None => {
            proof {
                lemma_index_of_char_absent(v@, c);
            }
            copy_chars(v)
        },
    }
}

/// The characters from `from` up to `to`.
pub fn slice_chars(v: &Vec<char>, from: usize, to: usize) -> (r: Vec<char>)
    requires
        from <= to <= v@.len(),
    ensures
        r@ == v@.subrange(from as int, to as int),
{
    let mut r: Vec<char> = Vec::new();
    let mut i: usize = from;
    while i < to
        invariant
            from <= i <= to <= v@.len(),
            r@ == v@.subrange(from as int, i as int),
        decreases to - i,
    {
        r.push(v[i]);
        i = i + 1;
        assert(r@ =~= v@.subrange(from as int, i as int));
    }
    r
}

// ---------------------------------------------------------------------------
// Writing numbers.
// ---------------------------------------------------------------------------

/// The ASCII digit of a number below ten.
pub open spec fn digit_char(d: int) -> char {
    ((d + 48) as u32) as char
}

/// The decimal representation of a number, without leading zeros.
pub open spec fn decimal(n: nat) -> Seq<char>
    decreases n,
{
    if n < 10 {
        seq![digit_char(n as int)]
    } else {
        decimal(n / 10).push(digit_char((n % 10) as int))
    }
}

/// The decimal representation of a number, padded with zeros to at least
/// two digits.
pub open spec fn decimal2(n: nat) -> Seq<char> {
    if n < 10 {
        seq!['0'].add(decimal(n))
    } else {
        decimal(n)
    }
}

/// The character of a digit.
fn digit_to_char(d: u64) -> (c: char)
    requires
        d < 10,
    ensures
        c == digit_char(d as int),
{
    if d == 0 { '0' }
    else if d == 1 { '1' }
    else if d == 2 { '2' }
    else if d == 3 { '3' }
    else if d == 4 { '4' }
    else if d == 5 { '5' }
    else if d == 6 { '6' }
    else if d == 7 { '7' }
    else if d == 8 { '8' }
    else { '9' }
}

/// Appends the decimal representation of a number.
pub fn push_decimal(out: &mut Vec<char>, n: u64)
    ensures
        final(out)@ == old(out)@ + decimal(n as nat),
    decreases n,
{
    if n < 10 {
        out.push(digit_to_char(n));
    } else {
        push_decimal(out, n / 10);
        out.push(digit_to_char(n % 10));
    }
}

/// Appends a number padded with zeros to at least two digits.
pub fn push_decimal2(out: &mut Vec<char>, n: u64)
    ensures
        final(out)@ == old(out)@ + decimal2(n as nat),
{
    if n < 10 {
        out.push('0');
        push_decimal(out, n);
    } else {
        push_decimal(out, n);
    }
}

/// Appends the characters of a string slice.
pub fn push_str(out: &mut Vec<char>, s: &str)
    ensures
        final(out)@ == old(out)@ + s@,
{
    let n = s.unicode_len();
    let ghost base = out@;
    let mut i: usize = 0;
    while i < n
        invariant
            n == s@.len(),
            i <= n,
            out@ == base + s@.take(i as int),
        decreases n - i,
    {
        out.push(s.get_char(i));
        i = i + 1;
        assert(out@ =~= base + s@.take(i as int));
    }
    assert(s@.take(n as int) =~= s@);
}

/// Appends the characters of another vector.
pub fn push_chars(out: &mut Vec<char>, s: &Vec<char>)
    ensures
        final(out)@ == old(out)@ + s@,
{
    let ghost base = out@;
    let mut i: usize = 0;
    while i < s.len()
        invariant
            i <= s@.len(),
            out@ == base + s@.take(i as int),
        decreases s.len() - i,
    {
        out.push(s[i]);
        i = i + 1;
        assert(out@ =~= base + s@.take(i as int));
    }
    assert(s@.take(s@.len() as int) =~= s@);
}

// ---------------------------------------------------------------------------
// Comparing without regard to ASCII case.
// ---------------------------------------------------------------------------

/// The code of a character in ASCII lower case; other characters keep
/// their code.
pub open spec fn lower_code(c: char) -> int {
    if 'A' <= c && c <= 'Z' {
        c as int + 32
    } else {
        c as int
    }
}

/// Whether two sequences are equal when ASCII letters are compared without
/// regard to case, as `str::eq_ignore_ascii_case` decides.
pub open spec fn eq_ignore_case(a: Seq<char>, b: Seq<char>) -> bool {
    &&& a.len() == b.len()
    &&& forall|i: int| 0 <= i < a.len() ==> lower_code(a[i]) == lower_code(b[i])
}

/// The code of a character in ASCII lower case.
fn to_lower_code(c: char) -> (r: u32)
    ensures
        r == lower_code(c),
{
    if 'A' <= c && c <= 'Z' {
        (c as u32) + 32
    } else {
        c as u32
    }
}

/// Compares a sequence with a string without regard to ASCII case.
pub fn eq_ignore_ascii_case(v: &Vec<char>, s: &str) -> (b: bool)
    ensures
        b == eq_ignore_case(v@, s@),
{
    let n = s.unicode_len();
    if v.len() != n {
        return false;
    }
    let mut i: usize = 0;
    while i < n
        invariant
            n == s@.len(),
            n == v@.len(),
            i <= n,
            forall|j: int| 0 <= j < i ==> lower_code(v@[j]) == lower_code(s@[j]),
        decreases n - i,
    {
        if to_lower_code(v[i]) != to_lower_code(s.get_char(i)) {
            return false;
        }
        i = i + 1;
    }
    true
}

} // verus!
