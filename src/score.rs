//! Scores: the decimal number a benchmark reports, and its extraction
//! from captured output by a configured pattern, scanning from the last
//! line to the first.

use vstd::prelude::*;
use crate::text::{is_digit, push_char, trim_text, trimmed};

verus! {

pub open spec fn all_digits(s: Seq<char>) -> bool {
    forall|i: int| 0 <= i < s.len() ==> is_digit(#[trigger] s[i])
}

/// Number of digits at the start of `s`.
pub open spec fn digit_prefix_len(s: Seq<char>) -> nat
    decreases s.len(),
{
    if s.len() == 0 || !is_digit(s[0]) {
        0
    } else {
        1 + digit_prefix_len(s.drop_first())
    }
}

pub open spec fn strip_leading_zeros(s: Seq<char>) -> Seq<char>
    decreases s.len(),
{
    if s.len() > 0 && s[0] == '0' {
        strip_leading_zeros(s.drop_first())
    } else {
        s
    }
}

pub open spec fn strip_trailing_zeros(s: Seq<char>) -> Seq<char>
    decreases s.len(),
{
    if s.len() > 0 && s.last() == '0' {
        strip_trailing_zeros(s.drop_last())
    } else {
        s
    }
}

/// Reads `t` as `[+-]digits[.digits]` with at least one digit in all,
/// giving whether it is negative, the whole digits and the fraction digits.
pub open spec fn number_parts(t: Seq<char>) -> Option<(bool, Seq<char>, Seq<char>)> {
    let signed = t.len() > 0 && (t[0] == '-' || t[0] == '+');
    let negative = t.len() > 0 && t[0] == '-';
    let body = if signed {
        t.drop_first()
    } else {
        t
    };
    let n = digit_prefix_len(body) as int;
    let rest = body.skip(n);
    if rest.len() == 0 {
        if n > 0 {
            Some((negative, body.take(n), Seq::empty()))
        } else {
            None
        }
    } else if rest[0] == '.' && all_digits(rest.drop_first()) && (n > 0 || rest.len() > 1) {
        Some((negative, body.take(n), rest.drop_first()))
    } else {
        None
    }
}

/// The shortest writing of a number: no leading zeros in the whole part
/// (but a single `0`), no trailing zeros in the fraction, no point without
/// a fraction, and a minus sign only on a number other than zero.
pub open spec fn normal_form(negative: bool, whole: Seq<char>, frac: Seq<char>) -> Seq<char> {
    let w = strip_leading_zeros(whole);
    let f = strip_trailing_zeros(frac);
    let sign = if negative && (w.len() > 0 || f.len() > 0) {
        seq!['-']
    } else {
        Seq::empty()
    };
    let whole_text = if w.len() == 0 {
        seq!['0']
    } else {
        w
    };
    let frac_text = if f.len() == 0 {
        Seq::empty()
    } else {
        seq!['.'] + f
    };
    sign + whole_text + frac_text
}

/// The normal form of the number that `t` writes, if it writes one.
pub open spec fn score_text(t: Seq<char>) -> Option<Seq<char>> {
    match number_parts(t) {
        Some((negative, whole, frac)) => Some(normal_form(negative, whole, frac)),
        None => None,
    }
}

/// Non-empty and ending in a digit, as every normal form does.
pub open spec fn is_number_text(s: Seq<char>) -> bool {
    s.len() > 0 && is_digit(s.last())
}

proof fn lemma_digit_prefix(s: Seq<char>, k: int)
    requires
        0 <= k <= s.len(),
        forall|i: int| 0 <= i < k ==> is_digit(#[trigger] s[i]),
        k == s.len() || !is_digit(s[k]),
    ensures
        digit_prefix_len(s) == k,
    decreases k,
{
    if k > 0 {
        let t = s.drop_first();
        assert forall|i: int| 0 <= i < k - 1 implies is_digit(#[trigger] t[i]) by {
            assert(t[i] == s[i + 1]);
        }
        lemma_digit_prefix(t, k - 1);
    }
}

proof fn lemma_strip_leading(s: Seq<char>, k: int)
    requires
        0 <= k <= s.len(),
        forall|i: int| 0 <= i < k ==> #[trigger] s[i] == '0',
        k == s.len() || s[k] != '0',
    ensures
        strip_leading_zeros(s) == s.skip(k),
    decreases k,
{
    if k > 0 {
        let t = s.drop_first();
        assert forall|i: int| 0 <= i < k - 1 implies #[trigger] t[i] == '0' by {
            assert(t[i] == s[i + 1]);
        }
        lemma_strip_leading(t, k - 1);
        assert(t.skip(k - 1) =~= s.skip(k));
    } else {
        assert(s.skip(0) =~= s);
    }
}

proof fn lemma_strip_trailing(s: Seq<char>, k: int)
    requires
        0 <= k <= s.len(),
        forall|i: int| k <= i < s.len() ==> #[trigger] s[i] == '0',
        k == 0 || s[k - 1] != '0',
    ensures
        strip_trailing_zeros(s) == s.take(k),
    decreases s.len() - k,
{
    if k < s.len() {
        let t = s.drop_last();
        lemma_strip_trailing(t, k);
        assert(t.take(k) =~= s.take(k));
    } else {
        assert(s.take(k) =~= s);
    }
}

/// Every normal form ends in a digit.
pub proof fn lemma_normal_form_ends_in_digit(negative: bool, whole: Seq<char>, frac: Seq<char>)
    requires
        all_digits(whole),
        all_digits(frac),
    ensures
        is_number_text(normal_form(negative, whole, frac)),
{
    let w = strip_leading_zeros(whole);
    let f = strip_trailing_zeros(frac);
    lemma_strip_leading_suffix(whole);
    lemma_strip_trailing_prefix(frac);
    let s = normal_form(negative, whole, frac);
    if f.len() > 0 {
        assert(s.last() == f.last());
        assert(f.last() == frac[f.len() - 1]);
    } else if w.len() > 0 {
        assert(s.last() == w.last());
        assert(w.last() == whole[whole.len() - 1]);
    } else {
        assert(s.last() == '0');
    }
}

proof fn lemma_strip_leading_suffix(s: Seq<char>)
    ensures
        strip_leading_zeros(s).len() <= s.len(),
        strip_leading_zeros(s) == s.skip(s.len() - strip_leading_zeros(s).len()),
    decreases s.len(),
{
    if s.len() > 0 && s[0] == '0' {
        lemma_strip_leading_suffix(s.drop_first());
        assert(s.drop_first().skip(s.len() - 1 - strip_leading_zeros(s).len()) =~= s.skip(
            s.len() - strip_leading_zeros(s).len(),
        ));
    } else {
        assert(s.skip(0) =~= s);
    }
}

proof fn lemma_strip_trailing_prefix(s: Seq<char>)
    ensures
        strip_trailing_zeros(s).len() <= s.len(),
        strip_trailing_zeros(s) == s.take(strip_trailing_zeros(s).len() as int),
    decreases s.len(),
{
    if s.len() > 0 && s.last() == '0' {
        lemma_strip_trailing_prefix(s.drop_last());
        assert(s.drop_last().take(strip_trailing_zeros(s).len() as int) =~= s.take(
            strip_trailing_zeros(s).len() as int,
        ));
    } else {
        assert(s.take(s.len() as int) =~= s);
    }
}

/// A benchmark score, held in normal form.
#[derive(Debug)]
pub struct Score {
    text: String,
}

impl Score {
    #[verifier::type_invariant]
    spec fn inv(&self) -> bool {
        is_number_text(self.text@)
    }
}

impl Clone for Score {
    fn clone(&self) -> (r: Self)
        ensures
            r@ == self@,
    {
        proof {
            use_type_invariant(self);
        }
        Score { text: self.text.clone() }
    }
}

impl View for Score {
    type V = Seq<char>;

    closed spec fn view(&self) -> Seq<char> {
        self.text@
    }
}

fn is_digit_char(c: char) -> (r: bool)
    ensures
        r == is_digit(c),
{
    '0' <= c && c <= '9'
}

fn chars_of(s: &str) -> (r: Vec<char>)
    ensures
        r@ == s@,
{
    let n = s.unicode_len();
    let mut r: Vec<char> = Vec::new();
    let mut i: usize = 0;
    while i < n
        invariant
            n == s@.len(),
            i <= n,
            r@ == s@.take(i as int),
        decreases n - i,
    {
        r.push(s.get_char(i));
        i = i + 1;
        assert(r@ =~= s@.take(i as int));
    }
    assert(s@.take(n as int) =~= s@);
    r
}

/// End of the run of digits that starts at `from`.
fn digits_end(cs: &Vec<char>, from: usize) -> (e: usize)
    requires
        from <= cs.len(),
    ensures
        from <= e <= cs.len(),
        forall|k: int| from <= k < e ==> is_digit(#[trigger] cs@[k]),
        e == cs.len() || !is_digit(cs@[e as int]),
{
    let mut e = from;
    while e < cs.len() && is_digit_char(cs[e])
        invariant
            from <= e <= cs.len(),
            forall|k: int| from <= k < e ==> is_digit(#[trigger] cs@[k]),
        decreases cs.len() - e,
    {
        e = e + 1;
    }
    e
}

/// End of the run of `0` that starts at `from`, within `to`.
fn zeros_end(cs: &Vec<char>, from: usize, to: usize) -> (e: usize)
    requires
        from <= to <= cs.len(),
    ensures
        from <= e <= to,
        forall|k: int| from <= k < e ==> #[trigger] cs@[k] == '0',
        e == to || cs@[e as int] != '0',
{
    let mut e = from;
    while e < to && cs[e] == '0'
        invariant
            from <= e <= to <= cs.len(),
            forall|k: int| from <= k < e ==> #[trigger] cs@[k] == '0',
        decreases to - e,
    {
        e = e + 1;
    }
    e
}

/// Start of the run of `0` that ends at `to`, within `from`.
fn zeros_start(cs: &Vec<char>, from: usize, to: usize) -> (b: usize)
    requires
        from <= to <= cs.len(),
    ensures
        from <= b <= to,
        forall|k: int| b <= k < to ==> #[trigger] cs@[k] == '0',
        b == from || cs@[b - 1] != '0',
{
    let mut b = to;
    while b > from && cs[b - 1] == '0'
        invariant
            from <= b <= to <= cs.len(),
            forall|k: int| b <= k < to ==> #[trigger] cs@[k] == '0',
        decreases b,
    {
        b = b - 1;
    }
    b
}

fn push_range(text: &mut String, cs: &Vec<char>, from: usize, to: usize)
    requires
        from <= to <= cs.len(),
    ensures
        final(text)@ == old(text)@ + cs@.subrange(from as int, to as int),
{
    let ghost head = text@;
    let mut k = from;
    while k < to
        invariant
            from <= k <= to <= cs.len(),
            text@ == head + cs@.subrange(from as int, k as int),
        decreases to - k,
    {
        push_char(text, cs[k]);
        k = k + 1;
        assert(text@ =~= head + cs@.subrange(from as int, k as int));
    }
}

proof fn lemma_body(s: Seq<char>, start: int, i: int)
    requires
        0 <= start <= i <= s.len(),
        forall|k: int| start <= k < i ==> is_digit(#[trigger] s[k]),
        i == s.len() || !is_digit(s[i]),
    ensures
        digit_prefix_len(s.skip(start)) == i - start,
        s.skip(start).skip(i - start) == s.skip(i),
        s.skip(start).take(i - start) == s.subrange(start, i),
{
    let body = s.skip(start);
    assert forall|k: int| 0 <= k < i - start implies is_digit(#[trigger] body[k]) by {
        assert(body[k] == s[k + start]);
    }
    if i < s.len() {
        assert(body[i - start] == s[i]);
    }
    lemma_digit_prefix(body, i - start);
    assert(body.skip(i - start) =~= s.skip(i));
    assert(body.take(i - start) =~= s.subrange(start, i));
}

/// Locates the parts of a number written in `cs`: whether it is negative,
/// where the whole digits start and end, and where the fraction starts
/// (the fraction runs to the end).
fn split_number(cs: &Vec<char>) -> (r: Option<(bool, usize, usize, usize)>)
    ensures
        number_parts(cs@) is Some <==> r is Some,
        r matches Some((negative, start, end, frac_start)) ==> {
            &&& start <= end <= frac_start <= cs.len()
            &&& forall|k: int| start <= k < end ==> is_digit(#[trigger] cs@[k])
            &&& forall|k: int| frac_start <= k < cs.len() ==> is_digit(#[trigger] cs@[k])
            &&& number_parts(cs@) == Some(
                (
                    negative,
                    cs@.subrange(start as int, end as int),
                    cs@.subrange(frac_start as int, cs.len() as int),
                ),
            )
        },
{
    let len = cs.len();
    let ghost s = cs@;
    let signed = len > 0 && (cs[0] == '-' || cs[0] == '+');
    let negative = len > 0 && cs[0] == '-';
    let start: usize = if signed {
        1
    } else {
        0
    };
    assert(s.drop_first() =~= s.skip(1));
    assert(s =~= s.skip(0));
    let i = digits_end(cs, start);
    proof {
        lemma_body(s, start as int, i as int);
    }
    if i < len {
        if cs[i] != '.' {
            return None;
        }
        let j = digits_end(cs, i + 1);
        assert(s.skip(i as int).drop_first() =~= s.skip(i + 1));
        if j < len {
            assert(s.skip(i + 1)[j - i - 1] == s[j as int]);
            return None;
        }
        if i == start && len == i + 1 {
            return None;
        }
        assert forall|k: int| 0 <= k < s.skip(i + 1).len() implies is_digit(
            #[trigger] s.skip(i + 1)[k],
        ) by {
            assert(s.skip(i + 1)[k] == s[k + i + 1]);
        }
        assert(s.skip(i + 1) =~= s.subrange(i + 1, len as int));
        Some((negative, start, i, i + 1))
    } else if i == start {
        None
    } else {
        assert(s.subrange(i as int, len as int) =~= Seq::<char>::empty());
        Some((negative, start, i, i))
    }
}

/// Writes `normal_form` of the parts that `split_number` located.
fn write_normal(cs: &Vec<char>, negative: bool, start: usize, end: usize, frac_start: usize) -> (r:
    String)
    requires
        start <= end <= frac_start <= cs.len(),
    ensures
        r@ == normal_form(
            negative,
            cs@.subrange(start as int, end as int),
            cs@.subrange(frac_start as int, cs.len() as int),
        ),
{
    let len = cs.len();
    let ghost s = cs@;
    let ghost whole = s.subrange(start as int, end as int);
    let ghost frac = s.subrange(frac_start as int, len as int);
    let w = zeros_end(cs, start, end);
    let f = zeros_start(cs, frac_start, len);
    proof {
        assert forall|k: int| 0 <= k < w - start implies #[trigger] whole[k] == '0' by {
            assert(whole[k] == s[k + start]);
        }
        if w < end {
            assert(whole[w - start] == s[w as int]);
        }
        lemma_strip_leading(whole, w - start);
        assert forall|k: int| f - frac_start <= k < frac.len() implies #[trigger] frac[k]
            == '0' by {
            assert(frac[k] == s[k + frac_start]);
        }
        if f > frac_start {
            assert(frac[f - frac_start - 1] == s[f - 1]);
        }
        lemma_strip_trailing(frac, f - frac_start);
        assert(whole.skip(w - start) =~= s.subrange(w as int, end as int));
        assert(frac.take(f - frac_start) =~= s.subrange(frac_start as int, f as int));
    }
    let mut text = String::new();
    if negative && (w < end || f > frac_start) {
        push_char(&mut text, '-');
    }
    if w == end {
        push_char(&mut text, '0');
    } else {
        push_range(&mut text, cs, w, end);
    }
    if f > frac_start {
        push_char(&mut text, '.');
        push_range(&mut text, cs, frac_start, f);
    }
    assert(text@ =~= normal_form(negative, whole, frac));
    text
}

impl Score {
    /// Reads a number written as `[+-]digits[.digits]` (at least one
    /// digit), and keeps it in normal form; `None` for any other text.
    pub fn parse(t: &str) -> (r: Option<Score>)
        ensures
            r is Some <==> score_text(t@) is Some,
            r is Some ==> r->0@ == score_text(t@)->0,
            r is Some ==> is_number_text(r->0@),
    {
        let cs = chars_of(t);
        match split_number(&cs) {
            None => None,
            Some((negative, start, end, frac_start)) => {
                let text = write_normal(&cs, negative, start, end, frac_start);
                proof {
                    let whole = cs@.subrange(start as int, end as int);
                    let frac = cs@.subrange(frac_start as int, cs.len() as int);
                    assert forall|k: int| 0 <= k < whole.len() implies is_digit(
                        #[trigger] whole[k],
                    ) by {
                        assert(whole[k] == cs@[k + start]);
                    }
                    assert forall|k: int| 0 <= k < frac.len() implies is_digit(
                        #[trigger] frac[k],
                    ) by {
                        assert(frac[k] == cs@[k + frac_start]);
                    }
                    lemma_normal_form_ends_in_digit(negative, whole, frac);
                }
                Some(Score { text })
            },
        }
    }

    /// The score as written in the results store.
    pub fn as_text(&self) -> (r: String)
        ensures
            r@ == self@,
            is_number_text(r@),
    {
        proof {
            use_type_invariant(self);
        }
        self.text.clone()
    }
}

#[verifier::external_type_specification]
#[verifier::external_body]
pub struct ExRegex(regex::Regex);

#[verifier::external_type_specification]
#[verifier::external_body]
pub struct ExRegexError(regex::Error);

/// Whether regex::Regex::new compiles the pattern.
pub uninterp spec fn pattern_accepted(pattern: Seq<char>) -> bool;

/// What the pattern's capture group one takes from a line: `None` where
/// the pattern does not match the line, `Some(None)` where it matches but
/// group one takes no part in the match, else the group's text.
pub uninterp spec fn first_group(pattern: Seq<char>, line: Seq<char>) -> Option<Option<Seq<char>>>;

/// Why no score could be read from output that the pattern matched.
#[derive(Debug, Clone, Copy, PartialEq, Eq, Structural)]
pub enum ScoreError {
    /// The pattern does not compile.
    InvalidPattern,
    /// The pattern matched, but its capture group one took no part.
    MissingGroup,
    /// Group one's text is not a number.
    NotANumber,
}

pub open spec fn group_view(r: Option<Option<String>>) -> Option<Option<Seq<char>>> {
    match r {
        None => None,
        Some(None) => Some(None),
        Some(Some(g)) => Some(Some(g@)),
    }
}

/// A compiled score pattern, kept beside the text it was compiled from.
struct ScorePattern {
    regex: regex::Regex,
    source: String,
}

impl ScorePattern {
    closed spec fn source(&self) -> Seq<char> {
        self.source@
    }

    /// Relies on regex::Regex::new: it compiles `pattern` or reports an
    /// error; the pattern's text is kept beside the compiled regex.
    #[verifier::external_body]
    fn compile(pattern: &str) -> (r: Result<ScorePattern, regex::Error>)
        ensures
            r is Ok <==> pattern_accepted(pattern@),
            r matches Ok(p) ==> p.source() == pattern@,
    {
        match regex::Regex::new(pattern) {
            Ok(regex) => Ok(ScorePattern { regex, source: pattern.to_string() }),
            Err(e) => Err(e),
        }
    }

    /// Relies on regex::Regex::captures and Captures::get: the leftmost
    /// match in `line`, and the text of its capture group one.
    #[verifier::external_body]
    fn group_one(&self, line: &str) -> (r: Option<Option<String>>)
        ensures
            group_view(r) == first_group(self.source(), line@),
    {
        match self.regex.captures(line) {
            None => None,
            Some(caps) => Some(caps.get(1).map(|m| m.as_str().to_string())),
        }
    }
}

pub open spec fn matches_line(pattern: Seq<char>, line: Seq<char>) -> bool {
    first_group(pattern, line) is Some
}

/// Index of the last line that the pattern matches, scanning from the end.
pub open spec fn last_match(pattern: Seq<char>, lines: Seq<Seq<char>>) -> Option<int>
    decreases lines.len(),
{
    if lines.len() == 0 {
        None
    } else if matches_line(pattern, lines.last()) {
        Some(lines.len() - 1)
    } else {
        last_match(pattern, lines.drop_last())
    }
}

/// The score that group one's text gives, once trimmed.
pub open spec fn group_score(group: Seq<char>) -> Result<Option<Seq<char>>, ScoreError> {
    match score_text(trimmed(group)) {
        Some(s) => Ok(Some(s)),
        None => Err(ScoreError::NotANumber),
    }
}

/// What extraction yields for a pattern and output lines: an error for a
/// pattern that does not compile, nothing where no line matches, else
/// what the last matching line gives.
pub open spec fn extraction(pattern: Seq<char>, lines: Seq<Seq<char>>) -> Result<
    Option<Seq<char>>,
    ScoreError,
> {
    if !pattern_accepted(pattern) {
        Err(ScoreError::InvalidPattern)
    } else {
        match last_match(pattern, lines) {
            None => Ok(None),
            Some(i) => match first_group(pattern, lines[i]) {
                Some(Some(g)) => group_score(g),
                _ => Err(ScoreError::MissingGroup),
            },
        }
    }
}

pub open spec fn outcome_view(r: Result<Option<Score>, ScoreError>) -> Result<
    Option<Seq<char>>,
    ScoreError,
> {
    match r {
        Ok(Some(s)) => Ok(Some(s@)),
        Ok(None) => Ok(None),
        Err(e) => Err(e),
    }
}

pub open spec fn lines_view(lines: Seq<String>) -> Seq<Seq<char>> {
    lines.map_values(|l: String| l@)
}

/// `last_match` is the greatest index whose line matches.
pub proof fn lemma_last_match(pattern: Seq<char>, lines: Seq<Seq<char>>)
    ensures
        last_match(pattern, lines) is None <==> forall|k: int|
            0 <= k < lines.len() ==> !matches_line(pattern, #[trigger] lines[k]),
        last_match(pattern, lines) matches Some(j) ==> {
            &&& 0 <= j < lines.len()
            &&& matches_line(pattern, lines[j])
            &&& forall|k: int| j < k < lines.len() ==> !matches_line(pattern, #[trigger] lines[k])
        },
    decreases lines.len(),
{
    if lines.len() > 0 && !matches_line(pattern, lines.last()) {
        let rest = lines.drop_last();
        lemma_last_match(pattern, rest);
        assert forall|k: int| 0 <= k < rest.len() implies rest[k] == lines[k] by {}
        if last_match(pattern, rest) is None {
            assert forall|k: int| 0 <= k < lines.len() implies !matches_line(
                pattern,
                #[trigger] lines[k],
            ) by {
                if k < rest.len() {
                    assert(rest[k] == lines[k]);
                }
            }
        } else {
            let j = last_match(pattern, rest)->0;
            assert(rest[j] == lines[j]);
            assert forall|k: int| j < k < lines.len() implies !matches_line(
                pattern,
                #[trigger] lines[k],
            ) by {
                if k < rest.len() {
                    assert(rest[k] == lines[k]);
                }
            }
        }
    }
}

/// The score comes from the last line that the pattern matches: for any
/// matching line, the line read is that one or a later one, it matches,
/// and no line after it matches.
pub proof fn lemma_last_matching_line_wins(pattern: Seq<char>, lines: Seq<Seq<char>>, i: int)
    requires
        0 <= i < lines.len(),
        matches_line(pattern, lines[i]),
    ensures
        last_match(pattern, lines) matches Some(j) && {
            &&& i <= j < lines.len()
            &&& matches_line(pattern, lines[j])
            &&& forall|k: int| j < k < lines.len() ==> !matches_line(pattern, #[trigger] lines[k])
            &&& pattern_accepted(pattern) ==> extraction(pattern, lines) == match first_group(
                pattern,
                lines[j],
            ) {
                Some(Some(g)) => group_score(g),
                _ => Err(ScoreError::MissingGroup),
            }
        },
{
    lemma_last_match(pattern, lines);
}

/// Reads the score from group one's text: trimmed, then parsed.
pub fn score_of_group(group: &str) -> (r: Result<Option<Score>, ScoreError>)
    ensures
        outcome_view(r) == group_score(group@),
{
    let text = trim_text(group);
    match Score::parse(text.as_str()) {
        Some(s) => Ok(Some(s)),
        None => Err(ScoreError::NotANumber),
    }
}

/// Extracts the score from captured output: the pattern is compiled, then
/// the lines are searched from the last to the first, and the first one
/// that matches gives the score. Where no line matches there is no score,
/// which is no error.
pub fn extract_score(pattern: &str, lines: &Vec<String>) -> (r: Result<Option<Score>, ScoreError>)
    ensures
        outcome_view(r) == extraction(pattern@, lines_view(lines@)),
{
    let ghost view = lines_view(lines@);
    let compiled = match ScorePattern::compile(pattern) {
        Ok(p) => p,
        Err(_) => {
            return Err(ScoreError::InvalidPattern);
        },
    };
    proof {
        lemma_last_match(pattern@, view);
    }
    let mut i = lines.len();
    while i > 0
        invariant
            i <= lines.len(),
            view == lines_view(lines@),
            compiled.source() == pattern@,
            pattern_accepted(pattern@),
            forall|k: int| i <= k < lines.len() ==> !matches_line(pattern@, #[trigger] view[k]),
        decreases i,
    {
        i = i - 1;
        let found = compiled.group_one(lines[i].as_str());
        assert(view[i as int] == lines@[i as int]@);
        proof {
            lemma_last_match(pattern@, view);
            if found is Some {
                assert(last_match(pattern@, view) == Some(i as int));
            }
        }
        match found {
            None => {},
            Some(None) => {
                return Err(ScoreError::MissingGroup);
            },
            Some(Some(g)) => {
                return score_of_group(g.as_str());
            },
        }
    }
    Ok(None)
}

} // verus!
