//! Colour-tag formatter.
//!
//! Tags have the shape `$<tag><delim>` (default delimiter `|`): builtin names such as
//! `$red|`, `$reset|`, or RGB triples such as `$.255/0/0|`. A tag is replaced by the
//! matching ANSI escape sequence and holds until the next tag; `$$` stands for a
//! literal `$`.
use vstd::prelude::*;
use crate::text::{
    all_ascii_digits, chars_of, owned, decimal, digits_value, is_ascii_digit, lemma_decimal_digits,
    is_ascii_letter, lemma_trim_unchanged, push_char, push_decimal, push_str, range_eq_str, string_from_range, trim,
    trim_range,
};

verus! {

/// A 24-bit foreground colour.
#[derive(Debug, Clone, Copy, PartialEq, Eq, Structural)]
pub struct Color {
    pub r: u8,
    pub g: u8,
    pub b: u8,
}

/// Why a colour tag could not be formatted.
#[derive(Debug, Clone)]
pub enum ColorError {
    EmptyTag,
    UnknownBuiltin(String),
    InvalidFormat(String),
    InvalidNumber(String),
    OutOfRange(String),
}

/// `ColorError` with its texts as character sequences.
pub enum ColorErrorView {
    EmptyTag,
    UnknownBuiltin(Seq<char>),
    InvalidFormat(Seq<char>),
    InvalidNumber(Seq<char>),
    OutOfRange(Seq<char>),
}

impl View for ColorError {
    type V = ColorErrorView;

    open spec fn view(&self) -> ColorErrorView {
        match self {
            ColorError::EmptyTag => ColorErrorView::EmptyTag,
            ColorError::UnknownBuiltin(s) => ColorErrorView::UnknownBuiltin(s@),
            ColorError::InvalidFormat(s) => ColorErrorView::InvalidFormat(s@),
            ColorError::InvalidNumber(s) => ColorErrorView::InvalidNumber(s@),
            ColorError::OutOfRange(s) => ColorErrorView::OutOfRange(s@),
        }
    }
}

/// What a tag stands for.
#[derive(Debug, Clone, Copy, PartialEq, Eq, Structural)]
pub enum Control {
    Fg(Color),
    Reset,
}

// ---------------------------------------------------------------------------
// Specification
// ---------------------------------------------------------------------------

pub open spec fn ansi_fg(c: Color) -> Seq<char> {
    "\x1b[38;2;"@ + decimal(c.r as nat) + ";"@ + decimal(c.g as nat) + ";"@ + decimal(c.b as nat)
        + "m"@
}

pub open spec fn ansi_of(ctrl: Control) -> Seq<char> {
    match ctrl {
        Control::Fg(c) => ansi_fg(c),
        Control::Reset => "\x1b[0m"@,
    }
}

pub open spec fn rgb(r: u8, g: u8, b: u8) -> Color {
    Color { r, g, b }
}

/// The builtin colour names.
pub open spec fn builtin_color(name: Seq<char>) -> Option<Color> {
    if name == "red"@ {
        Some(rgb(255, 0, 0))
    } else if name == "green"@ {
        Some(rgb(0, 255, 0))
    } else if name == "sgreen"@ {
        Some(rgb(128, 255, 128))
    } else if name == "blue"@ {
        Some(rgb(0, 0, 255))
    } else if name == "yellow"@ {
        Some(rgb(255, 255, 0))
    } else if name == "cyan"@ {
        Some(rgb(0, 255, 255))
    } else if name == "magenta"@ {
        Some(rgb(255, 0, 255))
    } else if name == "white"@ {
        Some(rgb(255, 255, 255))
    } else if name == "black"@ {
        Some(rgb(0, 0, 0))
    } else if name == "gray"@ {
        Some(rgb(128, 128, 128))
    } else {
        None
    }
}

/// Index of the first `c` in `s`, or `s.len()` when there is none.
pub open spec fn first_index_of(s: Seq<char>, c: char) -> nat
    decreases s.len(),
{
    if s.len() == 0 {
        0
    } else if s[0] == c {
        0
    } else {
        1 + first_index_of(s.drop_first(), c)
    }
}

/// Number of occurrences of `c` in `s`.
pub open spec fn count_char(s: Seq<char>, c: char) -> nat
    decreases s.len(),
{
    if s.len() == 0 {
        0
    } else {
        count_char(s.drop_last(), c) + if s.last() == c {
            1nat
        } else {
            0nat
        }
    }
}

/// `str::parse::<i32>`: an optional `+` or `-`, then one or more ASCII digits, the
/// value lying in the range of `i32`.
pub open spec fn parse_i32(s: Seq<char>) -> Option<int> {
    let neg = s.len() > 0 && s[0] == '-';
    let digits = if s.len() > 0 && (s[0] == '-' || s[0] == '+') {
        s.skip(1)
    } else {
        s
    };
    if digits.len() == 0 || !all_ascii_digits(digits) {
        None
    } else {
        let v: int = if neg {
            -(digits_value(digits) as int)
        } else {
            digits_value(digits) as int
        };
        if i32::MIN <= v <= i32::MAX {
            Some(v)
        } else {
            None
        }
    }
}

/// One RGB component: an integer in `0..=255`, surrounding whitespace allowed.
pub open spec fn spec_parse_u8(s: Seq<char>) -> Result<u8, ColorErrorView> {
    match parse_i32(trim(s)) {
        None => Err(ColorErrorView::InvalidNumber(s)),
        Some(n) => if 0 <= n <= 255 {
            Ok(n as u8)
        } else {
            Err(ColorErrorView::OutOfRange(s))
        },
    }
}

/// Three `/`-separated components `p0/p1/p2` (exactly two separators in `s`).
pub open spec fn spec_parse_rgb(s: Seq<char>) -> Result<Control, ColorErrorView> {
    let k1 = first_index_of(s, '/');
    let rest = s.skip(k1 + 1int);
    let k2 = first_index_of(rest, '/');
    match spec_parse_u8(s.take(k1 as int)) {
        Err(e) => Err(e),
        Ok(r) => match spec_parse_u8(rest.take(k2 as int)) {
            Err(e) => Err(e),
            Ok(g) => match spec_parse_u8(rest.skip(k2 + 1int)) {
                Err(e) => Err(e),
                Ok(b) => Ok(Control::Fg(rgb(r, g, b))),
            },
        },
    }
}

/// What the text of one tag stands for.
pub open spec fn spec_parse_tag(tag: Seq<char>) -> Result<Control, ColorErrorView> {
    let t = trim(tag);
    if t.len() == 0 {
        Err(ColorErrorView::EmptyTag)
    } else if t == "reset"@ {
        Ok(Control::Reset)
    } else if t[0] == '.' {
        let body = t.skip(1);
        let parts = count_char(body, '/') + 1;
        if parts == 3 {
            spec_parse_rgb(body)
        } else if parts == 4 {
            Err(ColorErrorView::InvalidFormat("rgba not supported"@))
        } else {
            Err(ColorErrorView::InvalidFormat(t))
        }
    } else {
        match builtin_color(t) {
            Some(c) => Ok(Control::Fg(c)),
            None => Err(ColorErrorView::UnknownBuiltin(t)),
        }
    }
}

pub open spec fn prepend(p: Seq<char>, r: Result<Seq<char>, ColorErrorView>) -> Result<
    Seq<char>,
    ColorErrorView,
> {
    match r {
        Ok(x) => Ok(p + x),
        Err(e) => Err(e),
    }
}

/// The formatted text of `s`, or the first tag error met from the left.
pub open spec fn spec_format(s: Seq<char>, delim: char) -> Result<Seq<char>, ColorErrorView>
    decreases s.len(),
{
    if s.len() == 0 {
        Ok(Seq::empty())
    } else if s[0] != '$' {
        prepend(seq![s[0]], spec_format(s.drop_first(), delim))
    } else if s.len() >= 2 && s[1] == '$' {
        prepend(seq!['$'], spec_format(s.skip(2), delim))
    } else {
        let rest = s.skip(1);
        let k = first_index_of(rest, delim);
        if k >= rest.len() {
            Err(ColorErrorView::InvalidFormat("unterminated tag"@))
        } else {
            let tag = trim(rest.take(k as int));
            if tag.len() == 0 {
                Err(ColorErrorView::EmptyTag)
            } else {
                match spec_parse_tag(tag) {
                    Err(e) => Err(e),
                    Ok(ctrl) => prepend(ansi_of(ctrl), spec_format(rest.skip(k + 1int), delim)),
                }
            }
        }
    }
}

pub open spec fn result_view(r: Result<String, ColorError>) -> Result<Seq<char>, ColorErrorView> {
    match r {
        Ok(s) => Ok(s@),
        Err(e) => Err(e@),
    }
}

// ---------------------------------------------------------------------------
// Implementation
// ---------------------------------------------------------------------------

impl Color {
    pub fn rgb(r: u8, g: u8, b: u8) -> (c: Self)
        ensures
            c == rgb(r, g, b),
    {
        Color { r, g, b }
    }

    /// The ANSI escape sequence that selects this colour as foreground.
    pub fn to_ansi_fg(self) -> (s: String)
        ensures
            s@ == ansi_fg(self),
    {
        let mut s = String::new();
        push_str(&mut s, "\x1b[38;2;");
        push_decimal(&mut s, self.r as u64);
        push_str(&mut s, ";");
        push_decimal(&mut s, self.g as u64);
        push_str(&mut s, ";");
        push_decimal(&mut s, self.b as u64);
        push_str(&mut s, "m");
        s
    }
}

impl Control {
    pub fn to_ansi(&self) -> (s: String)
        ensures
            s@ == ansi_of(*self),
    {
        match self {
            Control::Fg(c) => c.to_ansi_fg(),
            Control::Reset => owned("\x1b[0m"),
        }
    }
}

impl ColorError {
    /// The human-readable message of this error.
    pub fn message(&self) -> (s: String)
        ensures
            s@ == match self@ {
                ColorErrorView::EmptyTag => "empty color tag"@,
                ColorErrorView::UnknownBuiltin(t) => "unknown builtin color: "@ + t,
                ColorErrorView::InvalidFormat(t) => "invalid format: "@ + t,
                ColorErrorView::InvalidNumber(t) => "invalid number: "@ + t,
                ColorErrorView::OutOfRange(t) => "out of range: "@ + t,
            },
    {
        match self {
            ColorError::EmptyTag => owned("empty color tag"),
            ColorError::UnknownBuiltin(t) => {
                let mut s = owned("unknown builtin color: ");
                push_str(&mut s, t.as_str());
                s
            },
            ColorError::InvalidFormat(t) => {
                let mut s = owned("invalid format: ");
                push_str(&mut s, t.as_str());
                s
            },
            ColorError::InvalidNumber(t) => {
                let mut s = owned("invalid number: ");
                push_str(&mut s, t.as_str());
                s
            },
            ColorError::OutOfRange(t) => {
                let mut s = owned("out of range: ");
                push_str(&mut s, t.as_str());
                s
            },
        }
    }
}

proof fn lemma_first_index_of_is(s: Seq<char>, c: char, k: int)
    requires
        0 <= k <= s.len(),
        forall|i: int| 0 <= i < k ==> #[trigger] s[i] != c,
        k < s.len() ==> s[k] == c,
    ensures
        first_index_of(s, c) == k,
    decreases s.len(),
{
    if s.len() > 0 && k > 0 {
        assert forall|i: int| 0 <= i < k - 1 implies #[trigger] s.drop_first()[i] != c by {
            assert(s.drop_first()[i] == s[i + 1]);
        }
        lemma_first_index_of_is(s.drop_first(), c, k - 1);
    }
}

/// Index of the first `c` in `v[lo..hi]`, or `hi`.
fn find_char(v: &Vec<char>, lo: usize, hi: usize, c: char) -> (r: usize)
    requires
        lo <= hi <= v@.len(),
    ensures
        lo <= r <= hi,
        r - lo == first_index_of(v@.subrange(lo as int, hi as int), c),
{
    let mut i = lo;
    while i < hi && v[i] != c
        invariant
            lo <= i <= hi <= v@.len(),
            forall|k: int| lo <= k < i ==> v@[k] != c,
        decreases hi - i,
    {
        i = i + 1;
    }
    proof {
        let s = v@.subrange(lo as int, hi as int);
        assert forall|k: int| 0 <= k < i - lo implies #[trigger] s[k] != c by {
            assert(s[k] == v@[lo + k]);
        }
        if i < hi {
            assert(s[i - lo] == v@[i as int]);
        }
        lemma_first_index_of_is(s, c, i - lo);
    }
    i
}

/// Number of `c` in `v[lo..hi]`.
fn count_char_range(v: &Vec<char>, lo: usize, hi: usize, c: char) -> (r: usize)
    requires
        lo <= hi <= v@.len(),
    ensures
        r == count_char(v@.subrange(lo as int, hi as int), c),
{
    let mut i = lo;
    let mut n: usize = 0;
    while i < hi
        invariant
            lo <= i <= hi <= v@.len(),
            n == count_char(v@.subrange(lo as int, i as int), c),
            n <= i - lo,
        decreases hi - i,
    {
        assert(v@.subrange(lo as int, i + 1).drop_last() =~= v@.subrange(lo as int, i as int));
        if v[i] == c {
            n = n + 1;
        }
        i = i + 1;
    }
    n
}

/// `str::parse::<i32>` on `v[lo..hi]`.
fn parse_i32_range(v: &Vec<char>, lo: usize, hi: usize) -> (r: Option<i32>)
    requires
        lo <= hi <= v@.len(),
    ensures
        match r {
            Some(n) => parse_i32(v@.subrange(lo as int, hi as int)) == Some(n as int),
            None => parse_i32(v@.subrange(lo as int, hi as int)) is None,
        },
{
    let ghost s = v@.subrange(lo as int, hi as int);
    let mut i = lo;
    let mut neg = false;
    if i < hi && v[i] == '-' {
        neg = true;
        i = i + 1;
    } else if i < hi && v[i] == '+' {
        i = i + 1;
    }
    let start = i;
    let ghost digits = v@.subrange(start as int, hi as int);
    assert(digits =~= if s.len() > 0 && (s[0] == '-' || s[0] == '+') {
        s.skip(1)
    } else {
        s
    });
    assert(neg == (s.len() > 0 && s[0] == '-'));
    if i == hi {
        return None;
    }
    let mut acc: u64 = 0;
    let mut big = false;
    while i < hi
        invariant
            lo <= start <= i <= hi <= v@.len(),
            digits == v@.subrange(start as int, hi as int),
            s == v@.subrange(lo as int, hi as int),
            digits == if s.len() > 0 && (s[0] == '-' || s[0] == '+') {
                s.skip(1)
            } else {
                s
            },
            neg == (s.len() > 0 && s[0] == '-'),
            all_ascii_digits(v@.subrange(start as int, i as int)),
            big ==> digits_value(v@.subrange(start as int, i as int)) > 2147483648,
            !big ==> acc == digits_value(v@.subrange(start as int, i as int)) && acc <= 2147483648,
        decreases hi - i,
    {
        let c = v[i];
        let ghost pre = v@.subrange(start as int, i as int);
        let ghost post = v@.subrange(start as int, i + 1);
        assert(post.drop_last() =~= pre);
        if !(c >= '0' && c <= '9') {
            assert(digits[i - start] == c);
            return None;
        }
        let d = (c as u32 - 48) as u64;
        assert(digits_value(post) == digits_value(pre) * 10 + d);
        if !big {
            acc = acc * 10 + d;
            if acc > 2147483648 {
                big = true;
            }
        }
        assert forall|k: int| 0 <= k < post.len() implies is_ascii_digit(#[trigger] post[k]) by {
            if k < pre.len() {
                assert(post[k] == pre[k]);
            }
        }
        i = i + 1;
    }
    assert(v@.subrange(start as int, i as int) =~= digits);
    if big {
        return None;
    }
    if neg {
        let x = 0i64 - (acc as i64);
        Some(x as i32)
    } else if acc <= 2147483647 {
        Some(acc as i32)
    } else {
        None
    }
}

/// One RGB component of `v[lo..hi]`.
fn parse_u8(v: &Vec<char>, lo: usize, hi: usize) -> (r: Result<u8, ColorError>)
    requires
        lo <= hi <= v@.len(),
    ensures
        match r {
            Ok(x) => spec_parse_u8(v@.subrange(lo as int, hi as int)) == Ok::<u8, ColorErrorView>(x),
            Err(e) => spec_parse_u8(v@.subrange(lo as int, hi as int)) == Err::<u8, ColorErrorView>(e@),
        },
{
    let (a, b) = trim_range(v, lo, hi);
    match parse_i32_range(v, a, b) {
        None => Err(ColorError::InvalidNumber(string_from_range(v, lo, hi))),
        Some(n) => {
            if 0 <= n && n <= 255 {
                Ok(n as u8)
            } else {
                Err(ColorError::OutOfRange(string_from_range(v, lo, hi)))
            }
        },
    }
}

/// The builtin colour named by `v[lo..hi]`.
fn builtin(v: &Vec<char>, lo: usize, hi: usize) -> (r: Option<Color>)
    requires
        lo <= hi <= v@.len(),
    ensures
        r == builtin_color(v@.subrange(lo as int, hi as int)),
{
    if range_eq_str(v, lo, hi, "red") {
        Some(Color::rgb(255, 0, 0))
    } else if range_eq_str(v, lo, hi, "green") {
        Some(Color::rgb(0, 255, 0))
    } else if range_eq_str(v, lo, hi, "sgreen") {
        Some(Color::rgb(128, 255, 128))
    } else if range_eq_str(v, lo, hi, "blue") {
        Some(Color::rgb(0, 0, 255))
    } else if range_eq_str(v, lo, hi, "yellow") {
        Some(Color::rgb(255, 255, 0))
    } else if range_eq_str(v, lo, hi, "cyan") {
        Some(Color::rgb(0, 255, 255))
    } else if range_eq_str(v, lo, hi, "magenta") {
        Some(Color::rgb(255, 0, 255))
    } else if range_eq_str(v, lo, hi, "white") {
        Some(Color::rgb(255, 255, 255))
    } else if range_eq_str(v, lo, hi, "black") {
        Some(Color::rgb(0, 0, 0))
    } else if range_eq_str(v, lo, hi, "gray") {
        Some(Color::rgb(128, 128, 128))
    } else {
        None
    }
}

/// What the tag text `v[lo..hi]` stands for.
fn parse_tag(v: &Vec<char>, lo: usize, hi: usize) -> (r: Result<Control, ColorError>)
    requires
        lo <= hi <= v@.len(),
    ensures
        match r {
            Ok(c) => spec_parse_tag(v@.subrange(lo as int, hi as int)) == Ok::<Control, ColorErrorView>(c),
            Err(e) => spec_parse_tag(v@.subrange(lo as int, hi as int)) == Err::<Control, ColorErrorView>(e@),
        },
{
    let (a, b) = trim_range(v, lo, hi);
    let ghost t = v@.subrange(a as int, b as int);
    if a == b {
        return Err(ColorError::EmptyTag);
    }
    if range_eq_str(v, a, b, "reset") {
        return Ok(Control::Reset);
    }
    if v[a] == '.' {
        assert(t[0] == v@[a as int]);
        let ghost body = t.skip(1);
        assert(body =~= v@.subrange(a + 1, b as int));
        let cnt = count_char_range(v, a + 1, b, '/');
        if cnt == 2 {
            let k1 = find_char(v, a + 1, b, '/');
            proof {
                if k1 == b {
                    lemma_no_index_no_count(body, '/');
                }
            }
            assert(k1 < b);
            let ghost rest = body.skip(k1 - a - 1 + 1);
            assert(rest =~= v@.subrange(k1 + 1, b as int));
            let k2 = find_char(v, k1 + 1, b, '/');
            proof {
                lemma_count_after_first(body, '/');
                if k2 == b {
                    lemma_no_index_no_count(rest, '/');
                }
            }
            assert(k2 < b);
            assert(body.take(k1 - a - 1) =~= v@.subrange(a + 1, k1 as int));
            assert(rest.take(k2 - k1 - 1) =~= v@.subrange(k1 + 1, k2 as int));
            assert(rest.skip(k2 - k1 - 1 + 1) =~= v@.subrange(k2 + 1, b as int));
            let k3 = k2 + 1;
            let r = parse_u8(v, a + 1, k1)?;
            let g = parse_u8(v, k1 + 1, k2)?;
            let bl = parse_u8(v, k3, b)?;
            Ok(Control::Fg(Color::rgb(r, g, bl)))
        } else if cnt == 3 {
            Err(ColorError::InvalidFormat(owned("rgba not supported")))
        } else {
            Err(ColorError::InvalidFormat(string_from_range(v, a, b)))
        }
    } else {
        match builtin(v, a, b) {
            Some(c) => Ok(Control::Fg(c)),
            None => Err(ColorError::UnknownBuiltin(string_from_range(v, a, b))),
        }
    }
}

proof fn lemma_count_after_first(s: Seq<char>, c: char)
    requires
        first_index_of(s, c) < s.len(),
    ensures
        count_char(s, c) == 1 + count_char(s.skip(first_index_of(s, c) + 1int), c),
    decreases s.len(),
{
    lemma_count_first(s, c);
    if s[0] == c {
        assert(s.skip(1) =~= s.drop_first());
    } else {
        let m = first_index_of(s.drop_first(), c);
        lemma_count_after_first(s.drop_first(), c);
        assert(s.drop_first().skip(m + 1int) =~= s.skip(m + 2int));
    }
}

proof fn lemma_no_index_no_count(s: Seq<char>, c: char)
    requires
        first_index_of(s, c) == s.len(),
    ensures
        count_char(s, c) == 0,
    decreases s.len(),
{
    if s.len() > 0 {
        lemma_no_index_no_count(s.drop_first(), c);
        lemma_count_first(s, c);
    }
}

proof fn lemma_count_first(s: Seq<char>, c: char)
    requires
        s.len() > 0,
    ensures
        count_char(s, c) == count_char(s.drop_first(), c) + if s[0] == c {
            1nat
        } else {
            0nat
        },
    decreases s.len(),
{
    if s.len() > 1 {
        lemma_count_first(s.drop_last(), c);
        assert(s.drop_last().drop_first() =~= s.drop_first().drop_last());
        assert(s.drop_first().last() == s.last());
        assert(s.drop_last()[0] == s[0]);
    } else {
        assert(s.drop_first().len() == 0);
        assert(s.drop_last().len() == 0);
        assert(count_char(s.drop_last(), c) == 0);
        assert(count_char(s.drop_first(), c) == 0);
    }
}

/// Formats with the default delimiter `|`.
pub fn format_color(input: &str) -> (res: Result<String, ColorError>)
    ensures
        result_view(res) == spec_format(input@, '|'),
{
    format_color_with_delim(input, '|')
}

/// Replaces every `$<tag><delim>` colour tag of `input` by its ANSI sequence and every
/// `$$` by `$`. Fails on the first malformed tag, unknown builtin, invalid number or
/// RGBA triple.
pub fn format_color_with_delim(input: &str, delim: char) -> (res: Result<String, ColorError>)
    ensures
        result_view(res) == spec_format(input@, delim),
{
    let v = chars_of(input);
    let n = v.len();
    let mut out = String::new();
    let mut i: usize = 0;
    assert(v@.skip(0) =~= v@);
    while i < n
        invariant
            n == v@.len(),
            v@ == input@,
            i <= n,
            spec_format(input@, delim) == prepend(out@, spec_format(v@.skip(i as int), delim)),
        decreases n - i,
    {
        let ghost s = v@.skip(i as int);
        let ch = v[i];
        assert(s[0] == ch);
        if ch == '$' {
            if i + 1 < n && v[i + 1] == '$' {
                assert(s[1] == v@[i + 1]);
                assert(s.skip(2) =~= v@.skip(i + 2));
                let ghost before = out@;
                push_char(&mut out, '$');
                proof {
                    lemma_prepend_assoc(before, seq!['$'], spec_format(v@.skip(i + 2), delim));
                    assert(before.push('$') =~= before + seq!['$']);
                }
                i = i + 2;
                continue ;
            }
            let ghost rest = s.skip(1);
            assert(rest =~= v@.subrange(i + 1, n as int));
            let j = find_char(&v, i + 1, n, delim);
            if j == n {
                return Err(ColorError::InvalidFormat(owned("unterminated tag")));
            }
            assert(rest.take(j - i - 1) =~= v@.subrange(i + 1, j as int));
            let (a, b) = trim_range(&v, i + 1, j);
            if a == b {
                return Err(ColorError::EmptyTag);
            }
            let ctrl = match parse_tag(&v, a, b) {
                Ok(c) => c,
                Err(e) => {
                    return Err(e);
                },
            };
            let ansi = ctrl.to_ansi();
            let ghost before = out@;
            push_str(&mut out, ansi.as_str());
            assert(rest.skip(j - i - 1 + 1) =~= v@.skip(j + 1));
            proof {
                lemma_prepend_assoc(before, ansi_of(ctrl), spec_format(v@.skip(j + 1), delim));
            }
            i = j + 1;
        } else {
            let ghost before = out@;
            push_char(&mut out, ch);
            assert(s.drop_first() =~= v@.skip(i + 1));
            proof {
                lemma_prepend_assoc(before, seq![ch], spec_format(v@.skip(i + 1), delim));
                assert(before.push(ch) =~= before + seq![ch]);
            }
            i = i + 1;
        }
    }
    assert(v@.skip(n as int) =~= Seq::<char>::empty());
    assert(out@ + Seq::<char>::empty() =~= out@);
    Ok(out)
}

proof fn lemma_prepend_assoc(p: Seq<char>, q: Seq<char>, r: Result<Seq<char>, ColorErrorView>)
    ensures
        prepend(p, prepend(q, r)) == prepend(p + q, r),
{
    match r {
        Ok(x) => {
            assert(p + (q + x) =~= (p + q) + x);
        },
        Err(_) => {},
    }
}

/// Text without a `$` has no tags: formatting gives it back unchanged.
pub proof fn lemma_plain_text_unchanged(s: Seq<char>, delim: char)
    requires
        forall|i: int| 0 <= i < s.len() ==> s[i] != '$',
    ensures
        spec_format(s, delim) == Ok::<Seq<char>, ColorErrorView>(s),
    decreases s.len(),
{
    if s.len() > 0 {
        let rest = s.drop_first();
        assert forall|i: int| 0 <= i < rest.len() implies rest[i] != '$' by {
            assert(rest[i] == s[i + 1]);
        }
        lemma_plain_text_unchanged(rest, delim);
        assert(s[0] != '$');
        assert(seq![s[0]] + rest =~= s);
    } else {
        assert(s =~= Seq::<char>::empty());
    }
}

/// A number's decimal digits as one RGB component: they parse back to the number.
proof fn lemma_component(x: u8)
    ensures
        spec_parse_u8(decimal(x as nat)) == Ok::<u8, ColorErrorView>(x),
        forall|i: int| 0 <= i < decimal(x as nat).len() ==> is_ascii_digit(#[trigger] decimal(x as nat)[i]),
        decimal(x as nat).len() > 0,
{
    let d = decimal(x as nat);
    lemma_decimal_digits(x as nat);
    assert(is_ascii_digit(d[0]) && is_ascii_digit(d.last()));
    assert((d[0] as u32) < 128 && (d.last() as u32) < 128);
    lemma_trim_unchanged(d);
    assert(d[0] != '-' && d[0] != '+');
}

proof fn lemma_no_slash_in_digits(d: Seq<char>, rest: Seq<char>)
    requires
        forall|i: int| 0 <= i < d.len() ==> is_ascii_digit(#[trigger] d[i]),
    ensures
        first_index_of(d + seq!['/'] + rest, '/') == d.len(),
        (d + seq!['/'] + rest).take(d.len() as int) == d,
        (d + seq!['/'] + rest).skip(d.len() + 1int) == rest,
{
    let s = d + seq!['/'] + rest;
    assert forall|i: int| 0 <= i < d.len() implies #[trigger] s[i] != '/' by {
        assert(s[i] == d[i]);
    }
    lemma_first_index_of_is(s, '/', d.len() as int);
    assert(s.take(d.len() as int) =~= d);
    assert(s.skip(d.len() + 1int) =~= rest);
}

/// `r/g/b` in decimal: digits and two separators, read back as the three components.
proof fn lemma_rgb_body(r: u8, g: u8, b: u8)
    ensures
        ({
            let body = decimal(r as nat) + seq!['/'] + (decimal(g as nat) + seq!['/'] + decimal(b as nat));
            &&& body.len() > 0
            &&& is_ascii_digit(body.last())
            &&& forall|i: int| 0 <= i < body.len() ==> is_ascii_digit(#[trigger] body[i]) || body[i] == '/'
            &&& spec_parse_rgb(body) == Ok::<Control, ColorErrorView>(Control::Fg(rgb(r, g, b)))
            &&& count_char(body, '/') == 2
        }),
{
    let dr = decimal(r as nat);
    let dg = decimal(g as nat);
    let db = decimal(b as nat);
    lemma_component(r);
    lemma_component(g);
    lemma_component(b);
    let gb = dg + seq!['/'] + db;
    let body = dr + seq!['/'] + gb;
    lemma_no_slash_in_digits(dr, gb);
    lemma_no_slash_in_digits(dg, db);
    assert forall|i: int| 0 <= i < db.len() implies #[trigger] db[i] != '/' by {}
    lemma_first_index_of_is(db, '/', db.len() as int);
    lemma_no_index_no_count(db, '/');
    lemma_count_after_first(gb, '/');
    lemma_count_after_first(body, '/');
    assert forall|i: int| 0 <= i < gb.len() implies is_ascii_digit(#[trigger] gb[i]) || gb[i] == '/' by {
        if i < dg.len() {
            assert(gb[i] == dg[i]);
        } else if i > dg.len() {
            assert(gb[i] == db[i - dg.len() - 1]);
        }
    }
    assert forall|i: int| 0 <= i < body.len() implies is_ascii_digit(#[trigger] body[i]) || body[i] == '/' by {
        if i < dr.len() {
            assert(body[i] == dr[i]);
        } else if i > dr.len() {
            assert(body[i] == gb[i - dr.len() - 1]);
        }
    }
    assert(body.last() == db.last());
    assert(is_ascii_digit(db[db.len() - 1]));
}

/// An RGB tag whose components are written as plain decimal numbers becomes exactly the
/// truecolor foreground sequence of those components.
pub proof fn lemma_rgb_tag(r: u8, g: u8, b: u8, d: char)
    requires
        !is_ascii_digit(d),
        d != '/',
        d != '.',
    ensures
        spec_format(
            seq!['$', '.'] + decimal(r as nat) + seq!['/'] + decimal(g as nat) + seq!['/'] + decimal(
                b as nat,
            ) + seq![d],
            d,
        ) == Ok::<Seq<char>, ColorErrorView>(truecolor_fg(r as nat, g as nat, b as nat)),
{
    let dr = decimal(r as nat);
    let dg = decimal(g as nat);
    let db = decimal(b as nat);
    let body = dr + seq!['/'] + (dg + seq!['/'] + db);
    lemma_rgb_body(r, g, b);
    let s = seq!['$', '.'] + body + seq![d];
    assert(seq!['$', '.'] + dr + seq!['/'] + dg + seq!['/'] + db + seq![d] =~= s);
    let rest = s.skip(1);
    let raw = seq!['.'] + body;
    assert(rest =~= raw + seq![d]);
    assert forall|i: int| 0 <= i < rest.len() - 1 implies #[trigger] rest[i] != d by {
        if i > 0 {
            assert(rest[i] == body[i - 1]);
        }
    }
    lemma_first_index_of_is(rest, d, rest.len() - 1);
    assert(rest.take(rest.len() - 1) =~= raw);
    assert(raw.last() == body.last());
    assert((body.last() as u32) < 128);
    lemma_trim_unchanged(raw);
    assert(raw[0] == '.');
    reveal_strlit("reset");
    assert(raw != "reset"@) by {
        assert("reset"@[0] == 'r');
    }
    assert(raw.skip(1) =~= body);
    assert(spec_parse_tag(raw) == Ok::<Control, ColorErrorView>(Control::Fg(rgb(r, g, b))));
    assert(rest.skip(rest.len() as int) =~= Seq::<char>::empty());
    assert(spec_format(Seq::<char>::empty(), d) == Ok::<Seq<char>, ColorErrorView>(Seq::empty()));
    assert(s[0] == '$' && s[1] == '.');
    assert(ansi_of(Control::Fg(rgb(r, g, b))) + Seq::<char>::empty() =~= ansi_fg(rgb(r, g, b)));
}

/// The truecolor foreground sequence of `r`, `g`, `b`: `ESC [ 38 ; 2 ; r ; g ; b m`.
pub open spec fn truecolor_fg(r: nat, g: nat, b: nat) -> Seq<char> {
    "\x1b[38;2;"@ + decimal(r) + ";"@ + decimal(g) + ";"@ + decimal(b) + "m"@
}

proof fn lemma_name_tag(name: Seq<char>, d: char, rest: Seq<char>, col: Color)
    requires
        name.len() > 0,
        forall|i: int| 0 <= i < name.len() ==> is_ascii_letter(#[trigger] name[i]),
        !is_ascii_letter(d),
        name.len() != 5 || name[0] != 'r',
        builtin_color(name) == Some(col),
    ensures
        spec_format(seq!['$'] + name + seq![d] + rest, d) == prepend(ansi_fg(col), spec_format(rest, d)),
{
    let s = seq!['$'] + name + seq![d] + rest;
    let r2 = s.skip(1);
    assert(r2 =~= name + seq![d] + rest);
    assert forall|i: int| 0 <= i < name.len() implies #[trigger] r2[i] != d by {
        assert(r2[i] == name[i]);
    }
    lemma_first_index_of_is(r2, d, name.len() as int);
    assert(r2.take(name.len() as int) =~= name);
    assert(is_ascii_letter(name[0]) && is_ascii_letter(name.last()));
    assert((name[0] as u32) < 128 && (name.last() as u32) < 128);
    lemma_trim_unchanged(name);
    assert(r2.skip(name.len() + 1int) =~= rest);
    assert(s[1] == name[0]);
    assert(name[0] != '.');
    reveal_strlit("reset");
    assert(name != "reset"@) by {
        if name.len() == 5 {
            assert("reset"@[0] == 'r');
        }
    }
}

proof fn lemma_tag_red(d: char, rest: Seq<char>)
    requires
        !is_ascii_letter(d),
    ensures
        spec_format(seq!['$'] + "red"@ + seq![d] + rest, d) == prepend(truecolor_fg(255, 0, 0), spec_format(rest, d)),
{
    reveal_strlit("red");
    let name = "red"@;
    assert forall|i: int| 0 <= i < name.len() implies is_ascii_letter(#[trigger] name[i]) by {}
    lemma_name_tag(name, d, rest, rgb(255, 0, 0));
}

proof fn lemma_tag_green(d: char, rest: Seq<char>)
    requires
        !is_ascii_letter(d),
    ensures
        spec_format(seq!['$'] + "green"@ + seq![d] + rest, d) == prepend(truecolor_fg(0, 255, 0), spec_format(rest, d)),
{
    reveal_strlit("red");
    reveal_strlit("green");
    let name = "green"@;
    assert forall|i: int| 0 <= i < name.len() implies is_ascii_letter(#[trigger] name[i]) by {}
    lemma_name_tag(name, d, rest, rgb(0, 255, 0));
}

proof fn lemma_tag_sgreen(d: char, rest: Seq<char>)
    requires
        !is_ascii_letter(d),
    ensures
        spec_format(seq!['$'] + "sgreen"@ + seq![d] + rest, d) == prepend(truecolor_fg(128, 255, 128), spec_format(rest, d)),
{
    reveal_strlit("red");
    reveal_strlit("green");
    reveal_strlit("sgreen");
    let name = "sgreen"@;
    assert forall|i: int| 0 <= i < name.len() implies is_ascii_letter(#[trigger] name[i]) by {}
    lemma_name_tag(name, d, rest, rgb(128, 255, 128));
}

proof fn lemma_tag_blue(d: char, rest: Seq<char>)
    requires
        !is_ascii_letter(d),
    ensures
        spec_format(seq!['$'] + "blue"@ + seq![d] + rest, d) == prepend(truecolor_fg(0, 0, 255), spec_format(rest, d)),
{
    reveal_strlit("red");
    reveal_strlit("green");
    reveal_strlit("sgreen");
    reveal_strlit("blue");
    let name = "blue"@;
    assert forall|i: int| 0 <= i < name.len() implies is_ascii_letter(#[trigger] name[i]) by {}
    lemma_name_tag(name, d, rest, rgb(0, 0, 255));
}

proof fn lemma_tag_yellow(d: char, rest: Seq<char>)
    requires
        !is_ascii_letter(d),
    ensures
        spec_format(seq!['$'] + "yellow"@ + seq![d] + rest, d) == prepend(truecolor_fg(255, 255, 0), spec_format(rest, d)),
{
    reveal_strlit("red");
    reveal_strlit("green");
    reveal_strlit("sgreen");
    reveal_strlit("blue");
    reveal_strlit("yellow");
    let name = "yellow"@;
    assert forall|i: int| 0 <= i < name.len() implies is_ascii_letter(#[trigger] name[i]) by {}
    lemma_name_tag(name, d, rest, rgb(255, 255, 0));
}

proof fn lemma_tag_cyan(d: char, rest: Seq<char>)
    requires
        !is_ascii_letter(d),
    ensures
        spec_format(seq!['$'] + "cyan"@ + seq![d] + rest, d) == prepend(truecolor_fg(0, 255, 255), spec_format(rest, d)),
{
    reveal_strlit("red");
    reveal_strlit("green");
    reveal_strlit("sgreen");
    reveal_strlit("blue");
    reveal_strlit("yellow");
    reveal_strlit("cyan");
    let name = "cyan"@;
    assert forall|i: int| 0 <= i < name.len() implies is_ascii_letter(#[trigger] name[i]) by {}
    lemma_name_tag(name, d, rest, rgb(0, 255, 255));
}

proof fn lemma_tag_magenta(d: char, rest: Seq<char>)
    requires
        !is_ascii_letter(d),
    ensures
        spec_format(seq!['$'] + "magenta"@ + seq![d] + rest, d) == prepend(truecolor_fg(255, 0, 255), spec_format(rest, d)),
{
    reveal_strlit("red");
    reveal_strlit("green");
    reveal_strlit("sgreen");
    reveal_strlit("blue");
    reveal_strlit("yellow");
    reveal_strlit("cyan");
    reveal_strlit("magenta");
    let name = "magenta"@;
    assert forall|i: int| 0 <= i < name.len() implies is_ascii_letter(#[trigger] name[i]) by {}
    lemma_name_tag(name, d, rest, rgb(255, 0, 255));
}

proof fn lemma_tag_white(d: char, rest: Seq<char>)
    requires
        !is_ascii_letter(d),
    ensures
        spec_format(seq!['$'] + "white"@ + seq![d] + rest, d) == prepend(truecolor_fg(255, 255, 255), spec_format(rest, d)),
{
    reveal_strlit("red");
    reveal_strlit("green");
    reveal_strlit("sgreen");
    reveal_strlit("blue");
    reveal_strlit("yellow");
    reveal_strlit("cyan");
    reveal_strlit("magenta");
    reveal_strlit("white");
    let name = "white"@;
    assert forall|i: int| 0 <= i < name.len() implies is_ascii_letter(#[trigger] name[i]) by {}
    lemma_name_tag(name, d, rest, rgb(255, 255, 255));
}

proof fn lemma_tag_black(d: char, rest: Seq<char>)
    requires
        !is_ascii_letter(d),
    ensures
        spec_format(seq!['$'] + "black"@ + seq![d] + rest, d) == prepend(truecolor_fg(0, 0, 0), spec_format(rest, d)),
{
    reveal_strlit("red");
    reveal_strlit("green");
    reveal_strlit("sgreen");
    reveal_strlit("blue");
    reveal_strlit("yellow");
    reveal_strlit("cyan");
    reveal_strlit("magenta");
    reveal_strlit("white");
    reveal_strlit("black");
    let name = "black"@;
    assert forall|i: int| 0 <= i < name.len() implies is_ascii_letter(#[trigger] name[i]) by {}
    lemma_name_tag(name, d, rest, rgb(0, 0, 0));
}

proof fn lemma_tag_gray(d: char, rest: Seq<char>)
    requires
        !is_ascii_letter(d),
    ensures
        spec_format(seq!['$'] + "gray"@ + seq![d] + rest, d) == prepend(truecolor_fg(128, 128, 128), spec_format(rest, d)),
{
    reveal_strlit("red");
    reveal_strlit("green");
    reveal_strlit("sgreen");
    reveal_strlit("blue");
    reveal_strlit("yellow");
    reveal_strlit("cyan");
    reveal_strlit("magenta");
    reveal_strlit("white");
    reveal_strlit("black");
    reveal_strlit("gray");
    let name = "gray"@;
    assert forall|i: int| 0 <= i < name.len() implies is_ascii_letter(#[trigger] name[i]) by {}
    lemma_name_tag(name, d, rest, rgb(128, 128, 128));
}

/// Each builtin colour tag becomes the truecolor sequence of its own colour, the same
/// as the RGB tag of that colour: `red` 255/0/0, `green` 0/255/0, `sgreen` 128/255/128,
/// `blue` 0/0/255, `yellow` 255/255/0, `cyan` 0/255/255, `magenta` 255/0/255, `white`
/// 255/255/255, `black` 0/0/0, `gray` 128/128/128; the text after the tag follows.
pub proof fn lemma_builtin_tags(d: char, rest: Seq<char>)
    requires
        !is_ascii_letter(d),
    ensures
        spec_format(seq!['$'] + "red"@ + seq![d] + rest, d) == prepend(truecolor_fg(255, 0, 0), spec_format(rest, d)),
        spec_format(seq!['$'] + "green"@ + seq![d] + rest, d) == prepend(truecolor_fg(0, 255, 0), spec_format(rest, d)),
        spec_format(seq!['$'] + "sgreen"@ + seq![d] + rest, d) == prepend(truecolor_fg(128, 255, 128), spec_format(rest, d)),
        spec_format(seq!['$'] + "blue"@ + seq![d] + rest, d) == prepend(truecolor_fg(0, 0, 255), spec_format(rest, d)),
        spec_format(seq!['$'] + "yellow"@ + seq![d] + rest, d) == prepend(truecolor_fg(255, 255, 0), spec_format(rest, d)),
        spec_format(seq!['$'] + "cyan"@ + seq![d] + rest, d) == prepend(truecolor_fg(0, 255, 255), spec_format(rest, d)),
        spec_format(seq!['$'] + "magenta"@ + seq![d] + rest, d) == prepend(truecolor_fg(255, 0, 255), spec_format(rest, d)),
        spec_format(seq!['$'] + "white"@ + seq![d] + rest, d) == prepend(truecolor_fg(255, 255, 255), spec_format(rest, d)),
        spec_format(seq!['$'] + "black"@ + seq![d] + rest, d) == prepend(truecolor_fg(0, 0, 0), spec_format(rest, d)),
        spec_format(seq!['$'] + "gray"@ + seq![d] + rest, d) == prepend(truecolor_fg(128, 128, 128), spec_format(rest, d)),
{
    lemma_tag_red(d, rest);
    lemma_tag_green(d, rest);
    lemma_tag_sgreen(d, rest);
    lemma_tag_blue(d, rest);
    lemma_tag_yellow(d, rest);
    lemma_tag_cyan(d, rest);
    lemma_tag_magenta(d, rest);
    lemma_tag_white(d, rest);
    lemma_tag_black(d, rest);
    lemma_tag_gray(d, rest);
}

/// `$$` stands for one `$`, and `$reset` followed by the delimiter becomes the reset
/// sequence `ESC [ 0 m`; the rest of the text follows.
pub proof fn lemma_escape_and_reset(d: char, rest: Seq<char>)
    requires
        !is_ascii_letter(d),
    ensures
        spec_format(seq!['$', '$'] + rest, d) == prepend(seq!['$'], spec_format(rest, d)),
        spec_format(seq!['$'] + "reset"@ + seq![d] + rest, d) == prepend("\x1b[0m"@, spec_format(rest, d)),
{
    assert((seq!['$', '$'] + rest).skip(2) =~= rest);
    reveal_strlit("reset");
    let name = "reset"@;
    let s = seq!['$'] + name + seq![d] + rest;
    let r2 = s.skip(1);
    assert(r2 =~= name + seq![d] + rest);
    assert forall|i: int| 0 <= i < name.len() implies #[trigger] r2[i] != d by {
        assert(r2[i] == name[i]);
        assert(is_ascii_letter(name[i]));
    }
    lemma_first_index_of_is(r2, d, name.len() as int);
    assert(r2.take(name.len() as int) =~= name);
    lemma_trim_unchanged(name);
    assert(r2.skip(name.len() + 1int) =~= rest);
    assert(s[1] == name[0]);
}

} // verus!
