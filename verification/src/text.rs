//! Text: comparison, numbers as decimal digits, and fitting a label to a width.

use vstd::prelude::*;
use vstd::string::*;

verus! {

/// The characters of `s`, one by one.
pub fn to_chars(s: &str) -> (r: Vec<char>)
    ensures
        r@ == s@,
{
    let mut out: Vec<char> = Vec::new();
    for c in it: s.chars()
        invariant
            it.seq() == s@,
            out@ == s@.take(it.index() as int),
    {
        out.push(c);
    }
    out
}

/// Whether two texts hold the same characters.
pub fn same_text(a: &str, b: &str) -> (r: bool)
    ensures
        r == (a@ == b@),
{
    let x = to_chars(a);
    let y = to_chars(b);
    if x.len() != y.len() {
        return false;
    }
    let mut i: usize = 0;
    while i < x.len()
        invariant
            i <= x.len(),
            x@ == a@,
            y@ == b@,
            x.len() == y.len(),
            forall|j: int| 0 <= j < i ==> x@[j] == y@[j],
        decreases x.len() - i,
    {
        if x[i] != y[i] {
            return false;
        }
        i += 1;
    }
    assert(a@ =~= b@);
    true
}

/// `a` comes before `b`: at the first place where they differ, `a` has ended or
/// has the smaller code point.
pub open spec fn text_lt(a: Seq<char>, b: Seq<char>) -> bool
    decreases b.len(),
{
    if b.len() == 0 {
        false
    } else if a.len() == 0 {
        true
    } else if a[0] != b[0] {
        (a[0] as u32) < (b[0] as u32)
    } else {
        text_lt(a.drop_first(), b.drop_first())
    }
}

/// Whether `a` comes before `b`.
pub fn text_precedes(a: &str, b: &str) -> (r: bool)
    ensures
        r == text_lt(a@, b@),
{
    let x = to_chars(a);
    let y = to_chars(b);
    let mut i: usize = 0;
    assert(a@.skip(0) =~= a@ && b@.skip(0) =~= b@);
    while i < x.len() && i < y.len()
        invariant
            i <= x.len(),
            i <= y.len(),
            x@ == a@,
            y@ == b@,
            text_lt(a@, b@) == text_lt(a@.skip(i as int), b@.skip(i as int)),
        decreases x.len() - i,
    {
        if x[i] != y[i] {
            return (x[i] as u32) < (y[i] as u32);
        }
        assert(a@.skip(i as int).drop_first() =~= a@.skip(i + 1));
        assert(b@.skip(i as int).drop_first() =~= b@.skip(i + 1));
        i += 1;
    }
    i < y.len()
}

/// No text comes before itself.
pub proof fn lemma_text_lt_irreflexive(a: Seq<char>)
    ensures
        !text_lt(a, a),
    decreases a.len(),
{
    if a.len() > 0 {
        lemma_text_lt_irreflexive(a.drop_first());
    }
}

/// The order of texts is transitive.
pub proof fn lemma_text_lt_transitive(a: Seq<char>, b: Seq<char>, c: Seq<char>)
    requires
        text_lt(a, b),
        text_lt(b, c),
    ensures
        text_lt(a, c),
    decreases b.len(),
{
    if a.len() > 0 && a[0] == b[0] && b[0] == c[0] {
        lemma_text_lt_transitive(a.drop_first(), b.drop_first(), c.drop_first());
    }
}

/// Of two different texts one comes before the other.
pub proof fn lemma_text_lt_total(a: Seq<char>, b: Seq<char>)
    ensures
        a == b || text_lt(a, b) || text_lt(b, a),
    decreases a.len(),
{
    if a.len() == 0 {
        if b.len() == 0 {
            assert(a =~= b);
        }
    } else if b.len() > 0 && a[0] == b[0] {
        lemma_text_lt_total(a.drop_first(), b.drop_first());
        if a.drop_first() == b.drop_first() {
            assert(a =~= seq![a[0]] + a.drop_first());
            assert(b =~= seq![b[0]] + b.drop_first());
        }
    } else if b.len() > 0 {
        vstd::utf8::char_u32_cast(a[0], a[0] as u32);
        vstd::utf8::char_u32_cast(b[0], b[0] as u32);
    }
}

// ---- decimal numbers ----

/// The digit that stands for `d`.
pub open spec fn digit_char(d: int) -> char {
    (d + 48) as char
}

/// Whether `c` is one of the ten decimal digits.
pub open spec fn is_digit(c: char) -> bool {
    48 <= c as u32 <= 57
}

/// `n` in decimal digits, without leading zeros.
pub open spec fn decimal(n: nat) -> Seq<char>
    decreases n,
{
    if n < 10 {
        seq![digit_char(n as int)]
    } else {
        decimal(n / 10).push(digit_char((n % 10) as int))
    }
}

/// The number that a run of digits stands for.
pub open spec fn digits_value(s: Seq<char>) -> nat
    decreases s.len(),
{
    if s.len() == 0 {
        0
    } else {
        (10 * digits_value(s.drop_last()) + (s.last() as u32 - 48)) as nat
    }
}

fn digit_text(d: u64) -> (r: &'static str)
    requires
        d < 10,
    ensures
        r@ == seq![digit_char(d as int)],
{
    proof {
        reveal_strlit("0");
        reveal_strlit("1");
        reveal_strlit("2");
        reveal_strlit("3");
        reveal_strlit("4");
        reveal_strlit("5");
        reveal_strlit("6");
        reveal_strlit("7");
        reveal_strlit("8");
        reveal_strlit("9");
    }
    let r = match d {
        0 => "0",
        1 => "1",
        2 => "2",
        3 => "3",
        4 => "4",
        5 => "5",
        6 => "6",
        7 => "7",
        8 => "8",
        _ => "9",
    };
    assert(r@ =~= seq![digit_char(d as int)]);
    r
}

/// `n` written in decimal digits.
pub fn decimal_text(n: u64) -> (r: String)
    ensures
        r@ == decimal(n as nat),
    decreases n,
{
    if n < 10 {
        digit_text(n).to_owned()
    } else {
        let mut r = decimal_text(n / 10);
        r.append(digit_text(n % 10));
        assert(r@ =~= decimal((n / 10) as nat).push(digit_char((n % 10) as int)));
        r
    }
}

/// Every character of `s` is a decimal digit.
pub open spec fn all_digits(s: Seq<char>) -> bool {
    forall|i: int| 0 <= i < s.len() ==> is_digit(#[trigger] s[i])
}

/// The number that `s` stands for, where it is a run of digits whose value fits.
pub open spec fn digits_u32(s: Seq<char>) -> Option<u32> {
    if s.len() > 0 && all_digits(s) && digits_value(s) <= u32::MAX {
        Some(digits_value(s) as u32)
    } else {
        None
    }
}

/// What `str::parse::<u32>` accepts: digits, with one `+` allowed before them, whose
/// value fits.
pub open spec fn parsed_u32(s: Seq<char>) -> Option<u32> {
    if s.len() > 0 && s[0] == '+' {
        digits_u32(s.drop_first())
    } else {
        digits_u32(s)
    }
}

proof fn lemma_digits_value_grows(s: Seq<char>, i: int)
    requires
        0 <= i <= s.len(),
        all_digits(s),
    ensures
        digits_value(s.take(i)) <= digits_value(s),
    decreases s.len() - i,
{
    if i == s.len() {
        assert(s.take(i) =~= s);
    } else {
        assert(s.take(i + 1).drop_last() =~= s.take(i));
        assert(is_digit(s[i]));
        lemma_digits_value_grows(s, i + 1);
    }
}

/// Reads the characters of `s` in `[start, end)` as an unsigned 32-bit number.
fn parse_u32(s: &Vec<char>, start: usize, end: usize) -> (r: Option<u32>)
    requires
        start <= end <= s.len(),
    ensures
        r == parsed_u32(s@.subrange(start as int, end as int)),
{
    let ghost whole = s@.subrange(start as int, end as int);
    let first: usize = if start < end && s[start] == '+' {
        start + 1
    } else {
        start
    };
    let ghost digits = s@.subrange(first as int, end as int);
    assert(parsed_u32(whole) == digits_u32(digits)) by {
        if whole.len() > 0 && whole[0] == '+' {
            assert(digits =~= whole.drop_first());
        }
    }
    if first == end {
        return None;
    }
    let mut value: u64 = 0;
    let mut i: usize = first;
    assert(digits.take(0) =~= Seq::<char>::empty());
    while i < end
        invariant
            first <= i <= end <= s.len(),
            first < end,
            digits == s@.subrange(first as int, end as int),
            forall|j: int| 0 <= j < i - first ==> is_digit(#[trigger] digits[j]),
            value == digits_value(digits.take(i - first)),
            value <= u32::MAX,
            parsed_u32(whole) == digits_u32(digits),
            whole == s@.subrange(start as int, end as int),
        decreases end - i,
    {
        let c: char = s[i];
        assert(c == digits[i - first]);
        if (c as u32) < 48 || (c as u32) > 57 {
            assert(!is_digit(digits[i - first]));
            return None;
        }
        assert(digits.take(i - first + 1).drop_last() =~= digits.take(i - first));
        value = value * 10 + ((c as u32) - 48) as u64;
        i += 1;
        if value > 0xffff_ffff {
            proof {
                if all_digits(digits) {
                    lemma_digits_value_grows(digits, i - first);
                }
            }
            return None;
        }
    }
    assert(digits.take(end - first) =~= digits);
    Some(value as u32)
}

proof fn lemma_digit_char(d: int)
    requires
        0 <= d < 10,
    ensures
        is_digit(digit_char(d)),
        digit_char(d) as u32 == d + 48,
{
}

proof fn lemma_decimal_is_digits(n: nat)
    ensures
        decimal(n).len() > 0,
        all_digits(decimal(n)),
        digits_value(decimal(n)) == n,
    decreases n,
{
    if n < 10 {
        let s = decimal(n);
        lemma_digit_char(n as int);
        assert(s.drop_last() =~= Seq::<char>::empty());
        assert(digits_value(s.drop_last()) == 0);
        assert(s.last() == digit_char(n as int));
    } else {
        lemma_decimal_is_digits(n / 10);
        lemma_digit_char((n % 10) as int);
        let s = decimal(n);
        assert(s.drop_last() =~= decimal(n / 10));
        assert(s.last() == digit_char((n % 10) as int));
    }
}

// ---- white space ----

/// The characters with the Unicode property `White_Space`.
pub open spec fn is_white_space(c: char) -> bool {
    let u = c as u32;
    ||| 0x0009 <= u <= 0x000d
    ||| u == 0x0020
    ||| u == 0x0085
    ||| u == 0x00a0
    ||| u == 0x1680
    ||| 0x2000 <= u <= 0x200a
    ||| u == 0x2028
    ||| u == 0x2029
    ||| u == 0x202f
    ||| u == 0x205f
    ||| u == 0x3000
}

/// `s` without the white space that it starts with.
pub open spec fn trim_start(s: Seq<char>) -> Seq<char>
    decreases s.len(),
{
    if s.len() > 0 && is_white_space(s[0]) {
        trim_start(s.drop_first())
    } else {
        s
    }
}

/// `s` without the white space that it ends with.
pub open spec fn trim_end(s: Seq<char>) -> Seq<char>
    decreases s.len(),
{
    if s.len() > 0 && is_white_space(s.last()) {
        trim_end(s.drop_last())
    } else {
        s
    }
}

/// `s` without white space at either end.
pub open spec fn trim(s: Seq<char>) -> Seq<char> {
    trim_end(trim_start(s))
}

fn white_space(c: char) -> (r: bool)
    ensures
        r == is_white_space(c),
{
    let u: u32 = c as u32;
    (0x0009 <= u && u <= 0x000d) || u == 0x0020 || u == 0x0085 || u == 0x00a0 || u == 0x1680 || (
    0x2000 <= u && u <= 0x200a) || u == 0x2028 || u == 0x2029 || u == 0x202f || u == 0x205f || u
        == 0x3000
}

/// The number in `content` once white space around it is taken off.
pub open spec fn trimmed_u32(content: Seq<char>) -> Option<u32> {
    parsed_u32(trim(content))
}

/// Reads `content`, less the white space around it, as an unsigned 32-bit number.
pub fn parse_trimmed_u32(content: &str) -> (r: Option<u32>)
    ensures
        r == trimmed_u32(content@),
{
    let s = to_chars(content);
    let mut start: usize = 0;
    assert(s@.skip(0) =~= s@);
    while start < s.len() && white_space(s[start])
        invariant
            start <= s.len(),
            trim_start(s@) == trim_start(s@.skip(start as int)),
        decreases s.len() - start,
    {
        assert(s@.skip(start as int).drop_first() =~= s@.skip(start + 1));
        start += 1;
    }
    let mut end: usize = s.len();
    let ghost rest = s@.skip(start as int);
    assert(trim_start(s@) == rest);
    assert(s@.subrange(start as int, end as int) =~= rest);
    while end > start && white_space(s[end - 1])
        invariant
            start <= end <= s.len(),
            trim_end(rest) == trim_end(s@.subrange(start as int, end as int)),
        decreases end,
    {
        assert(s@.subrange(start as int, end as int).drop_last() =~= s@.subrange(
            start as int,
            end - 1,
        ));
        end -= 1;
    }
    parse_u32(&s, start, end)
}

/// Reading back a number that was written in decimal digits gives that number.
pub proof fn law_decimal_reads_back(n: u32)
    ensures
        trimmed_u32(decimal(n as nat)) == Some(n),
{
    lemma_decimal_is_digits(n as nat);
    let s = decimal(n as nat);
    assert(is_digit(s[0]));
    assert(is_digit(s[s.len() - 1]));
    assert(trim(s) == s);
}

// ---- joining ----

/// The parts one after another, with `sep` before each but the first.
pub open spec fn joined(parts: Seq<Seq<char>>, sep: Seq<char>) -> Seq<char>
    decreases parts.len(),
{
    if parts.len() == 0 {
        Seq::empty()
    } else if parts.len() == 1 {
        parts[0]
    } else {
        joined(parts.drop_last(), sep) + (sep + parts.last())
    }
}

/// Joins `parts` with `sep` between them.
pub fn join_texts(parts: &Vec<String>, sep: &str) -> (r: String)
    ensures
        r@ == joined(parts.deep_view(), sep@),
{
    let mut out = String::new();
    let mut i: usize = 0;
    let ghost all = parts.deep_view();
    while i < parts.len()
        invariant
            i <= parts.len(),
            all == parts.deep_view(),
            out@ == joined(all.take(i as int), sep@),
        decreases parts.len() - i,
    {
        assert(all.take(i + 1).drop_last() =~= all.take(i as int));
        assert(all.take(i + 1).last() == parts@[i as int]@);
        if i > 0 {
            out.append(sep);
        }
        out.append(parts[i].as_str());
        assert(out@ =~= joined(all.take(i + 1), sep@));
        i += 1;
    }
    assert(all.take(parts.len() as int) =~= all);
    out
}

// ---- fitting text to a width ----

/// The mark that stands for the part of a text that was cut off.
pub open spec fn ellipsis() -> Seq<char> {
    "\u{2026}"@
}

/// The first `keep` characters of `text` and the ellipsis.
pub open spec fn clipped(text: Seq<char>, keep: int) -> Seq<char> {
    text.take(keep) + ellipsis()
}

/// Where halving `[lo, hi]` ends up, when a prefix is kept exactly if `fits` holds of it.
pub open spec fn bisected(
    text: Seq<char>,
    fits: spec_fn(Seq<char>) -> bool,
    lo: int,
    hi: int,
) -> int
    decreases hi - lo,
{
    if lo >= hi {
        lo
    } else {
        let mid = (lo + hi + 1) / 2;
        if fits(text.take(mid)) {
            bisected(text, fits, mid, hi)
        } else {
            bisected(text, fits, lo, mid - 1)
        }
    }
}

/// `text` itself where the whole of it fits, else the clipped prefix that halving finds.
pub open spec fn fitted(
    text: Seq<char>,
    whole_fits: bool,
    fits: spec_fn(Seq<char>) -> bool,
) -> Seq<char> {
    if whole_fits {
        text
    } else {
        clipped(text, bisected(text, fits, 0, text.len() as int))
    }
}

/// `fits` has been asked about a text with the characters `s` and may answer `b`.
pub open spec fn may_answer<F: Fn(&str) -> bool>(fits: F, s: Seq<char>, b: bool) -> bool {
    exists|t: &str| t@ == s && #[trigger] fits.ensures((t,), b)
}

/// `fits` answers by the characters of a text alone, as `p` says.
pub open spec fn answers_by<F: Fn(&str) -> bool>(
    fits: F,
    p: spec_fn(Seq<char>) -> bool,
) -> bool {
    forall|t: &str, b: bool| #[trigger] fits.ensures((t,), b) ==> b == p(t@)
}

/// Shortens `text` to a prefix with an ellipsis where it is too wide.
///
/// `whole_fits` says whether the text fits as it is; `fits` says whether a prefix
/// leaves room for the ellipsis. The prefix is looked for by halving. Whatever `fits`
/// answers, the prefix that is kept was found to fit (or is empty), and the one that
/// is one character longer was found not to (or is the whole text).
pub fn fit_text<F: Fn(&str) -> bool>(text: &str, whole_fits: bool, fits: F) -> (r: String)
    requires
        forall|t: &str| fits.requires((t,)),
    ensures
        whole_fits ==> r@ == text@,
        !whole_fits ==> exists|keep: int|
            {
                &&& 0 <= keep <= text@.len()
                &&& r@ == #[trigger] clipped(text@, keep)
                &&& keep > 0 ==> may_answer(fits, text@.take(keep), true)
                &&& keep < text@.len() ==> may_answer(fits, text@.take(keep + 1), false)
            },
        forall|p: spec_fn(Seq<char>) -> bool| #[trigger]
            answers_by(fits, p) ==> r@ == fitted(text@, whole_fits, p),
{
    if whole_fits {
        return text.to_owned();
    }
    let n: usize = text.unicode_len();
    let mut lo: usize = 0;
    let mut hi: usize = n;
    while lo < hi
        invariant
            lo <= hi <= n,
            n == text@.len(),
            forall|t: &str| fits.requires((t,)),
            lo > 0 ==> may_answer(fits, text@.take(lo as int), true),
            hi < n ==> may_answer(fits, text@.take(hi + 1), false),
            forall|p: spec_fn(Seq<char>) -> bool| #[trigger]
                answers_by(fits, p) ==> bisected(text@, p, 0, n as int) == bisected(
                    text@,
                    p,
                    lo as int,
                    hi as int,
                ),
        decreases hi - lo,
    {
        let mid: usize = hi - (hi - lo) / 2;
        let prefix = text.substring_char(0, mid);
        assert(prefix@ =~= text@.take(mid as int));
        assert(mid as int == (lo + hi + 1) / 2);
        if fits(prefix) {
            lo = mid;
        } else {
            hi = mid - 1;
        }
    }
    let mut r = text.substring_char(0, lo).to_owned();
    r.append("\u{2026}");
    assert(r@ =~= clipped(text@, lo as int));
    r
}

/// Where a shorter prefix always fits when a longer one does, the prefix that is kept is
/// the longest that fits.
pub proof fn law_fit_keeps_the_longest_prefix(
    text: Seq<char>,
    fits: spec_fn(Seq<char>) -> bool,
    k: int,
)
    requires
        forall|i: int, j: int|
            0 < i <= j <= text.len() && #[trigger] fits(text.take(j)) ==> #[trigger] fits(
                text.take(i),
            ),
        0 < k <= text.len(),
    ensures
        0 <= bisected(text, fits, 0, text.len() as int) <= text.len(),
        fits(text.take(k)) <==> k <= bisected(text, fits, 0, text.len() as int),
{
    lemma_bisected(text, fits, 0, text.len() as int, k);
}

proof fn lemma_bisected(
    text: Seq<char>,
    fits: spec_fn(Seq<char>) -> bool,
    lo: int,
    hi: int,
    k: int,
)
    requires
        forall|i: int, j: int|
            0 < i <= j <= text.len() && #[trigger] fits(text.take(j)) ==> #[trigger] fits(
                text.take(i),
            ),
        0 <= lo <= hi <= text.len(),
        0 < k <= text.len(),
        lo > 0 ==> fits(text.take(lo)),
        hi < text.len() ==> !fits(text.take(hi + 1)),
    ensures
        lo <= bisected(text, fits, lo, hi) <= hi,
        fits(text.take(k)) <==> k <= bisected(text, fits, lo, hi),
    decreases hi - lo,
{
    if lo < hi {
        let mid = (lo + hi + 1) / 2;
        if fits(text.take(mid)) {
            lemma_bisected(text, fits, mid, hi, k);
        } else {
            lemma_bisected(text, fits, lo, mid - 1, k);
        }
    } else {
        if k <= lo {
            assert(fits(text.take(lo)));
        } else {
            assert(!fits(text.take(hi + 1)));
        }
    }
}

// ---- laws ----

/// The order of texts is that of their code points: at the first place where two texts differ,
/// the one that comes first has ended there, or has the smaller code point.
pub proof fn law_text_order(a: Seq<char>, b: Seq<char>)
    ensures
        text_lt(a, b) <==> exists|k: int|
            #![trigger a.take(k), b.take(k)]
            0 <= k <= a.len() && k < b.len() && a.take(k) == b.take(k) && (k == a.len() || (
            a[k] as u32) < (b[k] as u32)),
    decreases b.len(),
{
    if b.len() > 0 && a.len() > 0 && a[0] == b[0] {
        let (x, y) = (a.drop_first(), b.drop_first());
        law_text_order(x, y);
        if text_lt(x, y) {
            let k = choose|k: int|
                #![trigger x.take(k), y.take(k)]
                0 <= k <= x.len() && k < y.len() && x.take(k) == y.take(k) && (k == x.len() || (
                x[k] as u32) < (y[k] as u32));
            assert(a.take(k + 1) =~= seq![a[0]] + x.take(k));
            assert(b.take(k + 1) =~= seq![b[0]] + y.take(k));
            assert(a.take(k + 1) == b.take(k + 1));
        }
        if exists|k: int|
            #![trigger a.take(k), b.take(k)]
            0 <= k <= a.len() && k < b.len() && a.take(k) == b.take(k) && (k == a.len() || (
            a[k] as u32) < (b[k] as u32)) {
            let k = choose|k: int|
                #![trigger a.take(k), b.take(k)]
                0 <= k <= a.len() && k < b.len() && a.take(k) == b.take(k) && (k == a.len() || (
                a[k] as u32) < (b[k] as u32));
            assert(k > 0);
            assert(x.take(k - 1) =~= a.take(k).drop_first());
            assert(y.take(k - 1) =~= b.take(k).drop_first());
            assert(x.take(k - 1) == y.take(k - 1));
        }
    } else {
        if text_lt(a, b) {
            assert(a.take(0) =~= b.take(0));
        }
        assert forall|k: int|
            #![trigger a.take(k), b.take(k)]
            0 <= k <= a.len() && k < b.len() && a.take(k) == b.take(k) && (k == a.len() || (
            a[k] as u32) < (b[k] as u32)) implies text_lt(a, b) by {
            if k > 0 {
                assert(a[0] == a.take(k)[0] && b[0] == b.take(k)[0]);
            }
        }
    }
}

/// A number is written in decimal: the last digit is its remainder by ten, and those before it
/// are its quotient, with no zero in front.
pub proof fn law_decimal_digits(n: nat)
    ensures
        n < 10 ==> decimal(n).len() == 1,
        n >= 10 ==> decimal(n).drop_last() == decimal(n / 10),
        decimal(n).len() > 0 && decimal(n).last() as u32 == '0' as u32 + n % 10,
        n > 0 ==> decimal(n)[0] != '0',
    decreases n,
{
    lemma_digit_char((n % 10) as int);
    if n >= 10 {
        law_decimal_digits(n / 10);
        assert(decimal(n).drop_last() =~= decimal(n / 10));
        assert(decimal(n)[0] == decimal(n / 10)[0]);
    }
}

/// A text of white space alone.
pub open spec fn blank(s: Seq<char>) -> bool {
    forall|i: int| 0 <= i < s.len() ==> is_white_space(#[trigger] s[i])
}

/// A number as it may stand in a file: between white space, with a sign and zeros in front.
pub open spec fn spelled(
    before: Seq<char>,
    plus: bool,
    zeros: nat,
    n: nat,
    after: Seq<char>,
) -> Seq<char> {
    before + (if plus {
        seq!['+']
    } else {
        seq![]
    }) + Seq::new(zeros, |i: int| '0') + decimal(n) + after
}

/// White space is what Unicode says it is.
pub proof fn law_white_space(c: char)
    ensures
        is_white_space(c) <==> seq![
            0x9u32,
            0xau32,
            0xbu32,
            0xcu32,
            0xdu32,
            0x20u32,
            0x85u32,
            0xa0u32,
            0x1680u32,
            0x2000u32,
            0x2001u32,
            0x2002u32,
            0x2003u32,
            0x2004u32,
            0x2005u32,
            0x2006u32,
            0x2007u32,
            0x2008u32,
            0x2009u32,
            0x200au32,
            0x2028u32,
            0x2029u32,
            0x202fu32,
            0x205fu32,
            0x3000u32,
        ].contains(c as u32),
{
    let all = seq![
        0x9u32,
        0xau32,
        0xbu32,
        0xcu32,
        0xdu32,
        0x20u32,
        0x85u32,
        0xa0u32,
        0x1680u32,
        0x2000u32,
        0x2001u32,
        0x2002u32,
        0x2003u32,
        0x2004u32,
        0x2005u32,
        0x2006u32,
        0x2007u32,
        0x2008u32,
        0x2009u32,
        0x200au32,
        0x2028u32,
        0x2029u32,
        0x202fu32,
        0x205fu32,
        0x3000u32,
    ];
    let u = c as u32;
    assert(all[0] == 0x9 && all[1] == 0xa && all[2] == 0xb && all[3] == 0xc && all[4] == 0xd);
    assert(all[5] == 0x20 && all[6] == 0x85 && all[7] == 0xa0 && all[8] == 0x1680);
    assert(all[9] == 0x2000 && all[10] == 0x2001 && all[11] == 0x2002 && all[12] == 0x2003);
    assert(all[13] == 0x2004 && all[14] == 0x2005 && all[15] == 0x2006 && all[16] == 0x2007);
    assert(all[17] == 0x2008 && all[18] == 0x2009 && all[19] == 0x200a && all[20] == 0x2028);
    assert(all[21] == 0x2029 && all[22] == 0x202f && all[23] == 0x205f && all[24] == 0x3000);
}

proof fn lemma_blank_before(before: Seq<char>, s: Seq<char>)
    requires
        blank(before),
    ensures
        trim_start(before + s) == trim_start(s),
    decreases before.len(),
{
    let whole = before + s;
    if before.len() == 0 {
        assert(whole =~= s);
    } else {
        assert(is_white_space(before[0]) && whole[0] == before[0]);
        let rest = before.drop_first();
        assert forall|i: int| 0 <= i < rest.len() implies is_white_space(#[trigger] rest[i]) by {
            assert(is_white_space(before[i + 1]));
        }
        assert(whole.drop_first() =~= rest + s);
        lemma_blank_before(rest, s);
    }
}

proof fn lemma_blank_after(s: Seq<char>, after: Seq<char>)
    requires
        blank(after),
    ensures
        trim_end(s + after) == trim_end(s),
    decreases after.len(),
{
    let whole = s + after;
    if after.len() == 0 {
        assert(whole =~= s);
    } else {
        assert(is_white_space(after[after.len() - 1]));
        assert(whole.last() == after[after.len() - 1]);
        let rest = after.drop_last();
        assert forall|i: int| 0 <= i < rest.len() implies is_white_space(#[trigger] rest[i]) by {
            assert(is_white_space(after[i]));
        }
        assert(whole.drop_last() =~= s + rest);
        lemma_blank_after(s, rest);
    }
}

proof fn lemma_start_parted(s: Seq<char>) -> (before: Seq<char>)
    ensures
        blank(before),
        s == before + trim_start(s),
    decreases s.len(),
{
    if s.len() > 0 && is_white_space(s[0]) {
        let rest = lemma_start_parted(s.drop_first());
        let before = seq![s[0]] + rest;
        assert forall|i: int| 0 <= i < before.len() implies is_white_space(
            #[trigger] before[i],
        ) by {
            if i > 0 {
                assert(is_white_space(rest[i - 1]));
            }
        }
        assert(s =~= seq![s[0]] + s.drop_first());
        assert(s =~= before + trim_start(s));
        before
    } else {
        assert(s =~= Seq::<char>::empty() + s);
        Seq::empty()
    }
}

proof fn lemma_end_parted(s: Seq<char>) -> (after: Seq<char>)
    ensures
        blank(after),
        s == trim_end(s) + after,
    decreases s.len(),
{
    if s.len() > 0 && is_white_space(s.last()) {
        let rest = lemma_end_parted(s.drop_last());
        let after = rest.push(s.last());
        assert forall|i: int| 0 <= i < after.len() implies is_white_space(#[trigger] after[i]) by {
            if i < rest.len() {
                assert(is_white_space(rest[i]));
            }
        }
        assert(s =~= s.drop_last().push(s.last()));
        assert(s =~= trim_end(s) + after);
        after
    } else {
        assert(s =~= s + Seq::<char>::empty());
        Seq::empty()
    }
}

proof fn lemma_zeros_before(zeros: nat, s: Seq<char>)
    requires
        all_digits(s),
    ensures
        all_digits(Seq::new(zeros, |i: int| '0') + s),
        digits_value(Seq::new(zeros, |i: int| '0') + s) == digits_value(s),
    decreases zeros + s.len(),
{
    let front = Seq::new(zeros, |i: int| '0');
    let whole = front + s;
    assert forall|i: int| 0 <= i < whole.len() implies is_digit(#[trigger] whole[i]) by {
        if i >= zeros {
            assert(is_digit(s[i - zeros]));
        }
    }
    if s.len() > 0 {
        let rest = s.drop_last();
        assert forall|i: int| 0 <= i < rest.len() implies is_digit(#[trigger] rest[i]) by {
            assert(is_digit(s[i]));
        }
        assert(whole.drop_last() =~= front + rest);
        lemma_zeros_before(zeros, rest);
    } else if zeros > 0 {
        let fewer = Seq::new((zeros - 1) as nat, |i: int| '0');
        assert(whole.drop_last() =~= fewer + s);
        lemma_zeros_before((zeros - 1) as nat, s);
    }
}

proof fn lemma_digits_are_a_number(s: Seq<char>) -> (zeros: nat)
    requires
        s.len() > 0,
        all_digits(s),
    ensures
        s == Seq::new(zeros, |i: int| '0') + decimal(digits_value(s)),
    decreases s.len(),
{
    let last = s.last();
    assert(is_digit(s[s.len() - 1]));
    vstd::utf8::char_u32_cast(last, last as u32);
    let d = last as u32 - 48;
    assert(digit_char(d) == last);
    let rest = s.drop_last();
    assert forall|i: int| 0 <= i < rest.len() implies is_digit(#[trigger] rest[i]) by {
        assert(is_digit(s[i]));
    }
    assert(s =~= rest.push(last));
    let n = digits_value(s);
    if rest.len() == 0 {
        assert(digits_value(rest) == 0);
        assert(s =~= Seq::new(0, |i: int| '0') + decimal(n));
        0
    } else {
        let zeros = lemma_digits_are_a_number(rest);
        let m = digits_value(rest);
        assert(n == 10 * m + d);
        if m > 0 {
            assert(n / 10 == m && n % 10 == d);
            assert(s =~= Seq::new(zeros, |i: int| '0') + decimal(n));
            zeros
        } else {
            lemma_digit_char(0);
            vstd::utf8::char_u32_cast('0', '0' as u32);
            assert(decimal(0) =~= seq!['0']);
            assert(s =~= Seq::new(zeros + 1, |i: int| '0') + decimal(n));
            zeros + 1
        }
    }
}

/// A number is read whatever white space, sign and zeros it stands between.
pub proof fn law_number_is_read(
    before: Seq<char>,
    plus: bool,
    zeros: nat,
    n: u32,
    after: Seq<char>,
)
    requires
        blank(before),
        blank(after),
    ensures
        trimmed_u32(spelled(before, plus, zeros, n as nat, after)) == Some(n),
{
    let number = decimal(n as nat);
    lemma_decimal_is_digits(n as nat);
    lemma_zeros_before(zeros, number);
    let digits = Seq::new(zeros, |i: int| '0') + number;
    let sign = if plus {
        seq!['+']
    } else {
        seq![]
    };
    let core = sign + digits;
    assert(spelled(before, plus, zeros, n as nat, after) =~= before + (core + after));
    lemma_blank_before(before, core + after);
    assert(is_digit(digits[0]));
    assert(is_digit(digits[digits.len() - 1]));
    assert(core.last() == digits[digits.len() - 1]);
    assert(!plus ==> core[0] == digits[0]);
    assert((core + after)[0] == core[0]);
    assert(trim_start(core + after) == core + after);
    lemma_blank_after(core, after);
    assert(trim_end(core) == core);
    if plus {
        assert(core.drop_first() =~= digits);
    } else {
        assert(core =~= digits);
    }
}

/// Nothing else is read as a number.
pub proof fn law_only_numbers_are_read(s: Seq<char>)
    requires
        trimmed_u32(s) is Some,
    ensures
        exists|before: Seq<char>, plus: bool, zeros: nat, after: Seq<char>|
            blank(before) && blank(after) && s == #[trigger] spelled(
                before,
                plus,
                zeros,
                trimmed_u32(s)->0 as nat,
                after,
            ),
{
    let before = lemma_start_parted(s);
    let after = lemma_end_parted(trim_start(s));
    let core = trim(s);
    let plus = core[0] == '+';
    let digits = if plus {
        core.drop_first()
    } else {
        core
    };
    let zeros = lemma_digits_are_a_number(digits);
    if plus {
        assert(core =~= seq!['+'] + digits);
    }
    assert(s =~= spelled(before, plus, zeros, trimmed_u32(s)->0 as nat, after));
}

/// Joining goes part by part: nothing gives nothing, one part is itself, and two runs of parts
/// are joined with the separator between them.
pub proof fn law_joining(a: Seq<Seq<char>>, b: Seq<Seq<char>>, sep: Seq<char>)
    ensures
        a.len() == 0 ==> joined(a, sep) == Seq::<char>::empty(),
        a.len() == 1 ==> joined(a, sep) == a[0],
        a.len() > 0 && b.len() > 0 ==> joined(a + b, sep) == joined(a, sep) + sep + joined(b, sep),
    decreases b.len(),
{
    if a.len() > 0 && b.len() > 0 {
        let all = a + b;
        assert(all.drop_last() =~= a + b.drop_last());
        assert(all.last() == b.last());
        if b.len() == 1 {
            assert(a + b.drop_last() =~= a);
            assert(joined(all, sep) =~= joined(a, sep) + sep + joined(b, sep));
        } else {
            law_joining(a, b.drop_last(), sep);
            assert(joined(all, sep) =~= joined(a, sep) + sep + joined(b, sep));
        }
    }
}

/// A text that fits is left alone. One that does not keeps the longest prefix that leaves room
/// for an ellipsis, and ends with the ellipsis.
pub proof fn law_fitted_text(
    text: Seq<char>,
    whole_fits: bool,
    fits: spec_fn(Seq<char>) -> bool,
) -> (keep: int)
    requires
        forall|i: int, j: int|
            0 < i <= j <= text.len() && #[trigger] fits(text.take(j)) ==> #[trigger] fits(
                text.take(i),
            ),
    ensures
        whole_fits ==> fitted(text, whole_fits, fits) == text,
        !whole_fits ==> {
            &&& 0 <= keep <= text.len()
            &&& fitted(text, whole_fits, fits) == text.take(keep).push('\u{2026}')
            &&& forall|k: int| 0 < k <= text.len() ==> (#[trigger] fits(text.take(k)) <==> k
                <= keep)
        },
{
    let keep = bisected(text, fits, 0, text.len() as int);
    reveal_strlit("\u{2026}");
    assert(ellipsis() =~= seq!['\u{2026}']);
    assert(clipped(text, keep) =~= text.take(keep).push('\u{2026}'));
    assert forall|k: int| 0 < k <= text.len() implies (#[trigger] fits(text.take(k)) <==> k
        <= keep) by {
        law_fit_keeps_the_longest_prefix(text, fits, k);
    }
    if text.len() > 0 {
        law_fit_keeps_the_longest_prefix(text, fits, 1);
    }
    keep
}

} // verus!
