//! Character-level text handling: the sanitiser, the sentence splitter and
//! the small string helpers that the service and the server share.
use vstd::prelude::*;

verus! {

/// Appends `c` to `s` (`String::push`).
#[verifier::external_body]
pub(crate) fn push_char(s: &mut String, c: char)
    ensures
        final(s)@ == old(s)@.push(c),
{
    s.push(c);
}

// ---------------------------------------------------------------------------
// Sanitising
// ---------------------------------------------------------------------------

/// ASCII letters and digits.
pub open spec fn is_ascii_alnum(c: char) -> bool {
    ('0' <= c <= '9') || ('a' <= c <= 'z') || ('A' <= c <= 'Z')
}

/// The CJK Unified Ideographs block, U+4E00 to U+9FFF.
pub open spec fn is_cjk_char(c: char) -> bool {
    0x4E00 <= (c as u32) <= 0x9FFF
}

/// Punctuation, space and the Polish letters that survive sanitising.
pub open spec fn is_kept_symbol(c: char) -> bool {
    ||| c == ','
    ||| c == '.'
    ||| c == '?'
    ||| c == '!'
    ||| c == '\''
    ||| c == '_'
    ||| c == '-'
    ||| c == ' '
    ||| c == 'ż'
    ||| c == 'ź'
    ||| c == 'ć'
    ||| c == 'ń'
    ||| c == 'ó'
    ||| c == 'ł'
    ||| c == 'ę'
    ||| c == 'ą'
    ||| c == 'ś'
    ||| c == 'Ż'
    ||| c == 'Ź'
    ||| c == 'Ć'
    ||| c == 'Ą'
    ||| c == 'Ś'
    ||| c == 'Ę'
    ||| c == 'Ł'
    ||| c == 'Ó'
    ||| c == 'Ń'
}

/// The characters that `sanitize` keeps.
pub open spec fn is_safe_char(c: char) -> bool {
    is_ascii_alnum(c) || is_kept_symbol(c) || is_cjk_char(c)
}

/// The text that `sanitize` leaves of `s`: its safe characters, in order.
pub open spec fn sanitized(s: Seq<char>) -> Seq<char> {
    s.filter(safe_filter())
}

/// `is_safe_char` as a filter predicate.
pub open spec fn safe_filter() -> spec_fn(char) -> bool {
    |c: char| is_safe_char(c)
}

/// Whether `c` is a CJK unified ideograph.
pub fn is_cjk(c: char) -> (b: bool)
    ensures
        b == is_cjk_char(c),
{
    let u = c as u32;
    u >= 0x4E00 && u <= 0x9FFF
}

fn is_safe(c: char) -> (b: bool)
    ensures
        b == is_safe_char(c),
{
    let alnum = ('0' <= c && c <= '9') || ('a' <= c && c <= 'z') || ('A' <= c && c <= 'Z');
    let symbol = match c {
        ',' | '.' | '?' | '!' | '\'' | '_' | '-' | ' ' | 'ż' | 'ź' | 'ć' | 'ń' | 'ó' | 'ł'
        | 'ę' | 'ą' | 'ś' | 'Ż' | 'Ź' | 'Ć' | 'Ą' | 'Ś' | 'Ę' | 'Ł' | 'Ó' | 'Ń' => true,
        _ => false,
    };
    alnum || symbol || is_cjk(c)
}

/// Keeps only the characters that are safe to hand to a shell script:
/// ASCII letters and digits, `,.?!'_-`, space, the Polish letters and CJK
/// ideographs.
pub fn sanitize(s: &str) -> (out: String)
    ensures
        out@ == sanitized(s@),
{
    broadcast use vstd::seq_lib::group_seq_properties;
    let mut out = String::new();
    for c in it: s.chars()
        invariant
            it.seq() == s@,
            out@ == sanitized(s@.take(it.index())),
    {
        let ghost i = it.index();
        assert(c == s@[i]);
        assert(s@.take(i + 1) == s@.take(i).push(c));
        proof {
            s@.take(i).lemma_filter_push(c, safe_filter());
        }
        if is_safe(c) {
            push_char(&mut out, c);
        }
    }
    proof {
        assert(s@.take(s@.len() as int) == s@);
    }
    out
}

// ---------------------------------------------------------------------------
// Splitting
// ---------------------------------------------------------------------------

/// The pieces of `s` between the characters for which `sep` holds, in order,
/// as `str::split` gives them: `n` separators make `n + 1` pieces, empty ones
/// included.
pub open spec fn split_on(s: Seq<char>, sep: spec_fn(char) -> bool) -> Seq<Seq<char>>
    decreases s.len(),
{
    if s.len() == 0 {
        seq![Seq::<char>::empty()]
    } else {
        let prev = split_on(s.drop_last(), sep);
        if sep(s.last()) {
            prev.push(Seq::<char>::empty())
        } else {
            prev.update(prev.len() - 1, prev.last().push(s.last()))
        }
    }
}

/// `split_on` never yields an empty list of pieces.
pub proof fn lemma_split_on_nonempty(s: Seq<char>, sep: spec_fn(char) -> bool)
    ensures
        split_on(s, sep).len() >= 1,
    decreases s.len(),
{
    if s.len() > 0 {
        lemma_split_on_nonempty(s.drop_last(), sep);
    }
}

/// The characters that end a sentence.
pub open spec fn is_sentence_end(c: char) -> bool {
    c == '.' || c == '?' || c == '!'
}

/// `is_sentence_end` as a separator predicate.
pub open spec fn sentence_end() -> spec_fn(char) -> bool {
    |c: char| is_sentence_end(c)
}

/// The number of bytes of the UTF-8 encoding of `c`.
pub open spec fn utf8_width(c: char) -> nat {
    if (c as u32) < 0x80 {
        1
    } else if (c as u32) < 0x800 {
        2
    } else if (c as u32) < 0x10000 {
        3
    } else {
        4
    }
}

/// The number of bytes of the UTF-8 encoding of `s`.
pub open spec fn utf8_len(s: Seq<char>) -> nat
    decreases s.len(),
{
    if s.len() == 0 {
        0
    } else {
        utf8_len(s.drop_last()) + utf8_width(s.last())
    }
}

/// The longest prefix of `s` whose UTF-8 encoding takes at most `max` bytes.
pub open spec fn fit_prefix(s: Seq<char>, max: nat) -> Seq<char>
    decreases s.len(),
{
    if utf8_len(s) <= max || s.len() == 0 {
        s
    } else {
        fit_prefix(s.drop_last(), max)
    }
}

/// A piece that can be cut to `max` bytes: either it fits, or its first
/// `max` bytes end on a character boundary.
pub open spec fn cuttable(piece: Seq<char>, max: nat) -> bool {
    utf8_len(piece) <= max || utf8_len(fit_prefix(piece, max)) == max
}

/// The sentences of `s`, each cut to its first `max` bytes.
pub open spec fn split_sentences(s: Seq<char>, max: nat) -> Seq<Seq<char>> {
    split_on(s, sentence_end()).map_values(|p: Seq<char>| fit_prefix(p, max))
}

/// Whether every sentence of `s` can be cut to `max` bytes.
pub open spec fn sentences_cuttable(s: Seq<char>, max: nat) -> bool {
    forall|k: int|
        0 <= k < split_on(s, sentence_end()).len() ==> cuttable(
            #[trigger] split_on(s, sentence_end())[k],
            max,
        )
}

fn utf8_width_of(c: char) -> (w: usize)
    ensures
        w == utf8_width(c),
{
    let u = c as u32;
    if u < 0x80 {
        1
    } else if u < 0x800 {
        2
    } else if u < 0x10000 {
        3
    } else {
        4
    }
}

/// How the prefix that fits in `max` bytes changes when a character is
/// added: it grows with the text while the text fits, and stays put after.
proof fn lemma_fit_prefix_push(s: Seq<char>, c: char, max: nat)
    ensures
        utf8_len(s) <= max && utf8_len(s) + utf8_width(c) <= max ==> fit_prefix(s.push(c), max)
            == s.push(c),
        utf8_len(s) + utf8_width(c) > max ==> fit_prefix(s.push(c), max) == fit_prefix(s, max),
        utf8_len(s.push(c)) == utf8_len(s) + utf8_width(c),
{
    assert(s.push(c).drop_last() == s);
    assert(s.push(c).last() == c);
}

/// Splits `s` into sentences at `.`, `?` and `!`, and cuts each sentence to
/// its first `max_api_str_len` bytes. Empty sentences are kept.
///
/// A sentence longer than the limit whose first `max_api_str_len` bytes do
/// not end on a character boundary cannot be cut; such input is outside the
/// domain.
pub fn smart_split(s: &str, max_api_str_len: usize) -> (out: Vec<String>)
    requires
        sentences_cuttable(s@, max_api_str_len as nat),
    ensures
        out@.len() == split_sentences(s@, max_api_str_len as nat).len(),
        forall|k: int|
            0 <= k < out@.len() ==> #[trigger] out@[k]@ == split_sentences(
                s@,
                max_api_str_len as nat,
            )[k],
{
    let max = max_api_str_len;
    let ghost sep = sentence_end();
    let mut out: Vec<String> = Vec::new();
    let mut cut = String::new();
    let mut bytes: usize = 0;
    let mut over = false;
    let ghost mut cur: Seq<char> = Seq::empty();
    for c in it: s.chars()
        invariant
            it.seq() == s@,
            sep == sentence_end(),
            split_on(s@.take(it.index()), sep).len() == out@.len() + 1,
            forall|k: int|
                0 <= k < out@.len() ==> #[trigger] out@[k]@ == fit_prefix(
                    split_on(s@.take(it.index()), sep)[k],
                    max as nat,
                ),
            split_on(s@.take(it.index()), sep).last() == cur,
            cut@ == fit_prefix(cur, max as nat),
            bytes == utf8_len(cut@),
            bytes <= max,
            over == (utf8_len(cur) > max),
            !over ==> cut@ == cur,
    {
        let ghost i = it.index();
        let ghost prev = split_on(s@.take(i), sep);
        assert(c == s@[i]);
        assert(s@.take(i + 1).drop_last() == s@.take(i));
        assert(s@.take(i + 1).last() == c);
        if c == '.' || c == '?' || c == '!' {
            out.push(cut);
            cut = String::new();
            bytes = 0;
            over = false;
            proof {
                cur = Seq::empty();
                assert(split_on(s@.take(i + 1), sep) == prev.push(Seq::<char>::empty()));
            }
        } else {
            let w = utf8_width_of(c);
            proof {
                lemma_fit_prefix_push(cur, c, max as nat);
            }
            if !over {
                if max - bytes >= w {
                    push_char(&mut cut, c);
                    bytes = bytes + w;
                } else {
                    over = true;
                }
            }
            proof {
                cur = cur.push(c);
                let next = split_on(s@.take(i + 1), sep);
                assert(next == prev.update(prev.len() - 1, prev.last().push(c)));
                assert forall|k: int| 0 <= k < out@.len() implies #[trigger] out@[k]@ == fit_prefix(
                    next[k],
                    max as nat,
                ) by {
                    assert(next[k] == prev[k]);
                }
            }
        }
    }
    out.push(cut);
    proof {
        assert(s@.take(s@.len() as int) == s@);
        let pieces = split_on(s@, sep);
        assert forall|k: int| 0 <= k < out@.len() implies #[trigger] out@[k]@
            == split_sentences(s@, max as nat)[k] by {
            assert(split_sentences(s@, max as nat)[k] == fit_prefix(pieces[k], max as nat));
        }
    }
    out
}

/// Whether `smart_split(s, max_api_str_len)` is defined: every sentence of
/// `s` either fits in the limit or has a character boundary right at it.
pub fn can_smart_split(s: &str, max_api_str_len: usize) -> (b: bool)
    ensures
        b == sentences_cuttable(s@, max_api_str_len as nat),
{
    let max = max_api_str_len;
    let ghost sep = sentence_end();
    let mut ok = true;
    let mut bytes: usize = 0;
    let mut over = false;
    let ghost mut cut: Seq<char> = Seq::empty();
    let ghost mut cur: Seq<char> = Seq::empty();
    for c in it: s.chars()
        invariant
            it.seq() == s@,
            sep == sentence_end(),
            split_on(s@.take(it.index()), sep).len() >= 1,
            ok == (forall|k: int|
                0 <= k < split_on(s@.take(it.index()), sep).len() - 1 ==> cuttable(
                    #[trigger] split_on(s@.take(it.index()), sep)[k],
                    max as nat,
                )),
            split_on(s@.take(it.index()), sep).last() == cur,
            cut == fit_prefix(cur, max as nat),
            bytes == utf8_len(cut),
            bytes <= max,
            over == (utf8_len(cur) > max),
            !over ==> cut == cur,
    {
        let ghost i = it.index();
        let ghost prev = split_on(s@.take(i), sep);
        assert(c == s@[i]);
        assert(s@.take(i + 1).drop_last() == s@.take(i));
        assert(s@.take(i + 1).last() == c);
        if c == '.' || c == '?' || c == '!' {
            let piece_ok = !over || bytes == max;
            proof {
                let next = split_on(s@.take(i + 1), sep);
                assert(next == prev.push(Seq::<char>::empty()));
                assert(piece_ok == cuttable(prev[prev.len() - 1], max as nat));
                if ok && piece_ok {
                    assert forall|k: int| 0 <= k < next.len() - 1 implies cuttable(
                        #[trigger] next[k],
                        max as nat,
                    ) by {
                        assert(next[k] == prev[k]);
                    }
                }
                if !(ok && piece_ok) {
                    if !piece_ok {
                        assert(next[prev.len() - 1] == prev[prev.len() - 1]);
                    } else {
                        let k = choose|k: int|
                            0 <= k < prev.len() - 1 && !cuttable(#[trigger] prev[k], max as nat);
                        assert(next[k] == prev[k]);
                    }
                }
                cur = Seq::empty();
                cut = Seq::empty();
            }
            ok = ok && piece_ok;
            bytes = 0;
            over = false;
        } else {
            let w = utf8_width_of(c);
            proof {
                lemma_fit_prefix_push(cur, c, max as nat);
            }
            if !over {
                if max - bytes >= w {
                    bytes = bytes + w;
                    proof {
                        cut = cut.push(c);
                    }
                } else {
                    over = true;
                }
            }
            proof {
                cur = cur.push(c);
                let next = split_on(s@.take(i + 1), sep);
                assert(next == prev.update(prev.len() - 1, prev.last().push(c)));
                if ok {
                    assert forall|k: int| 0 <= k < next.len() - 1 implies cuttable(
                        #[trigger] next[k],
                        max as nat,
                    ) by {
                        assert(next[k] == prev[k]);
                    }
                } else {
                    let k = choose|k: int|
                        0 <= k < prev.len() - 1 && !cuttable(#[trigger] prev[k], max as nat);
                    assert(next[k] == prev[k]);
                }
            }
        }
    }
    proof {
        assert(s@.take(s@.len() as int) == s@);
    }
    ok && (!over || bytes == max)
}

// ---------------------------------------------------------------------------
// Characters of a string
// ---------------------------------------------------------------------------

/// The characters of `s`, in order.
pub fn chars_of(s: &str) -> (v: Vec<char>)
    ensures
        v@ == s@,
{
    let mut v: Vec<char> = Vec::new();
    for c in it: s.chars()
        invariant
            it.seq() == s@,
            v@ == s@.take(it.index()),
    {
        let ghost i = it.index();
        assert(c == s@[i]);
        assert(s@.take(i + 1) == s@.take(i).push(c));
        v.push(c);
    }
    assert(s@.take(s@.len() as int) == s@);
    v
}

/// The string made of `v[start..end]`.
pub fn string_of_range(v: &Vec<char>, start: usize, end: usize) -> (s: String)
    requires
        start <= end <= v@.len(),
    ensures
        s@ == v@.subrange(start as int, end as int),
{
    let mut s = String::new();
    let mut i = start;
    while i < end
        invariant
            start <= i <= end <= v@.len(),
            s@ == v@.subrange(start as int, i as int),
        decreases end - i,
    {
        assert(v@.subrange(start as int, i + 1) == v@.subrange(start as int, i as int).push(v@[i as int]));
        push_char(&mut s, v[i]);
        i = i + 1;
    }
    s
}

/// Appends every character of `t` to `s`.
pub fn push_all(s: &mut String, t: &str)
    ensures
        final(s)@ == old(s)@ + t@,
{
    let ghost start = s@;
    for c in it: t.chars()
        invariant
            it.seq() == t@,
            s@ == start + t@.take(it.index()),
    {
        let ghost i = it.index();
        assert(c == t@[i]);
        assert(t@.take(i + 1) == t@.take(i).push(c));
        push_char(s, c);
    }
    assert(t@.take(t@.len() as int) == t@);
}

// ---------------------------------------------------------------------------
// Whitespace
// ---------------------------------------------------------------------------

/// The characters with the Unicode `White_Space` property
/// (`char::is_whitespace`).
pub open spec fn is_white_space(c: char) -> bool {
    let u = c as u32;
    ||| 0x09 <= u <= 0x0D
    ||| u == 0x20
    ||| u == 0x85
    ||| u == 0xA0
    ||| u == 0x1680
    ||| 0x2000 <= u <= 0x200A
    ||| u == 0x2028
    ||| u == 0x2029
    ||| u == 0x202F
    ||| u == 0x205F
    ||| u == 0x3000
}

/// Whether `c` is white space.
pub fn is_whitespace(c: char) -> (b: bool)
    ensures
        b == is_white_space(c),
{
    let u = c as u32;
    (0x09 <= u && u <= 0x0D) || u == 0x20 || u == 0x85 || u == 0xA0 || u == 0x1680 || (0x2000
        <= u && u <= 0x200A) || u == 0x2028 || u == 0x2029 || u == 0x202F || u == 0x205F || u
        == 0x3000
}

/// `s` without its leading white space.
pub open spec fn trim_start_ws(s: Seq<char>) -> Seq<char>
    decreases s.len(),
{
    if s.len() > 0 && is_white_space(s[0]) {
        trim_start_ws(s.drop_first())
    } else {
        s
    }
}

/// `s` without its trailing white space.
pub open spec fn trim_end_ws(s: Seq<char>) -> Seq<char>
    decreases s.len(),
{
    if s.len() > 0 && is_white_space(s.last()) {
        trim_end_ws(s.drop_last())
    } else {
        s
    }
}

/// `s` without leading and trailing white space (`str::trim`).
pub open spec fn trimmed(s: Seq<char>) -> Seq<char> {
    trim_end_ws(trim_start_ws(s))
}

/// `s` without leading and trailing white space.
pub fn trim(s: &str) -> (t: String)
    ensures
        t@ == trimmed(s@),
{
    let v = chars_of(s);
    let n = v.len();
    let mut i: usize = 0;
    assert(v@.subrange(0, n as int) == v@);
    while i < n && is_whitespace(v[i])
        invariant
            i <= n == v@.len(),
            trim_start_ws(v@) == trim_start_ws(v@.subrange(i as int, n as int)),
        decreases n - i,
    {
        assert(v@.subrange(i as int, n as int).drop_first() == v@.subrange(i + 1, n as int));
        i = i + 1;
    }
    assert(trim_start_ws(v@) == v@.subrange(i as int, n as int));
    let mut j: usize = n;
    while j > i && is_whitespace(v[j - 1])
        invariant
            i <= j <= n == v@.len(),
            trim_end_ws(v@.subrange(i as int, n as int)) == trim_end_ws(
                v@.subrange(i as int, j as int),
            ),
        decreases j,
    {
        assert(v@.subrange(i as int, j as int).drop_last() == v@.subrange(i as int, j - 1));
        j = j - 1;
    }
    string_of_range(&v, i, j)
}

// ---------------------------------------------------------------------------
// Decimal numbers
// ---------------------------------------------------------------------------

/// The ASCII digit for `d` (below ten).
pub open spec fn digit_char(d: nat) -> char {
    (d + 48) as char
}

/// The decimal notation of `n`, without sign or leading zeros.
pub open spec fn decimal(n: nat) -> Seq<char>
    decreases n,
{
    if n < 10 {
        seq![digit_char(n)]
    } else {
        decimal(n / 10).push(digit_char(n % 10))
    }
}

fn digit_to_char(d: u64) -> (c: char)
    requires
        d < 10,
    ensures
        c == digit_char(d as nat),
{
    ((d as u8) + 48) as char
}

/// Appends the decimal notation of `n` to `s`.
pub fn push_decimal(s: &mut String, n: u64)
    ensures
        final(s)@ == old(s)@ + decimal(n as nat),
    decreases n,
{
    if n >= 10 {
        push_decimal(s, n / 10);
    }
    push_char(s, digit_to_char(n % 10));
}

/// The decimal notation of `n`.
pub fn decimal_string(n: u64) -> (s: String)
    ensures
        s@ == decimal(n as nat),
{
    let mut s = String::new();
    push_decimal(&mut s, n);
    s
}

/// Why a string is not an unsigned integer in range.
#[derive(Clone, Copy, Debug, PartialEq, Eq, Structural)]
pub enum IntErrorKind {
    /// The string is empty.
    Empty,
    /// A character is not a decimal digit.
    InvalidDigit,
    /// The number is larger than the limit.
    PosOverflow,
}

impl IntErrorKind {
    /// The text that Rust's `ParseIntError` shows for this kind.
    pub fn description(&self) -> (d: &'static str)
        ensures
            d@ == match self {
                IntErrorKind::Empty => "cannot parse integer from empty string"@,
                IntErrorKind::InvalidDigit => "invalid digit found in string"@,
                IntErrorKind::PosOverflow => "number too large to fit in target type"@,
            },
    {
        match self {
            IntErrorKind::Empty => "cannot parse integer from empty string",
            IntErrorKind::InvalidDigit => "invalid digit found in string",
            IntErrorKind::PosOverflow => "number too large to fit in target type",
        }
    }
}

/// Whether `c` is an ASCII decimal digit.
pub open spec fn is_digit(c: char) -> bool {
    '0' <= c <= '9'
}

/// The value of the ASCII digit `c`.
pub open spec fn digit_value(c: char) -> nat {
    ((c as u32) - 48) as nat
}

/// Reading digits left to right onto `acc`, stopping at the first character
/// that is no digit or that takes the value above `max`.
pub open spec fn parse_digits(acc: nat, rest: Seq<char>, max: nat) -> Result<nat, IntErrorKind>
    decreases rest.len(),
{
    if rest.len() == 0 {
        Ok(acc)
    } else if !is_digit(rest[0]) {
        Err(IntErrorKind::InvalidDigit)
    } else if acc * 10 + digit_value(rest[0]) > max {
        Err(IntErrorKind::PosOverflow)
    } else {
        parse_digits(acc * 10 + digit_value(rest[0]), rest.drop_first(), max)
    }
}

/// The unsigned number that `s` writes, at most `max`, as Rust's `from_str`
/// for unsigned integers reads it: an optional `+`, then one or more
/// decimal digits.
pub open spec fn parse_unsigned_spec(s: Seq<char>, max: nat) -> Result<nat, IntErrorKind> {
    if s.len() == 0 {
        Err(IntErrorKind::Empty)
    } else if s.len() == 1 && (s[0] == '+' || s[0] == '-') {
        Err(IntErrorKind::InvalidDigit)
    } else if s[0] == '+' {
        parse_digits(0, s.drop_first(), max)
    } else {
        parse_digits(0, s, max)
    }
}

/// Parses the unsigned number that `s` writes, if it is at most `max`.
pub fn parse_unsigned(s: &str, max: u64) -> (r: Result<u64, IntErrorKind>)
    ensures
        match parse_unsigned_spec(s@, max as nat) {
            Ok(n) => r == Ok::<u64, IntErrorKind>(n as u64) && n <= max,
            Err(e) => r == Err::<u64, IntErrorKind>(e),
        },
{
    let v = chars_of(s);
    let n = v.len();
    if n == 0 {
        return Err(IntErrorKind::Empty);
    }
    if n == 1 && (v[0] == '+' || v[0] == '-') {
        return Err(IntErrorKind::InvalidDigit);
    }
    let mut i: usize = if v[0] == '+' {
        1
    } else {
        0
    };
    let mut acc: u64 = 0;
    assert(v@.subrange(0, n as int) == v@);
    assert(v@.subrange(1, n as int) == v@.drop_first());
    while i < n
        invariant
            i <= n == v@.len(),
            n >= 1,
            acc <= max,
            parse_unsigned_spec(s@, max as nat) == parse_digits(
                acc as nat,
                v@.subrange(i as int, n as int),
                max as nat,
            ),
        decreases n - i,
    {
        let c = v[i];
        let ghost rest = v@.subrange(i as int, n as int);
        assert(rest[0] == c);
        assert(rest.drop_first() == v@.subrange(i + 1, n as int));
        if !('0' <= c && c <= '9') {
            return Err(IntErrorKind::InvalidDigit);
        }
        let d = ((c as u32) - 48) as u64;
        if d > max || acc > (max - d) / 10 {
            proof {
                if d <= max {
                    assert(acc * 10 + d > max) by (nonlinear_arith)
                        requires
                            acc > (max - d) / 10,
                            d <= max,
                    ;
                }
            }
            return Err(IntErrorKind::PosOverflow);
        }
        proof {
            assert(acc * 10 + d <= max) by (nonlinear_arith)
                requires
                    acc <= (max - d) / 10,
                    d <= max,
            ;
        }
        acc = acc * 10 + d;
        i = i + 1;
    }
    Ok(acc)
}

/// Parses a `u8` the way `str::parse::<u8>` does.
pub fn parse_u8(s: &str) -> (r: Result<u8, IntErrorKind>)
    ensures
        match parse_unsigned_spec(s@, 255) {
            Ok(n) => r == Ok::<u8, IntErrorKind>(n as u8) && n <= 255,
            Err(e) => r == Err::<u8, IntErrorKind>(e),
        },
{
    match parse_unsigned(s, 255) {
        Ok(n) => Ok(n as u8),
        Err(e) => Err(e),
    }
}

/// Parses a `usize` the way `str::parse::<usize>` does.
pub fn parse_usize(s: &str) -> (r: Result<usize, IntErrorKind>)
    ensures
        match parse_unsigned_spec(s@, usize::MAX as nat) {
            Ok(n) => r == Ok::<usize, IntErrorKind>(n as usize) && n <= usize::MAX,
            Err(e) => r == Err::<usize, IntErrorKind>(e),
        },
{
    match parse_unsigned(s, usize::MAX as u64) {
        Ok(n) => Ok(n as usize),
        Err(e) => Err(e),
    }
}

// ---------------------------------------------------------------------------
// Comparing and splitting character sequences
// ---------------------------------------------------------------------------

/// Whether `s` begins with `p`.
pub open spec fn starts_with(s: Seq<char>, p: Seq<char>) -> bool {
    p.len() <= s.len() && s.take(p.len() as int) == p
}

/// Whether `s` ends with `p`.
pub open spec fn ends_with(s: Seq<char>, p: Seq<char>) -> bool {
    p.len() <= s.len() && s.skip(s.len() - p.len()) == p
}

/// Whether `p` occurs in `s`.
pub open spec fn contains_seq<T>(s: Seq<T>, p: Seq<T>) -> bool {
    exists|i: int| 0 <= i && i + p.len() <= s.len() && #[trigger] s.subrange(i, i + p.len()) == p
}

/// `c` as a separator predicate.
pub open spec fn is_char(c: char) -> spec_fn(char) -> bool {
    |x: char| x == c
}

/// Whether `v[start..]` begins with `p`.
fn matches_at(v: &Vec<char>, start: usize, p: &Vec<char>) -> (b: bool)
    requires
        start <= v@.len(),
    ensures
        b == (start + p@.len() <= v@.len() && v@.subrange(start as int, start + p@.len()) == p@),
{
    if p.len() > v.len() - start {
        return false;
    }
    let vlen = v.len();
    let mut k: usize = 0;
    while k < p.len()
        invariant
            vlen == v@.len(),
            k <= p@.len(),
            start + p@.len() <= v@.len(),
            forall|j: int| 0 <= j < k ==> v@[start + j] == p@[j],
        decreases p@.len() - k,
    {
        if v[start + k] != p[k] {
            assert(v@.subrange(start as int, start + p@.len())[k as int] != p@[k as int]);
            return false;
        }
        k = k + 1;
    }
    assert(v@.subrange(start as int, start + p@.len()) == p@);
    true
}

/// Whether `v` is the text `lit`.
pub fn eq_str(v: &Vec<char>, lit: &str) -> (b: bool)
    ensures
        b == (v@ == lit@),
{
    let p = chars_of(lit);
    if v.len() != p.len() {
        return false;
    }
    let r = matches_at(v, 0, &p);
    assert(v@.subrange(0, v@.len() as int) == v@);
    r
}

/// Whether `v` begins with `lit`.
pub fn starts_with_str(v: &Vec<char>, lit: &str) -> (b: bool)
    ensures
        b == starts_with(v@, lit@),
{
    let p = chars_of(lit);
    let r = matches_at(v, 0, &p);
    assert(p@.len() <= v@.len() ==> v@.subrange(0, p@.len() as int) == v@.take(p@.len() as int));
    r
}

/// Whether `v` ends with `lit`.
pub fn ends_with_str(v: &Vec<char>, lit: &str) -> (b: bool)
    ensures
        b == ends_with(v@, lit@),
{
    let p = chars_of(lit);
    if p.len() > v.len() {
        return false;
    }
    let start = v.len() - p.len();
    let r = matches_at(v, start, &p);
    assert(v@.subrange(start as int, start + p@.len()) == v@.skip(start as int));
    r
}

/// Whether `p` occurs in `v`.
pub fn contains_chars(v: &Vec<char>, p: &Vec<char>) -> (b: bool)
    ensures
        b == contains_seq(v@, p@),
{
    if p.len() > v.len() {
        return false;
    }
    if p.len() == 0 {
        assert(v@.subrange(0, 0 + p@.len() as int) == p@);
        return true;
    }
    let vlen = v.len();
    let last = v.len() - p.len();
    let mut i: usize = 0;
    while i <= last
        invariant
            vlen == v@.len(),
            p@.len() > 0,
            last + p@.len() == v@.len(),
            i <= last + 1,
            forall|j: int| 0 <= j < i ==> #[trigger] v@.subrange(j, j + p@.len()) != p@,
        decreases last + 1 - i,
    {
        if matches_at(v, i, p) {
            return true;
        }
        i = i + 1;
    }
    false
}

/// Whether `lit` occurs in `s` (`str::contains`).
pub fn contains_str(s: &str, lit: &str) -> (b: bool)
    ensures
        b == contains_seq(s@, lit@),
{
    let v = chars_of(s);
    let p = chars_of(lit);
    contains_chars(&v, &p)
}

/// The pieces of `v` between the occurrences of `c`.
pub fn split_char(v: &Vec<char>, c: char) -> (out: Vec<String>)
    ensures
        out@.len() == split_on(v@, is_char(c)).len(),
        forall|k: int| 0 <= k < out@.len() ==> #[trigger] out@[k]@ == split_on(v@, is_char(c))[k],
{
    let ghost sep = is_char(c);
    let mut out: Vec<String> = Vec::new();
    let mut cur = String::new();
    let n = v.len();
    let mut i: usize = 0;
    assert(v@.take(0) == Seq::<char>::empty());
    while i < n
        invariant
            i <= n == v@.len(),
            sep == is_char(c),
            split_on(v@.take(i as int), sep).len() == out@.len() + 1,
            forall|k: int|
                0 <= k < out@.len() ==> #[trigger] out@[k]@ == split_on(v@.take(i as int), sep)[k],
            split_on(v@.take(i as int), sep).last() == cur@,
        decreases n - i,
    {
        let x = v[i];
        let ghost prev = split_on(v@.take(i as int), sep);
        assert(v@.take(i + 1).drop_last() == v@.take(i as int));
        assert(v@.take(i + 1).last() == x);
        if x == c {
            out.push(cur);
            cur = String::new();
            assert(split_on(v@.take(i + 1), sep) == prev.push(Seq::<char>::empty()));
        } else {
            push_char(&mut cur, x);
            proof {
                let next = split_on(v@.take(i + 1), sep);
                assert(next == prev.update(prev.len() - 1, prev.last().push(x)));
                assert forall|k: int| 0 <= k < out@.len() implies #[trigger] out@[k]@ == next[k] by {
                    assert(next[k] == prev[k]);
                }
            }
        }
        i = i + 1;
    }
    out.push(cur);
    assert(v@.take(n as int) == v@);
    out
}

/// `s` without any number of leading copies of `p` (`str::trim_start_matches`).
pub open spec fn trim_start_matches(s: Seq<char>, p: Seq<char>) -> Seq<char>
    decreases s.len(),
{
    if p.len() > 0 && starts_with(s, p) {
        trim_start_matches(s.skip(p.len() as int), p)
    } else {
        s
    }
}

/// The index in `v` where the leading copies of `lit` end.
pub fn trim_start_index(v: &Vec<char>, lit: &str) -> (i: usize)
    ensures
        i <= v@.len(),
        v@.skip(i as int) == trim_start_matches(v@, lit@),
{
    let p = chars_of(lit);
    let mut i: usize = 0;
    assert(v@.skip(0) == v@);
    if p.len() == 0 {
        return 0;
    }
    let vlen = v.len();
    while matches_at(v, i, &p)
        invariant
            vlen == v@.len(),
            i <= v@.len(),
            p@ == lit@,
            p@.len() > 0,
            trim_start_matches(v@, lit@) == trim_start_matches(v@.skip(i as int), lit@),
        decreases v@.len() - i,
    {
        assert(v@.skip(i as int).take(p@.len() as int) == v@.subrange(i as int, i + p@.len()));
        assert(v@.skip(i as int).skip(p@.len() as int) == v@.skip(i + p@.len()));
        i = i + p.len();
    }
    proof {
        if p@.len() <= v@.skip(i as int).len() {
            assert(v@.skip(i as int).take(p@.len() as int) == v@.subrange(i as int, i + p@.len()));
        }
    }
    i
}

// ---------------------------------------------------------------------------
// Laws
// ---------------------------------------------------------------------------

/// Sanitised text holds only safe characters.
pub proof fn lemma_sanitized_is_safe(s: Seq<char>)
    ensures
        forall|i: int| 0 <= i < sanitized(s).len() ==> is_safe_char(#[trigger] sanitized(s)[i]),
{
    assert forall|i: int| 0 <= i < sanitized(s).len() implies is_safe_char(
        #[trigger] sanitized(s)[i],
    ) by {
        s.lemma_filter_pred(safe_filter(), i);
    }
}

/// A text of safe characters passes the sanitiser unchanged.
pub proof fn lemma_sanitize_keeps_safe_text(s: Seq<char>)
    requires
        forall|i: int| 0 <= i < s.len() ==> is_safe_char(#[trigger] s[i]),
    ensures
        sanitized(s) == s,
    decreases s.len(),
{
    reveal(Seq::filter);
    if s.len() > 0 {
        lemma_sanitize_keeps_safe_text(s.drop_last());
        assert(is_safe_char(s[s.len() - 1]));
        assert(s.drop_last().push(s.last()) == s);
    }
}

/// Sanitising twice is sanitising once.
pub proof fn lemma_sanitize_idempotent(s: Seq<char>)
    ensures
        sanitized(sanitized(s)) == sanitized(s),
{
    lemma_sanitized_is_safe(s);
    lemma_sanitize_keeps_safe_text(sanitized(s));
}

/// The fitting prefix fits the limit and is a prefix of the text.
proof fn lemma_fit_prefix_fits(s: Seq<char>, max: nat)
    ensures
        utf8_len(fit_prefix(s, max)) <= max,
        fit_prefix(s, max).len() <= s.len(),
        fit_prefix(s, max) == s.take(fit_prefix(s, max).len() as int),
    decreases s.len(),
{
    if utf8_len(s) <= max || s.len() == 0 {
        assert(s.take(s.len() as int) == s);
    } else {
        lemma_fit_prefix_fits(s.drop_last(), max);
        let p = fit_prefix(s.drop_last(), max);
        assert(s.drop_last().take(p.len() as int) == s.take(p.len() as int));
    }
}

/// Every sentence that `smart_split` yields takes at most `max` bytes and is
/// a prefix of the corresponding piece of the text between sentence ends;
/// it is the whole piece when the piece fits.
pub proof fn lemma_split_sentences_fit(s: Seq<char>, max: nat, k: int)
    requires
        0 <= k < split_sentences(s, max).len(),
    ensures
        utf8_len(split_sentences(s, max)[k]) <= max,
        split_sentences(s, max)[k] == split_on(s, sentence_end())[k].take(
            split_sentences(s, max)[k].len() as int,
        ),
        utf8_len(split_on(s, sentence_end())[k]) <= max ==> split_sentences(s, max)[k]
            == split_on(s, sentence_end())[k],
{
    lemma_fit_prefix_fits(split_on(s, sentence_end())[k], max);
}

/// No piece of a split holds a separator.
pub proof fn lemma_split_on_pieces_hold_no_separator(s: Seq<char>, sep: spec_fn(char) -> bool)
    ensures
        forall|k: int, j: int|
            0 <= k < split_on(s, sep).len() && 0 <= j < split_on(s, sep)[k].len() ==> !sep(
                #[trigger] split_on(s, sep)[k][j],
            ),
        split_on(s, sep).len() >= 1,
    decreases s.len(),
{
    if s.len() > 0 {
        lemma_split_on_pieces_hold_no_separator(s.drop_last(), sep);
        let prev = split_on(s.drop_last(), sep);
        let next = split_on(s, sep);
        if !sep(s.last()) {
            assert forall|k: int, j: int|
                0 <= k < next.len() && 0 <= j < next[k].len() implies !sep(#[trigger] next[k][j]) by {
                if k == prev.len() - 1 {
                    if j < prev[k].len() {
                        assert(next[k][j] == prev[k][j]);
                    }
                } else {
                    assert(next[k] == prev[k]);
                }
            }
        } else {
            assert forall|k: int, j: int|
                0 <= k < next.len() && 0 <= j < next[k].len() implies !sep(#[trigger] next[k][j]) by {
                assert(next[k] == prev[k]);
            }
        }
    }
}

/// Puts `seps[i]` between `pieces[i]` and `pieces[i + 1]`.
pub open spec fn interleave(pieces: Seq<Seq<char>>, seps: Seq<char>) -> Seq<char>
    decreases pieces.len(),
{
    if pieces.len() <= 1 || seps.len() == 0 {
        if pieces.len() == 0 {
            Seq::empty()
        } else {
            pieces[0]
        }
    } else {
        interleave(pieces.drop_last(), seps.drop_last()).push(seps.last()) + pieces.last()
    }
}

/// Splitting loses nothing: the pieces with the separators between them,
/// in order, give the text back; there is one piece more than separators.
pub proof fn lemma_split_on_rejoin(s: Seq<char>, sep: spec_fn(char) -> bool)
    ensures
        split_on(s, sep).len() == s.filter(sep).len() + 1,
        interleave(split_on(s, sep), s.filter(sep)) == s,
    decreases s.len(),
{
    reveal(Seq::filter);
    if s.len() > 0 {
        lemma_split_on_rejoin(s.drop_last(), sep);
        let prev = split_on(s.drop_last(), sep);
        let next = split_on(s, sep);
        let seps = s.drop_last().filter(sep);
        assert(s.drop_last().push(s.last()) == s);
        if sep(s.last()) {
            assert(s.filter(sep) == seps.push(s.last()));
            assert(next.drop_last() == prev);
            assert(seps.push(s.last()).drop_last() == seps);
            assert(interleave(prev, seps).push(s.last()) + Seq::<char>::empty() == s);
        } else {
            assert(s.filter(sep) == seps);
            lemma_interleave_extend_last(prev, seps, s.last());
        }
    } else {
        assert(split_on(s, sep) == seq![Seq::<char>::empty()]);
    }
}

/// Extending the last piece extends the interleaving.
proof fn lemma_interleave_extend_last(pieces: Seq<Seq<char>>, seps: Seq<char>, x: char)
    requires
        pieces.len() == seps.len() + 1,
    ensures
        interleave(pieces.update(pieces.len() - 1, pieces.last().push(x)), seps) == interleave(
            pieces,
            seps,
        ).push(x),
{
    let upd = pieces.update(pieces.len() - 1, pieces.last().push(x));
    if pieces.len() > 1 {
        assert(upd.drop_last() == pieces.drop_last());
        assert(upd.last() == pieces.last().push(x));
    }
}

/// Reading back the decimal notation of `n` gives `n`.
pub proof fn lemma_parse_decimal(n: nat, max: nat)
    requires
        n <= max,
    ensures
        parse_unsigned_spec(decimal(n), max) == Ok::<nat, IntErrorKind>(n),
{
    lemma_decimal_digits(n);
    lemma_parse_digits_decimal(0, n, Seq::empty(), max);
    assert(decimal(n) + Seq::<char>::empty() == decimal(n));
}

/// The decimal notation is non-empty and made of digits.
pub proof fn lemma_decimal_digits(n: nat)
    ensures
        decimal(n).len() >= 1,
        forall|i: int| 0 <= i < decimal(n).len() ==> is_digit(#[trigger] decimal(n)[i]),
    decreases n,
{
    if n >= 10 {
        lemma_decimal_digits(n / 10);
    }
}

/// A number below 1000 has at most three decimal digits.
pub proof fn lemma_decimal_len(n: nat)
    ensures
        n < 10 ==> decimal(n).len() == 1,
        n < 100 ==> decimal(n).len() <= 2,
        n < 1000 ==> decimal(n).len() <= 3,
    decreases n,
{
    if n >= 10 {
        lemma_decimal_len(n / 10);
    }
}

/// Reading the decimal digits of `n` from zero, then going on with `rest`,
/// is going on with `rest` from `n`.
proof fn lemma_parse_digits_decimal(acc: nat, n: nat, rest: Seq<char>, max: nat)
    requires
        acc == 0,
        n <= max,
    ensures
        parse_digits(acc, decimal(n) + rest, max) == parse_digits(n, rest, max),
    decreases n,
{
    if n < 10 {
        assert((decimal(n) + rest)[0] == digit_char(n));
        assert((decimal(n) + rest).drop_first() == rest);
    } else {
        let hi = n / 10;
        let lo = n % 10;
        lemma_parse_digits_decimal(acc, hi, seq![digit_char(lo)] + rest, max);
        assert(decimal(n) + rest == decimal(hi) + (seq![digit_char(lo)] + rest));
        let tail = seq![digit_char(lo)] + rest;
        assert(tail[0] == digit_char(lo));
        assert(tail.drop_first() == rest);
        assert(hi * 10 + lo == n);
    }
}


/// Splitting a text with no separator gives the text itself as the one piece.
pub proof fn lemma_split_on_without_separator(s: Seq<char>, sep: spec_fn(char) -> bool)
    requires
        forall|i: int| 0 <= i < s.len() ==> !sep(#[trigger] s[i]),
    ensures
        split_on(s, sep) == seq![s],
    decreases s.len(),
{
    if s.len() > 0 {
        lemma_split_on_without_separator(s.drop_last(), sep);
        assert(!sep(s[s.len() - 1]));
        assert(s.drop_last().push(s.last()) == s);
        assert(seq![s.drop_last()].update(0, s.drop_last().push(s.last())) == seq![s]);
    } else {
        assert(s == Seq::<char>::empty());
    }
}

/// Splitting `a`, a separator, then `b` gives the pieces of `a` followed by
/// the pieces of `b`.
pub proof fn lemma_split_on_at_separator(
    a: Seq<char>,
    c: char,
    b: Seq<char>,
    sep: spec_fn(char) -> bool,
)
    requires
        sep(c),
    ensures
        split_on(a + seq![c] + b, sep) == split_on(a, sep) + split_on(b, sep),
    decreases b.len(),
{
    let x = a + seq![c] + b;
    if b.len() == 0 {
        assert(x.drop_last() == a);
        assert(x.last() == c);
        assert(split_on(b, sep) == seq![Seq::<char>::empty()]);
        assert(split_on(a, sep).push(Seq::<char>::empty()) == split_on(a, sep) + split_on(b, sep));
    } else {
        lemma_split_on_at_separator(a, c, b.drop_last(), sep);
        assert(x.drop_last() == a + seq![c] + b.drop_last());
        assert(x.last() == b.last());
        lemma_split_on_nonempty(b.drop_last(), sep);
        lemma_split_on_nonempty(a, sep);
        let pa = split_on(a, sep);
        let pb = split_on(b.drop_last(), sep);
        if sep(b.last()) {
            assert((pa + pb).push(Seq::<char>::empty()) == pa + pb.push(Seq::<char>::empty()));
        } else {
            let q = pa + pb;
            assert(q.update(q.len() - 1, q.last().push(b.last())) == pa + pb.update(
                pb.len() - 1,
                pb.last().push(b.last()),
            ));
        }
    }
}

/// The sanitiser keeps exactly, among the ASCII characters, the letters,
/// the digits, space and `,.?!'_-`: everything else of ASCII (quotes,
/// `$`, `;`, `/`, control characters, ...) is dropped.
pub proof fn lemma_safe_ascii(c: char)
    requires
        (c as u32) < 0x80,
    ensures
        is_safe_char(c) <==> ('0' <= c <= '9' || 'a' <= c <= 'z' || 'A' <= c <= 'Z' || c == ' '
            || c == ',' || c == '.' || c == '?' || c == '!' || c == '\'' || c == '_' || c == '-'),
{
}

/// Text made only of ASCII letters, digits and spaces passes the sanitiser
/// unchanged.
pub proof fn lemma_sanitize_keeps_plain_words(s: Seq<char>)
    requires
        forall|i: int|
            0 <= i < s.len() ==> {
                let c = #[trigger] s[i];
                '0' <= c <= '9' || 'a' <= c <= 'z' || 'A' <= c <= 'Z' || c == ' '
            },
    ensures
        sanitized(s) == s,
{
    assert forall|i: int| 0 <= i < s.len() implies is_safe_char(#[trigger] s[i]) by {
        let c = s[i];
        assert('0' <= c <= '9' || 'a' <= c <= 'z' || 'A' <= c <= 'Z' || c == ' ');
    }
    lemma_sanitize_keeps_safe_text(s);
}

/// Beyond ASCII the sanitiser keeps exactly the Polish letters and the CJK
/// unified ideographs (U+4E00 to U+9FFF).
pub proof fn lemma_safe_beyond_ascii(c: char)
    requires
        (c as u32) >= 0x80,
    ensures
        is_safe_char(c) <==> (0x4E00 <= (c as u32) <= 0x9FFF || c == 'ą' || c == 'ć' || c == 'ę'
            || c == 'ł' || c == 'ń' || c == 'ó' || c == 'ś' || c == 'ź' || c == 'ż' || c == 'Ą'
            || c == 'Ć' || c == 'Ę' || c == 'Ł' || c == 'Ń' || c == 'Ó' || c == 'Ś' || c == 'Ź'
            || c == 'Ż'),
{
}

} // verus!
